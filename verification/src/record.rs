//! A row in memory: named values, the row's identifier and the time it was
//! made.

use vstd::prelude::*;
use crate::ast::Condition;
use crate::clock::unix_seconds_now;
use crate::error::RecordError;
use crate::text::str_eq;
use crate::tokens::Operator;
use crate::types::{Column, ColumnView, DataType};
use crate::value::{ASTValue, ValueView};

verus! {

/// The named values of a row as mathematical values, in the order in which
/// they are kept.
pub type Entries = Seq<(Seq<char>, ValueView)>;

/// A row: its identifier, its values by column name, and the Unix time in
/// seconds at which the record was made. A name is looked up from the front;
/// `set_value` keeps each name once.
#[derive(Debug, Clone)]
pub struct Record {
    pub id: u64,
    pub data: Vec<(String, ASTValue)>,
    pub timestamp: u64,
}

/// Named values as mathematical values.
pub open spec fn entries_view(data: Seq<(String, ASTValue)>) -> Entries {
    Seq::new(data.len(), |i: int| (data[i].0@, data[i].1@))
}

/// The first place at which a name stands among named values, if it stands
/// there at all.
pub open spec fn position(entries: Entries, key: Seq<char>) -> Option<int>
    decreases entries.len(),
{
    if entries.len() == 0 {
        None
    } else {
        match position(entries.drop_last(), key) {
            Some(at) => Some(at),
            None => if entries.last().0 == key {
                Some(entries.len() - 1)
            } else {
                None
            },
        }
    }
}

/// The value that stands under a name, if the name is there.
pub open spec fn lookup(entries: Entries, key: Seq<char>) -> Option<ValueView> {
    match position(entries, key) {
        Some(at) => Some(entries[at].1),
        None => None,
    }
}

/// Named values after a value has been put under a name: in the place of the
/// old value where the name was there, at the end where it was not.
pub open spec fn put(entries: Entries, key: Seq<char>, value: ValueView) -> Entries {
    match position(entries, key) {
        Some(at) => entries.update(at, (key, value)),
        None => entries.push((key, value)),
    }
}

/// Where `position` finds a name, the name stands, and it stands nowhere
/// before; where it finds none, the name stands nowhere.
pub proof fn lemma_position(entries: Entries, key: Seq<char>)
    ensures
        match position(entries, key) {
            Some(at) => 0 <= at < entries.len() && entries[at].0 == key && forall|j: int|
                0 <= j < at ==> (#[trigger] entries[j]).0 != key,
            None => forall|j: int| 0 <= j < entries.len() ==> (#[trigger] entries[j]).0 != key,
        },
    decreases entries.len(),
{
    if entries.len() > 0 {
        lemma_position(entries.drop_last(), key);
        match position(entries.drop_last(), key) {
            Some(at) => {
                assert(entries.drop_last()[at] == entries[at]);
                assert forall|j: int| 0 <= j < at implies (#[trigger] entries[j]).0 != key by {
                    assert(entries.drop_last()[j] == entries[j]);
                }
            },
            None => {
                assert forall|j: int| 0 <= j < entries.len() - 1 implies (
                #[trigger] entries[j]).0 != key by {
                    assert(entries.drop_last()[j] == entries[j]);
                }
            },
        }
    }
}

/// The first place at which a name stands is the place `position` gives.
pub proof fn lemma_position_is(entries: Entries, key: Seq<char>, at: int)
    requires
        0 <= at < entries.len(),
        entries[at].0 == key,
        forall|j: int| 0 <= j < at ==> (#[trigger] entries[j]).0 != key,
    ensures
        position(entries, key) == Some(at),
{
    lemma_position(entries, key);
}

/// After `put` the name gives the new value and every other name gives what
/// it gave.
pub proof fn lemma_put(entries: Entries, key: Seq<char>, value: ValueView, other: Seq<char>)
    ensures
        lookup(put(entries, key, value), other) == if other == key {
            Some(value)
        } else {
            lookup(entries, other)
        },
{
    let after = put(entries, key, value);
    lemma_position(entries, key);
    lemma_position(entries, other);
    lemma_position(after, other);
    match position(entries, key) {
        Some(at) => {
            if other == key {
                lemma_position_is(after, other, at);
            } else {
                match position(entries, other) {
                    Some(there) => {
                        lemma_position_is(after, other, there);
                    },
                    None => {
                        if position(after, other) is Some {
                            let j = position(after, other)->0;
                            assert(entries[j].0 != other);
                        }
                    },
                }
            }
        },
        None => {
            if other == key {
                lemma_position_is(after, other, entries.len() as int);
            } else {
                match position(entries, other) {
                    Some(there) => {
                        lemma_position_is(after, other, there);
                    },
                    None => {
                        if position(after, other) is Some {
                            let j = position(after, other)->0;
                            if j < entries.len() {
                                assert(entries[j].0 != other);
                            }
                        }
                    },
                }
            }
        },
    }
}

impl Record {
    /// The named values of the record as mathematical values.
    pub open spec fn entries(&self) -> Entries {
        entries_view(self.data@)
    }

    /// A record without values, made at the given time.
    pub fn with_timestamp(id: u64, timestamp: u64) -> (record: Record)
        ensures
            record.id == id,
            record.timestamp == timestamp,
            record.entries() == Seq::<(Seq<char>, ValueView)>::empty(),
    {
        let record = Record { id, data: Vec::new(), timestamp };
        assert(record.entries() =~= Seq::<(Seq<char>, ValueView)>::empty());
        record
    }

    /// A record without values, made now: with the seconds since the Unix
    /// epoch as its timestamp, and 0 where the clock is set before it.
    pub fn new(id: u64) -> (record: Record)
        ensures
            record.id == id,
            record.entries() == Seq::<(Seq<char>, ValueView)>::empty(),
    {
        let now = match unix_seconds_now() {
            Some(seconds) => seconds,
            None => 0,
        };
        Record::with_timestamp(id, now)
    }

    /// The place of the first value under a name.
    fn find(&self, column: &str) -> (found: Option<usize>)
        ensures
            match found {
                Some(at) => position(self.entries(), column@) == Some(at as int) && at
                    < self.data@.len(),
                None => position(self.entries(), column@) is None,
            },
    {
        let mut i: usize = 0;
        let ghost entries = self.entries();
        while i < self.data.len()
            invariant
                i <= self.data@.len(),
                entries == self.entries(),
                forall|j: int| 0 <= j < i ==> (#[trigger] entries[j]).0 != column@,
            decreases self.data@.len() - i,
        {
            if str_eq(self.data[i].0.as_str(), column) {
                proof {
                    lemma_position_is(entries, column@, i as int);
                }
                return Some(i);
            }
            i += 1;
        }
        proof {
            lemma_position(entries, column@);
        }
        None
    }

    /// Puts a value under a column name, in the place of the value that was
    /// there if there was one.
    pub fn set_value(&mut self, column: &str, value: ASTValue)
        ensures
            final(self).entries() == put(old(self).entries(), column@, value@),
            final(self).id == old(self).id,
            final(self).timestamp == old(self).timestamp,
    {
        let ghost before = self.entries();
        match self.find(column) {
            Some(at) => {
                self.data.set(at, (column.to_string(), value));
                assert(self.entries() =~= put(before, column@, value@));
            },
            None => {
                self.data.push((column.to_string(), value));
                assert(self.entries() =~= put(before, column@, value@));
            },
        }
    }

    /// A copy of the record.
    pub fn duplicate(&self) -> (copy: Record)
        ensures
            copy.id == self.id,
            copy.timestamp == self.timestamp,
            copy.entries() == self.entries(),
    {
        let mut data: Vec<(String, ASTValue)> = Vec::new();
        let mut i: usize = 0;
        while i < self.data.len()
            invariant
                i <= self.data@.len(),
                data@.len() == i,
                forall|j: int|
                    0 <= j < i ==> (#[trigger] data@[j]).0@ == self.data@[j].0@ && data@[j].1@
                        == self.data@[j].1@,
            decreases self.data@.len() - i,
        {
            data.push((self.data[i].0.clone(), self.data[i].1.duplicate()));
            i += 1;
        }
        let copy = Record { id: self.id, data, timestamp: self.timestamp };
        assert(copy.entries() =~= self.entries());
        copy
    }

    /// The value under a column name, if there is one.
    pub fn get_value(&self, column: &str) -> (found: Option<&ASTValue>)
        ensures
            match found {
                Some(value) => lookup(self.entries(), column@) == Some(value@),
                None => lookup(self.entries(), column@) is None,
            },
    {
        match self.find(column) {
            Some(at) => Some(&self.data[at].1),
            None => None,
        }
    }
}

/// Whether a value may stand in a column of the given type as `validate`
/// sees it: an integer in INTEGER, a float in FLOAT, a text in TEXT, a
/// truth value in BOOLEAN, and NULL anywhere.
pub open spec fn valid_type(value: ValueView, expected: DataType) -> bool {
    match value {
        ValueView::Int(_) => expected == DataType::Integer,
        ValueView::Float(_) => expected == DataType::Float,
        ValueView::String(_) => expected == DataType::Text,
        ValueView::Boolean(_) => expected == DataType::Boolean,
        ValueView::Null => true,
    }
}

/// What validating a record against the first `k` columns gives: the error
/// of the first column that has one. A value of the wrong kind is a
/// `TypeMismatch`; no value at all in a column that does not take NULL is a
/// `MissingColumn`.
pub open spec fn validation(entries: Entries, cols: Seq<ColumnView>, k: nat) -> Result<
    (),
    RecordError,
>
    decreases k,
{
    if k == 0 {
        Ok(())
    } else {
        match validation(entries, cols, (k - 1) as nat) {
            Err(e) => Err(e),
            Ok(()) => match lookup(entries, cols[k - 1].name) {
                Some(value) => if valid_type(value, cols[k - 1].data_type) {
                    Ok(())
                } else {
                    Err(RecordError::TypeMismatch)
                },
                None => if cols[k - 1].nullable {
                    Ok(())
                } else {
                    Err(RecordError::MissingColumn)
                },
            },
        }
    }
}

/// Once validating has failed, validating against more columns fails the
/// same way.
pub proof fn lemma_validation_error_stays(
    entries: Entries,
    cols: Seq<ColumnView>,
    failed: nat,
    k: nat,
)
    requires
        failed <= k,
        validation(entries, cols, failed) is Err,
    ensures
        validation(entries, cols, k) == validation(entries, cols, failed),
    decreases k,
{
    if failed < k {
        lemma_validation_error_stays(entries, cols, failed, (k - 1) as nat);
    }
}

/// The value that an operand of a comparison stands for in a row: the value
/// under the name for a column, the value itself for a value, and none for
/// anything else or for a column that the row does not have.
pub open spec fn operand(entries: Entries, condition: Condition) -> Option<ValueView> {
    match condition {
        Condition::Column(name) => lookup(entries, name@),
        Condition::Value(value) => Some(value@),
        Condition::Comparison { .. } => None,
    }
}

/// Whether a comparison holds of two values: integers compare by `=`, `!=`,
/// `<`, `>`, `<=`, `>=`; texts by `=` and `!=`; nothing else compares.
pub open spec fn compares(left: ValueView, right: ValueView, operator: Operator) -> bool {
    match (left, right) {
        (ValueView::Int(l), ValueView::Int(r)) => match operator {
            Operator::EQUALS => l == r,
            Operator::NE => l != r,
            Operator::LT => l < r,
            Operator::GT => l > r,
            Operator::LTorE => l <= r,
            Operator::GTorE => l >= r,
            _ => false,
        },
        (ValueView::String(l), ValueView::String(r)) => match operator {
            Operator::EQUALS => l == r,
            Operator::NE => l != r,
            _ => false,
        },
        _ => false,
    }
}

/// Whether a condition holds of a row. `AND` and `OR` join two conditions;
/// every other operator compares two operands and fails where one of them
/// stands for no value. A bare column or value holds of no row.
pub open spec fn holds(entries: Entries, condition: Condition) -> bool
    decreases condition,
{
    match condition {
        Condition::Comparison { operator, left, right } => match operator {
            Operator::AND => holds(entries, *left) && holds(entries, *right),
            Operator::OR => holds(entries, *left) || holds(entries, *right),
            _ => match (operand(entries, *left), operand(entries, *right)) {
                (Some(l), Some(r)) => compares(l, r, operator),
                _ => false,
            },
        },
        _ => false,
    }
}

impl Record {
    /// Whether a value may stand in a column of the given type.
    fn is_valid_type(value: &ASTValue, expected_type: &DataType) -> (ok: bool)
        ensures
            ok == valid_type(value@, *expected_type),
    {
        match value {
            ASTValue::Int(_) => *expected_type == DataType::Integer,
            ASTValue::Float(_) => *expected_type == DataType::Float,
            ASTValue::String(_) => *expected_type == DataType::Text,
            ASTValue::Boolean(_) => *expected_type == DataType::Boolean,
            ASTValue::Null => true,
        }
    }

    /// Checks the record against a schema, column by column.
    pub fn validate(&self, columns: &[Column]) -> (checked: Result<(), RecordError>)
        ensures
            checked == validation(self.entries(), crate::types::column_views(columns@), columns@.len()),
    {
        let ghost cols = crate::types::column_views(columns@);
        let n = columns.len();
        let mut i: usize = 0;
        while i < n
            invariant
                i <= n,
                n == columns@.len(),
                cols == crate::types::column_views(columns@),
                validation(self.entries(), cols, i as nat) is Ok,
            decreases n - i,
        {
            let column = &columns[i];
            assert(cols[i as int] == columns@[i as int]@);
            match self.get_value(column.name.as_str()) {
                Some(value) => {
                    if !Record::is_valid_type(value, &column.data_type) {
                        proof {
                            lemma_validation_error_stays(
                                self.entries(),
                                cols,
                                (i + 1) as nat,
                                n as nat,
                            );
                        }
                        return Err(RecordError::TypeMismatch);
                    }
                },
                None => {
                    if !column.nullable {
                        proof {
                            lemma_validation_error_stays(
                                self.entries(),
                                cols,
                                (i + 1) as nat,
                                n as nat,
                            );
                        }
                        return Err(RecordError::MissingColumn);
                    }
                },
            }
            i += 1;
        }
        Ok(())
    }

    /// The value that an operand of a comparison stands for in this record.
    fn extract_condition_value(&self, condition: &Condition) -> (found: Option<ASTValue>)
        ensures
            match found {
                Some(value) => operand(self.entries(), *condition) == Some(value@),
                None => operand(self.entries(), *condition) is None,
            },
    {
        match condition {
            Condition::Column(column_name) => match self.get_value(column_name.as_str()) {
                Some(value) => Some(value.duplicate()),
                None => None,
            },
            Condition::Value(value) => Some(value.duplicate()),
            _ => None,
        }
    }

    /// Whether a comparison holds of two values.
    fn compare_values(left: &ASTValue, right: &ASTValue, operator: &Operator) -> (ok: bool)
        ensures
            ok == compares(left@, right@, *operator),
    {
        match (left, right) {
            (ASTValue::Int(l), ASTValue::Int(r)) => match operator {
                Operator::EQUALS => *l == *r,
                Operator::NE => *l != *r,
                Operator::LT => *l < *r,
                Operator::GT => *l > *r,
                Operator::LTorE => *l <= *r,
                Operator::GTorE => *l >= *r,
                _ => false,
            },
            (ASTValue::String(l), ASTValue::String(r)) => match operator {
                Operator::EQUALS => str_eq(l.as_str(), r.as_str()),
                Operator::NE => !str_eq(l.as_str(), r.as_str()),
                _ => false,
            },
            _ => false,
        }
    }

    /// Whether a condition holds of this record.
    pub fn evaluate_condition(&self, condition: &Condition) -> (ok: bool)
        ensures
            ok == holds(self.entries(), *condition),
        decreases condition,
    {
        match condition {
            Condition::Comparison { operator, left, right } => match operator {
                Operator::AND => self.evaluate_condition(left) && self.evaluate_condition(right),
                Operator::OR => self.evaluate_condition(left) || self.evaluate_condition(right),
                _ => {
                    let l = self.extract_condition_value(left);
                    let r = self.extract_condition_value(right);
                    match (l, r) {
                        (Some(lv), Some(rv)) => Record::compare_values(&lv, &rv, operator),
                        _ => false,
                    }
                },
            },
            _ => false,
        }
    }
}

} // verus!
