//! Statements on a table: checking values against the schema, inserting,
//! selecting, updating and deleting rows.

use vstd::prelude::*;
use vstd::string::*;
use crate::ast::{Assignment, ColumnDefinition, Condition};
use crate::error::{CatalogError, PageError, RecordError};
use crate::record::{lemma_put, lookup, put, Entries, Record};
use crate::page::{lemma_fresh_page, record_count, slot_at, HEADER_LEN, PAGE_SIZE, SLOT_LEN};
use crate::record_codec::{entries_from, is_text_type, record_payload, row_values};
use crate::scan::{clause_of, lists, live_rows, Found, ScanRow};
use crate::store::{no_room, TableStore};
use crate::text::{chars_eq, str_eq};
use crate::types::{column_views, Column, ColumnView, DataType, RowId, TupleLoc};
use crate::value::{ASTValue, ValueView};

verus! {

/// Whether a value is of the kind that a column type holds: an integer for
/// INTEGER, a float for FLOAT, a truth value for BOOLEAN, a text for TEXT,
/// CHAR, BLOB and JSON, and NULL for any type.
pub open spec fn kind_fits(value: ValueView, dt: DataType) -> bool {
    match value {
        ValueView::Null => true,
        ValueView::Int(_) => dt == DataType::Integer,
        ValueView::Float(_) => dt == DataType::Float,
        ValueView::Boolean(_) => dt == DataType::Boolean,
        ValueView::String(_) => is_text_type(dt),
    }
}

/// What checking a value against a column gives: `NotNullViolation` for
/// NULL in a column that does not take it, `TypeMismatch` for a value of
/// another kind than the column.
pub open spec fn value_check(value: ValueView, column: ColumnView) -> Result<(), RecordError> {
    if !column.nullable && value is Null {
        Err(RecordError::NotNullViolation)
    } else if !kind_fits(value, column.data_type) {
        Err(RecordError::TypeMismatch)
    } else {
        Ok(())
    }
}

/// What checking the first `k` values of a row against their columns gives:
/// the error of the first value that has one.
pub open spec fn row_check(values: Seq<ValueView>, cols: Seq<ColumnView>, k: nat) -> Result<
    (),
    RecordError,
>
    decreases k,
{
    if k == 0 {
        Ok(())
    } else {
        match row_check(values, cols, (k - 1) as nat) {
            Err(e) => Err(e),
            Ok(()) => value_check(values[k - 1], cols[k - 1]),
        }
    }
}

/// Once checking a row has failed, checking more of it fails the same way.
pub proof fn lemma_row_check_error_stays(
    values: Seq<ValueView>,
    cols: Seq<ColumnView>,
    failed: nat,
    k: nat,
)
    requires
        failed <= k,
        row_check(values, cols, failed) is Err,
    ensures
        row_check(values, cols, k) == row_check(values, cols, failed),
    decreases k,
{
    if failed < k {
        lemma_row_check_error_stays(values, cols, failed, (k - 1) as nat);
    }
}

/// The values of a list as mathematical values.
pub open spec fn value_views(values: Seq<ASTValue>) -> Seq<ValueView> {
    Seq::new(values.len(), |i: int| values[i]@)
}

/// Checks a value against the column that it is meant for.
pub fn check_value(value: &ASTValue, column: &Column) -> (checked: Result<(), RecordError>)
    ensures
        checked == value_check(value@, column@),
{
    if !column.nullable && value.is_null() {
        return Err(RecordError::NotNullViolation);
    }
    let fits = match value {
        ASTValue::Null => true,
        ASTValue::Int(_) => column.data_type == DataType::Integer,
        ASTValue::Float(_) => column.data_type == DataType::Float,
        ASTValue::Boolean(_) => column.data_type == DataType::Boolean,
        ASTValue::String(_) => column.data_type == DataType::Text || column.data_type
            == DataType::Char || column.data_type == DataType::Blob || column.data_type
            == DataType::Json,
    };
    if fits {
        Ok(())
    } else {
        Err(RecordError::TypeMismatch)
    }
}

/// What making a row of values for a schema gives: `ColumnCountMismatch`
/// where there are not as many values as columns, else the error of the
/// first value that fails its check, else the values under the names of
/// their columns.
pub open spec fn row_for(values: Seq<ValueView>, cols: Seq<ColumnView>) -> Result<
    Entries,
    RecordError,
> {
    if values.len() != cols.len() {
        Err(RecordError::ColumnCountMismatch)
    } else {
        match row_check(values, cols, cols.len()) {
            Err(e) => Err(e),
            Ok(()) => Ok(entries_from(cols, values, cols.len())),
        }
    }
}

/// Makes the record of a new row from one value for each column of a
/// schema, in schema order, checking each value against its column.
pub fn build_row(columns: &[Column], values: &Vec<ASTValue>) -> (built: Result<
    Record,
    RecordError,
>)
    ensures
        match built {
            Ok(record) => row_for(value_views(values@), column_views(columns@)) == Ok::<
                Entries,
                RecordError,
            >(record.entries()),
            Err(e) => row_for(value_views(values@), column_views(columns@)) == Err::<
                Entries,
                RecordError,
            >(e),
        },
{
    let n = columns.len();
    if values.len() != n {
        return Err(RecordError::ColumnCountMismatch);
    }
    let ghost cols = column_views(columns@);
    let ghost vals = value_views(values@);
    let mut record = Record::new(0);
    let mut i: usize = 0;
    while i < n
        invariant
            i <= n,
            n == columns@.len(),
            n == values@.len(),
            cols == column_views(columns@),
            vals == value_views(values@),
            row_check(vals, cols, i as nat) is Ok,
            record.entries() == entries_from(cols, vals, i as nat),
        decreases n - i,
    {
        assert(cols[i as int] == columns@[i as int]@);
        assert(vals[i as int] == values@[i as int]@);
        match check_value(&values[i], &columns[i]) {
            Ok(()) => {},
            Err(e) => {
                proof {
                    lemma_row_check_error_stays(vals, cols, (i + 1) as nat, n as nat);
                }
                return Err(e);
            },
        }
        record.set_value(columns[i].name.as_str(), values[i].duplicate());
        i += 1;
    }
    Ok(record)
}

impl TableStore {
    /// Whether the heap takes a payload that needs `need` bytes with its
    /// slot: a page has the room, or a page can be added and has it.
    pub open spec fn takes(&self, need: int) -> bool {
        !no_room(self.state.free_space@, self.pages@.len() as int, need) || (self.pages@.len()
            < u32::MAX && need <= PAGE_SIZE - HEADER_LEN)
    }

    /// What inserting a row of the given values gives: the next row
    /// identifier; `Record(..)` where the values do not make a row of the
    /// schema or the row cannot be written under it; `Page(PageFull)` where
    /// the row identifiers have run out and the last is taken, or the heap
    /// does not take the row.
    pub open spec fn inserting(&self, values: Seq<ValueView>) -> Result<RowId, CatalogError> {
        let row_id = self.state.next_row_id;
        match row_for(values, self.cols()) {
            Err(cause) => Err(CatalogError::Record(cause)),
            Ok(entries) => if self.index().contains_key(row_id) {
                Err(CatalogError::Page(PageError::PageFull))
            } else {
                match record_payload(row_id, entries, self.cols()) {
                    Err(cause) => Err(CatalogError::Record(cause)),
                    Ok(payload) => if self.takes(payload.len() + SLOT_LEN) {
                        Ok(row_id)
                    } else {
                        Err(CatalogError::Page(PageError::PageFull))
                    },
                }
            },
        }
    }

    /// Inserts a row: checks the values against the schema, gives the row
    /// the next row identifier, and writes it into the heap. The identifier
    /// is used up also where writing fails.
    pub fn insert(&mut self, values: &Vec<ASTValue>) -> (done: Result<RowId, CatalogError>)
        requires
            old(self).wf(),
        ensures
            final(self).wf(),
            final(self).name == old(self).name,
            final(self).columns == old(self).columns,
            done == old(self).inserting(value_views(values@)),
            match done {
                Ok(row_id) => {
                    &&& final(self).rows() == old(self).rows().insert(
                        row_id,
                        row_values(
                            row_for(value_views(values@), old(self).cols())->Ok_0,
                            old(self).cols(),
                        ),
                    )
                    &&& final(self).state.next_row_id == crate::recovery::id_after(row_id)
                },
                Err(e) => {
                    &&& final(self).rows() == old(self).rows()
                    &&& match row_for(value_views(values@), old(self).cols()) {
                        Err(cause) => final(self).same_as(old(self)),
                        Ok(entries) => final(self).state.next_row_id == crate::recovery::id_after(
                            old(self).state.next_row_id,
                        ),
                    }
                },
            },
    {
        let record = match build_row(self.columns.as_slice(), values) {
            Ok(record) => record,
            Err(e) => {
                return Err(CatalogError::Record(e));
            },
        };
        let row_id = self.next_row_id();
        let ghost mid = *self;
        proof {
            assert(mid.rows() =~= old(self).rows());
        }
        if self.state.row_index.contains_key(&row_id) {
            return Err(CatalogError::Page(PageError::PageFull));
        }
        proof {
            crate::store::lemma_ids(old(self).index(), old(self).state.next_row_id);
            lemma_fresh_page();
        }
        match self.append_record(row_id, &record) {
            Ok(_) => Ok(row_id),
            Err(e) => {
                proof {
                    crate::store::lemma_unchanged_rows(mid, *self);
                }
                Err(e)
            },
        }
    }
}

/// The columns of a table that is created from the columns of a `CREATE
/// TABLE` statement: each with its name and type, and nullable where the
/// keyword `NULL` stands among its qualifiers.
pub fn columns_from_definitions(definitions: &Vec<ColumnDefinition>) -> (columns: Vec<Column>)
    ensures
        columns@.len() == definitions@.len(),
        forall|i: int|
            0 <= i < columns@.len() ==> (#[trigger] columns@[i]).name@
                == definitions@[i].column_name@ && columns@[i].data_type
                == DataType::of_keyword(definitions@[i].column_type) && columns@[i].nullable
                == names_null(definitions@[i].columns_constraints@),
{
    let mut columns: Vec<Column> = Vec::new();
    let mut i: usize = 0;
    while i < definitions.len()
        invariant
            i <= definitions@.len(),
            columns@.len() == i,
            forall|j: int|
                0 <= j < i ==> (#[trigger] columns@[j]).name@ == definitions@[j].column_name@
                    && columns@[j].data_type == DataType::of_keyword(definitions@[j].column_type)
                    && columns@[j].nullable == names_null(definitions@[j].columns_constraints@),
        decreases definitions@.len() - i,
    {
        let definition = &definitions[i];
        let nullable = has_null(&definition.columns_constraints);
        columns.push(
            Column::new(
                definition.column_name.clone(),
                DataType::from(definition.column_type),
                nullable,
            ),
        );
        i += 1;
    }
    columns
}

/// Whether the keyword `NULL` stands among the qualifiers of a column.
pub open spec fn names_null(constraints: Seq<Vec<char>>) -> bool {
    exists|i: int| 0 <= i < constraints.len() && (#[trigger] constraints[i])@ == seq![
        'N',
        'U',
        'L',
        'L',
    ]
}

/// Whether the keyword `NULL` stands among the qualifiers of a column.
fn has_null(constraints: &Vec<Vec<char>>) -> (found: bool)
    ensures
        found == names_null(constraints@),
{
    let mut word: Vec<char> = Vec::new();
    word.push('N');
    word.push('U');
    word.push('L');
    word.push('L');
    assert(word@ =~= seq!['N', 'U', 'L', 'L']);
    let mut i: usize = 0;
    while i < constraints.len()
        invariant
            i <= constraints@.len(),
            word@ == seq!['N', 'U', 'L', 'L'],
            forall|j: int| 0 <= j < i ==> (#[trigger] constraints@[j])@ != seq!['N', 'U', 'L', 'L'],
        decreases constraints@.len() - i,
    {
        if chars_eq(&constraints[i], &word) {
            return true;
        }
        i += 1;
    }
    false
}

/// The rows of a `SELECT`, each with the columns that were asked for.
#[derive(Debug)]
pub struct ResultSet {
    pub columns: Vec<String>,
    pub records: Vec<Record>,
}

impl ResultSet {
    /// A result without rows.
    pub fn new(columns: Vec<String>) -> (set: ResultSet)
        ensures
            set.columns == columns,
            set.records@.len() == 0,
    {
        ResultSet { columns, records: Vec::new() }
    }

    /// Adds a row at the end.
    pub fn add_record(&mut self, record: Record)
        ensures
            final(self).columns == old(self).columns,
            final(self).records@ == old(self).records@.push(record),
    {
        self.records.push(record);
    }
}

/// What a statement gave.
#[derive(Debug)]
pub enum QueryResult {
    Select(ResultSet),
    /// The number of rows that were inserted.
    Insert(u64),
    /// The number of rows that were updated.
    Update(u64),
    /// The number of rows that were deleted.
    Delete(u64),
    Create,
    Drop,
    Use(String),
    Info(Vec<String>),
}

/// The texts of a list as sequences of characters.
pub open spec fn name_views(names: Seq<String>) -> Seq<Seq<char>> {
    Seq::new(names.len(), |i: int| names[i]@)
}

/// The names of the columns of a schema, in order.
pub open spec fn column_names(cols: Seq<ColumnView>) -> Seq<Seq<char>> {
    Seq::new(cols.len(), |i: int| cols[i].name)
}

/// The columns that a `SELECT` shows: every column of the schema for `*`
/// alone, else the columns that were named.
pub open spec fn shown_columns(asked: Seq<Seq<char>>, cols: Seq<ColumnView>) -> Seq<Seq<char>> {
    if asked.len() == 1 && asked[0] == "*"@ {
        column_names(cols)
    } else {
        asked
    }
}

/// The place of the first column of the given name in a schema, if the
/// schema has one.
pub open spec fn column_at(cols: Seq<ColumnView>, name: Seq<char>) -> Option<int>
    decreases cols.len(),
{
    if cols.len() == 0 {
        None
    } else {
        match column_at(cols.drop_last(), name) {
            Some(at) => Some(at),
            None => if cols.last().name == name {
                Some(cols.len() - 1)
            } else {
                None
            },
        }
    }
}

/// Where `column_at` finds a column, the column has the name, and no column
/// before it has; where it finds none, no column has.
pub proof fn lemma_column_at(cols: Seq<ColumnView>, name: Seq<char>)
    ensures
        match column_at(cols, name) {
            Some(at) => 0 <= at < cols.len() && cols[at].name == name && forall|j: int|
                0 <= j < at ==> (#[trigger] cols[j]).name != name,
            None => forall|j: int| 0 <= j < cols.len() ==> (#[trigger] cols[j]).name != name,
        },
    decreases cols.len(),
{
    if cols.len() > 0 {
        lemma_column_at(cols.drop_last(), name);
        match column_at(cols.drop_last(), name) {
            Some(at) => {
                assert(cols.drop_last()[at] == cols[at]);
                assert forall|j: int| 0 <= j < at implies (#[trigger] cols[j]).name != name by {
                    assert(cols.drop_last()[j] == cols[j]);
                }
            },
            None => {
                assert forall|j: int| 0 <= j < cols.len() - 1 implies (#[trigger] cols[j]).name
                    != name by {
                    assert(cols.drop_last()[j] == cols[j]);
                }
            },
        }
    }
}

/// Whether a schema has a column of the given name.
pub open spec fn has_column(cols: Seq<ColumnView>, name: Seq<char>) -> bool {
    column_at(cols, name) is Some
}

/// The first `k` of the named columns of a row, or `MissingColumn` where
/// the row lacks one of them.
pub open spec fn projected(entries: Entries, names: Seq<Seq<char>>, k: nat) -> Result<
    Entries,
    RecordError,
>
    decreases k,
{
    if k == 0 {
        Ok(Seq::<(Seq<char>, ValueView)>::empty())
    } else {
        match projected(entries, names, (k - 1) as nat) {
            Err(e) => Err(e),
            Ok(front) => match lookup(entries, names[k - 1]) {
                Some(value) => Ok(put(front, names[k - 1], value)),
                None => Err(RecordError::MissingColumn),
            },
        }
    }
}

/// Once a row has been found to lack a column, it lacks it whatever is
/// asked for after.
pub proof fn lemma_projected_error_stays(
    entries: Entries,
    names: Seq<Seq<char>>,
    failed: nat,
    k: nat,
)
    requires
        failed <= k,
        projected(entries, names, failed) is Err,
    ensures
        projected(entries, names, k) == projected(entries, names, failed),
    decreases k,
{
    if failed < k {
        lemma_projected_error_stays(entries, names, failed, (k - 1) as nat);
    }
}

/// The place of the first column of the given name in a schema.
pub fn find_column(columns: &[Column], name: &str) -> (found: Option<usize>)
    ensures
        match found {
            Some(at) => column_at(column_views(columns@), name@) == Some(at as int) && at
                < columns@.len(),
            None => column_at(column_views(columns@), name@) is None,
        },
{
    let ghost cols = column_views(columns@);
    let mut i: usize = 0;
    while i < columns.len()
        invariant
            i <= columns@.len(),
            cols == column_views(columns@),
            forall|j: int| 0 <= j < i ==> (#[trigger] cols[j]).name != name@,
        decreases columns@.len() - i,
    {
        assert(cols[i as int] == columns@[i as int]@);
        if str_eq(columns[i].name.as_str(), name) {
            proof {
                lemma_column_at(cols, name@);
            }
            return Some(i);
        }
        i += 1;
    }
    proof {
        lemma_column_at(cols, name@);
    }
    None
}

/// A record with the named columns of a record, in the order of the names;
/// `MissingColumn` where the record lacks one.
pub fn project(record: &Record, names: &Vec<String>) -> (shown: Result<Record, RecordError>)
    ensures
        match shown {
            Ok(out) => projected(record.entries(), name_views(names@), names@.len()) == Ok::<
                Entries,
                RecordError,
            >(out.entries()) && out.id == 0,
            Err(e) => projected(record.entries(), name_views(names@), names@.len()) == Err::<
                Entries,
                RecordError,
            >(e),
        },
{
    let ghost all = name_views(names@);
    let mut out = Record::new(0);
    let mut i: usize = 0;
    while i < names.len()
        invariant
            i <= names@.len(),
            all == name_views(names@),
            out.id == 0,
            projected(record.entries(), all, i as nat) == Ok::<Entries, RecordError>(out.entries()),
        decreases names@.len() - i,
    {
        assert(all[i as int] == names@[i as int]@);
        match record.get_value(names[i].as_str()) {
            Some(value) => {
                out.set_value(names[i].as_str(), value.duplicate());
            },
            None => {
                proof {
                    lemma_projected_error_stays(
                        record.entries(),
                        all,
                        (i + 1) as nat,
                        names@.len(),
                    );
                }
                return Err(RecordError::MissingColumn);
            },
        }
        i += 1;
    }
    Ok(out)
}

/// Whether a result shows the rows of a list, in their order, each with the
/// named columns.
pub open spec fn shows(set: ResultSet, rows: Seq<ScanRow>, names: Seq<Seq<char>>) -> bool {
    &&& name_views(set.columns@) == names
    &&& set.records@.len() == rows.len()
    &&& forall|i: int|
        0 <= i < rows.len() ==> projected(rows[i].record.entries(), names, names.len()) == Ok::<
            Entries,
            RecordError,
        >((#[trigger] set.records@[i]).entries())
}

/// The names of the columns of a schema, in order.
pub fn names_of(columns: &[Column]) -> (names: Vec<String>)
    ensures
        name_views(names@) == column_names(column_views(columns@)),
{
    let mut names: Vec<String> = Vec::new();
    let mut i: usize = 0;
    while i < columns.len()
        invariant
            i <= columns@.len(),
            names@.len() == i,
            forall|j: int| 0 <= j < i ==> (#[trigger] names@[j])@ == columns@[j].name@,
        decreases columns@.len() - i,
    {
        names.push(columns[i].name.clone());
        i += 1;
    }
    assert(name_views(names@) =~= column_names(column_views(columns@)));
    names
}

/// A copy of a list of texts.
pub fn copy_names(names: &Vec<String>) -> (copy: Vec<String>)
    ensures
        name_views(copy@) == name_views(names@),
{
    let mut copy: Vec<String> = Vec::new();
    let mut i: usize = 0;
    while i < names.len()
        invariant
            i <= names@.len(),
            copy@.len() == i,
            forall|j: int| 0 <= j < i ==> (#[trigger] copy@[j])@ == names@[j]@,
        decreases names@.len() - i,
    {
        copy.push(names[i].clone());
        i += 1;
    }
    assert(name_views(copy@) =~= name_views(names@));
    copy
}

/// A row that was read under a schema has a value under the name of each
/// column of the schema.
pub proof fn lemma_read_row_has_column(
    cols: Seq<ColumnView>,
    values: Seq<ValueView>,
    k: nat,
    name: Seq<char>,
)
    requires
        k <= cols.len(),
        exists|i: int| 0 <= i < k && (#[trigger] cols[i]).name == name,
    ensures
        lookup(entries_from(cols, values, k), name) is Some,
    decreases k,
{
    let before = entries_from(cols, values, (k - 1) as nat);
    lemma_put(before, cols[k - 1].name, values[k - 1], name);
    if cols[k - 1].name != name {
        let i = choose|i: int| 0 <= i < k && (#[trigger] cols[i]).name == name;
        assert(0 <= i < k - 1 && cols[i].name == name);
        lemma_read_row_has_column(cols, values, (k - 1) as nat, name);
    }
}

/// Of a row that was read under a schema every column of the schema can be
/// shown.
pub proof fn lemma_read_row_projects(
    cols: Seq<ColumnView>,
    values: Seq<ValueView>,
    names: Seq<Seq<char>>,
    k: nat,
)
    requires
        k <= names.len(),
        forall|j: int| 0 <= j < k ==> has_column(cols, #[trigger] names[j]),
    ensures
        projected(entries_from(cols, values, cols.len()), names, k) is Ok,
    decreases k,
{
    if k > 0 {
        lemma_read_row_projects(cols, values, names, (k - 1) as nat);
        assert(has_column(cols, names[k - 1]));
        lemma_column_at(cols, names[k - 1]);
        let at = column_at(cols, names[k - 1])->Some_0;
        assert(cols[at].name == names[k - 1]);
        lemma_read_row_has_column(cols, values, cols.len(), names[k - 1]);
    }
}

/// The first of the names that is no column of the schema, if one is none.
pub open spec fn first_unknown(names: Seq<Seq<char>>, cols: Seq<ColumnView>) -> Option<int> {
    if exists|i: int| 0 <= i < names.len() && !has_column(cols, #[trigger] names[i]) {
        Some(choose|i: int| 0 <= i < names.len() && !has_column(cols, #[trigger] names[i]))
    } else {
        None
    }
}

impl TableStore {
    /// Whether a result shows, with the named columns, the rows that a scan
    /// of the table under a clause finds, in the order in which it lists
    /// them; of a well-formed table these are its live rows that pass.
    pub open spec fn shown_in(
        &self,
        set: ResultSet,
        names: Seq<Seq<char>>,
        clause: Option<Condition>,
    ) -> bool {
        exists|rows: Seq<ScanRow>|
            #![trigger shows(set, rows, names)]
            shows(set, rows, names) && lists(
                rows,
                crate::scan::scan_heap(self.heap(), self.cols(), clause, self.heap().len())->Ok_0,
                self.cols(),
            ) && (self.wf() ==> lists(
                rows,
                live_rows(self.heap(), self.cols(), self.index(), clause),
                self.cols(),
            ))
    }

    /// The rows of the table that pass the clause, each with the columns
    /// that were asked for: every column for `*` alone. `Record(
    /// UnknownColumn)` where a column is asked for that the table does not
    /// have; else the error of the scan where the heap cannot be read. Of a
    /// well-formed table the heap can be read, and the rows that are shown
    /// are its live rows that pass.
    #[verifier::loop_isolation(false)]
    pub fn select(&self, columns: &Vec<String>, where_clause: Option<&Condition>) -> (done:
        Result<ResultSet, CatalogError>)
        ensures
            match first_unknown(shown_columns(name_views(columns@), self.cols()), self.cols()) {
                Some(_) => done == Err::<ResultSet, CatalogError>(
                    CatalogError::Record(RecordError::UnknownColumn),
                ),
                None => match crate::scan::scan_heap(
                    self.heap(),
                    self.cols(),
                    clause_of(where_clause),
                    self.heap().len(),
                ) {
                    Err(e) => done == Err::<ResultSet, CatalogError>(e),
                    Ok(_) => done is Ok && self.shown_in(
                        done->Ok_0,
                        shown_columns(name_views(columns@), self.cols()),
                        clause_of(where_clause),
                    ),
                },
            },
            self.wf() && first_unknown(
                shown_columns(name_views(columns@), self.cols()),
                self.cols(),
            ) is None ==> done is Ok,
    {
        let ghost cols = self.cols();
        let star = columns.len() == 1 && str_eq(columns[0].as_str(), "*");
        let shown = if star {
            names_of(self.columns.as_slice())
        } else {
            copy_names(columns)
        };
        let ghost names = shown_columns(name_views(columns@), cols);
        assert(name_views(columns@).len() == columns@.len());
        assert(columns@.len() > 0 ==> name_views(columns@)[0] == columns@[0]@);
        assert(name_views(shown@) == names);
        let mut i: usize = 0;
        while i < shown.len()
            invariant
                i <= shown@.len(),
                cols == self.cols(),
                name_views(shown@) == names,
                forall|j: int| 0 <= j < i ==> has_column(cols, #[trigger] names[j]),
            decreases shown@.len() - i,
        {
            assert(names[i as int] == shown@[i as int]@);
            if find_column(self.columns.as_slice(), shown[i].as_str()).is_none() {
                return Err(CatalogError::Record(RecordError::UnknownColumn));
            }
            i += 1;
        }
        let rows = match self.scan(where_clause) {
            Ok(rows) => rows,
            Err(e) => {
                return Err(e);
            },
        };
        let mut set = ResultSet::new(copy_names(&shown));
        let mut k: usize = 0;
        while k < rows.len()
            invariant
                k <= rows@.len(),
                name_views(shown@) == names,
                name_views(set.columns@) == names,
                set.records@.len() == k,
                forall|j: int|
                    0 <= j < k ==> projected(rows@[j].record.entries(), names, names.len()) == Ok::<
                        Entries,
                        RecordError,
                    >((#[trigger] set.records@[j]).entries()),
            decreases rows@.len() - k,
        {
            proof {
                let found = crate::scan::scan_heap(
                    self.heap(),
                    cols,
                    clause_of(where_clause),
                    self.heap().len(),
                )->Ok_0;
                let row = rows@[k as int];
                assert(row.record.entries() == entries_from(cols, found[row.row_id].1, cols.len()));
                lemma_read_row_projects(cols, found[row.row_id].1, names, names.len());
            }
            match project(&rows[k].record, &shown) {
                Ok(out) => {
                    set.add_record(out);
                },
                Err(e) => {
                    assert(false);
                    return Err(CatalogError::Record(e));
                },
            }
            k += 1;
        }
        assert(shows(set, rows@, names));
        assert(lists(
            rows@,
            crate::scan::scan_heap(
                self.heap(),
                self.cols(),
                clause_of(where_clause),
                self.heap().len(),
            )->Ok_0,
            self.cols(),
        ));
        assert(self.shown_in(set, names, clause_of(where_clause)));
        Ok(set)
    }
}

/// The row identifiers of the first `k` rows of a list.
pub open spec fn ids_upto(rows: Seq<ScanRow>, k: int) -> Set<RowId> {
    Set::new(|r: RowId| exists|j: int| 0 <= j < k && (#[trigger] rows[j]).row_id == r)
}

/// A row with the values of the first `k` assignments put under their
/// columns.
pub open spec fn assigned(entries: Entries, assignments: Seq<Assignment>, k: nat) -> Entries
    decreases k,
{
    if k == 0 {
        entries
    } else {
        put(
            assigned(entries, assignments, (k - 1) as nat),
            assignments[k - 1].column@,
            assignments[k - 1].value@,
        )
    }
}

/// What checking the first `k` assignments against the schema gives: the
/// error of the first value that fails the check of its column. The columns
/// are known to be columns of the schema.
pub open spec fn assignments_check(cols: Seq<ColumnView>, assignments: Seq<Assignment>, k: nat) -> Result<
    (),
    RecordError,
>
    decreases k,
{
    if k == 0 {
        Ok(())
    } else {
        match assignments_check(cols, assignments, (k - 1) as nat) {
            Err(e) => Err(e),
            Ok(()) => value_check(
                assignments[k - 1].value@,
                cols[column_at(cols, assignments[k - 1].column@)->0],
            ),
        }
    }
}

/// Once checking assignments has failed, checking more of them fails the
/// same way.
pub proof fn lemma_assignments_error_stays(
    cols: Seq<ColumnView>,
    assignments: Seq<Assignment>,
    failed: nat,
    k: nat,
)
    requires
        failed <= k,
        assignments_check(cols, assignments, failed) is Err,
    ensures
        assignments_check(cols, assignments, k) == assignments_check(cols, assignments, failed),
    decreases k,
{
    if failed < k {
        lemma_assignments_error_stays(cols, assignments, failed, (k - 1) as nat);
    }
}

/// Puts the values of assignments into a record, each after the check of
/// its column. The columns must be columns of the schema.
pub fn assign(columns: &[Column], assignments: &Vec<Assignment>, record: &mut Record) -> (done:
    Result<(), RecordError>)
    requires
        forall|i: int|
            0 <= i < assignments@.len() ==> has_column(
                column_views(columns@),
                (#[trigger] assignments@[i]).column@,
            ),
    ensures
        done == assignments_check(column_views(columns@), assignments@, assignments@.len()),
        final(record).id == old(record).id,
        done is Ok ==> final(record).entries() == assigned(
            old(record).entries(),
            assignments@,
            assignments@.len(),
        ),
{
    let ghost cols = column_views(columns@);
    let mut i: usize = 0;
    while i < assignments.len()
        invariant
            i <= assignments@.len(),
            cols == column_views(columns@),
            record.id == old(record).id,
            forall|j: int|
                0 <= j < assignments@.len() ==> has_column(
                    cols,
                    (#[trigger] assignments@[j]).column@,
                ),
            assignments_check(cols, assignments@, i as nat) is Ok,
            record.entries() == assigned(old(record).entries(), assignments@, i as nat),
        decreases assignments@.len() - i,
    {
        let a = &assignments[i];
        assert(has_column(cols, assignments@[i as int].column@));
        match find_column(columns, a.column.as_str()) {
            Some(at) => {
                assert(cols[at as int] == columns@[at as int]@);
                match check_value(&a.value, &columns[at]) {
                    Ok(()) => {},
                    Err(e) => {
                        proof {
                            lemma_assignments_error_stays(
                                cols,
                                assignments@,
                                (i + 1) as nat,
                                assignments@.len(),
                            );
                        }
                        return Err(e);
                    },
                }
            },
            None => {},
        }
        record.set_value(a.column.as_str(), a.value.duplicate());
        i += 1;
    }
    Ok(())
}

impl TableStore {
    /// Whether every row of a list from the `k`-th on lies in the table
    /// where the list has it, with the values that the list has for it.
    pub open spec fn still_has(&self, rows: Seq<ScanRow>, k: int, before: Map<
        RowId,
        Seq<ValueView>,
    >) -> bool {
        forall|j: int|
            k <= j < rows.len() ==> self.lies_at((#[trigger] rows[j]).row_id, rows[j].loc)
                && rows[j].loc == crate::store::loc_of(
                rows[j].loc.page_id as int,
                rows[j].loc.slot_id as int,
            ) && before.contains_key(rows[j].row_id) && rows[j].record.entries() == entries_from(
                self.cols(),
                before[rows[j].row_id],
                self.cols().len(),
            ) && self.rows().contains_key(rows[j].row_id) && self.rows()[rows[j].row_id]
                == before[rows[j].row_id]
    }

    /// Deletes the rows that pass the clause, every row where there is none:
    /// their slots are tombstoned and they leave the index. Gives the number
    /// of rows that were deleted.
    #[verifier::loop_isolation(false)]
    pub fn delete_where(&mut self, where_clause: Option<&Condition>) -> (done: Result<
        u64,
        CatalogError,
    >)
        requires
            old(self).wf(),
        ensures
            final(self).wf(),
            final(self).name == old(self).name,
            final(self).columns == old(self).columns,
            final(self).state.next_row_id == old(self).state.next_row_id,
            final(self).state.next_page_id == old(self).state.next_page_id,
            final(self).state.free_space@ == old(self).state.free_space@,
            done is Ok,
            final(self).rows() == old(self).rows().remove_keys(
                live_rows(
                    old(self).heap(),
                    old(self).cols(),
                    old(self).index(),
                    clause_of(where_clause),
                ).dom(),
            ),
            live_rows(
                old(self).heap(),
                old(self).cols(),
                old(self).index(),
                clause_of(where_clause),
            ).dom().finite(),
            done->Ok_0 == live_rows(
                old(self).heap(),
                old(self).cols(),
                old(self).index(),
                clause_of(where_clause),
            ).dom().len(),
    {
        let ghost found = live_rows(
            old(self).heap(),
            old(self).cols(),
            old(self).index(),
            clause_of(where_clause),
        );
        let ghost before = old(self).rows();
        let rows = match self.scan(where_clause) {
            Ok(rows) => rows,
            Err(e) => {
                return Err(e);
            },
        };
        proof {
            crate::scan::lemma_scan_finds_live_rows(*old(self), clause_of(where_clause));
            lemma_lists_len(rows@, found, self.cols());
            assert forall|j: int| 0 <= j < rows@.len() implies self.lies_at(
                (#[trigger] rows@[j]).row_id,
                rows@[j].loc,
            ) && rows@[j].loc == crate::store::loc_of(
                rows@[j].loc.page_id as int,
                rows@[j].loc.slot_id as int,
            ) && before.contains_key(rows@[j].row_id) && rows@[j].record.entries() == entries_from(
                self.cols(),
                before[rows@[j].row_id],
                self.cols().len(),
            ) by {
                assert(found.contains_key(rows@[j].row_id));
                crate::store::lemma_index_get(self.heap(), self.index(), rows@[j].row_id);
            }
            assert(before.remove_keys(ids_upto(rows@, 0)) =~= before);
        }
        let mut deleted: u64 = 0;
        let mut k: usize = 0;
        while k < rows.len()
            invariant
                k <= rows@.len(),
                deleted == k,
                self.wf(),
                self.name == old(self).name,
                self.columns == old(self).columns,
                self.state.next_row_id == old(self).state.next_row_id,
                self.state.next_page_id == old(self).state.next_page_id,
                self.state.free_space@ == old(self).state.free_space@,
                lists(rows@, found, self.cols()),
                self.still_has(rows@, k as int, before),
                self.rows() == before.remove_keys(ids_upto(rows@, k as int)),
            decreases rows@.len() - k,
        {
            let ghost mid = *self;
            let loc = rows[k].loc;
            let ghost row_id = rows@[k as int].row_id;
            proof {
                crate::store::lemma_index_get(self.heap(), self.index(), row_id);
                crate::store::lemma_pages_get(self.heap(), 0);
                crate::store::lemma_pointing_at(self.heap(), self.index(), loc);
            }
            match self.tombstone(loc) {
                Ok(()) => {},
                Err(e) => {
                    return Err(e);
                },
            }
            proof {
                assert(self.index() == mid.index().remove(row_id)) by {
                    assert(mid.index().remove_keys(set![row_id]) =~= mid.index().remove(row_id));
                }
                assert(ids_upto(rows@, k + 1) =~= ids_upto(rows@, k as int).insert(row_id));
                assert(before.remove_keys(ids_upto(rows@, k + 1)) =~= before.remove_keys(
                    ids_upto(rows@, k as int),
                ).remove_keys(set![row_id]));
                assert forall|j: int| k + 1 <= j < rows@.len() implies self.lies_at(
                    (#[trigger] rows@[j]).row_id,
                    rows@[j].loc,
                ) && self.rows().contains_key(rows@[j].row_id) && self.rows()[rows@[j].row_id]
                    == before[rows@[j].row_id] by {
                    assert(rows@[j].row_id != rows@[k as int].row_id);
                    assert(mid.lies_at(rows@[j].row_id, rows@[j].loc));
                }
            }
            deleted += 1;
            k += 1;
        }
        proof {
            assert(ids_upto(rows@, rows@.len() as int) =~= found.dom()) by {
                assert forall|r: RowId| found.dom().contains(r) implies ids_upto(
                    rows@,
                    rows@.len() as int,
                ).contains(r) by {
                    let i = choose|i: int| 0 <= i < rows@.len() && (#[trigger] rows@[i]).row_id == r;
                    assert(rows@[i].row_id == r);
                }
            }
        }
        Ok(deleted)
    }
}

/// The rows of a table after the rows of `changed` have had the values of
/// assignments put under their columns; every other row is as it was.
pub open spec fn with_assigned(
    before: Map<RowId, Seq<ValueView>>,
    cols: Seq<ColumnView>,
    assignments: Seq<Assignment>,
    changed: Set<RowId>,
) -> Map<RowId, Seq<ValueView>> {
    Map::new(
        |r: RowId| before.contains_key(r),
        |r: RowId|
            if changed.contains(r) {
                row_values(
                    assigned(
                        entries_from(cols, before[r], cols.len()),
                        assignments,
                        assignments.len(),
                    ),
                    cols,
                )
            } else {
                before[r]
            },
    )
}

/// The first of the assignments whose column is no column of the schema, if
/// one is none.
pub open spec fn unknown_assignment(cols: Seq<ColumnView>, assignments: Seq<Assignment>) -> bool {
    exists|i: int| 0 <= i < assignments.len() && !has_column(cols, (#[trigger] assignments[i]).column@)
}

/// Whether the slot at a location is in the one heap what it is in the
/// other.
pub open spec fn slot_kept(heap: Seq<Seq<u8>>, heap0: Seq<Seq<u8>>, loc: TupleLoc) -> bool {
    let p = loc.page_id as int;
    let s = loc.slot_id as int;
    &&& p < heap0.len()
    &&& p < heap.len()
    &&& s < record_count(heap0[p])
    &&& slot_at(heap[p], s) == slot_at(heap0[p], s)
}

impl TableStore {
    /// Whether `e` is what refuses the update of row `r`, one of the rows
    /// that pass the clause, with the assignments: the error of writing the
    /// row with its new values under the schema; or `Page(PageFull)` where
    /// the new payload is longer than the slot of the row, so that the row
    /// has to move, and either no page would hold it or the page
    /// identifiers could run out, a page being added for each row at most.
    pub open spec fn row_refuses(
        &self,
        assignments: Seq<Assignment>,
        clause: Option<Condition>,
        r: RowId,
        e: CatalogError,
    ) -> bool {
        let loc = self.index()[r];
        let entries = assigned(
            entries_from(self.cols(), self.rows()[r], self.cols().len()),
            assignments,
            assignments.len(),
        );
        let passing = live_rows(self.heap(), self.cols(), self.index(), clause).dom();
        match record_payload(r, entries, self.cols()) {
            Err(cause) => e == CatalogError::Record(cause),
            Ok(payload) => e == CatalogError::Page(PageError::PageFull) && payload.len() > slot_at(
                self.heap()[loc.page_id as int],
                loc.slot_id as int,
            ).len && (payload.len() + SLOT_LEN > PAGE_SIZE - HEADER_LEN || self.heap().len()
                + passing.len() > u32::MAX),
        }
    }

    /// Whether `e` is what refuses the update of one of the rows that pass
    /// the clause.
    pub open spec fn update_refused(
        &self,
        assignments: Seq<Assignment>,
        clause: Option<Condition>,
        e: CatalogError,
    ) -> bool {
        exists|r: RowId|
            live_rows(self.heap(), self.cols(), self.index(), clause).dom().contains(r)
                && #[trigger] self.row_refuses(assignments, clause, r, e)
    }

    /// Whether row `r` cannot be updated with the assignments whatever room
    /// the heap has: it cannot be written with its new values under the
    /// schema, or its new payload fits neither its slot nor an empty page.
    pub open spec fn row_cannot(&self, assignments: Seq<Assignment>, r: RowId) -> bool {
        let loc = self.index()[r];
        let entries = assigned(
            entries_from(self.cols(), self.rows()[r], self.cols().len()),
            assignments,
            assignments.len(),
        );
        match record_payload(r, entries, self.cols()) {
            Err(_) => true,
            Ok(payload) => payload.len() > slot_at(
                self.heap()[loc.page_id as int],
                loc.slot_id as int,
            ).len && payload.len() + SLOT_LEN > PAGE_SIZE - HEADER_LEN,
        }
    }

    /// Whether one of the rows that pass the clause cannot be updated with
    /// the assignments.
    pub open spec fn update_cannot(
        &self,
        assignments: Seq<Assignment>,
        clause: Option<Condition>,
    ) -> bool {
        exists|r: RowId|
            live_rows(self.heap(), self.cols(), self.index(), clause).dom().contains(r)
                && #[trigger] self.row_cannot(assignments, r)
    }

    /// Whether the rows of the table are those of `before` with the values
    /// of the assignments put under their columns in some of the rows that
    /// pass the clause, and in no other row.
    pub open spec fn updated_some(
        &self,
        before: &TableStore,
        assignments: Seq<Assignment>,
        clause: Option<Condition>,
    ) -> bool {
        exists|changed: Set<RowId>| #[trigger]
            changed.subset_of(
                live_rows(before.heap(), before.cols(), before.index(), clause).dom(),
            ) && self.rows() == with_assigned(before.rows(), before.cols(), assignments, changed)
    }

    /// Updates the rows that pass the clause, every row where there is
    /// none: each has the values of the assignments put under their columns
    /// and is written as a new version, in place where it fits. Gives the
    /// number of rows that were updated. `Record(UnknownColumn)` where an
    /// assignment names no column of the table; where rows pass, the error of
    /// the first value that fails the check of its column; and what
    /// `update_record` refuses. After an error of `update_record` the rows
    /// before the one that was refused have been updated, and no row is
    /// lost. The update fails where a row that passes cannot be written
    /// with its new values or fits neither its slot nor an empty page; and
    /// it fails only for a row that cannot be written, or does not fit its
    /// slot and either fits no page or may find the page identifiers used
    /// up.
    #[verifier::loop_isolation(false)]
    pub fn update_where(&mut self, assignments: &Vec<Assignment>, where_clause: Option<&Condition>) -> (done:
        Result<u64, CatalogError>)
        requires
            old(self).wf(),
        ensures
            final(self).wf(),
            final(self).name == old(self).name,
            final(self).columns == old(self).columns,
            final(self).state.next_row_id == old(self).state.next_row_id,
            unknown_assignment(old(self).cols(), assignments@) ==> done == Err::<u64, CatalogError>(
                CatalogError::Record(RecordError::UnknownColumn),
            ) && final(self).same_as(old(self)),
            live_rows(
                old(self).heap(),
                old(self).cols(),
                old(self).index(),
                clause_of(where_clause),
            ).dom().finite(),
            !unknown_assignment(old(self).cols(), assignments@) && live_rows(
                old(self).heap(),
                old(self).cols(),
                old(self).index(),
                clause_of(where_clause),
            ).dom().len() > 0 ==> (assignments_check(
                old(self).cols(),
                assignments@,
                assignments@.len(),
            ) matches Err(cause) ==> done == Err::<u64, CatalogError>(CatalogError::Record(cause))
                && final(self).same_as(old(self))),
            done is Err ==> final(self).updated_some(
                old(self),
                assignments@,
                clause_of(where_clause),
            ),
            done is Err && !unknown_assignment(old(self).cols(), assignments@)
                && assignments_check(old(self).cols(), assignments@, assignments@.len()) is Ok
                ==> old(self).update_refused(
                assignments@,
                clause_of(where_clause),
                done->Err_0,
            ),
            !unknown_assignment(old(self).cols(), assignments@) && assignments_check(
                old(self).cols(),
                assignments@,
                assignments@.len(),
            ) is Ok && old(self).update_cannot(assignments@, clause_of(where_clause)) ==> done
                is Err,
            done matches Ok(count) ==> count == live_rows(
                old(self).heap(),
                old(self).cols(),
                old(self).index(),
                clause_of(where_clause),
            ).dom().len() && final(self).rows() == with_assigned(
                old(self).rows(),
                old(self).cols(),
                assignments@,
                live_rows(
                    old(self).heap(),
                    old(self).cols(),
                    old(self).index(),
                    clause_of(where_clause),
                ).dom(),
            ),
    {
        let ghost cols = self.cols();
        let ghost found = live_rows(
            old(self).heap(),
            old(self).cols(),
            old(self).index(),
            clause_of(where_clause),
        );
        let ghost before = old(self).rows();
        let ghost heap0 = old(self).heap();
        proof {
            crate::scan::lemma_scan_finds_live_rows(*old(self), clause_of(where_clause));
            assert(with_assigned(before, cols, assignments@, Set::<RowId>::empty()) =~= before);
            assert(Set::<RowId>::empty().subset_of(found.dom()));
        }
        let mut i: usize = 0;
        while i < assignments.len()
            invariant
                i <= assignments@.len(),
                forall|j: int| 0 <= j < i ==> has_column(cols, (#[trigger] assignments@[j]).column@),
            decreases assignments@.len() - i,
        {
            if find_column(self.columns.as_slice(), assignments[i].column.as_str()).is_none() {
                proof {
                    lemma_lists_dom_finite(*old(self), clause_of(where_clause));
                }
                return Err(CatalogError::Record(RecordError::UnknownColumn));
            }
            i += 1;
        }
        let rows = match self.scan(where_clause) {
            Ok(rows) => rows,
            Err(e) => {
                return Err(e);
            },
        };
        proof {
            lemma_lists_len(rows@, found, cols);
            assert forall|j: int| 0 <= j < rows@.len() implies self.lies_at(
                (#[trigger] rows@[j]).row_id,
                rows@[j].loc,
            ) && rows@[j].loc == crate::store::loc_of(
                rows@[j].loc.page_id as int,
                rows@[j].loc.slot_id as int,
            ) && before.contains_key(rows@[j].row_id) && rows@[j].record.entries() == entries_from(
                cols,
                before[rows@[j].row_id],
                cols.len(),
            ) && slot_kept(self.heap(), heap0, rows@[j].loc) by {
                assert(found.contains_key(rows@[j].row_id));
                crate::store::lemma_index_get(self.heap(), self.index(), rows@[j].row_id);
            }
            assert(with_assigned(before, cols, assignments@, ids_upto(rows@, 0)) =~= before);
        }
        let mut updated: u64 = 0;
        let mut k: usize = 0;
        while k < rows.len()
            invariant
                k <= rows@.len(),
                updated == k,
                self.wf(),
                self.name == old(self).name,
                self.columns == old(self).columns,
                self.state.next_row_id == old(self).state.next_row_id,
                cols == self.cols(),
                lists(rows@, found, cols),
                self.still_has(rows@, k as int, before),
                k > 0 ==> assignments_check(cols, assignments@, assignments@.len()) is Ok,
                k == 0 ==> self.same_as(old(self)),
                forall|r: RowId| before.contains_key(r) <==> self.rows().contains_key(r),
                self.rows() == with_assigned(before, cols, assignments@, ids_upto(rows@, k as int)),
                forall|j: int|
                    k <= j < rows@.len() ==> #[trigger] slot_kept(self.heap(), heap0, rows@[j].loc),
                heap0.len() <= self.heap().len() <= heap0.len() + k,
                forall|j: int|
                    0 <= j < k ==> !#[trigger] old(self).row_cannot(assignments@, rows@[j].row_id),
            decreases rows@.len() - k,
        {
            let ghost mid = *self;
            let loc = rows[k].loc;
            let row_id = rows[k].row_id;
            let mut record = rows[k].record.duplicate();
            match assign(self.columns.as_slice(), assignments, &mut record) {
                Ok(()) => {},
                Err(e) => {
                    return Err(CatalogError::Record(e));
                },
            }
            let written = self.update_record(loc, row_id, &record);
            proof {
                assert(found.contains_key(rows@[k as int].row_id));
                assert(slot_kept(mid.heap(), heap0, rows@[k as int].loc));
                assert(mid.lies_at(row_id, loc));
                assert(old(self).index()[row_id] == loc);
                crate::store::lemma_update_outcome(
                    mid,
                    *self,
                    loc,
                    row_id,
                    record.entries(),
                    written,
                );
            }
            match written {
                Ok(_) => {
                    assert(!old(self).row_cannot(assignments@, row_id));
                },
                Err(e) => {
                    proof {
                        assert(old(self).row_refuses(
                            assignments@,
                            clause_of(where_clause),
                            row_id,
                            e,
                        ));
                        crate::store::lemma_unchanged_rows(mid, *self);
                        assert(ids_upto(rows@, k as int).subset_of(found.dom())) by {
                            assert forall|r: RowId|
                                ids_upto(rows@, k as int).contains(r) implies found.dom().contains(
                                r,
                            ) by {
                                let j = choose|j: int| 0 <= j < k && (#[trigger] rows@[j]).row_id == r;
                                assert(found.contains_key(rows@[j].row_id));
                            }
                        }
                    }
                    return Err(e);
                },
            }
            proof {
                assert(ids_upto(rows@, k + 1) =~= ids_upto(rows@, k as int).insert(row_id));
                assert(!ids_upto(rows@, k as int).contains(row_id)) by {
                    if ids_upto(rows@, k as int).contains(row_id) {
                        let j = choose|j: int| 0 <= j < k && (#[trigger] rows@[j]).row_id == row_id;
                        assert(rows@[j].row_id != rows@[k as int].row_id);
                    }
                }
                assert(self.rows() =~= with_assigned(
                    before,
                    cols,
                    assignments@,
                    ids_upto(rows@, k + 1),
                ));
                assert forall|j: int| k + 1 <= j < rows@.len() implies self.lies_at(
                    (#[trigger] rows@[j]).row_id,
                    rows@[j].loc,
                ) && self.rows().contains_key(rows@[j].row_id) && self.rows()[rows@[j].row_id]
                    == before[rows@[j].row_id] by {
                    assert(rows@[j].row_id != rows@[k as int].row_id);
                    assert(mid.lies_at(rows@[j].row_id, rows@[j].loc));
                }
                assert forall|j: int| k + 1 <= j < rows@.len() implies #[trigger] slot_kept(
                    self.heap(),
                    heap0,
                    rows@[j].loc,
                ) by {
                    let other = rows@[j].loc;
                    assert(rows@[j].row_id != rows@[k as int].row_id);
                    assert(mid.lies_at(rows@[j].row_id, other));
                    assert(slot_kept(mid.heap(), heap0, other));
                    crate::store::lemma_index_get(mid.heap(), mid.index(), rows@[j].row_id);
                    crate::store::lemma_index_get(mid.heap(), mid.index(), row_id);
                    crate::store::lemma_update_keeps_slot(
                        mid,
                        *self,
                        loc,
                        row_id,
                        record.entries(),
                        written,
                        other.page_id as int,
                        other.slot_id as int,
                    );
                }
            }
            updated += 1;
            k += 1;
        }
        proof {
            assert(ids_upto(rows@, rows@.len() as int) =~= found.dom()) by {
                assert forall|r: RowId| found.dom().contains(r) implies ids_upto(
                    rows@,
                    rows@.len() as int,
                ).contains(r) by {
                    let i = choose|i: int| 0 <= i < rows@.len() && (#[trigger] rows@[i]).row_id == r;
                    assert(rows@[i].row_id == r);
                }
            }
            if old(self).update_cannot(assignments@, clause_of(where_clause)) {
                let r = choose|r: RowId|
                    found.dom().contains(r) && #[trigger] old(self).row_cannot(assignments@, r);
                let i = choose|i: int| 0 <= i < rows@.len() && (#[trigger] rows@[i]).row_id == r;
                assert(!old(self).row_cannot(assignments@, rows@[i].row_id));
            }
        }
        Ok(updated)
    }
}

/// The live rows of a well-formed table that pass a clause are finitely
/// many.
pub proof fn lemma_lists_dom_finite(store: TableStore, clause: Option<Condition>)
    requires
        store.wf(),
    ensures
        live_rows(store.heap(), store.cols(), store.index(), clause).dom().finite(),
{
    let found = live_rows(store.heap(), store.cols(), store.index(), clause);
    assert(found.dom().subset_of(store.index().dom()));
    vstd::set_lib::lemma_len_subset(found.dom(), store.index().dom());
}

/// A list of what a scan has found has as many rows as were found.
pub proof fn lemma_lists_len(rows: Seq<ScanRow>, found: Found, cols: Seq<ColumnView>)
    requires
        lists(rows, found, cols),
    ensures
        found.dom().finite(),
        found.dom().len() == rows.len(),
    decreases rows.len(),
{
    if rows.len() == 0 {
        assert(found.dom() =~= Set::<RowId>::empty());
    } else {
        let last = rows.last();
        let front = rows.drop_last();
        let rest = found.remove(last.row_id);
        assert forall|i: int| 0 <= i < front.len() implies rest.contains_key(
            (#[trigger] front[i]).row_id,
        ) && rest[front[i].row_id].0 == front[i].loc && front[i].record.id == front[i].row_id
            && front[i].record.entries() == entries_from(cols, rest[front[i].row_id].1, cols.len()) by {
            assert(front[i] == rows[i]);
            assert(rows[i].row_id != rows[rows.len() - 1].row_id);
        }
        assert forall|r: RowId| rest.contains_key(r) implies exists|i: int|
            0 <= i < front.len() && (#[trigger] front[i]).row_id == r by {
            let i = choose|i: int| 0 <= i < rows.len() && (#[trigger] rows[i]).row_id == r;
            assert(front[i] == rows[i]);
        }
        assert forall|i: int, j: int| 0 <= i < j < front.len() implies (#[trigger] front[i]).row_id
            != (#[trigger] front[j]).row_id by {
            assert(front[i] == rows[i]);
            assert(front[j] == rows[j]);
        }
        lemma_lists_len(front, rest, cols);
        assert(found.contains_key(rows[rows.len() - 1].row_id));
        assert(found.dom() =~= rest.dom().insert(last.row_id));
    }
}

} // verus!
