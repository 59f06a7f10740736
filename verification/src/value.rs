//! The values that a row holds.

use vstd::prelude::*;
use crate::text::str_eq;

verus! {

/// One value of a row. A float is held as the bit pattern of its IEEE 754
/// binary64 form, which is what a record stores.
#[derive(Debug, Clone, PartialEq)]
pub enum ASTValue {
    Int(i64),
    Float(u64),
    String(String),
    Boolean(bool),
    Null,
}

/// A value as a mathematical value.
pub enum ValueView {
    Int(i64),
    Float(u64),
    String(Seq<char>),
    Boolean(bool),
    Null,
}

impl View for ASTValue {
    type V = ValueView;

    open spec fn view(&self) -> ValueView {
        match *self {
            ASTValue::Int(i) => ValueView::Int(i),
            ASTValue::Float(bits) => ValueView::Float(bits),
            ASTValue::String(s) => ValueView::String(s@),
            ASTValue::Boolean(b) => ValueView::Boolean(b),
            ASTValue::Null => ValueView::Null,
        }
    }
}

impl ASTValue {
    /// A copy of the value.
    pub fn duplicate(&self) -> (copy: ASTValue)
        ensures
            copy@ == self@,
    {
        match self {
            ASTValue::Int(i) => ASTValue::Int(*i),
            ASTValue::Float(bits) => ASTValue::Float(*bits),
            ASTValue::String(s) => ASTValue::String(s.clone()),
            ASTValue::Boolean(b) => ASTValue::Boolean(*b),
            ASTValue::Null => ASTValue::Null,
        }
    }

    /// Whether two values are the same value.
    pub fn same(&self, other: &ASTValue) -> (eq: bool)
        ensures
            eq == (self@ == other@),
    {
        match (self, other) {
            (ASTValue::Int(a), ASTValue::Int(b)) => *a == *b,
            (ASTValue::Float(a), ASTValue::Float(b)) => *a == *b,
            (ASTValue::String(a), ASTValue::String(b)) => str_eq(a.as_str(), b.as_str()),
            (ASTValue::Boolean(a), ASTValue::Boolean(b)) => *a == *b,
            (ASTValue::Null, ASTValue::Null) => true,
            _ => false,
        }
    }

    /// Whether the value is NULL.
    pub fn is_null(&self) -> (null: bool)
        ensures
            null == (self@ is Null),
    {
        match self {
            ASTValue::Null => true,
            _ => false,
        }
    }
}

} // verus!
