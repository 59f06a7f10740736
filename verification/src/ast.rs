//! The statements of the SQL dialect as trees.

use vstd::prelude::*;
use crate::tokens::{DataType, Operator};
use crate::value::{ASTValue, ValueView};

verus! {

/// One column of a `CREATE TABLE` statement: its name, its type keyword, and
/// the qualifying keywords that follow, each as its characters.
#[derive(Debug, PartialEq)]
pub struct ColumnDefinition {
    pub column_name: String,
    pub column_type: DataType,
    pub columns_constraints: Vec<Vec<char>>,
}

/// A `WHERE` clause: a comparison of two operands, or two clauses joined by
/// `AND` or `OR`. A column and a value are operands.
#[derive(Debug, PartialEq)]
pub enum Condition {
    Comparison { operator: Operator, left: Box<Condition>, right: Box<Condition> },
    Column(String),
    Value(ASTValue),
}

/// One `column = value` of an `UPDATE` statement.
#[derive(Debug, PartialEq)]
pub struct Assignment {
    pub column: String,
    pub value: ASTValue,
}

/// What a `SHOW` statement lists.
#[derive(Debug, Clone, Copy, PartialEq, Eq, Structural)]
pub enum ShowType {
    TABLES,
    DATABASES,
}

/// A statement.
#[allow(inconsistent_fields)]
#[derive(Debug, PartialEq)]
pub enum ASTNode {
    Insert { table_name: String, values: Vec<ASTValue> },
    CreateTable { table_name: String, columns: Vec<ColumnDefinition> },
    Update { table_name: String, assignments: Vec<Assignment>, where_clause: Option<Condition> },
    Select { columns: Vec<String>, table_name: String, where_clause: Option<Condition> },
    Delete { table_name: String, where_clause: Option<Condition> },
    CreateDatabase { database_name: String },
    USE { database_name: String },
    Show { show_type: ShowType },
}

/// A column of a `CREATE TABLE` statement as a mathematical value.
pub struct ColumnDefinitionView {
    pub column_name: Seq<char>,
    pub column_type: DataType,
    pub columns_constraints: Seq<Seq<char>>,
}

impl View for ColumnDefinition {
    type V = ColumnDefinitionView;

    open spec fn view(&self) -> ColumnDefinitionView {
        ColumnDefinitionView {
            column_name: self.column_name@,
            column_type: self.column_type,
            columns_constraints: Seq::new(
                self.columns_constraints@.len(),
                |i: int| self.columns_constraints@[i]@,
            ),
        }
    }
}

/// A `WHERE` clause as a mathematical value.
pub enum ConditionView {
    Comparison { operator: Operator, left: Box<ConditionView>, right: Box<ConditionView> },
    Column(Seq<char>),
    Value(ValueView),
}

/// A `WHERE` clause as a mathematical value.
pub open spec fn condition_view(condition: Condition) -> ConditionView
    decreases condition,
{
    match condition {
        Condition::Comparison { operator, left, right } => ConditionView::Comparison {
            operator,
            left: Box::new(condition_view(*left)),
            right: Box::new(condition_view(*right)),
        },
        Condition::Column(name) => ConditionView::Column(name@),
        Condition::Value(value) => ConditionView::Value(value@),
    }
}

impl View for Condition {
    type V = ConditionView;

    open spec fn view(&self) -> ConditionView {
        condition_view(*self)
    }
}

/// An assignment as a mathematical value.
pub struct AssignmentView {
    pub column: Seq<char>,
    pub value: ValueView,
}

impl View for Assignment {
    type V = AssignmentView;

    open spec fn view(&self) -> AssignmentView {
        AssignmentView { column: self.column@, value: self.value@ }
    }
}

/// The clause of a statement as a mathematical value.
pub open spec fn clause_view(clause: Option<Condition>) -> Option<ConditionView> {
    match clause {
        Some(condition) => Some(condition@),
        None => None,
    }
}

/// A statement as a mathematical value.
#[allow(inconsistent_fields)]
pub enum NodeView {
    Insert { table_name: Seq<char>, values: Seq<ValueView> },
    CreateTable { table_name: Seq<char>, columns: Seq<ColumnDefinitionView> },
    Update {
        table_name: Seq<char>,
        assignments: Seq<AssignmentView>,
        where_clause: Option<ConditionView>,
    },
    Select { columns: Seq<Seq<char>>, table_name: Seq<char>, where_clause: Option<ConditionView> },
    Delete { table_name: Seq<char>, where_clause: Option<ConditionView> },
    CreateDatabase { database_name: Seq<char> },
    USE { database_name: Seq<char> },
    Show { show_type: ShowType },
}

impl View for ASTNode {
    type V = NodeView;

    open spec fn view(&self) -> NodeView {
        match *self {
            ASTNode::Insert { table_name, values } => NodeView::Insert {
                table_name: table_name@,
                values: Seq::new(values@.len(), |i: int| values@[i]@),
            },
            ASTNode::CreateTable { table_name, columns } => NodeView::CreateTable {
                table_name: table_name@,
                columns: Seq::new(columns@.len(), |i: int| columns@[i]@),
            },
            ASTNode::Update { table_name, assignments, where_clause } => NodeView::Update {
                table_name: table_name@,
                assignments: Seq::new(assignments@.len(), |i: int| assignments@[i]@),
                where_clause: clause_view(where_clause),
            },
            ASTNode::Select { columns, table_name, where_clause } => NodeView::Select {
                columns: Seq::new(columns@.len(), |i: int| columns@[i]@),
                table_name: table_name@,
                where_clause: clause_view(where_clause),
            },
            ASTNode::Delete { table_name, where_clause } => NodeView::Delete {
                table_name: table_name@,
                where_clause: clause_view(where_clause),
            },
            ASTNode::CreateDatabase { database_name } => NodeView::CreateDatabase {
                database_name: database_name@,
            },
            ASTNode::USE { database_name } => NodeView::USE { database_name: database_name@ },
            ASTNode::Show { show_type } => NodeView::Show { show_type },
        }
    }
}

} // verus!
