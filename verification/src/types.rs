//! Values shared by the storage layers: column types, columns, row
//! identifiers and tuple locations.

use vstd::prelude::*;
use vstd::std_specs::convert::FromSpecImpl;
use crate::tokens;

verus! {

/// The identifier of a row. It is given once, at insert, and stays with the
/// row through updates and relocations.
pub type RowId = u64;

/// The type of a column as the storage layer knows it.
#[derive(Debug, Clone, Copy, PartialEq, Eq, Structural)]
pub enum DataType {
    Integer,
    Float,
    Text,
    Boolean,
    Date,
    Time,
    Timestamp,
    DateTime,
    Char,
    Blob,
    Json,
    Decimal,
    Double,
    Real,
    Numeric,
    TinyInt,
    SmallInt,
    MediumInt,
    BigInt,
    /// The type of a column that holds nothing. It has no code in a schema
    /// blob and no encoding in a record.
    Null,
}

impl DataType {
    /// The name of the type in capitals.
    pub open spec fn name(&self) -> Seq<char> {
        match *self {
            DataType::Integer => "INTEGER"@,
            DataType::Float => "FLOAT"@,
            DataType::Text => "TEXT"@,
            DataType::Boolean => "BOOLEAN"@,
            DataType::Date => "DATE"@,
            DataType::Time => "TIME"@,
            DataType::Timestamp => "TIMESTAMP"@,
            DataType::DateTime => "DATETIME"@,
            DataType::Char => "CHAR"@,
            DataType::Blob => "BLOB"@,
            DataType::Json => "JSON"@,
            DataType::Decimal => "DECIMAL"@,
            DataType::Double => "DOUBLE"@,
            DataType::Real => "REAL"@,
            DataType::Numeric => "NUMERIC"@,
            DataType::TinyInt => "TINYINT"@,
            DataType::SmallInt => "SMALLINT"@,
            DataType::MediumInt => "MEDIUMINT"@,
            DataType::BigInt => "BIGINT"@,
            DataType::Null => "NULL"@,
        }
    }

    /// The name of the type in capitals.
    pub fn to_string(&self) -> (name: String)
        ensures
            name@ == self.name(),
    {
        match self {
            DataType::Integer => "INTEGER".to_string(),
            DataType::Float => "FLOAT".to_string(),
            DataType::Text => "TEXT".to_string(),
            DataType::Boolean => "BOOLEAN".to_string(),
            DataType::Date => "DATE".to_string(),
            DataType::Time => "TIME".to_string(),
            DataType::Timestamp => "TIMESTAMP".to_string(),
            DataType::DateTime => "DATETIME".to_string(),
            DataType::Char => "CHAR".to_string(),
            DataType::Blob => "BLOB".to_string(),
            DataType::Json => "JSON".to_string(),
            DataType::Decimal => "DECIMAL".to_string(),
            DataType::Double => "DOUBLE".to_string(),
            DataType::Real => "REAL".to_string(),
            DataType::Numeric => "NUMERIC".to_string(),
            DataType::TinyInt => "TINYINT".to_string(),
            DataType::SmallInt => "SMALLINT".to_string(),
            DataType::MediumInt => "MEDIUMINT".to_string(),
            DataType::BigInt => "BIGINT".to_string(),
            DataType::Null => "NULL".to_string(),
        }
    }

    /// The storage type that a type keyword stands for.
    pub open spec fn of_keyword(keyword: tokens::DataType) -> DataType {
        match keyword {
            tokens::DataType::INTEGER => DataType::Integer,
            tokens::DataType::FLOAT => DataType::Float,
            tokens::DataType::TEXT => DataType::Text,
            tokens::DataType::BOOLEAN => DataType::Boolean,
            tokens::DataType::DATE => DataType::Date,
            tokens::DataType::TIME => DataType::Time,
            tokens::DataType::TIMESTAMP => DataType::Timestamp,
            tokens::DataType::DATETIME => DataType::DateTime,
            tokens::DataType::CHAR => DataType::Char,
            tokens::DataType::BLOB => DataType::Blob,
            tokens::DataType::JSON => DataType::Json,
            tokens::DataType::DECIMAL => DataType::Decimal,
            tokens::DataType::DOUBLE => DataType::Double,
            tokens::DataType::REAL => DataType::Real,
            tokens::DataType::NUMERIC => DataType::Numeric,
            tokens::DataType::TINYINT => DataType::TinyInt,
            tokens::DataType::SMALLINT => DataType::SmallInt,
            tokens::DataType::MEDIUMINT => DataType::MediumInt,
            tokens::DataType::BIGINT => DataType::BigInt,
        }
    }
}

impl From<tokens::DataType> for DataType {
    fn from(token_type: tokens::DataType) -> (storage_type: DataType) {
        match token_type {
            tokens::DataType::INTEGER => DataType::Integer,
            tokens::DataType::FLOAT => DataType::Float,
            tokens::DataType::TEXT => DataType::Text,
            tokens::DataType::BOOLEAN => DataType::Boolean,
            tokens::DataType::DATE => DataType::Date,
            tokens::DataType::TIME => DataType::Time,
            tokens::DataType::TIMESTAMP => DataType::Timestamp,
            tokens::DataType::DATETIME => DataType::DateTime,
            tokens::DataType::CHAR => DataType::Char,
            tokens::DataType::BLOB => DataType::Blob,
            tokens::DataType::JSON => DataType::Json,
            tokens::DataType::DECIMAL => DataType::Decimal,
            tokens::DataType::DOUBLE => DataType::Double,
            tokens::DataType::REAL => DataType::Real,
            tokens::DataType::NUMERIC => DataType::Numeric,
            tokens::DataType::TINYINT => DataType::TinyInt,
            tokens::DataType::SMALLINT => DataType::SmallInt,
            tokens::DataType::MEDIUMINT => DataType::MediumInt,
            tokens::DataType::BIGINT => DataType::BigInt,
        }
    }
}

impl FromSpecImpl<tokens::DataType> for DataType {
    open spec fn obeys_from_spec() -> bool {
        true
    }

    open spec fn from_spec(token_type: tokens::DataType) -> DataType {
        DataType::of_keyword(token_type)
    }
}

/// One column of a table: its name, its type, and whether it may hold NULL.
#[derive(Debug, Clone, PartialEq)]
pub struct Column {
    pub name: String,
    pub data_type: DataType,
    pub nullable: bool,
}

/// A column as a mathematical value.
pub struct ColumnView {
    pub name: Seq<char>,
    pub data_type: DataType,
    pub nullable: bool,
}

impl View for Column {
    type V = ColumnView;

    open spec fn view(&self) -> ColumnView {
        ColumnView { name: self.name@, data_type: self.data_type, nullable: self.nullable }
    }
}

impl Column {
    pub fn new(name: String, data_type: DataType, nullable: bool) -> (column: Column)
        ensures
            column.name == name,
            column.data_type == data_type,
            column.nullable == nullable,
    {
        Column { name, data_type, nullable }
    }

    /// A copy of the column.
    pub fn duplicate(&self) -> (copy: Column)
        ensures
            copy@ == self@,
    {
        Column { name: self.name.clone(), data_type: self.data_type, nullable: self.nullable }
    }
}

/// The columns of a schema as mathematical values, in order.
pub open spec fn column_views(columns: Seq<Column>) -> Seq<ColumnView> {
    Seq::new(columns.len(), |i: int| columns[i]@)
}

/// Where the live copy of a row lies: segment, page, slot, and the slot's
/// flags byte as it was read.
#[derive(Debug, Clone, Copy, PartialEq, Eq, Structural)]
pub struct TupleLoc {
    pub seg: u32,
    pub page_id: u32,
    pub slot_id: u16,
    pub flags: u8,
}

impl TupleLoc {
    /// Whether this location comes before `other` in a front-to-back scan:
    /// by page first, then by slot.
    pub open spec fn before(&self, other: &TupleLoc) -> bool {
        self.page_id < other.page_id || (self.page_id == other.page_id && self.slot_id
            < other.slot_id)
    }
}

/// What a database records about itself.
#[derive(Debug, Clone, Default)]
pub struct Database {
    pub name: String,
    pub tables_len: usize,
    pub created_at: u64,
}

} // verus!
