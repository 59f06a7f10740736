//! The errors of the catalog, the page layer and the record layer.

use vstd::prelude::*;
use vstd::string::*;
use crate::tokens::{Token, TokenView};

verus! {

/// Why a page operation was refused.
#[derive(Debug, Clone, Copy, PartialEq, Eq, Structural)]
pub enum PageError {
    /// The buffer is no page: too short, wrong magic, or a slot directory
    /// that would reach into the header.
    CorruptPage,
    /// The slot does not exist or has been tombstoned.
    BadSlot,
    /// The payload and its slot do not fit into the free bytes.
    PageFull,
}

/// Why a record could not be written to bytes or read back.
#[derive(Debug, Clone, Copy, PartialEq, Eq, Structural)]
pub enum RecordError {
    /// The payload ends before the record does.
    Truncated,
    /// A text value is not UTF-8.
    BadUtf8,
    /// The column's type has no encoding.
    UnsupportedType,
    /// The value is of another kind than the column, or too long to encode.
    TypeMismatch,
    /// NULL was given for a column that does not take it.
    NotNullViolation,
    /// The number of values is not the number of columns.
    ColumnCountMismatch,
    /// A column was named that the table does not have.
    UnknownColumn,
    /// A row lacks a column that was asked for.
    MissingColumn,
}

/// The errors of the catalog. Paths are carried as text.
#[derive(Debug, PartialEq)]
pub enum CatalogError {
    InvalidName { name: String },
    NoCurrentDatabase,
    TableDoesNotExist { name: String },
    AlreadyExists { name: String, path: String },
    CreateDir { path: String },
    OpenFile { path: String },
    ReadFile { path: String },
    WriteFile { path: String },
    SeekFile { path: String },
    SyncFile { path: String },
    Rename { from: String, to: String },
    FsyncDir { path: String },
    ReadDir { path: String },
    RootMissing { path: String },
    RootNotDir { path: String },
    DatabaseDirMissing { path: String },
    DatabaseDirNotDir { path: String },
    MetadataMissing { path: String },
    TablesDirMissing { path: String },
    TablesDirNotDir { path: String },
    /// A blob is shorter than the shortest blob of its kind.
    MetaTooShort { min: usize, actual: usize },
    BadMagic,
    BadVersion { version: u32 },
    Truncated,
    BadUtf8,
    ChecksumMismatch { expected: u32, got: u32 },
    UnknownTypeCode { code: u16 },
    /// A page of the heap was refused.
    Page(PageError),
    /// A record was refused.
    Record(RecordError),
    /// A file of the catalog was read and found invalid.
    InvalidMetadata { path: String, source: Box<CatalogError> },
}

impl CatalogError {
    /// Whether the error says that `name` is no name for what was to be
    /// named.
    pub open spec fn is_invalid_name(&self, name: Seq<char>) -> bool {
        self matches CatalogError::InvalidName { name: refused } && refused@ == name
    }

    /// Whether the error says that what was to be made under `name` at
    /// `path` is there already.
    pub open spec fn is_already_exists(&self, name: Seq<char>, path: Seq<char>) -> bool {
        self matches CatalogError::AlreadyExists { name: taken, path: at } && taken@ == name
            && at@ == path
    }

    /// Whether the error says that the file at `path` was found invalid,
    /// for the given cause.
    pub open spec fn is_invalid_metadata(&self, path: Seq<char>, cause: CatalogError) -> bool {
        self matches CatalogError::InvalidMetadata { path: at, source } && at@ == path && *source
            == cause
    }

    /// Whether the error says that there is no table `name`.
    pub open spec fn is_no_table(&self, name: Seq<char>) -> bool {
        self matches CatalogError::TableDoesNotExist { name: missing } && missing@ == name
    }
}

/// The errors of the SQL front end.
#[derive(Debug, PartialEq)]
pub enum SqlError {
    LexError { pos: usize, reason: String },
    /// Another token was found than the one that had to come: an `EOF` where
    /// none came at all.
    UnexpectedToken { expected: Token, found: Token, pos: usize },
    UnterminatedString { pos: usize },
    InvalidNumber { literal: String, pos: usize },
    UnsupportedCommand,
    ShowNotSupported,
}

/// An error of the SQL front end as a mathematical value.
pub enum Fault {
    LexError { pos: usize, reason: Seq<char> },
    UnexpectedToken { expected: TokenView, found: TokenView, pos: usize },
    UnterminatedString { pos: usize },
    InvalidNumber { literal: Seq<char>, pos: usize },
    UnsupportedCommand,
    ShowNotSupported,
}

impl View for SqlError {
    type V = Fault;

    open spec fn view(&self) -> Fault {
        match *self {
            SqlError::LexError { pos, reason } => Fault::LexError { pos, reason: reason@ },
            SqlError::UnexpectedToken { expected, found, pos } => Fault::UnexpectedToken {
                expected: expected@,
                found: found@,
                pos,
            },
            SqlError::UnterminatedString { pos } => Fault::UnterminatedString { pos },
            SqlError::InvalidNumber { literal, pos } => Fault::InvalidNumber {
                literal: literal@,
                pos,
            },
            SqlError::UnsupportedCommand => Fault::UnsupportedCommand,
            SqlError::ShowNotSupported => Fault::ShowNotSupported,
        }
    }
}

/// How grave a log entry is.
#[derive(Debug, Clone, Copy, PartialEq, Eq, Structural)]
pub enum LogLevel {
    Info,
    Warning,
    Error,
}

impl LogLevel {
    /// The tag of the level as it stands in a log line.
    pub open spec fn tag(&self) -> Seq<char> {
        match *self {
            LogLevel::Info => "[INFO]"@,
            LogLevel::Warning => "[WARNING]"@,
            LogLevel::Error => "[ERROR]"@,
        }
    }

    /// The tag of the level as it stands in a log line.
    pub fn to_string(&self) -> (text: String)
        ensures
            text@ == self.tag(),
    {
        match self {
            LogLevel::Info => "[INFO]".to_string(),
            LogLevel::Warning => "[WARNING]".to_string(),
            LogLevel::Error => "[ERROR]".to_string(),
        }
    }
}

/// The log of the program. It has no state; `line` makes the text of an
/// entry, and writing it out is the caller's.
pub struct Logger;

impl Logger {
    /// One line of the log: the time as text, the tag of the level and the
    /// message, with a blank between each and a line feed at the end.
    pub fn line(timestamp: &str, level: LogLevel, message: &str) -> (entry: String)
        ensures
            entry@ == timestamp@ + " "@ + level.tag() + " "@ + message@ + "\n"@,
    {
        let mut entry = timestamp.to_string();
        entry.append(" ");
        entry.append(level.to_string().as_str());
        entry.append(" ");
        entry.append(message);
        entry.append("\n");
        entry
    }
}

/// An error of the program as a whole, with its text.
#[derive(Debug, PartialEq)]
pub enum MeriDBError {
    IoError(String),
    ParsingError(String),
    ExecutionError(String),
}

impl MeriDBError {
    /// The text of the error with its kind in front.
    pub open spec fn text(&self) -> Seq<char> {
        match *self {
            MeriDBError::IoError(msg) => "IO Error: "@ + msg@,
            MeriDBError::ParsingError(msg) => "Parsing Error: "@ + msg@,
            MeriDBError::ExecutionError(msg) => "Execution Error: "@ + msg@,
        }
    }

    /// The text of the error with its kind in front.
    pub fn to_string(&self) -> (text: String)
        ensures
            text@ == self.text(),
    {
        match self {
            MeriDBError::IoError(msg) => "IO Error: ".to_string().concat(msg.as_str()),
            MeriDBError::ParsingError(msg) => "Parsing Error: ".to_string().concat(msg.as_str()),
            MeriDBError::ExecutionError(msg) => "Execution Error: ".to_string().concat(
                msg.as_str(),
            ),
        }
    }
}

} // verus!
