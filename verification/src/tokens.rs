//! The words of the SQL dialect: tokens, keywords, and how an identifier is
//! told apart from a keyword.

use vstd::prelude::*;
use crate::text::{lowercase, lowercase_of, str_eq, string_from_chars, chars_eq};

verus! {

/// One lexical unit of a statement.
#[derive(PartialEq, Debug, Clone)]
pub enum Token {
    ILLEGAL,
    EOF,
    /// An identifier, as the characters that spell it.
    IDENT(Vec<char>),
    /// An integer literal, as its digits.
    INT(Vec<char>),
    COMMA(char),
    SEMICOLON(char),
    LPAREN(char),
    RPAREN(char),
    LBRACE(char),
    RBRACE(char),
    QUOTE(char),
    SINGLEQUOTE(char),
    TRUE,
    FALSE,
    Command(Command),
    Helper(Helper),
    DataType(DataType),
    Operator(Operator),
}

/// A token as a mathematical value: character vectors become sequences.
pub enum TokenView {
    ILLEGAL,
    EOF,
    IDENT(Seq<char>),
    INT(Seq<char>),
    COMMA(char),
    SEMICOLON(char),
    LPAREN(char),
    RPAREN(char),
    LBRACE(char),
    RBRACE(char),
    QUOTE(char),
    SINGLEQUOTE(char),
    TRUE,
    FALSE,
    Command(Command),
    Helper(Helper),
    DataType(DataType),
    Operator(Operator),
}

impl View for Token {
    type V = TokenView;

    open spec fn view(&self) -> TokenView {
        match *self {
            Token::ILLEGAL => TokenView::ILLEGAL,
            Token::EOF => TokenView::EOF,
            Token::IDENT(v) => TokenView::IDENT(v@),
            Token::INT(v) => TokenView::INT(v@),
            Token::COMMA(c) => TokenView::COMMA(c),
            Token::SEMICOLON(c) => TokenView::SEMICOLON(c),
            Token::LPAREN(c) => TokenView::LPAREN(c),
            Token::RPAREN(c) => TokenView::RPAREN(c),
            Token::LBRACE(c) => TokenView::LBRACE(c),
            Token::RBRACE(c) => TokenView::RBRACE(c),
            Token::QUOTE(c) => TokenView::QUOTE(c),
            Token::SINGLEQUOTE(c) => TokenView::SINGLEQUOTE(c),
            Token::TRUE => TokenView::TRUE,
            Token::FALSE => TokenView::FALSE,
            Token::Command(c) => TokenView::Command(c),
            Token::Helper(h) => TokenView::Helper(h),
            Token::DataType(d) => TokenView::DataType(d),
            Token::Operator(o) => TokenView::Operator(o),
        }
    }
}

impl Token {
    /// Whether two tokens are the same token, spelling included.
    pub fn same(&self, other: &Token) -> (eq: bool)
        ensures
            eq == (self@ == other@),
    {
        match (self, other) {
            (Token::ILLEGAL, Token::ILLEGAL) => true,
            (Token::EOF, Token::EOF) => true,
            (Token::IDENT(a), Token::IDENT(b)) => chars_eq(a, b),
            (Token::INT(a), Token::INT(b)) => chars_eq(a, b),
            (Token::COMMA(a), Token::COMMA(b)) => *a == *b,
            (Token::SEMICOLON(a), Token::SEMICOLON(b)) => *a == *b,
            (Token::LPAREN(a), Token::LPAREN(b)) => *a == *b,
            (Token::RPAREN(a), Token::RPAREN(b)) => *a == *b,
            (Token::LBRACE(a), Token::LBRACE(b)) => *a == *b,
            (Token::RBRACE(a), Token::RBRACE(b)) => *a == *b,
            (Token::QUOTE(a), Token::QUOTE(b)) => *a == *b,
            (Token::SINGLEQUOTE(a), Token::SINGLEQUOTE(b)) => *a == *b,
            (Token::TRUE, Token::TRUE) => true,
            (Token::FALSE, Token::FALSE) => true,
            (Token::Command(a), Token::Command(b)) => *a == *b,
            (Token::Helper(a), Token::Helper(b)) => *a == *b,
            (Token::DataType(a), Token::DataType(b)) => *a == *b,
            (Token::Operator(a), Token::Operator(b)) => *a == *b,
            _ => false,
        }
    }

    /// A copy of the token.
    pub fn duplicate(&self) -> (copy: Token)
        ensures
            copy@ == self@,
    {
        match self {
            Token::ILLEGAL => Token::ILLEGAL,
            Token::EOF => Token::EOF,
            Token::IDENT(v) => Token::IDENT(copy_chars(v)),
            Token::INT(v) => Token::INT(copy_chars(v)),
            Token::COMMA(c) => Token::COMMA(*c),
            Token::SEMICOLON(c) => Token::SEMICOLON(*c),
            Token::LPAREN(c) => Token::LPAREN(*c),
            Token::RPAREN(c) => Token::RPAREN(*c),
            Token::LBRACE(c) => Token::LBRACE(*c),
            Token::RBRACE(c) => Token::RBRACE(*c),
            Token::QUOTE(c) => Token::QUOTE(*c),
            Token::SINGLEQUOTE(c) => Token::SINGLEQUOTE(*c),
            Token::TRUE => Token::TRUE,
            Token::FALSE => Token::FALSE,
            Token::Command(c) => Token::Command(*c),
            Token::Helper(h) => Token::Helper(*h),
            Token::DataType(d) => Token::DataType(*d),
            Token::Operator(o) => Token::Operator(*o),
        }
    }
}

/// A copy of a character vector.
pub fn copy_chars(v: &Vec<char>) -> (copy: Vec<char>)
    ensures
        copy@ == v@,
{
    let mut out: Vec<char> = Vec::new();
    let mut i: usize = 0;
    while i < v.len()
        invariant
            i <= v@.len(),
            out@ == v@.subrange(0, i as int),
        decreases v@.len() - i,
    {
        out.push(v[i]);
        i += 1;
    }
    assert(v@.subrange(0, v@.len() as int) == v@);
    out
}

/// The statement keywords.
#[derive(PartialEq, Eq, Debug, Clone, Copy, Structural)]
pub enum Command {
    CREATE,
    UPDATE,
    INSERT,
    DELETE,
    SELECT,
    FROM,
    WHERE,
    ORDER,
    ASC,
    DESC,
    BY,
    LIMIT,
    OFFSET,
    INTO,
    VALUES,
    TABLE,
    TABLES,
    DATABASE,
    DATABASES,
    USE,
    SHOW,
    SET,
}

/// The keywords that qualify a column or a constraint.
#[derive(PartialEq, Eq, Debug, Clone, Copy, Structural)]
pub enum Helper {
    ON,
    PRIMARY,
    KEY,
    UNIQUE,
    NOT,
    NULL,
    CONSTRAINT,
    FOREIGN,
    REFERENCES,
    ADD,
    COLUMN,
    ALTER,
    DROP,
    INDEXES,
    CONSTRAINTS,
    FOREIGNKEYS,
    COLUMNS,
    PRIMARYKEYS,
    UNIQUEKEYS,
    NOTNULLS,
    REFERENCESKEYS,
    ADDS,
    DEFAULT,
    AUTOINCREMENT,
}

/// The type keywords of a column definition.
#[derive(PartialEq, Eq, Debug, Clone, Copy, Structural)]
pub enum DataType {
    INTEGER,
    FLOAT,
    TEXT,
    BOOLEAN,
    DATE,
    TIME,
    TIMESTAMP,
    DATETIME,
    CHAR,
    BLOB,
    JSON,
    DECIMAL,
    DOUBLE,
    REAL,
    NUMERIC,
    TINYINT,
    SMALLINT,
    MEDIUMINT,
    BIGINT,
}

/// The comparison, arithmetic and logical operators.
#[derive(PartialEq, Eq, Clone, Copy, Debug, Structural)]
pub enum Operator {
    /// '='
    EQUALS,
    /// '!='
    NE,
    /// '<'
    LT,
    /// '>'
    GT,
    /// '<='
    LTorE,
    /// '>='
    GTorE,
    /// '+'
    PLUS,
    /// '-'
    MINUS,
    /// '/'
    DIVIDE,
    /// '!'
    BANG,
    /// '*'
    ASTERISK,
    /// 'AND'
    AND,
    /// 'OR'
    OR,
}

/// The statement keyword that a lowercase word spells, if any.
pub open spec fn command_of(word: Seq<char>) -> Option<Command> {
    if word == "create"@ {
        Some(Command::CREATE)
    } else if word == "update"@ {
        Some(Command::UPDATE)
    } else if word == "insert"@ {
        Some(Command::INSERT)
    } else if word == "delete"@ {
        Some(Command::DELETE)
    } else if word == "select"@ {
        Some(Command::SELECT)
    } else if word == "from"@ {
        Some(Command::FROM)
    } else if word == "where"@ {
        Some(Command::WHERE)
    } else if word == "order"@ {
        Some(Command::ORDER)
    } else if word == "asc"@ {
        Some(Command::ASC)
    } else if word == "desc"@ {
        Some(Command::DESC)
    } else if word == "by"@ {
        Some(Command::BY)
    } else if word == "limit"@ {
        Some(Command::LIMIT)
    } else if word == "offset"@ {
        Some(Command::OFFSET)
    } else if word == "into"@ {
        Some(Command::INTO)
    } else if word == "values"@ {
        Some(Command::VALUES)
    } else if word == "table"@ {
        Some(Command::TABLE)
    } else if word == "database"@ {
        Some(Command::DATABASE)
    } else if word == "tables"@ {
        Some(Command::TABLES)
    } else if word == "databases"@ {
        Some(Command::DATABASES)
    } else if word == "use"@ {
        Some(Command::USE)
    } else if word == "show"@ {
        Some(Command::SHOW)
    } else if word == "set"@ {
        Some(Command::SET)
    } else {
        None
    }
}

/// The qualifying keyword that a lowercase word spells, if any.
pub open spec fn helper_of(word: Seq<char>) -> Option<Helper> {
    if word == "on"@ {
        Some(Helper::ON)
    } else if word == "primary"@ {
        Some(Helper::PRIMARY)
    } else if word == "key"@ {
        Some(Helper::KEY)
    } else if word == "unique"@ {
        Some(Helper::UNIQUE)
    } else if word == "not"@ {
        Some(Helper::NOT)
    } else if word == "null"@ {
        Some(Helper::NULL)
    } else if word == "constraint"@ {
        Some(Helper::CONSTRAINT)
    } else if word == "foreign"@ {
        Some(Helper::FOREIGN)
    } else if word == "references"@ {
        Some(Helper::REFERENCES)
    } else if word == "add"@ {
        Some(Helper::ADD)
    } else if word == "column"@ {
        Some(Helper::COLUMN)
    } else if word == "alter"@ {
        Some(Helper::ALTER)
    } else if word == "drop"@ {
        Some(Helper::DROP)
    } else if word == "indexes"@ {
        Some(Helper::INDEXES)
    } else if word == "constraints"@ {
        Some(Helper::CONSTRAINTS)
    } else if word == "foreignkeys"@ {
        Some(Helper::FOREIGNKEYS)
    } else if word == "columns"@ {
        Some(Helper::COLUMNS)
    } else if word == "primarykeys"@ {
        Some(Helper::PRIMARYKEYS)
    } else if word == "uniquekeys"@ {
        Some(Helper::UNIQUEKEYS)
    } else if word == "notnulls"@ {
        Some(Helper::NOTNULLS)
    } else if word == "referenceskeys"@ {
        Some(Helper::REFERENCESKEYS)
    } else if word == "adds"@ {
        Some(Helper::ADDS)
    } else if word == "default"@ {
        Some(Helper::DEFAULT)
    } else if word == "autoincrement"@ {
        Some(Helper::AUTOINCREMENT)
    } else {
        None
    }
}

/// The type keyword that a lowercase word spells, if any.
pub open spec fn data_type_of(word: Seq<char>) -> Option<DataType> {
    if word == "integer"@ {
        Some(DataType::INTEGER)
    } else if word == "float"@ {
        Some(DataType::FLOAT)
    } else if word == "text"@ {
        Some(DataType::TEXT)
    } else if word == "boolean"@ {
        Some(DataType::BOOLEAN)
    } else if word == "date"@ {
        Some(DataType::DATE)
    } else if word == "time"@ {
        Some(DataType::TIME)
    } else if word == "timestamp"@ {
        Some(DataType::TIMESTAMP)
    } else if word == "datetime"@ {
        Some(DataType::DATETIME)
    } else if word == "char"@ {
        Some(DataType::CHAR)
    } else if word == "blob"@ {
        Some(DataType::BLOB)
    } else if word == "json"@ {
        Some(DataType::JSON)
    } else if word == "decimal"@ {
        Some(DataType::DECIMAL)
    } else if word == "double"@ {
        Some(DataType::DOUBLE)
    } else if word == "real"@ {
        Some(DataType::REAL)
    } else if word == "numeric"@ {
        Some(DataType::NUMERIC)
    } else if word == "tinyint"@ {
        Some(DataType::TINYINT)
    } else if word == "smallint"@ {
        Some(DataType::SMALLINT)
    } else if word == "mediumint"@ {
        Some(DataType::MEDIUMINT)
    } else if word == "bigint"@ {
        Some(DataType::BIGINT)
    } else {
        None
    }
}

/// The operator that a lowercase word spells, if any.
pub open spec fn operator_of(word: Seq<char>) -> Option<Operator> {
    if word == "="@ {
        Some(Operator::EQUALS)
    } else if word == "!="@ {
        Some(Operator::NE)
    } else if word == "<"@ {
        Some(Operator::LT)
    } else if word == ">"@ {
        Some(Operator::GT)
    } else if word == "<="@ {
        Some(Operator::LTorE)
    } else if word == ">="@ {
        Some(Operator::GTorE)
    } else if word == "+"@ {
        Some(Operator::PLUS)
    } else if word == "-"@ {
        Some(Operator::MINUS)
    } else if word == "*"@ {
        Some(Operator::ASTERISK)
    } else if word == "/"@ {
        Some(Operator::DIVIDE)
    } else if word == "!"@ {
        Some(Operator::BANG)
    } else if word == "and"@ {
        Some(Operator::AND)
    } else if word == "or"@ {
        Some(Operator::OR)
    } else {
        None
    }
}

/// Looks a word up among the statement keywords; the word is taken as it is.
pub fn match_command(keyword: &str) -> (found: Result<Command, String>)
    ensures
        found.ok() == command_of(keyword@),
        found matches Err(msg) ==> msg@ == "Not a command"@,
{
    if str_eq(keyword, "create") {
        Ok(Command::CREATE)
    } else if str_eq(keyword, "update") {
        Ok(Command::UPDATE)
    } else if str_eq(keyword, "insert") {
        Ok(Command::INSERT)
    } else if str_eq(keyword, "delete") {
        Ok(Command::DELETE)
    } else if str_eq(keyword, "select") {
        Ok(Command::SELECT)
    } else if str_eq(keyword, "from") {
        Ok(Command::FROM)
    } else if str_eq(keyword, "where") {
        Ok(Command::WHERE)
    } else if str_eq(keyword, "order") {
        Ok(Command::ORDER)
    } else if str_eq(keyword, "asc") {
        Ok(Command::ASC)
    } else if str_eq(keyword, "desc") {
        Ok(Command::DESC)
    } else if str_eq(keyword, "by") {
        Ok(Command::BY)
    } else if str_eq(keyword, "limit") {
        Ok(Command::LIMIT)
    } else if str_eq(keyword, "offset") {
        Ok(Command::OFFSET)
    } else if str_eq(keyword, "into") {
        Ok(Command::INTO)
    } else if str_eq(keyword, "values") {
        Ok(Command::VALUES)
    } else if str_eq(keyword, "table") {
        Ok(Command::TABLE)
    } else if str_eq(keyword, "database") {
        Ok(Command::DATABASE)
    } else if str_eq(keyword, "tables") {
        Ok(Command::TABLES)
    } else if str_eq(keyword, "databases") {
        Ok(Command::DATABASES)
    } else if str_eq(keyword, "use") {
        Ok(Command::USE)
    } else if str_eq(keyword, "show") {
        Ok(Command::SHOW)
    } else if str_eq(keyword, "set") {
        Ok(Command::SET)
    } else {
        Err("Not a command".to_string())
    }
}

/// Looks a word up among the qualifying keywords; the word is taken as it is.
pub fn match_helper(keyword: &str) -> (found: Result<Helper, String>)
    ensures
        found.ok() == helper_of(keyword@),
        found matches Err(msg) ==> msg@ == "Not a helper"@,
{
    if str_eq(keyword, "on") {
        Ok(Helper::ON)
    } else if str_eq(keyword, "primary") {
        Ok(Helper::PRIMARY)
    } else if str_eq(keyword, "key") {
        Ok(Helper::KEY)
    } else if str_eq(keyword, "unique") {
        Ok(Helper::UNIQUE)
    } else if str_eq(keyword, "not") {
        Ok(Helper::NOT)
    } else if str_eq(keyword, "null") {
        Ok(Helper::NULL)
    } else if str_eq(keyword, "constraint") {
        Ok(Helper::CONSTRAINT)
    } else if str_eq(keyword, "foreign") {
        Ok(Helper::FOREIGN)
    } else if str_eq(keyword, "references") {
        Ok(Helper::REFERENCES)
    } else if str_eq(keyword, "add") {
        Ok(Helper::ADD)
    } else if str_eq(keyword, "column") {
        Ok(Helper::COLUMN)
    } else if str_eq(keyword, "alter") {
        Ok(Helper::ALTER)
    } else if str_eq(keyword, "drop") {
        Ok(Helper::DROP)
    } else if str_eq(keyword, "indexes") {
        Ok(Helper::INDEXES)
    } else if str_eq(keyword, "constraints") {
        Ok(Helper::CONSTRAINTS)
    } else if str_eq(keyword, "foreignkeys") {
        Ok(Helper::FOREIGNKEYS)
    } else if str_eq(keyword, "columns") {
        Ok(Helper::COLUMNS)
    } else if str_eq(keyword, "primarykeys") {
        Ok(Helper::PRIMARYKEYS)
    } else if str_eq(keyword, "uniquekeys") {
        Ok(Helper::UNIQUEKEYS)
    } else if str_eq(keyword, "notnulls") {
        Ok(Helper::NOTNULLS)
    } else if str_eq(keyword, "referenceskeys") {
        Ok(Helper::REFERENCESKEYS)
    } else if str_eq(keyword, "adds") {
        Ok(Helper::ADDS)
    } else if str_eq(keyword, "default") {
        Ok(Helper::DEFAULT)
    } else if str_eq(keyword, "autoincrement") {
        Ok(Helper::AUTOINCREMENT)
    } else {
        Err("Not a helper".to_string())
    }
}

/// Looks a word up among the type keywords; the word is taken as it is.
pub fn data_type_keyword(keyword: &str) -> (found: Result<DataType, String>)
    ensures
        found.ok() == data_type_of(keyword@),
        found matches Err(msg) ==> msg@ == "Not a data type"@,
{
    if str_eq(keyword, "integer") {
        Ok(DataType::INTEGER)
    } else if str_eq(keyword, "float") {
        Ok(DataType::FLOAT)
    } else if str_eq(keyword, "text") {
        Ok(DataType::TEXT)
    } else if str_eq(keyword, "boolean") {
        Ok(DataType::BOOLEAN)
    } else if str_eq(keyword, "date") {
        Ok(DataType::DATE)
    } else if str_eq(keyword, "time") {
        Ok(DataType::TIME)
    } else if str_eq(keyword, "timestamp") {
        Ok(DataType::TIMESTAMP)
    } else if str_eq(keyword, "datetime") {
        Ok(DataType::DATETIME)
    } else if str_eq(keyword, "char") {
        Ok(DataType::CHAR)
    } else if str_eq(keyword, "blob") {
        Ok(DataType::BLOB)
    } else if str_eq(keyword, "json") {
        Ok(DataType::JSON)
    } else if str_eq(keyword, "decimal") {
        Ok(DataType::DECIMAL)
    } else if str_eq(keyword, "double") {
        Ok(DataType::DOUBLE)
    } else if str_eq(keyword, "real") {
        Ok(DataType::REAL)
    } else if str_eq(keyword, "numeric") {
        Ok(DataType::NUMERIC)
    } else if str_eq(keyword, "tinyint") {
        Ok(DataType::TINYINT)
    } else if str_eq(keyword, "smallint") {
        Ok(DataType::SMALLINT)
    } else if str_eq(keyword, "mediumint") {
        Ok(DataType::MEDIUMINT)
    } else if str_eq(keyword, "bigint") {
        Ok(DataType::BIGINT)
    } else {
        Err("Not a data type".to_string())
    }
}

/// Looks a word up among the operators; the word is taken as it is.
pub fn operator_keyword(keyword: &str) -> (found: Result<Operator, String>)
    ensures
        found.ok() == operator_of(keyword@),
        found matches Err(msg) ==> msg@ == "Not a valid operator"@,
{
    if str_eq(keyword, "=") {
        Ok(Operator::EQUALS)
    } else if str_eq(keyword, "!=") {
        Ok(Operator::NE)
    } else if str_eq(keyword, "<") {
        Ok(Operator::LT)
    } else if str_eq(keyword, ">") {
        Ok(Operator::GT)
    } else if str_eq(keyword, "<=") {
        Ok(Operator::LTorE)
    } else if str_eq(keyword, ">=") {
        Ok(Operator::GTorE)
    } else if str_eq(keyword, "+") {
        Ok(Operator::PLUS)
    } else if str_eq(keyword, "-") {
        Ok(Operator::MINUS)
    } else if str_eq(keyword, "*") {
        Ok(Operator::ASTERISK)
    } else if str_eq(keyword, "/") {
        Ok(Operator::DIVIDE)
    } else if str_eq(keyword, "!") {
        Ok(Operator::BANG)
    } else if str_eq(keyword, "and") {
        Ok(Operator::AND)
    } else if str_eq(keyword, "or") {
        Ok(Operator::OR)
    } else {
        Err("Not a valid operator".to_string())
    }
}

/// Looks a word up among the type keywords, whatever its case.
pub fn match_data_type(keyword: &str) -> (found: Result<DataType, String>)
    ensures
        found.ok() == data_type_of(lowercase_of(keyword@)),
        found matches Err(msg) ==> msg@ == "Not a data type"@,
{
    let lower = lowercase(keyword);
    data_type_keyword(lower.as_str())
}

/// Looks a word up among the operators, whatever its case.
pub fn match_operator(op: &str) -> (found: Result<Operator, String>)
    ensures
        found.ok() == operator_of(lowercase_of(op@)),
        found matches Err(msg) ==> msg@ == "Not a valid operator"@,
{
    let lower = lowercase(op);
    operator_keyword(lower.as_str())
}

/// The keyword token that a word spells once it has been put in lowercase
/// (`lower`) and that lowercase form has been put in lowercase again
/// (`relowered`): a command first, then a helper, a type, an operator, and
/// last the two truth values.
pub open spec fn keyword_of(lower: Seq<char>, relowered: Seq<char>) -> Option<TokenView> {
    if command_of(lower) is Some {
        Some(TokenView::Command(command_of(lower)->0))
    } else if helper_of(lower) is Some {
        Some(TokenView::Helper(helper_of(lower)->0))
    } else if data_type_of(relowered) is Some {
        Some(TokenView::DataType(data_type_of(relowered)->0))
    } else if operator_of(relowered) is Some {
        Some(TokenView::Operator(operator_of(relowered)->0))
    } else if lower == "true"@ {
        Some(TokenView::TRUE)
    } else if lower == "false"@ {
        Some(TokenView::FALSE)
    } else {
        None
    }
}

/// The keyword token for a word whose lowercase forms are at hand.
pub fn keyword_token(lower: &str, relowered: &str) -> (found: Result<Token, String>)
    ensures
        match found {
            Ok(token) => keyword_of(lower@, relowered@) == Some(token@),
            Err(msg) => keyword_of(lower@, relowered@) is None && msg@ == "Not a keyword"@,
        },
{
    if let Ok(command) = match_command(lower) {
        return Ok(Token::Command(command));
    }
    if let Ok(helper) = match_helper(lower) {
        return Ok(Token::Helper(helper));
    }
    if let Ok(data_type) = data_type_keyword(relowered) {
        return Ok(Token::DataType(data_type));
    }
    if let Ok(operator) = operator_keyword(relowered) {
        return Ok(Token::Operator(operator));
    }
    if str_eq(lower, "true") {
        Ok(Token::TRUE)
    } else if str_eq(lower, "false") {
        Ok(Token::FALSE)
    } else {
        Err("Not a keyword".to_string())
    }
}

/// The keyword token that an identifier spells, whatever its case, or an
/// error when it spells none.
pub fn get_keyword_token(ident: &Vec<char>) -> (found: Result<Token, String>)
    ensures
        match found {
            Ok(token) => keyword_of(
                lowercase_of(ident@),
                lowercase_of(lowercase_of(ident@)),
            ) == Some(token@),
            Err(msg) => keyword_of(lowercase_of(ident@), lowercase_of(lowercase_of(ident@)))
                is None && msg@ == "Not a keyword"@,
        },
{
    let identifier = string_from_chars(ident);
    let lower = lowercase(identifier.as_str());
    let relowered = lowercase(lower.as_str());
    keyword_token(lower.as_str(), relowered.as_str())
}

impl DataType {
    /// The keyword in capitals, as a statement spells it.
    pub fn to_string(&self) -> (name: String)
        ensures
            name@ == self.name(),
    {
        match self {
            DataType::INTEGER => "INTEGER".to_string(),
            DataType::FLOAT => "FLOAT".to_string(),
            DataType::TEXT => "TEXT".to_string(),
            DataType::BOOLEAN => "BOOLEAN".to_string(),
            DataType::DATE => "DATE".to_string(),
            DataType::TIME => "TIME".to_string(),
            DataType::TIMESTAMP => "TIMESTAMP".to_string(),
            DataType::DATETIME => "DATETIME".to_string(),
            DataType::CHAR => "CHAR".to_string(),
            DataType::BLOB => "BLOB".to_string(),
            DataType::JSON => "JSON".to_string(),
            DataType::DECIMAL => "DECIMAL".to_string(),
            DataType::DOUBLE => "DOUBLE".to_string(),
            DataType::REAL => "REAL".to_string(),
            DataType::NUMERIC => "NUMERIC".to_string(),
            DataType::TINYINT => "TINYINT".to_string(),
            DataType::SMALLINT => "SMALLINT".to_string(),
            DataType::MEDIUMINT => "MEDIUMINT".to_string(),
            DataType::BIGINT => "BIGINT".to_string(),
        }
    }

    /// The keyword in capitals.
    pub open spec fn name(&self) -> Seq<char> {
        match *self {
            DataType::INTEGER => "INTEGER"@,
            DataType::FLOAT => "FLOAT"@,
            DataType::TEXT => "TEXT"@,
            DataType::BOOLEAN => "BOOLEAN"@,
            DataType::DATE => "DATE"@,
            DataType::TIME => "TIME"@,
            DataType::TIMESTAMP => "TIMESTAMP"@,
            DataType::DATETIME => "DATETIME"@,
            DataType::CHAR => "CHAR"@,
            DataType::BLOB => "BLOB"@,
            DataType::JSON => "JSON"@,
            DataType::DECIMAL => "DECIMAL"@,
            DataType::DOUBLE => "DOUBLE"@,
            DataType::REAL => "REAL"@,
            DataType::NUMERIC => "NUMERIC"@,
            DataType::TINYINT => "TINYINT"@,
            DataType::SMALLINT => "SMALLINT"@,
            DataType::MEDIUMINT => "MEDIUMINT"@,
            DataType::BIGINT => "BIGINT"@,
        }
    }
}

impl Helper {
    /// The keyword in capitals.
    pub fn to_string(&self) -> (name: String)
        ensures
            name@ == self.name(),
    {
        match self {
            Helper::ON => "ON".to_string(),
            Helper::PRIMARY => "PRIMARY".to_string(),
            Helper::KEY => "KEY".to_string(),
            Helper::UNIQUE => "UNIQUE".to_string(),
            Helper::NOT => "NOT".to_string(),
            Helper::NULL => "NULL".to_string(),
            Helper::CONSTRAINT => "CONSTRAINT".to_string(),
            Helper::FOREIGN => "FOREIGN".to_string(),
            Helper::REFERENCES => "REFERENCES".to_string(),
            Helper::ADD => "ADD".to_string(),
            Helper::COLUMN => "COLUMN".to_string(),
            Helper::ALTER => "ALTER".to_string(),
            Helper::DROP => "DROP".to_string(),
            Helper::INDEXES => "INDEXES".to_string(),
            Helper::CONSTRAINTS => "CONSTRAINTS".to_string(),
            Helper::FOREIGNKEYS => "FOREIGNKEYS".to_string(),
            Helper::COLUMNS => "COLUMNS".to_string(),
            Helper::PRIMARYKEYS => "PRIMARYKEYS".to_string(),
            Helper::UNIQUEKEYS => "UNIQUEKEYS".to_string(),
            Helper::NOTNULLS => "NOTNULLS".to_string(),
            Helper::REFERENCESKEYS => "REFERENCESKEYS".to_string(),
            Helper::ADDS => "ADDS".to_string(),
            Helper::DEFAULT => "DEFAULT".to_string(),
            Helper::AUTOINCREMENT => "AUTOINCREMENT".to_string(),
        }
    }

    /// The keyword in capitals.
    pub open spec fn name(&self) -> Seq<char> {
        match *self {
            Helper::ON => "ON"@,
            Helper::PRIMARY => "PRIMARY"@,
            Helper::KEY => "KEY"@,
            Helper::UNIQUE => "UNIQUE"@,
            Helper::NOT => "NOT"@,
            Helper::NULL => "NULL"@,
            Helper::CONSTRAINT => "CONSTRAINT"@,
            Helper::FOREIGN => "FOREIGN"@,
            Helper::REFERENCES => "REFERENCES"@,
            Helper::ADD => "ADD"@,
            Helper::COLUMN => "COLUMN"@,
            Helper::ALTER => "ALTER"@,
            Helper::DROP => "DROP"@,
            Helper::INDEXES => "INDEXES"@,
            Helper::CONSTRAINTS => "CONSTRAINTS"@,
            Helper::FOREIGNKEYS => "FOREIGNKEYS"@,
            Helper::COLUMNS => "COLUMNS"@,
            Helper::PRIMARYKEYS => "PRIMARYKEYS"@,
            Helper::UNIQUEKEYS => "UNIQUEKEYS"@,
            Helper::NOTNULLS => "NOTNULLS"@,
            Helper::REFERENCESKEYS => "REFERENCESKEYS"@,
            Helper::ADDS => "ADDS"@,
            Helper::DEFAULT => "DEFAULT"@,
            Helper::AUTOINCREMENT => "AUTOINCREMENT"@,
        }
    }
}

} // verus!
