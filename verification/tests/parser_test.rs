use meridb::ast::{ASTNode, Assignment, ColumnDefinition, Condition, ShowType};
use meridb::error::SqlError;
use meridb::number::parse_i64;
use meridb::parser::{parse_command, parse_tokens, Parser};
use meridb::tokens::{Command, DataType, Operator, Token};
use meridb::value::ASTValue;

#[test]
fn test_select_statement() {
    let tokens = vec![
        Token::Command(Command::SELECT),
        Token::IDENT("id".chars().collect()),
        Token::COMMA(','),
        Token::IDENT("name".chars().collect()),
        Token::Command(Command::FROM),
        Token::IDENT("users".chars().collect()),
        Token::Command(Command::WHERE),
        Token::IDENT("age".chars().collect()),
        Token::Operator(Operator::GT),
        Token::INT("18".chars().collect()),
        Token::SEMICOLON(';'),
    ];

    let mut parser = Parser::new(tokens);

    match parser.parse_select() {
        Ok(ASTNode::Select {
            columns,
            table_name,
            where_clause,
        }) => {
            assert_eq!(table_name, "users");
            assert_eq!(columns.len(), 2);
            assert_eq!(columns[0], "id");
            assert_eq!(columns[1], "name");

            match where_clause {
                Some(Condition::Comparison {
                    operator,
                    left,
                    right,
                }) => {
                    assert_eq!(*left, Condition::Column("age".to_string()));
                    assert_eq!(operator, Operator::GT);
                    assert_eq!(*right, Condition::Value(ASTValue::Int(18)));
                }
                _ => panic!("Expected a Comparison condition"),
            }
        }
        _ => panic!("Expected select statement"),
    }
}

#[test]
fn test_insert_statement() {
    let tokens = vec![
        Token::Command(Command::INSERT),
        Token::Command(Command::INTO),
        Token::IDENT("users".chars().collect()),
        Token::Command(Command::VALUES),
        Token::LPAREN('('),
        Token::SINGLEQUOTE('\''),
        Token::IDENT("John".chars().collect()),
        Token::SINGLEQUOTE('\''),
        Token::COMMA(','),
        Token::INT("25".chars().collect()),
        Token::RPAREN(')'),
        Token::SEMICOLON(';'),
    ];

    let mut parser = Parser::new(tokens);

    match parser.parse_insert() {
        Ok(ASTNode::Insert { table_name, values }) => {
            assert_eq!(table_name, "users");
            assert_eq!(values.len(), 2);
            assert_eq!(values[0], ASTValue::String("John".to_string()));
            assert_eq!(values[1], ASTValue::Int(25));
        }
        _ => panic!("Expected insert statement"),
    }
}

#[test]
fn test_update_statement() {
    let tokens = vec![
        Token::Command(Command::UPDATE),
        Token::IDENT("users".chars().collect()),
        Token::Command(Command::SET),
        Token::IDENT("name".chars().collect()),
        Token::Operator(Operator::EQUALS),
        Token::SINGLEQUOTE('\''),
        Token::IDENT("Jane".chars().collect()),
        Token::SINGLEQUOTE('\''),
        Token::Command(Command::WHERE),
        Token::IDENT("id".chars().collect()),
        Token::Operator(Operator::EQUALS),
        Token::INT("1".chars().collect()),
        Token::SEMICOLON(';'),
    ];

    let mut parser = Parser::new(tokens);

    match parser.parse_update() {
        Ok(ASTNode::Update {
            table_name,
            assignments,
            where_clause,
        }) => {
            assert_eq!(table_name, "users");
            assert_eq!(assignments.len(), 1);
            assert_eq!(assignments[0].column, "name");
            assert_eq!(assignments[0].value, ASTValue::String("Jane".to_string()));

            match where_clause {
                Some(Condition::Comparison {
                    operator,
                    left,
                    right,
                }) => {
                    assert_eq!(*left, Condition::Column("id".to_string()));
                    assert_eq!(operator, Operator::EQUALS);
                    assert_eq!(*right, Condition::Value(ASTValue::Int(1)));
                }
                _ => panic!("Expected a Comparison condition"),
            }
        }
        _ => panic!("Expected update statement"),
    }
}

#[test]
fn test_condition_parsing() {
    let tokens = vec![
        Token::IDENT("id".chars().collect()),
        Token::Operator(Operator::EQUALS),
        Token::INT("1".chars().collect()),
        Token::Operator(Operator::AND),
        Token::IDENT("name".chars().collect()),
        Token::Operator(Operator::EQUALS),
        Token::SINGLEQUOTE('\''),
        Token::IDENT("Jane".chars().collect()),
        Token::SINGLEQUOTE('\''),
    ];

    let mut parser = Parser::new(tokens);

    let condition = parser.parse_condition().expect("Failed to parse condition");

    let expected = Condition::Comparison {
        operator: Operator::AND,
        left: Box::new(Condition::Comparison {
            operator: Operator::EQUALS,
            left: Box::new(Condition::Column("id".to_string())),
            right: Box::new(Condition::Value(ASTValue::Int(1))),
        }),
        right: Box::new(Condition::Comparison {
            operator: Operator::EQUALS,
            left: Box::new(Condition::Column("name".to_string())),
            right: Box::new(Condition::Value(ASTValue::String("Jane".to_string()))),
        }),
    };

    assert_eq!(condition, expected);
}

fn compare(column: &str, operator: Operator, value: i64) -> Condition {
    Condition::Comparison {
        operator,
        left: Box::new(Condition::Column(column.to_string())),
        right: Box::new(Condition::Value(ASTValue::Int(value))),
    }
}

#[test]
fn commands() {
    assert_eq!(
        parse_command("  create database db1  "),
        Ok(ASTNode::CreateDatabase { database_name: "db".to_string() })
    );
    assert_eq!(
        parse_command("CREATE DATABASE shop"),
        Ok(ASTNode::CreateDatabase { database_name: "shop".to_string() })
    );
    assert_eq!(
        parse_command("use shop"),
        Ok(ASTNode::USE { database_name: "shop".to_string() })
    );
    assert_eq!(
        parse_command("show tables;"),
        Ok(ASTNode::Show { show_type: ShowType::TABLES })
    );
    assert_eq!(
        parse_command("SHOW DATABASES;"),
        Ok(ASTNode::Show { show_type: ShowType::DATABASES })
    );
    assert_eq!(parse_command("show columns;"), Err(SqlError::ShowNotSupported));
    assert_eq!(parse_command(""), Err(SqlError::UnsupportedCommand));
    assert_eq!(parse_command("create index"), Err(SqlError::UnsupportedCommand));
    assert_eq!(parse_command("drop table t"), Err(SqlError::UnsupportedCommand));
    assert!(matches!(parse_command("select a from t where a = 1.5;"), Err(SqlError::LexError { .. })));
}

#[test]
fn create_table() {
    let word = |s: &str| -> Vec<char> { s.chars().collect() };
    assert_eq!(
        parse_command("CREATE TABLE t(a INTEGER NOT NULL, b TEXT NULL)"),
        Ok(ASTNode::CreateTable {
            table_name: "t".to_string(),
            columns: vec![
                ColumnDefinition {
                    column_name: "a".to_string(),
                    column_type: DataType::INTEGER,
                    columns_constraints: vec![word("NOT"), word("NULL")],
                },
                ColumnDefinition {
                    column_name: "b".to_string(),
                    column_type: DataType::TEXT,
                    columns_constraints: vec![word("NULL")],
                },
            ],
        })
    );
    assert_eq!(
        parse_command("create table t()"),
        Ok(ASTNode::CreateTable { table_name: "t".to_string(), columns: vec![] })
    );
    assert_eq!(
        parse_command("create table t(a"),
        Err(SqlError::UnexpectedToken {
            expected: Token::DataType(DataType::INTEGER),
            found: Token::EOF,
            pos: 6,
        })
    );
    assert_eq!(
        parse_command("create table (a integer)"),
        Err(SqlError::UnexpectedToken {
            expected: Token::IDENT(vec![]),
            found: Token::IDENT(vec!['a']),
            pos: 3,
        })
    );
    assert_eq!(
        parse_command("create table t(7)"),
        Err(SqlError::UnexpectedToken {
            expected: Token::IDENT(vec![]),
            found: Token::INT(vec!['7']),
            pos: 4,
        })
    );
}

#[test]
fn select() {
    assert_eq!(
        parse_command("select * from t;"),
        Ok(ASTNode::Select {
            columns: vec!["*".to_string()],
            table_name: "t".to_string(),
            where_clause: None,
        })
    );
    assert_eq!(
        parse_command("select a, b from t where (a < 3 or a >= 7) and b != 2;"),
        Ok(ASTNode::Select {
            columns: vec!["a".to_string(), "b".to_string()],
            table_name: "t".to_string(),
            where_clause: Some(Condition::Comparison {
                operator: Operator::AND,
                left: Box::new(Condition::Comparison {
                    operator: Operator::OR,
                    left: Box::new(compare("a", Operator::LT, 3)),
                    right: Box::new(compare("a", Operator::GTorE, 7)),
                }),
                right: Box::new(compare("b", Operator::NE, 2)),
            }),
        })
    );
    assert_eq!(
        parse_command("select a from t"),
        Err(SqlError::UnexpectedToken {
            expected: Token::SEMICOLON(';'),
            found: Token::EOF,
            pos: 5,
        })
    );
    assert_eq!(
        parse_command("select a b from t;"),
        Err(SqlError::UnexpectedToken {
            expected: Token::Command(Command::FROM),
            found: Token::IDENT(vec!['b']),
            pos: 3,
        })
    );
    assert_eq!(
        parse_command("select a from t where a = ;"),
        Err(SqlError::UnexpectedToken {
            expected: Token::IDENT(vec![]),
            found: Token::SEMICOLON(';'),
            pos: 7,
        })
    );
    assert_eq!(
        parse_command("select a from t where a = b;"),
        Ok(ASTNode::Select {
            columns: vec!["a".to_string()],
            table_name: "t".to_string(),
            where_clause: Some(Condition::Comparison {
                operator: Operator::EQUALS,
                left: Box::new(Condition::Column("a".to_string())),
                right: Box::new(Condition::Column("b".to_string())),
            }),
        })
    );
}

#[test]
fn insert_update_delete() {
    assert_eq!(
        parse_command("insert into t values (7, 'hi');"),
        Ok(ASTNode::Insert {
            table_name: "t".to_string(),
            values: vec![ASTValue::Int(7), ASTValue::String("hi".to_string())],
        })
    );
    assert_eq!(
        parse_command("insert into t values (99999999999999999999);"),
        Err(SqlError::InvalidNumber { literal: "99999999999999999999".to_string(), pos: 5 })
    );
    assert_eq!(
        parse_command("insert into t values (7 8,,);"),
        Ok(ASTNode::Insert {
            table_name: "t".to_string(),
            values: vec![ASTValue::Int(7), ASTValue::Int(8)],
        })
    );
    assert_eq!(
        parse_command("update t set a = 9, b = 'x' where a = 1;"),
        Ok(ASTNode::Update {
            table_name: "t".to_string(),
            assignments: vec![
                Assignment { column: "a".to_string(), value: ASTValue::Int(9) },
                Assignment { column: "b".to_string(), value: ASTValue::String("x".to_string()) },
            ],
            where_clause: Some(compare("a", Operator::EQUALS, 1)),
        })
    );
    assert_eq!(
        parse_command("update t set"),
        Err(SqlError::UnexpectedToken {
            expected: Token::SEMICOLON(';'),
            found: Token::EOF,
            pos: 5,
        })
    );
    assert_eq!(
        parse_command("delete from t where a > 5"),
        Ok(ASTNode::Delete {
            table_name: "t".to_string(),
            where_clause: Some(compare("a", Operator::GT, 5)),
        })
    );
    assert_eq!(
        parse_command("delete from t"),
        Ok(ASTNode::Delete { table_name: "t".to_string(), where_clause: None })
    );
}

#[test]
fn tokens_to_statement() {
    assert_eq!(parse_tokens(vec![]), Err(SqlError::UnsupportedCommand));
    assert_eq!(
        parse_tokens(vec![Token::Command(Command::USE)]),
        Err(SqlError::UnexpectedToken {
            expected: Token::IDENT(vec![]),
            found: Token::EOF,
            pos: 2,
        })
    );
}

#[test]
fn parser_steps() {
    let mut parser = Parser::new(vec![Token::TRUE, Token::FALSE]);
    assert_eq!(parser.peek(), Some(&Token::TRUE));
    assert_eq!(parser.consume(), Some(&Token::TRUE));
    assert_eq!(parser.expect(Token::FALSE), Ok(()));
    assert_eq!(parser.peek(), None);
    assert_eq!(
        parser.expect(Token::TRUE),
        Err(SqlError::UnexpectedToken { expected: Token::TRUE, found: Token::EOF, pos: 3 })
    );
    assert_eq!(parser.consume(), None);
    assert_eq!(parser.position, 4);
    let mut parser = Parser::new(vec![Token::TRUE]);
    assert_eq!(
        parser.expect(Token::FALSE),
        Err(SqlError::UnexpectedToken { expected: Token::FALSE, found: Token::TRUE, pos: 1 })
    );
}

#[test]
fn integer_literals() {
    let parse = |s: &str| parse_i64(&s.chars().collect());
    assert_eq!(parse("0"), Some(0));
    assert_eq!(parse("007"), Some(7));
    assert_eq!(parse("+12"), Some(12));
    assert_eq!(parse("-12"), Some(-12));
    assert_eq!(parse("9223372036854775807"), Some(i64::MAX));
    assert_eq!(parse("9223372036854775808"), None);
    assert_eq!(parse("-9223372036854775808"), Some(i64::MIN));
    assert_eq!(parse("-9223372036854775809"), None);
    assert_eq!(parse("92233720368547758070"), None);
    assert_eq!(parse(""), None);
    assert_eq!(parse("-"), None);
    assert_eq!(parse("+"), None);
    assert_eq!(parse("1a"), None);
    assert_eq!(parse(" 1"), None);
    assert_eq!(parse("--1"), None);
    for s in ["0", "-0", "+0", "123456789", "-987654321", "18446744073709551616"] {
        assert_eq!(parse(s), s.parse::<i64>().ok(), "{s}");
    }
}
