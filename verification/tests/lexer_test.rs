use meridb::lexer::{get_tokens, tokenize, Lexer};
use meridb::tokens::{get_keyword_token, Command, DataType, Helper, Operator, Token};

#[test]
fn test_basic_tokens() {
    let input = "SELECT * FROM users WHERE age >= 18;";
    let mut lexer = Lexer::new(input.chars().collect());

    let expected_tokens = vec![
        Token::Command(Command::SELECT),
        Token::Operator(Operator::ASTERISK),
        Token::Command(Command::FROM),
        Token::IDENT("users".chars().collect()),
        Token::Command(Command::WHERE),
        Token::IDENT("age".chars().collect()),
        Token::Operator(Operator::GTorE),
        Token::INT("18".chars().collect()),
        Token::SEMICOLON(';'),
    ];

    for expected in expected_tokens {
        let token = lexer.next_token();
        assert_eq!(token, expected);
    }
}

#[test]
fn test_string_literals() {
    let input = "INSERT INTO users VALUES ('John Doe', 25);";
    let mut lexer = Lexer::new(input.chars().collect());

    let expected_tokens = vec![
        Token::Command(Command::INSERT),
        Token::Command(Command::INTO),
        Token::IDENT("users".chars().collect()),
        Token::Command(Command::VALUES),
        Token::LPAREN('('),
        Token::SINGLEQUOTE('\''),
        Token::IDENT("John".chars().collect()),
        Token::IDENT("Doe".chars().collect()),
        Token::SINGLEQUOTE('\''),
        Token::COMMA(','),
        Token::INT("25".chars().collect()),
        Token::RPAREN(')'),
        Token::SEMICOLON(';'),
    ];

    for expected in expected_tokens {
        let token = lexer.next_token();
        assert_eq!(token, expected);
    }
}

#[test]
fn test_operators() {
    let input = "column1 = 5 AND column2 != 10 OR column3 < 15";
    let mut lexer = Lexer::new(input.chars().collect());

    let expected_tokens = vec![
        Token::Helper(Helper::COLUMN),
        Token::INT("1".chars().collect()),
        Token::Operator(Operator::EQUALS),
        Token::INT("5".chars().collect()),
        Token::Operator(Operator::AND),
        Token::Helper(Helper::COLUMN),
        Token::INT("2".chars().collect()),
        Token::Operator(Operator::NE),
        Token::INT("10".chars().collect()),
        Token::Operator(Operator::OR),
        Token::Helper(Helper::COLUMN),
        Token::INT("3".chars().collect()),
        Token::Operator(Operator::LT),
        Token::INT("15".chars().collect()),
    ];

    for expected in expected_tokens {
        let token = lexer.next_token();
        assert_eq!(token, expected);
    }
}

#[test]
fn test_create_table() {
    let input = "CREATE TABLE users (id INTEGER PRIMARY KEY, name TEXT NOT NULL);";
    let mut lexer = Lexer::new(input.chars().collect());

    let expected_tokens = vec![
        Token::Command(Command::CREATE),
        Token::Command(Command::TABLE),
        Token::IDENT("users".chars().collect()),
        Token::LPAREN('('),
        Token::IDENT("id".chars().collect()),
        Token::DataType(DataType::INTEGER),
        Token::Helper(Helper::PRIMARY),
        Token::Helper(Helper::KEY),
        Token::COMMA(','),
        Token::IDENT("name".chars().collect()),
        Token::DataType(DataType::TEXT),
        Token::Helper(Helper::NOT),
        Token::Helper(Helper::NULL),
        Token::RPAREN(')'),
        Token::SEMICOLON(';'),
    ];

    for expected in expected_tokens {
        let token = lexer.next_token();
        assert_eq!(token, expected);
    }
}

#[test]
fn lexer_reads_eof_at_the_end_and_after_it() {
    let mut lexer = Lexer::new("a".chars().collect());
    assert_eq!(lexer.next_token(), Token::IDENT(vec!['a']));
    assert_eq!(lexer.position, 1);
    assert_eq!(lexer.next_token(), Token::EOF);
    assert_eq!(lexer.position, 2);
    assert_eq!(lexer.next_token(), Token::EOF);
    assert_eq!(lexer.position, 3);
}

#[test]
fn lexer_leaves_an_illegal_character_in_place() {
    let mut lexer = Lexer::new("  #".chars().collect());
    assert_eq!(lexer.next_token(), Token::ILLEGAL);
    assert_eq!(lexer.position, 2);
    assert_eq!(lexer.ch, '#');
    assert_eq!(lexer.next_token(), Token::ILLEGAL);
    assert_eq!(lexer.position, 2);
}

#[test]
fn lexer_two_character_operators_and_their_one_character_forms() {
    let mut lexer = Lexer::new("<= < >= > != ! = + - / *".chars().collect());
    let expected = vec![
        Operator::LTorE,
        Operator::LT,
        Operator::GTorE,
        Operator::GT,
        Operator::NE,
        Operator::BANG,
        Operator::EQUALS,
        Operator::PLUS,
        Operator::MINUS,
        Operator::DIVIDE,
        Operator::ASTERISK,
    ];
    for op in expected {
        assert_eq!(lexer.next_token(), Token::Operator(op));
    }
    assert_eq!(lexer.next_token(), Token::EOF);
}

#[test]
fn lexer_brackets_and_quotes() {
    let mut lexer = Lexer::new("{}\"(),;'".chars().collect());
    assert_eq!(lexer.next_token(), Token::LBRACE('{'));
    assert_eq!(lexer.next_token(), Token::RBRACE('}'));
    assert_eq!(lexer.next_token(), Token::QUOTE('"'));
    assert_eq!(lexer.next_token(), Token::LPAREN('('));
    assert_eq!(lexer.next_token(), Token::RPAREN(')'));
    assert_eq!(lexer.next_token(), Token::COMMA(','));
    assert_eq!(lexer.next_token(), Token::SEMICOLON(';'));
    assert_eq!(lexer.next_token(), Token::SINGLEQUOTE('\''));
}

#[test]
fn get_tokens_stops_at_the_end() {
    let tokens = get_tokens("use db1");
    assert_eq!(
        tokens,
        vec![Token::Command(Command::USE), Token::IDENT(vec!['d', 'b']), Token::INT(vec!['1'])]
    );
    assert_eq!(get_tokens(""), Vec::<Token>::new());
    assert_eq!(get_tokens("  \t\r\n"), Vec::<Token>::new());
}

#[test]
fn tokenize_refuses_what_starts_no_token() {
    assert_eq!(tokenize("select # from t"), None);
    assert_eq!(
        tokenize("true FALSE"),
        Some(vec![Token::TRUE, Token::FALSE])
    );
}

#[test]
fn keywords_are_found_whatever_their_case() {
    let word: Vec<char> = "SeLeCt".chars().collect();
    assert_eq!(get_keyword_token(&word), Ok(Token::Command(Command::SELECT)));
    let word: Vec<char> = "bigint".chars().collect();
    assert_eq!(get_keyword_token(&word), Ok(Token::DataType(DataType::BIGINT)));
    let word: Vec<char> = "AND".chars().collect();
    assert_eq!(get_keyword_token(&word), Ok(Token::Operator(Operator::AND)));
    let word: Vec<char> = "users".chars().collect();
    assert_eq!(get_keyword_token(&word), Err("Not a keyword".to_string()));
}

#[test]
fn keyword_names() {
    assert_eq!(DataType::INTEGER.to_string(), "INTEGER");
    assert_eq!(DataType::MEDIUMINT.to_string(), "MEDIUMINT");
    assert_eq!(Helper::NULL.to_string(), "NULL");
    assert_eq!(Helper::AUTOINCREMENT.to_string(), "AUTOINCREMENT");
}
