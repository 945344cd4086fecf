use ringdb::sql::ast::{Column, DataType, Value};
use ringdb::sql::Statement;
use ringdb::sql::lexer::Lexer;
use ringdb::sql::{parse_sql, Parser, ParserError};
use ringdb::sql::token::{LexerError, Token};

#[test]
fn test_parse_sql() {
    // Test valid SQL statements
    let valid_statements = vec![
        "CREATE TABLE users (id INT, name VARCHAR);",
        "INSERT INTO users VALUES (1, 'Alice');",
        "SELECT id, name FROM users;",
        "SELECT name FROM users", // Test without semicolon
    ];

    for sql in valid_statements {
        let result = parse_sql(sql);
        assert!(result.is_ok(), "Failed to parse valid SQL: {}", sql);
    }

    // Test invalid SQL statements
    let invalid_statements = vec!["CREATE users (id INT);", "SELECT id, name FROM;"];

    for sql in invalid_statements {
        let result = parse_sql(sql);
        assert!(result.is_err(), "Expected error for invalid SQL: {}", sql);
    }
}

#[test]
fn parse_create_gives_the_columns() {
    let statement = parse_sql("CREATE TABLE users (id INT, name VARCHAR);").unwrap();
    assert_eq!(
        statement,
        Statement::CreateTable {
            table_name: "users".to_string(),
            columns: vec![
                Column { name: "id".to_string(), data_type: DataType::Int },
                Column { name: "name".to_string(), data_type: DataType::Varchar },
            ],
        }
    );
}

#[test]
fn parse_create_without_columns() {
    let statement = parse_sql("create table t ()").unwrap();
    assert_eq!(statement, Statement::CreateTable { table_name: "t".to_string(), columns: vec![] });
}

#[test]
fn parse_insert_gives_the_values() {
    let statement = parse_sql("INSERT INTO users VALUES (1, 'Alice');").unwrap();
    assert_eq!(
        statement,
        Statement::Insert {
            table_name: "users".to_string(),
            values: vec![Value::Integer(1), Value::String("Alice".to_string())],
        }
    );
}

#[test]
fn parse_select_gives_the_names() {
    let statement = parse_sql("SELECT id, name FROM users").unwrap();
    assert_eq!(
        statement,
        Statement::Select {
            table_name: "users".to_string(),
            columns: vec!["id".to_string(), "name".to_string()],
        }
    );
}

#[test]
fn keywords_are_case_insensitive_identifiers_are_not() {
    let statement = parse_sql("select Id from Users").unwrap();
    assert_eq!(
        statement,
        Statement::Select { table_name: "Users".to_string(), columns: vec!["Id".to_string()] }
    );
}

#[test]
fn what_follows_the_semicolon_is_not_read() {
    assert!(parse_sql("SELECT a FROM t; garbage !!").is_ok());
}

#[test]
fn a_second_statement_without_semicolon_is_refused() {
    match parse_sql("SELECT a FROM t SELECT") {
        Err(ParserError::UnexpectedToken(Token::Select)) => {}
        other => panic!("unexpected: {:?}", other),
    }
}

#[test]
fn missing_table_keyword_is_an_unexpected_token() {
    match parse_sql("CREATE users (id INT);") {
        Err(ParserError::UnexpectedToken(Token::Ident(name))) => assert_eq!(name, "users"),
        other => panic!("unexpected: {:?}", other),
    }
}

#[test]
fn missing_table_name_is_an_unexpected_token() {
    match parse_sql("SELECT id, name FROM;") {
        Err(ParserError::UnexpectedToken(Token::Semicolon)) => {}
        other => panic!("unexpected: {:?}", other),
    }
}

#[test]
fn premature_end_reads_as_eof_token() {
    match parse_sql("INSERT INTO t VALUES (1,") {
        Err(ParserError::UnexpectedToken(Token::Eof)) => {}
        other => panic!("unexpected: {:?}", other),
    }
}

#[test]
fn lexer_errors_reach_the_parser_in_words() {
    match parse_sql("SELECT a FROM t WHERE x = 1") {
        // `WHERE` is an identifier here, so it is the unexpected token.
        Err(ParserError::UnexpectedToken(Token::Ident(name))) => assert_eq!(name, "WHERE"),
        other => panic!("unexpected: {:?}", other),
    }
    match parse_sql("INSERT INTO t VALUES ('abc") {
        Err(ParserError::LexerError(text)) => assert_eq!(text, "UnterminatedString"),
        other => panic!("unexpected: {:?}", other),
    }
    match parse_sql("INSERT INTO t VALUES (#)") {
        Err(ParserError::LexerError(text)) => assert_eq!(text, "InvalidCharacter('#')"),
        other => panic!("unexpected: {:?}", other),
    }
}

#[test]
fn parser_error_in_words() {
    assert_eq!(ParserError::Eof.to_string(), "Unexpected end of input");
    assert_eq!(
        ParserError::LexerError("UnterminatedString".to_string()).to_string(),
        "Lexer error: UnterminatedString"
    );
    assert_eq!(
        ParserError::UnexpectedToken(Token::Ident("a\"b".to_string())).to_string(),
        "Unexpected token: Ident(\"a\\\"b\")"
    );
    assert_eq!(
        ParserError::UnexpectedToken(Token::Integer(-7)).to_string(),
        "Unexpected token: Integer(-7)"
    );
    assert_eq!(ParserError::UnexpectedToken(Token::Comma).to_string(), "Unexpected token: Comma");
}

#[test]
fn parser_stops_behind_the_semicolon() {
    let mut parser = Parser::new("SELECT a FROM t;");
    assert!(parser.parse().is_ok());
}

#[test]
fn lexer_cuts_tokens() {
    let mut lexer = Lexer::new("  create TABLE t1_x ( 'it is' , 42 ) ;");
    let mut tokens = Vec::new();
    while let Some(token) = lexer.next() {
        tokens.push(token.unwrap());
    }
    assert_eq!(
        tokens,
        vec![
            Token::Create,
            Token::Table,
            Token::Ident("t1_x".to_string()),
            Token::LParen,
            Token::String("it is".to_string()),
            Token::Comma,
            Token::Integer(42),
            Token::RParen,
            Token::Semicolon,
        ]
    );
    assert!(lexer.next().is_none());
}

#[test]
fn lexer_peek_does_not_move() {
    let mut lexer = Lexer::new("a b");
    assert_eq!(lexer.peek(), Some(Ok(Token::Ident("a".to_string()))));
    assert_eq!(lexer.peek(), Some(Ok(Token::Ident("a".to_string()))));
    assert_eq!(lexer.next(), Some(Ok(Token::Ident("a".to_string()))));
    assert_eq!(lexer.next(), Some(Ok(Token::Ident("b".to_string()))));
    assert_eq!(lexer.peek(), None);
}

#[test]
fn lexer_reports_errors() {
    let mut lexer = Lexer::new("?x");
    assert_eq!(lexer.next(), Some(Err(LexerError::InvalidCharacter('?'))));
    assert_eq!(lexer.next(), Some(Ok(Token::Ident("x".to_string()))));
    let mut lexer = Lexer::new("'open");
    assert_eq!(lexer.next(), Some(Err(LexerError::UnterminatedString)));
    assert_eq!(lexer.next(), None);
}

#[test]
fn lexer_keywords_go_by_unicode_upper_case() {
    // U+017F, the long s, is upper-cased to S.
    let mut lexer = Lexer::new("\u{17f}elect");
    assert_eq!(lexer.next(), Some(Ok(Token::Select)));
    // A digit may follow a letter, and letters need not be ASCII.
    let mut lexer = Lexer::new("\u{e9}t\u{e9}2");
    assert_eq!(lexer.next(), Some(Ok(Token::Ident("\u{e9}t\u{e9}2".to_string()))));
}

#[test]
fn lexer_skips_unicode_white_space() {
    let mut lexer = Lexer::new("\u{2003}\t\n(");
    assert_eq!(lexer.next(), Some(Ok(Token::LParen)));
}

#[test]
fn read_identifier_takes_word_characters() {
    let mut lexer = Lexer::new("bc_1 rest");
    assert_eq!(lexer.read_identifier('a'), "abc_1");
    assert_eq!(lexer.next(), Some(Ok(Token::Ident("rest".to_string()))));
}

#[test]
fn read_number_parses_or_gives_zero() {
    assert_eq!(Lexer::new("23x").read_number('1'), 123);
    assert_eq!(Lexer::new("").read_number('7'), 7);
    assert_eq!(Lexer::new("5").read_number('-'), -5);
    assert_eq!(Lexer::new("5").read_number('+'), 5);
    assert_eq!(Lexer::new("").read_number('-'), 0);
    assert_eq!(Lexer::new("1").read_number('x'), 0);
    // i64::MAX fits, one more does not.
    assert_eq!(Lexer::new("223372036854775807").read_number('9'), i64::MAX);
    assert_eq!(Lexer::new("223372036854775808").read_number('9'), 0);
    assert_eq!(Lexer::new("9223372036854775808").read_number('-'), i64::MIN);
    assert_eq!(Lexer::new("007").read_number('0'), 7);
}

#[test]
fn number_too_large_lexes_as_zero() {
    let mut lexer = Lexer::new("99999999999999999999");
    assert_eq!(lexer.next(), Some(Ok(Token::Integer(0))));
    assert_eq!(lexer.next(), None);
}

#[test]
fn lexer_position_counts_characters() {
    let mut lexer = Lexer::new("\u{e9}t\u{e9} (");
    assert_eq!(lexer.position(), 0);
    lexer.next();
    assert_eq!(lexer.position(), 3);
    lexer.next();
    assert_eq!(lexer.position(), 5);
    assert_eq!(lexer.next(), None);
    assert_eq!(lexer.position(), 5);
}
