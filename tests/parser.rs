use script_lang::lexer::{tokenize, Token};
use script_lang::parser::{parse, Statement};

#[test]
fn test_parser_basic() {
    let tokens = vec![
        Token::Read,
        Token::Identifier("input.txt".to_string()),
        Token::Arrow,
        Token::Identifier("content".to_string()),
        Token::Eol,
        Token::Write,
        Token::Identifier("output.txt".to_string()),
        Token::StringLiteral("Hello, World!".to_string()),
        Token::Eol,
        Token::Print,
        Token::StringLiteral("Hello, World!".to_string()),
        Token::Eol,
        Token::Append,
        Token::Identifier("var1".to_string()),
        Token::StringLiteral("var2".to_string()),
        Token::Arrow,
        Token::Identifier("result".to_string()),
        Token::Eol,
    ];

    let ast = parse(tokens).unwrap();
    let expected = vec![
        Statement::Read("input.txt".to_string(), "content".to_string()),
        Statement::Write("output.txt".to_string(), "Hello, World!".to_string()),
        Statement::Print("Hello, World!".to_string()),
        Statement::Append("var1".to_string(), "var2".to_string(), "result".to_string()),
    ];
    assert_eq!(ast, expected);
}

#[test]
fn read_without_destination_is_a_parse_error() {
    let tokens = tokenize("READ foo\n").unwrap();
    assert_eq!(parse(tokens), Err("Expected an identifier.".to_string()));
}

#[test]
fn comment_only_script_has_no_statements() {
    let tokens = tokenize("# nothing here\n").unwrap();
    assert_eq!(parse(tokens), Ok(vec![]));
}

#[test]
fn blank_lines_are_skipped() {
    let tokens = tokenize("\n\nPRINT x\n\n").unwrap();
    assert_eq!(parse(tokens), Ok(vec![Statement::Print("x".to_string())]));
}

#[test]
fn wrong_operand_names_what_came() {
    let tokens = tokenize("PRINT 5\n").unwrap();
    assert_eq!(parse(tokens), Err("Expected a string literal, got IntLiteral".to_string()));
    let tokens = tokenize("WRITE out.txt -> x\n").unwrap();
    assert_eq!(parse(tokens), Err("Expected a string literal, got Arrow".to_string()));
}

#[test]
fn missing_operand_at_end() {
    assert_eq!(parse(vec![Token::Print]), Err("Expected a string literal.".to_string()));
}

#[test]
fn unexpected_leading_token() {
    let tokens = tokenize("-> x\n").unwrap();
    assert_eq!(parse(tokens), Err("Unexpected token.".to_string()));
}

#[test]
fn append_needs_an_identifier_first() {
    let tokens = tokenize("APPEND \"12\" \"34\" -> x\n").unwrap();
    assert_eq!(parse(tokens), Err("Expected an identifier.".to_string()));
}

#[test]
fn trailing_tokens_are_passed_over_unchecked() {
    // the token after an operand group is skipped whatever it is
    let tokens = tokenize("READ a b c\nPRINT x y\n").unwrap();
    assert_eq!(
        parse(tokens),
        Ok(vec![
            Statement::Read("a".to_string(), "c".to_string()),
            Statement::Print("x".to_string()),
        ])
    );
}

#[test]
fn last_line_needs_no_newline() {
    let tokens = tokenize("PRINT x").unwrap();
    assert_eq!(parse(tokens), Ok(vec![Statement::Print("x".to_string())]));
}
