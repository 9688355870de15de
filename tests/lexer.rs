use script_lang::lexer::{tokenize, Token};

#[test]
fn test_lexer_basic() {
    let source = r#"READ input.txt -> content
WRITE output.txt "Hello, World!"
PRINT "Hello, World!"
APPEND var1 var2 -> result
"#;

    let tokens = tokenize(source).unwrap();
    let expected = vec![
        Token::Read,
        Token::Identifier("input.txt".to_string()),
        Token::Arrow,
        Token::Identifier("content".to_string()),
        Token::Eol,
        Token::Write,
        Token::Identifier("output.txt".to_string()),
        Token::StringLiteral("Hello, World!".to_string()),
        Token::Eol,
        Token::Print,
        Token::StringLiteral("Hello, World!".to_string()),
        Token::Eol,
        Token::Append,
        Token::Identifier("var1".to_string()),
        Token::Identifier("var2".to_string()),
        Token::Arrow,
        Token::Identifier("result".to_string()),
        Token::Eol,
    ];
    assert_eq!(tokens, expected);
}

#[test]
fn escapes_decode_to_single_characters() {
    let tokens = tokenize("\"a\\nb\"").unwrap();
    assert_eq!(tokens, vec![Token::StringLiteral("a\nb".to_string())]);
    if let Token::StringLiteral(s) = &tokens[0] {
        assert_eq!(s.chars().count(), 3);
    }
    let tokens = tokenize(r#""\t\r\"\\""#).unwrap();
    assert_eq!(tokens, vec![Token::StringLiteral("\t\r\"\\".to_string())]);
}

#[test]
fn invalid_escape_is_an_error() {
    assert_eq!(tokenize(r#""a\qb""#), Err("Invalid escape sequence: \\q".to_string()));
}

#[test]
fn unterminated_string_is_an_error() {
    assert_eq!(tokenize("\"abc"), Err("Unexpected end of input.".to_string()));
    assert_eq!(tokenize("\"abc\\"), Err("Unexpected end of input.".to_string()));
}

#[test]
fn dash_needs_an_arrow_head() {
    assert_eq!(tokenize("->"), Ok(vec![Token::Arrow]));
    assert_eq!(tokenize("-x"), Err("Unexpected character: 'x'.".to_string()));
    assert_eq!(tokenize("-"), Err("Unexpected end of input.".to_string()));
}

#[test]
fn unknown_character_is_an_error() {
    assert_eq!(tokenize("PRINT @"), Err("Unexpected character: '@'.".to_string()));
}

#[test]
fn numbers_are_recognised() {
    assert_eq!(tokenize("42"), Ok(vec![Token::IntLiteral(42)]));
    assert_eq!(tokenize("3.14"), Ok(vec![Token::FloatLiteral("3.14".to_string())]));
    assert_eq!(tokenize("7."), Ok(vec![Token::FloatLiteral("7.".to_string())]));
    assert_eq!(tokenize(".5"), Ok(vec![Token::FloatLiteral(".5".to_string())]));
    assert_eq!(
        tokenize("1.2.3"),
        Ok(vec![
            Token::FloatLiteral("1.2".to_string()),
            Token::FloatLiteral(".3".to_string())
        ])
    );
    assert_eq!(tokenize("9223372036854775807"), Ok(vec![Token::IntLiteral(i64::MAX)]));
    assert_eq!(
        tokenize("9223372036854775808"),
        Err("Invalid number: 9223372036854775808".to_string())
    );
}

#[test]
fn lone_dot_is_an_identifier() {
    assert_eq!(
        tokenize(". x"),
        Ok(vec![
            Token::Identifier(".".to_string()),
            Token::Identifier("x".to_string())
        ])
    );
}

#[test]
fn keywords_match_exactly() {
    assert_eq!(
        tokenize("READ READING read Print APPEND"),
        Ok(vec![
            Token::Read,
            Token::Identifier("READING".to_string()),
            Token::Identifier("read".to_string()),
            Token::Identifier("Print".to_string()),
            Token::Append,
        ])
    );
}

#[test]
fn identifiers_take_letters_digits_underscores_and_dots() {
    assert_eq!(
        tokenize("_a1.b_c2 héllo"),
        Ok(vec![
            Token::Identifier("_a1.b_c2".to_string()),
            Token::Identifier("héllo".to_string()),
        ])
    );
}

#[test]
fn comments_and_blanks_give_no_tokens() {
    assert_eq!(tokenize("# nothing here\n"), Ok(vec![Token::Eol]));
    assert_eq!(tokenize(" \t\r"), Ok(vec![]));
    assert_eq!(tokenize(""), Ok(vec![]));
    assert_eq!(
        tokenize("PRINT x # trailing\n"),
        Ok(vec![Token::Print, Token::Identifier("x".to_string()), Token::Eol])
    );
}
