use ppl::explain::parser::{Lexer, Token};

#[test]
fn test_lexer_basic() {
    let input = "LogicalProject(foo=bar, x=$0)";
    let tokens: Vec<_> = Lexer::new(input).collect();

    assert!(matches!(&tokens[0], Token::Identifier(s) if s == "LogicalProject"));
    assert!(matches!(tokens[1], Token::OpenParen));
    assert!(matches!(&tokens[2], Token::Identifier(s) if s == "foo"));
    assert!(matches!(tokens[3], Token::Equals));
}

#[test]
fn test_variable() {
    let input = "$0, $t1, $foo";
    let tokens: Vec<_> = Lexer::new(input).collect();

    println!("Tokens: {:?}", tokens);
    assert!(matches!(&tokens[0], Token::Variable(s) if s == "$0"));
    // Token index 1 is comma, but there might be whitespace
    let t1_idx = tokens
        .iter()
        .position(|t| matches!(t, Token::Variable(s) if s.contains("t1")))
        .expect("$t1 not found");
    assert!(matches!(tokens[t1_idx], Token::Variable(_)));
}

#[test]
fn test_comment() {
    let input = "=== Logical ===\nLogicalProject()";
    let tokens: Vec<_> = Lexer::new(input).collect();

    assert!(matches!(tokens[0], Token::Comment(_)));
}

#[test]
fn test_function_operator() {
    let input = "=(a, b)";
    let tokens: Vec<_> = Lexer::new(input).collect();

    println!("Tokens: {:?}", tokens);
    // At the start of a line, `=(` is a function, not a comment
    assert!(matches!(tokens[0], Token::Equals));
    assert!(matches!(tokens[1], Token::OpenParen));
    assert!(matches!(&tokens[2], Token::Identifier(s) if s == "a"));
}

#[test]
fn test_type_annotation() {
    let input = "'u30':VARCHAR";
    let tokens: Vec<_> = Lexer::new(input).collect();

    // String token includes quotes
    assert!(matches!(&tokens[0], Token::String(s) if s == "'u30'"));
    assert!(matches!(tokens[1], Token::Colon));
    assert!(matches!(&tokens[2], Token::Identifier(s) if s == "VARCHAR"));
}

#[test]
fn test_complex_nested() {
    let input = "CASE(<($10, 30), 'u30':VARCHAR, 'a30':VARCHAR)";
    let tokens: Vec<_> = Lexer::new(input).collect();

    assert!(matches!(&tokens[0], Token::Identifier(s) if s == "CASE"));
    assert!(matches!(tokens[1], Token::OpenParen));
}

#[test]
fn test_at_symbol() {
    // Regression test: @ should not cause infinite loop
    let input = "@timestamp=[$17]";
    let tokens: Vec<_> = Lexer::new(input).collect();

    // Should have a reasonable number of tokens
    assert!(tokens.len() < 20, "Too many tokens: {}", tokens.len());

    // First token should be @timestamp identifier
    assert!(matches!(tokens[0], Token::Identifier(_)));
}

#[test]
fn test_at_symbol_alone() {
    // Edge case: @ by itself
    let input = "@";
    let tokens: Vec<_> = Lexer::new(input).collect();

    // Should consume the @ and not loop infinitely
    assert_eq!(tokens.len(), 1);
    assert!(matches!(&tokens[0], Token::Identifier(s) if s == "@"));
}

#[test]
fn dash_before_wide_character_is_a_stray_run() {
    assert_eq!(
        Lexer::new("x -é").collect(),
        vec![
            Token::Identifier("x".to_string()),
            Token::Whitespace(" ".to_string()),
            Token::Other("-".to_string()),
            Token::Identifier("é".to_string()),
        ]
    );
    assert_eq!(
        Lexer::new("%%-€->").collect(),
        vec![Token::Other("%%-€".to_string()), Token::Arrow]
    );
}
