use sql_rustico::tokenizer::tokenize;
use sql_rustico::tokenizer::Token;

#[test]
fn test_tokenize() {
    let input = "SELECT * FROM table1 WHERE column1 = 'value1';";
    let expected_output = vec![
        Token::Keyword("SELECT".to_string()),
        Token::Symbol('*'),
        Token::Keyword("FROM".to_string()),
        Token::Identifier("table1".to_string()),
        Token::Keyword("WHERE".to_string()),
        Token::Identifier("column1".to_string()),
        Token::ComparisonOperator("=".to_string()),
        Token::StringLiteral("value1".to_string()),
        Token::Symbol(';'),
    ];
    assert_eq!(tokenize(input).unwrap(), expected_output);
}

#[test]
fn test_tokenize_with_identifies_starting_with_number() {
    let input = "SELECT * FROM table1 WHERE column1 = 'value1' AND 1column = 'value2';";
    let expected_output = vec![
        Token::Keyword("SELECT".to_string()),
        Token::Symbol('*'),
        Token::Keyword("FROM".to_string()),
        Token::Identifier("table1".to_string()),
        Token::Keyword("WHERE".to_string()),
        Token::Identifier("column1".to_string()),
        Token::ComparisonOperator("=".to_string()),
        Token::StringLiteral("value1".to_string()),
        Token::LogicalOperator("AND".to_string()),
        Token::Identifier("1column".to_string()),
        Token::ComparisonOperator("=".to_string()),
        Token::StringLiteral("value2".to_string()),
        Token::Symbol(';'),
    ];
    assert_eq!(tokenize(input).unwrap(), expected_output);
}

#[test]
fn test_tokenize_integer_literal() {
    let tokens = tokenize("42,170").unwrap();
    assert_eq!(
        tokens,
        vec![
            Token::IntegerLiteral("42".to_string()),
            Token::Symbol(','),
            Token::IntegerLiteral("170".to_string()),
        ]
    );
}

#[test]
fn test_tokenize_keywords_case_insensitive() {
    let tokens = tokenize("select from").unwrap();
    assert_eq!(
        tokens,
        vec![
            Token::Keyword("SELECT".to_string()),
            Token::Keyword("FROM".to_string()),
        ]
    );
}

#[test]
fn test_tokenize_comparison_operators() {
    let tokens = tokenize("< <= > >= =").unwrap();
    assert_eq!(
        tokens,
        vec![
            Token::ComparisonOperator("<".to_string()),
            Token::ComparisonOperator("<=".to_string()),
            Token::ComparisonOperator(">".to_string()),
            Token::ComparisonOperator(">=".to_string()),
            Token::ComparisonOperator("=".to_string()),
        ]
    );
}

#[test]
fn test_tokenize_unterminated_string_keeps_collected_text() {
    let tokens = tokenize("'abc").unwrap();
    assert_eq!(tokens, vec![Token::StringLiteral("abc".to_string())]);
}

#[test]
fn test_tokenize_empty_input() {
    let tokens = tokenize("").unwrap();
    assert_eq!(tokens, Vec::<Token>::new());
}

#[test]
fn test_tokenize_invalid_character() {
    let result = tokenize("SELECT @");
    assert!(result.is_err());
    assert!(matches!(
        result.err().unwrap(),
        sql_rustico::error::CustomError::InvalidSyntax { .. }
    ));
}

#[test]
fn test_tokenize_rendering_round_trip() {
    // Re-tokenizing the space-joined rendering of a token sequence gives
    // the same sequence back.
    let input = "UPDATE t SET a = '10' WHERE b >= 7 AND NOT ( c = 'x' ) ;";
    let first = tokenize(input).unwrap();
    let mut rendered = String::new();
    for token in &first {
        match token {
            Token::Keyword(s) => rendered.push_str(s),
            Token::LogicalOperator(s) => rendered.push_str(s),
            Token::ComparisonOperator(s) => rendered.push_str(s),
            Token::Identifier(s) => rendered.push_str(s),
            Token::StringLiteral(s) => {
                rendered.push('\'');
                rendered.push_str(s);
                rendered.push('\'');
            }
            Token::IntegerLiteral(s) => rendered.push_str(s),
            Token::Symbol(c) => rendered.push(*c),
        }
        rendered.push(' ');
    }
    let second = tokenize(&rendered).unwrap();
    assert_eq!(first, second);
}
