use minilang::errors::LexError;
use minilang::lexer::{Lexer, Token};

#[test]
fn test_variable_declaration_tokens() {
    let input = "int variable_name = 12;\n".chars().collect::<Vec<char>>();
    let mut lexer = Lexer::new(input);
    let tokens = lexer.tokenize().unwrap();

    let expected_result: Vec<Token> = vec![
        Token::KeywordInt,
        Token::Identifier("variable_name".to_string()),
        Token::EqualSign,
        Token::IntNumber("12".to_string()),
        Token::Semicolon,
        Token::Eof,
    ];

    assert_eq!(tokens, expected_result);
}

#[test]
fn test_operators() {
    let input = "> < >= <= == != / * + - ** ++ -- ! && || & |\n"
        .chars()
        .collect::<Vec<char>>();
    let mut lexer = Lexer::new(input);
    let tokens = lexer.tokenize().unwrap();

    let expected_result: Vec<Token> = vec![
        Token::GreaterThan,
        Token::LessThan,
        Token::GreaterThanOrEqual,
        Token::LessThanOrEqual,
        Token::EqualTo,
        Token::NotEqual,
        Token::Divides,
        Token::Times,
        Token::Plus,
        Token::Minus,
        Token::Power,
        Token::Increment,
        Token::Decrement,
        Token::Not,
        Token::LogicAnd,
        Token::LogicOr,
        Token::BitwiseAnd,
        Token::BitwiseOr,
        Token::Eof,
    ];

    assert_eq!(tokens, expected_result);
}

#[test]
fn test_special_characters() {
    let input = "{ } [ ] ( ) = , ; :".chars().collect::<Vec<char>>();
    let mut lexer = Lexer::new(input);
    let tokens = lexer.tokenize().unwrap();

    let expected_result: Vec<Token> = vec![
        Token::LeftCurly,
        Token::RightCurly,
        Token::LeftBracket,
        Token::RightBracket,
        Token::LeftPar,
        Token::RightPar,
        Token::EqualSign,
        Token::Comma,
        Token::Semicolon,
        Token::Colon,
        Token::Eof,
    ];

    assert_eq!(tokens, expected_result);
}

#[test]
fn test_string() {
    let input = "\"my string here\"\n".chars().collect::<Vec<char>>();
    let mut lexer = Lexer::new(input);
    let tokens = lexer.tokenize().unwrap();

    let expected_result: Vec<Token> =
        vec![Token::StringValue("my string here".to_string()), Token::Eof];

    assert_eq!(tokens, expected_result);
}

#[test]
fn test_empty_input_yields_only_eof() {
    let mut lexer = Lexer::new(Vec::new());
    assert_eq!(lexer.tokenize().unwrap(), vec![Token::Eof]);
}

#[test]
fn test_whitespace_only_input_yields_only_eof() {
    let input = " \t\n  \r\n".chars().collect::<Vec<char>>();
    let mut lexer = Lexer::new(input);
    assert_eq!(lexer.tokenize().unwrap(), vec![Token::Eof]);
}

#[test]
fn test_float_literal_keeps_lexeme() {
    let input = "float pi = 3.14;".chars().collect::<Vec<char>>();
    let mut lexer = Lexer::new(input);
    let tokens = lexer.tokenize().unwrap();
    assert_eq!(
        tokens,
        vec![
            Token::KeywordFloat,
            Token::Identifier("pi".to_string()),
            Token::EqualSign,
            Token::FloatNumber("3.14".to_string()),
            Token::Semicolon,
            Token::Eof,
        ]
    );
}

#[test]
fn test_keywords_are_classified() {
    let input = "fn if elif else return int float bool string custom"
        .chars()
        .collect::<Vec<char>>();
    let mut lexer = Lexer::new(input);
    let tokens = lexer.tokenize().unwrap();
    assert_eq!(
        tokens,
        vec![
            Token::KeywordFn,
            Token::KeywordIf,
            Token::KeywordElif,
            Token::KeywordElse,
            Token::KeywordReturn,
            Token::KeywordInt,
            Token::KeywordFloat,
            Token::KeywordBool,
            Token::KeywordString,
            Token::Identifier("custom".to_string()),
            Token::Eof,
        ]
    );
}

#[test]
fn test_unrecognized_character_is_reported() {
    let input = "int x = 1 # 2;".chars().collect::<Vec<char>>();
    let mut lexer = Lexer::new(input);
    assert_eq!(
        lexer.tokenize(),
        Err(LexError::UnrecognizedChar { ch: '#', pos: 10 })
    );
}

#[test]
fn test_unterminated_string_is_reported() {
    let input = "\"never closed".chars().collect::<Vec<char>>();
    let mut lexer = Lexer::new(input);
    assert_eq!(lexer.tokenize(), Err(LexError::UnterminatedString { pos: 0 }));
}
