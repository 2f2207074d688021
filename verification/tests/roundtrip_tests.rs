use minilang::cli::{get_target_language, TargetLanguage};
use minilang::lexer::{reconstitute, Lexer, Token};

fn tokens_of(source: &str) -> Vec<Token> {
    let input = source.chars().collect::<Vec<char>>();
    let mut lexer = Lexer::new(input);
    lexer.tokenize().unwrap()
}

fn round_trip(source: &str) {
    let tokens = tokens_of(source);
    let rendered = reconstitute(&tokens);
    let again = tokens_of(&rendered);
    assert_eq!(tokens, again);
}

#[test]
fn test_round_trip_declaration() {
    round_trip("int x = 12;\n");
}

#[test]
fn test_round_trip_function() {
    round_trip("fn name(int a, float b): int { int a = 1 + 2 * 3; }\n");
}

#[test]
fn test_round_trip_operators_and_strings() {
    round_trip("a >= b ** c != \"text in here\" && d++");
}

#[test]
fn test_round_trip_is_idempotent_on_rendered_text() {
    let tokens = tokens_of("float  y=8/4  /2.5;");
    let rendered = reconstitute(&tokens);
    let rendered_again = reconstitute(&tokens_of(&rendered));
    assert_eq!(rendered, rendered_again);
}

#[test]
fn test_reconstitute_normalizes_whitespace() {
    let tokens = tokens_of("int   x\t=\n12 ;");
    assert_eq!(reconstitute(&tokens), "int x = 12 ; ");
}

#[test]
fn test_target_language_selection() {
    assert!(matches!(get_target_language("C"), TargetLanguage::C));
    assert!(matches!(
        get_target_language("JavaScript"),
        TargetLanguage::JavaScript
    ));
    assert!(matches!(
        get_target_language("Rust"),
        TargetLanguage::Unknown("Rust")
    ));
}

#[test]
fn test_round_trip_with_unicode_identifier() {
    round_trip("int caf\u{e9}_1 = 42;");
}
