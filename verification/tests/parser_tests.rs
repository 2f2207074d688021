use minilang::ast::{Assignment, Ast, Block, Expression, Function, Parameter, Rational, Type};
use minilang::errors::ParseError;
use minilang::eval::evaluate_ast;
use minilang::lexer::{Lexer, Token};
use minilang::parser::Parser;
use minilang::symbol_table::SymbolTable;

fn parse(source: &str) -> Result<Vec<Ast>, ParseError> {
    let input = source.chars().collect::<Vec<char>>();
    let mut lexer = Lexer::new(input);
    let tokens = lexer.tokenize().unwrap();
    let mut parser = Parser::new(tokens);
    parser.generate_ast()
}

#[test]
fn test_variable_declaration() {
    let input = "float variable_name = 8;\n".chars().collect::<Vec<char>>();
    let mut lexer = Lexer::new(input);
    let tokens = lexer.tokenize().unwrap();
    let mut parser = Parser::new(tokens);
    let variable_ast = parser.generate_ast().unwrap();

    let value = Expression::Int(8);
    let variable = Assignment::new(Type::Float, "variable_name".to_string(), value);
    let expected_variable_ast = Ast::Assignment(variable);

    assert_eq!(variable_ast[0], expected_variable_ast);
}

#[test]
fn test_ast_evaluation() {
    let input = "float variable_name = 8 / 4 / 2;\n"
        .chars()
        .collect::<Vec<char>>();
    let mut lexer = Lexer::new(input);
    let tokens = lexer.tokenize().unwrap();
    let mut parser = Parser::new(tokens);
    let variable_ast = parser.generate_ast().unwrap();

    let var = &variable_ast[0];
    if let Ast::Assignment(variable) = var {
        let expression = variable.value.clone();
        let value = evaluate_ast(&expression).unwrap();
        assert_eq!(value.num as f64 / value.den as f64, 1.0);
    } else {
        panic!("This should be a variable declaration!");
    }
}

#[test]
fn test_function_declaration_with_empty_body() {
    let input = "fn name(): int {}\n".chars().collect::<Vec<char>>();
    let mut lexer = Lexer::new(input);
    let tokens = lexer.tokenize().unwrap();
    let mut parser = Parser::new(tokens);
    let ast = parser.generate_ast().unwrap();
    let function_ast = &ast[0];

    let function = Function::new(
        "name".to_string(),
        vec![],
        Block::new(vec![], SymbolTable::new()),
        Some(Type::Int),
    );
    let expected_result = Ast::Function(function);
    assert_eq!(expected_result, *function_ast)
}

#[test]
fn test_function_declaration() {
    let input = "fn name(): int {int a = 12;}\n"
        .chars()
        .collect::<Vec<char>>();
    let mut lexer = Lexer::new(input);
    let tokens = lexer.tokenize().unwrap();
    let mut parser = Parser::new(tokens);
    let ast = parser.generate_ast().unwrap();
    let function_ast = &ast[0];

    let assignment = Ast::Assignment(Assignment::new(
        Type::Int,
        "a".to_string(),
        Expression::Int(12),
    ));

    let block = vec![assignment.clone()];
    let mut symbol_table = SymbolTable::new();
    symbol_table.insert("a".to_string(), assignment);

    let expected_function = Ast::Function(Function::new(
        "name".to_string(),
        vec![],
        Block::new(block, symbol_table),
        Some(Type::Int),
    ));
    assert_eq!(expected_function, *function_ast)
}

#[test]
fn test_int_declaration() {
    let ast = parse("int x = 12;").unwrap();
    let expected = Ast::Assignment(Assignment::new(
        Type::Int,
        "x".to_string(),
        Expression::Int(12),
    ));
    assert_eq!(ast, vec![expected]);
}

#[test]
fn test_float_declaration_keeps_literal_classification() {
    // the literal keeps its lexical int classification, independent of the
    // declared float type
    let ast = parse("float x = 8;").unwrap();
    let expected = Ast::Assignment(Assignment::new(
        Type::Float,
        "x".to_string(),
        Expression::Int(8),
    ));
    assert_eq!(ast, vec![expected]);
}

#[test]
fn test_unmatched_open_parenthesis_is_rejected() {
    assert_eq!(
        parse("int x = (1 + 2;"),
        Err(ParseError::MismatchedParenthesis)
    );
}

#[test]
fn test_unmatched_close_parenthesis_is_rejected() {
    assert_eq!(
        parse("int x = 1 + 2);"),
        Err(ParseError::MismatchedParenthesis)
    );
}

#[test]
fn test_undeclared_identifier_is_rejected() {
    assert_eq!(
        parse("int x = y + 1;"),
        Err(ParseError::UndeclaredIdentifier("y".to_string()))
    );
}

#[test]
fn test_multiplication_binds_tighter_than_addition() {
    let ast = parse("int a = 1; int b = 2; int c = 3; int d = a + b * c;").unwrap();
    let expected_value = Expression::BinaryExpr(
        Box::new(Expression::Int(1)),
        Token::Plus,
        Box::new(Expression::BinaryExpr(
            Box::new(Expression::Int(2)),
            Token::Times,
            Box::new(Expression::Int(3)),
        )),
    );
    if let Ast::Assignment(a) = &ast[3] {
        assert_eq!(a.name, "d");
        assert_eq!(a.value, expected_value);
    } else {
        panic!("expected an assignment");
    }
}

#[test]
fn test_left_associative_subtraction() {
    let ast = parse("int d = 8 - 4 - 2;").unwrap();
    let expected_value = Expression::BinaryExpr(
        Box::new(Expression::BinaryExpr(
            Box::new(Expression::Int(8)),
            Token::Minus,
            Box::new(Expression::Int(4)),
        )),
        Token::Minus,
        Box::new(Expression::Int(2)),
    );
    if let Ast::Assignment(a) = &ast[0] {
        assert_eq!(a.value, expected_value);
    } else {
        panic!("expected an assignment");
    }
}

#[test]
fn test_parenthesized_grouping() {
    let ast = parse("int d = (1 + 2) * 3;").unwrap();
    let expected_value = Expression::BinaryExpr(
        Box::new(Expression::BinaryExpr(
            Box::new(Expression::Int(1)),
            Token::Plus,
            Box::new(Expression::Int(2)),
        )),
        Token::Times,
        Box::new(Expression::Int(3)),
    );
    if let Ast::Assignment(a) = &ast[0] {
        assert_eq!(a.value, expected_value);
    } else {
        panic!("expected an assignment");
    }
}

#[test]
fn test_identifier_substitution_copies_expression() {
    let ast = parse("int a = 1 + 2; int b = a * 3;").unwrap();
    let a_value = Expression::BinaryExpr(
        Box::new(Expression::Int(1)),
        Token::Plus,
        Box::new(Expression::Int(2)),
    );
    let b_value = Expression::BinaryExpr(Box::new(a_value), Token::Times, Box::new(Expression::Int(3)));
    if let Ast::Assignment(b) = &ast[1] {
        assert_eq!(b.value, b_value);
    } else {
        panic!("expected an assignment");
    }
}

#[test]
fn test_missing_equal_sign_is_rejected() {
    assert_eq!(
        parse("int x 12;"),
        Err(ParseError::ExpectedEqualSign(Token::IntNumber(
            "12".to_string()
        )))
    );
}

#[test]
fn test_missing_semicolon_is_rejected() {
    assert_eq!(
        parse("int x = 12"),
        Err(ParseError::ExpectedSemicolon(Token::Eof))
    );
}

#[test]
fn test_function_with_parameters() {
    let ast = parse("fn add(int a, float b): int {}").unwrap();
    let expected = Ast::Function(Function::new(
        "add".to_string(),
        vec![
            Parameter::new(Type::Int, "a".to_string()),
            Parameter::new(Type::Float, "b".to_string()),
        ],
        Block::new(vec![], SymbolTable::new()),
        Some(Type::Int),
    ));
    assert_eq!(ast, vec![expected]);
}

#[test]
fn test_function_without_return_type_is_void() {
    let ast = parse("fn run() {}").unwrap();
    let expected = Ast::Function(Function::new(
        "run".to_string(),
        vec![],
        Block::new(vec![], SymbolTable::new()),
        None,
    ));
    assert_eq!(ast, vec![expected]);
}

#[test]
fn test_colon_without_type_is_rejected() {
    assert_eq!(
        parse("fn run(): {}"),
        Err(ParseError::ExpectedReturnType(Token::LeftCurly))
    );
}

#[test]
fn test_signature_without_colon_or_brace_is_rejected() {
    assert_eq!(
        parse("fn run() int {}"),
        Err(ParseError::MalformedFunctionSignature(Token::KeywordInt))
    );
}

#[test]
fn test_statement_keyword_in_block_is_rejected() {
    assert_eq!(
        parse("fn run() { return; }"),
        Err(ParseError::InvalidStatement(Token::KeywordReturn))
    );
}

#[test]
fn test_invalid_top_level_token_is_rejected() {
    assert_eq!(
        parse("x = 1;"),
        Err(ParseError::InvalidAstToken(Token::Identifier(
            "x".to_string()
        )))
    );
}

#[test]
fn test_int_literal_out_of_range_is_rejected() {
    assert_eq!(
        parse("int x = 99999999999;"),
        Err(ParseError::InvalidIntLiteral("99999999999".to_string()))
    );
}

#[test]
fn test_symbol_table_lookup_after_parse() {
    let input = "int a = 12;".chars().collect::<Vec<char>>();
    let mut lexer = Lexer::new(input);
    let tokens = lexer.tokenize().unwrap();
    let mut parser = Parser::new(tokens);
    parser.generate_ast().unwrap();
    let bound = parser.symbol_table.get("a").unwrap();
    let expected = Ast::Assignment(Assignment::new(
        Type::Int,
        "a".to_string(),
        Expression::Int(12),
    ));
    assert_eq!(*bound, expected);
    assert!(parser.symbol_table.get("b").is_none());
}

#[test]
fn test_symbol_table_last_write_wins() {
    let mut table = SymbolTable::new();
    let first = Ast::Assignment(Assignment::new(
        Type::Int,
        "a".to_string(),
        Expression::Int(1),
    ));
    let second = Ast::Assignment(Assignment::new(
        Type::Int,
        "a".to_string(),
        Expression::Int(2),
    ));
    table.insert("a".to_string(), first);
    table.insert("a".to_string(), second.clone());
    assert_eq!(*table.get("a").unwrap(), second);
}

#[test]
fn test_float_literal_parses_to_exact_rational() {
    let ast = parse("float x = 3.14;").unwrap();
    let expected = Ast::Assignment(Assignment::new(
        Type::Float,
        "x".to_string(),
        Expression::Float(Rational { num: 314, den: 100 }),
    ));
    assert_eq!(ast, vec![expected]);
}

#[test]
fn test_float_literal_with_two_dots_is_rejected() {
    assert_eq!(
        parse("float x = 1.2.3;"),
        Err(ParseError::InvalidFloatLiteral("1.2.3".to_string()))
    );
}

#[test]
fn test_float_literal_with_trailing_dot() {
    let ast = parse("float x = 8.;").unwrap();
    let expected = Ast::Assignment(Assignment::new(
        Type::Float,
        "x".to_string(),
        Expression::Float(Rational { num: 8, den: 1 }),
    ));
    assert_eq!(ast, vec![expected]);
}
