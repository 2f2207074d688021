use minilang::ast::{Expression, Rational};
use minilang::errors::EvalError;
use minilang::eval::evaluate_ast;
use minilang::lexer::Token;

fn binary(l: Expression, op: Token, r: Expression) -> Expression {
    Expression::BinaryExpr(Box::new(l), op, Box::new(r))
}

#[test]
fn test_left_associative_division_evaluates_to_one() {
    // (8 / 4) / 2
    let tree = binary(
        binary(Expression::Int(8), Token::Divides, Expression::Int(4)),
        Token::Divides,
        Expression::Int(2),
    );
    let value = evaluate_ast(&tree).unwrap();
    assert_eq!(value.num as f64 / value.den as f64, 1.0);
}

#[test]
fn test_integer_widens_to_rational() {
    let value = evaluate_ast(&Expression::Int(7)).unwrap();
    assert_eq!(value, Rational { num: 7, den: 1 });
}

#[test]
fn test_addition_of_fractions_is_exact() {
    // 1/2 + 1/3 == 5/6
    let tree = binary(
        binary(Expression::Int(1), Token::Divides, Expression::Int(2)),
        Token::Plus,
        binary(Expression::Int(1), Token::Divides, Expression::Int(3)),
    );
    let value = evaluate_ast(&tree).unwrap();
    assert_eq!(value, Rational { num: 5, den: 6 });
}

#[test]
fn test_subtraction_and_multiplication() {
    // (5 - 2) * 4 == 12
    let tree = binary(
        binary(Expression::Int(5), Token::Minus, Expression::Int(2)),
        Token::Times,
        Expression::Int(4),
    );
    let value = evaluate_ast(&tree).unwrap();
    assert_eq!(value, Rational { num: 12, den: 1 });
}

#[test]
fn test_float_literal_value() {
    let value = evaluate_ast(&Expression::Float(Rational { num: 314, den: 100 })).unwrap();
    assert_eq!(value, Rational { num: 314, den: 100 });
}

#[test]
fn test_division_by_zero_is_reported() {
    let tree = binary(Expression::Int(1), Token::Divides, Expression::Int(0));
    assert_eq!(evaluate_ast(&tree), Err(EvalError::DivisionByZero));
}

#[test]
fn test_modulo_operator_is_not_supported() {
    let tree = binary(Expression::Int(5), Token::Mod, Expression::Int(2));
    assert_eq!(evaluate_ast(&tree), Err(EvalError::NotSupported));
}

#[test]
fn test_boolean_leaf_is_not_supported() {
    assert_eq!(
        evaluate_ast(&Expression::Boolean(true)),
        Err(EvalError::NotSupported)
    );
}

#[test]
fn test_overflow_is_reported() {
    let tree = binary(
        Expression::Float(Rational { num: i64::MAX, den: 1 }),
        Token::Times,
        Expression::Int(2),
    );
    assert_eq!(evaluate_ast(&tree), Err(EvalError::Overflow));
}

#[test]
fn test_negative_divisor_keeps_denominator_positive() {
    // 6 / (0 - 3) == -2
    let tree = binary(
        Expression::Int(6),
        Token::Divides,
        binary(Expression::Int(0), Token::Minus, Expression::Int(3)),
    );
    let value = evaluate_ast(&tree).unwrap();
    assert!(value.den > 0);
    assert_eq!(value.num as f64 / value.den as f64, -2.0);
}

#[test]
fn test_mixed_float_and_int_multiplication() {
    // 2.5 * 2 == 5
    let tree = binary(
        Expression::Float(Rational { num: 25, den: 10 }),
        Token::Times,
        Expression::Int(2),
    );
    let value = evaluate_ast(&tree).unwrap();
    assert_eq!(value.num as f64 / value.den as f64, 5.0);
}
