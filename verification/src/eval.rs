//! The expression evaluator: reduces a closed arithmetic expression tree to
//! one exact rational value, or reports why it cannot. `spec_eval` is the
//! specification-level model; `evaluate_ast` is proved to return exactly
//! what the model says.

use vstd::prelude::*;

use crate::ast::{rational_wf, Expression, ExpressionV, Rational};
use crate::errors::EvalError;
use crate::lexer::TokenV;

verus! {

/// The exact value of an expression tree, mirroring the checked 64-bit
/// arithmetic the evaluator performs: integer leaves widen to rationals,
/// `+ - * /` combine the two sides, and the result is an error where a tree
/// node or operator is not arithmetic, a divisor is zero, or an intermediate
/// value leaves the `i64` range.
pub open spec fn spec_eval(e: ExpressionV) -> Result<Rational, EvalError>
    decreases e,
{
    match e {
        ExpressionV::Int(v) => Ok(Rational { num: v as i64, den: 1 }),
        ExpressionV::Float(q) => Ok(q),
        ExpressionV::BinaryExpr(l, op, r) => match spec_eval(*l) {
            Err(err) => Err(err),
            Ok(a) => match spec_eval(*r) {
                Err(err) => Err(err),
                Ok(b) => spec_apply(op, a, b),
            },
        },
        _ => Err(EvalError::NotSupported),
    }
}

/// Whether an integer value fits in `i64`.
pub open spec fn fits_i64(v: int) -> bool {
    i64::MIN <= v <= i64::MAX
}

/// One arithmetic step on two exact rationals, with every intermediate
/// 64-bit product, sum and negation checked against the `i64` range.
pub open spec fn spec_apply(op: TokenV, a: Rational, b: Rational) -> Result<Rational, EvalError> {
    match op {
        TokenV::Plus => {
            let x = a.num * b.den;
            let y = b.num * a.den;
            let d = a.den * b.den;
            if fits_i64(x) && fits_i64(y) && fits_i64(x + y) && fits_i64(d) {
                Ok(Rational { num: (x + y) as i64, den: d as i64 })
            } else {
                Err(EvalError::Overflow)
            }
        },
        TokenV::Minus => {
            let x = a.num * b.den;
            let y = b.num * a.den;
            let d = a.den * b.den;
            if fits_i64(x) && fits_i64(y) && fits_i64(x - y) && fits_i64(d) {
                Ok(Rational { num: (x - y) as i64, den: d as i64 })
            } else {
                Err(EvalError::Overflow)
            }
        },
        TokenV::Times => {
            let n = a.num * b.num;
            let d = a.den * b.den;
            if fits_i64(n) && fits_i64(d) {
                Ok(Rational { num: n as i64, den: d as i64 })
            } else {
                Err(EvalError::Overflow)
            }
        },
        TokenV::Divides => {
            if b.num == 0 {
                Err(EvalError::DivisionByZero)
            } else {
                let n = a.num * b.den;
                let d = a.den * b.num;
                if fits_i64(n) && fits_i64(d) {
                    if d < 0 {
                        if fits_i64(-n) && fits_i64(-d) {
                            Ok(Rational { num: (-n) as i64, den: (-d) as i64 })
                        } else {
                            Err(EvalError::Overflow)
                        }
                    } else {
                        Ok(Rational { num: n as i64, den: d as i64 })
                    }
                } else {
                    Err(EvalError::Overflow)
                }
            }
        },
        _ => Err(EvalError::NotSupported),
    }
}

/// Multiplies two `i64` values exactly, or reports overflow.
fn checked_mul_i64(a: i64, b: i64) -> (r: Result<i64, EvalError>)
    ensures
        match r {
            Ok(v) => v == a * b,
            Err(e) => e == EvalError::Overflow && !fits_i64(a * b),
        },
{
    match a.checked_mul(b) {
        Some(v) => Ok(v),
        None => Err(EvalError::Overflow),
    }
}

/// Evaluates a closed arithmetic expression tree to one exact rational
/// value: exactly what `spec_eval` says of the tree.
pub fn evaluate_ast(expression: &Expression) -> (r: Result<Rational, EvalError>)
    ensures
        r == spec_eval(expression@),
    decreases *expression,
{
    match expression {
        Expression::Int(v) => Ok(Rational { num: *v as i64, den: 1 }),
        Expression::Float(q) => Ok(*q),
        Expression::BinaryExpr(l, op, r) => {
            let a = evaluate_ast(&**l)?;
            let b = evaluate_ast(&**r)?;
            match op {
                crate::lexer::Token::Plus => {
                    let x = checked_mul_i64(a.num, b.den)?;
                    let y = checked_mul_i64(b.num, a.den)?;
                    let d = checked_mul_i64(a.den, b.den)?;
                    match x.checked_add(y) {
                        Some(n) => Ok(Rational { num: n, den: d }),
                        None => Err(EvalError::Overflow),
                    }
                },
                crate::lexer::Token::Minus => {
                    let x = checked_mul_i64(a.num, b.den)?;
                    let y = checked_mul_i64(b.num, a.den)?;
                    let d = checked_mul_i64(a.den, b.den)?;
                    match x.checked_sub(y) {
                        Some(n) => Ok(Rational { num: n, den: d }),
                        None => Err(EvalError::Overflow),
                    }
                },
                crate::lexer::Token::Times => {
                    let n = checked_mul_i64(a.num, b.num)?;
                    let d = checked_mul_i64(a.den, b.den)?;
                    Ok(Rational { num: n, den: d })
                },
                crate::lexer::Token::Divides => {
                    if b.num == 0 {
                        return Err(EvalError::DivisionByZero);
                    }
                    let n = checked_mul_i64(a.num, b.den)?;
                    let d = checked_mul_i64(a.den, b.num)?;
                    if d < 0 {
                        if n == i64::MIN || d == i64::MIN {
                            Err(EvalError::Overflow)
                        } else {
                            Ok(Rational { num: -n, den: -d })
                        }
                    } else {
                        Ok(Rational { num: n, den: d })
                    }
                },
                _ => Err(EvalError::NotSupported),
            }
        },
        _ => Err(EvalError::NotSupported),
    }
}

/// Whether every rational leaf of a tree is well-formed: its denominator
/// is positive.
pub open spec fn expr_rationals_wf(e: ExpressionV) -> bool
    decreases e,
{
    match e {
        ExpressionV::Float(q) => rational_wf(q),
        ExpressionV::BinaryExpr(l, _, r) => expr_rationals_wf(*l) && expr_rationals_wf(*r),
        _ => true,
    }
}

/// The evaluator keeps rationals well-formed: of a tree whose float leaves
/// all carry a positive denominator, every value it computes carries one
/// too.
pub proof fn lemma_eval_keeps_rational_wf(e: ExpressionV)
    requires
        expr_rationals_wf(e),
    ensures
        spec_eval(e) matches Ok(q) ==> rational_wf(q),
    decreases e,
{
    match e {
        ExpressionV::BinaryExpr(l, op, r) => {
            lemma_eval_keeps_rational_wf(*l);
            lemma_eval_keeps_rational_wf(*r);
            match (spec_eval(*l), spec_eval(*r)) {
                (Ok(a), Ok(b)) => {
                    lemma_pos_mul(a.den as int, b.den as int);
                    if b.num != 0 {
                        lemma_nonzero_mul(a.den as int, b.num as int);
                    }
                },
                _ => {},
            }
        },
        _ => {},
    }
}

/// The product of two positive integers is positive.
proof fn lemma_pos_mul(a: int, b: int)
    requires
        a > 0,
        b > 0,
    ensures
        a * b > 0,
{
    assert(a * b > 0) by (nonlinear_arith)
        requires
            a > 0,
            b > 0,
    ;
}

/// The product of a positive and a nonzero integer is nonzero.
proof fn lemma_nonzero_mul(a: int, b: int)
    requires
        a > 0,
        b != 0,
    ensures
        a * b != 0,
        b > 0 ==> a * b > 0,
        b < 0 ==> a * b < 0,
{
    assert(a * b != 0 && (b > 0 ==> a * b > 0) && (b < 0 ==> a * b < 0)) by (nonlinear_arith)
        requires
            a > 0,
            b != 0,
    ;
}

} // verus!
