//! Structured error values. Every fallible operation of the library reports
//! one of these instead of aborting: a lexical error from the tokenizer, a
//! parse error from the statement and expression parsers, or an evaluation
//! error from the expression evaluator.

use vstd::prelude::*;

use crate::lexer::{Token, TokenV};

verus! {

/// A lexical error: the scan met a character no token rule accepts, or a
/// string literal that never closes. `pos` is the index of the offending
/// character (for a string, of its opening quote) in the source text.
#[derive(Debug, Clone, Copy, PartialEq, Eq, Structural)]
pub enum LexError {
    UnrecognizedChar { ch: char, pos: usize },
    UnterminatedString { pos: usize },
}

/// A parse error. Variants that carry a token report the token actually
/// found where some other token was required.
#[derive(Debug, PartialEq, Eq)]
pub enum ParseError {
    /// The token stream ran out where more input was required.
    UnexpectedEndOfInput,
    /// A data-type keyword was required.
    NotAType(Token),
    /// An identifier was required.
    ExpectedIdentifier(Token),
    /// A `;` was required at the end of a statement.
    ExpectedSemicolon(Token),
    /// An `=` was required after the declared name.
    ExpectedEqualSign(Token),
    /// A `(` was required to open a parameter list.
    ExpectedLeftParenthesis(Token),
    /// A `:` was followed by something other than a type keyword.
    ExpectedReturnType(Token),
    /// After the parameter list, neither `{` nor `:` followed.
    MalformedFunctionSignature(Token),
    /// A `{` was required to open a block.
    ExpectedLeftCurly(Token),
    /// A statement inside a block began with a token no statement accepts.
    InvalidStatement(Token),
    /// A top-level construct began with a token no construct accepts.
    InvalidAstToken(Token),
    /// A token that is neither operand, operator nor parenthesis appeared
    /// inside an expression.
    InvalidExpressionToken(Token),
    /// Parentheses in an expression are unbalanced.
    MismatchedParenthesis,
    /// A token that is neither operand nor operator appeared in a postfix
    /// sequence.
    InvalidRpnToken(Token),
    /// An operator was applied with fewer than two operands available.
    InvalidExpression,
    /// A postfix sequence reduced to zero, or more than one, value.
    InvalidRpnExpression,
    /// An identifier has no entry in the current symbol table.
    UndeclaredIdentifier(String),
    /// An integer literal's text does not denote an `i32`.
    InvalidIntLiteral(String),
    /// A float literal's text does not denote a supported decimal value.
    InvalidFloatLiteral(String),
}

/// The specification-level value of a parse error.
pub enum ParseErrorV {
    UnexpectedEndOfInput,
    NotAType(TokenV),
    ExpectedIdentifier(TokenV),
    ExpectedSemicolon(TokenV),
    ExpectedEqualSign(TokenV),
    ExpectedLeftParenthesis(TokenV),
    ExpectedReturnType(TokenV),
    MalformedFunctionSignature(TokenV),
    ExpectedLeftCurly(TokenV),
    InvalidStatement(TokenV),
    InvalidAstToken(TokenV),
    InvalidExpressionToken(TokenV),
    MismatchedParenthesis,
    InvalidRpnToken(TokenV),
    InvalidExpression,
    InvalidRpnExpression,
    UndeclaredIdentifier(Seq<char>),
    InvalidIntLiteral(Seq<char>),
    InvalidFloatLiteral(Seq<char>),
}

impl View for ParseError {
    type V = ParseErrorV;

    open spec fn view(&self) -> ParseErrorV {
        match self {
            ParseError::UnexpectedEndOfInput => ParseErrorV::UnexpectedEndOfInput,
            ParseError::NotAType(t) => ParseErrorV::NotAType(t@),
            ParseError::ExpectedIdentifier(t) => ParseErrorV::ExpectedIdentifier(t@),
            ParseError::ExpectedSemicolon(t) => ParseErrorV::ExpectedSemicolon(t@),
            ParseError::ExpectedEqualSign(t) => ParseErrorV::ExpectedEqualSign(t@),
            ParseError::ExpectedLeftParenthesis(t) => ParseErrorV::ExpectedLeftParenthesis(t@),
            ParseError::ExpectedReturnType(t) => ParseErrorV::ExpectedReturnType(t@),
            ParseError::MalformedFunctionSignature(t) => {
                ParseErrorV::MalformedFunctionSignature(t@)
            },
            ParseError::ExpectedLeftCurly(t) => ParseErrorV::ExpectedLeftCurly(t@),
            ParseError::InvalidStatement(t) => ParseErrorV::InvalidStatement(t@),
            ParseError::InvalidAstToken(t) => ParseErrorV::InvalidAstToken(t@),
            ParseError::InvalidExpressionToken(t) => ParseErrorV::InvalidExpressionToken(t@),
            ParseError::MismatchedParenthesis => ParseErrorV::MismatchedParenthesis,
            ParseError::InvalidRpnToken(t) => ParseErrorV::InvalidRpnToken(t@),
            ParseError::InvalidExpression => ParseErrorV::InvalidExpression,
            ParseError::InvalidRpnExpression => ParseErrorV::InvalidRpnExpression,
            ParseError::UndeclaredIdentifier(s) => ParseErrorV::UndeclaredIdentifier(s@),
            ParseError::InvalidIntLiteral(s) => ParseErrorV::InvalidIntLiteral(s@),
            ParseError::InvalidFloatLiteral(s) => ParseErrorV::InvalidFloatLiteral(s@),
        }
    }
}

/// An evaluation error: the tree holds a node or an operator the evaluator
/// does not reduce, a division by zero, or a value outside the exact range
/// the evaluator computes in.
#[derive(Debug, Clone, Copy, PartialEq, Eq, Structural)]
pub enum EvalError {
    NotSupported,
    DivisionByZero,
    Overflow,
}

} // verus!
