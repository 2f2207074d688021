//! The statement and expression parser: a recursive-descent driver over the
//! token stream that recognizes assignments and function declarations, and
//! a shunting-yard expression engine that turns infix token runs into
//! expression trees, resolving identifiers against the current symbol
//! table. Every function is proved to return exactly what its
//! specification-level mirror (`spec_parse_*`, `spec_rpn*`) says.

use vstd::prelude::*;

use crate::ast::{
    ast_v, asts_v, Assignment, AssignmentV, Ast, AstV, Block, BlockV, Expression, ExpressionV, Function,
    FunctionV, Parameter, ParameterV, Rational, Type,
};
use crate::errors::{ParseError, ParseErrorV};
use crate::lexer::{
    spec_as_type, spec_associativity, spec_has_dot, spec_is_data_type_keyword, spec_is_number,
    spec_is_operator, spec_precedence, Associativity, Token, TokenV,
};
use crate::symbol_table::SymbolTable;
use crate::text::{char_is_ascii_digit, digit_value, is_ascii_digit_char};

verus! {

/// The specification-level values of a token sequence.
pub open spec fn tokens_v(ts: Seq<Token>) -> Seq<TokenV> {
    ts.map_values(|t: Token| t@)
}

// ---------------------------------------------------------------------------
// Numeric literals
// ---------------------------------------------------------------------------

/// Whether every character of the text is an ASCII decimal digit.
pub open spec fn all_digits(w: Seq<char>) -> bool {
    forall|k: int| 0 <= k < w.len() ==> is_ascii_digit_char(#[trigger] w[k])
}

/// The number a digit string denotes, most significant digit first.
pub open spec fn digits_value(w: Seq<char>) -> int
    decreases w.len(),
{
    if w.len() == 0 {
        0
    } else {
        digits_value(w.drop_last()) * 10 + digit_value(w.last())
    }
}

/// Ten to the given power.
pub open spec fn pow10(n: nat) -> int
    decreases n,
{
    if n == 0 {
        1
    } else {
        10 * pow10((n - 1) as nat)
    }
}

/// The index of the first `.` in the text, or its length where none occurs.
pub open spec fn dot_index(w: Seq<char>, i: int) -> int
    decreases w.len() - i,
    when 0 <= i <= w.len()
{
    if i >= w.len() || w[i] == '.' {
        i
    } else {
        dot_index(w, i + 1)
    }
}

/// Bounds and content of the dot search.
pub proof fn lemma_dot_index(w: Seq<char>, i: int)
    requires
        0 <= i <= w.len(),
    ensures
        i <= dot_index(w, i) <= w.len(),
        dot_index(w, i) < w.len() ==> w[dot_index(w, i)] == '.',
        forall|k: int| i <= k < dot_index(w, i) ==> w[k] != '.',
    decreases w.len() - i,
{
    if !(i >= w.len() || w[i] == '.') {
        lemma_dot_index(w, i + 1);
    }
}

/// The value of a digit string never sinks when digits are appended, and
/// never sinks below any of its prefixes.
pub proof fn lemma_digits_value_bounds(w: Seq<char>, i: int)
    requires
        0 <= i <= w.len(),
        all_digits(w),
    ensures
        0 <= digits_value(w.subrange(0, i)) <= digits_value(w),
    decreases w.len() - i,
{
    if i == w.len() {
        assert(w.subrange(0, i) =~= w);
        lemma_digits_value_nonneg(w);
    } else {
        lemma_digits_value_bounds(w, i + 1);
        let a = w.subrange(0, i);
        let b = w.subrange(0, i + 1);
        assert(b.drop_last() =~= a);
        assert(b.last() == w[i]);
        lemma_digits_value_nonneg_sub(w, i);
    }
}

/// A digit string's value is not negative.
pub proof fn lemma_digits_value_nonneg(w: Seq<char>)
    requires
        all_digits(w),
    ensures
        digits_value(w) >= 0,
    decreases w.len(),
{
    if w.len() > 0 {
        assert(all_digits(w.drop_last()));
        lemma_digits_value_nonneg(w.drop_last());
    }
}

/// A digit-string prefix's value is not negative.
proof fn lemma_digits_value_nonneg_sub(w: Seq<char>, i: int)
    requires
        0 <= i <= w.len(),
        all_digits(w),
    ensures
        digits_value(w.subrange(0, i)) >= 0,
{
    assert(all_digits(w.subrange(0, i)));
    lemma_digits_value_nonneg(w.subrange(0, i));
}

/// The `i32` an integer literal's text denotes: the text must be all
/// digits, at least one, and the value must fit.
pub open spec fn spec_parse_int(w: Seq<char>) -> Result<ExpressionV, ParseErrorV> {
    if w.len() > 0 && all_digits(w) && digits_value(w) <= i32::MAX {
        Ok(ExpressionV::Int(digits_value(w) as i32))
    } else {
        Err(ParseErrorV::InvalidIntLiteral(w))
    }
}

/// The exact rational a float literal's text denotes: digits around at most
/// one `.`, at least one digit in all, with numerator and denominator
/// within `i64`. The numerator is the digits read as one number, the
/// denominator ten to the number of fractional digits.
pub open spec fn spec_parse_float(w: Seq<char>) -> Result<ExpressionV, ParseErrorV> {
    let d = dot_index(w, 0);
    let ip = w.subrange(0, d);
    let fp = if d < w.len() {
        w.subrange(d + 1, w.len() as int)
    } else {
        Seq::<char>::empty()
    };
    let digits = ip + fp;
    if all_digits(digits) && digits.len() > 0 && digits_value(digits) <= i64::MAX && pow10(
        fp.len(),
    ) <= i64::MAX {
        Ok(ExpressionV::Float(
            Rational { num: digits_value(digits) as i64, den: pow10(fp.len()) as i64 },
        ))
    } else {
        Err(ParseErrorV::InvalidFloatLiteral(w))
    }
}

/// What a numeric literal's text denotes: a float exactly when the text
/// contains a `.`, an integer otherwise.
pub open spec fn spec_parse_number(w: Seq<char>) -> Result<ExpressionV, ParseErrorV> {
    if spec_has_dot(w) {
        spec_parse_float(w)
    } else {
        spec_parse_int(w)
    }
}

// ---------------------------------------------------------------------------
// Shunting yard: infix to postfix
// ---------------------------------------------------------------------------

/// Whether the operator stack still holds an open parenthesis.
pub open spec fn ops_contain_lpar(ops: Seq<TokenV>) -> bool {
    exists|k: int| 0 <= k < ops.len() && (#[trigger] ops[k]) matches TokenV::LeftPar
}

/// Pops operators to the output until the matching open parenthesis, which
/// is discarded; `None` where none is on the stack.
pub open spec fn spec_pop_until_lpar(ops: Seq<TokenV>, out: Seq<TokenV>) -> Option<
    (Seq<TokenV>, Seq<TokenV>),
>
    decreases ops.len(),
{
    if ops.len() == 0 {
        None
    } else if (ops.last() matches TokenV::LeftPar) {
        Some((ops.drop_last(), out))
    } else {
        spec_pop_until_lpar(ops.drop_last(), out.push(ops.last()))
    }
}

/// Pops operators to the output while the stack top binds strictly tighter
/// than the incoming operator, or equally tightly with the incoming
/// operator left-associative; an open parenthesis stops the popping.
pub open spec fn spec_pop_while_precedes(ops: Seq<TokenV>, out: Seq<TokenV>, op: TokenV) -> (
    Seq<TokenV>,
    Seq<TokenV>,
)
    decreases ops.len(),
{
    if ops.len() == 0 {
        (ops, out)
    } else {
        let top = ops.last();
        if (!(top matches TokenV::LeftPar) && spec_precedence(top) > spec_precedence(op)) || (
        spec_precedence(top) == spec_precedence(op) && spec_associativity(op)
            == Associativity::Left) {
            spec_pop_while_precedes(ops.drop_last(), out.push(top), op)
        } else {
            (ops, out)
        }
    }
}

/// The shunting-yard pass from index `i` with the given operator stack and
/// output queue: operands go to the output, parentheses and operators work
/// the stack, and the first statement terminator (`;` or end of input)
/// drains the stack. The result is the postfix token sequence and the index
/// of the terminator.
pub open spec fn spec_rpn(ts: Seq<TokenV>, i: int, ops: Seq<TokenV>, out: Seq<TokenV>) -> Result<
    (Seq<TokenV>, int),
    ParseErrorV,
>
    decreases ts.len() - i,
    when 0 <= i < ts.len()
{
    let t = ts[i];
    if (t matches TokenV::Semicolon) || (t matches TokenV::Eof) {
        if ops_contain_lpar(ops) {
            Err(ParseErrorV::MismatchedParenthesis)
        } else {
            Ok((out + ops.reverse(), i))
        }
    } else if i + 1 >= ts.len() {
        Err(ParseErrorV::UnexpectedEndOfInput)
    } else if spec_is_number(t) {
        spec_rpn(ts, i + 1, ops, out.push(t))
    } else if (t matches TokenV::Identifier(_)) {
        spec_rpn(ts, i + 1, ops, out.push(t))
    } else if (t matches TokenV::LeftPar) {
        spec_rpn(ts, i + 1, ops.push(t), out)
    } else if (t matches TokenV::RightPar) {
        match spec_pop_until_lpar(ops, out) {
            None => Err(ParseErrorV::MismatchedParenthesis),
            Some((ops2, out2)) => spec_rpn(ts, i + 1, ops2, out2),
        }
    } else if spec_is_operator(t) {
        let (ops2, out2) = spec_pop_while_precedes(ops, out, t);
        spec_rpn(ts, i + 1, ops2.push(t), out2)
    } else {
        Err(ParseErrorV::InvalidExpressionToken(t))
    }
}

// ---------------------------------------------------------------------------
// Postfix to tree
// ---------------------------------------------------------------------------

/// The postfix reduction from index `i` with the given value stack:
/// numeric literals become leaves, identifiers are replaced by a copy of
/// the expression bound to them in the symbol table, and an operator folds
/// the two topmost values into one node. Exactly one value must remain.
pub open spec fn spec_rpn_to_tree(
    rpn: Seq<TokenV>,
    st: Map<Seq<char>, AstV>,
    i: int,
    stack: Seq<ExpressionV>,
) -> Result<ExpressionV, ParseErrorV>
    decreases rpn.len() - i,
    when 0 <= i <= rpn.len()
{
    if i >= rpn.len() {
        if stack.len() == 1 {
            Ok(stack[0])
        } else {
            Err(ParseErrorV::InvalidRpnExpression)
        }
    } else {
        let t = rpn[i];
        match t {
            TokenV::IntNumber(w) => match spec_parse_number(w) {
                Ok(e) => spec_rpn_to_tree(rpn, st, i + 1, stack.push(e)),
                Err(e) => Err(e),
            },
            TokenV::FloatNumber(w) => match spec_parse_number(w) {
                Ok(e) => spec_rpn_to_tree(rpn, st, i + 1, stack.push(e)),
                Err(e) => Err(e),
            },
            TokenV::Identifier(name) => {
                if st.contains_key(name) {
                    match st[name] {
                        AstV::Assignment(a) => spec_rpn_to_tree(rpn, st, i + 1, stack.push(a.value)),
                        _ => Err(ParseErrorV::UndeclaredIdentifier(name)),
                    }
                } else {
                    Err(ParseErrorV::UndeclaredIdentifier(name))
                }
            },
            _ => {
                if spec_is_operator(t) {
                    if stack.len() >= 2 {
                        let rhs = stack.last();
                        let lhs = stack[stack.len() - 2];
                        let node = ExpressionV::BinaryExpr(Box::new(lhs), t, Box::new(rhs));
                        spec_rpn_to_tree(rpn, st, i + 1, stack.drop_last().drop_last().push(node))
                    } else {
                        Err(ParseErrorV::InvalidExpression)
                    }
                } else {
                    Err(ParseErrorV::InvalidRpnToken(t))
                }
            },
        }
    }
}

/// The expression that starts at index `i`: the shunting-yard pass up to
/// the statement terminator, then the postfix reduction against the symbol
/// table. The index returned is the terminator's.
pub open spec fn spec_parse_expression(ts: Seq<TokenV>, i: int, st: Map<Seq<char>, AstV>)
    -> Result<(ExpressionV, int), ParseErrorV> {
    if !(0 <= i < ts.len()) {
        Err(ParseErrorV::UnexpectedEndOfInput)
    } else {
        match spec_rpn(ts, i, Seq::empty(), Seq::empty()) {
            Err(e) => Err(e),
            Ok((rpn, j)) => match spec_rpn_to_tree(rpn, st, 0, Seq::empty()) {
                Err(e) => Err(e),
                Ok(e) => Ok((e, j)),
            },
        }
    }
}

/// Clamps a successor index into `(i, n)`: the parsing steps always leave
/// the cursor there, so the clamp only serves the termination measure.
pub open spec fn step_clamp(n: int, i: int, j: int) -> int {
    if j <= i {
        i + 1
    } else if j >= n {
        n - 1
    } else {
        j
    }
}

/// The cursor index after one advance from index `i` of a stream of `n`
/// tokens: one forward, except at the last token, where it stays.
pub open spec fn spec_adv(n: int, i: int) -> int {
    if i + 1 < n {
        i + 1
    } else {
        i
    }
}

/// One `type name = expression ;` statement starting at index `i`: the
/// declared type, the declared name, `=`, the expression against the given
/// symbol table, and the closing `;`, on which the cursor stays.
pub open spec fn spec_parse_assignment(ts: Seq<TokenV>, i: int, st: Map<Seq<char>, AstV>)
    -> Result<(AssignmentV, int), ParseErrorV> {
    if !(0 <= i < ts.len()) {
        Err(ParseErrorV::UnexpectedEndOfInput)
    } else {
        let n = ts.len() as int;
        match spec_as_type(ts[i]) {
            Err(e) => Err(e),
            Ok(var_type) => {
                let i1 = spec_adv(n, i);
                match ts[i1] {
                    TokenV::Identifier(name) => {
                        let i2 = spec_adv(n, i1);
                        if !(ts[i2] matches TokenV::EqualSign) {
                            Err(ParseErrorV::ExpectedEqualSign(ts[i2]))
                        } else {
                            let i3 = spec_adv(n, i2);
                            match spec_parse_expression(ts, i3, st) {
                                Err(e) => Err(e),
                                Ok((value, i4)) => {
                                    if (ts[i4] matches TokenV::Semicolon) {
                                        Ok(((AssignmentV { var_type, name, value }), i4))
                                    } else {
                                        Err(ParseErrorV::ExpectedSemicolon(ts[i4]))
                                    }
                                },
                            }
                        }
                    },
                    t => Err(ParseErrorV::ExpectedIdentifier(t)),
                }
            },
        }
    }
}

/// The parameter list items from index `i` on, up to the closing `)`, on
/// which the cursor stays: `type name` pairs, with `,` between pairs
/// skipped wherever it stands.
pub open spec fn spec_parse_params_loop(ts: Seq<TokenV>, i: int, acc: Seq<ParameterV>) -> Result<
    (Seq<ParameterV>, int),
    ParseErrorV,
>
    decreases ts.len() - i,
    when 0 <= i < ts.len()
{
    let n = ts.len() as int;
    if (ts[i] matches TokenV::RightPar) {
        Ok((acc, i))
    } else if i + 1 >= n {
        Err(ParseErrorV::UnexpectedEndOfInput)
    } else {
        match spec_as_type(ts[i]) {
            Err(e) => Err(e),
            Ok(parameter_type) => {
                let i1 = spec_adv(n, i);
                match ts[i1] {
                    TokenV::Identifier(name) => {
                        let i2 = spec_adv(n, i1);
                        let i3 = if (ts[i2] matches TokenV::Comma) {
                            spec_adv(n, i2)
                        } else {
                            i2
                        };
                        spec_parse_params_loop(ts, i3, acc.push((ParameterV { parameter_type, name })))
                    },
                    t => Err(ParseErrorV::ExpectedIdentifier(t)),
                }
            },
        }
    }
}

/// A function's parameter list starting at index `i`: `(`, the parameter
/// items, and the closing `)`, on which the cursor stays.
pub open spec fn spec_parse_function_parameters(ts: Seq<TokenV>, i: int) -> Result<
    (Seq<ParameterV>, int),
    ParseErrorV,
> {
    if !(0 <= i < ts.len()) {
        Err(ParseErrorV::UnexpectedEndOfInput)
    } else if !(ts[i] matches TokenV::LeftPar) {
        Err(ParseErrorV::ExpectedLeftParenthesis(ts[i]))
    } else {
        spec_parse_params_loop(ts, spec_adv(ts.len() as int, i), Seq::empty())
    }
}

/// A function's return type after the parameter list's `)` at index `i`:
/// a `{` right away means void (the cursor stays on the `{`); `:` and a
/// type keyword name the type, with the cursor moved past it; anything
/// else is a malformed signature.
pub open spec fn spec_parse_function_return_type(ts: Seq<TokenV>, i: int) -> Result<
    (Type, int),
    ParseErrorV,
> {
    if !(0 <= i < ts.len()) {
        Err(ParseErrorV::UnexpectedEndOfInput)
    } else {
        let n = ts.len() as int;
        let i1 = spec_adv(n, i);
        if (ts[i1] matches TokenV::LeftCurly) {
            Ok((Type::Void, i1))
        } else if (ts[i1] matches TokenV::Colon) {
            let i2 = spec_adv(n, i1);
            if !spec_is_data_type_keyword(ts[i2]) {
                Err(ParseErrorV::ExpectedReturnType(ts[i2]))
            } else {
                match spec_as_type(ts[i2]) {
                    Ok(ty) => Ok((ty, spec_adv(n, i2))),
                    Err(e) => Err(e),
                }
            }
        } else {
            Err(ParseErrorV::MalformedFunctionSignature(ts[i1]))
        }
    }
}

/// The statements of a block from index `i` on, up to the closing `}`, on
/// which the cursor stays. Each assignment is bound in the block's symbol
/// table before the next statement is read, so later statements may
/// reference it.
pub open spec fn spec_parse_block_loop(
    ts: Seq<TokenV>,
    i: int,
    stmts: Seq<AstV>,
    st: Map<Seq<char>, AstV>,
) -> Result<(BlockV, int), ParseErrorV>
    decreases ts.len() - i,
    when 0 <= i < ts.len()
{
    let n = ts.len() as int;
    if (ts[i] matches TokenV::RightCurly) {
        Ok(((BlockV { statements: stmts, symbol_table: st }), i))
    } else if i + 1 >= n {
        Err(ParseErrorV::UnexpectedEndOfInput)
    } else if spec_is_data_type_keyword(ts[i]) {
        match spec_parse_assignment(ts, i, st) {
            Err(e) => Err(e),
            Ok((a, j)) => {
                let j3 = step_clamp(n, i, spec_adv(n, j));
                spec_parse_block_loop(
                    ts,
                    j3,
                    stmts.push(AstV::Assignment(a)),
                    st.insert(a.name, AstV::Assignment(a)),
                )
            },
        }
    } else {
        Err(ParseErrorV::InvalidStatement(ts[i]))
    }
}

/// A block starting at index `i`: `{`, assignment statements, and the
/// closing `}`, on which the cursor stays; the block's symbol table starts
/// empty.
pub open spec fn spec_parse_block(ts: Seq<TokenV>, i: int) -> Result<(BlockV, int), ParseErrorV> {
    if !(0 <= i < ts.len()) {
        Err(ParseErrorV::UnexpectedEndOfInput)
    } else if !(ts[i] matches TokenV::LeftCurly) {
        Err(ParseErrorV::ExpectedLeftCurly(ts[i]))
    } else {
        spec_parse_block_loop(ts, spec_adv(ts.len() as int, i), Seq::empty(), Map::empty())
    }
}

/// A function declaration starting at the `fn` keyword at index `i`: the
/// name, the parameter list, the optional return type (absent means void)
/// and the body block; the cursor ends past the closing `}`.
pub open spec fn spec_parse_function(ts: Seq<TokenV>, i: int) -> Result<
    (FunctionV, int),
    ParseErrorV,
> {
    if !(0 <= i < ts.len()) {
        Err(ParseErrorV::UnexpectedEndOfInput)
    } else {
        let n = ts.len() as int;
        let i1 = spec_adv(n, i);
        match ts[i1] {
            TokenV::Identifier(name) => {
                let i2 = spec_adv(n, i1);
                match spec_parse_function_parameters(ts, i2) {
                    Err(e) => Err(e),
                    Ok((parameters, i3)) => match spec_parse_function_return_type(ts, i3) {
                        Err(e) => Err(e),
                        Ok((ty, i4)) => {
                            let return_type = if (ty matches Type::Void) {
                                Option::<Type>::None
                            } else {
                                Option::Some(ty)
                            };
                            match spec_parse_block(ts, i4) {
                                Err(e) => Err(e),
                                Ok((body, i5)) => Ok(
                                    (
                                        (FunctionV { name, parameters, body, return_type }),
                                        spec_adv(n, i5),
                                    ),
                                ),
                            }
                        },
                    },
                }
            },
            t => Err(ParseErrorV::ExpectedIdentifier(t)),
        }
    }
}

/// The top-level nodes from index `i` on, in source order, up to the
/// end-of-input token. Each function and each top-level assignment is
/// bound in the top-level symbol table under its name, so later top-level
/// statements may reference it; the result carries the nodes and that
/// table.
pub open spec fn spec_parse_program(
    ts: Seq<TokenV>,
    i: int,
    acc: Seq<AstV>,
    st: Map<Seq<char>, AstV>,
) -> Result<(Seq<AstV>, Map<Seq<char>, AstV>), ParseErrorV>
    decreases ts.len() - i,
    when 0 <= i < ts.len()
{
    let n = ts.len() as int;
    if (ts[i] matches TokenV::Eof) {
        Ok((acc, st))
    } else if i + 1 >= n {
        Err(ParseErrorV::UnexpectedEndOfInput)
    } else if (ts[i] matches TokenV::KeywordFn) {
        match spec_parse_function(ts, i) {
            Err(e) => Err(e),
            Ok((f, j)) => {
                let j2 = step_clamp(n, i, j);
                spec_parse_program(
                    ts,
                    j2,
                    acc.push(AstV::Function(f)),
                    st.insert(f.name, AstV::Function(f)),
                )
            },
        }
    } else if spec_is_data_type_keyword(ts[i]) {
        match spec_parse_assignment(ts, i, st) {
            Err(e) => Err(e),
            Ok((a, j)) => {
                let j3 = step_clamp(n, i, spec_adv(n, j));
                spec_parse_program(
                    ts,
                    j3,
                    acc.push(AstV::Assignment(a)),
                    st.insert(a.name, AstV::Assignment(a)),
                )
            },
        }
    } else {
        Err(ParseErrorV::InvalidAstToken(ts[i]))
    }
}

/// The whole program a token stream denotes: its top-level nodes in source
/// order and the resulting top-level symbol table, or the first parse
/// error. An empty stream denotes the empty program.
pub open spec fn spec_generate_ast(ts: Seq<TokenV>) -> Result<
    (Seq<AstV>, Map<Seq<char>, AstV>),
    ParseErrorV,
> {
    if ts.len() == 0 {
        Ok((Seq::empty(), Map::empty()))
    } else {
        spec_parse_program(ts, 0, Seq::empty(), Map::empty())
    }
}

/// The recursive-descent parser: a token stream, a forward cursor, and the
/// top-level symbol table.
pub struct Parser {
    pub tokens: Vec<Token>,
    pub current_token: Token,
    pub position: usize,
    pub symbol_table: SymbolTable,
}

impl Parser {
    /// The cursor never passes the end of the stream, and once it has
    /// moved, the current token is the one it passed last.
    pub open spec fn wf(&self) -> bool {
        &&& self.position <= self.tokens@.len()
        &&& self.position >= 1 ==> self.current_token == self.tokens@[self.position - 1]
    }

    /// The specification-level token sequence this parser reads.
    pub open spec fn toks(&self) -> Seq<TokenV> {
        tokens_v(self.tokens@)
    }

    /// The index of the current token.
    pub open spec fn cur(&self) -> int {
        self.position - 1
    }

    /// Builds a parser over a token stream; the cursor starts before the
    /// first token.
    pub fn new(tokens: Vec<Token>) -> (r: Parser)
        ensures
            r.tokens@ == tokens@,
            r.position == 0,
            r.current_token matches Token::Eof,
            r.symbol_table@ == Map::<Seq<char>, AstV>::empty(),
            r.wf(),
    {
        Parser {
            tokens,
            current_token: Token::Eof,
            position: 0,
            symbol_table: SymbolTable::new(),
        }
    }

    /// Moves the cursor one token forward, where a token is left.
    fn advance(&mut self)
        requires
            old(self).wf(),
        ensures
            final(self).wf(),
            final(self).tokens@ == old(self).tokens@,
            final(self).symbol_table == old(self).symbol_table,
            old(self).position < old(self).tokens@.len() ==> final(self).position == old(
                self,
            ).position + 1,
            old(self).position >= old(self).tokens@.len() ==> *final(self) == *old(self),
    {
        if self.position < self.tokens.len() {
            self.current_token = self.tokens[self.position].clone();
            self.position = self.position + 1;
        }
    }

    /// The `i32` or exact-rational leaf a numeric literal's text denotes:
    /// exactly what `spec_parse_number` says of the text.
    fn parse_number(&self, number: &str) -> (r: Result<Expression, ParseError>)
        ensures
            match spec_parse_number(number@) {
                Ok(ev) => r matches Ok(e) && e@ == ev,
                Err(e) => r matches Err(err) && err@ == e,
            },
    {
        let w = number;
        let ghost wv = number@;
        let n = w.unicode_len();
        let mut has_dot = false;
        let mut i: usize = 0;
        while i < n
            invariant
                n == wv.len(),
                w@ == wv,
                0 <= i <= n,
                has_dot == spec_has_dot(wv.subrange(0, i as int)),
            decreases n - i,
        {
            let c = w.get_char(i);
            proof {
                crate::lexer::lemma_has_dot_extend(wv, i as int);
            }
            if c == '.' {
                has_dot = true;
            }
            i += 1;
        }
        proof {
            assert(wv.subrange(0, n as int) =~= wv);
        }
        if has_dot {
            self.parse_float_literal(w)
        } else {
            self.parse_int_literal(w)
        }
    }

    /// Parses an all-digit literal into an `i32` leaf, or reports why the
    /// text does not denote one.
    fn parse_int_literal(&self, w: &str) -> (r: Result<Expression, ParseError>)
        requires
            !spec_has_dot(w@),
        ensures
            match spec_parse_int(w@) {
                Ok(ev) => r matches Ok(e) && e@ == ev,
                Err(e) => r matches Err(err) && err@ == e,
            },
    {
        let ghost wv = w@;
        let n = w.unicode_len();
        if n == 0 {
            return Err(ParseError::InvalidIntLiteral(w.to_owned()));
        }
        let mut acc: i64 = 0;
        let mut i: usize = 0;
        while i < n
            invariant
                n == wv.len(),
                w@ == wv,
                0 <= i <= n,
                all_digits(wv.subrange(0, i as int)),
                acc == digits_value(wv.subrange(0, i as int)),
                0 <= acc <= i32::MAX,
            decreases n - i,
        {
            let c = w.get_char(i);
            if !char_is_ascii_digit(c) {
                return Err(ParseError::InvalidIntLiteral(w.to_owned()));
            }
            let d = (c as u32 - '0' as u32) as i64;
            let next = acc * 10 + d;
            proof {
                assert(wv.subrange(0, i + 1).drop_last() =~= wv.subrange(0, i as int));
                assert(wv.subrange(0, i + 1).last() == wv[i as int]);
                assert(all_digits(wv.subrange(0, i + 1)));
            }
            if next > i32::MAX as i64 {
                proof {
                    if all_digits(wv) {
                        lemma_digits_value_bounds(wv, i + 1);
                    }
                }
                return Err(ParseError::InvalidIntLiteral(w.to_owned()));
            }
            acc = next;
            i += 1;
        }
        proof {
            assert(wv.subrange(0, n as int) =~= wv);
        }
        Ok(Expression::Int(acc as i32))
    }

    /// Parses a literal with a decimal point into an exact-rational leaf,
    /// or reports why the text does not denote one.
    fn parse_float_literal(&self, w: &str) -> (r: Result<Expression, ParseError>)
        requires
            spec_has_dot(w@),
        ensures
            match spec_parse_float(w@) {
                Ok(ev) => r matches Ok(e) && e@ == ev,
                Err(e) => r matches Err(err) && err@ == e,
            },
    {
        let ghost wv = w@;
        let n = w.unicode_len();
        // find the first dot
        let mut d: usize = 0;
        loop
            invariant
                n == wv.len(),
                w@ == wv,
                0 <= d <= n,
                dot_index(wv, 0) == dot_index(wv, d as int),
            ensures
                d <= n,
                dot_index(wv, 0) == dot_index(wv, d as int),
                d == n || wv[d as int] == '.',
            decreases n - d,
        {
            if d >= n {
                break;
            }
            if w.get_char(d) == '.' {
                break;
            }
            d += 1;
        }
        proof {
            lemma_dot_index(wv, 0);
            if d == n {
                let k = choose|k: int| 0 <= k < wv.len() && wv[k] == '.';
                assert(false);
            }
            assert(dot_index(wv, d as int) == d);
        }
        let ghost ip = wv.subrange(0, d as int);
        let ghost fp = wv.subrange(d + 1, n as int);
        let ghost digits = ip + fp;
        if n == 1 {
            // the text is just "."
            proof {
                assert(digits.len() == 0);
            }
            return Err(ParseError::InvalidFloatLiteral(w.to_owned()));
        }
        let mut acc: i64 = 0;
        let mut den: i64 = 1;
        let mut i: usize = 0;
        // integer part
        while i < d
            invariant
                n == wv.len(),
                w@ == wv,
                d < n,
                wv[d as int] == '.',
                d as int == dot_index(wv, 0),
                ip == wv.subrange(0, d as int),
                fp == wv.subrange(d + 1, n as int),
                digits == ip + fp,
                0 <= i <= d,
                all_digits(wv.subrange(0, i as int)),
                acc == digits_value(wv.subrange(0, i as int)),
                0 <= acc <= i64::MAX,
            decreases d - i,
        {
            let c = w.get_char(i);
            if !char_is_ascii_digit(c) {
                proof {
                    assert(digits[i as int] == wv[i as int]);
                    assert(!all_digits(digits));
                }
                return Err(ParseError::InvalidFloatLiteral(w.to_owned()));
            }
            let d_val = (c as u32 - '0' as u32) as i64;
            proof {
                assert(wv.subrange(0, i + 1).drop_last() =~= wv.subrange(0, i as int));
                assert(wv.subrange(0, i + 1).last() == wv[i as int]);
                assert(all_digits(wv.subrange(0, i + 1)));
            }
            match acc.checked_mul(10) {
                Some(t) => match t.checked_add(d_val) {
                    Some(next) => {
                        acc = next;
                    },
                    None => {
                        proof {
                            lemma_digits_overflow(wv, digits, d as int, i + 1);
                        }
                        return Err(ParseError::InvalidFloatLiteral(w.to_owned()));
                    },
                },
                None => {
                    proof {
                        lemma_digits_overflow(wv, digits, d as int, i + 1);
                    }
                    return Err(ParseError::InvalidFloatLiteral(w.to_owned()));
                },
            }
            i += 1;
        }
        proof {
            assert(wv.subrange(0, d as int) =~= ip);
        }
        // fractional part
        let mut j: usize = d + 1;
        while j < n
            invariant
                n == wv.len(),
                w@ == wv,
                d < n,
                wv[d as int] == '.',
                d as int == dot_index(wv, 0),
                ip == wv.subrange(0, d as int),
                fp == wv.subrange(d + 1, n as int),
                digits == ip + fp,
                all_digits(ip),
                d + 1 <= j <= n,
                all_digits(wv.subrange(d + 1, j as int)),
                acc == digits_value(ip + wv.subrange(d + 1, j as int)),
                0 <= acc <= i64::MAX,
                den == pow10((j - d - 1) as nat),
                1 <= den <= i64::MAX,
            decreases n - j,
        {
            let c = w.get_char(j);
            if !char_is_ascii_digit(c) {
                proof {
                    assert(digits[ip.len() + (j - d - 1)] == wv[j as int]);
                    assert(!all_digits(digits));
                }
                return Err(ParseError::InvalidFloatLiteral(w.to_owned()));
            }
            let d_val = (c as u32 - '0' as u32) as i64;
            proof {
                let pref = ip + wv.subrange(d + 1, j as int);
                let pref2 = ip + wv.subrange(d + 1, j + 1);
                assert(pref2.drop_last() =~= pref);
                assert(pref2.last() == wv[j as int]);
                assert(all_digits(pref2));
                assert(all_digits(wv.subrange(d + 1, j + 1)));
            }
            match acc.checked_mul(10) {
                Some(t) => match t.checked_add(d_val) {
                    Some(next) => {
                        acc = next;
                    },
                    None => {
                        proof {
                            lemma_digits_overflow_frac(wv, digits, ip, d as int, j + 1);
                        }
                        return Err(ParseError::InvalidFloatLiteral(w.to_owned()));
                    },
                },
                None => {
                    proof {
                        lemma_digits_overflow_frac(wv, digits, ip, d as int, j + 1);
                    }
                    return Err(ParseError::InvalidFloatLiteral(w.to_owned()));
                },
            }
            match den.checked_mul(10) {
                Some(t) => {
                    den = t;
                },
                None => {
                    proof {
                        assert(pow10((j - d) as nat) == 10 * den);
                        lemma_pow10_overflow(fp.len() as nat, (j - d) as nat);
                    }
                    return Err(ParseError::InvalidFloatLiteral(w.to_owned()));
                },
            }
            j += 1;
        }
        proof {
            assert(wv.subrange(d + 1, n as int) =~= fp);
            if digits.len() == 0 {
                assert(false);
            }
        }
        Ok(Expression::Float(Rational { num: acc, den }))
    }

    /// Whether the current token terminates a statement.
    fn is_end_of_statement(&self) -> (r: bool)
        ensures
            r == (self.current_token@ matches TokenV::Semicolon),
    {
        matches!(&self.current_token, Token::Semicolon)
    }

    /// The shunting-yard pass: consumes the expression's tokens up to the
    /// statement terminator and returns them in postfix order, leaving the
    /// cursor on the terminator: exactly what `spec_rpn` says from the
    /// current token on.
    fn get_rpn_expression(&mut self) -> (r: Result<Vec<Token>, ParseError>)
        requires
            old(self).wf(),
            1 <= old(self).position,
        ensures
            final(self).wf(),
            1 <= final(self).position,
            final(self).tokens@ == old(self).tokens@,
            final(self).symbol_table == old(self).symbol_table,
            final(self).position >= old(self).position,
            match spec_rpn(old(self).toks(), old(self).cur(), Seq::empty(), Seq::empty()) {
                Ok((rpnv, j)) => r matches Ok(v) && tokens_v(v@) == rpnv && final(self).cur() == j,
                Err(e) => r matches Err(err) && err@ == e,
            },
    {
        let ghost ts = self.toks();
        let ghost i0 = self.cur();
        let mut operators: Vec<Token> = Vec::new();
        let mut operands: Vec<Token> = Vec::new();
        proof {
            assert(tokens_v(operators@) =~= Seq::<TokenV>::empty());
            assert(tokens_v(operands@) =~= Seq::<TokenV>::empty());
        }
        loop
            invariant
                self.wf(),
                1 <= self.position,
                self.tokens@ == old(self).tokens@,
                self.symbol_table == old(self).symbol_table,
                self.position >= old(self).position,
                ts == self.toks(),
                i0 == old(self).cur(),
                0 <= self.cur() < ts.len(),
                spec_rpn(ts, i0, Seq::empty(), Seq::empty()) == spec_rpn(
                    ts,
                    self.cur(),
                    tokens_v(operators@),
                    tokens_v(operands@),
                ),
            decreases ts.len() - self.position,
        {
            let ghost i = self.cur();
            let ghost opsv = tokens_v(operators@);
            let ghost outv = tokens_v(operands@);
            proof {
                assert(ts[i] == self.current_token@);
            }
            let is_term = self.is_end_of_statement() || matches!(&self.current_token, Token::Eof);
            if is_term {
                let ok = drain_operators(&mut operators, &mut operands);
                if !ok {
                    return Err(ParseError::MismatchedParenthesis);
                }
                return Ok(operands);
            }
            if self.position >= self.tokens.len() {
                return Err(ParseError::UnexpectedEndOfInput);
            }
            if self.current_token.is_number() {
                let t = self.current_token.clone();
                operands.push(t);
                proof {
                    assert(tokens_v(operands@) =~= outv.push(ts[i]));
                }
            } else if matches!(&self.current_token, Token::Identifier(_)) {
                let t = self.current_token.clone();
                operands.push(t);
                proof {
                    assert(tokens_v(operands@) =~= outv.push(ts[i]));
                }
            } else if matches!(&self.current_token, Token::LeftPar) {
                let t = self.current_token.clone();
                operators.push(t);
                proof {
                    assert(tokens_v(operators@) =~= opsv.push(ts[i]));
                }
            } else if matches!(&self.current_token, Token::RightPar) {
                let found = pop_until_lpar(&mut operators, &mut operands);
                if !found {
                    return Err(ParseError::MismatchedParenthesis);
                }
            } else if self.current_token.is_operator() {
                pop_while_precedes(&mut operators, &mut operands, &self.current_token);
                let t = self.current_token.clone();
                let ghost ops2 = tokens_v(operators@);
                operators.push(t);
                proof {
                    assert(tokens_v(operators@) =~= ops2.push(ts[i]));
                }
            } else {
                return Err(ParseError::InvalidExpressionToken(self.current_token.clone()));
            }
            self.advance();
        }
    }

    /// The postfix reduction: builds the expression tree from a postfix
    /// token sequence, resolving identifiers against the given symbol
    /// table: exactly what `spec_rpn_to_tree` says of the sequence.
    fn from_rpn_to_ast(&self, rpn: Vec<Token>, scope: &SymbolTable) -> (r: Result<
        Expression,
        ParseError,
    >)
        ensures
            match spec_rpn_to_tree(tokens_v(rpn@), scope@, 0, Seq::empty()) {
                Ok(ev) => r matches Ok(e) && e@ == ev,
                Err(e) => r matches Err(err) && err@ == e,
            },
    {
        let ghost rv = tokens_v(rpn@);
        let ghost st = scope@;
        let mut expressions: Vec<Expression> = Vec::new();
        proof {
            assert(expressions@.map_values(|e: Expression| e@) =~= Seq::<ExpressionV>::empty());
        }
        let mut i: usize = 0;
        while i < rpn.len()
            invariant
                rv == tokens_v(rpn@),
                st == scope@,
                0 <= i <= rv.len(),
                rpn@.len() == rv.len(),
                spec_rpn_to_tree(rv, st, 0, Seq::empty()) == spec_rpn_to_tree(
                    rv,
                    st,
                    i as int,
                    expressions@.map_values(|e: Expression| e@),
                ),
            decreases rv.len() - i,
        {
            let ghost stack0 = expressions@.map_values(|e: Expression| e@);
            proof {
                assert(rv[i as int] == rpn@[i as int]@);
            }
            let tok = &rpn[i];
            match tok {
                Token::IntNumber(v) => match self.parse_number(v.as_str()) {
                    Ok(e) => {
                        let ghost ev = e@;
                        expressions.push(e);
                        proof {
                            assert(expressions@.map_values(|e: Expression| e@) =~= stack0.push(ev));
                        }
                    },
                    Err(err) => {
                        return Err(err);
                    },
                },
                Token::FloatNumber(v) => match self.parse_number(v.as_str()) {
                    Ok(e) => {
                        let ghost ev = e@;
                        expressions.push(e);
                        proof {
                            assert(expressions@.map_values(|e: Expression| e@) =~= stack0.push(ev));
                        }
                    },
                    Err(err) => {
                        return Err(err);
                    },
                },
                Token::Identifier(ident) => match scope.get(ident.as_str()) {
                    Some(ast) => match ast {
                        Ast::Assignment(variable) => {
                            let value = variable.value.clone();
                            let ghost vv = value@;
                            expressions.push(value);
                            proof {
                                assert(expressions@.map_values(|e: Expression| e@) =~= stack0.push(
                                    vv,
                                ));
                            }
                        },
                        _ => {
                            return Err(ParseError::UndeclaredIdentifier(ident.clone()));
                        },
                    },
                    None => {
                        return Err(ParseError::UndeclaredIdentifier(ident.clone()));
                    },
                },
                _ => {
                    if tok.is_operator() {
                        if expressions.len() >= 2 {
                            let ghost pre = expressions@;
                            let rhs = expressions.pop().unwrap();
                            let lhs = expressions.pop().unwrap();
                            let node = Expression::BinaryExpr(
                                Box::new(lhs),
                                tok.clone(),
                                Box::new(rhs),
                            );
                            let ghost nv = node@;
                            expressions.push(node);
                            proof {
                                assert(stack0.last() == pre[pre.len() - 1]@);
                                assert(stack0[stack0.len() - 2] == pre[pre.len() - 2]@);
                                assert(expressions@.map_values(|e: Expression| e@)
                                    =~= stack0.drop_last().drop_last().push(nv));
                            }
                        } else {
                            return Err(ParseError::InvalidExpression);
                        }
                    } else {
                        return Err(ParseError::InvalidRpnToken(tok.clone()));
                    }
                },
            }
            i += 1;
        }
        if expressions.len() == 1 {
            let e = expressions[0].clone();
            proof {
                assert(expressions@.map_values(|e: Expression| e@)[0] == expressions@[0]@);
            }
            Ok(e)
        } else {
            proof {
                assert(expressions@.map_values(|e: Expression| e@).len() == expressions@.len());
            }
            Err(ParseError::InvalidRpnExpression)
        }
    }

    /// Parses one expression: the shunting-yard pass, then the postfix
    /// reduction against the given symbol table. The cursor ends on the
    /// statement terminator: exactly what `spec_parse_expression` says.
    fn parse_expression(&mut self, scope: &SymbolTable) -> (r: Result<Expression, ParseError>)
        requires
            old(self).wf(),
            1 <= old(self).position,
        ensures
            final(self).wf(),
            1 <= final(self).position,
            final(self).tokens@ == old(self).tokens@,
            final(self).symbol_table == old(self).symbol_table,
            final(self).position >= old(self).position,
            match spec_parse_expression(old(self).toks(), old(self).cur(), scope@) {
                Ok((ev, j)) => r matches Ok(e) && e@ == ev && final(self).cur() == j,
                Err(e) => r matches Err(err) && err@ == e,
            },
    {
        let rpn_expression = match self.get_rpn_expression() {
            Ok(v) => v,
            Err(e) => {
                return Err(e);
            },
        };
        self.from_rpn_to_ast(rpn_expression, scope)
    }

    /// The declared type the current token denotes, or an error for any
    /// other token; the cursor does not move.
    fn parse_type(&self) -> (r: Result<Type, ParseError>)
        ensures
            match spec_as_type(self.current_token@) {
                Ok(ty) => r matches Ok(t) && t == ty,
                Err(e) => r matches Err(err) && err@ == e,
            },
    {
        self.current_token.as_type()
    }

    /// The current token's identifier text, or an error for any other
    /// token; the cursor does not move.
    fn parse_identifier(&self) -> (r: Result<String, ParseError>)
        ensures
            match self.current_token@ {
                TokenV::Identifier(w) => r matches Ok(s) && s@ == w,
                t => r matches Err(err) && err@ == ParseErrorV::ExpectedIdentifier(t),
            },
    {
        match &self.current_token {
            Token::Identifier(ident) => Ok(ident.clone()),
            _ => Err(ParseError::ExpectedIdentifier(self.current_token.clone())),
        }
    }

    /// Checks that the current token closes the statement with `;`.
    fn parse_semicolon(&self) -> (r: Result<(), ParseError>)
        ensures
            match self.current_token@ {
                TokenV::Semicolon => r matches Ok(_),
                t => r matches Err(err) && err@ == ParseErrorV::ExpectedSemicolon(t),
            },
    {
        if matches!(&self.current_token, Token::Semicolon) {
            Ok(())
        } else {
            Err(ParseError::ExpectedSemicolon(self.current_token.clone()))
        }
    }

    /// Checks that the current token is the `=` of a declaration.
    fn parse_equal_sign(&self) -> (r: Result<(), ParseError>)
        ensures
            match self.current_token@ {
                TokenV::EqualSign => r matches Ok(_),
                t => r matches Err(err) && err@ == ParseErrorV::ExpectedEqualSign(t),
            },
    {
        if matches!(&self.current_token, Token::EqualSign) {
            Ok(())
        } else {
            Err(ParseError::ExpectedEqualSign(self.current_token.clone()))
        }
    }

    /// Parses one `type name = expression ;` statement against the given
    /// symbol table, leaving the cursor on the `;`: exactly what
    /// `spec_parse_assignment` says from the current token on.
    fn parse_assignment(&mut self, scope: &SymbolTable) -> (r: Result<Assignment, ParseError>)
        requires
            old(self).wf(),
            1 <= old(self).position,
        ensures
            final(self).wf(),
            1 <= final(self).position,
            final(self).tokens@ == old(self).tokens@,
            final(self).symbol_table == old(self).symbol_table,
            final(self).position >= old(self).position,
            ((r matches Ok(_)) && old(self).position < old(self).tokens@.len())
                ==> final(self).position > old(self).position,
            match spec_parse_assignment(old(self).toks(), old(self).cur(), scope@) {
                Ok((av, j)) => r matches Ok(a) && a@ == av && final(self).cur() == j,
                Err(e) => r matches Err(err) && err@ == e,
            },
    {
        let var_type = match self.parse_type() {
            Ok(t) => t,
            Err(e) => {
                return Err(e);
            },
        };
        self.advance();
        let name = match self.parse_identifier() {
            Ok(n) => n,
            Err(e) => {
                return Err(e);
            },
        };
        self.advance();
        match self.parse_equal_sign() {
            Ok(_) => {},
            Err(e) => {
                return Err(e);
            },
        }
        self.advance();
        let expression = match self.parse_expression(scope) {
            Ok(e) => e,
            Err(e) => {
                return Err(e);
            },
        };
        match self.parse_semicolon() {
            Ok(_) => {},
            Err(e) => {
                return Err(e);
            },
        }
        Ok(Assignment::new(var_type, name, expression))
    }

    /// Parses a function's parameter list, leaving the cursor on the
    /// closing `)`: exactly what `spec_parse_function_parameters` says
    /// from the current token on.
    fn parse_function_parameters(&mut self) -> (r: Result<Vec<Parameter>, ParseError>)
        requires
            old(self).wf(),
            1 <= old(self).position,
        ensures
            final(self).wf(),
            1 <= final(self).position,
            final(self).tokens@ == old(self).tokens@,
            final(self).symbol_table == old(self).symbol_table,
            final(self).position >= old(self).position,
            match spec_parse_function_parameters(old(self).toks(), old(self).cur()) {
                Ok((psv, j)) => r matches Ok(v) && v@.map_values(|p: Parameter| p@) == psv && final(self).cur() == j,
                Err(e) => r matches Err(err) && err@ == e,
            },
    {
        let ghost ts = self.toks();
        let ghost i0 = self.cur();
        if !matches!(&self.current_token, Token::LeftPar) {
            return Err(ParseError::ExpectedLeftParenthesis(self.current_token.clone()));
        }
        self.advance();
        let mut parameters: Vec<Parameter> = Vec::new();
        proof {
            assert(parameters@.map_values(|p: Parameter| p@) =~= Seq::<ParameterV>::empty());
        }
        loop
            invariant
                self.wf(),
                1 <= self.position,
                self.tokens@ == old(self).tokens@,
                self.symbol_table == old(self).symbol_table,
                self.position >= old(self).position,
                ts == self.toks(),
                i0 == old(self).cur(),
                0 <= self.cur() < ts.len(),
                spec_parse_function_parameters(ts, i0) == spec_parse_params_loop(
                    ts,
                    self.cur(),
                    parameters@.map_values(|p: Parameter| p@),
                ),
            decreases ts.len() - self.position,
        {
            let ghost accv = parameters@.map_values(|p: Parameter| p@);
            proof {
                assert(ts[self.cur()] == self.current_token@);
            }
            if matches!(&self.current_token, Token::RightPar) {
                return Ok(parameters);
            }
            if self.position >= self.tokens.len() {
                return Err(ParseError::UnexpectedEndOfInput);
            }
            let parameter_type = match self.parse_type() {
                Ok(t) => t,
                Err(e) => {
                    return Err(e);
                },
            };
            self.advance();
            let parameter_name = match self.parse_identifier() {
                Ok(n) => n,
                Err(e) => {
                    return Err(e);
                },
            };
            let ghost pv = ParameterV { parameter_type, name: parameter_name@ };
            parameters.push(Parameter::new(parameter_type, parameter_name));
            proof {
                assert(parameters@.map_values(|p: Parameter| p@) =~= accv.push(pv));
            }
            self.advance();
            if matches!(&self.current_token, Token::Comma) {
                self.advance();
            }
        }
    }

    /// Parses a function's optional return type after its parameter list:
    /// exactly what `spec_parse_function_return_type` says from the
    /// current token on.
    fn parse_function_return_type(&mut self) -> (r: Result<Type, ParseError>)
        requires
            old(self).wf(),
            1 <= old(self).position,
        ensures
            final(self).wf(),
            1 <= final(self).position,
            final(self).tokens@ == old(self).tokens@,
            final(self).symbol_table == old(self).symbol_table,
            final(self).position >= old(self).position,
            match spec_parse_function_return_type(old(self).toks(), old(self).cur()) {
                Ok((ty, j)) => r matches Ok(t) && t == ty && final(self).cur() == j,
                Err(e) => r matches Err(err) && err@ == e,
            },
    {
        self.advance();
        if matches!(&self.current_token, Token::LeftCurly) {
            return Ok(Type::Void);
        }
        if matches!(&self.current_token, Token::Colon) {
            self.advance();
            if !self.current_token.is_data_type_keyword() {
                return Err(ParseError::ExpectedReturnType(self.current_token.clone()));
            }
            let variable_type = match self.parse_type() {
                Ok(t) => t,
                Err(e) => {
                    return Err(e);
                },
            };
            self.advance();
            return Ok(variable_type);
        }
        Err(ParseError::MalformedFunctionSignature(self.current_token.clone()))
    }

    /// Parses a block, leaving the cursor on the closing `}`. Each
    /// assignment is bound in the block's symbol table before the next
    /// statement is parsed, so later statements may reference it: exactly
    /// what `spec_parse_block` says from the current token on.
    fn parse_block(&mut self) -> (r: Result<Block, ParseError>)
        requires
            old(self).wf(),
            1 <= old(self).position,
        ensures
            final(self).wf(),
            1 <= final(self).position,
            final(self).tokens@ == old(self).tokens@,
            final(self).symbol_table == old(self).symbol_table,
            final(self).position >= old(self).position,
            match spec_parse_block(old(self).toks(), old(self).cur()) {
                Ok((bv, j)) => r matches Ok(b) && b@ == bv && final(self).cur() == j,
                Err(e) => r matches Err(err) && err@ == e,
            },
    {
        let ghost ts = self.toks();
        let ghost i0 = self.cur();
        if !matches!(&self.current_token, Token::LeftCurly) {
            return Err(ParseError::ExpectedLeftCurly(self.current_token.clone()));
        }
        self.advance();
        let mut body: Vec<Ast> = Vec::new();
        let mut symbol_table = SymbolTable::new();
        proof {
            assert(asts_v(body@) =~= Seq::<AstV>::empty());
        }
        loop
            invariant
                self.wf(),
                1 <= self.position,
                self.tokens@ == old(self).tokens@,
                self.symbol_table == old(self).symbol_table,
                self.position >= old(self).position,
                ts == self.toks(),
                i0 == old(self).cur(),
                0 <= self.cur() < ts.len(),
                spec_parse_block(ts, i0) == spec_parse_block_loop(
                    ts,
                    self.cur(),
                    asts_v(body@),
                    symbol_table@,
                ),
            decreases ts.len() - self.position,
        {
            let ghost i = self.cur();
            let ghost stmts0 = asts_v(body@);
            let ghost st0 = symbol_table@;
            proof {
                assert(ts[i] == self.current_token@);
            }
            if matches!(&self.current_token, Token::RightCurly) {
                return Ok(Block::new(body, symbol_table));
            }
            if self.position >= self.tokens.len() {
                return Err(ParseError::UnexpectedEndOfInput);
            }
            if self.current_token.is_data_type_keyword() {
                let assignment = match self.parse_assignment(&symbol_table) {
                    Ok(a) => a,
                    Err(e) => {
                        return Err(e);
                    },
                };
                let ghost av = assignment@;
                let ghost bodyseq0 = body@;
                symbol_table.insert(assignment.name.clone(), Ast::Assignment(assignment.clone()));
                body.push(Ast::Assignment(assignment));
                proof {
                    assert(body@.drop_last() =~= bodyseq0);
                    assert(asts_v(body@) == stmts0.push(AstV::Assignment(av)));
                    assert(symbol_table@ == st0.insert(av.name, AstV::Assignment(av)));
                }
                self.advance();
            } else {
                return Err(ParseError::InvalidStatement(self.current_token.clone()));
            }
        }
    }

    /// Parses one function declaration from its `fn` keyword, leaving the
    /// cursor past the body's closing `}`: exactly what
    /// `spec_parse_function` says from the current token on.
    fn parse_function(&mut self) -> (r: Result<Function, ParseError>)
        requires
            old(self).wf(),
            1 <= old(self).position,
        ensures
            final(self).wf(),
            1 <= final(self).position,
            final(self).tokens@ == old(self).tokens@,
            final(self).symbol_table == old(self).symbol_table,
            final(self).position >= old(self).position,
            ((r matches Ok(_)) && old(self).position < old(self).tokens@.len())
                ==> final(self).position > old(self).position,
            match spec_parse_function(old(self).toks(), old(self).cur()) {
                Ok((fv, j)) => r matches Ok(f) && f@ == fv && final(self).cur() == j,
                Err(e) => r matches Err(err) && err@ == e,
            },
    {
        self.advance();
        let function_name = match self.parse_identifier() {
            Ok(n) => n,
            Err(e) => {
                return Err(e);
            },
        };
        self.advance();
        let parameters = match self.parse_function_parameters() {
            Ok(ps) => ps,
            Err(e) => {
                return Err(e);
            },
        };
        let return_type = match self.parse_function_return_type() {
            Ok(Type::Void) => None,
            Ok(t) => Some(t),
            Err(e) => {
                return Err(e);
            },
        };
        let body = match self.parse_block() {
            Ok(b) => b,
            Err(e) => {
                return Err(e);
            },
        };
        self.advance();
        Ok(Function::new(function_name, parameters, body, return_type))
    }

    /// Parses the whole program: top-level assignments and function
    /// declarations in source order, each bound in the top-level symbol
    /// table under its name once parsed. The result, and the table this
    /// parser holds afterwards, are exactly what `spec_generate_ast` says
    /// of the token stream.
    pub fn generate_ast(&mut self) -> (r: Result<Vec<Ast>, ParseError>)
        ensures
            final(self).wf(),
            final(self).tokens@ == old(self).tokens@,
            match spec_generate_ast(tokens_v(old(self).tokens@)) {
                Ok((astv, stv)) => r matches Ok(v) && asts_v(v@) == astv && final(self).symbol_table@ == stv,
                Err(e) => r matches Err(err) && err@ == e,
            },
    {
        let ghost ts = self.toks();
        self.position = 0;
        self.current_token = Token::Eof;
        self.advance();
        let mut ast: Vec<Ast> = Vec::new();
        let mut symbol_table = SymbolTable::new();
        proof {
            assert(asts_v(ast@) =~= Seq::<AstV>::empty());
        }
        if self.tokens.len() == 0 {
            self.symbol_table = symbol_table;
            return Ok(ast);
        }
        loop
            invariant
                self.wf(),
                1 <= self.position,
                self.tokens@ == old(self).tokens@,
                ts == self.toks(),
                0 <= self.cur() < ts.len(),
                spec_generate_ast(ts) == spec_parse_program(
                    ts,
                    self.cur(),
                    asts_v(ast@),
                    symbol_table@,
                ),
            decreases ts.len() - self.position,
        {
            let ghost i = self.cur();
            let ghost acc0 = asts_v(ast@);
            let ghost st0 = symbol_table@;
            proof {
                assert(ts[i] == self.current_token@);
            }
            if matches!(&self.current_token, Token::Eof) {
                self.symbol_table = symbol_table;
                return Ok(ast);
            }
            if self.position >= self.tokens.len() {
                return Err(ParseError::UnexpectedEndOfInput);
            }
            if matches!(&self.current_token, Token::KeywordFn) {
                let function = match self.parse_function() {
                    Ok(f) => f,
                    Err(e) => {
                        return Err(e);
                    },
                };
                let ghost fv = function@;
                let ghost astseq0 = ast@;
                symbol_table.insert(function.name.clone(), Ast::Function(function.clone()));
                ast.push(Ast::Function(function));
                proof {
                    assert(ast@.drop_last() =~= astseq0);
                    assert(asts_v(ast@) == asts_v(ast@.drop_last()).push(ast_v(ast@.last())));
                    assert(ast_v(ast@.last()) == AstV::Function(fv));
                    assert(asts_v(ast@) == acc0.push(AstV::Function(fv)));
                    assert(symbol_table@ == st0.insert(fv.name, AstV::Function(fv)));
                }
            } else if self.current_token.is_data_type_keyword() {
                let assignment = match self.parse_assignment(&symbol_table) {
                    Ok(a) => a,
                    Err(e) => {
                        return Err(e);
                    },
                };
                let ghost av = assignment@;
                let ghost astseq0 = ast@;
                symbol_table.insert(assignment.name.clone(), Ast::Assignment(assignment.clone()));
                ast.push(Ast::Assignment(assignment));
                proof {
                    assert(ast@.drop_last() =~= astseq0);
                    assert(asts_v(ast@) == acc0.push(AstV::Assignment(av)));
                    assert(symbol_table@ == st0.insert(av.name, AstV::Assignment(av)));
                }
                self.advance();
            } else {
                return Err(ParseError::InvalidAstToken(self.current_token.clone()));
            }
        }
    }
}

/// Drains the operator stack into the output at the end of an expression:
/// `true` with every operator moved (topmost first) where no open
/// parenthesis was left on the stack, `false` where one was.
fn drain_operators(operators: &mut Vec<Token>, operands: &mut Vec<Token>) -> (ok: bool)
    ensures
        ok == !ops_contain_lpar(tokens_v(old(operators)@)),
        ok ==> tokens_v(final(operands)@) == tokens_v(old(operands)@) + tokens_v(
            old(operators)@,
        ).reverse(),
{
    let ghost opsv = tokens_v(operators@);
    let ghost outv = tokens_v(operands@);
    loop
        invariant
            opsv == tokens_v(old(operators)@),
            outv == tokens_v(old(operands)@),
            ops_contain_lpar(opsv) == ops_contain_lpar(tokens_v(operators@)),
            !ops_contain_lpar(opsv) ==> outv + opsv.reverse() == tokens_v(operands@) + tokens_v(
                operators@,
            ).reverse(),
        decreases operators.len(),
    {
        if operators.len() == 0 {
            proof {
                assert(!ops_contain_lpar(tokens_v(operators@)));
                assert(tokens_v(operators@).reverse() =~= Seq::<TokenV>::empty());
                assert(tokens_v(operands@) + tokens_v(operators@).reverse() =~= tokens_v(
                    operands@,
                ));
            }
            return true;
        }
        let ghost ops1 = tokens_v(operators@);
        let ghost out1 = tokens_v(operands@);
        if matches!(&operators[operators.len() - 1], Token::LeftPar) {
            proof {
                assert(ops1[ops1.len() - 1] matches TokenV::LeftPar);
                assert(ops_contain_lpar(ops1));
            }
            return false;
        }
        let op = operators.pop().unwrap();
        let ghost opv = op@;
        operands.push(op);
        proof {
            assert(ops1[ops1.len() - 1] == opv);
            assert(tokens_v(operators@) =~= ops1.drop_last());
            assert(tokens_v(operands@) =~= out1.push(opv));
            lemma_lpar_drop(ops1);
            if !ops_contain_lpar(opsv) {
                assert(out1 + ops1.reverse() =~= out1.push(opv) + ops1.drop_last().reverse());
            }
        }
    }
}

/// Pops operators into the output until the matching open parenthesis,
/// which is discarded: `true` where one was found, `false` where the stack
/// ran out without one.
fn pop_until_lpar(operators: &mut Vec<Token>, operands: &mut Vec<Token>) -> (found: bool)
    ensures
        match spec_pop_until_lpar(tokens_v(old(operators)@), tokens_v(old(operands)@)) {
            Some(res) => found && res == (tokens_v(final(operators)@), tokens_v(final(operands)@)),
            None => !found,
        },
{
    let ghost opsv = tokens_v(operators@);
    let ghost outv = tokens_v(operands@);
    loop
        invariant
            opsv == tokens_v(old(operators)@),
            outv == tokens_v(old(operands)@),
            spec_pop_until_lpar(opsv, outv) == spec_pop_until_lpar(
                tokens_v(operators@),
                tokens_v(operands@),
            ),
        decreases operators.len(),
    {
        if operators.len() == 0 {
            return false;
        }
        let ghost ops1 = tokens_v(operators@);
        let ghost out1 = tokens_v(operands@);
        if matches!(&operators[operators.len() - 1], Token::LeftPar) {
            operators.pop();
            proof {
                assert(ops1[ops1.len() - 1] matches TokenV::LeftPar);
                assert(tokens_v(operators@) =~= ops1.drop_last());
            }
            return true;
        }
        let op = operators.pop().unwrap();
        let ghost opv = op@;
        operands.push(op);
        proof {
            assert(ops1[ops1.len() - 1] == opv);
            assert(tokens_v(operators@) =~= ops1.drop_last());
            assert(tokens_v(operands@) =~= out1.push(opv));
        }
    }
}

/// Pops operators into the output while the stack top takes precedence
/// over the incoming operator, per `spec_pop_while_precedes`.
fn pop_while_precedes(operators: &mut Vec<Token>, operands: &mut Vec<Token>, op: &Token)
    ensures
        (tokens_v(final(operators)@), tokens_v(final(operands)@)) == spec_pop_while_precedes(
            tokens_v(old(operators)@),
            tokens_v(old(operands)@),
            op@,
        ),
{
    let ghost opsv = tokens_v(operators@);
    let ghost outv = tokens_v(operands@);
    loop
        invariant
            opsv == tokens_v(old(operators)@),
            outv == tokens_v(old(operands)@),
            spec_pop_while_precedes(opsv, outv, op@) == spec_pop_while_precedes(
                tokens_v(operators@),
                tokens_v(operands@),
                op@,
            ),
        decreases operators.len(),
    {
        if operators.len() == 0 {
            return ;
        }
        let ghost ops1 = tokens_v(operators@);
        let ghost out1 = tokens_v(operands@);
        let top_not_lpar = !matches!(&operators[operators.len() - 1], Token::LeftPar);
        let should_pop = (top_not_lpar && operators[operators.len() - 1].has_higher_precedence(op))
            || (operators[operators.len() - 1].has_same_precedence(op) && op.get_associativity()
            == Associativity::Left);
        proof {
            assert(ops1[ops1.len() - 1] == operators@[operators@.len() - 1]@);
        }
        if !should_pop {
            return ;
        }
        let popped = operators.pop().unwrap();
        let ghost opv = popped@;
        operands.push(popped);
        proof {
            assert(tokens_v(operators@) =~= ops1.drop_last());
            assert(tokens_v(operands@) =~= out1.push(opv));
        }
    }
}

/// Dropping the last element keeps an open parenthesis in the stack
/// exactly when the last element was not one.
proof fn lemma_lpar_drop(ops: Seq<TokenV>)
    requires
        ops.len() > 0,
        !(ops.last() matches TokenV::LeftPar),
    ensures
        ops_contain_lpar(ops) == ops_contain_lpar(ops.drop_last()),
{
    if ops_contain_lpar(ops) {
        let k = choose|k: int| 0 <= k < ops.len() && (#[trigger] ops[k]) matches TokenV::LeftPar;
        assert(k < ops.len() - 1);
        assert(ops.drop_last()[k] matches TokenV::LeftPar);
    }
    if ops_contain_lpar(ops.drop_last()) {
        let k = choose|k: int|
            0 <= k < ops.drop_last().len() && (#[trigger] ops.drop_last()[k])
                matches TokenV::LeftPar;
        assert(ops[k] matches TokenV::LeftPar);
    }
}

/// A digit string whose prefix already exceeds `i64::MAX` cannot denote a
/// float literal.
proof fn lemma_digits_overflow(wv: Seq<char>, digits: Seq<char>, d: int, i: int)
    requires
        0 <= i <= d < wv.len(),
        digits == wv.subrange(0, d) + wv.subrange(d + 1, wv.len() as int),
        all_digits(wv.subrange(0, i)),
        digits_value(wv.subrange(0, i)) > i64::MAX,
    ensures
        !all_digits(digits) || digits_value(digits) > i64::MAX,
{
    if all_digits(digits) {
        assert forall|k: int| 0 <= k < i implies is_ascii_digit_char(#[trigger] digits[k]) by {
            assert(digits[k] == wv[k]);
        }
        lemma_digits_prefix_le(digits, i);
        assert(wv.subrange(0, i) =~= digits.subrange(0, i));
    }
}

/// A combined digit string whose prefix (integer part plus some fraction
/// digits) already exceeds `i64::MAX` cannot denote a float literal.
proof fn lemma_digits_overflow_frac(wv: Seq<char>, digits: Seq<char>, ip: Seq<char>, d: int, j: int)
    requires
        0 <= d < wv.len(),
        d + 1 <= j <= wv.len(),
        ip == wv.subrange(0, d),
        digits == ip + wv.subrange(d + 1, wv.len() as int),
        all_digits(ip + wv.subrange(d + 1, j)),
        digits_value(ip + wv.subrange(d + 1, j)) > i64::MAX,
    ensures
        !all_digits(digits) || digits_value(digits) > i64::MAX,
{
    let pref = ip + wv.subrange(d + 1, j);
    if all_digits(digits) {
        lemma_digits_prefix_le(digits, pref.len() as int);
        assert(pref =~= digits.subrange(0, pref.len() as int));
    }
}

/// Among all-digit text, every prefix's value is at most the whole value.
proof fn lemma_digits_prefix_le(w: Seq<char>, i: int)
    requires
        0 <= i <= w.len(),
        all_digits(w),
    ensures
        digits_value(w.subrange(0, i)) <= digits_value(w),
{
    lemma_digits_value_bounds(w, i);
}

/// Powers of ten grow: a smaller exponent gives no larger power.
proof fn lemma_pow10_overflow(total: nat, part: nat)
    requires
        part <= total,
        pow10(part as nat) > i64::MAX,
    ensures
        pow10(total) > i64::MAX,
    decreases total,
{
    lemma_pow10_pos(part);
    if part < total {
        lemma_pow10_overflow((total - 1) as nat, part);
        lemma_pow10_pos((total - 1) as nat);
    }
}

/// Powers of ten are positive.
proof fn lemma_pow10_pos(n: nat)
    ensures
        pow10(n) >= 1,
    decreases n,
{
    if n > 0 {
        lemma_pow10_pos((n - 1) as nat);
    }
}

} // verus!
