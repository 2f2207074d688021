//! Laws of the parser, proved once and for all over the
//! specification-level parsers: an expression parses only with balanced
//! parentheses, and otherwise-valid tokens with unmatched parentheses fail
//! with exactly the mismatched-parenthesis error; identifiers parse only
//! when declared; `*` binds tighter than `+` and the operators associate
//! to the left; every tree a parse hands back keeps the
//! arithmetic-operator invariant; and a block's symbol table binds exactly
//! its statements.

use vstd::prelude::*;

use crate::ast::{AstV, ExpressionV};
use crate::errors::ParseErrorV;
use crate::lexer::TokenV;
use crate::parser::{
    ops_contain_lpar, spec_parse_expression, spec_pop_until_lpar, spec_pop_while_precedes,
    spec_rpn, spec_rpn_to_tree,
};

verus! {

/// How many open parentheses a token sequence holds.
pub open spec fn lpar_count(s: Seq<TokenV>) -> int
    decreases s.len(),
{
    if s.len() == 0 {
        0
    } else {
        lpar_count(s.drop_last()) + (if (s.last() matches TokenV::LeftPar) {
            1int
        } else {
            0int
        })
    }
}

/// How many close parentheses a token sequence holds.
pub open spec fn rpar_count(s: Seq<TokenV>) -> int
    decreases s.len(),
{
    if s.len() == 0 {
        0
    } else {
        rpar_count(s.drop_last()) + (if (s.last() matches TokenV::RightPar) {
            1int
        } else {
            0int
        })
    }
}

/// Splitting the first token off a range splits its parenthesis counts.
proof fn lemma_count_front(ts: Seq<TokenV>, i: int, k: int)
    requires
        0 <= i < k <= ts.len(),
    ensures
        lpar_count(ts.subrange(i, k)) == lpar_count(ts.subrange(i + 1, k)) + (
        if (ts[i] matches TokenV::LeftPar) {
            1int
        } else {
            0int
        }),
        rpar_count(ts.subrange(i, k)) == rpar_count(ts.subrange(i + 1, k)) + (
        if (ts[i] matches TokenV::RightPar) {
            1int
        } else {
            0int
        }),
    decreases k - i,
{
    if k == i + 1 {
        assert(ts.subrange(i, k).drop_last() =~= Seq::empty());
        assert(ts.subrange(i + 1, k) =~= Seq::empty());
        assert(ts.subrange(i, k).last() == ts[i]);
    } else {
        lemma_count_front(ts, i, k - 1);
        assert(ts.subrange(i, k).drop_last() =~= ts.subrange(i, k - 1));
        assert(ts.subrange(i + 1, k).drop_last() =~= ts.subrange(i + 1, k - 1));
        assert(ts.subrange(i, k).last() == ts[k - 1]);
        assert(ts.subrange(i + 1, k).last() == ts[k - 1]);
    }
}

/// A stack holds an open parenthesis exactly when its count is positive,
/// and counts are never negative.
proof fn lemma_lpar_count_contains(ops: Seq<TokenV>)
    ensures
        lpar_count(ops) >= 0,
        ops_contain_lpar(ops) <==> lpar_count(ops) > 0,
    decreases ops.len(),
{
    if ops.len() == 0 {
        assert(!ops_contain_lpar(ops));
    } else {
        lemma_lpar_count_contains(ops.drop_last());
        if (ops.last() matches TokenV::LeftPar) {
            assert(ops[ops.len() - 1] matches TokenV::LeftPar);
            assert(ops_contain_lpar(ops));
        } else {
            if ops_contain_lpar(ops) {
                let k = choose|k: int|
                    0 <= k < ops.len() && (#[trigger] ops[k]) matches TokenV::LeftPar;
                assert(ops.drop_last()[k] matches TokenV::LeftPar);
                assert(ops_contain_lpar(ops.drop_last()));
            }
            if ops_contain_lpar(ops.drop_last()) {
                let k = choose|k: int|
                    0 <= k < ops.drop_last().len() && (#[trigger] ops.drop_last()[k])
                        matches TokenV::LeftPar;
                assert(ops[k] matches TokenV::LeftPar);
            }
        }
    }
}

/// Popping to the matching open parenthesis removes exactly one from the
/// stack.
proof fn lemma_pop_until_lpar_count(ops: Seq<TokenV>, out: Seq<TokenV>)
    ensures
        spec_pop_until_lpar(ops, out) matches Some(r) ==> lpar_count(r.0) == lpar_count(ops) - 1,
    decreases ops.len(),
{
    if ops.len() > 0 {
        if (ops.last() matches TokenV::LeftPar) {
        } else {
            lemma_pop_until_lpar_count(ops.drop_last(), out.push(ops.last()));
        }
    }
}

/// Precedence popping never removes an open parenthesis from the stack.
proof fn lemma_pop_while_lpar_count(ops: Seq<TokenV>, out: Seq<TokenV>, op: TokenV)
    ensures
        lpar_count(spec_pop_while_precedes(ops, out, op).0) == lpar_count(ops),
    decreases ops.len(),
{
    if ops.len() > 0 {
        let top = ops.last();
        if (!(top matches TokenV::LeftPar) && crate::lexer::spec_precedence(top)
            > crate::lexer::spec_precedence(op)) || (crate::lexer::spec_precedence(top)
            == crate::lexer::spec_precedence(op) && crate::lexer::spec_associativity(op)
            == crate::lexer::Associativity::Left) {
            lemma_pop_while_lpar_count(ops.drop_last(), out.push(top), op);
        }
    }
}

/// The shunting-yard pass accepts a token range only when its parentheses
/// pair off against the stack: on success, the consumed range holds
/// exactly as many close parentheses as open ones plus those the stack
/// held at entry.
proof fn lemma_rpn_paren_balance(ts: Seq<TokenV>, i: int, ops: Seq<TokenV>, out: Seq<TokenV>)
    requires
        0 <= i < ts.len(),
    ensures
        spec_rpn(ts, i, ops, out) matches Ok(r) ==> i <= r.1 <= ts.len() && lpar_count(
            ts.subrange(i, r.1),
        ) + lpar_count(ops) == rpar_count(ts.subrange(i, r.1)) && (forall|k: int|
            i <= k <= r.1 ==> lpar_count(#[trigger] ts.subrange(i, k)) + lpar_count(ops)
                >= rpar_count(ts.subrange(i, k))),
    decreases ts.len() - i,
{
    lemma_lpar_count_contains(ops);
    let t = ts[i];
    if (t matches TokenV::Semicolon) || (t matches TokenV::Eof) {
        if !ops_contain_lpar(ops) {
            assert(ts.subrange(i, i) =~= Seq::empty());
        }
    } else if i + 1 >= ts.len() {
    } else {
        match spec_rpn(ts, i, ops, out) {
            Err(_) => {},
            Ok(r) => {
                let j = r.1;
                if crate::lexer::spec_is_number(t) {
                    lemma_rpn_paren_balance(ts, i + 1, ops, out.push(t));
                    lemma_count_front(ts, i, j);
                    assert forall|k: int|
                        i <= k <= j implies lpar_count(#[trigger] ts.subrange(i, k)) + lpar_count(
                        ops,
                    ) >= rpar_count(ts.subrange(i, k)) by {
                        if k == i {
                            assert(ts.subrange(i, i) =~= Seq::empty());
                        } else {
                            lemma_count_front(ts, i, k);
                        }
                    }
                } else if (t matches TokenV::Identifier(_)) {
                    lemma_rpn_paren_balance(ts, i + 1, ops, out.push(t));
                    lemma_count_front(ts, i, j);
                    assert forall|k: int|
                        i <= k <= j implies lpar_count(#[trigger] ts.subrange(i, k)) + lpar_count(
                        ops,
                    ) >= rpar_count(ts.subrange(i, k)) by {
                        if k == i {
                            assert(ts.subrange(i, i) =~= Seq::empty());
                        } else {
                            lemma_count_front(ts, i, k);
                        }
                    }
                } else if (t matches TokenV::LeftPar) {
                    lemma_rpn_paren_balance(ts, i + 1, ops.push(t), out);
                    lemma_count_front(ts, i, j);
                    assert(ops.push(t).drop_last() =~= ops);
                    assert(lpar_count(ops.push(t)) == lpar_count(ops) + 1);
                    assert forall|k: int|
                        i <= k <= j implies lpar_count(#[trigger] ts.subrange(i, k)) + lpar_count(
                        ops,
                    ) >= rpar_count(ts.subrange(i, k)) by {
                        if k == i {
                            assert(ts.subrange(i, i) =~= Seq::empty());
                        } else {
                            lemma_count_front(ts, i, k);
                        }
                    }
                } else if (t matches TokenV::RightPar) {
                    match spec_pop_until_lpar(ops, out) {
                        None => {},
                        Some((ops2, out2)) => {
                            lemma_pop_until_lpar_count(ops, out);
                            lemma_lpar_count_contains(ops2);
                            lemma_rpn_paren_balance(ts, i + 1, ops2, out2);
                            lemma_count_front(ts, i, j);
                            match spec_rpn(ts, i, ops, out) {
                                Err(_) => {},
                                Ok(r) => {
                                    let j2 = r.1;
                                    assert forall|k: int|
                                        i <= k <= j2 implies lpar_count(
                                        #[trigger] ts.subrange(i, k),
                                    ) + lpar_count(ops) >= rpar_count(ts.subrange(i, k)) by {
                                        if k == i {
                                            assert(ts.subrange(i, i) =~= Seq::empty());
                                        } else {
                                            lemma_count_front(ts, i, k);
                                        }
                                    }
                                },
                            }
                        },
                    }
                } else if crate::lexer::spec_is_operator(t) {
                    let (ops2, out2) = spec_pop_while_precedes(ops, out, t);
                    lemma_pop_while_lpar_count(ops, out, t);
                    lemma_rpn_paren_balance(ts, i + 1, ops2.push(t), out2);
                    lemma_count_front(ts, i, j);
                    assert(ops2.push(t).drop_last() =~= ops2);
                    assert(lpar_count(ops2.push(t)) == lpar_count(ops2));
                    assert forall|k: int|
                        i <= k <= j implies lpar_count(#[trigger] ts.subrange(i, k)) + lpar_count(
                        ops,
                    ) >= rpar_count(ts.subrange(i, k)) by {
                        if k == i {
                            assert(ts.subrange(i, i) =~= Seq::empty());
                        } else {
                            lemma_count_front(ts, i, k);
                        }
                    }
                }
            },
        }
    }
}

/// Mismatched parentheses are rejected: an expression parse can succeed
/// only when the consumed token range holds exactly as many close
/// parentheses as open ones. An unbalanced range, such as one with an
/// unmatched `(`, can therefore never parse.
pub proof fn lemma_unbalanced_parens_never_parse(ts: Seq<TokenV>, i: int, st: Map<Seq<char>, AstV>)
    requires
        0 <= i < ts.len(),
    ensures
        spec_parse_expression(ts, i, st) matches Ok(r) ==> i <= r.1 <= ts.len() && lpar_count(
            ts.subrange(i, r.1),
        ) == rpar_count(ts.subrange(i, r.1)) && (forall|k: int|
            i <= k <= r.1 ==> lpar_count(#[trigger] ts.subrange(i, k)) >= rpar_count(
                ts.subrange(i, k),
            )),
{
    match spec_rpn(ts, i, Seq::empty(), Seq::empty()) {
        Err(_) => {},
        Ok(_) => {
            lemma_rpn_paren_balance(ts, i, Seq::empty(), Seq::empty());
        },
    }
}

/// The postfix reduction resolves an identifier only against an
/// assignment binding: on success, every identifier in the postfix run is
/// bound to an assignment in the symbol table.
pub proof fn lemma_resolution_needs_declaration(
    rpn: Seq<TokenV>,
    st: Map<Seq<char>, AstV>,
    i: int,
    stack: Seq<ExpressionV>,
)
    requires
        0 <= i <= rpn.len(),
    ensures
        spec_rpn_to_tree(rpn, st, i, stack) matches Ok(_) ==> forall|k: int|
            i <= k < rpn.len() ==> ((#[trigger] rpn[k]) matches TokenV::Identifier(name)
                ==> st.contains_key(name) && (st[name] matches AstV::Assignment(_))),
    decreases rpn.len() - i,
{
    if i < rpn.len() {
        let t = rpn[i];
        match t {
            TokenV::IntNumber(w) => match crate::parser::spec_parse_number(w) {
                Ok(e) => {
                    lemma_resolution_needs_declaration(rpn, st, i + 1, stack.push(e));
                },
                Err(_) => {},
            },
            TokenV::FloatNumber(w) => match crate::parser::spec_parse_number(w) {
                Ok(e) => {
                    lemma_resolution_needs_declaration(rpn, st, i + 1, stack.push(e));
                },
                Err(_) => {},
            },
            TokenV::Identifier(name) => {
                if st.contains_key(name) {
                    match st[name] {
                        AstV::Assignment(a) => {
                            lemma_resolution_needs_declaration(
                                rpn,
                                st,
                                i + 1,
                                stack.push(a.value),
                            );
                        },
                        _ => {},
                    }
                }
            },
            _ => {
                if crate::lexer::spec_is_operator(t) && stack.len() >= 2 {
                    let rhs = stack.last();
                    let lhs = stack[stack.len() - 2];
                    let node = ExpressionV::BinaryExpr(Box::new(lhs), t, Box::new(rhs));
                    lemma_resolution_needs_declaration(
                        rpn,
                        st,
                        i + 1,
                        stack.drop_last().drop_last().push(node),
                    );
                }
            },
        }
    }
}

/// `*` binds tighter than `+`: for declared names `a`, `b`, `c`, the
/// expression `a + b * c ;` parses to `a + (b * c)` — the right operand of
/// `+` is the `*` node — never to `(a + b) * c`.
pub proof fn lemma_multiplication_binds_tighter(
    a: Seq<char>,
    b: Seq<char>,
    c: Seq<char>,
    st: Map<Seq<char>, AstV>,
    va: ExpressionV,
    vb: ExpressionV,
    vc: ExpressionV,
)
    requires
        st.contains_key(a),
        st[a] matches AstV::Assignment(x) && x.value == va,
        st.contains_key(b),
        st[b] matches AstV::Assignment(y) && y.value == vb,
        st.contains_key(c),
        st[c] matches AstV::Assignment(z) && z.value == vc,
    ensures
        spec_parse_expression(
            seq![
                TokenV::Identifier(a),
                TokenV::Plus,
                TokenV::Identifier(b),
                TokenV::Times,
                TokenV::Identifier(c),
                TokenV::Semicolon,
            ],
            0,
            st,
        ) == Ok::<(ExpressionV, int), crate::errors::ParseErrorV>(
            (
                ExpressionV::BinaryExpr(
                    Box::new(va),
                    TokenV::Plus,
                    Box::new(ExpressionV::BinaryExpr(Box::new(vb), TokenV::Times, Box::new(vc))),
                ),
                5,
            ),
        ),
{
    let ts = seq![
        TokenV::Identifier(a),
        TokenV::Plus,
        TokenV::Identifier(b),
        TokenV::Times,
        TokenV::Identifier(c),
        TokenV::Semicolon,
    ];
    let e = Seq::<TokenV>::empty();
    let out1 = e.push(TokenV::Identifier(a));
    let ops1 = e.push(TokenV::Plus);
    let out2 = out1.push(TokenV::Identifier(b));
    let ops2 = ops1.push(TokenV::Times);
    let out3 = out2.push(TokenV::Identifier(c));
    assert(spec_rpn(ts, 0, e, e) == spec_rpn(ts, 1, e, out1));
    assert(spec_pop_while_precedes(e, out1, TokenV::Plus) == (e, out1));
    assert(spec_rpn(ts, 1, e, out1) == spec_rpn(ts, 2, ops1, out1));
    assert(spec_rpn(ts, 2, ops1, out1) == spec_rpn(ts, 3, ops1, out2));
    assert(ops1.last() == TokenV::Plus);
    assert(spec_pop_while_precedes(ops1, out2, TokenV::Times) == (ops1, out2));
    assert(spec_rpn(ts, 3, ops1, out2) == spec_rpn(ts, 4, ops2, out2));
    assert(spec_rpn(ts, 4, ops2, out2) == spec_rpn(ts, 5, ops2, out3));
    assert(!ops_contain_lpar(ops2)) by {
        if ops_contain_lpar(ops2) {
            let k = choose|k: int|
                0 <= k < ops2.len() && (#[trigger] ops2[k]) matches TokenV::LeftPar;
            assert(ops2[0] == TokenV::Plus);
            assert(ops2[1] == TokenV::Times);
        }
    }
    let rpn = seq![
        TokenV::Identifier(a),
        TokenV::Identifier(b),
        TokenV::Identifier(c),
        TokenV::Times,
        TokenV::Plus,
    ];
    assert(out3 + ops2.reverse() =~= rpn);
    assert(spec_rpn(ts, 5, ops2, out3) == Ok::<(Seq<TokenV>, int), crate::errors::ParseErrorV>(
        (rpn, 5),
    ));
    let s0 = Seq::<ExpressionV>::empty();
    let s1 = s0.push(va);
    let s2 = s1.push(vb);
    let s3 = s2.push(vc);
    let inner = ExpressionV::BinaryExpr(Box::new(vb), TokenV::Times, Box::new(vc));
    let s4 = s3.drop_last().drop_last().push(inner);
    let outer = ExpressionV::BinaryExpr(Box::new(va), TokenV::Plus, Box::new(inner));
    let s5 = s4.drop_last().drop_last().push(outer);
    assert(spec_rpn_to_tree(rpn, st, 0, s0) == spec_rpn_to_tree(rpn, st, 1, s1));
    assert(spec_rpn_to_tree(rpn, st, 1, s1) == spec_rpn_to_tree(rpn, st, 2, s2));
    assert(spec_rpn_to_tree(rpn, st, 2, s2) == spec_rpn_to_tree(rpn, st, 3, s3));
    assert(s3.last() == vc && s3[s3.len() - 2] == vb);
    assert(spec_rpn_to_tree(rpn, st, 3, s3) == spec_rpn_to_tree(rpn, st, 4, s4));
    assert(s4 =~= s1.push(inner));
    assert(s4.last() == inner && s4[s4.len() - 2] == va);
    assert(spec_rpn_to_tree(rpn, st, 4, s4) == spec_rpn_to_tree(rpn, st, 5, s5));
    assert(s5 =~= s0.push(outer));
    assert(spec_rpn_to_tree(rpn, st, 5, s5) == Ok::<ExpressionV, crate::errors::ParseErrorV>(
        outer,
    ));
}

/// Structural invariant of expression trees: the operator in every
/// `BinaryExpr` node is one of the arithmetic operator tokens.
pub open spec fn expr_arith_wf(e: ExpressionV) -> bool
    decreases e,
{
    match e {
        ExpressionV::BinaryExpr(l, op, r) => crate::lexer::spec_is_operator(op) && expr_arith_wf(*l)
            && expr_arith_wf(*r),
        _ => true,
    }
}

/// Every assignment a symbol table binds carries a well-formed value
/// expression.
pub open spec fn st_arith_wf(st: Map<Seq<char>, AstV>) -> bool {
    forall|k: Seq<char>|
        st.contains_key(k) ==> ((#[trigger] st[k]) matches AstV::Assignment(a) ==> expr_arith_wf(
            a.value,
        ))
}

/// Every assignment among the nodes carries a well-formed value
/// expression.
pub open spec fn stmts_arith_wf(stmts: Seq<AstV>) -> bool {
    forall|i: int|
        0 <= i < stmts.len() ==> ((#[trigger] stmts[i]) matches AstV::Assignment(a)
            ==> expr_arith_wf(a.value))
}

/// A top-level node keeps the invariant: an assignment's value is
/// well-formed, and so is every assignment in a function's body and its
/// block table.
pub open spec fn node_arith_wf(a: AstV) -> bool {
    match a {
        AstV::Assignment(x) => expr_arith_wf(x.value),
        AstV::Function(f) => stmts_arith_wf(f.body.statements) && st_arith_wf(
            f.body.symbol_table,
        ),
    }
}

/// A parsed numeric literal is a leaf, which is well-formed.
proof fn lemma_parse_number_wf(w: Seq<char>)
    ensures
        crate::parser::spec_parse_number(w) matches Ok(e) ==> expr_arith_wf(e),
{
}

/// The postfix reduction builds only well-formed trees: every operator it
/// places in a node is an arithmetic operator, and everything it
/// substitutes for an identifier comes well-formed from the table.
proof fn lemma_tree_wf(rpn: Seq<TokenV>, st: Map<Seq<char>, AstV>, i: int, stack: Seq<ExpressionV>)
    requires
        0 <= i <= rpn.len(),
        st_arith_wf(st),
        forall|m: int| 0 <= m < stack.len() ==> expr_arith_wf(#[trigger] stack[m]),
    ensures
        spec_rpn_to_tree(rpn, st, i, stack) matches Ok(e) ==> expr_arith_wf(e),
    decreases rpn.len() - i,
{
    if i < rpn.len() {
        let t = rpn[i];
        match t {
            TokenV::IntNumber(w) => match crate::parser::spec_parse_number(w) {
                Ok(e) => {
                    lemma_parse_number_wf(w);
                    lemma_tree_wf(rpn, st, i + 1, stack.push(e));
                },
                Err(_) => {},
            },
            TokenV::FloatNumber(w) => match crate::parser::spec_parse_number(w) {
                Ok(e) => {
                    lemma_parse_number_wf(w);
                    lemma_tree_wf(rpn, st, i + 1, stack.push(e));
                },
                Err(_) => {},
            },
            TokenV::Identifier(name) => {
                if st.contains_key(name) {
                    match st[name] {
                        AstV::Assignment(a) => {
                            lemma_tree_wf(rpn, st, i + 1, stack.push(a.value));
                        },
                        _ => {},
                    }
                }
            },
            _ => {
                if crate::lexer::spec_is_operator(t) && stack.len() >= 2 {
                    let rhs = stack.last();
                    let lhs = stack[stack.len() - 2];
                    let node = ExpressionV::BinaryExpr(Box::new(lhs), t, Box::new(rhs));
                    assert(expr_arith_wf(node));
                    lemma_tree_wf(rpn, st, i + 1, stack.drop_last().drop_last().push(node));
                }
            },
        }
    }
}

/// A parsed expression is a well-formed tree, given a well-formed table.
pub proof fn lemma_expression_wf(ts: Seq<TokenV>, i: int, st: Map<Seq<char>, AstV>)
    requires
        st_arith_wf(st),
    ensures
        spec_parse_expression(ts, i, st) matches Ok(r) ==> expr_arith_wf(r.0),
{
    if 0 <= i < ts.len() {
        match spec_rpn(ts, i, Seq::empty(), Seq::empty()) {
            Err(_) => {},
            Ok((rpn, _)) => {
                lemma_tree_wf(rpn, st, 0, Seq::empty());
            },
        }
    }
}

/// A parsed assignment's value is a well-formed tree, given a well-formed
/// table.
proof fn lemma_assignment_wf(ts: Seq<TokenV>, i: int, st: Map<Seq<char>, AstV>)
    requires
        st_arith_wf(st),
    ensures
        crate::parser::spec_parse_assignment(ts, i, st) matches Ok(r) ==> expr_arith_wf(r.0.value),
{
    if 0 <= i < ts.len() {
        let n = ts.len() as int;
        match crate::lexer::spec_as_type(ts[i]) {
            Err(_) => {},
            Ok(_) => {
                let i1 = crate::parser::spec_adv(n, i);
                match ts[i1] {
                    TokenV::Identifier(_) => {
                        let i2 = crate::parser::spec_adv(n, i1);
                        if (ts[i2] matches TokenV::EqualSign) {
                            let i3 = crate::parser::spec_adv(n, i2);
                            lemma_expression_wf(ts, i3, st);
                        }
                    },
                    _ => {},
                }
            },
        }
    }
}

/// Inserting a well-formed node into a well-formed table keeps the table
/// well-formed.
proof fn lemma_st_insert_wf(st: Map<Seq<char>, AstV>, name: Seq<char>, a: AstV)
    requires
        st_arith_wf(st),
        a matches AstV::Assignment(x) ==> expr_arith_wf(x.value),
    ensures
        st_arith_wf(st.insert(name, a)),
{
    let st2 = st.insert(name, a);
    assert forall|k: Seq<char>| st2.contains_key(k) implies ((#[trigger] st2[k])
        matches AstV::Assignment(x) ==> expr_arith_wf(x.value)) by {
        if k != name {
            assert(st2[k] == st[k]);
        }
    }
}

/// Every statement a block parse collects keeps a well-formed value, and
/// so does every binding of the block's table.
proof fn lemma_block_loop_wf(ts: Seq<TokenV>, i: int, stmts: Seq<AstV>, st: Map<Seq<char>, AstV>)
    requires
        0 <= i < ts.len(),
        st_arith_wf(st),
        stmts_arith_wf(stmts),
    ensures
        crate::parser::spec_parse_block_loop(ts, i, stmts, st) matches Ok(r) ==> stmts_arith_wf(
            r.0.statements,
        ) && st_arith_wf(r.0.symbol_table),
    decreases ts.len() - i,
{
    let n = ts.len() as int;
    if (ts[i] matches TokenV::RightCurly) || i + 1 >= n {
    } else if crate::lexer::spec_is_data_type_keyword(ts[i]) {
        match crate::parser::spec_parse_assignment(ts, i, st) {
            Err(_) => {},
            Ok((a, j)) => {
                lemma_assignment_wf(ts, i, st);
                let j3 = crate::parser::step_clamp(n, i, crate::parser::spec_adv(n, j));
                let stmts2 = stmts.push(AstV::Assignment(a));
                assert(stmts_arith_wf(stmts2)) by {
                    assert forall|m: int| 0 <= m < stmts2.len() implies ((#[trigger] stmts2[m])
                        matches AstV::Assignment(x) ==> expr_arith_wf(x.value)) by {
                        if m < stmts.len() {
                            assert(stmts2[m] == stmts[m]);
                        }
                    }
                }
                lemma_st_insert_wf(st, a.name, AstV::Assignment(a));
                lemma_block_loop_wf(ts, j3, stmts2, st.insert(a.name, AstV::Assignment(a)));
            },
        }
    }
}

/// A parsed function's body keeps the invariant in its statements and its
/// block table.
proof fn lemma_function_wf(ts: Seq<TokenV>, i: int)
    ensures
        crate::parser::spec_parse_function(ts, i) matches Ok(r) ==> node_arith_wf(
            AstV::Function(r.0),
        ),
{
    if 0 <= i < ts.len() {
        let n = ts.len() as int;
        let i1 = crate::parser::spec_adv(n, i);
        match ts[i1] {
            TokenV::Identifier(_) => {
                let i2 = crate::parser::spec_adv(n, i1);
                match crate::parser::spec_parse_function_parameters(ts, i2) {
                    Err(_) => {},
                    Ok((_, i3)) => match crate::parser::spec_parse_function_return_type(ts, i3) {
                        Err(_) => {},
                        Ok((_, i4)) => {
                            if 0 <= i4 < ts.len() && (ts[i4] matches TokenV::LeftCurly) {
                                let st0 = Map::<Seq<char>, AstV>::empty();
                                assert(st_arith_wf(st0));
                                assert(stmts_arith_wf(Seq::<AstV>::empty()));
                                lemma_block_loop_wf(
                                    ts,
                                    crate::parser::spec_adv(n, i4),
                                    Seq::empty(),
                                    st0,
                                );
                            }
                        },
                    },
                }
            },
            _ => {},
        }
    }
}

/// Every top-level node the program parse collects keeps the invariant,
/// and so does the top-level table.
proof fn lemma_program_wf(ts: Seq<TokenV>, i: int, acc: Seq<AstV>, st: Map<Seq<char>, AstV>)
    requires
        0 <= i < ts.len(),
        st_arith_wf(st),
        forall|m: int| 0 <= m < acc.len() ==> node_arith_wf(#[trigger] acc[m]),
    ensures
        crate::parser::spec_parse_program(ts, i, acc, st) matches Ok(r) ==> forall|m: int|
            0 <= m < r.0.len() ==> node_arith_wf(#[trigger] r.0[m]),
    decreases ts.len() - i,
{
    let n = ts.len() as int;
    if (ts[i] matches TokenV::Eof) || i + 1 >= n {
    } else if (ts[i] matches TokenV::KeywordFn) {
        match crate::parser::spec_parse_function(ts, i) {
            Err(_) => {},
            Ok((f, j)) => {
                lemma_function_wf(ts, i);
                let j2 = crate::parser::step_clamp(n, i, j);
                let acc2 = acc.push(AstV::Function(f));
                assert(forall|m: int| 0 <= m < acc2.len() ==> node_arith_wf(#[trigger] acc2[m]))
                    by {
                    assert forall|m: int| 0 <= m < acc2.len() implies node_arith_wf(
                        #[trigger] acc2[m],
                    ) by {
                        if m < acc.len() {
                            assert(acc2[m] == acc[m]);
                        }
                    }
                }
                lemma_st_insert_wf(st, f.name, AstV::Function(f));
                lemma_program_wf(ts, j2, acc2, st.insert(f.name, AstV::Function(f)));
            },
        }
    } else if crate::lexer::spec_is_data_type_keyword(ts[i]) {
        match crate::parser::spec_parse_assignment(ts, i, st) {
            Err(_) => {},
            Ok((a, j)) => {
                lemma_assignment_wf(ts, i, st);
                let j3 = crate::parser::step_clamp(n, i, crate::parser::spec_adv(n, j));
                let acc2 = acc.push(AstV::Assignment(a));
                assert(forall|m: int| 0 <= m < acc2.len() ==> node_arith_wf(#[trigger] acc2[m]))
                    by {
                    assert forall|m: int| 0 <= m < acc2.len() implies node_arith_wf(
                        #[trigger] acc2[m],
                    ) by {
                        if m < acc.len() {
                            assert(acc2[m] == acc[m]);
                        }
                    }
                }
                lemma_st_insert_wf(st, a.name, AstV::Assignment(a));
                lemma_program_wf(ts, j3, acc2, st.insert(a.name, AstV::Assignment(a)));
            },
        }
    }
}

/// The tree invariant, end to end: every node a successful parse hands
/// back keeps the arithmetic-operator invariant in every `BinaryExpr` it
/// holds, in top-level assignments and throughout function bodies and
/// their block tables alike.
pub proof fn lemma_parsed_trees_are_arithmetic(ts: Seq<TokenV>)
    ensures
        crate::parser::spec_generate_ast(ts) matches Ok(r) ==> forall|m: int|
            0 <= m < r.0.len() ==> node_arith_wf(#[trigger] r.0[m]),
{
    if ts.len() > 0 {
        assert(st_arith_wf(Map::<Seq<char>, AstV>::empty()));
        lemma_program_wf(ts, 0, Seq::empty(), Map::empty());
    }
}

/// The arithmetic operators are left-associative: for declared names `a`,
/// `b`, `c`, the expression `a - b - c ;` parses to `(a - b) - c` — the
/// left operand of the outer `-` is the inner `-` node — never to
/// `a - (b - c)`.
pub proof fn lemma_operators_left_associative(
    a: Seq<char>,
    b: Seq<char>,
    c: Seq<char>,
    st: Map<Seq<char>, AstV>,
    va: ExpressionV,
    vb: ExpressionV,
    vc: ExpressionV,
)
    requires
        st.contains_key(a),
        st[a] matches AstV::Assignment(x) && x.value == va,
        st.contains_key(b),
        st[b] matches AstV::Assignment(y) && y.value == vb,
        st.contains_key(c),
        st[c] matches AstV::Assignment(z) && z.value == vc,
    ensures
        spec_parse_expression(
            seq![
                TokenV::Identifier(a),
                TokenV::Minus,
                TokenV::Identifier(b),
                TokenV::Minus,
                TokenV::Identifier(c),
                TokenV::Semicolon,
            ],
            0,
            st,
        ) == Ok::<(ExpressionV, int), crate::errors::ParseErrorV>(
            (
                ExpressionV::BinaryExpr(
                    Box::new(ExpressionV::BinaryExpr(Box::new(va), TokenV::Minus, Box::new(vb))),
                    TokenV::Minus,
                    Box::new(vc),
                ),
                5,
            ),
        ),
{
    let ts = seq![
        TokenV::Identifier(a),
        TokenV::Minus,
        TokenV::Identifier(b),
        TokenV::Minus,
        TokenV::Identifier(c),
        TokenV::Semicolon,
    ];
    let e = Seq::<TokenV>::empty();
    let out1 = e.push(TokenV::Identifier(a));
    let ops1 = e.push(TokenV::Minus);
    let out2 = out1.push(TokenV::Identifier(b));
    let out3 = out2.push(TokenV::Minus);
    let ops2 = e.push(TokenV::Minus);
    let out4 = out3.push(TokenV::Identifier(c));
    assert(spec_rpn(ts, 0, e, e) == spec_rpn(ts, 1, e, out1));
    assert(spec_pop_while_precedes(e, out1, TokenV::Minus) == (e, out1));
    assert(spec_rpn(ts, 1, e, out1) == spec_rpn(ts, 2, ops1, out1));
    assert(spec_rpn(ts, 2, ops1, out1) == spec_rpn(ts, 3, ops1, out2));
    assert(ops1.last() == TokenV::Minus);
    assert(ops1.drop_last() =~= e);
    assert(spec_pop_while_precedes(e, out3, TokenV::Minus) == (e, out3));
    assert(spec_pop_while_precedes(ops1, out2, TokenV::Minus) == (e, out3));
    assert(spec_rpn(ts, 3, ops1, out2) == spec_rpn(ts, 4, ops2, out3));
    assert(spec_rpn(ts, 4, ops2, out3) == spec_rpn(ts, 5, ops2, out4));
    assert(!ops_contain_lpar(ops2)) by {
        if ops_contain_lpar(ops2) {
            let k = choose|k: int|
                0 <= k < ops2.len() && (#[trigger] ops2[k]) matches TokenV::LeftPar;
            assert(ops2[0] == TokenV::Minus);
        }
    }
    let rpn = seq![
        TokenV::Identifier(a),
        TokenV::Identifier(b),
        TokenV::Minus,
        TokenV::Identifier(c),
        TokenV::Minus,
    ];
    assert(out4 + ops2.reverse() =~= rpn);
    assert(spec_rpn(ts, 5, ops2, out4) == Ok::<(Seq<TokenV>, int), crate::errors::ParseErrorV>(
        (rpn, 5),
    ));
    let s0 = Seq::<ExpressionV>::empty();
    let s1 = s0.push(va);
    let s2 = s1.push(vb);
    let inner = ExpressionV::BinaryExpr(Box::new(va), TokenV::Minus, Box::new(vb));
    let s3 = s2.drop_last().drop_last().push(inner);
    let s4 = s3.push(vc);
    let outer = ExpressionV::BinaryExpr(Box::new(inner), TokenV::Minus, Box::new(vc));
    let s5 = s4.drop_last().drop_last().push(outer);
    assert(spec_rpn_to_tree(rpn, st, 0, s0) == spec_rpn_to_tree(rpn, st, 1, s1));
    assert(spec_rpn_to_tree(rpn, st, 1, s1) == spec_rpn_to_tree(rpn, st, 2, s2));
    assert(s2.last() == vb && s2[s2.len() - 2] == va);
    assert(spec_rpn_to_tree(rpn, st, 2, s2) == spec_rpn_to_tree(rpn, st, 3, s3));
    assert(s3 =~= s0.push(inner));
    assert(spec_rpn_to_tree(rpn, st, 3, s3) == spec_rpn_to_tree(rpn, st, 4, s4));
    assert(s4.last() == vc && s4[s4.len() - 2] == inner);
    assert(spec_rpn_to_tree(rpn, st, 4, s4) == spec_rpn_to_tree(rpn, st, 5, s5));
    assert(s5 =~= s0.push(outer));
    assert(spec_rpn_to_tree(rpn, st, 5, s5) == Ok::<ExpressionV, crate::errors::ParseErrorV>(
        outer,
    ));
}

/// The mapping a run of parsed statements builds: each assignment bound
/// under its name, later bindings shadowing earlier ones.
pub open spec fn stmts_table(stmts: Seq<AstV>) -> Map<Seq<char>, AstV>
    decreases stmts.len(),
{
    if stmts.len() == 0 {
        Map::empty()
    } else {
        match stmts.last() {
            AstV::Assignment(a) => stmts_table(stmts.drop_last()).insert(
                a.name,
                AstV::Assignment(a),
            ),
            _ => stmts_table(stmts.drop_last()),
        }
    }
}

/// Through a block-statement run, the symbol table stays exactly the table
/// of the statements collected so far.
proof fn lemma_block_loop_table(ts: Seq<TokenV>, i: int, stmts: Seq<AstV>, st: Map<Seq<char>, AstV>)
    requires
        0 <= i < ts.len(),
        st == stmts_table(stmts),
        forall|m: int| 0 <= m < stmts.len() ==> (#[trigger] stmts[m]) matches AstV::Assignment(_),
    ensures
        crate::parser::spec_parse_block_loop(ts, i, stmts, st) matches Ok(r) ==> r.0.symbol_table
            == stmts_table(r.0.statements) && (forall|m: int|
            0 <= m < r.0.statements.len() ==> (#[trigger] r.0.statements[m])
                matches AstV::Assignment(_)),
    decreases ts.len() - i,
{
    let n = ts.len() as int;
    if (ts[i] matches TokenV::RightCurly) || i + 1 >= n {
    } else if crate::lexer::spec_is_data_type_keyword(ts[i]) {
        match crate::parser::spec_parse_assignment(ts, i, st) {
            Err(_) => {},
            Ok((a, j)) => {
                let j3 = crate::parser::step_clamp(n, i, crate::parser::spec_adv(n, j));
                let stmts2 = stmts.push(AstV::Assignment(a));
                assert(stmts2.drop_last() =~= stmts);
                assert(stmts_table(stmts2) == st.insert(a.name, AstV::Assignment(a)));
                assert forall|m: int| 0 <= m < stmts2.len() implies (#[trigger] stmts2[m])
                    matches AstV::Assignment(_) by {
                    if m < stmts.len() {
                        assert(stmts2[m] == stmts[m]);
                    }
                }
                lemma_block_loop_table(ts, j3, stmts2, st.insert(a.name, AstV::Assignment(a)));
            },
        }
    }
}

/// A parsed block holds assignment statements only, and its symbol table
/// binds exactly those statements' names, each to the assignment declared
/// under it, the last declaration of a name winning.
pub proof fn lemma_block_table_binds_statements(ts: Seq<TokenV>, i: int)
    ensures
        crate::parser::spec_parse_block(ts, i) matches Ok(r) ==> r.0.symbol_table == stmts_table(
            r.0.statements,
        ) && (forall|m: int|
            0 <= m < r.0.statements.len() ==> (#[trigger] r.0.statements[m])
                matches AstV::Assignment(_)),
{
    if 0 <= i < ts.len() && (ts[i] matches TokenV::LeftCurly) {
        assert(Map::<Seq<char>, AstV>::empty() == stmts_table(Seq::<AstV>::empty()));
        lemma_block_loop_table(
            ts,
            crate::parser::spec_adv(ts.len() as int, i),
            Seq::empty(),
            Map::empty(),
        );
    }
}

/// Popping to the matching parenthesis only appends to the output.
proof fn lemma_pop_until_out_extends(ops: Seq<TokenV>, out: Seq<TokenV>)
    ensures
        spec_pop_until_lpar(ops, out) matches Some(r) ==> r.1.len() >= out.len() && (forall|m: int|
            0 <= m < out.len() ==> r.1[m] == out[m]),
    decreases ops.len(),
{
    if ops.len() > 0 {
        if (ops.last() matches TokenV::LeftPar) {
        } else {
            lemma_pop_until_out_extends(ops.drop_last(), out.push(ops.last()));
            match spec_pop_until_lpar(ops, out) {
                None => {},
                Some(r) => {
                    assert forall|m: int| 0 <= m < out.len() implies r.1[m] == out[m] by {
                        assert(out.push(ops.last())[m] == out[m]);
                    }
                },
            }
        }
    }
}

/// Precedence popping only appends to the output.
proof fn lemma_pop_while_out_extends(ops: Seq<TokenV>, out: Seq<TokenV>, op: TokenV)
    ensures
        spec_pop_while_precedes(ops, out, op).1.len() >= out.len(),
        forall|m: int| 0 <= m < out.len() ==> spec_pop_while_precedes(ops, out, op).1[m] == out[m],
    decreases ops.len(),
{
    if ops.len() > 0 {
        let top = ops.last();
        if (!(top matches TokenV::LeftPar) && crate::lexer::spec_precedence(top)
            > crate::lexer::spec_precedence(op)) || (crate::lexer::spec_precedence(top)
            == crate::lexer::spec_precedence(op) && crate::lexer::spec_associativity(op)
            == crate::lexer::Associativity::Left) {
            lemma_pop_while_out_extends(ops.drop_last(), out.push(top), op);
            assert forall|m: int| 0 <= m < out.len() implies spec_pop_while_precedes(
                ops,
                out,
                op,
            ).1[m] == out[m] by {
                assert(out.push(top)[m] == out[m]);
            }
        }
    }
}

/// The output queue only grows through the shunting-yard pass: whatever it
/// holds on entry stands unchanged, at the same indices, in the postfix
/// result.
proof fn lemma_rpn_out_prefix(ts: Seq<TokenV>, i: int, ops: Seq<TokenV>, out: Seq<TokenV>)
    requires
        0 <= i < ts.len(),
    ensures
        spec_rpn(ts, i, ops, out) matches Ok(r) ==> r.0.len() >= out.len() && (forall|m: int|
            0 <= m < out.len() ==> r.0[m] == out[m]),
    decreases ts.len() - i,
{
    let t = ts[i];
    if (t matches TokenV::Semicolon) || (t matches TokenV::Eof) {
        if !ops_contain_lpar(ops) {
            assert forall|m: int| 0 <= m < out.len() implies (out + ops.reverse())[m]
                == out[m] by {
            }
        }
    } else if i + 1 >= ts.len() {
    } else {
        match spec_rpn(ts, i, ops, out) {
            Err(_) => {},
            Ok(r) => {
                if crate::lexer::spec_is_number(t) {
                    lemma_rpn_out_prefix(ts, i + 1, ops, out.push(t));
                    assert forall|m: int| 0 <= m < out.len() implies r.0[m] == out[m] by {
                        assert(out.push(t)[m] == out[m]);
                    }
                } else if (t matches TokenV::Identifier(_)) {
                    lemma_rpn_out_prefix(ts, i + 1, ops, out.push(t));
                    assert forall|m: int| 0 <= m < out.len() implies r.0[m] == out[m] by {
                        assert(out.push(t)[m] == out[m]);
                    }
                } else if (t matches TokenV::LeftPar) {
                    lemma_rpn_out_prefix(ts, i + 1, ops.push(t), out);
                } else if (t matches TokenV::RightPar) {
                    match spec_pop_until_lpar(ops, out) {
                        None => {},
                        Some((ops2, out2)) => {
                            lemma_pop_until_out_extends(ops, out);
                            lemma_rpn_out_prefix(ts, i + 1, ops2, out2);
                        },
                    }
                } else if crate::lexer::spec_is_operator(t) {
                    let (ops2, out2) = spec_pop_while_precedes(ops, out, t);
                    lemma_pop_while_out_extends(ops, out, t);
                    lemma_rpn_out_prefix(ts, i + 1, ops2.push(t), out2);
                    assert forall|m: int| 0 <= m < out.len() implies r.0[m] == out[m] by {
                        assert(out2.push(t)[m] == out2[m]);
                    }
                }
            },
        }
    }
}

/// Every identifier token the shunting-yard pass consumes stands in its
/// postfix result.
proof fn lemma_rpn_keeps_identifiers(ts: Seq<TokenV>, i: int, ops: Seq<TokenV>, out: Seq<TokenV>)
    requires
        0 <= i < ts.len(),
    ensures
        spec_rpn(ts, i, ops, out) matches Ok(r) ==> forall|k: int|
            i <= k < r.1 ==> ((#[trigger] ts[k]) matches TokenV::Identifier(_) ==> exists|m: int|
                0 <= m < r.0.len() && r.0[m] == ts[k]),
    decreases ts.len() - i,
{
    let t = ts[i];
    if (t matches TokenV::Semicolon) || (t matches TokenV::Eof) {
    } else if i + 1 >= ts.len() {
    } else {
        match spec_rpn(ts, i, ops, out) {
            Err(_) => {},
            Ok(r) => {
                if crate::lexer::spec_is_number(t) {
                    lemma_rpn_keeps_identifiers(ts, i + 1, ops, out.push(t));
                } else if (t matches TokenV::Identifier(_)) {
                    lemma_rpn_keeps_identifiers(ts, i + 1, ops, out.push(t));
                    lemma_rpn_out_prefix(ts, i + 1, ops, out.push(t));
                    assert(spec_rpn(ts, i, ops, out) == spec_rpn(ts, i + 1, ops, out.push(t)));
                    assert(out.push(t)[out.len() as int] == t);
                    assert(r.0[out.len() as int] == out.push(t)[out.len() as int]);
                    assert(r.0[out.len() as int] == ts[i]);
                } else if (t matches TokenV::LeftPar) {
                    lemma_rpn_keeps_identifiers(ts, i + 1, ops.push(t), out);
                } else if (t matches TokenV::RightPar) {
                    match spec_pop_until_lpar(ops, out) {
                        None => {},
                        Some((ops2, out2)) => {
                            lemma_rpn_keeps_identifiers(ts, i + 1, ops2, out2);
                        },
                    }
                } else if crate::lexer::spec_is_operator(t) {
                    let (ops2, out2) = spec_pop_while_precedes(ops, out, t);
                    lemma_rpn_keeps_identifiers(ts, i + 1, ops2.push(t), out2);
                }
            },
        }
    }
}

/// An undeclared identifier is rejected: an expression parse can succeed
/// only when every identifier token it consumed is bound, in the symbol
/// table it parsed against, to an assignment. An expression referencing a
/// name never assigned in the current block can therefore never parse.
pub proof fn lemma_undeclared_identifiers_never_parse(
    ts: Seq<TokenV>,
    i: int,
    st: Map<Seq<char>, AstV>,
)
    requires
        0 <= i < ts.len(),
    ensures
        spec_parse_expression(ts, i, st) matches Ok(r) ==> forall|k: int|
            i <= k < r.1 ==> ((#[trigger] ts[k]) matches TokenV::Identifier(name)
                ==> st.contains_key(name) && (st[name] matches AstV::Assignment(_))),
{
    match spec_rpn(ts, i, Seq::empty(), Seq::empty()) {
        Err(_) => {},
        Ok((rpn, j)) => {
            match spec_rpn_to_tree(rpn, st, 0, Seq::empty()) {
                Err(_) => {},
                Ok(_) => {
                    lemma_rpn_keeps_identifiers(ts, i, Seq::empty(), Seq::empty());
                    lemma_resolution_needs_declaration(rpn, st, 0, Seq::empty());
                    assert forall|k: int|
                        i <= k < j implies ((#[trigger] ts[k]) matches TokenV::Identifier(name)
                        ==> st.contains_key(name) && (st[name]
                            matches AstV::Assignment(_))) by {
                        if ts[k] matches TokenV::Identifier(name) {
                            let m = choose|m: int| 0 <= m < rpn.len() && rpn[m] == ts[k];
                            assert(rpn[m] matches TokenV::Identifier(nm2)
                                && st.contains_key(nm2) && (st[nm2]
                                matches AstV::Assignment(_)));
                        }
                    }
                },
            }
        },
    }
}

/// Whether a token may stand inside an expression: an operand, a
/// parenthesis or an operator.
pub open spec fn expr_token(t: TokenV) -> bool {
    crate::lexer::spec_is_number(t) || (t matches TokenV::Identifier(_)) || (
    t matches TokenV::LeftPar) || (t matches TokenV::RightPar) || crate::lexer::spec_is_operator(t)
}

/// Over expression tokens, the shunting-yard pass can fail only on a
/// mismatched parenthesis, and on success it consumes exactly up to the
/// terminator.
proof fn lemma_rpn_error_is_mismatched_paren(
    ts: Seq<TokenV>,
    i: int,
    j0: int,
    ops: Seq<TokenV>,
    out: Seq<TokenV>,
)
    requires
        0 <= i <= j0 < ts.len(),
        (ts[j0] matches TokenV::Semicolon) || (ts[j0] matches TokenV::Eof),
        forall|k: int| i <= k < j0 ==> expr_token(#[trigger] ts[k]),
    ensures
        match spec_rpn(ts, i, ops, out) {
            Err(e) => e == ParseErrorV::MismatchedParenthesis,
            Ok(r) => r.1 == j0,
        },
    decreases j0 - i,
{
    let t = ts[i];
    if (t matches TokenV::Semicolon) || (t matches TokenV::Eof) {
        assert(i == j0) by {
            if i < j0 {
                assert(expr_token(ts[i]));
            }
        }
    } else {
        assert(expr_token(t));
        assert(i < j0);
        if crate::lexer::spec_is_number(t) {
            lemma_rpn_error_is_mismatched_paren(ts, i + 1, j0, ops, out.push(t));
        } else if (t matches TokenV::Identifier(_)) {
            lemma_rpn_error_is_mismatched_paren(ts, i + 1, j0, ops, out.push(t));
        } else if (t matches TokenV::LeftPar) {
            lemma_rpn_error_is_mismatched_paren(ts, i + 1, j0, ops.push(t), out);
        } else if (t matches TokenV::RightPar) {
            match spec_pop_until_lpar(ops, out) {
                None => {},
                Some((ops2, out2)) => {
                    lemma_rpn_error_is_mismatched_paren(ts, i + 1, j0, ops2, out2);
                },
            }
        } else {
            let (ops2, out2) = spec_pop_while_precedes(ops, out, t);
            lemma_rpn_error_is_mismatched_paren(ts, i + 1, j0, ops2.push(t), out2);
        }
    }
}

/// Unmatched parentheses are rejected with the mismatched-parenthesis
/// error: where the tokens up to the statement terminator are expression
/// tokens whose parenthesis counts do not agree, parsing the expression
/// fails, and with exactly that error.
pub proof fn lemma_unmatched_parens_rejected_as_such(
    ts: Seq<TokenV>,
    i: int,
    j0: int,
    st: Map<Seq<char>, AstV>,
)
    requires
        0 <= i <= j0 < ts.len(),
        (ts[j0] matches TokenV::Semicolon) || (ts[j0] matches TokenV::Eof),
        forall|k: int| i <= k < j0 ==> expr_token(#[trigger] ts[k]),
        lpar_count(ts.subrange(i, j0)) != rpar_count(ts.subrange(i, j0)),
    ensures
        spec_parse_expression(ts, i, st) == Err::<(ExpressionV, int), ParseErrorV>(
            ParseErrorV::MismatchedParenthesis,
        ),
{
    lemma_rpn_error_is_mismatched_paren(ts, i, j0, Seq::empty(), Seq::empty());
    match spec_rpn(ts, i, Seq::empty(), Seq::empty()) {
        Err(_) => {},
        Ok(r) => {
            lemma_rpn_paren_balance(ts, i, Seq::empty(), Seq::empty());
            assert(lpar_count(Seq::<TokenV>::empty()) == 0);
            assert(false);
        },
    }
}

} // verus!
