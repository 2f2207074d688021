//! The round-trip law of the tokenizer: reconstituting a token sequence
//! the scan produced, with single-space separators, and scanning the
//! result yields the same token sequence again.

use vstd::prelude::*;

use crate::lexer::{
    ident_cont, ident_end, lemma_ident_end, lemma_next_token_bounds, lemma_number_end,
    lemma_string_end, lemma_token_stream_terminated, lemma_ws_end, number_cont, number_end,
    spec_chunk, spec_classify, spec_classify_token, spec_has_dot, spec_lexeme, spec_next_token,
    spec_render, spec_tokenize, spec_tokenize_from, string_end, ws_end, TokenV,
};
use crate::errors::LexError;
use crate::text::{is_alphabetic_char, is_ascii_digit_char, is_whitespace_char};

verus! {

/// What the scan guarantees of each token it yields, lexeme by lexeme: an
/// integer literal is one or more digits; a float literal starts with a
/// digit, continues with digits and dots, and holds a dot; an identifier
/// starts with a non-whitespace alphabetic character, continues with
/// identifier characters, and is no keyword; a string literal's text holds
/// no quote. The end-of-input token never stands among them.
pub open spec fn wf_token(t: TokenV) -> bool {
    match t {
        TokenV::IntNumber(w) => w.len() >= 1 && (forall|k: int|
            0 <= k < w.len() ==> is_ascii_digit_char(#[trigger] w[k])),
        TokenV::FloatNumber(w) => w.len() >= 1 && is_ascii_digit_char(w[0]) && spec_has_dot(w)
            && (forall|k: int| 0 <= k < w.len() ==> number_cont(#[trigger] w[k])),
        TokenV::Identifier(w) => w.len() >= 1 && is_alphabetic_char(w[0]) && !is_whitespace_char(
            w[0],
        ) && (forall|k: int| 1 <= k < w.len() ==> ident_cont(#[trigger] w[k])) && spec_classify(w)
            == TokenV::Identifier(w),
        TokenV::StringValue(w) => forall|k: int| 0 <= k < w.len() ==> (#[trigger] w[k]) != '"',
        TokenV::Eof => false,
        _ => true,
    }
}

/// The identifier scan ends exactly where its continuation characters do.
proof fn lemma_ident_end_is(s: Seq<char>, i: int, e: int)
    requires
        0 <= i <= e <= s.len(),
        forall|k: int| i <= k < e ==> ident_cont(#[trigger] s[k]),
        e == s.len() || !ident_cont(s[e]),
    ensures
        ident_end(s, i) == e,
    decreases e - i,
{
    if i < e {
        lemma_ident_end_is(s, i + 1, e);
    }
}

/// The numeric-literal scan ends exactly where its continuation characters
/// do.
proof fn lemma_number_end_is(s: Seq<char>, i: int, e: int)
    requires
        0 <= i <= e <= s.len(),
        forall|k: int| i <= k < e ==> number_cont(#[trigger] s[k]),
        e == s.len() || !number_cont(s[e]),
    ensures
        number_end(s, i) == e,
    decreases e - i,
{
    if i < e {
        lemma_number_end_is(s, i + 1, e);
    }
}

/// The string scan ends exactly at the first quote.
proof fn lemma_string_end_is(s: Seq<char>, i: int, e: int)
    requires
        0 <= i <= e <= s.len(),
        forall|k: int| i <= k < e ==> (#[trigger] s[k]) != '"',
        e == s.len() || s[e] == '"',
    ensures
        string_end(s, i) == e,
    decreases e - i,
{
    if i < e {
        lemma_string_end_is(s, i + 1, e);
    }
}

/// Every token the scan yields, but the closing end-of-input one, is
/// well-formed.
pub proof fn lemma_tokens_wf(s: Seq<char>, i: int)
    requires
        0 <= i <= s.len(),
    ensures
        spec_tokenize_from(s, i) matches Ok(ts) ==> forall|k: int|
            0 <= k < ts.len() - 1 ==> wf_token(#[trigger] ts[k]),
    decreases s.len() - i,
{
    let j = ws_end(s, i);
    lemma_ws_end(s, i);
    if j < i || j >= s.len() {
    } else {
        match spec_next_token(s, j) {
            Err(_) => {},
            Ok((t, k0)) => {
                lemma_next_token_bounds(s, j);
                let k = if k0 <= j {
                    j + 1
                } else if k0 > s.len() {
                    s.len() as int
                } else {
                    k0
                };
                lemma_tokens_wf(s, k);
                let c = s[j];
                if is_alphabetic_char(c) {
                    let e = ident_end(s, j + 1);
                    lemma_ident_end(s, j + 1);
                    let w = s.subrange(j, e);
                    assert(w[0] == c);
                    assert(forall|m: int| 1 <= m < w.len() ==> ident_cont(#[trigger] w[m]));
                    assert(wf_token(spec_classify_token(t)));
                } else if is_ascii_digit_char(c) {
                    let e = number_end(s, j + 1);
                    lemma_number_end(s, j + 1);
                    let w = s.subrange(j, e);
                    assert(w[0] == c);
                    assert(forall|m: int| 0 <= m < w.len() ==> number_cont(#[trigger] w[m]));
                    if !spec_has_dot(w) {
                        assert(forall|m: int|
                            0 <= m < w.len() ==> is_ascii_digit_char(#[trigger] w[m]));
                    }
                    assert(wf_token(spec_classify_token(t)));
                } else if c == '"' {
                    let e = string_end(s, j + 1);
                    lemma_string_end(s, j + 1);
                    if e < s.len() {
                        let w = s.subrange(j + 1, e);
                        assert(forall|m: int| 0 <= m < w.len() ==> (#[trigger] w[m]) != '"');
                        assert(wf_token(spec_classify_token(t)));
                    }
                } else {
                    assert(wf_token(spec_classify_token(t)));
                }
                match spec_tokenize_from(s, k) {
                    Err(_) => {},
                    Ok(rest) => {
                        let whole = seq![spec_classify_token(t)] + rest;
                        assert forall|m: int| 0 <= m < whole.len() - 1 implies wf_token(
                            #[trigger] whole[m],
                        ) by {
                            if m > 0 {
                                assert(whole[m] == rest[m - 1]);
                            }
                        }
                    },
                }
            },
        }
    }
}

/// Relexing one rendered token: where the text holds a well-formed
/// token's lexeme followed by a space, the scan at the lexeme's start
/// reads exactly that token (an identifier lexeme classifying back to the
/// token it came from) and stops right after the lexeme.
#[verifier::rlimit(60)]
pub proof fn lemma_relex_token(s: Seq<char>, i: int, t: TokenV)
    requires
        wf_token(t),
        0 <= i,
        i + spec_lexeme(t).len() < s.len(),
        s.subrange(i, i + spec_lexeme(t).len()) == spec_lexeme(t),
        s[i + spec_lexeme(t).len()] == ' ',
    ensures
        spec_lexeme(t).len() >= 1,
        !is_whitespace_char(s[i]),
        spec_next_token(s, i) matches Ok(r) && spec_classify_token(r.0) == t && r.1 == i
            + spec_lexeme(t).len(),
{
    let w = spec_lexeme(t);
    assert forall|m: int| 0 <= m < w.len() implies s[i + m] == w[m] by {
        assert(s.subrange(i, i + w.len() as int)[m] == s[i + m]);
    }
    match t {
        TokenV::Identifier(text) => {
            assert forall|m: int| i + 1 <= m < i + w.len() implies ident_cont(
                #[trigger] s[m],
            ) by {
                assert(s[m] == text[m - i]);
            }
            lemma_ident_end_is(s, i + 1, i + w.len() as int);
            assert(spec_next_token(s, i) == Ok::<(TokenV, int), LexError>(
                (TokenV::Identifier(text), i + w.len()),
            ));
        },
        TokenV::IntNumber(text) => {
            assert(s[i] == text[0]);
            assert(is_ascii_digit_char(s[i]));
            assert(!is_alphabetic_char(s[i]));
            assert forall|m: int| i + 1 <= m < i + w.len() implies number_cont(
                #[trigger] s[m],
            ) by {
                assert(s[m] == text[m - i]);
            }
            lemma_number_end_is(s, i + 1, i + w.len() as int);
            assert(number_end(s, i + 1) == i + w.len());
            assert(s.subrange(i, i + w.len() as int) =~= text);
            assert(!spec_has_dot(text)) by {
                if spec_has_dot(text) {
                    let k = choose|k: int| 0 <= k < text.len() && text[k] == '.';
                    assert(is_ascii_digit_char(text[k]));
                }
            }
            assert(spec_next_token(s, i) == Ok::<(TokenV, int), LexError>(
                (TokenV::IntNumber(text), i + w.len()),
            ));
        },
        TokenV::FloatNumber(text) => {
            assert forall|m: int| i + 1 <= m < i + w.len() implies number_cont(
                #[trigger] s[m],
            ) by {
                assert(s[m] == text[m - i]);
            }
            lemma_number_end_is(s, i + 1, i + w.len() as int);
            assert(s.subrange(i, i + w.len() as int) =~= text);
            assert(spec_next_token(s, i) == Ok::<(TokenV, int), LexError>(
                (TokenV::FloatNumber(text), i + w.len()),
            ));
        },
        TokenV::StringValue(text) => {
            reveal_strlit("\"");
            let pre = "\""@ + text;
            assert("\""@.len() == 1);
            assert(w == pre + "\""@);
            assert(w.len() == text.len() + 2);
            assert(w[0] == pre[0]);
            assert(pre[0] == '"');
            assert(s[i] == w[0]);
            assert forall|m: int| 1 <= m < w.len() - 1 implies (#[trigger] w[m]) == text[m
                - 1] by {
                assert(w[m] == pre[m]);
                assert(pre[m] == text[m - 1]);
            }
            assert forall|m: int| i + 1 <= m < i + w.len() - 1 implies (#[trigger] s[m])
                != '"' by {
                assert(s[m] == w[m - i]);
            }
            assert(w[w.len() - 1] == '"');
            assert(s[i + w.len() - 1] == w[w.len() - 1]);
            lemma_string_end_is(s, i + 1, i + w.len() as int - 1);
            assert forall|m: int| 0 <= m < text.len() implies s.subrange(
                i + 1,
                i + w.len() as int - 1,
            )[m] == text[m] by {
                assert(s.subrange(i + 1, i + w.len() as int - 1)[m] == s[i + 1 + m]);
                assert(s[i + (m + 1)] == w[m + 1]);
                assert(w[m + 1] == text[m]);
            }
            assert(s.subrange(i + 1, i + w.len() as int - 1) =~= text);
            assert(spec_next_token(s, i) == Ok::<(TokenV, int), LexError>(
                (TokenV::StringValue(text), i + w.len()),
            ));
        },
        TokenV::Eof => {
        },
            TokenV::KeywordFn => {
                reveal_strlit("fn");
                reveal_strlit("if");
                reveal_strlit("elif");
                reveal_strlit("else");
                reveal_strlit("return");
                reveal_strlit("int");
                reveal_strlit("float");
                reveal_strlit("bool");
                reveal_strlit("string");
                assert(w == "fn"@);
                assert(w.len() == 2);
                assert(w[0] == 'f');
                assert(w[1] == 'n');
                assert(s[i] == w[0]);
                assert forall|m: int| i + 1 <= m < i + w.len() implies ident_cont(
                    #[trigger] s[m],
                ) by {
                    assert(s[m] == w[m - i]);
                }
                lemma_ident_end_is(s, i + 1, i + w.len() as int);
                assert(s.subrange(i, i + w.len() as int) =~= "fn"@);
                assert(spec_next_token(s, i) == Ok::<(TokenV, int), LexError>(
                    (TokenV::Identifier("fn"@), i + w.len()),
                ));
            },
            TokenV::KeywordIf => {
                reveal_strlit("fn");
                reveal_strlit("if");
                reveal_strlit("elif");
                reveal_strlit("else");
                reveal_strlit("return");
                reveal_strlit("int");
                reveal_strlit("float");
                reveal_strlit("bool");
                reveal_strlit("string");
                assert(w == "if"@);
                assert(w.len() == 2);
                assert(w[0] == 'i');
                assert(w[1] == 'f');
                assert(s[i] == w[0]);
                assert forall|m: int| i + 1 <= m < i + w.len() implies ident_cont(
                    #[trigger] s[m],
                ) by {
                    assert(s[m] == w[m - i]);
                }
                lemma_ident_end_is(s, i + 1, i + w.len() as int);
                assert(s.subrange(i, i + w.len() as int) =~= "if"@);
                assert(spec_next_token(s, i) == Ok::<(TokenV, int), LexError>(
                    (TokenV::Identifier("if"@), i + w.len()),
                ));
            },
            TokenV::KeywordElif => {
                reveal_strlit("fn");
                reveal_strlit("if");
                reveal_strlit("elif");
                reveal_strlit("else");
                reveal_strlit("return");
                reveal_strlit("int");
                reveal_strlit("float");
                reveal_strlit("bool");
                reveal_strlit("string");
                assert(w == "elif"@);
                assert(w.len() == 4);
                assert(w[0] == 'e');
                assert(w[1] == 'l');
                assert(w[2] == 'i');
                assert(w[3] == 'f');
                assert(s[i] == w[0]);
                assert forall|m: int| i + 1 <= m < i + w.len() implies ident_cont(
                    #[trigger] s[m],
                ) by {
                    assert(s[m] == w[m - i]);
                }
                lemma_ident_end_is(s, i + 1, i + w.len() as int);
                assert(s.subrange(i, i + w.len() as int) =~= "elif"@);
                assert(spec_next_token(s, i) == Ok::<(TokenV, int), LexError>(
                    (TokenV::Identifier("elif"@), i + w.len()),
                ));
            },
            TokenV::KeywordElse => {
                reveal_strlit("fn");
                reveal_strlit("if");
                reveal_strlit("elif");
                reveal_strlit("else");
                reveal_strlit("return");
                reveal_strlit("int");
                reveal_strlit("float");
                reveal_strlit("bool");
                reveal_strlit("string");
                assert(w == "else"@);
                assert(w.len() == 4);
                assert(w[0] == 'e');
                assert(w[1] == 'l');
                assert(w[2] == 's');
                assert(w[3] == 'e');
                assert(s[i] == w[0]);
                assert forall|m: int| i + 1 <= m < i + w.len() implies ident_cont(
                    #[trigger] s[m],
                ) by {
                    assert(s[m] == w[m - i]);
                }
                lemma_ident_end_is(s, i + 1, i + w.len() as int);
                assert(s.subrange(i, i + w.len() as int) =~= "else"@);
                assert(spec_next_token(s, i) == Ok::<(TokenV, int), LexError>(
                    (TokenV::Identifier("else"@), i + w.len()),
                ));
            },
            TokenV::KeywordReturn => {
                reveal_strlit("fn");
                reveal_strlit("if");
                reveal_strlit("elif");
                reveal_strlit("else");
                reveal_strlit("return");
                reveal_strlit("int");
                reveal_strlit("float");
                reveal_strlit("bool");
                reveal_strlit("string");
                assert(w == "return"@);
                assert(w.len() == 6);
                assert(w[0] == 'r');
                assert(w[1] == 'e');
                assert(w[2] == 't');
                assert(w[3] == 'u');
                assert(w[4] == 'r');
                assert(w[5] == 'n');
                assert(s[i] == w[0]);
                assert forall|m: int| i + 1 <= m < i + w.len() implies ident_cont(
                    #[trigger] s[m],
                ) by {
                    assert(s[m] == w[m - i]);
                }
                lemma_ident_end_is(s, i + 1, i + w.len() as int);
                assert(s.subrange(i, i + w.len() as int) =~= "return"@);
                assert(spec_next_token(s, i) == Ok::<(TokenV, int), LexError>(
                    (TokenV::Identifier("return"@), i + w.len()),
                ));
            },
            TokenV::KeywordInt => {
                reveal_strlit("fn");
                reveal_strlit("if");
                reveal_strlit("elif");
                reveal_strlit("else");
                reveal_strlit("return");
                reveal_strlit("int");
                reveal_strlit("float");
                reveal_strlit("bool");
                reveal_strlit("string");
                assert(w == "int"@);
                assert(w.len() == 3);
                assert(w[0] == 'i');
                assert(w[1] == 'n');
                assert(w[2] == 't');
                assert(s[i] == w[0]);
                assert forall|m: int| i + 1 <= m < i + w.len() implies ident_cont(
                    #[trigger] s[m],
                ) by {
                    assert(s[m] == w[m - i]);
                }
                lemma_ident_end_is(s, i + 1, i + w.len() as int);
                assert(s.subrange(i, i + w.len() as int) =~= "int"@);
                assert(spec_next_token(s, i) == Ok::<(TokenV, int), LexError>(
                    (TokenV::Identifier("int"@), i + w.len()),
                ));
            },
            TokenV::KeywordFloat => {
                reveal_strlit("fn");
                reveal_strlit("if");
                reveal_strlit("elif");
                reveal_strlit("else");
                reveal_strlit("return");
                reveal_strlit("int");
                reveal_strlit("float");
                reveal_strlit("bool");
                reveal_strlit("string");
                assert(w == "float"@);
                assert(w.len() == 5);
                assert(w[0] == 'f');
                assert(w[1] == 'l');
                assert(w[2] == 'o');
                assert(w[3] == 'a');
                assert(w[4] == 't');
                assert(s[i] == w[0]);
                assert forall|m: int| i + 1 <= m < i + w.len() implies ident_cont(
                    #[trigger] s[m],
                ) by {
                    assert(s[m] == w[m - i]);
                }
                lemma_ident_end_is(s, i + 1, i + w.len() as int);
                assert(s.subrange(i, i + w.len() as int) =~= "float"@);
                assert(spec_next_token(s, i) == Ok::<(TokenV, int), LexError>(
                    (TokenV::Identifier("float"@), i + w.len()),
                ));
            },
            TokenV::KeywordBool => {
                reveal_strlit("fn");
                reveal_strlit("if");
                reveal_strlit("elif");
                reveal_strlit("else");
                reveal_strlit("return");
                reveal_strlit("int");
                reveal_strlit("float");
                reveal_strlit("bool");
                reveal_strlit("string");
                assert(w == "bool"@);
                assert(w.len() == 4);
                assert(w[0] == 'b');
                assert(w[1] == 'o');
                assert(w[2] == 'o');
                assert(w[3] == 'l');
                assert(s[i] == w[0]);
                assert forall|m: int| i + 1 <= m < i + w.len() implies ident_cont(
                    #[trigger] s[m],
                ) by {
                    assert(s[m] == w[m - i]);
                }
                lemma_ident_end_is(s, i + 1, i + w.len() as int);
                assert(s.subrange(i, i + w.len() as int) =~= "bool"@);
                assert(spec_next_token(s, i) == Ok::<(TokenV, int), LexError>(
                    (TokenV::Identifier("bool"@), i + w.len()),
                ));
            },
            TokenV::KeywordString => {
                reveal_strlit("fn");
                reveal_strlit("if");
                reveal_strlit("elif");
                reveal_strlit("else");
                reveal_strlit("return");
                reveal_strlit("int");
                reveal_strlit("float");
                reveal_strlit("bool");
                reveal_strlit("string");
                assert(w == "string"@);
                assert(w.len() == 6);
                assert(w[0] == 's');
                assert(w[1] == 't');
                assert(w[2] == 'r');
                assert(w[3] == 'i');
                assert(w[4] == 'n');
                assert(w[5] == 'g');
                assert(s[i] == w[0]);
                assert forall|m: int| i + 1 <= m < i + w.len() implies ident_cont(
                    #[trigger] s[m],
                ) by {
                    assert(s[m] == w[m - i]);
                }
                lemma_ident_end_is(s, i + 1, i + w.len() as int);
                assert(s.subrange(i, i + w.len() as int) =~= "string"@);
                assert(spec_next_token(s, i) == Ok::<(TokenV, int), LexError>(
                    (TokenV::Identifier("string"@), i + w.len()),
                ));
            },
            TokenV::Colon => {
                reveal_strlit(":");
                assert(w == ":"@);
                assert(w.len() == 1);
                assert(w[0] == ':');
                assert(s[i] == w[0]);
                assert(spec_next_token(s, i) == Ok::<(TokenV, int), LexError>(
                    (TokenV::Colon, i + 1),
                ));
            },
            TokenV::LeftBracket => {
                reveal_strlit("[");
                assert(w == "["@);
                assert(w.len() == 1);
                assert(w[0] == '[');
                assert(s[i] == w[0]);
                assert(spec_next_token(s, i) == Ok::<(TokenV, int), LexError>(
                    (TokenV::LeftBracket, i + 1),
                ));
            },
            TokenV::RightBracket => {
                reveal_strlit("]");
                assert(w == "]"@);
                assert(w.len() == 1);
                assert(w[0] == ']');
                assert(s[i] == w[0]);
                assert(spec_next_token(s, i) == Ok::<(TokenV, int), LexError>(
                    (TokenV::RightBracket, i + 1),
                ));
            },
            TokenV::LeftCurly => {
                reveal_strlit("{");
                assert(w == "{"@);
                assert(w.len() == 1);
                assert(w[0] == '{');
                assert(s[i] == w[0]);
                assert(spec_next_token(s, i) == Ok::<(TokenV, int), LexError>(
                    (TokenV::LeftCurly, i + 1),
                ));
            },
            TokenV::RightCurly => {
                reveal_strlit("}");
                assert(w == "}"@);
                assert(w.len() == 1);
                assert(w[0] == '}');
                assert(s[i] == w[0]);
                assert(spec_next_token(s, i) == Ok::<(TokenV, int), LexError>(
                    (TokenV::RightCurly, i + 1),
                ));
            },
            TokenV::LeftPar => {
                reveal_strlit("(");
                assert(w == "("@);
                assert(w.len() == 1);
                assert(w[0] == '(');
                assert(s[i] == w[0]);
                assert(spec_next_token(s, i) == Ok::<(TokenV, int), LexError>(
                    (TokenV::LeftPar, i + 1),
                ));
            },
            TokenV::RightPar => {
                reveal_strlit(")");
                assert(w == ")"@);
                assert(w.len() == 1);
                assert(w[0] == ')');
                assert(s[i] == w[0]);
                assert(spec_next_token(s, i) == Ok::<(TokenV, int), LexError>(
                    (TokenV::RightPar, i + 1),
                ));
            },
            TokenV::Semicolon => {
                reveal_strlit(";");
                assert(w == ";"@);
                assert(w.len() == 1);
                assert(w[0] == ';');
                assert(s[i] == w[0]);
                assert(spec_next_token(s, i) == Ok::<(TokenV, int), LexError>(
                    (TokenV::Semicolon, i + 1),
                ));
            },
            TokenV::Comma => {
                reveal_strlit(",");
                assert(w == ","@);
                assert(w.len() == 1);
                assert(w[0] == ',');
                assert(s[i] == w[0]);
                assert(spec_next_token(s, i) == Ok::<(TokenV, int), LexError>(
                    (TokenV::Comma, i + 1),
                ));
            },
            TokenV::Divides => {
                reveal_strlit("/");
                assert(w == "/"@);
                assert(w.len() == 1);
                assert(w[0] == '/');
                assert(s[i] == w[0]);
                assert(spec_next_token(s, i) == Ok::<(TokenV, int), LexError>(
                    (TokenV::Divides, i + 1),
                ));
            },
            TokenV::Mod => {
                reveal_strlit("%");
                assert(w == "%"@);
                assert(w.len() == 1);
                assert(w[0] == '%');
                assert(s[i] == w[0]);
                assert(spec_next_token(s, i) == Ok::<(TokenV, int), LexError>(
                    (TokenV::Mod, i + 1),
                ));
            },
            TokenV::EqualSign => {
                reveal_strlit("=");
                assert(w == "="@);
                assert(w.len() == 1);
                assert(w[0] == '=');
                assert(s[i] == w[0]);
                assert(s[i + 1] == ' ');
                assert(spec_next_token(s, i) == Ok::<(TokenV, int), LexError>(
                    (TokenV::EqualSign, i + 1),
                ));
            },
            TokenV::GreaterThan => {
                reveal_strlit(">");
                assert(w == ">"@);
                assert(w.len() == 1);
                assert(w[0] == '>');
                assert(s[i] == w[0]);
                assert(s[i + 1] == ' ');
                assert(spec_next_token(s, i) == Ok::<(TokenV, int), LexError>(
                    (TokenV::GreaterThan, i + 1),
                ));
            },
            TokenV::LessThan => {
                reveal_strlit("<");
                assert(w == "<"@);
                assert(w.len() == 1);
                assert(w[0] == '<');
                assert(s[i] == w[0]);
                assert(s[i + 1] == ' ');
                assert(spec_next_token(s, i) == Ok::<(TokenV, int), LexError>(
                    (TokenV::LessThan, i + 1),
                ));
            },
            TokenV::Plus => {
                reveal_strlit("+");
                assert(w == "+"@);
                assert(w.len() == 1);
                assert(w[0] == '+');
                assert(s[i] == w[0]);
                assert(s[i + 1] == ' ');
                assert(spec_next_token(s, i) == Ok::<(TokenV, int), LexError>(
                    (TokenV::Plus, i + 1),
                ));
            },
            TokenV::Minus => {
                reveal_strlit("-");
                assert(w == "-"@);
                assert(w.len() == 1);
                assert(w[0] == '-');
                assert(s[i] == w[0]);
                assert(s[i + 1] == ' ');
                assert(spec_next_token(s, i) == Ok::<(TokenV, int), LexError>(
                    (TokenV::Minus, i + 1),
                ));
            },
            TokenV::Not => {
                reveal_strlit("!");
                assert(w == "!"@);
                assert(w.len() == 1);
                assert(w[0] == '!');
                assert(s[i] == w[0]);
                assert(s[i + 1] == ' ');
                assert(spec_next_token(s, i) == Ok::<(TokenV, int), LexError>(
                    (TokenV::Not, i + 1),
                ));
            },
            TokenV::BitwiseOr => {
                reveal_strlit("|");
                assert(w == "|"@);
                assert(w.len() == 1);
                assert(w[0] == '|');
                assert(s[i] == w[0]);
                assert(s[i + 1] == ' ');
                assert(spec_next_token(s, i) == Ok::<(TokenV, int), LexError>(
                    (TokenV::BitwiseOr, i + 1),
                ));
            },
            TokenV::BitwiseAnd => {
                reveal_strlit("&");
                assert(w == "&"@);
                assert(w.len() == 1);
                assert(w[0] == '&');
                assert(s[i] == w[0]);
                assert(s[i + 1] == ' ');
                assert(spec_next_token(s, i) == Ok::<(TokenV, int), LexError>(
                    (TokenV::BitwiseAnd, i + 1),
                ));
            },
            TokenV::Times => {
                reveal_strlit("*");
                assert(w == "*"@);
                assert(w.len() == 1);
                assert(w[0] == '*');
                assert(s[i] == w[0]);
                assert(s[i + 1] == ' ');
                assert(spec_next_token(s, i) == Ok::<(TokenV, int), LexError>(
                    (TokenV::Times, i + 1),
                ));
            },
            TokenV::EqualTo => {
                reveal_strlit("==");
                assert(w == "=="@);
                assert(w.len() == 2);
                assert(w[0] == '=');
                assert(w[1] == '=');
                assert(s[i] == w[0]);
                assert(s[i + 1] == w[1]);
                assert(spec_next_token(s, i) == Ok::<(TokenV, int), LexError>(
                    (TokenV::EqualTo, i + 2),
                ));
            },
            TokenV::GreaterThanOrEqual => {
                reveal_strlit(">=");
                assert(w == ">="@);
                assert(w.len() == 2);
                assert(w[0] == '>');
                assert(w[1] == '=');
                assert(s[i] == w[0]);
                assert(s[i + 1] == w[1]);
                assert(spec_next_token(s, i) == Ok::<(TokenV, int), LexError>(
                    (TokenV::GreaterThanOrEqual, i + 2),
                ));
            },
            TokenV::LessThanOrEqual => {
                reveal_strlit("<=");
                assert(w == "<="@);
                assert(w.len() == 2);
                assert(w[0] == '<');
                assert(w[1] == '=');
                assert(s[i] == w[0]);
                assert(s[i + 1] == w[1]);
                assert(spec_next_token(s, i) == Ok::<(TokenV, int), LexError>(
                    (TokenV::LessThanOrEqual, i + 2),
                ));
            },
            TokenV::NotEqual => {
                reveal_strlit("!=");
                assert(w == "!="@);
                assert(w.len() == 2);
                assert(w[0] == '!');
                assert(w[1] == '=');
                assert(s[i] == w[0]);
                assert(s[i + 1] == w[1]);
                assert(spec_next_token(s, i) == Ok::<(TokenV, int), LexError>(
                    (TokenV::NotEqual, i + 2),
                ));
            },
            TokenV::Increment => {
                reveal_strlit("++");
                assert(w == "++"@);
                assert(w.len() == 2);
                assert(w[0] == '+');
                assert(w[1] == '+');
                assert(s[i] == w[0]);
                assert(s[i + 1] == w[1]);
                assert(spec_next_token(s, i) == Ok::<(TokenV, int), LexError>(
                    (TokenV::Increment, i + 2),
                ));
            },
            TokenV::Decrement => {
                reveal_strlit("--");
                assert(w == "--"@);
                assert(w.len() == 2);
                assert(w[0] == '-');
                assert(w[1] == '-');
                assert(s[i] == w[0]);
                assert(s[i + 1] == w[1]);
                assert(spec_next_token(s, i) == Ok::<(TokenV, int), LexError>(
                    (TokenV::Decrement, i + 2),
                ));
            },
            TokenV::LogicAnd => {
                reveal_strlit("&&");
                assert(w == "&&"@);
                assert(w.len() == 2);
                assert(w[0] == '&');
                assert(w[1] == '&');
                assert(s[i] == w[0]);
                assert(s[i + 1] == w[1]);
                assert(spec_next_token(s, i) == Ok::<(TokenV, int), LexError>(
                    (TokenV::LogicAnd, i + 2),
                ));
            },
            TokenV::LogicOr => {
                reveal_strlit("||");
                assert(w == "||"@);
                assert(w.len() == 2);
                assert(w[0] == '|');
                assert(w[1] == '|');
                assert(s[i] == w[0]);
                assert(s[i + 1] == w[1]);
                assert(spec_next_token(s, i) == Ok::<(TokenV, int), LexError>(
                    (TokenV::LogicOr, i + 2),
                ));
            },
            TokenV::Power => {
                reveal_strlit("**");
                assert(w == "**"@);
                assert(w.len() == 2);
                assert(w[0] == '*');
                assert(w[1] == '*');
                assert(s[i] == w[0]);
                assert(s[i + 1] == w[1]);
                assert(spec_next_token(s, i) == Ok::<(TokenV, int), LexError>(
                    (TokenV::Power, i + 2),
                ));
            },
    }
}

/// Rendered text decomposes at the front: the first token's chunk, then
/// the rest.
proof fn lemma_render_front(ts: Seq<TokenV>)
    requires
        ts.len() >= 1,
    ensures
        spec_render(ts) == spec_chunk(ts[0]) + spec_render(ts.drop_first()),
    decreases ts.len(),
{
    if ts.len() == 1 {
        assert(ts.drop_last() =~= Seq::<TokenV>::empty());
        assert(ts.drop_first() =~= Seq::<TokenV>::empty());
        assert(ts.last() == ts[0]);
        assert(Seq::<char>::empty() + spec_chunk(ts[0]) =~= spec_chunk(ts[0]));
        assert(spec_chunk(ts[0]) + Seq::<char>::empty() =~= spec_chunk(ts[0]));
    } else {
        let dl = ts.drop_last();
        lemma_render_front(dl);
        assert(dl[0] == ts[0]);
        assert(dl.drop_first() =~= ts.drop_first().drop_last());
        assert(ts.drop_first().last() == ts.last());
        assert((spec_chunk(ts[0]) + spec_render(dl.drop_first())) + spec_chunk(ts.last())
            =~= spec_chunk(ts[0]) + (spec_render(dl.drop_first()) + spec_chunk(ts.last())));
    }
}

/// Scanning rendered well-formed tokens from the start of their rendering
/// yields them all back, closed by one end-of-input token.
proof fn lemma_relex_from(r: Seq<char>, i: int, body: Seq<TokenV>)
    requires
        0 <= i <= r.len(),
        r.subrange(i, r.len() as int) == spec_render(body),
        forall|m: int| 0 <= m < body.len() ==> wf_token(#[trigger] body[m]),
    ensures
        spec_tokenize_from(r, i) == Ok::<Seq<TokenV>, LexError>(body.push(TokenV::Eof)),
    decreases body.len(),
{
    reveal_strlit(" ");
    if body.len() == 0 {
        assert(spec_render(body) == Seq::<char>::empty());
        assert(r.subrange(i, r.len() as int).len() == 0);
        assert(r.len() - i == 0);
        assert(ws_end(r, i) == i);
        assert(spec_tokenize_from(r, i) == Ok::<Seq<TokenV>, LexError>(seq![TokenV::Eof]));
        assert(seq![TokenV::Eof] =~= body.push(TokenV::Eof));
    } else {
        lemma_render_front(body);
        let t0 = body[0];
        let rest = body.drop_first();
        let w = spec_lexeme(t0);
        let l = w.len() as int;
        let suffix = r.subrange(i, r.len() as int);
        assert(spec_chunk(t0) == w + " "@);
        assert(" "@.len() == 1);
        assert(suffix.len() == (l + 1) + spec_render(rest).len());
        assert forall|m: int| 0 <= m < l implies r[i + m] == w[m] by {
            assert(suffix[m] == r[i + m]);
            assert(suffix[m] == (spec_chunk(t0) + spec_render(rest))[m]);
            assert((w + " "@)[m] == w[m]);
        }
        assert forall|m: int| 0 <= m < l implies r.subrange(i, i + l)[m] == w[m] by {
            assert(r.subrange(i, i + l)[m] == r[i + m]);
        }
        assert(r.subrange(i, i + l) =~= w);
        assert(r[i + l] == suffix[l]);
        assert(suffix[l] == (w + " "@)[l]);
        assert((w + " "@)[l] == ' ');
        lemma_relex_token(r, i, t0);
        assert(ws_end(r, i) == i);
        let k = i + l;
        assert forall|m: int| 0 <= m < spec_render(rest).len() implies r.subrange(
            k + 1,
            r.len() as int,
        )[m] == spec_render(rest)[m] by {
            assert(r.subrange(k + 1, r.len() as int)[m] == r[k + 1 + m]);
            assert(suffix[l + 1 + m] == r[i + (l + 1 + m)]);
            assert(suffix[l + 1 + m] == (spec_chunk(t0) + spec_render(rest))[l + 1 + m]);
        }
        assert(r.subrange(k + 1, r.len() as int) =~= spec_render(rest));
        assert forall|m: int| 0 <= m < rest.len() implies wf_token(#[trigger] rest[m]) by {
            assert(rest[m] == body[m + 1]);
        }
        lemma_relex_from(r, k + 1, rest);
        assert(is_whitespace_char(' '));
        assert(r[k] == ' ');
        assert(k < r.len());
        lemma_ws_end(r, k);
        lemma_ws_end(r, k + 1);
        assert(ws_end(r, k) == ws_end(r, k + 1));
        assert(spec_tokenize_from(r, k) == spec_tokenize_from(r, k + 1));
        match spec_next_token(r, i) {
            Err(_) => {
                assert(false);
            },
            Ok((t2, kk)) => {
                assert(kk == k);
                assert(i < kk <= r.len());
                assert(spec_tokenize_from(r, i) == match spec_tokenize_from(r, kk) {
                    Err(e) => Err::<Seq<TokenV>, LexError>(e),
                    Ok(rest2) => Ok(seq![spec_classify_token(t2)] + rest2),
                });
                assert(spec_tokenize_from(r, kk) == Ok::<Seq<TokenV>, LexError>(
                    rest.push(TokenV::Eof),
                ));
                assert(spec_classify_token(t2) == t0);
                assert(seq![t0] + rest.push(TokenV::Eof) =~= body.push(TokenV::Eof));
                assert(spec_tokenize_from(r, i) == Ok::<Seq<TokenV>, LexError>(
                    body.push(TokenV::Eof),
                ));
            },
        }
    }
}

/// The round-trip law: reconstituting the token sequence of a text that
/// scans without error, with single-space separators, and scanning the
/// reconstituted text yields exactly the same token sequence.
pub proof fn lemma_tokenize_round_trip(s: Seq<char>)
    ensures
        spec_tokenize(s) matches Ok(ts) ==> spec_tokenize(spec_render(ts)) == Ok::<
            Seq<TokenV>,
            LexError,
        >(ts),
{
    match spec_tokenize(s) {
        Err(_) => {},
        Ok(ts) => {
            lemma_token_stream_terminated(s, 0);
            lemma_tokens_wf(s, 0);
            let body = ts.drop_last();
            assert(spec_chunk(ts.last()) == Seq::<char>::empty());
            assert(spec_render(body) + Seq::<char>::empty() =~= spec_render(body));
            assert(spec_render(ts) == spec_render(body));
            let r = spec_render(body);
            assert(r.subrange(0, r.len() as int) =~= r);
            assert forall|m: int| 0 <= m < body.len() implies wf_token(#[trigger] body[m]) by {
                assert(body[m] == ts[m]);
            }
            lemma_relex_from(r, 0, body);
            assert(body.push(TokenV::Eof) =~= ts);
        },
    }
}

} // verus!
