//! The tokenizer: it turns source text into a flat token sequence that ends
//! with exactly one end-of-input sentinel, or reports the first lexical
//! error. `spec_tokenize` is the specification-level model of the scan, and
//! `Lexer::tokenize` is proved to return exactly what the model says.

use vstd::prelude::*;

use crate::ast::Type;
use crate::errors::{LexError, ParseError, ParseErrorV};
use crate::text::{
    char_is_alphabetic, char_is_alphanumeric, char_is_ascii_digit, char_is_whitespace,
    chars_to_string, is_alphabetic_char, is_alphanumeric_char, is_ascii_digit_char,
    is_whitespace_char, str_eq,
};

verus! {

/// Associativity of an operator token.
#[derive(Debug, Clone, Copy, PartialEq, Eq, Structural)]
pub enum Associativity {
    Left,
    Right,
    Undefined,
}

/// One lexical unit. Literal and identifier tokens keep the raw lexeme text;
/// conversion to a numeric value happens later, in the parser.
#[derive(Debug, PartialEq, Eq)]
pub enum Token {
    IntNumber(String),
    FloatNumber(String),
    StringValue(String),
    Identifier(String),
    // Keywords
    KeywordFn,
    KeywordIf,
    KeywordElif,
    KeywordElse,
    KeywordReturn,
    KeywordInt,
    KeywordFloat,
    KeywordBool,
    KeywordString,
    // Special characters
    Colon,
    LeftBracket,
    RightBracket,
    LeftCurly,
    RightCurly,
    LeftPar,
    RightPar,
    Semicolon,
    EqualSign,
    Comma,
    // Arithmetic operators
    Plus,
    Minus,
    Mod,
    Divides,
    Times,
    Power,
    // Relational operators
    GreaterThan,
    LessThan,
    GreaterThanOrEqual,
    LessThanOrEqual,
    NotEqual,
    EqualTo,
    // Unary operators
    Increment,
    Decrement,
    Not,
    // Logic operators
    LogicAnd,
    LogicOr,
    // Bitwise operators
    BitwiseAnd,
    BitwiseOr,
    Eof,
}

/// The specification-level value of a token: lexeme text is a `Seq<char>`.
pub enum TokenV {
    IntNumber(Seq<char>),
    FloatNumber(Seq<char>),
    StringValue(Seq<char>),
    Identifier(Seq<char>),
    KeywordFn,
    KeywordIf,
    KeywordElif,
    KeywordElse,
    KeywordReturn,
    KeywordInt,
    KeywordFloat,
    KeywordBool,
    KeywordString,
    Colon,
    LeftBracket,
    RightBracket,
    LeftCurly,
    RightCurly,
    LeftPar,
    RightPar,
    Semicolon,
    EqualSign,
    Comma,
    Plus,
    Minus,
    Mod,
    Divides,
    Times,
    Power,
    GreaterThan,
    LessThan,
    GreaterThanOrEqual,
    LessThanOrEqual,
    NotEqual,
    EqualTo,
    Increment,
    Decrement,
    Not,
    LogicAnd,
    LogicOr,
    BitwiseAnd,
    BitwiseOr,
    Eof,
}

impl View for Token {
    type V = TokenV;

    open spec fn view(&self) -> TokenV {
        match self {
            Token::IntNumber(s) => TokenV::IntNumber(s@),
            Token::FloatNumber(s) => TokenV::FloatNumber(s@),
            Token::StringValue(s) => TokenV::StringValue(s@),
            Token::Identifier(s) => TokenV::Identifier(s@),
            Token::KeywordFn => TokenV::KeywordFn,
            Token::KeywordIf => TokenV::KeywordIf,
            Token::KeywordElif => TokenV::KeywordElif,
            Token::KeywordElse => TokenV::KeywordElse,
            Token::KeywordReturn => TokenV::KeywordReturn,
            Token::KeywordInt => TokenV::KeywordInt,
            Token::KeywordFloat => TokenV::KeywordFloat,
            Token::KeywordBool => TokenV::KeywordBool,
            Token::KeywordString => TokenV::KeywordString,
            Token::Colon => TokenV::Colon,
            Token::LeftBracket => TokenV::LeftBracket,
            Token::RightBracket => TokenV::RightBracket,
            Token::LeftCurly => TokenV::LeftCurly,
            Token::RightCurly => TokenV::RightCurly,
            Token::LeftPar => TokenV::LeftPar,
            Token::RightPar => TokenV::RightPar,
            Token::Semicolon => TokenV::Semicolon,
            Token::EqualSign => TokenV::EqualSign,
            Token::Comma => TokenV::Comma,
            Token::Plus => TokenV::Plus,
            Token::Minus => TokenV::Minus,
            Token::Mod => TokenV::Mod,
            Token::Divides => TokenV::Divides,
            Token::Times => TokenV::Times,
            Token::Power => TokenV::Power,
            Token::GreaterThan => TokenV::GreaterThan,
            Token::LessThan => TokenV::LessThan,
            Token::GreaterThanOrEqual => TokenV::GreaterThanOrEqual,
            Token::LessThanOrEqual => TokenV::LessThanOrEqual,
            Token::NotEqual => TokenV::NotEqual,
            Token::EqualTo => TokenV::EqualTo,
            Token::Increment => TokenV::Increment,
            Token::Decrement => TokenV::Decrement,
            Token::Not => TokenV::Not,
            Token::LogicAnd => TokenV::LogicAnd,
            Token::LogicOr => TokenV::LogicOr,
            Token::BitwiseAnd => TokenV::BitwiseAnd,
            Token::BitwiseOr => TokenV::BitwiseOr,
            Token::Eof => TokenV::Eof,
        }
    }
}

impl Clone for Token {
    /// Cloning a token yields an equal token.
    fn clone(&self) -> (r: Self)
        ensures
            r == *self,
    {
        match self {
            Token::IntNumber(s) => Token::IntNumber(s.clone()),
            Token::FloatNumber(s) => Token::FloatNumber(s.clone()),
            Token::StringValue(s) => Token::StringValue(s.clone()),
            Token::Identifier(s) => Token::Identifier(s.clone()),
            Token::KeywordFn => Token::KeywordFn,
            Token::KeywordIf => Token::KeywordIf,
            Token::KeywordElif => Token::KeywordElif,
            Token::KeywordElse => Token::KeywordElse,
            Token::KeywordReturn => Token::KeywordReturn,
            Token::KeywordInt => Token::KeywordInt,
            Token::KeywordFloat => Token::KeywordFloat,
            Token::KeywordBool => Token::KeywordBool,
            Token::KeywordString => Token::KeywordString,
            Token::Colon => Token::Colon,
            Token::LeftBracket => Token::LeftBracket,
            Token::RightBracket => Token::RightBracket,
            Token::LeftCurly => Token::LeftCurly,
            Token::RightCurly => Token::RightCurly,
            Token::LeftPar => Token::LeftPar,
            Token::RightPar => Token::RightPar,
            Token::Semicolon => Token::Semicolon,
            Token::EqualSign => Token::EqualSign,
            Token::Comma => Token::Comma,
            Token::Plus => Token::Plus,
            Token::Minus => Token::Minus,
            Token::Mod => Token::Mod,
            Token::Divides => Token::Divides,
            Token::Times => Token::Times,
            Token::Power => Token::Power,
            Token::GreaterThan => Token::GreaterThan,
            Token::LessThan => Token::LessThan,
            Token::GreaterThanOrEqual => Token::GreaterThanOrEqual,
            Token::LessThanOrEqual => Token::LessThanOrEqual,
            Token::NotEqual => Token::NotEqual,
            Token::EqualTo => Token::EqualTo,
            Token::Increment => Token::Increment,
            Token::Decrement => Token::Decrement,
            Token::Not => Token::Not,
            Token::LogicAnd => Token::LogicAnd,
            Token::LogicOr => Token::LogicOr,
            Token::BitwiseAnd => Token::BitwiseAnd,
            Token::BitwiseOr => Token::BitwiseOr,
            Token::Eof => Token::Eof,
        }
    }
}

/// Whether a token is one of the binary operators the expression grammar
/// routes through the shunting-yard operator stack.
pub open spec fn spec_is_operator(t: TokenV) -> bool {
    match t {
        TokenV::Plus | TokenV::Minus | TokenV::Mod | TokenV::Divides | TokenV::Times
        | TokenV::Power => true,
        _ => false,
    }
}

/// Whether a token is one of the four data-type keywords.
pub open spec fn spec_is_data_type_keyword(t: TokenV) -> bool {
    match t {
        TokenV::KeywordInt | TokenV::KeywordFloat | TokenV::KeywordBool
        | TokenV::KeywordString => true,
        _ => false,
    }
}

/// The declared type a data-type keyword denotes.
pub open spec fn spec_as_type(t: TokenV) -> Result<Type, ParseErrorV> {
    match t {
        TokenV::KeywordInt => Ok(Type::Int),
        TokenV::KeywordFloat => Ok(Type::Float),
        TokenV::KeywordBool => Ok(Type::Bool),
        TokenV::KeywordString => Ok(Type::StringType),
        _ => Err(ParseErrorV::NotAType(t)),
    }
}

/// Whether a token is a numeric literal.
pub open spec fn spec_is_number(t: TokenV) -> bool {
    match t {
        TokenV::IntNumber(_) | TokenV::FloatNumber(_) => true,
        _ => false,
    }
}

/// Operator precedence: `+` and `-` bind weakest, `*` and `/` bind tighter,
/// and every other token is marked -1, "not a precedence operator".
pub open spec fn spec_precedence(t: TokenV) -> int {
    match t {
        TokenV::Plus => 1,
        TokenV::Minus => 1,
        TokenV::Times => 2,
        TokenV::Divides => 2,
        _ => -1,
    }
}

/// Associativity: the four precedence operators are left-associative.
pub open spec fn spec_associativity(t: TokenV) -> Associativity {
    match t {
        TokenV::Plus | TokenV::Minus | TokenV::Times | TokenV::Divides => Associativity::Left,
        _ => Associativity::Undefined,
    }
}

impl Token {
    /// Whether this token is a binary operator of the expression grammar.
    pub fn is_operator(&self) -> (r: bool)
        ensures
            r == spec_is_operator(self@),
    {
        matches!(self, Token::Plus | Token::Minus | Token::Mod | Token::Divides | Token::Times
            | Token::Power)
    }

    /// Whether this token is a data-type keyword.
    pub fn is_data_type_keyword(&self) -> (r: bool)
        ensures
            r == spec_is_data_type_keyword(self@),
    {
        matches!(self, Token::KeywordInt | Token::KeywordFloat | Token::KeywordBool
            | Token::KeywordString)
    }

    /// The declared type this keyword denotes, or an error for any other token.
    pub fn as_type(&self) -> (r: Result<Type, ParseError>)
        ensures
            match spec_as_type(self@) {
                Ok(ty) => r matches Ok(t) && t == ty,
                Err(ev) => r matches Err(e) && e@ == ev,
            },
    {
        match self {
            Token::KeywordInt => Ok(Type::Int),
            Token::KeywordFloat => Ok(Type::Float),
            Token::KeywordBool => Ok(Type::Bool),
            Token::KeywordString => Ok(Type::StringType),
            _ => Err(ParseError::NotAType(self.clone())),
        }
    }

    /// Whether this token is a numeric literal.
    pub fn is_number(&self) -> (r: bool)
        ensures
            r == spec_is_number(self@),
    {
        matches!(self, Token::IntNumber(_) | Token::FloatNumber(_))
    }

    /// The associativity of this token.
    pub fn get_associativity(&self) -> (r: Associativity)
        ensures
            r == spec_associativity(self@),
    {
        match self {
            Token::Plus | Token::Minus | Token::Times | Token::Divides => Associativity::Left,
            _ => Associativity::Undefined,
        }
    }

    /// Whether this token binds strictly tighter than `second_token`.
    pub fn has_higher_precedence(&self, second_token: &Token) -> (r: bool)
        ensures
            r == (spec_precedence(self@) > spec_precedence(second_token@)),
    {
        self.get_precedence() > second_token.get_precedence()
    }

    /// Whether this token binds exactly as tightly as `second_token`.
    pub fn has_same_precedence(&self, second_token: &Token) -> (r: bool)
        ensures
            r == (spec_precedence(self@) == spec_precedence(second_token@)),
    {
        self.get_precedence() == second_token.get_precedence()
    }

    /// The precedence of this token, -1 where it has none.
    pub fn get_precedence(&self) -> (r: i8)
        ensures
            r as int == spec_precedence(self@),
    {
        match self {
            Token::Plus => 1,
            Token::Minus => 1,
            Token::Times => 2,
            Token::Divides => 2,
            _ => -1,
        }
    }
}

/// Whether a character may continue an identifier.
pub open spec fn ident_cont(c: char) -> bool {
    is_alphanumeric_char(c) || c == '_'
}

/// Whether a character may continue a numeric literal.
pub open spec fn number_cont(c: char) -> bool {
    is_ascii_digit_char(c) || c == '.'
}

/// The first index at or after `i` whose character does not continue an
/// identifier, or the end of the text.
pub open spec fn ident_end(s: Seq<char>, i: int) -> int
    decreases s.len() - i,
    when 0 <= i <= s.len()
{
    if i >= s.len() || !ident_cont(s[i]) {
        i
    } else {
        ident_end(s, i + 1)
    }
}

/// The first index at or after `i` whose character does not continue a
/// numeric literal, or the end of the text.
pub open spec fn number_end(s: Seq<char>, i: int) -> int
    decreases s.len() - i,
    when 0 <= i <= s.len()
{
    if i >= s.len() || !number_cont(s[i]) {
        i
    } else {
        number_end(s, i + 1)
    }
}

/// The index of the first `"` at or after `i`, or the end of the text.
pub open spec fn string_end(s: Seq<char>, i: int) -> int
    decreases s.len() - i,
    when 0 <= i <= s.len()
{
    if i >= s.len() || s[i] == '"' {
        i
    } else {
        string_end(s, i + 1)
    }
}

/// The first index at or after `i` whose character is not whitespace, or
/// the end of the text.
pub open spec fn ws_end(s: Seq<char>, i: int) -> int
    decreases s.len() - i,
    when 0 <= i <= s.len()
{
    if i >= s.len() || !is_whitespace_char(s[i]) {
        i
    } else {
        ws_end(s, i + 1)
    }
}

/// Bounds and content of the identifier scan.
pub proof fn lemma_ident_end(s: Seq<char>, i: int)
    requires
        0 <= i <= s.len(),
    ensures
        i <= ident_end(s, i) <= s.len(),
        ident_end(s, i) < s.len() ==> !ident_cont(s[ident_end(s, i)]),
        forall|k: int| i <= k < ident_end(s, i) ==> ident_cont(s[k]),
    decreases s.len() - i,
{
    if !(i >= s.len() || !ident_cont(s[i])) {
        lemma_ident_end(s, i + 1);
    }
}

/// Bounds and content of the numeric-literal scan.
pub proof fn lemma_number_end(s: Seq<char>, i: int)
    requires
        0 <= i <= s.len(),
    ensures
        i <= number_end(s, i) <= s.len(),
        number_end(s, i) < s.len() ==> !number_cont(s[number_end(s, i)]),
        forall|k: int| i <= k < number_end(s, i) ==> number_cont(s[k]),
    decreases s.len() - i,
{
    if !(i >= s.len() || !number_cont(s[i])) {
        lemma_number_end(s, i + 1);
    }
}

/// Bounds and content of the string-literal scan.
pub proof fn lemma_string_end(s: Seq<char>, i: int)
    requires
        0 <= i <= s.len(),
    ensures
        i <= string_end(s, i) <= s.len(),
        string_end(s, i) < s.len() ==> s[string_end(s, i)] == '"',
        forall|k: int| i <= k < string_end(s, i) ==> s[k] != '"',
    decreases s.len() - i,
{
    if !(i >= s.len() || s[i] == '"') {
        lemma_string_end(s, i + 1);
    }
}

/// Bounds and content of the whitespace skip.
pub proof fn lemma_ws_end(s: Seq<char>, i: int)
    requires
        0 <= i <= s.len(),
    ensures
        i <= ws_end(s, i) <= s.len(),
        ws_end(s, i) < s.len() ==> !is_whitespace_char(s[ws_end(s, i)]),
        forall|k: int| i <= k < ws_end(s, i) ==> is_whitespace_char(s[k]),
    decreases s.len() - i,
{
    if !(i >= s.len() || !is_whitespace_char(s[i])) {
        lemma_ws_end(s, i + 1);
    }
}

/// Whether a lexeme contains a decimal point.
pub open spec fn spec_has_dot(w: Seq<char>) -> bool {
    exists|k: int| 0 <= k < w.len() && w[k] == '.'
}

/// The keyword table: identifier text that matches a keyword exactly, case
/// sensitively, becomes that keyword's token; anything else stays an
/// identifier.
pub open spec fn spec_classify(w: Seq<char>) -> TokenV {
    if w == "fn"@ {
        TokenV::KeywordFn
    } else if w == "if"@ {
        TokenV::KeywordIf
    } else if w == "elif"@ {
        TokenV::KeywordElif
    } else if w == "else"@ {
        TokenV::KeywordElse
    } else if w == "return"@ {
        TokenV::KeywordReturn
    } else if w == "bool"@ {
        TokenV::KeywordBool
    } else if w == "int"@ {
        TokenV::KeywordInt
    } else if w == "float"@ {
        TokenV::KeywordFloat
    } else if w == "string"@ {
        TokenV::KeywordString
    } else {
        TokenV::Identifier(w)
    }
}

/// Greedy two-character operator resolution: if the next character is
/// `second`, the two-character token is taken, else the one-character one.
pub open spec fn spec_two_char(s: Seq<char>, i: int, second: char, double: TokenV, single: TokenV)
    -> (TokenV, int) {
    if i + 1 < s.len() && s[i + 1] == second {
        (double, i + 2)
    } else {
        (single, i + 1)
    }
}

/// The token that starts at index `i` of the text, with the index just past
/// it, or the lexical error there. `i` must sit on a non-whitespace
/// character.
pub open spec fn spec_next_token(s: Seq<char>, i: int) -> Result<(TokenV, int), LexError> {
    if !(0 <= i < s.len()) {
        Err(LexError::UnrecognizedChar { ch: ' ', pos: 0 })
    } else {
        let c = s[i];
        if is_alphabetic_char(c) {
            let e = ident_end(s, i + 1);
            Ok((TokenV::Identifier(s.subrange(i, e)), e))
        } else if is_ascii_digit_char(c) {
            let e = number_end(s, i + 1);
            let w = s.subrange(i, e);
            Ok(((if spec_has_dot(w) {
                TokenV::FloatNumber(w)
            } else {
                TokenV::IntNumber(w)
            }), e))
        } else if c == '"' {
            let e = string_end(s, i + 1);
            if e >= s.len() {
                Err(LexError::UnterminatedString { pos: i as usize })
            } else {
                Ok((TokenV::StringValue(s.subrange(i + 1, e)), e + 1))
            }
        } else if c == ':' {
            Ok((TokenV::Colon, i + 1))
        } else if c == '(' {
            Ok((TokenV::LeftPar, i + 1))
        } else if c == ')' {
            Ok((TokenV::RightPar, i + 1))
        } else if c == '{' {
            Ok((TokenV::LeftCurly, i + 1))
        } else if c == '}' {
            Ok((TokenV::RightCurly, i + 1))
        } else if c == ';' {
            Ok((TokenV::Semicolon, i + 1))
        } else if c == ',' {
            Ok((TokenV::Comma, i + 1))
        } else if c == '[' {
            Ok((TokenV::LeftBracket, i + 1))
        } else if c == ']' {
            Ok((TokenV::RightBracket, i + 1))
        } else if c == '=' {
            Ok(spec_two_char(s, i, '=', TokenV::EqualTo, TokenV::EqualSign))
        } else if c == '>' {
            Ok(spec_two_char(s, i, '=', TokenV::GreaterThanOrEqual, TokenV::GreaterThan))
        } else if c == '<' {
            Ok(spec_two_char(s, i, '=', TokenV::LessThanOrEqual, TokenV::LessThan))
        } else if c == '+' {
            Ok(spec_two_char(s, i, '+', TokenV::Increment, TokenV::Plus))
        } else if c == '-' {
            Ok(spec_two_char(s, i, '-', TokenV::Decrement, TokenV::Minus))
        } else if c == '!' {
            Ok(spec_two_char(s, i, '=', TokenV::NotEqual, TokenV::Not))
        } else if c == '|' {
            Ok(spec_two_char(s, i, '|', TokenV::LogicOr, TokenV::BitwiseOr))
        } else if c == '&' {
            Ok(spec_two_char(s, i, '&', TokenV::LogicAnd, TokenV::BitwiseAnd))
        } else if c == '/' {
            Ok((TokenV::Divides, i + 1))
        } else if c == '*' {
            Ok(spec_two_char(s, i, '*', TokenV::Power, TokenV::Times))
        } else if c == '%' {
            Ok((TokenV::Mod, i + 1))
        } else {
            Err(LexError::UnrecognizedChar { ch: c, pos: i as usize })
        }
    }
}

/// A token read at a non-whitespace index ends strictly past where it
/// began, and within the text.
pub proof fn lemma_next_token_bounds(s: Seq<char>, i: int)
    requires
        0 <= i < s.len(),
        !is_whitespace_char(s[i]),
    ensures
        spec_next_token(s, i) matches Ok((t, k)) ==> i < k <= s.len(),
{
    lemma_ident_end(s, i + 1);
    lemma_number_end(s, i + 1);
    lemma_string_end(s, i + 1);
}

/// Identifier tokens are put through the keyword table; all others stand.
pub open spec fn spec_classify_token(t: TokenV) -> TokenV {
    match t {
        TokenV::Identifier(w) => spec_classify(w),
        _ => t,
    }
}

/// Prepends already-read tokens to the outcome of the rest of the scan.
pub open spec fn prepend_tokens(acc: Seq<TokenV>, r: Result<Seq<TokenV>, LexError>) -> Result<
    Seq<TokenV>,
    LexError,
> {
    match r {
        Ok(ts) => Ok(acc + ts),
        Err(e) => Err(e),
    }
}

/// The token sequence of the text from index `i` on: whitespace is skipped,
/// one token is read and classified, and the rest follows, with exactly one
/// end-of-input token closing the sequence; or the first lexical error.
pub open spec fn spec_tokenize_from(s: Seq<char>, i: int) -> Result<Seq<TokenV>, LexError>
    decreases s.len() - i,
    when 0 <= i <= s.len()
{
    let j = ws_end(s, i);
    if j < i || j >= s.len() {
        Ok(seq![TokenV::Eof])
    } else {
        match spec_next_token(s, j) {
            Err(e) => Err(e),
            Ok((t, k0)) => {
                let k = if k0 <= j {
                    j + 1
                } else if k0 > s.len() {
                    s.len() as int
                } else {
                    k0
                };
                match spec_tokenize_from(s, k) {
                    Err(e) => Err(e),
                    Ok(rest) => Ok(seq![spec_classify_token(t)] + rest),
                }
            },
        }
    }
}

/// The complete token sequence of a text, or its first lexical error.
pub open spec fn spec_tokenize(s: Seq<char>) -> Result<Seq<TokenV>, LexError> {
    spec_tokenize_from(s, 0)
}

/// The tokenizer: a forward scan over the source characters.
pub struct Lexer {
    pub source_code: Vec<char>,
    pub position: usize,
}

impl Lexer {
    /// The cursor never passes the end of the text.
    pub open spec fn wf(&self) -> bool {
        self.position <= self.source_code@.len()
    }

    /// Builds a tokenizer over the given source text, positioned at its
    /// start.
    pub fn new(source_code: Vec<char>) -> (r: Lexer)
        ensures
            r.source_code@ == source_code@,
            r.position == 0,
            r.wf(),
    {
        Lexer { source_code, position: 0 }
    }

    /// Whether the cursor is at the end of the text.
    fn is_eof(&self) -> (r: bool)
        ensures
            r == (self.position >= self.source_code@.len()),
    {
        self.position >= self.source_code.len()
    }

    /// Moves the cursor one character forward, where one is left.
    fn advance(&mut self)
        requires
            old(self).wf(),
        ensures
            final(self).wf(),
            final(self).source_code@ == old(self).source_code@,
            old(self).position < old(self).source_code@.len() ==> final(self).position == old(
                self,
            ).position + 1,
            old(self).position >= old(self).source_code@.len() ==> final(self).position == old(
                self,
            ).position,
    {
        if self.position < self.source_code.len() {
            self.position = self.position + 1;
        }
    }

    /// Skips whitespace: afterwards the cursor sits on the first
    /// non-whitespace character at or after where it was, or at the end.
    fn skip_any_whitespace(&mut self)
        requires
            old(self).wf(),
        ensures
            final(self).wf(),
            final(self).source_code@ == old(self).source_code@,
            final(self).position == ws_end(old(self).source_code@, old(self).position as int),
    {
        let ghost s = self.source_code@;
        let ghost p0 = self.position as int;
        loop
            invariant
                self.wf(),
                self.source_code@ == s,
                0 <= p0 <= self.position as int,
                ws_end(s, p0) == ws_end(s, self.position as int),
            ensures
                self.source_code@ == s,
                self.position as int == ws_end(s, p0),
            decreases s.len() - self.position,
        {
            if self.position >= self.source_code.len() {
                break;
            }
            let c = self.source_code[self.position];
            if !char_is_whitespace(c) {
                break;
            }
            self.advance();
        }
    }

    /// Returns the given token after moving the cursor one character
    /// forward.
    fn consume_and_advance(&mut self, token: Token) -> (t: Token)
        requires
            old(self).wf(),
        ensures
            final(self).wf(),
            final(self).source_code@ == old(self).source_code@,
            t == token,
            old(self).position < old(self).source_code@.len() ==> final(self).position == old(
                self,
            ).position + 1,
            old(self).position >= old(self).source_code@.len() ==> final(self).position == old(
                self,
            ).position,
    {
        self.advance();
        token
    }

    /// The keyword table: classifies accumulated identifier text.
    fn classify_identifier(&self, identifier: &str) -> (t: Token)
        ensures
            t@ == spec_classify(identifier@),
    {
        if str_eq(identifier, "fn") {
            Token::KeywordFn
        } else if str_eq(identifier, "if") {
            Token::KeywordIf
        } else if str_eq(identifier, "elif") {
            Token::KeywordElif
        } else if str_eq(identifier, "else") {
            Token::KeywordElse
        } else if str_eq(identifier, "return") {
            Token::KeywordReturn
        } else if str_eq(identifier, "bool") {
            Token::KeywordBool
        } else if str_eq(identifier, "int") {
            Token::KeywordInt
        } else if str_eq(identifier, "float") {
            Token::KeywordFloat
        } else if str_eq(identifier, "string") {
            Token::KeywordString
        } else {
            Token::Identifier(identifier.to_owned())
        }
    }

    /// Reads an identifier: the alphabetic character under the cursor and
    /// every following alphanumeric-or-underscore character.
    fn get_identifier(&mut self) -> (t: Token)
        requires
            old(self).wf(),
            old(self).position < old(self).source_code@.len(),
            is_alphabetic_char(old(self).source_code@[old(self).position as int]),
        ensures
            final(self).wf(),
            final(self).source_code@ == old(self).source_code@,
            final(self).position == ident_end(old(self).source_code@, old(self).position + 1),
            final(self).position > old(self).position,
            t@ == TokenV::Identifier(old(self).source_code@.subrange(
                old(self).position as int,
                ident_end(old(self).source_code@, old(self).position + 1),
            )),
    {
        let ghost s = self.source_code@;
        let ghost p0 = self.position as int;
        let mut chars: Vec<char> = Vec::new();
        chars.push(self.source_code[self.position]);
        self.advance();
        loop
            invariant
                self.wf(),
                self.source_code@ == s,
                0 <= p0 < s.len(),
                p0 + 1 <= self.position as int,
                chars@ == s.subrange(p0, self.position as int),
                ident_end(s, p0 + 1) == ident_end(s, self.position as int),
            ensures
                self.source_code@ == s,
                self.position as int == ident_end(s, p0 + 1),
                chars@ == s.subrange(p0, self.position as int),
            decreases s.len() - self.position,
        {
            if self.position >= self.source_code.len() {
                break;
            }
            let c = self.source_code[self.position];
            if !(char_is_alphanumeric(c) || c == '_') {
                break;
            }
            chars.push(c);
            self.advance();
            proof {
                assert(chars@ =~= s.subrange(p0, self.position as int));
            }
        }
        let text = chars_to_string(&chars);
        Token::Identifier(text)
    }

    /// Reads a numeric literal: the digit under the cursor and every
    /// following digit or `.`; the lexeme stays text, classified float
    /// exactly when it contains a `.`.
    fn get_number(&mut self) -> (t: Token)
        requires
            old(self).wf(),
            old(self).position < old(self).source_code@.len(),
            is_ascii_digit_char(old(self).source_code@[old(self).position as int]),
        ensures
            final(self).wf(),
            final(self).source_code@ == old(self).source_code@,
            final(self).position == number_end(old(self).source_code@, old(self).position + 1),
            final(self).position > old(self).position,
            t@ == ({
                let w = old(self).source_code@.subrange(
                    old(self).position as int,
                    number_end(old(self).source_code@, old(self).position + 1),
                );
                if spec_has_dot(w) {
                    TokenV::FloatNumber(w)
                } else {
                    TokenV::IntNumber(w)
                }
            }),
    {
        let ghost s = self.source_code@;
        let ghost p0 = self.position as int;
        let mut chars: Vec<char> = Vec::new();
        let mut is_float = false;
        chars.push(self.source_code[self.position]);
        self.advance();
        loop
            invariant
                self.wf(),
                self.source_code@ == s,
                0 <= p0 < s.len(),
                p0 + 1 <= self.position as int,
                chars@ == s.subrange(p0, self.position as int),
                is_float == spec_has_dot(chars@),
                number_end(s, p0 + 1) == number_end(s, self.position as int),
            ensures
                self.source_code@ == s,
                self.position as int == number_end(s, p0 + 1),
                chars@ == s.subrange(p0, self.position as int),
                is_float == spec_has_dot(chars@),
            decreases s.len() - self.position,
        {
            if self.position >= self.source_code.len() {
                break;
            }
            let c = self.source_code[self.position];
            if !(char_is_ascii_digit(c) || c == '.') {
                break;
            }
            let ghost prev = chars@;
            if c == '.' {
                is_float = true;
            }
            chars.push(c);
            self.advance();
            proof {
                lemma_has_dot_push(prev, c);
                assert(chars@ =~= s.subrange(p0, self.position as int));
            }
        }
        let text = chars_to_string(&chars);
        if is_float {
            Token::FloatNumber(text)
        } else {
            Token::IntNumber(text)
        }
    }

    /// Reads a string literal: everything between the quote under the
    /// cursor and the next quote, kept as-is; a quote that never comes is
    /// an unterminated-string error.
    fn get_string(&mut self) -> (r: Result<Token, LexError>)
        requires
            old(self).wf(),
            old(self).position < old(self).source_code@.len(),
            old(self).source_code@[old(self).position as int] == '"',
        ensures
            final(self).wf(),
            final(self).source_code@ == old(self).source_code@,
            ({
                let s = old(self).source_code@;
                let i = old(self).position as int;
                let e = string_end(s, i + 1);
                if e >= s.len() {
                    r matches Err(err) && err == (LexError::UnterminatedString { pos: i as usize })
                } else {
                    r matches Ok(t) && t@ == TokenV::StringValue(s.subrange(i + 1, e))
                        && final(self).position == e + 1 && e + 1 > i
                }
            }),
    {
        let ghost s = self.source_code@;
        let quote_pos = self.position;
        let ghost start = quote_pos + 1 as int;
        self.advance();
        let mut chars: Vec<char> = Vec::new();
        loop
            invariant
                self.wf(),
                self.source_code@ == s,
                1 <= start <= s.len(),
                start <= self.position as int,
                chars@ == s.subrange(start, self.position as int),
                string_end(s, start) == string_end(s, self.position as int),
            ensures
                self.source_code@ == s,
                self.position as int == string_end(s, start),
                chars@ == s.subrange(start, self.position as int),
            decreases s.len() - self.position,
        {
            if self.position >= self.source_code.len() {
                break;
            }
            let c = self.source_code[self.position];
            if c == '"' {
                break;
            }
            chars.push(c);
            self.advance();
            proof {
                assert(chars@ =~= s.subrange(start, self.position as int));
            }
        }
        if self.position >= self.source_code.len() {
            return Err(LexError::UnterminatedString { pos: quote_pos });
        }
        let text = chars_to_string(&chars);
        self.advance();
        Ok(Token::StringValue(text))
    }

    /// Resolves a one-or-two-character operator with one character of
    /// lookahead, greedily preferring the longer form.
    fn two_char_operator(&mut self, second: char, double: Token, single: Token) -> (t: Token)
        requires
            old(self).wf(),
            old(self).position < old(self).source_code@.len(),
        ensures
            final(self).wf(),
            final(self).source_code@ == old(self).source_code@,
            ({
                let (tv, k) = spec_two_char(
                    old(self).source_code@,
                    old(self).position as int,
                    second,
                    double@,
                    single@,
                );
                t@ == tv && final(self).position == k
            }),
    {
        self.advance();
        if self.position < self.source_code.len() {
            let c = self.source_code[self.position];
            if c == second {
                return self.consume_and_advance(double);
            }
        }
        single
    }

    /// Reads the token that starts under the cursor, which must sit on a
    /// non-whitespace character: exactly what `spec_next_token` says there.
    fn get_token(&mut self) -> (r: Result<Token, LexError>)
        requires
            old(self).wf(),
            old(self).position < old(self).source_code@.len(),
            !is_whitespace_char(old(self).source_code@[old(self).position as int]),
        ensures
            final(self).wf(),
            final(self).source_code@ == old(self).source_code@,
            match spec_next_token(old(self).source_code@, old(self).position as int) {
                Ok((tv, k)) => r matches Ok(t) && t@ == tv && final(self).position == k,
                Err(e) => r matches Err(err) && err == e,
            },
    {
        let c = self.source_code[self.position];
        if char_is_alphabetic(c) {
            Ok(self.get_identifier())
        } else if char_is_ascii_digit(c) {
            Ok(self.get_number())
        } else if c == '"' {
            self.get_string()
        } else if c == ':' {
            Ok(self.consume_and_advance(Token::Colon))
        } else if c == '(' {
            Ok(self.consume_and_advance(Token::LeftPar))
        } else if c == ')' {
            Ok(self.consume_and_advance(Token::RightPar))
        } else if c == '{' {
            Ok(self.consume_and_advance(Token::LeftCurly))
        } else if c == '}' {
            Ok(self.consume_and_advance(Token::RightCurly))
        } else if c == ';' {
            Ok(self.consume_and_advance(Token::Semicolon))
        } else if c == ',' {
            Ok(self.consume_and_advance(Token::Comma))
        } else if c == '[' {
            Ok(self.consume_and_advance(Token::LeftBracket))
        } else if c == ']' {
            Ok(self.consume_and_advance(Token::RightBracket))
        } else if c == '=' {
            Ok(self.two_char_operator('=', Token::EqualTo, Token::EqualSign))
        } else if c == '>' {
            Ok(self.two_char_operator('=', Token::GreaterThanOrEqual, Token::GreaterThan))
        } else if c == '<' {
            Ok(self.two_char_operator('=', Token::LessThanOrEqual, Token::LessThan))
        } else if c == '+' {
            Ok(self.two_char_operator('+', Token::Increment, Token::Plus))
        } else if c == '-' {
            Ok(self.two_char_operator('-', Token::Decrement, Token::Minus))
        } else if c == '!' {
            Ok(self.two_char_operator('=', Token::NotEqual, Token::Not))
        } else if c == '|' {
            Ok(self.two_char_operator('|', Token::LogicOr, Token::BitwiseOr))
        } else if c == '&' {
            Ok(self.two_char_operator('&', Token::LogicAnd, Token::BitwiseAnd))
        } else if c == '/' {
            Ok(self.consume_and_advance(Token::Divides))
        } else if c == '*' {
            Ok(self.two_char_operator('*', Token::Power, Token::Times))
        } else if c == '%' {
            Ok(self.consume_and_advance(Token::Mod))
        } else {
            Err(LexError::UnrecognizedChar { ch: c, pos: self.position })
        }
    }

    /// Produces the complete token sequence of the source text, closed by
    /// exactly one end-of-input token, or the first lexical error: exactly
    /// what `spec_tokenize` says of the text.
    pub fn tokenize(&mut self) -> (r: Result<Vec<Token>, LexError>)
        ensures
            final(self).source_code@ == old(self).source_code@,
            match spec_tokenize(old(self).source_code@) {
                Ok(tvs) => r matches Ok(ts) && ts@.map_values(|t: Token| t@) == tvs,
                Err(e) => r matches Err(err) && err == e,
            },
    {
        let ghost s = self.source_code@;
        self.position = 0;
        let mut tokens: Vec<Token> = Vec::new();
        loop
            invariant
                self.wf(),
                self.source_code@ == s,
                self.source_code@ == old(self).source_code@,
                spec_tokenize(s) == prepend_tokens(
                    tokens@.map_values(|t: Token| t@),
                    spec_tokenize_from(s, self.position as int),
                ),
            decreases s.len() - self.position,
        {
            let ghost p_prev = self.position as int;
            self.skip_any_whitespace();
            proof {
                lemma_ws_end(s, p_prev);
                assert(ws_end(s, self.position as int) == self.position as int);
                assert(spec_tokenize_from(s, p_prev) == spec_tokenize_from(
                    s,
                    self.position as int,
                ));
            }
            let ghost p = self.position as int;
            if self.is_eof() {
                let ghost acc_end = tokens@.map_values(|t: Token| t@);
                tokens.push(Token::Eof);
                proof {
                    assert(spec_tokenize_from(s, p) == Ok::<Seq<TokenV>, LexError>(
                        seq![TokenV::Eof],
                    ));
                    assert(tokens@.map_values(|t: Token| t@) =~= acc_end + seq![TokenV::Eof]);
                }
                return Ok(tokens);
            }
            let tok = match self.get_token() {
                Ok(t) => t,
                Err(e) => {
                    proof {
                        assert(spec_tokenize_from(s, p) == Err::<Seq<TokenV>, LexError>(e));
                    }
                    return Err(e);
                },
            };
            let ghost tv = tok@;
            let ghost k = self.position as int;
            proof {
                lemma_next_token_bounds(s, p);
            }
            let ghost acc0 = tokens@.map_values(|t: Token| t@);
            match tok {
                Token::Identifier(idt) => {
                    let classified = self.classify_identifier(idt.as_str());
                    tokens.push(classified);
                },
                other => {
                    tokens.push(other);
                },
            }
            proof {
                assert(tokens@.map_values(|t: Token| t@) =~= acc0 + seq![spec_classify_token(tv)]);
                assert(spec_tokenize_from(s, p) == match spec_tokenize_from(s, k) {
                    Err(e) => Err::<Seq<TokenV>, LexError>(e),
                    Ok(rest) => Ok(seq![spec_classify_token(tv)] + rest),
                });
                assert(spec_tokenize(s) == prepend_tokens(
                    tokens@.map_values(|t: Token| t@),
                    spec_tokenize_from(s, k),
                )) by {
                    match spec_tokenize_from(s, k) {
                        Err(e) => {},
                        Ok(rest) => {
                            assert(acc0 + (seq![spec_classify_token(tv)] + rest) =~= (acc0
                                + seq![spec_classify_token(tv)]) + rest);
                        },
                    }
                }
            }
        }
    }
}

/// The lexeme text a token stands for.
pub open spec fn spec_lexeme(t: TokenV) -> Seq<char> {
    match t {
        TokenV::IntNumber(w) => w,
        TokenV::FloatNumber(w) => w,
        TokenV::StringValue(w) => "\""@ + w + "\""@,
        TokenV::Identifier(w) => w,
        TokenV::KeywordFn => "fn"@,
        TokenV::KeywordIf => "if"@,
        TokenV::KeywordElif => "elif"@,
        TokenV::KeywordElse => "else"@,
        TokenV::KeywordReturn => "return"@,
        TokenV::KeywordInt => "int"@,
        TokenV::KeywordFloat => "float"@,
        TokenV::KeywordBool => "bool"@,
        TokenV::KeywordString => "string"@,
        TokenV::Colon => ":"@,
        TokenV::LeftBracket => "["@,
        TokenV::RightBracket => "]"@,
        TokenV::LeftCurly => "{"@,
        TokenV::RightCurly => "}"@,
        TokenV::LeftPar => "("@,
        TokenV::RightPar => ")"@,
        TokenV::Semicolon => ";"@,
        TokenV::EqualSign => "="@,
        TokenV::Comma => ","@,
        TokenV::Plus => "+"@,
        TokenV::Minus => "-"@,
        TokenV::Mod => "%"@,
        TokenV::Divides => "/"@,
        TokenV::Times => "*"@,
        TokenV::Power => "**"@,
        TokenV::GreaterThan => ">"@,
        TokenV::LessThan => "<"@,
        TokenV::GreaterThanOrEqual => ">="@,
        TokenV::LessThanOrEqual => "<="@,
        TokenV::NotEqual => "!="@,
        TokenV::EqualTo => "=="@,
        TokenV::Increment => "++"@,
        TokenV::Decrement => "--"@,
        TokenV::Not => "!"@,
        TokenV::LogicAnd => "&&"@,
        TokenV::LogicOr => "||"@,
        TokenV::BitwiseAnd => "&"@,
        TokenV::BitwiseOr => "|"@,
        TokenV::Eof => Seq::empty(),
    }
}

/// What one token contributes to reconstituted text: its lexeme and one
/// separating space; the end-of-input token contributes nothing.
pub open spec fn spec_chunk(t: TokenV) -> Seq<char> {
    match t {
        TokenV::Eof => Seq::empty(),
        _ => spec_lexeme(t) + " "@,
    }
}

/// Reconstituted source text: each token's lexeme with a single-space
/// separator after it.
pub open spec fn spec_render(ts: Seq<TokenV>) -> Seq<char>
    decreases ts.len(),
{
    if ts.len() == 0 {
        Seq::empty()
    } else {
        spec_render(ts.drop_last()) + spec_chunk(ts.last())
    }
}

/// Reconstitutes source text from a token sequence: each token's lexeme
/// followed by a single space, exactly `spec_render` of the sequence.
pub fn reconstitute(tokens: &Vec<Token>) -> (r: String)
    ensures
        r@ == spec_render(tokens@.map_values(|t: Token| t@)),
{
    let ghost tvs = tokens@.map_values(|t: Token| t@);
    let mut out = String::new();
    let mut i: usize = 0;
    while i < tokens.len()
        invariant
            tokens@.map_values(|t: Token| t@) == tvs,
            0 <= i <= tvs.len(),
            tokens@.len() == tvs.len(),
            out@ == spec_render(tvs.subrange(0, i as int)),
        decreases tvs.len() - i,
    {
        let ghost pre = tvs.subrange(0, i as int);
        proof {
            assert(tvs.subrange(0, i + 1).drop_last() =~= pre);
            assert(tvs.subrange(0, i + 1).last() == tvs[i as int]);
            assert(tvs[i as int] == tokens@[i as int]@);
        }
        match &tokens[i] {
            Token::IntNumber(s) => {
                out.append(s.as_str());
                out.append(" ");
                proof {
                    assert(out@ =~= spec_render(pre) + spec_chunk(tvs[i as int]));
                }
            },
            Token::FloatNumber(s) => {
                out.append(s.as_str());
                out.append(" ");
                proof {
                    assert(out@ =~= spec_render(pre) + spec_chunk(tvs[i as int]));
                }
            },
            Token::StringValue(s) => {
                out.append("\"");
                out.append(s.as_str());
                out.append("\"");
                out.append(" ");
                proof {
                    assert(out@ =~= spec_render(pre) + spec_chunk(tvs[i as int]));
                }
            },
            Token::Identifier(s) => {
                out.append(s.as_str());
                out.append(" ");
                proof {
                    assert(out@ =~= spec_render(pre) + spec_chunk(tvs[i as int]));
                }
            },
            Token::KeywordFn => {
                out.append("fn");
                out.append(" ");
                proof {
                    assert(out@ =~= spec_render(pre) + spec_chunk(tvs[i as int]));
                }
            },
            Token::KeywordIf => {
                out.append("if");
                out.append(" ");
                proof {
                    assert(out@ =~= spec_render(pre) + spec_chunk(tvs[i as int]));
                }
            },
            Token::KeywordElif => {
                out.append("elif");
                out.append(" ");
                proof {
                    assert(out@ =~= spec_render(pre) + spec_chunk(tvs[i as int]));
                }
            },
            Token::KeywordElse => {
                out.append("else");
                out.append(" ");
                proof {
                    assert(out@ =~= spec_render(pre) + spec_chunk(tvs[i as int]));
                }
            },
            Token::KeywordReturn => {
                out.append("return");
                out.append(" ");
                proof {
                    assert(out@ =~= spec_render(pre) + spec_chunk(tvs[i as int]));
                }
            },
            Token::KeywordInt => {
                out.append("int");
                out.append(" ");
                proof {
                    assert(out@ =~= spec_render(pre) + spec_chunk(tvs[i as int]));
                }
            },
            Token::KeywordFloat => {
                out.append("float");
                out.append(" ");
                proof {
                    assert(out@ =~= spec_render(pre) + spec_chunk(tvs[i as int]));
                }
            },
            Token::KeywordBool => {
                out.append("bool");
                out.append(" ");
                proof {
                    assert(out@ =~= spec_render(pre) + spec_chunk(tvs[i as int]));
                }
            },
            Token::KeywordString => {
                out.append("string");
                out.append(" ");
                proof {
                    assert(out@ =~= spec_render(pre) + spec_chunk(tvs[i as int]));
                }
            },
            Token::Colon => {
                out.append(":");
                out.append(" ");
                proof {
                    assert(out@ =~= spec_render(pre) + spec_chunk(tvs[i as int]));
                }
            },
            Token::LeftBracket => {
                out.append("[");
                out.append(" ");
                proof {
                    assert(out@ =~= spec_render(pre) + spec_chunk(tvs[i as int]));
                }
            },
            Token::RightBracket => {
                out.append("]");
                out.append(" ");
                proof {
                    assert(out@ =~= spec_render(pre) + spec_chunk(tvs[i as int]));
                }
            },
            Token::LeftCurly => {
                out.append("{");
                out.append(" ");
                proof {
                    assert(out@ =~= spec_render(pre) + spec_chunk(tvs[i as int]));
                }
            },
            Token::RightCurly => {
                out.append("}");
                out.append(" ");
                proof {
                    assert(out@ =~= spec_render(pre) + spec_chunk(tvs[i as int]));
                }
            },
            Token::LeftPar => {
                out.append("(");
                out.append(" ");
                proof {
                    assert(out@ =~= spec_render(pre) + spec_chunk(tvs[i as int]));
                }
            },
            Token::RightPar => {
                out.append(")");
                out.append(" ");
                proof {
                    assert(out@ =~= spec_render(pre) + spec_chunk(tvs[i as int]));
                }
            },
            Token::Semicolon => {
                out.append(";");
                out.append(" ");
                proof {
                    assert(out@ =~= spec_render(pre) + spec_chunk(tvs[i as int]));
                }
            },
            Token::EqualSign => {
                out.append("=");
                out.append(" ");
                proof {
                    assert(out@ =~= spec_render(pre) + spec_chunk(tvs[i as int]));
                }
            },
            Token::Comma => {
                out.append(",");
                out.append(" ");
                proof {
                    assert(out@ =~= spec_render(pre) + spec_chunk(tvs[i as int]));
                }
            },
            Token::Plus => {
                out.append("+");
                out.append(" ");
                proof {
                    assert(out@ =~= spec_render(pre) + spec_chunk(tvs[i as int]));
                }
            },
            Token::Minus => {
                out.append("-");
                out.append(" ");
                proof {
                    assert(out@ =~= spec_render(pre) + spec_chunk(tvs[i as int]));
                }
            },
            Token::Mod => {
                out.append("%");
                out.append(" ");
                proof {
                    assert(out@ =~= spec_render(pre) + spec_chunk(tvs[i as int]));
                }
            },
            Token::Divides => {
                out.append("/");
                out.append(" ");
                proof {
                    assert(out@ =~= spec_render(pre) + spec_chunk(tvs[i as int]));
                }
            },
            Token::Times => {
                out.append("*");
                out.append(" ");
                proof {
                    assert(out@ =~= spec_render(pre) + spec_chunk(tvs[i as int]));
                }
            },
            Token::Power => {
                out.append("**");
                out.append(" ");
                proof {
                    assert(out@ =~= spec_render(pre) + spec_chunk(tvs[i as int]));
                }
            },
            Token::GreaterThan => {
                out.append(">");
                out.append(" ");
                proof {
                    assert(out@ =~= spec_render(pre) + spec_chunk(tvs[i as int]));
                }
            },
            Token::LessThan => {
                out.append("<");
                out.append(" ");
                proof {
                    assert(out@ =~= spec_render(pre) + spec_chunk(tvs[i as int]));
                }
            },
            Token::GreaterThanOrEqual => {
                out.append(">=");
                out.append(" ");
                proof {
                    assert(out@ =~= spec_render(pre) + spec_chunk(tvs[i as int]));
                }
            },
            Token::LessThanOrEqual => {
                out.append("<=");
                out.append(" ");
                proof {
                    assert(out@ =~= spec_render(pre) + spec_chunk(tvs[i as int]));
                }
            },
            Token::NotEqual => {
                out.append("!=");
                out.append(" ");
                proof {
                    assert(out@ =~= spec_render(pre) + spec_chunk(tvs[i as int]));
                }
            },
            Token::EqualTo => {
                out.append("==");
                out.append(" ");
                proof {
                    assert(out@ =~= spec_render(pre) + spec_chunk(tvs[i as int]));
                }
            },
            Token::Increment => {
                out.append("++");
                out.append(" ");
                proof {
                    assert(out@ =~= spec_render(pre) + spec_chunk(tvs[i as int]));
                }
            },
            Token::Decrement => {
                out.append("--");
                out.append(" ");
                proof {
                    assert(out@ =~= spec_render(pre) + spec_chunk(tvs[i as int]));
                }
            },
            Token::Not => {
                out.append("!");
                out.append(" ");
                proof {
                    assert(out@ =~= spec_render(pre) + spec_chunk(tvs[i as int]));
                }
            },
            Token::LogicAnd => {
                out.append("&&");
                out.append(" ");
                proof {
                    assert(out@ =~= spec_render(pre) + spec_chunk(tvs[i as int]));
                }
            },
            Token::LogicOr => {
                out.append("||");
                out.append(" ");
                proof {
                    assert(out@ =~= spec_render(pre) + spec_chunk(tvs[i as int]));
                }
            },
            Token::BitwiseAnd => {
                out.append("&");
                out.append(" ");
                proof {
                    assert(out@ =~= spec_render(pre) + spec_chunk(tvs[i as int]));
                }
            },
            Token::BitwiseOr => {
                out.append("|");
                out.append(" ");
                proof {
                    assert(out@ =~= spec_render(pre) + spec_chunk(tvs[i as int]));
                }
            },
            Token::Eof => {
                proof {
                    assert(out@ =~= spec_render(pre) + spec_chunk(tvs[i as int]));
                }
            },
        }
        i += 1;
    }
    proof {
        assert(tvs.subrange(0, tvs.len() as int) =~= tvs);
    }
    out
}

/// The scan's output guarantee: a token sequence the scan accepts is
/// finite and closed by exactly one end-of-input token, which occurs
/// nowhere else in it.
pub proof fn lemma_token_stream_terminated(s: Seq<char>, i: int)
    requires
        0 <= i <= s.len(),
    ensures
        spec_tokenize_from(s, i) matches Ok(ts) ==> ts.len() >= 1 && (ts.last() matches TokenV::Eof)
            && (forall|k: int| 0 <= k < ts.len() - 1 ==> !((#[trigger] ts[k]) matches TokenV::Eof)),
    decreases s.len() - i,
{
    let j = ws_end(s, i);
    lemma_ws_end(s, i);
    if j < i || j >= s.len() {
    } else {
        match spec_next_token(s, j) {
            Err(_) => {},
            Ok((t, k0)) => {
                lemma_next_token_bounds(s, j);
                let k = if k0 <= j {
                    j + 1
                } else if k0 > s.len() {
                    s.len() as int
                } else {
                    k0
                };
                lemma_token_stream_terminated(s, k);
                assert(!(spec_classify_token(t) matches TokenV::Eof));
                match spec_tokenize_from(s, k) {
                    Err(_) => {},
                    Ok(rest) => {
                        let whole = seq![spec_classify_token(t)] + rest;
                        assert(whole.last() == rest.last());
                        assert forall|m: int| 0 <= m < whole.len() - 1 implies !((
                        #[trigger] whole[m]) matches TokenV::Eof) by {
                            if m > 0 {
                                assert(whole[m] == rest[m - 1]);
                            }
                        }
                    },
                }
            },
        }
    }
}

/// Reading one more character extends the dot test by exactly that
/// character.
pub proof fn lemma_has_dot_extend(w: Seq<char>, i: int)
    requires
        0 <= i < w.len(),
    ensures
        spec_has_dot(w.subrange(0, i + 1)) == (spec_has_dot(w.subrange(0, i)) || w[i] == '.'),
{
    assert(w.subrange(0, i + 1) =~= w.subrange(0, i).push(w[i]));
    lemma_has_dot_push(w.subrange(0, i), w[i]);
}

/// Appending one character extends the dot test by exactly that character.
proof fn lemma_has_dot_push(w: Seq<char>, c: char)
    ensures
        spec_has_dot(w.push(c)) == (spec_has_dot(w) || c == '.'),
{
    if spec_has_dot(w) {
        let k = choose|k: int| 0 <= k < w.len() && w[k] == '.';
        assert(w.push(c)[k] == '.');
    }
    if c == '.' {
        assert(w.push(c)[w.len() as int] == '.');
    }
    if spec_has_dot(w.push(c)) {
        let k = choose|k: int| 0 <= k < w.push(c).len() && w.push(c)[k] == '.';
        if k < w.len() {
            assert(w[k] == '.');
        }
    }
}

} // verus!

