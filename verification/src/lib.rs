//! Front end of a small statically-typed language: a tokenizer, a
//! shunting-yard expression parser, a recursive-descent statement parser,
//! a per-block symbol table and an exact expression evaluator.
//!
//! Every public function carries a contract relating its result to a
//! specification-level model of the same computation; `laws` and
//! `roundtrip` prove the library's cross-cutting guarantees over those
//! models.

pub mod ast;
pub mod cli;
pub mod errors;
pub mod eval;
pub mod laws;
pub mod lexer;
pub mod parser;
pub mod roundtrip;
pub mod symbol_table;
pub mod text;
