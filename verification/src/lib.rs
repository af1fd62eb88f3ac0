//! Core data structures and algorithms of the Butter language toolchain.
use vstd::prelude::*;

pub mod assoc;
pub mod decimal;
pub mod doc;
pub mod expr;
pub mod expr_grammar;
pub mod expr_parser;
pub mod expr_print;
pub mod forest;
pub mod ident_keyword;
pub mod lexeme;
pub mod lexer;
pub mod number;
pub mod operator;
pub mod parser;
pub mod pattern;
pub mod pattern_parser;
pub mod pattern_print;
pub mod span;
pub mod statement;
pub mod pretty_print;
pub mod tree;
pub mod tree_vec;
pub mod ty;

verus! {
} // verus!
