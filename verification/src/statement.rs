//! Statements: declarations, function declarations and expressions, which
//! blocks are made of.
pub use crate::expr::{Declare, FunDeclare, Statement};
