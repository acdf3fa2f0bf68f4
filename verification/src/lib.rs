//! A line-oriented text editor driven by a small embedded command language.
//!
//! The library holds the cursor-addressed text buffer, the lexer of the
//! command language, the variable store, the expression evaluator and the
//! command interpreter. All input and output is left to the caller.

pub mod utf8;
pub mod text;
pub mod number;
pub mod token;
pub mod lexer;
pub mod search;
pub mod store;
pub mod error;
pub mod expr;
pub mod semantics;
pub mod buffer;
pub mod pleco;
