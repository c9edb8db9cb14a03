//! A small compiler front end for a line-oriented expression language.
//!
//! Source text is lexed into tokens, rewritten from infix to postfix form by
//! the shunting-yard algorithm (extended with function calls and argument
//! lists), split into statements, and lowered to a textual single-assignment
//! intermediate representation for an external backend.

pub mod compiler;
pub mod error;
pub mod format;
pub mod ir;
pub mod lexer;
pub mod parser;
pub mod rpn;
pub mod text;
pub mod token;
