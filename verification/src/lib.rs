//! Core of a parser for an indentation-sensitive functional language with
//! user-definable operators.
//!
//! The crate models the lexed input (tokens, bracketed groups, indented
//! blocks), classifies operator-like tokens, resolves operator precedence
//! into expression trees, and recognizes declaration heads (function,
//! constructor, and foreign-function definitions).  Malformed input is never
//! rejected: errors are attached to the smallest enclosing subtree, and no
//! token of the input is ever dropped.

pub mod token;
pub mod item;
pub mod operator;
pub mod tree;
pub mod resolver;
pub mod statement;
pub mod function_def;
