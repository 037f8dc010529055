//! An arithmetic expression parser: text is split into tokens, the tokens are
//! parsed by precedence climbing into a binary expression tree, and the tree
//! can be rendered back to text or inspected by an evaluator.
pub mod env;
pub mod error;
pub mod eval;
pub mod laws;
pub mod lexer;
pub mod parser;
