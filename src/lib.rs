//! A recursive-descent parser from tokens to an expression tree, with every
//! node of the tree carrying an identifier unique within one parse.
//!
//! - `token`: the tokens the scanner hands over.
//! - `ast`: the syntax tree, its mathematical model, and facts about node
//!   identifiers.
//! - `grammar`: the grammar as functions on token sequences; the parser's
//!   contracts are stated against it.
//! - `parse`: the parser itself.

pub mod token;
pub mod ast;
pub mod grammar;
pub mod parse;
pub mod ids;
