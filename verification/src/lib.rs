//! A front end for C preprocessor source text: a lookahead tokenizer and a
//! recursive-descent parser that builds a tree of directive statements.

pub mod ast;
pub mod unicode;
pub mod identifier;
pub mod parser;
pub mod token;
pub mod util;

pub use identifier::Identifier;
