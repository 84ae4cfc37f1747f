//! Lexical front end of a Markdown parser: a byte-offset tokenizer and the
//! rule that recognises a heading at the start of a line.

pub mod boundary;
pub mod heading;
pub mod lexis;
pub mod node;
pub mod token;
pub mod tokenizer;

pub use node::{Kind, Link, Node};
pub use token::{Category, Lexeme, Slice, Token};
pub use tokenizer::Tokenizer;
