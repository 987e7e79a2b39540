//! Scanning and parsing of arithmetic expressions.
//!
//! A source text is cut into tokens by [`scanner::Scanner`]; the tokens are
//! turned by [`parser::Parser`] into a postfix program, an [`parser::Op`]
//! sequence in evaluation order. What each step yields is stated over
//! sequences of characters and tokens, and proved.

pub mod error;
pub mod token;
pub mod scanner;
pub mod parser;
pub mod pipeline;
pub mod stack;
