//! The front end of a small language for time-synchronised signal chains: a
//! tokenizer and a recursive-descent parser that fills a table of chains.
//!
//! - [`text`]: characters and strings, and the few facts about the standard
//!   library that are believed without proof.
//! - [`lexer`]: the tokenizer, and what a call of it returns as a function of
//!   the characters left to read.
//! - [`value`], [`expr`], [`error`]: what a parse produces. Numbers are kept
//!   exact: a decimal literal as its text, a pitch as a count of semitones, a
//!   duration as what was written together with the tempo that held.
//! - [`builder`]: the table of chains and the scopes in which names resolve.
//! - [`grammar`]: every production as a function of the parser's state.
//! - [`parser`]: the parser, each method of which is proved to do what the
//!   production of the same name says.
//! - [`progress`], [`laws`]: what holds of the grammar on every input.

pub mod builder;
pub mod error;
pub mod expr;
pub mod grammar;
pub mod laws;
pub mod lexer;
pub mod parser;
pub mod progress;
pub mod text;
pub mod value;
