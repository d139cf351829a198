//! A parser for a small text-templating language.
//!
//! A template is literal text with `{{ expression }}` blocks in it, and an
//! expression is built from names, integer, decimal and boolean literals and
//! the operators `+ - * /`. The parser takes the tokens of a template, each
//! with its kind, its text and its byte offset, and builds a tree whose root
//! lists the text runs and the blocks of the template in the order in which
//! they stand.
//!
//! - [`token`] and [`node`] hold the data: tokens in, nodes out.
//! - [`grammar`] says which tree a token stream denotes, or why it denotes
//!   none; [`numeral`] says what the text of a literal denotes.
//! - [`parser`] holds the parser, which computes what the grammar says.
//! - [`shape`], [`stream`], [`structure`] and [`unparse`] state what holds of
//!   every tree and every error that the grammar yields.

pub mod error;
pub mod grammar;
pub mod node;
pub mod numeral;
pub mod parser;
pub mod shape;
pub mod stream;
pub mod structure;
pub mod token;
pub mod unparse;
