//! Errors: why a token stream is no template.

use crate::token::{Token, TokenView};
use vstd::prelude::*;

verus! {

/// The reason for which a parse was given up.
#[derive(Clone, Copy, Debug, PartialEq, Eq, Structural)]
pub enum ParseErrorKind {
    /// A token of a kind that cannot stand where it was found.
    UnexpectedToken,
    /// The end of an expression where an operand had to stand.
    UnexpectedTerminator,
    /// `+` or `-` where an operand had to stand: there is no unary sign.
    UnaryOperator,
    /// An `Int` token whose text is no 32-bit integer numeral.
    MalformedInt,
    /// A `Float` token whose text is no floating-point numeral.
    MalformedFloat,
    /// A `Bool` token whose text is neither `true` nor `false`.
    MalformedBool,
    /// A tag block: the language has none yet.
    UnsupportedTag,
    /// The stream ended where a token had to be read.
    EndOfStream,
}

/// A failed parse: the reason, and the token at which the parse was given
/// up. There is no token where the stream had ended.
#[derive(Debug, PartialEq, Eq)]
pub struct ParseError {
    pub kind: ParseErrorKind,
    pub token: Option<Token>,
}

/// What a [`ParseError`] stands for in contracts.
pub struct ParseErrorView {
    pub kind: ParseErrorKind,
    pub token: Option<TokenView>,
}

impl ParseErrorView {
    /// The error of the given kind at `token`.
    pub open spec fn at(kind: ParseErrorKind, token: TokenView) -> ParseErrorView {
        ParseErrorView { kind, token: Some(token) }
    }

    /// The error of a stream that ended too early.
    pub open spec fn end_of_stream() -> ParseErrorView {
        ParseErrorView { kind: ParseErrorKind::EndOfStream, token: None }
    }
}

impl View for ParseError {
    type V = ParseErrorView;

    open spec fn view(&self) -> ParseErrorView {
        ParseErrorView {
            kind: self.kind,
            token: match self.token {
                Some(token) => Some(token@),
                None => None,
            },
        }
    }
}

impl ParseError {
    /// The error of the given kind at `token`.
    pub fn at(kind: ParseErrorKind, token: Token) -> (error: ParseError)
        ensures
            error@ == ParseErrorView::at(kind, token@),
    {
        ParseError { kind, token: Some(token) }
    }

    /// The error of a stream that ended too early.
    pub fn end_of_stream() -> (error: ParseError)
        ensures
            error@ == ParseErrorView::end_of_stream(),
    {
        ParseError { kind: ParseErrorKind::EndOfStream, token: None }
    }
}

} // verus!
