//! Tokens: the lexical units that the parser consumes.

use vstd::prelude::*;

verus! {

/// The kind of a token.
#[derive(Clone, Copy, Debug, PartialEq, Eq, Structural)]
pub enum TokenKind {
    /// Literal text outside of any block.
    Text,
    /// The opening marker `{{` of a variable block.
    VariableStart,
    /// The closing marker `}}` of a variable block.
    VariableEnd,
    /// The opening marker `{%` of a tag block.
    TagStart,
    /// The closing marker `%}` of a tag block.
    TagEnd,
    /// A name.
    Identifier,
    /// An integer numeral.
    Int,
    /// A decimal numeral with a fraction or an exponent.
    Float,
    /// `true` or `false`.
    Bool,
    /// `+`
    Add,
    /// `-`
    Subtract,
    /// `*`
    Multiply,
    /// `/`
    Divide,
    /// A run of whitespace inside a block.
    Space,
    /// The end of the stream.
    Eof,
}

impl TokenKind {
    /// The precedence tier of the kind: 2 for `*` and `/`, 1 for `+` and `-`,
    /// 0 for every kind that is no operator.
    pub open spec fn spec_precedence(self) -> usize {
        match self {
            TokenKind::Multiply | TokenKind::Divide => 2,
            TokenKind::Add | TokenKind::Subtract => 1,
            _ => 0,
        }
    }

    /// The precedence tier of the kind.
    #[verifier::when_used_as_spec(spec_precedence)]
    pub fn precedence(self) -> (tier: usize)
        ensures
            tier == self.spec_precedence(),
    {
        match self {
            TokenKind::Multiply | TokenKind::Divide => 2,
            TokenKind::Add | TokenKind::Subtract => 1,
            _ => 0,
        }
    }
}

/// A token: its kind, the text it was read from and the byte offset of that
/// text in the template.
#[derive(Debug, PartialEq, Eq)]
pub struct Token {
    pub kind: TokenKind,
    pub value: String,
    pub position: usize,
}

/// What a [`Token`] stands for in contracts: the same three fields, the text
/// as a sequence of characters.
pub struct TokenView {
    pub kind: TokenKind,
    pub value: Seq<char>,
    pub position: usize,
}

impl View for Token {
    type V = TokenView;

    open spec fn view(&self) -> TokenView {
        TokenView { kind: self.kind, value: self.value@, position: self.position }
    }
}

impl Clone for Token {
    fn clone(&self) -> (copy: Token)
        ensures
            copy@ == self@,
    {
        Token { kind: self.kind, value: self.value.clone(), position: self.position }
    }
}

impl Token {
    /// A token of the given kind, text and byte offset.
    pub fn new(kind: TokenKind, value: &str, position: usize) -> (token: Token)
        ensures
            token@ == (TokenView { kind, value: value@, position }),
    {
        Token { kind, value: value.to_owned(), position }
    }
}

/// The views of the tokens of a stream, in order.
pub open spec fn view_tokens(tokens: Seq<Token>) -> Seq<TokenView> {
    tokens.map_values(|token: Token| token@)
}

} // verus!
