//! The grammar: which tree a token stream denotes.
//!
//! ```text
//! template   ::= ( Text | block )*
//! block      ::= VariableStart expression VariableEnd
//! expression ::= term ( ( Add | Subtract ) expression )?
//! term       ::= operand ( ( Multiply | Divide ) operand )*
//! operand    ::= Identifier | Int | Float | Bool
//! ```
//!
//! Inside a block, `Space` tokens may stand between any two tokens. The
//! functions of this module read a stream from an index on and give the tree
//! that they found together with the index at which they stopped, or the
//! error that made them give up.

use crate::error::{ParseErrorKind, ParseErrorView};
use crate::node::{NodeView, SpecificNodeView};
use crate::numeral::{bool_value, i32_value, is_float_numeral};
use crate::token::{TokenKind, TokenView};
use vstd::prelude::*;

verus! {

/// The index of the first token at or after `from` that is no space: the
/// length of the stream where only spaces follow, `from` itself where it lies
/// outside of the stream.
pub open spec fn skip_spaces(tokens: Seq<TokenView>, from: int) -> int
    decreases tokens.len() - from,
{
    if 0 <= from < tokens.len() && tokens[from].kind == TokenKind::Space {
        skip_spaces(tokens, from + 1)
    } else {
        from
    }
}

/// Skipping spaces moves forward, stays within the stream, stops at a token
/// that is no space, and has nothing left to skip where it stopped.
pub proof fn lemma_skip_spaces(tokens: Seq<TokenView>, from: int)
    ensures
        from <= skip_spaces(tokens, from),
        from <= tokens.len() ==> skip_spaces(tokens, from) <= tokens.len(),
        0 <= skip_spaces(tokens, from) < tokens.len() ==> tokens[skip_spaces(tokens, from)].kind
            != TokenKind::Space,
        skip_spaces(tokens, skip_spaces(tokens, from)) == skip_spaces(tokens, from),
    decreases tokens.len() - from,
{
    if 0 <= from < tokens.len() && tokens[from].kind == TokenKind::Space {
        lemma_skip_spaces(tokens, from + 1);
    }
}

/// The symbol of an arithmetic operator.
pub open spec fn operator_symbol(kind: TokenKind) -> Seq<char>
    recommends
        kind.spec_precedence() > 0,
{
    match kind {
        TokenKind::Add => seq!['+'],
        TokenKind::Subtract => seq!['-'],
        TokenKind::Multiply => seq!['*'],
        _ => seq!['/'],
    }
}

/// The node of a binary operation: it stands where its left operand stands.
pub open spec fn math(lhs: NodeView, rhs: NodeView, operator: TokenKind) -> NodeView {
    NodeView {
        position: lhs.position,
        specific: SpecificNodeView::Math {
            lhs: Box::new(lhs),
            rhs: Box::new(rhs),
            operator: operator_symbol(operator),
        },
    }
}

/// The node of a text run.
pub open spec fn text_node(token: TokenView) -> NodeView {
    NodeView { position: token.position, specific: SpecificNodeView::Text(token.value) }
}

/// The node of a name.
pub open spec fn identifier_node(token: TokenView) -> NodeView {
    NodeView { position: token.position, specific: SpecificNodeView::Identifier(token.value) }
}

/// The node of a literal, read from the text of an `Int`, `Float` or `Bool`
/// token; an error where the text is malformed or the token of another kind.
pub open spec fn literal_node(token: TokenView) -> Result<NodeView, ParseErrorView> {
    match token.kind {
        TokenKind::Int => match i32_value(token.value) {
            Some(value) => Ok(
                NodeView { position: token.position, specific: SpecificNodeView::Int(value) },
            ),
            None => Err(ParseErrorView::at(ParseErrorKind::MalformedInt, token)),
        },
        TokenKind::Float => if is_float_numeral(token.value) {
            Ok(
                NodeView {
                    position: token.position,
                    specific: SpecificNodeView::Float(token.value),
                },
            )
        } else {
            Err(ParseErrorView::at(ParseErrorKind::MalformedFloat, token))
        },
        TokenKind::Bool => match bool_value(token.value) {
            Some(value) => Ok(
                NodeView { position: token.position, specific: SpecificNodeView::Bool(value) },
            ),
            None => Err(ParseErrorView::at(ParseErrorKind::MalformedBool, token)),
        },
        _ => Err(ParseErrorView::at(ParseErrorKind::UnexpectedToken, token)),
    }
}

/// Reads the next token that is no space, whatever its kind: the token's
/// index, or an error where the stream ends first.
pub open spec fn token_at(tokens: Seq<TokenView>, from: int) -> Result<int, ParseErrorView> {
    let index = skip_spaces(tokens, from);
    if 0 <= index < tokens.len() {
        Ok(index)
    } else {
        Err(ParseErrorView::end_of_stream())
    }
}

/// Reads the next token that is no space and demands that it be of the given
/// kind: the token's index, or an error.
pub open spec fn expect_at(tokens: Seq<TokenView>, from: int, kind: TokenKind) -> Result<
    int,
    ParseErrorView,
> {
    match token_at(tokens, from) {
        Ok(index) => if tokens[index].kind == kind {
            Ok(index)
        } else {
            Err(ParseErrorView::at(ParseErrorKind::UnexpectedToken, tokens[index]))
        },
        Err(error) => Err(error),
    }
}

/// Reads the next token that is no space as a name.
pub open spec fn identifier_at(tokens: Seq<TokenView>, from: int) -> Result<
    (NodeView, int),
    ParseErrorView,
> {
    match token_at(tokens, from) {
        Ok(index) => Ok((identifier_node(tokens[index]), index + 1)),
        Err(error) => Err(error),
    }
}

/// Reads the next token that is no space as a literal.
pub open spec fn literal_at(tokens: Seq<TokenView>, from: int) -> Result<
    (NodeView, int),
    ParseErrorView,
> {
    match token_at(tokens, from) {
        Ok(index) => match literal_node(tokens[index]) {
            Ok(node) => Ok((node, index + 1)),
            Err(error) => Err(error),
        },
        Err(error) => Err(error),
    }
}

/// Reads one operand: a name or a literal. The terminator, an operator or
/// any other token in its place is an error.
pub open spec fn operand_at(tokens: Seq<TokenView>, from: int, terminator: TokenKind) -> Result<
    (NodeView, int),
    ParseErrorView,
> {
    match token_at(tokens, from) {
        Ok(index) => {
            let token = tokens[index];
            if token.kind == terminator {
                Err(ParseErrorView::at(ParseErrorKind::UnexpectedTerminator, token))
            } else {
                match token.kind {
                    TokenKind::Identifier => identifier_at(tokens, from),
                    TokenKind::Int | TokenKind::Float | TokenKind::Bool => literal_at(
                        tokens,
                        from,
                    ),
                    TokenKind::Add | TokenKind::Subtract => Err(
                        ParseErrorView::at(ParseErrorKind::UnaryOperator, token),
                    ),
                    _ => Err(ParseErrorView::at(ParseErrorKind::UnexpectedToken, token)),
                }
            }
        },
        Err(error) => Err(error),
    }
}

/// Reads a whole expression up to the terminator: the expression's tree and
/// the index of the terminator, which is not consumed.
pub open spec fn expression_at(
    tokens: Seq<TokenView>,
    from: int,
    terminator: TokenKind,
) -> Result<(NodeView, int), ParseErrorView>
    decreases tokens.len() - from,
{
    match operand_at(tokens, from, terminator) {
        Ok((first, next)) => {
            proof {
                lemma_skip_spaces(tokens, from);
            }
            expression_tail(tokens, next, first, terminator)
        },
        Err(error) => Err(error),
    }
}

/// Reads the rest of an expression whose tree so far is `lhs`.
///
/// - At the terminator the expression is `lhs`.
/// - After `*` or `/` one operand follows; `lhs` and the operand become the
///   new tree so far.
/// - After `+` or `-` the whole rest of the expression is the right operand.
///   (A terminator that binds tighter than the operator, which no block has,
///   is an error there.)
pub open spec fn expression_tail(
    tokens: Seq<TokenView>,
    from: int,
    lhs: NodeView,
    terminator: TokenKind,
) -> Result<(NodeView, int), ParseErrorView>
    decreases tokens.len() - from,
{
    match token_at(tokens, from) {
        Ok(index) => {
            let token = tokens[index];
            proof {
                lemma_skip_spaces(tokens, from);
                lemma_skip_spaces(tokens, index + 1);
            }
            if token.kind == terminator {
                Ok((lhs, index))
            } else {
                match token.kind {
                    TokenKind::Add | TokenKind::Subtract => match expression_at(
                        tokens,
                        index + 1,
                        terminator,
                    ) {
                        Ok((rhs, end)) => if terminator.spec_precedence()
                            > token.kind.spec_precedence() {
                            Err(
                                ParseErrorView::at(
                                    ParseErrorKind::UnexpectedTerminator,
                                    tokens[end],
                                ),
                            )
                        } else {
                            Ok((math(lhs, rhs, token.kind), end))
                        },
                        Err(error) => Err(error),
                    },
                    TokenKind::Multiply | TokenKind::Divide => match operand_at(
                        tokens,
                        index + 1,
                        terminator,
                    ) {
                        Ok((rhs, next)) => expression_tail(
                            tokens,
                            next,
                            math(lhs, rhs, token.kind),
                            terminator,
                        ),
                        Err(error) => Err(error),
                    },
                    _ => Err(ParseErrorView::at(ParseErrorKind::UnexpectedToken, token)),
                }
            }
        },
        Err(error) => Err(error),
    }
}

/// An operand that was read ends behind a token of the stream, after `from`.
pub proof fn lemma_operand_end(tokens: Seq<TokenView>, from: int, terminator: TokenKind)
    ensures
        operand_at(tokens, from, terminator) matches Ok((_, next)) ==> from < next <= tokens.len()
            && next == skip_spaces(tokens, from) + 1,
{
    lemma_skip_spaces(tokens, from);
}

/// The rest of an expression that was read ends at the terminator, at or
/// after `from`.
pub proof fn lemma_expression_tail_end(
    tokens: Seq<TokenView>,
    from: int,
    lhs: NodeView,
    terminator: TokenKind,
)
    ensures
        expression_tail(tokens, from, lhs, terminator) matches Ok((_, end)) ==> from <= end
            < tokens.len() && tokens[end].kind == terminator && skip_spaces(tokens, end) == end,
    decreases tokens.len() - from,
{
    lemma_skip_spaces(tokens, from);
    if let Ok(index) = token_at(tokens, from) {
        let token = tokens[index];
        if token.kind == terminator {
        } else if token.kind == TokenKind::Add || token.kind == TokenKind::Subtract {
            lemma_expression_end(tokens, index + 1, terminator);
        } else if token.kind == TokenKind::Multiply || token.kind == TokenKind::Divide {
            lemma_operand_end(tokens, index + 1, terminator);
            if let Ok((rhs, next)) = operand_at(tokens, index + 1, terminator) {
                lemma_expression_tail_end(tokens, next, math(lhs, rhs, token.kind), terminator);
            }
        }
    }
}

/// An expression that was read ends at the terminator, after `from`.
pub proof fn lemma_expression_end(tokens: Seq<TokenView>, from: int, terminator: TokenKind)
    ensures
        expression_at(tokens, from, terminator) matches Ok((_, end)) ==> from < end < tokens.len()
            && tokens[end].kind == terminator && skip_spaces(tokens, end) == end,
    decreases tokens.len() - from,
{
    lemma_operand_end(tokens, from, terminator);
    if let Ok((first, next)) = operand_at(tokens, from, terminator) {
        lemma_expression_tail_end(tokens, next, first, terminator);
    }
}

/// Reads a variable block: the opening marker, an expression, the closing
/// marker. The block stands where its opening marker stands.
pub open spec fn variable_block_at(tokens: Seq<TokenView>, from: int) -> Result<
    (NodeView, int),
    ParseErrorView,
> {
    match expect_at(tokens, from, TokenKind::VariableStart) {
        Ok(start) => match expression_at(tokens, start + 1, TokenKind::VariableEnd) {
            Ok((inner, end)) => Ok(
                (
                    NodeView {
                        position: tokens[start].position,
                        specific: SpecificNodeView::VariableBlock(Box::new(inner)),
                    },
                    end + 1,
                ),
            ),
            Err(error) => Err(error),
        },
        Err(error) => Err(error),
    }
}

/// Reads the next item of a template, spaces not skipped: a text run or a
/// variable block, with the index behind it. `None` at any token that starts
/// neither; a tag block is an error.
pub open spec fn next_item(tokens: Seq<TokenView>, from: int) -> Result<
    Option<(NodeView, int)>,
    ParseErrorView,
> {
    if 0 <= from < tokens.len() {
        match tokens[from].kind {
            TokenKind::TagStart => Err(
                ParseErrorView::at(ParseErrorKind::UnsupportedTag, tokens[from]),
            ),
            TokenKind::VariableStart => match variable_block_at(tokens, from) {
                Ok(block) => Ok(Some(block)),
                Err(error) => Err(error),
            },
            TokenKind::Text => Ok(Some((text_node(tokens[from]), from + 1))),
            _ => Ok(None),
        }
    } else {
        Err(ParseErrorView::end_of_stream())
    }
}

/// An item that was read ends behind a token of the stream, after `from`.
pub proof fn lemma_next_item_end(tokens: Seq<TokenView>, from: int)
    ensures
        next_item(tokens, from) matches Ok(Some((_, next))) ==> from < next <= tokens.len(),
{
    if 0 <= from < tokens.len() && tokens[from].kind == TokenKind::VariableStart {
        lemma_skip_spaces(tokens, from);
        lemma_expression_end(tokens, from + 1, TokenKind::VariableEnd);
    }
}

/// Reads the items of a template from `from` on, up to the first token that
/// starts none: the items in order, and the index of that token.
pub open spec fn items_from(tokens: Seq<TokenView>, from: int) -> Result<
    (Seq<NodeView>, int),
    ParseErrorView,
>
    decreases tokens.len() - from,
{
    match next_item(tokens, from) {
        Ok(Some((item, next))) => {
            proof {
                lemma_next_item_end(tokens, from);
            }
            match items_from(tokens, next) {
                Ok((rest, end)) => Ok((seq![item] + rest, end)),
                Err(error) => Err(error),
            }
        },
        Ok(None) => Ok((Seq::empty(), from)),
        Err(error) => Err(error),
    }
}

/// The items of the template that a token stream denotes, or the error that
/// makes the stream no template.
pub open spec fn parse_template(tokens: Seq<TokenView>) -> Result<Seq<NodeView>, ParseErrorView> {
    match items_from(tokens, 0) {
        Ok((items, _)) => Ok(items),
        Err(error) => Err(error),
    }
}

/// A stream that holds an end marker alone denotes the template without
/// items.
pub proof fn lemma_empty_template(end: TokenView)
    requires
        end.kind == TokenKind::Eof,
    ensures
        parse_template(seq![end]) matches Ok(items) && items == Seq::<NodeView>::empty(),
{
}

/// A stream that holds one text token and an end marker denotes the template
/// whose only item is that text, as it was written.
pub proof fn lemma_plain_text(text: TokenView, end: TokenView)
    requires
        text.kind == TokenKind::Text,
        end.kind == TokenKind::Eof,
    ensures
        parse_template(seq![text, end]) matches Ok(items) && items == seq![text_node(text)],
{
    let tokens = seq![text, end];
    assert(items_from(tokens, 1) matches Ok(read) && read == (Seq::<NodeView>::empty(), 1int));
}

} // verus!
