//! Streams that end with an end marker, and the errors of the grammar.

use crate::error::{ParseErrorKind, ParseErrorView};
use crate::grammar::{
    expression_at, expression_tail, items_from, lemma_expression_end, lemma_next_item_end,
    lemma_operand_end, lemma_skip_spaces, math, next_item, operand_at, parse_template, token_at,
};
use crate::node::NodeView;
use crate::token::{TokenKind, TokenView};
use vstd::prelude::*;

verus! {

/// Whether the stream ends with an end marker.
pub open spec fn is_terminated(tokens: Seq<TokenView>) -> bool {
    tokens.len() > 0 && tokens.last().kind == TokenKind::Eof
}

/// Whether `error` names a token of the stream, or none where the error is
/// that the stream ended.
pub open spec fn is_error_of(error: ParseErrorView, tokens: Seq<TokenView>) -> bool {
    match error.token {
        Some(token) => error.kind != ParseErrorKind::EndOfStream && tokens.contains(token),
        None => error.kind == ParseErrorKind::EndOfStream,
    }
}

/// Whether a result of the grammar, where it is an error, names a token of the
/// stream, and is not the error that the stream ended where `terminated`
/// holds.
spec fn fails_within<T>(
    result: Result<T, ParseErrorView>,
    tokens: Seq<TokenView>,
    terminated: bool,
) -> bool {
    result matches Err(error) ==> is_error_of(error, tokens) && (terminated ==> error.kind
        != ParseErrorKind::EndOfStream)
}

/// In a stream that ends with an end marker, a token that is no space follows
/// every index of the stream.
pub proof fn lemma_token_follows(tokens: Seq<TokenView>, from: int)
    requires
        is_terminated(tokens),
        0 <= from < tokens.len(),
    ensures
        token_at(tokens, from) is Ok,
    decreases tokens.len() - from,
{
    if tokens[from].kind == TokenKind::Space {
        lemma_token_follows(tokens, from + 1);
    }
}

/// An operand is read within the stream.
proof fn lemma_operand_within(tokens: Seq<TokenView>, from: int, terminator: TokenKind)
    ensures
        fails_within(
            operand_at(tokens, from, terminator),
            tokens,
            is_terminated(tokens) && 0 <= from < tokens.len(),
        ),
        is_terminated(tokens) ==> (operand_at(tokens, from, terminator) matches Ok((_, next))
            ==> next < tokens.len()),
{
    lemma_skip_spaces(tokens, from);
    if is_terminated(tokens) && 0 <= from < tokens.len() {
        lemma_token_follows(tokens, from);
    }
}

/// The rest of an expression is read within the stream.
proof fn lemma_expression_tail_within(
    tokens: Seq<TokenView>,
    from: int,
    lhs: NodeView,
    terminator: TokenKind,
)
    ensures
        fails_within(
            expression_tail(tokens, from, lhs, terminator),
            tokens,
            is_terminated(tokens) && 0 <= from < tokens.len(),
        ),
    decreases tokens.len() - from,
{
    lemma_skip_spaces(tokens, from);
    if is_terminated(tokens) && 0 <= from < tokens.len() {
        lemma_token_follows(tokens, from);
    }
    if let Ok(index) = token_at(tokens, from) {
        let token = tokens[index];
        if token.kind == terminator {
        } else if token.kind == TokenKind::Add || token.kind == TokenKind::Subtract {
            lemma_expression_within(tokens, index + 1, terminator);
            lemma_expression_end(tokens, index + 1, terminator);
        } else if token.kind == TokenKind::Multiply || token.kind == TokenKind::Divide {
            lemma_operand_within(tokens, index + 1, terminator);
            lemma_operand_end(tokens, index + 1, terminator);
            if let Ok((rhs, next)) = operand_at(tokens, index + 1, terminator) {
                lemma_expression_tail_within(tokens, next, math(lhs, rhs, token.kind), terminator);
            }
        }
    }
}

/// An expression is read within the stream.
proof fn lemma_expression_within(tokens: Seq<TokenView>, from: int, terminator: TokenKind)
    ensures
        fails_within(
            expression_at(tokens, from, terminator),
            tokens,
            is_terminated(tokens) && 0 <= from < tokens.len(),
        ),
    decreases tokens.len() - from,
{
    lemma_operand_within(tokens, from, terminator);
    lemma_operand_end(tokens, from, terminator);
    if let Ok((first, next)) = operand_at(tokens, from, terminator) {
        lemma_expression_tail_within(tokens, next, first, terminator);
    }
}

/// The next item of a template is read within the stream.
proof fn lemma_next_item_within(tokens: Seq<TokenView>, from: int)
    ensures
        fails_within(
            next_item(tokens, from),
            tokens,
            is_terminated(tokens) && 0 <= from < tokens.len(),
        ),
        is_terminated(tokens) ==> (next_item(tokens, from) matches Ok(Some((_, next))) ==> next
            < tokens.len()),
{
    if 0 <= from < tokens.len() && tokens[from].kind == TokenKind::VariableStart {
        lemma_skip_spaces(tokens, from);
        lemma_expression_within(tokens, from + 1, TokenKind::VariableEnd);
        lemma_expression_end(tokens, from + 1, TokenKind::VariableEnd);
    }
}

/// The items of a template are read within the stream.
proof fn lemma_items_within(tokens: Seq<TokenView>, from: int)
    ensures
        fails_within(
            items_from(tokens, from),
            tokens,
            is_terminated(tokens) && 0 <= from < tokens.len(),
        ),
    decreases tokens.len() - from,
{
    lemma_next_item_within(tokens, from);
    lemma_next_item_end(tokens, from);
    if let Ok(Some((_, next))) = next_item(tokens, from) {
        lemma_items_within(tokens, next);
    }
}

/// Every error of the grammar names the token of the stream at which the
/// parse was given up, but for the error that the stream ended, which names
/// none.
pub proof fn lemma_error_names_token(tokens: Seq<TokenView>)
    ensures
        parse_template(tokens) matches Err(error) ==> is_error_of(error, tokens),
{
    lemma_items_within(tokens, 0);
}

/// A stream that ends with an end marker never ends too early: parsing it
/// gives a template, or an error at one of its tokens.
pub proof fn lemma_terminated_stream(tokens: Seq<TokenView>)
    requires
        is_terminated(tokens),
    ensures
        parse_template(tokens) matches Err(error) ==> error.kind != ParseErrorKind::EndOfStream
            && error.token is Some,
{
    lemma_items_within(tokens, 0);
}

} // verus!
