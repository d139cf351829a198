//! The shape of the trees that the grammar yields.
//!
//! `*` and `/` nest to the left and take single operands on their right;
//! `+` and `-` nest to the right and never stand below `*` or `/`.

use crate::grammar::{
    expression_at, expression_tail, items_from, lemma_next_item_end, lemma_operand_end,
    lemma_skip_spaces, math, next_item, operand_at, operator_symbol, parse_template, token_at,
};
use crate::node::{NodeView, SpecificNodeView};
use crate::numeral::is_float_numeral;
use crate::token::{TokenKind, TokenView};
use vstd::prelude::*;

verus! {

/// Whether `node` is an operand: a name, or a literal that is well formed.
pub open spec fn is_operand(node: NodeView) -> bool {
    match node.specific {
        SpecificNodeView::Identifier(_) => true,
        SpecificNodeView::Int(_) => true,
        SpecificNodeView::Float(numeral) => is_float_numeral(numeral),
        SpecificNodeView::Bool(_) => true,
        _ => false,
    }
}

/// Whether `node` is a term: an operand, or a `*` or `/` of a term on the left
/// and an operand on the right, standing where its left side stands.
pub open spec fn is_term(node: NodeView) -> bool
    decreases node,
{
    match node.specific {
        SpecificNodeView::Math { lhs, rhs, operator } => {
            &&& operator == operator_symbol(TokenKind::Multiply) || operator == operator_symbol(
                TokenKind::Divide,
            )
            &&& node.position == lhs.position
            &&& is_term(*lhs)
            &&& is_operand(*rhs)
        },
        _ => is_operand(node),
    }
}

/// Whether `node` is an expression: a term, or a `+` or `-` of a term on the
/// left and an expression on the right, standing where its left side stands.
pub open spec fn is_expression(node: NodeView) -> bool
    decreases node,
{
    ||| is_term(node)
    ||| {
        &&& node.specific matches SpecificNodeView::Math { lhs, rhs, operator }
        &&& operator == operator_symbol(TokenKind::Add) || operator == operator_symbol(
            TokenKind::Subtract,
        )
        &&& node.position == lhs.position
        &&& is_term(*lhs)
        &&& is_expression(*rhs)
    }
}

/// Whether `node` is an item of a template: a text run, or a variable block
/// that holds an expression.
pub open spec fn is_item(node: NodeView) -> bool {
    match node.specific {
        SpecificNodeView::Text(_) => true,
        SpecificNodeView::VariableBlock(inner) => is_expression(*inner),
        _ => false,
    }
}

/// Whether every node of `items` is an item of a template.
pub open spec fn are_items(items: Seq<NodeView>) -> bool {
    forall|i: int| 0 <= i < items.len() ==> is_item(#[trigger] items[i])
}

/// Whether `root` is the root of a template: a list of items.
pub open spec fn is_template(root: NodeView) -> bool {
    root.is_list() && are_items(root.children())
}

/// An operand that the grammar reads is an operand.
pub proof fn lemma_operand_shape(tokens: Seq<TokenView>, from: int, terminator: TokenKind)
    ensures
        operand_at(tokens, from, terminator) matches Ok((node, _)) ==> is_operand(node),
{
}

/// Where the tree so far is a term, the rest of an expression makes it an
/// expression.
pub proof fn lemma_expression_tail_shape(
    tokens: Seq<TokenView>,
    from: int,
    lhs: NodeView,
    terminator: TokenKind,
)
    requires
        is_term(lhs),
    ensures
        expression_tail(tokens, from, lhs, terminator) matches Ok((node, _)) ==> is_expression(
            node,
        ),
    decreases tokens.len() - from,
{
    lemma_skip_spaces(tokens, from);
    if let Ok(index) = token_at(tokens, from) {
        let token = tokens[index];
        if token.kind == terminator {
        } else if token.kind == TokenKind::Add || token.kind == TokenKind::Subtract {
            lemma_expression_shape(tokens, index + 1, terminator);
        } else if token.kind == TokenKind::Multiply || token.kind == TokenKind::Divide {
            lemma_operand_end(tokens, index + 1, terminator);
            lemma_operand_shape(tokens, index + 1, terminator);
            if let Ok((rhs, next)) = operand_at(tokens, index + 1, terminator) {
                lemma_expression_tail_shape(tokens, next, math(lhs, rhs, token.kind), terminator);
            }
        }
    }
}

/// Every expression that the grammar reads is an expression in shape: `*` and
/// `/` nest to the left, `+` and `-` to the right, and no `+` or `-` stands
/// below a `*` or `/`.
pub proof fn lemma_expression_shape(tokens: Seq<TokenView>, from: int, terminator: TokenKind)
    ensures
        expression_at(tokens, from, terminator) matches Ok((node, _)) ==> is_expression(node),
    decreases tokens.len() - from,
{
    lemma_operand_end(tokens, from, terminator);
    lemma_operand_shape(tokens, from, terminator);
    if let Ok((first, next)) = operand_at(tokens, from, terminator) {
        lemma_expression_tail_shape(tokens, next, first, terminator);
    }
}

/// The rest of an expression leaves the tree where its left side stands.
pub proof fn lemma_expression_tail_position(
    tokens: Seq<TokenView>,
    from: int,
    lhs: NodeView,
    terminator: TokenKind,
)
    ensures
        expression_tail(tokens, from, lhs, terminator) matches Ok((node, _)) ==> node.position
            == lhs.position,
    decreases tokens.len() - from,
{
    lemma_skip_spaces(tokens, from);
    if let Ok(index) = token_at(tokens, from) {
        let token = tokens[index];
        if token.kind != terminator && (token.kind == TokenKind::Multiply || token.kind
            == TokenKind::Divide) {
            lemma_operand_end(tokens, index + 1, terminator);
            if let Ok((rhs, next)) = operand_at(tokens, index + 1, terminator) {
                lemma_expression_tail_position(
                    tokens,
                    next,
                    math(lhs, rhs, token.kind),
                    terminator,
                );
            }
        }
    }
}

/// Every expression that the grammar reads stands where its first token
/// stands.
pub proof fn lemma_expression_position(tokens: Seq<TokenView>, from: int, terminator: TokenKind)
    ensures
        expression_at(tokens, from, terminator) matches Ok((node, _)) ==> token_at(tokens, from)
            matches Ok(first) && node.position == tokens[first].position,
{
    if let Ok((first, next)) = operand_at(tokens, from, terminator) {
        lemma_expression_tail_position(tokens, next, first, terminator);
    }
}

/// Every node that the grammar reads at the top of a template is an item.
pub proof fn lemma_items_shape(tokens: Seq<TokenView>, from: int)
    ensures
        items_from(tokens, from) matches Ok((items, _)) ==> are_items(items),
    decreases tokens.len() - from,
{
    if let Ok(Some((item, next))) = next_item(tokens, from) {
        lemma_next_item_end(tokens, from);
        lemma_skip_spaces(tokens, from);
        lemma_expression_shape(tokens, from + 1, TokenKind::VariableEnd);
        lemma_items_shape(tokens, next);
        if let Ok((rest, _)) = items_from(tokens, next) {
            assert forall|i: int| 0 <= i < (seq![item] + rest).len() implies is_item(
                #[trigger] (seq![item] + rest)[i],
            ) by {
                if i > 0 {
                    assert((seq![item] + rest)[i] == rest[i - 1]);
                }
            }
        }
    }
}

/// The items of every template are text runs and variable blocks, and every
/// variable block holds an expression.
pub proof fn lemma_template_shape(tokens: Seq<TokenView>)
    ensures
        parse_template(tokens) matches Ok(items) ==> are_items(items),
{
    lemma_items_shape(tokens, 0);
}

} // verus!
