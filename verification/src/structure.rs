//! The structure of a tree: the tree without the positions of its nodes.
//!
//! Which structure a stream denotes depends on the kinds and the texts of its
//! tokens alone, not on where the tokens stand in the template.

use crate::error::ParseErrorView;
use crate::grammar::{
    expression_at, expression_tail, items_from, lemma_expression_end, lemma_next_item_end,
    lemma_operand_end, lemma_skip_spaces, math, next_item, operand_at, parse_template,
    skip_spaces, token_at,
};
use crate::node::{NodeView, SpecificNodeView};
use crate::token::{TokenKind, TokenView};
use crate::unparse::{lemma_reparse, template_tokens};
use vstd::prelude::*;

verus! {

/// The structure of a tree: the same tree with every node at position 0.
pub open spec fn structure(node: NodeView) -> NodeView
    decreases node,
{
    NodeView {
        position: 0,
        specific: match node.specific {
            SpecificNodeView::List(children) => SpecificNodeView::List(
                Seq::new(
                    children.len(),
                    |i: int|
                        if 0 <= i < children.len() {
                            structure(children[i])
                        } else {
                            arbitrary()
                        },
                ),
            ),
            SpecificNodeView::VariableBlock(inner) => SpecificNodeView::VariableBlock(
                Box::new(structure(*inner)),
            ),
            SpecificNodeView::Math { lhs, rhs, operator } => SpecificNodeView::Math {
                lhs: Box::new(structure(*lhs)),
                rhs: Box::new(structure(*rhs)),
                operator,
            },
            other => other,
        },
    }
}

/// The structures of the trees of a sequence, in order.
pub open spec fn structures(nodes: Seq<NodeView>) -> Seq<NodeView> {
    nodes.map_values(|node: NodeView| structure(node))
}

/// A token without its position.
pub open spec fn unplaced(token: TokenView) -> TokenView {
    TokenView { kind: token.kind, value: token.value, position: 0 }
}

/// An error without the position of its token.
pub open spec fn unplaced_error(error: ParseErrorView) -> ParseErrorView {
    ParseErrorView {
        kind: error.kind,
        token: match error.token {
            Some(token) => Some(unplaced(token)),
            None => None,
        },
    }
}

/// Whether two streams hold the same kinds and texts, token by token.
pub open spec fn same_text(a: Seq<TokenView>, b: Seq<TokenView>) -> bool {
    a.len() == b.len() && forall|i: int|
        0 <= i < a.len() ==> unplaced(#[trigger] a[i]) == unplaced(b[i])
}

/// Whether two results of the grammar agree but for positions: the same
/// structure up to the same index, or the same error.
pub open spec fn same_outcome(
    a: Result<(NodeView, int), ParseErrorView>,
    b: Result<(NodeView, int), ParseErrorView>,
) -> bool {
    match (a, b) {
        (Ok((first, end)), Ok((second, same_end))) => structure(first) == structure(second) && end
            == same_end,
        (Err(first), Err(second)) => unplaced_error(first) == unplaced_error(second),
        _ => false,
    }
}

/// Whether two results of the grammar on the items of a template agree but
/// for positions.
pub open spec fn same_items(
    a: Result<(Seq<NodeView>, int), ParseErrorView>,
    b: Result<(Seq<NodeView>, int), ParseErrorView>,
) -> bool {
    match (a, b) {
        (Ok((first, end)), Ok((second, same_end))) => structures(first) == structures(second)
            && end == same_end,
        (Err(first), Err(second)) => unplaced_error(first) == unplaced_error(second),
        _ => false,
    }
}

/// Spaces are skipped alike in streams of the same text.
pub proof fn lemma_skip_spaces_same(a: Seq<TokenView>, b: Seq<TokenView>, from: int)
    requires
        same_text(a, b),
    ensures
        skip_spaces(a, from) == skip_spaces(b, from),
    decreases a.len() - from,
{
    if 0 <= from < a.len() {
        assert(unplaced(a[from]) == unplaced(b[from]));
        if a[from].kind == TokenKind::Space {
            lemma_skip_spaces_same(a, b, from + 1);
        }
    }
}

/// Operands are read alike in streams of the same text.
pub proof fn lemma_operand_same(
    a: Seq<TokenView>,
    b: Seq<TokenView>,
    from: int,
    terminator: TokenKind,
)
    requires
        same_text(a, b),
    ensures
        same_outcome(operand_at(a, from, terminator), operand_at(b, from, terminator)),
{
    lemma_skip_spaces_same(a, b, from);
    let index = skip_spaces(a, from);
    if 0 <= index < a.len() {
        assert(unplaced(a[index]) == unplaced(b[index]));
    }
}

/// The rest of an expression is read alike in streams of the same text.
pub proof fn lemma_expression_tail_same(
    a: Seq<TokenView>,
    b: Seq<TokenView>,
    from: int,
    first: NodeView,
    second: NodeView,
    terminator: TokenKind,
)
    requires
        same_text(a, b),
        structure(first) == structure(second),
    ensures
        same_outcome(
            expression_tail(a, from, first, terminator),
            expression_tail(b, from, second, terminator),
        ),
    decreases a.len() - from,
{
    lemma_skip_spaces_same(a, b, from);
    lemma_skip_spaces(a, from);
    if let Ok(index) = token_at(a, from) {
        let token = a[index];
        assert(unplaced(token) == unplaced(b[index]));
        if token.kind == terminator {
        } else if token.kind == TokenKind::Add || token.kind == TokenKind::Subtract {
            lemma_expression_same(a, b, index + 1, terminator);
            lemma_expression_end(a, index + 1, terminator);
            if let Ok((_, end)) = expression_at(a, index + 1, terminator) {
                assert(unplaced(a[end]) == unplaced(b[end]));
            }
        } else if token.kind == TokenKind::Multiply || token.kind == TokenKind::Divide {
            lemma_operand_same(a, b, index + 1, terminator);
            lemma_operand_end(a, index + 1, terminator);
            if let Ok((rhs, next)) = operand_at(a, index + 1, terminator) {
                let other = operand_at(b, index + 1, terminator)->Ok_0.0;
                lemma_expression_tail_same(
                    a,
                    b,
                    next,
                    math(first, rhs, token.kind),
                    math(second, other, token.kind),
                    terminator,
                );
            }
        }
    }
}

/// Expressions are read alike in streams of the same text.
pub proof fn lemma_expression_same(
    a: Seq<TokenView>,
    b: Seq<TokenView>,
    from: int,
    terminator: TokenKind,
)
    requires
        same_text(a, b),
    ensures
        same_outcome(expression_at(a, from, terminator), expression_at(b, from, terminator)),
    decreases a.len() - from,
{
    lemma_operand_same(a, b, from, terminator);
    lemma_operand_end(a, from, terminator);
    if let Ok((first, next)) = operand_at(a, from, terminator) {
        let second = operand_at(b, from, terminator)->Ok_0.0;
        lemma_expression_tail_same(a, b, next, first, second, terminator);
    }
}

/// The next item is read alike in streams of the same text.
pub proof fn lemma_next_item_same(a: Seq<TokenView>, b: Seq<TokenView>, from: int)
    requires
        same_text(a, b),
    ensures
        match (next_item(a, from), next_item(b, from)) {
            (Ok(Some((first, next))), Ok(Some((second, same_next)))) => structure(first)
                == structure(second) && next == same_next,
            (Ok(None), Ok(None)) => true,
            (Err(first), Err(second)) => unplaced_error(first) == unplaced_error(second),
            _ => false,
        },
{
    if 0 <= from < a.len() {
        assert(unplaced(a[from]) == unplaced(b[from]));
        if a[from].kind == TokenKind::VariableStart {
            lemma_skip_spaces(a, from);
            lemma_skip_spaces(b, from);
            lemma_expression_same(a, b, from + 1, TokenKind::VariableEnd);
        }
    }
}

/// The items of a template are read alike in streams of the same text.
pub proof fn lemma_items_same(a: Seq<TokenView>, b: Seq<TokenView>, from: int)
    requires
        same_text(a, b),
    ensures
        same_items(items_from(a, from), items_from(b, from)),
    decreases a.len() - from,
{
    lemma_next_item_same(a, b, from);
    lemma_next_item_end(a, from);
    if let Ok(Some((first, next))) = next_item(a, from) {
        let second = next_item(b, from)->Ok_0->Some_0.0;
        lemma_items_same(a, b, next);
        if let Ok((rest, _)) = items_from(a, next) {
            let others = items_from(b, next)->Ok_0.0;
            assert(structures(seq![first] + rest) =~= seq![structure(first)] + structures(rest));
            assert(structures(seq![second] + others) =~= seq![structure(second)] + structures(
                others,
            ));
        }
    } else {
        assert(structures(Seq::<NodeView>::empty()) =~= Seq::<NodeView>::empty());
    }
}

/// Two streams that hold the same kinds and texts, token by token, denote
/// the same structure, or fail alike: where the tokens stand does not matter.
pub proof fn lemma_same_text_same_structure(a: Seq<TokenView>, b: Seq<TokenView>)
    requires
        same_text(a, b),
    ensures
        match (parse_template(a), parse_template(b)) {
            (Ok(first), Ok(second)) => structures(first) == structures(second),
            (Err(first), Err(second)) => unplaced_error(first) == unplaced_error(second),
            _ => false,
        },
{
    lemma_items_same(a, b, 0);
}

/// Whatever tree the grammar yields, writing its tokens out anew, wherever
/// they come to stand, and parsing them yields a tree of the same structure.
pub proof fn lemma_reparse_structure(tokens: Seq<TokenView>, rewritten: Seq<TokenView>)
    requires
        parse_template(tokens) matches Ok(items) && same_text(rewritten, template_tokens(items)),
    ensures
        parse_template(tokens) matches Ok(items) && parse_template(rewritten) matches Ok(again)
            && structures(again) == structures(items),
{
    let items = parse_template(tokens)->Ok_0;
    lemma_reparse(tokens);
    lemma_same_text_same_structure(rewritten, template_tokens(items));
}

} // verus!
