//! From trees back to tokens, and the round trip through the grammar.

use crate::error::ParseErrorView;
use crate::grammar::{
    expression_at, expression_tail, items_from, lemma_expression_end, lemma_next_item_end,
    lemma_operand_end, lemma_skip_spaces, math, next_item, operand_at, operator_symbol,
    parse_template, skip_spaces, token_at,
};
use crate::node::{NodeView, SpecificNodeView};
use crate::numeral::{bool_text, int_text, lemma_bool_text, lemma_int_text};
use crate::shape::{
    are_items, is_expression, is_item, is_operand, is_term, lemma_template_shape,
};
use crate::token::{TokenKind, TokenView};
use vstd::prelude::*;

verus! {

/// The kind of the operator token with the given symbol.
pub open spec fn operator_kind(symbol: Seq<char>) -> TokenKind {
    if symbol == operator_symbol(TokenKind::Add) {
        TokenKind::Add
    } else if symbol == operator_symbol(TokenKind::Subtract) {
        TokenKind::Subtract
    } else if symbol == operator_symbol(TokenKind::Multiply) {
        TokenKind::Multiply
    } else {
        TokenKind::Divide
    }
}

/// The tokens of an expression, without spaces: every operand gives one
/// token at the operand's position, every operation gives the tokens of its
/// left side, its operator and the tokens of its right side.
pub open spec fn expression_tokens(node: NodeView) -> Seq<TokenView>
    decreases node,
{
    match node.specific {
        SpecificNodeView::Identifier(name) => seq![
            TokenView { kind: TokenKind::Identifier, value: name, position: node.position },
        ],
        SpecificNodeView::Int(value) => seq![
            TokenView {
                kind: TokenKind::Int,
                value: int_text(value as int),
                position: node.position,
            },
        ],
        SpecificNodeView::Float(numeral) => seq![
            TokenView { kind: TokenKind::Float, value: numeral, position: node.position },
        ],
        SpecificNodeView::Bool(value) => seq![
            TokenView { kind: TokenKind::Bool, value: bool_text(value), position: node.position },
        ],
        SpecificNodeView::Math { lhs, rhs, operator } => expression_tokens(*lhs) + seq![
            TokenView { kind: operator_kind(operator), value: operator, position: node.position },
        ] + expression_tokens(*rhs),
        _ => Seq::empty(),
    }
}

/// The tokens of an item of a template: one `Text` token for a text run; for
/// a variable block its expression between `{{` and `}}`.
pub open spec fn item_tokens(node: NodeView) -> Seq<TokenView> {
    match node.specific {
        SpecificNodeView::Text(text) => seq![
            TokenView { kind: TokenKind::Text, value: text, position: node.position },
        ],
        SpecificNodeView::VariableBlock(inner) => seq![
            TokenView {
                kind: TokenKind::VariableStart,
                value: seq!['{', '{'],
                position: node.position,
            },
        ] + expression_tokens(*inner) + seq![
            TokenView {
                kind: TokenKind::VariableEnd,
                value: seq!['}', '}'],
                position: node.position,
            },
        ],
        _ => Seq::empty(),
    }
}

/// The tokens of a sequence of items, one item after the other.
pub open spec fn items_tokens(items: Seq<NodeView>) -> Seq<TokenView>
    decreases items.len(),
{
    if items.len() == 0 {
        Seq::empty()
    } else {
        item_tokens(items[0]) + items_tokens(items.drop_first())
    }
}

/// The token stream of a template with the given items: their tokens, and an
/// end marker.
pub open spec fn template_tokens(items: Seq<NodeView>) -> Seq<TokenView> {
    items_tokens(items) + seq![
        TokenView { kind: TokenKind::Eof, value: Seq::empty(), position: 0 },
    ]
}

/// A result of the grammar with its end index moved by `by`.
pub open spec fn moved<T>(result: Result<(T, int), ParseErrorView>, by: int) -> Result<
    (T, int),
    ParseErrorView,
> {
    match result {
        Ok((value, end)) => Ok((value, end + by)),
        Err(error) => Err(error),
    }
}

/// Skipping spaces does not depend on what stands before `from`.
pub proof fn lemma_skip_spaces_moved(before: Seq<TokenView>, tokens: Seq<TokenView>, from: int)
    requires
        0 <= from,
    ensures
        skip_spaces(before + tokens, before.len() + from) == before.len() + skip_spaces(
            tokens,
            from,
        ),
    decreases tokens.len() - from,
{
    if from < tokens.len() {
        assert((before + tokens)[before.len() + from] == tokens[from]);
        if tokens[from].kind == TokenKind::Space {
            lemma_skip_spaces_moved(before, tokens, from + 1);
        }
    }
}

/// Reading an operand does not depend on what stands before `from`.
pub proof fn lemma_operand_moved(
    before: Seq<TokenView>,
    tokens: Seq<TokenView>,
    from: int,
    terminator: TokenKind,
)
    requires
        0 <= from,
    ensures
        operand_at(before + tokens, before.len() + from, terminator) == moved(
            operand_at(tokens, from, terminator),
            before.len() as int,
        ),
{
    lemma_skip_spaces_moved(before, tokens, from);
    lemma_skip_spaces(tokens, from);
    let index = skip_spaces(tokens, from);
    if index < tokens.len() {
        assert((before + tokens)[before.len() + index] == tokens[index]);
    }
}

/// Reading the rest of an expression does not depend on what stands before
/// `from`.
pub proof fn lemma_expression_tail_moved(
    before: Seq<TokenView>,
    tokens: Seq<TokenView>,
    from: int,
    lhs: NodeView,
    terminator: TokenKind,
)
    requires
        0 <= from,
    ensures
        expression_tail(before + tokens, before.len() + from, lhs, terminator) == moved(
            expression_tail(tokens, from, lhs, terminator),
            before.len() as int,
        ),
    decreases tokens.len() - from,
{
    let all = before + tokens;
    let shift = before.len() as int;
    lemma_skip_spaces_moved(before, tokens, from);
    lemma_skip_spaces(tokens, from);
    if let Ok(index) = token_at(tokens, from) {
        let token = tokens[index];
        assert(all[shift + index] == token);
        if token.kind == terminator {
        } else if token.kind == TokenKind::Add || token.kind == TokenKind::Subtract {
            lemma_expression_moved(before, tokens, index + 1, terminator);
            lemma_expression_end(tokens, index + 1, terminator);
            if let Ok((_, end)) = expression_at(tokens, index + 1, terminator) {
                assert(all[shift + end] == tokens[end]);
            }
        } else if token.kind == TokenKind::Multiply || token.kind == TokenKind::Divide {
            lemma_operand_moved(before, tokens, index + 1, terminator);
            lemma_operand_end(tokens, index + 1, terminator);
            if let Ok((rhs, next)) = operand_at(tokens, index + 1, terminator) {
                lemma_expression_tail_moved(
                    before,
                    tokens,
                    next,
                    math(lhs, rhs, token.kind),
                    terminator,
                );
            }
        }
    }
}

/// Reading an expression does not depend on what stands before `from`.
pub proof fn lemma_expression_moved(
    before: Seq<TokenView>,
    tokens: Seq<TokenView>,
    from: int,
    terminator: TokenKind,
)
    requires
        0 <= from,
    ensures
        expression_at(before + tokens, before.len() + from, terminator) == moved(
            expression_at(tokens, from, terminator),
            before.len() as int,
        ),
    decreases tokens.len() - from,
{
    lemma_operand_moved(before, tokens, from, terminator);
    lemma_operand_end(tokens, from, terminator);
    if let Ok((first, next)) = operand_at(tokens, from, terminator) {
        lemma_expression_tail_moved(before, tokens, next, first, terminator);
    }
}

/// Reading the next item does not depend on what stands before `from`.
pub proof fn lemma_next_item_moved(before: Seq<TokenView>, tokens: Seq<TokenView>, from: int)
    requires
        0 <= from,
    ensures
        next_item(before + tokens, before.len() + from) == match next_item(tokens, from) {
            Ok(Some((item, next))) => Ok(Some((item, next + before.len()))),
            Ok(None) => Ok(None),
            Err(error) => Err(error),
        },
{
    let all = before + tokens;
    let shift = before.len() as int;
    if from < tokens.len() {
        assert(all[shift + from] == tokens[from]);
        if tokens[from].kind == TokenKind::VariableStart {
            lemma_skip_spaces(tokens, from);
            lemma_skip_spaces(all, shift + from);
            lemma_expression_moved(before, tokens, from + 1, TokenKind::VariableEnd);
        }
    }
}

/// Reading the items of a template does not depend on what stands before
/// `from`.
pub proof fn lemma_items_moved(before: Seq<TokenView>, tokens: Seq<TokenView>, from: int)
    requires
        0 <= from,
    ensures
        items_from(before + tokens, before.len() + from) == moved(
            items_from(tokens, from),
            before.len() as int,
        ),
    decreases tokens.len() - from,
{
    lemma_next_item_moved(before, tokens, from);
    lemma_next_item_end(tokens, from);
    if let Ok(Some((_, next))) = next_item(tokens, from) {
        lemma_items_moved(before, tokens, next);
    }
}

/// An operand gives one token, and that token is read as the operand.
pub proof fn lemma_operand_round_trip(operand: NodeView, rest: Seq<TokenView>)
    requires
        is_operand(operand),
    ensures
        expression_tokens(operand).len() == 1,
        operand_at(expression_tokens(operand) + rest, 0, TokenKind::VariableEnd) matches Ok(read)
            && read == (operand, 1int),
{
    let tokens = expression_tokens(operand) + rest;
    assert(tokens[0] == expression_tokens(operand)[0]);
    match operand.specific {
        SpecificNodeView::Int(value) => {
            lemma_int_text(value as int);
        },
        SpecificNodeView::Bool(value) => {
            lemma_bool_text(value);
        },
        _ => {},
    }
}

/// The symbols of the four operators differ, so each names its kind.
proof fn lemma_operator_kind(kind: TokenKind)
    requires
        kind.spec_precedence() > 0,
    ensures
        operator_kind(operator_symbol(kind)) == kind,
{
    assert(operator_symbol(TokenKind::Add)[0] == '+');
    assert(operator_symbol(TokenKind::Subtract)[0] == '-');
    assert(operator_symbol(TokenKind::Multiply)[0] == '*');
    assert(operator_symbol(TokenKind::Divide)[0] == '/');
}

/// At the closing marker of a block the expression is the tree so far.
proof fn lemma_tail_at_end(tokens: Seq<TokenView>, at: int, lhs: NodeView)
    requires
        0 <= at < tokens.len(),
        tokens[at].kind == TokenKind::VariableEnd,
    ensures
        expression_tail(tokens, at, lhs, TokenKind::VariableEnd) matches Ok(read) && read == (
            lhs,
            at,
        ),
{
}

/// At a `*` or `/` in a block one operand follows, and the rest of the
/// expression goes on with the product or quotient as the tree so far.
proof fn lemma_tail_at_product(tokens: Seq<TokenView>, at: int, lhs: NodeView)
    requires
        0 <= at < tokens.len(),
        tokens[at].kind == TokenKind::Multiply || tokens[at].kind == TokenKind::Divide,
    ensures
        expression_tail(tokens, at, lhs, TokenKind::VariableEnd) == match operand_at(
            tokens,
            at + 1,
            TokenKind::VariableEnd,
        ) {
            Ok((rhs, next)) => expression_tail(
                tokens,
                next,
                math(lhs, rhs, tokens[at].kind),
                TokenKind::VariableEnd,
            ),
            Err(error) => Err(error),
        },
{
}

/// At a `+` or `-` in a block the rest of the expression is the right side
/// of the sum or difference.
proof fn lemma_tail_at_sum(tokens: Seq<TokenView>, at: int, lhs: NodeView)
    requires
        0 <= at < tokens.len(),
        tokens[at].kind == TokenKind::Add || tokens[at].kind == TokenKind::Subtract,
    ensures
        expression_tail(tokens, at, lhs, TokenKind::VariableEnd) == match expression_at(
            tokens,
            at + 1,
            TokenKind::VariableEnd,
        ) {
            Ok((rhs, end)) => Ok((math(lhs, rhs, tokens[at].kind), end)),
            Err(error) => Err(error),
        },
{
}

/// Behind `before`, at a `*` or `/` that an operand follows, the grammar
/// goes on behind the operand with the product or quotient as the tree so
/// far.
proof fn lemma_product_step(
    before: Seq<TokenView>,
    operator: TokenView,
    after: Seq<TokenView>,
    lhs: NodeView,
    rhs: NodeView,
)
    requires
        operator.kind == TokenKind::Multiply || operator.kind == TokenKind::Divide,
        operand_at(after, 0, TokenKind::VariableEnd) matches Ok(read) && read == (rhs, 1int),
    ensures
        expression_tail(
            before + seq![operator] + after,
            before.len() as int,
            lhs,
            TokenKind::VariableEnd,
        ) == expression_tail(
            before + seq![operator] + after,
            before.len() as int + 2,
            math(lhs, rhs, operator.kind),
            TokenKind::VariableEnd,
        ),
{
    let tokens = before + seq![operator] + after;
    let split = before.len() as int;
    assert(tokens[split] == operator);
    assert(operand_at(tokens, split + 1, TokenKind::VariableEnd) matches Ok(read) && read == (
        rhs,
        split + 2,
    )) by {
        lemma_operand_moved(before + seq![operator], after, 0, TokenKind::VariableEnd);
    }
    lemma_tail_at_product(tokens, split, lhs);
}

/// Behind `before`, at a `+` or `-` that an expression follows, the sum or
/// difference of the tree so far and that expression is the whole
/// expression.
proof fn lemma_sum_step(
    before: Seq<TokenView>,
    operator: TokenView,
    after: Seq<TokenView>,
    lhs: NodeView,
    rhs: NodeView,
    end: int,
)
    requires
        operator.kind == TokenKind::Add || operator.kind == TokenKind::Subtract,
        expression_at(after, 0, TokenKind::VariableEnd) matches Ok(read) && read == (rhs, end),
    ensures
        expression_tail(
            before + seq![operator] + after,
            before.len() as int,
            lhs,
            TokenKind::VariableEnd,
        ) matches Ok(read) && read == (
            math(lhs, rhs, operator.kind),
            before.len() as int + 1 + end,
        ),
{
    let tokens = before + seq![operator] + after;
    let split = before.len() as int;
    assert(tokens[split] == operator);
    assert(expression_at(tokens, split + 1, TokenKind::VariableEnd) matches Ok(read) && read == (
        rhs,
        split + 1 + end,
    )) by {
        lemma_expression_moved(before + seq![operator], after, 0, TokenKind::VariableEnd);
    }
    lemma_tail_at_sum(tokens, split, lhs);
}

/// The tokens of an operation are those of its left side, its operator and
/// those of its right side; with `rest` behind them they can be split behind
/// the left side, or behind the operator.
proof fn lemma_operation_tokens(node: NodeView, rest: Seq<TokenView>)
    requires
        node.specific is Math,
    ensures
        ({
            let left = expression_tokens(*node.specific->lhs);
            let right = expression_tokens(*node.specific->rhs);
            let operator = TokenView {
                kind: operator_kind(node.specific->operator),
                value: node.specific->operator,
                position: node.position,
            };
            &&& expression_tokens(node) + rest == left + (seq![operator] + right + rest)
            &&& expression_tokens(node) + rest == left + seq![operator] + (right + rest)
            &&& expression_tokens(node).len() == left.len() + 1 + right.len()
        }),
{
    let left = expression_tokens(*node.specific->lhs);
    let right = expression_tokens(*node.specific->rhs);
    let operator = TokenView {
        kind: operator_kind(node.specific->operator),
        value: node.specific->operator,
        position: node.position,
    };
    assert(expression_tokens(node) + rest =~= left + (seq![operator] + right + rest));
    assert(expression_tokens(node) + rest =~= left + seq![operator] + (right + rest));
}

/// The tokens of a term are read as the term, whatever follows them: behind
/// them the grammar goes on with the term as the tree so far.
pub proof fn lemma_term_round_trip(term: NodeView, rest: Seq<TokenView>)
    requires
        is_term(term),
    ensures
        expression_at(expression_tokens(term) + rest, 0, TokenKind::VariableEnd)
            == expression_tail(
            expression_tokens(term) + rest,
            expression_tokens(term).len() as int,
            term,
            TokenKind::VariableEnd,
        ),
    decreases term,
{
    match term.specific {
        SpecificNodeView::Math { lhs, rhs, operator } => {
            let operator_token = TokenView {
                kind: operator_kind(operator),
                value: operator,
                position: term.position,
            };
            let right = expression_tokens(*rhs);
            lemma_operator_kind(TokenKind::Multiply);
            lemma_operator_kind(TokenKind::Divide);
            lemma_operation_tokens(term, rest);
            lemma_term_round_trip(*lhs, seq![operator_token] + right + rest);
            lemma_operand_round_trip(*rhs, rest);
            lemma_product_step(expression_tokens(*lhs), operator_token, right + rest, *lhs, *rhs);
            assert(math(*lhs, *rhs, operator_token.kind) == term);
        },
        _ => {
            lemma_operand_round_trip(term, rest);
        },
    }
}

/// The tokens of an expression, with the closing marker of a block behind
/// them, are read as the expression, up to the marker.
pub proof fn lemma_expression_round_trip(expression: NodeView, rest: Seq<TokenView>)
    requires
        is_expression(expression),
        rest.len() > 0,
        rest[0].kind == TokenKind::VariableEnd,
    ensures
        expression_at(expression_tokens(expression) + rest, 0, TokenKind::VariableEnd)
            matches Ok(read) && read == (expression, expression_tokens(expression).len() as int),
    decreases expression,
{
    if is_term(expression) {
        let tokens = expression_tokens(expression) + rest;
        let end = expression_tokens(expression).len() as int;
        lemma_term_round_trip(expression, rest);
        assert(tokens[end] == rest[0]);
        lemma_tail_at_end(tokens, end, expression);
    } else {
        let lhs = *expression.specific->lhs;
        let rhs = *expression.specific->rhs;
        let operator = expression.specific->operator;
        let operator_token = TokenView {
            kind: operator_kind(operator),
            value: operator,
            position: expression.position,
        };
        let right = expression_tokens(rhs);
        lemma_operator_kind(TokenKind::Add);
        lemma_operator_kind(TokenKind::Subtract);
        lemma_operation_tokens(expression, rest);
        lemma_term_round_trip(lhs, seq![operator_token] + right + rest);
        lemma_expression_round_trip(rhs, rest);
        lemma_sum_step(
            expression_tokens(lhs),
            operator_token,
            right + rest,
            lhs,
            rhs,
            right.len() as int,
        );
        assert(math(lhs, rhs, operator_token.kind) == expression);
    }
}

/// The tokens of an item are read as the item, whatever follows them.
pub proof fn lemma_item_round_trip(item: NodeView, rest: Seq<TokenView>)
    requires
        is_item(item),
    ensures
        next_item(item_tokens(item) + rest, 0) matches Ok(Some(read)) && read == (
            item,
            item_tokens(item).len() as int,
        ),
{
    let tokens = item_tokens(item) + rest;
    assert(tokens[0] == item_tokens(item)[0]);
    if let SpecificNodeView::VariableBlock(inner) = item.specific {
        let start = item_tokens(item)[0];
        let end = item_tokens(item).last();
        let after_start = expression_tokens(*inner) + (seq![end] + rest);
        assert(tokens =~= seq![start] + after_start);
        lemma_expression_moved(seq![start], after_start, 0, TokenKind::VariableEnd);
        lemma_expression_round_trip(*inner, seq![end] + rest);
    }
}

/// A stream that holds one token, which starts no item, has no items.
proof fn lemma_no_items(stop: TokenView)
    requires
        stop.kind != TokenKind::Text,
        stop.kind != TokenKind::VariableStart,
        stop.kind != TokenKind::TagStart,
    ensures
        items_from(seq![stop], 0) matches Ok(read) && read == (Seq::<NodeView>::empty(), 0int),
{
    assert(seq![stop][0] == stop);
}

/// The first of a sequence of items is an item, and so are the others.
proof fn lemma_first_and_others(items: Seq<NodeView>)
    requires
        are_items(items),
        items.len() > 0,
    ensures
        is_item(items[0]),
        are_items(items.drop_first()),
        seq![items[0]] + items.drop_first() == items,
{
    let others = items.drop_first();
    assert forall|i: int| 0 <= i < others.len() implies is_item(#[trigger] others[i]) by {
        assert(others[i] == items[i + 1]);
    }
    assert(seq![items[0]] + others =~= items);
}

/// The tokens of a sequence of items are those of the first, then those of
/// the others.
proof fn lemma_items_tokens_split(items: Seq<NodeView>, stop: TokenView)
    requires
        items.len() > 0,
    ensures
        items_tokens(items) + seq![stop] == item_tokens(items[0]) + (items_tokens(
            items.drop_first(),
        ) + seq![stop]),
        items_tokens(items).len() == item_tokens(items[0]).len() + items_tokens(
            items.drop_first(),
        ).len(),
{
    assert(items_tokens(items) + seq![stop] =~= item_tokens(items[0]) + (items_tokens(
        items.drop_first(),
    ) + seq![stop]));
}

/// Where a stream starts with the tokens of an item, its items are that item
/// and the items of what follows.
proof fn lemma_items_after_item(
    item: NodeView,
    rest: Seq<TokenView>,
    others: Seq<NodeView>,
    end: int,
)
    requires
        is_item(item),
        items_from(rest, 0) matches Ok(read) && read == (others, end),
    ensures
        items_from(item_tokens(item) + rest, 0) matches Ok(read) && read == (
            seq![item] + others,
            item_tokens(item).len() + end,
        ),
{
    let first = item_tokens(item);
    let split = first.len() as int;
    lemma_item_round_trip(item, rest);
    lemma_items_moved(first, rest, 0);
    assert(items_from(first + rest, split) matches Ok(read) && read == (others, end + split));
}

/// The tokens of a sequence of items, with a token behind them that starts no
/// item, are read as those items, up to that token.
pub proof fn lemma_items_round_trip(items: Seq<NodeView>, stop: TokenView)
    requires
        are_items(items),
        stop.kind != TokenKind::Text,
        stop.kind != TokenKind::VariableStart,
        stop.kind != TokenKind::TagStart,
    ensures
        items_from(items_tokens(items) + seq![stop], 0) matches Ok(read) && read == (
            items,
            items_tokens(items).len() as int,
        ),
    decreases items.len(),
{
    if items.len() == 0 {
        assert(items_tokens(items) + seq![stop] =~= seq![stop]);
        assert(items =~= Seq::empty());
        lemma_no_items(stop);
    } else {
        let others = items.drop_first();
        lemma_first_and_others(items);
        lemma_items_tokens_split(items, stop);
        lemma_items_round_trip(others, stop);
        lemma_items_after_item(
            items[0],
            items_tokens(others) + seq![stop],
            others,
            items_tokens(others).len() as int,
        );
    }
}

/// Writing the items of a template out as tokens and parsing those tokens
/// gives the same items back.
pub proof fn lemma_round_trip(items: Seq<NodeView>)
    requires
        are_items(items),
    ensures
        parse_template(template_tokens(items)) matches Ok(read) && read == items,
{
    lemma_items_round_trip(
        items,
        TokenView { kind: TokenKind::Eof, value: Seq::empty(), position: 0 },
    );
}

/// Whatever tree the grammar yields, writing it out as tokens and parsing
/// those tokens yields the same tree again.
pub proof fn lemma_reparse(tokens: Seq<TokenView>)
    ensures
        parse_template(tokens) matches Ok(items) ==> parse_template(template_tokens(items))
            matches Ok(read) && read == items,
{
    lemma_template_shape(tokens);
    if let Ok(items) = parse_template(tokens) {
        lemma_round_trip(items);
    }
}

} // verus!
