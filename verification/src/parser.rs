//! The parser: a cursor over a token stream, and the tree built from it.

use crate::error::{ParseError, ParseErrorKind, ParseErrorView};
use crate::grammar::{
    expect_at, expression_at, expression_tail, identifier_at, items_from, lemma_expression_end,
    lemma_next_item_end, lemma_operand_end, lemma_skip_spaces, literal_at, math, next_item,
    operand_at, operator_symbol, parse_template, skip_spaces, text_node, token_at,
    variable_block_at,
};
use crate::node::{view_nodes, Node, NodeView, SpecificNode};
use crate::numeral::{is_float, parse_bool, parse_i32};
use crate::shape::{is_template, lemma_template_shape};
use crate::token::{view_tokens, Token, TokenKind, TokenView};
use vstd::prelude::*;

verus! {

/// What the parser made of a piece of the stream, in the terms of the
/// grammar: the view of the node that it read with the index at which it
/// stopped, or the view of its error.
spec fn outcome(result: Result<Node, ParseError>, end: int) -> Result<
    (NodeView, int),
    ParseErrorView,
> {
    match result {
        Ok(node) => Ok((node@, end)),
        Err(error) => Err(error@),
    }
}

/// What the parser made of a lookup in the stream, in the terms of the
/// grammar: the index of the token that it found, or the view of its error.
spec fn found(result: Result<Token, ParseError>, index: int) -> Result<int, ParseErrorView> {
    match result {
        Ok(_) => Ok(index),
        Err(error) => Err(error@),
    }
}

/// The result `rest` with the items `first` put in front of its items.
spec fn prepend(
    first: Seq<NodeView>,
    rest: Result<(Seq<NodeView>, int), ParseErrorView>,
) -> Result<(Seq<NodeView>, int), ParseErrorView> {
    match rest {
        Ok((items, end)) => Ok((first + items, end)),
        Err(error) => Err(error),
    }
}

/// A parser: the token stream of one template, a cursor into it, and the
/// tree read so far, whose root lists the items of the template.
#[derive(Debug)]
pub struct Parser {
    /// The name of the template, for diagnostics.
    pub name: String,
    /// The token stream of the template.
    pub tokens: Vec<Token>,
    /// The tree read so far: a list of the items of the template.
    pub root: Node,
    /// The index of the token that is read next.
    pub current_token: usize,
}

impl Parser {
    /// The token stream, as contracts see it.
    pub open spec fn stream(&self) -> Seq<TokenView> {
        view_tokens(self.tokens@)
    }

    /// The index of the token that is read next.
    pub open spec fn cursor(&self) -> int {
        self.current_token as int
    }

    /// Whether `self` differs from `other` by its cursor at most.
    pub open spec fn same_but_cursor(&self, other: &Parser) -> bool {
        &&& self.name == other.name
        &&& self.tokens == other.tokens
        &&& self.root == other.root
    }

    /// A parser for the template of the given name and token stream, with the
    /// whole stream parsed: the root of the parser lists the items of the
    /// template. An error where the stream is no template.
    pub fn new(name: &str, tokens: Vec<Token>) -> (result: Result<Parser, ParseError>)
        ensures
            match result {
                Ok(parser) => {
                    &&& parse_template(view_tokens(tokens@)) matches Ok(items) && parser.root@
                        == NodeView::list(0, items)
                    &&& items_from(view_tokens(tokens@), 0) matches Ok((_, end))
                        && parser.current_token == end
                    &&& parser.tokens == tokens
                    &&& parser.name@ == name@
                    &&& is_template(parser.root@)
                },
                Err(error) => parse_template(view_tokens(tokens@)) matches Err(reason) && reason
                    == error@,
            },
    {
        let mut parser = Parser {
            name: name.to_owned(),
            tokens,
            root: Node::new(0, SpecificNode::List(Vec::new())),
            current_token: 0,
        };
        parser.parse()?;
        proof {
            lemma_template_shape(parser.stream());
        }
        Ok(parser)
    }

    /// Parses the stream from the cursor on and appends the items found to
    /// the root, up to the first token that starts no item. Where the stream
    /// is malformed nothing is appended and the parser stays as it was.
    pub fn parse(&mut self) -> (result: Result<(), ParseError>)
        requires
            old(self).root@.is_list(),
        ensures
            match result {
                Ok(()) => {
                    &&& items_from(old(self).stream(), old(self).cursor()) matches Ok((items, end))
                        && final(self).current_token == end && final(self).root@
                        == NodeView::list(
                        old(self).root@.position,
                        old(self).root@.children() + items,
                    )
                    &&& final(self).tokens == old(self).tokens
                    &&& final(self).name == old(self).name
                },
                Err(error) => {
                    &&& items_from(old(self).stream(), old(self).cursor()) matches Err(reason)
                        && reason == error@
                    &&& *final(self) == *old(self)
                },
            },
    {
        let start = self.current_token;
        let mut items: Vec<Node> = Vec::new();
        loop
            invariant
                self.same_but_cursor(old(self)),
                start == old(self).current_token,
                items_from(self.stream(), start as int) == prepend(
                    view_nodes(items@),
                    items_from(self.stream(), self.cursor()),
                ),
            ensures
                self.same_but_cursor(old(self)),
                items_from(self.stream(), start as int) matches Ok((found, end)) && found
                    == view_nodes(items@) && end == self.cursor(),
            decreases self.stream().len() - self.cursor(),
        {
            let ghost from = self.cursor();
            let ghost before = view_nodes(items@);
            match self.parse_next() {
                Ok(Some(node)) => {
                    items.push(node);
                    proof {
                        lemma_next_item_end(self.stream(), from);
                        assert(view_nodes(items@) =~= before.push(node@));
                        let rest = items_from(self.stream(), self.cursor());
                        if let Ok((more, _)) = rest {
                            assert(before + (seq![node@] + more) =~= before.push(node@) + more);
                        }
                    }
                },
                Ok(None) => break,
                Err(error) => {
                    self.current_token = start;
                    return Err(error);
                },
            }
        }
        let ghost found = view_nodes(items@);
        match &mut self.root.specific {
            SpecificNode::List(children) => {
                children.append(&mut items);
            },
            _ => {},
        }
        assert(self.root@.children() =~= old(self).root@.children() + found);
        Ok(())
    }

    /// The token under the cursor, which stays where it is.
    fn peek(&self) -> (result: Result<Token, ParseError>)
        ensures
            match result {
                Ok(token) => self.cursor() < self.stream().len() && token@
                    == self.stream()[self.cursor()],
                Err(error) => self.cursor() >= self.stream().len() && error@
                    == ParseErrorView::end_of_stream(),
            },
    {
        if self.current_token < self.tokens.len() {
            Ok(self.tokens[self.current_token].clone())
        } else {
            Err(ParseError::end_of_stream())
        }
    }

    /// The token under the cursor; the cursor moves behind it.
    fn next_token(&mut self) -> (result: Result<Token, ParseError>)
        ensures
            final(self).same_but_cursor(old(self)),
            match result {
                Ok(token) => old(self).cursor() < old(self).stream().len() && token@ == old(
                    self,
                ).stream()[old(self).cursor()] && final(self).cursor() == old(self).cursor() + 1,
                Err(error) => old(self).cursor() >= old(self).stream().len() && error@
                    == ParseErrorView::end_of_stream() && final(self).cursor() == old(
                    self,
                ).cursor(),
            },
    {
        let token = self.peek()?;
        assert(self.stream().len() == self.tokens.len());
        self.current_token += 1;
        Ok(token)
    }

    /// The next token that is no space; the cursor moves onto it.
    fn peek_non_space(&mut self) -> (result: Result<Token, ParseError>)
        ensures
            final(self).same_but_cursor(old(self)),
            found(result, final(self).cursor()) == token_at(old(self).stream(), old(self).cursor()),
            result matches Ok(token) ==> token@ == old(self).stream()[final(self).cursor()],
    {
        let mut token = self.next_token()?;
        while token.kind == TokenKind::Space
            invariant
                self.same_but_cursor(old(self)),
                old(self).cursor() < self.cursor() <= self.stream().len(),
                token@ == self.stream()[self.cursor() - 1],
                skip_spaces(self.stream(), old(self).cursor()) == skip_spaces(
                    self.stream(),
                    self.cursor() - 1,
                ),
            decreases self.stream().len() - self.cursor(),
        {
            assert(skip_spaces(self.stream(), self.cursor() - 1) == skip_spaces(
                self.stream(),
                self.cursor(),
            ));
            token = self.next_token()?;
        }
        // The lookahead went one token too far: step back onto it.
        self.current_token -= 1;
        Ok(token)
    }

    /// The next token that is no space; the cursor moves behind it.
    fn next_non_space(&mut self) -> (result: Result<Token, ParseError>)
        ensures
            final(self).same_but_cursor(old(self)),
            found(result, final(self).cursor() - 1) == token_at(
                old(self).stream(),
                old(self).cursor(),
            ),
            result matches Ok(token) ==> token@ == old(self).stream()[final(self).cursor() - 1],
    {
        let mut token = self.next_token()?;
        while token.kind == TokenKind::Space
            invariant
                self.same_but_cursor(old(self)),
                old(self).cursor() < self.cursor() <= self.stream().len(),
                token@ == self.stream()[self.cursor() - 1],
                skip_spaces(self.stream(), old(self).cursor()) == skip_spaces(
                    self.stream(),
                    self.cursor() - 1,
                ),
            decreases self.stream().len() - self.cursor(),
        {
            assert(skip_spaces(self.stream(), self.cursor() - 1) == skip_spaces(
                self.stream(),
                self.cursor(),
            ));
            token = self.next_token()?;
        }
        Ok(token)
    }

    /// The next token that is no space, which must be of the given kind; the
    /// cursor moves behind it.
    fn expect(&mut self, kind: TokenKind) -> (result: Result<Token, ParseError>)
        ensures
            final(self).same_but_cursor(old(self)),
            found(result, final(self).cursor() - 1) == expect_at(
                old(self).stream(),
                old(self).cursor(),
                kind,
            ),
            result matches Ok(token) ==> token@ == old(self).stream()[final(self).cursor() - 1],
    {
        let token = self.peek_non_space()?;
        if token.kind != kind {
            return Err(ParseError::at(ParseErrorKind::UnexpectedToken, token));
        }
        proof {
            lemma_skip_spaces(self.stream(), old(self).cursor());
        }
        self.next_non_space()
    }

    /// Reads the next token that is no space as a name.
    fn parse_identifier(&mut self) -> (result: Result<Node, ParseError>)
        ensures
            final(self).same_but_cursor(old(self)),
            outcome(result, final(self).cursor()) == identifier_at(
                old(self).stream(),
                old(self).cursor(),
            ),
    {
        let ident = self.next_non_space()?;
        Ok(Node::new(ident.position, SpecificNode::Identifier(ident.value)))
    }

    /// Reads the next token that is no space as an integer, a decimal or a
    /// boolean literal.
    fn parse_literal(&mut self) -> (result: Result<Node, ParseError>)
        ensures
            final(self).same_but_cursor(old(self)),
            outcome(result, final(self).cursor()) == literal_at(
                old(self).stream(),
                old(self).cursor(),
            ),
    {
        let literal = self.next_non_space()?;
        match literal.kind {
            TokenKind::Int => match parse_i32(literal.value.as_str()) {
                Some(value) => Ok(Node::new(literal.position, SpecificNode::Int(value))),
                None => Err(ParseError::at(ParseErrorKind::MalformedInt, literal)),
            },
            TokenKind::Float => if is_float(literal.value.as_str()) {
                Ok(Node::new(literal.position, SpecificNode::Float(literal.value)))
            } else {
                Err(ParseError::at(ParseErrorKind::MalformedFloat, literal))
            },
            TokenKind::Bool => match parse_bool(literal.value.as_str()) {
                Some(value) => Ok(Node::new(literal.position, SpecificNode::Bool(value))),
                None => Err(ParseError::at(ParseErrorKind::MalformedBool, literal)),
            },
            _ => Err(ParseError::at(ParseErrorKind::UnexpectedToken, literal)),
        }
    }

    /// Reads one operand of an expression that ends at `terminator`.
    fn parse_single_expression(&mut self, terminator: &TokenKind) -> (result: Result<
        Node,
        ParseError,
    >)
        ensures
            final(self).same_but_cursor(old(self)),
            outcome(result, final(self).cursor()) == operand_at(
                old(self).stream(),
                old(self).cursor(),
                *terminator,
            ),
    {
        let token = self.peek_non_space()?;
        proof {
            lemma_skip_spaces(self.stream(), old(self).cursor());
        }
        if token.kind == *terminator {
            return Err(ParseError::at(ParseErrorKind::UnexpectedTerminator, token));
        }
        match token.kind {
            TokenKind::Identifier => self.parse_identifier(),
            TokenKind::Float | TokenKind::Int | TokenKind::Bool => self.parse_literal(),
            TokenKind::Add | TokenKind::Subtract => Err(
                ParseError::at(ParseErrorKind::UnaryOperator, token),
            ),
            _ => Err(ParseError::at(ParseErrorKind::UnexpectedToken, token)),
        }
    }

    /// The node of a binary operation on two operands.
    fn math_node(lhs: Node, rhs: Node, operator: TokenKind) -> (node: Node)
        requires
            operator.spec_precedence() > 0,
        ensures
            node@ == math(lhs@, rhs@, operator),
    {
        let symbol = match operator {
            TokenKind::Add => "+",
            TokenKind::Subtract => "-",
            TokenKind::Multiply => "*",
            _ => "/",
        };
        proof {
            reveal_strlit("+");
            reveal_strlit("-");
            reveal_strlit("*");
            reveal_strlit("/");
            assert(symbol@ =~= operator_symbol(operator));
        }
        Node::new(
            lhs.position,
            SpecificNode::Math {
                lhs: Box::new(lhs),
                rhs: Box::new(rhs),
                operator: symbol.to_owned(),
            },
        )
    }

    /// Reads a whole expression up to `terminator`, which is not consumed.
    ///
    /// `stack` is the working stack: the operand that the expression starts
    /// with is pushed onto it, and the tree read so far is always its top
    /// element. An operand after `*` or `/` is combined with the top at once.
    /// After `+` or `-` the rest of the expression is read first, on the same
    /// stack, and then combined with the top. What the stack held before the
    /// call is left as it was.
    fn parse_whole_expression(&mut self, stack: &mut Node, terminator: TokenKind) -> (result:
        Result<Node, ParseError>)
        requires
            old(stack)@.is_list(),
        ensures
            final(self).same_but_cursor(old(self)),
            outcome(result, final(self).cursor()) == expression_at(
                old(self).stream(),
                old(self).cursor(),
                terminator,
            ),
            result is Ok ==> final(stack)@ == old(stack)@,
        decreases old(self).stream().len() - old(self).cursor(),
    {
        let next = self.parse_single_expression(&terminator)?;
        stack.push(next);
        proof {
            lemma_operand_end(self.stream(), old(self).cursor(), terminator);
        }
        loop
            invariant
                self.same_but_cursor(old(self)),
                old(self).cursor() < self.cursor() <= self.stream().len(),
                stack@.is_list(),
                stack@.children().len() > 0,
                stack@.position == old(stack)@.position,
                stack@.children().drop_last() == old(stack)@.children(),
                old(stack)@.is_list(),
                expression_at(old(self).stream(), old(self).cursor(), terminator)
                    == expression_tail(
                    self.stream(),
                    self.cursor(),
                    stack@.children().last(),
                    terminator,
                ),
            decreases self.stream().len() - self.cursor(),
        {
            let ghost tokens = self.stream();
            let ghost from = self.cursor();
            let token = self.peek_non_space()?;
            proof {
                lemma_skip_spaces(tokens, from);
            }
            if token.kind == terminator {
                return Ok(stack.pop());
            }
            match token.kind {
                TokenKind::Add | TokenKind::Subtract => {
                    self.next_non_space()?;
                    let ghost operator = self.cursor() - 1;
                    let rhs = self.parse_whole_expression(stack, terminator)?;
                    proof {
                        lemma_expression_end(tokens, operator + 1, terminator);
                    }
                    // Does the token after the right operand bind tighter than
                    // the operator?
                    let next_token = self.peek_non_space()?;
                    if next_token.kind.precedence() > token.kind.precedence() {
                        stack.push(rhs);
                        return self.parse_whole_expression(stack, terminator);
                    } else {
                        let lhs = stack.pop();
                        stack.push(Self::math_node(lhs, rhs, token.kind));
                    }
                },
                TokenKind::Divide | TokenKind::Multiply => {
                    self.next_non_space()?;
                    proof {
                        lemma_operand_end(tokens, self.cursor(), terminator);
                    }
                    // `*` and `/` bind tightest: their right operand is the
                    // next operand alone.
                    let rhs = self.parse_single_expression(&terminator)?;
                    let lhs = stack.pop();
                    stack.push(Self::math_node(lhs, rhs, token.kind));
                },
                _ => {
                    return Err(ParseError::at(ParseErrorKind::UnexpectedToken, token));
                },
            }
        }
    }

    /// Reads a variable block: `{{`, an expression, `}}`.
    fn parse_variable_block(&mut self) -> (result: Result<Node, ParseError>)
        ensures
            final(self).same_but_cursor(old(self)),
            outcome(result, final(self).cursor()) == variable_block_at(
                old(self).stream(),
                old(self).cursor(),
            ),
    {
        let token = self.expect(TokenKind::VariableStart)?;
        let ghost start = self.cursor();
        // A fresh working stack, placed where the expression starts.
        let first = self.peek_non_space()?;
        let mut stack = Node::new(first.position, SpecificNode::List(Vec::new()));
        proof {
            lemma_skip_spaces(self.stream(), start);
            lemma_expression_end(self.stream(), self.cursor(), TokenKind::VariableEnd);
        }
        let contained = self.parse_whole_expression(&mut stack, TokenKind::VariableEnd)?;
        let node = Node::new(token.position, SpecificNode::VariableBlock(Box::new(contained)));
        self.expect(TokenKind::VariableEnd)?;
        Ok(node)
    }

    /// Reads the token under the cursor as a text run.
    fn parse_text(&mut self) -> (result: Result<Node, ParseError>)
        ensures
            final(self).same_but_cursor(old(self)),
            match result {
                Ok(node) => old(self).cursor() < old(self).stream().len() && node@ == text_node(
                    old(self).stream()[old(self).cursor()],
                ) && final(self).cursor() == old(self).cursor() + 1,
                Err(error) => old(self).cursor() >= old(self).stream().len() && error@
                    == ParseErrorView::end_of_stream(),
            },
    {
        let token = self.next_token()?;
        Ok(Node::new(token.position, SpecificNode::Text(token.value)))
    }

    /// Reads the next item of the template: a text run or a variable block.
    /// `None` at a token that starts neither, which is not consumed.
    fn parse_next(&mut self) -> (result: Result<Option<Node>, ParseError>)
        ensures
            final(self).same_but_cursor(old(self)),
            next_item(old(self).stream(), old(self).cursor()) == match result {
                Ok(Some(node)) => Ok(Some((node@, final(self).cursor()))),
                Ok(None) => Ok(None),
                Err(error) => Err(error@),
            },
            result matches Ok(None) ==> final(self).cursor() == old(self).cursor(),
    {
        let token = self.peek()?;
        match token.kind {
            TokenKind::TagStart => Err(ParseError::at(ParseErrorKind::UnsupportedTag, token)),
            TokenKind::VariableStart => Ok(Some(self.parse_variable_block()?)),
            TokenKind::Text => Ok(Some(self.parse_text()?)),
            _ => Ok(None),
        }
    }
}

} // verus!
