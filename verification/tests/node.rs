use template_parser::error::{ParseError, ParseErrorKind};
use template_parser::node::{Node, SpecificNode};
use template_parser::token::{Token, TokenKind};

fn text(position: usize, value: &str) -> Node {
    Node::new(position, SpecificNode::Text(value.to_owned()))
}

#[test]
fn test_node_new() {
    let node = Node::new(7, SpecificNode::Int(-3));
    assert_eq!(7, node.position);
    assert_eq!(SpecificNode::Int(-3), node.specific);
}

#[test]
fn test_list_push_and_pop() {
    let mut list = Node::new(4, SpecificNode::List(Vec::new()));
    assert!(list.is_empty());
    assert_eq!(0, list.len());

    list.push(text(0, "a"));
    list.push(text(1, "b"));
    list.push(text(2, "c"));
    assert!(!list.is_empty());
    assert_eq!(3, list.len());
    assert_eq!(vec![text(0, "a"), text(1, "b"), text(2, "c")], list.get_children());

    assert_eq!(text(2, "c"), list.pop());
    assert_eq!(2, list.len());
    assert_eq!(vec![text(0, "a"), text(1, "b")], list.get_children());
    assert_eq!(4, list.position);

    assert_eq!(text(1, "b"), list.pop());
    assert_eq!(text(0, "a"), list.pop());
    assert!(list.is_empty());
    assert_eq!(Vec::<Node>::new(), list.get_children());
}

#[test]
fn test_get_children_copies() {
    let mut list = Node::new(0, SpecificNode::List(vec![text(0, "a")]));
    let mut children = list.get_children();
    children.push(text(1, "b"));
    assert_eq!(1, list.len());
    list.push(text(2, "c"));
    assert_eq!(2, children.len());
    assert_eq!(text(1, "b"), children[1]);
}

#[test]
fn test_node_clone() {
    let tree = Node::new(
        0,
        SpecificNode::List(vec![
            text(0, "a 世界"),
            Node::new(
                5,
                SpecificNode::VariableBlock(Box::new(Node::new(
                    8,
                    SpecificNode::Math {
                        lhs: Box::new(Node::new(
                            8,
                            SpecificNode::Math {
                                lhs: Box::new(Node::new(
                                    8,
                                    SpecificNode::Identifier("x".to_owned()),
                                )),
                                rhs: Box::new(Node::new(12, SpecificNode::Float("1.5".to_owned()))),
                                operator: "*".to_owned(),
                            },
                        )),
                        rhs: Box::new(Node::new(
                            18,
                            SpecificNode::Math {
                                lhs: Box::new(Node::new(18, SpecificNode::Bool(true))),
                                rhs: Box::new(Node::new(25, SpecificNode::Int(-4))),
                                operator: "-".to_owned(),
                            },
                        )),
                        operator: "+".to_owned(),
                    },
                ))),
            ),
            Node::new(30, SpecificNode::List(Vec::new())),
        ]),
    );
    let copy = tree.clone();
    assert_eq!(tree, copy);
    assert_ne!(tree, text(0, "a"));
}

#[test]
fn test_token_new_and_clone() {
    let token = Token::new(TokenKind::Identifier, "größe", 12);
    assert_eq!(TokenKind::Identifier, token.kind);
    assert_eq!("größe", token.value);
    assert_eq!(12, token.position);
    let copy = token.clone();
    assert_eq!(token, copy);
    assert_ne!(token, Token::new(TokenKind::Identifier, "größe", 13));
    assert_ne!(token, Token::new(TokenKind::Text, "größe", 12));
    assert_ne!(token, Token::new(TokenKind::Identifier, "grösse", 12));
}

#[test]
fn test_precedence() {
    assert_eq!(2, TokenKind::Multiply.precedence());
    assert_eq!(2, TokenKind::Divide.precedence());
    assert_eq!(1, TokenKind::Add.precedence());
    assert_eq!(1, TokenKind::Subtract.precedence());
    for kind in [
        TokenKind::Text,
        TokenKind::VariableStart,
        TokenKind::VariableEnd,
        TokenKind::TagStart,
        TokenKind::TagEnd,
        TokenKind::Identifier,
        TokenKind::Int,
        TokenKind::Float,
        TokenKind::Bool,
        TokenKind::Space,
        TokenKind::Eof,
    ] {
        assert_eq!(0, kind.precedence());
    }
    assert!(TokenKind::Multiply.precedence() > TokenKind::Add.precedence());
    assert!(TokenKind::Divide.precedence() > TokenKind::Subtract.precedence());
}

#[test]
fn test_error_values() {
    let token = Token::new(TokenKind::Add, "+", 3);
    let error = ParseError::at(ParseErrorKind::UnaryOperator, token.clone());
    assert_eq!(ParseErrorKind::UnaryOperator, error.kind);
    assert_eq!(Some(token), error.token);

    let error = ParseError::end_of_stream();
    assert_eq!(ParseErrorKind::EndOfStream, error.kind);
    assert_eq!(None, error.token);
}
