use template_parser::error::{ParseError, ParseErrorKind};
use template_parser::node::{Node, SpecificNode};
use template_parser::parser::Parser;
use template_parser::token::{Token, TokenKind};

use TokenKind::{
    Add, Bool, Divide, Eof, Float, Identifier, Int, Multiply, Space, Subtract, TagEnd, TagStart,
    Text, VariableEnd, VariableStart,
};

/// The token stream of `input`, given as the pieces that `input` falls into:
/// every token stands at its byte offset, and an end marker closes the stream.
fn tokens_of(input: &str, pieces: &[(TokenKind, &str)]) -> Vec<Token> {
    let mut tokens = Vec::new();
    let mut text = String::new();
    for (kind, value) in pieces {
        tokens.push(Token::new(*kind, value, text.len()));
        text.push_str(value);
    }
    assert_eq!(input, text);
    tokens.push(Token::new(Eof, "", text.len()));
    tokens
}

fn compared_expected(expected: Vec<SpecificNode>, got: Vec<Node>) {
    if expected.len() != got.len() {
        assert!(false);
    }

    for (i, node) in got.iter().enumerate() {
        let expected_node = expected.get(i).unwrap();
        assert_eq!(*expected_node, node.specific);
    }
}

fn test_parser(input: &str, pieces: &[(TokenKind, &str)], expected: Vec<SpecificNode>) {
    let parser = Parser::new("dummy", tokens_of(input, pieces)).unwrap();
    let children = parser.root.get_children();
    compared_expected(expected, children)
}

fn parse_error(input: &str, pieces: &[(TokenKind, &str)]) -> ParseError {
    Parser::new("dummy", tokens_of(input, pieces)).unwrap_err()
}

fn int_node(position: usize, value: i32) -> Box<Node> {
    Box::new(Node::new(position, SpecificNode::Int(value)))
}

fn math_node(position: usize, lhs: Box<Node>, operator: &str, rhs: Box<Node>) -> Box<Node> {
    Box::new(Node::new(position, SpecificNode::Math { lhs, rhs, operator: operator.to_owned() }))
}

#[test]
fn test_empty() {
    let parser = Parser::new("empty", tokens_of("", &[])).unwrap();
    assert_eq!(0, parser.root.len());
}

#[test]
fn test_plain_string() {
    test_parser(
        "Hello world",
        &[(Text, "Hello world")],
        vec![SpecificNode::Text("Hello world".to_owned())],
    );
}

#[test]
fn test_variable_block_and_text() {
    test_parser(
        "{{ greeting }} 世界",
        &[
            (VariableStart, "{{"),
            (Space, " "),
            (Identifier, "greeting"),
            (Space, " "),
            (VariableEnd, "}}"),
            (Text, " 世界"),
        ],
        vec![
            SpecificNode::VariableBlock(Box::new(Node::new(
                3,
                SpecificNode::Identifier("greeting".to_owned()),
            ))),
            SpecificNode::Text(" 世界".to_owned()),
        ],
    );
}

#[test]
fn test_basic_math() {
    assert_eq!(Ok(3.41f32), "3.41".parse::<f32>());
    test_parser(
        "{{1+3.41}}{{1-42}}{{1*42}}{{1/42}}{{test+1}}",
        &[
            (VariableStart, "{{"),
            (Int, "1"),
            (Add, "+"),
            (Float, "3.41"),
            (VariableEnd, "}}"),
            (VariableStart, "{{"),
            (Int, "1"),
            (Subtract, "-"),
            (Int, "42"),
            (VariableEnd, "}}"),
            (VariableStart, "{{"),
            (Int, "1"),
            (Multiply, "*"),
            (Int, "42"),
            (VariableEnd, "}}"),
            (VariableStart, "{{"),
            (Int, "1"),
            (Divide, "/"),
            (Int, "42"),
            (VariableEnd, "}}"),
            (VariableStart, "{{"),
            (Identifier, "test"),
            (Add, "+"),
            (Int, "1"),
            (VariableEnd, "}}"),
        ],
        vec![
            SpecificNode::VariableBlock(Box::new(Node::new(
                2,
                SpecificNode::Math {
                    lhs: Box::new(Node::new(2, SpecificNode::Int(1))),
                    rhs: Box::new(Node::new(4, SpecificNode::Float("3.41".to_owned()))),
                    operator: "+".to_owned(),
                },
            ))),
            SpecificNode::VariableBlock(Box::new(Node::new(
                12,
                SpecificNode::Math {
                    lhs: Box::new(Node::new(12, SpecificNode::Int(1))),
                    rhs: Box::new(Node::new(14, SpecificNode::Int(42))),
                    operator: "-".to_owned(),
                },
            ))),
            SpecificNode::VariableBlock(Box::new(Node::new(
                20,
                SpecificNode::Math {
                    lhs: Box::new(Node::new(20, SpecificNode::Int(1))),
                    rhs: Box::new(Node::new(22, SpecificNode::Int(42))),
                    operator: "*".to_owned(),
                },
            ))),
            SpecificNode::VariableBlock(Box::new(Node::new(
                28,
                SpecificNode::Math {
                    lhs: Box::new(Node::new(28, SpecificNode::Int(1))),
                    rhs: Box::new(Node::new(30, SpecificNode::Int(42))),
                    operator: "/".to_owned(),
                },
            ))),
            SpecificNode::VariableBlock(Box::new(Node::new(
                36,
                SpecificNode::Math {
                    lhs: Box::new(Node::new(36, SpecificNode::Identifier("test".to_owned()))),
                    rhs: Box::new(Node::new(41, SpecificNode::Int(1))),
                    operator: "+".to_owned(),
                },
            ))),
        ],
    );
}

#[test]
fn test_math_precedence_simple() {
    test_parser(
        "{{ 1 / 2 + 1 }}",
        &[
            (VariableStart, "{{"),
            (Space, " "),
            (Int, "1"),
            (Space, " "),
            (Divide, "/"),
            (Space, " "),
            (Int, "2"),
            (Space, " "),
            (Add, "+"),
            (Space, " "),
            (Int, "1"),
            (Space, " "),
            (VariableEnd, "}}"),
        ],
        vec![SpecificNode::VariableBlock(Box::new(Node::new(
            3,
            SpecificNode::Math {
                lhs: Box::new(Node::new(
                    3,
                    SpecificNode::Math {
                        lhs: Box::new(Node::new(3, SpecificNode::Int(1))),
                        rhs: Box::new(Node::new(7, SpecificNode::Int(2))),
                        operator: "/".to_owned(),
                    },
                )),
                rhs: Box::new(Node::new(11, SpecificNode::Int(1))),
                operator: "+".to_owned(),
            },
        )))],
    );
}

#[test]
fn test_math_precedence_complex() {
    test_parser(
        "{{ 1 / 2 + 3 * 2 + 42 }}",
        &[
            (VariableStart, "{{"),
            (Space, " "),
            (Int, "1"),
            (Space, " "),
            (Divide, "/"),
            (Space, " "),
            (Int, "2"),
            (Space, " "),
            (Add, "+"),
            (Space, " "),
            (Int, "3"),
            (Space, " "),
            (Multiply, "*"),
            (Space, " "),
            (Int, "2"),
            (Space, " "),
            (Add, "+"),
            (Space, " "),
            (Int, "42"),
            (Space, " "),
            (VariableEnd, "}}"),
        ],
        vec![SpecificNode::VariableBlock(Box::new(Node::new(
            3,
            SpecificNode::Math {
                lhs: Box::new(Node::new(
                    3,
                    SpecificNode::Math {
                        lhs: Box::new(Node::new(3, SpecificNode::Int(1))),
                        rhs: Box::new(Node::new(7, SpecificNode::Int(2))),
                        operator: "/".to_owned(),
                    },
                )),
                rhs: Box::new(Node::new(
                    11,
                    SpecificNode::Math {
                        lhs: Box::new(Node::new(
                            11,
                            SpecificNode::Math {
                                lhs: Box::new(Node::new(11, SpecificNode::Int(3))),
                                rhs: Box::new(Node::new(15, SpecificNode::Int(2))),
                                operator: "*".to_owned(),
                            },
                        )),
                        rhs: Box::new(Node::new(19, SpecificNode::Int(42))),
                        operator: "+".to_owned(),
                    },
                )),
                operator: "+".to_owned(),
            },
        )))],
    );
}

#[test]
fn test_each_operator() {
    for (kind, symbol) in [(Add, "+"), (Subtract, "-"), (Multiply, "*"), (Divide, "/")] {
        let input = format!("{{{{1{}42}}}}", symbol);
        test_parser(
            &input,
            &[(VariableStart, "{{"), (Int, "1"), (kind, symbol), (Int, "42"), (VariableEnd, "}}")],
            vec![SpecificNode::VariableBlock(math_node(
                2,
                int_node(2, 1),
                symbol,
                int_node(4, 42),
            ))],
        );
    }
}

#[test]
fn test_subtraction_nests_to_the_right() {
    test_parser(
        "{{1-2-3}}",
        &[
            (VariableStart, "{{"),
            (Int, "1"),
            (Subtract, "-"),
            (Int, "2"),
            (Subtract, "-"),
            (Int, "3"),
            (VariableEnd, "}}"),
        ],
        vec![SpecificNode::VariableBlock(math_node(
            2,
            int_node(2, 1),
            "-",
            math_node(4, int_node(4, 2), "-", int_node(6, 3)),
        ))],
    );
}

#[test]
fn test_division_nests_to_the_left() {
    test_parser(
        "{{8/4*2}}",
        &[
            (VariableStart, "{{"),
            (Int, "8"),
            (Divide, "/"),
            (Int, "4"),
            (Multiply, "*"),
            (Int, "2"),
            (VariableEnd, "}}"),
        ],
        vec![SpecificNode::VariableBlock(math_node(
            2,
            math_node(2, int_node(2, 8), "/", int_node(4, 4)),
            "*",
            int_node(6, 2),
        ))],
    );
}

#[test]
fn test_product_after_sum_is_the_right_operand() {
    test_parser(
        "{{1+2*3}}",
        &[
            (VariableStart, "{{"),
            (Int, "1"),
            (Add, "+"),
            (Int, "2"),
            (Multiply, "*"),
            (Int, "3"),
            (VariableEnd, "}}"),
        ],
        vec![SpecificNode::VariableBlock(math_node(
            2,
            int_node(2, 1),
            "+",
            math_node(4, int_node(4, 2), "*", int_node(6, 3)),
        ))],
    );
}

#[test]
fn test_literals() {
    test_parser(
        "{{true}}{{false}}{{-7}}{{1e3}}",
        &[
            (VariableStart, "{{"),
            (Bool, "true"),
            (VariableEnd, "}}"),
            (VariableStart, "{{"),
            (Bool, "false"),
            (VariableEnd, "}}"),
            (VariableStart, "{{"),
            (Int, "-7"),
            (VariableEnd, "}}"),
            (VariableStart, "{{"),
            (Float, "1e3"),
            (VariableEnd, "}}"),
        ],
        vec![
            SpecificNode::VariableBlock(Box::new(Node::new(2, SpecificNode::Bool(true)))),
            SpecificNode::VariableBlock(Box::new(Node::new(10, SpecificNode::Bool(false)))),
            SpecificNode::VariableBlock(Box::new(Node::new(19, SpecificNode::Int(-7)))),
            SpecificNode::VariableBlock(Box::new(Node::new(
                25,
                SpecificNode::Float("1e3".to_owned()),
            ))),
        ],
    );
}

#[test]
fn test_text_around_blocks() {
    let parser = Parser::new(
        "page",
        tokens_of(
            "a{{ b }}c",
            &[
                (Text, "a"),
                (VariableStart, "{{"),
                (Space, " "),
                (Identifier, "b"),
                (Space, " "),
                (VariableEnd, "}}"),
                (Text, "c"),
            ],
        ),
    )
    .unwrap();
    assert_eq!("page", parser.name);
    assert_eq!(0, parser.root.position);
    assert_eq!(7, parser.current_token);
    let children = parser.root.get_children();
    assert_eq!(3, children.len());
    assert_eq!(Node::new(0, SpecificNode::Text("a".to_owned())), children[0]);
    assert_eq!(
        Node::new(
            1,
            SpecificNode::VariableBlock(Box::new(Node::new(
                4,
                SpecificNode::Identifier("b".to_owned())
            )))
        ),
        children[1]
    );
    assert_eq!(Node::new(8, SpecificNode::Text("c".to_owned())), children[2]);
}

#[test]
fn test_stops_at_the_first_token_that_starts_no_item() {
    let mut tokens = tokens_of("a", &[(Text, "a")]);
    tokens.push(Token::new(Text, "b", 1));
    let parser = Parser::new("dummy", tokens).unwrap();
    assert_eq!(1, parser.root.len());
    assert_eq!(1, parser.current_token);

    let parser = Parser::new("dummy", vec![Token::new(TagEnd, "%}", 0)]).unwrap();
    assert!(parser.root.is_empty());
    assert_eq!(0, parser.current_token);
}

#[test]
fn test_unclosed_block() {
    let error = parse_error("{{", &[(VariableStart, "{{")]);
    assert_eq!(ParseError::at(ParseErrorKind::UnexpectedToken, Token::new(Eof, "", 2)), error);

    let error = parse_error("{{ 1", &[(VariableStart, "{{"), (Space, " "), (Int, "1")]);
    assert_eq!(ParseError::at(ParseErrorKind::UnexpectedToken, Token::new(Eof, "", 4)), error);
}

#[test]
fn test_leading_sign() {
    let error = parse_error(
        "{{+1}}",
        &[(VariableStart, "{{"), (Add, "+"), (Int, "1"), (VariableEnd, "}}")],
    );
    assert_eq!(ParseError::at(ParseErrorKind::UnaryOperator, Token::new(Add, "+", 2)), error);

    let error = parse_error(
        "{{1--1}}",
        &[
            (VariableStart, "{{"),
            (Int, "1"),
            (Subtract, "-"),
            (Subtract, "-"),
            (Int, "1"),
            (VariableEnd, "}}"),
        ],
    );
    assert_eq!(ParseErrorKind::UnaryOperator, error.kind);
    assert_eq!(Some(Token::new(Subtract, "-", 4)), error.token);
}

#[test]
fn test_missing_operand() {
    let error = parse_error(
        "{{1*}}",
        &[(VariableStart, "{{"), (Int, "1"), (Multiply, "*"), (VariableEnd, "}}")],
    );
    assert_eq!(
        ParseError::at(ParseErrorKind::UnexpectedTerminator, Token::new(VariableEnd, "}}", 4)),
        error
    );

    let error = parse_error(
        "{{ }}",
        &[(VariableStart, "{{"), (Space, " "), (VariableEnd, "}}")],
    );
    assert_eq!(
        ParseError::at(ParseErrorKind::UnexpectedTerminator, Token::new(VariableEnd, "}}", 3)),
        error
    );

    let error = parse_error(
        "{{1+}}",
        &[(VariableStart, "{{"), (Int, "1"), (Add, "+"), (VariableEnd, "}}")],
    );
    assert_eq!(ParseErrorKind::UnexpectedTerminator, error.kind);
}

#[test]
fn test_unexpected_tokens() {
    let error = parse_error(
        "{{1 2}}",
        &[(VariableStart, "{{"), (Int, "1"), (Space, " "), (Int, "2"), (VariableEnd, "}}")],
    );
    assert_eq!(ParseError::at(ParseErrorKind::UnexpectedToken, Token::new(Int, "2", 4)), error);

    let error = parse_error(
        "{{*1}}",
        &[(VariableStart, "{{"), (Multiply, "*"), (Int, "1"), (VariableEnd, "}}")],
    );
    assert_eq!(
        ParseError::at(ParseErrorKind::UnexpectedToken, Token::new(Multiply, "*", 2)),
        error
    );

    let error = parse_error(
        "{{ {{ a }} }}",
        &[
            (VariableStart, "{{"),
            (Space, " "),
            (VariableStart, "{{"),
            (Space, " "),
            (Identifier, "a"),
            (Space, " "),
            (VariableEnd, "}}"),
            (Space, " "),
            (VariableEnd, "}}"),
        ],
    );
    assert_eq!(
        ParseError::at(ParseErrorKind::UnexpectedToken, Token::new(VariableStart, "{{", 3)),
        error
    );
}

#[test]
fn test_malformed_literals() {
    let error = parse_error(
        "{{2147483648}}",
        &[(VariableStart, "{{"), (Int, "2147483648"), (VariableEnd, "}}")],
    );
    assert_eq!(
        ParseError::at(ParseErrorKind::MalformedInt, Token::new(Int, "2147483648", 2)),
        error
    );

    let error = parse_error(
        "{{1.2.3}}",
        &[(VariableStart, "{{"), (Float, "1.2.3"), (VariableEnd, "}}")],
    );
    assert_eq!(
        ParseError::at(ParseErrorKind::MalformedFloat, Token::new(Float, "1.2.3", 2)),
        error
    );

    let error = parse_error(
        "{{True}}",
        &[(VariableStart, "{{"), (Bool, "True"), (VariableEnd, "}}")],
    );
    assert_eq!(
        ParseError::at(ParseErrorKind::MalformedBool, Token::new(Bool, "True", 2)),
        error
    );
}

#[test]
fn test_tag_block_is_rejected() {
    let error = parse_error(
        "a{% if %}",
        &[(Text, "a"), (TagStart, "{%"), (Text, " if "), (TagEnd, "%}")],
    );
    assert_eq!(
        ParseError::at(ParseErrorKind::UnsupportedTag, Token::new(TagStart, "{%", 1)),
        error
    );
}

#[test]
fn test_stream_without_end_marker() {
    let error = Parser::new("dummy", Vec::new()).unwrap_err();
    assert_eq!(ParseError::end_of_stream(), error);
    assert_eq!(ParseErrorKind::EndOfStream, error.kind);
    assert_eq!(None, error.token);

    let error = Parser::new("dummy", vec![Token::new(Text, "a", 0)]).unwrap_err();
    assert_eq!(ParseError::end_of_stream(), error);

    let error = Parser::new(
        "dummy",
        vec![
            Token::new(VariableStart, "{{", 0),
            Token::new(Int, "1", 2),
            Token::new(Space, " ", 3),
        ],
    )
    .unwrap_err();
    assert_eq!(ParseError::end_of_stream(), error);
}

#[test]
fn test_parse_again_adds_nothing() {
    let mut parser = Parser::new("dummy", tokens_of("a", &[(Text, "a")])).unwrap();
    assert_eq!(Ok(()), parser.parse());
    assert_eq!(1, parser.root.len());
    assert_eq!(1, parser.current_token);
}

#[test]
fn test_parse_from_a_cursor() {
    let tokens = tokens_of(
        "a{{1}}b",
        &[(Text, "a"), (VariableStart, "{{"), (Int, "1"), (VariableEnd, "}}"), (Text, "b")],
    );
    let mut parser = Parser {
        name: "dummy".to_owned(),
        tokens,
        root: Node::new(0, SpecificNode::List(vec![Node::new(9, SpecificNode::Bool(true))])),
        current_token: 1,
    };
    assert_eq!(Ok(()), parser.parse());
    assert_eq!(5, parser.current_token);
    assert_eq!(
        vec![
            Node::new(9, SpecificNode::Bool(true)),
            Node::new(1, SpecificNode::VariableBlock(int_node(3, 1))),
            Node::new(6, SpecificNode::Text("b".to_owned())),
        ],
        parser.root.get_children()
    );
}

#[test]
fn test_failed_parse_leaves_the_parser_as_it_was() {
    let tokens = tokens_of(
        "a{{1}}{{",
        &[
            (Text, "a"),
            (VariableStart, "{{"),
            (Int, "1"),
            (VariableEnd, "}}"),
            (VariableStart, "{{"),
        ],
    );
    let mut parser = Parser {
        name: "dummy".to_owned(),
        tokens: tokens.clone(),
        root: Node::new(0, SpecificNode::List(Vec::new())),
        current_token: 0,
    };
    let error = parser.parse().unwrap_err();
    assert_eq!(ParseError::at(ParseErrorKind::UnexpectedToken, Token::new(Eof, "", 8)), error);
    assert_eq!(0, parser.current_token);
    assert!(parser.root.is_empty());
    assert_eq!(tokens, parser.tokens);
    assert_eq!("dummy", parser.name);
}

#[test]
fn test_parse_behind_the_stream() {
    let mut parser = Parser {
        name: "dummy".to_owned(),
        tokens: tokens_of("a", &[(Text, "a")]),
        root: Node::new(0, SpecificNode::List(Vec::new())),
        current_token: 5,
    };
    assert_eq!(Err(ParseError::end_of_stream()), parser.parse());
    assert_eq!(5, parser.current_token);
    assert!(parser.root.is_empty());
}
