use inko::parser::{Node, Parser};

fn string_value(node: &Node) -> String {
    match node {
        Node::String(value, _, _) => value.clone(),
        _ => panic!("expected a string node"),
    }
}

#[test]
fn test_parse_or_expression() {
    let mut parser = Parser::new("'foobar' || 'bar'");
    let ast = parser.parse().unwrap();

    match ast {
        Node::Expressions(children) => {
            assert_eq!(children.len(), 1);

            match &children[0] {
                Node::Or(lhs, rhs) => {
                    assert_eq!(string_value(lhs), "foobar");
                    assert_eq!(string_value(rhs), "bar");
                }
                _ => panic!("expected an OR node"),
            }
        }
        _ => panic!("expected a list of expressions"),
    }
}

#[test]
fn test_parse_and_binds_tighter_than_or() {
    let mut parser = Parser::new("'a' || 'b' && 'c'");
    let ast = parser.parse().unwrap();

    match ast {
        Node::Expressions(children) => match &children[0] {
            Node::Or(lhs, rhs) => {
                assert_eq!(string_value(lhs), "a");

                match rhs.as_ref() {
                    Node::And(b, c) => {
                        assert_eq!(string_value(b), "b");
                        assert_eq!(string_value(c), "c");
                    }
                    _ => panic!("expected an AND node"),
                }
            }
            _ => panic!("expected an OR node"),
        },
        _ => panic!("expected a list of expressions"),
    }
}

#[test]
fn test_parse_several_expressions() {
    let mut parser = Parser::new("'a' 'b'");

    match parser.parse().unwrap() {
        Node::Expressions(children) => assert_eq!(children.len(), 2),
        _ => panic!("expected a list of expressions"),
    }
}

#[test]
fn test_parse_operator_at_the_end() {
    let mut parser = Parser::new("'a' ||");
    let error = parser.parse().unwrap_err();

    assert_eq!(error.line, 1);
}
