use mavka_did::{NodeContext, ParseError, ParseErrorExpectation, TextNode};

#[test]
fn test_text_node_parse_for_empty_str_input() {
    let input = r#""""#;
    let expected_output = (
        TextNode {
            context: NodeContext {
                line: 0,
                column: 0,
                index: 0,
            },
            value: String::new(),
        },
        NodeContext {
            line: 0,
            column: 2,
            index: 2,
        },
    );
    assert_eq!(
        TextNode::parse(input, expected_output.0.context).unwrap(),
        ("", expected_output)
    );
}

#[test]
fn test_text_node_parse_for_valid_input() {
    let input = r#""Hello, World!""#;
    let expected_output = (
        TextNode {
            context: NodeContext {
                line: 0,
                column: 0,
                index: 0,
            },
            value: "Hello, World!".to_string(),
        },
        NodeContext {
            line: 0,
            column: 15,
            index: 15,
        },
    );
    assert_eq!(
        TextNode::parse(input, expected_output.0.context).unwrap(),
        ("", expected_output)
    );
}

#[test]
fn test_text_node_parse_for_valid_input_with_escape_sqs() {
    let input = r#""Hello,\nWorld!""#;
    let expected_output = (
        TextNode {
            context: NodeContext {
                line: 0,
                column: 0,
                index: 0,
            },
            value: r#"Hello,\nWorld!"#.to_string(),
        },
        NodeContext {
            line: 0,
            column: 16,
            index: 16,
        },
    );
    assert_eq!(
        TextNode::parse(input, expected_output.0.context).unwrap(),
        ("", expected_output)
    );
}

#[test]
fn test_text_node_parse_for_invalid_input() {
    let input = "\"Invalid\nInput\"";
    let expected_error = ParseError {
        expectation: ParseErrorExpectation::TextNode,
        line: 0,
        column: 0,
        index: 0,
        info: Some(String::from(
            r#"Наступні символи були введені: "\"Invalid\nI...""#,
        )),
    };
    assert_eq!(
        TextNode::parse(
            input,
            NodeContext {
                line: 0,
                column: 0,
                index: 0
            }
        )
        .unwrap_err(),
        expected_error
    );
}

#[test]
fn text_node_leaves_what_follows() {
    let start = NodeContext::default();
    let (rest, (node, end)) = TextNode::parse("\"ab\" = 1", start).unwrap();
    assert_eq!(rest, " = 1");
    assert_eq!(node.value, "ab");
    assert_eq!(end, NodeContext { line: 1, column: 5, index: 4 });
}

#[test]
fn text_node_keeps_escaped_quote() {
    let (rest, (node, _)) = TextNode::parse(r#""a\"b""#, NodeContext::default()).unwrap();
    assert_eq!(rest, "");
    assert_eq!(node.value, r#"a\"b"#);
}

#[test]
fn text_node_rejects_unknown_escape() {
    let err = TextNode::parse(r#""a\xb""#, NodeContext::default()).unwrap_err();
    assert_eq!(err.expectation, ParseErrorExpectation::TextNode);
}

#[test]
fn text_node_rejects_unterminated_text() {
    let err = TextNode::parse("\"abc", NodeContext::default()).unwrap_err();
    assert_eq!(err.expectation, ParseErrorExpectation::TextNode);
    assert_eq!(
        err.info,
        Some(String::from(r#"Наступні символи були введені: "\"abc""#))
    );
}

#[test]
fn info_prefix_goes_before_quoted_preview() {
    assert_eq!(
        mavka_did::error::with_prefix(String::from("\"x\"")),
        "Наступні символи були введені: \"x\""
    );
}

#[test]
fn expectation_messages() {
    assert_eq!(ParseErrorExpectation::Eof.message(), "Очікувався кінець файлу");
    assert_eq!(
        ParseErrorExpectation::AstNode.message(),
        "Очікувався вузол формату `Дід`"
    );
    assert_eq!(
        ParseErrorExpectation::RightBracket.message(),
        "Очікувався права квадратна дужка `]`"
    );
}
