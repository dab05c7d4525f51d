use mavka_did::{
    list_end, list_start, parse, AstNode, DictionaryEntryKey, DictionaryNode, ListNode,
    NodeContext, Number, ObjectNode, ParseError, ParseErrorExpectation,
};

fn ctx(line: u64, column: u64, index: u64) -> NodeContext {
    NodeContext { line, column, index }
}

fn integer(node: &AstNode) -> i64 {
    match node {
        AstNode::Number(n) => match n.value {
            Number::Integer(v) => v,
            _ => panic!("not an integer"),
        },
        _ => panic!("not a number"),
    }
}

fn expect_error(input: &str, expectation: ParseErrorExpectation, at: NodeContext) -> ParseError {
    let err = parse(input).unwrap_err();
    assert_eq!(err.expectation, expectation);
    assert_eq!(ctx(err.line, err.column, err.index), at);
    err
}

#[test]
fn logical_keywords() {
    let t = parse("так").unwrap().unwrap_logical();
    assert!(t.value);
    assert_eq!(t.context, ctx(1, 1, 0));
    let f = parse("ні").unwrap().unwrap_logical();
    assert!(!f.value);
}

#[test]
fn empty_keyword() {
    let n = parse("  пусто ").unwrap();
    assert!(n.is_empty());
    assert_eq!(n.unwrap_empty().context, ctx(1, 3, 2));
}

#[test]
fn integers_and_fractions() {
    assert_eq!(integer(&parse("123").unwrap()), 123);
    assert_eq!(integer(&parse("-123").unwrap()), -123);
    match parse("-123.45").unwrap().unwrap_number().value {
        Number::Float(text) => {
            assert_eq!(text, "-123.45");
            assert_eq!(text.parse::<f64>().unwrap(), -123.45);
        }
        _ => panic!("not a fraction"),
    }
}

#[test]
fn integer_limits() {
    assert_eq!(integer(&parse("9223372036854775807").unwrap()), i64::MAX);
    assert_eq!(integer(&parse("-9223372036854775807").unwrap()), -i64::MAX);
    expect_error("9223372036854775808", ParseErrorExpectation::AstNode, ctx(1, 1, 0));
    expect_error(
        "9875205987345098230897103895701839405130",
        ParseErrorExpectation::AstNode,
        ctx(1, 1, 0),
    );
}

#[test]
fn integer_with_dot_but_no_fraction_stops_before_dot() {
    expect_error("12.", ParseErrorExpectation::Eof, ctx(1, 3, 2));
}

#[test]
fn text_value() {
    let t = parse("\"Hello, world!\"").unwrap().unwrap_text();
    assert_eq!(t.value, "Hello, world!");
}

#[test]
fn text_with_newline_is_rejected() {
    expect_error("\"\n\"", ParseErrorExpectation::AstNode, ctx(1, 1, 0));
}

#[test]
fn list_of_numbers_in_order() {
    let list = parse("[1, -2, 3.14159264]").unwrap().unwrap_list();
    assert_eq!(list.entries.len(), 3);
    assert_eq!(list.context, ctx(1, 1, 0));
    assert_eq!(integer(&list.entries[0]), 1);
    assert_eq!(integer(&list.entries[1]), -2);
    match &list.entries[2] {
        AstNode::Number(n) => {
            assert!(matches!(&n.value, Number::Float(t) if t == "3.14159264"));
            assert_eq!(n.context, ctx(1, 9, 8));
        }
        _ => panic!("not a number"),
    }
    assert!(list.entries.iter().all(|e| e.is_number()));
    match &list.entries[1] {
        AstNode::Number(n) => assert_eq!(n.context, ctx(1, 5, 4)),
        _ => panic!("not a number"),
    }
}

#[test]
fn trailing_separator_is_rejected() {
    expect_error("[1,]", ParseErrorExpectation::AstNode, ctx(1, 1, 0));
    expect_error("(a=1,)", ParseErrorExpectation::AstNode, ctx(1, 1, 0));
    let err = ListNode::parse("[1,]", NodeContext::default()).unwrap_err();
    assert_eq!(err.expectation, ParseErrorExpectation::AstNode);
    assert_eq!(err.index, 3);
    let err = DictionaryNode::parse("(a=1,)", NodeContext::default()).unwrap_err();
    assert_eq!(err.expectation, ParseErrorExpectation::DictionaryEntryKey);
    assert_eq!(err.index, 5);
}

#[test]
fn empty_collections() {
    let list = parse("[]").unwrap().unwrap_list();
    assert!(list.entries.is_empty());
    let dict = parse("()").unwrap().unwrap_dictionary();
    assert!(dict.entries.is_empty());
    let spaced = parse("[ \n ]").unwrap().unwrap_list();
    assert!(spaced.entries.is_empty());
}

#[test]
fn object_with_two_entries() {
    let obj = parse("Name(a=1, b=2)").unwrap().unwrap_object();
    assert_eq!(obj.name.value, "Name");
    assert_eq!(obj.entries.len(), 2);
    assert_eq!(obj.entries[0].key.value, "a");
    assert_eq!(integer(&obj.entries[0].value.0), 1);
    assert_eq!(obj.entries[0].context, ctx(1, 6, 5));
    assert_eq!(obj.entries[1].key.value, "b");
    assert_eq!(integer(&obj.entries[1].value.0), 2);
    assert_eq!(obj.entries[1].context, ctx(1, 11, 10));
}

#[test]
fn object_name_must_touch_parenthesis() {
    expect_error("Name (a=1)", ParseErrorExpectation::AstNode, ctx(1, 1, 0));
    let err = ObjectNode::parse("Name (a=1)", NodeContext::default()).unwrap_err();
    assert_eq!(err.expectation, ParseErrorExpectation::LeftParenthesis);
    assert_eq!(err.index, 4);
}

#[test]
fn dictionary_key_forms() {
    let dict = parse("(a=1, \"b c\"=2, 3=4)").unwrap().unwrap_dictionary();
    assert_eq!(dict.entries.len(), 3);
    assert!(matches!(&dict.entries[0].key, DictionaryEntryKey::Text(t) if t.value == "a"));
    assert!(matches!(&dict.entries[1].key, DictionaryEntryKey::Text(t) if t.value == "b c"));
    assert!(matches!(&dict.entries[2].key,
        DictionaryEntryKey::Number(n) if matches!(n.value, Number::Integer(3))));
    assert_eq!(integer(&dict.entries[2].value.0), 4);
}

#[test]
fn object_keys_must_be_identifiers() {
    let err = ObjectNode::parse("Name(a=1, 2=3)", NodeContext::default()).unwrap_err();
    assert_eq!(err.expectation, ParseErrorExpectation::Identifier);
    assert_eq!(err.index, 10);
    let err = ObjectNode::parse("Name(2=3)", NodeContext::default()).unwrap_err();
    assert_eq!(err.expectation, ParseErrorExpectation::RightParenthesis);
    assert_eq!(err.index, 5);
}

#[test]
fn missing_equals_sign() {
    let err = DictionaryNode::parse("(b=2, a 1)", NodeContext::default()).unwrap_err();
    assert_eq!(err.expectation, ParseErrorExpectation::EqualsSign);
    assert_eq!(err.index, 8);
    let err = DictionaryNode::parse("(a 1)", NodeContext::default()).unwrap_err();
    assert_eq!(err.expectation, ParseErrorExpectation::RightParenthesis);
    assert_eq!(err.index, 1);
}

#[test]
fn missing_closing_bracket() {
    let err = ListNode::parse("[1 2]", NodeContext::default()).unwrap_err();
    assert_eq!(err.expectation, ParseErrorExpectation::RightBracket);
    assert_eq!(err.index, 3);
}

#[test]
fn identifiers_with_apostrophes() {
    let dict = parse("(імʼя=\"Давид\", п'ять=5)").unwrap().unwrap_dictionary();
    assert!(matches!(&dict.entries[0].key, DictionaryEntryKey::Text(t) if t.value == "імʼя"));
    assert!(matches!(&dict.entries[1].key, DictionaryEntryKey::Text(t) if t.value == "п'ять"));
    let err = DictionaryNode::parse("(x=1, a'=1)", NodeContext::default()).unwrap_err();
    assert_eq!(err.expectation, ParseErrorExpectation::EqualsSign);
    assert_eq!(err.index, 7);
}

#[test]
fn positions_across_lines() {
    let list = parse("[\n  1,\n  2\n]").unwrap().unwrap_list();
    match (&list.entries[0], &list.entries[1]) {
        (AstNode::Number(a), AstNode::Number(b)) => {
            assert_eq!(a.context, ctx(2, 3, 4));
            assert_eq!(b.context, ctx(3, 3, 9));
        }
        _ => panic!("not numbers"),
    }
}

#[test]
fn nested_object() {
    let input = "Людина(\n  імʼя=\"Давид\",\n  вік=0,\n  параметри=(\n    висота=175,\n    вага=69\n  ),\n  зацікавлення=[\"творення\", \"життя\"]\n)";
    let obj = parse(input).unwrap().unwrap_object();
    assert_eq!(obj.name.value, "Людина");
    assert_eq!(obj.entries.len(), 4);
    assert_eq!(obj.entries[1].context, ctx(3, 3, 26));
    let params = match &obj.entries[2].value.0 {
        AstNode::Dictionary(d) => d,
        _ => panic!("not a dictionary"),
    };
    assert_eq!(params.entries.len(), 2);
    assert!(obj.entries[3].value.0.is_list());
}

#[test]
fn trailing_text_is_an_end_of_input_error() {
    let err = expect_error("1 2", ParseErrorExpectation::Eof, ctx(1, 2, 1));
    assert_eq!(err.info, Some(String::from(r#"Наступні символи були введені: " 2""#)));
    expect_error("1 x", ParseErrorExpectation::Eof, ctx(1, 2, 1));
    expect_error("[1]\n  x", ParseErrorExpectation::Eof, ctx(1, 4, 3));
}

#[test]
fn long_rest_is_cut_in_error_info() {
    let err = expect_error("[1] 0123456789abc", ParseErrorExpectation::Eof, ctx(1, 4, 3));
    assert_eq!(
        err.info,
        Some(String::from(r#"Наступні символи були введені: " 012345678...""#))
    );
}

#[test]
fn nothing_is_not_a_value() {
    let err = expect_error("   ", ParseErrorExpectation::AstNode, ctx(1, 4, 3));
    assert_eq!(err.info, Some(String::from(r#"Наступні символи були введені: """#)));
}

#[test]
fn list_delimiters() {
    let (rest, ((), c)) = list_start("[ \n 1]", NodeContext::default()).unwrap();
    assert_eq!(rest, "1]");
    assert_eq!(c, ctx(2, 2, 4));
    let (rest, ((), c)) = list_end("  ], 2", ctx(1, 5, 4)).unwrap();
    assert_eq!(rest, ", 2");
    assert_eq!(c, ctx(1, 8, 7));
    let err = list_start("1]", NodeContext::default()).unwrap_err();
    assert_eq!(err.expectation, ParseErrorExpectation::LeftBracket);
    let err = list_end(" )", NodeContext::default()).unwrap_err();
    assert_eq!(err.expectation, ParseErrorExpectation::RightBracket);
    assert_eq!(err.index, 1);
}

#[test]
fn kind_checks() {
    assert!(parse("так").unwrap().is_logical());
    assert!(parse("1").unwrap().is_number());
    assert!(parse("\"x\"").unwrap().is_text());
    assert!(parse("A()").unwrap().is_object());
    assert!(parse("(x=1)").unwrap().is_dictionary());
    assert!(parse("[так]").unwrap().is_list());
    assert!(!parse("[так]").unwrap().is_text());
}
