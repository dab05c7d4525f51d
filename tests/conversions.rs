use mavka_did::error::decimal;
use mavka_did::{
    parse, AstNode, BoxedAstNode, DictionaryEntryKey, EmptyNode, LogicalNode, NodeContext,
    Number, NumberNode, ParseError, ParseErrorExpectation, TextNode,
};

fn ctx(line: u64, column: u64, index: u64) -> NodeContext {
    NodeContext { line, column, index }
}

#[test]
fn negation_of_numbers() {
    assert!(matches!(-Number::Integer(5), Number::Integer(-5)));
    assert!(matches!(-Number::Integer(-7), Number::Integer(7)));
    assert!(matches!(-Number::Float(String::from("1.5")), Number::Float(t) if t == "-1.5"));
    assert!(matches!(-Number::Float(String::from("-2.25")), Number::Float(t) if t == "2.25"));
    let n = -NumberNode { value: Number::Integer(3), context: ctx(2, 4, 9) };
    assert!(matches!(n.value, Number::Integer(-3)));
    assert_eq!(n.context, ctx(2, 4, 9));
}

#[test]
fn nodes_convert_into_tree() {
    let e: AstNode = EmptyNode { context: ctx(1, 1, 0) }.into();
    assert!(e.is_empty());
    let l: AstNode = LogicalNode { value: true, context: ctx(1, 1, 0) }.into();
    assert!(l.is_logical());
    let t: AstNode = TextNode { value: String::from("x"), context: ctx(1, 1, 0) }.into();
    assert!(t.is_text());
    let b: BoxedAstNode = NumberNode { value: Number::Integer(1), context: ctx(1, 1, 0) }.into();
    assert!(b.0.is_number());
    let b2 = BoxedAstNode::from(parse("[1]").unwrap());
    assert!(b2.0.is_list());
}

#[test]
fn node_equality_ignores_places() {
    let a = parse("[1, (k=2), O(x=\"y\")]").unwrap().unwrap_list();
    let b = parse(" [ 1 , ( k = 2 ) , O( x = \"y\" ) ]").unwrap().unwrap_list();
    assert_eq!(a, b);
    let c = parse("[1, (k=3), O(x=\"y\")]").unwrap().unwrap_list();
    assert_ne!(a, c);
    let d1 = parse("(k=2)").unwrap().unwrap_dictionary();
    let d2 = parse("( k=2 )").unwrap().unwrap_dictionary();
    assert_eq!(d1, d2);
    assert_eq!(d1.entries[0], d2.entries[0]);
    let o1 = parse("O(x=1)").unwrap().unwrap_object();
    let o2 = parse("O( x=1)").unwrap().unwrap_object();
    assert_eq!(o1, o2);
    assert_eq!(o1.entries[0], o2.entries[0]);
    assert_eq!(EmptyNode { context: ctx(1, 1, 0) }, EmptyNode { context: ctx(3, 2, 9) });
    assert_ne!(
        LogicalNode { value: true, context: ctx(1, 1, 0) },
        LogicalNode { value: false, context: ctx(1, 1, 0) }
    );
    assert_eq!(Number::Integer(4), Number::Integer(4));
    assert_ne!(Number::Integer(4), Number::Float(String::from("4.0")));
    assert_eq!(
        NumberNode { value: Number::Integer(4), context: ctx(1, 1, 0) },
        NumberNode { value: Number::Integer(4), context: ctx(5, 5, 5) }
    );
    let k1 = DictionaryEntryKey::Text(TextNode { value: String::from("a"), context: ctx(1, 1, 0) });
    let k2 = DictionaryEntryKey::Text(TextNode { value: String::from("a"), context: ctx(2, 1, 7) });
    assert_eq!(k1, k2);
}

#[test]
fn decimal_digits() {
    assert_eq!(decimal(0), "0");
    assert_eq!(decimal(7), "7");
    assert_eq!(decimal(120), "120");
    assert_eq!(decimal(u64::MAX), "18446744073709551615");
}

#[test]
fn error_message_has_three_lines() {
    let err = ParseError {
        expectation: ParseErrorExpectation::Eof,
        line: 2,
        column: 14,
        index: 30,
        info: Some(String::from("x")),
    };
    assert_eq!(
        err.message(),
        "Вид помилки: Очікувався кінець файлу\nРядок: 2, Стовпчик: 14, Індекс: 30\nx"
    );
}
