use mavka_did::{parse, Api, AstNode, EqIgnoreContext};

#[test]
fn same_value_in_other_places_is_equal() {
    let a = parse("[1, (x=\"y\"), A(b=так)]").unwrap();
    let b = parse("\n  [ 1 ,\n (x = \"y\"),  A(b = так) ]  ").unwrap();
    assert!(a.eq_ignore_context(&b));
    assert!(!a.ne_ignore_context(&b));
}

#[test]
fn different_values_are_not_equal() {
    let a = parse("[1, 2]").unwrap();
    for other in ["[1]", "[1, 3]", "[1, 2, 3]", "(a=1)", "[\"1\", 2]", "[1.0, 2]"] {
        let b = parse(other).unwrap();
        assert!(!a.eq_ignore_context(&b), "{other}");
        assert!(a.ne_ignore_context(&b));
    }
    let x = parse("A(k=1)").unwrap();
    assert!(!x.eq_ignore_context(&parse("B(k=1)").unwrap()));
    assert!(!x.eq_ignore_context(&parse("A(j=1)").unwrap()));
    assert!(!x.eq_ignore_context(&parse("(k=1)").unwrap()));
    let d = parse("(1=2)").unwrap();
    assert!(!d.eq_ignore_context(&parse("(\"1\"=2)").unwrap()));
}

#[test]
fn canonical_text_reads_back_as_same_tree() {
    let canonical = "(\"k\"=[пусто,так,ні,-7,2.5,\"a\\\"b\"],\"n\"=Obj(x=(1=[])))";
    let spaced = "( \"k\" = [ пусто , так , ні , -7 , 2.5 , \"a\\\"b\" ] ,\n \"n\" = Obj( x = ( 1 = [ ] ) ) )";
    let a = parse(canonical).unwrap();
    let b = parse(spaced).unwrap();
    assert!(a.eq_ignore_context(&b));
}

#[test]
fn clone_keeps_everything() {
    let a = parse("Name(a=[1, \"x\"], b=(k=ні))").unwrap();
    let c = a.clone();
    assert!(a.eq_ignore_context(&c));
    let obj = c.unwrap_object();
    assert_eq!(obj.entries[1].context.index, 17);
    let boxed = obj.entries[0].value.get();
    assert!(boxed.is_list());
}

#[test]
fn api_parse_matches_parse() {
    let a = Api::parse(String::from("[так, 2]")).unwrap();
    let b = parse("[так, 2]").unwrap();
    assert!(a.eq_ignore_context(&b));
    let err = Api::parse(String::from("[так,]")).unwrap_err();
    assert_eq!(err.index, 0);
}

#[test]
fn unwrap_gives_inner_node() {
    let n: AstNode = parse("\"t\"").unwrap();
    assert_eq!(n.unwrap_text().value, "t");
    let d = parse("пусто").unwrap();
    assert!(d.is_empty() && !d.is_list() && !d.is_object() && !d.is_dictionary());
}
