use mavka_did::{skip_whitespace, NodeContext, Offset};

fn offset(line: u64, column: u64, index: u64) -> Offset {
    Offset { line, column, index }
}

#[test]
fn skip_whitespace_counts_runs() {
    assert_eq!(skip_whitespace(""), ("", offset(0, 0, 0)));
    assert_eq!(skip_whitespace("   "), ("", offset(0, 3, 3)));
    assert_eq!(skip_whitespace("\n\n\n"), ("", offset(3, 0, 3)));
    assert_eq!(skip_whitespace("   \n\n\n"), ("", offset(3, 0, 6)));
    assert_eq!(skip_whitespace("   \n\n\n   "), ("", offset(3, 3, 9)));
}

#[test]
fn skip_whitespace_stops_at_text() {
    assert_eq!(skip_whitespace(" \t x "), ("x ", offset(0, 3, 3)));
    assert_eq!(skip_whitespace("так"), ("так", offset(0, 0, 0)));
}

#[test]
fn default_context_is_start_of_text() {
    assert_eq!(
        NodeContext::default(),
        NodeContext { line: 1, column: 1, index: 0 }
    );
}

#[test]
fn add_on_same_line_moves_column() {
    let c = NodeContext { line: 1, column: 5, index: 4 };
    assert_eq!(c.add(offset(0, 3, 3)), NodeContext { line: 1, column: 8, index: 7 });
}

#[test]
fn add_across_lines_resets_column() {
    let c = NodeContext { line: 2, column: 7, index: 20 };
    assert_eq!(c.add(offset(2, 3, 10)), NodeContext { line: 4, column: 4, index: 30 });
}

#[test]
fn add_and_add_assign_agree() {
    let c = NodeContext { line: 3, column: 9, index: 40 };
    for o in [offset(0, 0, 0), offset(0, 4, 4), offset(1, 0, 1), offset(5, 2, 17)] {
        let mut d = c;
        d.add_assign(o);
        assert_eq!(d, c.add(o));
    }
}

#[test]
fn add_lines_moves_to_first_column() {
    let mut c = NodeContext { line: 3, column: 9, index: 40 };
    c.add_lines(0);
    assert_eq!(c, NodeContext { line: 3, column: 9, index: 40 });
    c.add_lines(2);
    assert_eq!(c, NodeContext { line: 5, column: 1, index: 40 });
}
