//! The parser: reads the grammar of `grammar` from a vector of characters.

use vstd::prelude::*;
use crate::chars::string_of;
use crate::error::{fail, ParseError, ParseErrorExpectation};
use crate::grammar::{
    close_at, dict_entries, dict_entry_at, dictionary_at, empty_at, ident_at, key_at, list_at,
    list_entries, logical_at, number_step, obj_entries, obj_entry_at, object_at, place, prepend,
    text_at, value_at, Step,
};
use crate::lexer::{
    after_space, lemma_ident, lemma_number, lemma_text, scan_ident, scan_number, scan_space,
    scan_text, scan_word,
};
use crate::node::{
    dict_entries_of, fields_of, lemma_dictionary_view, lemma_list_view, lemma_object_view, trees,
    AstNode, BoxedAstNode, DictionaryEntryKey, DictionaryEntryNode, DictionaryNode, EmptyNode,
    ListNode, LogicalNode, NumberNode, ObjectEntryNode, ObjectNode, TextNode,
};
use crate::position::{
    fits, flat, lemma_counts_bounded, lemma_counts_concat, lemma_flat_no_newlines,
    lemma_moved_concat, advance, offset_of, NodeContext, Offset,
};

verus! {

/// `st` read up to `e`, whose place is `c`.
pub open spec fn ended<T>(st: Step<T>, e: usize, c: NodeContext, s: Seq<char>, b: NodeContext) -> bool {
    &&& st matches Step::Done { end, .. } && end == e
    &&& e <= s.len()
    &&& c == place(b, s, e as int)
}

/// `st` failed, and `err` reports it.
pub open spec fn failed<T>(st: Step<T>, err: ParseError, s: Seq<char>, b: NodeContext) -> bool {
    st matches Step::Fail { expected, at } && 0 <= at <= s.len() && err.is_at(
        s,
        at,
        place(b, s, at),
        expected,
    )
}

/// Moving from position `j` to `k` moves the place over the text between.
pub proof fn lemma_place_step(b: NodeContext, s: Seq<char>, j: int, k: int)
    requires
        fits(b, s.len() as int),
        0 <= j <= k <= s.len(),
    ensures
        ({
            let c = place(b, s, j);
            let o = offset_of(s.subrange(j, k));
            &&& place(b, s, k) == advance(c, o)
            &&& c.line + o.line <= u64::MAX
            &&& c.index + o.index <= u64::MAX
            &&& o.line > 0 ==> o.column < u64::MAX
            &&& o.line == 0 ==> c.column + o.column <= u64::MAX
        }),
{
    let p = s.subrange(0, j);
    let q = s.subrange(j, k);
    assert(p + q =~= s.subrange(0, k));
    lemma_counts_bounded(p);
    lemma_counts_bounded(q);
    lemma_counts_bounded(p + q);
    lemma_counts_concat(p, q);
    lemma_moved_concat(b, p, q);
}

/// Skips the whitespace at `j`, whose place is `c`.
pub(crate) fn skip_space(s: &Vec<char>, Ghost(b): Ghost<NodeContext>, j: usize, c: NodeContext) -> (r: (usize, NodeContext))
    requires
        j <= s@.len(),
        fits(b, s@.len() as int),
        c == place(b, s@, j as int),
    ensures
        r.0 == after_space(s@, j as int),
        j <= r.0 <= s@.len(),
        r.1 == place(b, s@, r.0 as int),
{
    let (k, o) = scan_space(s, j);
    proof {
        lemma_place_step(b, s@, j as int, k as int);
    }
    (k, c.add(o))
}

/// The place of `k`, from that of `j`, over text with no newline.
fn step_flat(s: &Vec<char>, Ghost(b): Ghost<NodeContext>, j: usize, k: usize, c: NodeContext) -> (r: NodeContext)
    requires
        j <= k <= s@.len(),
        fits(b, s@.len() as int),
        c == place(b, s@, j as int),
        flat(s@.subrange(j as int, k as int)),
    ensures
        r == place(b, s@, k as int),
{
    proof {
        lemma_flat_no_newlines(s@.subrange(j as int, k as int));
        lemma_counts_bounded(s@.subrange(j as int, k as int));
        lemma_place_step(b, s@, j as int, k as int);
    }
    c.add(Offset { line: 0, column: (k - j) as u64, index: (k - j) as u64 })
}

pub fn parse_empty(s: &Vec<char>, Ghost(b): Ghost<NodeContext>, i: usize, c: NodeContext) -> (r: Result<(EmptyNode, usize, NodeContext), ParseError>)
    requires
        i <= s@.len(),
        fits(b, s@.len() as int),
        c == place(b, s@, i as int),
    ensures
        match r {
            Ok((n, e, c2)) => ended(empty_at(s@, i as int), e, c2, s@, b) && n.context == c,
            Err(err) => failed(empty_at(s@, i as int), err, s@, b),
        },
{
    let w = "пусто";
    if let Some(k) = scan_word(s, i, w) {
        proof {
            reveal_strlit("пусто");
            assert(s@.subrange(i as int, k as int) == w@);
        }
        let c2 = step_flat(s, Ghost(b), i, k, c);
        Ok((EmptyNode { context: c }, k, c2))
    } else {
        Err(fail(s, i, c, ParseErrorExpectation::EmptyNode))
    }
}

pub fn parse_logical(s: &Vec<char>, Ghost(b): Ghost<NodeContext>, i: usize, c: NodeContext) -> (r: Result<(LogicalNode, usize, NodeContext), ParseError>)
    requires
        i <= s@.len(),
        fits(b, s@.len() as int),
        c == place(b, s@, i as int),
    ensures
        match r {
            Ok((n, e, c2)) => ended(logical_at(s@, i as int), e, c2, s@, b) && n.context == c
                && n.value == logical_at(s@, i as int)->value,
            Err(err) => failed(logical_at(s@, i as int), err, s@, b),
        },
{
    let no = "ні";
    let yes = "так";
    proof {
        reveal_strlit("ні");
        reveal_strlit("так");
    }
    if let Some(k) = scan_word(s, i, no) {
        assert(s@.subrange(i as int, k as int) == no@);
        let c2 = step_flat(s, Ghost(b), i, k, c);
        Ok((LogicalNode { value: false, context: c }, k, c2))
    } else if let Some(k) = scan_word(s, i, yes) {
        assert(s@.subrange(i as int, k as int) == yes@);
        let c2 = step_flat(s, Ghost(b), i, k, c);
        Ok((LogicalNode { value: true, context: c }, k, c2))
    } else {
        Err(fail(s, i, c, ParseErrorExpectation::LogicalNode))
    }
}

pub fn parse_number(s: &Vec<char>, Ghost(b): Ghost<NodeContext>, i: usize, c: NodeContext) -> (r: Result<(NumberNode, usize, NodeContext), ParseError>)
    requires
        i <= s@.len(),
        fits(b, s@.len() as int),
        c == place(b, s@, i as int),
    ensures
        match r {
            Ok((n, e, c2)) => ended(number_step(s@, i as int), e, c2, s@, b) && n.context == c
                && n.value@ == number_step(s@, i as int)->value && i < e,
            Err(err) => failed(number_step(s@, i as int), err, s@, b),
        },
{
    match scan_number(s, i) {
        Some((value, k)) => {
            proof {
                lemma_number(s@, i as int);
            }
            let c2 = step_flat(s, Ghost(b), i, k, c);
            Ok((NumberNode { value, context: c }, k, c2))
        },
        None => Err(fail(s, i, c, ParseErrorExpectation::NumberNode)),
    }
}

pub fn parse_text(s: &Vec<char>, Ghost(b): Ghost<NodeContext>, i: usize, c: NodeContext) -> (r: Result<(TextNode, usize, NodeContext), ParseError>)
    requires
        i <= s@.len(),
        fits(b, s@.len() as int),
        c == place(b, s@, i as int),
    ensures
        match r {
            Ok((n, e, c2)) => ended(text_at(s@, i as int), e, c2, s@, b) && n.context == c
                && n.value@ == text_at(s@, i as int)->value && i < e,
            Err(err) => failed(text_at(s@, i as int), err, s@, b),
        },
{
    match scan_text(s, i) {
        Some(k) => {
            proof {
                lemma_text(s@, i as int);
            }
            let c2 = step_flat(s, Ghost(b), i, k, c);
            Ok((TextNode { value: string_of(s, i + 1, k - 1), context: c }, k, c2))
        },
        None => Err(fail(s, i, c, ParseErrorExpectation::TextNode)),
    }
}

pub fn parse_ident(s: &Vec<char>, Ghost(b): Ghost<NodeContext>, i: usize, c: NodeContext) -> (r: Result<(TextNode, usize, NodeContext), ParseError>)
    requires
        i <= s@.len(),
        fits(b, s@.len() as int),
        c == place(b, s@, i as int),
    ensures
        match r {
            Ok((n, e, c2)) => ended(ident_at(s@, i as int), e, c2, s@, b) && n.context == c
                && n.value@ == ident_at(s@, i as int)->value && i < e,
            Err(err) => failed(ident_at(s@, i as int), err, s@, b),
        },
{
    let k = scan_ident(s, i);
    if k == i {
        return Err(fail(s, i, c, ParseErrorExpectation::Identifier));
    }
    proof {
        lemma_ident(s@, i as int);
    }
    let c2 = step_flat(s, Ghost(b), i, k, c);
    Ok((TextNode { value: string_of(s, i, k), context: c }, k, c2))
}

/// The place of `j + 1`, from that of `j`, over one character that is not a newline.
pub(crate) fn step_one(s: &Vec<char>, Ghost(b): Ghost<NodeContext>, j: usize, k: usize, c: NodeContext) -> (r: NodeContext)
    requires
        j < s@.len(),
        k == j + 1,
        s@[j as int] != '\n',
        fits(b, s@.len() as int),
        c == place(b, s@, j as int),
    ensures
        r == place(b, s@, j + 1),
{
    assert(flat(s@.subrange(j as int, j + 1))) by {
        assert forall|k: int| 0 <= k < 1 implies #[trigger] s@.subrange(j as int, j + 1)[k] != '\n' by {
            assert(s@.subrange(j as int, j + 1)[k] == s@[j as int]);
        }
    }
    step_flat(s, Ghost(b), j, k, c)
}

/// Whitespace, then the closing delimiter `ch`.
fn parse_close(
    s: &Vec<char>,
    Ghost(b): Ghost<NodeContext>,
    k: usize,
    c: NodeContext,
    ch: char,
    expected: ParseErrorExpectation,
) -> (r: Result<(usize, NodeContext), ParseError>)
    requires
        k <= s@.len(),
        ch != '\n',
        fits(b, s@.len() as int),
        c == place(b, s@, k as int),
    ensures
        match r {
            Ok((e, c2)) => ended(close_at(s@, k as int, ch, expected), e, c2, s@, b) && k < e,
            Err(err) => failed(close_at(s@, k as int, ch, expected), err, s@, b),
        },
{
    let (m, cm) = skip_space(s, Ghost(b), k, c);
    if m < s.len() && s[m] == ch {
        let c2 = step_one(s, Ghost(b), m, m + 1, cm);
        Ok((m + 1, c2))
    } else {
        Err(fail(s, m, cm, expected))
    }
}

pub proof fn lemma_prepend_twice<T>(a: Seq<T>, b: Seq<T>, st: Step<Seq<T>>)
    ensures
        prepend(a, prepend(b, st)) == prepend(a + b, st),
{
    if let Step::Done { value, .. } = st {
        assert(a + (b + value) =~= (a + b) + value);
    }
}

/// Reads a value: the first of empty, logical, number, text, dictionary,
/// object and list that reads at `i`.
pub fn parse_value(s: &Vec<char>, Ghost(b): Ghost<NodeContext>, i: usize, c: NodeContext) -> (r: Result<(AstNode, usize, NodeContext), ParseError>)
    requires
        i <= s@.len(),
        fits(b, s@.len() as int),
        c == place(b, s@, i as int),
    ensures
        match r {
            Ok((n, e, c2)) => ended(value_at(s@, b, i as int), e, c2, s@, b)
                && n@ == value_at(s@, b, i as int)->value && i < e,
            Err(err) => failed(value_at(s@, b, i as int), err, s@, b),
        },
    decreases s@.len() - i, 5int,
{
    if let Ok((n, e, c2)) = parse_empty(s, Ghost(b), i, c) {
        proof {
            reveal_strlit("пусто");
        }
        return Ok((AstNode::Empty(n), e, c2));
    }
    if let Ok((n, e, c2)) = parse_logical(s, Ghost(b), i, c) {
        proof {
            reveal_strlit("ні");
            reveal_strlit("так");
        }
        return Ok((AstNode::Logical(n), e, c2));
    }
    if let Ok((n, e, c2)) = parse_number(s, Ghost(b), i, c) {
        return Ok((AstNode::Number(n), e, c2));
    }
    if let Ok((n, e, c2)) = parse_text(s, Ghost(b), i, c) {
        return Ok((AstNode::Text(n), e, c2));
    }
    if let Ok((n, e, c2)) = parse_dictionary(s, Ghost(b), i, c) {
        proof {
            lemma_dictionary_view(n);
        }
        return Ok((AstNode::Dictionary(n), e, c2));
    }
    if let Ok((n, e, c2)) = parse_object(s, Ghost(b), i, c) {
        proof {
            lemma_object_view(n);
        }
        return Ok((AstNode::Object(n), e, c2));
    }
    if let Ok((n, e, c2)) = parse_list(s, Ghost(b), i, c) {
        proof {
            lemma_list_view(n);
        }
        return Ok((AstNode::List(n), e, c2));
    }
    Err(fail(s, i, c, ParseErrorExpectation::AstNode))
}

/// Reads `[` entries `]`.
pub fn parse_list(s: &Vec<char>, Ghost(b): Ghost<NodeContext>, i: usize, c: NodeContext) -> (r: Result<(ListNode, usize, NodeContext), ParseError>)
    requires
        i <= s@.len(),
        fits(b, s@.len() as int),
        c == place(b, s@, i as int),
    ensures
        match r {
            Ok((n, e, c2)) => ended(list_at(s@, b, i as int), e, c2, s@, b)
                && trees(n.entries@) == list_at(s@, b, i as int)->value && n.context == c && i < e,
            Err(err) => failed(list_at(s@, b, i as int), err, s@, b),
        },
    decreases s@.len() - i, 4int,
{
    if i < s.len() && s[i] == '[' {
        let c1 = step_one(s, Ghost(b), i, i + 1, c);
        let (j, cj) = skip_space(s, Ghost(b), i + 1, c1);
        match parse_list_entries(s, Ghost(b), j, cj) {
            Ok((entries, k, ck)) => match parse_close(s, Ghost(b), k, ck, ']', ParseErrorExpectation::RightBracket) {
                Ok((e, ce)) => Ok((ListNode { entries, context: c }, e, ce)),
                Err(err) => Err(err),
            },
            Err(err) => Err(err),
        }
    } else {
        Err(fail(s, i, c, ParseErrorExpectation::LeftBracket))
    }
}

/// Reads the entries of a list, as `list_entries` with nothing read before.
fn parse_list_entries(s: &Vec<char>, Ghost(b): Ghost<NodeContext>, i: usize, c: NodeContext) -> (r: Result<(Vec<AstNode>, usize, NodeContext), ParseError>)
    requires
        i <= s@.len(),
        fits(b, s@.len() as int),
        c == place(b, s@, i as int),
    ensures
        match r {
            Ok((v, e, c2)) => ended(list_entries(s@, b, i as int, false), e, c2, s@, b)
                && trees(v@) == list_entries(s@, b, i as int, false)->value && i <= e,
            Err(err) => failed(list_entries(s@, b, i as int, false), err, s@, b),
        },
    decreases s@.len() - i, 6int,
{
    let mut entries: Vec<AstNode> = Vec::new();
    let mut k = i;
    let mut ck = c;
    loop
        invariant
            i <= k <= s@.len(),
            fits(b, s@.len() as int),
            ck == place(b, s@, k as int),
            entries@.len() == 0 ==> k == i,
            list_entries(s@, b, i as int, false) == prepend(
                trees(entries@),
                list_entries(s@, b, k as int, entries@.len() > 0),
            ),
        decreases s@.len() - k,
    {
        match parse_value(s, Ghost(b), k, ck) {
            Err(err) => {
                if entries.len() > 0 {
                    return Err(err);
                }
                assert(trees(entries@) + seq![] =~= trees(entries@));
                return Ok((entries, k, ck));
            },
            Ok((node, j, cj)) => {
                let ghost before = entries@;
                entries.push(node);
                assert(trees(entries@) =~= trees(before) + seq![node@]);
                let (k2, c2) = skip_space(s, Ghost(b), j, cj);
                if k2 < s.len() && s[k2] == ',' {
                    let c3 = step_one(s, Ghost(b), k2, k2 + 1, c2);
                    let (m, cm) = skip_space(s, Ghost(b), k2 + 1, c3);
                    proof {
                        lemma_prepend_twice(trees(before), seq![node@], list_entries(s@, b, m as int, true));
                    }
                    k = m;
                    ck = cm;
                } else {
                    return Ok((entries, j, cj));
                }
            },
        }
    }
}

/// Reads `(` entries `)`.
pub fn parse_dictionary(s: &Vec<char>, Ghost(b): Ghost<NodeContext>, i: usize, c: NodeContext) -> (r: Result<(DictionaryNode, usize, NodeContext), ParseError>)
    requires
        i <= s@.len(),
        fits(b, s@.len() as int),
        c == place(b, s@, i as int),
    ensures
        match r {
            Ok((n, e, c2)) => ended(dictionary_at(s@, b, i as int), e, c2, s@, b)
                && dict_entries_of(n.entries@) == dictionary_at(s@, b, i as int)->value
                && n.context == c && i < e,
            Err(err) => failed(dictionary_at(s@, b, i as int), err, s@, b),
        },
    decreases s@.len() - i, 4int,
{
    if i < s.len() && s[i] == '(' {
        let c1 = step_one(s, Ghost(b), i, i + 1, c);
        let (j, cj) = skip_space(s, Ghost(b), i + 1, c1);
        match parse_dict_entries(s, Ghost(b), j, cj) {
            Ok((entries, k, ck)) => match parse_close(s, Ghost(b), k, ck, ')', ParseErrorExpectation::RightParenthesis) {
                Ok((e, ce)) => Ok((DictionaryNode { entries, context: c }, e, ce)),
                Err(err) => Err(err),
            },
            Err(err) => Err(err),
        }
    } else {
        Err(fail(s, i, c, ParseErrorExpectation::LeftParenthesis))
    }
}

/// Reads a dictionary key: an identifier, else a quoted text, else a number.
pub fn parse_entry_key(s: &Vec<char>, Ghost(b): Ghost<NodeContext>, i: usize, c: NodeContext) -> (r: Result<(DictionaryEntryKey, usize, NodeContext), ParseError>)
    requires
        i <= s@.len(),
        fits(b, s@.len() as int),
        c == place(b, s@, i as int),
    ensures
        match r {
            Ok((key, e, c2)) => ended(key_at(s@, b, i as int), e, c2, s@, b)
                && key@ == key_at(s@, b, i as int)->value && i < e,
            Err(err) => failed(key_at(s@, b, i as int), err, s@, b),
        },
{
    if let Ok((t, e, c2)) = parse_ident(s, Ghost(b), i, c) {
        return Ok((DictionaryEntryKey::Text(t), e, c2));
    }
    if let Ok((t, e, c2)) = parse_text(s, Ghost(b), i, c) {
        return Ok((DictionaryEntryKey::Text(t), e, c2));
    }
    if let Ok((n, e, c2)) = parse_number(s, Ghost(b), i, c) {
        return Ok((DictionaryEntryKey::Number(n), e, c2));
    }
    Err(fail(s, i, c, ParseErrorExpectation::DictionaryEntryKey))
}

/// Reads `key = value` in a dictionary.
pub fn parse_dict_entry(s: &Vec<char>, Ghost(b): Ghost<NodeContext>, i: usize, c: NodeContext) -> (r: Result<(DictionaryEntryNode, usize, NodeContext), ParseError>)
    requires
        i <= s@.len(),
        fits(b, s@.len() as int),
        c == place(b, s@, i as int),
    ensures
        match r {
            Ok((n, e, c2)) => ended(dict_entry_at(s@, b, i as int), e, c2, s@, b)
                && n@ == dict_entry_at(s@, b, i as int)->value && i < e,
            Err(err) => failed(dict_entry_at(s@, b, i as int), err, s@, b),
        },
    decreases s@.len() - i, 6int,
{
    let (key, e, ce) = match parse_entry_key(s, Ghost(b), i, c) {
        Ok(x) => x,
        Err(err) => {
            return Err(err);
        },
    };
    let (k, ck) = skip_space(s, Ghost(b), e, ce);
    if k < s.len() && s[k] == '=' {
        let c1 = step_one(s, Ghost(b), k, k + 1, ck);
        let (m, cm) = skip_space(s, Ghost(b), k + 1, c1);
        match parse_value(s, Ghost(b), m, cm) {
            Ok((v, e2, c2)) => Ok((DictionaryEntryNode { key, value: BoxedAstNode(v), context: c }, e2, c2)),
            Err(err) => Err(err),
        }
    } else {
        Err(fail(s, k, ck, ParseErrorExpectation::EqualsSign))
    }
}

/// Reads the entries of a dictionary, as `dict_entries` with nothing read before.
fn parse_dict_entries(s: &Vec<char>, Ghost(b): Ghost<NodeContext>, i: usize, c: NodeContext) -> (r: Result<(Vec<DictionaryEntryNode>, usize, NodeContext), ParseError>)
    requires
        i <= s@.len(),
        fits(b, s@.len() as int),
        c == place(b, s@, i as int),
    ensures
        match r {
            Ok((v, e, c2)) => ended(dict_entries(s@, b, i as int, false), e, c2, s@, b)
                && dict_entries_of(v@) == dict_entries(s@, b, i as int, false)->value && i <= e,
            Err(err) => failed(dict_entries(s@, b, i as int, false), err, s@, b),
        },
    decreases s@.len() - i, 7int,
{
    let mut entries: Vec<DictionaryEntryNode> = Vec::new();
    let mut k = i;
    let mut ck = c;
    loop
        invariant
            i <= k <= s@.len(),
            fits(b, s@.len() as int),
            ck == place(b, s@, k as int),
            entries@.len() == 0 ==> k == i,
            dict_entries(s@, b, i as int, false) == prepend(
                dict_entries_of(entries@),
                dict_entries(s@, b, k as int, entries@.len() > 0),
            ),
        decreases s@.len() - k,
    {
        match parse_dict_entry(s, Ghost(b), k, ck) {
            Err(err) => {
                if entries.len() > 0 {
                    return Err(err);
                }
                assert(dict_entries_of(entries@) + seq![] =~= dict_entries_of(entries@));
                return Ok((entries, k, ck));
            },
            Ok((entry, j, cj)) => {
                let ghost before = entries@;
                let ghost model = entry@;
                entries.push(entry);
                assert(dict_entries_of(entries@) =~= dict_entries_of(before) + seq![model]);
                let (k2, c2) = skip_space(s, Ghost(b), j, cj);
                if k2 < s.len() && s[k2] == ',' {
                    let c3 = step_one(s, Ghost(b), k2, k2 + 1, c2);
                    let (m, cm) = skip_space(s, Ghost(b), k2 + 1, c3);
                    proof {
                        lemma_prepend_twice(dict_entries_of(before), seq![model], dict_entries(s@, b, m as int, true));
                    }
                    k = m;
                    ck = cm;
                } else {
                    return Ok((entries, j, cj));
                }
            },
        }
    }
}

/// Reads an identifier, right after it `(`, entries, `)`.
pub fn parse_object(s: &Vec<char>, Ghost(b): Ghost<NodeContext>, i: usize, c: NodeContext) -> (r: Result<(ObjectNode, usize, NodeContext), ParseError>)
    requires
        i <= s@.len(),
        fits(b, s@.len() as int),
        c == place(b, s@, i as int),
    ensures
        match r {
            Ok((n, e, c2)) => ended(object_at(s@, b, i as int), e, c2, s@, b)
                && n.name.value@ == object_at(s@, b, i as int)->value.0
                && fields_of(n.entries@) == object_at(s@, b, i as int)->value.1
                && n.name.context == c && n.context == c && i < e,
            Err(err) => failed(object_at(s@, b, i as int), err, s@, b),
        },
    decreases s@.len() - i, 4int,
{
    let (name, e, ce) = match parse_ident(s, Ghost(b), i, c) {
        Ok(x) => x,
        Err(err) => {
            return Err(err);
        },
    };
    if e < s.len() && s[e] == '(' {
        let c1 = step_one(s, Ghost(b), e, e + 1, ce);
        let (j, cj) = skip_space(s, Ghost(b), e + 1, c1);
        match parse_obj_entries(s, Ghost(b), j, cj) {
            Ok((entries, k, ck)) => match parse_close(s, Ghost(b), k, ck, ')', ParseErrorExpectation::RightParenthesis) {
                Ok((e2, c2)) => Ok((ObjectNode { name, entries, context: c }, e2, c2)),
                Err(err) => Err(err),
            },
            Err(err) => Err(err),
        }
    } else {
        Err(fail(s, e, ce, ParseErrorExpectation::LeftParenthesis))
    }
}

/// Reads `key = value` in an object.
pub fn parse_obj_entry(s: &Vec<char>, Ghost(b): Ghost<NodeContext>, i: usize, c: NodeContext) -> (r: Result<(ObjectEntryNode, usize, NodeContext), ParseError>)
    requires
        i <= s@.len(),
        fits(b, s@.len() as int),
        c == place(b, s@, i as int),
    ensures
        match r {
            Ok((n, e, c2)) => ended(obj_entry_at(s@, b, i as int), e, c2, s@, b)
                && n@ == obj_entry_at(s@, b, i as int)->value && i < e,
            Err(err) => failed(obj_entry_at(s@, b, i as int), err, s@, b),
        },
    decreases s@.len() - i, 6int,
{
    let (key, e, ce) = match parse_ident(s, Ghost(b), i, c) {
        Ok(x) => x,
        Err(err) => {
            return Err(err);
        },
    };
    let (k, ck) = skip_space(s, Ghost(b), e, ce);
    if k < s.len() && s[k] == '=' {
        let c1 = step_one(s, Ghost(b), k, k + 1, ck);
        let (m, cm) = skip_space(s, Ghost(b), k + 1, c1);
        match parse_value(s, Ghost(b), m, cm) {
            Ok((v, e2, c2)) => Ok((ObjectEntryNode { key, value: BoxedAstNode(v), context: c }, e2, c2)),
            Err(err) => Err(err),
        }
    } else {
        Err(fail(s, k, ck, ParseErrorExpectation::EqualsSign))
    }
}

/// Reads the entries of an object, as `obj_entries` with nothing read before.
fn parse_obj_entries(s: &Vec<char>, Ghost(b): Ghost<NodeContext>, i: usize, c: NodeContext) -> (r: Result<(Vec<ObjectEntryNode>, usize, NodeContext), ParseError>)
    requires
        i <= s@.len(),
        fits(b, s@.len() as int),
        c == place(b, s@, i as int),
    ensures
        match r {
            Ok((v, e, c2)) => ended(obj_entries(s@, b, i as int, false), e, c2, s@, b)
                && fields_of(v@) == obj_entries(s@, b, i as int, false)->value && i <= e,
            Err(err) => failed(obj_entries(s@, b, i as int, false), err, s@, b),
        },
    decreases s@.len() - i, 7int,
{
    let mut entries: Vec<ObjectEntryNode> = Vec::new();
    let mut k = i;
    let mut ck = c;
    loop
        invariant
            i <= k <= s@.len(),
            fits(b, s@.len() as int),
            ck == place(b, s@, k as int),
            entries@.len() == 0 ==> k == i,
            obj_entries(s@, b, i as int, false) == prepend(
                fields_of(entries@),
                obj_entries(s@, b, k as int, entries@.len() > 0),
            ),
        decreases s@.len() - k,
    {
        match parse_obj_entry(s, Ghost(b), k, ck) {
            Err(err) => {
                if entries.len() > 0 {
                    return Err(err);
                }
                assert(fields_of(entries@) + seq![] =~= fields_of(entries@));
                return Ok((entries, k, ck));
            },
            Ok((entry, j, cj)) => {
                let ghost before = entries@;
                let ghost model = entry@;
                entries.push(entry);
                assert(fields_of(entries@) =~= fields_of(before) + seq![model]);
                let (k2, c2) = skip_space(s, Ghost(b), j, cj);
                if k2 < s.len() && s[k2] == ',' {
                    let c3 = step_one(s, Ghost(b), k2, k2 + 1, c2);
                    let (m, cm) = skip_space(s, Ghost(b), k2 + 1, c3);
                    proof {
                        lemma_prepend_twice(fields_of(before), seq![model], obj_entries(s@, b, m as int, true));
                    }
                    k = m;
                    ck = cm;
                } else {
                    return Ok((entries, j, cj));
                }
            },
        }
    }
}

} // verus!
