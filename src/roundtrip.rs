//! Writing a tree out as text, and reading it back.
//!
//! `render` writes a tree in the plainest form the grammar allows: no
//! whitespace, entries joined by commas, dictionary keys that are texts
//! written in quotes. Every tree that such a text can stand for
//! (`renderable`) is read back as the same tree, places aside.

use vstd::prelude::*;
use crate::equality::{erase, erase_key};
use crate::grammar::{
    dict_entries, dict_entry_at, dictionary_at, document, empty_at, key_at, list_at,
    list_entries, logical_at, number_step, obj_entries, obj_entry_at, object_at, start, text_at,
    value_at, Step, close_at, ident_at,
};
use crate::lexer::{
    after_space, digit_len, digits_value, ident_len, ident_tail, is_apostrophe, is_digit,
    is_ident_char, is_ident_start, is_letter, is_space, number_at, text_body, text_len,
    word_at,
};
use crate::node::{DictEntry, Field, KeyValue, NumberValue, Tree};
use crate::position::NodeContext;

verus! {

// ---------------------------------------------------------------------------
// Writing.

pub open spec fn digit_of(d: int) -> char {
    if d == 0 { '0' }
    else if d == 1 { '1' }
    else if d == 2 { '2' }
    else if d == 3 { '3' }
    else if d == 4 { '4' }
    else if d == 5 { '5' }
    else if d == 6 { '6' }
    else if d == 7 { '7' }
    else if d == 8 { '8' }
    else { '9' }
}

/// The decimal digits of `n`.
pub open spec fn digits_of(n: nat) -> Seq<char>
    decreases n,
{
    if n < 10 {
        seq![digit_of(n as int)]
    } else {
        digits_of(n / 10).push(digit_of(n as int % 10))
    }
}

pub open spec fn render_number(v: NumberValue) -> Seq<char> {
    match v {
        NumberValue::Integer(n) => if n < 0 {
            seq!['-'] + digits_of((-n) as nat)
        } else {
            digits_of(n as nat)
        },
        NumberValue::Float(t) => t,
    }
}

pub open spec fn quoted(v: Seq<char>) -> Seq<char> {
    seq!['"'] + v + seq!['"']
}

/// `parts` joined by commas.
pub open spec fn join(parts: Seq<Seq<char>>) -> Seq<char>
    decreases parts.len(),
{
    if parts.len() == 0 {
        Seq::empty()
    } else if parts.len() == 1 {
        parts[0]
    } else {
        parts[0] + seq![','] + join(parts.drop_first())
    }
}

pub open spec fn render_key(k: KeyValue) -> Seq<char> {
    match k {
        KeyValue::Number { value, .. } => render_number(value),
        KeyValue::Text { value, .. } => quoted(value),
    }
}

/// The plainest text of `t`.
pub open spec fn render(t: Tree) -> Seq<char>
    decreases t,
{
    match t {
        Tree::Empty { .. } => "пусто"@,
        Tree::Logical { value, .. } => if value { "так"@ } else { "ні"@ },
        Tree::Number { value, .. } => render_number(value),
        Tree::Text { value, .. } => quoted(value),
        Tree::List { entries, .. } => seq!['['] + join(renders(entries)) + seq![']'],
        Tree::Dictionary { entries, .. } => seq!['('] + join(dict_parts(entries)) + seq![')'],
        Tree::Object { name, entries, .. } => name + seq!['('] + join(field_parts(entries)) + seq![')'],
    }
}

/// The texts of a run of values.
pub open spec fn renders(es: Seq<Tree>) -> Seq<Seq<char>>
    decreases es,
{
    Seq::new(es.len(), |k: int| if 0 <= k < es.len() { render(es[k]) } else { Seq::empty() })
}

/// The texts of a run of dictionary entries: key, `=`, value.
pub open spec fn dict_parts(es: Seq<DictEntry>) -> Seq<Seq<char>>
    decreases es,
{
    Seq::new(
        es.len(),
        |k: int|
            if 0 <= k < es.len() {
                render_key(es[k].key) + seq!['='] + render(es[k].value)
            } else {
                Seq::empty()
            },
    )
}

/// The texts of a run of object entries: key, `=`, value.
pub open spec fn field_parts(es: Seq<Field>) -> Seq<Seq<char>>
    decreases es,
{
    Seq::new(
        es.len(),
        |k: int| if 0 <= k < es.len() { es[k].key + seq!['='] + render(es[k].value) } else { Seq::empty() },
    )
}

// ---------------------------------------------------------------------------
// What can be written.

/// `t` is `-`, if present, then digits, `.` and digits.
pub open spec fn decimal_literal(t: Seq<char>) -> bool {
    let d = if t.len() > 0 && t[0] == '-' { 1int } else { 0int };
    let p = d + digit_len(t, d);
    &&& p > d
    &&& p < t.len()
    &&& t[p] == '.'
    &&& digit_len(t, p + 1) > 0
    &&& p + 1 + digit_len(t, p + 1) == t.len()
}

pub open spec fn number_renderable(v: NumberValue) -> bool {
    match v {
        NumberValue::Integer(n) => -i64::MAX <= n <= i64::MAX,
        NumberValue::Float(t) => decimal_literal(t),
    }
}

/// `v` can stand between quotes: the quoted text ends at the closing quote.
pub open spec fn text_renderable(v: Seq<char>) -> bool {
    text_body(v + seq!['"'], 0) == Some(v.len())
}

/// `v` is an identifier, whole.
pub open spec fn identifier(v: Seq<char>) -> bool {
    v.len() > 0 && ident_len(v, 0) == v.len()
}

/// A name that no keyword reads before the object does.
pub open spec fn object_name(v: Seq<char>) -> bool {
    &&& identifier(v)
    &&& !word_at(v + seq!['('], 0, "пусто"@)
    &&& !word_at(v + seq!['('], 0, "так"@)
    &&& !word_at(v + seq!['('], 0, "ні"@)
}

pub open spec fn key_renderable(k: KeyValue) -> bool {
    match k {
        KeyValue::Number { value, .. } => number_renderable(value),
        KeyValue::Text { value, .. } => text_renderable(value),
    }
}

/// Trees that `render` writes as a text that reads back as them.
pub open spec fn renderable(t: Tree) -> bool
    decreases t,
{
    match t {
        Tree::Number { value, .. } => number_renderable(value),
        Tree::Text { value, .. } => text_renderable(value),
        Tree::List { entries, .. } => forall|k: int|
            #![trigger entries[k]]
            0 <= k < entries.len() ==> renderable(entries[k]),
        Tree::Dictionary { entries, .. } => forall|k: int|
            #![trigger entries[k]]
            0 <= k < entries.len() ==> key_renderable(entries[k].key) && renderable(entries[k].value),
        Tree::Object { name, entries, .. } => object_name(name) && forall|k: int|
            #![trigger entries[k]]
            0 <= k < entries.len() ==> identifier(entries[k].key) && renderable(entries[k].value),
        _ => true,
    }
}

// ---------------------------------------------------------------------------
// Reading tokens back.

/// Position `e` ends a value: the end of the text, or a comma or a closing delimiter.
pub open spec fn stops(s: Seq<char>, e: int) -> bool {
    e == s.len() || (0 <= e < s.len() && (s[e] == ',' || s[e] == ']' || s[e] == ')'))
}

pub proof fn lemma_placed_split(s: Seq<char>, i: int, a: Seq<char>, b: Seq<char>)
    requires
        word_at(s, i, a + b),
    ensures
        word_at(s, i, a),
        word_at(s, i + a.len(), b),
{
    let w = s.subrange(i, i + a.len() + b.len());
    assert(w == a + b);
    assert(s.subrange(i, i + a.len()) =~= w.subrange(0, a.len() as int));
    assert(w.subrange(0, a.len() as int) =~= a);
    assert(s.subrange(i + a.len(), i + a.len() + b.len()) =~= w.subrange(a.len() as int, w.len() as int));
    assert(w.subrange(a.len() as int, w.len() as int) =~= b);
}

pub proof fn lemma_placed_at(s: Seq<char>, i: int, w: Seq<char>, k: int)
    requires
        word_at(s, i, w),
        0 <= k < w.len(),
    ensures
        s[i + k] == w[k],
{
    assert(s.subrange(i, i + w.len())[k] == s[i + k]);
}

pub proof fn lemma_digit_len_shift(s: Seq<char>, i: int, u: Seq<char>, j: int)
    requires
        word_at(s, i, u),
        0 <= j <= u.len(),
        i + u.len() == s.len() || !is_digit(s[i + u.len()]),
    ensures
        digit_len(s, i + j) == digit_len(u, j),
    decreases u.len() - j,
{
    if j < u.len() {
        lemma_placed_at(s, i, u, j);
        lemma_digit_len_shift(s, i, u, j + 1);
    }
}

pub proof fn lemma_ident_tail_shift(s: Seq<char>, i: int, u: Seq<char>, j: int)
    requires
        word_at(s, i, u),
        0 <= j <= u.len(),
        i + u.len() == s.len() || (!is_ident_char(s[i + u.len()]) && !is_apostrophe(s[i + u.len()])),
    ensures
        ident_tail(s, i + j) == ident_tail(u, j),
    decreases u.len() - j,
{
    if j < u.len() {
        lemma_placed_at(s, i, u, j);
        if j + 1 < u.len() {
            lemma_placed_at(s, i, u, j + 1);
        }
        if is_ident_char(u[j]) {
            lemma_ident_tail_shift(s, i, u, j + 1);
        } else if j + 1 < u.len() && is_apostrophe(u[j]) && is_letter(u[j + 1]) {
            lemma_ident_tail_shift(s, i, u, j + 2);
        }
    }
}

pub proof fn lemma_text_body_shift(s: Seq<char>, i: int, u: Seq<char>, j: int)
    requires
        word_at(s, i, u),
        0 <= j,
        text_body(u, j) is Some,
    ensures
        text_body(s, i + j) == text_body(u, j),
    decreases u.len() - j,
{
    lemma_placed_at(s, i, u, j);
    if u[j] == '"' {
    } else if u[j] == '\\' {
        lemma_placed_at(s, i, u, j + 1);
        lemma_text_body_shift(s, i, u, j + 2);
    } else {
        lemma_text_body_shift(s, i, u, j + 1);
    }
}

pub proof fn lemma_digit_of(d: int)
    requires
        0 <= d < 10,
    ensures
        is_digit(digit_of(d)),
        digits_value(seq![digit_of(d)]) == d,
        digit_of(d) as u32 - '0' as u32 == d,
{
    assert(seq![digit_of(d)].drop_last() =~= Seq::<char>::empty());
    assert(digits_value(Seq::<char>::empty()) == 0);
    assert(seq![digit_of(d)].last() == digit_of(d));
}

pub proof fn lemma_digits_of(n: nat)
    ensures
        digits_of(n).len() > 0,
        forall|k: int| 0 <= k < digits_of(n).len() ==> is_digit(#[trigger] digits_of(n)[k]),
        digits_value(digits_of(n)) == n,
    decreases n,
{
    if n < 10 {
        lemma_digit_of(n as int);
    } else {
        lemma_digits_of(n / 10);
        lemma_digit_of(n as int % 10);
        let u = digits_of(n / 10).push(digit_of(n as int % 10));
        assert(u.drop_last() =~= digits_of(n / 10));
        assert(n == (n / 10) * 10 + n % 10);
    }
}

pub proof fn lemma_all_digits(u: Seq<char>, from: int, j: int)
    requires
        0 <= from <= j <= u.len(),
        forall|k: int| from <= k < u.len() ==> is_digit(#[trigger] u[k]),
    ensures
        digit_len(u, j) == u.len() - j,
    decreases u.len() - j,
{
    if j < u.len() {
        lemma_all_digits(u, from, j + 1);
    }
}

/// A number written by `render_number` reads back.
pub proof fn lemma_number_reads(s: Seq<char>, i: int, v: NumberValue)
    requires
        number_renderable(v),
        word_at(s, i, render_number(v)),
        i + render_number(v).len() == s.len() || (!is_digit(s[i + render_number(v).len()])
            && s[i + render_number(v).len()] != '.'),
    ensures
        number_at(s, i) == Some((v, i + render_number(v).len())),
        render_number(v).len() > 0,
        s[i] == '-' || is_digit(s[i]),
{
    let u = render_number(v);
    match v {
        NumberValue::Integer(n) => {
            if n < 0 {
                let m = (-n) as nat;
                lemma_digits_of(m);
                lemma_placed_at(s, i, u, 0);
                lemma_digit_len_shift(s, i, u, 1);
                assert forall|k: int| 1 <= k < u.len() implies is_digit(#[trigger] u[k]) by {
                    assert(u[k] == digits_of(m)[k - 1]);
                }
                lemma_all_digits(u, 1, 1);
                assert(s.subrange(i + 1, i + u.len()) =~= digits_of(m)) by {
                    assert forall|k: int| 0 <= k < digits_of(m).len() implies s.subrange(i + 1, i + u.len())[k] == digits_of(m)[k] by {
                        lemma_placed_at(s, i, u, k + 1);
                    }
                }
            } else {
                let m = n as nat;
                lemma_digits_of(m);
                lemma_placed_at(s, i, u, 0);
                lemma_digit_len_shift(s, i, u, 0);
                lemma_all_digits(u, 0, 0);
                assert(s.subrange(i, i + u.len()) =~= u);
            }
        },
        NumberValue::Float(t) => {
            let d = if t.len() > 0 && t[0] == '-' { 1int } else { 0int };
            let p = d + digit_len(t, d);
            lemma_placed_at(s, i, u, 0);
            lemma_digit_len_shift(s, i, u, d);
            lemma_digit_len_shift(s, i, u, p + 1);
            lemma_placed_at(s, i, u, p);
            if d == 0 {
                lemma_digit_len_shift(s, i, u, 0);
            }
        },
    }
}

/// An identifier reads back whole.
pub proof fn lemma_ident_reads(s: Seq<char>, i: int, u: Seq<char>)
    requires
        identifier(u),
        word_at(s, i, u),
        i + u.len() == s.len() || (!is_ident_char(s[i + u.len()]) && !is_apostrophe(s[i + u.len()])),
    ensures
        ident_len(s, i) == u.len(),
        is_ident_start(s[i]),
{
    lemma_placed_at(s, i, u, 0);
    lemma_ident_tail_shift(s, i, u, 1);
}

/// A quoted text reads back.
pub proof fn lemma_text_reads(s: Seq<char>, i: int, v: Seq<char>)
    requires
        text_renderable(v),
        word_at(s, i, quoted(v)),
    ensures
        text_len(s, i) == Some((v.len() + 2) as nat),
        text_at(s, i) == (Step::Done { value: v, end: i + v.len() + 2 }),
{
    let u = v + seq!['"'];
    assert(quoted(v) =~= seq!['"'] + u);
    lemma_placed_split(s, i, seq!['"'], u);
    lemma_placed_at(s, i, quoted(v), 0);
    lemma_text_body_shift(s, i + 1, u, 0);
    lemma_placed_split(s, i + 1, v, seq!['"']);
}

// ---------------------------------------------------------------------------
// Reading values back.

/// `st` read a value equal to `t`, places aside, up to `e`.
pub open spec fn read_as(st: Step<Tree>, e: int, t: Tree) -> bool {
    st matches Step::Done { value, end } && end == e && erase(value) == erase(t)
}

/// Wherever `render(t)` stands, followed by the end of a value, it reads back as `t`.
#[verifier::opaque]
pub open spec fn reads_back(t: Tree) -> bool {
    forall|s: Seq<char>, b: NodeContext, i: int|
        word_at(s, i, render(t)) && stops(s, i + render(t).len()) ==> read_as(
            #[trigger] value_at(s, b, i),
            i + render(t).len(),
            t,
        )
}

/// The first character of a written value, which is neither whitespace nor
/// punctuation that ends or joins values.
pub open spec fn opens_value(c: char) -> bool {
    !is_space(c) && c != ',' && c != ']' && c != ')' && c != '=' && c != '.'
}

pub proof fn lemma_render_head(t: Tree)
    requires
        renderable(t),
    ensures
        render(t).len() > 0,
        opens_value(render(t)[0]),
{
    reveal_strlit("пусто");
    reveal_strlit("так");
    reveal_strlit("ні");
    match t {
        Tree::Number { value, .. } => {
            let u = render_number(value);
            assert(u.subrange(0, u.len() as int) =~= u);
            lemma_number_reads(u, 0, value);
            assert(u.subrange(0, u.len() as int) =~= u);
        },
        Tree::Object { name, .. } => {
            assert(is_ident_start(name[0]));
            assert(render(t)[0] == name[0]);
        },
        _ => {},
    }
}

pub proof fn lemma_join_head(parts: Seq<Seq<char>>)
    requires
        parts.len() > 0,
        parts[0].len() > 0,
    ensures
        join(parts).len() > 0,
        join(parts)[0] == parts[0][0],
{
}

pub proof fn lemma_not_keyword(s: Seq<char>, i: int)
    requires
        0 <= i < s.len(),
        s[i] != 'п',
        s[i] != 'т',
        s[i] != 'н',
    ensures
        empty_at(s, i) is Fail,
        logical_at(s, i) is Fail,
{
    reveal_strlit("пусто");
    reveal_strlit("так");
    reveal_strlit("ні");
    assert(word_at(s, i, "пусто"@) ==> s.subrange(i, i + 5)[0] == s[i]);
    assert(word_at(s, i, "так"@) ==> s.subrange(i, i + 3)[0] == s[i]);
    assert(word_at(s, i, "ні"@) ==> s.subrange(i, i + 2)[0] == s[i]);
}

/// At a closing delimiter no value and no entry reads.
pub proof fn lemma_nothing_at_close(s: Seq<char>, b: NodeContext, j: int)
    requires
        0 <= j < s.len(),
        s[j] == ']' || s[j] == ')',
    ensures
        value_at(s, b, j) is Fail,
        dict_entry_at(s, b, j) is Fail,
        obj_entry_at(s, b, j) is Fail,
{
    lemma_not_keyword(s, j);
    assert(number_step(s, j) is Fail);
    assert(text_at(s, j) is Fail);
    assert(dictionary_at(s, b, j) is Fail);
    assert(ident_at(s, j) is Fail);
    assert(object_at(s, b, j) is Fail);
    assert(list_at(s, b, j) is Fail);
    assert(key_at(s, b, j) is Fail);
}

pub proof fn lemma_use_reads_back(t: Tree, s: Seq<char>, b: NodeContext, i: int)
    requires
        reads_back(t),
        word_at(s, i, render(t)),
        stops(s, i + render(t).len()),
    ensures
        read_as(value_at(s, b, i), i + render(t).len(), t),
{
    reveal(reads_back);
}

/// The entries of a list, written with commas, read back.
pub proof fn lemma_list_entries(es: Seq<Tree>, s: Seq<char>, b: NodeContext, j: int, started: bool)
    requires
        forall|k: int| #![trigger es[k]] 0 <= k < es.len() ==> reads_back(es[k]) && renderable(es[k]),
        started ==> es.len() > 0,
        word_at(s, j, join(renders(es))),
        j + join(renders(es)).len() < s.len(),
        s[j + join(renders(es)).len()] == ']',
    ensures
        list_entries(s, b, j, started) matches Step::Done { value, end } && end == j + join(
            renders(es),
        ).len() && value.len() == es.len() && forall|k: int|
            0 <= k < es.len() ==> erase(#[trigger] value[k]) == erase(es[k]),
    decreases es.len(),
{
    let parts = renders(es);
    if es.len() == 0 {
        lemma_nothing_at_close(s, b, j);
    } else {
        let r0 = render(es[0]);
        lemma_render_head(es[0]);
        let e0 = j + r0.len();
        if es.len() == 1 {
            assert(join(parts) == r0);
            lemma_use_reads_back(es[0], s, b, j);
        } else {
            let rest = es.drop_first();
            assert(parts.drop_first() =~= renders(rest));
            assert(join(parts) == r0 + (seq![','] + join(renders(rest))));
            lemma_placed_split(s, j, r0, seq![','] + join(renders(rest)));
            lemma_placed_split(s, e0, seq![','], join(renders(rest)));
            lemma_placed_at(s, e0, seq![','], 0);
            lemma_use_reads_back(es[0], s, b, j);
            lemma_render_head(rest[0]);
            lemma_join_head(renders(rest));
            lemma_placed_at(s, e0 + 1, join(renders(rest)), 0);
            assert(forall|k: int| 0 <= k < rest.len() ==> rest[k] == es[k + 1]);
            lemma_list_entries(rest, s, b, e0 + 1, true);
            assert(after_space(s, e0) == e0);
            assert(after_space(s, e0 + 1) == e0 + 1);
            let st = list_entries(s, b, e0 + 1, true);
            if let Step::Done { value, .. } = st {
                let v0 = value_at(s, b, j)->value;
                assert forall|k: int| 0 <= k < es.len() implies erase(#[trigger] (seq![v0] + value)[k]) == erase(es[k]) by {
                    if k > 0 {
                        assert((seq![v0] + value)[k] == value[k - 1]);
                    }
                }
            }
        }
    }
}

#[verifier::rlimit(40)]
pub proof fn lemma_list_reads(t: Tree, s: Seq<char>, b: NodeContext, i: int)
    requires
        t is List,
        renderable(t),
        forall|k: int| #![trigger t->List_entries[k]] 0 <= k < t->List_entries.len() ==> reads_back(t->List_entries[k]),
        word_at(s, i, render(t)),
        stops(s, i + render(t).len()),
    ensures
        read_as(value_at(s, b, i), i + render(t).len(), t),
{
    let es = t->List_entries;
    let j = join(renders(es));
    assert(render(t) == seq!['['] + j + seq![']']);
    assert forall|k: int| #![trigger es[k]] 0 <= k < es.len() implies reads_back(es[k]) && renderable(es[k]) by {
        assert(reads_back(t->List_entries[k]));
        assert(renderable(t->List_entries[k]));
    }
    lemma_placed_split(s, i, seq!['['] + j, seq![']']);
    lemma_placed_split(s, i, seq!['['], j);
    lemma_placed_at(s, i, seq!['['], 0);
    lemma_placed_at(s, i + 1 + j.len(), seq![']'], 0);
    lemma_not_keyword(s, i);
    assert(number_step(s, i) is Fail);
    assert(text_at(s, i) is Fail);
    assert(dictionary_at(s, b, i) is Fail);
    assert(ident_at(s, i) is Fail);
    assert(object_at(s, b, i) is Fail);
    if es.len() > 0 {
        lemma_render_head(es[0]);
        assert(renders(es)[0] == render(es[0]));
        lemma_join_head(renders(es));
        lemma_placed_at(s, i + 1, j, 0);
    }
    assert(after_space(s, i + 1) == i + 1);
    lemma_list_entries(es, s, b, i + 1, false);
    let e = i + 1 + j.len();
    assert(after_space(s, e) == e);
    assert(close_at(s, e, ']', crate::error::ParseErrorExpectation::RightBracket) is Done);
    assert(list_at(s, b, i) is Done);
    let vs = list_at(s, b, i)->value;
    assert(erase(value_at(s, b, i)->value)->List_entries =~= erase(t)->List_entries);
}

/// The entries of a dictionary, written with commas, read back.
pub proof fn lemma_dict_entries(es: Seq<DictEntry>, s: Seq<char>, b: NodeContext, j: int, started: bool)
    requires
        forall|k: int| #![trigger es[k]] 0 <= k < es.len() ==> reads_back(es[k].value)
            && renderable(es[k].value) && key_renderable(es[k].key),
        started ==> es.len() > 0,
        word_at(s, j, join(dict_parts(es))),
        j + join(dict_parts(es)).len() < s.len(),
        s[j + join(dict_parts(es)).len()] == ')',
    ensures
        dict_entries(s, b, j, started) matches Step::Done { value, end } && end == j + join(
            dict_parts(es),
        ).len() && value.len() == es.len() && forall|k: int|
            0 <= k < es.len() ==> erase_key(#[trigger] value[k].key) == erase_key(es[k].key)
                && erase(value[k].value) == erase(es[k].value),
    decreases es.len(),
{
    let parts = dict_parts(es);
    if es.len() == 0 {
        lemma_nothing_at_close(s, b, j);
    } else {
        let r0 = parts[0];
        lemma_dict_entry_head(es[0]);
        let e0 = j + r0.len();
        if es.len() == 1 {
            assert(join(parts) == r0);
            lemma_dict_entry_reads(es[0], s, b, j);
        } else {
            let rest = es.drop_first();
            assert(parts.drop_first() =~= dict_parts(rest));
            assert(join(parts) == r0 + (seq![','] + join(dict_parts(rest))));
            lemma_placed_split(s, j, r0, seq![','] + join(dict_parts(rest)));
            lemma_placed_split(s, e0, seq![','], join(dict_parts(rest)));
            lemma_placed_at(s, e0, seq![','], 0);
            lemma_dict_entry_reads(es[0], s, b, j);
            assert(rest[0] == es[1]);
            lemma_dict_entry_head(rest[0]);
            lemma_join_head(dict_parts(rest));
            lemma_placed_at(s, e0 + 1, join(dict_parts(rest)), 0);
            assert(forall|k: int| 0 <= k < rest.len() ==> rest[k] == es[k + 1]);
            lemma_dict_entries(rest, s, b, e0 + 1, true);
            assert(after_space(s, e0) == e0);
            assert(after_space(s, e0 + 1) == e0 + 1);
            let st = dict_entries(s, b, e0 + 1, true);
            if let Step::Done { value, .. } = st {
                let v0 = dict_entry_at(s, b, j)->value;
                assert forall|k: int| 0 <= k < es.len() implies erase_key(#[trigger] (seq![v0] + value)[k].key)
                    == erase_key(es[k].key) && erase((seq![v0] + value)[k].value) == erase(es[k].value) by {
                    if k > 0 {
                        assert((seq![v0] + value)[k] == value[k - 1]);
                    }
                }
            }
        }
    }
}

pub proof fn lemma_dict_entry_head(e: DictEntry)
    requires
        key_renderable(e.key),
        renderable(e.value),
    ensures
        (render_key(e.key) + seq!['='] + render(e.value)).len() > 0,
        (render_key(e.key) + seq!['='] + render(e.value))[0] == render_key(e.key)[0],
        render_key(e.key).len() > 0,
        render_key(e.key)[0] == '"' || render_key(e.key)[0] == '-' || is_digit(render_key(e.key)[0]),
{
    match e.key {
        KeyValue::Number { value, .. } => {
            let u = render_number(value);
            assert(u.subrange(0, u.len() as int) =~= u);
            lemma_number_reads(u, 0, value);
        },
        KeyValue::Text { .. } => {},
    }
}

/// `key=value` of a dictionary reads back, when a comma or `)` follows.
pub proof fn lemma_dict_entry_reads(e: DictEntry, s: Seq<char>, b: NodeContext, j: int)
    requires
        reads_back(e.value),
        renderable(e.value),
        key_renderable(e.key),
        word_at(s, j, render_key(e.key) + seq!['='] + render(e.value)),
        j + (render_key(e.key) + seq!['='] + render(e.value)).len() < s.len(),
        s[j + (render_key(e.key) + seq!['='] + render(e.value)).len()] == ','
            || s[j + (render_key(e.key) + seq!['='] + render(e.value)).len()] == ')',
    ensures
        dict_entry_at(s, b, j) matches Step::Done { value, end } && end == j + (render_key(e.key)
            + seq!['='] + render(e.value)).len() && erase_key(value.key) == erase_key(e.key)
            && erase(value.value) == erase(e.value),
{
    let rk = render_key(e.key);
    let rv = render(e.value);
    lemma_placed_split(s, j, rk + seq!['='], rv);
    lemma_placed_split(s, j, rk, seq!['=']);
    let k = j + rk.len();
    lemma_placed_at(s, k, seq!['='], 0);
    lemma_dict_entry_head(e);
    lemma_render_head(e.value);
    lemma_placed_at(s, k + 1, rv, 0);
    lemma_placed_at(s, j, rk, 0);
    assert(ident_at(s, j) is Fail);
    match e.key {
        KeyValue::Number { value, .. } => {
            lemma_number_reads(s, j, value);
            assert(text_at(s, j) is Fail);
        },
        KeyValue::Text { value, .. } => {
            lemma_text_reads(s, j, value);
        },
    }
    assert(after_space(s, k) == k);
    assert(after_space(s, k + 1) == k + 1);
    lemma_use_reads_back(e.value, s, b, k + 1);
}

pub proof fn lemma_word_head(s: Seq<char>, i: int, w: Seq<char>)
    requires
        w.len() > 0,
        word_at(s, i, w),
    ensures
        s[i] == w[0],
{
    assert(s.subrange(i, i + w.len())[0] == s[i]);
}

/// A keyword that reads where `p`, ending in `(`, stands is a prefix of `p`.
pub proof fn lemma_word_in_prefix(s: Seq<char>, i: int, p: Seq<char>, w: Seq<char>)
    requires
        word_at(s, i, p),
        p.len() > 0,
        p.last() == '(',
        forall|k: int| 0 <= k < w.len() ==> w[k] != '(',
        word_at(s, i, w),
    ensures
        word_at(p, 0, w),
{
    if w.len() <= p.len() {
        assert(p.subrange(0, w.len() as int) =~= s.subrange(i, i + w.len())) by {
            assert forall|k: int| 0 <= k < w.len() implies p.subrange(0, w.len() as int)[k] == s.subrange(i, i + w.len())[k] by {
                lemma_placed_at(s, i, p, k);
            }
        }
    } else {
        lemma_placed_at(s, i, p, p.len() - 1);
        assert(s.subrange(i, i + w.len())[p.len() - 1] == s[i + p.len() - 1]);
    }
}

/// Empty, logical, number and text values read back.
pub proof fn lemma_leaf_reads(t: Tree, s: Seq<char>, b: NodeContext, i: int)
    requires
        renderable(t),
        !(t is List || t is Dictionary || t is Object),
        word_at(s, i, render(t)),
        stops(s, i + render(t).len()),
    ensures
        read_as(value_at(s, b, i), i + render(t).len(), t),
{
    reveal_strlit("пусто");
    reveal_strlit("так");
    reveal_strlit("ні");
    lemma_render_head(t);
    lemma_placed_at(s, i, render(t), 0);
    if word_at(s, i, "пусто"@) {
        lemma_word_head(s, i, "пусто"@);
    }
    if word_at(s, i, "ні"@) {
        lemma_word_head(s, i, "ні"@);
    }
    match t {
        Tree::Empty { .. } => {},
        Tree::Logical { value, .. } => {},
        Tree::Number { value, .. } => {
            lemma_number_reads(s, i, value);
        },
        Tree::Text { value, .. } => {
            lemma_text_reads(s, i, value);
            assert(number_step(s, i) is Fail);
        },
        _ => {},
    }
}

#[verifier::rlimit(40)]
pub proof fn lemma_dict_reads(t: Tree, s: Seq<char>, b: NodeContext, i: int)
    requires
        t is Dictionary,
        renderable(t),
        forall|k: int| #![trigger t->Dictionary_entries[k]] 0 <= k < t->Dictionary_entries.len()
            ==> reads_back(t->Dictionary_entries[k].value),
        word_at(s, i, render(t)),
        stops(s, i + render(t).len()),
    ensures
        read_as(value_at(s, b, i), i + render(t).len(), t),
{
    let es = t->Dictionary_entries;
    let j = join(dict_parts(es));
    assert(render(t) == seq!['('] + j + seq![')']);
    assert forall|k: int| #![trigger es[k]] 0 <= k < es.len() implies reads_back(es[k].value)
        && renderable(es[k].value) && key_renderable(es[k].key) by {
        assert(reads_back(t->Dictionary_entries[k].value));
    }
    lemma_placed_split(s, i, seq!['('] + j, seq![')']);
    lemma_placed_split(s, i, seq!['('], j);
    lemma_placed_at(s, i, seq!['('], 0);
    lemma_placed_at(s, i + 1 + j.len(), seq![')'], 0);
    lemma_not_keyword(s, i);
    assert(number_step(s, i) is Fail);
    assert(text_at(s, i) is Fail);
    if es.len() > 0 {
        lemma_dict_entry_head(es[0]);
        assert(dict_parts(es)[0] == render_key(es[0].key) + seq!['='] + render(es[0].value));
        lemma_join_head(dict_parts(es));
        lemma_placed_at(s, i + 1, j, 0);
    }
    assert(after_space(s, i + 1) == i + 1);
    lemma_dict_entries(es, s, b, i + 1, false);
    let e = i + 1 + j.len();
    assert(after_space(s, e) == e);
    assert(close_at(s, e, ')', crate::error::ParseErrorExpectation::RightParenthesis) is Done);
    assert(dictionary_at(s, b, i) is Done);
    assert(erase(value_at(s, b, i)->value)->Dictionary_entries =~= erase(t)->Dictionary_entries);
}

pub proof fn lemma_obj_entry_reads(f: Field, s: Seq<char>, b: NodeContext, j: int)
    requires
        reads_back(f.value),
        renderable(f.value),
        identifier(f.key),
        word_at(s, j, f.key + seq!['='] + render(f.value)),
        j + (f.key + seq!['='] + render(f.value)).len() < s.len(),
        s[j + (f.key + seq!['='] + render(f.value)).len()] == ','
            || s[j + (f.key + seq!['='] + render(f.value)).len()] == ')',
    ensures
        obj_entry_at(s, b, j) matches Step::Done { value, end } && end == j + (f.key + seq!['=']
            + render(f.value)).len() && value.key == f.key && erase(value.value) == erase(f.value),
{
    let rk = f.key;
    let rv = render(f.value);
    lemma_placed_split(s, j, rk + seq!['='], rv);
    lemma_placed_split(s, j, rk, seq!['=']);
    let k = j + rk.len();
    lemma_placed_at(s, k, seq!['='], 0);
    lemma_render_head(f.value);
    lemma_placed_at(s, k + 1, rv, 0);
    lemma_ident_reads(s, j, rk);
    assert(after_space(s, k) == k);
    assert(after_space(s, k + 1) == k + 1);
    lemma_use_reads_back(f.value, s, b, k + 1);
}

/// The entries of an object, written with commas, read back.
pub proof fn lemma_obj_entries(es: Seq<Field>, s: Seq<char>, b: NodeContext, j: int, started: bool)
    requires
        forall|k: int| #![trigger es[k]] 0 <= k < es.len() ==> reads_back(es[k].value)
            && renderable(es[k].value) && identifier(es[k].key),
        started ==> es.len() > 0,
        word_at(s, j, join(field_parts(es))),
        j + join(field_parts(es)).len() < s.len(),
        s[j + join(field_parts(es)).len()] == ')',
    ensures
        obj_entries(s, b, j, started) matches Step::Done { value, end } && end == j + join(
            field_parts(es),
        ).len() && value.len() == es.len() && forall|k: int|
            0 <= k < es.len() ==> (#[trigger] value[k]).key == es[k].key
                && erase(value[k].value) == erase(es[k].value),
    decreases es.len(),
{
    let parts = field_parts(es);
    if es.len() == 0 {
        lemma_nothing_at_close(s, b, j);
    } else {
        let r0 = parts[0];
        let e0 = j + r0.len();
        if es.len() == 1 {
            assert(join(parts) == r0);
            lemma_obj_entry_reads(es[0], s, b, j);
        } else {
            let rest = es.drop_first();
            assert(parts.drop_first() =~= field_parts(rest));
            assert(join(parts) == r0 + (seq![','] + join(field_parts(rest))));
            lemma_placed_split(s, j, r0, seq![','] + join(field_parts(rest)));
            lemma_placed_split(s, e0, seq![','], join(field_parts(rest)));
            lemma_placed_at(s, e0, seq![','], 0);
            lemma_obj_entry_reads(es[0], s, b, j);
            assert(rest[0] == es[1]);
            assert(field_parts(rest)[0] == rest[0].key + seq!['='] + render(rest[0].value));
            lemma_join_head(field_parts(rest));
            lemma_placed_at(s, e0 + 1, join(field_parts(rest)), 0);
            assert(forall|k: int| 0 <= k < rest.len() ==> rest[k] == es[k + 1]);
            lemma_obj_entries(rest, s, b, e0 + 1, true);
            assert(after_space(s, e0) == e0);
            assert(after_space(s, e0 + 1) == e0 + 1);
            let st = obj_entries(s, b, e0 + 1, true);
            if let Step::Done { value, .. } = st {
                let v0 = obj_entry_at(s, b, j)->value;
                assert forall|k: int| 0 <= k < es.len() implies (#[trigger] (seq![v0] + value)[k]).key
                    == es[k].key && erase((seq![v0] + value)[k].value) == erase(es[k].value) by {
                    if k > 0 {
                        assert((seq![v0] + value)[k] == value[k - 1]);
                    }
                }
            }
        }
    }
}

#[verifier::rlimit(40)]
pub proof fn lemma_object_reads(t: Tree, s: Seq<char>, b: NodeContext, i: int)
    requires
        t is Object,
        renderable(t),
        forall|k: int| #![trigger t->Object_entries[k]] 0 <= k < t->Object_entries.len()
            ==> reads_back(t->Object_entries[k].value),
        word_at(s, i, render(t)),
        stops(s, i + render(t).len()),
    ensures
        read_as(value_at(s, b, i), i + render(t).len(), t),
{
    let es = t->Object_entries;
    let name = t->Object_name;
    let j = join(field_parts(es));
    assert(render(t) == name + seq!['('] + j + seq![')']);
    assert forall|k: int| #![trigger es[k]] 0 <= k < es.len() implies reads_back(es[k].value)
        && renderable(es[k].value) && identifier(es[k].key) by {
        assert(reads_back(t->Object_entries[k].value));
    }
    let n = name.len() as int;
    lemma_placed_split(s, i, name + seq!['('] + j, seq![')']);
    lemma_placed_split(s, i, name + seq!['('], j);
    lemma_placed_split(s, i, name, seq!['(']);
    lemma_placed_at(s, i + n, seq!['('], 0);
    lemma_placed_at(s, i + n + 1 + j.len(), seq![')'], 0);
    lemma_ident_reads(s, i, name);
    reveal_strlit("пусто");
    reveal_strlit("так");
    reveal_strlit("ні");
    let p = name + seq!['('];
    assert(p.last() == '(');
    if word_at(s, i, "пусто"@) {
        lemma_word_in_prefix(s, i, p, "пусто"@);
    }
    if word_at(s, i, "так"@) {
        lemma_word_in_prefix(s, i, p, "так"@);
    }
    if word_at(s, i, "ні"@) {
        lemma_word_in_prefix(s, i, p, "ні"@);
    }
    assert(number_step(s, i) is Fail);
    assert(text_at(s, i) is Fail);
    assert(dictionary_at(s, b, i) is Fail);
    if es.len() > 0 {
        assert(field_parts(es)[0] == es[0].key + seq!['='] + render(es[0].value));
        lemma_join_head(field_parts(es));
        lemma_placed_at(s, i + n + 1, j, 0);
        assert(is_ident_start(es[0].key[0]));
    }
    assert(after_space(s, i + n + 1) == i + n + 1);
    lemma_obj_entries(es, s, b, i + n + 1, false);
    let e = i + n + 1 + j.len();
    assert(after_space(s, e) == e);
    assert(close_at(s, e, ')', crate::error::ParseErrorExpectation::RightParenthesis) is Done);
    assert(object_at(s, b, i) is Done);
    assert(erase(value_at(s, b, i)->value)->Object_entries =~= erase(t)->Object_entries);
}

/// Every renderable tree reads back from its text, wherever that stands.
pub proof fn lemma_reads_back(t: Tree)
    requires
        renderable(t),
    ensures
        reads_back(t),
    decreases t,
{
    reveal(reads_back);
    match t {
        Tree::List { entries, .. } => {
            assert forall|k: int| #![trigger entries[k]] 0 <= k < entries.len() implies reads_back(entries[k]) by {
                lemma_reads_back(entries[k]);
            }
            assert forall|s: Seq<char>, b: NodeContext, i: int|
                word_at(s, i, render(t)) && stops(s, i + render(t).len()) implies read_as(
                #[trigger] value_at(s, b, i),
                i + render(t).len(),
                t,
            ) by {
                lemma_list_reads(t, s, b, i);
            }
        },
        Tree::Dictionary { entries, .. } => {
            assert forall|k: int| #![trigger entries[k]] 0 <= k < entries.len() implies reads_back(entries[k].value) by {
                lemma_reads_back(entries[k].value);
            }
            assert forall|s: Seq<char>, b: NodeContext, i: int|
                word_at(s, i, render(t)) && stops(s, i + render(t).len()) implies read_as(
                #[trigger] value_at(s, b, i),
                i + render(t).len(),
                t,
            ) by {
                lemma_dict_reads(t, s, b, i);
            }
        },
        Tree::Object { entries, .. } => {
            assert forall|k: int| #![trigger entries[k]] 0 <= k < entries.len() implies reads_back(entries[k].value) by {
                lemma_reads_back(entries[k].value);
            }
            assert forall|s: Seq<char>, b: NodeContext, i: int|
                word_at(s, i, render(t)) && stops(s, i + render(t).len()) implies read_as(
                #[trigger] value_at(s, b, i),
                i + render(t).len(),
                t,
            ) by {
                lemma_object_reads(t, s, b, i);
            }
        },
        _ => {
            assert forall|s: Seq<char>, b: NodeContext, i: int|
                word_at(s, i, render(t)) && stops(s, i + render(t).len()) implies read_as(
                #[trigger] value_at(s, b, i),
                i + render(t).len(),
                t,
            ) by {
                lemma_leaf_reads(t, s, b, i);
            }
        },
    }
}

/// Writing a tree out with `render` and parsing the text gives the same
/// tree back, places aside, for every tree that `render` can write
/// (`renderable`).
pub proof fn law_render_then_parse(t: Tree)
    requires
        renderable(t),
    ensures
        document(render(t)) matches Step::Done { value, .. } && erase(value) == erase(t),
{
    let s = render(t);
    lemma_render_head(t);
    lemma_reads_back(t);
    assert(s.subrange(0, s.len() as int) =~= s);
    lemma_use_reads_back(t, s, start(), 0);
    assert(after_space(s, 0) == 0);
    assert(after_space(s, s.len() as int) == s.len());
}

} // verus!
