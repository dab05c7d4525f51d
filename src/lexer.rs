//! The lexical pieces of the notation: whitespace, keywords, identifiers,
//! quoted texts and number literals.

use vstd::prelude::*;
use crate::chars::string_of;
use crate::node::{Number, NumberValue};
use crate::position::{newlines, offset_of, tail_len, flat, lemma_counts_bounded, Offset};

verus! {

// ---------------------------------------------------------------------------
// Character classes.

/// Whitespace between tokens: space, tab, carriage return and newline.
pub open spec fn is_space(c: char) -> bool {
    c == ' ' || c == '\t' || c == '\r' || c == '\n'
}

pub open spec fn is_digit(c: char) -> bool {
    '0' as u32 <= c as u32 <= '9' as u32
}

/// A Latin or Cyrillic letter, with the Ukrainian і, ї, є and ґ in both cases.
pub open spec fn is_letter(c: char) -> bool {
    let u = c as u32;
    ||| 'a' as u32 <= u <= 'z' as u32
    ||| 'A' as u32 <= u <= 'Z' as u32
    ||| 0x0410 <= u <= 0x044f
    ||| c == 'і' || c == 'І' || c == 'ї' || c == 'Ї'
    ||| c == 'є' || c == 'Є' || c == 'ґ' || c == 'Ґ'
}

pub open spec fn is_ident_start(c: char) -> bool {
    is_letter(c) || c == '_'
}

pub open spec fn is_ident_char(c: char) -> bool {
    is_letter(c) || c == '_' || is_digit(c)
}

/// The ASCII apostrophe and the modifier letter apostrophe `ʼ`.
pub open spec fn is_apostrophe(c: char) -> bool {
    c == '\'' || c == 'ʼ'
}

/// The characters that may follow a backslash in a quoted text.
pub open spec fn is_escape(c: char) -> bool {
    c == '\\' || c == 'n' || c == 'r' || c == 't' || c == 'b' || c == 'f' || c == '"'
}

fn space_char(c: char) -> (r: bool)
    ensures
        r == is_space(c),
{
    c == ' ' || c == '\t' || c == '\r' || c == '\n'
}

fn digit_char(c: char) -> (r: bool)
    ensures
        r == is_digit(c),
{
    '0' as u32 <= c as u32 && c as u32 <= '9' as u32
}

fn letter_char(c: char) -> (r: bool)
    ensures
        r == is_letter(c),
{
    let u = c as u32;
    ('a' as u32 <= u && u <= 'z' as u32) || ('A' as u32 <= u && u <= 'Z' as u32) || (0x0410 <= u
        && u <= 0x044f) || c == 'і' || c == 'І' || c == 'ї' || c == 'Ї' || c == 'є' || c == 'Є'
        || c == 'ґ' || c == 'Ґ'
}

fn escape_char(c: char) -> (r: bool)
    ensures
        r == is_escape(c),
{
    c == '\\' || c == 'n' || c == 'r' || c == 't' || c == 'b' || c == 'f' || c == '"'
}

// ---------------------------------------------------------------------------
// Whitespace.

/// Length of the run of whitespace that starts at `i`.
pub open spec fn space_len(s: Seq<char>, i: int) -> nat
    decreases s.len() - i,
{
    if 0 <= i < s.len() && is_space(s[i]) {
        1 + space_len(s, i + 1)
    } else {
        0
    }
}

/// Where the run of whitespace that starts at `i` ends.
pub open spec fn after_space(s: Seq<char>, i: int) -> int {
    i + space_len(s, i)
}

/// Skips the whitespace at `i`: where it ends, and the offset it stands for.
pub fn scan_space(s: &Vec<char>, i: usize) -> (r: (usize, Offset))
    requires
        i <= s@.len(),
    ensures
        r.0 == after_space(s@, i as int),
        r.0 <= s@.len(),
        r.1 == offset_of(s@.subrange(i as int, r.0 as int)),
{
    let mut k = i;
    let mut line: u64 = 0;
    let mut column: u64 = 0;
    while k < s.len() && space_char(s[k])
        invariant
            i <= k <= s@.len(),
            space_len(s@, i as int) == (k - i) + space_len(s@, k as int),
            line == newlines(s@.subrange(i as int, k as int)),
            column == tail_len(s@.subrange(i as int, k as int)),
        decreases s@.len() - k,
    {
        proof {
            lemma_counts_bounded(s@.subrange(i as int, k as int));
            assert(s@.subrange(i as int, k + 1).drop_last() =~= s@.subrange(i as int, k as int));
        }
        if s[k] == '\n' {
            line = line + 1;
            column = 0;
        } else {
            column = column + 1;
        }
        k = k + 1;
    }
    (k, Offset { line, column, index: (k - i) as u64 })
}

// ---------------------------------------------------------------------------
// Keywords.

/// Whether the word `w` stands in `s` at `i`.
pub open spec fn word_at(s: Seq<char>, i: int, w: Seq<char>) -> bool {
    0 <= i && i + w.len() <= s.len() && s.subrange(i, i + w.len()) == w
}

/// Where the word `w` that stands at `i` ends, if it stands there.
pub fn scan_word(s: &Vec<char>, i: usize, w: &str) -> (r: Option<usize>)
    requires
        i <= s@.len(),
    ensures
        r is Some == word_at(s@, i as int, w@),
        r matches Some(e) ==> e == i + w@.len(),
{
    let n = w.unicode_len();
    if n > s.len() - i {
        return None;
    }
    let mut k: usize = 0;
    while k < n
        invariant
            n == w@.len(),
            i <= s@.len(),
            i + n <= s.len(),
            k <= n,
            forall|m: int| 0 <= m < k ==> s@[i + m] == w@[m],
        decreases n - k,
    {
        if s[i + k] != w.get_char(k) {
            assert(s@.subrange(i as int, i + n)[k as int] != w@[k as int]);
            return None;
        }
        k = k + 1;
    }
    assert(s@.subrange(i as int, i + n) =~= w@);
    Some(i + n)
}

// ---------------------------------------------------------------------------
// Identifiers.

/// Length of the part of an identifier that follows its first character at
/// `i`: identifier characters, and apostrophes each followed by a letter.
pub open spec fn ident_tail(s: Seq<char>, i: int) -> nat
    decreases s.len() - i,
{
    if 0 <= i < s.len() && is_ident_char(s[i]) {
        1 + ident_tail(s, i + 1)
    } else if 0 <= i && i + 1 < s.len() && is_apostrophe(s[i]) && is_letter(s[i + 1]) {
        2 + ident_tail(s, i + 2)
    } else {
        0
    }
}

/// Length of the identifier at `i`; zero where none starts there.
pub open spec fn ident_len(s: Seq<char>, i: int) -> nat {
    if 0 <= i < s.len() && is_ident_start(s[i]) {
        1 + ident_tail(s, i + 1)
    } else {
        0
    }
}

pub proof fn lemma_ident_tail(s: Seq<char>, i: int)
    requires
        0 <= i <= s.len(),
    ensures
        i + ident_tail(s, i) <= s.len(),
        flat(s.subrange(i, i + ident_tail(s, i))),
    decreases s.len() - i,
{
    let n = ident_tail(s, i);
    if i < s.len() && is_ident_char(s[i]) {
        lemma_ident_tail(s, i + 1);
        assert forall|k: int| 0 <= k < n implies #[trigger] s.subrange(i, i + n)[k] != '\n' by {
            if k > 0 {
                assert(s.subrange(i, i + n)[k] == s.subrange(i + 1, i + n)[k - 1]);
            }
        }
    } else if i + 1 < s.len() && is_apostrophe(s[i]) && is_letter(s[i + 1]) {
        lemma_ident_tail(s, i + 2);
        assert forall|k: int| 0 <= k < n implies #[trigger] s.subrange(i, i + n)[k] != '\n' by {
            if k > 1 {
                assert(s.subrange(i, i + n)[k] == s.subrange(i + 2, i + n)[k - 2]);
            }
        }
    }
}

pub proof fn lemma_ident(s: Seq<char>, i: int)
    requires
        0 <= i <= s.len(),
    ensures
        i + ident_len(s, i) <= s.len(),
        flat(s.subrange(i, i + ident_len(s, i))),
{
    if i < s.len() && is_ident_start(s[i]) {
        lemma_ident_tail(s, i + 1);
        let n = ident_len(s, i);
        assert forall|k: int| 0 <= k < n implies #[trigger] s.subrange(i, i + n)[k] != '\n' by {
            if k > 0 {
                assert(s.subrange(i, i + n)[k] == s.subrange(i + 1, i + n)[k - 1]);
            }
        }
    }
}

/// Where the identifier at `i` ends; `i` itself where none starts there.
pub fn scan_ident(s: &Vec<char>, i: usize) -> (r: usize)
    requires
        i <= s@.len(),
    ensures
        r == i + ident_len(s@, i as int),
        r <= s@.len(),
{
    if i >= s.len() || !(letter_char(s[i]) || s[i] == '_') {
        return i;
    }
    let mut k = i + 1;
    loop
        invariant
            i < k <= s@.len(),
            ident_len(s@, i as int) == (k - i) + ident_tail(s@, k as int),
        decreases s@.len() - k,
    {
        if k < s.len() && (letter_char(s[k]) || s[k] == '_' || digit_char(s[k])) {
            k = k + 1;
        } else if s.len() - k > 1 && (s[k] == '\'' || s[k] == 'ʼ') && letter_char(s[k + 1]) {
            k = k + 2;
        } else {
            return k;
        }
    }
}

// ---------------------------------------------------------------------------
// Quoted texts.

/// Length of the body of a quoted text from `i` up to its closing quote;
/// `None` where a newline, an unknown escape or the end of the input comes
/// first.
pub open spec fn text_body(s: Seq<char>, i: int) -> Option<nat>
    decreases s.len() - i,
{
    if i < 0 || i >= s.len() {
        None
    } else if s[i] == '"' {
        Some(0)
    } else if s[i] == '\n' {
        None
    } else if s[i] == '\\' {
        if i + 1 < s.len() && is_escape(s[i + 1]) {
            match text_body(s, i + 2) {
                Some(n) => Some(n + 2),
                None => None,
            }
        } else {
            None
        }
    } else {
        match text_body(s, i + 1) {
            Some(n) => Some(n + 1),
            None => None,
        }
    }
}

/// Length of the quoted text (quotes included) at `i`, if one stands there.
pub open spec fn text_len(s: Seq<char>, i: int) -> Option<nat> {
    if 0 <= i < s.len() && s[i] == '"' {
        match text_body(s, i + 1) {
            Some(n) => Some(n + 2),
            None => None,
        }
    } else {
        None
    }
}

pub proof fn lemma_text_body(s: Seq<char>, i: int)
    requires
        0 <= i,
        text_body(s, i) is Some,
    ensures
        i + text_body(s, i)->0 < s.len(),
        s[i + text_body(s, i)->0] == '"',
        flat(s.subrange(i, i + text_body(s, i)->0 + 1)),
    decreases s.len() - i,
{
    let n = text_body(s, i)->0;
    if s[i] == '"' {
    } else if s[i] == '\\' {
        lemma_text_body(s, i + 2);
        assert forall|k: int| 0 <= k < n + 1 implies #[trigger] s.subrange(i, i + n + 1)[k] != '\n' by {
            if k > 1 {
                assert(s.subrange(i, i + n + 1)[k] == s.subrange(i + 2, i + n + 1)[k - 2]);
            }
        }
    } else {
        lemma_text_body(s, i + 1);
        assert forall|k: int| 0 <= k < n + 1 implies #[trigger] s.subrange(i, i + n + 1)[k] != '\n' by {
            if k > 0 {
                assert(s.subrange(i, i + n + 1)[k] == s.subrange(i + 1, i + n + 1)[k - 1]);
            }
        }
    }
}

pub proof fn lemma_text(s: Seq<char>, i: int)
    requires
        0 <= i,
        text_len(s, i) is Some,
    ensures
        i + text_len(s, i)->0 <= s.len(),
        flat(s.subrange(i, i + text_len(s, i)->0)),
{
    lemma_text_body(s, i + 1);
    let n = text_len(s, i)->0;
    assert forall|k: int| 0 <= k < n implies #[trigger] s.subrange(i, i + n)[k] != '\n' by {
        if k > 0 {
            assert(s.subrange(i, i + n)[k] == s.subrange(i + 1, i + n)[k - 1]);
        }
    }
}

/// Where the quoted text at `i` ends, if one stands there.
pub fn scan_text(s: &Vec<char>, i: usize) -> (r: Option<usize>)
    requires
        i <= s@.len(),
    ensures
        r matches Some(e) ==> i + 2 <= e <= s@.len() && text_len(s@, i as int) == Some((e - i) as nat),
        r is None ==> text_len(s@, i as int) is None,
{
    if i >= s.len() || s[i] != '"' {
        return None;
    }
    let mut k = i + 1;
    while k < s.len()
        invariant
            i < k <= s@.len(),
            s@[i as int] == '"',
            text_body(s@, i + 1) == match text_body(s@, k as int) {
                Some(n) => Some((n + (k - i - 1)) as nat),
                None => None,
            },
        decreases s@.len() - k,
    {
        let c = s[k];
        if c == '"' {
            assert(text_body(s@, k as int) == Some(0nat));
            assert(text_body(s@, i + 1) == Some((k - i - 1) as nat));
            assert(text_len(s@, i as int) == Some((k - i + 1) as nat));
            return Some(k + 1);
        } else if c == '\n' {
            return None;
        } else if c == '\\' {
            if k + 1 < s.len() && escape_char(s[k + 1]) {
                k = k + 2;
            } else {
                return None;
            }
        } else {
            k = k + 1;
        }
    }
    None
}

// ---------------------------------------------------------------------------
// Numbers.

/// Length of the run of ASCII digits that starts at `i`.
pub open spec fn digit_len(s: Seq<char>, i: int) -> nat
    decreases s.len() - i,
{
    if 0 <= i < s.len() && is_digit(s[i]) {
        1 + digit_len(s, i + 1)
    } else {
        0
    }
}

pub open spec fn digit_value(c: char) -> int {
    c as u32 - '0' as u32
}

/// The value of a run of decimal digits.
pub open spec fn digits_value(d: Seq<char>) -> int
    decreases d.len(),
{
    if d.len() == 0 {
        0
    } else {
        digits_value(d.drop_last()) * 10 + digit_value(d.last())
    }
}

/// The number literal at `i`, and where it ends: `-`, if present, then either
/// digits, `.` and digits (a decimal fraction, kept as written) or digits
/// alone, whose value must fit in an `i64`.
pub open spec fn number_at(s: Seq<char>, i: int) -> Option<(NumberValue, int)> {
    let d = if 0 <= i < s.len() && s[i] == '-' { i + 1 } else { i };
    let p = d + digit_len(s, d);
    let f = p + 1 + digit_len(s, p + 1);
    let v = digits_value(s.subrange(d, p));
    if p > d && p < s.len() && s[p] == '.' && digit_len(s, p + 1) > 0 {
        Some((NumberValue::Float(s.subrange(i, f)), f))
    } else if p > d && v <= i64::MAX {
        Some((NumberValue::Integer(if d > i { -v } else { v }), p))
    } else {
        None
    }
}

pub proof fn lemma_digits(s: Seq<char>, i: int)
    requires
        0 <= i <= s.len(),
    ensures
        i + digit_len(s, i) <= s.len(),
        forall|k: int| i <= k < i + digit_len(s, i) ==> is_digit(#[trigger] s[k]),
    decreases s.len() - i,
{
    if i < s.len() && is_digit(s[i]) {
        lemma_digits(s, i + 1);
    }
}

/// A longer run of digits never has a smaller value.
pub proof fn lemma_digits_value_grows(t: Seq<char>, m: int)
    requires
        0 <= m <= t.len(),
        forall|k: int| 0 <= k < t.len() ==> is_digit(#[trigger] t[k]),
    ensures
        0 <= digits_value(t.subrange(0, m)) <= digits_value(t),
    decreases t.len(),
{
    if m == t.len() {
        assert(t.subrange(0, m) =~= t);
        if t.len() > 0 {
            lemma_digits_value_grows(t.drop_last(), m - 1);
            assert(t.drop_last().subrange(0, m - 1) =~= t.drop_last());
        }
    } else {
        lemma_digits_value_grows(t.drop_last(), m);
        assert(t.drop_last().subrange(0, m) =~= t.subrange(0, m));
        assert(is_digit(t[t.len() - 1]));
    }
}

/// Where the number literal at `i` ends.
pub open spec fn number_end(s: Seq<char>, i: int) -> int {
    match number_at(s, i) {
        Some((_, e)) => e,
        None => i,
    }
}

pub proof fn lemma_number(s: Seq<char>, i: int)
    requires
        0 <= i <= s.len(),
        number_at(s, i) is Some,
    ensures
        i < number_end(s, i) <= s.len(),
        flat(s.subrange(i, number_end(s, i))),
{
    let d = if 0 <= i < s.len() && s[i] == '-' { i + 1 } else { i };
    let p = d + digit_len(s, d);
    lemma_digits(s, d);
    if p < s.len() {
        lemma_digits(s, p + 1);
    }
    let e = number_end(s, i);
    assert forall|k: int| 0 <= k < e - i implies #[trigger] s.subrange(i, e)[k] != '\n' by {
        assert(s.subrange(i, e)[k] == s[i + k]);
        if i + k >= d && i + k < p {
            assert(is_digit(s[i + k]));
        }
        if i + k > p {
            assert(is_digit(s[i + k]));
        }
    }
}

/// Length of the run of digits at `i`.
fn scan_digits(s: &Vec<char>, i: usize) -> (r: usize)
    requires
        i <= s@.len(),
    ensures
        r == digit_len(s@, i as int),
{
    let mut k = i;
    while k < s.len() && digit_char(s[k])
        invariant
            i <= k <= s@.len(),
            digit_len(s@, i as int) == (k - i) + digit_len(s@, k as int),
        decreases s@.len() - k,
    {
        k = k + 1;
    }
    k - i
}

/// The number literal at `i`, and where it ends.
pub fn scan_number(s: &Vec<char>, i: usize) -> (r: Option<(Number, usize)>)
    requires
        i <= s@.len(),
    ensures
        r matches Some((n, e)) ==> number_at(s@, i as int) == Some((n@, e as int)),
        r is None ==> number_at(s@, i as int) is None,
{
    let d = if i < s.len() && s[i] == '-' { i + 1 } else { i };
    let a = scan_digits(s, d);
    proof {
        lemma_digits(s@, d as int);
    }
    let p = d + a;
    if a > 0 && p < s.len() && s[p] == '.' {
        let b = scan_digits(s, p + 1);
        if b > 0 {
            proof {
                lemma_digits(s@, p + 1);
            }
            let f = p + 1 + b;
            return Some((Number::Float(string_of(s, i, f)), f));
        }
    }
    if a == 0 {
        return None;
    }
    let ghost t = s@.subrange(d as int, p as int);
    let ghost whole = if digits_value(t) <= i64::MAX {
        Some((NumberValue::Integer(if d > i { -digits_value(t) } else { digits_value(t) }), p as int))
    } else {
        None
    };
    assert(number_at(s@, i as int) == whole);
    let mut v: i64 = 0;
    let mut k = d;
    while k < p
        invariant
            d <= k <= p <= s@.len(),
            t == s@.subrange(d as int, p as int),
            number_at(s@, i as int) == whole,
            whole == if digits_value(t) <= i64::MAX {
                Some((NumberValue::Integer(if d > i { -digits_value(t) } else { digits_value(t) }), p as int))
            } else {
                None
            },
            forall|m: int| d <= m < p ==> is_digit(#[trigger] s@[m]),
            0 <= v,
            v == digits_value(s@.subrange(d as int, k as int)),
        decreases p - k,
    {
        let g = (s[k] as u32 - '0' as u32) as i64;
        assert(s@.subrange(d as int, k + 1).drop_last() =~= s@.subrange(d as int, k as int));
        assert(t.subrange(0, k + 1 - d) =~= s@.subrange(d as int, k + 1));
        if v > (i64::MAX - g) / 10 {
            proof {
                assert(v * 10 + g > i64::MAX) by (nonlinear_arith)
                    requires v > (i64::MAX - g) / 10, 0 <= g <= 9;
                lemma_digits_value_grows(t, k + 1 - d);
            }
            return None;
        }
        assert(v * 10 + g <= i64::MAX) by (nonlinear_arith)
            requires v <= (i64::MAX - g) / 10, 0 <= g <= 9, 0 <= v;
        v = v * 10 + g;
        k = k + 1;
    }
    assert(s@.subrange(d as int, k as int) =~= t);
    let n = if d > i { -v } else { v };
    Some((Number::Integer(n), p))
}

} // verus!
