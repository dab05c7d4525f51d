//! The grammar of the notation, as functions on sequences of characters.
//!
//! Every function here reads the text `s` from position `i` on. Where the
//! reading succeeds it gives the value read and the position just past it;
//! where it fails, the construct that was expected and the position where it
//! was looked for. The place in the text (line, column, index) of position
//! `j` is `place(b, s, j)`, where `b` is the place of the start of `s`.

use vstd::prelude::*;
use crate::error::ParseErrorExpectation;
use crate::lexer::{after_space, ident_len, number_at, text_len, word_at};
use crate::node::{DictEntry, Field, KeyValue, NumberValue, Tree};
use crate::position::{moved, NodeContext};

verus! {

/// The outcome of reading from some position.
pub enum Step<T> {
    Done { value: T, end: int },
    Fail { expected: ParseErrorExpectation, at: int },
}

/// The place of position `j` of `s`, when `s` starts at place `b`.
pub open spec fn place(b: NodeContext, s: Seq<char>, j: int) -> NodeContext {
    moved(b, s.subrange(0, j))
}

/// The place where the text starts: line one, column one, index zero.
pub open spec fn start() -> NodeContext {
    NodeContext { line: 1, column: 1, index: 0 }
}

/// `vs` put in front of the entries that `st` read.
pub open spec fn prepend<T>(vs: Seq<T>, st: Step<Seq<T>>) -> Step<Seq<T>> {
    match st {
        Step::Done { value, end } => Step::Done { value: vs + value, end },
        Step::Fail { expected, at } => Step::Fail { expected, at },
    }
}

// ---------------------------------------------------------------------------
// Leaves.

pub open spec fn empty_at(s: Seq<char>, i: int) -> Step<()> {
    if word_at(s, i, "пусто"@) {
        Step::Done { value: (), end: i + "пусто"@.len() }
    } else {
        Step::Fail { expected: ParseErrorExpectation::EmptyNode, at: i }
    }
}

/// `ні` is tried before `так`.
pub open spec fn logical_at(s: Seq<char>, i: int) -> Step<bool> {
    if word_at(s, i, "ні"@) {
        Step::Done { value: false, end: i + "ні"@.len() }
    } else if word_at(s, i, "так"@) {
        Step::Done { value: true, end: i + "так"@.len() }
    } else {
        Step::Fail { expected: ParseErrorExpectation::LogicalNode, at: i }
    }
}

pub open spec fn number_step(s: Seq<char>, i: int) -> Step<NumberValue> {
    match number_at(s, i) {
        Some((v, e)) => Step::Done { value: v, end: e },
        None => Step::Fail { expected: ParseErrorExpectation::NumberNode, at: i },
    }
}

/// A quoted text; its value is what stands between the quotes.
pub open spec fn text_at(s: Seq<char>, i: int) -> Step<Seq<char>> {
    match text_len(s, i) {
        Some(n) => Step::Done { value: s.subrange(i + 1, i + n - 1), end: i + n },
        None => Step::Fail { expected: ParseErrorExpectation::TextNode, at: i },
    }
}

pub open spec fn ident_at(s: Seq<char>, i: int) -> Step<Seq<char>> {
    if ident_len(s, i) > 0 {
        Step::Done { value: s.subrange(i, i + ident_len(s, i)), end: i + ident_len(s, i) }
    } else {
        Step::Fail { expected: ParseErrorExpectation::Identifier, at: i }
    }
}

/// A closing delimiter `ch`, after whitespace.
pub open spec fn close_at(s: Seq<char>, i: int, ch: char, expected: ParseErrorExpectation) -> Step<()> {
    let m = after_space(s, i);
    if 0 <= m < s.len() && s[m] == ch {
        Step::Done { value: (), end: m + 1 }
    } else {
        Step::Fail { expected, at: m }
    }
}

/// A dictionary key: an identifier, else a quoted text, else a number.
pub open spec fn key_at(s: Seq<char>, b: NodeContext, i: int) -> Step<KeyValue> {
    let c = place(b, s, i);
    match ident_at(s, i) {
        Step::Done { value, end } => Step::Done { value: KeyValue::Text { value, context: c }, end },
        Step::Fail { .. } => match text_at(s, i) {
            Step::Done { value, end } => Step::Done { value: KeyValue::Text { value, context: c }, end },
            Step::Fail { .. } => match number_step(s, i) {
                Step::Done { value, end } => Step::Done {
                    value: KeyValue::Number { value, context: c },
                    end,
                },
                Step::Fail { .. } => Step::Fail {
                    expected: ParseErrorExpectation::DictionaryEntryKey,
                    at: i,
                },
            },
        },
    }
}

// ---------------------------------------------------------------------------
// Values.

/// A value: the first of empty, logical, number, text, dictionary, object and
/// list that reads; where none does, a failure at `i`.
pub open spec fn value_at(s: Seq<char>, b: NodeContext, i: int) -> Step<Tree>
    decreases s.len() - i, 5int,
{
    let c = place(b, s, i);
    if !(0 <= i <= s.len()) {
        Step::Fail { expected: ParseErrorExpectation::AstNode, at: i }
    } else if let Step::Done { end, .. } = empty_at(s, i) {
        Step::Done { value: Tree::Empty { context: c }, end }
    } else if let Step::Done { value, end } = logical_at(s, i) {
        Step::Done { value: Tree::Logical { value, context: c }, end }
    } else if let Step::Done { value, end } = number_step(s, i) {
        Step::Done { value: Tree::Number { value, context: c }, end }
    } else if let Step::Done { value, end } = text_at(s, i) {
        Step::Done { value: Tree::Text { value, context: c }, end }
    } else if let Step::Done { value, end } = dictionary_at(s, b, i) {
        Step::Done { value: Tree::Dictionary { entries: value, context: c }, end }
    } else if let Step::Done { value, end } = object_at(s, b, i) {
        Step::Done {
            value: Tree::Object { name: value.0, name_context: c, entries: value.1, context: c },
            end,
        }
    } else if let Step::Done { value, end } = list_at(s, b, i) {
        Step::Done { value: Tree::List { entries: value, context: c }, end }
    } else {
        Step::Fail { expected: ParseErrorExpectation::AstNode, at: i }
    }
}

/// `[` entries `]`.
pub open spec fn list_at(s: Seq<char>, b: NodeContext, i: int) -> Step<Seq<Tree>>
    decreases s.len() - i, 4int,
{
    if 0 <= i < s.len() && s[i] == '[' {
        let j = after_space(s, i + 1);
        if j <= s.len() {
            match list_entries(s, b, j, false) {
                Step::Done { value, end } => match close_at(s, end, ']', ParseErrorExpectation::RightBracket) {
                    Step::Done { end, .. } => Step::Done { value, end },
                    Step::Fail { expected, at } => Step::Fail { expected, at },
                },
                Step::Fail { expected, at } => Step::Fail { expected, at },
            }
        } else {
            Step::Fail { expected: ParseErrorExpectation::LeftBracket, at: i }
        }
    } else {
        Step::Fail { expected: ParseErrorExpectation::LeftBracket, at: i }
    }
}

/// The entries of a list from `i` on. Where no entry reads, the entries end
/// there when none was read before (`started` false), and the failure stands
/// otherwise; after an entry, a comma asks for one more.
pub open spec fn list_entries(s: Seq<char>, b: NodeContext, i: int, started: bool) -> Step<Seq<Tree>>
    decreases s.len() - i, 6int,
{
    if !(0 <= i <= s.len()) {
        Step::Fail { expected: ParseErrorExpectation::AstNode, at: i }
    } else {
        match value_at(s, b, i) {
            Step::Fail { expected, at } => if started {
                Step::Fail { expected, at }
            } else {
                Step::Done { value: seq![], end: i }
            },
            Step::Done { value, end } => {
                let k = after_space(s, end);
                let m = after_space(s, k + 1);
                if i < end && 0 <= k < s.len() && s[k] == ',' && m <= s.len() {
                    prepend(seq![value], list_entries(s, b, m, true))
                } else {
                    Step::Done { value: seq![value], end }
                }
            },
        }
    }
}

/// `(` entries `)`.
pub open spec fn dictionary_at(s: Seq<char>, b: NodeContext, i: int) -> Step<Seq<DictEntry>>
    decreases s.len() - i, 4int,
{
    if 0 <= i < s.len() && s[i] == '(' {
        let j = after_space(s, i + 1);
        if j <= s.len() {
            match dict_entries(s, b, j, false) {
                Step::Done { value, end } => match close_at(s, end, ')', ParseErrorExpectation::RightParenthesis) {
                    Step::Done { end, .. } => Step::Done { value, end },
                    Step::Fail { expected, at } => Step::Fail { expected, at },
                },
                Step::Fail { expected, at } => Step::Fail { expected, at },
            }
        } else {
            Step::Fail { expected: ParseErrorExpectation::LeftParenthesis, at: i }
        }
    } else {
        Step::Fail { expected: ParseErrorExpectation::LeftParenthesis, at: i }
    }
}

/// `key = value` in a dictionary.
pub open spec fn dict_entry_at(s: Seq<char>, b: NodeContext, i: int) -> Step<DictEntry>
    decreases s.len() - i, 6int,
{
    match key_at(s, b, i) {
        Step::Fail { expected, at } => Step::Fail { expected, at },
        Step::Done { value: key, end } => {
            let k = after_space(s, end);
            let m = after_space(s, k + 1);
            if 0 <= k < s.len() && s[k] == '=' {
                if i < m <= s.len() {
                    match value_at(s, b, m) {
                        Step::Done { value, end } => Step::Done {
                            value: DictEntry { key, value, context: place(b, s, i) },
                            end,
                        },
                        Step::Fail { expected, at } => Step::Fail { expected, at },
                    }
                } else {
                    Step::Fail { expected: ParseErrorExpectation::AstNode, at: m }
                }
            } else {
                Step::Fail { expected: ParseErrorExpectation::EqualsSign, at: k }
            }
        },
    }
}

/// The entries of a dictionary from `i` on, as for a list.
pub open spec fn dict_entries(s: Seq<char>, b: NodeContext, i: int, started: bool) -> Step<Seq<DictEntry>>
    decreases s.len() - i, 7int,
{
    if !(0 <= i <= s.len()) {
        Step::Fail { expected: ParseErrorExpectation::DictionaryEntryKey, at: i }
    } else {
        match dict_entry_at(s, b, i) {
            Step::Fail { expected, at } => if started {
                Step::Fail { expected, at }
            } else {
                Step::Done { value: seq![], end: i }
            },
            Step::Done { value, end } => {
                let k = after_space(s, end);
                let m = after_space(s, k + 1);
                if i < end && 0 <= k < s.len() && s[k] == ',' && m <= s.len() {
                    prepend(seq![value], dict_entries(s, b, m, true))
                } else {
                    Step::Done { value: seq![value], end }
                }
            },
        }
    }
}

/// An identifier, right after it `(`, entries, `)`.
pub open spec fn object_at(s: Seq<char>, b: NodeContext, i: int) -> Step<(Seq<char>, Seq<Field>)>
    decreases s.len() - i, 4int,
{
    match ident_at(s, i) {
        Step::Fail { expected, at } => Step::Fail { expected, at },
        Step::Done { value: name, end: e } => if 0 <= e < s.len() && s[e] == '(' {
            let j = after_space(s, e + 1);
            if i < j <= s.len() {
                match obj_entries(s, b, j, false) {
                    Step::Done { value, end } => match close_at(s, end, ')', ParseErrorExpectation::RightParenthesis) {
                        Step::Done { end, .. } => Step::Done { value: (name, value), end },
                        Step::Fail { expected, at } => Step::Fail { expected, at },
                    },
                    Step::Fail { expected, at } => Step::Fail { expected, at },
                }
            } else {
                Step::Fail { expected: ParseErrorExpectation::LeftParenthesis, at: e }
            }
        } else {
            Step::Fail { expected: ParseErrorExpectation::LeftParenthesis, at: e }
        },
    }
}

/// `key = value` in an object; the key is an identifier.
pub open spec fn obj_entry_at(s: Seq<char>, b: NodeContext, i: int) -> Step<Field>
    decreases s.len() - i, 6int,
{
    match ident_at(s, i) {
        Step::Fail { expected, at } => Step::Fail { expected, at },
        Step::Done { value: key, end } => {
            let k = after_space(s, end);
            let m = after_space(s, k + 1);
            if 0 <= k < s.len() && s[k] == '=' {
                if i < m <= s.len() {
                    match value_at(s, b, m) {
                        Step::Done { value, end } => Step::Done {
                            value: Field { key, key_context: place(b, s, i), value, context: place(b, s, i) },
                            end,
                        },
                        Step::Fail { expected, at } => Step::Fail { expected, at },
                    }
                } else {
                    Step::Fail { expected: ParseErrorExpectation::AstNode, at: m }
                }
            } else {
                Step::Fail { expected: ParseErrorExpectation::EqualsSign, at: k }
            }
        },
    }
}

/// The entries of an object from `i` on, as for a list.
pub open spec fn obj_entries(s: Seq<char>, b: NodeContext, i: int, started: bool) -> Step<Seq<Field>>
    decreases s.len() - i, 7int,
{
    if !(0 <= i <= s.len()) {
        Step::Fail { expected: ParseErrorExpectation::Identifier, at: i }
    } else {
        match obj_entry_at(s, b, i) {
            Step::Fail { expected, at } => if started {
                Step::Fail { expected, at }
            } else {
                Step::Done { value: seq![], end: i }
            },
            Step::Done { value, end } => {
                let k = after_space(s, end);
                let m = after_space(s, k + 1);
                if i < end && 0 <= k < s.len() && s[k] == ',' && m <= s.len() {
                    prepend(seq![value], obj_entries(s, b, m, true))
                } else {
                    Step::Done { value: seq![value], end }
                }
            },
        }
    }
}

/// A whole text: whitespace, one value, whitespace, and nothing more.
/// Anything else after the value fails just past the value.
pub open spec fn document(s: Seq<char>) -> Step<Tree> {
    let i = after_space(s, 0);
    match value_at(s, start(), i) {
        Step::Done { value, end } => {
            let k = after_space(s, end);
            if k == s.len() {
                Step::Done { value, end: k }
            } else {
                Step::Fail { expected: ParseErrorExpectation::Eof, at: end }
            }
        },
        Step::Fail { expected, at } => Step::Fail { expected, at },
    }
}

} // verus!
