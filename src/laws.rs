//! Properties of the grammar that hold of every text.

use vstd::prelude::*;
use crate::error::ParseErrorExpectation;
use crate::grammar::{
    dict_entries, dict_entry_at, key_at, list_entries, obj_entries, obj_entry_at, object_at,
    place, value_at, Step,
};
use crate::lexer::{ident_len, is_digit, number_at, text_len};
use crate::node::{DictEntry, Field, KeyValue, Tree};
use crate::position::NodeContext;

verus! {

/// An object is an identifier with `(` right after it: no whitespace
/// between the name and the parenthesis.
pub proof fn law_object_name_touches_parenthesis(s: Seq<char>, b: NodeContext, i: int)
    ensures
        object_at(s, b, i) is Done ==> ident_len(s, i) > 0 && i + ident_len(s, i) < s.len() && s[i
            + ident_len(s, i)] == '(',
{
}

/// A dictionary key is an identifier where one stands, else a quoted text,
/// else a number; the key of an object entry is an identifier or nothing:
/// a number or a quoted text there fails as a missing identifier.
pub proof fn law_entry_keys(s: Seq<char>, b: NodeContext, i: int)
    ensures
        ident_len(s, i) > 0 ==> key_at(s, b, i) == (Step::Done {
            value: KeyValue::Text { value: s.subrange(i, i + ident_len(s, i)), context: place(b, s, i) },
            end: i + ident_len(s, i),
        }),
        ident_len(s, i) == 0 && text_len(s, i) is Some ==> key_at(s, b, i) == (Step::Done {
            value: KeyValue::Text {
                value: s.subrange(i + 1, i + text_len(s, i)->0 - 1),
                context: place(b, s, i),
            },
            end: i + text_len(s, i)->0,
        }),
        ident_len(s, i) == 0 && text_len(s, i) is None && number_at(s, i) is Some ==> key_at(
            s,
            b,
            i,
        ) matches Step::Done { value: KeyValue::Number { .. }, .. },
        ident_len(s, i) == 0 ==> obj_entry_at(s, b, i) == (Step::<Field>::Fail {
            expected: ParseErrorExpectation::Identifier,
            at: i,
        }),
        0 <= i < s.len() && (is_digit(s[i]) || s[i] == '-' || s[i] == '"') ==> obj_entry_at(s, b, i)
            == (Step::<Field>::Fail { expected: ParseErrorExpectation::Identifier, at: i }),
{
}

/// Where no entry reads, a collection with no entries yet ends there, while
/// one that has entries (the entry after a comma) fails as the entry did: a
/// comma before the closing delimiter is an error.
pub proof fn law_entry_after_separator(s: Seq<char>, b: NodeContext, i: int)
    requires
        0 <= i <= s.len(),
    ensures
        value_at(s, b, i) matches Step::Fail { expected, at } ==> list_entries(s, b, i, true)
            == (Step::<Seq<Tree>>::Fail { expected, at }) && list_entries(s, b, i, false)
            == (Step::<Seq<Tree>>::Done { value: seq![], end: i }),
        dict_entry_at(s, b, i) matches Step::Fail { expected, at } ==> dict_entries(s, b, i, true)
            == (Step::<Seq<DictEntry>>::Fail { expected, at }) && dict_entries(
            s,
            b,
            i,
            false,
        ) == (Step::<Seq<DictEntry>>::Done { value: seq![], end: i }),
        obj_entry_at(s, b, i) matches Step::Fail { expected, at } ==> obj_entries(s, b, i, true)
            == (Step::<Seq<Field>>::Fail { expected, at }) && obj_entries(
            s,
            b,
            i,
            false,
        ) == (Step::<Seq<Field>>::Done { value: seq![], end: i }),
{
}

} // verus!
