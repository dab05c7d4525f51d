//! Parsing from `str`: the whole-text entry point, and each kind of node on
//! its own from the start of a text.

use vstd::prelude::*;
use crate::chars::to_chars;
use crate::error::{fail, ParseError, ParseErrorExpectation};
use crate::grammar::{
    close_at, dict_entry_at, dictionary_at, document, obj_entry_at, empty_at, list_at, logical_at, number_step, object_at,
    place, start, text_at, value_at, Step,
};
use crate::lexer::{after_space, scan_space};
use crate::node::{
    dict_entries_of, fields_of, trees, AstNode, DictionaryEntryNode, DictionaryNode, EmptyNode,
    ListNode, LogicalNode, NumberNode, ObjectEntryNode, ObjectNode, TextNode,
};
use crate::parser::{
    failed, parse_dict_entry, parse_dictionary, parse_empty, parse_list, parse_logical,
    parse_number, parse_obj_entry, parse_object, parse_text, parse_value, skip_space, step_one,
};
use crate::position::{fits, lemma_moved_empty, offset_of, NodeContext, Offset};

verus! {

/// `rest` and `c` are what is left of `s` after `st` read it, and the place there.
pub open spec fn left<T>(st: Step<T>, rest: Seq<char>, c: NodeContext, s: Seq<char>, b: NodeContext) -> bool {
    st matches Step::Done { end, .. } && 0 <= end <= s.len() && rest == s.subrange(end, s.len() as int)
        && c == place(b, s, end)
}

proof fn lemma_place_start(b: NodeContext, s: Seq<char>)
    ensures
        place(b, s, 0) == b,
{
    assert(s.subrange(0, 0) =~= Seq::<char>::empty());
    lemma_moved_empty(b);
}

/// Parses a whole text: whitespace, one value, whitespace. Anything else
/// after the value is an end-of-input error at the place just past the value.
pub fn parse(input: &str) -> (r: Result<AstNode, ParseError>)
    requires
        input@.len() < u64::MAX,
    ensures
        match r {
            Ok(n) => document(input@) is Done && n@ == document(input@)->value,
            Err(err) => failed(document(input@), err, input@, start()),
        },
{
    let s = to_chars(input);
    let c0 = NodeContext::default();
    proof {
        lemma_place_start(start(), s@);
    }
    let (i, ci) = skip_space(&s, Ghost(start()), 0, c0);
    match parse_value(&s, Ghost(start()), i, ci) {
        Ok((n, e, ce)) => {
            let (k, _) = skip_space(&s, Ghost(start()), e, ce);
            if k == s.len() {
                Ok(n)
            } else {
                Err(fail(&s, e, ce, ParseErrorExpectation::Eof))
            }
        },
        Err(err) => Err(err),
    }
}

/// The entry points that a host of the library calls.
pub struct Api;

impl Api {
    /// Parses a whole text, as `parse` does.
    pub fn parse(input: String) -> (r: Result<AstNode, ParseError>)
        requires
            input@.len() < u64::MAX,
        ensures
            match r {
                Ok(n) => document(input@) is Done && n@ == document(input@)->value,
                Err(err) => failed(document(input@), err, input@, start()),
            },
    {
        parse(input.as_str())
    }
}

/// Skips the whitespace at the start of `input`: what is left, and the offset
/// that the whitespace stands for.
pub fn skip_whitespace(input: &str) -> (r: (&str, Offset))
    ensures
        r.0@ == input@.subrange(after_space(input@, 0), input@.len() as int),
        r.1 == offset_of(input@.subrange(0, after_space(input@, 0))),
{
    let s = to_chars(input);
    let (k, o) = scan_space(&s, 0);
    (input.substring_char(k, s.len()), o)
}

/// An opening delimiter `ch` and the whitespace after it.
pub open spec fn open_at(s: Seq<char>, i: int, ch: char, expected: ParseErrorExpectation) -> Step<()> {
    if 0 <= i < s.len() && s[i] == ch {
        Step::Done { value: (), end: after_space(s, i + 1) }
    } else {
        Step::Fail { expected, at: i }
    }
}

/// Reads `[` and the whitespace after it at the start of `input`.
pub fn list_start(input: &str, context: NodeContext) -> (r: Result<(&str, ((), NodeContext)), ParseError>)
    requires
        fits(context, input@.len() as int),
    ensures
        match r {
            Ok((rest, (_, c))) => left(open_at(input@, 0, '[', ParseErrorExpectation::LeftBracket), rest@, c, input@, context),
            Err(err) => failed(open_at(input@, 0, '[', ParseErrorExpectation::LeftBracket), err, input@, context),
        },
{
    let s = to_chars(input);
    proof {
        lemma_place_start(context, s@);
    }
    if s.len() > 0 && s[0] == '[' {
        let (k, ck) = skip_space_after(&s, Ghost(context), 0, 1, context);
        Ok((input.substring_char(k, s.len()), ((), ck)))
    } else {
        Err(fail(&s, 0, context, ParseErrorExpectation::LeftBracket))
    }
}

/// Reads the whitespace and the `]` at the start of `input`.
pub fn list_end(input: &str, context: NodeContext) -> (r: Result<(&str, ((), NodeContext)), ParseError>)
    requires
        fits(context, input@.len() as int),
    ensures
        match r {
            Ok((rest, (_, c))) => left(close_at(input@, 0, ']', ParseErrorExpectation::RightBracket), rest@, c, input@, context),
            Err(err) => failed(close_at(input@, 0, ']', ParseErrorExpectation::RightBracket), err, input@, context),
        },
{
    let s = to_chars(input);
    proof {
        lemma_place_start(context, s@);
    }
    let (m, cm) = skip_space(&s, Ghost(context), 0, context);
    if m < s.len() && s[m] == ']' {
        let (k, ck) = (m + 1, step_one(&s, Ghost(context), m, m + 1, cm));
        Ok((input.substring_char(k, s.len()), ((), ck)))
    } else {
        Err(fail(&s, m, cm, ParseErrorExpectation::RightBracket))
    }
}

/// Steps over the delimiter at `i` and the whitespace after it.
fn skip_space_after(s: &Vec<char>, Ghost(b): Ghost<NodeContext>, i: usize, k: usize, c: NodeContext) -> (r: (usize, NodeContext))
    requires
        i < s@.len(),
        k == i + 1,
        s@[i as int] != '\n',
        fits(b, s@.len() as int),
        c == place(b, s@, i as int),
    ensures
        r.0 == after_space(s@, i + 1),
        i < r.0 <= s@.len(),
        r.1 == place(b, s@, r.0 as int),
{
    let c1 = step_one(s, Ghost(b), i, k, c);
    skip_space(s, Ghost(b), k, c1)
}

impl EmptyNode {
    /// Reads the keyword `пусто` at the start of `input`, whose place is `context`.
    pub fn parse(input: &str, context: NodeContext) -> (r: Result<(&str, (EmptyNode, NodeContext)), ParseError>)
        requires
            fits(context, input@.len() as int),
        ensures
            match r {
                Ok((rest, (n, c))) => left(empty_at(input@, 0), rest@, c, input@, context) && n.context == context,
                Err(err) => failed(empty_at(input@, 0), err, input@, context),
            },
    {
        let s = to_chars(input);
        proof {
            lemma_place_start(context, s@);
        }
        match parse_empty(&s, Ghost(context), 0, context) {
            Ok((n, e, c)) => Ok((input.substring_char(e, s.len()), (n, c))),
            Err(err) => Err(err),
        }
    }
}

impl LogicalNode {
    /// Reads `ні` or `так` at the start of `input`, whose place is `context`.
    pub fn parse(input: &str, context: NodeContext) -> (r: Result<(&str, (LogicalNode, NodeContext)), ParseError>)
        requires
            fits(context, input@.len() as int),
        ensures
            match r {
                Ok((rest, (n, c))) => left(logical_at(input@, 0), rest@, c, input@, context) && n.context == context && n.value == logical_at(input@, 0)->value,
                Err(err) => failed(logical_at(input@, 0), err, input@, context),
            },
    {
        let s = to_chars(input);
        proof {
            lemma_place_start(context, s@);
        }
        match parse_logical(&s, Ghost(context), 0, context) {
            Ok((n, e, c)) => Ok((input.substring_char(e, s.len()), (n, c))),
            Err(err) => Err(err),
        }
    }
}

impl NumberNode {
    /// Reads a number literal at the start of `input`, whose place is `context`.
    pub fn parse(input: &str, context: NodeContext) -> (r: Result<(&str, (NumberNode, NodeContext)), ParseError>)
        requires
            fits(context, input@.len() as int),
        ensures
            match r {
                Ok((rest, (n, c))) => left(number_step(input@, 0), rest@, c, input@, context) && n.context == context && n.value@ == number_step(input@, 0)->value,
                Err(err) => failed(number_step(input@, 0), err, input@, context),
            },
    {
        let s = to_chars(input);
        proof {
            lemma_place_start(context, s@);
        }
        match parse_number(&s, Ghost(context), 0, context) {
            Ok((n, e, c)) => Ok((input.substring_char(e, s.len()), (n, c))),
            Err(err) => Err(err),
        }
    }
}

impl TextNode {
    /// Reads a quoted text at the start of `input`, whose place is `context`.
    pub fn parse(input: &str, context: NodeContext) -> (r: Result<(&str, (TextNode, NodeContext)), ParseError>)
        requires
            fits(context, input@.len() as int),
        ensures
            match r {
                Ok((rest, (n, c))) => left(text_at(input@, 0), rest@, c, input@, context) && n.context == context && n.value@ == text_at(input@, 0)->value,
                Err(err) => failed(text_at(input@, 0), err, input@, context),
            },
    {
        let s = to_chars(input);
        proof {
            lemma_place_start(context, s@);
        }
        match parse_text(&s, Ghost(context), 0, context) {
            Ok((n, e, c)) => Ok((input.substring_char(e, s.len()), (n, c))),
            Err(err) => Err(err),
        }
    }
}

impl ListNode {
    /// Reads a list at the start of `input`, whose place is `context`.
    pub fn parse(input: &str, context: NodeContext) -> (r: Result<(&str, (ListNode, NodeContext)), ParseError>)
        requires
            fits(context, input@.len() as int),
        ensures
            match r {
                Ok((rest, (n, c))) => left(list_at(input@, context, 0), rest@, c, input@, context) && n.context == context && trees(n.entries@) == list_at(input@, context, 0)->value,
                Err(err) => failed(list_at(input@, context, 0), err, input@, context),
            },
    {
        let s = to_chars(input);
        proof {
            lemma_place_start(context, s@);
        }
        match parse_list(&s, Ghost(context), 0, context) {
            Ok((n, e, c)) => Ok((input.substring_char(e, s.len()), (n, c))),
            Err(err) => Err(err),
        }
    }
}

impl DictionaryNode {
    /// Reads a dictionary at the start of `input`, whose place is `context`.
    pub fn parse(input: &str, context: NodeContext) -> (r: Result<(&str, (DictionaryNode, NodeContext)), ParseError>)
        requires
            fits(context, input@.len() as int),
        ensures
            match r {
                Ok((rest, (n, c))) => left(dictionary_at(input@, context, 0), rest@, c, input@, context) && n.context == context && dict_entries_of(n.entries@) == dictionary_at(input@, context, 0)->value,
                Err(err) => failed(dictionary_at(input@, context, 0), err, input@, context),
            },
    {
        let s = to_chars(input);
        proof {
            lemma_place_start(context, s@);
        }
        match parse_dictionary(&s, Ghost(context), 0, context) {
            Ok((n, e, c)) => Ok((input.substring_char(e, s.len()), (n, c))),
            Err(err) => Err(err),
        }
    }
}

impl ObjectNode {
    /// Reads an object at the start of `input`, whose place is `context`.
    pub fn parse(input: &str, context: NodeContext) -> (r: Result<(&str, (ObjectNode, NodeContext)), ParseError>)
        requires
            fits(context, input@.len() as int),
        ensures
            match r {
                Ok((rest, (n, c))) => left(object_at(input@, context, 0), rest@, c, input@, context) && n.context == context && n.name.context == context && n.name.value@ == object_at(input@, context, 0)->value.0 && fields_of(n.entries@) == object_at(input@, context, 0)->value.1,
                Err(err) => failed(object_at(input@, context, 0), err, input@, context),
            },
    {
        let s = to_chars(input);
        proof {
            lemma_place_start(context, s@);
        }
        match parse_object(&s, Ghost(context), 0, context) {
            Ok((n, e, c)) => Ok((input.substring_char(e, s.len()), (n, c))),
            Err(err) => Err(err),
        }
    }
}

impl DictionaryEntryNode {
    /// Reads a dictionary entry at the start of `input`, whose place is `context`.
    pub fn parse(input: &str, context: NodeContext) -> (r: Result<(&str, (DictionaryEntryNode, NodeContext)), ParseError>)
        requires
            fits(context, input@.len() as int),
        ensures
            match r {
                Ok((rest, (n, c))) => left(dict_entry_at(input@, context, 0), rest@, c, input@, context) && n@ == dict_entry_at(input@, context, 0)->value,
                Err(err) => failed(dict_entry_at(input@, context, 0), err, input@, context),
            },
    {
        let s = to_chars(input);
        proof {
            lemma_place_start(context, s@);
        }
        match parse_dict_entry(&s, Ghost(context), 0, context) {
            Ok((n, e, c)) => Ok((input.substring_char(e, s.len()), (n, c))),
            Err(err) => Err(err),
        }
    }
}

impl ObjectEntryNode {
    /// Reads an object entry at the start of `input`, whose place is `context`.
    pub fn parse(input: &str, context: NodeContext) -> (r: Result<(&str, (ObjectEntryNode, NodeContext)), ParseError>)
        requires
            fits(context, input@.len() as int),
        ensures
            match r {
                Ok((rest, (n, c))) => left(obj_entry_at(input@, context, 0), rest@, c, input@, context) && n@ == obj_entry_at(input@, context, 0)->value,
                Err(err) => failed(obj_entry_at(input@, context, 0), err, input@, context),
            },
    {
        let s = to_chars(input);
        proof {
            lemma_place_start(context, s@);
        }
        match parse_obj_entry(&s, Ghost(context), 0, context) {
            Ok((n, e, c)) => Ok((input.substring_char(e, s.len()), (n, c))),
            Err(err) => Err(err),
        }
    }
}

impl AstNode {
    /// Reads a value of any kind at the start of `input`, whose place is `context`.
    pub fn parse(input: &str, context: NodeContext) -> (r: Result<(&str, (AstNode, NodeContext)), ParseError>)
        requires
            fits(context, input@.len() as int),
        ensures
            match r {
                Ok((rest, (n, c))) => left(value_at(input@, context, 0), rest@, c, input@, context) && n@ == value_at(input@, context, 0)->value,
                Err(err) => failed(value_at(input@, context, 0), err, input@, context),
            },
    {
        let s = to_chars(input);
        proof {
            lemma_place_start(context, s@);
        }
        match parse_value(&s, Ghost(context), 0, context) {
            Ok((n, e, c)) => Ok((input.substring_char(e, s.len()), (n, c))),
            Err(err) => Err(err),
        }
    }
}

} // verus!
