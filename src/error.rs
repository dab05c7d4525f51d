//! What went wrong, and where.

use vstd::prelude::*;
use crate::chars::{push_char, string_of};
use crate::roundtrip::{digit_of, digits_of};
use crate::position::NodeContext;

verus! {

/// The construct that was expected where parsing stopped.
#[derive(Debug, Clone, Copy, PartialEq, Eq, Structural)]
pub enum ParseErrorExpectation {
    EmptyNode,
    LogicalNode,
    NumberNode,
    TextNode,
    ListNode,
    DictionaryNode,
    DictionaryEntryNode,
    DictionaryEntryKey,
    ObjectNode,
    ObjectEntryNode,
    AstNode,
    Identifier,
    EqualsSign,
    LeftParenthesis,
    RightParenthesis,
    LeftBracket,
    RightBracket,
    EntryValue,
    Eof,
}

impl ParseErrorExpectation {
    /// What is expected, in words.
    pub open spec fn spec_message(self) -> Seq<char> {
        match self {
            ParseErrorExpectation::EmptyNode => "Очікувався вузол `пусто`"@,
            ParseErrorExpectation::LogicalNode => "Очікувався логічний вузол (`так` або `ні`)"@,
            ParseErrorExpectation::NumberNode => "Очікувався числовий вузол"@,
            ParseErrorExpectation::TextNode => "Очікувався текстовий вузол. Явні перенесення рядків не дозволені"@,
            ParseErrorExpectation::ListNode => "Очікувався список"@,
            ParseErrorExpectation::DictionaryNode => "Очікувався словник"@,
            ParseErrorExpectation::DictionaryEntryNode => "Очікувався запис словника"@,
            ParseErrorExpectation::DictionaryEntryKey => "Очікувався ключ запису словника (ідентифікатор, текст або число)"@,
            ParseErrorExpectation::ObjectNode => "Очікувався об'єкт"@,
            ParseErrorExpectation::ObjectEntryNode => "Очікувався запис об'єкта"@,
            ParseErrorExpectation::AstNode => "Очікувався вузол формату `Дід`"@,
            ParseErrorExpectation::Identifier => "Очікувався ідентифікатор запису (має починатися з літери або `_`)"@,
            ParseErrorExpectation::EqualsSign => "Очікувався знак рівності `=`"@,
            ParseErrorExpectation::LeftParenthesis => "Очікувався ліва кругла дужка `(`"@,
            ParseErrorExpectation::RightParenthesis => "Очікувався права кругла дужка `)`"@,
            ParseErrorExpectation::LeftBracket => "Очікувався ліва квадратна дужка `[`"@,
            ParseErrorExpectation::RightBracket => "Очікувався права квадратна дужка `]`"@,
            ParseErrorExpectation::EntryValue => "Очікувалася значення запису"@,
            ParseErrorExpectation::Eof => "Очікувався кінець файлу"@,
        }
    }

    /// What is expected, in words.
    pub fn message(&self) -> (r: &'static str)
        ensures
            r@ == self.spec_message(),
    {
        match self {
            ParseErrorExpectation::EmptyNode => "Очікувався вузол `пусто`",
            ParseErrorExpectation::LogicalNode => "Очікувався логічний вузол (`так` або `ні`)",
            ParseErrorExpectation::NumberNode => "Очікувався числовий вузол",
            ParseErrorExpectation::TextNode => "Очікувався текстовий вузол. Явні перенесення рядків не дозволені",
            ParseErrorExpectation::ListNode => "Очікувався список",
            ParseErrorExpectation::DictionaryNode => "Очікувався словник",
            ParseErrorExpectation::DictionaryEntryNode => "Очікувався запис словника",
            ParseErrorExpectation::DictionaryEntryKey => "Очікувався ключ запису словника (ідентифікатор, текст або число)",
            ParseErrorExpectation::ObjectNode => "Очікувався об'єкт",
            ParseErrorExpectation::ObjectEntryNode => "Очікувався запис об'єкта",
            ParseErrorExpectation::AstNode => "Очікувався вузол формату `Дід`",
            ParseErrorExpectation::Identifier => "Очікувався ідентифікатор запису (має починатися з літери або `_`)",
            ParseErrorExpectation::EqualsSign => "Очікувався знак рівності `=`",
            ParseErrorExpectation::LeftParenthesis => "Очікувався ліва кругла дужка `(`",
            ParseErrorExpectation::RightParenthesis => "Очікувався права кругла дужка `)`",
            ParseErrorExpectation::LeftBracket => "Очікувався ліва квадратна дужка `[`",
            ParseErrorExpectation::RightBracket => "Очікувався права квадратна дужка `]`",
            ParseErrorExpectation::EntryValue => "Очікувалася значення запису",
            ParseErrorExpectation::Eof => "Очікувався кінець файлу",
        }
    }
}

/// A failed parse: what was expected, the position where it was looked for,
/// and a preview of the text that stood there.
#[derive(Debug, Clone, PartialEq)]
pub struct ParseError {
    pub expectation: ParseErrorExpectation,
    pub line: u64,
    pub column: u64,
    pub index: u64,
    pub info: Option<String>,
}

/// The character of the decimal digit `d`.
fn digit(d: u64) -> (r: char)
    requires
        d < 10,
    ensures
        r == digit_of(d as int),
{
    if d == 0 {
        '0'
    } else if d == 1 {
        '1'
    } else if d == 2 {
        '2'
    } else if d == 3 {
        '3'
    } else if d == 4 {
        '4'
    } else if d == 5 {
        '5'
    } else if d == 6 {
        '6'
    } else if d == 7 {
        '7'
    } else if d == 8 {
        '8'
    } else {
        '9'
    }
}

/// The decimal digits of `n`.
pub fn decimal(n: u64) -> (r: String)
    ensures
        r@ == digits_of(n as nat),
    decreases n,
{
    if n < 10 {
        let mut s = String::new();
        push_char(&mut s, digit(n));
        assert(s@ =~= seq![digit_of(n as int)]);
        s
    } else {
        let mut s = decimal(n / 10);
        push_char(&mut s, digit(n % 10));
        s
    }
}

impl ParseError {
    /// The report of this error: its kind, its place, and its preview, on
    /// three lines.
    pub open spec fn spec_message(self) -> Seq<char> {
        "Вид помилки: "@ + self.expectation.spec_message() + "\nРядок: "@ + digits_of(
            self.line as nat,
        ) + ", Стовпчик: "@ + digits_of(self.column as nat) + ", Індекс: "@ + digits_of(
            self.index as nat,
        ) + "\n"@ + match self.info {
            Some(info) => info@,
            None => Seq::empty(),
        }
    }

    /// The report of this error: its kind, its place, and its preview, on
    /// three lines.
    pub fn message(&self) -> (r: String)
        ensures
            r@ == self.spec_message(),
    {
        let mut r = String::from_str("Вид помилки: ");
        r.append(self.expectation.message());
        r.append("\nРядок: ");
        r.append(decimal(self.line).as_str());
        r.append(", Стовпчик: ");
        r.append(decimal(self.column).as_str());
        r.append(", Індекс: ");
        r.append(decimal(self.index).as_str());
        r.append("\n");
        match &self.info {
            Some(info) => r.append(info.as_str()),
            None => {},
        }
        proof {
            assert(r@ =~= self.spec_message());
        }
        r
    }
}

/// How many characters of the unread text an error shows.
pub const PREVIEW_LEN: usize = 10;

/// The text that stands at `at`: its first ten characters, followed by `...`
/// when more remain.
pub open spec fn preview(s: Seq<char>, at: int) -> Seq<char> {
    let rest = s.subrange(at, s.len() as int);
    if rest.len() > PREVIEW_LEN {
        rest.subrange(0, PREVIEW_LEN as int) + "..."@
    } else {
        rest
    }
}

/// The debug form of a text: in double quotes, with quotes, backslashes and
/// control characters escaped.
pub uninterp spec fn debug_quoted(s: Seq<char>) -> Seq<char>;

/// Relies on the `Debug` formatting of `str`; its result depends on the
/// characters alone.
#[verifier::external_body]
fn quote(s: &str) -> (r: String)
    ensures
        r@ == debug_quoted(s@),
{
    format!("{:?}", s)
}

/// The diagnostic text of an error at `at`.
pub open spec fn info_at(s: Seq<char>, at: int) -> Seq<char> {
    "Наступні символи були введені: "@ + debug_quoted(preview(s, at))
}

impl ParseError {
    /// This error says that `expectation` was not met at position `at` of
    /// `s`, whose place in the text is `c`.
    pub open spec fn is_at(self, s: Seq<char>, at: int, c: NodeContext, expectation: ParseErrorExpectation) -> bool {
        &&& self.expectation == expectation
        &&& self.line == c.line
        &&& self.column == c.column
        &&& self.index == c.index
        &&& self.info is Some
        &&& self.info->0@ == info_at(s, at)
    }
}

/// The diagnostic text for the unread text from `at` on.
pub fn make_info(s: &Vec<char>, at: usize) -> (r: String)
    requires
        at <= s@.len(),
    ensures
        r@ == info_at(s@, at as int),
{
    let rest = s.len() - at;
    let mut shown = if rest > PREVIEW_LEN {
        string_of(s, at, at + PREVIEW_LEN)
    } else {
        string_of(s, at, s.len())
    };
    if rest > PREVIEW_LEN {
        shown.append("...");
        assert(s@.subrange(at as int, s@.len() as int).subrange(0, PREVIEW_LEN as int)
            =~= s@.subrange(at as int, at + PREVIEW_LEN));
    }
    with_prefix(quote(shown.as_str()))
}

/// The diagnostic text around the quoted preview `quoted`.
pub fn with_prefix(quoted: String) -> (r: String)
    ensures
        r@ == "Наступні символи були введені: "@ + quoted@,
{
    let info = String::from_str("Наступні символи були введені: ");
    info.concat(quoted.as_str())
}

/// The error for `expectation` at position `at` of `s`, whose place is `c`.
pub fn fail(s: &Vec<char>, at: usize, c: NodeContext, expectation: ParseErrorExpectation) -> (r: ParseError)
    requires
        at <= s@.len(),
    ensures
        r.is_at(s@, at as int, c, expectation),
{
    ParseError {
        expectation,
        line: c.line,
        column: c.column,
        index: c.index,
        info: Some(make_info(s, at)),
    }
}

} // verus!
