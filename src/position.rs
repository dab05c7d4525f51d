//! Positions in the text and the offsets that move them.

use vstd::prelude::*;

verus! {

/// A place in the text: a line and a column (both counted from one in the
/// usual start position) and the number of characters before it.
#[derive(Debug, Clone, Copy, PartialEq, Eq, Structural)]
pub struct NodeContext {
    pub line: u64,
    pub column: u64,
    pub index: u64,
}

/// How far a run of text moves a position: the newlines it holds, the
/// characters after its last newline, and its length.
#[derive(Debug, Clone, Copy, PartialEq, Eq, Structural)]
pub struct Offset {
    pub line: u64,
    pub column: u64,
    pub index: u64,
}

/// Number of newline characters in `s`.
pub open spec fn newlines(s: Seq<char>) -> nat
    decreases s.len(),
{
    if s.len() == 0 {
        0
    } else {
        newlines(s.drop_last()) + if s.last() == '\n' { 1nat } else { 0nat }
    }
}

/// Number of characters of `s` after its last newline (all of them when it
/// holds none).
pub open spec fn tail_len(s: Seq<char>) -> nat
    decreases s.len(),
{
    if s.len() == 0 {
        0
    } else if s.last() == '\n' {
        0
    } else {
        tail_len(s.drop_last()) + 1
    }
}

/// The offset that the run of text `s` stands for.
pub open spec fn offset_of(s: Seq<char>) -> Offset {
    Offset { line: newlines(s) as u64, column: tail_len(s) as u64, index: s.len() as u64 }
}

/// Whether moving `c` over any run of at most `n` characters stays within `u64`.
pub open spec fn fits(c: NodeContext, n: int) -> bool {
    &&& c.line + n <= u64::MAX
    &&& c.column + n <= u64::MAX
    &&& c.index + n <= u64::MAX
    &&& n < u64::MAX
}

/// Position `c` moved by offset `o`: the index grows by `o.index`; when `o`
/// crosses lines, the column starts again at one before `o.column` is added.
pub open spec fn advance(c: NodeContext, o: Offset) -> NodeContext {
    NodeContext {
        line: (c.line + o.line) as u64,
        column: (if o.line > 0 { 1 + o.column } else { c.column + o.column }) as u64,
        index: (c.index + o.index) as u64,
    }
}

/// Position `c` moved over the text `s`.
pub open spec fn moved(c: NodeContext, s: Seq<char>) -> NodeContext {
    advance(c, offset_of(s))
}

pub proof fn lemma_counts_bounded(s: Seq<char>)
    ensures
        newlines(s) <= s.len(),
        tail_len(s) <= s.len(),
        newlines(s) == 0 ==> tail_len(s) == s.len(),
    decreases s.len(),
{
    if s.len() > 0 {
        lemma_counts_bounded(s.drop_last());
    }
}

/// Counting over `a + b` is counting over `a` and then over `b`.
pub proof fn lemma_counts_concat(a: Seq<char>, b: Seq<char>)
    ensures
        newlines(a + b) == newlines(a) + newlines(b),
        tail_len(a + b) == if newlines(b) > 0 { tail_len(b) } else { tail_len(a) + b.len() },
    decreases b.len(),
{
    if b.len() == 0 {
        assert(a + b =~= a);
    } else {
        lemma_counts_concat(a, b.drop_last());
        assert((a + b).drop_last() =~= a + b.drop_last());
        lemma_counts_bounded(b.drop_last());
    }
}

/// Moving over `a` and then over `b` is moving over `a + b`.
pub proof fn lemma_moved_concat(c: NodeContext, a: Seq<char>, b: Seq<char>)
    requires
        fits(c, (a.len() + b.len()) as int),
    ensures
        moved(moved(c, a), b) == moved(c, a + b),
{
    lemma_counts_concat(a, b);
    lemma_counts_bounded(a);
    lemma_counts_bounded(b);
    lemma_counts_bounded(a + b);
}

/// Moving over nothing leaves a position where it is.
pub proof fn lemma_moved_empty(c: NodeContext)
    ensures
        moved(c, Seq::<char>::empty()) == c,
{
}

/// A run of text with no newline among its characters.
pub open spec fn flat(s: Seq<char>) -> bool {
    forall|k: int| 0 <= k < s.len() ==> s[k] != '\n'
}

pub proof fn lemma_flat_no_newlines(s: Seq<char>)
    requires
        flat(s),
    ensures
        newlines(s) == 0,
    decreases s.len(),
{
    if s.len() > 0 {
        lemma_flat_no_newlines(s.drop_last());
    }
}

impl NodeContext {
    /// This position moved by `rhs`.
    pub fn add(self, rhs: Offset) -> (r: NodeContext)
        requires
            self.line + rhs.line <= u64::MAX,
            self.index + rhs.index <= u64::MAX,
            rhs.line > 0 ==> rhs.column < u64::MAX,
            rhs.line == 0 ==> self.column + rhs.column <= u64::MAX,
        ensures
            r == advance(self, rhs),
    {
        let mut r = self;
        r.add_assign(rhs);
        r
    }

    /// Moves this position by `rhs`.
    pub fn add_assign(&mut self, rhs: Offset)
        requires
            old(self).line + rhs.line <= u64::MAX,
            old(self).index + rhs.index <= u64::MAX,
            rhs.line > 0 ==> rhs.column < u64::MAX,
            rhs.line == 0 ==> old(self).column + rhs.column <= u64::MAX,
        ensures
            *final(self) == advance(*old(self), rhs),
    {
        self.index = self.index + rhs.index;
        self.add_lines(rhs.line);
        self.column = self.column + rhs.column;
    }

    /// Moves this position down by `lines` lines; a move of one line or more
    /// puts it at the first column.
    pub fn add_lines(&mut self, lines: u64)
        requires
            old(self).line + lines <= u64::MAX,
        ensures
            final(self).line == old(self).line + lines,
            final(self).column == if lines > 0 { 1 } else { old(self).column },
            final(self).index == old(self).index,
    {
        self.line = self.line + lines;
        if lines > 0 {
            self.column = 1;
        }
    }
}

impl Default for NodeContext {
    /// The start of a text: line one, column one, index zero.
    fn default() -> (r: NodeContext)
        ensures
            r == (NodeContext { line: 1, column: 1, index: 0 }),
    {
        NodeContext { line: 1, column: 1, index: 0 }
    }
}

} // verus!
