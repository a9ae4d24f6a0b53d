//! Source spans: byte ranges into the CSS source text, and a
//! [`Spanned<T>`] wrapper that attaches one to any value.

use vstd::prelude::*;
use vstd::string::*;

use crate::text::{
    byte_len, byte_length, char_index_at, char_index_of, fits_usize,
    is_char_boundary, str_to_chars,
};

verus! {

/// A half-open byte range `[start, end)` into the source string.
///
/// Offsets are byte offsets (not char indices) so a span can slice the
/// source directly.
#[derive(Debug, Clone, Copy, PartialEq, Eq, Structural)]
pub struct Span {
    pub start: usize,
    pub end: usize,
}

/// Number of `\n` characters in `s`.
pub open spec fn count_newlines(s: Seq<char>) -> nat
    decreases s.len(),
{
    if s.len() == 0 {
        0
    } else {
        count_newlines(s.drop_last()) + if s.last() == '\n' { 1nat } else { 0nat }
    }
}

/// Number of characters after the last `\n` of `s` (all of them if there is none).
pub open spec fn chars_since_newline(s: Seq<char>) -> nat
    decreases s.len(),
{
    if s.len() == 0 {
        0
    } else if s.last() == '\n' {
        0
    } else {
        chars_since_newline(s.drop_last()) + 1
    }
}

/// `min(b, byte length of s)`: where a byte offset lands once clamped to the text.
pub open spec fn clamp_to(s: Seq<char>, b: int) -> int {
    if b <= byte_len(s) { b } else { byte_len(s) as int }
}

/// The 1-based line of character index `k` of `s`.
pub open spec fn line_at(s: Seq<char>, k: int) -> nat {
    count_newlines(s.take(k)) + 1
}

/// The 1-based column, in characters, of character index `k` of `s`.
pub open spec fn column_at(s: Seq<char>, k: int) -> nat {
    chars_since_newline(s.take(k)) + 1
}

/// What `line_col` can compute without overflowing its `u32` results.
pub open spec fn line_col_fits(s: Seq<char>, k: int) -> bool {
    line_at(s, k) <= u32::MAX && column_at(s, k) <= u32::MAX
}

/// The line of a position is one more than the number of line feeds before
/// it, and nothing else starts a line (a carriage return does not); its
/// column is one more than the number of characters since the last line feed
/// before it (since the start if there is none).
pub proof fn lemma_line_col_counts_line_feeds(s: Seq<char>, k: int)
    requires
        0 <= k <= s.len(),
    ensures
        line_at(s, k) == 1 + s.take(k).filter(|c: char| c == '\n').len(),
        column_at(s, k) <= k + 1,
        forall|j: int| k - column_at(s, k) + 1 <= j < k ==> #[trigger] s[j] != '\n',
        column_at(s, k) == k + 1 || s[k - column_at(s, k)] == '\n',
    decreases k,
{
    reveal(Seq::filter);
    let t = s.take(k);
    if k > 0 {
        lemma_line_col_counts_line_feeds(s, k - 1);
        assert(t.drop_last() =~= s.take(k - 1));
        assert(t.last() == s[k - 1]);
    } else {
        assert(t =~= Seq::<char>::empty());
    }
}

impl Span {
    pub fn new(start: usize, end: usize) -> (r: Span)
        ensures
            r.start == start,
            r.end == end,
    {
        Span { start, end }
    }

    /// Number of bytes covered; zero for an inverted span.
    pub fn len(&self) -> (r: usize)
        ensures
            r == (if self.end >= self.start { self.end - self.start } else { 0 }),
    {
        self.end.saturating_sub(self.start)
    }

    pub fn is_empty(&self) -> (r: bool)
        ensures
            r == (self.start >= self.end),
    {
        self.start >= self.end
    }

    /// The slice of `source` this span covers, both ends clamped to the
    /// source's length. `source` must be the text the span was produced
    /// from: both clamped ends must fall on character boundaries, in order.
    pub fn slice<'a>(&self, source: &'a str) -> (r: &'a str)
        requires
            fits_usize(source@),
            is_char_boundary(source@, clamp_to(source@, self.start as int)),
            is_char_boundary(source@, clamp_to(source@, self.end as int)),
            clamp_to(source@, self.start as int) <= clamp_to(source@, self.end as int),
        ensures
            r@ == source@.subrange(
                char_index_of(source@, clamp_to(source@, self.start as int)),
                char_index_of(source@, clamp_to(source@, self.end as int)),
            ),
    {
        let chars = str_to_chars(source);
        let n = byte_length(&chars);
        let a = if self.start <= n { self.start } else { n };
        let b = if self.end <= n { self.end } else { n };
        let i = char_index_at(&chars, a);
        let j = char_index_at(&chars, b);
        proof {
            let s = source@;
            let ii = char_index_of(s, a as int);
            let jj = char_index_of(s, b as int);
            if jj < ii {
                crate::text::lemma_byte_offset_strict(s, jj, ii);
            }
        }
        source.substring_char(i, j)
    }

    /// The 1-based line and column of this span's start within `source`.
    /// The column is counted in characters, not bytes.
    pub fn start_line_col(&self, source: &str) -> (r: (u32, u32))
        requires
            fits_usize(source@),
            is_char_boundary(source@, clamp_to(source@, self.start as int)),
            line_col_fits(source@, char_index_of(source@, clamp_to(source@, self.start as int))),
        ensures
            r.0 == line_at(source@, char_index_of(source@, clamp_to(source@, self.start as int))),
            r.1 == column_at(source@, char_index_of(source@, clamp_to(source@, self.start as int))),
    {
        line_col(source, self.start)
    }

    /// The smallest span covering both `self` and `other` (their union,
    /// including any gap between them).
    pub fn to(self, other: Span) -> (r: Span)
        ensures
            r.start == (if self.start <= other.start { self.start } else { other.start }),
            r.end == (if self.end >= other.end { self.end } else { other.end }),
    {
        Span {
            start: if self.start <= other.start { self.start } else { other.start },
            end: if self.end >= other.end { self.end } else { other.end },
        }
    }
}

fn line_col(source: &str, offset: usize) -> (r: (u32, u32))
    requires
        fits_usize(source@),
        is_char_boundary(source@, clamp_to(source@, offset as int)),
        line_col_fits(source@, char_index_of(source@, clamp_to(source@, offset as int))),
    ensures
        r.0 == line_at(source@, char_index_of(source@, clamp_to(source@, offset as int))),
        r.1 == column_at(source@, char_index_of(source@, clamp_to(source@, offset as int))),
{
    let chars = str_to_chars(source);
    let n = byte_length(&chars);
    let a = if offset <= n { offset } else { n };
    let k = char_index_at(&chars, a);
    let mut line: usize = 0;
    let mut col: usize = 0;
    let mut i: usize = 0;
    while i < k
        invariant
            0 <= i <= k <= chars.len(),
            chars@ == source@,
            line == count_newlines(chars@.take(i as int)),
            col == chars_since_newline(chars@.take(i as int)),
            line <= i,
            col <= i,
        decreases k - i,
    {
        assert(chars@.take(i + 1).drop_last() =~= chars@.take(i as int));
        if chars[i] == '\n' {
            line = line + 1;
            col = 0;
        } else {
            col = col + 1;
        }
        i = i + 1;
    }
    proof {
        let t = source@.take(k as int);
        assert(line + 1 == line_at(source@, k as int));
        assert(col + 1 == column_at(source@, k as int));
    }
    ((line as u32) + 1, (col as u32) + 1)
}

/// A value paired with the source [`Span`] it was produced from.
#[derive(Debug, Clone, PartialEq)]
pub struct Spanned<T> {
    pub node: T,
    pub span: Span,
}

impl<T> Spanned<T> {
    pub fn new(node: T, span: Span) -> (r: Spanned<T>)
        ensures
            r.node == node,
            r.span == span,
    {
        Spanned { node, span }
    }

    /// Transform the inner value, keeping the same span.
    pub fn map<U, F: FnOnce(T) -> U>(self, f: F) -> (r: Spanned<U>)
        requires
            f.requires((self.node,)),
        ensures
            f.ensures((self.node,), r.node),
            r.span == self.span,
    {
        let span = self.span;
        Spanned { node: f(self.node), span }
    }

    /// A borrow of the inner value with the same span.
    pub fn as_ref(&self) -> (r: Spanned<&T>)
        ensures
            *r.node == self.node,
            r.span == self.span,
    {
        Spanned { node: &self.node, span: self.span }
    }
}

} // verus!
