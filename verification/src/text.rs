//! Character classes, ASCII case folding and UTF-8 byte arithmetic shared by
//! the tokenizer, the serializer and the span helpers.

use vstd::prelude::*;

verus! {

// ---------------------------------------------------------------------------
// Character classes (CSS Syntax Level 3, §4.2 "Definitions")
// ---------------------------------------------------------------------------

pub open spec fn spec_is_digit(c: char) -> bool {
    '0' <= c && c <= '9'
}

pub open spec fn spec_is_hex_digit(c: char) -> bool {
    ||| spec_is_digit(c)
    ||| ('a' <= c && c <= 'f')
    ||| ('A' <= c && c <= 'F')
}

pub open spec fn spec_is_ascii_alpha(c: char) -> bool {
    ('a' <= c && c <= 'z') || ('A' <= c && c <= 'Z')
}

/// A letter, `_`, or a non-ASCII code point; a NUL counts as the U+FFFD
/// that stands for it.
pub open spec fn spec_is_name_start(c: char) -> bool {
    spec_is_ascii_alpha(c) || c as u32 >= 0x80 || c == '_' || c == '\0'
}

pub open spec fn spec_is_name(c: char) -> bool {
    spec_is_name_start(c) || spec_is_digit(c) || c == '-'
}

/// The control code points other than whitespace; a NUL counts as the
/// U+FFFD that stands for it, and so is not one of them.
pub open spec fn spec_is_non_printable(c: char) -> bool {
    ||| ('\u{1}' <= c && c <= '\u{8}')
    ||| c == '\u{b}'
    ||| ('\u{e}' <= c && c <= '\u{1f}')
    ||| c == '\u{7f}'
}

/// `\n`, `\r` and form feed: the code points that count as a newline.
pub open spec fn spec_is_newline(c: char) -> bool {
    c == '\n' || c == '\r' || c == '\x0c'
}

pub open spec fn spec_is_whitespace(c: char) -> bool {
    spec_is_newline(c) || c == '\t' || c == ' '
}

#[verifier::when_used_as_spec(spec_is_digit)]
pub fn is_digit(c: char) -> (r: bool)
    ensures
        r == spec_is_digit(c),
{
    '0' <= c && c <= '9'
}

#[verifier::when_used_as_spec(spec_is_hex_digit)]
pub fn is_hex_digit(c: char) -> (r: bool)
    ensures
        r == spec_is_hex_digit(c),
{
    ('0' <= c && c <= '9') || ('a' <= c && c <= 'f') || ('A' <= c && c <= 'F')
}

#[verifier::when_used_as_spec(spec_is_name_start)]
pub fn is_name_start(c: char) -> (r: bool)
    ensures
        r == spec_is_name_start(c),
{
    ('a' <= c && c <= 'z') || ('A' <= c && c <= 'Z') || c >= '\u{80}' || c == '_' || c == '\0'
}

#[verifier::when_used_as_spec(spec_is_name)]
pub fn is_name(c: char) -> (r: bool)
    ensures
        r == spec_is_name(c),
{
    is_name_start(c) || is_digit(c) || c == '-'
}

#[verifier::when_used_as_spec(spec_is_non_printable)]
pub fn is_non_printable(c: char) -> (r: bool)
    ensures
        r == spec_is_non_printable(c),
{
    ('\u{1}' <= c && c <= '\u{8}') || c == '\u{b}' || ('\u{e}' <= c && c <= '\u{1f}') || c == '\u{7f}'
}

#[verifier::when_used_as_spec(spec_is_newline)]
pub fn is_newline(c: char) -> (r: bool)
    ensures
        r == spec_is_newline(c),
{
    c == '\n' || c == '\r' || c == '\x0c'
}

#[verifier::when_used_as_spec(spec_is_whitespace)]
pub fn is_whitespace(c: char) -> (r: bool)
    ensures
        r == spec_is_whitespace(c),
{
    is_newline(c) || c == '\t' || c == ' '
}

// ---------------------------------------------------------------------------
// ASCII case folding
// ---------------------------------------------------------------------------

pub open spec fn spec_ascii_lower(c: char) -> char {
    if 'A' <= c && c <= 'Z' {
        ((c as u32) + 32) as char
    } else {
        c
    }
}

/// `a` and `b` are equal once ASCII letters are folded to lower case.
pub open spec fn eq_ignore_ascii_case(a: Seq<char>, b: Seq<char>) -> bool {
    &&& a.len() == b.len()
    &&& forall|i: int| 0 <= i < a.len() ==> spec_ascii_lower(#[trigger] a[i]) == spec_ascii_lower(b[i])
}

pub open spec fn ascii_lowercase(s: Seq<char>) -> Seq<char> {
    s.map_values(|c: char| spec_ascii_lower(c))
}

#[verifier::when_used_as_spec(spec_ascii_lower)]
pub fn ascii_lower(c: char) -> (r: char)
    ensures
        r == spec_ascii_lower(c),
{
    if 'A' <= c && c <= 'Z' {
        let v: u32 = (c as u32) + 32;
        assert('a' as u32 <= v <= 'z' as u32);
        char_from_ascii(v)
    } else {
        c
    }
}

/// The character with code `v`, for `v` in the ASCII range.
pub fn char_from_ascii(v: u32) -> (r: char)
    requires
        v < 0x80,
    ensures
        r == v as char,
        r as u32 == v,
{
    let b: u8 = v as u8;
    b as char
}

// ---------------------------------------------------------------------------
// UTF-8 widths and byte offsets
// ---------------------------------------------------------------------------

/// Number of bytes in the UTF-8 encoding of `c`.
pub open spec fn spec_utf8_width(c: char) -> nat {
    if (c as u32) < 0x80 {
        1
    } else if (c as u32) < 0x800 {
        2
    } else if (c as u32) < 0x10000 {
        3
    } else {
        4
    }
}

/// Number of bytes in the UTF-8 encoding of `s`.
pub open spec fn byte_len(s: Seq<char>) -> nat
    decreases s.len(),
{
    if s.len() == 0 {
        0
    } else {
        byte_len(s.drop_last()) + spec_utf8_width(s.last())
    }
}

/// Byte offset of the character at index `i` of `s`.
pub open spec fn byte_offset(s: Seq<char>, i: int) -> nat {
    byte_len(s.take(i))
}

/// The text of `s` has a byte length that a `usize` can hold.
pub open spec fn fits_usize(s: Seq<char>) -> bool {
    byte_len(s) <= usize::MAX
}

pub fn utf8_width(c: char) -> (r: usize)
    ensures
        r == spec_utf8_width(c),
{
    let v: u32 = c as u32;
    if v < 0x80 {
        1
    } else if v < 0x800 {
        2
    } else if v < 0x10000 {
        3
    } else {
        4
    }
}

pub proof fn lemma_byte_len_push(s: Seq<char>, c: char)
    ensures
        byte_len(s.push(c)) == byte_len(s) + spec_utf8_width(c),
{
    assert(s.push(c).drop_last() =~= s);
}

pub proof fn lemma_byte_offset_step(s: Seq<char>, i: int)
    requires
        0 <= i < s.len(),
    ensures
        byte_offset(s, i + 1) == byte_offset(s, i) + spec_utf8_width(s[i]),
{
    assert(s.take(i + 1) =~= s.take(i).push(s[i]));
    lemma_byte_len_push(s.take(i), s[i]);
}

/// Byte offsets grow strictly with the character index.
pub proof fn lemma_byte_offset_strict(s: Seq<char>, i: int, j: int)
    requires
        0 <= i < j <= s.len(),
    ensures
        byte_offset(s, i) < byte_offset(s, j),
    decreases j - i,
{
    lemma_byte_offset_step(s, j - 1);
    if i < j - 1 {
        lemma_byte_offset_strict(s, i, j - 1);
    }
}

pub proof fn lemma_byte_offset_mono(s: Seq<char>, i: int, j: int)
    requires
        0 <= i <= j <= s.len(),
    ensures
        byte_offset(s, i) <= byte_offset(s, j),
{
    if i < j {
        lemma_byte_offset_strict(s, i, j);
    }
}

pub proof fn lemma_byte_offset_full(s: Seq<char>)
    ensures
        byte_offset(s, s.len() as int) == byte_len(s),
{
    assert(s.take(s.len() as int) =~= s);
}

/// The UTF-8 length of two texts one after the other is the sum of theirs.
pub proof fn lemma_byte_len_concat(a: Seq<char>, b: Seq<char>)
    ensures
        byte_len(a + b) == byte_len(a) + byte_len(b),
    decreases b.len(),
{
    if b.len() == 0 {
        assert(a + b =~= a);
    } else {
        assert((a + b).drop_last() =~= a + b.drop_last());
        lemma_byte_len_concat(a, b.drop_last());
    }
}

/// Byte offsets within a piece `s[i..j]` of a text are those of the text,
/// less the offset of the piece.
pub proof fn lemma_byte_offset_in_piece(s: Seq<char>, i: int, j: int, a: int)
    requires
        0 <= i <= j <= s.len(),
        0 <= a <= j - i,
    ensures
        byte_offset(s.subrange(i, j), a) + byte_offset(s, i) == byte_offset(s, i + a),
        byte_len(s.subrange(i, j)) + byte_offset(s, i) == byte_offset(s, j),
{
    assert(s.take(i + a) =~= s.take(i) + s.subrange(i, j).take(a));
    lemma_byte_len_concat(s.take(i), s.subrange(i, j).take(a));
    assert(s.take(j) =~= s.take(i) + s.subrange(i, j));
    lemma_byte_len_concat(s.take(i), s.subrange(i, j));
}

/// `b` is the byte offset of some character index of `s` (or of its end).
pub open spec fn is_char_boundary(s: Seq<char>, b: int) -> bool {
    exists|i: int| 0 <= i <= s.len() && #[trigger] byte_offset(s, i) == b
}

/// The character index whose byte offset is `b`, when `b` is a boundary.
pub open spec fn char_index_of(s: Seq<char>, b: int) -> int {
    choose|i: int| 0 <= i <= s.len() && #[trigger] byte_offset(s, i) == b
}

pub proof fn lemma_char_index_unique(s: Seq<char>, b: int, i: int)
    requires
        0 <= i <= s.len(),
        byte_offset(s, i) == b,
    ensures
        is_char_boundary(s, b),
        char_index_of(s, b) == i,
{
    let k = char_index_of(s, b);
    if k < i {
        lemma_byte_offset_strict(s, k, i);
    } else if i < k {
        lemma_byte_offset_strict(s, i, k);
    }
}

/// Byte length of `s`, computed.
pub fn byte_length(s: &Vec<char>) -> (r: usize)
    requires
        fits_usize(s@),
    ensures
        r == byte_len(s@),
{
    let mut i: usize = 0;
    let mut n: usize = 0;
    while i < s.len()
        invariant
            0 <= i <= s.len(),
            fits_usize(s@),
            n == byte_offset(s@, i as int),
        decreases s.len() - i,
    {
        proof {
            lemma_byte_offset_step(s@, i as int);
            lemma_byte_offset_mono(s@, i + 1, s@.len() as int);
            lemma_byte_offset_full(s@);
        }
        n = n + utf8_width(s[i]);
        i = i + 1;
    }
    proof {
        lemma_byte_offset_full(s@);
    }
    n
}

/// The character index at byte offset `b` of `s`, which must be a boundary.
pub fn char_index_at(s: &Vec<char>, b: usize) -> (r: usize)
    requires
        fits_usize(s@),
        is_char_boundary(s@, b as int),
    ensures
        r == char_index_of(s@, b as int),
        r <= s.len(),
{
    let ghost k = char_index_of(s@, b as int);
    let mut i: usize = 0;
    let mut n: usize = 0;
    proof {
        lemma_char_index_unique(s@, b as int, k);
    }
    while n < b
        invariant
            0 <= i <= k <= s.len(),
            fits_usize(s@),
            byte_offset(s@, k) == b,
            n == byte_offset(s@, i as int),
        decreases s.len() - i,
    {
        proof {
            assert(i < k);
            lemma_byte_offset_step(s@, i as int);
            lemma_byte_offset_mono(s@, i + 1, s@.len() as int);
            lemma_byte_offset_full(s@);
            if i + 1 < k {
                lemma_byte_offset_strict(s@, i + 1, k);
            }
        }
        n = n + utf8_width(s[i]);
        i = i + 1;
    }
    proof {
        if i < k {
            lemma_byte_offset_strict(s@, i as int, k);
        }
    }
    i
}

// ---------------------------------------------------------------------------
// Strings
// ---------------------------------------------------------------------------

/// Copy the characters of `s` into a vector.
pub fn str_to_chars(s: &str) -> (v: Vec<char>)
    ensures
        v@ == s@,
{
    let mut v: Vec<char> = Vec::new();
    for c in it: s.chars()
        invariant
            v@ == it.seq().take(it.index()),
    {
        v.push(c);
    }
    proof {
        broadcast use vstd::string::group_string_axioms;
    }
    v
}

/// Append `c` to `s`, through std's `String::push`, which vstd gives no
/// contract; the contract claims what its documentation states: the string
/// afterwards holds its old characters followed by `c`.
#[verifier::external_body]
pub(crate) fn push_char(s: &mut String, c: char)
    ensures
        final(s)@ == old(s)@.push(c),
{
    s.push(c);
}

/// A string holding exactly the characters of `v`.
pub fn string_from_chars(v: &Vec<char>) -> (s: String)
    ensures
        s@ == v@,
{
    let mut s = String::new();
    let mut i: usize = 0;
    while i < v.len()
        invariant
            0 <= i <= v.len(),
            s@ == v@.take(i as int),
        decreases v.len() - i,
    {
        push_char(&mut s, v[i]);
        assert(v@.take(i + 1) =~= v@.take(i as int).push(v@[i as int]));
        i = i + 1;
    }
    assert(v@.take(v.len() as int) =~= v@);
    s
}

/// The characters `v[from..to]` as a string.
pub fn string_from_range(v: &Vec<char>, from: usize, to: usize) -> (s: String)
    requires
        from <= to <= v.len(),
    ensures
        s@ == v@.subrange(from as int, to as int),
{
    let mut s = String::new();
    let mut i: usize = from;
    while i < to
        invariant
            from <= i <= to <= v.len(),
            s@ == v@.subrange(from as int, i as int),
        decreases to - i,
    {
        push_char(&mut s, v[i]);
        assert(v@.subrange(from as int, i + 1) =~= v@.subrange(from as int, i as int).push(v@[i as int]));
        i = i + 1;
    }
    s
}

/// The two texts hold the same characters.
pub fn str_eq(a: &str, b: &str) -> (r: bool)
    ensures
        r == (a@ == b@),
{
    let x = str_to_chars(a);
    let y = str_to_chars(b);
    chars_eq(&x, &y)
}

/// The two vectors hold the same characters.
pub fn chars_eq(x: &Vec<char>, y: &Vec<char>) -> (r: bool)
    ensures
        r == (x@ == y@),
{
    if x.len() != y.len() {
        return false;
    }
    let mut i: usize = 0;
    while i < x.len()
        invariant
            0 <= i <= x.len(),
            x.len() == y.len(),
            forall|j: int| 0 <= j < i ==> x@[j] == y@[j],
        decreases x.len() - i,
    {
        if x[i] != y[i] {
            return false;
        }
        i = i + 1;
    }
    assert(x@ =~= y@);
    true
}

/// `s` equals `lit` once ASCII letters are folded to lower case; `lit` is
/// given in lower case.
pub fn chars_eq_ignore_ascii_case(s: &Vec<char>, lit: &Vec<char>) -> (r: bool)
    ensures
        r == eq_ignore_ascii_case(s@, lit@),
{
    if s.len() != lit.len() {
        return false;
    }
    let mut i: usize = 0;
    while i < s.len()
        invariant
            0 <= i <= s.len(),
            s.len() == lit.len(),
            forall|j: int| 0 <= j < i ==> spec_ascii_lower(#[trigger] s@[j]) == spec_ascii_lower(lit@[j]),
        decreases s.len() - i,
    {
        if ascii_lower(s[i]) != ascii_lower(lit[i]) {
            return false;
        }
        i = i + 1;
    }
    true
}

} // verus!
