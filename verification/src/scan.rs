//! The CSS tokenization algorithm (CSS Syntax Level 3, §4) as mathematical
//! functions over a sequence of characters.
//!
//! Each function takes the input `s` and a character index `i` and says what
//! the corresponding step of the algorithm recognises there: the text it
//! produces and the index where it stops. The tokenizer in
//! [`crate::tokenizer`] is proved to compute exactly these.
//!
//! Newline/NUL preprocessing (§3.3) is applied lazily: `\r`, `\r\n` and form
//! feed are newline-equivalent wherever a newline is looked for.

use vstd::prelude::*;

use crate::span::Span;
use crate::text::{byte_offset, eq_ignore_ascii_case, spec_is_digit, spec_is_hex_digit, spec_is_name, spec_is_name_start, spec_is_newline, spec_is_non_printable, spec_is_whitespace};
use crate::token::{NumericType, SpecToken};

verus! {

// ---------------------------------------------------------------------------
// Looking at a position
// ---------------------------------------------------------------------------

pub open spec fn is_at(s: Seq<char>, i: int, c: char) -> bool {
    0 <= i < s.len() && s[i] == c
}

pub open spec fn digit_at(s: Seq<char>, i: int) -> bool {
    0 <= i < s.len() && spec_is_digit(s[i])
}

pub open spec fn hex_at(s: Seq<char>, i: int) -> bool {
    0 <= i < s.len() && spec_is_hex_digit(s[i])
}

pub open spec fn name_at(s: Seq<char>, i: int) -> bool {
    0 <= i < s.len() && spec_is_name(s[i])
}

pub open spec fn name_start_at(s: Seq<char>, i: int) -> bool {
    0 <= i < s.len() && spec_is_name_start(s[i])
}

pub open spec fn newline_at(s: Seq<char>, i: int) -> bool {
    0 <= i < s.len() && spec_is_newline(s[i])
}

pub open spec fn whitespace_at(s: Seq<char>, i: int) -> bool {
    0 <= i < s.len() && spec_is_whitespace(s[i])
}

/// §4.3.8: a `\` at `i` that is not followed by a newline or the end.
pub open spec fn valid_escape_at(s: Seq<char>, i: int) -> bool {
    &&& is_at(s, i, '\\')
    &&& 0 <= i + 1 < s.len()
    &&& !spec_is_newline(s[i + 1])
}

/// §4.3.9: the text at `i` would start an identifier.
pub open spec fn starts_ident_at(s: Seq<char>, i: int) -> bool {
    if is_at(s, i, '-') {
        name_start_at(s, i + 1) || is_at(s, i + 1, '-') || valid_escape_at(s, i + 1)
    } else {
        name_start_at(s, i) || valid_escape_at(s, i)
    }
}

/// §4.3.10: the text at `i` would start a number.
pub open spec fn starts_number_at(s: Seq<char>, i: int) -> bool {
    if is_at(s, i, '+') || is_at(s, i, '-') {
        digit_at(s, i + 1) || (is_at(s, i + 1, '.') && digit_at(s, i + 2))
    } else if is_at(s, i, '.') {
        digit_at(s, i + 1)
    } else {
        digit_at(s, i)
    }
}

// ---------------------------------------------------------------------------
// Runs of characters
// ---------------------------------------------------------------------------

/// Index just past the first `*/` at or after `j`, or the end of the input.
pub open spec fn comment_close(s: Seq<char>, j: int) -> int
    decreases s.len() - j,
{
    if j + 1 >= s.len() {
        s.len() as int
    } else if s[j] == '*' && s[j + 1] == '/' {
        j + 2
    } else {
        comment_close(s, j + 1)
    }
}

/// §4.3.2: index just past every comment that starts at `i`.
pub open spec fn skip_comments(s: Seq<char>, i: int) -> int
    decreases s.len() - i,
{
    if is_at(s, i, '/') && is_at(s, i + 1, '*') {
        let e = comment_close(s, i + 2);
        if i < e <= s.len() {
            skip_comments(s, e)
        } else {
            i
        }
    } else {
        i
    }
}

/// §4.3.11 "consume a newline": `\r\n` counts as one.
pub open spec fn newline_end(s: Seq<char>, i: int) -> int {
    if is_at(s, i, '\r') {
        if is_at(s, i + 1, '\n') {
            i + 2
        } else {
            i + 1
        }
    } else if 0 <= i < s.len() {
        i + 1
    } else {
        i
    }
}

/// Index just past the whitespace run starting at `i`.
pub open spec fn whitespace_end(s: Seq<char>, i: int) -> int
    decreases s.len() - i,
{
    if whitespace_at(s, i) {
        whitespace_end(s, i + 1)
    } else {
        i
    }
}

/// Index just past the digit run starting at `i`.
pub open spec fn digits_end(s: Seq<char>, i: int) -> int
    decreases s.len() - i,
{
    if digit_at(s, i) {
        digits_end(s, i + 1)
    } else {
        i
    }
}

/// Index just past at most `n` hex digits starting at `i`.
pub open spec fn hex_end(s: Seq<char>, i: int, n: nat) -> int
    decreases n,
{
    if n > 0 && hex_at(s, i) {
        hex_end(s, i + 1, (n - 1) as nat)
    } else {
        i
    }
}

/// The value of a hex digit.
pub open spec fn hex_digit_value(c: char) -> nat {
    if '0' <= c && c <= '9' {
        (c as u32 - '0' as u32) as nat
    } else if 'a' <= c && c <= 'f' {
        (c as u32 - 'a' as u32 + 10) as nat
    } else if 'A' <= c && c <= 'F' {
        (c as u32 - 'A' as u32 + 10) as nat
    } else {
        0
    }
}

/// The number written by the hex digits `t` (most significant first).
pub open spec fn hex_value(t: Seq<char>) -> nat
    decreases t.len(),
{
    if t.len() == 0 {
        0
    } else {
        hex_value(t.drop_last()) * 16 + hex_digit_value(t.last())
    }
}

/// §4.3.7: the code point an escape of value `v` stands for.
pub open spec fn escaped_char(v: nat) -> char {
    if v == 0 || v > 0x10FFFF || (0xD800 <= v && v <= 0xDFFF) {
        '\u{FFFD}'
    } else {
        (v as u32) as char
    }
}

/// A code point as it enters a token's text: a NUL is replaced with U+FFFD
/// (§3.3 "preprocessing", applied where a token's text is copied; the
/// character classes of `text` count a NUL as the U+FFFD it stands for).
pub open spec fn nul_fixed(c: char) -> char {
    if c == '\0' {
        '\u{FFFD}'
    } else {
        c
    }
}

/// §4.3.7 "consume an escaped code point", the `\` already consumed: the
/// code point and the index just past the escape.
pub open spec fn escape(s: Seq<char>, i: int) -> (char, int) {
    if hex_at(s, i) {
        let e = hex_end(s, i, 6);
        let e2 = if whitespace_at(s, e) {
            if newline_at(s, e) {
                newline_end(s, e)
            } else {
                e + 1
            }
        } else {
            e
        };
        (escaped_char(hex_value(s.subrange(i, e))), e2)
    } else if 0 <= i < s.len() {
        (nul_fixed(s[i]), i + 1)
    } else {
        ('\u{FFFD}', i)
    }
}

/// §4.3.12 "consume a name": the name starting at `i`, escapes decoded, and
/// the index just past it.
pub open spec fn name_run(s: Seq<char>, i: int) -> (Seq<char>, int)
    decreases s.len() - i,
{
    if name_at(s, i) {
        let (r, e) = name_run(s, i + 1);
        (seq![nul_fixed(s[i])] + r, e)
    } else if valid_escape_at(s, i) {
        let (c, j) = escape(s, i + 1);
        if i < j <= s.len() {
            let (r, e) = name_run(s, j);
            (seq![c] + r, e)
        } else {
            (seq![], i)
        }
    } else {
        (seq![], i)
    }
}

pub open spec fn prepend(c: char, o: Option<Seq<char>>) -> Option<Seq<char>> {
    match o {
        Some(t) => Some(seq![c] + t),
        None => None,
    }
}

/// §4.3.5 "consume a string token", the opening quote `q` already consumed:
/// the string's contents (`None` for a bad string) and where it stops.
pub open spec fn string_run(s: Seq<char>, i: int, q: char) -> (Option<Seq<char>>, int)
    decreases s.len() - i,
{
    if i < 0 || i >= s.len() {
        (Some(seq![]), i)
    } else if s[i] == q {
        (Some(seq![]), i + 1)
    } else if spec_is_newline(s[i]) {
        (None, i)
    } else if s[i] == '\\' {
        if i + 1 >= s.len() {
            (Some(seq![]), i + 1)
        } else if spec_is_newline(s[i + 1]) {
            let k = newline_end(s, i + 1);
            if i < k <= s.len() {
                string_run(s, k, q)
            } else {
                (None, i)
            }
        } else {
            let (c, j) = escape(s, i + 1);
            if i < j <= s.len() {
                let (r, e) = string_run(s, j, q);
                (prepend(c, r), e)
            } else {
                (None, i)
            }
        }
    } else {
        let (r, e) = string_run(s, i + 1, q);
        (prepend(nul_fixed(s[i]), r), e)
    }
}

/// §4.3.14 "consume the remnants of a bad url": index just past them.
pub open spec fn bad_url_end(s: Seq<char>, i: int) -> int
    decreases s.len() - i,
{
    if i < 0 || i >= s.len() {
        i
    } else if s[i] == ')' {
        i + 1
    } else if valid_escape_at(s, i) {
        let (_c, j) = escape(s, i + 1);
        if i < j <= s.len() {
            bad_url_end(s, j)
        } else {
            i
        }
    } else {
        bad_url_end(s, i + 1)
    }
}

/// The rest of a url token once whitespace was met inside it: it must end
/// right after the whitespace, or the token is a bad url.
pub open spec fn url_after_whitespace(s: Seq<char>, i: int) -> (Option<Seq<char>>, int) {
    let k = whitespace_end(s, i);
    if k >= s.len() {
        (Some(seq![]), k)
    } else if s[k] == ')' {
        (Some(seq![]), k + 1)
    } else {
        (None, bad_url_end(s, k))
    }
}

pub open spec fn url_breaks(c: char) -> bool {
    c == '"' || c == '\'' || c == '(' || spec_is_non_printable(c)
}

/// §4.3.6 "consume a url token", `url(` and the whitespace after it already
/// consumed: the url (`None` for a bad url) and where it stops.
pub open spec fn url_run(s: Seq<char>, i: int) -> (Option<Seq<char>>, int)
    decreases s.len() - i,
{
    if i < 0 || i >= s.len() {
        (Some(seq![]), i)
    } else if s[i] == ')' {
        (Some(seq![]), i + 1)
    } else if spec_is_whitespace(s[i]) {
        url_after_whitespace(s, i)
    } else if url_breaks(s[i]) {
        (None, bad_url_end(s, i + 1))
    } else if s[i] == '\\' {
        if valid_escape_at(s, i) {
            let (c, j) = escape(s, i + 1);
            if i < j <= s.len() {
                let (r, e) = url_run(s, j);
                (prepend(c, r), e)
            } else {
                (None, i)
            }
        } else {
            (None, bad_url_end(s, i + 1))
        }
    } else {
        let (r, e) = url_run(s, i + 1);
        (prepend(nul_fixed(s[i]), r), e)
    }
}

/// §4.3.13 "consume a number": its type flag and the index just past it.
pub open spec fn number_run(s: Seq<char>, i: int) -> (NumericType, int) {
    let i1 = if is_at(s, i, '+') || is_at(s, i, '-') { i + 1 } else { i };
    let i2 = digits_end(s, i1);
    let (t, i3) = if is_at(s, i2, '.') && digit_at(s, i2 + 1) {
        (NumericType::Number, digits_end(s, i2 + 1))
    } else {
        (NumericType::Integer, i2)
    };
    if is_at(s, i3, 'e') || is_at(s, i3, 'E') {
        let d = if is_at(s, i3 + 1, '+') || is_at(s, i3 + 1, '-') { 2int } else { 1int };
        if digit_at(s, i3 + d) {
            (NumericType::Number, digits_end(s, i3 + d))
        } else {
            (t, i3)
        }
    } else {
        (t, i3)
    }
}

/// §4.3.3 "consume a numeric token" starting at `i`.
pub open spec fn numeric_token(s: Seq<char>, i: int) -> (SpecToken, int) {
    let (t, e) = number_run(s, i);
    let repr = s.subrange(i, e);
    if starts_ident_at(s, e) {
        let (unit, e2) = name_run(s, e);
        (SpecToken::Dimension { num_type: t, unit, repr }, e2)
    } else if is_at(s, e, '%') {
        (SpecToken::Percentage { repr }, e + 1)
    } else {
        (SpecToken::Number { num_type: t, repr }, e)
    }
}

/// The name `url`.
pub open spec fn url_name() -> Seq<char> {
    seq!['u', 'r', 'l']
}

/// §4.3.4 "consume an ident-like token" starting at `i`.
pub open spec fn ident_like_token(s: Seq<char>, i: int) -> (SpecToken, int) {
    let (name, e) = name_run(s, i);
    if eq_ignore_ascii_case(name, url_name()) && is_at(s, e, '(') {
        let k = whitespace_end(s, e + 1);
        if is_at(s, k, '"') || is_at(s, k, '\'') {
            (SpecToken::Function(name), k)
        } else {
            let (u, e2) = url_run(s, k);
            match u {
                Some(t) => (SpecToken::Url(t), e2),
                None => (SpecToken::BadUrl, e2),
            }
        }
    } else if is_at(s, e, '(') {
        (SpecToken::Function(name), e + 1)
    } else {
        (SpecToken::Ident(name), e)
    }
}

/// §4.3.1 "consume a token" at `p`, comments already skipped, `p` inside the
/// input: the token and the index just past it.
pub open spec fn token_at(s: Seq<char>, p: int) -> (SpecToken, int) {
    let c = s[p];
    if spec_is_whitespace(c) {
        (SpecToken::Whitespace, whitespace_end(s, p))
    } else if c == '"' || c == '\'' {
        let (r, e) = string_run(s, p + 1, c);
        match r {
            Some(t) => (SpecToken::String(t), e),
            None => (SpecToken::BadString, e),
        }
    } else if c == '#' {
        if name_at(s, p + 1) || valid_escape_at(s, p + 1) {
            let (value, e) = name_run(s, p + 1);
            (SpecToken::Hash { value, is_id: starts_ident_at(s, p + 1) }, e)
        } else {
            (SpecToken::Delim('#'), p + 1)
        }
    } else if c == '(' {
        (SpecToken::LeftParen, p + 1)
    } else if c == ')' {
        (SpecToken::RightParen, p + 1)
    } else if c == '+' {
        if starts_number_at(s, p) {
            numeric_token(s, p)
        } else {
            (SpecToken::Delim('+'), p + 1)
        }
    } else if c == ',' {
        (SpecToken::Comma, p + 1)
    } else if c == '-' {
        if starts_number_at(s, p) {
            numeric_token(s, p)
        } else if is_at(s, p + 1, '-') && is_at(s, p + 2, '>') {
            (SpecToken::Cdc, p + 3)
        } else if starts_ident_at(s, p) {
            ident_like_token(s, p)
        } else {
            (SpecToken::Delim('-'), p + 1)
        }
    } else if c == '.' {
        if starts_number_at(s, p) {
            numeric_token(s, p)
        } else {
            (SpecToken::Delim('.'), p + 1)
        }
    } else if c == ':' {
        (SpecToken::Colon, p + 1)
    } else if c == ';' {
        (SpecToken::Semicolon, p + 1)
    } else if c == '<' {
        if is_at(s, p + 1, '!') && is_at(s, p + 2, '-') && is_at(s, p + 3, '-') {
            (SpecToken::Cdo, p + 4)
        } else {
            (SpecToken::Delim('<'), p + 1)
        }
    } else if c == '@' {
        if starts_ident_at(s, p + 1) {
            let (name, e) = name_run(s, p + 1);
            (SpecToken::AtKeyword(name), e)
        } else {
            (SpecToken::Delim('@'), p + 1)
        }
    } else if c == '[' {
        (SpecToken::LeftSquare, p + 1)
    } else if c == '\\' {
        if valid_escape_at(s, p) {
            ident_like_token(s, p)
        } else {
            (SpecToken::Delim('\\'), p + 1)
        }
    } else if c == ']' {
        (SpecToken::RightSquare, p + 1)
    } else if c == '{' {
        (SpecToken::LeftCurly, p + 1)
    } else if c == '}' {
        (SpecToken::RightCurly, p + 1)
    } else if spec_is_digit(c) {
        numeric_token(s, p)
    } else if spec_is_name_start(c) {
        ident_like_token(s, p)
    } else {
        (SpecToken::Delim(c), p + 1)
    }
}

/// The next token at or after index `i`: `None` at the end of the input
/// (once comments are skipped), else the token with the indices where it
/// starts and ends.
pub open spec fn next_token(s: Seq<char>, i: int) -> Option<(SpecToken, int, int)> {
    let p = skip_comments(s, i);
    if 0 <= p < s.len() {
        let (t, e) = token_at(s, p);
        Some((t, p, e))
    } else {
        None
    }
}

/// Where a stylesheet's tokens start: past a leading byte-order mark, if any.
pub open spec fn start_index(s: Seq<char>) -> int {
    if is_at(s, 0, '\u{FEFF}') {
        1
    } else {
        0
    }
}

/// The span of the characters `s[a..e]`, in bytes.
pub open spec fn token_span(s: Seq<char>, a: int, e: int) -> Span {
    Span { start: byte_offset(s, a) as usize, end: byte_offset(s, e) as usize }
}

/// Every token from index `i` on, each with its span.
pub open spec fn tokens_from(s: Seq<char>, i: int) -> Seq<(SpecToken, Span)>
    decreases s.len() - i,
{
    match next_token(s, i) {
        Some((t, a, e)) => {
            if i < e <= s.len() {
                seq![(t, token_span(s, a, e))] + tokens_from(s, e)
            } else {
                seq![]
            }
        },
        None => seq![],
    }
}

/// The tokens of `s`, each with its span.
pub open spec fn tokenize(s: Seq<char>) -> Seq<(SpecToken, Span)> {
    tokens_from(s, 0)
}

/// The tokens of a stylesheet `s`: a byte-order mark at its start is not
/// content, and is skipped.
pub open spec fn stylesheet_tokens(s: Seq<char>) -> Seq<(SpecToken, Span)> {
    tokens_from(s, start_index(s))
}

// ---------------------------------------------------------------------------
// What a number's type says
// ---------------------------------------------------------------------------

/// The text of an integer: digits, with an optional sign in front.
pub open spec fn integer_text(r: Seq<char>) -> bool {
    forall|k: int| 0 <= k < r.len() ==> spec_is_digit(#[trigger] r[k]) || (k == 0 && (r[k] == '+' || r[k] == '-'))
}

proof fn lemma_digits_run(s: Seq<char>, i: int)
    requires
        0 <= i <= s.len(),
    ensures
        i <= digits_end(s, i) <= s.len(),
        forall|k: int| i <= k < digits_end(s, i) ==> spec_is_digit(#[trigger] s[k]),
        !digit_at(s, digits_end(s, i)),
    decreases s.len() - i,
{
    if digit_at(s, i) {
        lemma_digits_run(s, i + 1);
    }
}

/// A number read at `i` is an integer exactly when its text is digits with
/// an optional sign: a `.` with a digit after it, or an exponent, makes it a
/// non-integer number (so `.5`, `1.0` and `1e3` are numbers, `+7` an
/// integer). The same holds of the number in a number or dimension token.
/// A number never stops right before a digit.
pub proof fn lemma_number_type(s: Seq<char>, i: int)
    requires
        0 <= i < s.len(),
        starts_number_at(s, i),
    ensures
        i < number_run(s, i).1 <= s.len(),
        !digit_at(s, number_run(s, i).1),
        number_run(s, i).0 == NumericType::Integer <==> integer_text(s.subrange(i, number_run(s, i).1)),
        match numeric_token(s, i).0 {
            SpecToken::Number { num_type, repr } => num_type == NumericType::Integer <==> integer_text(repr),
            SpecToken::Dimension { num_type, repr, .. } => num_type == NumericType::Integer <==> integer_text(
                repr,
            ),
            _ => true,
        },
{
    let i1 = if is_at(s, i, '+') || is_at(s, i, '-') { i + 1 } else { i };
    lemma_digits_run(s, i1);
    let i2 = digits_end(s, i1);
    let (ty, e) = number_run(s, i);
    let r = s.subrange(i, e);
    if is_at(s, i2, '.') && digit_at(s, i2 + 1) {
        lemma_digits_run(s, i2 + 1);
        let i3 = digits_end(s, i2 + 1);
        assert(ty == NumericType::Number);
        if is_at(s, i3, 'e') || is_at(s, i3, 'E') {
            let d = if is_at(s, i3 + 1, '+') || is_at(s, i3 + 1, '-') { 2int } else { 1int };
            if digit_at(s, i3 + d) {
                lemma_digits_run(s, i3 + d);
            }
        }
        assert(i2 < e);
        assert(r[i2 - i] == '.');
        assert(i2 - i > 0 || !(r[0] == '+' || r[0] == '-') || i2 - i != 0);
        assert(!integer_text(r));
    } else {
        if digit_at(s, i1) {
            lemma_digits_run(s, i1 + 1);
        }
        assert(i2 > i1);
        if is_at(s, i2, 'e') || is_at(s, i2, 'E') {
            let d = if is_at(s, i2 + 1, '+') || is_at(s, i2 + 1, '-') { 2int } else { 1int };
            if digit_at(s, i2 + d) {
                lemma_digits_run(s, i2 + d);
                assert(ty == NumericType::Number);
                assert(r[i2 - i] == s[i2]);
                assert(!integer_text(r));
            } else {
                assert(e == i2);
            }
        } else {
            assert(e == i2);
        }
        if ty == NumericType::Integer {
            assert(integer_text(r)) by {
                assert forall|k: int| 0 <= k < r.len() implies spec_is_digit(#[trigger] r[k]) || (k == 0 && (
                r[k] == '+' || r[k] == '-')) by {
                    assert(r[k] == s[i + k]);
                }
            }
        }
    }
}

} // verus!
