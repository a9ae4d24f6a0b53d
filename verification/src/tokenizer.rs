//! The CSS tokenization algorithm (CSS Syntax Level 3, §4), proved to
//! compute the functions of [`crate::scan`].
//!
//! Tokenization never fails: every malformed construct has a defined
//! recovery (`BadString`, `BadUrl`, or a `Delim` for a stray character), so
//! `next_token` returns `None` only at the end of the input.

use vstd::prelude::*;

use crate::grammar::spans_ordered;
use crate::scan;
use crate::scan::prepend;
use crate::span::{clamp_to, Span, Spanned};
use crate::text::{
    byte_len, byte_offset, char_index_of, is_char_boundary, lemma_byte_offset_strict, chars_eq_ignore_ascii_case, fits_usize, is_digit, is_hex_digit, is_name,
    is_name_start, is_newline, is_non_printable, is_whitespace, lemma_byte_offset_mono,
    lemma_byte_offset_step, lemma_byte_offset_full, str_to_chars, string_from_chars,
    string_from_range, utf8_width,
};
use crate::token::{NumericType, SpecToken, Token};

verus! {

// ---------------------------------------------------------------------------
// Looking ahead
// ---------------------------------------------------------------------------

/// `s[i + k]`, if it exists.
fn peek(s: &Vec<char>, i: usize, k: usize) -> (r: Option<char>)
    ensures
        r == (if 0 <= i + k < s.len() { Some(s@[i + k]) } else { None::<char> }),
{
    if i < s.len() && k < s.len() - i {
        Some(s[i + k])
    } else {
        None
    }
}

fn char_is(s: &Vec<char>, i: usize, k: usize, c: char) -> (r: bool)
    ensures
        r == scan::is_at(s@, i + k, c),
{
    match peek(s, i, k) {
        Some(d) => d == c,
        None => false,
    }
}

fn digit_is(s: &Vec<char>, i: usize, k: usize) -> (r: bool)
    ensures
        r == scan::digit_at(s@, i + k),
{
    match peek(s, i, k) {
        Some(d) => is_digit(d),
        None => false,
    }
}

fn hex_is(s: &Vec<char>, i: usize, k: usize) -> (r: bool)
    ensures
        r == scan::hex_at(s@, i + k),
{
    match peek(s, i, k) {
        Some(d) => is_hex_digit(d),
        None => false,
    }
}

fn name_is(s: &Vec<char>, i: usize, k: usize) -> (r: bool)
    ensures
        r == scan::name_at(s@, i + k),
{
    match peek(s, i, k) {
        Some(d) => is_name(d),
        None => false,
    }
}

fn name_start_is(s: &Vec<char>, i: usize, k: usize) -> (r: bool)
    ensures
        r == scan::name_start_at(s@, i + k),
{
    match peek(s, i, k) {
        Some(d) => is_name_start(d),
        None => false,
    }
}

fn newline_is(s: &Vec<char>, i: usize, k: usize) -> (r: bool)
    ensures
        r == scan::newline_at(s@, i + k),
{
    match peek(s, i, k) {
        Some(d) => is_newline(d),
        None => false,
    }
}

fn whitespace_is(s: &Vec<char>, i: usize, k: usize) -> (r: bool)
    ensures
        r == scan::whitespace_at(s@, i + k),
{
    match peek(s, i, k) {
        Some(d) => is_whitespace(d),
        None => false,
    }
}

fn valid_escape_is(s: &Vec<char>, i: usize, k: usize) -> (r: bool)
    requires
        k < 8,
    ensures
        r == scan::valid_escape_at(s@, i + k),
{
    char_is(s, i, k, '\\') && match peek(s, i, k + 1) {
        Some(c) => !is_newline(c),
        None => false,
    }
}

fn starts_ident_is(s: &Vec<char>, i: usize, k: usize) -> (r: bool)
    requires
        k < 4,
    ensures
        r == scan::starts_ident_at(s@, i + k),
{
    if char_is(s, i, k, '-') {
        name_start_is(s, i, k + 1) || char_is(s, i, k + 1, '-') || valid_escape_is(s, i, k + 1)
    } else {
        name_start_is(s, i, k) || valid_escape_is(s, i, k)
    }
}

fn starts_number_is(s: &Vec<char>, i: usize) -> (r: bool)
    ensures
        r == scan::starts_number_at(s@, i as int),
{
    if char_is(s, i, 0, '+') || char_is(s, i, 0, '-') {
        digit_is(s, i, 1) || (char_is(s, i, 1, '.') && digit_is(s, i, 2))
    } else if char_is(s, i, 0, '.') {
        digit_is(s, i, 1)
    } else {
        digit_is(s, i, 0)
    }
}

// ---------------------------------------------------------------------------
// Runs of characters
// ---------------------------------------------------------------------------

fn comment_close(s: &Vec<char>, j: usize) -> (r: usize)
    requires
        j <= s.len(),
    ensures
        r == scan::comment_close(s@, j as int),
        j <= r <= s.len(),
{
    let mut k = j;
    while s.len() - k > 1
        invariant
            j <= k <= s.len(),
            scan::comment_close(s@, j as int) == scan::comment_close(s@, k as int),
        decreases s.len() - k,
    {
        if s[k] == '*' && s[k + 1] == '/' {
            return k + 2;
        }
        k = k + 1;
    }
    s.len()
}

fn skip_comments(s: &Vec<char>, i: usize) -> (r: usize)
    requires
        i <= s.len(),
    ensures
        r == scan::skip_comments(s@, i as int),
        i <= r <= s.len(),
{
    let mut p = i;
    while char_is(s, p, 0, '/') && char_is(s, p, 1, '*')
        invariant
            i <= p <= s.len(),
            scan::skip_comments(s@, i as int) == scan::skip_comments(s@, p as int),
        decreases s.len() - p,
    {
        p = comment_close(s, p + 2);
    }
    p
}

fn newline_end(s: &Vec<char>, i: usize) -> (r: usize)
    requires
        i <= s.len(),
    ensures
        r == scan::newline_end(s@, i as int),
        i <= r <= s.len(),
        i < s.len() ==> i < r,
{
    if char_is(s, i, 0, '\r') {
        if char_is(s, i, 1, '\n') {
            i + 2
        } else {
            i + 1
        }
    } else if i < s.len() {
        i + 1
    } else {
        i
    }
}

fn whitespace_end(s: &Vec<char>, i: usize) -> (r: usize)
    requires
        i <= s.len(),
    ensures
        r == scan::whitespace_end(s@, i as int),
        i <= r <= s.len(),
        scan::whitespace_at(s@, i as int) ==> i < r,
{
    let mut p = i;
    while whitespace_is(s, p, 0)
        invariant
            i <= p <= s.len(),
            scan::whitespace_end(s@, i as int) == scan::whitespace_end(s@, p as int),
        decreases s.len() - p,
    {
        p = p + 1;
    }
    p
}

fn digits_end(s: &Vec<char>, i: usize) -> (r: usize)
    requires
        i <= s.len(),
    ensures
        r == scan::digits_end(s@, i as int),
        i <= r <= s.len(),
        scan::digit_at(s@, i as int) ==> i < r,
{
    let mut p = i;
    while digit_is(s, p, 0)
        invariant
            i <= p <= s.len(),
            scan::digits_end(s@, i as int) == scan::digits_end(s@, p as int),
        decreases s.len() - p,
    {
        p = p + 1;
    }
    p
}

fn hex_digit_val(c: char) -> (r: u32)
    requires
        crate::text::spec_is_hex_digit(c),
    ensures
        r == scan::hex_digit_value(c),
        r < 16,
{
    if '0' <= c && c <= '9' {
        (c as u32) - ('0' as u32)
    } else if 'a' <= c && c <= 'f' {
        (c as u32) - ('a' as u32) + 10
    } else {
        (c as u32) - ('A' as u32) + 10
    }
}

/// std's `char::from_u32`, which vstd gives no contract. Its documentation
/// says that it returns the character whose scalar value is `v` when `v` is a
/// Unicode scalar value (at most 0x10FFFF and no surrogate), and `None`
/// otherwise; the contract claims exactly that.
#[verifier::external_body]
fn char_from_scalar(v: u32) -> (r: Option<char>)
    ensures
        r == (if v <= 0x10FFFF && !(0xD800 <= v <= 0xDFFF) {
            Some(v as char)
        } else {
            None::<char>
        }),
{
    char::from_u32(v)
}

/// §4.3.7 "consume an escaped code point", the `\` already consumed.
fn consume_escape(s: &Vec<char>, i: usize) -> (r: (char, usize))
    requires
        i <= s.len(),
    ensures
        (r.0, r.1 as int) == scan::escape(s@, i as int),
        i <= r.1 <= s.len(),
        i < s.len() ==> i < r.1,
{
    if hex_is(s, i, 0) {
        let mut e = i;
        let mut v: u32 = 0;
        let mut n: usize = 0;
        while n < 6 && hex_is(s, e, 0)
            invariant
                i <= e <= s.len(),
                e == i + n,
                n <= 6,
                v == scan::hex_value(s@.subrange(i as int, e as int)),
                scan::hex_end(s@, i as int, 6) == scan::hex_end(s@, e as int, (6 - n) as nat),
                n == 0 ==> v < 1,
                n == 1 ==> v < 0x10,
                n == 2 ==> v < 0x100,
                n == 3 ==> v < 0x1000,
                n == 4 ==> v < 0x10000,
                n == 5 ==> v < 0x100000,
                n == 6 ==> v < 0x1000000,
            decreases 6 - n,
        {
            let d = hex_digit_val(s[e]);
            assert(s@.subrange(i as int, e + 1).drop_last() =~= s@.subrange(i as int, e as int));
            v = v * 16 + d;
            e = e + 1;
            n = n + 1;
        }
        let e2 = if whitespace_is(s, e, 0) {
            if newline_is(s, e, 0) {
                newline_end(s, e)
            } else {
                e + 1
            }
        } else {
            e
        };
        let c = if v == 0 || v > 0x10FFFF || (0xD800 <= v && v <= 0xDFFF) {
            '\u{FFFD}'
        } else {
            match char_from_scalar(v) {
                Some(c) => c,
                None => '\u{FFFD}',
            }
        };
        (c, e2)
    } else if i < s.len() {
        (if s[i] == '\0' { '\u{FFFD}' } else { s[i] }, i + 1)
    } else {
        ('\u{FFFD}', i)
    }
}

/// §4.3.12 "consume a name".
fn consume_name(s: &Vec<char>, i: usize) -> (r: (Vec<char>, usize))
    requires
        i <= s.len(),
    ensures
        (r.0@, r.1 as int) == scan::name_run(s@, i as int),
        i <= r.1 <= s.len(),
        scan::name_at(s@, i as int) || scan::valid_escape_at(s@, i as int) ==> i < r.1,
{
    let mut out: Vec<char> = Vec::new();
    let mut p = i;
    loop
        invariant
            i <= p <= s.len(),
            scan::name_run(s@, i as int) == (
                out@ + scan::name_run(s@, p as int).0,
                scan::name_run(s@, p as int).1,
            ),
        decreases s.len() - p,
    {
        if name_is(s, p, 0) {
            let ghost old_out = out@;
            out.push(if s[p] == '\0' { '\u{FFFD}' } else { s[p] });
            assert(old_out + scan::name_run(s@, p as int).0 =~= out@ + scan::name_run(
                s@,
                p + 1,
            ).0);
            p = p + 1;
        } else if valid_escape_is(s, p, 0) {
            let (c, j) = consume_escape(s, p + 1);
            let ghost old_out = out@;
            out.push(c);
            assert(old_out + scan::name_run(s@, p as int).0 =~= out@ + scan::name_run(
                s@,
                j as int,
            ).0);
            p = j;
        } else {
            assert(out@ + scan::name_run(s@, p as int).0 =~= out@);
            return (out, p);
        }
    }
}

/// `a` prefixed to the text in `o`, if any.
pub open spec fn prefix_opt(a: Seq<char>, o: Option<Seq<char>>) -> Option<Seq<char>> {
    match o {
        Some(t) => Some(a + t),
        None => None,
    }
}

proof fn lemma_prefix_prepend(a: Seq<char>, c: char, o: Option<Seq<char>>)
    ensures
        prefix_opt(a, prepend(c, o)) == prefix_opt(a.push(c), o),
{
    if let Some(t) = o {
        assert(a + (seq![c] + t) =~= a.push(c) + t);
    }
}

proof fn lemma_prefix_empty(a: Seq<char>)
    ensures
        prefix_opt(a, Some(Seq::<char>::empty())) == Some(a),
{
    assert(a + Seq::<char>::empty() =~= a);
}

/// §4.3.5 "consume a string token", the opening quote `q` already consumed.
fn consume_string(s: &Vec<char>, i: usize, q: char) -> (r: (Option<Vec<char>>, usize))
    requires
        i <= s.len(),
    ensures
        (match r.0 {
            Some(v) => Some(v@),
            None => None::<Seq<char>>,
        }) == scan::string_run(s@, i as int, q).0,
        r.1 == scan::string_run(s@, i as int, q).1,
        i <= r.1 <= s.len(),
{
    let mut out: Vec<char> = Vec::new();
    let mut p = i;
    loop
        invariant
            i <= p <= s.len(),
            scan::string_run(s@, i as int, q) == (
                prefix_opt(out@, scan::string_run(s@, p as int, q).0),
                scan::string_run(s@, p as int, q).1,
            ),
        decreases s.len() - p,
    {
        if p >= s.len() {
            proof {
                lemma_prefix_empty(out@);
            }
            return (Some(out), p);
        }
        let c = s[p];
        if c == q {
            proof {
                lemma_prefix_empty(out@);
            }
            return (Some(out), p + 1);
        }
        if is_newline(c) {
            return (None, p);
        }
        if c == '\\' {
            if s.len() - p <= 1 {
                proof {
                    lemma_prefix_empty(out@);
                }
                return (Some(out), p + 1);
            } else if is_newline(s[p + 1]) {
                p = newline_end(s, p + 1);
            } else {
                let (ch, j) = consume_escape(s, p + 1);
                proof {
                    lemma_prefix_prepend(out@, ch, scan::string_run(s@, j as int, q).0);
                }
                out.push(ch);
                p = j;
            }
        } else {
            let c = if c == '\0' { '\u{FFFD}' } else { c };
            proof {
                lemma_prefix_prepend(out@, c, scan::string_run(s@, p + 1, q).0);
            }
            out.push(c);
            p = p + 1;
        }
    }
}

/// §4.3.14 "consume the remnants of a bad url".
fn bad_url_end(s: &Vec<char>, i: usize) -> (r: usize)
    requires
        i <= s.len(),
    ensures
        r == scan::bad_url_end(s@, i as int),
        i <= r <= s.len(),
{
    let mut p = i;
    loop
        invariant
            i <= p <= s.len(),
            scan::bad_url_end(s@, i as int) == scan::bad_url_end(s@, p as int),
        decreases s.len() - p,
    {
        if p >= s.len() {
            return p;
        }
        if s[p] == ')' {
            return p + 1;
        }
        if valid_escape_is(s, p, 0) {
            let (_c, j) = consume_escape(s, p + 1);
            p = j;
        } else {
            p = p + 1;
        }
    }
}

fn url_after_whitespace(s: &Vec<char>, i: usize) -> (r: (Option<Vec<char>>, usize))
    requires
        i <= s.len(),
    ensures
        (match r.0 {
            Some(v) => Some(v@),
            None => None::<Seq<char>>,
        }) == scan::url_after_whitespace(s@, i as int).0,
        r.1 == scan::url_after_whitespace(s@, i as int).1,
        i <= r.1 <= s.len(),
{
    let k = whitespace_end(s, i);
    if k >= s.len() {
        (Some(Vec::new()), k)
    } else if s[k] == ')' {
        (Some(Vec::new()), k + 1)
    } else {
        (None, bad_url_end(s, k))
    }
}

/// §4.3.6 "consume a url token", `url(` and the whitespace after it already
/// consumed.
fn consume_url(s: &Vec<char>, i: usize) -> (r: (Option<Vec<char>>, usize))
    requires
        i <= s.len(),
    ensures
        (match r.0 {
            Some(v) => Some(v@),
            None => None::<Seq<char>>,
        }) == scan::url_run(s@, i as int).0,
        r.1 == scan::url_run(s@, i as int).1,
        i <= r.1 <= s.len(),
{
    let mut out: Vec<char> = Vec::new();
    let mut p = i;
    loop
        invariant
            i <= p <= s.len(),
            scan::url_run(s@, i as int) == (
                prefix_opt(out@, scan::url_run(s@, p as int).0),
                scan::url_run(s@, p as int).1,
            ),
        decreases s.len() - p,
    {
        if p >= s.len() {
            proof {
                lemma_prefix_empty(out@);
            }
            return (Some(out), p);
        }
        let c = s[p];
        if c == ')' {
            proof {
                lemma_prefix_empty(out@);
            }
            return (Some(out), p + 1);
        }
        if is_whitespace(c) {
            let (rest, e) = url_after_whitespace(s, p);
            proof {
                lemma_prefix_empty(out@);
            }
            return match rest {
                Some(_) => (Some(out), e),
                None => (None, e),
            };
        }
        if c == '"' || c == '\'' || c == '(' || is_non_printable(c) {
            let e = bad_url_end(s, p + 1);
            return (None, e);
        }
        if c == '\\' {
            if valid_escape_is(s, p, 0) {
                let (ch, j) = consume_escape(s, p + 1);
                proof {
                    lemma_prefix_prepend(out@, ch, scan::url_run(s@, j as int).0);
                }
                out.push(ch);
                p = j;
            } else {
                let e = bad_url_end(s, p + 1);
                return (None, e);
            }
        } else {
            let c = if c == '\0' { '\u{FFFD}' } else { c };
            proof {
                lemma_prefix_prepend(out@, c, scan::url_run(s@, p + 1).0);
            }
            out.push(c);
            p = p + 1;
        }
    }
}

/// §4.3.13 "consume a number".
fn consume_number(s: &Vec<char>, i: usize) -> (r: (NumericType, usize))
    requires
        i <= s.len(),
    ensures
        (r.0, r.1 as int) == scan::number_run(s@, i as int),
        i <= r.1 <= s.len(),
        scan::starts_number_at(s@, i as int) ==> i < r.1,
{
    let i1 = if char_is(s, i, 0, '+') || char_is(s, i, 0, '-') {
        i + 1
    } else {
        i
    };
    let i2 = digits_end(s, i1);
    let (t, i3) = if char_is(s, i2, 0, '.') && digit_is(s, i2, 1) {
        (NumericType::Number, digits_end(s, i2 + 1))
    } else {
        (NumericType::Integer, i2)
    };
    if char_is(s, i3, 0, 'e') || char_is(s, i3, 0, 'E') {
        let d: usize = if char_is(s, i3, 1, '+') || char_is(s, i3, 1, '-') {
            2
        } else {
            1
        };
        if digit_is(s, i3, d) {
            (NumericType::Number, digits_end(s, i3 + d))
        } else {
            (t, i3)
        }
    } else {
        (t, i3)
    }
}

/// §4.3.3 "consume a numeric token".
fn numeric_token(s: &Vec<char>, i: usize) -> (r: (Token, usize))
    requires
        i <= s.len(),
    ensures
        (r.0@, r.1 as int) == scan::numeric_token(s@, i as int),
        i <= r.1 <= s.len(),
        scan::starts_number_at(s@, i as int) ==> i < r.1,
{
    let (t, e) = consume_number(s, i);
    let repr = string_from_range(s, i, e);
    if starts_ident_is(s, e, 0) {
        let (unit, e2) = consume_name(s, e);
        (Token::Dimension { num_type: t, unit: string_from_chars(&unit), repr }, e2)
    } else if char_is(s, e, 0, '%') {
        (Token::Percentage { repr }, e + 1)
    } else {
        (Token::Number { num_type: t, repr }, e)
    }
}

/// §4.3.4 "consume an ident-like token".
fn ident_like_token(s: &Vec<char>, i: usize) -> (r: (Token, usize))
    requires
        i <= s.len(),
    ensures
        (r.0@, r.1 as int) == scan::ident_like_token(s@, i as int),
        i <= r.1 <= s.len(),
        scan::name_at(s@, i as int) || scan::valid_escape_at(s@, i as int) ==> i < r.1,
{
    let (name, e) = consume_name(s, i);
    let url = vec!['u', 'r', 'l'];
    assert(url@ =~= scan::url_name());
    if chars_eq_ignore_ascii_case(&name, &url) && char_is(s, e, 0, '(') {
        let k = whitespace_end(s, e + 1);
        if char_is(s, k, 0, '"') || char_is(s, k, 0, '\'') {
            (Token::Function(string_from_chars(&name)), k)
        } else {
            let (u, e2) = consume_url(s, k);
            match u {
                Some(t) => (Token::Url(string_from_chars(&t)), e2),
                None => (Token::BadUrl, e2),
            }
        }
    } else if char_is(s, e, 0, '(') {
        (Token::Function(string_from_chars(&name)), e + 1)
    } else {
        (Token::Ident(string_from_chars(&name)), e)
    }
}

/// §4.3.1 "consume a token" at `p`, comments already skipped.
fn token_at(s: &Vec<char>, p: usize) -> (r: (Token, usize))
    requires
        p < s.len(),
    ensures
        (r.0@, r.1 as int) == scan::token_at(s@, p as int),
        p < r.1 <= s.len(),
{
    let c = s[p];
    if is_whitespace(c) {
        (Token::Whitespace, whitespace_end(s, p))
    } else if c == '"' || c == '\'' {
        let (r, e) = consume_string(s, p + 1, c);
        match r {
            Some(t) => (Token::String(string_from_chars(&t)), e),
            None => (Token::BadString, e),
        }
    } else if c == '#' {
        if name_is(s, p, 1) || valid_escape_is(s, p, 1) {
            let is_id = starts_ident_is(s, p, 1);
            let (value, e) = consume_name(s, p + 1);
            (Token::Hash { value: string_from_chars(&value), is_id }, e)
        } else {
            (Token::Delim('#'), p + 1)
        }
    } else if c == '(' {
        (Token::LeftParen, p + 1)
    } else if c == ')' {
        (Token::RightParen, p + 1)
    } else if c == '+' {
        if starts_number_is(s, p) {
            numeric_token(s, p)
        } else {
            (Token::Delim('+'), p + 1)
        }
    } else if c == ',' {
        (Token::Comma, p + 1)
    } else if c == '-' {
        if starts_number_is(s, p) {
            numeric_token(s, p)
        } else if char_is(s, p, 1, '-') && char_is(s, p, 2, '>') {
            (Token::Cdc, p + 3)
        } else if starts_ident_is(s, p, 0) {
            ident_like_token(s, p)
        } else {
            (Token::Delim('-'), p + 1)
        }
    } else if c == '.' {
        if starts_number_is(s, p) {
            numeric_token(s, p)
        } else {
            (Token::Delim('.'), p + 1)
        }
    } else if c == ':' {
        (Token::Colon, p + 1)
    } else if c == ';' {
        (Token::Semicolon, p + 1)
    } else if c == '<' {
        if char_is(s, p, 1, '!') && char_is(s, p, 2, '-') && char_is(s, p, 3, '-') {
            (Token::Cdo, p + 4)
        } else {
            (Token::Delim('<'), p + 1)
        }
    } else if c == '@' {
        if starts_ident_is(s, p, 1) {
            let (name, e) = consume_name(s, p + 1);
            (Token::AtKeyword(string_from_chars(&name)), e)
        } else {
            (Token::Delim('@'), p + 1)
        }
    } else if c == '[' {
        (Token::LeftSquare, p + 1)
    } else if c == '\\' {
        if valid_escape_is(s, p, 0) {
            ident_like_token(s, p)
        } else {
            (Token::Delim('\\'), p + 1)
        }
    } else if c == ']' {
        (Token::RightSquare, p + 1)
    } else if c == '{' {
        (Token::LeftCurly, p + 1)
    } else if c == '}' {
        (Token::RightCurly, p + 1)
    } else if is_digit(c) {
        numeric_token(s, p)
    } else if is_name_start(c) {
        ident_like_token(s, p)
    } else {
        (Token::Delim(c), p + 1)
    }
}

// ---------------------------------------------------------------------------
// The tokenizer
// ---------------------------------------------------------------------------

/// A token stream over a CSS source text.
pub struct Tokenizer {
    chars: Vec<char>,
    cursor: Cursor,
}

/// Where a tokenizer stands in its input.
struct Cursor {
    /// Character index of the next unread character.
    pos: usize,
    /// Byte offset of `pos`.
    byte_pos: usize,
}

/// Each token with its span, as values.
pub open spec fn tokens_view(v: Seq<Spanned<Token>>) -> Seq<(SpecToken, Span)> {
    v.map_values(|t: Spanned<Token>| (t.node@, t.span))
}

/// Comments skipped once are skipped for good.
proof fn lemma_skip_comments_idem(s: Seq<char>, i: int)
    ensures
        scan::skip_comments(s, scan::skip_comments(s, i)) == scan::skip_comments(s, i),
    decreases s.len() - i,
{
    if scan::is_at(s, i, '/') && scan::is_at(s, i + 1, '*') {
        let e = scan::comment_close(s, i + 2);
        if i < e <= s.len() {
            lemma_skip_comments_idem(s, e);
        }
    }
}

/// `sp` is the span of characters `a..e` of `s`, non-empty, from which the
/// tokenization step at `a` reads `t`: the token's own source text, with no
/// comment before it.
pub open spec fn read_from(s: Seq<char>, t: SpecToken, sp: Span) -> bool {
    exists|a: int, e: int|
        0 <= a < e <= s.len() && scan::skip_comments(s, a) == a && scan::token_at(s, a) == (t, e)
            && sp == #[trigger] scan::token_span(s, a, e)
}

/// Every span a tokenizer hands out can slice its source: both ends are
/// character boundaries within the text, in order, and the characters between
/// them are those the token was read from.
pub proof fn lemma_token_span_slices(s: Seq<char>, t: SpecToken, sp: Span)
    requires
        fits_usize(s),
        read_from(s, t, sp),
    ensures
        is_char_boundary(s, sp.start as int),
        is_char_boundary(s, sp.end as int),
        sp.start <= sp.end <= byte_len(s),
        clamp_to(s, sp.start as int) == sp.start,
        clamp_to(s, sp.end as int) == sp.end,
        char_index_of(s, sp.start as int) < char_index_of(s, sp.end as int),
        scan::token_at(s, char_index_of(s, sp.start as int)) == (t, char_index_of(
            s,
            sp.end as int,
        )),
{
    let (a, e) = choose|a: int, e: int|
        0 <= a < e <= s.len() && scan::skip_comments(s, a) == a && scan::token_at(s, a) == (t, e)
            && sp == #[trigger] scan::token_span(s, a, e);
    lemma_byte_offset_strict(s, a, e);
    lemma_byte_offset_mono(s, e, s.len() as int);
    lemma_byte_offset_full(s);
    crate::text::lemma_char_index_unique(s, byte_offset(s, a) as int, a);
    crate::text::lemma_char_index_unique(s, byte_offset(s, e) as int, e);
}

/// Byte offset of `to`, from that of `from`.
fn advance_bytes(s: &Vec<char>, from: usize, to: usize, b: usize) -> (r: usize)
    requires
        from <= to <= s.len(),
        fits_usize(s@),
        b == byte_offset(s@, from as int),
    ensures
        r == byte_offset(s@, to as int),
{
    let mut i = from;
    let mut n = b;
    while i < to
        invariant
            from <= i <= to <= s.len(),
            fits_usize(s@),
            n == byte_offset(s@, i as int),
        decreases to - i,
    {
        proof {
            lemma_byte_offset_step(s@, i as int);
            lemma_byte_offset_mono(s@, i + 1, s@.len() as int);
            lemma_byte_offset_full(s@);
        }
        n = n + utf8_width(s[i]);
        i = i + 1;
    }
    n
}

impl Tokenizer {
    /// The text being tokenized.
    pub closed spec fn input(&self) -> Seq<char> {
        self.chars@
    }

    /// Character index of the next unread character.
    pub closed spec fn position(&self) -> int {
        self.cursor.pos as int
    }

    /// The position is within the input, whose length fits in a `usize`,
    /// and the byte offset is that of the position.
    #[verifier::type_invariant]
    spec fn wf(self) -> bool {
        &&& self.cursor.pos <= self.chars.len()
        &&& fits_usize(self.chars@)
        &&& self.cursor.byte_pos == byte_offset(self.chars@, self.cursor.pos as int)
    }

    /// A tokenizer at the start of `input`.
    pub fn new(input: &str) -> (r: Tokenizer)
        requires
            fits_usize(input@),
        ensures
            r.input() == input@,
            r.position() == 0,
    {
        let chars = str_to_chars(input);
        assert(chars@.take(0) =~= Seq::<char>::empty());
        Tokenizer { chars, cursor: Cursor { pos: 0, byte_pos: 0 } }
    }

    /// A tokenizer at the start of the stylesheet `input`, past a leading
    /// byte-order mark.
    pub fn new_stylesheet(input: &str) -> (r: Tokenizer)
        requires
            fits_usize(input@),
        ensures
            r.input() == input@,
            r.position() == scan::start_index(input@),
    {
        let chars = str_to_chars(input);
        let bom = chars.len() > 0 && chars[0] == '\u{FEFF}';
        let pos: usize = if bom { 1 } else { 0 };
        let byte_pos = advance_bytes(&chars, 0, pos, 0);
        Tokenizer { chars, cursor: Cursor { pos, byte_pos } }
    }

    /// §4.3.1 "Consume a token": the next token, or `None` at the end.
    /// Tokenization never fails and always moves on: a token takes at least
    /// one character, `None` leaves the tokenizer at the end of its input,
    /// and a tokenizer at the end gives `None` again.
    pub fn next_token(&mut self) -> (r: Option<Token>)
        ensures
            final(self).input() == old(self).input(),
            r is Some ==> old(self).position() < final(self).position(),
            r is None ==> final(self).position() == final(self).input().len(),
            old(self).position() >= old(self).input().len() ==> r is None,
            ({
                let n = scan::next_token(old(self).input(), old(self).position());
                match r {
                    Some(t) => n is Some && t@ == n.unwrap().0 && final(self).position() == n.unwrap().2,
                    None => n is None && final(self).position() == scan::skip_comments(
                        old(self).input(),
                        old(self).position(),
                    ),
                }
            }),
    {
        proof {
            use_type_invariant(&*self);
        }
        match self.next_token_spanned() {
            Some(t) => Some(t.node),
            None => None,
        }
    }

    /// The next token with the byte span it was read from, or `None` at the
    /// end. Comments before the token are skipped first, so the span covers
    /// only the token itself.
    pub fn next_token_spanned(&mut self) -> (r: Option<Spanned<Token>>)
        ensures
            final(self).input() == old(self).input(),
            r is Some ==> old(self).position() < final(self).position(),
            r is None ==> final(self).position() == final(self).input().len(),
            old(self).position() >= old(self).input().len() ==> r is None,
            ({
                let n = scan::next_token(old(self).input(), old(self).position());
                match r {
                    Some(t) => {
                        &&& n is Some
                        &&& t.node@ == n.unwrap().0
                        &&& t.span == scan::token_span(old(self).input(), n.unwrap().1, n.unwrap().2)
                        &&& t.span.start == byte_offset(old(self).input(), n.unwrap().1)
                        &&& t.span.end == byte_offset(old(self).input(), n.unwrap().2)
                        &&& final(self).position() == n.unwrap().2
                        &&& old(self).position() <= n.unwrap().1 < n.unwrap().2
                    },
                    None => n is None && final(self).position() == scan::skip_comments(
                        old(self).input(),
                        old(self).position(),
                    ),
                }
            }),
    {
        proof {
            use_type_invariant(&*self);
        }
        let p = skip_comments(&self.chars, self.cursor.pos);
        let start = advance_bytes(&self.chars, self.cursor.pos, p, self.cursor.byte_pos);
        if p >= self.chars.len() {
            self.cursor = Cursor { pos: p, byte_pos: start };
            return None;
        }
        let (t, e) = token_at(&self.chars, p);
        let end = advance_bytes(&self.chars, p, e, start);
        self.cursor = Cursor { pos: e, byte_pos: end };
        Some(Spanned::new(t, Span::new(start, end)))
    }

    /// Every remaining token with its span.
    pub fn spanned(self) -> (r: Vec<Spanned<Token>>)
        ensures
            tokens_view(r@) == scan::tokens_from(self.input(), self.position()),
            spans_ordered(tokens_view(r@)),
            forall|j: int| 0 <= j < r@.len() ==> read_from(self.input(), (#[trigger] r@[j]).node@, r@[j].span),
            forall|i: int, j: int| 0 <= i < j < r@.len() ==> (#[trigger] r@[i]).span.end <= (#[trigger] r@[j]).span.start,
    {
        let ghost s = self.input();
        let ghost p0 = self.position();
        let mut t = self;
        let mut out: Vec<Spanned<Token>> = Vec::new();
        loop
            invariant
                t.input() == s,
                s == self.input(),
                p0 == self.position(),
                scan::tokens_from(s, p0) == tokens_view(out@) + scan::tokens_from(s, t.position()),
                spans_ordered(tokens_view(out@)),
                forall|j: int|
                    0 <= j < out@.len() ==> (#[trigger] out@[j]).span.start <= out@[j].span.end
                        && out@[j].span.end <= t.cursor.byte_pos,
                forall|j: int| 0 <= j < out@.len() ==> read_from(s, (#[trigger] out@[j]).node@, out@[j].span),
                forall|i: int, j: int|
                    0 <= i < j < out@.len() ==> (#[trigger] out@[i]).span.end <= (#[trigger] out@[j]).span.start,
            decreases s.len() - t.position(),
        {
            proof {
                use_type_invariant(&t);
            }
            let ghost before = t.position();
            let ghost before_bytes = t.cursor.byte_pos;
            assert(scan::tokens_from(s, p0) == tokens_view(out@) + scan::tokens_from(s, before));
            match t.next_token_spanned() {
                Some(tok) => {
                    let ghost out0 = out@;
                    proof {
                        use_type_invariant(&t);
                        let n = scan::next_token(s, before);
                        lemma_byte_offset_mono(s, before, n.unwrap().1);
                        lemma_byte_offset_mono(s, n.unwrap().1, n.unwrap().2);
                    }
                    out.push(tok);
                    proof {
                        use_type_invariant(&t);
                        let v = tokens_view(out@);
                        assert forall|i: int, j: int| 0 <= i <= j < v.len() implies (#[trigger] v[i]).1.start
                            <= (#[trigger] v[j]).1.start && v[i].1.end <= v[j].1.end by {
                            if j == v.len() - 1 && i < j {
                                assert(out@[i] == out0[i]);
                            }
                            if j < v.len() - 1 {
                                assert(v[i] == tokens_view(out0)[i]);
                                assert(v[j] == tokens_view(out0)[j]);
                            }
                        }
                        assert forall|j: int| 0 <= j < out@.len() implies (#[trigger] out@[j]).span.start
                            <= out@[j].span.end && out@[j].span.end <= t.cursor.byte_pos by {
                            if j < out@.len() - 1 {
                                assert(out@[j] == out0[j]);
                            }
                        }
                        let n = scan::next_token(s, before);
                        let a = n.unwrap().1;
                        let e = n.unwrap().2;
                        assert(scan::skip_comments(s, a) == a) by {
                            lemma_skip_comments_idem(s, before);
                        }
                        assert(scan::token_at(s, a) == (tok.node@, e));
                        assert(read_from(s, tok.node@, tok.span));
                        assert forall|j: int| 0 <= j < out@.len() implies read_from(s, (#[trigger] out@[j]).node@, out@[j].span) by {
                            if j < out@.len() - 1 {
                                assert(out@[j] == out0[j]);
                            }
                        }
                        assert forall|i: int, j: int| 0 <= i < j < out@.len() implies (#[trigger] out@[i]).span.end
                            <= (#[trigger] out@[j]).span.start by {
                            assert(out@[i] == out0[i]);
                            if j < out@.len() - 1 {
                                assert(out@[j] == out0[j]);
                            }
                        }
                        assert(tokens_view(out@) =~= tokens_view(out0).push((tok.node@, tok.span)));
                        assert(tokens_view(out0) + scan::tokens_from(s, before) =~= tokens_view(out@)
                            + scan::tokens_from(s, t.position()));
                    }
                },
                None => {
                    assert(tokens_view(out@) + scan::tokens_from(s, before) =~= tokens_view(out@));
                    return out;
                },
            }
        }
    }

    /// Every remaining token.
    pub fn tokens(self) -> (r: Vec<Token>)
        ensures
            r@.map_values(|t: Token| t@) == scan::tokens_from(self.input(), self.position()).map_values(
                |p: (SpecToken, Span)| p.0,
            ),
    {
        let ghost s = self.input();
        let ghost p0 = self.position();
        let mut t = self;
        let mut out: Vec<Token> = Vec::new();
        loop
            invariant
                t.input() == s,
                s == self.input(),
                p0 == self.position(),
                scan::tokens_from(s, p0).map_values(|p: (SpecToken, Span)| p.0) == out@.map_values(
                    |t: Token| t@,
                ) + scan::tokens_from(s, t.position()).map_values(|p: (SpecToken, Span)| p.0),
            decreases s.len() - t.position(),
        {
            proof {
                use_type_invariant(&t);
            }
            let ghost before = t.position();
            assert(scan::tokens_from(s, p0).map_values(|p: (SpecToken, Span)| p.0) == out@.map_values(
                |t: Token| t@,
            ) + scan::tokens_from(s, before).map_values(|p: (SpecToken, Span)| p.0));
            match t.next_token_spanned() {
                Some(tok) => {
                    let ghost out0 = out@;
                    let ghost sp = tok.span;
                    out.push(tok.node);
                    proof {
                        use_type_invariant(&t);
                        let rest = scan::tokens_from(s, t.position());
                        assert(scan::tokens_from(s, before) == seq![(out@.last()@, sp)] + rest);
                        assert(out@.map_values(|t: Token| t@) =~= out0.map_values(|t: Token| t@).push(
                            out@.last()@,
                        ));
                        assert((seq![(out@.last()@, sp)] + rest).map_values(
                            |p: (SpecToken, Span)| p.0,
                        ) =~= seq![out@.last()@] + rest.map_values(|p: (SpecToken, Span)| p.0));
                        assert(out0.map_values(|t: Token| t@) + (seq![out@.last()@]
                            + rest.map_values(|p: (SpecToken, Span)| p.0)) =~= out@.map_values(
                            |t: Token| t@,
                        ) + rest.map_values(|p: (SpecToken, Span)| p.0));
                    }
                },
                None => {
                    assert(out@.map_values(|t: Token| t@) + scan::tokens_from(s, before).map_values(
                        |p: (SpecToken, Span)| p.0,
                    ) =~= out@.map_values(|t: Token| t@));
                    return out;
                },
            }
        }
    }
}

/// The tokens of `input`, each with its byte span.
pub fn tokenize(input: &str) -> (r: Vec<Spanned<Token>>)
    requires
        fits_usize(input@),
    ensures
        tokens_view(r@) == scan::tokenize(input@),
        spans_ordered(tokens_view(r@)),
        forall|j: int| 0 <= j < r@.len() ==> read_from(input@, (#[trigger] r@[j]).node@, r@[j].span),
        forall|i: int, j: int| 0 <= i < j < r@.len() ==> (#[trigger] r@[i]).span.end <= (#[trigger] r@[j]).span.start,
{
    Tokenizer::new(input).spanned()
}

/// The tokens of the stylesheet `input`, each with its byte span: a
/// byte-order mark at its start is skipped.
pub fn tokenize_stylesheet(input: &str) -> (r: Vec<Spanned<Token>>)
    requires
        fits_usize(input@),
    ensures
        tokens_view(r@) == scan::stylesheet_tokens(input@),
        spans_ordered(tokens_view(r@)),
        forall|j: int| 0 <= j < r@.len() ==> read_from(input@, (#[trigger] r@[j]).node@, r@[j].span),
        forall|i: int, j: int| 0 <= i < j < r@.len() ==> (#[trigger] r@[i]).span.end <= (#[trigger] r@[j]).span.start,
{
    Tokenizer::new_stylesheet(input).spanned()
}

} // verus!
