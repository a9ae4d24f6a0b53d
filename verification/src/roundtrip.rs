//! What serialization promises: a serialized identifier, string or url
//! tokenizes back to a single token holding the value it was written from;
//! so does an at-keyword, a hash, a function name other than `url`, and a
//! number, percentage or dimension.
//!
//! The one change on the way back is that a NUL code point comes back as
//! U+FFFD, which is what the serializer writes for it (and what the tokenizer
//! reads a NUL as). A function named `url` comes back as a url token.
//!
//! Values written side by side come back as the values they were written
//! from (`lemma_values_kept_apart`): an identifier, at-keyword, number,
//! percentage, delimiter (but `\`), whitespace or punctuation token,
//! followed by any value whose own text reads as itself, reads back as the
//! two, the serializer putting an empty comment between them where they
//! would otherwise run together.

use vstd::prelude::*;

use crate::scan::{
    nul_fixed, digit_at, digits_end, escape, hex_at, hex_digit_value, hex_end, hex_value, ident_like_token,
    is_at, name_at, name_run, next_token, number_run, numeric_token, skip_comments, start_index,
    starts_ident_at, starts_number_at, string_run, token_at, token_span, tokenize, tokens_from,
    url_name, url_run, valid_escape_at, whitespace_end,
};
use crate::serialize::{
    escape_out, hex_char, hex_lower, ident_out, name_char_out, name_out, name_prefix_out,
    separator_out, spec_needs_control_escape, string_body_out, string_char_out, string_out,
    url_body_out, unit_out, url_char_out, url_out,
};
use crate::text::{
    eq_ignore_ascii_case, spec_is_digit, spec_is_hex_digit, spec_is_name, spec_is_name_start,
    spec_is_newline,
};
use crate::parser::ComponentValue;
use crate::serialize::{cv_out, last_tok, needs_sep, sep_out, token_out, vals_out};
use crate::locality::{lemma_tokens_from_shift, rest, token_kinds};
use crate::token::{NumericType, SpecToken, Token};

verus! {

/// `s` with each NUL replaced by U+FFFD.
pub open spec fn nul_replaced(s: Seq<char>) -> Seq<char> {
    s.map_values(|c: char| nul_fixed(c))
}

/// `a` stands in `t` from index `at` on.
pub open spec fn occurs_at(t: Seq<char>, a: Seq<char>, at: int) -> bool {
    &&& 0 <= at
    &&& at + a.len() <= t.len()
    &&& forall|j: int| 0 <= j < a.len() ==> #[trigger] t[at + j] == a[j]
}

pub(crate) proof fn lemma_occurs_split(t: Seq<char>, a: Seq<char>, b: Seq<char>, at: int)
    requires
        occurs_at(t, a + b, at),
    ensures
        occurs_at(t, a, at),
        occurs_at(t, b, at + a.len()),
{
    assert forall|j: int| 0 <= j < a.len() implies #[trigger] t[at + j] == a[j] by {
        assert((a + b)[j] == a[j]);
    }
    assert forall|j: int| 0 <= j < b.len() implies #[trigger] t[at + a.len() + j] == b[j] by {
        assert(t[at + (a.len() + j)] == (a + b)[a.len() + j]);
        assert(at + (a.len() + j) == at + a.len() + j);
    }
}

// ---------------------------------------------------------------------------
// Hex escapes
// ---------------------------------------------------------------------------

proof fn lemma_hex_char(d: nat)
    requires
        d < 16,
    ensures
        spec_is_hex_digit(hex_char(d)),
        spec_is_name(hex_char(d)),
        !spec_is_newline(hex_char(d)),
        hex_digit_value(hex_char(d)) == d,
{
}

proof fn lemma_hex_value_one(a: char)
    ensures
        hex_value(seq![a]) == hex_digit_value(a),
{
    reveal_with_fuel(hex_value, 2);
    assert(seq![a].drop_last() =~= Seq::<char>::empty());
}

proof fn lemma_hex_value_two(a: char, b: char)
    ensures
        hex_value(seq![a, b]) == hex_digit_value(a) * 16 + hex_digit_value(b),
{
    assert(seq![a, b].drop_last() =~= seq![a]);
    lemma_hex_value_one(a);
}

/// An escape written for a code point in `1..=0x7f` reads back as that code
/// point, and ends where the written text ends.
proof fn lemma_read_escape(t: Seq<char>, i: int, c: char)
    requires
        '\u{1}' <= c <= '\u{7f}',
        occurs_at(t, escape_out(c), i),
    ensures
        3 <= escape_out(c).len() <= 4,
        t[i] == '\\',
        valid_escape_at(t, i),
        escape(t, i + 1) == (c, i + escape_out(c).len()),
{
    let v = c as u32 as nat;
    let e = escape_out(c);
    if v < 16 {
        let h = hex_char(v);
        assert(hex_lower(v) == seq![h]);
        assert(e =~= seq!['\\', h, ' ']);
        assert(t[i + 0] == e[0]);
        assert(t[i + 1] == e[1]);
        assert(t[i + 2] == e[2]);
        lemma_hex_char(v);
        assert(hex_at(t, i + 1));
        assert(!hex_at(t, i + 2));
        assert(hex_end(t, i + 2, 5) == i + 2);
        assert(hex_end(t, i + 1, 6) == i + 2);
        assert(t.subrange(i + 1, i + 2) =~= seq![h]);
        lemma_hex_value_one(h);
    } else {
        let h1 = hex_char(v / 16);
        let h2 = hex_char(v % 16);
        assert(hex_lower(v / 16) == seq![h1]);
        assert(hex_lower(v) =~= seq![h1, h2]);
        assert(e =~= seq!['\\', h1, h2, ' ']);
        assert(t[i + 0] == e[0]);
        assert(t[i + 1] == e[1]);
        assert(t[i + 2] == e[2]);
        assert(t[i + 3] == e[3]);
        lemma_hex_char(v / 16);
        lemma_hex_char(v % 16);
        assert(hex_at(t, i + 1));
        assert(hex_at(t, i + 2));
        assert(!hex_at(t, i + 3));
        assert(hex_end(t, i + 3, 4) == i + 3);
        assert(hex_end(t, i + 2, 5) == i + 3);
        assert(hex_end(t, i + 1, 6) == i + 3);
        assert(t.subrange(i + 1, i + 3) =~= seq![h1, h2]);
        lemma_hex_value_two(h1, h2);
        assert((v / 16) * 16 + v % 16 == v);
    }
}

// ---------------------------------------------------------------------------
// Identifiers
// ---------------------------------------------------------------------------

proof fn lemma_name_prefix_grows(s: Seq<char>, k: int, m: int, b: bool)
    requires
        0 <= k <= m,
    ensures
        occurs_at(name_prefix_out(s, m, b), name_prefix_out(s, k, b), 0),
    decreases m - k,
{
    if k < m {
        lemma_name_prefix_grows(s, k, m - 1, b);
        let big = name_prefix_out(s, m, b);
        let mid = name_prefix_out(s, m - 1, b);
        assert(big == mid + name_char_out(s, m - 1, b));
        assert forall|j: int| 0 <= j < name_prefix_out(s, k, b).len() implies #[trigger] big[0 + j]
            == name_prefix_out(s, k, b)[j] by {
            assert(mid[0 + j] == name_prefix_out(s, k, b)[j]);
        }
    }
}

/// The `k`-th character's text stands in the written name right after the
/// text of the characters before it.
pub(crate) proof fn lemma_name_chunk_at(s: Seq<char>, k: int, b: bool)
    requires
        0 <= k < s.len(),
    ensures
        occurs_at(
            name_prefix_out(s, s.len() as int, b),
            name_char_out(s, k, b),
            name_prefix_out(s, k, b).len() as int,
        ),
        name_prefix_out(s, k + 1, b).len() == name_prefix_out(s, k, b).len() + name_char_out(
            s,
            k,
            b,
        ).len(),
{
    lemma_name_prefix_grows(s, k + 1, s.len() as int, b);
    lemma_occurs_split(
        name_prefix_out(s, s.len() as int, b),
        name_prefix_out(s, k, b),
        name_char_out(s, k, b),
        0,
    );
}

/// Reading one written character of a name: the name continues with the
/// character (NUL read as U+FFFD) from just past its text.
proof fn lemma_name_step(t: Seq<char>, p: int, s: Seq<char>, k: int, b: bool)
    requires
        0 <= k < s.len(),
        occurs_at(t, name_char_out(s, k, b), p),
    ensures
        name_char_out(s, k, b).len() >= 1,
        name_run(t, p) == (
            seq![nul_fixed(s[k])] + name_run(t, p + name_char_out(s, k, b).len()).0,
            name_run(t, p + name_char_out(s, k, b).len()).1,
        ),
{
    let c = s[k];
    let out = name_char_out(s, k, b);
    if c == '\0' {
        assert(t[p + 0] == out[0]);
    } else if spec_needs_control_escape(c) {
        lemma_read_escape(t, p, c);
    } else if b && spec_is_digit(c) && (k == 0 || (k == 1 && s[0] == '-')) {
        lemma_read_escape(t, p, c);
    } else if spec_is_name(c) {
        assert(t[p + 0] == out[0]);
    } else {
        assert(t[p + 0] == out[0]);
        assert(t[p + 1] == out[1]);
        assert(!spec_is_hex_digit(c));
        assert(!spec_is_newline(c));
        assert(escape(t, p + 1) == (c, p + 2));
    }
}

/// `a` stands in `t` at `base`, and `c` in `a` at `p`: so `c` stands in `t`
/// at `base + p`.
pub(crate) proof fn lemma_occurs_trans(t: Seq<char>, a: Seq<char>, c: Seq<char>, base: int, p: int)
    requires
        occurs_at(t, a, base),
        occurs_at(a, c, p),
    ensures
        occurs_at(t, c, base + p),
{
    assert forall|j: int| 0 <= j < c.len() implies #[trigger] t[base + p + j] == c[j] by {
        assert(a[p + j] == c[j]);
        assert(t[base + (p + j)] == a[p + j]);
        assert(base + (p + j) == base + p + j);
    }
}

/// Nothing at `e` continues a name: neither a name character nor an escape.
pub open spec fn name_stops(t: Seq<char>, e: int) -> bool {
    !name_at(t, e) && !valid_escape_at(t, e)
}

/// Reading the written name of `s`, standing in `t` at `base`, from the text
/// of its `k`-th character on gives the rest of `s`, and ends where the text
/// ends.
proof fn lemma_name_run_from(t: Seq<char>, base: int, s: Seq<char>, k: int, b: bool)
    requires
        0 <= k <= s.len(),
        occurs_at(t, name_prefix_out(s, s.len() as int, b), base),
        name_stops(t, base + name_prefix_out(s, s.len() as int, b).len()),
    ensures
        name_run(t, base + name_prefix_out(s, k, b).len()) == (
            nul_replaced(s).subrange(k, s.len() as int),
            base + name_prefix_out(s, s.len() as int, b).len(),
        ),
    decreases s.len() - k,
{
    let all = name_prefix_out(s, s.len() as int, b);
    let p = base + name_prefix_out(s, k, b).len();
    if k == s.len() {
        assert(nul_replaced(s).subrange(k, s.len() as int) =~= Seq::<char>::empty());
    } else {
        lemma_name_chunk_at(s, k, b);
        lemma_occurs_trans(t, all, name_char_out(s, k, b), base, name_prefix_out(s, k, b).len() as int);
        lemma_name_step(t, p, s, k, b);
        lemma_name_run_from(t, base, s, k + 1, b);
        assert(nul_replaced(s).subrange(k, s.len() as int) =~= seq![nul_fixed(s[k])]
            + nul_replaced(s).subrange(k + 1, s.len() as int));
    }
}

/// What the tokenizer sees at the start of a written identifier, standing in
/// `t` at `base`: it starts an identifier and not a number, it is not `-->`
/// unless a `>` follows the text, and its first character is `\`, `-` or a
/// name-start character (the identifier's own, U+FFFD for a NUL).
pub(crate) proof fn lemma_ident_head(t: Seq<char>, base: int, s: Seq<char>)
    requires
        s.len() > 0,
        occurs_at(t, ident_out(s), base),
    ensures
        starts_ident_at(t, base),
        !starts_number_at(t, base),
        !is_at(t, base + ident_out(s).len(), '>') ==> !(is_at(t, base, '-') && is_at(t, base + 1, '-')
            && is_at(t, base + 2, '>')),
        s != seq!['-', '-'] ==> !(is_at(t, base, '-') && is_at(t, base + 1, '-') && is_at(t, base + 2, '>')),
        t[base] == '\\' || t[base] == '-' || spec_is_name_start(t[base]),
        t[base] == '\\' || t[base] == '-' || t[base] == nul_fixed(s[0]),
{
    let n = s.len() as int;
    let out = ident_out(s);
    if s == seq!['-'] {
        assert(out == seq!['\\', '-']);
        assert(t[base + 0] == out[0]);
        assert(t[base + 1] == out[1]);
    } else {
        lemma_name_chunk_at(s, 0, true);
        lemma_occurs_trans(t, out, name_char_out(s, 0, true), base, 0);
        let c0 = name_char_out(s, 0, true);
        assert(t[base + 0] == c0[0]);
        let c = s[0];
        if c == '\0' || spec_needs_control_escape(c) || spec_is_digit(c) || !spec_is_name(c) {
            if spec_needs_control_escape(c) || (spec_is_digit(c) && c != '\0') {
                lemma_read_escape(t, base, c);
            } else if c != '\0' {
                assert(t[base + 1] == c0[1]);
            }
        } else if c == '-' {
            // `-` then something that is neither a digit nor `.`, and no `->`.
            assert(n >= 2) by {
                if n == 1 {
                    assert(s =~= seq!['-']);
                }
            }
            lemma_name_chunk_at(s, 1, true);
            let p1 = name_prefix_out(s, 1, true).len() as int;
            assert(p1 == 1);
            let c1 = name_char_out(s, 1, true);
            lemma_occurs_trans(t, out, c1, base, 1);
            assert(t[base + 1 + 0] == c1[0]);
            let d = s[1];
            if spec_needs_control_escape(d) || (spec_is_digit(d) && d != '\0') {
                lemma_read_escape(t, base + 1, d);
            } else if d != '\0' && !spec_is_name(d) {
                assert(t[base + 1 + 1] == c1[1]);
            }
            if n >= 3 {
                lemma_name_chunk_at(s, 2, true);
                let c2 = name_char_out(s, 2, true);
                let p2 = name_prefix_out(s, 2, true).len() as int;
                lemma_occurs_trans(t, out, c2, base, p2);
                assert(t[base + p2 + 0] == c2[0]);
                assert(c2[0] != '>');
            } else if d == '-' {
                assert(out.len() == 2);
                assert(s =~= seq!['-', '-']);
            }
        }
    }
}

/// A written name standing in `t` at `base`, followed by nothing that
/// continues a name, reads back as the name.
pub(crate) proof fn lemma_read_name(t: Seq<char>, base: int, s: Seq<char>, b: bool)
    requires
        s.len() > 0,
        occurs_at(t, name_out(s, b), base),
        name_stops(t, base + name_out(s, b).len()),
    ensures
        name_run(t, base) == (nul_replaced(s), base + name_out(s, b).len()),
        name_at(t, base) || valid_escape_at(t, base),
{
    let out = name_out(s, b);
    if s == seq!['-'] {
        assert(out == seq!['\\', '-']);
        assert(t[base + 0] == out[0]);
        assert(t[base + 1] == out[1]);
        assert(escape(t, base + 1) == ('-', base + 2));
        assert(name_run(t, base + 2) == (Seq::<char>::empty(), base + 2));
        assert(nul_replaced(s) =~= seq!['-']);
        assert(seq!['-'] + Seq::<char>::empty() =~= seq!['-']);
    } else {
        lemma_name_run_from(t, base, s, 0, b);
        assert(nul_replaced(s).subrange(0, s.len() as int) =~= nul_replaced(s));
        lemma_name_chunk_at(s, 0, b);
        lemma_occurs_trans(t, out, name_char_out(s, 0, b), base, 0);
        lemma_name_step(t, base, s, 0, b);
        let c = s[0];
        let c0 = name_char_out(s, 0, b);
        assert(t[base + 0] == c0[0]);
        if c != '\0' && !spec_needs_control_escape(c) && !(b && spec_is_digit(c)) && !spec_is_name(c) {
            assert(t[base + 1] == c0[1]);
        }
    }
}

/// The first token of `t` is read at index 0 and ends at `e`, and nothing
/// follows it: `t` tokenizes to that one token.
proof fn lemma_single_token(t: Seq<char>, tok: SpecToken)
    requires
        t.len() > 0,
        skip_comments(t, 0) == 0,
        token_at(t, 0) == (tok, t.len() as int),
    ensures
        tokenize(t) == seq![(tok, token_span(t, 0, t.len() as int))],
{
    assert(skip_comments(t, t.len() as int) == t.len());
    assert(next_token(t, t.len() as int) is None);
    assert(tokens_from(t, t.len() as int) =~= Seq::<(SpecToken, crate::span::Span)>::empty());
    assert(next_token(t, 0) == Some((tok, 0int, t.len() as int)));
}

/// A written identifier standing in `t` at `base` is read there as an
/// identifier-like token, when no `>` follows it.
pub(crate) proof fn lemma_ident_dispatch_at(t: Seq<char>, base: int, s: Seq<char>)
    requires
        s.len() > 0,
        occurs_at(t, ident_out(s), base),
        s != seq!['-', '-'] || !is_at(t, base + ident_out(s).len(), '>'),
    ensures
        token_at(t, base) == ident_like_token(t, base),
        skip_comments(t, base) == base,
{
    lemma_ident_head(t, base, s);
}

proof fn lemma_vals_out_pair(x: ComponentValue, y: ComponentValue)
    ensures
        vals_out(seq![x, y]) == cv_out(x) + sep_out(last_tok(x), y) + cv_out(y),
{
    let v = seq![x, y];
    assert(v.drop_last() =~= seq![x]);
    assert(seq![x].drop_last() =~= Seq::<ComponentValue>::empty());
    assert(vals_out(Seq::<ComponentValue>::empty()) == Seq::<char>::empty());
    assert(seq![x].last() == x);
    assert(vals_out(seq![x]) =~= Seq::<char>::empty() + Seq::<char>::empty() + cv_out(x));
    assert(vals_out(seq![x]) =~= cv_out(x));
    assert(v.last() == y && v[v.len() - 2] == x);
}

/// The separating empty comment, then a text `w` running to the end of `t`:
/// from the comment on, what is read is what `w` reads as on its own.
proof fn lemma_comment_then_text_kinds(t: Seq<char>, p: int, w: Seq<char>, tok: SpecToken)
    requires
        0 <= p,
        occurs_at(t, separator_out() + w, p),
        t.len() == p + 4 + w.len(),
        token_kinds(tokenize(w)) == seq![tok],
    ensures
        token_kinds(tokens_from(t, p)) == seq![tok],
{
    let q = p + 4;
    lemma_occurs_split(t, separator_out(), w, p);
    assert(t[p + 0] == '/' && t[p + 1] == '*' && t[p + 2] == '*' && t[p + 3] == '/');
    assert(crate::locality::rest(t, q) =~= w) by {
        assert forall|j: int| 0 <= j < w.len() implies #[trigger] crate::locality::rest(t, q)[j] == w[j] by {
            assert(t[q + j] == w[j]);
        }
    }
    lemma_tokens_from_shift(t, q, q);
    assert(token_kinds(tokens_from(t, q)) == seq![tok]);
    assert(crate::scan::comment_close(t, p + 2) == q);
    assert(skip_comments(t, p) == skip_comments(t, q));
    assert(next_token(t, p) == next_token(t, q));
    assert(tokens_from(t, q).len() > 0);
    assert(tokens_from(t, p) == tokens_from(t, q));
}

/// The values whose written text, followed by a text that does not run
/// into it, is read back as the value (see [`read_back`]): identifiers and
/// at-keywords, numbers and percentages whose text reads as one number,
/// the delimiters that read as themselves (but `\`), whitespace and the
/// punctuation tokens.
pub open spec fn stops_at_comment(a: SpecToken) -> bool {
    match a {
        SpecToken::Ident(x) => x.len() > 0,
        SpecToken::AtKeyword(x) => x.len() > 0,
        SpecToken::Number { num_type, repr } => starts_number_at(repr, 0) && number_run(repr, 0) == (
            num_type,
            repr.len() as int,
        ),
        SpecToken::Percentage { repr } => starts_number_at(repr, 0) && number_run(repr, 0).1 == repr.len(),
        SpecToken::Delim(c) => c != '\\' && token_at(seq![c], 0) == (SpecToken::Delim(c), 1int),
        SpecToken::Whitespace => true,
        SpecToken::Colon => true,
        SpecToken::Semicolon => true,
        SpecToken::Comma => true,
        SpecToken::LeftSquare => true,
        SpecToken::RightSquare => true,
        SpecToken::LeftParen => true,
        SpecToken::RightParen => true,
        SpecToken::LeftCurly => true,
        SpecToken::RightCurly => true,
        SpecToken::Cdo => true,
        SpecToken::Cdc => true,
        _ => false,
    }
}

/// What such a value reads back as: itself, a NUL in its name as U+FFFD.
pub open spec fn read_back(a: SpecToken) -> SpecToken {
    match a {
        SpecToken::Ident(x) => SpecToken::Ident(nul_replaced(x)),
        SpecToken::AtKeyword(x) => SpecToken::AtKeyword(nul_replaced(x)),
        _ => a,
    }
}

/// What may follow the written text of such a value without running into
/// it: the text `z` that comes right after it.
pub open spec fn follows_cleanly(a: SpecToken, z: Seq<char>) -> bool {
    match a {
        SpecToken::Ident(x) => {
            &&& !name_at(z, 0)
            &&& !valid_escape_at(z, 0)
            &&& !is_at(z, 0, '(')
            &&& (x != seq!['-', '-'] || !is_at(z, 0, '>'))
        },
        SpecToken::AtKeyword(_) => !name_at(z, 0) && !valid_escape_at(z, 0),
        SpecToken::Number { .. } => stops_number(z) && !starts_ident_at(z, 0) && !is_at(z, 0, '%'),
        SpecToken::Delim(c) => {
            if c == '-' {
                &&& !digit_at(z, 0)
                &&& !(is_at(z, 0, '.') && digit_at(z, 1))
                &&& !(is_at(z, 0, '-') && is_at(z, 1, '>'))
                &&& !crate::scan::name_start_at(z, 0)
                &&& !is_at(z, 0, '-')
                &&& !valid_escape_at(z, 0)
            } else if c == '#' {
                !name_at(z, 0) && !valid_escape_at(z, 0)
            } else if c == '@' {
                !starts_ident_at(z, 0)
            } else if c == '.' {
                !digit_at(z, 0)
            } else if c == '+' {
                !digit_at(z, 0) && !(is_at(z, 0, '.') && digit_at(z, 1))
            } else if c == '/' {
                !is_at(z, 0, '*')
            } else if c == '<' {
                !(is_at(z, 0, '!') && is_at(z, 1, '-') && is_at(z, 2, '-'))
            } else {
                true
            }
        },
        SpecToken::Whitespace => !crate::scan::whitespace_at(z, 0),
        _ => true,
    }
}

/// Such a value, written and followed by a text that does not run into it,
/// is read as itself up to where its text ends.
pub(crate) proof fn lemma_first_reads_back(a: SpecToken, z: Seq<char>)
    requires
        stops_at_comment(a),
        follows_cleanly(a, z),
    ensures
        next_token(token_out(a) + z, 0) == Some((read_back(a), 0int, token_out(a).len() as int)),
{
    let oa = token_out(a);
    let t = oa + z;
    let p = oa.len() as int;
    assert(crate::locality::rest(t, p) =~= z);
    crate::locality::lemma_tests_shift(t, p, p);
    assert forall|j: int| 0 <= j < p implies #[trigger] t[j] == oa[j] by {}
    assert(occurs_at(t, oa, 0)) by {
        assert forall|j: int| 0 <= j < oa.len() implies #[trigger] t[0 + j] == oa[j] by {}
    }
    match a {
        SpecToken::Ident(x) => {
            assert(is_at(t, p + 0, '>') == is_at(z, 0, '>'));
            lemma_ident_dispatch_at(t, 0, x);
            assert(name_at(t, p + 0) == name_at(z, 0));
            assert(valid_escape_at(t, p + 0) == valid_escape_at(z, 0));
            assert(name_stops(t, p));
            lemma_read_name(t, 0, x, true);
            assert(is_at(t, p + 0, '(') == is_at(z, 0, '('));
        },
        SpecToken::AtKeyword(x) => {
            let w = ident_out(x);
            assert(occurs_at(t, w, 1)) by {
                assert forall|j: int| 0 <= j < w.len() implies #[trigger] t[1 + j] == w[j] by {
                    assert(t[1 + j] == oa[1 + j]);
                }
            }
            assert(t[0] == oa[0]);
            lemma_ident_head(t, 1, x);
            assert(name_at(t, p + 0) == name_at(z, 0));
            assert(valid_escape_at(t, p + 0) == valid_escape_at(z, 0));
            assert(name_stops(t, 1 + w.len() as int));
            lemma_read_name(t, 1, x, true);
        },
        SpecToken::Number { num_type, repr } => {
            assert(oa == repr);
            lemma_number_run_local(repr, z);
            assert(t.subrange(0, p) =~= repr);
            assert(starts_number_at(t, 0)) by {
                assert(t[0] == repr[0]);
                if p > 1 {
                    assert(t[1] == repr[1]);
                }
                if p > 2 {
                    assert(t[2] == repr[2]);
                }
            }
            assert(starts_ident_at(t, p + 0) == starts_ident_at(z, 0));
            assert(is_at(t, p + 0, '%') == is_at(z, 0, '%'));
            assert(numeric_token(t, 0) == (a, p));
            assert(t[0] != '/');
        },
        SpecToken::Percentage { repr } => {
            assert(oa == repr.push('%'));
            let w = seq!['%'] + z;
            assert(t =~= repr + w);
            assert(stops_number(w));
            lemma_number_run_local(repr, w);
            assert(t.subrange(0, repr.len() as int) =~= repr);
            assert(starts_number_at(t, 0)) by {
                assert(t[0] == repr[0]);
                if repr.len() > 1 {
                    assert(t[1] == repr[1]);
                }
                if repr.len() > 2 {
                    assert(t[2] == repr[2]);
                }
            }
            assert(t[repr.len() as int] == '%');
            assert(!starts_ident_at(t, repr.len() as int));
            assert(numeric_token(t, 0) == (a, p));
            assert(t[0] != '/');
        },
        SpecToken::Whitespace => {
            assert(t[0] == ' ' && p == 1);
            assert(crate::scan::whitespace_at(t, p + 0) == crate::scan::whitespace_at(z, 0));
            assert(whitespace_end(t, 1) == 1);
        },
        SpecToken::Cdc => {
            assert(t[0] == '-' && t[1] == '-' && t[2] == '>' && p == 3);
        },
        SpecToken::Cdo => {
            assert(t[0] == '<' && t[1] == '!' && t[2] == '-' && t[3] == '-' && p == 4);
        },
        SpecToken::Delim(c) => {
            assert(t[0] == c && p == 1);
            assert(is_at(t, p + 0, '*') == is_at(z, 0, '*'));
            assert(is_at(t, p + 0, '!') == is_at(z, 0, '!'));
            assert(is_at(t, p + 1, '-') == is_at(z, 1, '-'));
            assert(is_at(t, p + 2, '-') == is_at(z, 2, '-'));
            assert(digit_at(t, p + 0) == digit_at(z, 0));
            assert(digit_at(t, p + 1) == digit_at(z, 1));
            assert(is_at(t, p + 0, '.') == is_at(z, 0, '.'));
            assert(is_at(t, p + 0, '-') == is_at(z, 0, '-'));
            assert(is_at(t, p + 1, '>') == is_at(z, 1, '>'));
            assert(name_at(t, p + 0) == name_at(z, 0));
            assert(crate::scan::name_start_at(t, p + 0) == crate::scan::name_start_at(z, 0));
            assert(valid_escape_at(t, p + 0) == valid_escape_at(z, 0));
            assert(starts_ident_at(t, p + 0) == starts_ident_at(z, 0));
        },
        _ => {},
    }
}

/// The written text of `b` is read, from its start, as `b` itself, ending
/// where the text ends.
pub open spec fn reads_as_itself(b: SpecToken) -> bool {
    let z = token_out(b);
    &&& z.len() > 0
    &&& skip_comments(z, 0) == 0
    &&& token_at(z, 0) == (b, z.len() as int)
}

/// Such a value's text tokenizes to that one value.
proof fn lemma_reads_as_itself_alone(b: SpecToken)
    requires
        reads_as_itself(b),
    ensures
        token_kinds(tokenize(token_out(b))) == seq![b],
{
    let z = token_out(b);
    let n = z.len() as int;
    assert(next_token(z, 0) == Some((b, 0int, n)));
    assert(skip_comments(z, n) == n);
    assert(next_token(z, n) is None);
    assert(tokens_from(z, n) =~= Seq::<(SpecToken, crate::span::Span)>::empty());
    assert(token_kinds(tokens_from(z, 0)) =~= seq![b]);
}

/// Where no separator is written, the next value's text does not run into
/// the one before it.
proof fn lemma_clean_without_separator(a: SpecToken, b: SpecToken)
    requires
        stops_at_comment(a),
        !needs_sep(a, b),
        reads_as_itself(b),
    ensures
        follows_cleanly(a, token_out(b)),
{
    let z = token_out(b);
    assert(token_at(z, 0).0 == b);
    if b is Number || b is Percentage || b is Dimension {
        let repr = match b {
            SpecToken::Number { repr, .. } => repr,
            SpecToken::Percentage { repr } => repr,
            SpecToken::Dimension { repr, .. } => repr,
            _ => seq![],
        };
        assert(starts_number_at(z, 0));
    }
}

/// The separating comment does not run into any such value.
pub(crate) proof fn lemma_clean_before_separator(a: SpecToken, w: Seq<char>)
    requires
        stops_at_comment(a),
    ensures
        follows_cleanly(a, separator_out() + w),
{
    let z = separator_out() + w;
    assert(z[0] == '/' && z[1] == '*' && z[2] == '*');
}

pub(crate) proof fn lemma_first_then_rest(t: Seq<char>, p: int, tok: SpecToken)
    requires
        0 < p <= t.len(),
        next_token(t, 0) == Some((tok, 0int, p)),
    ensures
        token_kinds(tokens_from(t, 0)) == seq![tok] + token_kinds(tokens_from(t, p)),
{
    assert(token_kinds(tokens_from(t, 0)) =~= seq![tok] + token_kinds(tokens_from(t, p)));
}

/// What follows the first value's text, `z` (the second value's text, with
/// or without the separator before it), reads as the second value.
proof fn lemma_second_reads_back(oa: Seq<char>, z: Seq<char>, ob: Seq<char>, b: SpecToken, sep: bool)
    requires
        token_kinds(tokenize(ob)) == seq![b],
        z == (if sep { separator_out() + ob } else { ob }),
    ensures
        token_kinds(tokens_from(oa + z, oa.len() as int)) == seq![b],
{
    let t = oa + z;
    let p = oa.len() as int;
    assert(crate::locality::rest(t, p) =~= z);
    if sep {
        assert(occurs_at(t, separator_out() + ob, p)) by {
            assert forall|j: int| 0 <= j < (separator_out() + ob).len() implies #[trigger] t[p + j] == (
            separator_out() + ob)[j] by {}
        }
        lemma_comment_then_text_kinds(t, p, ob, b);
    } else {
        lemma_tokens_from_shift(t, p, p);
    }
}

/// Values written side by side read back as the values they were written
/// from: an identifier, an at-keyword, a number, or one of `-`, `#` and
/// `@`, followed by any value whose own text reads as itself, come back as
/// themselves, whether or not the serializer needed a comment between them.
#[verifier::rlimit(50)]
pub proof fn lemma_values_kept_apart(a: Token, b: Token)
    requires
        stops_at_comment(a@),
        reads_as_itself(b@),
    ensures
        token_kinds(tokenize(vals_out(seq![ComponentValue::Token(a), ComponentValue::Token(b)]))) == seq![
            read_back(a@),
            b@,
        ],
{
    let oa = token_out(a@);
    let ob = token_out(b@);
    let sep = needs_sep(a@, b@);
    lemma_vals_out_pair(ComponentValue::Token(a), ComponentValue::Token(b));
    lemma_reads_as_itself_alone(b@);
    let z = if sep { separator_out() + ob } else { ob };
    assert(sep_out(last_tok(ComponentValue::Token(a)), ComponentValue::Token(b)) + ob =~= z);
    assert(vals_out(seq![ComponentValue::Token(a), ComponentValue::Token(b)]) =~= oa + z);
    if sep {
        lemma_clean_before_separator(a@, ob);
    } else {
        lemma_clean_without_separator(a@, b@);
    }
    lemma_first_reads_back(a@, z);
    lemma_second_reads_back(oa, z, ob, b@, sep);
    lemma_first_then_rest(oa + z, oa.len() as int, read_back(a@));
}

/// A written identifier tokenizes back to one identifier token holding the
/// identifier, for every non-empty identifier (NUL comes back as U+FFFD).
pub proof fn lemma_ident_round_trip(s: Seq<char>)
    requires
        s.len() > 0,
    ensures
        tokenize(ident_out(s)) == seq![
            (SpecToken::Ident(nul_replaced(s)), token_span(ident_out(s), 0, ident_out(s).len() as int)),
        ],
{
    let t = ident_out(s);
    assert(occurs_at(t, t, 0));
    lemma_ident_dispatch_at(t, 0, s);
    lemma_read_name(t, 0, s, true);
    lemma_single_token(t, SpecToken::Ident(nul_replaced(s)));
}

/// The name `url`, in any ASCII case.
pub open spec fn is_url_name(s: Seq<char>) -> bool {
    eq_ignore_ascii_case(s, url_name())
}

/// A written function token (its name, then `(`) tokenizes back to one
/// function token with that name, for every non-empty name that is not
/// `url` in any case (which opens a url token instead).
pub proof fn lemma_function_round_trip(s: Seq<char>)
    requires
        s.len() > 0,
        !is_url_name(nul_replaced(s)),
    ensures
        tokenize(ident_out(s).push('(')) == seq![
            (
                SpecToken::Function(nul_replaced(s)),
                token_span(ident_out(s).push('('), 0, ident_out(s).len() + 1int),
            ),
        ],
{
    let w = ident_out(s);
    let t = w.push('(');
    assert(occurs_at(t, w, 0)) by {
        assert forall|j: int| 0 <= j < w.len() implies #[trigger] t[0 + j] == w[j] by {}
    }
    assert(t[w.len() as int] == '(');
    lemma_ident_dispatch_at(t, 0, s);
    lemma_read_name(t, 0, s, true);
    lemma_single_token(t, SpecToken::Function(nul_replaced(s)));
}

/// A written at-keyword (`@` and the written name) tokenizes back to one
/// at-keyword token with that name, for every non-empty name.
pub proof fn lemma_at_keyword_round_trip(s: Seq<char>)
    requires
        s.len() > 0,
    ensures
        tokenize(seq!['@'] + ident_out(s)) == seq![
            (
                SpecToken::AtKeyword(nul_replaced(s)),
                token_span(seq!['@'] + ident_out(s), 0, ident_out(s).len() + 1int),
            ),
        ],
{
    let w = ident_out(s);
    let t = seq!['@'] + w;
    assert(occurs_at(t, w, 1)) by {
        assert forall|j: int| 0 <= j < w.len() implies #[trigger] t[1 + j] == w[j] by {}
    }
    lemma_ident_head(t, 1, s);
    lemma_read_name(t, 1, s, true);
    assert(t[0] == '@');
    lemma_single_token(t, SpecToken::AtKeyword(nul_replaced(s)));
}

/// A written hash token (`#` and its written value) tokenizes back to one
/// hash token with that value, for every non-empty value. Its flag comes back
/// set when it was set; when it was not, it comes back as whether the written
/// value starts an identifier.
pub proof fn lemma_hash_round_trip(v: Seq<char>, is_id: bool)
    requires
        v.len() > 0,
    ensures
        tokenize(seq!['#'] + name_out(v, is_id)) == seq![
            (
                SpecToken::Hash {
                    value: nul_replaced(v),
                    is_id: is_id || starts_ident_at(seq!['#'] + name_out(v, is_id), 1),
                },
                token_span(seq!['#'] + name_out(v, is_id), 0, name_out(v, is_id).len() + 1int),
            ),
        ],
{
    let w = name_out(v, is_id);
    let t = seq!['#'] + w;
    assert(occurs_at(t, w, 1)) by {
        assert forall|j: int| 0 <= j < w.len() implies #[trigger] t[1 + j] == w[j] by {}
    }
    lemma_read_name(t, 1, v, is_id);
    if is_id {
        lemma_ident_head(t, 1, v);
    }
    assert(t[0] == '#');
    lemma_single_token(
        t,
        SpecToken::Hash { value: nul_replaced(v), is_id: is_id || starts_ident_at(t, 1) },
    );
}

// ---------------------------------------------------------------------------
// Strings
// ---------------------------------------------------------------------------

proof fn lemma_string_body_grows(s: Seq<char>, k: int, m: int)
    requires
        0 <= k <= m <= s.len(),
    ensures
        occurs_at(string_body_out(s.take(m)), string_body_out(s.take(k)), 0),
    decreases m - k,
{
    if k < m {
        lemma_string_body_grows(s, k, m - 1);
        let big = string_body_out(s.take(m));
        let mid = string_body_out(s.take(m - 1));
        assert(s.take(m).drop_last() =~= s.take(m - 1));
        assert(big == mid + string_char_out(s[m - 1]));
        assert forall|j: int| 0 <= j < string_body_out(s.take(k)).len() implies #[trigger] big[0
            + j] == string_body_out(s.take(k))[j] by {
            assert(mid[0 + j] == string_body_out(s.take(k))[j]);
        }
    }
}

/// Where the text of the `k`-th character starts in a written string.
pub open spec fn string_pos(s: Seq<char>, k: int) -> int {
    1 + string_body_out(s.take(k)).len() as int
}

proof fn lemma_string_chunk_at(s: Seq<char>, k: int)
    requires
        0 <= k <= s.len(),
    ensures
        string_out(s).len() == string_pos(s, s.len() as int) + 1,
        string_out(s)[string_pos(s, s.len() as int)] == '"',
        k < s.len() ==> occurs_at(string_out(s), string_char_out(s[k]), string_pos(s, k)),
        k < s.len() ==> string_pos(s, k + 1) == string_pos(s, k) + string_char_out(s[k]).len(),
{
    let t = string_out(s);
    let n = s.len() as int;
    let body = string_body_out(s);
    assert(s.take(n) =~= s);
    assert(t[string_pos(s, n)] == '"');
    if k < n {
        lemma_string_body_grows(s, k + 1, n);
        assert(s.take(k + 1).drop_last() =~= s.take(k));
        let pre = string_body_out(s.take(k));
        let chunk = string_char_out(s[k]);
        assert(string_body_out(s.take(k + 1)) == pre + chunk);
        assert forall|j: int| 0 <= j < chunk.len() implies #[trigger] t[string_pos(s, k) + j]
            == chunk[j] by {
            assert(body[0 + (pre.len() + j)] == (pre + chunk)[pre.len() + j]);
            assert(t[1 + (pre.len() + j)] == body[pre.len() + j]);
        }
    }
}

/// Reading one written character of a string.
proof fn lemma_string_step(t: Seq<char>, p: int, c: char)
    requires
        occurs_at(t, string_char_out(c), p),
    ensures
        string_char_out(c).len() >= 1,
        string_run(t, p, '"') == (
            crate::scan::prepend(nul_fixed(c), string_run(t, p + string_char_out(c).len(), '"').0),
            string_run(t, p + string_char_out(c).len(), '"').1,
        ),
{
    let out = string_char_out(c);
    assert(t[p + 0] == out[0]);
    if c == '\0' {
    } else if c == '"' || c == '\\' {
        assert(t[p + 1] == out[1]);
        assert(escape(t, p + 1) == (c, p + 2));
    } else if spec_needs_control_escape(c) {
        lemma_read_escape(t, p, c);
    }
}

proof fn lemma_string_run_from(s: Seq<char>, k: int)
    requires
        0 <= k <= s.len(),
    ensures
        string_run(string_out(s), string_pos(s, k), '"') == (
            Some(nul_replaced(s).subrange(k, s.len() as int)),
            string_out(s).len() as int,
        ),
    decreases s.len() - k,
{
    let t = string_out(s);
    lemma_string_chunk_at(s, k);
    if k == s.len() {
        assert(nul_replaced(s).subrange(k, s.len() as int) =~= Seq::<char>::empty());
    } else {
        lemma_string_step(t, string_pos(s, k), s[k]);
        lemma_string_run_from(s, k + 1);
        assert(nul_replaced(s).subrange(k, s.len() as int) =~= seq![nul_fixed(s[k])]
            + nul_replaced(s).subrange(k + 1, s.len() as int));
    }
}

/// A written string tokenizes back to one string token holding the string,
/// for every string (NUL comes back as U+FFFD).
pub proof fn lemma_string_round_trip(s: Seq<char>)
    ensures
        tokenize(string_out(s)) == seq![
            (SpecToken::String(nul_replaced(s)), token_span(string_out(s), 0, string_out(s).len() as int)),
        ],
{
    let t = string_out(s);
    lemma_string_chunk_at(s, 0);
    assert(s.take(0) =~= Seq::<char>::empty());
    assert(string_pos(s, 0) == 1);
    lemma_string_run_from(s, 0);
    assert(nul_replaced(s).subrange(0, s.len() as int) =~= nul_replaced(s));
    assert(t[0] == '"');
    assert(start_index(t) == 0);
    assert(skip_comments(t, 0) == 0);
    assert(skip_comments(t, t.len() as int) == t.len());
    assert(next_token(t, t.len() as int) is None);
    assert(tokens_from(t, t.len() as int) =~= Seq::<(SpecToken, crate::span::Span)>::empty());
    assert(next_token(t, 0) == Some((SpecToken::String(nul_replaced(s)), 0int, t.len() as int)));
}

// ---------------------------------------------------------------------------
// Urls
// ---------------------------------------------------------------------------

proof fn lemma_url_body_grows(s: Seq<char>, k: int, m: int)
    requires
        0 <= k <= m <= s.len(),
    ensures
        occurs_at(url_body_out(s.take(m)), url_body_out(s.take(k)), 0),
    decreases m - k,
{
    if k < m {
        lemma_url_body_grows(s, k, m - 1);
        let big = url_body_out(s.take(m));
        let mid = url_body_out(s.take(m - 1));
        assert(s.take(m).drop_last() =~= s.take(m - 1));
        assert(big == mid + url_char_out(s[m - 1]));
        assert forall|j: int| 0 <= j < url_body_out(s.take(k)).len() implies #[trigger] big[0 + j]
            == url_body_out(s.take(k))[j] by {
            assert(mid[0 + j] == url_body_out(s.take(k))[j]);
        }
    }
}

/// Where the text of the `k`-th character starts in a written url.
pub open spec fn url_pos(s: Seq<char>, k: int) -> int {
    4 + url_body_out(s.take(k)).len() as int
}

proof fn lemma_url_chunk_at(s: Seq<char>, k: int)
    requires
        0 <= k <= s.len(),
    ensures
        url_out(s).len() == url_pos(s, s.len() as int) + 1,
        url_out(s)[url_pos(s, s.len() as int)] == ')',
        k < s.len() ==> occurs_at(url_out(s), url_char_out(s[k]), url_pos(s, k)),
        k < s.len() ==> url_pos(s, k + 1) == url_pos(s, k) + url_char_out(s[k]).len(),
{
    let t = url_out(s);
    let n = s.len() as int;
    let body = url_body_out(s);
    assert(s.take(n) =~= s);
    assert(t[url_pos(s, n)] == ')');
    if k < n {
        lemma_url_body_grows(s, k + 1, n);
        assert(s.take(k + 1).drop_last() =~= s.take(k));
        let pre = url_body_out(s.take(k));
        let chunk = url_char_out(s[k]);
        assert(url_body_out(s.take(k + 1)) == pre + chunk);
        assert forall|j: int| 0 <= j < chunk.len() implies #[trigger] t[url_pos(s, k) + j]
            == chunk[j] by {
            assert(body[0 + (pre.len() + j)] == (pre + chunk)[pre.len() + j]);
            assert(t[4 + (pre.len() + j)] == body[pre.len() + j]);
        }
    }
}

/// Reading one written character of a url.
proof fn lemma_url_step(t: Seq<char>, p: int, c: char)
    requires
        occurs_at(t, url_char_out(c), p),
    ensures
        url_char_out(c).len() >= 1,
        !crate::text::spec_is_whitespace(t[p]),
        t[p] != '"' && t[p] != '\'',
        url_run(t, p) == (
            crate::scan::prepend(nul_fixed(c), url_run(t, p + url_char_out(c).len()).0),
            url_run(t, p + url_char_out(c).len()).1,
        ),
{
    let out = url_char_out(c);
    assert(t[p + 0] == out[0]);
    if c == '\0' {
    } else if c == '"' || c == '\'' || c == '(' || c == ')' || c == '\\' || c == ' ' || c
        == '\t' {
        assert(t[p + 1] == out[1]);
        assert(escape(t, p + 1) == (c, p + 2));
    } else if spec_needs_control_escape(c) {
        lemma_read_escape(t, p, c);
    }
}

proof fn lemma_url_run_from(s: Seq<char>, k: int)
    requires
        0 <= k <= s.len(),
    ensures
        url_run(url_out(s), url_pos(s, k)) == (
            Some(nul_replaced(s).subrange(k, s.len() as int)),
            url_out(s).len() as int,
        ),
    decreases s.len() - k,
{
    let t = url_out(s);
    lemma_url_chunk_at(s, k);
    if k == s.len() {
        assert(nul_replaced(s).subrange(k, s.len() as int) =~= Seq::<char>::empty());
    } else {
        lemma_url_step(t, url_pos(s, k), s[k]);
        lemma_url_run_from(s, k + 1);
        assert(nul_replaced(s).subrange(k, s.len() as int) =~= seq![nul_fixed(s[k])]
            + nul_replaced(s).subrange(k + 1, s.len() as int));
    }
}

/// A written url tokenizes back to one url token holding the url, for every
/// url (NUL comes back as U+FFFD).
pub proof fn lemma_url_round_trip(s: Seq<char>)
    ensures
        tokenize(url_out(s)) == seq![
            (SpecToken::Url(nul_replaced(s)), token_span(url_out(s), 0, url_out(s).len() as int)),
        ],
{
    let t = url_out(s);
    lemma_url_chunk_at(s, 0);
    assert(s.take(0) =~= Seq::<char>::empty());
    assert(url_pos(s, 0) == 4);
    assert(t[0] == 'u' && t[1] == 'r' && t[2] == 'l' && t[3] == '(');
    assert(name_run(t, 3) == (Seq::<char>::empty(), 3int));
    assert(name_run(t, 2) == (seq!['l'], 3int));
    assert(name_run(t, 1) == (seq!['r', 'l'], 3int));
    assert(name_run(t, 0) == (seq!['u', 'r', 'l'], 3int));
    assert(eq_ignore_ascii_case(seq!['u', 'r', 'l'], url_name()));
    if s.len() > 0 {
        lemma_url_step(t, 4, s[0]);
    }
    assert(whitespace_end(t, 4) == 4);
    lemma_url_run_from(s, 0);
    assert(nul_replaced(s).subrange(0, s.len() as int) =~= nul_replaced(s));
    assert(ident_like_token(t, 0) == (SpecToken::Url(nul_replaced(s)), t.len() as int));
    assert(start_index(t) == 0);
    assert(skip_comments(t, 0) == 0);
    assert(skip_comments(t, t.len() as int) == t.len());
    assert(next_token(t, t.len() as int) is None);
    assert(tokens_from(t, t.len() as int) =~= Seq::<(SpecToken, crate::span::Span)>::empty());
    assert(next_token(t, 0) == Some((SpecToken::Url(nul_replaced(s)), 0int, t.len() as int)));
}

// ---------------------------------------------------------------------------
// Dimensions
// ---------------------------------------------------------------------------

/// `w` does not continue a number written just before it: it starts with
/// neither a digit, nor `.` and a digit, nor an exponent (`e` or `E`, an
/// optional sign, a digit).
pub open spec fn stops_number(w: Seq<char>) -> bool {
    &&& !digit_at(w, 0)
    &&& !(is_at(w, 0, '.') && digit_at(w, 1))
    &&& !((is_at(w, 0, 'e') || is_at(w, 0, 'E')) && (digit_at(w, 1) || ((is_at(w, 1, '+') || is_at(
        w,
        1,
        '-',
    )) && digit_at(w, 2))))
}

proof fn lemma_digits_end_local(r: Seq<char>, w: Seq<char>, i: int)
    requires
        0 <= i <= r.len(),
        !digit_at(w, 0),
    ensures
        digits_end(r + w, i) == digits_end(r, i),
        i <= digits_end(r, i) <= r.len(),
    decreases r.len() - i,
{
    if i < r.len() {
        assert((r + w)[i] == r[i]);
        lemma_digits_end_local(r, w, i + 1);
    } else {
        assert(!digit_at(r + w, i)) by {
            if i < (r + w).len() {
                assert((r + w)[i] == w[0]);
            }
        }
    }
}

/// Reading a number stops at the end of its text when what follows does not
/// continue it.
proof fn lemma_number_run_local(r: Seq<char>, w: Seq<char>)
    requires
        r.len() > 0,
        number_run(r, 0).1 == r.len(),
        stops_number(w),
    ensures
        number_run(r + w, 0) == number_run(r, 0),
{
    let t = r + w;
    let n = r.len() as int;
    assert forall|j: int| 0 <= j < n implies #[trigger] t[j] == r[j] by {}
    assert forall|j: int| 0 <= j < w.len() implies #[trigger] t[n + j] == w[j] by {}
    assert(is_at(t, 0, '+') == is_at(r, 0, '+'));
    assert(is_at(t, 0, '-') == is_at(r, 0, '-'));
    let i1 = if is_at(r, 0, '+') || is_at(r, 0, '-') { 1int } else { 0int };
    lemma_digits_end_local(r, w, i1);
    let i2 = digits_end(r, i1);
    assert(is_at(t, i2, '.') && digit_at(t, i2 + 1) <==> is_at(r, i2, '.') && digit_at(r, i2 + 1)) by {
        if i2 == n {
            if w.len() > 0 {
                assert(t[n + 0] == w[0]);
            }
            if w.len() > 1 {
                assert(t[n + 1] == w[1]);
            }
        } else if i2 + 1 == n {
            if w.len() > 0 {
                assert(t[n + 0] == w[0]);
            }
        }
    }
    let (ty, i3) = if is_at(r, i2, '.') && digit_at(r, i2 + 1) {
        lemma_digits_end_local(r, w, i2 + 1);
        (NumericType::Number, digits_end(r, i2 + 1))
    } else {
        (NumericType::Integer, i2)
    };
    assert(i3 <= n);
    if i3 < n {
        assert(is_at(t, i3, 'e') == is_at(r, i3, 'e'));
        assert(is_at(t, i3, 'E') == is_at(r, i3, 'E'));
        if is_at(r, i3, 'e') || is_at(r, i3, 'E') {
            let d = if is_at(r, i3 + 1, '+') || is_at(r, i3 + 1, '-') { 2int } else { 1int };
            if digit_at(r, i3 + d) {
                assert(is_at(t, i3 + 1, '+') == is_at(r, i3 + 1, '+'));
                assert(is_at(t, i3 + 1, '-') == is_at(r, i3 + 1, '-'));
                assert(digit_at(t, i3 + d));
                lemma_digits_end_local(r, w, i3 + d);
            }
        }
    } else {
        if w.len() > 0 {
            assert(t[n + 0] == w[0]);
        }
        if w.len() > 1 {
            assert(t[n + 1] == w[1]);
        }
        if w.len() > 2 {
            assert(t[n + 2] == w[2]);
        }
        assert(digit_at(t, n + 1) == digit_at(w, 1));
        assert(digit_at(t, n + 2) == digit_at(w, 2));
        assert(is_at(t, n + 1, '+') == is_at(w, 1, '+'));
        assert(is_at(t, n + 1, '-') == is_at(w, 1, '-'));
        assert(is_at(t, n, 'e') == is_at(w, 0, 'e'));
        assert(is_at(t, n, 'E') == is_at(w, 0, 'E'));
    }
}

/// A unit the serializer writes without its exponent guard: what the
/// tokenizer sees at its start.
proof fn lemma_unit_head(t: Seq<char>, base: int, u: Seq<char>)
    requires
        u.len() > 0,
        !(u.len() >= 2 && (u[0] == 'e' || u[0] == 'E') && (spec_is_digit(u[1]) || u[1] == '+' || u[1]
            == '-')),
        occurs_at(t, name_out(u, true), base),
    ensures
        starts_ident_at(t, base),
        stops_number(name_out(u, true)),
{
    let w = name_out(u, true);
    let n = u.len() as int;
    lemma_ident_head(t, base, u);
    assert forall|j: int| 0 <= j < w.len() implies #[trigger] t[base + j] == w[j] by {}
    assert(t[base + 0] == w[0]);
    if u != seq!['-'] {
        lemma_name_chunk_at(u, 0, true);
        let c0 = name_char_out(u, 0, true);
        assert(w == name_prefix_out(u, n, true));
        assert(w[0int + 0] == c0[0]);
        let c = u[0];
        if (c == 'e' || c == 'E') && n >= 2 {
            lemma_name_chunk_at(u, 1, true);
            let c1 = name_char_out(u, 1, true);
            assert(w[1] == c1[0]) by {
                lemma_occurs_trans(w, w, c1, 0, 1);
                assert(w[1int + 0] == c1[0]);
            }
        } else if c == 'e' || c == 'E' {
            assert(u =~= seq![c]);
        }
    }
}

/// A written non-empty unit, standing in `t` from `base` with nothing after
/// it that continues a name:
/// it starts an identifier there, does not continue a number written before
/// it, and reads back as the unit.
proof fn lemma_unit_in(t: Seq<char>, base: int, u: Seq<char>)
    requires
        u.len() > 0,
        occurs_at(t, unit_out(u), base),
        name_stops(t, base + unit_out(u).len()),
    ensures
        starts_ident_at(t, base),
        stops_number(unit_out(u)),
        name_run(t, base) == (nul_replaced(u), base + unit_out(u).len()),
{
    let w = unit_out(u);
    if u.len() >= 2 && (u[0] == 'e' || u[0] == 'E') && (spec_is_digit(u[1]) || u[1] == '+' || u[1]
        == '-') {
        let esc = escape_out(u[0]);
        let rest = name_out(u.drop_first(), false);
        lemma_occurs_split(t, esc, rest, base);
        lemma_read_escape(t, base, u[0]);
        assert(w[0] == '\\');
        let j = base + esc.len();
        lemma_read_name(t, j, u.drop_first(), false);
        assert(nul_replaced(u) =~= seq![nul_fixed(u[0])] + nul_replaced(u.drop_first()));
    } else {
        lemma_read_name(t, base, u, true);
        lemma_unit_head(t, base, u);
    }
}

/// A written dimension (its number as written, then its written unit)
/// tokenizes back to one dimension token with that number, type and unit,
/// for every number text that reads as a whole number token and every
/// non-empty unit (NUL comes back as U+FFFD).
pub proof fn lemma_dimension_round_trip(repr: Seq<char>, num_type: NumericType, unit: Seq<char>)
    requires
        starts_number_at(repr, 0),
        number_run(repr, 0) == (num_type, repr.len() as int),
        unit.len() > 0,
    ensures
        tokenize(repr + unit_out(unit)) == seq![
            (
                SpecToken::Dimension { num_type, unit: nul_replaced(unit), repr },
                token_span(repr + unit_out(unit), 0, (repr + unit_out(unit)).len() as int),
            ),
        ],
{
    let w = unit_out(unit);
    let t = repr + w;
    let n = repr.len() as int;
    assert(occurs_at(t, w, n)) by {
        assert forall|j: int| 0 <= j < w.len() implies #[trigger] t[n + j] == w[j] by {}
    }
    assert(name_stops(t, t.len() as int));
    lemma_unit_in(t, n, unit);
    lemma_number_run_local(repr, w);
    assert(t.subrange(0, n) =~= repr);
    assert forall|j: int| 0 <= j < n implies #[trigger] t[j] == repr[j] by {}
    assert(starts_number_at(t, 0));
    assert(numeric_token(t, 0) == (
        SpecToken::Dimension { num_type, unit: nul_replaced(unit), repr },
        t.len() as int,
    ));
    lemma_single_token(t, SpecToken::Dimension { num_type, unit: nul_replaced(unit), repr });
}

/// A number text that reads as a whole number token tokenizes back to that
/// number token, and followed by `%` to that percentage token.
pub proof fn lemma_number_round_trip(repr: Seq<char>, num_type: NumericType)
    requires
        starts_number_at(repr, 0),
        number_run(repr, 0) == (num_type, repr.len() as int),
    ensures
        tokenize(repr) == seq![
            (SpecToken::Number { num_type, repr }, token_span(repr, 0, repr.len() as int)),
        ],
        tokenize(repr.push('%')) == seq![
            (SpecToken::Percentage { repr }, token_span(repr.push('%'), 0, repr.len() + 1int)),
        ],
{
    let n = repr.len() as int;
    let e = Seq::<char>::empty();
    assert(repr + e =~= repr);
    lemma_number_run_local(repr, e);
    assert(repr.subrange(0, n) =~= repr);
    assert(numeric_token(repr, 0) == (SpecToken::Number { num_type, repr }, n));
    lemma_single_token(repr, SpecToken::Number { num_type, repr });
    let p = seq!['%'];
    let t = repr + p;
    assert(t =~= repr.push('%'));
    lemma_number_run_local(repr, p);
    assert(t.subrange(0, n) =~= repr);
    assert forall|j: int| 0 <= j < n implies #[trigger] t[j] == repr[j] by {}
    assert(t[n] == '%');
    assert(starts_number_at(t, 0));
    assert(!starts_ident_at(t, n));
    assert(numeric_token(t, 0) == (SpecToken::Percentage { repr }, n + 1));
    lemma_single_token(t, SpecToken::Percentage { repr });
}

// ---------------------------------------------------------------------------
// Reading a value's text with more text after it
// ---------------------------------------------------------------------------

/// `c` standing at `p` in `o` stands there in `o` followed by any text.
proof fn lemma_occurs_extend(o: Seq<char>, z: Seq<char>, c: Seq<char>, p: int)
    requires
        occurs_at(o, c, p),
    ensures
        occurs_at(o + z, c, p),
{
    assert forall|j: int| 0 <= j < c.len() implies #[trigger] (o + z)[p + j] == c[j] by {
        assert((o + z)[p + j] == o[p + j]);
    }
}

proof fn lemma_string_run_in(s: Seq<char>, k: int, z: Seq<char>)
    requires
        0 <= k <= s.len(),
    ensures
        string_run(string_out(s) + z, string_pos(s, k), '"') == (
            Some(nul_replaced(s).subrange(k, s.len() as int)),
            string_out(s).len() as int,
        ),
    decreases s.len() - k,
{
    let o = string_out(s);
    let t = o + z;
    lemma_string_chunk_at(s, k);
    if k == s.len() {
        assert(t[string_pos(s, k)] == o[string_pos(s, k)]);
        assert(nul_replaced(s).subrange(k, s.len() as int) =~= Seq::<char>::empty());
    } else {
        lemma_occurs_extend(o, z, string_char_out(s[k]), string_pos(s, k));
        lemma_string_step(t, string_pos(s, k), s[k]);
        lemma_string_run_in(s, k + 1, z);
        assert(nul_replaced(s).subrange(k, s.len() as int) =~= seq![nul_fixed(s[k])]
            + nul_replaced(s).subrange(k + 1, s.len() as int));
    }
}

/// A written string, followed by any text, is read as the string up to
/// where its text ends.
pub(crate) proof fn lemma_string_reads_in(s: Seq<char>, z: Seq<char>)
    ensures
        next_token(string_out(s) + z, 0) == Some(
            (SpecToken::String(nul_replaced(s)), 0int, string_out(s).len() as int),
        ),
{
    let o = string_out(s);
    let t = o + z;
    lemma_string_chunk_at(s, 0);
    assert(s.take(0) =~= Seq::<char>::empty());
    assert(string_pos(s, 0) == 1);
    lemma_string_run_in(s, 0, z);
    assert(nul_replaced(s).subrange(0, s.len() as int) =~= nul_replaced(s));
    assert(t[0] == o[0]);
    assert(skip_comments(t, 0) == 0);
}

proof fn lemma_url_run_in(s: Seq<char>, k: int, z: Seq<char>)
    requires
        0 <= k <= s.len(),
    ensures
        url_run(url_out(s) + z, url_pos(s, k)) == (
            Some(nul_replaced(s).subrange(k, s.len() as int)),
            url_out(s).len() as int,
        ),
    decreases s.len() - k,
{
    let o = url_out(s);
    let t = o + z;
    lemma_url_chunk_at(s, k);
    if k == s.len() {
        assert(t[url_pos(s, k)] == o[url_pos(s, k)]);
        assert(nul_replaced(s).subrange(k, s.len() as int) =~= Seq::<char>::empty());
    } else {
        lemma_occurs_extend(o, z, url_char_out(s[k]), url_pos(s, k));
        lemma_url_step(t, url_pos(s, k), s[k]);
        lemma_url_run_in(s, k + 1, z);
        assert(nul_replaced(s).subrange(k, s.len() as int) =~= seq![nul_fixed(s[k])]
            + nul_replaced(s).subrange(k + 1, s.len() as int));
    }
}

/// A written url, followed by any text, is read as the url up to where its
/// text ends.
pub(crate) proof fn lemma_url_reads_in(s: Seq<char>, z: Seq<char>)
    ensures
        next_token(url_out(s) + z, 0) == Some(
            (SpecToken::Url(nul_replaced(s)), 0int, url_out(s).len() as int),
        ),
{
    let o = url_out(s);
    let t = o + z;
    lemma_url_chunk_at(s, 0);
    assert(s.take(0) =~= Seq::<char>::empty());
    assert(url_pos(s, 0) == 4);
    assert(o[0] == 'u' && o[1] == 'r' && o[2] == 'l' && o[3] == '(');
    assert(t[0] == o[0] && t[1] == o[1] && t[2] == o[2] && t[3] == o[3]);
    assert(name_run(t, 3) == (Seq::<char>::empty(), 3int));
    assert(name_run(t, 2) == (seq!['l'], 3int));
    assert(name_run(t, 1) == (seq!['r', 'l'], 3int));
    assert(name_run(t, 0) == (seq!['u', 'r', 'l'], 3int));
    assert(eq_ignore_ascii_case(seq!['u', 'r', 'l'], url_name()));
    if s.len() > 0 {
        lemma_occurs_extend(o, z, url_char_out(s[0]), 4);
        lemma_url_step(t, 4, s[0]);
    } else {
        assert(t[4] == o[4]);
    }
    assert(whitespace_end(t, 4) == 4);
    lemma_url_run_in(s, 0, z);
    assert(nul_replaced(s).subrange(0, s.len() as int) =~= nul_replaced(s));
    assert(ident_like_token(t, 0) == (SpecToken::Url(nul_replaced(s)), o.len() as int));
    assert(skip_comments(t, 0) == 0);
}

/// A written hash, followed by a text that does not continue a name, is read
/// as the hash up to where its text ends.
pub(crate) proof fn lemma_hash_reads_in(v: Seq<char>, is_id: bool, z: Seq<char>)
    requires
        v.len() > 0,
        name_stops(z, 0),
    ensures
        next_token(seq!['#'] + name_out(v, is_id) + z, 0) == Some(
            (
                SpecToken::Hash {
                    value: nul_replaced(v),
                    is_id: is_id || starts_ident_at(seq!['#'] + name_out(v, is_id) + z, 1),
                },
                0int,
                name_out(v, is_id).len() + 1int,
            ),
        ),
{
    let w = name_out(v, is_id);
    let t = seq!['#'] + w + z;
    let e = 1 + w.len() as int;
    assert(occurs_at(t, w, 1)) by {
        assert forall|j: int| 0 <= j < w.len() implies #[trigger] t[1 + j] == w[j] by {}
    }
    assert(name_at(t, e) == name_at(z, 0));
    assert(valid_escape_at(t, e) == valid_escape_at(z, 0)) by {
        if z.len() > 1 {
            assert(t[e + 1] == z[1]);
        }
    }
    lemma_read_name(t, 1, v, is_id);
    if is_id {
        lemma_ident_head(t, 1, v);
    }
    assert(t[0] == '#');
}

/// A written dimension, followed by a text that does not continue a name, is
/// read as the dimension up to where its text ends, for every number text
/// that reads as a whole number token and every non-empty unit; after a
/// unit `e` or `E` alone, the text must not start with a sign and a digit,
/// which would continue the number's exponent.
pub(crate) proof fn lemma_dimension_reads_in(
    repr: Seq<char>,
    num_type: NumericType,
    unit: Seq<char>,
    z: Seq<char>,
)
    requires
        starts_number_at(repr, 0),
        number_run(repr, 0) == (num_type, repr.len() as int),
        unit.len() > 0,
        name_stops(z, 0),
        unit.len() == 1 && (unit[0] == 'e' || unit[0] == 'E') ==> !((is_at(z, 0, '+') || is_at(z, 0, '-'))
            && digit_at(z, 1)),
    ensures
        next_token(repr + unit_out(unit) + z, 0) == Some(
            (
                SpecToken::Dimension { num_type, unit: nul_replaced(unit), repr },
                0int,
                (repr + unit_out(unit)).len() as int,
            ),
        ),
{
    let w = unit_out(unit);
    let wz = w + z;
    let t = repr + wz;
    let n = repr.len() as int;
    let e = n + w.len();
    assert(t =~= repr + unit_out(unit) + z);
    assert(occurs_at(t, w, n)) by {
        assert forall|j: int| 0 <= j < w.len() implies #[trigger] t[n + j] == w[j] by {}
    }
    assert(name_at(t, e) == name_at(z, 0));
    assert(valid_escape_at(t, e) == valid_escape_at(z, 0)) by {
        if z.len() > 1 {
            assert(t[e + 1] == z[1]);
        }
    }
    lemma_unit_in(t, n, unit);
    assert(stops_number(wz)) by {
        assert(wz[0] == w[0]);
        if unit.len() >= 2 && (unit[0] == 'e' || unit[0] == 'E') && (spec_is_digit(unit[1]) || unit[1] == '+'
            || unit[1] == '-') {
            assert(w[0] == '\\');
        } else if unit == seq!['-'] {
            assert(w[0] == '\\');
        } else {
            assert(w == name_prefix_out(unit, unit.len() as int, true));
            lemma_name_chunk_at(unit, 0, true);
            let c0 = name_char_out(unit, 0, true);
            assert(name_prefix_out(unit, 0, true).len() == 0);
            assert(w[0int + 0] == c0[0]);
            if (unit[0] == 'e' || unit[0] == 'E') && unit.len() == 1 {
                assert(c0 == seq![unit[0]]);
                assert(w =~= seq![unit[0]]);
                if z.len() > 0 {
                    assert(wz[1] == z[0]);
                    assert(!spec_is_digit(z[0]));
                }
                if z.len() > 1 {
                    assert(wz[2] == z[1]);
                }
            } else if unit[0] == 'e' || unit[0] == 'E' {
                assert(unit.len() >= 2);
                lemma_name_chunk_at(unit, 1, true);
                assert(c0 == seq![unit[0]]);
                assert(name_prefix_out(unit, 1, true).len() == 1);
                let c1 = name_char_out(unit, 1, true);
                assert(w[1int + 0] == c1[0]);
                assert(wz[1] == w[1]);
                assert(!spec_is_digit(c1[0]) && c1[0] != '+' && c1[0] != '-');
            } else {
                assert(w[0] != 'e' && w[0] != 'E' && w[0] != '.' && !spec_is_digit(w[0]));
            }
        }
    }
    lemma_number_run_local(repr, wz);
    assert(t.subrange(0, n) =~= repr);
    assert forall|j: int| 0 <= j < n implies #[trigger] t[j] == repr[j] by {}
    assert(starts_number_at(t, 0));
    assert(numeric_token(t, 0) == (
        SpecToken::Dimension { num_type, unit: nul_replaced(unit), repr },
        e,
    ));
    assert(t[0] != '/');
}

} // verus!
