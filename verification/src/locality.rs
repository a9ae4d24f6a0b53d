//! Reading never looks back: what the tokenizer reads from index `i` on
//! depends only on the text from `i` on. The tokens read after a prefix are
//! the tokens of the rest read on its own, at positions moved by the
//! prefix's length.

use vstd::prelude::*;

use crate::scan::{
    digit_at, hex_at, is_at, name_at, newline_at, starts_ident_at, starts_number_at, valid_escape_at,
    whitespace_at, bad_url_end, comment_close, digits_end, escape, hex_end, ident_like_token, name_run,
    newline_end, next_token, number_run, numeric_token, skip_comments, string_run, token_at,
    tokens_from, url_after_whitespace, url_run, whitespace_end,
};
use crate::span::Span;
use crate::token::SpecToken;

verus! {

/// The text of `s` from index `o` on.
pub open spec fn rest(s: Seq<char>, o: int) -> Seq<char> {
    s.subrange(o, s.len() as int)
}

pub(crate) proof fn lemma_rest_index(s: Seq<char>, o: int)
    requires
        0 <= o <= s.len(),
    ensures
        rest(s, o).len() == s.len() - o,
        forall|k: int| 0 <= k < rest(s, o).len() ==> #[trigger] rest(s, o)[k] == s[o + k],
{
}

proof fn lemma_comment_close_shift(s: Seq<char>, o: int, j: int)
    requires
        0 <= o <= j,
        o <= s.len(),
    ensures
        comment_close(s, j) == comment_close(rest(s, o), j - o) + o,
    decreases s.len() - j,
{
    lemma_rest_index(s, o);
    let y = rest(s, o);
    if j + 1 < s.len() {
        assert(y[j - o] == s[j] && y[j - o + 1] == s[j + 1]);
        if !(s[j] == '*' && s[j + 1] == '/') {
            lemma_comment_close_shift(s, o, j + 1);
        }
    }
}

proof fn lemma_skip_comments_shift(s: Seq<char>, o: int, i: int)
    requires
        0 <= o <= i,
        o <= s.len(),
    ensures
        skip_comments(s, i) == skip_comments(rest(s, o), i - o) + o,
    decreases s.len() - i,
{
    lemma_rest_index(s, o);
    let y = rest(s, o);
    if i < s.len() {
        assert(y[i - o] == s[i]);
    }
    if i + 1 < s.len() {
        assert(y[i - o + 1] == s[i + 1]);
    }
    if crate::scan::is_at(s, i, '/') && crate::scan::is_at(s, i + 1, '*') {
        lemma_comment_close_shift(s, o, i + 2);
        let e = comment_close(s, i + 2);
        if i < e <= s.len() {
            lemma_skip_comments_shift(s, o, e);
        }
    }
}

proof fn lemma_whitespace_end_shift(s: Seq<char>, o: int, i: int)
    requires
        0 <= o <= i,
        o <= s.len(),
    ensures
        whitespace_end(s, i) == whitespace_end(rest(s, o), i - o) + o,
    decreases s.len() - i,
{
    lemma_rest_index(s, o);
    if i < s.len() {
        assert(rest(s, o)[i - o] == s[i]);
        lemma_whitespace_end_shift(s, o, i + 1);
    }
}

proof fn lemma_digits_end_shift(s: Seq<char>, o: int, i: int)
    requires
        0 <= o <= i,
        o <= s.len(),
    ensures
        digits_end(s, i) == digits_end(rest(s, o), i - o) + o,
    decreases s.len() - i,
{
    lemma_rest_index(s, o);
    if i < s.len() {
        assert(rest(s, o)[i - o] == s[i]);
        lemma_digits_end_shift(s, o, i + 1);
    }
}

proof fn lemma_hex_end_shift(s: Seq<char>, o: int, i: int, n: nat)
    requires
        0 <= o <= i,
        o <= s.len(),
    ensures
        hex_end(s, i, n) == hex_end(rest(s, o), i - o, n) + o,
    decreases n,
{
    lemma_rest_index(s, o);
    if i < s.len() {
        assert(rest(s, o)[i - o] == s[i]);
    }
    if n > 0 {
        lemma_hex_end_shift(s, o, i + 1, (n - 1) as nat);
    }
}

proof fn lemma_hex_end_bounds(s: Seq<char>, i: int, n: nat)
    requires
        0 <= i <= s.len(),
    ensures
        i <= hex_end(s, i, n) <= s.len(),
    decreases n,
{
    if n > 0 && crate::scan::hex_at(s, i) {
        lemma_hex_end_bounds(s, i + 1, (n - 1) as nat);
    }
}

proof fn lemma_newline_end_shift(s: Seq<char>, o: int, i: int)
    requires
        0 <= o <= i,
        o <= s.len(),
    ensures
        newline_end(s, i) == newline_end(rest(s, o), i - o) + o,
{
    lemma_rest_index(s, o);
    if i < s.len() {
        assert(rest(s, o)[i - o] == s[i]);
    }
    if i + 1 < s.len() {
        assert(rest(s, o)[i - o + 1] == s[i + 1]);
    }
}

proof fn lemma_escape_shift(s: Seq<char>, o: int, i: int)
    requires
        0 <= o <= i,
        o <= s.len(),
    ensures
        escape(s, i).0 == escape(rest(s, o), i - o).0,
        escape(s, i).1 == escape(rest(s, o), i - o).1 + o,
{
    lemma_rest_index(s, o);
    let y = rest(s, o);
    if i < s.len() {
        assert(y[i - o] == s[i]);
    }
    lemma_hex_end_shift(s, o, i, 6);
    let e = hex_end(s, i, 6);
    if i <= s.len() {
        lemma_hex_end_bounds(s, i, 6);
    } else {
        assert(!crate::scan::hex_at(s, i));
    }
    assert(o <= e);
    if e < s.len() {
        assert(y[e - o] == s[e]);
    }
    lemma_newline_end_shift(s, o, e);
    if crate::scan::hex_at(s, i) {
        assert(s.subrange(i, e) =~= y.subrange(i - o, e - o));
    }
}

/// What the character tests see at `i`, `i + 1` and `i + 2` of `s` they see
/// at the same places of the rest from `o`.
pub(crate) proof fn lemma_tests_shift(s: Seq<char>, o: int, i: int)
    requires
        0 <= o <= i,
        o <= s.len(),
    ensures
        forall|d: int, c: char| 0 <= d <= 3 ==> #[trigger] is_at(s, i + d, c) == is_at(rest(s, o), i - o + d, c),
        forall|d: int| 0 <= d <= 3 ==> #[trigger] digit_at(s, i + d) == digit_at(rest(s, o), i - o + d),
        forall|d: int| 0 <= d <= 3 ==> #[trigger] name_at(s, i + d) == name_at(rest(s, o), i - o + d),
        forall|d: int| 0 <= d <= 3 ==> #[trigger] hex_at(s, i + d) == hex_at(rest(s, o), i - o + d),
        forall|d: int| 0 <= d <= 3 ==> #[trigger] whitespace_at(s, i + d) == whitespace_at(rest(s, o), i - o + d),
        forall|d: int| 0 <= d <= 3 ==> #[trigger] newline_at(s, i + d) == newline_at(rest(s, o), i - o + d),
        forall|d: int| 0 <= d <= 2 ==> #[trigger] valid_escape_at(s, i + d) == valid_escape_at(rest(s, o), i - o + d),
        forall|d: int| 0 <= d <= 1 ==> #[trigger] starts_ident_at(s, i + d) == starts_ident_at(rest(s, o), i - o + d),
        starts_number_at(s, i) == starts_number_at(rest(s, o), i - o),
        i < s.len() ==> s[i] == rest(s, o)[i - o],
{
    lemma_rest_index(s, o);
    let y = rest(s, o);
    assert forall|d: int| 0 <= d <= 4 && i + d < s.len() implies #[trigger] y[i - o + d] == s[i + d] by {}
    assert(y.len() == s.len() - o);
    assert forall|d: int, c: char| 0 <= d <= 3 implies #[trigger] is_at(s, i + d, c) == is_at(y, i - o + d, c) by {
        if i + d < s.len() {
            assert(y[i - o + d] == s[i + d]);
        }
    }
    assert forall|d: int| 0 <= d <= 3 implies #[trigger] digit_at(s, i + d) == digit_at(y, i - o + d) && name_at(s, i + d)
        == name_at(y, i - o + d) && hex_at(s, i + d) == hex_at(y, i - o + d) && whitespace_at(s, i + d) == whitespace_at(
        y,
        i - o + d,
    ) && newline_at(s, i + d) == newline_at(y, i - o + d) && crate::scan::name_start_at(s, i + d)
        == crate::scan::name_start_at(y, i - o + d) by {
        if i + d < s.len() {
            assert(y[i - o + d] == s[i + d]);
        }
    }
    assert forall|d: int| 0 <= d <= 2 implies #[trigger] valid_escape_at(s, i + d) == valid_escape_at(y, i - o + d) by {
        if i + d + 1 < s.len() {
            assert(y[i - o + d + 1] == s[i + d + 1]);
        }
        assert(is_at(s, i + d, '\\') == is_at(y, i - o + d, '\\'));
    }
    assert forall|d: int| 0 <= d <= 1 implies #[trigger] starts_ident_at(s, i + d) == starts_ident_at(y, i - o + d) by {
        assert(is_at(s, i + d, '-') == is_at(y, i - o + d, '-'));
        assert(crate::scan::name_start_at(s, i + d) == crate::scan::name_start_at(y, i - o + d));
        assert(crate::scan::name_start_at(s, i + d + 1) == crate::scan::name_start_at(y, i - o + d + 1));
        assert(is_at(s, i + d + 1, '-') == is_at(y, i - o + d + 1, '-'));
        assert(valid_escape_at(s, i + d) == valid_escape_at(y, i - o + d));
        assert(valid_escape_at(s, i + d + 1) == valid_escape_at(y, i - o + d + 1));
    }
    assert(is_at(s, i, '+') == is_at(y, i - o, '+'));
    assert(is_at(s, i, '-') == is_at(y, i - o, '-'));
    assert(is_at(s, i, '.') == is_at(y, i - o, '.'));
    assert(is_at(s, i + 1, '.') == is_at(y, i - o + 1, '.'));
    assert(digit_at(s, i) == digit_at(y, i - o));
    assert(digit_at(s, i + 1) == digit_at(y, i - o + 1));
    assert(digit_at(s, i + 2) == digit_at(y, i - o + 2));
}

proof fn lemma_name_run_shift(s: Seq<char>, o: int, i: int)
    requires
        0 <= o <= i,
        o <= s.len(),
    ensures
        name_run(s, i).0 == name_run(rest(s, o), i - o).0,
        name_run(s, i).1 == name_run(rest(s, o), i - o).1 + o,
    decreases s.len() - i,
{
    lemma_tests_shift(s, o, i);
    assert(name_at(s, i + 0) == name_at(rest(s, o), i - o + 0));
    assert(valid_escape_at(s, i + 0) == valid_escape_at(rest(s, o), i - o + 0));
    if name_at(s, i) {
        lemma_name_run_shift(s, o, i + 1);
    } else if valid_escape_at(s, i) {
        lemma_escape_shift(s, o, i + 1);
        let j = escape(s, i + 1).1;
        if i < j <= s.len() {
            lemma_name_run_shift(s, o, j);
        }
    }
}

proof fn lemma_string_run_shift(s: Seq<char>, o: int, i: int, q: char)
    requires
        0 <= o <= i,
        o <= s.len(),
    ensures
        string_run(s, i, q).0 == string_run(rest(s, o), i - o, q).0,
        string_run(s, i, q).1 == string_run(rest(s, o), i - o, q).1 + o,
    decreases s.len() - i,
{
    lemma_tests_shift(s, o, i);
    let y = rest(s, o);
    if i < s.len() {
        assert(s[i] == y[i - o]);
        if s[i] == q {
        } else if crate::text::spec_is_newline(s[i]) {
        } else if s[i] == '\\' {
            if i + 1 < s.len() {
                assert(y[i - o + 1] == s[i + 1]) by {
                    lemma_rest_index(s, o);
                }
                if crate::text::spec_is_newline(s[i + 1]) {
                    lemma_newline_end_shift(s, o, i + 1);
                    let k = newline_end(s, i + 1);
                    if i < k <= s.len() {
                        lemma_string_run_shift(s, o, k, q);
                    }
                } else {
                    lemma_escape_shift(s, o, i + 1);
                    let j = escape(s, i + 1).1;
                    if i < j <= s.len() {
                        lemma_string_run_shift(s, o, j, q);
                    }
                }
            }
        } else {
            lemma_string_run_shift(s, o, i + 1, q);
        }
    }
}

proof fn lemma_bad_url_end_shift(s: Seq<char>, o: int, i: int)
    requires
        0 <= o <= i,
        o <= s.len(),
    ensures
        bad_url_end(s, i) == bad_url_end(rest(s, o), i - o) + o,
    decreases s.len() - i,
{
    lemma_tests_shift(s, o, i);
    assert(valid_escape_at(s, i + 0) == valid_escape_at(rest(s, o), i - o + 0));
    if i < s.len() {
        if s[i] == ')' {
        } else if valid_escape_at(s, i) {
            lemma_escape_shift(s, o, i + 1);
            let j = escape(s, i + 1).1;
            if i < j <= s.len() {
                lemma_bad_url_end_shift(s, o, j);
            }
        } else {
            lemma_bad_url_end_shift(s, o, i + 1);
        }
    }
}

proof fn lemma_whitespace_end_ge(s: Seq<char>, i: int)
    ensures
        i <= whitespace_end(s, i),
    decreases s.len() - i,
{
    if whitespace_at(s, i) {
        lemma_whitespace_end_ge(s, i + 1);
    }
}

proof fn lemma_url_after_whitespace_shift(s: Seq<char>, o: int, i: int)
    requires
        0 <= o <= i,
        o <= s.len(),
    ensures
        url_after_whitespace(s, i).0 == url_after_whitespace(rest(s, o), i - o).0,
        url_after_whitespace(s, i).1 == url_after_whitespace(rest(s, o), i - o).1 + o,
{
    lemma_whitespace_end_shift(s, o, i);
    let k = whitespace_end(s, i);
    lemma_whitespace_end_ge(s, i);
    lemma_rest_index(s, o);
    if k < s.len() {
        assert(rest(s, o)[k - o] == s[k]);
        if s[k] != ')' {
            lemma_bad_url_end_shift(s, o, k);
        }
    }
}

proof fn lemma_url_run_shift(s: Seq<char>, o: int, i: int)
    requires
        0 <= o <= i,
        o <= s.len(),
    ensures
        url_run(s, i).0 == url_run(rest(s, o), i - o).0,
        url_run(s, i).1 == url_run(rest(s, o), i - o).1 + o,
    decreases s.len() - i,
{
    lemma_tests_shift(s, o, i);
    assert(valid_escape_at(s, i + 0) == valid_escape_at(rest(s, o), i - o + 0));
    if i < s.len() {
        if s[i] == ')' {
        } else if crate::text::spec_is_whitespace(s[i]) {
            lemma_url_after_whitespace_shift(s, o, i);
        } else if crate::scan::url_breaks(s[i]) {
            lemma_bad_url_end_shift(s, o, i + 1);
        } else if s[i] == '\\' {
            if valid_escape_at(s, i) {
                lemma_escape_shift(s, o, i + 1);
                let j = escape(s, i + 1).1;
                if i < j <= s.len() {
                    lemma_url_run_shift(s, o, j);
                }
            } else {
                lemma_bad_url_end_shift(s, o, i + 1);
            }
        } else {
            lemma_url_run_shift(s, o, i + 1);
        }
    }
}

proof fn lemma_digits_end_bounds(s: Seq<char>, i: int)
    ensures
        i <= digits_end(s, i),
        0 <= i <= s.len() ==> digits_end(s, i) <= s.len(),
    decreases s.len() - i,
{
    if digit_at(s, i) {
        lemma_digits_end_bounds(s, i + 1);
    }
}

proof fn lemma_number_run_shift(s: Seq<char>, o: int, i: int)
    requires
        0 <= o <= i <= s.len(),
    ensures
        number_run(s, i).0 == number_run(rest(s, o), i - o).0,
        number_run(s, i).1 == number_run(rest(s, o), i - o).1 + o,
        i <= number_run(s, i).1 <= s.len(),
{
    lemma_tests_shift(s, o, i);
    assert(is_at(s, i + 0, '+') == is_at(rest(s, o), i - o + 0, '+'));
    assert(is_at(s, i + 0, '-') == is_at(rest(s, o), i - o + 0, '-'));
    let i1 = if is_at(s, i, '+') || is_at(s, i, '-') { i + 1 } else { i };
    lemma_digits_end_shift(s, o, i1);
    lemma_digits_end_bounds(s, i1);
    let i2 = digits_end(s, i1);
    lemma_tests_shift(s, o, i2);
    assert(is_at(s, i2 + 0, '.') == is_at(rest(s, o), i2 - o + 0, '.'));
    assert(digit_at(s, i2 + 1) == digit_at(rest(s, o), i2 - o + 1));
    let i3 = if is_at(s, i2, '.') && digit_at(s, i2 + 1) {
        lemma_digits_end_shift(s, o, i2 + 1);
        lemma_digits_end_bounds(s, i2 + 1);
        digits_end(s, i2 + 1)
    } else {
        i2
    };
    lemma_tests_shift(s, o, i3);
    assert(is_at(s, i3 + 0, 'e') == is_at(rest(s, o), i3 - o + 0, 'e'));
    assert(is_at(s, i3 + 0, 'E') == is_at(rest(s, o), i3 - o + 0, 'E'));
    assert(is_at(s, i3 + 1, '+') == is_at(rest(s, o), i3 - o + 1, '+'));
    assert(is_at(s, i3 + 1, '-') == is_at(rest(s, o), i3 - o + 1, '-'));
    assert(digit_at(s, i3 + 1) == digit_at(rest(s, o), i3 - o + 1));
    assert(digit_at(s, i3 + 2) == digit_at(rest(s, o), i3 - o + 2));
    if is_at(s, i3, 'e') || is_at(s, i3, 'E') {
        let d = if is_at(s, i3 + 1, '+') || is_at(s, i3 + 1, '-') { 2int } else { 1int };
        if digit_at(s, i3 + d) {
            lemma_digits_end_shift(s, o, i3 + d);
            lemma_digits_end_bounds(s, i3 + d);
        }
    }
}

proof fn lemma_name_run_bounds(s: Seq<char>, i: int)
    requires
        0 <= i <= s.len(),
    ensures
        i <= name_run(s, i).1 <= s.len(),
    decreases s.len() - i,
{
    if name_at(s, i) {
        lemma_name_run_bounds(s, i + 1);
    } else if valid_escape_at(s, i) {
        let j = escape(s, i + 1).1;
        if i < j <= s.len() {
            lemma_name_run_bounds(s, j);
        }
    }
}

proof fn lemma_numeric_token_shift(s: Seq<char>, o: int, i: int)
    requires
        0 <= o <= i <= s.len(),
    ensures
        numeric_token(s, i).0 == numeric_token(rest(s, o), i - o).0,
        numeric_token(s, i).1 == numeric_token(rest(s, o), i - o).1 + o,
{
    lemma_number_run_shift(s, o, i);
    let e = number_run(s, i).1;
    lemma_rest_index(s, o);
    assert(s.subrange(i, e) =~= rest(s, o).subrange(i - o, e - o));
    lemma_tests_shift(s, o, e);
    assert(starts_ident_at(s, e + 0) == starts_ident_at(rest(s, o), e - o + 0));
    assert(is_at(s, e + 0, '%') == is_at(rest(s, o), e - o + 0, '%'));
    lemma_name_run_shift(s, o, e);
}

proof fn lemma_ident_like_token_shift(s: Seq<char>, o: int, i: int)
    requires
        0 <= o <= i <= s.len(),
    ensures
        ident_like_token(s, i).0 == ident_like_token(rest(s, o), i - o).0,
        ident_like_token(s, i).1 == ident_like_token(rest(s, o), i - o).1 + o,
{
    lemma_name_run_shift(s, o, i);
    lemma_name_run_bounds(s, i);
    let e = name_run(s, i).1;
    lemma_tests_shift(s, o, e);
    assert(is_at(s, e + 0, '(') == is_at(rest(s, o), e - o + 0, '('));
    lemma_whitespace_end_shift(s, o, e + 1);
    lemma_whitespace_end_ge(s, e + 1);
    let k = whitespace_end(s, e + 1);
    lemma_tests_shift(s, o, k);
    assert(is_at(s, k + 0, '"') == is_at(rest(s, o), k - o + 0, '"'));
    assert(is_at(s, k + 0, '\'') == is_at(rest(s, o), k - o + 0, '\''));
    lemma_url_run_shift(s, o, k);
}

proof fn lemma_token_at_shift(s: Seq<char>, o: int, p: int)
    requires
        0 <= o <= p < s.len(),
    ensures
        token_at(s, p).0 == token_at(rest(s, o), p - o).0,
        token_at(s, p).1 == token_at(rest(s, o), p - o).1 + o,
{
    lemma_tests_shift(s, o, p);
    let y = rest(s, o);
    let c = s[p];
    assert(y[p - o] == c);
    assert(forall|ch: char| #[trigger] is_at(s, p + 1, ch) == is_at(y, p - o + 1, ch)) by {
        assert forall|ch: char| #[trigger] is_at(s, p + 1, ch) == is_at(y, p - o + 1, ch) by {
            assert(is_at(s, p + 1, ch) == is_at(y, p - o + 1, ch));
        }
    }
    assert(is_at(s, p + 2, '-') == is_at(y, p - o + 2, '-'));
    assert(is_at(s, p + 2, '>') == is_at(y, p - o + 2, '>'));
    assert(is_at(s, p + 3, '-') == is_at(y, p - o + 3, '-'));
    assert(name_at(s, p + 1) == name_at(y, p - o + 1));
    assert(valid_escape_at(s, p + 1) == valid_escape_at(y, p - o + 1));
    assert(valid_escape_at(s, p + 0) == valid_escape_at(y, p - o + 0));
    assert(starts_ident_at(s, p + 1) == starts_ident_at(y, p - o + 1));
    assert(starts_ident_at(s, p + 0) == starts_ident_at(y, p - o + 0));
    lemma_whitespace_end_shift(s, o, p);
    lemma_string_run_shift(s, o, p + 1, c);
    lemma_name_run_shift(s, o, p + 1);
    lemma_numeric_token_shift(s, o, p);
    lemma_ident_like_token_shift(s, o, p);
}

/// The kinds of the tokens of a text, without their spans.
pub open spec fn token_kinds(ts: Seq<(SpecToken, Span)>) -> Seq<SpecToken> {
    ts.map_values(|x: (SpecToken, Span)| x.0)
}

proof fn lemma_skip_comments_ge(s: Seq<char>, i: int)
    ensures
        i <= skip_comments(s, i),
    decreases s.len() - i,
{
    if is_at(s, i, '/') && is_at(s, i + 1, '*') {
        let e = comment_close(s, i + 2);
        if i < e <= s.len() {
            lemma_skip_comments_ge(s, e);
        }
    }
}

/// Reading never looks back: the tokens read from index `i` on, past a
/// prefix of length `o`, are those of the rest of the text from `o` read
/// on its own.
pub proof fn lemma_tokens_from_shift(s: Seq<char>, o: int, i: int)
    requires
        0 <= o <= i,
        o <= s.len(),
    ensures
        token_kinds(tokens_from(s, i)) == token_kinds(tokens_from(rest(s, o), i - o)),
    decreases s.len() - i,
{
    let y = rest(s, o);
    lemma_rest_index(s, o);
    lemma_skip_comments_shift(s, o, i);
    lemma_skip_comments_ge(s, i);
    let p = skip_comments(s, i);
    if 0 <= p < s.len() {
        lemma_token_at_shift(s, o, p);
        let e = token_at(s, p).1;
        assert(next_token(s, i) == Some((token_at(s, p).0, p, e)));
        assert(next_token(y, i - o) == Some((token_at(s, p).0, p - o, e - o)));
        if i < e <= s.len() {
            lemma_tokens_from_shift(s, o, e);
            assert(token_kinds(tokens_from(s, i)) =~= seq![token_at(s, p).0] + token_kinds(tokens_from(s, e)));
            assert(token_kinds(tokens_from(y, i - o)) =~= seq![token_at(s, p).0] + token_kinds(
                tokens_from(y, e - o),
            ));
        }
    } else {
        assert(next_token(s, i) is None);
        assert(next_token(y, i - o) is None);
    }
}

} // verus!
