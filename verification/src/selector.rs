//! Selector-list syntax validation for a qualified rule's prelude.
//!
//! The core grammar does not look at what a qualified rule's prelude says:
//! `a > > b { }` parses as happily as `a > b { }`. This module reads that
//! prelude as a selector list (Selectors Level 4 §3) and reports the places
//! it cannot be one. It is a syntactic check only: element, pseudo-class and
//! attribute names are not looked up, and what stands inside the
//! parentheses of a functional pseudo-class is not inspected.
//!
//! It errs toward accepting: constructs merely newer than this code (`&`
//! nesting, `::part()`, unknown pseudo names) are accepted, and only shapes
//! that no version of Selectors can produce are reported.

use vstd::prelude::*;

use crate::parser::BlockKind;
use crate::span::{Span, Spanned};
use crate::spanned::{ComponentValue, SyntaxError, SyntaxErrorKind};
use crate::token::Token;

verus! {

pub type Vals = Seq<Spanned<ComponentValue>>;

// ---------------------------------------------------------------------------
// Looking at the values of a part `p[..b]`
// ---------------------------------------------------------------------------

pub open spec fn is_ws_cv(v: Spanned<ComponentValue>) -> bool {
    v.node matches ComponentValue::Token(Token::Whitespace)
}

pub open spec fn ident_at(p: Vals, k: int, b: int) -> bool {
    0 <= k < b && k < p.len() && p[k].node matches ComponentValue::Token(Token::Ident(_))
}

pub open spec fn delim_at(p: Vals, k: int, b: int, c: char) -> bool {
    &&& 0 <= k < b && k < p.len()
    &&& p[k].node matches ComponentValue::Token(Token::Delim(d)) && d == c
}

pub open spec fn colon_at(p: Vals, k: int, b: int) -> bool {
    0 <= k < b && k < p.len() && p[k].node matches ComponentValue::Token(Token::Colon)
}

pub open spec fn function_at(p: Vals, k: int, b: int) -> bool {
    0 <= k < b && k < p.len() && p[k].node is Function
}

/// Every value of `p[a..b]` is whitespace.
pub open spec fn blank(p: Vals, a: int, b: int) -> bool {
    forall|k: int| a <= k < b ==> is_ws_cv(#[trigger] p[k])
}

/// How many values the combinator at `k` of `p[..b]` takes: one for `>`,
/// `+` and `~`, two for the column combinator `||` (two `|` delimiters in
/// a row), and none where no combinator stands. Descendant combination is
/// plain whitespace.
pub open spec fn combinator_len(p: Vals, k: int, b: int) -> int {
    if delim_at(p, k, b, '>') || delim_at(p, k, b, '+') || delim_at(p, k, b, '~') {
        1
    } else if delim_at(p, k, b, '|') && delim_at(p, k + 1, b, '|') {
        2
    } else {
        0
    }
}

// ---------------------------------------------------------------------------
// What is reported
// ---------------------------------------------------------------------------

/// The comma-separated parts `p[a..b]` of a prelude, from index `i` on (the
/// current part starting at `start`), and the empty parts reported on the
/// way: the comma after an empty part, or the last value for an empty part
/// after a trailing comma. `seen` says a non-empty part was met already.
pub open spec fn split_parts(p: Vals, i: int, start: int, seen: bool) -> (Seq<(int, int)>, Seq<Span>)
    decreases p.len() - i,
{
    if i < 0 || i >= p.len() {
        if blank(p, start, p.len() as int) {
            if seen && p.len() > 0 {
                (seq![], seq![p[p.len() - 1].span])
            } else {
                (seq![], seq![])
            }
        } else {
            (seq![(start, p.len() as int)], seq![])
        }
    } else if p[i].node matches ComponentValue::Token(Token::Comma) {
        let (parts, errs) = split_parts(p, i + 1, i + 1, seen || !blank(p, start, i));
        if blank(p, start, i) {
            (parts, seq![p[i].span] + errs)
        } else {
            (seq![(start, i)] + parts, errs)
        }
    } else {
        split_parts(p, i + 1, start, seen)
    }
}

/// After a type or universal selector at `i - 1`: a `|` there (that does
/// not begin a `||` combinator) makes it a namespace prefix, and a name or
/// `*` must follow. How many more values that takes, and what is reported.
pub open spec fn spec_namespace_tail(p: Vals, i: int, b: int) -> (int, Seq<Span>) {
    if !delim_at(p, i, b, '|') || delim_at(p, i + 1, b, '|') {
        (0, seq![])
    } else if ident_at(p, i + 1, b) || delim_at(p, i + 1, b, '*') {
        (2, seq![])
    } else {
        (1, seq![p[i].span])
    }
}

/// Indices of the values of `s[..n]` that are not whitespace.
pub open spec fn non_ws_indices(s: Vals, n: int) -> Seq<usize>
    decreases n,
{
    if n <= 0 {
        seq![]
    } else if is_ws_cv(s[n - 1]) {
        non_ws_indices(s, n - 1)
    } else {
        non_ws_indices(s, n - 1).push((n - 1) as usize)
    }
}

/// The `k`-th non-whitespace value is a delimiter `c`.
pub open spec fn w_delim(s: Vals, w: Seq<usize>, k: int, c: char) -> bool {
    &&& 0 <= k < w.len()
    &&& s[w[k] as int].node matches ComponentValue::Token(Token::Delim(d)) && d == c
}

pub open spec fn w_ident(s: Vals, w: Seq<usize>, k: int) -> bool {
    0 <= k < w.len() && s[w[k] as int].node matches ComponentValue::Token(Token::Ident(_))
}

pub open spec fn w_span(s: Vals, w: Seq<usize>, k: int) -> Span {
    s[w[k] as int].span
}

/// The attribute name at the start of `[ … ]`: whether it is well-formed
/// and how many non-whitespace values it takes.
pub open spec fn attribute_name(s: Vals, w: Seq<usize>) -> (bool, int) {
    if w_ident(s, w, 0) {
        if w_delim(s, w, 1, '|') && w_ident(s, w, 2) {
            (true, 3)
        } else {
            (true, 1)
        }
    } else if w_delim(s, w, 0, '*') && w_delim(s, w, 1, '|') {
        if w_ident(s, w, 2) {
            (true, 3)
        } else {
            (false, 2)
        }
    } else if w_delim(s, w, 0, '|') {
        if w_ident(s, w, 1) {
            (true, 2)
        } else {
            (false, 1)
        }
    } else {
        (false, 0)
    }
}

/// What is reported inside an `[ … ]` attribute selector whose values are
/// `s`: a (possibly namespace-qualified) name, then optionally a matcher
/// (`=`, or one of `~ | ^ $ *` immediately followed by `=`) and a name or
/// string value; anything after the value is a flag and is accepted.
pub open spec fn attribute_errors(s: Vals, bracket: Span) -> Seq<Span> {
    let w = non_ws_indices(s, s.len() as int);
    let (ok, i) = attribute_name(s, w);
    if w.len() == 0 {
        seq![bracket]
    } else if !ok {
        seq![w_span(s, w, 0)]
    } else if i >= w.len() {
        seq![]
    } else {
        let m = if w_delim(s, w, i, '=') {
            1int
        } else if (w_delim(s, w, i, '~') || w_delim(s, w, i, '|') || w_delim(s, w, i, '^')
            || w_delim(s, w, i, '$') || w_delim(s, w, i, '*')) && w_delim(s, w, i + 1, '=') {
            2int
        } else {
            0int
        };
        if m == 0 {
            seq![w_span(s, w, i)]
        } else if i + m < w.len() {
            if s[w[i + m] as int].node matches ComponentValue::Token(Token::Ident(_))
                || s[w[i + m] as int].node matches ComponentValue::Token(Token::String(_)) {
                seq![]
            } else {
                seq![w_span(s, w, i + m)]
            }
        } else {
            seq![w_span(s, w, i)]
        }
    }
}

/// One simple selector at `i` in `p[..b]`: how many values it takes (at
/// least one) and what is reported.
pub open spec fn simple(p: Vals, i: int, b: int) -> (int, Seq<Span>) {
    let sp = p[i].span;
    match p[i].node {
        ComponentValue::Token(Token::Ident(_)) => {
            let (n, e) = spec_namespace_tail(p, i + 1, b);
            (1 + n, e)
        },
        ComponentValue::Token(Token::Hash { .. }) => (1, seq![]),
        ComponentValue::Block(blk) => {
            if blk.kind == BlockKind::Square {
                (1, attribute_errors(blk.values@, sp))
            } else {
                (1, seq![sp])
            }
        },
        ComponentValue::Token(Token::Colon) => {
            let n = if colon_at(p, i + 1, b) { 2int } else { 1int };
            if ident_at(p, i + n, b) || function_at(p, i + n, b) {
                (n + 1, seq![])
            } else {
                (n, seq![sp])
            }
        },
        ComponentValue::Token(Token::Delim(c)) => {
            if c == '.' {
                if ident_at(p, i + 1, b) {
                    (2, seq![])
                } else {
                    (1, seq![sp])
                }
            } else if c == '*' {
                let (n, e) = spec_namespace_tail(p, i + 1, b);
                (1 + n, e)
            } else if c == '|' {
                if ident_at(p, i + 1, b) || delim_at(p, i + 1, b, '*') {
                    (2, seq![])
                } else {
                    (1, seq![sp])
                }
            } else if c == '&' {
                (1, seq![])
            } else {
                (1, seq![sp])
            }
        },
        _ => (1, seq![sp]),
    }
}

/// A compound selector from `i`: simple selectors up to whitespace, a
/// combinator or `b`. Where it stops and what is reported.
pub open spec fn compound(p: Vals, i: int, b: int) -> (int, Seq<Span>)
    decreases b - i,
{
    if i < 0 || i >= b || i >= p.len() || is_ws_cv(p[i]) || combinator_len(p, i, b) > 0 {
        (i, seq![])
    } else {
        let (n, e) = simple(p, i, b);
        if n >= 1 {
            let (j, e2) = compound(p, i + n, b);
            (j, e + e2)
        } else {
            (i, e)
        }
    }
}

/// Index of the last value of `p[a..b]` that is not whitespace, or `a - 1`.
pub open spec fn last_non_ws_in(p: Vals, a: int, b: int) -> int
    decreases b - a,
{
    if b <= a {
        a - 1
    } else if !is_ws_cv(p[b - 1]) {
        b - 1
    } else {
        last_non_ws_in(p, a, b - 1)
    }
}

/// A complex selector `p[a..b]`, read from `i`: compounds joined by
/// combinators. A combinator with nothing on its left (`> p`, `a > > b`) or
/// on its right (`a >`) is reported.
pub open spec fn complex(p: Vals, a: int, i: int, b: int, expect: bool, saw: bool) -> Seq<Span>
    decreases b - i,
{
    if i < 0 || i >= b || i >= p.len() {
        if expect && saw {
            seq![p[last_non_ws_in(p, a, b)].span]
        } else {
            seq![]
        }
    } else if is_ws_cv(p[i]) {
        complex(p, a, i + 1, b, expect, saw)
    } else if combinator_len(p, i, b) > 0 {
        (if expect { seq![p[i].span] } else { seq![] }) + complex(p, a, i + combinator_len(p, i, b), b, true, saw)
    } else {
        let (j, e) = compound(p, i, b);
        if i < j <= b {
            e + complex(p, a, j, b, false, true)
        } else {
            e + complex(p, a, i + 1, b, false, true)
        }
    }
}

/// The errors of the parts `parts[..n]`, each read as a complex selector.
pub open spec fn parts_errors(p: Vals, parts: Seq<(int, int)>, n: int) -> Seq<Span>
    decreases n,
{
    if n <= 0 {
        seq![]
    } else {
        let (a, b) = parts[n - 1];
        parts_errors(p, parts, n - 1) + complex(p, a, a, b, true, false)
    }
}

/// Every place where the prelude `p` fails to be a selector list: first the
/// empty comma-separated parts, then each part's errors in order.
pub open spec fn selector_list_errors(p: Vals) -> Seq<Span> {
    let (parts, errs) = split_parts(p, 0, 0, false);
    errs + parts_errors(p, parts, parts.len() as int)
}

/// Index of the end of the compound starting at `i`: the first whitespace,
/// combinator or `b`.
pub open spec fn compound_end(p: Vals, i: int, b: int) -> int
    decreases b - i,
{
    if i < 0 || i >= b || i >= p.len() || is_ws_cv(p[i]) || combinator_len(p, i, b) > 0 {
        i
    } else {
        compound_end(p, i + 1, b)
    }
}

/// The ident at `k` of `p[..b]`, with its span, if there is one there.
pub open spec fn ident_name_at(p: Vals, k: int, b: int) -> Seq<(Seq<char>, Span)> {
    if 0 <= k < b && k < p.len() {
        match p[k].node {
            ComponentValue::Token(Token::Ident(name)) => seq![(name@, p[k].span)],
            _ => seq![],
        }
    } else {
        seq![]
    }
}

/// The type selector name at the head `i` of a compound: an ident `E`, or
/// the local name of a namespace-qualified `ns|E`, `*|E` or `|E`.
pub open spec fn head_name(p: Vals, i: int, b: int) -> Seq<(Seq<char>, Span)> {
    match p[i].node {
        ComponentValue::Token(Token::Ident(_)) => {
            if delim_at(p, i + 1, b, '|') && !delim_at(p, i + 2, b, '|') {
                ident_name_at(p, i + 2, b)
            } else {
                ident_name_at(p, i, b)
            }
        },
        ComponentValue::Token(Token::Delim(c)) => {
            if c == '*' && delim_at(p, i + 1, b, '|') && !delim_at(p, i + 2, b, '|') {
                ident_name_at(p, i + 2, b)
            } else if c == '|' {
                ident_name_at(p, i + 1, b)
            } else {
                seq![]
            }
        },
        _ => seq![],
    }
}

/// The type selector names of `p[i..b]`: the name at the head of each
/// compound (the local name of a namespace-qualified one).
pub open spec fn names_in(p: Vals, i: int, b: int, expect: bool) -> Seq<(Seq<char>, Span)>
    decreases b - i,
{
    if i < 0 || i >= b || i >= p.len() {
        seq![]
    } else if is_ws_cv(p[i]) {
        names_in(p, i + 1, b, true)
    } else if combinator_len(p, i, b) > 0 {
        names_in(p, i + combinator_len(p, i, b), b, true)
    } else {
        let here = if expect {
            head_name(p, i, b)
        } else {
            seq![]
        };
        let j = compound_end(p, i, b);
        if i < j <= b {
            here + names_in(p, j, b, false)
        } else {
            here
        }
    }
}

/// The type selector names of the parts `parts[..n]`.
pub open spec fn parts_names(p: Vals, parts: Seq<(int, int)>, n: int) -> Seq<(Seq<char>, Span)>
    decreases n,
{
    if n <= 0 {
        seq![]
    } else {
        let (a, b) = parts[n - 1];
        parts_names(p, parts, n - 1) + names_in(p, a, b, true)
    }
}

// ---------------------------------------------------------------------------
// What attribute selectors and type selector names are
// ---------------------------------------------------------------------------

/// The `k`-th non-whitespace value is a string.
pub open spec fn w_string(s: Vals, w: Seq<usize>, k: int) -> bool {
    0 <= k < w.len() && s[w[k] as int].node matches ComponentValue::Token(Token::String(_))
}

/// The `k`-th non-whitespace value is an identifier or a string.
pub open spec fn w_value(s: Vals, w: Seq<usize>, k: int) -> bool {
    w_ident(s, w, k) || w_string(s, w, k)
}

/// The `k`-th non-whitespace value is one of `~ | ^ $ *`.
pub open spec fn w_matcher_prefix(s: Vals, w: Seq<usize>, k: int) -> bool {
    ||| w_delim(s, w, k, '~')
    ||| w_delim(s, w, k, '|')
    ||| w_delim(s, w, k, '^')
    ||| w_delim(s, w, k, '$')
    ||| w_delim(s, w, k, '*')
}

/// A well-formed attribute selector is accepted: inside `[ … ]`, an
/// attribute name (`name`, `ns|name`, `*|name` or `|name`, taking `n`
/// non-whitespace values) alone, or followed by a matcher (`=`, or one of
/// `~ | ^ $ *` then `=`) and an identifier or string value, whatever flags
/// follow the value.
pub proof fn lemma_attribute_selector_accepted(s: Vals, bracket: Span, n: int)
    requires
        ({
            let w = non_ws_indices(s, s.len() as int);
            &&& {
                ||| n == 1 && w_ident(s, w, 0) && !(w_delim(s, w, 1, '|') && w_ident(s, w, 2))
                ||| n == 3 && (w_ident(s, w, 0) || w_delim(s, w, 0, '*')) && w_delim(s, w, 1, '|')
                    && w_ident(s, w, 2)
                ||| n == 2 && w_delim(s, w, 0, '|') && w_ident(s, w, 1)
            }
            &&& {
                ||| w.len() == n
                ||| w_delim(s, w, n, '=') && w_value(s, w, n + 1)
                ||| w_matcher_prefix(s, w, n) && w_delim(s, w, n + 1, '=') && w_value(s, w, n + 2)
            }
        }),
    ensures
        attribute_errors(s, bracket) == Seq::<Span>::empty(),
{
}

/// An identifier at the head of a compound selector, not followed by `|`,
/// is the compound's type selector name, whatever simple selectors follow
/// it in the compound; and it is the first name reported from there.
pub proof fn lemma_ident_head_is_type_name(p: Vals, i: int, b: int, name: Seq<char>)
    requires
        0 <= i < b <= p.len(),
        p[i].node matches ComponentValue::Token(Token::Ident(x)) && x@ == name,
        !delim_at(p, i + 1, b, '|'),
    ensures
        head_name(p, i, b) == seq![(name, p[i].span)],
        names_in(p, i, b, true).len() > 0,
        names_in(p, i, b, true)[0] == (name, p[i].span),
{
    assert(!is_ws_cv(p[i]));
    assert(combinator_len(p, i, b) == 0);
    assert(compound_end(p, i, b) == compound_end(p, i + 1, b));
    lemma_compound_end_bounds(p, i + 1, b);
}

/// The local name of a namespace-qualified type selector (`ns|E`, `*|E` or
/// `|E`) at the head of a compound is its type selector name.
pub proof fn lemma_qualified_head_is_type_name(p: Vals, i: int, b: int, name: Seq<char>, k: int)
    requires
        0 <= i < b <= p.len(),
        k == i + 1 || k == i + 2,
        k == i + 1 ==> delim_at(p, i, b, '|'),
        k == i + 2 ==> (ident_at(p, i, b) || delim_at(p, i, b, '*')) && delim_at(p, i + 1, b, '|'),
        k < b,
        p[k].node matches ComponentValue::Token(Token::Ident(x)) && x@ == name,
    ensures
        head_name(p, i, b) == seq![(name, p[k].span)],
{
}

/// A malformed attribute selector is reported: empty brackets at the
/// brackets, and brackets whose first non-whitespace value cannot start an
/// attribute name (an identifier, `*` or `|`) at that value; and after a
/// well-formed name and matcher, a missing value at the matcher and a value
/// that is neither an identifier nor a string at that value.
pub proof fn lemma_attribute_selector_rejected(s: Vals, bracket: Span, n: int, m: int)
    ensures
        ({
            let w = non_ws_indices(s, s.len() as int);
            &&& w.len() == 0 ==> attribute_errors(s, bracket) == seq![bracket]
            &&& w.len() > 0 && !w_ident(s, w, 0) && !w_delim(s, w, 0, '*') && !w_delim(s, w, 0, '|')
                ==> attribute_errors(s, bracket) == seq![w_span(s, w, 0)]
            &&& {
                &&& {
                    ||| n == 1 && w_ident(s, w, 0) && !(w_delim(s, w, 1, '|') && w_ident(s, w, 2))
                    ||| n == 3 && (w_ident(s, w, 0) || w_delim(s, w, 0, '*')) && w_delim(s, w, 1, '|')
                        && w_ident(s, w, 2)
                    ||| n == 2 && w_delim(s, w, 0, '|') && w_ident(s, w, 1)
                }
                &&& {
                    ||| m == 1 && w_delim(s, w, n, '=')
                    ||| m == 2 && w_matcher_prefix(s, w, n) && w_delim(s, w, n + 1, '=')
                }
            } ==> {
                &&& n + m >= w.len() ==> attribute_errors(s, bracket) == seq![w_span(s, w, n)]
                &&& n + m < w.len() && !w_value(s, w, n + m) ==> attribute_errors(s, bracket) == seq![
                    w_span(s, w, n + m),
                ]
            }
        }),
{
}

/// The value is the identifier `name`.
pub open spec fn ident_named(v: Spanned<ComponentValue>, name: Seq<char>) -> bool {
    v.node matches ComponentValue::Token(Token::Ident(x)) && x@ == name
}

/// Every type selector name reported from `p[i..b]` is an identifier value
/// of `p[i..b]`, with that value's span.
pub proof fn lemma_names_are_idents(p: Vals, i: int, b: int, expect: bool)
    ensures
        forall|k: int|
            0 <= k < names_in(p, i, b, expect).len() ==> exists|j: int|
                #![trigger p[j]]
                i <= j < b && j < p.len() && ident_named(p[j], (#[trigger] names_in(p, i, b, expect)[k]).0) && p[j].span == names_in(p, i, b, expect)[k].1,
    decreases b - i,
{
    let r = names_in(p, i, b, expect);
    if i < 0 || i >= b || i >= p.len() {
    } else if is_ws_cv(p[i]) {
        lemma_names_are_idents(p, i + 1, b, true);
        assert(r == names_in(p, i + 1, b, true));
    } else if combinator_len(p, i, b) > 0 {
        let c = combinator_len(p, i, b);
        lemma_names_are_idents(p, i + c, b, true);
        assert(r == names_in(p, i + c, b, true));
    } else {
        let here = if expect { head_name(p, i, b) } else { seq![] };
        let j = compound_end(p, i, b);
        lemma_head_name_ident(p, i, b);
        if i < j <= b {
            lemma_names_are_idents(p, j, b, false);
            let rest = names_in(p, j, b, false);
            assert(r == here + rest);
            assert forall|k: int| 0 <= k < r.len() implies exists|jj: int|
                #![trigger p[jj]]
                i <= jj < b && jj < p.len() && ident_named(p[jj], (#[trigger] r[k]).0) && p[jj].span == r[k].1 by {
                if k >= here.len() {
                    assert(r[k] == rest[k - here.len()]);
                } else {
                    assert(r[k] == here[k]);
                }
            }
        } else {
            assert(r == here);
        }
    }
}

/// The name at the head of a compound, if any, is an identifier value at the
/// head or up to two values after it.
proof fn lemma_head_name_ident(p: Vals, i: int, b: int)
    requires
        0 <= i < b,
        i < p.len(),
    ensures
        head_name(p, i, b).len() <= 1,
        head_name(p, i, b).len() == 1 ==> exists|j: int|
            #![trigger p[j]]
            i <= j < b && j < p.len() && ident_named(p[j], head_name(p, i, b)[0].0) && p[j].span == head_name(p, i, b)[0].1,
{
    let h = head_name(p, i, b);
    if h.len() == 1 {
        if h == ident_name_at(p, i, b) {
            assert(p[i].node matches ComponentValue::Token(Token::Ident(_)));
        } else if h == ident_name_at(p, i + 1, b) {
            assert(p[i + 1].node matches ComponentValue::Token(Token::Ident(_)));
        } else {
            assert(h == ident_name_at(p, i + 2, b));
            assert(p[i + 2].node matches ComponentValue::Token(Token::Ident(_)));
        }
    }
}

proof fn lemma_compound_end_bounds(p: Vals, i: int, b: int)
    requires
        0 <= i <= b,
    ensures
        i <= compound_end(p, i, b),
        compound_end(p, i, b) <= b || compound_end(p, i, b) == i,
    decreases b - i,
{
    if !(i < 0 || i >= b || i >= p.len() || is_ws_cv(p[i]) || combinator_len(p, i, b) > 0) {
        lemma_compound_end_bounds(p, i + 1, b);
    }
}

pub open spec fn errors_view(v: Seq<SyntaxError>) -> Seq<Span> {
    v.map_values(|e: SyntaxError| e.span)
}

pub open spec fn parts_view(v: Seq<(usize, usize)>) -> Seq<(int, int)> {
    v.map_values(|x: (usize, usize)| (x.0 as int, x.1 as int))
}

pub open spec fn names_view(v: Seq<Spanned<String>>) -> Seq<(Seq<char>, Span)> {
    v.map_values(|x: Spanned<String>| (x.node@, x.span))
}

// ---------------------------------------------------------------------------
// Checking
// ---------------------------------------------------------------------------

fn is_whitespace(v: &Spanned<ComponentValue>) -> (r: bool)
    ensures
        r == is_ws_cv(*v),
{
    matches!(&v.node, ComponentValue::Token(Token::Whitespace))
}

fn ident_is(p: &[Spanned<ComponentValue>], k: usize, b: usize) -> (r: bool)
    requires
        b <= p.len(),
    ensures
        r == ident_at(p@, k as int, b as int),
{
    k < b && matches!(&p[k].node, ComponentValue::Token(Token::Ident(_)))
}

fn is_delim(p: &[Spanned<ComponentValue>], k: usize, b: usize, c: char) -> (r: bool)
    requires
        b <= p.len(),
    ensures
        r == delim_at(p@, k as int, b as int, c),
{
    if k < b {
        match &p[k].node {
            ComponentValue::Token(Token::Delim(d)) => *d == c,
            _ => false,
        }
    } else {
        false
    }
}

/// How many values the combinator at `k` takes: `>`, `+` and `~` one,
/// `||` two, and none where there is no combinator.
fn combinator_width(p: &[Spanned<ComponentValue>], k: usize, b: usize) -> (r: usize)
    requires
        b <= p.len(),
    ensures
        r as int == combinator_len(p@, k as int, b as int),
        r <= 2,
{
    if is_delim(p, k, b, '>') || is_delim(p, k, b, '+') || is_delim(p, k, b, '~') {
        1
    } else if is_delim(p, k, b, '|') && k < b && is_delim(p, k + 1, b, '|') {
        2
    } else {
        0
    }
}

fn colon_is(p: &[Spanned<ComponentValue>], k: usize, b: usize) -> (r: bool)
    requires
        b <= p.len(),
    ensures
        r == colon_at(p@, k as int, b as int),
{
    k < b && matches!(&p[k].node, ComponentValue::Token(Token::Colon))
}

fn function_is(p: &[Spanned<ComponentValue>], k: usize, b: usize) -> (r: bool)
    requires
        b <= p.len(),
    ensures
        r == function_at(p@, k as int, b as int),
{
    k < b && matches!(&p[k].node, ComponentValue::Function { .. })
}

fn is_blank(p: &[Spanned<ComponentValue>], a: usize, b: usize) -> (r: bool)
    requires
        a <= b <= p.len(),
    ensures
        r == blank(p@, a as int, b as int),
{
    let mut k = a;
    while k < b
        invariant
            a <= k <= b <= p.len(),
            blank(p@, a as int, k as int),
        decreases b - k,
    {
        if !is_whitespace(&p[k]) {
            return false;
        }
        k = k + 1;
    }
    true
}

fn push_error(errors: &mut Vec<SyntaxError>, span: Span)
    ensures
        errors_view(final(errors)@) == errors_view(old(errors)@).push(span),
        final(errors)@ == old(errors)@.push(SyntaxError { span, kind: SyntaxErrorKind::InvalidSelector }),
{
    errors.push(SyntaxError { span, kind: SyntaxErrorKind::InvalidSelector });
    assert(errors_view(errors@) =~= errors_view(old(errors)@).push(span));
}

/// The comma-separated parts of a prelude, as index ranges, reporting an
/// empty one as it goes: the error span is the comma itself.
fn split_on_commas(p: &[Spanned<ComponentValue>], errors: &mut Vec<SyntaxError>) -> (r: Vec<(usize, usize)>)
    ensures
        parts_view(r@) == split_parts(p@, 0, 0, false).0,
        errors_view(final(errors)@) == errors_view(old(errors)@) + split_parts(p@, 0, 0, false).1,
        forall|k: int| 0 <= k < r@.len() ==> (#[trigger] r@[k]).0 <= r@[k].1 <= p.len(),
{
    let mut parts: Vec<(usize, usize)> = Vec::new();
    let mut start: usize = 0;
    let mut seen = false;
    let mut i: usize = 0;
    while i < p.len()
        invariant
            0 <= start <= i <= p.len(),
            seen == (parts@.len() > 0),
            forall|k: int| 0 <= k < parts@.len() ==> (#[trigger] parts@[k]).0 <= parts@[k].1 <= p.len(),
            split_parts(p@, 0, 0, false) == (
                parts_view(parts@) + split_parts(p@, i as int, start as int, seen).0,
                errors_view(errors@).subrange(errors_view(old(errors)@).len() as int, errors_view(errors@).len() as int)
                    + split_parts(p@, i as int, start as int, seen).1,
            ),
            errors_view(old(errors)@).len() <= errors_view(errors@).len(),
            errors_view(errors@).subrange(0, errors_view(old(errors)@).len() as int) == errors_view(old(errors)@),
        decreases p.len() - i,
    {
        if matches!(&p[i].node, ComponentValue::Token(Token::Comma)) {
            let ghost e0 = errors_view(errors@);
            let ghost pv0 = parts_view(parts@);
            let ghost rest = split_parts(p@, i + 1, i + 1, seen || !blank(p@, start as int, i as int));
            if is_blank(p, start, i) {
                push_error(errors, p[i].span);
                proof {
                    let n0 = errors_view(old(errors)@).len() as int;
                    let e1 = errors_view(errors@);
                    assert(e1.subrange(n0, e1.len() as int) =~= e0.subrange(n0, e0.len() as int).push(p@[i as int].span));
                    assert(e1.subrange(0, n0) =~= e0.subrange(0, n0));
                    assert(e0.subrange(n0, e0.len() as int) + (seq![p@[i as int].span] + rest.1) =~= e1.subrange(
                        n0,
                        e1.len() as int,
                    ) + rest.1);
                }
            } else {
                parts.push((start, i));
                proof {
                    assert(parts_view(parts@) =~= pv0.push((start as int, i as int)));
                    assert(pv0 + (seq![(start as int, i as int)] + rest.0) =~= parts_view(parts@) + rest.0);
                }
                seen = true;
            }
            start = i + 1;
        }
        i = i + 1;
    }
    let ghost e0 = errors_view(errors@);
    let ghost pv0 = parts_view(parts@);
    let ghost n0 = errors_view(old(errors)@).len() as int;
    if is_blank(p, start, p.len()) {
        if seen && p.len() > 0 {
            push_error(errors, p[p.len() - 1].span);
            proof {
                let e1 = errors_view(errors@);
                assert(e1.subrange(0, n0) =~= e0.subrange(0, n0));
                assert(e1 =~= e1.subrange(0, n0) + e1.subrange(n0, e1.len() as int));
            }
        } else {
            proof {
                assert(e0 =~= e0.subrange(0, n0) + e0.subrange(n0, e0.len() as int));
            }
        }
        assert(pv0 + Seq::<(int, int)>::empty() =~= pv0);
    } else {
        parts.push((start, p.len()));
        proof {
            assert(parts_view(parts@) =~= pv0.push((start as int, p.len() as int)));
            assert(e0 =~= e0.subrange(0, n0) + e0.subrange(n0, e0.len() as int));
            assert(e0.subrange(n0, e0.len() as int) + Seq::<Span>::empty() =~= e0.subrange(n0, e0.len() as int));
        }
    }
    parts
}

/// After a type or universal selector, an immediately following `|` makes
/// what came before a namespace prefix, and an ident or `*` must follow it.
/// Returns how many extra values were consumed.
fn namespace_tail(p: &[Spanned<ComponentValue>], i: usize, b: usize, errors: &mut Vec<SyntaxError>) -> (r: usize)
    requires
        b <= p.len(),
    ensures
        r == spec_namespace_tail(p@, i as int, b as int).0,
        errors_view(final(errors)@) == errors_view(old(errors)@) + spec_namespace_tail(p@, i as int, b as int).1,
        r <= 2,
{
    if !is_delim(p, i, b, '|') || (i < b && is_delim(p, i + 1, b, '|')) {
        assert(errors_view(errors@) + Seq::<Span>::empty() =~= errors_view(errors@));
        return 0;
    }
    if ident_is(p, i + 1, b) || is_delim(p, i + 1, b, '*') {
        assert(errors_view(errors@) + Seq::<Span>::empty() =~= errors_view(errors@));
        2
    } else {
        push_error(errors, p[i].span);
        assert(errors_view(old(errors)@).push(p@[i as int].span) =~= errors_view(old(errors)@) + seq![p@[i as int].span]);
        1
    }
}

/// Indices of the values of `s` that are not whitespace.
fn non_whitespace_indices(s: &[Spanned<ComponentValue>]) -> (r: Vec<usize>)
    ensures
        r@ == non_ws_indices(s@, s@.len() as int),
{
    let mut out: Vec<usize> = Vec::new();
    let mut i: usize = 0;
    while i < s.len()
        invariant
            0 <= i <= s.len(),
            out@ == non_ws_indices(s@, i as int),
        decreases s.len() - i,
    {
        if !is_whitespace(&s[i]) {
            out.push(i);
        }
        i = i + 1;
    }
    out
}

proof fn lemma_non_ws_indices_bound(s: Vals, n: int)
    requires
        0 <= n <= s.len(),
    ensures
        forall|k: int| 0 <= k < non_ws_indices(s, n).len() ==> (#[trigger] non_ws_indices(s, n)[k]) < n,
        non_ws_indices(s, n).len() <= n,
    decreases n,
{
    if n > 0 {
        lemma_non_ws_indices_bound(s, n - 1);
    }
}

fn w_delim_is(s: &[Spanned<ComponentValue>], w: &Vec<usize>, k: usize, c: char) -> (r: bool)
    requires
        forall|j: int| 0 <= j < w@.len() ==> (#[trigger] w@[j]) < s@.len(),
    ensures
        r == w_delim(s@, w@, k as int, c),
{
    if k < w.len() {
        match &s[w[k]].node {
            ComponentValue::Token(Token::Delim(d)) => *d == c,
            _ => false,
        }
    } else {
        false
    }
}

fn w_ident_is(s: &[Spanned<ComponentValue>], w: &Vec<usize>, k: usize) -> (r: bool)
    requires
        forall|j: int| 0 <= j < w@.len() ==> (#[trigger] w@[j]) < s@.len(),
    ensures
        r == w_ident(s@, w@, k as int),
{
    k < w.len() && matches!(&s[w[k]].node, ComponentValue::Token(Token::Ident(_)))
}

/// The inside of an `[ … ]` attribute selector: a (possibly
/// namespace-qualified) name, optionally followed by a matcher and a value,
/// optionally followed by a case-sensitivity flag.
fn validate_attribute(values: &[Spanned<ComponentValue>], bracket_span: Span, errors: &mut Vec<SyntaxError>)
    ensures
        errors_view(final(errors)@) == errors_view(old(errors)@) + attribute_errors(values@, bracket_span),
{
    let w = non_whitespace_indices(values);
    proof {
        lemma_non_ws_indices_bound(values@, values@.len() as int);
    }
    let ghost e0 = errors_view(errors@);
    if w.len() == 0 {
        push_error(errors, bracket_span);
        assert(e0.push(bracket_span) =~= e0 + seq![bracket_span]);
        return;
    }
    let (name_ok, i) = if w_ident_is(values, &w, 0) {
        if w_delim_is(values, &w, 1, '|') && w_ident_is(values, &w, 2) {
            (true, 3usize)
        } else {
            (true, 1usize)
        }
    } else if w_delim_is(values, &w, 0, '*') && w_delim_is(values, &w, 1, '|') {
        if w_ident_is(values, &w, 2) {
            (true, 3usize)
        } else {
            (false, 2usize)
        }
    } else if w_delim_is(values, &w, 0, '|') {
        if w_ident_is(values, &w, 1) {
            (true, 2usize)
        } else {
            (false, 1usize)
        }
    } else {
        (false, 0usize)
    };
    assert((name_ok, i as int) == attribute_name(values@, w@));
    if !name_ok {
        push_error(errors, values[w[0]].span);
        assert(e0.push(values@[w@[0] as int].span) =~= e0 + seq![w_span(values@, w@, 0)]);
        return;
    }
    if i >= w.len() {
        assert(e0 + Seq::<Span>::empty() =~= e0);
        return;
    }
    let m: usize = if w_delim_is(values, &w, i, '=') {
        1
    } else if (w_delim_is(values, &w, i, '~') || w_delim_is(values, &w, i, '|') || w_delim_is(values, &w, i, '^')
        || w_delim_is(values, &w, i, '$') || w_delim_is(values, &w, i, '*')) && w_delim_is(values, &w, i + 1, '=') {
        2
    } else {
        0
    };
    if m == 0 {
        push_error(errors, values[w[i]].span);
        assert(e0.push(values@[w@[i as int] as int].span) =~= e0 + seq![w_span(values@, w@, i as int)]);
        return;
    }
    if i + m < w.len() {
        let ok = matches!(&values[w[i + m]].node, ComponentValue::Token(Token::Ident(_)) | ComponentValue::Token(Token::String(_)));
        if !ok {
            push_error(errors, values[w[i + m]].span);
            assert(e0.push(values@[w@[i + m] as int].span) =~= e0 + seq![w_span(values@, w@, i + m)]);
        } else {
            assert(e0 + Seq::<Span>::empty() =~= e0);
        }
    } else {
        push_error(errors, values[w[i]].span);
        assert(e0.push(values@[w@[i as int] as int].span) =~= e0 + seq![w_span(values@, w@, i as int)]);
    }
}

/// Validate one simple selector at `i`, returning how many values it took.
fn validate_simple(p: &[Spanned<ComponentValue>], i: usize, b: usize, errors: &mut Vec<SyntaxError>) -> (r: usize)
    requires
        i < b <= p.len(),
    ensures
        r == simple(p@, i as int, b as int).0,
        errors_view(final(errors)@) == errors_view(old(errors)@) + simple(p@, i as int, b as int).1,
        1 <= r <= b - i,
{
    let ghost e0 = errors_view(errors@);
    let sp = p[i].span;
    match &p[i].node {
        ComponentValue::Token(Token::Ident(_)) => 1 + namespace_tail(p, i + 1, b, errors),
        ComponentValue::Token(Token::Hash { .. }) => {
            assert(e0 + Seq::<Span>::empty() =~= e0);
            1
        },
        ComponentValue::Block(blk) => {
            if matches!(blk.kind, BlockKind::Square) {
                validate_attribute(&blk.values, sp, errors);
            } else {
                push_error(errors, sp);
                assert(e0.push(sp) =~= e0 + seq![sp]);
            }
            1
        },
        ComponentValue::Token(Token::Colon) => {
            let n: usize = if colon_is(p, i + 1, b) { 2 } else { 1 };
            if ident_is(p, i + n, b) || function_is(p, i + n, b) {
                assert(e0 + Seq::<Span>::empty() =~= e0);
                n + 1
            } else {
                push_error(errors, sp);
                assert(e0.push(sp) =~= e0 + seq![sp]);
                n
            }
        },
        ComponentValue::Token(Token::Delim(c)) => {
            let c = *c;
            if c == '.' {
                if ident_is(p, i + 1, b) {
                    assert(e0 + Seq::<Span>::empty() =~= e0);
                    2
                } else {
                    push_error(errors, sp);
                    assert(e0.push(sp) =~= e0 + seq![sp]);
                    1
                }
            } else if c == '*' {
                1 + namespace_tail(p, i + 1, b, errors)
            } else if c == '|' {
                if ident_is(p, i + 1, b) || is_delim(p, i + 1, b, '*') {
                    assert(e0 + Seq::<Span>::empty() =~= e0);
                    2
                } else {
                    push_error(errors, sp);
                    assert(e0.push(sp) =~= e0 + seq![sp]);
                    1
                }
            } else if c == '&' {
                assert(e0 + Seq::<Span>::empty() =~= e0);
                1
            } else {
                push_error(errors, sp);
                assert(e0.push(sp) =~= e0 + seq![sp]);
                1
            }
        },
        _ => {
            push_error(errors, sp);
            assert(e0.push(sp) =~= e0 + seq![sp]);
            1
        },
    }
}

/// Validate one compound selector starting at `start`, returning where it
/// stops. A compound runs until whitespace, a combinator or `b`.
fn validate_compound(p: &[Spanned<ComponentValue>], start: usize, b: usize, errors: &mut Vec<SyntaxError>) -> (r: usize)
    requires
        start <= b <= p.len(),
    ensures
        r == compound(p@, start as int, b as int).0,
        errors_view(final(errors)@) == errors_view(old(errors)@) + compound(p@, start as int, b as int).1,
        start <= r <= b,
        start < b && !is_ws_cv(p@[start as int]) && combinator_len(p@, start as int, b as int) == 0 ==> start < r,
{
    let mut i = start;
    let ghost e_start = errors_view(errors@);
    loop
        invariant
            start <= i <= b <= p.len(),
            e_start == errors_view(old(errors)@),
            errors_view(old(errors)@).len() <= errors_view(errors@).len(),
            compound(p@, start as int, b as int) == (
                compound(p@, i as int, b as int).0,
                errors_view(errors@).subrange(e_start.len() as int, errors_view(errors@).len() as int)
                    + compound(p@, i as int, b as int).1,
            ),
            errors_view(errors@).subrange(0, e_start.len() as int) == e_start,
        decreases b - i,
    {
        if i >= b || is_whitespace(&p[i]) || combinator_width(p, i, b) > 0 {
            proof {
                let e = errors_view(errors@);
                assert(e =~= e.subrange(0, e_start.len() as int) + e.subrange(e_start.len() as int, e.len() as int));
                assert(e.subrange(e_start.len() as int, e.len() as int) + Seq::<Span>::empty() =~= e.subrange(
                    e_start.len() as int,
                    e.len() as int,
                ));
            }
            return i;
        }
        let ghost e0 = errors_view(errors@);
        let n = validate_simple(p, i, b, errors);
        proof {
            let e1 = errors_view(errors@);
            let k = e_start.len() as int;
            let add = simple(p@, i as int, b as int).1;
            assert(e1.subrange(0, k) =~= e0.subrange(0, k));
            assert(e1.subrange(k, e1.len() as int) =~= e0.subrange(k, e0.len() as int) + add);
            assert(e0.subrange(k, e0.len() as int) + (add + compound(p@, i + n, b as int).1) =~= e1.subrange(
                k,
                e1.len() as int,
            ) + compound(p@, i + n, b as int).1);
        }
        i = i + n;
    }
}

/// Index of the last value of `p[a..b]` that is not whitespace.
fn last_non_whitespace(p: &[Spanned<ComponentValue>], a: usize, b: usize) -> (r: usize)
    requires
        a <= b <= p.len(),
        !blank(p@, a as int, b as int),
    ensures
        r as int == last_non_ws_in(p@, a as int, b as int),
        a <= r < b,
{
    let mut k = b;
    while k > a && is_whitespace(&p[k - 1])
        invariant
            a <= k <= b <= p.len(),
            last_non_ws_in(p@, a as int, b as int) == last_non_ws_in(p@, a as int, k as int),
            blank(p@, k as int, b as int),
        decreases k,
    {
        k = k - 1;
    }
    if k == a {
        assert(blank(p@, a as int, b as int));
    }
    k - 1
}

/// A complex selector `p[a..b]`: compounds joined by combinators. Reports a
/// combinator with nothing on one side (`> p`, `a >`, `a > > b`).
fn validate_complex(p: &[Spanned<ComponentValue>], a: usize, b: usize, errors: &mut Vec<SyntaxError>)
    requires
        a <= b <= p.len(),
    ensures
        errors_view(final(errors)@) == errors_view(old(errors)@) + complex(p@, a as int, a as int, b as int, true, false),
{
    let mut expect_compound = true;
    let mut saw_any = false;
    let mut i = a;
    let ghost e_start = errors_view(errors@);
    while i < b
        invariant
            a <= i <= b <= p.len(),
            e_start == errors_view(old(errors)@),
            errors_view(old(errors)@).len() <= errors_view(errors@).len(),
            errors_view(errors@).subrange(0, e_start.len() as int) == e_start,
            complex(p@, a as int, a as int, b as int, true, false) == errors_view(errors@).subrange(
                e_start.len() as int,
                errors_view(errors@).len() as int,
            ) + complex(p@, a as int, i as int, b as int, expect_compound, saw_any),
            saw_any ==> !blank(p@, a as int, b as int),
        decreases b - i,
    {
        let ghost e0 = errors_view(errors@);
        let ghost k = e_start.len() as int;
        if is_whitespace(&p[i]) {
            i = i + 1;
        } else if combinator_width(p, i, b) > 0 {
            let w = combinator_width(p, i, b);
            if expect_compound {
                push_error(errors, p[i].span);
            }
            proof {
                let e1 = errors_view(errors@);
                let here = if expect_compound { seq![p@[i as int].span] } else { seq![] };
                assert(e1.subrange(0, k) =~= e0.subrange(0, k));
                assert(e1.subrange(k, e1.len() as int) =~= e0.subrange(k, e0.len() as int) + here);
                assert(e0.subrange(k, e0.len() as int) + (here + complex(p@, a as int, i + w, b as int, true, saw_any))
                    =~= e1.subrange(k, e1.len() as int) + complex(p@, a as int, i + w, b as int, true, saw_any));
            }
            expect_compound = true;
            i = i + w;
        } else {
            let j = validate_compound(p, i, b, errors);
            proof {
                let e1 = errors_view(errors@);
                let add = compound(p@, i as int, b as int).1;
                assert(e1.subrange(0, k) =~= e0.subrange(0, k));
                assert(e1.subrange(k, e1.len() as int) =~= e0.subrange(k, e0.len() as int) + add);
                assert(!is_ws_cv(p@[i as int]));
                assert(!blank(p@, a as int, b as int));
                // A compound at a value that is neither whitespace nor a
                // combinator always takes at least one value.
                assert(i < j);
                assert(e0.subrange(k, e0.len() as int) + (add + complex(p@, a as int, j as int, b as int, false, true))
                    =~= e1.subrange(k, e1.len() as int) + complex(p@, a as int, j as int, b as int, false, true));
            }
            i = j;
            expect_compound = false;
            saw_any = true;
        }
    }
    let ghost e0 = errors_view(errors@);
    let ghost k = e_start.len() as int;
    if expect_compound && saw_any {
        let l = last_non_whitespace(p, a, b);
        push_error(errors, p[l].span);
        proof {
            let e1 = errors_view(errors@);
            assert(e1.subrange(0, k) =~= e0.subrange(0, k));
            assert(e1 =~= e_start + (e0.subrange(k, e0.len() as int) + seq![p@[l as int].span]));
        }
    } else {
        assert(e0 =~= e_start + (e0.subrange(k, e0.len() as int) + Seq::<Span>::empty()));
    }
}

/// Report every place a qualified rule's prelude fails to be a selector
/// list. An empty result means "this is a selector list as far as syntax
/// goes", not that the selector matches anything.
pub fn validate_selector_list(prelude: &[Spanned<ComponentValue>]) -> (r: Vec<SyntaxError>)
    ensures
        errors_view(r@) == selector_list_errors(prelude@),
        forall|k: int| 0 <= k < r@.len() ==> (#[trigger] r@[k]).kind == SyntaxErrorKind::InvalidSelector,
{
    let mut errors: Vec<SyntaxError> = Vec::new();
    let parts = split_on_commas(prelude, &mut errors);
    let ghost split_errs = split_parts(prelude@, 0, 0, false).1;
    assert(errors_view(errors@) =~= split_errs);
    let mut k: usize = 0;
    while k < parts.len()
        invariant
            0 <= k <= parts.len(),
            parts_view(parts@) == split_parts(prelude@, 0, 0, false).0,
            forall|j: int| 0 <= j < parts@.len() ==> (#[trigger] parts@[j]).0 <= parts@[j].1 <= prelude.len(),
            errors_view(errors@) == split_errs + parts_errors(prelude@, parts_view(parts@), k as int),
            forall|j: int| 0 <= j < errors@.len() ==> (#[trigger] errors@[j]).kind == SyntaxErrorKind::InvalidSelector,
        decreases parts.len() - k,
    {
        let (a, b) = parts[k];
        let ghost before = errors@;
        validate_complex(prelude, a, b, &mut errors);
        proof {
            assert(parts_view(parts@)[k as int] == (a as int, b as int));
            assert(errors_view(errors@) =~= split_errs + parts_errors(prelude@, parts_view(parts@), k + 1));
        }
        k = k + 1;
    }
    errors
}

/// Append the ident at `k` of `p[..b]`, with its span, if there is one.
fn push_ident_at(p: &[Spanned<ComponentValue>], k: usize, b: usize, out: &mut Vec<Spanned<String>>)
    requires
        b <= p.len(),
    ensures
        names_view(final(out)@) == names_view(old(out)@) + ident_name_at(p@, k as int, b as int),
{
    if k < b {
        match &p[k].node {
            ComponentValue::Token(Token::Ident(name)) => {
                out.push(Spanned::new(name.clone(), p[k].span));
                assert(names_view(out@) =~= names_view(old(out)@) + ident_name_at(p@, k as int, b as int));
                return;
            },
            _ => {},
        }
    }
    assert(names_view(out@) =~= names_view(old(out)@) + ident_name_at(p@, k as int, b as int));
}

fn type_names_in(p: &[Spanned<ComponentValue>], a: usize, b: usize, out: &mut Vec<Spanned<String>>)
    requires
        a <= b <= p.len(),
    ensures
        names_view(final(out)@) == names_view(old(out)@) + names_in(p@, a as int, b as int, true),
{
    let mut expect_compound = true;
    let mut i = a;
    while i < b
        invariant
            a <= i <= b <= p.len(),
            names_view(old(out)@) + names_in(p@, a as int, b as int, true) == names_view(out@) + names_in(
                p@,
                i as int,
                b as int,
                expect_compound,
            ),
        decreases b - i,
    {
        let ghost n0 = names_view(out@);
        // Whitespace is the descendant combinator, so it starts a new
        // compound just as `>` does.
        if is_whitespace(&p[i]) {
            expect_compound = true;
            i = i + 1;
        } else if combinator_width(p, i, b) > 0 {
            expect_compound = true;
            i = i + combinator_width(p, i, b);
        } else {
            let ghost i0 = i as int;
            let ghost here = if expect_compound {
                head_name(p@, i0, b as int)
            } else {
                seq![]
            };
            if expect_compound {
                match &p[i].node {
                    ComponentValue::Token(Token::Ident(_)) => {
                        // `ns|E`: the name is the tail, and the head was the prefix.
                        if is_delim(p, i + 1, b, '|') && !is_delim(p, i + 2, b, '|') {
                            push_ident_at(p, i + 2, b, out);
                        } else {
                            push_ident_at(p, i, b, out);
                        }
                    },
                    ComponentValue::Token(Token::Delim(c)) => {
                        if *c == '*' && is_delim(p, i + 1, b, '|') && !is_delim(p, i + 2, b, '|') {
                            push_ident_at(p, i + 2, b, out);
                        } else if *c == '|' {
                            push_ident_at(p, i + 1, b, out);
                        } else {
                            assert(names_view(out@) =~= n0 + here);
                        }
                    },
                    _ => {},
                }
            }
            assert(names_view(out@) =~= n0 + here);
            // Skip to the end of this compound: only its head can be a type
            // selector.
            while i < b && !is_whitespace(&p[i]) && combinator_width(p, i, b) == 0
                invariant
                    i0 <= i <= b <= p.len(),
                    compound_end(p@, i0, b as int) == compound_end(p@, i as int, b as int),
                decreases b - i,
            {
                i = i + 1;
            }
            proof {
                assert(i0 < i);
                assert(n0 + (here + names_in(p@, i as int, b as int, false)) =~= names_view(out@) + names_in(
                    p@,
                    i as int,
                    b as int,
                    false,
                ));
            }
            expect_compound = false;
        }
    }
    assert(names_view(out@) + Seq::<(Seq<char>, Span)>::empty() =~= names_view(out@));
}

/// Every type selector name in a qualified rule's prelude, with its span:
/// the element name written bare at the head of a compound selector (the
/// `h4` in `h4.note`, `div` in `div > p`), the local name for `ns|E`, and
/// nothing for `*`, classes, ids, attributes or pseudo-classes. Syntax
/// errors are ignored: whatever names can still be seen are returned.
pub fn type_selector_names(prelude: &[Spanned<ComponentValue>]) -> (r: Vec<Spanned<String>>)
    ensures
        names_view(r@) == parts_names(
            prelude@,
            split_parts(prelude@, 0, 0, false).0,
            split_parts(prelude@, 0, 0, false).0.len() as int,
        ),
{
    let mut sink: Vec<SyntaxError> = Vec::new();
    let parts = split_on_commas(prelude, &mut sink);
    let mut out: Vec<Spanned<String>> = Vec::new();
    let mut k: usize = 0;
    while k < parts.len()
        invariant
            0 <= k <= parts.len(),
            parts_view(parts@) == split_parts(prelude@, 0, 0, false).0,
            forall|j: int| 0 <= j < parts@.len() ==> (#[trigger] parts@[j]).0 <= parts@[j].1 <= prelude.len(),
            names_view(out@) == parts_names(prelude@, parts_view(parts@), k as int),
        decreases parts.len() - k,
    {
        let (a, b) = parts[k];
        type_names_in(prelude, a, b, &mut out);
        assert(parts_view(parts@)[k as int] == (a as int, b as int));
        k = k + 1;
    }
    out
}

// ---------------------------------------------------------------------------
// What a prelude without errors looks like
// ---------------------------------------------------------------------------

pub open spec fn is_comma_cv(v: Spanned<ComponentValue>) -> bool {
    v.node matches ComponentValue::Token(Token::Comma)
}

/// `>`, `+` or `~`: the combinators that are one value.
pub open spec fn is_single_combinator(v: Spanned<ComponentValue>) -> bool {
    v.node matches ComponentValue::Token(Token::Delim(c)) && (c == '>' || c == '+' || c == '~')
}

/// Where the comma-separated part holding index `k` starts: just past the
/// nearest comma before `k`, or at 0.
pub open spec fn part_start(p: Vals, k: int) -> int
    decreases k,
{
    if k <= 0 {
        0
    } else if is_comma_cv(p[k - 1]) {
        k
    } else {
        part_start(p, k - 1)
    }
}

/// Where the comma-separated part holding index `k` ends: at the nearest
/// comma at or after `k`, or at the end.
pub open spec fn part_end(p: Vals, k: int) -> int
    decreases p.len() - k,
{
    if k < 0 || k >= p.len() {
        p.len() as int
    } else if is_comma_cv(p[k]) {
        k
    } else {
        part_end(p, k + 1)
    }
}

proof fn lemma_part_start_bounds(p: Vals, k: int)
    requires
        0 <= k <= p.len(),
    ensures
        0 <= part_start(p, k) <= k,
        forall|j: int| part_start(p, k) <= j < k ==> !is_comma_cv(#[trigger] p[j]),
        part_start(p, k) == 0 || is_comma_cv(p[part_start(p, k) - 1]),
    decreases k,
{
    if k > 0 && !is_comma_cv(p[k - 1]) {
        lemma_part_start_bounds(p, k - 1);
    }
}

proof fn lemma_part_start_same(p: Vals, a: int, k: int)
    requires
        0 <= a <= k <= p.len(),
        a == 0 || is_comma_cv(p[a - 1]),
        forall|j: int| a <= j < k ==> !is_comma_cv(#[trigger] p[j]),
    ensures
        part_start(p, k) == a,
    decreases k,
{
    if k > a {
        lemma_part_start_same(p, a, k - 1);
    }
}

proof fn lemma_part_end_bounds(p: Vals, k: int)
    requires
        0 <= k <= p.len(),
    ensures
        k <= part_end(p, k) <= p.len(),
        forall|j: int| k <= j < part_end(p, k) ==> !is_comma_cv(#[trigger] p[j]),
        part_end(p, k) == p.len() || is_comma_cv(p[part_end(p, k)]),
    decreases p.len() - k,
{
    if k < p.len() && !is_comma_cv(p[k]) {
        lemma_part_end_bounds(p, k + 1);
    }
}

proof fn lemma_part_end_same(p: Vals, k: int, b: int)
    requires
        0 <= k <= b <= p.len(),
        b == p.len() || is_comma_cv(p[b]),
        forall|j: int| k <= j < b ==> !is_comma_cv(#[trigger] p[j]),
    ensures
        part_end(p, k) == b,
    decreases b - k,
{
    if k < b {
        lemma_part_end_same(p, k + 1, b);
    }
}

proof fn lemma_split_shape(p: Vals, i: int, start: int, seen: bool)
    requires
        0 <= start <= i <= p.len(),
        forall|j: int| start <= j < i ==> !is_comma_cv(#[trigger] p[j]),
        start == 0 || is_comma_cv(p[start - 1]),
        start > 0 ==> seen,
    ensures
        split_parts(p, i, start, seen).1.len() == 0 ==> {
            &&& forall|k: int|
                i <= k < p.len() && is_comma_cv(#[trigger] p[k]) ==> !blank(p, part_start(p, k), k) && !blank(
                    p,
                    k + 1,
                    part_end(p, k + 1),
                )
            &&& start > 0 ==> !blank(p, start, part_end(p, start))
        },
    decreases p.len() - i,
{
    let r = split_parts(p, i, start, seen);
    if i >= p.len() {
        if r.1.len() == 0 {
            assert forall|j: int| start <= j < p.len() implies !is_comma_cv(#[trigger] p[j]) by {}
            lemma_part_end_same(p, start, p.len() as int);
        }
    } else if is_comma_cv(p[i]) {
        if r.1.len() == 0 {
            assert(!blank(p, start, i));
            lemma_split_shape(p, i + 1, i + 1, true);
            lemma_part_start_same(p, start, i);
            lemma_part_end_same(p, start, i);
        }
    } else {
        lemma_split_shape(p, i + 1, start, seen);
    }
}

proof fn lemma_split_member(p: Vals, i: int, start: int, seen: bool, k: int)
    requires
        0 <= start <= i <= p.len(),
        forall|j: int| start <= j < i ==> !is_comma_cv(#[trigger] p[j]),
        start == 0 || is_comma_cv(p[start - 1]),
        start <= k < p.len(),
        !is_comma_cv(p[k]),
        !blank(p, part_start(p, k), part_end(p, k)),
        split_parts(p, i, start, seen).1.len() == 0,
    ensures
        split_parts(p, i, start, seen).0.contains((part_start(p, k), part_end(p, k))),
    decreases p.len() - i,
{
    let r = split_parts(p, i, start, seen);
    if i >= p.len() {
        assert forall|j: int| start <= j < p.len() implies !is_comma_cv(#[trigger] p[j]) by {}
        lemma_part_start_same(p, start, k);
        lemma_part_end_same(p, k, p.len() as int);
        assert(r.0[0] == (start, p.len() as int));
    } else if is_comma_cv(p[i]) {
        let seen2 = seen || !blank(p, start, i);
        let rest = split_parts(p, i + 1, i + 1, seen2);
        if k < i {
            lemma_part_start_same(p, start, k);
            lemma_part_end_same(p, k, i);
            assert(!blank(p, start, i));
            assert(r.0[0] == (start, i));
        } else {
            assert(!blank(p, start, i) ==> r == (seq![(start, i)] + rest.0, rest.1));
            if blank(p, start, i) {
                assert(r.1.len() > 0);
            }
            lemma_split_member(p, i + 1, i + 1, seen2, k);
            let m = choose|m: int| 0 <= m < rest.0.len() && rest.0[m] == (part_start(p, k), part_end(p, k));
            assert(r.0[m + 1] == rest.0[m]);
        }
    } else {
        lemma_split_member(p, i + 1, start, seen, k);
    }
}

proof fn lemma_parts_errors_one(p: Vals, parts: Seq<(int, int)>, n: int, m: int)
    requires
        0 <= m < n <= parts.len(),
        parts_errors(p, parts, n).len() == 0,
    ensures
        complex(p, parts[m].0, parts[m].0, parts[m].1, true, false).len() == 0,
    decreases n,
{
    if m < n - 1 {
        lemma_parts_errors_one(p, parts, n - 1, m);
    }
}

proof fn lemma_simple_values(p: Vals, i: int, b: int)
    requires
        0 <= i < b <= p.len(),
    ensures
        1 <= simple(p, i, b).0,
        i + simple(p, i, b).0 <= b,
        forall|k: int| i < k < i + simple(p, i, b).0 ==> !is_ws_cv(#[trigger] p[k]) && !is_single_combinator(p[k]),
{
}

proof fn lemma_compound_values(p: Vals, i: int, b: int)
    requires
        0 <= i <= b <= p.len(),
    ensures
        i <= compound(p, i, b).0 <= b,
        forall|k: int| i <= k < compound(p, i, b).0 ==> !is_ws_cv(#[trigger] p[k]) && !is_single_combinator(p[k]),
        i < b && !is_ws_cv(p[i]) && combinator_len(p, i, b) == 0 ==> i < compound(p, i, b).0,
    decreases b - i,
{
    if i < b && !is_ws_cv(p[i]) && combinator_len(p, i, b) == 0 {
        lemma_simple_values(p, i, b);
        let n = simple(p, i, b).0;
        lemma_compound_values(p, i + n, b);
        assert(!is_single_combinator(p[i]));
    }
}

/// The last value before `i` that is not whitespace stands in `p[a..i]` and
/// is not a `>`, `+` or `~`.
pub open spec fn ends_compound(p: Vals, a: int, i: int) -> bool {
    exists|l: int| a <= l < i && !is_ws_cv(#[trigger] p[l]) && !is_single_combinator(p[l]) && blank(p, l + 1, i)
}

/// The first value after `k` that is not whitespace stands before `b` and
/// does not begin a combinator.
pub open spec fn starts_compound_after(p: Vals, k: int, b: int) -> bool {
    exists|r: int| k < r < b && !is_ws_cv(#[trigger] p[r]) && combinator_len(p, r, b) == 0 && blank(p, k + 1, r)
}

proof fn lemma_complex_shape(p: Vals, a: int, i: int, b: int, expect: bool, saw: bool)
    requires
        0 <= a <= i <= b <= p.len(),
        !expect ==> saw && ends_compound(p, a, i),
        complex(p, a, i, b, expect, saw).len() == 0,
    ensures
        forall|k: int|
            i <= k < b && is_single_combinator(#[trigger] p[k]) ==> ends_compound(p, a, k) && starts_compound_after(
                p,
                k,
                b,
            ),
        expect ==> forall|k: int|
            i <= k < b && blank(p, i, k) && !is_ws_cv(#[trigger] p[k]) ==> combinator_len(p, k, b) == 0,
        expect && saw ==> exists|r: int|
            i <= r < b && blank(p, i, r) && !is_ws_cv(#[trigger] p[r]) && combinator_len(p, r, b) == 0,
    decreases b - i,
{
    if i >= b {
    } else if is_ws_cv(p[i]) {
        if !expect {
            let l = choose|l: int| a <= l < i && !is_ws_cv(#[trigger] p[l]) && !is_single_combinator(p[l]) && blank(p, l + 1, i);
            assert(blank(p, l + 1, i + 1));
        }
        lemma_complex_shape(p, a, i + 1, b, expect, saw);
        if expect && saw {
            let r = choose|r: int| i + 1 <= r < b && blank(p, i + 1, r) && !is_ws_cv(#[trigger] p[r]) && combinator_len(p, r, b) == 0;
            assert(blank(p, i, r));
        }
        assert forall|k: int|
            i <= k < b && blank(p, i, k) && !is_ws_cv(#[trigger] p[k]) && expect implies combinator_len(p, k, b) == 0 by {
            assert(k != i);
            assert(blank(p, i + 1, k));
        }
    } else if combinator_len(p, i, b) > 0 {
        let w = combinator_len(p, i, b);
        assert(!expect);
        lemma_complex_shape(p, a, i + w, b, true, saw);
        assert forall|k: int|
            i <= k < b && is_single_combinator(#[trigger] p[k]) implies ends_compound(p, a, k) && starts_compound_after(
                p,
                k,
                b,
            ) by {
            if k == i {
                assert(w == 1);
                let r = choose|r: int| i + 1 <= r < b && blank(p, i + 1, r) && !is_ws_cv(#[trigger] p[r]) && combinator_len(p, r, b) == 0;
                assert(starts_compound_after(p, k, b));
            } else if k < i + w {
                assert(delim_at(p, k, b, '|'));
            }
        }
    } else {
        lemma_compound_values(p, i, b);
        let j = compound(p, i, b).0;
        assert(i < j <= b);
        assert(ends_compound(p, a, j)) by {
            assert(blank(p, j, j));
            assert(!is_ws_cv(p[j - 1]) && !is_single_combinator(p[j - 1]));
        }
        lemma_complex_shape(p, a, j, b, false, true);
        assert forall|k: int|
            i <= k < b && blank(p, i, k) && !is_ws_cv(#[trigger] p[k]) && expect implies combinator_len(p, k, b) == 0 by {
            if k > i {
                assert(is_ws_cv(p[i]));
            }
        }
        if expect && saw {
            assert(blank(p, i, i));
        }
    }
}

/// The part holding a value that is neither a comma nor whitespace was
/// checked as a complex selector, without errors.
proof fn lemma_part_checked(p: Vals, k: int)
    requires
        selector_list_errors(p).len() == 0,
        0 <= k < p.len(),
        !is_comma_cv(p[k]),
        !is_ws_cv(p[k]),
    ensures
        0 <= part_start(p, k) <= k < part_end(p, k) <= p.len(),
        complex(p, part_start(p, k), part_start(p, k), part_end(p, k), true, false).len() == 0,
{
    let r = split_parts(p, 0, 0, false);
    let parts = r.0;
    assert(r.1.len() == 0 && parts_errors(p, parts, parts.len() as int).len() == 0);
    lemma_part_start_bounds(p, k);
    lemma_part_end_bounds(p, k);
    let a = part_start(p, k);
    let b = part_end(p, k);
    assert(!blank(p, a, b));
    lemma_split_member(p, 0, 0, false, k);
    let m = choose|m: int| 0 <= m < parts.len() && parts[m] == (a, b);
    lemma_parts_errors_one(p, parts, parts.len() as int, m);
}

/// What a prelude with no selector errors looks like: every comma has a
/// part on each side that is not blank; every `>`, `+` and `~` stands,
/// within its part, after a value that is neither whitespace nor another of
/// them (with only whitespace between), and before a value that is not
/// whitespace and does not begin a combinator; and the first value of a
/// part that is not whitespace does not begin a combinator.
#[verifier::rlimit(60)]
pub proof fn lemma_selector_list_shape(p: Vals)
    requires
        selector_list_errors(p).len() == 0,
    ensures
        forall|k: int|
            0 <= k < p.len() && is_comma_cv(#[trigger] p[k]) ==> !blank(p, part_start(p, k), k) && !blank(
                p,
                k + 1,
                part_end(p, k + 1),
            ),
        forall|k: int|
            0 <= k < p.len() && is_single_combinator(#[trigger] p[k]) ==> ends_compound(p, part_start(p, k), k)
                && starts_compound_after(p, k, part_end(p, k)),
        forall|k: int|
            0 <= k < p.len() && !is_ws_cv(#[trigger] p[k]) && blank(p, part_start(p, k), k) ==> combinator_len(
                p,
                k,
                part_end(p, k),
            ) == 0,
{
    assert(split_parts(p, 0, 0, false).1.len() == 0);
    lemma_split_shape(p, 0, 0, false);
    assert forall|k: int| 0 <= k < p.len() && is_single_combinator(#[trigger] p[k]) implies ends_compound(
        p,
        part_start(p, k),
        k,
    ) && starts_compound_after(p, k, part_end(p, k)) by {
        lemma_part_checked(p, k);
        lemma_complex_shape(p, part_start(p, k), part_start(p, k), part_end(p, k), true, false);
    }
    assert forall|k: int| 0 <= k < p.len() && !is_ws_cv(#[trigger] p[k]) && blank(p, part_start(p, k), k) implies combinator_len(
        p,
        k,
        part_end(p, k),
    ) == 0 by {
        if !is_comma_cv(p[k]) {
            lemma_part_checked(p, k);
            lemma_complex_shape(p, part_start(p, k), part_start(p, k), part_end(p, k), true, false);
        }
    }
}

} // verus!
