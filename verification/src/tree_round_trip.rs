//! Serialized trees parse back to the trees they were written from.
//!
//! The written text of a list of component values is first read back token
//! by token: it tokenizes to the tokens the values are made of, in order
//! (`flat_vals`), the serializer's empty comments between values that would
//! otherwise run together reading as nothing. The core grammar, run over
//! those tokens, then builds the same values again.
//!
//! The trees covered are those whose every token is one that reads back as
//! itself whatever harmless text follows it (see `writable_token`), and
//! whose shape the grammar can rebuild (see `rule_round_trips` and
//! `item_round_trips`). Outside them the trip back can fail: a `\`
//! delimiter before a space is read back as an escape, a NUL in a name as
//! U+FFFD, a function named `url` as a url token, whitespace at the start of
//! a rule's prelude or of a declaration's value is skipped, and a value
//! ending in `!` `important` is read as the flag.

use vstd::prelude::*;

use crate::grammar::{
    at_matches, at_rule_end, block_matches, closes, cv_end, cv_matches, decl_end, decl_matches,
    decl_value_start, decls_match, has_colon, important_name, is_bang_value, is_important_value,
    is_ws_value, last_non_ws, opens, qualified_matches, rules_match, run_end, skip_ws, stops,
    strip_important, vals_seg, Stop, Toks,
};
use crate::locality::{lemma_tokens_from_shift, rest, token_kinds};
use crate::parser::{
    same_at, same_block, same_cv, same_item, same_items, same_rule, same_rules, same_vals, AtRule,
    BlockKind, ComponentValue, Declaration, DeclarationListItem, QualifiedRule, Rule, SimpleBlock,
};
use crate::roundtrip::{
    follows_cleanly, is_url_name, lemma_clean_before_separator, lemma_dimension_reads_in,
    lemma_first_reads_back, lemma_first_then_rest, lemma_hash_reads_in, lemma_ident_dispatch_at,
    lemma_ident_head, lemma_name_chunk_at, lemma_read_name, lemma_string_reads_in,
    lemma_url_reads_in, name_stops, nul_replaced, occurs_at, read_back, stops_at_comment,
};
use crate::scan::{
    comment_close, digit_at, ident_like_token, is_at, name_start_at, next_token, number_run,
    skip_comments, starts_ident_at, starts_number_at, stylesheet_tokens, token_at, tokenize,
    tokens_from, valid_escape_at,
};
use crate::serialize::{
    at_rule_out, block_out, close_char, cv_out, declaration_out, first_tok, ident_out, important_out,
    item_out, items_out, last_tok, name_char_out, name_out, name_prefix_out, needs_sep, open_char,
    rule_out, rules_out, sep_out, separator_out, token_out, unit_out, vals_out,
};
use crate::span::Spanned;
use crate::spanned as sp;
use crate::text::{eq_ignore_ascii_case, spec_is_digit};
use crate::token::SpecToken;

verus! {

/// The kinds of the tokens a text is read as.
#[verifier::opaque]
pub open spec fn reads(w: Seq<char>) -> Seq<SpecToken> {
    token_kinds(tokenize(w))
}

/// The token that opens a block of this kind.
pub open spec fn open_tok(kind: BlockKind) -> SpecToken {
    match kind {
        BlockKind::Curly => SpecToken::LeftCurly,
        BlockKind::Square => SpecToken::LeftSquare,
        BlockKind::Paren => SpecToken::LeftParen,
    }
}

/// The token that closes a block of this kind.
pub open spec fn close_tok(kind: BlockKind) -> SpecToken {
    match kind {
        BlockKind::Curly => SpecToken::RightCurly,
        BlockKind::Square => SpecToken::RightSquare,
        BlockKind::Paren => SpecToken::RightParen,
    }
}

/// The tokens a component value is made of, in order.
pub open spec fn flat_cv(v: ComponentValue) -> Seq<SpecToken>
    decreases v,
{
    match v {
        ComponentValue::Token(t) => seq![t@],
        ComponentValue::Function { name, args } => seq![SpecToken::Function(name@)] + flat_vals(args@)
            + seq![SpecToken::RightParen],
        ComponentValue::Block(b) => seq![open_tok(b.kind)] + flat_vals(b.values@) + seq![close_tok(b.kind)],
    }
}

/// The tokens a list of component values is made of, in order.
pub open spec fn flat_vals(vs: Seq<ComponentValue>) -> Seq<SpecToken>
    decreases vs,
{
    if vs.len() == 0 {
        seq![]
    } else {
        flat_cv(vs[0]) + flat_vals(vs.drop_first())
    }
}

/// A token that reads back as itself from its written text, wherever what
/// follows does not run into it: a string or url holding no NUL; a hash
/// with a non-empty value holding no NUL, flagged as an identifier or
/// starting with a digit or `-` and a digit (any other hash value reads
/// back as an identifier); a dimension whose number text reads as one
/// number and whose unit is a non-empty name holding no NUL; an identifier or at-keyword with a non-empty name holding no
/// NUL; a number or percentage whose text reads as one number; a delimiter
/// that reads as itself (but `\`); whitespace, punctuation, `<!--` and
/// `-->`.
pub open spec fn writable_token(t: SpecToken) -> bool {
    match t {
        SpecToken::String(s) => nul_replaced(s) == s,
        SpecToken::Url(s) => nul_replaced(s) == s,
        SpecToken::Hash { value, is_id } => {
            &&& writable_name(value)
            &&& (is_id || spec_is_digit(value[0]) || (value[0] == '-' && value.len() >= 2 && spec_is_digit(
                value[1],
            )))
        },
        SpecToken::Dimension { num_type, unit, repr } => {
            &&& starts_number_at(repr, 0)
            &&& number_run(repr, 0) == (num_type, repr.len() as int)
            &&& writable_name(unit)
        },
        _ => stops_at_comment(t) && read_back(t) == t,
    }
}

/// What may follow the written text of a writable token without running
/// into it: for a hash or a dimension, whose text ends in a name, nothing
/// that continues a name, and after a dimension whose unit is `e` or `E`
/// alone, no sign and digit either (which would make it an exponent).
pub open spec fn clean_after(a: SpecToken, z: Seq<char>) -> bool {
    &&& follows_cleanly(a, z)
    &&& (a is Hash || a is Dimension) ==> name_stops(z, 0)
    &&& a matches SpecToken::Dimension { unit, .. } ==> (unit.len() == 1 && (unit[0] == 'e' || unit[0]
        == 'E') ==> !((is_at(z, 0, '+') || is_at(z, 0, '-')) && digit_at(z, 1)))
}

/// A name the serializer writes so that it reads back as itself.
pub open spec fn writable_name(s: Seq<char>) -> bool {
    s.len() > 0 && nul_replaced(s) == s
}

/// Every token of the value is a writable token, and a function's name is
/// a writable name other than `url`.
pub open spec fn writable_cv(v: ComponentValue) -> bool
    decreases v,
{
    match v {
        ComponentValue::Token(t) => writable_token(t@),
        ComponentValue::Function { name, args } => writable_name(name@) && !is_url_name(name@)
            && writable_vals(args@),
        ComponentValue::Block(b) => writable_vals(b.values@),
    }
}

pub open spec fn writable_vals(vs: Seq<ComponentValue>) -> bool
    decreases vs,
{
    forall|i: int| 0 <= i < vs.len() ==> writable_cv(#[trigger] vs[i])
}

/// A text that starts with nothing a written token could run into: it is
/// empty or starts with a closing bracket, `{`, `;`, `:`, or `!` not followed
/// by `-`.
pub open spec fn quiet(z: Seq<char>) -> bool {
    ||| z.len() == 0
    ||| z[0] == ')' || z[0] == ']' || z[0] == '}' || z[0] == '{' || z[0] == ';' || z[0] == ':'
    ||| z[0] == '!' && !is_at(z, 1, '-')
}

proof fn lemma_quiet_follows(a: SpecToken, z: Seq<char>)
    requires
        writable_token(a),
        quiet(z),
    ensures
        clean_after(a, z),
{
}

/// The separating comment does not run into any writable token.
proof fn lemma_clean_before_sep(a: SpecToken, w: Seq<char>)
    requires
        writable_token(a),
    ensures
        clean_after(a, separator_out() + w),
{
    let z = separator_out() + w;
    assert(z[0] == '/' && z[1] == '*');
    if stops_at_comment(a) {
        lemma_clean_before_separator(a, w);
    }
}

proof fn lemma_name_out_nonempty(s: Seq<char>, b: bool)
    requires
        s.len() > 0,
    ensures
        name_out(s, b).len() > 0,
{
    if s != seq!['-'] {
        lemma_name_chunk_at(s, 0, b);
    }
}

proof fn lemma_token_out_nonempty(a: SpecToken)
    requires
        writable_token(a),
    ensures
        token_out(a).len() > 0,
{
    match a {
        SpecToken::Ident(x) => lemma_name_out_nonempty(x, true),
        SpecToken::Dimension { repr, .. } => {
            assert(repr.len() > 0);
        },
        _ => {},
    }
}

/// A writable token's text, followed by a text that does not run into it,
/// is read as the token up to where its text ends.
proof fn lemma_first_token(a: SpecToken, z: Seq<char>)
    requires
        writable_token(a),
        clean_after(a, z),
    ensures
        token_out(a).len() > 0,
        next_token(token_out(a) + z, 0) == Some((a, 0int, token_out(a).len() as int)),
{
    match a {
        SpecToken::String(s) => {
            lemma_string_reads_in(s, z);
        },
        SpecToken::Url(s) => {
            lemma_url_reads_in(s, z);
        },
        SpecToken::Hash { value, is_id } => {
            let w = name_out(value, is_id);
            let t = seq!['#'] + w + z;
            assert(token_out(a) == seq!['#'] + w);
            lemma_hash_reads_in(value, is_id, z);
            if !is_id {
                assert(value != seq!['-']);
                lemma_name_chunk_at(value, 0, false);
                assert(name_char_out(value, 0, false) == seq![value[0]]);
                assert(w == name_prefix_out(value, value.len() as int, false));
                assert(name_prefix_out(value, 0, false).len() == 0);
                assert(w[0int + 0] == value[0]);
                assert(t[1] == w[0]);
                if value[0] == '-' && !spec_is_digit(value[0]) {
                    lemma_name_chunk_at(value, 1, false);
                    assert(name_char_out(value, 1, false) == seq![value[1]]);
                    assert(name_prefix_out(value, 1, false) =~= seq![value[0]]);
                    assert(w[1int + 0] == value[1]);
                    assert(t[2] == w[1]);
                }
                assert(!starts_ident_at(t, 1));
            }
        },
        SpecToken::Dimension { num_type, unit, repr } => {
            lemma_dimension_reads_in(repr, num_type, unit, z);
            assert(token_out(a) + z =~= repr + unit_out(unit) + z);
        },
        _ => {
            lemma_token_out_nonempty(a);
            lemma_first_reads_back(a, z);
        },
    }
}

/// A writable token's text, followed by a text that does not run into it,
/// reads as the token and then as that text on its own.
proof fn lemma_read_token(a: SpecToken, z: Seq<char>)
    requires
        writable_token(a),
        clean_after(a, z),
    ensures
        reads(token_out(a) + z) == seq![a] + reads(z),
{
    reveal(reads);
    let t = token_out(a) + z;
    let p = token_out(a).len() as int;
    lemma_first_token(a, z);
    lemma_first_then_rest(t, p, a);
    assert(rest(t, p) =~= z);
    lemma_tokens_from_shift(t, p, p);
}

/// The separating empty comment reads as nothing.
proof fn lemma_read_separator(w: Seq<char>)
    requires
        reads(w).len() > 0,
    ensures
        reads(separator_out() + w) == reads(w),
{
    reveal(reads);
    let t = separator_out() + w;
    assert(t[0] == '/' && t[1] == '*' && t[2] == '*' && t[3] == '/');
    assert(comment_close(t, 2) == 4);
    assert(skip_comments(t, 0) == skip_comments(t, 4));
    assert(rest(t, 4) =~= w);
    lemma_tokens_from_shift(t, 4, 4);
    assert(tokens_from(t, 4).len() > 0);
    assert(next_token(t, 0) == next_token(t, 4));
    assert(tokens_from(t, 0) == tokens_from(t, 4));
}

/// A written function name and its `(`, then any text: the function token,
/// then what that text reads as.
proof fn lemma_read_function_head(name: Seq<char>, w: Seq<char>)
    requires
        writable_name(name),
        !is_url_name(name),
    ensures
        reads(ident_out(name) + seq!['('] + w) == seq![SpecToken::Function(name)] + reads(w),
{
    reveal(reads);
    let o = ident_out(name);
    let t = o + seq!['('] + w;
    let p = o.len() as int;
    assert(occurs_at(t, o, 0)) by {
        assert forall|j: int| 0 <= j < o.len() implies #[trigger] t[0 + j] == o[j] by {}
    }
    assert(t[p] == '(');
    lemma_ident_dispatch_at(t, 0, name);
    lemma_read_name(t, 0, name, true);
    assert(ident_like_token(t, 0) == (SpecToken::Function(name), p + 1));
    lemma_first_then_rest(t, p + 1, SpecToken::Function(name));
    assert(rest(t, p + 1) =~= w);
    lemma_tokens_from_shift(t, p + 1, p + 1);
}

/// The written values one after another, read from the front: the first
/// value's text, then what stands between it and the second, then the rest.
proof fn lemma_vals_out_front(vs: Seq<ComponentValue>)
    requires
        vs.len() > 0,
    ensures
        vals_out(vs) == cv_out(vs[0]) + (if vs.len() >= 2 {
            sep_out(last_tok(vs[0]), vs[1]) + vals_out(vs.drop_first())
        } else {
            seq![]
        }),
    decreases vs.len(),
{
    let d = vs.drop_last();
    let n = vs.len();
    if n == 1 {
        assert(d =~= Seq::<ComponentValue>::empty());
        assert(vals_out(vs) =~= cv_out(vs[0]));
    } else {
        let df = vs.drop_first();
        if n == 2 {
            assert(d =~= seq![vs[0]]);
            assert(d.drop_last() =~= Seq::<ComponentValue>::empty());
            assert(vals_out(Seq::<ComponentValue>::empty()) == Seq::<char>::empty());
            assert(d.last() == vs[0]);
            assert(vals_out(d) =~= cv_out(vs[0]));
            assert(df.drop_last() =~= Seq::<ComponentValue>::empty());
            assert(df.last() == vs[1]);
            assert(vals_out(df) =~= cv_out(vs[1]));
            assert(vals_out(vs) =~= cv_out(vs[0]) + (sep_out(last_tok(vs[0]), vs[1]) + vals_out(df)));
        } else {
            lemma_vals_out_front(d);
            assert(d.drop_first() =~= df.drop_last());
            assert(d[0] == vs[0] && d[1] == vs[1]);
            assert(df[df.len() - 2] == vs[n - 2]);
            assert(df.last() == vs.last());
            assert(vals_out(vs) =~= cv_out(vs[0]) + (sep_out(last_tok(vs[0]), vs[1]) + vals_out(df)));
        }
    }
}

/// The token a writable value's text ends with is one that stops where its
/// text ends.
proof fn lemma_last_tok_stops(v: ComponentValue)
    requires
        writable_cv(v),
    ensures
        writable_token(last_tok(v)),
{
}

proof fn lemma_writable_tail(vs: Seq<ComponentValue>)
    requires
        writable_vals(vs),
        vs.len() > 0,
    ensures
        writable_cv(vs[0]),
        writable_vals(vs.drop_first()),
{
    assert forall|i: int| 0 <= i < vs.drop_first().len() implies writable_cv(#[trigger] vs.drop_first()[i]) by {
        assert(vs.drop_first()[i] == vs[i + 1]);
    }
}

/// Where no separator is written before a value, the value's text (and what
/// follows it, when the value is a single token) does not run into the
/// token before it.
proof fn lemma_clean_before_value(a: SpecToken, b: ComponentValue, y: Seq<char>)
    requires
        writable_token(a),
        writable_cv(b),
        !needs_sep(a, first_tok(b)),
        b is Token ==> clean_after(last_tok(b), y),
    ensures
        clean_after(a, cv_out(b) + y),
{
    let z = cv_out(b) + y;
    match b {
        ComponentValue::Token(tb) => {
            let t = tb@;
            let o = token_out(t);
            lemma_token_out_nonempty(t);
            assert(z =~= o + y);
            assert(z[0] == o[0]);
            match t {
                SpecToken::Ident(x) => {
                    assert(occurs_at(z, o, 0)) by {
                        assert forall|j: int| 0 <= j < o.len() implies #[trigger] z[0 + j] == o[j] by {}
                    }
                    lemma_ident_head(z, 0, x);
                },
                SpecToken::Number { repr, .. } => {
                    assert(o == repr);
                    if repr.len() > 1 {
                        assert(z[1] == repr[1]);
                    }
                    if repr.len() > 2 {
                        assert(z[2] == repr[2]);
                    }
                },
                SpecToken::Percentage { repr } => {
                    assert(o == repr.push('%'));
                    assert(z[0] == repr[0]);
                    if repr.len() > 1 {
                        assert(z[1] == repr[1]);
                    }
                    if repr.len() > 2 {
                        assert(z[2] == repr[2]);
                    }
                },
                SpecToken::Delim(c) => {
                    assert(o.len() == 1);
                    assert(z[0] == c);
                    assert(name_start_at(z, 1) == name_start_at(y, 0));
                    assert(is_at(z, 1, '-') == is_at(y, 0, '-'));
                    assert(is_at(z, 1, '>') == is_at(y, 0, '>'));
                    assert(digit_at(z, 1) == digit_at(y, 0));
                    assert(valid_escape_at(z, 1) == valid_escape_at(y, 0));
                    assert(token_at(seq![c], 0) == (SpecToken::Delim(c), 1int));
                },
                SpecToken::Cdc => {
                    assert(z[0] == '-' && z[1] == '-' && z[2] == '>');
                },
                SpecToken::String(x) => {
                    assert(o[0] == '"');
                },
                SpecToken::Url(x) => {
                    assert(o[0] == 'u');
                },
                SpecToken::Hash { .. } => {
                    assert(o[0] == '#');
                },
                SpecToken::Dimension { repr, unit, .. } => {
                    assert(o == repr + unit_out(unit));
                    assert(z[0] == repr[0]);
                    if repr.len() > 1 {
                        assert(z[1] == repr[1]);
                    }
                    if repr.len() > 2 {
                        assert(z[2] == repr[2]);
                    }
                },
                SpecToken::Cdo => {
                    assert(z[0] == '<' && z[1] == '!');
                },
                _ => {},
            }
        },
        ComponentValue::Function { name, args } => {
            let o = ident_out(name@);
            assert(z =~= o + (seq!['('] + vals_out(args@).push(')') + y));
            assert(occurs_at(z, o, 0)) by {
                assert forall|j: int| 0 <= j < o.len() implies #[trigger] z[0 + j] == o[j] by {}
            }
            lemma_ident_head(z, 0, name@);
        },
        ComponentValue::Block(bl) => {
            assert(z[0] == open_char(bl.kind));
        },
    }
}

/// Where no separator is written before a list of values, its text does
/// not run into the token before it.
proof fn lemma_clean_before_vals(a: SpecToken, vs: Seq<ComponentValue>, z: Seq<char>)
    requires
        writable_token(a),
        writable_vals(vs),
        vs.len() > 0,
        !needs_sep(a, first_tok(vs[0])),
        clean_after(last_tok(vs.last()), z),
    ensures
        clean_after(a, vals_out(vs) + z),
    decreases vs.len(),
{
    lemma_vals_out_front(vs);
    lemma_writable_tail(vs);
    let tl = vs.drop_first();
    if vs.len() == 1 {
        assert(vals_out(vs) + z =~= cv_out(vs[0]) + z);
        lemma_clean_before_value(a, vs[0], z);
    } else {
        let y = sep_out(last_tok(vs[0]), vs[1]) + (vals_out(tl) + z);
        assert(vals_out(vs) + z =~= cv_out(vs[0]) + y);
        assert(tl[0] == vs[1] && tl.last() == vs.last());
        lemma_last_tok_stops(vs[0]);
        if needs_sep(last_tok(vs[0]), first_tok(vs[1])) {
            lemma_clean_before_sep(last_tok(vs[0]), vals_out(tl) + z);
        } else {
            assert(y =~= vals_out(tl) + z);
            lemma_clean_before_vals(last_tok(vs[0]), tl, z);
        }
        lemma_clean_before_value(a, vs[0], y);
    }
}

proof fn lemma_flat_cv_nonempty(v: ComponentValue)
    ensures
        flat_cv(v).len() > 0,
        flat_cv(v)[0] == first_tok(v),
{
    match v {
        ComponentValue::Block(b) => {
            match b.kind {
                BlockKind::Curly => {},
                BlockKind::Square => {},
                BlockKind::Paren => {},
            }
        },
        _ => {},
    }
}

/// A writable value's text, followed by a text that does not run into it,
/// reads as the value's tokens and then as that text on its own.
#[verifier::rlimit(40)]
proof fn lemma_read_cv(v: ComponentValue, z: Seq<char>)
    requires
        writable_cv(v),
        clean_after(last_tok(v), z),
    ensures
        reads(cv_out(v) + z) == flat_cv(v) + reads(z),
    decreases v,
{
    match v {
        ComponentValue::Token(t) => {
            lemma_read_token(t@, z);
        },
        ComponentValue::Function { name, args } => {
            let w = vals_out(args@) + (seq![')'] + z);
            assert(cv_out(v) + z =~= ident_out(name@) + seq!['('] + w);
            lemma_read_function_head(name@, w);
            if args@.len() > 0 {
                lemma_last_tok_stops(args@.last());
                lemma_quiet_follows(last_tok(args@.last()), seq![')'] + z);
            }
            lemma_read_vals(args@, seq![')'] + z);
            assert(token_out(SpecToken::RightParen) == seq![')']);
            lemma_read_token(SpecToken::RightParen, z);
            assert(flat_cv(v) + reads(z) =~= seq![SpecToken::Function(name@)] + (flat_vals(args@) + (
            seq![SpecToken::RightParen] + reads(z))));
        },
        ComponentValue::Block(b) => {
            let k = b.kind;
            let w = vals_out(b.values@) + (seq![close_char(k)] + z);
            assert(cv_out(v) + z =~= seq![open_char(k)] + w);
            assert(token_out(open_tok(k)) == seq![open_char(k)]);
            assert(token_out(close_tok(k)) == seq![close_char(k)]);
            lemma_read_token(open_tok(k), w);
            if b.values@.len() > 0 {
                lemma_last_tok_stops(b.values@.last());
                lemma_quiet_follows(last_tok(b.values@.last()), seq![close_char(k)] + z);
            }
            lemma_read_vals(b.values@, seq![close_char(k)] + z);
            lemma_read_token(close_tok(k), z);
            assert(flat_cv(v) + reads(z) =~= seq![open_tok(k)] + (flat_vals(b.values@) + (seq![close_tok(k)]
                + reads(z))));
        },
    }
}

/// Writable values' text, followed by a text that does not run into the
/// last of them, reads as the values' tokens and then as that text.
proof fn lemma_read_vals(vs: Seq<ComponentValue>, z: Seq<char>)
    requires
        writable_vals(vs),
        vs.len() > 0 ==> clean_after(last_tok(vs.last()), z),
    ensures
        reads(vals_out(vs) + z) == flat_vals(vs) + reads(z),
    decreases vs,
{
    if vs.len() == 0 {
        assert(vals_out(vs) + z =~= z);
        assert(flat_vals(vs) + reads(z) =~= reads(z));
    } else {
        lemma_vals_out_front(vs);
        lemma_writable_tail(vs);
        let tl = vs.drop_first();
        if vs.len() == 1 {
            assert(vals_out(vs) + z =~= cv_out(vs[0]) + z);
            assert(tl =~= Seq::<ComponentValue>::empty());
            assert(flat_vals(tl) == Seq::<SpecToken>::empty());
            assert(flat_vals(vs) =~= flat_cv(vs[0]));
            lemma_read_cv(vs[0], z);
        } else {
            let sep = needs_sep(last_tok(vs[0]), first_tok(vs[1]));
            let y = sep_out(last_tok(vs[0]), vs[1]) + (vals_out(tl) + z);
            assert(vals_out(vs) + z =~= cv_out(vs[0]) + y);
            assert(tl[0] == vs[1] && tl.last() == vs.last());
            lemma_last_tok_stops(vs[0]);
            if sep {
                lemma_clean_before_sep(last_tok(vs[0]), vals_out(tl) + z);
            } else {
                assert(y =~= vals_out(tl) + z);
                lemma_clean_before_vals(last_tok(vs[0]), tl, z);
            }
            lemma_read_cv(vs[0], y);
            lemma_read_vals(tl, z);
            if sep {
                lemma_flat_cv_nonempty(tl[0]);
                assert(flat_vals(tl).len() > 0);
                lemma_read_separator(vals_out(tl) + z);
            } else {
                assert(y =~= vals_out(tl) + z);
            }
            assert(flat_vals(vs) + reads(z) =~= flat_cv(vs[0]) + (flat_vals(tl) + reads(z)));
        }
    }
}

/// The tokens a block is made of: its brackets and its values' tokens.
pub open spec fn flat_block(b: SimpleBlock) -> Seq<SpecToken> {
    seq![open_tok(b.kind)] + flat_vals(b.values@) + seq![close_tok(b.kind)]
}

/// The tokens a rule is made of, in order.
pub open spec fn flat_rule(r: Rule) -> Seq<SpecToken> {
    match r {
        Rule::Qualified(q) => flat_vals(q.prelude@) + flat_block(q.block),
        Rule::At(a) => flat_at(a),
    }
}

pub open spec fn flat_at(a: AtRule) -> Seq<SpecToken> {
    seq![SpecToken::AtKeyword(a.name@)] + flat_vals(a.prelude@) + match a.block {
        Some(b) => flat_block(b),
        None => seq![SpecToken::Semicolon],
    }
}

pub open spec fn flat_rules(rs: Seq<Rule>) -> Seq<SpecToken>
    decreases rs.len(),
{
    if rs.len() == 0 {
        seq![]
    } else {
        flat_rule(rs[0]) + flat_rules(rs.drop_first())
    }
}

/// An at-rule whose name and tokens are writable, and whose block, if any,
/// is a `{}` block.
pub open spec fn writable_at(a: AtRule) -> bool {
    &&& writable_name(a.name@)
    &&& writable_vals(a.prelude@)
    &&& match a.block {
        Some(b) => b.kind == BlockKind::Curly && writable_vals(b.values@),
        None => true,
    }
}

/// A rule whose tokens are writable, and whose block is a `{}` block.
pub open spec fn writable_rule(r: Rule) -> bool {
    match r {
        Rule::Qualified(q) => writable_vals(q.prelude@) && q.block.kind == BlockKind::Curly && writable_vals(
            q.block.values@,
        ),
        Rule::At(a) => writable_at(a),
    }
}

proof fn lemma_read_block(b: SimpleBlock, w: Seq<char>)
    requires
        writable_vals(b.values@),
    ensures
        reads(block_out(b) + w) == flat_block(b) + reads(w),
{
    let v = ComponentValue::Block(b);
    assert(block_out(b) =~= cv_out(v));
    assert(flat_block(b) =~= flat_cv(v));
    lemma_read_cv(v, w);
}

/// A written at-rule, then any text: the at-rule's tokens, then what that
/// text reads as.
#[verifier::rlimit(40)]
proof fn lemma_read_at(a: AtRule, w: Seq<char>)
    requires
        writable_at(a),
    ensures
        reads(at_rule_out(a) + w) == flat_at(a) + reads(w),
{
    let kw = SpecToken::AtKeyword(a.name@);
    let pre = a.prelude@;
    let tail = match a.block {
        Some(b) => block_out(b),
        None => seq![';'],
    };
    let ft = match a.block {
        Some(b) => flat_block(b),
        None => seq![SpecToken::Semicolon],
    };
    let sp = if pre.len() > 0 {
        sep_out(kw, pre[0])
    } else {
        seq![]
    };
    let r1 = sp + (vals_out(pre) + (tail + w));
    assert(at_rule_out(a) + w =~= token_out(kw) + r1);
    assert(tail[0] == '{' || tail[0] == ';');
    assert(quiet(tail + w));
    match a.block {
        Some(b) => lemma_read_block(b, w),
        None => {
            assert(token_out(SpecToken::Semicolon) == seq![';']);
            lemma_read_token(SpecToken::Semicolon, w);
        },
    }
    assert(reads(tail + w) == ft + reads(w));
    if pre.len() > 0 {
        lemma_last_tok_stops(pre.last());
        lemma_quiet_follows(last_tok(pre.last()), tail + w);
    }
    lemma_read_vals(pre, tail + w);
    if pre.len() == 0 {
        assert(r1 =~= tail + w);
        lemma_quiet_follows(kw, tail + w);
        assert(vals_out(pre) =~= Seq::<char>::empty());
        assert(flat_vals(pre) =~= Seq::<SpecToken>::empty());
    } else if needs_sep(kw, first_tok(pre[0])) {
        lemma_clean_before_sep(kw, vals_out(pre) + (tail + w));
        lemma_flat_cv_nonempty(pre[0]);
        lemma_read_separator(vals_out(pre) + (tail + w));
    } else {
        assert(r1 =~= vals_out(pre) + (tail + w));
        lemma_clean_before_vals(kw, pre, tail + w);
    }
    lemma_read_token(kw, r1);
    assert(flat_at(a) + reads(w) =~= seq![kw] + (flat_vals(pre) + (ft + reads(w))));
}

proof fn lemma_read_rule(r: Rule, w: Seq<char>)
    requires
        writable_rule(r),
    ensures
        reads(rule_out(r) + w) == flat_rule(r) + reads(w),
{
    match r {
        Rule::Qualified(q) => {
            let pre = q.prelude@;
            lemma_read_block(q.block, w);
            assert(block_out(q.block)[0] == '{');
            if pre.len() > 0 {
                lemma_last_tok_stops(pre.last());
                lemma_quiet_follows(last_tok(pre.last()), block_out(q.block) + w);
            }
            lemma_read_vals(pre, block_out(q.block) + w);
            assert(rule_out(r) + w =~= vals_out(pre) + (block_out(q.block) + w));
            assert(flat_rule(r) + reads(w) =~= flat_vals(pre) + (flat_block(q.block) + reads(w)));
        },
        Rule::At(a) => lemma_read_at(a, w),
    }
}

proof fn lemma_rules_out_front(rs: Seq<Rule>)
    requires
        rs.len() > 0,
    ensures
        rules_out(rs) == rule_out(rs[0]) + rules_out(rs.drop_first()),
    decreases rs.len(),
{
    let d = rs.drop_last();
    let df = rs.drop_first();
    if rs.len() == 1 {
        assert(d =~= Seq::<Rule>::empty());
        assert(df =~= Seq::<Rule>::empty());
        assert(rules_out(d) == Seq::<char>::empty());
        assert(rs.last() == rs[0]);
        assert(rules_out(rs) =~= rule_out(rs[0]));
        assert(rules_out(df) =~= Seq::<char>::empty());
    } else {
        lemma_rules_out_front(d);
        assert(d.drop_first() =~= df.drop_last());
        assert(d[0] == rs[0] && df.last() == rs.last());
        assert(rules_out(rs) =~= rule_out(rs[0]) + rules_out(df));
    }
}

/// Written rules, then any text: the rules' tokens, then what that text
/// reads as.
proof fn lemma_read_rules(rs: Seq<Rule>, w: Seq<char>)
    requires
        forall|i: int| 0 <= i < rs.len() ==> writable_rule(#[trigger] rs[i]),
    ensures
        reads(rules_out(rs) + w) == flat_rules(rs) + reads(w),
    decreases rs.len(),
{
    if rs.len() == 0 {
        assert(rules_out(rs) + w =~= w);
        assert(flat_rules(rs) + reads(w) =~= reads(w));
    } else {
        let df = rs.drop_first();
        lemma_rules_out_front(rs);
        assert(forall|i: int| 0 <= i < df.len() ==> #[trigger] df[i] == rs[i + 1]);
        lemma_read_rules(df, w);
        lemma_read_rule(rs[0], rules_out(df) + w);
        assert(rules_out(rs) + w =~= rule_out(rs[0]) + (rules_out(df) + w));
        assert(flat_rules(rs) + reads(w) =~= flat_rule(rs[0]) + (flat_rules(df) + reads(w)));
    }
}

// ---------------------------------------------------------------------------
// The grammar builds the values again from their tokens
// ---------------------------------------------------------------------------

/// The token kinds of `toks` from index `k` on begin with `f`.
pub open spec fn kinds_at(toks: Toks, k: int, f: Seq<SpecToken>) -> bool {
    &&& 0 <= k
    &&& k + f.len() <= toks.len()
    &&& token_kinds(toks).subrange(k, k + f.len()) == f
}

proof fn lemma_kinds_at_index(toks: Toks, k: int, f: Seq<SpecToken>, i: int)
    requires
        kinds_at(toks, k, f),
        0 <= i < f.len(),
    ensures
        toks[k + i].0 == f[i],
{
    assert(token_kinds(toks).subrange(k, k + f.len())[i] == token_kinds(toks)[k + i]);
}

proof fn lemma_kinds_at_split(toks: Toks, k: int, f: Seq<SpecToken>, g: Seq<SpecToken>)
    requires
        kinds_at(toks, k, f + g),
    ensures
        kinds_at(toks, k, f),
        kinds_at(toks, k + f.len(), g),
{
    let ks = token_kinds(toks);
    assert(ks.subrange(k, k + f.len()) =~= (f + g).subrange(0, f.len() as int));
    assert((f + g).subrange(0, f.len() as int) =~= f);
    assert(ks.subrange(k + f.len(), k + f.len() + g.len()) =~= (f + g).subrange(f.len() as int, (f + g).len() as int));
    assert((f + g).subrange(f.len() as int, (f + g).len() as int) =~= g);
}

/// The grammar rebuilds the value from its tokens: no token value opens a
/// block or is a function token, and the values inside a function or block
/// are rebuilt too, none of them starting with the closing bracket.
pub open spec fn shape_cv(v: ComponentValue) -> bool
    decreases v,
{
    match v {
        ComponentValue::Token(t) => opens(t@) is None && !(t@ is Function),
        ComponentValue::Function { args, .. } => shape_vals(args@, Stop::Close(BlockKind::Paren)),
        ComponentValue::Block(b) => shape_vals(b.values@, Stop::Close(b.kind)),
    }
}

/// Each value is rebuilt from its tokens, and none starts with a token at
/// which a run of values that ends at `stop` stops.
pub open spec fn shape_vals(vs: Seq<ComponentValue>, stop: Stop) -> bool
    decreases vs,
{
    forall|i: int| 0 <= i < vs.len() ==> !stops(first_tok(#[trigger] vs[i]), stop) && shape_cv(vs[i])
}

proof fn lemma_shape_tail(vs: Seq<ComponentValue>, stop: Stop)
    requires
        shape_vals(vs, stop),
        vs.len() > 0,
    ensures
        shape_cv(vs[0]),
        !stops(first_tok(vs[0]), stop),
        shape_vals(vs.drop_first(), stop),
{
    assert forall|i: int| 0 <= i < vs.drop_first().len() implies !stops(first_tok(#[trigger] vs.drop_first()[i]), stop)
        && shape_cv(vs.drop_first()[i]) by {
        assert(vs.drop_first()[i] == vs[i + 1]);
    }
}

proof fn lemma_open_tok(kind: BlockKind)
    ensures
        opens(open_tok(kind)) == Some(kind),
        closes(close_tok(kind), kind),
        !(open_tok(kind) is Function),
{
    match kind {
        BlockKind::Curly => {},
        BlockKind::Square => {},
        BlockKind::Paren => {},
    }
}

/// Consuming a component value at its first token ends just past its last.
proof fn lemma_cv_end_flat(v: ComponentValue, toks: Toks, k: int)
    requires
        kinds_at(toks, k, flat_cv(v)),
        shape_cv(v),
    ensures
        cv_end(toks, k) == k + flat_cv(v).len(),
    decreases v,
{
    lemma_flat_cv_nonempty(v);
    lemma_kinds_at_index(toks, k, flat_cv(v), 0);
    match v {
        ComponentValue::Token(t) => {},
        ComponentValue::Function { name, args } => {
            let f = flat_vals(args@);
            let m = f.len() as int;
            assert(flat_cv(v) =~= seq![SpecToken::Function(name@)] + (f + seq![SpecToken::RightParen]));
            lemma_kinds_at_split(toks, k, seq![SpecToken::Function(name@)], f + seq![SpecToken::RightParen]);
            lemma_kinds_at_split(toks, k + 1, f, seq![SpecToken::RightParen]);
            lemma_kinds_at_index(toks, k + 1 + m, seq![SpecToken::RightParen], 0);
            lemma_run_end_flat(args@, toks, k + 1, Stop::Close(BlockKind::Paren));
        },
        ComponentValue::Block(b) => {
            let f = flat_vals(b.values@);
            let m = f.len() as int;
            lemma_open_tok(b.kind);
            assert(flat_cv(v) =~= seq![open_tok(b.kind)] + (f + seq![close_tok(b.kind)]));
            lemma_kinds_at_split(toks, k, seq![open_tok(b.kind)], f + seq![close_tok(b.kind)]);
            lemma_kinds_at_split(toks, k + 1, f, seq![close_tok(b.kind)]);
            lemma_kinds_at_index(toks, k + 1 + m, seq![close_tok(b.kind)], 0);
            lemma_run_end_flat(b.values@, toks, k + 1, Stop::Close(b.kind));
            match b.kind {
                BlockKind::Curly => {},
                BlockKind::Square => {},
                BlockKind::Paren => {},
            }
        },
    }
}

/// Consuming values from the first token of a list of them goes on past
/// the list.
proof fn lemma_run_end_flat(vs: Seq<ComponentValue>, toks: Toks, k: int, stop: Stop)
    requires
        kinds_at(toks, k, flat_vals(vs)),
        shape_vals(vs, stop),
    ensures
        run_end(toks, k, stop) == run_end(toks, k + flat_vals(vs).len(), stop),
    decreases vs,
{
    if vs.len() > 0 {
        let tl = vs.drop_first();
        lemma_shape_tail(vs, stop);
        lemma_flat_cv_nonempty(vs[0]);
        lemma_kinds_at_split(toks, k, flat_cv(vs[0]), flat_vals(tl));
        lemma_kinds_at_index(toks, k, flat_cv(vs[0]), 0);
        lemma_cv_end_flat(vs[0], toks, k);
        lemma_run_end_flat(tl, toks, k + flat_cv(vs[0]).len(), stop);
    }
}

/// A run of values that ends at a token which stops it, or at the end.
proof fn lemma_run_end_here(vs: Seq<ComponentValue>, toks: Toks, k: int, stop: Stop)
    requires
        kinds_at(toks, k, flat_vals(vs)),
        shape_vals(vs, stop),
        k + flat_vals(vs).len() == toks.len() || stops(toks[k + flat_vals(vs).len()].0, stop),
    ensures
        run_end(toks, k, stop) == k + flat_vals(vs).len(),
{
    lemma_run_end_flat(vs, toks, k, stop);
}

/// Any value the grammar builds from a value's tokens is that value, with
/// spans.
proof fn lemma_cv_same_flat(v: ComponentValue, sv: Spanned<sp::ComponentValue>, toks: Toks, k: int)
    requires
        kinds_at(toks, k, flat_cv(v)),
        shape_cv(v),
        cv_matches(sv, toks, k),
    ensures
        same_cv(v, sv.node),
    decreases v,
{
    lemma_flat_cv_nonempty(v);
    lemma_kinds_at_index(toks, k, flat_cv(v), 0);
    match v {
        ComponentValue::Token(t) => {},
        ComponentValue::Function { name, args } => {
            let f = flat_vals(args@);
            let m = f.len() as int;
            let stop = Stop::Close(BlockKind::Paren);
            assert(flat_cv(v) =~= seq![SpecToken::Function(name@)] + (f + seq![SpecToken::RightParen]));
            lemma_kinds_at_split(toks, k, seq![SpecToken::Function(name@)], f + seq![SpecToken::RightParen]);
            lemma_kinds_at_split(toks, k + 1, f, seq![SpecToken::RightParen]);
            lemma_kinds_at_index(toks, k + 1 + m, seq![SpecToken::RightParen], 0);
            lemma_run_end_here(args@, toks, k + 1, stop);
            match sv.node {
                sp::ComponentValue::Function { name: n2, args: a2 } => {
                    lemma_vals_same_flat(args@, a2@, toks, k + 1, k + 1 + m, stop);
                    lemma_seg_rest_empty(a2@.skip(args@.len() as int), toks, k + 1 + m, stop);
                    assert(a2@.take(args@.len() as int) =~= a2@);
                },
                _ => {},
            }
        },
        ComponentValue::Block(b) => {
            let f = flat_vals(b.values@);
            let m = f.len() as int;
            let stop = Stop::Close(b.kind);
            lemma_open_tok(b.kind);
            assert(flat_cv(v) =~= seq![open_tok(b.kind)] + (f + seq![close_tok(b.kind)]));
            lemma_kinds_at_split(toks, k, seq![open_tok(b.kind)], f + seq![close_tok(b.kind)]);
            lemma_kinds_at_split(toks, k + 1, f, seq![close_tok(b.kind)]);
            lemma_kinds_at_index(toks, k + 1 + m, seq![close_tok(b.kind)], 0);
            assert(stops(toks[k + 1 + m].0, stop));
            lemma_run_end_here(b.values@, toks, k + 1, stop);
            match sv.node {
                sp::ComponentValue::Block(b2) => {
                    assert(b2.kind == b.kind);
                    lemma_vals_same_flat(b.values@, b2.values@, toks, k + 1, k + 1 + m, stop);
                    lemma_seg_rest_empty(b2.values@.skip(b.values@.len() as int), toks, k + 1 + m, stop);
                    assert(b2.values@.take(b.values@.len() as int) =~= b2.values@);
                },
                _ => {},
            }
        },
    }
}

/// Nothing more is built where a run of values stops.
proof fn lemma_seg_rest_empty(raw: Seq<Spanned<sp::ComponentValue>>, toks: Toks, e: int, stop: Stop)
    requires
        vals_seg(raw, toks, e, e, stop),
        e == toks.len() || (0 <= e < toks.len() && stops(toks[e].0, stop)),
    ensures
        raw.len() == 0,
{
}

/// The values the grammar builds from the tokens of a list of values start
/// with those values, with spans; what it builds after them is built from
/// the tokens after them.
proof fn lemma_vals_same_flat(
    vs: Seq<ComponentValue>,
    raw: Seq<Spanned<sp::ComponentValue>>,
    toks: Toks,
    k: int,
    e: int,
    stop: Stop,
)
    requires
        kinds_at(toks, k, flat_vals(vs)),
        shape_vals(vs, stop),
        vals_seg(raw, toks, k, e, stop),
        e >= k + flat_vals(vs).len(),
    ensures
        raw.len() >= vs.len(),
        same_vals(vs, raw.take(vs.len() as int)),
        vals_seg(raw.skip(vs.len() as int), toks, k + flat_vals(vs).len(), e, stop),
    decreases vs,
{
    let n = vs.len() as int;
    if n == 0 {
        assert(raw.skip(0) =~= raw);
        assert(flat_vals(vs).len() == 0);
    } else {
        let tl = vs.drop_first();
        lemma_shape_tail(vs, stop);
        lemma_flat_cv_nonempty(vs[0]);
        let k1 = k + flat_cv(vs[0]).len();
        lemma_kinds_at_split(toks, k, flat_cv(vs[0]), flat_vals(tl));
        assert(raw.len() > 0);
        lemma_cv_same_flat(vs[0], raw[0], toks, k);
        lemma_cv_end_flat(vs[0], toks, k);
        let rt = raw.drop_first();
        lemma_vals_same_flat(tl, rt, toks, k1, e, stop);
        assert(rt.skip(n - 1) =~= raw.skip(n));
        let tk = raw.take(n);
        assert forall|i: int| 0 <= i < n implies same_cv(#[trigger] vs[i], tk[i].node) by {
            if i > 0 {
                assert(tl[i - 1] == vs[i]);
                assert(rt.take(n - 1)[i - 1] == tk[i]);
            }
        }
    }
}

/// The block the grammar builds from a block's tokens is that block, with
/// spans.
proof fn lemma_block_same_flat(b: SimpleBlock, sb: Spanned<sp::SimpleBlock>, toks: Toks, p: int)
    requires
        kinds_at(toks, p, flat_block(b)),
        shape_vals(b.values@, Stop::Close(b.kind)),
        block_matches(sb, toks, p),
    ensures
        same_block(b, sb.node),
        cv_end(toks, p) == p + flat_block(b).len(),
{
    let v = ComponentValue::Block(b);
    assert(flat_block(b) =~= flat_cv(v));
    let sv = Spanned { node: sp::ComponentValue::Block(sb.node), span: sb.span };
    lemma_cv_end_flat(v, toks, p);
    assert(cv_matches(sv, toks, p));
    lemma_cv_same_flat(v, sv, toks, p);
}

// ---------------------------------------------------------------------------
// Rules
// ---------------------------------------------------------------------------

/// A token a qualified rule's prelude can start with at the top level of a
/// stylesheet: one the grammar neither skips there (whitespace, `<!--`,
/// `-->`) nor reads as the start of an at-rule.
pub open spec fn starts_rule(t: SpecToken) -> bool {
    !(t is Whitespace || t is Cdo || t is Cdc || t is AtKeyword)
}

/// The grammar rebuilds the at-rule from its tokens: its prelude holds no
/// `;` or `{` at its top level.
pub open spec fn at_ok(a: AtRule) -> bool {
    &&& shape_vals(a.prelude@, Stop::SemicolonOrCurly)
    &&& match a.block {
        Some(b) => shape_vals(b.values@, Stop::Close(b.kind)),
        None => true,
    }
}

/// The grammar rebuilds the rule from its tokens.
pub open spec fn rule_ok(r: Rule) -> bool {
    match r {
        Rule::Qualified(q) => {
            &&& shape_vals(q.prelude@, Stop::OpenCurly)
            &&& shape_vals(q.block.values@, Stop::Close(q.block.kind))
            &&& q.prelude@.len() > 0 ==> starts_rule(first_tok(q.prelude@[0]))
        },
        Rule::At(a) => at_ok(a),
    }
}

/// A rule that the serializer writes so that it parses back as itself: its
/// tokens are writable, its block is a `{}` block, and the grammar rebuilds
/// it from its tokens.
pub open spec fn rule_round_trips(r: Rule) -> bool {
    writable_rule(r) && rule_ok(r)
}

proof fn lemma_at_same_flat(a: AtRule, sa: sp::AtRule, span: crate::span::Span, toks: Toks, k: int)
    requires
        kinds_at(toks, k, flat_at(a)),
        writable_at(a),
        at_ok(a),
    ensures
        at_rule_end(toks, k) == k + flat_at(a).len(),
        at_matches(sa, span, toks, k) ==> same_at(a, sa),
{
    let kw = SpecToken::AtKeyword(a.name@);
    let pre = a.prelude@;
    let f = flat_vals(pre);
    let m = f.len() as int;
    let ft = match a.block {
        Some(b) => flat_block(b),
        None => seq![SpecToken::Semicolon],
    };
    let stop = Stop::SemicolonOrCurly;
    assert(flat_at(a) == seq![kw] + f + ft);
    lemma_kinds_at_split(toks, k, seq![kw] + f, ft);
    lemma_kinds_at_split(toks, k, seq![kw], f);
    lemma_kinds_at_index(toks, k, seq![kw], 0);
    let p = k + 1 + m;
    match a.block {
        Some(b) => {
            lemma_kinds_at_index(toks, p, ft, 0);
            assert(toks[p].0 == SpecToken::LeftCurly);
        },
        None => {
            lemma_kinds_at_index(toks, p, ft, 0);
        },
    }
    lemma_run_end_here(pre, toks, k + 1, stop);
    assert(run_end(toks, k + 1, stop) == p);
    match a.block {
        Some(b) => {
            let v = ComponentValue::Block(b);
            assert(flat_block(b) =~= flat_cv(v));
            lemma_cv_end_flat(v, toks, p);
        },
        None => {},
    }
    if at_matches(sa, span, toks, k) {
        lemma_vals_same_flat(pre, sa.prelude@, toks, k + 1, p, stop);
        lemma_seg_rest_empty(sa.prelude@.skip(pre.len() as int), toks, p, stop);
        assert(sa.prelude@.take(pre.len() as int) =~= sa.prelude@);
        match a.block {
            Some(b) => {
                match sa.block {
                    Some(sb) => lemma_block_same_flat(b, sb, toks, p),
                    None => {},
                }
            },
            None => {},
        }
    }
}

proof fn lemma_qualified_same_flat(
    q: QualifiedRule,
    sq: sp::QualifiedRule,
    span: crate::span::Span,
    toks: Toks,
    k: int,
)
    requires
        kinds_at(toks, k, flat_vals(q.prelude@) + flat_block(q.block)),
        q.block.kind == BlockKind::Curly,
        shape_vals(q.prelude@, Stop::OpenCurly),
        shape_vals(q.block.values@, Stop::Close(q.block.kind)),
    ensures
        run_end(toks, k, Stop::OpenCurly) == k + flat_vals(q.prelude@).len(),
        cv_end(toks, k + flat_vals(q.prelude@).len()) == k + flat_vals(q.prelude@).len() + flat_block(
            q.block,
        ).len(),
        qualified_matches(sq, span, toks, k) ==> same_vals(q.prelude@, sq.prelude@) && same_block(
            q.block,
            sq.block.node,
        ),
{
    let pre = q.prelude@;
    let f = flat_vals(pre);
    let p = k + f.len();
    let fb = flat_block(q.block);
    let stop = Stop::OpenCurly;
    lemma_kinds_at_split(toks, k, f, fb);
    lemma_kinds_at_index(toks, p, fb, 0);
    lemma_run_end_here(pre, toks, k, stop);
    let v = ComponentValue::Block(q.block);
    assert(fb =~= flat_cv(v));
    lemma_cv_end_flat(v, toks, p);
    if qualified_matches(sq, span, toks, k) {
        lemma_vals_same_flat(pre, sq.prelude@, toks, k, p, stop);
        lemma_seg_rest_empty(sq.prelude@.skip(pre.len() as int), toks, p, stop);
        assert(sq.prelude@.take(pre.len() as int) =~= sq.prelude@);
        lemma_block_same_flat(q.block, sq.block, toks, p);
    }
}

/// The rules the grammar builds from the tokens of a list of rules are
/// those rules, with spans.
proof fn lemma_rules_same_flat(rules: Seq<Rule>, s: Seq<Spanned<sp::Rule>>, toks: Toks, k: int)
    requires
        kinds_at(toks, k, flat_rules(rules)),
        k + flat_rules(rules).len() == toks.len(),
        forall|i: int| 0 <= i < rules.len() ==> rule_round_trips(#[trigger] rules[i]),
        rules_match(s, toks, k, true),
    ensures
        same_rules(rules, s),
    decreases rules.len(),
{
    if rules.len() > 0 {
        let r = rules[0];
        let tl = rules.drop_first();
        assert(rule_round_trips(r));
        lemma_kinds_at_split(toks, k, flat_rule(r), flat_rules(tl));
        let e = k + flat_rule(r).len();
        match r {
            Rule::At(a) => {
                assert(flat_rule(r) == flat_at(a));
                lemma_kinds_at_index(toks, k, flat_at(a), 0);
                assert(toks[k].0 == SpecToken::AtKeyword(a.name@));
                lemma_at_same_flat(a, a_of(s[0].node), s[0].span, toks, k);
                assert(at_rule_end(toks, k) == e);
                assert(same_rule(r, s[0].node));
            },
            Rule::Qualified(q) => {
                let f = flat_vals(q.prelude@);
                assert(flat_rule(r) == f + flat_block(q.block));
                lemma_kinds_at_index(toks, k, flat_rule(r), 0);
                if q.prelude@.len() > 0 {
                    lemma_flat_cv_nonempty(q.prelude@[0]);
                    assert(f[0] == first_tok(q.prelude@[0]));
                    assert(flat_rule(r)[0] == f[0]);
                } else {
                    assert(f.len() == 0);
                    assert(flat_rule(r)[0] == flat_block(q.block)[0]);
                }
                assert(starts_rule(toks[k].0));
                lemma_qualified_same_flat(q, q_of(s[0].node), s[0].span, toks, k);
                assert(same_rule(r, s[0].node));
            },
        }
        assert forall|i: int| 0 <= i < tl.len() implies rule_round_trips(#[trigger] tl[i]) by {
            assert(tl[i] == rules[i + 1]);
        }
        lemma_rules_same_flat(tl, s.drop_first(), toks, e);
        assert forall|i: int| 0 <= i < rules.len() implies same_rule(#[trigger] rules[i], s[i].node) by {
            if i > 0 {
                assert(tl[i - 1] == rules[i]);
                assert(s.drop_first()[i - 1] == s[i]);
            }
        }
    }
}

/// The at-rule a spanned rule holds, if it holds one.
spec fn a_of(r: sp::Rule) -> sp::AtRule {
    match r {
        sp::Rule::At(a) => a,
        sp::Rule::Qualified(_) => arbitrary(),
    }
}

/// The qualified rule a spanned rule holds, if it holds one.
spec fn q_of(r: sp::Rule) -> sp::QualifiedRule {
    match r {
        sp::Rule::Qualified(q) => q,
        sp::Rule::At(_) => arbitrary(),
    }
}

proof fn lemma_reads_empty()
    ensures
        reads(Seq::<char>::empty()) == Seq::<SpecToken>::empty(),
{
    reveal(reads);
    let e = Seq::<char>::empty();
    assert(next_token(e, 0) is None);
    assert(tokens_from(e, 0) =~= Seq::<(SpecToken, crate::span::Span)>::empty());
    assert(token_kinds(tokens_from(e, 0)) =~= Seq::<SpecToken>::empty());
}

/// A stylesheet written by the serializer parses back to the rules it was
/// written from: whatever rule list the core grammar builds from the
/// tokens of the written text is, its spans left out, the list written.
/// This holds of every list of rules whose tokens read back as themselves
/// and whose shape the grammar rebuilds (`rule_round_trips`), unless the
/// text starts with U+FEFF, which is taken for a byte-order mark.
pub proof fn lemma_stylesheet_round_trip(rules: Seq<Rule>)
    requires
        forall|i: int| 0 <= i < rules.len() ==> rule_round_trips(#[trigger] rules[i]),
        !is_at(rules_out(rules), 0, '\u{FEFF}'),
    ensures
        forall|s: Seq<Spanned<sp::Rule>>|
            rules_match(s, stylesheet_tokens(rules_out(rules)), 0, true) ==> same_rules(rules, s),
{
    let text = rules_out(rules);
    let toks = stylesheet_tokens(text);
    let f = flat_rules(rules);
    lemma_read_rules(rules, Seq::<char>::empty());
    lemma_reads_empty();
    assert(text + Seq::<char>::empty() =~= text);
    assert(f + Seq::<SpecToken>::empty() =~= f);
    assert(toks == tokenize(text));
    assert(token_kinds(toks) == f) by {
        reveal(reads);
    }
    assert(token_kinds(toks).len() == toks.len());
    assert(token_kinds(toks).subrange(0, f.len() as int) =~= f);
    assert(kinds_at(toks, 0, f));
    assert forall|s: Seq<Spanned<sp::Rule>>| rules_match(s, toks, 0, true) implies same_rules(rules, s) by {
        lemma_rules_same_flat(rules, s, toks, 0);
    }
}

// ---------------------------------------------------------------------------
// Declaration lists
// ---------------------------------------------------------------------------

/// The tokens of `!important`.
pub open spec fn flat_important(important: bool) -> Seq<SpecToken> {
    if important {
        seq![SpecToken::Delim('!'), SpecToken::Ident(important_name())]
    } else {
        seq![]
    }
}

/// The tokens a declaration is made of, in order.
pub open spec fn flat_decl(d: Declaration) -> Seq<SpecToken> {
    seq![SpecToken::Ident(d.name@), SpecToken::Colon] + flat_vals(d.value@) + flat_important(d.important)
}

pub open spec fn flat_item(item: DeclarationListItem) -> Seq<SpecToken> {
    match item {
        DeclarationListItem::Declaration(d) => flat_decl(d),
        DeclarationListItem::AtRule(a) => flat_at(a),
    }
}

/// The tokens of the items, with a `;` between two.
pub open spec fn flat_items(items: Seq<DeclarationListItem>) -> Seq<SpecToken>
    decreases items.len(),
{
    if items.len() == 0 {
        seq![]
    } else if items.len() == 1 {
        flat_item(items[0])
    } else {
        flat_item(items[0]) + seq![SpecToken::Semicolon] + flat_items(items.drop_first())
    }
}

/// A declaration whose name and value tokens are writable.
pub open spec fn writable_decl(d: Declaration) -> bool {
    writable_name(d.name@) && writable_vals(d.value@)
}

pub open spec fn writable_item(item: DeclarationListItem) -> bool {
    match item {
        DeclarationListItem::Declaration(d) => writable_decl(d),
        DeclarationListItem::AtRule(a) => writable_at(a),
    }
}

proof fn lemma_important_text()
    ensures
        ident_out(important_name()) == important_out().drop_first(),
        writable_token(SpecToken::Ident(important_name())),
        writable_token(SpecToken::Delim('!')),
        token_out(SpecToken::Delim('!')) == seq!['!'],
{
    let s = important_name();
    assert forall|n: int| 0 <= n <= 9 implies #[trigger] name_prefix_out(s, n, true) == s.take(n) by {
        lemma_plain_name_prefix(s, n);
    }
    assert(s.take(9) =~= s);
    assert(important_out().drop_first() =~= s);
    assert(nul_replaced(s) =~= s);
    assert(token_at(seq!['!'], 0) == (SpecToken::Delim('!'), 1int));
}

proof fn lemma_plain_name_prefix(s: Seq<char>, n: int)
    requires
        0 <= n <= s.len(),
        forall|i: int| 0 <= i < s.len() ==> 'a' <= #[trigger] s[i] <= 'z',
    ensures
        name_prefix_out(s, n, true) == s.take(n),
    decreases n,
{
    if n > 0 {
        lemma_plain_name_prefix(s, n - 1);
        let c = s[n - 1];
        assert('a' <= c <= 'z');
        assert(name_char_out(s, n - 1, true) == seq![c]);
        assert(s.take(n - 1) + seq![c] =~= s.take(n));
    } else {
        assert(s.take(0) =~= Seq::<char>::empty());
    }
}

/// A written declaration, then a text that does not run into it: the
/// declaration's tokens, then what that text reads as.
#[verifier::rlimit(40)]
proof fn lemma_read_decl(d: Declaration, w: Seq<char>)
    requires
        writable_decl(d),
        quiet(w),
    ensures
        reads(declaration_out(d) + w) == flat_decl(d) + reads(w),
{
    let name = SpecToken::Ident(d.name@);
    let vs = d.value@;
    let imp = if d.important {
        important_out()
    } else {
        seq![]
    };
    let fi = flat_important(d.important);
    lemma_important_text();
    // The `!important`, if any, then `w`.
    if d.important {
        let bang = SpecToken::Delim('!');
        let word = SpecToken::Ident(important_name());
        lemma_quiet_follows(word, w);
        lemma_read_token(word, w);
        assert(token_out(word) == important_out().drop_first());
        assert(imp + w =~= token_out(bang) + (token_out(word) + w));
        lemma_read_token(bang, token_out(word) + w);
        assert(fi + reads(w) =~= seq![bang] + (seq![word] + reads(w)));
        assert(quiet(imp + w));
    } else {
        assert(imp + w =~= w);
        assert(fi + reads(w) =~= reads(w));
    }
    assert(reads(imp + w) == fi + reads(w));
    if vs.len() > 0 {
        lemma_last_tok_stops(vs.last());
        lemma_quiet_follows(last_tok(vs.last()), imp + w);
    }
    lemma_read_vals(vs, imp + w);
    let r2 = vals_out(vs) + (imp + w);
    assert(token_out(SpecToken::Colon) == seq![':']);
    lemma_read_token(SpecToken::Colon, r2);
    let r1 = seq![':'] + r2;
    assert(quiet(r1));
    lemma_quiet_follows(name, r1);
    lemma_read_token(name, r1);
    assert(declaration_out(d) + w =~= token_out(name) + r1);
    assert(flat_decl(d) + reads(w) =~= seq![name] + (seq![SpecToken::Colon] + (flat_vals(vs) + (fi + reads(w)))));
}

proof fn lemma_read_item(item: DeclarationListItem, w: Seq<char>)
    requires
        writable_item(item),
        quiet(w),
    ensures
        reads(item_out(item) + w) == flat_item(item) + reads(w),
{
    match item {
        DeclarationListItem::Declaration(d) => lemma_read_decl(d, w),
        DeclarationListItem::AtRule(a) => lemma_read_at(a, w),
    }
}

proof fn lemma_items_out_front(items: Seq<DeclarationListItem>)
    requires
        items.len() > 0,
    ensures
        items_out(items) == item_out(items[0]) + (if items.len() >= 2 {
            seq![';'] + items_out(items.drop_first())
        } else {
            seq![]
        }),
    decreases items.len(),
{
    let n = items.len();
    let d = items.drop_last();
    let df = items.drop_first();
    if n == 1 {
        assert(items_out(items) =~= item_out(items[0]));
    } else if n == 2 {
        assert(d =~= seq![items[0]]);
        assert(df =~= seq![items[1]]);
        assert(items.last() == items[1]);
        assert(items_out(d) == item_out(items[0]));
        assert(items_out(df) == item_out(items[1]));
        assert(items_out(items) =~= item_out(items[0]) + (seq![';'] + items_out(df)));
    } else {
        lemma_items_out_front(d);
        assert(d.drop_first() =~= df.drop_last());
        assert(d[0] == items[0] && df.last() == items.last());
        assert(items_out(items) =~= item_out(items[0]) + (seq![';'] + items_out(df)));
    }
}

/// Written items, then a text that does not run into them: the items'
/// tokens, then what that text reads as.
proof fn lemma_read_items(items: Seq<DeclarationListItem>, w: Seq<char>)
    requires
        forall|i: int| 0 <= i < items.len() ==> writable_item(#[trigger] items[i]),
        quiet(w),
    ensures
        reads(items_out(items) + w) == flat_items(items) + reads(w),
    decreases items.len(),
{
    if items.len() == 0 {
        assert(items_out(items) + w =~= w);
        assert(flat_items(items) + reads(w) =~= reads(w));
    } else if items.len() == 1 {
        lemma_items_out_front(items);
        assert(items_out(items) =~= item_out(items[0]));
        lemma_read_item(items[0], w);
    } else {
        let df = items.drop_first();
        lemma_items_out_front(items);
        assert(forall|i: int| 0 <= i < df.len() ==> #[trigger] df[i] == items[i + 1]);
        lemma_read_items(df, w);
        let r = seq![';'] + (items_out(df) + w);
        assert(token_out(SpecToken::Semicolon) == seq![';']);
        lemma_read_token(SpecToken::Semicolon, items_out(df) + w);
        lemma_read_item(items[0], r);
        assert(items_out(items) + w =~= item_out(items[0]) + r);
        assert(flat_items(items) + reads(w) =~= flat_item(items[0]) + (seq![SpecToken::Semicolon] + (
        flat_items(df) + reads(w))));
    }
}

/// The value is a whitespace token.
pub open spec fn plain_is_ws(v: ComponentValue) -> bool {
    v matches ComponentValue::Token(t) && t@ == SpecToken::Whitespace
}

/// The value is the identifier `important`, in any ASCII case.
pub open spec fn plain_is_important(v: ComponentValue) -> bool {
    v matches ComponentValue::Token(t) && t@ matches SpecToken::Ident(s) && eq_ignore_ascii_case(
        s,
        important_name(),
    )
}

/// The value is the delimiter `!`.
pub open spec fn plain_is_bang(v: ComponentValue) -> bool {
    v matches ComponentValue::Token(t) && t@ == SpecToken::Delim('!')
}

/// Index of the last value before index `n` that is not whitespace, or -1.
pub open spec fn plain_last_non_ws(vs: Seq<ComponentValue>, n: int) -> int
    decreases n,
{
    if n <= 0 {
        -1
    } else if !plain_is_ws(vs[n - 1]) {
        n - 1
    } else {
        plain_last_non_ws(vs, n - 1)
    }
}

/// The value's last two values that are not whitespace are `!` and
/// `important`: the grammar would read them as the `!important` flag.
pub open spec fn ends_important(vs: Seq<ComponentValue>) -> bool {
    let li = plain_last_non_ws(vs, vs.len() as int);
    let si = plain_last_non_ws(vs, li);
    li >= 0 && si >= 0 && plain_is_important(vs[li]) && plain_is_bang(vs[si])
}

proof fn lemma_flags_same(v: ComponentValue, x: Spanned<sp::ComponentValue>)
    requires
        same_cv(v, x.node),
    ensures
        plain_is_ws(v) <==> is_ws_value(x),
        plain_is_important(v) <==> is_important_value(x),
        plain_is_bang(v) <==> is_bang_value(x),
{
}

proof fn lemma_last_non_ws_same(vs: Seq<ComponentValue>, raw: Seq<Spanned<sp::ComponentValue>>, n: int)
    requires
        same_vals(vs, raw),
        n <= vs.len(),
    ensures
        plain_last_non_ws(vs, n) == last_non_ws(raw, n),
        plain_last_non_ws(vs, n) < n || plain_last_non_ws(vs, n) == -1,
        plain_last_non_ws(vs, n) >= -1,
    decreases n,
{
    if n > 0 {
        lemma_flags_same(vs[n - 1], raw[n - 1]);
        lemma_last_non_ws_same(vs, raw, n - 1);
    }
}

/// A value that does not end in `!` `important` keeps its values and gets
/// no flag.
proof fn lemma_strip_nothing(vs: Seq<ComponentValue>, raw: Seq<Spanned<sp::ComponentValue>>)
    requires
        same_vals(vs, raw),
        !ends_important(vs),
    ensures
        strip_important(raw) == (raw, false),
{
    let n = vs.len() as int;
    lemma_last_non_ws_same(vs, raw, n);
    let li = plain_last_non_ws(vs, n);
    lemma_last_non_ws_same(vs, raw, li);
    let si = plain_last_non_ws(vs, li);
    if li >= 0 && si >= 0 {
        lemma_flags_same(vs[li], raw[li]);
        lemma_flags_same(vs[si], raw[si]);
    }
}

/// The grammar rebuilds the declaration from its tokens: its value starts
/// with no whitespace (which the grammar skips after the colon), holds no
/// `;` at its top level, and, unless it is flagged important, does not end
/// with `!` and `important` (which the grammar takes for the flag).
pub open spec fn decl_ok(d: Declaration) -> bool {
    &&& shape_vals(d.value@, Stop::Semicolon)
    &&& d.value@.len() > 0 ==> !(first_tok(d.value@[0]) is Whitespace)
    &&& !d.important ==> !ends_important(d.value@)
}

/// An item that the serializer writes so that it parses back as itself.
pub open spec fn item_round_trips(item: DeclarationListItem) -> bool {
    &&& writable_item(item)
    &&& match item {
        DeclarationListItem::Declaration(d) => decl_ok(d),
        DeclarationListItem::AtRule(a) => at_ok(a),
    }
}

#[verifier::rlimit(60)]
proof fn lemma_decl_same_flat(d: Declaration, sd: Spanned<sp::Declaration>, toks: Toks, k: int)
    requires
        kinds_at(toks, k, flat_decl(d)),
        decl_ok(d),
        k + flat_decl(d).len() == toks.len() || toks[k + flat_decl(d).len()].0 is Semicolon,
    ensures
        toks[k].0 == SpecToken::Ident(d.name@),
        has_colon(toks, k),
        decl_end(toks, k) == k + flat_decl(d).len(),
        decl_matches(sd.node, sd.span, toks, k) ==> {
            &&& d.name@ == sd.node.name@
            &&& same_vals(d.value@, sd.node.value@)
            &&& d.important == sd.node.important
        },
{
    let vs = d.value@;
    let n = vs.len() as int;
    let f = flat_vals(vs);
    let m = f.len() as int;
    let fi = flat_important(d.important);
    let head = seq![SpecToken::Ident(d.name@), SpecToken::Colon];
    let stop = Stop::Semicolon;
    assert(flat_decl(d) == head + f + fi);
    lemma_kinds_at_split(toks, k, head + f, fi);
    lemma_kinds_at_split(toks, k, head, f);
    lemma_kinds_at_index(toks, k, head, 0);
    lemma_kinds_at_index(toks, k, head, 1);
    let v0 = k + 2;
    let q = k + 2 + m;
    if m > 0 {
        lemma_flat_cv_nonempty(vs[0]);
        lemma_kinds_at_index(toks, v0, f, 0);
        assert(f[0] == flat_cv(vs[0])[0]);
    }
    if d.important {
        lemma_kinds_at_index(toks, q, fi, 0);
        lemma_kinds_at_index(toks, q, fi, 1);
    }
    assert(skip_ws(toks, k + 1) == k + 1);
    assert(skip_ws(toks, v0) == v0);
    assert(decl_value_start(toks, k) == v0);
    lemma_run_end_flat(vs, toks, v0, stop);
    let v1 = k + flat_decl(d).len();
    if d.important {
        assert(run_end(toks, q + 2, stop) == q + 2);
        assert(cv_end(toks, q + 1) == q + 2);
        assert(run_end(toks, q + 1, stop) == q + 2);
        assert(cv_end(toks, q) == q + 1);
        assert(run_end(toks, q, stop) == q + 2);
    } else {
        assert(run_end(toks, q, stop) == q);
    }
    assert(decl_end(toks, k) == v1);
    if decl_matches(sd.node, sd.span, toks, k) {
        let raw = choose|raw: Seq<Spanned<sp::ComponentValue>>|
            #[trigger] vals_seg(raw, toks, v0, v1, stop) && strip_important(raw) == (
                sd.node.value@,
                sd.node.important,
            );
        lemma_vals_same_flat(vs, raw, toks, v0, v1, stop);
        let rr = raw.skip(n);
        if d.important {
            assert(rr.len() > 0);
            assert(cv_matches(rr[0], toks, q));
            let r2 = rr.drop_first();
            assert(vals_seg(r2, toks, q + 1, v1, stop));
            assert(r2.len() > 0);
            assert(cv_matches(r2[0], toks, q + 1));
            lemma_seg_rest_empty(r2.drop_first(), toks, q + 2, stop);
            assert(raw.len() == n + 2);
            assert(raw[n] == rr[0] && raw[n + 1] == r2[0]);
            assert(!is_ws_value(raw[n + 1]));
            assert(last_non_ws(raw, n + 2) == n + 1);
            assert(!is_ws_value(raw[n]));
            assert(last_non_ws(raw, n + 1) == n);
            assert(is_bang_value(raw[n]));
            assert(is_important_value(raw[n + 1]));
            assert(raw.remove(n + 1).remove(n) =~= raw.take(n));
        } else {
            lemma_seg_rest_empty(rr, toks, q, stop);
            assert(raw.take(n) =~= raw);
            lemma_strip_nothing(vs, raw);
        }
    }
}

/// The items the grammar builds from the tokens of a list of items are
/// those items, with spans.
#[verifier::rlimit(40)]
proof fn lemma_items_same_flat(items: Seq<DeclarationListItem>, s: Seq<sp::DeclarationListItem>, toks: Toks, k: int)
    requires
        kinds_at(toks, k, flat_items(items)),
        k + flat_items(items).len() == toks.len(),
        forall|i: int| 0 <= i < items.len() ==> item_round_trips(#[trigger] items[i]),
        decls_match(s, toks, k),
    ensures
        same_items(items, s),
    decreases items.len(),
{
    if items.len() > 0 {
        let it = items[0];
        let tl = items.drop_first();
        assert(item_round_trips(it));
        let fit = flat_item(it);
        let e = k + fit.len();
        if items.len() == 1 {
            assert(flat_items(items) == fit);
        } else {
            assert(flat_items(items) == fit + (seq![SpecToken::Semicolon] + flat_items(tl)));
            lemma_kinds_at_split(toks, k, fit, seq![SpecToken::Semicolon] + flat_items(tl));
            lemma_kinds_at_split(toks, e, seq![SpecToken::Semicolon], flat_items(tl));
            lemma_kinds_at_index(toks, e, seq![SpecToken::Semicolon], 0);
        }
        assert(kinds_at(toks, k, fit)) by {
            if items.len() == 1 {
            } else {
                lemma_kinds_at_split(toks, k, fit, seq![SpecToken::Semicolon] + flat_items(tl));
            }
        }
        match it {
            DeclarationListItem::Declaration(d) => {
                match s[0] {
                    sp::DeclarationListItem::Declaration(sd) => lemma_decl_same_flat(d, sd, toks, k),
                    sp::DeclarationListItem::AtRule(_) => lemma_decl_same_flat(d, arbitrary(), toks, k),
                }
                assert(same_item(it, s[0]));
            },
            DeclarationListItem::AtRule(a) => {
                lemma_kinds_at_index(toks, k, flat_at(a), 0);
                match s[0] {
                    sp::DeclarationListItem::AtRule(sa) => lemma_at_same_flat(a, sa.node, sa.span, toks, k),
                    sp::DeclarationListItem::Declaration(_) => lemma_at_same_flat(a, arbitrary(), arbitrary(), toks, k),
                }
                assert(same_item(it, s[0]));
            },
        }
        let s1 = s.drop_first();
        assert(decls_match(s1, toks, e));
        if items.len() == 1 {
            assert(s1.len() == 0);
        } else {
            assert(decls_match(s1, toks, e + 1));
            assert forall|i: int| 0 <= i < tl.len() implies item_round_trips(#[trigger] tl[i]) by {
                assert(tl[i] == items[i + 1]);
            }
            lemma_items_same_flat(tl, s1, toks, e + 1);
        }
        assert forall|i: int| 0 <= i < items.len() implies same_item(#[trigger] items[i], s[i]) by {
            if i > 0 {
                assert(tl[i - 1] == items[i]);
                assert(s1[i - 1] == s[i]);
            }
        }
    }
}

/// A declaration list written by the serializer parses back to the items
/// it was written from: whatever item list the core grammar builds from the
/// tokens of the written text is, its spans left out, the list written.
/// This holds of every list of items whose tokens read back as themselves
/// and whose shape the grammar rebuilds (`item_round_trips`).
pub proof fn lemma_declaration_list_round_trip(items: Seq<DeclarationListItem>)
    requires
        forall|i: int| 0 <= i < items.len() ==> item_round_trips(#[trigger] items[i]),
    ensures
        forall|s: Seq<sp::DeclarationListItem>|
            decls_match(s, tokenize(items_out(items)), 0) ==> same_items(items, s),
{
    let text = items_out(items);
    let toks = tokenize(text);
    let f = flat_items(items);
    assert(quiet(Seq::<char>::empty()));
    lemma_read_items(items, Seq::<char>::empty());
    lemma_reads_empty();
    assert(text + Seq::<char>::empty() =~= text);
    assert(f + Seq::<SpecToken>::empty() =~= f);
    assert(token_kinds(toks) == f) by {
        reveal(reads);
    }
    assert(token_kinds(toks).len() == toks.len());
    assert(token_kinds(toks).subrange(0, f.len() as int) =~= f);
    assert(kinds_at(toks, 0, f));
    assert forall|s: Seq<sp::DeclarationListItem>| decls_match(s, toks, 0) implies same_items(items, s) by {
        lemma_items_same_flat(items, s, toks, 0);
    }
}

} // verus!
