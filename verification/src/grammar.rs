//! The core grammar (CSS Syntax Level 3, §5.4) as functions over a token
//! sequence, and predicates saying when a parse tree is the one the grammar
//! builds from a token sequence.
//!
//! A token sequence is a `Seq<(SpecToken, Span)>`: each token with the byte
//! span it was read from.

use vstd::prelude::*;

use crate::parser::BlockKind;
use crate::span::{Span, Spanned};
use crate::spanned::{AtRule, ComponentValue, Declaration, DeclarationListItem, QualifiedRule, Rule, SimpleBlock};
use crate::text::eq_ignore_ascii_case;
use crate::token::Token;
use crate::token::SpecToken;

verus! {

pub type Toks = Seq<(SpecToken, Span)>;

/// Where a run of component values stops.
#[derive(Clone, Copy)]
pub enum Stop {
    /// At the closing bracket of a block of this kind.
    Close(BlockKind),
    /// At `{` (a qualified rule's prelude).
    OpenCurly,
    /// At `;` or `{` (an at-rule's prelude).
    SemicolonOrCurly,
    /// At `;` (a declaration's value).
    Semicolon,
}

pub open spec fn closes(t: SpecToken, kind: BlockKind) -> bool {
    match kind {
        BlockKind::Curly => t is RightCurly,
        BlockKind::Square => t is RightSquare,
        BlockKind::Paren => t is RightParen,
    }
}

pub open spec fn stops(t: SpecToken, stop: Stop) -> bool {
    match stop {
        Stop::Close(kind) => closes(t, kind),
        Stop::OpenCurly => t is LeftCurly,
        Stop::SemicolonOrCurly => t is Semicolon || t is LeftCurly,
        Stop::Semicolon => t is Semicolon,
    }
}

/// The kind of block a token opens, if it opens one.
pub open spec fn opens(t: SpecToken) -> Option<BlockKind> {
    match t {
        SpecToken::LeftCurly => Some(BlockKind::Curly),
        SpecToken::LeftSquare => Some(BlockKind::Square),
        SpecToken::LeftParen => Some(BlockKind::Paren),
        _ => None,
    }
}

/// Index of the block's end once its contents stop at `e`: past the closing
/// bracket if there is one.
pub open spec fn past_closer(toks: Toks, e: int) -> int {
    if e < toks.len() {
        e + 1
    } else {
        e
    }
}

/// §5.4.6 "consume a component value" at `k`: the index just past it.
pub open spec fn cv_end(toks: Toks, k: int) -> int
    decreases toks.len() - k, 0int,
{
    if k < 0 || k >= toks.len() {
        k + 1
    } else {
        match toks[k].0 {
            SpecToken::LeftCurly => past_closer(toks, run_end(toks, k + 1, Stop::Close(BlockKind::Curly))),
            SpecToken::LeftSquare => past_closer(toks, run_end(toks, k + 1, Stop::Close(BlockKind::Square))),
            SpecToken::LeftParen => past_closer(toks, run_end(toks, k + 1, Stop::Close(BlockKind::Paren))),
            SpecToken::Function(_) => past_closer(toks, run_end(toks, k + 1, Stop::Close(BlockKind::Paren))),
            _ => k + 1,
        }
    }
}

/// Component values are consumed from `k` until a token that `stop`s them
/// (or the end): the index of that token.
pub open spec fn run_end(toks: Toks, k: int, stop: Stop) -> int
    decreases toks.len() - k, 1int,
{
    if k < 0 || k >= toks.len() {
        k
    } else if stops(toks[k].0, stop) {
        k
    } else {
        let e = cv_end(toks, k);
        if k < e <= toks.len() {
            run_end(toks, e, stop)
        } else {
            toks.len() as int
        }
    }
}

/// The span from the start of token `k` to the end of token `e - 1`.
pub open spec fn range_span(toks: Toks, k: int, e: int) -> Span {
    Span { start: toks[k].1.start, end: toks[e - 1].1.end }
}

/// The spans of the tokens are in source order.
pub open spec fn spans_ordered(toks: Toks) -> bool {
    forall|i: int, j: int|
        0 <= i <= j < toks.len() ==> (#[trigger] toks[i]).1.start <= (#[trigger] toks[j]).1.start
            && toks[i].1.end <= toks[j].1.end
}

/// `v` is the component value the grammar builds from the tokens at `k`.
pub open spec fn cv_matches(v: Spanned<ComponentValue>, toks: Toks, k: int) -> bool
    decreases v,
{
    &&& 0 <= k < toks.len()
    &&& v.span == range_span(toks, k, cv_end(toks, k))
    &&& match v.node {
        ComponentValue::Token(t) => {
            &&& t@ == toks[k].0
            &&& opens(toks[k].0) is None
            &&& !(toks[k].0 is Function)
        },
        ComponentValue::Function { name, args } => {
            &&& toks[k].0 == SpecToken::Function(name@)
            &&& vals_seg(
                args@,
                toks,
                k + 1,
                run_end(toks, k + 1, Stop::Close(BlockKind::Paren)),
                Stop::Close(BlockKind::Paren),
            )
        },
        ComponentValue::Block(b) => {
            &&& opens(toks[k].0) == Some(b.kind)
            &&& vals_seg(
                b.values@,
                toks,
                k + 1,
                run_end(toks, k + 1, Stop::Close(b.kind)),
                Stop::Close(b.kind),
            )
        },
    }
}

/// `vals` are the component values the grammar builds from the tokens
/// `k..e`, none of them starting at a token that `stop`s the run.
pub open spec fn vals_seg(vals: Seq<Spanned<ComponentValue>>, toks: Toks, k: int, e: int, stop: Stop) -> bool
    decreases vals,
{
    if vals.len() == 0 {
        k == e
    } else {
        &&& 0 <= k < toks.len()
        &&& !stops(toks[k].0, stop)
        &&& cv_matches(vals[0], toks, k)
        &&& vals_seg(vals.drop_first(), toks, cv_end(toks, k), e, stop)
    }
}

/// `vals` are the component values consumed from `k` until `stop`.
pub open spec fn vals_match(vals: Seq<Spanned<ComponentValue>>, toks: Toks, k: int, stop: Stop) -> bool {
    vals_seg(vals, toks, k, run_end(toks, k, stop), stop)
}

/// `b` is the block the grammar builds from the tokens at `p`, its opening
/// bracket.
pub open spec fn block_matches(b: Spanned<SimpleBlock>, toks: Toks, p: int) -> bool {
    &&& 0 <= p < toks.len()
    &&& opens(toks[p].0) == Some(b.node.kind)
    &&& vals_match(b.node.values@, toks, p + 1, Stop::Close(b.node.kind))
    &&& b.span == range_span(toks, p, cv_end(toks, p))
}

/// §5.4.3 "consume an at-rule" at `k`, its at-keyword: the index just past it.
pub open spec fn at_rule_end(toks: Toks, k: int) -> int {
    let p = run_end(toks, k + 1, Stop::SemicolonOrCurly);
    if p >= toks.len() {
        toks.len() as int
    } else if toks[p].0 is Semicolon {
        p + 1
    } else {
        cv_end(toks, p)
    }
}

/// `a`, spanning `span`, is the at-rule the grammar builds from the tokens at `k`.
pub open spec fn at_matches(a: AtRule, span: Span, toks: Toks, k: int) -> bool {
    let p = run_end(toks, k + 1, Stop::SemicolonOrCurly);
    &&& 0 <= k < toks.len()
    &&& toks[k].0 == SpecToken::AtKeyword(a.name@)
    &&& a.name_span == toks[k].1
    &&& vals_match(a.prelude@, toks, k + 1, Stop::SemicolonOrCurly)
    &&& if p < toks.len() && toks[p].0 is LeftCurly {
        a.block matches Some(b) && block_matches(b, toks, p)
    } else {
        a.block is None
    }
    &&& span == range_span(toks, k, at_rule_end(toks, k))
}

/// `q`, spanning `span`, is the qualified rule the grammar builds from the
/// tokens at `k` (which reach a `{`).
pub open spec fn qualified_matches(q: QualifiedRule, span: Span, toks: Toks, k: int) -> bool {
    let p = run_end(toks, k, Stop::OpenCurly);
    &&& 0 <= k <= p < toks.len()
    &&& vals_match(q.prelude@, toks, k, Stop::OpenCurly)
    &&& block_matches(q.block, toks, p)
    &&& span == range_span(toks, k, cv_end(toks, p))
}

/// §5.4.1 "consume a list of rules" from `k`: `rules` is the list the
/// grammar builds. At the top level, `<!--` and `-->` are discarded.
pub open spec fn rules_match(rules: Seq<Spanned<Rule>>, toks: Toks, k: int, top: bool) -> bool
    decreases toks.len() - k,
{
    if k < 0 || k >= toks.len() {
        rules.len() == 0
    } else if toks[k].0 is Whitespace || (top && (toks[k].0 is Cdo || toks[k].0 is Cdc)) {
        rules_match(rules, toks, k + 1, top)
    } else if toks[k].0 is AtKeyword {
        let e = at_rule_end(toks, k);
        &&& rules.len() > 0
        &&& rules[0].node matches Rule::At(a) && at_matches(a, rules[0].span, toks, k)
        &&& if k < e <= toks.len() {
            rules_match(rules.drop_first(), toks, e, top)
        } else {
            false
        }
    } else {
        let p = run_end(toks, k, Stop::OpenCurly);
        if p >= toks.len() {
            // End of input before a block: the rule is dropped.
            rules.len() == 0
        } else {
            let e = cv_end(toks, p);
            &&& rules.len() > 0
            &&& rules[0].node matches Rule::Qualified(q) && qualified_matches(q, rules[0].span, toks, k)
            &&& if k < e <= toks.len() {
                rules_match(rules.drop_first(), toks, e, top)
            } else {
                false
            }
        }
    }
}

/// Index just past the whitespace tokens starting at `k`.
pub open spec fn skip_ws(toks: Toks, k: int) -> int
    decreases toks.len() - k,
{
    if 0 <= k < toks.len() && toks[k].0 is Whitespace {
        skip_ws(toks, k + 1)
    } else {
        k
    }
}

pub open spec fn is_ws_value(v: Spanned<ComponentValue>) -> bool {
    v.node matches ComponentValue::Token(Token::Whitespace)
}

pub open spec fn is_bang_value(v: Spanned<ComponentValue>) -> bool {
    v.node matches ComponentValue::Token(Token::Delim(c)) && c == '!'
}

/// The name `important`.
pub open spec fn important_name() -> Seq<char> {
    seq!['i', 'm', 'p', 'o', 'r', 't', 'a', 'n', 't']
}

pub open spec fn is_important_value(v: Spanned<ComponentValue>) -> bool {
    v.node matches ComponentValue::Token(Token::Ident(s)) && eq_ignore_ascii_case(s@, important_name())
}

/// Index of the last value before index `n` that is not whitespace, or -1.
pub open spec fn last_non_ws(vals: Seq<Spanned<ComponentValue>>, n: int) -> int
    decreases n,
{
    if n <= 0 {
        -1
    } else if !is_ws_value(vals[n - 1]) {
        n - 1
    } else {
        last_non_ws(vals, n - 1)
    }
}

/// §5.4.5's trailing step: when the last two non-whitespace values are `!`
/// and `important` (ASCII case-insensitively), both are removed and the
/// declaration is important.
pub open spec fn strip_important(vals: Seq<Spanned<ComponentValue>>) -> (Seq<Spanned<ComponentValue>>, bool) {
    let li = last_non_ws(vals, vals.len() as int);
    let si = last_non_ws(vals, li);
    if li >= 0 && si >= 0 && is_important_value(vals[li]) && is_bang_value(vals[si]) {
        (vals.remove(li).remove(si), true)
    } else {
        (vals, false)
    }
}

/// Where the value of a declaration whose name is at `k` starts: past the
/// name, whitespace, the colon and whitespace again.
pub open spec fn decl_value_start(toks: Toks, k: int) -> int {
    skip_ws(toks, skip_ws(toks, k + 1) + 1)
}

/// The name at `k` is followed (after whitespace) by a colon.
pub open spec fn has_colon(toks: Toks, k: int) -> bool {
    let c = skip_ws(toks, k + 1);
    0 <= c < toks.len() && toks[c].0 is Colon
}

/// §5.4.5 "consume a declaration" at `k`: the index just past it.
pub open spec fn decl_end(toks: Toks, k: int) -> int {
    run_end(toks, decl_value_start(toks, k), Stop::Semicolon)
}

/// `d`, spanning `span`, is the declaration the grammar builds from the
/// tokens at `k` (its name).
pub open spec fn decl_matches(d: Declaration, span: Span, toks: Toks, k: int) -> bool {
    let v0 = decl_value_start(toks, k);
    let v1 = decl_end(toks, k);
    &&& 0 <= k < toks.len()
    &&& toks[k].0 == SpecToken::Ident(d.name@)
    &&& d.name_span == toks[k].1
    &&& has_colon(toks, k)
    &&& exists|raw: Seq<Spanned<ComponentValue>>|
        #[trigger] vals_seg(raw, toks, v0, v1, Stop::Semicolon) && strip_important(raw) == (d.value@, d.important)
    &&& span == Span {
        start: toks[k].1.start,
        end: if v1 > v0 { toks[v1 - 1].1.end } else { toks[k].1.end },
    }
}

/// §5.4.2 "consume a list of declarations" from `k`: `items` is the list
/// the grammar builds. A name without a colon is dropped, and any other
/// stray component value is discarded.
pub open spec fn decls_match(items: Seq<DeclarationListItem>, toks: Toks, k: int) -> bool
    decreases toks.len() - k,
{
    if k < 0 || k >= toks.len() {
        items.len() == 0
    } else if toks[k].0 is Whitespace || toks[k].0 is Semicolon {
        decls_match(items, toks, k + 1)
    } else if toks[k].0 is AtKeyword {
        let e = at_rule_end(toks, k);
        &&& items.len() > 0
        &&& items[0] matches DeclarationListItem::AtRule(a) && at_matches(a.node, a.span, toks, k)
        &&& if k < e <= toks.len() {
            decls_match(items.drop_first(), toks, e)
        } else {
            false
        }
    } else if toks[k].0 is Ident {
        if has_colon(toks, k) {
            let e = decl_end(toks, k);
            &&& items.len() > 0
            &&& items[0] matches DeclarationListItem::Declaration(d) && decl_matches(d.node, d.span, toks, k)
            &&& if k < e <= toks.len() {
                decls_match(items.drop_first(), toks, e)
            } else {
                false
            }
        } else {
            let c = skip_ws(toks, k + 1);
            if k < c <= toks.len() {
                decls_match(items, toks, c)
            } else {
                false
            }
        }
    } else {
        let e = cv_end(toks, k);
        if k < e <= toks.len() {
            decls_match(items, toks, e)
        } else {
            false
        }
    }
}

} // verus!
