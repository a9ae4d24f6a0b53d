//! What holds of the parsers as a whole: the grammar determines the tree it
//! builds from a token sequence, and the plain parser's tree is the spanned
//! parser's tree with its spans dropped.
//!
//! Trees are compared by what they say: spans, and the characters of every
//! token and name. Two trees that agree on all of these are "the same".

use vstd::prelude::*;

use crate::grammar::{
    at_matches, at_rule_end, block_matches, cv_end, cv_matches, decl_end, decl_matches,
    decl_value_start, decls_match, has_colon, is_bang_value, is_important_value, is_ws_value,
    last_non_ws, rules_match, run_end, skip_ws, stops, strip_important, vals_seg, Stop, Toks,
};
use crate::span::Spanned;
use crate::spanned::{AtRule, ComponentValue, Declaration, DeclarationListItem, Rule, SimpleBlock};

verus! {

// ---------------------------------------------------------------------------
// Sameness
// ---------------------------------------------------------------------------

/// `a` and `b` say the same: equal spans, tokens with equal views, functions
/// with equal names and the same arguments, blocks of one kind with the same
/// contents.
pub open spec fn cv_same(a: Spanned<ComponentValue>, b: Spanned<ComponentValue>) -> bool
    decreases a,
{
    &&& a.span == b.span
    &&& match (a.node, b.node) {
        (ComponentValue::Token(x), ComponentValue::Token(y)) => x@ == y@,
        (
            ComponentValue::Function { name: n1, args: a1 },
            ComponentValue::Function { name: n2, args: a2 },
        ) => n1@ == n2@ && vals_same(a1@, a2@),
        (ComponentValue::Block(x), ComponentValue::Block(y)) => {
            x.kind == y.kind && vals_same(x.values@, y.values@)
        },
        _ => false,
    }
}

pub open spec fn vals_same(a: Seq<Spanned<ComponentValue>>, b: Seq<Spanned<ComponentValue>>) -> bool
    decreases a,
{
    &&& a.len() == b.len()
    &&& forall|i: int| 0 <= i < a.len() ==> cv_same(#[trigger] a[i], b[i])
}

// ---------------------------------------------------------------------------
// Positions only move forward
// ---------------------------------------------------------------------------

pub(crate) proof fn lemma_run_end_ge(toks: Toks, k: int, stop: Stop)
    requires
        0 <= k,
    ensures
        run_end(toks, k, stop) >= k,
    decreases toks.len() - k,
{
    if k < toks.len() && !stops(toks[k].0, stop) {
        let e = cv_end(toks, k);
        if k < e <= toks.len() {
            lemma_run_end_ge(toks, e, stop);
        }
    }
}

pub(crate) proof fn lemma_cv_end_gt(toks: Toks, k: int)
    requires
        0 <= k < toks.len(),
    ensures
        cv_end(toks, k) > k,
{
    lemma_run_end_ge(toks, k + 1, Stop::Close(crate::parser::BlockKind::Curly));
    lemma_run_end_ge(toks, k + 1, Stop::Close(crate::parser::BlockKind::Square));
    lemma_run_end_ge(toks, k + 1, Stop::Close(crate::parser::BlockKind::Paren));
}

pub(crate) proof fn lemma_run_end_le(toks: Toks, k: int, stop: Stop)
    requires
        0 <= k <= toks.len(),
    ensures
        run_end(toks, k, stop) <= toks.len(),
    decreases toks.len() - k,
{
    if k < toks.len() && !stops(toks[k].0, stop) {
        let e = cv_end(toks, k);
        if k < e <= toks.len() {
            lemma_run_end_le(toks, e, stop);
        }
    }
}

pub(crate) proof fn lemma_cv_end_le(toks: Toks, k: int)
    requires
        0 <= k < toks.len(),
    ensures
        cv_end(toks, k) <= toks.len(),
{
    lemma_run_end_le(toks, k + 1, Stop::Close(crate::parser::BlockKind::Curly));
    lemma_run_end_le(toks, k + 1, Stop::Close(crate::parser::BlockKind::Square));
    lemma_run_end_le(toks, k + 1, Stop::Close(crate::parser::BlockKind::Paren));
}

/// A non-empty run of values spans from the start of its first token to the
/// end of its last one.
pub(crate) proof fn lemma_seg_span(v: Seq<Spanned<ComponentValue>>, toks: Toks, k: int, e: int, stop: Stop)
    requires
        vals_seg(v, toks, k, e, stop),
        v.len() > 0,
    ensures
        0 <= k < e <= toks.len(),
        v[0].span.start == toks[k].1.start,
        v.last().span.end == toks[e - 1].1.end,
    decreases v.len(),
{
    assert(cv_matches(v[0], toks, k));
    lemma_cv_end_gt(toks, k);
    lemma_cv_end_le(toks, k);
    let rest = v.drop_first();
    assert(vals_seg(rest, toks, cv_end(toks, k), e, stop));
    if v.len() == 1 {
        assert(rest.len() == 0);
        assert(cv_end(toks, k) == e);
    } else {
        lemma_seg_span(rest, toks, cv_end(toks, k), e, stop);
        assert(rest.last() == v.last());
    }
}

/// A run of values lies between its ends, and a non-empty one is not empty
/// of tokens.
proof fn lemma_seg_bounds(v: Seq<Spanned<ComponentValue>>, toks: Toks, k: int, e: int, stop: Stop)
    requires
        vals_seg(v, toks, k, e, stop),
    ensures
        k <= e,
        v.len() > 0 ==> k < e,
    decreases v.len(),
{
    if v.len() > 0 {
        lemma_cv_end_gt(toks, k);
        lemma_seg_bounds(v.drop_first(), toks, cv_end(toks, k), e, stop);
    }
}

// ---------------------------------------------------------------------------
// The grammar builds one tree
// ---------------------------------------------------------------------------

proof fn lemma_cv_unique(a: Spanned<ComponentValue>, b: Spanned<ComponentValue>, toks: Toks, k: int)
    requires
        cv_matches(a, toks, k),
        cv_matches(b, toks, k),
    ensures
        cv_same(a, b),
    decreases a,
{
    match (a.node, b.node) {
        (
            ComponentValue::Function { name: n1, args: a1 },
            ComponentValue::Function { name: n2, args: a2 },
        ) => {
            let stop = Stop::Close(crate::parser::BlockKind::Paren);
            lemma_seg_unique(a1@, a2@, toks, k + 1, run_end(toks, k + 1, stop), stop);
        },
        (ComponentValue::Block(x), ComponentValue::Block(y)) => {
            let stop = Stop::Close(x.kind);
            lemma_seg_unique(x.values@, y.values@, toks, k + 1, run_end(toks, k + 1, stop), stop);
        },
        _ => {},
    }
}

proof fn lemma_seg_unique(
    a: Seq<Spanned<ComponentValue>>,
    b: Seq<Spanned<ComponentValue>>,
    toks: Toks,
    k: int,
    e: int,
    stop: Stop,
)
    requires
        vals_seg(a, toks, k, e, stop),
        vals_seg(b, toks, k, e, stop),
    ensures
        vals_same(a, b),
    decreases a,
{
    lemma_seg_bounds(a, toks, k, e, stop);
    lemma_seg_bounds(b, toks, k, e, stop);
    if a.len() > 0 {
        lemma_cv_unique(a[0], b[0], toks, k);
        lemma_seg_unique(a.drop_first(), b.drop_first(), toks, cv_end(toks, k), e, stop);
        assert forall|i: int| 0 <= i < a.len() implies cv_same(#[trigger] a[i], b[i]) by {
            if i > 0 {
                assert(a[i] == a.drop_first()[i - 1]);
                assert(b[i] == b.drop_first()[i - 1]);
            }
        }
    }
}

pub open spec fn block_same(a: Spanned<SimpleBlock>, b: Spanned<SimpleBlock>) -> bool {
    &&& a.span == b.span
    &&& a.node.kind == b.node.kind
    &&& vals_same(a.node.values@, b.node.values@)
}

pub open spec fn at_same(a: AtRule, b: AtRule) -> bool {
    &&& a.name@ == b.name@
    &&& a.name_span == b.name_span
    &&& vals_same(a.prelude@, b.prelude@)
    &&& match (a.block, b.block) {
        (Some(x), Some(y)) => block_same(x, y),
        (None, None) => true,
        _ => false,
    }
}

pub open spec fn rule_same(a: Spanned<Rule>, b: Spanned<Rule>) -> bool {
    &&& a.span == b.span
    &&& match (a.node, b.node) {
        (Rule::Qualified(x), Rule::Qualified(y)) => {
            vals_same(x.prelude@, y.prelude@) && block_same(x.block, y.block)
        },
        (Rule::At(x), Rule::At(y)) => at_same(x, y),
        _ => false,
    }
}

pub open spec fn rules_same(a: Seq<Spanned<Rule>>, b: Seq<Spanned<Rule>>) -> bool {
    &&& a.len() == b.len()
    &&& forall|i: int| 0 <= i < a.len() ==> rule_same(#[trigger] a[i], b[i])
}

pub open spec fn decl_same(a: Spanned<Declaration>, b: Spanned<Declaration>) -> bool {
    &&& a.span == b.span
    &&& a.node.name@ == b.node.name@
    &&& a.node.name_span == b.node.name_span
    &&& vals_same(a.node.value@, b.node.value@)
    &&& a.node.important == b.node.important
}

pub open spec fn item_same(a: DeclarationListItem, b: DeclarationListItem) -> bool {
    match (a, b) {
        (DeclarationListItem::Declaration(x), DeclarationListItem::Declaration(y)) => decl_same(x, y),
        (DeclarationListItem::AtRule(x), DeclarationListItem::AtRule(y)) => {
            x.span == y.span && at_same(x.node, y.node)
        },
        _ => false,
    }
}

pub open spec fn items_same(a: Seq<DeclarationListItem>, b: Seq<DeclarationListItem>) -> bool {
    &&& a.len() == b.len()
    &&& forall|i: int| 0 <= i < a.len() ==> item_same(#[trigger] a[i], b[i])
}

proof fn lemma_block_unique(a: Spanned<SimpleBlock>, b: Spanned<SimpleBlock>, toks: Toks, p: int)
    requires
        block_matches(a, toks, p),
        block_matches(b, toks, p),
    ensures
        block_same(a, b),
{
    let stop = Stop::Close(a.node.kind);
    lemma_seg_unique(a.node.values@, b.node.values@, toks, p + 1, run_end(toks, p + 1, stop), stop);
}

proof fn lemma_at_unique(a: AtRule, sa: crate::span::Span, b: AtRule, sb: crate::span::Span, toks: Toks, k: int)
    requires
        at_matches(a, sa, toks, k),
        at_matches(b, sb, toks, k),
    ensures
        at_same(a, b),
        sa == sb,
{
    let stop = Stop::SemicolonOrCurly;
    lemma_seg_unique(a.prelude@, b.prelude@, toks, k + 1, run_end(toks, k + 1, stop), stop);
    let p = run_end(toks, k + 1, stop);
    if p < toks.len() && toks[p].0 is LeftCurly {
        lemma_block_unique(a.block->Some_0, b.block->Some_0, toks, p);
    }
}

proof fn lemma_rules_unique(a: Seq<Spanned<Rule>>, b: Seq<Spanned<Rule>>, toks: Toks, k: int, top: bool)
    requires
        rules_match(a, toks, k, top),
        rules_match(b, toks, k, top),
    ensures
        rules_same(a, b),
    decreases toks.len() - k,
{
    if k < 0 || k >= toks.len() {
    } else if toks[k].0 is Whitespace || (top && (toks[k].0 is Cdo || toks[k].0 is Cdc)) {
        lemma_rules_unique(a, b, toks, k + 1, top);
    } else {
        let p = run_end(toks, k, Stop::OpenCurly);
        let e = if toks[k].0 is AtKeyword {
            at_rule_end(toks, k)
        } else {
            cv_end(toks, p)
        };
        if a.len() > 0 {
            match (a[0].node, b[0].node) {
                (Rule::At(x), Rule::At(y)) => lemma_at_unique(x, a[0].span, y, b[0].span, toks, k),
                (Rule::Qualified(x), Rule::Qualified(y)) => {
                    let stop = Stop::OpenCurly;
                    lemma_seg_unique(x.prelude@, y.prelude@, toks, k, p, stop);
                    lemma_block_unique(x.block, y.block, toks, p);
                },
                _ => {},
            }
            if k < e <= toks.len() {
                lemma_rules_unique(a.drop_first(), b.drop_first(), toks, e, top);
                assert forall|i: int| 0 <= i < a.len() implies rule_same(#[trigger] a[i], b[i]) by {
                    if i > 0 {
                        assert(a[i] == a.drop_first()[i - 1]);
                        assert(b[i] == b.drop_first()[i - 1]);
                    }
                }
            }
        }
    }
}

proof fn lemma_same_value_kinds(x: Spanned<ComponentValue>, y: Spanned<ComponentValue>)
    requires
        cv_same(x, y),
    ensures
        is_ws_value(x) == is_ws_value(y),
        is_bang_value(x) == is_bang_value(y),
        is_important_value(x) == is_important_value(y),
{
}

proof fn lemma_last_non_ws_same(a: Seq<Spanned<ComponentValue>>, b: Seq<Spanned<ComponentValue>>, n: int)
    requires
        vals_same(a, b),
        n <= a.len(),
    ensures
        last_non_ws(a, n) == last_non_ws(b, n),
        -1 <= last_non_ws(a, n),
        n > 0 ==> last_non_ws(a, n) < n,
    decreases n,
{
    if n > 0 {
        lemma_same_value_kinds(a[n - 1], b[n - 1]);
        lemma_last_non_ws_same(a, b, n - 1);
    }
}

proof fn lemma_remove_same(a: Seq<Spanned<ComponentValue>>, b: Seq<Spanned<ComponentValue>>, i: int)
    requires
        vals_same(a, b),
        0 <= i < a.len(),
    ensures
        vals_same(a.remove(i), b.remove(i)),
{
    assert forall|j: int| 0 <= j < a.remove(i).len() implies cv_same(
        #[trigger] a.remove(i)[j],
        b.remove(i)[j],
    ) by {
        if j < i {
            assert(a.remove(i)[j] == a[j]);
            assert(b.remove(i)[j] == b[j]);
        } else {
            assert(a.remove(i)[j] == a[j + 1]);
            assert(b.remove(i)[j] == b[j + 1]);
        }
    }
}

proof fn lemma_strip_same(a: Seq<Spanned<ComponentValue>>, b: Seq<Spanned<ComponentValue>>)
    requires
        vals_same(a, b),
    ensures
        vals_same(strip_important(a).0, strip_important(b).0),
        strip_important(a).1 == strip_important(b).1,
{
    let li = last_non_ws(a, a.len() as int);
    lemma_last_non_ws_same(a, b, a.len() as int);
    let si = last_non_ws(a, li);
    if li >= 0 {
        lemma_last_non_ws_same(a, b, li);
        lemma_same_value_kinds(a[li], b[li]);
        if si >= 0 {
            lemma_same_value_kinds(a[si], b[si]);
            if is_important_value(a[li]) && is_bang_value(a[si]) {
                lemma_remove_same(a, b, li);
                lemma_remove_same(a.remove(li), b.remove(li), si);
            }
        }
    }
}

proof fn lemma_decl_unique(
    a: Declaration,
    sa: crate::span::Span,
    b: Declaration,
    sb: crate::span::Span,
    toks: Toks,
    k: int,
)
    requires
        decl_matches(a, sa, toks, k),
        decl_matches(b, sb, toks, k),
    ensures
        decl_same(Spanned { node: a, span: sa }, Spanned { node: b, span: sb }),
{
    let v0 = decl_value_start(toks, k);
    let v1 = decl_end(toks, k);
    let stop = Stop::Semicolon;
    let ra = choose|raw: Seq<Spanned<ComponentValue>>|
        #[trigger] vals_seg(raw, toks, v0, v1, stop) && strip_important(raw) == (a.value@, a.important);
    let rb = choose|raw: Seq<Spanned<ComponentValue>>|
        #[trigger] vals_seg(raw, toks, v0, v1, stop) && strip_important(raw) == (b.value@, b.important);
    lemma_seg_unique(ra, rb, toks, v0, v1, stop);
    lemma_strip_same(ra, rb);
}

proof fn lemma_decls_unique(a: Seq<DeclarationListItem>, b: Seq<DeclarationListItem>, toks: Toks, k: int)
    requires
        decls_match(a, toks, k),
        decls_match(b, toks, k),
    ensures
        items_same(a, b),
    decreases toks.len() - k,
{
    if k < 0 || k >= toks.len() {
    } else if toks[k].0 is Whitespace || toks[k].0 is Semicolon {
        lemma_decls_unique(a, b, toks, k + 1);
    } else if toks[k].0 is AtKeyword || (toks[k].0 is Ident && has_colon(toks, k)) {
        let e = if toks[k].0 is AtKeyword {
            at_rule_end(toks, k)
        } else {
            decl_end(toks, k)
        };
        if a.len() > 0 {
            match (a[0], b[0]) {
                (DeclarationListItem::AtRule(x), DeclarationListItem::AtRule(y)) => {
                    lemma_at_unique(x.node, x.span, y.node, y.span, toks, k);
                },
                (DeclarationListItem::Declaration(x), DeclarationListItem::Declaration(y)) => {
                    lemma_decl_unique(x.node, x.span, y.node, y.span, toks, k);
                },
                _ => {},
            }
            if k < e <= toks.len() {
                lemma_decls_unique(a.drop_first(), b.drop_first(), toks, e);
                assert forall|i: int| 0 <= i < a.len() implies item_same(#[trigger] a[i], b[i]) by {
                    if i > 0 {
                        assert(a[i] == a.drop_first()[i - 1]);
                        assert(b[i] == b.drop_first()[i - 1]);
                    }
                }
            }
        }
    } else if toks[k].0 is Ident {
        let c = skip_ws(toks, k + 1);
        if k < c <= toks.len() {
            lemma_decls_unique(a, b, toks, c);
        }
    } else {
        let e = cv_end(toks, k);
        if k < e <= toks.len() {
            lemma_decls_unique(a, b, toks, e);
        }
    }
}

/// The grammar determines the rule list it builds: two rule lists that both
/// match the same tokens from the same place agree on every span, every
/// token and every name.
pub proof fn lemma_rules_determined(a: Seq<Spanned<Rule>>, b: Seq<Spanned<Rule>>, toks: Toks, k: int, top: bool)
    requires
        rules_match(a, toks, k, top),
        rules_match(b, toks, k, top),
    ensures
        rules_same(a, b),
{
    lemma_rules_unique(a, b, toks, k, top);
}

/// The grammar determines the declaration list it builds: two lists that
/// both match the same tokens from the same place agree on every span, every
/// token and every name.
pub proof fn lemma_declarations_determined(a: Seq<DeclarationListItem>, b: Seq<DeclarationListItem>, toks: Toks, k: int)
    requires
        decls_match(a, toks, k),
        decls_match(b, toks, k),
    ensures
        items_same(a, b),
{
    lemma_decls_unique(a, b, toks, k);
}

} // verus!
