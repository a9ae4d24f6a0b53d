//! Span-carrying parse tree: every node, and every nested value, carries
//! the source [`Span`] it was parsed from.

use vstd::prelude::*;

use crate::grammar::{
    at_matches, at_rule_end, cv_end, cv_matches, decl_end, decl_matches, decls_match, has_colon,
    important_name, last_non_ws, qualified_matches, range_span, rules_match, run_end, skip_ws,
    spans_ordered, stops, strip_important, vals_match, vals_seg, Stop, Toks,
};
use crate::scan;
use crate::selector::{errors_view, selector_list_errors, validate_selector_list};
use crate::text::{chars_eq_ignore_ascii_case, fits_usize, str_to_chars};
use crate::parser::BlockKind;
use crate::span::{Span, Spanned};
use crate::token::Token;
use crate::tokenizer::{tokenize, tokenize_stylesheet, tokens_view};

verus! {

/// A component value, with spans on every nested value.
#[derive(Debug, PartialEq)]
pub enum ComponentValue {
    Token(Token),
    Function { name: String, args: Vec<Spanned<ComponentValue>> },
    Block(SimpleBlock),
}

/// A `{}`/`[]`/`()` block whose contents each carry a span.
#[derive(Debug, PartialEq)]
pub struct SimpleBlock {
    pub kind: BlockKind,
    pub values: Vec<Spanned<ComponentValue>>,
}

/// A `selector { … }` rule.
#[derive(Debug, PartialEq)]
pub struct QualifiedRule {
    pub prelude: Vec<Spanned<ComponentValue>>,
    pub block: Spanned<SimpleBlock>,
}

/// An `@name … { … }` (or `@name …;`) rule.
#[derive(Debug, PartialEq)]
pub struct AtRule {
    pub name: String,
    /// Span of just the `@name` keyword token.
    pub name_span: Span,
    pub prelude: Vec<Spanned<ComponentValue>>,
    pub block: Option<Spanned<SimpleBlock>>,
}

/// A top-level rule.
#[derive(Debug, PartialEq)]
pub enum Rule {
    Qualified(QualifiedRule),
    At(AtRule),
}

/// A `property: value` declaration, with a `name_span` for just the
/// property name.
#[derive(Debug, PartialEq)]
pub struct Declaration {
    pub name: String,
    pub name_span: Span,
    pub value: Vec<Spanned<ComponentValue>>,
    pub important: bool,
}

/// One entry of a declaration list: a declaration, or a nested at-rule.
#[derive(Debug, PartialEq)]
pub enum DeclarationListItem {
    Declaration(Spanned<Declaration>),
    AtRule(Spanned<AtRule>),
}

/// A syntax error found in a parsed stylesheet, located by its span.
#[derive(Debug, Clone, PartialEq, Eq)]
pub struct SyntaxError {
    pub span: Span,
    pub kind: SyntaxErrorKind,
}

/// What a [`SyntaxError`] reports.
#[derive(Debug, Clone, Copy, PartialEq, Eq, Structural)]
pub enum SyntaxErrorKind {
    /// A qualified rule's prelude is not a selector list.
    InvalidSelector,
}

/// A parsed stylesheet: its top-level rules, each with a span.
#[derive(Debug, PartialEq)]
pub struct Stylesheet {
    pub rules: Vec<Spanned<Rule>>,
}

// ---------------------------------------------------------------------------
// Consuming component values
// ---------------------------------------------------------------------------

/// The token at `k` stops a run of values.
fn stops_at(t: &Token, stop: Stop) -> (r: bool)
    ensures
        r == stops(t@, stop),
{
    match stop {
        Stop::Close(BlockKind::Curly) => matches!(t, Token::RightCurly),
        Stop::Close(BlockKind::Square) => matches!(t, Token::RightSquare),
        Stop::Close(BlockKind::Paren) => matches!(t, Token::RightParen),
        Stop::OpenCurly => matches!(t, Token::LeftCurly),
        Stop::SemicolonOrCurly => matches!(t, Token::Semicolon | Token::LeftCurly),
        Stop::Semicolon => matches!(t, Token::Semicolon),
    }
}

proof fn lemma_vals_seg_push(
    vals: Seq<Spanned<ComponentValue>>,
    v: Spanned<ComponentValue>,
    toks: Toks,
    k: int,
    m: int,
    stop: Stop,
)
    requires
        vals_seg(vals, toks, k, m, stop),
        0 <= m < toks.len(),
        !stops(toks[m].0, stop),
        cv_matches(v, toks, m),
    ensures
        vals_seg(vals.push(v), toks, k, cv_end(toks, m), stop),
    decreases vals.len(),
{
    let w = vals.push(v);
    if vals.len() == 0 {
        assert(w.drop_first() =~= Seq::<Spanned<ComponentValue>>::empty());
        assert(w[0] == v);
        assert(vals_seg(w.drop_first(), toks, cv_end(toks, m), cv_end(toks, m), stop));
    } else {
        lemma_vals_seg_push(vals.drop_first(), v, toks, cv_end(toks, k), m, stop);
        assert(w.drop_first() =~= vals.drop_first().push(v));
        assert(w[0] == vals[0]);
    }
}

/// Consume component values from `k` until a token that `stop`s them (or
/// the end). Returns the values, the index of the stopping token, and the
/// span of the last value consumed (`prev` if none was).
fn consume_run(t: &Vec<Spanned<Token>>, k: usize, stop: Stop, prev: Span) -> (r: (
    Vec<Spanned<ComponentValue>>,
    usize,
    Span,
))
    requires
        k <= t.len(),
        spans_ordered(tokens_view(t@)),
    ensures
        vals_match(r.0@, tokens_view(t@), k as int, stop),
        r.1 == run_end(tokens_view(t@), k as int, stop),
        k <= r.1 <= t.len(),
        r.1 < t.len() ==> stops(tokens_view(t@)[r.1 as int].0, stop),
        r.1 == k ==> r.2 == prev,
        r.1 > k ==> r.2.end == tokens_view(t@)[r.1 - 1].1.end && tokens_view(t@)[k as int].1.start
            <= r.2.start,
    decreases t.len() - k, 2int,
{
    let ghost toks = tokens_view(t@);
    let mut out: Vec<Spanned<ComponentValue>> = Vec::new();
    let mut cur = k;
    let mut last = prev;
    while cur < t.len() && !stops_at(&t[cur].node, stop)
        invariant
            toks == tokens_view(t@),
            spans_ordered(toks),
            k <= cur <= t.len(),
            vals_seg(out@, toks, k as int, cur as int, stop),
            run_end(toks, k as int, stop) == run_end(toks, cur as int, stop),
            cur == k ==> last == prev,
            cur > k ==> last.end == toks[cur - 1].1.end && toks[k as int].1.start <= last.start,
        decreases t.len() - cur,
    {
        let (v, e) = consume_component_value(t, cur);
        proof {
            lemma_vals_seg_push(out@, v, toks, k as int, cur as int, stop);
        }
        last = v.span;
        out.push(v);
        cur = e;
    }
    (out, cur, last)
}

/// The contents of a block (or a function's arguments) whose opening token
/// is at `k`, the closing bracket consumed if present. Returns the values,
/// the index past the block and the block's span.
fn consume_enclosed(t: &Vec<Spanned<Token>>, k: usize, kind: BlockKind) -> (r: (
    Vec<Spanned<ComponentValue>>,
    usize,
    Span,
))
    requires
        k < t.len(),
        spans_ordered(tokens_view(t@)),
    ensures
        vals_match(r.0@, tokens_view(t@), k + 1, Stop::Close(kind)),
        r.1 == crate::grammar::past_closer(
            tokens_view(t@),
            run_end(tokens_view(t@), k + 1, Stop::Close(kind)),
        ),
        k < r.1 <= t.len(),
        r.2 == range_span(tokens_view(t@), k as int, r.1 as int),
    decreases t.len() - k, 0int,
{
    let ghost toks = tokens_view(t@);
    let open = t[k].span;
    let (values, e, last) = consume_run(t, k + 1, Stop::Close(kind), open);
    if e < t.len() {
        let close = t[e].span;
        (values, e + 1, open.to(close))
    } else {
        (values, e, open.to(last))
    }
}

/// §5.4.6 "consume a component value" at `k`.
fn consume_component_value(t: &Vec<Spanned<Token>>, k: usize) -> (r: (Spanned<ComponentValue>, usize))
    requires
        k < t.len(),
        spans_ordered(tokens_view(t@)),
    ensures
        cv_matches(r.0, tokens_view(t@), k as int),
        r.1 == cv_end(tokens_view(t@), k as int),
        k < r.1 <= t.len(),
    decreases t.len() - k, 1int,
{
    let ghost toks = tokens_view(t@);
    let kind = match &t[k].node {
        Token::LeftCurly => Some(BlockKind::Curly),
        Token::LeftSquare => Some(BlockKind::Square),
        Token::LeftParen => Some(BlockKind::Paren),
        _ => None,
    };
    match kind {
        Some(kind) => {
            let (values, e, span) = consume_enclosed(t, k, kind);
            (Spanned::new(ComponentValue::Block(SimpleBlock { kind, values }), span), e)
        },
        None => match &t[k].node {
            Token::Function(name) => {
                let name = name.clone();
                let (args, e, span) = consume_enclosed(t, k, BlockKind::Paren);
                (Spanned::new(ComponentValue::Function { name, args }, span), e)
            },
            other => {
                let tok = other.duplicate();
                (Spanned::new(ComponentValue::Token(tok), t[k].span), k + 1)
            },
        },
    }
}

// ---------------------------------------------------------------------------
// Consuming rules and declarations
// ---------------------------------------------------------------------------

/// §5.4.3 "consume an at-rule" at `k`, its at-keyword.
fn consume_at_rule(t: &Vec<Spanned<Token>>, k: usize) -> (r: (Spanned<AtRule>, usize))
    requires
        k < t.len(),
        spans_ordered(tokens_view(t@)),
        tokens_view(t@)[k as int].0 is AtKeyword,
    ensures
        at_matches(r.0.node, r.0.span, tokens_view(t@), k as int),
        r.1 == at_rule_end(tokens_view(t@), k as int),
        k < r.1 <= t.len(),
{
    let ghost toks = tokens_view(t@);
    let name = match &t[k].node {
        Token::AtKeyword(n) => n.clone(),
        _ => {
            proof {
                assert(false);
            }
            String::new()
        },
    };
    let name_span = t[k].span;
    let (prelude, p, last) = consume_run(t, k + 1, Stop::SemicolonOrCurly, name_span);
    if p >= t.len() {
        let node = AtRule { name, name_span, prelude, block: None };
        (Spanned::new(node, name_span.to(last)), p)
    } else if matches!(&t[p].node, Token::Semicolon) {
        let semi = t[p].span;
        let node = AtRule { name, name_span, prelude, block: None };
        (Spanned::new(node, name_span.to(semi)), p + 1)
    } else {
        let (values, e, bspan) = consume_enclosed(t, p, BlockKind::Curly);
        let block = Spanned::new(SimpleBlock { kind: BlockKind::Curly, values }, bspan);
        let node = AtRule { name, name_span, prelude, block: Some(block) };
        (Spanned::new(node, name_span.to(bspan)), e)
    }
}

/// §5.4.4 "consume a qualified rule" at `k`. `None` when the input ends
/// before the rule's block: the rule is dropped, everything consumed.
fn consume_qualified_rule(t: &Vec<Spanned<Token>>, k: usize) -> (r: Option<(Spanned<QualifiedRule>, usize)>)
    requires
        k < t.len(),
        spans_ordered(tokens_view(t@)),
    ensures
        ({
            let p = run_end(tokens_view(t@), k as int, Stop::OpenCurly);
            match r {
                None => p >= t.len(),
                Some((q, e)) => {
                    &&& p < t.len()
                    &&& qualified_matches(q.node, q.span, tokens_view(t@), k as int)
                    &&& e == cv_end(tokens_view(t@), p)
                    &&& k < e <= t.len()
                },
            }
        }),
{
    let first = t[k].span;
    let (prelude, p, _last) = consume_run(t, k, Stop::OpenCurly, first);
    if p >= t.len() {
        return None;
    }
    let (values, e, bspan) = consume_enclosed(t, p, BlockKind::Curly);
    let block = Spanned::new(SimpleBlock { kind: BlockKind::Curly, values }, bspan);
    Some((Spanned::new(QualifiedRule { prelude, block }, first.to(bspan)), e))
}

/// Index past the whitespace tokens starting at `k`.
fn skip_whitespace(t: &Vec<Spanned<Token>>, k: usize) -> (r: usize)
    requires
        k <= t.len(),
    ensures
        r == skip_ws(tokens_view(t@), k as int),
        k <= r <= t.len(),
{
    let mut i = k;
    while i < t.len() && matches!(&t[i].node, Token::Whitespace)
        invariant
            k <= i <= t.len(),
            skip_ws(tokens_view(t@), k as int) == skip_ws(tokens_view(t@), i as int),
        decreases t.len() - i,
    {
        i = i + 1;
    }
    i
}

/// Index of the last value before index `n` that is not whitespace.
fn last_non_whitespace(v: &Vec<Spanned<ComponentValue>>, n: usize) -> (r: Option<usize>)
    requires
        n <= v.len(),
    ensures
        match r {
            Some(i) => i == last_non_ws(v@, n as int) && i < n,
            None => last_non_ws(v@, n as int) == -1,
        },
{
    let mut i = n;
    while i > 0
        invariant
            i <= n <= v.len(),
            last_non_ws(v@, n as int) == last_non_ws(v@, i as int),
        decreases i,
    {
        if !matches!(&v[i - 1].node, ComponentValue::Token(Token::Whitespace)) {
            return Some(i - 1);
        }
        i = i - 1;
    }
    None
}

/// If the last two non-whitespace values are `!` then an `important`
/// ident (ASCII case-insensitively), remove both and report it.
fn strip_trailing_important(value: &mut Vec<Spanned<ComponentValue>>) -> (r: bool)
    ensures
        (final(value)@, r) == strip_important(old(value)@),
{
    let n = value.len();
    if let Some(li) = last_non_whitespace(value, n) {
        if let Some(si) = last_non_whitespace(value, li) {
            let is_important = match &value[li].node {
                ComponentValue::Token(Token::Ident(s)) => {
                    let word = vec!['i', 'm', 'p', 'o', 'r', 't', 'a', 'n', 't'];
                    assert(word@ =~= important_name());
                    chars_eq_ignore_ascii_case(&str_to_chars(s.as_str()), &word)
                },
                _ => false,
            };
            let is_bang = matches!(&value[si].node, ComponentValue::Token(Token::Delim('!')));
            if is_important && is_bang {
                value.remove(li);
                value.remove(si);
                return true;
            }
        }
    }
    false
}

/// §5.4.5 "consume a declaration" at `k`, its name. `None` when no colon
/// follows the name: the name and the whitespace after it are consumed.
fn consume_declaration(t: &Vec<Spanned<Token>>, k: usize) -> (r: (Option<Spanned<Declaration>>, usize))
    requires
        k < t.len(),
        spans_ordered(tokens_view(t@)),
        tokens_view(t@)[k as int].0 is Ident,
    ensures
        match r.0 {
            Some(d) => {
                &&& has_colon(tokens_view(t@), k as int)
                &&& decl_matches(d.node, d.span, tokens_view(t@), k as int)
                &&& r.1 == decl_end(tokens_view(t@), k as int)
            },
            None => !has_colon(tokens_view(t@), k as int) && r.1 == skip_ws(tokens_view(t@), k + 1),
        },
        k < r.1 <= t.len(),
{
    let ghost toks = tokens_view(t@);
    let name = match &t[k].node {
        Token::Ident(n) => n.clone(),
        _ => {
            proof {
                assert(false);
            }
            String::new()
        },
    };
    let name_span = t[k].span;
    let c = skip_whitespace(t, k + 1);
    if c >= t.len() || !matches!(&t[c].node, Token::Colon) {
        return (None, c);
    }
    let v0 = skip_whitespace(t, c + 1);
    let (mut value, v1, last) = consume_run(t, v0, Stop::Semicolon, name_span);
    let span = name_span.to(last);
    let ghost raw = value@;
    let important = strip_trailing_important(&mut value);
    let node = Declaration { name, name_span, value, important };
    proof {
        assert(vals_seg(raw, toks, v0 as int, v1 as int, Stop::Semicolon));
    }
    (Some(Spanned::new(node, span)), v1)
}

/// §5.4.1 "consume a list of rules" from `k`.
fn consume_rules_list(t: &Vec<Spanned<Token>>, k: usize, top: bool) -> (r: Vec<Spanned<Rule>>)
    requires
        k <= t.len(),
        spans_ordered(tokens_view(t@)),
    ensures
        rules_match(r@, tokens_view(t@), k as int, top),
{
    let ghost toks = tokens_view(t@);
    let mut out: Vec<Spanned<Rule>> = Vec::new();
    let mut cur = k;
    while cur < t.len()
        invariant
            toks == tokens_view(t@),
            spans_ordered(toks),
            k <= cur <= t.len(),
            forall|rest: Seq<Spanned<Rule>>|
                rules_match(rest, toks, cur as int, top) ==> #[trigger] rules_match(
                    out@ + rest,
                    toks,
                    k as int,
                    top,
                ),
        decreases t.len() - cur,
    {
        let skip = match &t[cur].node {
            Token::Whitespace => true,
            Token::Cdo | Token::Cdc => top,
            _ => false,
        };
        let ghost out0 = out@;
        let ghost c0 = cur as int;
        if skip {
            cur = cur + 1;
        } else if matches!(&t[cur].node, Token::AtKeyword(_)) {
            let (a, e) = consume_at_rule(t, cur);
            let rule = Spanned::new(Rule::At(a.node), a.span);
            out.push(rule);
            proof {
                assert forall|rest: Seq<Spanned<Rule>>|
                    rules_match(rest, toks, e as int, top) implies #[trigger] rules_match(
                    out@ + rest,
                    toks,
                    k as int,
                    top,
                ) by {
                    let rest2 = seq![rule] + rest;
                    assert(rest2.drop_first() =~= rest);
                    assert(rules_match(rest2, toks, c0, top));
                    assert(out0 + rest2 =~= out@ + rest);
                }
            }
            cur = e;
        } else {
            match consume_qualified_rule(t, cur) {
                Some((q, e)) => {
                    let rule = Spanned::new(Rule::Qualified(q.node), q.span);
                    out.push(rule);
                    proof {
                        assert forall|rest: Seq<Spanned<Rule>>|
                            rules_match(rest, toks, e as int, top) implies #[trigger] rules_match(
                            out@ + rest,
                            toks,
                            k as int,
                            top,
                        ) by {
                            let rest2 = seq![rule] + rest;
                            assert(rest2.drop_first() =~= rest);
                            assert(rules_match(rest2, toks, c0, top));
                            assert(out0 + rest2 =~= out@ + rest);
                        }
                    }
                    cur = e;
                },
                None => {
                    proof {
                        assert(rules_match(Seq::<Spanned<Rule>>::empty(), toks, c0, top));
                        assert(out@ + Seq::<Spanned<Rule>>::empty() =~= out@);
                    }
                    return out;
                },
            }
        }
    }
    proof {
        assert(rules_match(Seq::<Spanned<Rule>>::empty(), toks, cur as int, top));
        assert(out@ + Seq::<Spanned<Rule>>::empty() =~= out@);
    }
    out
}

/// §5.4.2 "consume a list of declarations" from `k`.
fn consume_declaration_list(t: &Vec<Spanned<Token>>, k: usize) -> (r: Vec<DeclarationListItem>)
    requires
        k <= t.len(),
        spans_ordered(tokens_view(t@)),
    ensures
        decls_match(r@, tokens_view(t@), k as int),
{
    let ghost toks = tokens_view(t@);
    let mut out: Vec<DeclarationListItem> = Vec::new();
    let mut cur = k;
    while cur < t.len()
        invariant
            toks == tokens_view(t@),
            spans_ordered(toks),
            k <= cur <= t.len(),
            forall|rest: Seq<DeclarationListItem>|
                decls_match(rest, toks, cur as int) ==> #[trigger] decls_match(out@ + rest, toks, k as int),
        decreases t.len() - cur,
    {
        let ghost out0 = out@;
        let ghost c0 = cur as int;
        if matches!(&t[cur].node, Token::Whitespace | Token::Semicolon) {
            cur = cur + 1;
        } else if matches!(&t[cur].node, Token::AtKeyword(_)) {
            let (a, e) = consume_at_rule(t, cur);
            let item = DeclarationListItem::AtRule(a);
            out.push(item);
            proof {
                assert forall|rest: Seq<DeclarationListItem>|
                    decls_match(rest, toks, e as int) implies #[trigger] decls_match(out@ + rest, toks, k as int) by {
                    let rest2 = seq![item] + rest;
                    assert(rest2.drop_first() =~= rest);
                    assert(decls_match(rest2, toks, c0));
                    assert(out0 + rest2 =~= out@ + rest);
                }
            }
            cur = e;
        } else if matches!(&t[cur].node, Token::Ident(_)) {
            let (d, e) = consume_declaration(t, cur);
            match d {
                Some(d) => {
                    let item = DeclarationListItem::Declaration(d);
                    out.push(item);
                    proof {
                        assert forall|rest: Seq<DeclarationListItem>|
                            decls_match(rest, toks, e as int) implies #[trigger] decls_match(
                            out@ + rest,
                            toks,
                            k as int,
                        ) by {
                            let rest2 = seq![item] + rest;
                            assert(rest2.drop_first() =~= rest);
                            assert(decls_match(rest2, toks, c0));
                            assert(out0 + rest2 =~= out@ + rest);
                        }
                    }
                },
                None => {},
            }
            cur = e;
        } else {
            // A stray component value: discarded.
            let (_v, e) = consume_component_value(t, cur);
            cur = e;
        }
    }
    proof {
        assert(decls_match(Seq::<DeclarationListItem>::empty(), toks, cur as int));
        assert(out@ + Seq::<DeclarationListItem>::empty() =~= out@);
    }
    out
}

/// The rules of a token sequence, consumed from the start as a stylesheet.
pub fn parse_stylesheet_tokens(t: &Vec<Spanned<Token>>) -> (r: Stylesheet)
    requires
        spans_ordered(tokens_view(t@)),
    ensures
        rules_match(r.rules@, tokens_view(t@), 0, true),
{
    Stylesheet { rules: consume_rules_list(t, 0, true) }
}

/// The declaration list of a token sequence.
pub fn parse_declaration_list_tokens(t: &Vec<Spanned<Token>>) -> (r: Vec<DeclarationListItem>)
    requires
        spans_ordered(tokens_view(t@)),
    ensures
        decls_match(r@, tokens_view(t@), 0),
{
    consume_declaration_list(t, 0)
}

/// Parse a stylesheet into the span-carrying tree (CSS Syntax Level 3
/// §5.3.3): CDO/CDC tokens at the top level are discarded.
pub fn parse_stylesheet(input: &str) -> (r: Stylesheet)
    requires
        fits_usize(input@),
    ensures
        rules_match(r.rules@, scan::stylesheet_tokens(input@), 0, true),
{
    let t = tokenize_stylesheet(input);
    parse_stylesheet_tokens(&t)
}

/// Parse a list of declarations into the span-carrying tree: the contents
/// of a `style="…"` attribute, or of an `@font-face` / `@page` body.
pub fn parse_declaration_list(input: &str) -> (r: Vec<DeclarationListItem>)
    requires
        fits_usize(input@),
    ensures
        decls_match(r@, scan::tokenize(input@), 0),
{
    let t = tokenize(input);
    parse_declaration_list_tokens(&t)
}

/// The selector errors of the top-level qualified rules `rules[..n]`, in
/// order.
pub open spec fn sheet_selector_errors(rules: Seq<Spanned<Rule>>, n: int) -> Seq<Span>
    decreases n,
{
    if n <= 0 {
        seq![]
    } else {
        sheet_selector_errors(rules, n - 1) + match rules[n - 1].node {
            Rule::Qualified(q) => selector_list_errors(q.prelude@),
            Rule::At(_) => seq![],
        }
    }
}

/// The syntax errors of a stylesheet: each top-level qualified rule's
/// prelude is read as a selector list, and every place it fails to be one is
/// reported, in source order.
pub fn syntax_errors(css: &str) -> (r: Vec<SyntaxError>)
    requires
        fits_usize(css@),
    ensures
        exists|sheet: Stylesheet|
            rules_match(sheet.rules@, scan::stylesheet_tokens(css@), 0, true) && errors_view(r@)
                == #[trigger] sheet_selector_errors(sheet.rules@, sheet.rules@.len() as int),
{
    let sheet = parse_stylesheet(css);
    let mut out: Vec<SyntaxError> = Vec::new();
    let mut i: usize = 0;
    while i < sheet.rules.len()
        invariant
            0 <= i <= sheet.rules.len(),
            errors_view(out@) == sheet_selector_errors(sheet.rules@, i as int),
        decreases sheet.rules.len() - i,
    {
        match &sheet.rules[i].node {
            Rule::Qualified(q) => {
                let mut errs = validate_selector_list(&q.prelude);
                let ghost before = out@;
                out.append(&mut errs);
                assert(errors_view(out@) =~= errors_view(before) + selector_list_errors(q.prelude@));
            },
            Rule::At(_) => {
                assert(errors_view(out@) =~= sheet_selector_errors(sheet.rules@, i + 1));
            },
        }
        i = i + 1;
    }
    out
}

} // verus!
