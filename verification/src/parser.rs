//! The CSS "core grammar" (CSS Syntax Level 3, §5): a token stream turned
//! into a generic rule/declaration tree with no knowledge of what any
//! particular at-rule, selector or property means. Selectors and
//! declaration values are left as unparsed component values.
//!
//! This is the position-less tree: it is the tree of [`crate::spanned`]
//! with every span left out.

use vstd::prelude::*;

use crate::grammar::{decls_match, rules_match, spans_ordered};
use crate::parse_laws::{
    at_same, cv_same, item_same, items_same, lemma_declarations_determined,
    lemma_rules_determined, rule_same, rules_same, vals_same,
};
use crate::scan;
use crate::span::Spanned;
use crate::spanned;
use crate::text::fits_usize;
use crate::token::Token;
use crate::tokenizer::{tokenize, tokenize_stylesheet, tokens_view};

verus! {

#[derive(Debug, Clone, Copy, PartialEq, Eq, Structural)]
pub enum BlockKind {
    Curly,
    Square,
    Paren,
}

#[derive(Debug, PartialEq)]
pub enum ComponentValue {
    Token(Token),
    Function { name: String, args: Vec<ComponentValue> },
    Block(SimpleBlock),
}

#[derive(Debug, PartialEq)]
pub struct SimpleBlock {
    pub kind: BlockKind,
    pub values: Vec<ComponentValue>,
}

#[derive(Debug, PartialEq)]
pub struct QualifiedRule {
    pub prelude: Vec<ComponentValue>,
    pub block: SimpleBlock,
}

#[derive(Debug, PartialEq)]
pub struct AtRule {
    pub name: String,
    pub prelude: Vec<ComponentValue>,
    pub block: Option<SimpleBlock>,
}

#[derive(Debug, PartialEq)]
pub enum Rule {
    Qualified(QualifiedRule),
    At(AtRule),
}

#[derive(Debug, PartialEq)]
pub struct Declaration {
    pub name: String,
    pub value: Vec<ComponentValue>,
    pub important: bool,
}

#[derive(Debug, PartialEq)]
pub enum DeclarationListItem {
    Declaration(Declaration),
    AtRule(AtRule),
}

#[derive(Debug, PartialEq)]
pub struct Stylesheet {
    pub rules: Vec<Rule>,
}

// ---------------------------------------------------------------------------
// A plain tree is a spanned tree without its spans
// ---------------------------------------------------------------------------

pub open spec fn same_cv(p: ComponentValue, s: spanned::ComponentValue) -> bool
    decreases p,
{
    match (p, s) {
        (ComponentValue::Token(a), spanned::ComponentValue::Token(b)) => a@ == b@,
        (
            ComponentValue::Function { name, args },
            spanned::ComponentValue::Function { name: sname, args: sargs },
        ) => name@ == sname@ && same_vals(args@, sargs@),
        (ComponentValue::Block(a), spanned::ComponentValue::Block(b)) => {
            a.kind == b.kind && same_vals(a.values@, b.values@)
        },
        _ => false,
    }
}

pub open spec fn same_vals(p: Seq<ComponentValue>, s: Seq<Spanned<spanned::ComponentValue>>) -> bool
    decreases p,
{
    &&& p.len() == s.len()
    &&& forall|i: int| 0 <= i < p.len() ==> same_cv(#[trigger] p[i], s[i].node)
}

pub open spec fn same_block(p: SimpleBlock, s: spanned::SimpleBlock) -> bool {
    p.kind == s.kind && same_vals(p.values@, s.values@)
}

pub open spec fn same_at(p: AtRule, s: spanned::AtRule) -> bool {
    &&& p.name@ == s.name@
    &&& same_vals(p.prelude@, s.prelude@)
    &&& match (p.block, s.block) {
        (Some(a), Some(b)) => same_block(a, b.node),
        (None, None) => true,
        _ => false,
    }
}

pub open spec fn same_rule(p: Rule, s: spanned::Rule) -> bool {
    match (p, s) {
        (Rule::Qualified(a), spanned::Rule::Qualified(b)) => {
            same_vals(a.prelude@, b.prelude@) && same_block(a.block, b.block.node)
        },
        (Rule::At(a), spanned::Rule::At(b)) => same_at(a, b),
        _ => false,
    }
}

pub open spec fn same_rules(p: Seq<Rule>, s: Seq<Spanned<spanned::Rule>>) -> bool {
    &&& p.len() == s.len()
    &&& forall|i: int| 0 <= i < p.len() ==> same_rule(#[trigger] p[i], s[i].node)
}

pub open spec fn same_item(p: DeclarationListItem, s: spanned::DeclarationListItem) -> bool {
    match (p, s) {
        (DeclarationListItem::Declaration(a), spanned::DeclarationListItem::Declaration(b)) => {
            &&& a.name@ == b.node.name@
            &&& same_vals(a.value@, b.node.value@)
            &&& a.important == b.node.important
        },
        (DeclarationListItem::AtRule(a), spanned::DeclarationListItem::AtRule(b)) => same_at(a, b.node),
        _ => false,
    }
}

pub open spec fn same_items(p: Seq<DeclarationListItem>, s: Seq<spanned::DeclarationListItem>) -> bool {
    &&& p.len() == s.len()
    &&& forall|i: int| 0 <= i < p.len() ==> same_item(#[trigger] p[i], s[i])
}

// Sameness carries over: a plain tree that is a spanned tree without its
// spans is also any spanned tree that says the same without its spans.

proof fn lemma_cv_transfer(
    p: ComponentValue,
    x: Spanned<spanned::ComponentValue>,
    y: Spanned<spanned::ComponentValue>,
)
    requires
        same_cv(p, x.node),
        cv_same(x, y),
    ensures
        same_cv(p, y.node),
    decreases p,
{
    match (p, x.node, y.node) {
        (
            ComponentValue::Function { args, .. },
            spanned::ComponentValue::Function { args: xa, .. },
            spanned::ComponentValue::Function { args: ya, .. },
        ) => lemma_vals_transfer(args@, xa@, ya@),
        (
            ComponentValue::Block(b),
            spanned::ComponentValue::Block(xb),
            spanned::ComponentValue::Block(yb),
        ) => lemma_vals_transfer(b.values@, xb.values@, yb.values@),
        _ => {},
    }
}

proof fn lemma_vals_transfer(
    p: Seq<ComponentValue>,
    x: Seq<Spanned<spanned::ComponentValue>>,
    y: Seq<Spanned<spanned::ComponentValue>>,
)
    requires
        same_vals(p, x),
        vals_same(x, y),
    ensures
        same_vals(p, y),
    decreases p,
{
    assert forall|i: int| 0 <= i < p.len() implies same_cv(#[trigger] p[i], y[i].node) by {
        lemma_cv_transfer(p[i], x[i], y[i]);
    }
}

proof fn lemma_at_transfer(p: AtRule, x: spanned::AtRule, y: spanned::AtRule)
    requires
        same_at(p, x),
        at_same(x, y),
    ensures
        same_at(p, y),
{
    lemma_vals_transfer(p.prelude@, x.prelude@, y.prelude@);
    match (p.block, x.block, y.block) {
        (Some(pb), Some(xb), Some(yb)) => lemma_vals_transfer(pb.values@, xb.node.values@, yb.node.values@),
        _ => {},
    }
}

proof fn lemma_rules_transfer(p: Seq<Rule>, x: Seq<Spanned<spanned::Rule>>, y: Seq<Spanned<spanned::Rule>>)
    requires
        same_rules(p, x),
        rules_same(x, y),
    ensures
        same_rules(p, y),
{
    assert forall|i: int| 0 <= i < p.len() implies same_rule(#[trigger] p[i], y[i].node) by {
        assert(same_rule(p[i], x[i].node));
        assert(rule_same(x[i], y[i]));
        match (p[i], x[i].node, y[i].node) {
            (Rule::Qualified(a), spanned::Rule::Qualified(b), spanned::Rule::Qualified(c)) => {
                lemma_vals_transfer(a.prelude@, b.prelude@, c.prelude@);
                lemma_vals_transfer(a.block.values@, b.block.node.values@, c.block.node.values@);
            },
            (Rule::At(a), spanned::Rule::At(b), spanned::Rule::At(c)) => lemma_at_transfer(a, b, c),
            _ => {},
        }
    }
}

proof fn lemma_items_transfer(
    p: Seq<DeclarationListItem>,
    x: Seq<spanned::DeclarationListItem>,
    y: Seq<spanned::DeclarationListItem>,
)
    requires
        same_items(p, x),
        items_same(x, y),
    ensures
        same_items(p, y),
{
    assert forall|i: int| 0 <= i < p.len() implies same_item(#[trigger] p[i], y[i]) by {
        assert(same_item(p[i], x[i]));
        assert(item_same(x[i], y[i]));
        match (p[i], x[i], y[i]) {
            (
                DeclarationListItem::Declaration(a),
                spanned::DeclarationListItem::Declaration(b),
                spanned::DeclarationListItem::Declaration(c),
            ) => lemma_vals_transfer(a.value@, b.node.value@, c.node.value@),
            (
                DeclarationListItem::AtRule(a),
                spanned::DeclarationListItem::AtRule(b),
                spanned::DeclarationListItem::AtRule(c),
            ) => lemma_at_transfer(a, b.node, c.node),
            _ => {},
        }
    }
}

fn unspan_cv(v: &spanned::ComponentValue) -> (r: ComponentValue)
    ensures
        same_cv(r, *v),
    decreases v,
{
    match v {
        spanned::ComponentValue::Token(t) => ComponentValue::Token(t.duplicate()),
        spanned::ComponentValue::Function { name, args } => {
            ComponentValue::Function { name: name.clone(), args: unspan_vals(args) }
        },
        spanned::ComponentValue::Block(b) => ComponentValue::Block(unspan_block(b)),
    }
}

fn unspan_block(b: &spanned::SimpleBlock) -> (r: SimpleBlock)
    ensures
        same_block(r, *b),
    decreases b,
{
    SimpleBlock { kind: b.kind, values: unspan_vals(&b.values) }
}

fn unspan_vals(v: &Vec<Spanned<spanned::ComponentValue>>) -> (r: Vec<ComponentValue>)
    ensures
        same_vals(r@, v@),
    decreases v,
{
    let mut out: Vec<ComponentValue> = Vec::new();
    let mut i: usize = 0;
    while i < v.len()
        invariant
            0 <= i <= v.len(),
            out.len() == i,
            forall|j: int| 0 <= j < i ==> same_cv(#[trigger] out@[j], v@[j].node),
        decreases v.len() - i,
    {
        out.push(unspan_cv(&v[i].node));
        i = i + 1;
    }
    out
}

fn unspan_at(a: &spanned::AtRule) -> (r: AtRule)
    ensures
        same_at(r, *a),
{
    let block = match &a.block {
        Some(b) => Some(unspan_block(&b.node)),
        None => None,
    };
    AtRule { name: a.name.clone(), prelude: unspan_vals(&a.prelude), block }
}

fn unspan_rules(v: &Vec<Spanned<spanned::Rule>>) -> (r: Vec<Rule>)
    ensures
        same_rules(r@, v@),
{
    let mut out: Vec<Rule> = Vec::new();
    let mut i: usize = 0;
    while i < v.len()
        invariant
            0 <= i <= v.len(),
            out.len() == i,
            forall|j: int| 0 <= j < i ==> same_rule(#[trigger] out@[j], v@[j].node),
        decreases v.len() - i,
    {
        let r = match &v[i].node {
            spanned::Rule::Qualified(q) => Rule::Qualified(
                QualifiedRule { prelude: unspan_vals(&q.prelude), block: unspan_block(&q.block.node) },
            ),
            spanned::Rule::At(a) => Rule::At(unspan_at(a)),
        };
        out.push(r);
        i = i + 1;
    }
    out
}

fn unspan_items(v: &Vec<spanned::DeclarationListItem>) -> (r: Vec<DeclarationListItem>)
    ensures
        same_items(r@, v@),
{
    let mut out: Vec<DeclarationListItem> = Vec::new();
    let mut i: usize = 0;
    while i < v.len()
        invariant
            0 <= i <= v.len(),
            out.len() == i,
            forall|j: int| 0 <= j < i ==> same_item(#[trigger] out@[j], v@[j]),
        decreases v.len() - i,
    {
        let item = match &v[i] {
            spanned::DeclarationListItem::Declaration(d) => DeclarationListItem::Declaration(
                Declaration {
                    name: d.node.name.clone(),
                    value: unspan_vals(&d.node.value),
                    important: d.node.important,
                },
            ),
            spanned::DeclarationListItem::AtRule(a) => DeclarationListItem::AtRule(unspan_at(&a.node)),
        };
        out.push(item);
        i = i + 1;
    }
    out
}

// ---------------------------------------------------------------------------
// The parser
// ---------------------------------------------------------------------------

pub struct Parser {
    tokens: Vec<Spanned<Token>>,
}

impl Parser {
    /// The tokens the parser reads, each with its span.
    pub closed spec fn tokens(&self) -> crate::grammar::Toks {
        tokens_view(self.tokens@)
    }

    /// The tokens' spans are in source order.
    #[verifier::type_invariant]
    spec fn wf(self) -> bool {
        spans_ordered(tokens_view(self.tokens@))
    }

    pub fn new(input: &str) -> (r: Parser)
        requires
            fits_usize(input@),
        ensures
            r.tokens() == scan::tokenize(input@),
    {
        Parser { tokens: tokenize(input) }
    }

    fn stylesheet(&self) -> (r: Stylesheet)
        ensures
            exists|s: spanned::Stylesheet|
                rules_match(s.rules@, self.tokens(), 0, true) && #[trigger] same_rules(r.rules@, s.rules@),
    {
        proof {
            use_type_invariant(self);
        }
        let s = spanned::parse_stylesheet_tokens(&self.tokens);
        let r = Stylesheet { rules: unspan_rules(&s.rules) };
        assert(same_rules(r.rules@, s.rules@));
        r
    }

    fn declaration_list(&self) -> (r: Vec<DeclarationListItem>)
        ensures
            exists|s: Seq<spanned::DeclarationListItem>|
                decls_match(s, self.tokens(), 0) && #[trigger] same_items(r@, s),
    {
        proof {
            use_type_invariant(self);
        }
        let s = spanned::parse_declaration_list_tokens(&self.tokens);
        let r = unspan_items(&s);
        assert(same_items(r@, s@));
        r
    }

    /// §5.3.3 "Parse a stylesheet": the tree of
    /// [`spanned::parse_stylesheet`] without its spans. CDO/CDC tokens at
    /// the top level are discarded.
    pub fn parse_stylesheet(input: &str) -> (r: Stylesheet)
        requires
            fits_usize(input@),
        ensures
            exists|s: spanned::Stylesheet|
                rules_match(s.rules@, scan::stylesheet_tokens(input@), 0, true) && #[trigger] same_rules(
                    r.rules@,
                    s.rules@,
                ),
            forall|s: Seq<Spanned<spanned::Rule>>|
                rules_match(s, scan::stylesheet_tokens(input@), 0, true) ==> #[trigger] same_rules(r.rules@, s),
    {
        let r = (Parser { tokens: tokenize_stylesheet(input) }).stylesheet();
        proof {
            let toks = scan::stylesheet_tokens(input@);
            let s0 = choose|s: spanned::Stylesheet|
                rules_match(s.rules@, toks, 0, true) && #[trigger] same_rules(r.rules@, s.rules@);
            assert forall|s: Seq<Spanned<spanned::Rule>>| rules_match(s, toks, 0, true) implies #[trigger] same_rules(
                r.rules@,
                s,
            ) by {
                lemma_rules_determined(s0.rules@, s, toks, 0, true);
                lemma_rules_transfer(r.rules@, s0.rules@, s);
            }
        }
        r
    }

    /// "Parse a list of declarations": the list of
    /// [`spanned::parse_declaration_list`] without its spans.
    pub fn parse_declaration_list(input: &str) -> (r: Vec<DeclarationListItem>)
        requires
            fits_usize(input@),
        ensures
            exists|s: Seq<spanned::DeclarationListItem>|
                decls_match(s, scan::tokenize(input@), 0) && #[trigger] same_items(r@, s),
            forall|s: Seq<spanned::DeclarationListItem>|
                decls_match(s, scan::tokenize(input@), 0) ==> #[trigger] same_items(r@, s),
    {
        let r = Parser::new(input).declaration_list();
        proof {
            let toks = scan::tokenize(input@);
            let s0 = choose|s: Seq<spanned::DeclarationListItem>|
                decls_match(s, toks, 0) && #[trigger] same_items(r@, s);
            assert forall|s: Seq<spanned::DeclarationListItem>| decls_match(s, toks, 0) implies #[trigger] same_items(
                r@,
                s,
            ) by {
                lemma_declarations_determined(s0, s, toks, 0);
                lemma_items_transfer(r@, s0, s);
            }
        }
        r
    }
}

} // verus!
