use styloria::selector::{type_selector_names, validate_selector_list};
use styloria::spanned::{self, syntax_errors, Rule, SyntaxErrorKind};

/// Every selector error reported for one stylesheet.
fn sel_errors(css: &str) -> usize {
    syntax_errors(css)
        .into_iter()
        .filter(|e| e.kind == SyntaxErrorKind::InvalidSelector)
        .count()
}

fn type_names(css: &str) -> Vec<String> {
    let sheet = spanned::parse_stylesheet(css);
    let mut out = Vec::new();
    for rule in &sheet.rules {
        if let Rule::Qualified(q) = &rule.node {
            out.extend(type_selector_names(&q.prelude).into_iter().map(|s| s.node));
        }
    }
    out
}

#[test]
fn type_selector_names_are_the_compound_heads() {
    assert_eq!(type_names("h4a{color:red}"), ["h4a"]);
    assert_eq!(type_names("div>p{color:red}"), ["div", "p"]);
    assert_eq!(type_names("h1,h2{color:red}"), ["h1", "h2"]);
    assert_eq!(type_names("h4.note em{color:red}"), ["h4", "em"]);
    assert_eq!(type_names("svg|circle{fill:red}"), ["circle"]);
    assert_eq!(type_names(".note{color:red}"), Vec::<String>::new());
    assert_eq!(type_names("#id{color:red}"), Vec::<String>::new());
    assert_eq!(type_names("*{color:red}"), Vec::<String>::new());
    assert_eq!(type_names("[hidden]{color:red}"), Vec::<String>::new());
    assert_eq!(type_names(":root{color:red}"), Vec::<String>::new());
    assert_eq!(type_names("p.a.b{color:red}"), ["p"]);
}

#[test]
fn valid_selectors_are_silent() {
    for css in [
        "p { color: red }",
        "* { margin: 0 }",
        ".c { color: red }",
        "#id { color: red }",
        "a.c#id { color: red }",
        "div p { color: red }",
        "div > p { color: red }",
        "div + p { color: red }",
        "div ~ p { color: red }",
        "h1, h2, h3 { color: red }",
        "div > p ~ span + a { color: red }",
        "[hidden] { color: red }",
        "[href=x] { color: red }",
        "[href=\"x\"] { color: red }",
        "a[href^=\"http\"] { color: red }",
        "a[href$=\".pdf\"] { color: red }",
        "a[href*=\"x\"] { color: red }",
        "a[lang|=\"en\"] { color: red }",
        "a[class~=\"c\"] { color: red }",
        "a[href=\"x\" i] { color: red }",
        "ns|E { color: red }",
        "*|E { color: red }",
        "|E { color: red }",
        "ns|* { color: red }",
        "[ns|href] { color: red }",
        "[*|href] { color: red }",
        "a:hover { color: red }",
        "p::first-line { color: red }",
        "li:nth-child(2n+1) { color: red }",
        "p:not(.c) { color: red }",
        "p:is(h1, h2) { color: red }",
        "p:where(.a, .b) { color: red }",
        "a:has(> img) { color: red }",
        "p:lang(ja) { color: red }",
        ":root { color: red }",
        "::part(label) { color: red }",
        "li:nth-child(2n+1 of .c) { color: red }",
        "input::-webkit-search-cancel-button { color: red }",
        "p:future-pseudo-nobody-invented-yet { color: red }",
        "& .c { color: red }",
        "a:not(:has(> .x)) { color: red }",
    ] {
        assert_eq!(sel_errors(css), 0, "must be accepted: {css}");
    }
}

#[test]
fn malformed_selectors_are_reported() {
    for css in [
        "> p { color: red }",
        "div > { color: red }",
        "div > > p { color: red }",
        ", p { color: red }",
        "h1, { color: red }",
        "h1,, h2 { color: red }",
        ". { color: red }",
        "ns| { color: red }",
        "| { color: red }",
        "a: { color: red }",
        "[] { color: red }",
        "[=x] { color: red }",
        "[href=] { color: red }",
        "[href~] { color: red }",
        "\"str\" { color: red }",
        "42 { color: red }",
    ] {
        assert!(sel_errors(css) > 0, "must be reported: {css}");
    }
}

#[test]
fn error_span_points_at_the_offending_token() {
    let css = "h1 > > h2 { color: red }";
    let errs: Vec<_> = syntax_errors(css)
        .into_iter()
        .filter(|e| e.kind == SyntaxErrorKind::InvalidSelector)
        .collect();
    assert_eq!(errs.len(), 1);
    assert_eq!(errs[0].span.slice(css), ">");
    assert_eq!(errs[0].span.start_line_col(css), (1, 6));
}

#[test]
fn a_leading_bom_is_not_part_of_the_first_selector() {
    let css = "\u{FEFF}@charset \"iso-8859-15\";\n.hello { color: red }";
    assert_eq!(sel_errors(css), 0, "a BOM must not produce selector errors");
    let sheet = spanned::parse_stylesheet(css);
    assert_eq!(sheet.rules.len(), 2, "@charset and .hello are two rules");
}

#[test]
fn a_bad_selector_does_not_swallow_the_stylesheet() {
    let sheet = spanned::parse_stylesheet("> bad { color: red } p { color: blue }");
    assert_eq!(sheet.rules.len(), 2, "both rules still parse");
}

// ---------------------------------------------------------------------------

#[test]
fn each_error_is_located() {
    let css = "h1,, h2 { color: red }";
    let errs = syntax_errors(css);
    assert_eq!(errs.len(), 1);
    assert_eq!(errs[0].span.slice(css), ",");
    let css = "div > { color: red }";
    let errs = syntax_errors(css);
    assert_eq!(errs.len(), 1);
    assert_eq!(errs[0].span.slice(css), ">");
}

#[test]
fn selector_list_of_a_prelude_directly() {
    let sheet = spanned::parse_stylesheet("a, > b { }");
    let Rule::Qualified(q) = &sheet.rules[0].node else {
        panic!("expected a qualified rule")
    };
    let errs = validate_selector_list(&q.prelude);
    assert_eq!(errs.len(), 1);
    assert_eq!(errs[0].kind, SyntaxErrorKind::InvalidSelector);
}

#[test]
fn type_name_spans_point_into_the_source() {
    let css = "div > em { }";
    let sheet = spanned::parse_stylesheet(css);
    let Rule::Qualified(q) = &sheet.rules[0].node else {
        panic!("expected a qualified rule")
    };
    let names = type_selector_names(&q.prelude);
    assert_eq!(names.len(), 2);
    assert_eq!(names[0].span.slice(css), "div");
    assert_eq!(names[1].span.slice(css), "em");
}

#[test]
fn at_rules_are_not_read_as_selectors() {
    assert_eq!(sel_errors("@media print { > a { } }"), 0);
}

#[test]
fn the_column_combinator_is_accepted() {
    assert_eq!(sel_errors("col.selected || td { color: red }"), 0);
    assert_eq!(sel_errors("col||td { color: red }"), 0);
    assert_eq!(sel_errors("ns|col || td { color: red }"), 0);
    assert!(sel_errors("|| td { color: red }") > 0);
    assert!(sel_errors("col || { color: red }") > 0);
    assert!(sel_errors("col || || td { color: red }") > 0);
}

#[test]
fn the_column_combinator_separates_type_names() {
    assert_eq!(type_names("col||td{color:red}"), ["col", "td"]);
    assert_eq!(type_names("col.selected || td{color:red}"), ["col", "td"]);
    assert_eq!(type_names("*||td{color:red}"), ["td"]);
}

#[test]
fn namespace_qualified_type_names_yield_the_local_name() {
    assert_eq!(type_names("*|circle{fill:red}"), ["circle"]);
    assert_eq!(type_names("|circle{fill:red}"), ["circle"]);
    assert_eq!(type_names("svg|circle > *|rect{fill:red}"), ["circle", "rect"]);
    assert_eq!(type_names("svg|*{fill:red}"), Vec::<String>::new());
}
