use styloria::{validate_declaration_list, validate_stylesheet, DiagnosticKind};

fn unknown_names(css: &str) -> Vec<String> {
    validate_stylesheet(css)
        .into_iter()
        .map(|d| d.name)
        .collect()
}

#[test]
fn known_property_is_clean() {
    assert!(validate_stylesheet("p { color: red }").is_empty());
}

#[test]
fn misspelled_property_is_flagged() {
    let d = validate_stylesheet("p { font-eight: bold }");
    assert_eq!(d.len(), 1);
    assert_eq!(d[0].kind, DiagnosticKind::UnknownProperty);
    assert_eq!(d[0].name, "font-eight");
}

#[test]
fn flagged_span_points_at_the_property_name() {
    let css = "p { font-eight: bold }";
    let d = validate_stylesheet(css);
    assert_eq!(d[0].span.slice(css), "font-eight");
}

#[test]
fn custom_property_is_exempt() {
    assert!(validate_stylesheet("p { --my-color: red }").is_empty());
}

#[test]
fn vendor_prefixed_is_exempt() {
    assert!(validate_stylesheet("p { -webkit-hyphens: auto; -moz-nonsense: 1 }").is_empty());
}

#[test]
fn property_name_is_case_insensitive() {
    assert!(validate_stylesheet("p { COLOR: red; Background: blue }").is_empty());
}

#[test]
fn value_idents_are_not_mistaken_for_properties() {
    assert!(validate_stylesheet("p { font-weight: bold; color: red }").is_empty());
}

#[test]
fn multiple_declarations_each_checked() {
    let names = unknown_names("p { colr: red; font-weight: bold; bckground: blue }");
    assert_eq!(names, vec!["colr", "bckground"]);
}

#[test]
fn missing_semicolon_does_not_invent_a_property() {
    assert!(validate_stylesheet("p { color: red font-eight: bold }").is_empty());
}

#[test]
fn at_rule_descriptors_are_not_flagged() {
    let css = "@font-face { font-family: Foo; src: url(f.woff2) }";
    assert!(validate_stylesheet(css).is_empty());
}

#[test]
fn declaration_inside_media_is_checked() {
    let css = "@media print { p { font-eight: bold } }";
    let d = validate_stylesheet(css);
    assert_eq!(d.len(), 1);
    assert_eq!(d[0].name, "font-eight");
    assert_eq!(d[0].span.slice(css), "font-eight");
}

#[test]
fn declaration_inside_supports_is_checked() {
    let css = "@supports (display: grid) { .g { colr: red } }";
    let d = validate_stylesheet(css);
    assert_eq!(
        d.iter().map(|d| d.name.as_str()).collect::<Vec<_>>(),
        ["colr"]
    );
}

#[test]
fn nested_conditional_groups_recurse() {
    let css = "@media screen { @supports (gap: 1px) { a { bckground: red } } }";
    let d = validate_stylesheet(css);
    assert_eq!(d.len(), 1);
    assert_eq!(d[0].name, "bckground");
    assert_eq!(d[0].span.slice(css), "bckground");
}

#[test]
fn font_face_inside_media_is_still_skipped() {
    let css = "@media print { @font-face { src: url(f.woff2) } p { color: red } }";
    assert!(validate_stylesheet(css).is_empty());
}

#[test]
fn multiple_rules_in_a_group_are_all_checked() {
    let css = "@media all { a { colr: red } b { font-weight: bold } c { bg: blue } }";
    let names: Vec<_> = validate_stylesheet(css)
        .into_iter()
        .map(|d| d.name)
        .collect();
    assert_eq!(names, vec!["colr", "bg"]);
}

// ---------------------------------------------------------------------------

#[test]
fn flagged_name_keeps_the_case_it_was_written_in() {
    assert_eq!(unknown_names("p { Font-Eight: bold }"), vec!["Font-Eight"]);
}

#[test]
fn case_variants_are_judged_alike() {
    for css in ["p { colr: red }", "p { COLR: red }", "p { CoLr: red }"] {
        assert_eq!(validate_stylesheet(css).len(), 1, "{css}");
    }
    for css in ["p { margin: 0 }", "p { MARGIN: 0 }", "p { Margin: 0 }"] {
        assert!(validate_stylesheet(css).is_empty(), "{css}");
    }
}

#[test]
fn other_at_rules_are_left_alone() {
    assert!(validate_stylesheet("@keyframes k { from { colr: red } }").is_empty());
    assert!(validate_stylesheet("@font-feature-values Foo { colr: red }").is_empty());
    assert!(validate_stylesheet("@import url(x.css);").is_empty());
}

#[test]
fn unknown_descriptor_is_flagged() {
    let css = "@font-face { colr: x }";
    let d = validate_stylesheet(css);
    assert_eq!(d.len(), 1);
    assert_eq!(d[0].name, "colr");
    assert_eq!(d[0].span.slice(css), "colr");
    assert_eq!(d[0].kind, DiagnosticKind::UnknownDescriptor { at_rule: "font-face".into() });
}

#[test]
fn a_property_is_not_a_font_face_descriptor() {
    let css = "@font-face { font-family: Foo; color: red; SRC: url(f.woff2); --x: 1; -moz-y: 2 }";
    let d = validate_stylesheet(css);
    assert_eq!(d.len(), 1);
    assert_eq!(d[0].name, "color");
    assert_eq!(d[0].kind, DiagnosticKind::UnknownDescriptor { at_rule: "font-face".into() });
}

#[test]
fn each_descriptor_at_rule_has_its_own_vocabulary() {
    for (css, at) in [
        ("@counter-style x { system: cyclic; colr: red }", "counter-style"),
        ("@property --x { syntax: '*'; inherits: false; colr: red }", "property"),
        ("@font-palette-values --p { base-palette: 1; colr: red }", "font-palette-values"),
        ("@view-transition { navigation: auto; colr: red }", "view-transition"),
        ("@Font-Face { src: url(a); colr: red }", "font-face"),
    ] {
        let d = validate_stylesheet(css);
        assert_eq!(d.len(), 1, "{css}");
        assert_eq!(d[0].name, "colr", "{css}");
        assert_eq!(d[0].kind, DiagnosticKind::UnknownDescriptor { at_rule: at.into() }, "{css}");
    }
}

#[test]
fn page_mixes_descriptors_and_properties() {
    let css = "@page { size: a4; bleed: 1px; margin: 1in; color: red; colr: red; @top-left { bogus: 1 } }";
    let d = validate_stylesheet(css);
    assert_eq!(d.len(), 1);
    assert_eq!(d[0].name, "colr");
    assert_eq!(d[0].kind, DiagnosticKind::UnknownDescriptor { at_rule: "page".into() });
}

#[test]
fn descriptors_inside_a_group_are_checked() {
    let css = "@media print { @font-face { src: url(f.woff2); colr: x } p { colr: red } }";
    let d = validate_stylesheet(css);
    assert_eq!(d.len(), 2);
    assert_eq!(d[0].kind, DiagnosticKind::UnknownDescriptor { at_rule: "font-face".into() });
    assert_eq!(d[0].span.slice(css), "colr");
    assert_eq!(d[1].kind, DiagnosticKind::UnknownProperty);
    assert_eq!(d[1].span.slice(css), "colr");
    assert!(d[0].span.start < d[1].span.start);
}

#[test]
fn a_declaration_list_is_checked_against_the_properties() {
    let css = "color: red; colr: blue; --x: 1; FONT-WEIGHT: bold; bckground: none";
    let d = validate_declaration_list(css);
    assert_eq!(d.iter().map(|d| d.name.as_str()).collect::<Vec<_>>(), ["colr", "bckground"]);
    assert!(d.iter().all(|d| d.kind == DiagnosticKind::UnknownProperty));
    assert_eq!(d[0].span.slice(css), "colr");
    assert_eq!(d[1].span.slice(css), "bckground");
    assert!(validate_declaration_list("").is_empty());
    assert!(validate_declaration_list("color: red").is_empty());
}

#[test]
fn container_layer_and_scope_are_groups() {
    assert_eq!(unknown_names("@container (width > 1px) { a { colr: red } }"), vec!["colr"]);
    assert_eq!(unknown_names("@layer base { a { colr: red } }"), vec!["colr"]);
    assert_eq!(unknown_names("@scope (.card) { a { colr: red } }"), vec!["colr"]);
    assert_eq!(unknown_names("@MEDIA print { a { colr: red } }"), vec!["colr"]);
}

#[test]
fn empty_stylesheet_has_no_findings() {
    assert!(validate_stylesheet("").is_empty());
}

fn known_names() -> Vec<String> {
    let mut names = Vec::new();
    for (word, endings) in styloria::known_properties::property_group_list() {
        for e in endings {
            names.push(format!("{word}{e}"));
        }
    }
    names
}

#[test]
fn known_property_table_is_lowercase_sorted_and_dash_free() {
    let names = known_names();
    assert!(names.len() > 500);
    for pair in names.windows(2) {
        assert!(pair[0] < pair[1], "not sorted at {:?}", pair[0]);
    }
    for p in &names {
        assert_eq!(*p, p.to_ascii_lowercase());
        assert!(!p.starts_with('-'));
    }
}

#[test]
fn every_known_property_in_any_case_is_silent() {
    for p in known_names() {
        let upper = p.to_ascii_uppercase();
        let css = format!("a {{ {p}: 1; {upper}: 2 }}");
        assert!(validate_stylesheet(&css).is_empty(), "{p}");
    }
}

#[test]
fn a_group_body_is_read_again_on_its_own() {
    let css = "@media print{x@font-face{colr:1}}";
    assert_eq!(unknown_names(css), vec!["colr"]);
}

#[test]
fn every_finding_slices_to_its_name() {
    let css = "a{colr:1}\n@media x{@supports y{b{ bckground :2;q:3}}}\n@layer{c{zz:1}}";
    let d = validate_stylesheet(css);
    assert_eq!(d.len(), 4);
    for f in &d {
        assert_eq!(f.span.slice(css), f.name);
    }
}
