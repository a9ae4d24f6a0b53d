use styloria::{ComponentValue, DeclarationListItem, Parser, Rule, Token};

#[test]
fn simple_ruleset() {
    let sheet = Parser::parse_stylesheet("p { color: red; }");
    assert_eq!(sheet.rules.len(), 1);
    let Rule::Qualified(r) = &sheet.rules[0] else {
        panic!("expected qualified rule")
    };
    assert!(matches!(r.prelude[0], ComponentValue::Token(Token::Ident(ref s)) if s == "p"));
    assert!(!r.block.values.is_empty());
}

#[test]
fn at_rule_with_block() {
    let sheet = Parser::parse_stylesheet("@media screen { a { color: blue; } }");
    assert_eq!(sheet.rules.len(), 1);
    let Rule::At(r) = &sheet.rules[0] else {
        panic!("expected at-rule")
    };
    assert_eq!(r.name, "media");
    assert!(r.block.is_some());
}

#[test]
fn at_rule_without_block() {
    let sheet = Parser::parse_stylesheet("@import url(foo.css);");
    let Rule::At(r) = &sheet.rules[0] else {
        panic!("expected at-rule")
    };
    assert_eq!(r.name, "import");
    assert!(r.block.is_none());
}

#[test]
fn nested_blocks_and_functions() {
    let sheet = Parser::parse_stylesheet("a { background: rgb(1, 2, 3) url(x.png); }");
    let Rule::Qualified(r) = &sheet.rules[0] else {
        panic!()
    };
    let has_function = r
        .block
        .values
        .iter()
        .any(|v| matches!(v, ComponentValue::Function { name, .. } if name == "rgb"));
    assert!(has_function);
}

#[test]
fn declaration_list_basic() {
    let items = Parser::parse_declaration_list("color: red; margin: 0 auto;");
    assert_eq!(items.len(), 2);
    let DeclarationListItem::Declaration(d0) = &items[0] else {
        panic!()
    };
    assert_eq!(d0.name, "color");
    assert!(!d0.important);
}

#[test]
fn important_flag_stripped() {
    let items = Parser::parse_declaration_list("color: red !important;");
    let DeclarationListItem::Declaration(d) = &items[0] else {
        panic!()
    };
    assert!(d.important);
    // the "!important" tokens themselves must not remain in the value
    assert!(!d.value.iter().any(
        |v| matches!(v, ComponentValue::Token(Token::Ident(s)) if s.eq_ignore_ascii_case("important"))
    ));
}

#[test]
fn malformed_declaration_without_colon_is_skipped_not_fatal() {
    let items = Parser::parse_declaration_list("color red; margin: 0;");
    assert_eq!(items.len(), 1);
    let DeclarationListItem::Declaration(d) = &items[0] else {
        panic!()
    };
    assert_eq!(d.name, "margin");
}

#[test]
fn custom_property_value_preserved_verbatim() {
    let items = Parser::parse_declaration_list("--x: {a b c};");
    let DeclarationListItem::Declaration(d) = &items[0] else {
        panic!()
    };
    assert_eq!(d.name, "--x");
    assert!(matches!(d.value[0], ComponentValue::Block(_)));
}

#[test]
fn unterminated_block_recovers_at_eof() {
    let sheet = Parser::parse_stylesheet("a { color: red");
    assert_eq!(sheet.rules.len(), 1);
}

// ---------------------------------------------------------------------------

#[test]
fn qualified_rule_cut_off_before_its_block_is_dropped() {
    let sheet = Parser::parse_stylesheet("p { color: red } a.b");
    assert_eq!(sheet.rules.len(), 1);
}

#[test]
fn top_level_cdo_cdc_are_discarded() {
    let sheet = Parser::parse_stylesheet("<!-- p { color: red } -->");
    assert_eq!(sheet.rules.len(), 1);
    let Rule::Qualified(r) = &sheet.rules[0] else {
        panic!("expected qualified rule")
    };
    assert!(matches!(r.prelude[0], ComponentValue::Token(Token::Ident(ref s)) if s == "p"));
}

#[test]
fn important_is_case_insensitive_and_only_at_the_end() {
    let items = Parser::parse_declaration_list("a: 1 ! IMPORTANT ; b: ! important 2");
    let DeclarationListItem::Declaration(a) = &items[0] else {
        panic!()
    };
    assert!(a.important);
    assert_eq!(a.value.len(), 4);
    let DeclarationListItem::Declaration(b) = &items[1] else {
        panic!()
    };
    assert!(!b.important);
}

#[test]
fn stray_tokens_in_a_declaration_list_are_discarded() {
    let items = Parser::parse_declaration_list("42 (x: y) color: red");
    assert_eq!(items.len(), 1);
    let DeclarationListItem::Declaration(d) = &items[0] else {
        panic!()
    };
    assert_eq!(d.name, "color");
}

#[test]
fn at_rule_in_declaration_list() {
    let items = Parser::parse_declaration_list("@top-left { content: x } size: a4");
    assert_eq!(items.len(), 2);
    let DeclarationListItem::AtRule(a) = &items[0] else {
        panic!()
    };
    assert_eq!(a.name, "top-left");
    assert!(a.block.is_some());
}
