use styloria::span::Spanned;
use styloria::spanned::{self, ComponentValue, DeclarationListItem, Rule};
use styloria::Token;

fn ident_of(v: &Spanned<ComponentValue>) -> Option<&str> {
    match &v.node {
        ComponentValue::Token(Token::Ident(n)) => Some(n.as_str()),
        _ => None,
    }
}

#[test]
fn top_level_rule_span_covers_whole_rule() {
    let src = "body { color: red; }";
    let sheet = spanned::parse_stylesheet(src);
    assert_eq!(sheet.rules.len(), 1);
    assert_eq!(sheet.rules[0].span.slice(src), src);
}

#[test]
fn declaration_property_inside_block_is_located() {
    let src = "a {\n  color: red;\n}";
    let sheet = spanned::parse_stylesheet(src);
    let Rule::Qualified(q) = &sheet.rules[0].node else {
        panic!("expected a qualified rule");
    };
    let color = q
        .block
        .node
        .values
        .iter()
        .find(|v| ident_of(v) == Some("color"))
        .expect("expected the `color` ident value");
    assert_eq!(color.span.slice(src), "color");
    assert_eq!(color.span.start_line_col(src), (2, 3));
}

#[test]
fn nested_media_rule_selectors_are_located() {
    let src = "@media screen {\n  div.box { padding: 0; }\n}";
    let sheet = spanned::parse_stylesheet(src);
    let Rule::At(at) = &sheet.rules[0].node else {
        panic!("expected an at-rule");
    };
    assert_eq!(at.name, "media");
    assert_eq!(at.name_span.slice(src), "@media");
    let block = at.block.as_ref().expect("expected a block");
    let nested = block
        .node
        .values
        .iter()
        .find_map(|v| match &v.node {
            ComponentValue::Block(b) => Some(b),
            _ => None,
        })
        .expect("expected a nested rule block");
    let padding = nested
        .values
        .iter()
        .find(|v| ident_of(v) == Some("padding"))
        .expect("expected the `padding` ident");
    assert_eq!(padding.span.start_line_col(src), (2, 13));
}

#[test]
fn declaration_list_locates_property_and_important() {
    let src = "color: red; padding: 0 !important";
    let items = spanned::parse_declaration_list(src);
    assert_eq!(items.len(), 2);
    let DeclarationListItem::Declaration(color) = &items[0] else {
        panic!("expected a declaration");
    };
    assert_eq!(color.node.name, "color");
    assert_eq!(color.node.name_span.slice(src), "color");
    assert!(!color.node.important);
    let DeclarationListItem::Declaration(padding) = &items[1] else {
        panic!("expected a declaration");
    };
    assert_eq!(padding.node.name, "padding");
    assert!(padding.node.important);
    // The declaration span reaches through `!important`.
    assert_eq!(padding.span.slice(src), "padding: 0 !important");
}

#[test]
fn function_and_its_args_carry_spans() {
    let src = "a { color: rgb(1, 2, 3) }";
    let sheet = spanned::parse_stylesheet(src);
    let Rule::Qualified(q) = &sheet.rules[0].node else {
        panic!("expected a qualified rule");
    };
    let func = q
        .block
        .node
        .values
        .iter()
        .find(|v| matches!(&v.node, ComponentValue::Function { name, .. } if name == "rgb"))
        .expect("expected the rgb() function");
    assert_eq!(func.span.slice(src), "rgb(1, 2, 3)");
}

// ---------------------------------------------------------------------------

#[test]
fn at_rule_span_ends_at_its_semicolon() {
    let src = "@import url(a.css);  p{}";
    let sheet = spanned::parse_stylesheet(src);
    assert_eq!(sheet.rules.len(), 2);
    assert_eq!(sheet.rules[0].span.slice(src), "@import url(a.css);");
    assert_eq!(sheet.rules[1].span.slice(src), "p{}");
}

#[test]
fn unterminated_block_span_runs_to_its_last_value() {
    let src = "a { color: red";
    let sheet = spanned::parse_stylesheet(src);
    assert_eq!(sheet.rules[0].span.slice(src), src);
}

#[test]
fn spans_are_byte_offsets_past_multibyte_text() {
    let src = "/* é */ ü { x: y }";
    let sheet = spanned::parse_stylesheet(src);
    assert_eq!(sheet.rules[0].span.start, 9);
    assert_eq!(sheet.rules[0].span.slice(src), "ü { x: y }");
    assert_eq!(sheet.rules[0].span.start_line_col(src), (1, 9));
}

#[test]
fn declaration_without_value_spans_its_name() {
    let src = "color:";
    let items = spanned::parse_declaration_list(src);
    let DeclarationListItem::Declaration(d) = &items[0] else {
        panic!("expected a declaration");
    };
    assert_eq!(d.span.slice(src), "color");
    assert!(d.node.value.is_empty());
}
