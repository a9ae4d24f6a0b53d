use styloria::serialize::{
    serialize_dimension_unit, serialize_ident, serialize_string, serialize_token, serialize_url,
};
use styloria::{serialize_declaration_list, serialize_stylesheet, NumericType, Parser, Token, Tokenizer};

fn tokens(s: &str) -> Vec<Token> {
    Tokenizer::new(s).tokens()
}

#[test]
fn ident_roundtrip_plain() {
    let mut out = String::new();
    serialize_ident("foo-bar", &mut out);
    assert_eq!(out, "foo-bar");
}

#[test]
fn ident_roundtrip_leading_digit_needs_escape() {
    let mut out = String::new();
    serialize_ident("1foo", &mut out);
    let toks = tokens(&out);
    assert_eq!(toks, vec![Token::Ident("1foo".into())]);
}

#[test]
fn ident_roundtrip_solitary_hyphen() {
    let mut out = String::new();
    serialize_ident("-", &mut out);
    let toks = tokens(&out);
    assert_eq!(toks, vec![Token::Ident("-".into())]);
}

#[test]
fn string_roundtrip_with_quote_and_backslash() {
    let mut out = String::new();
    serialize_string("a\"b\\c", &mut out);
    let toks = tokens(&out);
    assert_eq!(toks, vec![Token::String("a\"b\\c".into())]);
}

#[test]
fn dimension_exponent_ambiguity_guard() {
    // A dimension with value "3" and unit "e2" must not re-serialize
    // and re-tokenize as the number 300 (i.e. as "3e2" bare).
    let mut out = String::new();
    serialize_dimension_unit("e2", &mut out);
    let full = format!("3{out}");
    let toks = tokens(&full);
    match &toks[0] {
        Token::Dimension { unit, .. } => assert_eq!(unit.as_str(), "e2"),
        other => panic!(
            "expected a dimension token, got {other:?} (ambiguity guard failed: {full:?})"
        ),
    }
}

#[test]
fn stylesheet_roundtrip() {
    let css = r#"
            @media screen and (min-width: 10px) {
                a.foo::before { content: "he said \"hi\""; color: red !important; }
            }
            --custom: { a b c };
            p { margin: 0 auto; }
        "#;
    let sheet = Parser::parse_stylesheet(css);
    let out = serialize_stylesheet(&sheet);
    let sheet2 = Parser::parse_stylesheet(&out);
    assert_eq!(
        sheet, sheet2,
        "round-tripped stylesheet parsed differently:\n{out}"
    );
}

#[test]
fn declaration_list_roundtrip() {
    let css = "color: red; --x: 1px solid blue; margin:0 10px !important";
    let items = Parser::parse_declaration_list(css);
    let out = serialize_declaration_list(&items);
    let items2 = Parser::parse_declaration_list(&out);
    assert_eq!(
        items, items2,
        "round-tripped declaration list parsed differently:\n{out}"
    );
}

// ---------------------------------------------------------------------------
// Exact outputs of the escaping rules
// ---------------------------------------------------------------------------

#[test]
fn ident_leading_digit_is_hex_escaped() {
    let mut out = String::new();
    serialize_ident("1foo", &mut out);
    assert_eq!(out, "\\31 foo");
}

#[test]
fn ident_hyphen_then_digit_escapes_the_digit() {
    let mut out = String::new();
    serialize_ident("-1a", &mut out);
    assert_eq!(out, "-\\31 a");
}

#[test]
fn ident_solitary_hyphen_is_escaped() {
    let mut out = String::new();
    serialize_ident("-", &mut out);
    assert_eq!(out, "\\-");
}

#[test]
fn ident_control_characters_and_punctuation() {
    let mut out = String::new();
    serialize_ident("a\u{1}b.c", &mut out);
    assert_eq!(out, "a\\1 b\\.c");
}

#[test]
fn ident_appends_to_existing_text() {
    let mut out = String::from("x");
    serialize_ident("yz", &mut out);
    assert_eq!(out, "xyz");
}

#[test]
fn string_escapes_quote_backslash_and_control() {
    let mut out = String::new();
    serialize_string("a\"b\\c\nd", &mut out);
    assert_eq!(out, "\"a\\\"b\\\\c\\a d\"");
}

#[test]
fn url_escapes_specials() {
    let mut out = String::new();
    serialize_url("a b(c)", &mut out);
    assert_eq!(out, "url(a\\ b\\(c\\))");
    assert_eq!(tokens(&out), vec![Token::Url("a b(c)".into())]);
}

#[test]
fn url_roundtrip_plain() {
    let mut out = String::new();
    serialize_url("foo.png", &mut out);
    assert_eq!(out, "url(foo.png)");
    assert_eq!(tokens(&out), vec![Token::Url("foo.png".into())]);
}

#[test]
fn dimension_unit_plain_is_unescaped() {
    let mut out = String::new();
    serialize_dimension_unit("px", &mut out);
    assert_eq!(out, "px");
    let mut out = String::new();
    serialize_dimension_unit("e2", &mut out);
    assert_eq!(out, "\\65 2");
}

#[test]
fn tokens_serialize_exactly() {
    let cases: Vec<(Token, &str)> = vec![
        (Token::Whitespace, " "),
        (Token::Colon, ":"),
        (Token::Semicolon, ";"),
        (Token::Comma, ","),
        (Token::Cdo, "<!--"),
        (Token::Cdc, "-->"),
        (Token::LeftCurly, "{"),
        (Token::RightSquare, "]"),
        (Token::Delim('>'), ">"),
        (Token::AtKeyword("media".into()), "@media"),
        (Token::Function("rgb".into()), "rgb("),
        (Token::Hash { value: "abc".into(), is_id: true }, "#abc"),
        (Token::Percentage { repr: "50".into() }, "50%"),
        (Token::Number { num_type: NumericType::Number, repr: "1.5".into() }, "1.5"),
        (
            Token::Dimension { num_type: NumericType::Integer, unit: "px".into(), repr: "10".into() },
            "10px",
        ),
    ];
    for (t, expected) in cases {
        let mut out = String::new();
        serialize_token(&t, &mut out);
        assert_eq!(out, expected, "serializing {t:?}");
    }
}

#[test]
fn stylesheet_serializes_to_expected_text() {
    let sheet = Parser::parse_stylesheet("p{color:red}");
    assert_eq!(serialize_stylesheet(&sheet), "p{color:red}");
}

#[test]
fn declaration_list_is_joined_with_semicolons() {
    let items = Parser::parse_declaration_list("a: 1; b: 2 !important");
    assert_eq!(serialize_declaration_list(&items), "a:1;b:2 !important");
}

// ---------------------------------------------------------------------------
// Round trips on concrete values
// ---------------------------------------------------------------------------

#[test]
fn ident_round_trip_nul_comes_back_as_replacement() {
    let mut out = String::new();
    serialize_ident("a\u{0}b", &mut out);
    assert_eq!(tokens(&out), vec![Token::Ident("a\u{FFFD}b".into())]);
}

#[test]
fn ident_round_trip_odd_characters() {
    for s in ["--x", "-a", "1", "-1", "a b", "é", "url", "a\u{7f}", "\u{1}", "_", "a(b"] {
        let mut out = String::new();
        serialize_ident(s, &mut out);
        assert_eq!(tokens(&out), vec![Token::Ident(s.into())], "{s:?} written as {out:?}");
    }
}

#[test]
fn string_round_trip_controls_and_newlines() {
    for s in ["", "a\nb", "\r\n", "x\u{c}y", "tab\there", "'", "\u{7f}"] {
        let mut out = String::new();
        serialize_string(s, &mut out);
        assert_eq!(tokens(&out), vec![Token::String(s.into())], "{s:?} written as {out:?}");
    }
}

#[test]
fn url_round_trip_specials_and_controls() {
    for s in ["", "a'b\"c", "x\ty", "\u{1}", "a\\b", "()"] {
        let mut out = String::new();
        serialize_url(s, &mut out);
        assert_eq!(tokens(&out), vec![Token::Url(s.into())], "{s:?} written as {out:?}");
    }
}

#[test]
fn url_with_newlines_comes_back() {
    let mut out = String::new();
    serialize_url("a\nb\r\u{c}", &mut out);
    assert_eq!(out, "url(a\\a b\\d \\c )");
    assert_eq!(tokens(&out), vec![Token::Url("a\nb\r\u{c}".into())]);
}

#[test]
fn at_keyword_function_and_hash_round_trip() {
    let cases = vec![
        Token::AtKeyword("media".into()),
        Token::AtKeyword("1x".into()),
        Token::Function("rgb".into()),
        Token::Function("-x".into()),
        Token::Hash { value: "id".into(), is_id: true },
        Token::Hash { value: "1a".into(), is_id: true },
        Token::Hash { value: "123".into(), is_id: false },
    ];
    for t in cases {
        let mut out = String::new();
        serialize_token(&t, &mut out);
        assert_eq!(tokens(&out), vec![t.clone()], "{t:?} written as {out:?}");
    }
}

#[test]
fn a_function_named_url_comes_back_as_a_url() {
    let mut out = String::new();
    serialize_token(&Token::Function("url".into()), &mut out);
    assert_eq!(out, "url(");
    assert_eq!(tokens(&out), vec![Token::Url("".into())]);
}

#[test]
fn an_unflagged_hash_that_reads_as_an_identifier_comes_back_flagged() {
    let mut out = String::new();
    serialize_token(&Token::Hash { value: "abc".into(), is_id: false }, &mut out);
    assert_eq!(tokens(&out), vec![Token::Hash { value: "abc".into(), is_id: true }]);
}

#[test]
fn numbers_percentages_and_dimensions_round_trip() {
    let cases = vec![
        Token::Number { num_type: NumericType::Integer, repr: "-12".into() },
        Token::Number { num_type: NumericType::Number, repr: "+.5e-3".into() },
        Token::Percentage { repr: "50".into() },
        Token::Dimension { num_type: NumericType::Integer, unit: "px".into(), repr: "3".into() },
        Token::Dimension { num_type: NumericType::Integer, unit: "e2".into(), repr: "3".into() },
        Token::Dimension { num_type: NumericType::Number, unit: "E-x".into(), repr: "1.5".into() },
        Token::Dimension { num_type: NumericType::Integer, unit: "-".into(), repr: "7".into() },
        Token::Dimension { num_type: NumericType::Integer, unit: "--a".into(), repr: "7".into() },
    ];
    for t in cases {
        let mut out = String::new();
        serialize_token(&t, &mut out);
        assert_eq!(tokens(&out), vec![t.clone()], "{t:?} written as {out:?}");
    }
}

#[test]
fn a_unit_starting_with_a_digit_comes_back() {
    for unit in ["1x", "-1x", "9"] {
        let t = Token::Dimension { num_type: NumericType::Integer, unit: unit.into(), repr: "3".into() };
        let mut out = String::new();
        serialize_token(&t, &mut out);
        assert_eq!(tokens(&out), vec![t.clone()], "{t:?} written as {out:?}");
    }
    let mut out = String::new();
    serialize_dimension_unit("1x", &mut out);
    assert_eq!(out, "\\31 x");
}

#[test]
fn an_identifier_starting_with_a_byte_order_mark_comes_back() {
    let mut out = String::new();
    serialize_ident("\u{FEFF}a", &mut out);
    assert_eq!(tokens(&out), vec![Token::Ident("\u{FEFF}a".into())]);
}

#[test]
fn values_kept_apart_by_a_comment_stay_apart() {
    let css = "p{a/**/b:c}";
    let sheet = Parser::parse_stylesheet(css);
    let out = serialize_stylesheet(&sheet);
    assert_eq!(out, "p{a/**/b:c}");
    assert_eq!(Parser::parse_stylesheet(&out), sheet);
}

#[test]
fn every_merging_pair_gets_a_separator() {
    for css in [
        "p{a/**/b}",
        "p{a/**/(x)}",
        "p{1/**/px}",
        "p{1/**/2}",
        "p{1/**/%}",
        "p{1/**/-->}",
        "p{#/**/a}",
        "p{-/**/a}",
        "p{-/**/1}",
        "p{-/**/-}",
        "p{@/**/a}",
        "p{./**/5}",
        "p{+/**/5}",
        "p{//**/*}",
        "p{</**/!}",
        "p{#a/**/b}",
        "p{1px/**/b}",
        "p{--/**/>}",
        "p{a/**/url(x)}",
        "@x/**/y;",
        "p{a /**/ b}",
    ] {
        let sheet = Parser::parse_stylesheet(css);
        let out = serialize_stylesheet(&sheet);
        assert_eq!(Parser::parse_stylesheet(&out), sheet, "{css:?} written as {out:?}");
    }
}

#[test]
fn no_separator_where_nothing_merges() {
    let sheet = Parser::parse_stylesheet("a.b>c:hover , d[e]{x:1px solid red}");
    assert_eq!(serialize_stylesheet(&sheet), "a.b>c:hover , d[e]{x:1px solid red}");
    let items = Parser::parse_declaration_list("m:0/**/10px");
    assert_eq!(serialize_declaration_list(&items), "m:0/**/10px");
}

#[test]
fn whitespace_kept_apart_by_a_comment_stays_apart() {
    let items = Parser::parse_declaration_list("a: b ! important; c: d /**/ e");
    let out = serialize_declaration_list(&items);
    assert_eq!(Parser::parse_declaration_list(&out), items, "written as {out:?}");
}

#[test]
fn written_trees_with_hashes_urls_strings_and_dimensions_parse_back() {
    let css = "@import url(a.css) screen;\
               a#main > .x[href=\"q\"]:nth-child(2n+1) { color: #0f0; background: url( b.png ) 5px -3.5em; }\
               @font-face { src: url(\"f.woff\") format('woff'); }";
    let sheet = Parser::parse_stylesheet(css);
    let out = serialize_stylesheet(&sheet);
    assert_eq!(Parser::parse_stylesheet(&out), sheet, "written as {out:?}");
    let items = Parser::parse_declaration_list(
        "width: calc(100% - 2px); color: #123 !important; m: #-5 2e+ 3e-/**/1; @x y;",
    );
    let out = serialize_declaration_list(&items);
    assert_eq!(Parser::parse_declaration_list(&out), items, "written as {out:?}");
}
