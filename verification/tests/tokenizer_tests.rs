use styloria::{NumericType, Token, Tokenizer};

fn tokens(input: &str) -> Vec<Token> {
    Tokenizer::new(input).tokens()
}

/// The value of a numeric token: its text read as a number.
fn value_of(repr: &str) -> f64 {
    repr.parse::<f64>().unwrap_or(0.0)
}

#[test]
fn whitespace_and_idents() {
    assert_eq!(
        tokens("  foo  bar"),
        vec![
            Token::Whitespace,
            Token::Ident("foo".into()),
            Token::Whitespace,
            Token::Ident("bar".into()),
        ]
    );
}

#[test]
fn numbers() {
    let toks = tokens("1 1.5 -3 +4 .5 1e2 1.5e-2 3%");
    let expect_repr = |t: &Token, r: &str| match t {
        Token::Number { repr, .. } | Token::Percentage { repr, .. } => assert_eq!(repr.as_str(), r),
        _ => panic!("not numeric: {t:?}"),
    };
    let nums: Vec<_> = toks
        .into_iter()
        .filter(|t| !matches!(t, Token::Whitespace))
        .collect();
    assert_eq!(nums.len(), 8);
    expect_repr(&nums[0], "1");
    expect_repr(&nums[1], "1.5");
    expect_repr(&nums[2], "-3");
    expect_repr(&nums[3], "+4");
    expect_repr(&nums[4], ".5");
    expect_repr(&nums[5], "1e2");
    expect_repr(&nums[6], "1.5e-2");
    match &nums[7] {
        Token::Percentage { repr } => assert_eq!(value_of(repr), 3.0),
        other => panic!("expected percentage, got {other:?}"),
    }
    match &nums[0] {
        Token::Number { num_type, repr } => {
            assert_eq!(value_of(repr), 1.0);
            assert_eq!(*num_type, NumericType::Integer);
        }
        other => panic!("expected number, got {other:?}"),
    }
    match &nums[1] {
        Token::Number { num_type, .. } => assert_eq!(*num_type, NumericType::Number),
        other => panic!("expected number, got {other:?}"),
    }
}

#[test]
fn dimension() {
    let toks: Vec<_> = tokens("10px -3.5em")
        .into_iter()
        .filter(|t| *t != Token::Whitespace)
        .collect();
    match &toks[0] {
        Token::Dimension { repr, unit, .. } => {
            assert_eq!(value_of(repr), 10.0);
            assert_eq!(unit.as_str(), "px");
        }
        other => panic!("expected dimension, got {other:?}"),
    }
    match &toks[1] {
        Token::Dimension { repr, unit, .. } => {
            assert_eq!(value_of(repr), -3.5);
            assert_eq!(unit.as_str(), "em");
        }
        other => panic!("expected dimension, got {other:?}"),
    }
}

#[test]
fn strings_basic() {
    assert_eq!(tokens(r#""hello""#), vec![Token::String("hello".into())]);
    assert_eq!(tokens("'hello'"), vec![Token::String("hello".into())]);
}

#[test]
fn string_escape() {
    assert_eq!(tokens(r#""a\62 c""#), vec![Token::String("abc".into())]);
    // line continuation: backslash-newline inside a string is elided
    assert_eq!(tokens("\"a\\\nb\""), vec![Token::String("ab".into())]);
}

#[test]
fn bad_string_unescaped_newline() {
    let toks = tokens("\"abc\ndef\"");
    assert_eq!(toks[0], Token::BadString);
    // the newline itself is NOT consumed, so tokenization continues after it
    assert!(toks.contains(&Token::Whitespace) || toks.len() > 1);
}

#[test]
fn bad_string_eof() {
    // EOF before the closing quote: still a String token with what was seen.
    assert_eq!(tokens(r#""abc"#), vec![Token::String("abc".into())]);
}

#[test]
fn hash_tokens() {
    assert_eq!(
        tokens("#foo #123 #"),
        vec![
            Token::Hash { value: "foo".into(), is_id: true },
            Token::Whitespace,
            Token::Hash { value: "123".into(), is_id: false },
            Token::Whitespace,
            Token::Delim('#'),
        ]
    );
}

#[test]
fn at_keyword() {
    assert_eq!(tokens("@media"), vec![Token::AtKeyword("media".into())]);
    assert_eq!(tokens("@"), vec![Token::Delim('@')]);
}

#[test]
fn cdo_cdc() {
    assert_eq!(tokens("<!-- -->"), vec![Token::Cdo, Token::Whitespace, Token::Cdc]);
}

#[test]
fn function_and_url_bare() {
    assert_eq!(
        tokens("rgb(1,2,3)"),
        vec![
            Token::Function("rgb".into()),
            Token::Number { num_type: NumericType::Integer, repr: "1".into() },
            Token::Comma,
            Token::Number { num_type: NumericType::Integer, repr: "2".into() },
            Token::Comma,
            Token::Number { num_type: NumericType::Integer, repr: "3".into() },
            Token::RightParen,
        ]
    );
    assert_eq!(tokens("url(foo.png)"), vec![Token::Url("foo.png".into())]);
    assert_eq!(tokens("url( foo.png )"), vec![Token::Url("foo.png".into())]);
}

#[test]
fn url_quoted_is_a_function() {
    assert_eq!(
        tokens(r#"url("foo.png")"#),
        vec![
            Token::Function("url".into()),
            Token::String("foo.png".into()),
            Token::RightParen,
        ]
    );
}

#[test]
fn bad_url_recovery() {
    let toks = tokens("url(a\"b)c) foo");
    assert!(matches!(toks[0], Token::BadUrl));
    // tokenization must have recovered and continued afterward
    assert!(toks.iter().any(|t| *t == Token::Ident("foo".into())));
}

#[test]
fn comments_are_stripped_but_dont_merge_tokens() {
    assert_eq!(tokens("a/**/b"), vec![Token::Ident("a".into()), Token::Ident("b".into())]);
    assert_eq!(tokens("/* unterminated"), vec![]);
}

#[test]
fn brackets_and_punctuation() {
    assert_eq!(
        tokens("{}[]();,:"),
        vec![
            Token::LeftCurly,
            Token::RightCurly,
            Token::LeftSquare,
            Token::RightSquare,
            Token::LeftParen,
            Token::RightParen,
            Token::Semicolon,
            Token::Comma,
            Token::Colon,
        ]
    );
}

#[test]
fn custom_property_ident() {
    assert_eq!(tokens("--foo"), vec![Token::Ident("--foo".into())]);
}

#[test]
fn escaped_ident() {
    // \41 is a hex escape for 'A'
    assert_eq!(tokens(r"\41 nchor"), vec![Token::Ident("Anchor".into())]);
}

#[test]
fn every_token_span_slices_its_source_text() {
    let src = "a/* c */{ b: \"x\\\"y\" url( q.png ) 10px -->é#id }";
    let toks = styloria::tokenizer::tokenize(src);
    let texts: Vec<&str> = toks.iter().map(|t| t.span.slice(src)).collect();
    assert_eq!(
        texts,
        vec![
            "a", "{", " ", "b", ":", " ", "\"x\\\"y\"", " ", "url( q.png )", " ", "10px", " ",
            "-->", "é", "#id", " ", "}"
        ]
    );
    for w in toks.windows(2) {
        assert!(w[0].span.end <= w[1].span.start);
    }
}

#[test]
fn nul_in_token_text_becomes_the_replacement_character() {
    assert_eq!(tokens("\"a\u{0}b\""), vec![Token::String("a\u{FFFD}b".into())]);
    assert_eq!(tokens("a\\\u{0}b"), vec![Token::Ident("a\u{FFFD}b".into())]);
    assert_eq!(tokens("a\u{0}b"), vec![Token::Ident("a\u{FFFD}b".into())]);
    assert_eq!(tokens("\u{0}x"), vec![Token::Ident("\u{FFFD}x".into())]);
    assert_eq!(tokens("#a\u{0}"), vec![Token::Hash { value: "a\u{FFFD}".into(), is_id: true }]);
    assert_eq!(tokens("url(a\u{0}b)"), vec![Token::Url("a\u{FFFD}b".into())]);
    assert_eq!(tokens("@\u{0}"), vec![Token::AtKeyword("\u{FFFD}".into())]);
}

#[test]
fn a_byte_order_mark_is_kept_by_the_tokenizer_and_skipped_for_a_stylesheet() {
    let src = "\u{FEFF}a";
    assert_eq!(tokens(src), vec![Token::Ident("\u{FEFF}a".into())]);
    let toks = styloria::tokenizer::tokenize_stylesheet(src);
    assert_eq!(toks.len(), 1);
    assert_eq!(toks[0].node, Token::Ident("a".into()));
    assert_eq!(toks[0].span.slice(src), "a");
}

#[test]
fn an_exhausted_tokenizer_stays_exhausted() {
    for input in ["", "a b", "/* only a comment */", "url(x) 1px", "\u{FEFF}p{}"] {
        let mut t = Tokenizer::new(input);
        let mut count = 0;
        while t.next_token().is_some() {
            count += 1;
            assert!(count <= input.chars().count(), "{input:?}: more tokens than characters");
        }
        for _ in 0..3 {
            assert_eq!(t.next_token(), None, "{input:?}");
        }
    }
}
