use styloria::Token;

#[test]
fn block_openers_and_their_closers() {
    assert!(Token::LeftCurly.is_block_open());
    assert!(Token::LeftSquare.is_block_open());
    assert!(Token::LeftParen.is_block_open());
    assert!(!Token::RightCurly.is_block_open());
    assert!(!Token::Function("f".into()).is_block_open());
    assert_eq!(Token::LeftCurly.matching_close(), Some(Token::RightCurly));
    assert_eq!(Token::LeftSquare.matching_close(), Some(Token::RightSquare));
    assert_eq!(Token::LeftParen.matching_close(), Some(Token::RightParen));
    assert_eq!(Token::Ident("a".into()).matching_close(), None);
    assert_eq!(Token::RightParen.matching_close(), None);
}

#[test]
fn duplicate_is_an_equal_copy() {
    let t = Token::Dimension {
        num_type: styloria::NumericType::Number,
        unit: "em".into(),
        repr: "1.5".into(),
    };
    assert_eq!(t.duplicate(), t);
}
