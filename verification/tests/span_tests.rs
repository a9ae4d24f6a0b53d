use styloria::{Span, Spanned};

#[test]
fn line_col_single_line() {
    let src = "body { color: red }";
    // offset 7 is the 'c' of "color"
    assert_eq!(Span::new(7, 12).start_line_col(src), (1, 8));
}

#[test]
fn line_col_multiline() {
    let src = "a {\n  b: c;\n}";
    let off = src.find('b').unwrap();
    assert_eq!(Span::new(off, off + 1).start_line_col(src), (2, 3));
}

#[test]
fn slice_round_trips() {
    let src = "body { color: red }";
    let span = Span::new(7, 12);
    assert_eq!(span.slice(src), "color");
}

#[test]
fn union_covers_both() {
    assert_eq!(Span::new(2, 5).to(Span::new(9, 12)), Span::new(2, 12));
}

// ---------------------------------------------------------------------------

#[test]
fn union_is_symmetric_and_covers_overlaps() {
    assert_eq!(Span::new(9, 12).to(Span::new(2, 5)), Span::new(2, 12));
    assert_eq!(Span::new(2, 20).to(Span::new(5, 7)), Span::new(2, 20));
}

#[test]
fn len_and_is_empty() {
    assert_eq!(Span::new(3, 8).len(), 5);
    assert_eq!(Span::new(8, 3).len(), 0);
    assert!(Span::new(4, 4).is_empty());
    assert!(Span::new(5, 4).is_empty());
    assert!(!Span::new(4, 5).is_empty());
}

#[test]
fn slice_clamps_to_the_source() {
    let src = "abc";
    assert_eq!(Span::new(1, 99).slice(src), "bc");
    assert_eq!(Span::new(50, 99).slice(src), "");
}

#[test]
fn column_counts_characters_not_bytes() {
    let src = "é\nüü x";
    let off = src.find('x').unwrap();
    assert_eq!(Span::new(off, off + 1).start_line_col(src), (2, 4));
    assert_eq!(Span::new(0, 0).start_line_col(src), (1, 1));
    assert_eq!(Span::new(100, 100).start_line_col(src), (2, 5));
}

#[test]
fn spanned_map_and_as_ref_keep_the_span() {
    let s = Spanned::new(21, Span::new(1, 2));
    let d = s.map(|x: i32| x * 2);
    assert_eq!(d.node, 42);
    assert_eq!(d.span, Span::new(1, 2));
    let r = d.as_ref();
    assert_eq!(*r.node, 42);
    assert_eq!(r.span, Span::new(1, 2));
}
