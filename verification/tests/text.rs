use richterm::style::Style;
use richterm::text::Span;

#[test]
fn lib_test_span() {
    let span = Span::new(10, 11, Style::default());
    assert!(span.as_bool());
    assert_eq!(span.as_tuple(), (10, 11, &Style::default()))
}

#[test]
fn test_span_split() {
    assert_eq!(
        Span::new(5, 10, Style::default()).split(2),
        (Span::new(5, 10, Style::default()), None)
    );

    assert_eq!(
        Span::new(5, 10, Style::default()).split(15),
        (Span::new(5, 10, Style::default()), None)
    );

    assert_eq!(
        Span::new(0, 10, Style::default()).split(5),
        (
            Span::new(0, 5, Style::default()),
            Some(Span::new(5, 10, Style::default()))
        )
    );
}

#[test]
fn test_span_with_offset() {
    assert_eq!(
        Span::new(5, 10, Style::default()).with_offset(2),
        Span::new(7, 12, Style::default())
    );
}

#[test]
fn test_span_right_crop() {
    assert_eq!(
        Span::new(5, 10, Style::default()).right_crop(15),
        Span::new(5, 10, Style::default())
    );

    assert_eq!(
        Span::new(5, 10, Style::default()).right_crop(7),
        Span::new(5, 7, Style::default())
    );
}

#[test]
fn empty_span_is_false() {
    assert!(!Span::new(4, 4, Style::default()).as_bool());
    assert!(!Span::new(5, 4, Style::default()).as_bool());
}
