use eww::span::Span;

#[test]
fn spans() {
    assert_eq!(Span::point(5, 1), Span(5, 5, 1));
    assert_eq!(Span(1, 3, 0).to(Span(7, 9, 0)), Span(1, 9, 0));
    assert_eq!(Span(5, 10, 0).to(Span(0, 3, 0)), Span(0, 10, 0));
    assert_eq!(Span(2, 8, 1).to(Span(4, 6, 1)), Span(2, 8, 1));
    assert_eq!(Span(1, 3, 0).ending_at(10), Span(1, 10, 0));
    assert_eq!(Span(1, 3, 0).point_span(), Span(1, 1, 0));
    assert_eq!(Span(1, 3, 0).point_span_at_end(), Span(3, 3, 0));
    assert_eq!(Span(4, 8, 2).shifted(-2), Span(2, 0, 2));
    assert_eq!(Span(4, 8, 2).shifted(3), Span(7, 10, 2));
    assert_eq!(Span(1, 8, 2).shifted(-2), Span(0, 0, 2));
    assert!(Span::dummy().is_dummy());
    assert!(!Span(0, 0, 0).is_dummy());
    assert_eq!(Span(3, 14, 0).to_display_string(), "3..14");
    assert_eq!(Span::dummy().to_display_string(), "DUMMY");
}
