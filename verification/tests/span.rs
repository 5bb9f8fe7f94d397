use orrery::span::{Span, Spanned};
#[test]
fn test_span_basic_functionality() {
    let span = Span::new(5..10);
    assert_eq!(span.start(), 5);
    assert_eq!(span.end(), 10);
    assert_eq!(span.len(), 5);
    assert!(!span.is_empty());
}

#[test]
fn test_span_empty() {
    let span = Span::new(5..5);
    assert_eq!(span.len(), 0);
    assert!(span.is_empty());
}

#[test]
fn test_span_union() {
    let span1 = Span::new(5..10);
    let span2 = Span::new(15..20);
    let union = span1.union(span2);
    assert_eq!(union.start(), 5);
    assert_eq!(union.end(), 20);
}

#[test]
fn test_span_shift() {
    let span = Span::new(5..10);
    let shifted = span.shift(100);
    assert_eq!(shifted.start(), 105);
    assert_eq!(shifted.end(), 110);
    assert_eq!(shifted.len(), 5);
}

#[test]
fn test_span_shift_zero_is_identity() {
    let span = Span::new(5..10);
    assert_eq!(span.shift(0), span);
}

#[test]
fn test_spanned_with_new_span() {
    let span = Span::new(5..10);
    let spanned = Spanned::new("test", span);
    assert_eq!(spanned.span().start(), 5);
    assert_eq!(spanned.span().len(), 5);
    assert_eq!(*spanned.inner(), "test");
}

#[test]
fn test_span_empty_constructor() {
    let span = Span::empty();
    assert_eq!(span.start(), 0);
    assert_eq!(span.end(), 0);
    assert_eq!(span.len(), 0);
    assert!(span.is_empty());
}

#[test]
fn test_span_default_is_empty() {
    let span = Span::default();
    assert_eq!(span, Span::empty());
    assert!(span.is_empty());
}

#[test]
fn test_span_union_with_left_empty() {
    let empty = Span::empty();
    let span = Span::new(5..10);
    let union = empty.union(span);
    assert_eq!(union, span);
}

#[test]
fn test_span_union_with_right_empty() {
    let span = Span::new(5..10);
    let empty = Span::empty();
    let union = span.union(empty);
    assert_eq!(union, span);
}

#[test]
fn test_span_union_both_empty() {
    let union = Span::empty().union(Span::empty());
    assert!(union.is_empty());
}

#[test]
fn test_spanned_eq_ignores_span() {
    let a = Spanned::new(42, Span::new(0..5));
    let b = Spanned::new(42, Span::new(10..20));
    assert_eq!(a, b);
}

#[test]
fn test_spanned_ne_different_values() {
    let a = Spanned::new(1, Span::new(0..5));
    let b = Spanned::new(2, Span::new(0..5));
    assert_ne!(a, b);
}

#[test]
fn test_spanned_map() {
    let spanned = Spanned::new(5, Span::new(0..10));
    let mapped = spanned.map(|v| v * 2);
    assert_eq!(*mapped.inner(), 10);
    assert_eq!(mapped.span(), spanned.span());
}

#[test]
fn test_spanned_into_inner() {
    let spanned = Spanned::new(String::from("hello"), Span::new(0..5));
    let value = spanned.into_inner();
    assert_eq!(value, "hello");
}

#[test]
fn test_spanned_deref() {
    let spanned = Spanned::new(String::from("hello"), Span::new(0..5));
    // Deref lets us call String methods directly
    assert_eq!(spanned.len(), 5);
    assert!(spanned.starts_with("he"));
}

#[test]
fn test_spanned_display() {
    let spanned = Spanned::new(42, Span::new(0..5));
    assert_eq!(spanned.to_string(), "42");
}
