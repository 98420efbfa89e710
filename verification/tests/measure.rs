use richterm::measure::Measurement;

#[test]
fn test_span() {
    let measurement = Measurement::new(10, 100);
    assert_eq!(measurement.span(), 90);
}

#[test]
fn test_clamp() {
    let measurement = Measurement::new(20, 100);
    assert_eq!(measurement.clamp(Some(10), Some(50)), Measurement::new(20, 50));
    assert_eq!(measurement.clamp(Some(30), Some(50)), Measurement::new(30, 50));
    assert_eq!(measurement.clamp(None, Some(50)), Measurement::new(20, 50));
    assert_eq!(measurement.clamp(Some(30), None), Measurement::new(30, 100));
    assert_eq!(measurement.clamp(None, None), Measurement::new(20, 100));
}

#[test]
fn normalized_puts_the_minimum_under_the_maximum() {
    assert_eq!(Measurement::new(7, 3).normalized(), Measurement::new(3, 3));
    assert_eq!(Measurement::new(2, 3).normalized(), Measurement::new(2, 3));
    assert_eq!(Measurement::new(2, 3).as_tuple(), (2, 3));
}

#[test]
fn with_minimum_and_with_maximum_move_both_widths() {
    assert_eq!(Measurement::new(2, 8).with_minimum(5), Measurement::new(5, 8));
    assert_eq!(Measurement::new(2, 8).with_maximum(5), Measurement::new(2, 5));
    assert_eq!(Measurement::new(2, 8).with_maximum(1), Measurement::new(1, 1));
}
