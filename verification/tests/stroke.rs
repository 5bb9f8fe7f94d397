use orrery::draw::{StrokeCap, StrokeJoin, StrokeStyle};

#[test]
fn test_stroke_style_dasharray() {
    assert_eq!(StrokeStyle::Solid.to_svg_value(), None);
    assert_eq!(StrokeStyle::Dashed.to_svg_value(), Some("5,5".to_string()));
    assert_eq!(StrokeStyle::Dotted.to_svg_value(), Some("2,3".to_string()));
    assert_eq!(
        StrokeStyle::DashDot.to_svg_value(),
        Some("10,5,2,5".to_string())
    );
    assert_eq!(
        StrokeStyle::DashDotDot.to_svg_value(),
        Some("10,5,2,5,2,5".to_string())
    );

    let custom = StrokeStyle::Custom("15,3,3,3".to_string());
    assert_eq!(custom.to_svg_value(), Some("15,3,3,3".to_string()));
}

#[test]
fn test_stroke_cap_svg_values() {
    assert_eq!(StrokeCap::Butt.to_svg_value(), "butt");
    assert_eq!(StrokeCap::Round.to_svg_value(), "round");
    assert_eq!(StrokeCap::Square.to_svg_value(), "square");
}

#[test]
fn test_stroke_join_svg_values() {
    assert_eq!(StrokeJoin::Miter.to_svg_value(), "miter");
    assert_eq!(StrokeJoin::Round.to_svg_value(), "round");
    assert_eq!(StrokeJoin::Bevel.to_svg_value(), "bevel");
}

#[test]
fn test_stroke_cap_from_str() {
    assert_eq!(StrokeCap::from_str("butt").unwrap(), StrokeCap::Butt);
    assert_eq!(StrokeCap::from_str("round").unwrap(), StrokeCap::Round);
    assert_eq!(StrokeCap::from_str("square").unwrap(), StrokeCap::Square);

    let result = StrokeCap::from_str("invalid");
    assert!(result.is_err());
    assert!(result.unwrap_err().contains("invalid stroke cap"));
}

#[test]
fn test_stroke_join_from_str() {
    assert_eq!(StrokeJoin::from_str("miter").unwrap(), StrokeJoin::Miter);
    assert_eq!(StrokeJoin::from_str("round").unwrap(), StrokeJoin::Round);
    assert_eq!(StrokeJoin::from_str("bevel").unwrap(), StrokeJoin::Bevel);

    let result = StrokeJoin::from_str("invalid");
    assert!(result.is_err());
    assert!(result.unwrap_err().contains("invalid stroke join"));
}

#[test]
fn test_stroke_style_from_str() {
    // Test valid style strings
    assert_eq!(StrokeStyle::from_str("solid").unwrap(), StrokeStyle::Solid);
    assert_eq!(
        StrokeStyle::from_str("dashed").unwrap(),
        StrokeStyle::Dashed
    );
    assert_eq!(
        StrokeStyle::from_str("dotted").unwrap(),
        StrokeStyle::Dotted
    );
    assert_eq!(
        StrokeStyle::from_str("dash-dot").unwrap(),
        StrokeStyle::DashDot
    );
    assert_eq!(
        StrokeStyle::from_str("dashdot").unwrap(),
        StrokeStyle::DashDot
    );
    assert_eq!(
        StrokeStyle::from_str("dash-dot-dot").unwrap(),
        StrokeStyle::DashDotDot
    );
    assert_eq!(
        StrokeStyle::from_str("dashdotdot").unwrap(),
        StrokeStyle::DashDotDot
    );

    // Test custom patterns (any unrecognized string becomes Custom)
    assert_eq!(
        StrokeStyle::from_str("10,5,2,5").unwrap(),
        StrokeStyle::Custom("10,5,2,5".to_string())
    );
    assert_eq!(
        StrokeStyle::from_str("5,5").unwrap(),
        StrokeStyle::Custom("5,5".to_string())
    );
    assert_eq!(
        StrokeStyle::from_str("arbitrary-pattern").unwrap(),
        StrokeStyle::Custom("arbitrary-pattern".to_string())
    );
}
