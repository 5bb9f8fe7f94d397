use orrery::draw::{ArrowDirection, ArrowStyle};

#[test]
fn test_arrow_style_from_str_valid() {
    let straight: ArrowStyle = "straight".parse().unwrap();
    assert_eq!(straight, ArrowStyle::Straight);

    let curved: ArrowStyle = "curved".parse().unwrap();
    assert_eq!(curved, ArrowStyle::Curved);

    let orthogonal: ArrowStyle = "orthogonal".parse().unwrap();
    assert_eq!(orthogonal, ArrowStyle::Orthogonal);
}

#[test]
fn test_arrow_style_from_str_invalid() {
    let result: Result<ArrowStyle, _> = "invalid".parse();
    assert!(result.is_err());
}

#[test]
fn test_arrow_direction_from_str_valid() {
    let forward: ArrowDirection = "->".parse().unwrap();
    assert_eq!(forward, ArrowDirection::Forward);

    let backward: ArrowDirection = "<-".parse().unwrap();
    assert_eq!(backward, ArrowDirection::Backward);

    let bidirectional: ArrowDirection = "<->".parse().unwrap();
    assert_eq!(bidirectional, ArrowDirection::Bidirectional);

    let plain: ArrowDirection = "-".parse().unwrap();
    assert_eq!(plain, ArrowDirection::Plain);
}

#[test]
fn test_arrow_direction_from_str_invalid() {
    let result: Result<ArrowDirection, _> = ">>".parse();
    assert!(result.is_err());

    let result: Result<ArrowDirection, _> = "invalid".parse();
    assert!(result.is_err());
}

#[test]
fn test_arrow_parse_errors_name_the_kind() {
    let style: Result<ArrowStyle, &str> = "wavy".parse();
    assert_eq!(style, Err("Invalid arrow style"));
    let direction: Result<ArrowDirection, &str> = "=>".parse();
    assert_eq!(direction, Err("Invalid arrow direction"));
}
