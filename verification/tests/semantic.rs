use orrery::semantic::{DiagramKind, LayoutEngine};

#[test]
fn test_diagram_kind_display() {
    assert_eq!(DiagramKind::Component.to_string(), "component");
    assert_eq!(DiagramKind::Sequence.to_string(), "sequence");
}

#[test]
fn test_layout_engine_from_str() {
    assert_eq!(LayoutEngine::from_str("basic").unwrap(), LayoutEngine::Basic);
    assert_eq!(LayoutEngine::from_str("sugiyama").unwrap(), LayoutEngine::Sugiyama);

    let result = LayoutEngine::from_str("invalid");
    assert!(result.is_err());
    assert_eq!(result.unwrap_err(), "Unsupported layout engine");
}

#[test]
fn test_layout_engine_default() {
    assert_eq!(LayoutEngine::default(), LayoutEngine::Basic);
}

#[test]
fn test_layout_engine_display() {
    assert_eq!(LayoutEngine::Basic.to_string(), "basic");
    assert_eq!(LayoutEngine::Sugiyama.to_string(), "sugiyama");
}
