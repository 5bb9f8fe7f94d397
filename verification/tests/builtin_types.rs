use orrery::ast::{Attribute, AttributeValue, TypeDefinition};
use orrery::builtin_types::{
    ids, parser_type_definitions, type_ref, ARROW, DIAGRAM, FRAGMENT, LIFELINE, RECTANGLE, STROKE, TEXT,
};
use orrery::identifier::Id;

fn find<'a>(types: &'a [TypeDefinition], name: &str) -> &'a TypeDefinition {
    types
        .iter()
        .find(|type_def| *type_def.name.inner() == name)
        .unwrap_or_else(|| panic!("{name} must be registered"))
}

fn references(type_def: &TypeDefinition) -> Vec<(String, Id)> {
    type_def
        .type_spec
        .attributes
        .iter()
        .map(|attr: &Attribute| {
            let type_spec = attr.value.as_type_spec().expect("attribute is a type ref");
            let target = type_spec.base_type.as_ref().expect("type ref has a type name").inner().clone();
            (attr.name.inner().clone(), target)
        })
        .collect()
}

#[test]
fn test_parser_type_definitions_wires_attribute_references() {
    let parser_types = parser_type_definitions();

    let names: Vec<Id> = parser_types.iter().map(|type_def| type_def.name.inner().clone()).collect();
    assert_eq!(names, ids());

    let stroke = &parser_types[0];
    assert_eq!(*stroke.name.inner(), STROKE);
    assert!(stroke.type_spec.attributes.is_empty());

    let lifeline = find(&parser_types, LIFELINE);
    assert_eq!(lifeline.type_spec.attributes.len(), 1);
    let stroke_attr = &lifeline.type_spec.attributes[0];
    assert_eq!(stroke_attr.name.inner(), "stroke");
    let stroke_ref = stroke_attr.value.as_type_spec().expect("stroke attribute is a type ref");
    assert_eq!(stroke_ref.base_type.as_ref().map(|name| name.inner().clone()), Some(Id::new(STROKE)));
    assert_eq!(stroke_ref.attributes.len(), 1);
    assert_eq!(stroke_ref.attributes[0].name.inner(), "style");
    assert_eq!(stroke_ref.attributes[0].value.as_str(), Ok("dashed"));

    let diagram = find(&parser_types, DIAGRAM);
    assert_eq!(references(diagram), vec![("lifeline".to_string(), Id::new(LIFELINE))]);

    let arrow = find(&parser_types, ARROW);
    assert_eq!(
        references(arrow),
        vec![("stroke".to_string(), Id::new(STROKE)), ("text".to_string(), Id::new(TEXT))]
    );
    let arrow_text = arrow
        .type_spec
        .attributes
        .iter()
        .find(|attr| attr.name.inner() == "text")
        .expect("Arrow must wire a `text` attribute");
    let arrow_text_ref = arrow_text.value.as_type_spec().expect("text attribute is a type ref");
    assert_eq!(arrow_text_ref.attributes.len(), 1);
    assert_eq!(arrow_text_ref.attributes[0].name.inner(), "background_color");
    assert_eq!(arrow_text_ref.attributes[0].value.as_str(), Ok("rgba(255, 255, 255, 0.85)"));

    let rectangle = find(&parser_types, RECTANGLE);
    let rectangle_stroke = rectangle
        .type_spec
        .attributes
        .iter()
        .find(|attr| attr.name.inner() == "stroke")
        .expect("Rectangle must wire a `stroke` attribute");
    let rectangle_stroke_ref =
        rectangle_stroke.value.as_type_spec().expect("stroke attribute is a type ref");
    assert_eq!(
        rectangle_stroke_ref.base_type.as_ref().map(|name| name.inner().clone()),
        Some(Id::new(STROKE))
    );
    assert_eq!(rectangle_stroke_ref.attributes.len(), 1);
    assert_eq!(rectangle_stroke_ref.attributes[0].name.inner(), "width");
    match &rectangle_stroke_ref.attributes[0].value {
        AttributeValue::Float(f) => assert_eq!(f.inner().parse::<f32>(), Ok(2.0)),
        other => panic!("Expected a number, got {:?}", other),
    }

    let fragment = find(&parser_types, FRAGMENT);
    assert_eq!(
        references(fragment),
        vec![
            ("border_stroke".to_string(), Id::new(STROKE)),
            ("separator_stroke".to_string(), Id::new(STROKE)),
        ]
    );
    let separator_ref = fragment
        .type_spec
        .attributes
        .iter()
        .find(|attr| attr.name.inner() == "separator_stroke")
        .expect("Fragment must wire a `separator_stroke`")
        .value
        .as_type_spec()
        .expect("separator_stroke is a type ref");
    assert_eq!(separator_ref.attributes.len(), 1);
    assert_eq!(separator_ref.attributes[0].name.inner(), "style");
    assert_eq!(separator_ref.attributes[0].value.as_str(), Ok("dashed"));
}

#[test]
fn type_ref_builds_a_slot() {
    let slot = type_ref("stroke", "styles::Dashed", vec![]);
    assert_eq!(slot.name.inner(), "stroke");
    let spec = slot.value.as_type_spec().expect("a slot is a type ref");
    assert_eq!(*spec.base_type.as_ref().unwrap().inner(), "styles::Dashed");
    assert!(spec.attributes.is_empty());
}
