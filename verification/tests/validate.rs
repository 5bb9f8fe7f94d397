use orrery::ast::{
    Attribute, AttributeValue, ComponentContent, DiagramSource, Element, FileAst, FileHeader,
    Fragment, FragmentSection, Import, Note, TypeDefinition, TypeSpec,
};
use orrery::error::ErrorCode;
use orrery::identifier::Id;
use orrery::semantic::DiagramKind;
use orrery::span::{Span, Spanned};
use orrery::validate::validate;

#[test]
fn test_validate_ok_pair() {
    let diagram = FileAst {
        header: FileHeader::Diagram {
            kind: Spanned::new(DiagramKind::Sequence, Span::new(0..8)),
            attributes: vec![],
        },
        import_decls: vec![],
        type_definitions: vec![],
        elements: vec![
            Element::Component {
                name: Spanned::new(Id::new("user"), Span::new(0..4)),
                display_name: None,
                type_spec: TypeSpec {
                    base_type: Some(Spanned::new(Id::new("Rectangle"), Span::new(6..15))),
                    attributes: vec![],
                },
                content: ComponentContent::Empty,
            },
            Element::Activate {
                component: Spanned::new(Id::new("user"), Span::new(17..21)),
                type_spec: TypeSpec::default(),
            },
            Element::Deactivate {
                component: Spanned::new(Id::new("user"), Span::new(23..27)),
            },
        ],
        imports: vec![],
    };

    let result = validate(&diagram);
    assert!(result.is_ok());
}

#[test]
fn test_validate_unpaired_deactivate() {
    let diagram = FileAst {
        header: FileHeader::Diagram {
            kind: Spanned::new(DiagramKind::Sequence, Span::new(0..8)),
            attributes: vec![],
        },
        import_decls: vec![],
        type_definitions: vec![],
        elements: vec![Element::Deactivate {
            component: Spanned::new(Id::new("user"), Span::new(0..4)),
        }],
        imports: vec![],
    };

    let result = validate(&diagram);
    assert!(result.is_err());
}

#[test]
fn test_validate_unpaired_activate_end_of_scope() {
    let diagram = FileAst {
        header: FileHeader::Diagram {
            kind: Spanned::new(DiagramKind::Sequence, Span::new(0..8)),
            attributes: vec![],
        },
        import_decls: vec![],
        type_definitions: vec![],
        elements: vec![Element::Activate {
            component: Spanned::new(Id::new("user"), Span::new(0..4)),
            type_spec: TypeSpec::default(),
        }],
        imports: vec![],
    };

    let result = validate(&diagram);
    assert!(result.is_err());
}

#[test]
fn test_validate_nested_activations_ok() {
    let diagram = FileAst {
        header: FileHeader::Diagram {
            kind: Spanned::new(DiagramKind::Sequence, Span::new(0..8)),
            attributes: vec![],
        },
        import_decls: vec![],
        type_definitions: vec![],
        elements: vec![
            Element::Component {
                name: Spanned::new(Id::new("user"), Span::new(0..4)),
                display_name: None,
                type_spec: TypeSpec {
                    base_type: Some(Spanned::new(Id::new("Rectangle"), Span::new(6..15))),
                    attributes: vec![],
                },
                content: ComponentContent::Empty,
            },
            Element::Activate {
                component: Spanned::new(Id::new("user"), Span::new(17..21)),
                type_spec: TypeSpec::default(),
            },
            Element::Activate {
                component: Spanned::new(Id::new("user"), Span::new(23..27)),
                type_spec: TypeSpec::default(),
            },
            Element::Deactivate {
                component: Spanned::new(Id::new("user"), Span::new(29..33)),
            },
            Element::Deactivate {
                component: Spanned::new(Id::new("user"), Span::new(35..39)),
            },
        ],
        imports: vec![],
    };

    let result = validate(&diagram);
    assert!(result.is_ok());
}

#[test]
fn test_validate_interleaved_components_ok() {
    let diagram = FileAst {
        header: FileHeader::Diagram {
            kind: Spanned::new(DiagramKind::Sequence, Span::new(0..8)),
            attributes: vec![],
        },
        import_decls: vec![],
        type_definitions: vec![],
        elements: vec![
            Element::Component {
                name: Spanned::new(Id::new("user"), Span::new(0..4)),
                display_name: None,
                type_spec: TypeSpec {
                    base_type: Some(Spanned::new(Id::new("Rectangle"), Span::new(6..15))),
                    attributes: vec![],
                },
                content: ComponentContent::Empty,
            },
            Element::Component {
                name: Spanned::new(Id::new("server"), Span::new(17..23)),
                display_name: None,
                type_spec: TypeSpec {
                    base_type: Some(Spanned::new(Id::new("Rectangle"), Span::new(25..34))),
                    attributes: vec![],
                },
                content: ComponentContent::Empty,
            },
            Element::Activate {
                component: Spanned::new(Id::new("user"), Span::new(36..40)),
                type_spec: TypeSpec::default(),
            },
            Element::Activate {
                component: Spanned::new(Id::new("server"), Span::new(42..48)),
                type_spec: TypeSpec::default(),
            },
            Element::Deactivate {
                component: Spanned::new(Id::new("user"), Span::new(50..54)),
            },
            Element::Deactivate {
                component: Spanned::new(Id::new("server"), Span::new(56..62)),
            },
        ],
        imports: vec![],
    };

    let result = validate(&diagram);
    assert!(result.is_ok());
}

#[test]
fn test_validate_out_of_order_deactivate_first() {
    let diagram = FileAst {
        header: FileHeader::Diagram {
            kind: Spanned::new(DiagramKind::Sequence, Span::new(0..8)),
            attributes: vec![],
        },
        import_decls: vec![],
        type_definitions: vec![],
        elements: vec![
            Element::Deactivate {
                component: Spanned::new(Id::new("user"), Span::new(0..4)),
            },
            Element::Activate {
                component: Spanned::new(Id::new("user"), Span::new(5..9)),
                type_spec: TypeSpec::default(),
            },
        ],
        imports: vec![],
    };

    let result = validate(&diagram);
    assert!(result.is_err());
}

#[test]
fn test_relation_with_valid_components() {
    let diagram = FileAst {
        header: FileHeader::Diagram {
            kind: Spanned::new(DiagramKind::Component, Span::new(0..9)),
            attributes: vec![],
        },
        import_decls: vec![],
        type_definitions: vec![],
        elements: vec![
            Element::Component {
                name: Spanned::new(Id::new("app"), Span::new(0..3)),
                display_name: None,
                type_spec: TypeSpec {
                    base_type: Some(Spanned::new(Id::new("Rectangle"), Span::new(5..14))),
                    attributes: vec![],
                },
                content: ComponentContent::Empty,
            },
            Element::Component {
                name: Spanned::new(Id::new("db"), Span::new(15..17)),
                display_name: None,
                type_spec: TypeSpec {
                    base_type: Some(Spanned::new(Id::new("Rectangle"), Span::new(19..28))),
                    attributes: vec![],
                },
                content: ComponentContent::Empty,
            },
            Element::Relation {
                source: Spanned::new(Id::new("app"), Span::new(30..33)),
                target: Spanned::new(Id::new("db"), Span::new(37..39)),
                relation_type: Spanned::new("->".to_string(), Span::new(34..36)),
                type_spec: TypeSpec::default(),
                label: None,
            },
        ],
        imports: vec![],
    };

    let result = validate(&diagram);
    assert!(result.is_ok(), "Valid relation should pass validation");
}

#[test]
fn test_relation_with_invalid_source() {
    let diagram = FileAst {
        header: FileHeader::Diagram {
            kind: Spanned::new(DiagramKind::Component, Span::new(0..9)),
            attributes: vec![],
        },
        import_decls: vec![],
        type_definitions: vec![],
        elements: vec![
            Element::Component {
                name: Spanned::new(Id::new("db"), Span::new(15..17)),
                display_name: None,
                type_spec: TypeSpec {
                    base_type: Some(Spanned::new(Id::new("Rectangle"), Span::new(19..28))),
                    attributes: vec![],
                },
                content: ComponentContent::Empty,
            },
            Element::Relation {
                source: Spanned::new(Id::new("unknown"), Span::new(30..37)),
                target: Spanned::new(Id::new("db"), Span::new(41..43)),
                relation_type: Spanned::new("->".to_string(), Span::new(38..40)),
                type_spec: TypeSpec::default(),
                label: None,
            },
        ],
        imports: vec![],
    };

    let result = validate(&diagram);
    assert!(result.is_err(), "Invalid source should fail validation");
    let err = result.unwrap_err();
    assert!(err[0].to_string().contains("component `unknown` not found"));
}

#[test]
fn test_relation_with_invalid_target() {
    let diagram = FileAst {
        header: FileHeader::Diagram {
            kind: Spanned::new(DiagramKind::Component, Span::new(0..9)),
            attributes: vec![],
        },
        import_decls: vec![],
        type_definitions: vec![],
        elements: vec![
            Element::Component {
                name: Spanned::new(Id::new("app"), Span::new(0..3)),
                display_name: None,
                type_spec: TypeSpec {
                    base_type: Some(Spanned::new(Id::new("Rectangle"), Span::new(5..14))),
                    attributes: vec![],
                },
                content: ComponentContent::Empty,
            },
            Element::Relation {
                source: Spanned::new(Id::new("app"), Span::new(30..33)),
                target: Spanned::new(Id::new("missing"), Span::new(37..44)),
                relation_type: Spanned::new("->".to_string(), Span::new(34..36)),
                type_spec: TypeSpec::default(),
                label: None,
            },
        ],
        imports: vec![],
    };

    let result = validate(&diagram);
    assert!(result.is_err(), "Invalid target should fail validation");
    let err = result.unwrap_err();
    assert!(err[0].to_string().contains("component `missing` not found"));
}

#[test]
fn test_activate_with_valid_component() {
    let diagram = FileAst {
        header: FileHeader::Diagram {
            kind: Spanned::new(DiagramKind::Sequence, Span::new(0..8)),
            attributes: vec![],
        },
        import_decls: vec![],
        type_definitions: vec![],
        elements: vec![
            Element::Component {
                name: Spanned::new(Id::new("server"), Span::new(0..6)),
                display_name: None,
                type_spec: TypeSpec {
                    base_type: Some(Spanned::new(Id::new("Rectangle"), Span::new(8..17))),
                    attributes: vec![],
                },
                content: ComponentContent::Empty,
            },
            Element::Activate {
                component: Spanned::new(Id::new("server"), Span::new(20..26)),
                type_spec: TypeSpec::default(),
            },
            Element::Deactivate {
                component: Spanned::new(Id::new("server"), Span::new(30..36)),
            },
        ],
        imports: vec![],
    };

    let result = validate(&diagram);
    assert!(result.is_ok(), "Valid activate should pass validation");
}

#[test]
fn test_activate_with_invalid_component() {
    let diagram = FileAst {
        header: FileHeader::Diagram {
            kind: Spanned::new(DiagramKind::Sequence, Span::new(0..8)),
            attributes: vec![],
        },
        import_decls: vec![],
        type_definitions: vec![],
        elements: vec![
            Element::Component {
                name: Spanned::new(Id::new("server"), Span::new(0..6)),
                display_name: None,
                type_spec: TypeSpec {
                    base_type: Some(Spanned::new(Id::new("Rectangle"), Span::new(8..17))),
                    attributes: vec![],
                },
                content: ComponentContent::Empty,
            },
            Element::Activate {
                component: Spanned::new(Id::new("unknown"), Span::new(20..27)),
                type_spec: TypeSpec::default(),
            },
        ],
        imports: vec![],
    };

    let result = validate(&diagram);
    assert!(result.is_err(), "Invalid activate should fail validation");
    let err = result.unwrap_err();
    assert!(err[0].to_string().contains("component `unknown` not found"));
}

#[test]
fn test_deactivate_with_invalid_component() {
    let diagram = FileAst {
        header: FileHeader::Diagram {
            kind: Spanned::new(DiagramKind::Sequence, Span::new(0..8)),
            attributes: vec![],
        },
        import_decls: vec![],
        type_definitions: vec![],
        elements: vec![
            Element::Component {
                name: Spanned::new(Id::new("server"), Span::new(0..6)),
                display_name: None,
                type_spec: TypeSpec {
                    base_type: Some(Spanned::new(Id::new("Rectangle"), Span::new(8..17))),
                    attributes: vec![],
                },
                content: ComponentContent::Empty,
            },
            Element::Deactivate {
                component: Spanned::new(Id::new("missing"), Span::new(20..27)),
            },
        ],
        imports: vec![],
    };

    let result = validate(&diagram);
    assert!(result.is_err(), "Invalid deactivate should fail validation");
    let err = result.unwrap_err();
    assert!(err[0].to_string().contains("component `missing` not found"));
}

#[test]
fn test_note_with_invalid_component() {
    let diagram = FileAst {
        header: FileHeader::Diagram {
            kind: Spanned::new(DiagramKind::Sequence, Span::new(0..8)),
            attributes: vec![],
        },
        import_decls: vec![],
        type_definitions: vec![],
        elements: vec![
            Element::Component {
                name: Spanned::new(Id::new("client"), Span::new(0..6)),
                display_name: None,
                type_spec: TypeSpec {
                    base_type: Some(Spanned::new(Id::new("Rectangle"), Span::new(8..17))),
                    attributes: vec![],
                },
                content: ComponentContent::Empty,
            },
            Element::Note(Note {
                type_spec: TypeSpec {
                    base_type: None,
                    attributes: vec![Attribute {
                        name: Spanned::new("on".to_string(), Span::new(20..22)),
                        value: AttributeValue::Identifiers(vec![Spanned::new(
                            Id::new("unknown"),
                            Span::new(24..31),
                        )]),
                    }],
                },
                content: Spanned::new("Invalid note".to_string(), Span::new(33..47)),
            }),
        ],
        imports: vec![],
    };

    let result = validate(&diagram);
    assert!(result.is_err(), "Note with invalid component should fail");
    let err = result.unwrap_err();
    assert!(err[0].to_string().contains("component `unknown` not found"));
}

#[test]
fn test_note_with_multiple_components() {
    let diagram = FileAst {
        header: FileHeader::Diagram {
            kind: Spanned::new(DiagramKind::Sequence, Span::new(0..8)),
            attributes: vec![],
        },
        import_decls: vec![],
        type_definitions: vec![],
        elements: vec![
            Element::Component {
                name: Spanned::new(Id::new("client"), Span::new(0..6)),
                display_name: None,
                type_spec: TypeSpec {
                    base_type: Some(Spanned::new(Id::new("Rectangle"), Span::new(8..17))),
                    attributes: vec![],
                },
                content: ComponentContent::Empty,
            },
            Element::Component {
                name: Spanned::new(Id::new("server"), Span::new(19..25)),
                display_name: None,
                type_spec: TypeSpec {
                    base_type: Some(Spanned::new(Id::new("Rectangle"), Span::new(27..36))),
                    attributes: vec![],
                },
                content: ComponentContent::Empty,
            },
            Element::Note(Note {
                type_spec: TypeSpec {
                    base_type: None,
                    attributes: vec![Attribute {
                        name: Spanned::new("on".to_string(), Span::new(38..40)),
                        value: AttributeValue::Identifiers(vec![
                            Spanned::new(Id::new("client"), Span::new(42..48)),
                            Spanned::new(Id::new("server"), Span::new(50..56)),
                        ]),
                    }],
                },
                content: Spanned::new("Multi-component note".to_string(), Span::new(58..78)),
            }),
        ],
        imports: vec![],
    };

    let result = validate(&diagram);
    assert!(
        result.is_ok(),
        "Note with multiple valid components should pass"
    );
}

#[test]
fn test_note_with_empty_on_attribute() {
    let diagram = FileAst {
        header: FileHeader::Diagram {
            kind: Spanned::new(DiagramKind::Sequence, Span::new(0..8)),
            attributes: vec![],
        },
        import_decls: vec![],
        type_definitions: vec![],
        elements: vec![
            Element::Component {
                name: Spanned::new(Id::new("client"), Span::new(0..6)),
                display_name: None,
                type_spec: TypeSpec {
                    base_type: Some(Spanned::new(Id::new("Rectangle"), Span::new(8..17))),
                    attributes: vec![],
                },
                content: ComponentContent::Empty,
            },
            Element::Note(Note {
                type_spec: TypeSpec {
                    base_type: None,
                    attributes: vec![Attribute {
                        name: Spanned::new("on".to_string(), Span::new(20..22)),
                        value: AttributeValue::Identifiers(vec![]),
                    }],
                },
                content: Spanned::new("Margin note".to_string(), Span::new(26..39)),
            }),
        ],
        imports: vec![],
    };

    let result = validate(&diagram);
    assert!(result.is_ok(), "Note with empty on attribute should pass");
}

#[test]
fn test_validation_with_typespec() {
    let diagram = FileAst {
        header: FileHeader::Diagram {
            kind: Spanned::new(DiagramKind::Sequence, Span::new(0..8)),
            attributes: vec![],
        },
        import_decls: vec![],
        type_definitions: vec![TypeDefinition {
            name: Spanned::new(Id::new("CustomArrow"), Span::new(10..21)),
            type_spec: TypeSpec {
                base_type: Some(Spanned::new(Id::new("Arrow"), Span::new(24..29))),
                attributes: vec![Attribute {
                    name: Spanned::new("color".to_string(), Span::new(30..35)),
                    value: AttributeValue::String(Spanned::new(
                        "red".to_string(),
                        Span::new(37..42),
                    )),
                }],
            },
        }],
        elements: vec![
            Element::Component {
                name: Spanned::new(Id::new("client"), Span::new(50..56)),
                display_name: None,
                type_spec: TypeSpec {
                    base_type: Some(Spanned::new(Id::new("Rectangle"), Span::new(58..67))),
                    attributes: vec![Attribute {
                        name: Spanned::new("fill".to_string(), Span::new(68..72)),
                        value: AttributeValue::String(Spanned::new(
                            "blue".to_string(),
                            Span::new(74..80),
                        )),
                    }],
                },
                content: ComponentContent::Empty,
            },
            Element::Component {
                name: Spanned::new(Id::new("server"), Span::new(85..91)),
                display_name: None,
                type_spec: TypeSpec {
                    base_type: Some(Spanned::new(Id::new("Rectangle"), Span::new(93..102))),
                    attributes: vec![],
                },
                content: ComponentContent::Empty,
            },
            Element::Activate {
                component: Spanned::new(Id::new("server"), Span::new(110..116)),
                type_spec: TypeSpec {
                    base_type: Some(Spanned::new(Id::new("Activate"), Span::new(118..128))),
                    attributes: vec![Attribute {
                        name: Spanned::new("fill".to_string(), Span::new(129..133)),
                        value: AttributeValue::String(Spanned::new(
                            "yellow".to_string(),
                            Span::new(135..143),
                        )),
                    }],
                },
            },
            Element::Relation {
                source: Spanned::new(Id::new("client"), Span::new(150..156)),
                target: Spanned::new(Id::new("server"), Span::new(160..166)),
                relation_type: Spanned::new("->".to_string(), Span::new(157..159)),
                type_spec: TypeSpec {
                    base_type: Some(Spanned::new(Id::new("CustomArrow"), Span::new(168..179))),
                    attributes: vec![Attribute {
                        name: Spanned::new("width".to_string(), Span::new(180..185)),
                        value: AttributeValue::Float(Spanned::new("2.0".to_string(), Span::new(187..188))),
                    }],
                },
                label: Some(Spanned::new("request".to_string(), Span::new(190..199))),
            },
            Element::Note(Note {
                type_spec: TypeSpec {
                    base_type: Some(Spanned::new(Id::new("Note"), Span::new(205..209))),
                    attributes: vec![
                        Attribute {
                            name: Spanned::new("on".to_string(), Span::new(210..212)),
                            value: AttributeValue::Identifiers(vec![
                                Spanned::new(Id::new("client"), Span::new(214..220)),
                                Spanned::new(Id::new("server"), Span::new(222..228)),
                            ]),
                        },
                        Attribute {
                            name: Spanned::new("align".to_string(), Span::new(230..235)),
                            value: AttributeValue::String(Spanned::new(
                                "right".to_string(),
                                Span::new(237..245),
                            )),
                        },
                    ],
                },
                content: Spanned::new("Processing".to_string(), Span::new(247..258)),
            }),
            Element::Deactivate {
                component: Spanned::new(Id::new("server"), Span::new(265..271)),
            },
        ],
        imports: vec![],
    };

    let result = validate(&diagram);
    assert!(
        result.is_ok(),
        "Diagram with comprehensive TypeSpec usage should pass validation"
    );
}

#[test]
fn test_unknown_base_type_produces_e205() {
    // A component whose type name is neither a built-in nor a user-defined
    // type should produce an E205 "unknown base type" diagnostic.
    let diagram = FileAst {
        header: FileHeader::Diagram {
            kind: Spanned::new(DiagramKind::Component, Span::new(0..9)),
            attributes: vec![],
        },
        import_decls: vec![],
        type_definitions: vec![],
        elements: vec![Element::Component {
            name: Spanned::new(Id::new("box"), Span::new(10..13)),
            display_name: None,
            type_spec: TypeSpec {
                base_type: Some(Spanned::new(Id::new("UnknownShape"), Span::new(15..27))),
                attributes: vec![],
            },
            content: ComponentContent::Empty,
        }],
        imports: vec![],
    };

    let result = validate(&diagram);
    assert!(result.is_err(), "Unknown base type should fail validation");

    let err = result.unwrap_err();
    assert_eq!(err.len(), 1);
    assert_eq!(err[0].code(), Some(ErrorCode::E205));
    assert!(
        err[0].to_string().contains("unknown base type"),
        "unexpected message: {}",
        err[0].to_string()
    );
}

#[test]
fn test_unknown_base_type_in_type_definition_produces_e205() {
    // A `type` definition whose base type is unknown should also produce E205.
    let diagram = FileAst {
        header: FileHeader::Diagram {
            kind: Spanned::new(DiagramKind::Component, Span::new(0..9)),
            attributes: vec![],
        },
        import_decls: vec![],
        type_definitions: vec![TypeDefinition {
            name: Spanned::new(Id::new("MyType"), Span::new(15..21)),
            type_spec: TypeSpec {
                base_type: Some(Spanned::new(Id::new("DoesNotExist"), Span::new(24..36))),
                attributes: vec![],
            },
        }],
        elements: vec![],
        imports: vec![],
    };

    let result = validate(&diagram);
    assert!(result.is_err());

    let err = result.unwrap_err();
    assert_eq!(err.len(), 1);
    assert_eq!(err[0].code(), Some(ErrorCode::E205));
}

#[test]
fn test_builtin_base_type_ok() {
    // A component using a built-in type (`Rectangle`) should pass validation.
    let diagram = FileAst {
        header: FileHeader::Diagram {
            kind: Spanned::new(DiagramKind::Component, Span::new(0..9)),
            attributes: vec![],
        },
        import_decls: vec![],
        type_definitions: vec![],
        elements: vec![Element::Component {
            name: Spanned::new(Id::new("box"), Span::new(10..13)),
            display_name: None,
            type_spec: TypeSpec {
                base_type: Some(Spanned::new(Id::new("Rectangle"), Span::new(15..24))),
                attributes: vec![],
            },
            content: ComponentContent::Empty,
        }],
        imports: vec![],
    };

    let result = validate(&diagram);
    assert!(
        result.is_ok(),
        "Built-in base type should pass: {:?}",
        result.err()
    );
}

#[test]
fn test_user_defined_type_as_base_type_ok() {
    // A user-defined type registered via `visit_base_type` should be usable
    // as the base type of both a later type definition and a component.
    let diagram = FileAst {
        header: FileHeader::Diagram {
            kind: Spanned::new(DiagramKind::Component, Span::new(0..9)),
            attributes: vec![],
        },
        import_decls: vec![],
        type_definitions: vec![
            // type MyBase : Rectangle;
            TypeDefinition {
                name: Spanned::new(Id::new("MyBase"), Span::new(15..21)),
                type_spec: TypeSpec {
                    base_type: Some(Spanned::new(Id::new("Rectangle"), Span::new(24..33))),
                    attributes: vec![],
                },
            },
            // type Derived : MyBase;
            TypeDefinition {
                name: Spanned::new(Id::new("Derived"), Span::new(40..47)),
                type_spec: TypeSpec {
                    base_type: Some(Spanned::new(Id::new("MyBase"), Span::new(50..56))),
                    attributes: vec![],
                },
            },
        ],
        elements: vec![Element::Component {
            name: Spanned::new(Id::new("box"), Span::new(60..63)),
            display_name: None,
            type_spec: TypeSpec {
                base_type: Some(Spanned::new(Id::new("Derived"), Span::new(65..72))),
                attributes: vec![],
            },
            content: ComponentContent::Empty,
        }],
        imports: vec![],
    };

    let result = validate(&diagram);
    assert!(
        result.is_ok(),
        "User-defined types used as base types should pass: {:?}",
        result.err()
    );
}

#[test]
fn test_self_reference_without_prior_definition_produces_e205() {
    let diagram = FileAst {
        header: FileHeader::Diagram {
            kind: Spanned::new(DiagramKind::Component, Span::new(0..9)),
            attributes: vec![],
        },
        import_decls: vec![],
        type_definitions: vec![TypeDefinition {
            name: Spanned::new(Id::new("MyType"), Span::new(15..21)),
            type_spec: TypeSpec {
                base_type: Some(Spanned::new(Id::new("MyType"), Span::new(24..30))),
                attributes: vec![Attribute {
                    name: Spanned::new("fill_color".to_string(), Span::new(31..41)),
                    value: AttributeValue::String(Spanned::new(
                        "red".to_string(),
                        Span::new(43..48),
                    )),
                }],
            },
        }],
        elements: vec![],
        imports: vec![],
    };

    let result = validate(&diagram);
    assert!(
        result.is_err(),
        "Self-reference without a prior definition should fail validation"
    );

    let err = result.unwrap_err();
    assert_eq!(err.len(), 1);
    assert_eq!(err[0].code(), Some(ErrorCode::E205));
}

#[test]
fn test_self_reference_on_previously_defined_type_ok() {
    let diagram = FileAst {
        header: FileHeader::Diagram {
            kind: Spanned::new(DiagramKind::Component, Span::new(0..9)),
            attributes: vec![],
        },
        import_decls: vec![],
        type_definitions: vec![
            // type MyType = Rectangle;
            TypeDefinition {
                name: Spanned::new(Id::new("MyType"), Span::new(15..21)),
                type_spec: TypeSpec {
                    base_type: Some(Spanned::new(Id::new("Rectangle"), Span::new(24..33))),
                    attributes: vec![],
                },
            },
            // type MyType = MyType[fill_color="red"];
            TypeDefinition {
                name: Spanned::new(Id::new("MyType"), Span::new(40..46)),
                type_spec: TypeSpec {
                    base_type: Some(Spanned::new(Id::new("MyType"), Span::new(49..55))),
                    attributes: vec![Attribute {
                        name: Spanned::new("fill_color".to_string(), Span::new(56..66)),
                        value: AttributeValue::String(Spanned::new(
                            "red".to_string(),
                            Span::new(68..73),
                        )),
                    }],
                },
            },
        ],
        elements: vec![],
        imports: vec![],
    };

    let result = validate(&diagram);
    assert!(
        result.is_ok(),
        "Self-reference on a previously defined type should pass validation: {:?}",
        result.err()
    );
}

fn rectangle_component(name: &str, name_span: std::ops::Range<usize>, type_span: std::ops::Range<usize>, content: ComponentContent) -> Element {
    Element::Component {
        name: Spanned::new(Id::new(name), Span::new(name_span)),
        display_name: None,
        type_spec: TypeSpec {
            base_type: Some(Spanned::new(Id::new("Rectangle"), Span::new(type_span))),
            attributes: vec![],
        },
        content,
    }
}

fn note_on(ids: Vec<(&str, std::ops::Range<usize>)>) -> Element {
    Element::Note(Note {
        type_spec: TypeSpec {
            base_type: None,
            attributes: vec![Attribute {
                name: Spanned::new("on".to_string(), Span::new(0..2)),
                value: AttributeValue::Identifiers(
                    ids.into_iter()
                        .map(|(id, span)| Spanned::new(Id::new(id), Span::new(span)))
                        .collect(),
                ),
            }],
        },
        content: Spanned::new("note".to_string(), Span::new(60..66)),
    })
}

fn component_diagram(elements: Vec<Element>) -> FileAst {
    FileAst {
        header: FileHeader::Diagram {
            kind: Spanned::new(DiagramKind::Component, Span::new(0..9)),
            attributes: vec![],
        },
        import_decls: vec![],
        type_definitions: vec![],
        elements,
        imports: vec![],
    }
}

#[test]
fn test_align_validation_without_diagram_kind() {
    // A library file sets no diagram kind, so an align value cannot be checked.
    let library = FileAst {
        header: FileHeader::Library { span: Span::new(0..7) },
        import_decls: vec![],
        type_definitions: vec![],
        elements: vec![Element::Note(Note {
            type_spec: TypeSpec {
                base_type: None,
                attributes: vec![Attribute {
                    name: Spanned::new("align".to_string(), Span::new(0..5)),
                    value: AttributeValue::String(Spanned::new("left".to_string(), Span::new(0..4))),
                }],
            },
            content: Spanned::new("note".to_string(), Span::new(10..16)),
        })],
        imports: vec![],
    };

    let err = validate(&library).unwrap_err();
    assert_eq!(err.len(), 1);
    assert_eq!(err[0].code(), Some(ErrorCode::E203));
    assert!(
        err[0].to_string().contains("diagram type not set"),
        "unexpected message: {}",
        err[0].to_string()
    );
}

#[test]
fn test_component_registry_fully_qualified_access() {
    let diagram = component_diagram(vec![
        rectangle_component(
            "frontend",
            0..8,
            10..19,
            ComponentContent::Scope(vec![
                rectangle_component("frontend::app", 20..33, 35..44, ComponentContent::Empty),
                rectangle_component("frontend::ui", 45..57, 59..68, ComponentContent::Empty),
            ]),
        ),
        rectangle_component(
            "backend",
            69..76,
            78..87,
            ComponentContent::Scope(vec![rectangle_component(
                "backend::api",
                88..100,
                102..111,
                ComponentContent::Empty,
            )]),
        ),
    ]);

    // All of frontend, frontend::app, frontend::ui, backend and backend::api
    // are registered at diagram level under their full paths.
    assert!(validate(&diagram).is_ok());
}

#[test]
fn test_visit_identifier_not_found() {
    let diagram = component_diagram(vec![
        rectangle_component("app", 0..3, 4..13, ComponentContent::Empty),
        note_on(vec![("unknown", 10..17)]),
    ]);

    let err = validate(&diagram).unwrap_err();
    assert_eq!(err.len(), 1);
    assert!(err[0].to_string().contains("component `unknown` not found"));
}

#[test]
fn test_visit_identifiers_multiple() {
    let diagram = component_diagram(vec![
        rectangle_component("client", 0..6, 7..16, ComponentContent::Empty),
        rectangle_component("server", 18..24, 25..34, ComponentContent::Empty),
        note_on(vec![("client", 40..46), ("server", 48..54)]),
    ]);

    assert!(validate(&diagram).is_ok());
}

#[test]
fn test_visit_identifiers_some_missing() {
    let diagram = component_diagram(vec![
        rectangle_component("client", 0..6, 7..16, ComponentContent::Empty),
        note_on(vec![("client", 40..46), ("unknown", 48..55)]),
    ]);

    let err = validate(&diagram).unwrap_err();
    assert_eq!(err.len(), 1);
    assert!(err[0].to_string().contains("component `unknown` not found"));
}
