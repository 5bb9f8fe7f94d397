//! Built-in base types of the Orrery type system.
//!
//! - Shapes: Rectangle, Oval, Component, Boundary, Actor, Entity, Control, Interface
//! - Relations: Arrow
//! - Fragments: Fragment, FragmentAlt, FragmentOpt, FragmentLoop, FragmentPar
//! - Annotations: Note
//! - Activations: Activate
//! - Attribute groups: Stroke, Text; lifelines: Lifeline; diagram styling: Diagram
use vstd::prelude::*;
use crate::identifier::{id_of_text, lemma_no_colon_no_separator, Id, IdView};
use crate::ast::{
    attributes_view, lemma_attribute_value_view, lemma_attribute_view, lemma_type_spec_view, Attribute,
    AttributeValue, AttributeValueView, AttributeView, TypeDefinition, TypeDefinitionView, TypeSpec, TypeSpecView,
};
use crate::span::{Span, Spanned, SpannedView};

verus! {
/// Built-in base type for stroke attribute groups.
pub const STROKE: &'static str = "Stroke";
/// Built-in base type for text attribute groups.
pub const TEXT: &'static str = "Text";
/// Built-in base type for sequence-diagram lifelines.
pub const LIFELINE: &'static str = "Lifeline";
/// Built-in base type for relations (arrows).
pub const ARROW: &'static str = "Arrow";
/// Built-in base type for notes.
pub const NOTE: &'static str = "Note";
/// Built-in base type for activations.
pub const ACTIVATE: &'static str = "Activate";
/// Built-in base type for alternative fragments (alt/else).
pub const FRAGMENT_ALT: &'static str = "FragmentAlt";
/// Built-in base type for optional fragments (opt).
pub const FRAGMENT_OPT: &'static str = "FragmentOpt";
/// Built-in base type for loop fragments.
pub const FRAGMENT_LOOP: &'static str = "FragmentLoop";
/// Built-in base type for parallel fragments (par).
pub const FRAGMENT_PAR: &'static str = "FragmentPar";
/// Built-in base type for generic fragments.
pub const FRAGMENT: &'static str = "Fragment";
/// Built-in base type for rectangular shapes.
pub const RECTANGLE: &'static str = "Rectangle";
/// Built-in base type for oval shapes.
pub const OVAL: &'static str = "Oval";
/// Built-in base type for UML component shapes.
pub const COMPONENT: &'static str = "Component";
/// Built-in base type for UML boundary shapes.
pub const BOUNDARY: &'static str = "Boundary";
/// Built-in base type for UML actor shapes.
pub const ACTOR: &'static str = "Actor";
/// Built-in base type for UML entity shapes.
pub const ENTITY: &'static str = "Entity";
/// Built-in base type for UML control shapes.
pub const CONTROL: &'static str = "Control";
/// Built-in base type for UML interface shapes.
pub const INTERFACE: &'static str = "Interface";
/// Built-in base type for diagram-wide styling.
pub const DIAGRAM: &'static str = "Diagram";
/// The names of the built-in types, in declaration order.
pub open spec fn builtin_names() -> Seq<Seq<char>> {
    seq![
        "Stroke"@,
        "Text"@,
        "Lifeline"@,
        "Arrow"@,
        "Note"@,
        "Activate"@,
        "FragmentAlt"@,
        "FragmentOpt"@,
        "FragmentLoop"@,
        "FragmentPar"@,
        "Fragment"@,
        "Rectangle"@,
        "Oval"@,
        "Component"@,
        "Boundary"@,
        "Actor"@,
        "Entity"@,
        "Control"@,
        "Interface"@,
        "Diagram"@,
    ]
}
/// The identifier of a built-in type: its name, with no namespace.
pub open spec fn builtin_id(name: Seq<char>) -> IdView {
    IdView { name, namespace: None }
}

/// Whether `id` is the identifier of a built-in type.
pub open spec fn is_builtin(id: IdView) -> bool {
    id.namespace is None && builtin_names().contains(id.name)
}


/// Creates the identifier of a built-in type.
pub(crate) fn builtin(name: &str) -> (r: Id)
    requires
        forall|i: int| 0 <= i < name@.len() ==> name@[i] != ':',
    ensures
        r@ == builtin_id(name@),
{
    proof {
        lemma_no_colon_no_separator(name@);
    }
    Id::new(name)
}

/// The identifiers of every built-in type, in declaration order.
///
/// These names are reserved: they are built-ins everywhere and never
/// receive a namespace.
pub fn ids() -> (r: Vec<Id>)
    ensures
        r@.len() == builtin_names().len(),
        forall|i: int| 0 <= i < r@.len() ==> (#[trigger] r@[i])@ == builtin_id(builtin_names()[i]),
{
    let mut v: Vec<Id> = Vec::new();
    proof { reveal_strlit("Stroke"); }
    v.push(builtin(STROKE));
    proof { reveal_strlit("Text"); }
    v.push(builtin(TEXT));
    proof { reveal_strlit("Lifeline"); }
    v.push(builtin(LIFELINE));
    proof { reveal_strlit("Arrow"); }
    v.push(builtin(ARROW));
    proof { reveal_strlit("Note"); }
    v.push(builtin(NOTE));
    proof { reveal_strlit("Activate"); }
    v.push(builtin(ACTIVATE));
    proof { reveal_strlit("FragmentAlt"); }
    v.push(builtin(FRAGMENT_ALT));
    proof { reveal_strlit("FragmentOpt"); }
    v.push(builtin(FRAGMENT_OPT));
    proof { reveal_strlit("FragmentLoop"); }
    v.push(builtin(FRAGMENT_LOOP));
    proof { reveal_strlit("FragmentPar"); }
    v.push(builtin(FRAGMENT_PAR));
    proof { reveal_strlit("Fragment"); }
    v.push(builtin(FRAGMENT));
    proof { reveal_strlit("Rectangle"); }
    v.push(builtin(RECTANGLE));
    proof { reveal_strlit("Oval"); }
    v.push(builtin(OVAL));
    proof { reveal_strlit("Component"); }
    v.push(builtin(COMPONENT));
    proof { reveal_strlit("Boundary"); }
    v.push(builtin(BOUNDARY));
    proof { reveal_strlit("Actor"); }
    v.push(builtin(ACTOR));
    proof { reveal_strlit("Entity"); }
    v.push(builtin(ENTITY));
    proof { reveal_strlit("Control"); }
    v.push(builtin(CONTROL));
    proof { reveal_strlit("Interface"); }
    v.push(builtin(INTERFACE));
    proof { reveal_strlit("Diagram"); }
    v.push(builtin(DIAGRAM));
    proof {
        let names = builtin_names();
        assert forall|i: int| 0 <= i < v@.len() implies (#[trigger] v@[i])@ == builtin_id(names[i]) by {}
    }
    v
}


// ---------------------------------------------------------------------------
// The built-in prelude
// ---------------------------------------------------------------------------

/// A name or value with no place in the source.
pub open spec fn unplaced<T>(value: T) -> SpannedView<T> {
    SpannedView { value, span: Span::spec_empty() }
}

/// The slot `name = Target[inline]`, which references another type and
/// re-applies the inline overrides.
pub open spec fn slot_view(name: Seq<char>, target: Seq<char>, inline: Seq<AttributeView>) -> AttributeView {
    AttributeView {
        name: unplaced(name),
        value: AttributeValueView::TypeSpec(TypeSpecView {
            base_type: Some(unplaced(id_of_text(target))),
            attributes: inline,
        }),
    }
}

/// The string override `name="value"`.
pub open spec fn string_override(name: Seq<char>, value: Seq<char>) -> AttributeView {
    AttributeView { name: unplaced(name), value: AttributeValueView::String(unplaced(value)) }
}

/// The numeric override `name=value`, the number kept as its text.
pub open spec fn number_override(name: Seq<char>, text: Seq<char>) -> AttributeView {
    AttributeView { name: unplaced(name), value: AttributeValueView::Float(unplaced(text)) }
}

/// The slots of a shape: a stroke of width 2, and text.
pub open spec fn shape_slots() -> Seq<AttributeView> {
    seq![
        slot_view("stroke"@, "Stroke"@, seq![number_override("width"@, "2.0"@)]),
        slot_view("text"@, "Text"@, Seq::empty()),
    ]
}

/// The slots of a fragment: a border stroke and a dashed separator stroke.
pub open spec fn fragment_slots() -> Seq<AttributeView> {
    seq![
        slot_view("border_stroke"@, "Stroke"@, Seq::empty()),
        slot_view("separator_stroke"@, "Stroke"@, seq![string_override("style"@, "dashed"@)]),
    ]
}

/// The slots of the built-in type at position `i` of [`builtin_names`].
pub open spec fn builtin_slots(i: int) -> Seq<AttributeView> {
    if i == 2 {
        seq![slot_view("stroke"@, "Stroke"@, seq![string_override("style"@, "dashed"@)])]
    } else if i == 3 {
        seq![
            slot_view("stroke"@, "Stroke"@, Seq::empty()),
            slot_view("text"@, "Text"@, seq![string_override("background_color"@, "rgba(255, 255, 255, 0.85)"@)]),
        ]
    } else if i == 4 {
        seq![slot_view("stroke"@, "Stroke"@, Seq::empty()), slot_view("text"@, "Text"@, Seq::empty())]
    } else if i == 5 {
        seq![slot_view("stroke"@, "Stroke"@, Seq::empty())]
    } else if 6 <= i <= 10 {
        fragment_slots()
    } else if 11 <= i <= 18 {
        shape_slots()
    } else if i == 19 {
        seq![slot_view("lifeline"@, "Lifeline"@, Seq::empty())]
    } else {
        Seq::empty()
    }
}

/// The definition of the built-in type at position `i`: `Name = Name[slots]`.
pub open spec fn builtin_definition(i: int) -> TypeDefinitionView {
    TypeDefinitionView {
        name: unplaced(builtin_id(builtin_names()[i])),
        type_spec: TypeSpecView {
            base_type: Some(unplaced(builtin_id(builtin_names()[i]))),
            attributes: builtin_slots(i),
        },
    }
}

/// Builds a slot that references another type by name, re-applying the
/// inline overrides so that the referencing type's own styling survives.
pub fn type_ref(name: &str, target: &str, inline: Vec<Attribute>) -> (r: Attribute)
    ensures
        r@ == slot_view(name@, target@, attributes_view(inline@)),
{
    let spec = TypeSpec { base_type: Some(Spanned::new(Id::new(target), Span::empty())), attributes: inline };
    proof {
        lemma_type_spec_view(&spec);
    }
    let value = AttributeValue::TypeSpec(spec);
    proof {
        lemma_attribute_value_view(&value);
    }
    let r = Attribute { name: Spanned::new(String::from_str(name), Span::empty()), value };
    proof {
        lemma_attribute_view(&r);
    }
    r
}

/// The string override `name="value"`.
fn string_attribute(name: &str, value: &str) -> (r: Attribute)
    ensures
        r@ == string_override(name@, value@),
{
    let v = AttributeValue::String(Spanned::new(String::from_str(value), Span::empty()));
    proof {
        lemma_attribute_value_view(&v);
    }
    let r = Attribute { name: Spanned::new(String::from_str(name), Span::empty()), value: v };
    proof {
        lemma_attribute_view(&r);
    }
    r
}

/// The numeric override `name=value`.
fn number_attribute(name: &str, text: &str) -> (r: Attribute)
    ensures
        r@ == number_override(name@, text@),
{
    let v = AttributeValue::Float(Spanned::new(String::from_str(text), Span::empty()));
    proof {
        lemma_attribute_value_view(&v);
    }
    let r = Attribute { name: Spanned::new(String::from_str(name), Span::empty()), value: v };
    proof {
        lemma_attribute_view(&r);
    }
    r
}

/// A list of one attribute.
fn one(a: Attribute) -> (r: Vec<Attribute>)
    ensures
        attributes_view(r@) == seq![a@],
{
    let ghost av = a@;
    let mut v = Vec::new();
    v.push(a);
    proof {
        assert(attributes_view(v@) =~= seq![av]);
    }
    v
}

/// A list of two attributes.
fn two(a: Attribute, b: Attribute) -> (r: Vec<Attribute>)
    ensures
        attributes_view(r@) == seq![a@, b@],
{
    let ghost av = a@;
    let ghost bv = b@;
    let mut v = Vec::new();
    v.push(a);
    v.push(b);
    proof {
        assert(attributes_view(v@) =~= seq![av, bv]);
    }
    v
}

/// No attribute.
fn none() -> (r: Vec<Attribute>)
    ensures
        attributes_view(r@) == Seq::<AttributeView>::empty(),
{
    let v = Vec::new();
    proof {
        assert(attributes_view(v@) =~= Seq::<AttributeView>::empty());
    }
    v
}

/// The slots of a shape.
fn shape_slot_list() -> (r: Vec<Attribute>)
    ensures
        attributes_view(r@) == shape_slots(),
{
    two(type_ref("stroke", STROKE, one(number_attribute("width", "2.0"))), type_ref("text", TEXT, none()))
}

/// The slots of a fragment.
fn fragment_slot_list() -> (r: Vec<Attribute>)
    ensures
        attributes_view(r@) == fragment_slots(),
{
    two(
        type_ref("border_stroke", STROKE, none()),
        type_ref("separator_stroke", STROKE, one(string_attribute("style", "dashed"))),
    )
}

/// The definition `Name = Name[slots]` of a built-in type.
fn definition(name: &str, slots: Vec<Attribute>) -> (r: TypeDefinition)
    requires
        forall|i: int| 0 <= i < name@.len() ==> name@[i] != ':',
    ensures
        r@ == (TypeDefinitionView {
            name: unplaced(builtin_id(name@)),
            type_spec: TypeSpecView { base_type: Some(unplaced(builtin_id(name@))), attributes: attributes_view(slots@) },
        }),
{
    let spec = TypeSpec { base_type: Some(Spanned::new(builtin(name), Span::empty())), attributes: slots };
    proof {
        lemma_type_spec_view(&spec);
    }
    TypeDefinition { name: Spanned::new(builtin(name), Span::empty()), type_spec: spec }
}

/// The built-in prelude as type definitions, in declaration order: each
/// built-in type is defined as itself with slots that reference the other
/// built-ins it is made of (`Arrow` has a `stroke` slot of type `Stroke`,
/// shapes re-apply a stroke width of 2, and so on).
pub fn parser_type_definitions() -> (r: Vec<TypeDefinition>)
    ensures
        r@.len() == builtin_names().len(),
        forall|i: int| 0 <= i < r@.len() ==> (#[trigger] r@[i])@ == builtin_definition(i),
{
    let mut v: Vec<TypeDefinition> = Vec::new();
    proof { reveal_strlit("Stroke"); }
    v.push(definition(STROKE, none()));
    proof { reveal_strlit("Text"); }
    v.push(definition(TEXT, none()));
    proof { reveal_strlit("Lifeline"); }
    v.push(definition(LIFELINE, one(type_ref("stroke", STROKE, one(string_attribute("style", "dashed"))))));
    proof { reveal_strlit("Arrow"); }
    v.push(definition(ARROW, two(
        type_ref("stroke", STROKE, none()),
        type_ref("text", TEXT, one(string_attribute("background_color", "rgba(255, 255, 255, 0.85)"))),
    )));
    proof { reveal_strlit("Note"); }
    v.push(definition(NOTE, two(type_ref("stroke", STROKE, none()), type_ref("text", TEXT, none()))));
    proof { reveal_strlit("Activate"); }
    v.push(definition(ACTIVATE, one(type_ref("stroke", STROKE, none()))));
    proof { reveal_strlit("FragmentAlt"); }
    v.push(definition(FRAGMENT_ALT, fragment_slot_list()));
    proof { reveal_strlit("FragmentOpt"); }
    v.push(definition(FRAGMENT_OPT, fragment_slot_list()));
    proof { reveal_strlit("FragmentLoop"); }
    v.push(definition(FRAGMENT_LOOP, fragment_slot_list()));
    proof { reveal_strlit("FragmentPar"); }
    v.push(definition(FRAGMENT_PAR, fragment_slot_list()));
    proof { reveal_strlit("Fragment"); }
    v.push(definition(FRAGMENT, fragment_slot_list()));
    proof { reveal_strlit("Rectangle"); }
    v.push(definition(RECTANGLE, shape_slot_list()));
    proof { reveal_strlit("Oval"); }
    v.push(definition(OVAL, shape_slot_list()));
    proof { reveal_strlit("Component"); }
    v.push(definition(COMPONENT, shape_slot_list()));
    proof { reveal_strlit("Boundary"); }
    v.push(definition(BOUNDARY, shape_slot_list()));
    proof { reveal_strlit("Actor"); }
    v.push(definition(ACTOR, shape_slot_list()));
    proof { reveal_strlit("Entity"); }
    v.push(definition(ENTITY, shape_slot_list()));
    proof { reveal_strlit("Control"); }
    v.push(definition(CONTROL, shape_slot_list()));
    proof { reveal_strlit("Interface"); }
    v.push(definition(INTERFACE, shape_slot_list()));
    proof { reveal_strlit("Diagram"); }
    v.push(definition(DIAGRAM, one(type_ref("lifeline", LIFELINE, none()))));
    proof {
        assert forall|i: int| 0 <= i < v@.len() implies (#[trigger] v@[i])@ == builtin_definition(i) by {}
    }
    v
}
} // verus!
