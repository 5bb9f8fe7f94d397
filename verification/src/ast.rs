//! The syntax tree of an Orrery file.
//!
//! A [`FileAst`] has a header (a diagram or a library), import declarations
//! and the files they resolved to, type definitions and elements. Numeric
//! attribute values keep the text of their literal.
use vstd::prelude::*;
use crate::identifier::{Id, IdView};
use crate::semantic::DiagramKind;
use crate::span::{duplicate_ids, Span, Spanned, SpannedView};

verus! {

/// How an imported file's names are brought into scope.
#[derive(Debug, Clone, Copy, PartialEq, Eq, Structural)]
pub enum ImportForm {
    /// The imported names are prefixed with a namespace derived from the path.
    Namespaced,
    /// The imported names keep the names they have in the imported file.
    Glob,
}

/// An `import` declaration as written.
#[derive(Debug)]
pub struct ImportDecl {
    /// The import path, without extension.
    pub path: Spanned<String>,
    /// Namespaced or glob import.
    pub form: ImportForm,
}

/// A resolved import: the namespace it is reached under and its syntax tree.
#[derive(Debug)]
pub struct Import {
    /// The namespace (`None` for glob imports).
    pub namespace: Option<Id>,
    /// The imported file.
    pub file_ast: Box<FileAst>,
}

/// The header of a file.
#[derive(Debug)]
pub enum FileHeader {
    /// `diagram <kind> [attributes];`
    Diagram { kind: Spanned<DiagramKind>, attributes: Vec<Attribute> },
    /// `library;`
    Library { span: Span },
}

/// A parsed file.
#[derive(Debug)]
pub struct FileAst {
    /// The file's header.
    pub header: FileHeader,
    /// The import declarations, in order.
    pub import_decls: Vec<Spanned<ImportDecl>>,
    /// The resolved imports, in the order of their declarations.
    pub imports: Vec<Import>,
    /// The type definitions, in order.
    pub type_definitions: Vec<TypeDefinition>,
    /// The elements, in order.
    pub elements: Vec<Element>,
}

/// `type Name = TypeSpec;`
#[derive(Debug)]
pub struct TypeDefinition {
    /// The defined name.
    pub name: Spanned<Id>,
    /// The base type and attributes.
    pub type_spec: TypeSpec,
}

/// A base type with attributes: `Name[attrs]`, `Name`, or `[attrs]`.
#[derive(Debug)]
pub struct TypeSpec {
    /// The base type name, if given.
    pub base_type: Option<Spanned<Id>>,
    /// The attributes, in order.
    pub attributes: Vec<Attribute>,
}

/// `name = value`
#[derive(Debug)]
pub struct Attribute {
    /// The attribute's name.
    pub name: Spanned<String>,
    /// The attribute's value.
    pub value: AttributeValue,
}

/// The value of an attribute.
#[derive(Debug)]
pub enum AttributeValue {
    /// A string literal.
    String(Spanned<String>),
    /// A numeric literal, kept as its source text.
    Float(Spanned<String>),
    /// A nested type specification.
    TypeSpec(TypeSpec),
    /// A list of component identifiers: `[a, b::c]`.
    Identifiers(Vec<Spanned<Id>>),
    /// Empty brackets `[]`.
    Empty,
}

/// The content of a component.
#[derive(Debug)]
pub enum ComponentContent {
    /// No nested content.
    Empty,
    /// Nested elements in braces.
    Scope(Vec<Element>),
    /// An embedded diagram.
    Diagram(DiagramSource),
}

/// Where an embedded diagram comes from.
#[derive(Debug)]
pub enum DiagramSource {
    /// A diagram written inline.
    Inline(Box<FileAst>),
    /// A reference to a diagram imported under a namespace.
    Ref(Spanned<Id>),
}

/// `fragment "operation" { section ... };`
#[derive(Debug)]
pub struct Fragment {
    /// The fragment's operation, such as `alt` or `loop`.
    pub operation: Spanned<String>,
    /// The fragment's type specification.
    pub type_spec: TypeSpec,
    /// The sections, in order.
    pub sections: Vec<FragmentSection>,
}

/// `section "title" { elements };`
#[derive(Debug)]
pub struct FragmentSection {
    /// The section's title, if any.
    pub title: Option<Spanned<String>>,
    /// The section's elements.
    pub elements: Vec<Element>,
}

/// `note [attrs]: "content";`
#[derive(Debug)]
pub struct Note {
    /// The note's type specification.
    pub type_spec: TypeSpec,
    /// The note's text.
    pub content: Spanned<String>,
}

/// A statement of a diagram body.
#[derive(Debug)]
pub enum Element {
    /// `name as "display": Type { ... };`
    Component {
        name: Spanned<Id>,
        display_name: Option<Spanned<String>>,
        type_spec: TypeSpec,
        content: ComponentContent,
    },
    /// `source -> @Type target: "label";`
    Relation {
        source: Spanned<Id>,
        target: Spanned<Id>,
        relation_type: Spanned<String>,
        type_spec: TypeSpec,
        label: Option<Spanned<String>>,
    },
    /// `activate component { ... };`
    ActivateBlock { component: Spanned<Id>, type_spec: TypeSpec, elements: Vec<Element> },
    /// `activate component;`
    Activate { component: Spanned<Id>, type_spec: TypeSpec },
    /// `deactivate component;`
    Deactivate { component: Spanned<Id> },
    /// `fragment "op" { ... };`
    Fragment(Fragment),
    /// `alt "title" { ... } else "title" { ... };`
    AltElseBlock { keyword_span: Span, type_spec: TypeSpec, sections: Vec<FragmentSection> },
    /// `opt "title" { ... };`
    OptBlock { keyword_span: Span, type_spec: TypeSpec, section: FragmentSection },
    /// `loop "title" { ... };`
    LoopBlock { keyword_span: Span, type_spec: TypeSpec, section: FragmentSection },
    /// `par "title" { ... } par { ... };`
    ParBlock { keyword_span: Span, type_spec: TypeSpec, sections: Vec<FragmentSection> },
    /// `break "title" { ... };`
    BreakBlock { keyword_span: Span, type_spec: TypeSpec, section: FragmentSection },
    /// `critical "title" { ... };`
    CriticalBlock { keyword_span: Span, type_spec: TypeSpec, section: FragmentSection },
    /// `note ...;`
    Note(Note),
}

// ---------------------------------------------------------------------------
// Abstract values of the syntax tree
// ---------------------------------------------------------------------------

/// The abstract value of an [`ImportDecl`].
pub struct ImportDeclView {
    pub path: SpannedView<Seq<char>>,
    pub form: ImportForm,
}

/// The abstract value of an [`Import`].
pub struct ImportView {
    pub namespace: Option<IdView>,
    pub file_ast: FileAstView,
}

/// The abstract value of a [`FileHeader`].
pub enum FileHeaderView {
    Diagram { kind: SpannedView<DiagramKind>, attributes: Seq<AttributeView> },
    Library { span: Span },
}

/// The abstract value of a [`FileAst`].
pub struct FileAstView {
    pub header: FileHeaderView,
    pub import_decls: Seq<SpannedView<ImportDeclView>>,
    pub imports: Seq<ImportView>,
    pub type_definitions: Seq<TypeDefinitionView>,
    pub elements: Seq<ElementView>,
}

/// The abstract value of a [`TypeDefinition`].
pub struct TypeDefinitionView {
    pub name: SpannedView<IdView>,
    pub type_spec: TypeSpecView,
}

/// The abstract value of a [`TypeSpec`].
pub struct TypeSpecView {
    pub base_type: Option<SpannedView<IdView>>,
    pub attributes: Seq<AttributeView>,
}

/// The abstract value of an [`Attribute`].
pub struct AttributeView {
    pub name: SpannedView<Seq<char>>,
    pub value: AttributeValueView,
}

/// The abstract value of an [`AttributeValue`].
pub enum AttributeValueView {
    String(SpannedView<Seq<char>>),
    Float(SpannedView<Seq<char>>),
    TypeSpec(TypeSpecView),
    Identifiers(Seq<SpannedView<IdView>>),
    Empty,
}

/// The abstract value of a [`ComponentContent`].
pub enum ComponentContentView {
    Empty,
    Scope(Seq<ElementView>),
    Diagram(DiagramSourceView),
}

/// The abstract value of a [`DiagramSource`].
pub enum DiagramSourceView {
    Inline(FileAstView),
    Ref(SpannedView<IdView>),
}

/// The abstract value of a [`Fragment`].
pub struct FragmentView {
    pub operation: SpannedView<Seq<char>>,
    pub type_spec: TypeSpecView,
    pub sections: Seq<FragmentSectionView>,
}

/// The abstract value of a [`FragmentSection`].
pub struct FragmentSectionView {
    pub title: Option<SpannedView<Seq<char>>>,
    pub elements: Seq<ElementView>,
}

/// The abstract value of a [`Note`].
pub struct NoteView {
    pub type_spec: TypeSpecView,
    pub content: SpannedView<Seq<char>>,
}

/// The abstract value of an [`Element`].
pub enum ElementView {
    Component {
        name: SpannedView<IdView>,
        display_name: Option<SpannedView<Seq<char>>>,
        type_spec: TypeSpecView,
        content: ComponentContentView,
    },
    Relation {
        source: SpannedView<IdView>,
        target: SpannedView<IdView>,
        relation_type: SpannedView<Seq<char>>,
        type_spec: TypeSpecView,
        label: Option<SpannedView<Seq<char>>>,
    },
    ActivateBlock { component: SpannedView<IdView>, type_spec: TypeSpecView, elements: Seq<ElementView> },
    Activate { component: SpannedView<IdView>, type_spec: TypeSpecView },
    Deactivate { component: SpannedView<IdView> },
    Fragment(FragmentView),
    AltElseBlock { keyword_span: Span, type_spec: TypeSpecView, sections: Seq<FragmentSectionView> },
    OptBlock { keyword_span: Span, type_spec: TypeSpecView, section: FragmentSectionView },
    LoopBlock { keyword_span: Span, type_spec: TypeSpecView, section: FragmentSectionView },
    ParBlock { keyword_span: Span, type_spec: TypeSpecView, sections: Seq<FragmentSectionView> },
    BreakBlock { keyword_span: Span, type_spec: TypeSpecView, section: FragmentSectionView },
    CriticalBlock { keyword_span: Span, type_spec: TypeSpecView, section: FragmentSectionView },
    Note(NoteView),
}

/// The abstract values of a list of elements, in order.
pub open spec fn elements_view(s: Seq<Element>) -> Seq<ElementView>
    decreases s,
{
    if s.len() == 0 {
        Seq::empty()
    } else {
        elements_view(s.subrange(0, s.len() - 1)).push(s[s.len() - 1].view())
    }
}

/// `elements_view` keeps the length of the list.
pub broadcast proof fn lemma_elements_view_len(s: Seq<Element>)
    ensures
        #[trigger] elements_view(s).len() == s.len(),
    decreases s.len(),
{
    reveal_with_fuel(elements_view, 2);
    if s.len() > 0 {
        lemma_elements_view_len(s.subrange(0, s.len() - 1));
        assert(elements_view(s) == elements_view(s.subrange(0, s.len() - 1)).push(s[s.len() - 1].view()));
    } else {
        assert(elements_view(s) == Seq::<ElementView>::empty());
    }
}

/// `elements_view` takes each element to its abstract value.
pub broadcast proof fn lemma_elements_view_index(s: Seq<Element>, i: int)
    requires
        0 <= i < s.len(),
    ensures
        #[trigger] elements_view(s)[i] == s[i]@,
    decreases s.len(),
{
    reveal_with_fuel(elements_view, 2);
    let init = s.subrange(0, s.len() - 1);
    lemma_elements_view_len(init);
    assert(elements_view(s) == elements_view(init).push(s[s.len() - 1].view()));
    if i < s.len() - 1 {
        lemma_elements_view_index(init, i);
        assert(init[i] == s[i]);
    }
}

/// The facts that give `elements_view` its meaning.
pub broadcast group group_elements_view {
    lemma_elements_view_len,
    lemma_elements_view_index,
}

/// `elements_view` of a list is the list of the elements' abstract values.
pub proof fn lemma_elements_view(s: Seq<Element>)
    ensures
        elements_view(s) == Seq::new(s.len(), |i: int| s[i]@),
{
    lemma_elements_view_len(s);
    assert forall|i: int| 0 <= i < s.len() implies elements_view(s)[i] == s[i]@ by {
        lemma_elements_view_index(s, i);
    }
    assert(elements_view(s) =~= Seq::new(s.len(), |i: int| s[i]@));
}

/// The span of an optional base type name (empty when absent).
pub open spec fn base_span(base: Option<SpannedView<IdView>>) -> Span {
    match base {
        Some(n) => n.span,
        None => Span::spec_empty(),
    }
}

/// The span `init` joined with the name span of each attribute in turn.
pub open spec fn attributes_span(init: Span, attrs: Seq<AttributeView>) -> Span
    decreases attrs.len(),
{
    if attrs.len() == 0 {
        init
    } else {
        attributes_span(init, attrs.drop_last()).spec_join(attrs.last().name.span)
    }
}

/// The span of a type specification: its base type name joined with every
/// attribute name.
pub open spec fn type_spec_span(t: TypeSpecView) -> Span {
    attributes_span(base_span(t.base_type), t.attributes)
}

/// The abstract values of a list of attributes.
pub open spec fn attributes_view(s: Seq<Attribute>) -> Seq<AttributeView> {
    Seq::new(s.len(), |i: int| s[i]@)
}

/// The abstract values of a list of sections.
pub open spec fn sections_view(s: Seq<FragmentSection>) -> Seq<FragmentSectionView> {
    Seq::new(s.len(), |i: int| s[i]@)
}

/// The abstract values of a list of spanned identifiers.
pub open spec fn ids_view(s: Seq<Spanned<Id>>) -> Seq<SpannedView<IdView>> {
    Seq::new(s.len(), |i: int| s[i]@)
}

/// The abstract values of a list of type definitions.
pub open spec fn type_definitions_view(s: Seq<TypeDefinition>) -> Seq<TypeDefinitionView> {
    Seq::new(s.len(), |i: int| s[i]@)
}

/// The abstract values of a list of imports.
pub open spec fn imports_view(s: Seq<Import>) -> Seq<ImportView> {
    Seq::new(s.len(), |i: int| s[i]@)
}

impl View for ImportDecl {
    type V = ImportDeclView;

    open spec fn view(&self) -> ImportDeclView {
        ImportDeclView { path: self.path@, form: self.form }
    }
}

impl View for TypeSpec {
    type V = TypeSpecView;

    open spec fn view(&self) -> TypeSpecView
        decreases self,
    {
        TypeSpecView {
            base_type: match &self.base_type {
                Some(n) => Some(n@),
                None => None,
            },
            attributes: Seq::new(self.attributes@.len(), |i: int|
                if 0 <= i < self.attributes@.len() { self.attributes@[i].view() } else { arbitrary() }),
        }
    }
}

impl View for Attribute {
    type V = AttributeView;

    open spec fn view(&self) -> AttributeView
        decreases self,
    {
        AttributeView { name: self.name@, value: self.value.view() }
    }
}

impl View for AttributeValue {
    type V = AttributeValueView;

    open spec fn view(&self) -> AttributeValueView
        decreases self,
    {
        match self {
            AttributeValue::String(s) => AttributeValueView::String(s@),
            AttributeValue::Float(f) => AttributeValueView::Float(f@),
            AttributeValue::TypeSpec(t) => AttributeValueView::TypeSpec(t.view()),
            AttributeValue::Identifiers(ids) => AttributeValueView::Identifiers(
                Seq::new(ids@.len(), |i: int| ids@[i]@)),
            AttributeValue::Empty => AttributeValueView::Empty,
        }
    }
}

impl View for TypeDefinition {
    type V = TypeDefinitionView;

    open spec fn view(&self) -> TypeDefinitionView {
        TypeDefinitionView { name: self.name@, type_spec: self.type_spec.view() }
    }
}

impl View for FileHeader {
    type V = FileHeaderView;

    open spec fn view(&self) -> FileHeaderView {
        match self {
            FileHeader::Diagram { kind, attributes } => FileHeaderView::Diagram {
                kind: kind@,
                attributes: Seq::new(attributes@.len(), |i: int| attributes@[i].view()),
            },
            FileHeader::Library { span } => FileHeaderView::Library { span: *span },
        }
    }
}

impl View for FileAst {
    type V = FileAstView;

    open spec fn view(&self) -> FileAstView
        decreases self,
    {
        FileAstView {
            header: self.header.view(),
            import_decls: Seq::new(self.import_decls@.len(), |i: int| self.import_decls@[i]@),
            imports: Seq::new(self.imports@.len(), |i: int|
                if 0 <= i < self.imports@.len() { self.imports@[i].view() } else { arbitrary() }),
            type_definitions: Seq::new(self.type_definitions@.len(), |i: int| self.type_definitions@[i].view()),
            elements: elements_view(self.elements@),
        }
    }
}

impl View for Import {
    type V = ImportView;

    open spec fn view(&self) -> ImportView
        decreases self,
    {
        ImportView {
            namespace: match &self.namespace {
                Some(ns) => Some(ns@),
                None => None,
            },
            file_ast: (*self.file_ast).view(),
        }
    }
}

impl View for FragmentSection {
    type V = FragmentSectionView;

    open spec fn view(&self) -> FragmentSectionView
        decreases self,
    {
        FragmentSectionView {
            title: match &self.title {
                Some(t) => Some(t@),
                None => None,
            },
            elements: elements_view(self.elements@),
        }
    }
}

impl View for Fragment {
    type V = FragmentView;

    open spec fn view(&self) -> FragmentView
        decreases self,
    {
        FragmentView {
            operation: self.operation@,
            type_spec: self.type_spec.view(),
            sections: Seq::new(self.sections@.len(), |i: int|
                if 0 <= i < self.sections@.len() { self.sections@[i].view() } else { arbitrary() }),
        }
    }
}

impl View for Note {
    type V = NoteView;

    open spec fn view(&self) -> NoteView {
        NoteView { type_spec: self.type_spec.view(), content: self.content@ }
    }
}

impl View for DiagramSource {
    type V = DiagramSourceView;

    open spec fn view(&self) -> DiagramSourceView
        decreases self,
    {
        match self {
            DiagramSource::Inline(f) => DiagramSourceView::Inline((**f).view()),
            DiagramSource::Ref(id) => DiagramSourceView::Ref(id@),
        }
    }
}

impl View for ComponentContent {
    type V = ComponentContentView;

    open spec fn view(&self) -> ComponentContentView
        decreases self,
    {
        match self {
            ComponentContent::Empty => ComponentContentView::Empty,
            ComponentContent::Scope(es) => ComponentContentView::Scope(elements_view(es@)),
            ComponentContent::Diagram(src) => ComponentContentView::Diagram(src.view()),
        }
    }
}

impl View for Element {
    type V = ElementView;

    open spec fn view(&self) -> ElementView
        decreases self,
    {
        match self {
            Element::Component { name, display_name, type_spec, content } => ElementView::Component {
                name: name@,
                display_name: match display_name {
                    Some(d) => Some(d@),
                    None => None,
                },
                type_spec: type_spec.view(),
                content: content.view(),
            },
            Element::Relation { source, target, relation_type, type_spec, label } => ElementView::Relation {
                source: source@,
                target: target@,
                relation_type: relation_type@,
                type_spec: type_spec.view(),
                label: match label {
                    Some(l) => Some(l@),
                    None => None,
                },
            },
            Element::ActivateBlock { component, type_spec, elements } => ElementView::ActivateBlock {
                component: component@,
                type_spec: type_spec.view(),
                elements: elements_view(elements@),
            },
            Element::Activate { component, type_spec } => ElementView::Activate {
                component: component@,
                type_spec: type_spec.view(),
            },
            Element::Deactivate { component } => ElementView::Deactivate { component: component@ },
            Element::Fragment(f) => ElementView::Fragment(f.view()),
            Element::AltElseBlock { keyword_span, type_spec, sections } => ElementView::AltElseBlock {
                keyword_span: *keyword_span,
                type_spec: type_spec.view(),
                sections: Seq::new(sections@.len(), |i: int|
                    if 0 <= i < sections@.len() { sections@[i].view() } else { arbitrary() }),
            },
            Element::OptBlock { keyword_span, type_spec, section } => ElementView::OptBlock {
                keyword_span: *keyword_span,
                type_spec: type_spec.view(),
                section: section.view(),
            },
            Element::LoopBlock { keyword_span, type_spec, section } => ElementView::LoopBlock {
                keyword_span: *keyword_span,
                type_spec: type_spec.view(),
                section: section.view(),
            },
            Element::ParBlock { keyword_span, type_spec, sections } => ElementView::ParBlock {
                keyword_span: *keyword_span,
                type_spec: type_spec.view(),
                sections: Seq::new(sections@.len(), |i: int|
                    if 0 <= i < sections@.len() { sections@[i].view() } else { arbitrary() }),
            },
            Element::BreakBlock { keyword_span, type_spec, section } => ElementView::BreakBlock {
                keyword_span: *keyword_span,
                type_spec: type_spec.view(),
                section: section.view(),
            },
            Element::CriticalBlock { keyword_span, type_spec, section } => ElementView::CriticalBlock {
                keyword_span: *keyword_span,
                type_spec: type_spec.view(),
                section: section.view(),
            },
            Element::Note(n) => ElementView::Note(n.view()),
        }
    }
}

// ---------------------------------------------------------------------------
// One-level unfoldings of the abstract values
// ---------------------------------------------------------------------------

/// The abstract value of a type specification, one level down.
pub proof fn lemma_type_spec_view(t: &TypeSpec)
    ensures
        t@.attributes == attributes_view(t.attributes@),
        t@.base_type == match &t.base_type {
            Some(n) => Some(n@),
            None => None::<SpannedView<IdView>>,
        },
{
    reveal_with_fuel(<TypeSpec as View>::view, 2);
    assert(t@.attributes =~= attributes_view(t.attributes@));
}

/// The abstract value of a section, one level down.
pub proof fn lemma_section_view(s: &FragmentSection)
    ensures
        s@.elements == elements_view(s.elements@),
{
    reveal_with_fuel(<FragmentSection as View>::view, 2);
}

/// The abstract value of a fragment, one level down.
pub proof fn lemma_fragment_view(f: &Fragment)
    ensures
        f@.sections == sections_view(f.sections@),
        f@.type_spec == f.type_spec@,
        f@.operation == f.operation@,
{
    reveal_with_fuel(<Fragment as View>::view, 2);
    assert(f@.sections =~= sections_view(f.sections@));
}

/// The abstract value of a file, one level down.
pub proof fn lemma_file_view(f: &FileAst)
    ensures
        f@.elements == elements_view(f.elements@),
        f@.imports == imports_view(f.imports@),
        f@.type_definitions == type_definitions_view(f.type_definitions@),
        f@.header == f.header@,
        f@.import_decls == Seq::new(f.import_decls@.len(), |i: int| f.import_decls@[i]@),
{
    reveal_with_fuel(<FileAst as View>::view, 2);
    assert(f@.imports =~= imports_view(f.imports@));
    assert(f@.type_definitions =~= type_definitions_view(f.type_definitions@));
}

/// The abstract value of a file header, one level down.
pub proof fn lemma_header_view(h: &FileHeader)
    ensures
        match h {
            FileHeader::Diagram { kind, attributes } => h@ == FileHeaderView::Diagram {
                kind: kind@,
                attributes: attributes_view(attributes@),
            },
            FileHeader::Library { span } => h@ == FileHeaderView::Library { span: *span },
        },
{
    match h {
        FileHeader::Diagram { kind, attributes } => {
            assert(h@->Diagram_attributes =~= attributes_view(attributes@));
        },
        _ => {},
    }
}

/// The abstract value of an import, one level down.
pub proof fn lemma_import_view(i: &Import)
    ensures
        i@.file_ast == (*i.file_ast)@,
        i@.namespace == match &i.namespace {
            Some(ns) => Some(ns@),
            None => None::<IdView>,
        },
{
    reveal_with_fuel(<Import as View>::view, 2);
}

/// The abstract value of an attribute, one level down.
pub proof fn lemma_attribute_view(a: &Attribute)
    ensures
        a@.name == a.name@,
        a@.value == a.value@,
{
    reveal_with_fuel(<Attribute as View>::view, 2);
}

/// The abstract value of an attribute value, one level down.
pub proof fn lemma_attribute_value_view(v: &AttributeValue)
    ensures
        match v {
            AttributeValue::String(s) => v@ == AttributeValueView::String(s@),
            AttributeValue::Float(f) => v@ == AttributeValueView::Float(f@),
            AttributeValue::TypeSpec(t) => v@ == AttributeValueView::TypeSpec(t@),
            AttributeValue::Identifiers(ids) => v@ == AttributeValueView::Identifiers(ids_view(ids@)),
            AttributeValue::Empty => v@ == AttributeValueView::Empty,
        },
{
    reveal_with_fuel(<AttributeValue as View>::view, 2);
    match v {
        AttributeValue::Identifiers(ids) => {
            assert(v@->Identifiers_0 =~= ids_view(ids@));
        },
        _ => {},
    }
}

/// The abstract value of a component's content, one level down.
pub proof fn lemma_content_view(c: &ComponentContent)
    ensures
        match c {
            ComponentContent::Empty => c@ == ComponentContentView::Empty,
            ComponentContent::Scope(es) => c@ == ComponentContentView::Scope(elements_view(es@)),
            ComponentContent::Diagram(DiagramSource::Inline(f)) => c@ == ComponentContentView::Diagram(
                DiagramSourceView::Inline((**f)@)),
            ComponentContent::Diagram(DiagramSource::Ref(id)) => c@ == ComponentContentView::Diagram(
                DiagramSourceView::Ref(id@)),
        },
{
    reveal_with_fuel(<ComponentContent as View>::view, 2);
    reveal_with_fuel(<DiagramSource as View>::view, 2);

}

/// The abstract value of an element, one level down.
pub proof fn lemma_element_view(e: &Element)
    ensures
        match e {
            Element::Component { name, display_name, type_spec, content } => e@ == ElementView::Component {
                name: name@,
                display_name: match display_name {
                    Some(d) => Some(d@),
                    None => None,
                },
                type_spec: type_spec@,
                content: content@,
            },
            Element::Relation { source, target, relation_type, type_spec, label } => e@ == ElementView::Relation {
                source: source@,
                target: target@,
                relation_type: relation_type@,
                type_spec: type_spec@,
                label: match label {
                    Some(l) => Some(l@),
                    None => None,
                },
            },
            Element::ActivateBlock { component, type_spec, elements } => e@ == ElementView::ActivateBlock {
                component: component@,
                type_spec: type_spec@,
                elements: elements_view(elements@),
            },
            Element::Activate { component, type_spec } => e@ == ElementView::Activate {
                component: component@,
                type_spec: type_spec@,
            },
            Element::Deactivate { component } => e@ == ElementView::Deactivate { component: component@ },
            Element::Fragment(f) => e@ == ElementView::Fragment(f@),
            Element::AltElseBlock { keyword_span, type_spec, sections } => e@ == ElementView::AltElseBlock {
                keyword_span: *keyword_span,
                type_spec: type_spec@,
                sections: sections_view(sections@),
            },
            Element::OptBlock { keyword_span, type_spec, section } => e@ == ElementView::OptBlock {
                keyword_span: *keyword_span,
                type_spec: type_spec@,
                section: section@,
            },
            Element::LoopBlock { keyword_span, type_spec, section } => e@ == ElementView::LoopBlock {
                keyword_span: *keyword_span,
                type_spec: type_spec@,
                section: section@,
            },
            Element::ParBlock { keyword_span, type_spec, sections } => e@ == ElementView::ParBlock {
                keyword_span: *keyword_span,
                type_spec: type_spec@,
                sections: sections_view(sections@),
            },
            Element::BreakBlock { keyword_span, type_spec, section } => e@ == ElementView::BreakBlock {
                keyword_span: *keyword_span,
                type_spec: type_spec@,
                section: section@,
            },
            Element::CriticalBlock { keyword_span, type_spec, section } => e@ == ElementView::CriticalBlock {
                keyword_span: *keyword_span,
                type_spec: type_spec@,
                section: section@,
            },
            Element::Note(n) => e@ == ElementView::Note(n@),
        },
{
    reveal_with_fuel(<Element as View>::view, 2);
    match e {
        Element::AltElseBlock { sections, .. } => {
            assert(e@->AltElseBlock_sections =~= sections_view(sections@));
        },
        Element::ParBlock { sections, .. } => {
            assert(e@->ParBlock_sections =~= sections_view(sections@));
        },
        _ => {},
    }
}

impl FileHeader {
    /// Returns `true` for a library header.
    pub fn is_library(&self) -> (r: bool)
        ensures
            r == (*self is Library),
    {
        match self {
            FileHeader::Library { .. } => true,
            FileHeader::Diagram { .. } => false,
        }
    }
}

impl Default for TypeSpec {
    fn default() -> (r: TypeSpec)
        ensures
            r.base_type is None,
            r.attributes@.len() == 0,
    {
        TypeSpec { base_type: None, attributes: Vec::new() }
    }
}

impl TypeSpec {
    /// An empty specification: no base type and no attributes.
    pub fn empty() -> (r: TypeSpec)
        ensures
            r.base_type is None,
            r.attributes@.len() == 0,
    {
        TypeSpec { base_type: None, attributes: Vec::new() }
    }

    /// The span covering the base type name and every attribute name.
    pub fn span(&self) -> (r: Span)
        ensures
            r == type_spec_span(self@),
    {
        proof {
            lemma_type_spec_view(self);
        }
        let ghost view = self@;
        let mut s = match &self.base_type {
            Some(n) => n.span(),
            None => Span::empty(),
        };
        let mut i: usize = 0;
        while i < self.attributes.len()
            invariant
                i <= self.attributes@.len(),
                view == self@,
                view.attributes == attributes_view(self.attributes@),
                s == attributes_span(base_span(view.base_type), view.attributes.take(i as int)),
            decreases self.attributes@.len() - i,
        {
            proof {
                assert(view.attributes.take(i as int + 1).drop_last() =~= view.attributes.take(i as int));
            }
            let a = self.attributes[i].name.span();
            s = s.union(a);
            i = i + 1;
        }
        proof {
            assert(view.attributes.take(i as int) =~= view.attributes);
        }
        s
    }
}

impl AttributeValue {
    /// The text of a string value; any other value is an error.
    pub fn as_str(&self) -> (r: Result<&str, String>)
        ensures
            match self {
                AttributeValue::String(s) => r matches Ok(t) && t@ == s.spec_value()@,
                _ => r is Err,
            },
    {
        match self {
            AttributeValue::String(s) => Ok(s.inner().as_str()),
            _ => Err(String::from_str("expected a string value")),
        }
    }

    /// The nested type specification of a value, as a copy: that of a
    /// type-specification value, or the empty specification for empty
    /// brackets; any other value is an error.
    pub fn as_type_spec(&self) -> (r: Result<TypeSpec, String>)
        ensures
            match self {
                AttributeValue::TypeSpec(t) => r matches Ok(u) && u@ == t@,
                AttributeValue::Empty => r matches Ok(u)
                    && u@ == (TypeSpecView { base_type: None, attributes: Seq::empty() }),
                _ => r is Err,
            },
    {
        match self {
            AttributeValue::TypeSpec(t) => Ok(clone_type_spec(t)),
            AttributeValue::Empty => {
                let e = TypeSpec::empty();
                proof {
                    lemma_type_spec_view(&e);
                    assert(e@.attributes =~= Seq::<AttributeView>::empty());
                }
                Ok(e)
            },
            _ => Err(String::from_str("expected a type specification")),
        }
    }

    /// The span of a string or numeric value (empty for other values).
    pub fn span(&self) -> (r: Span)
        ensures
            match self {
                AttributeValue::String(s) => r == s.spec_span(),
                AttributeValue::Float(f) => r == f.spec_span(),
                _ => r.spec_start() == 0 && r.spec_end() == 0,
            },
    {
        match self {
            AttributeValue::String(s) => s.span(),
            AttributeValue::Float(f) => f.span(),
            _ => Span::empty(),
        }
    }
}

impl Attribute {
    /// The span of the attribute's name.
    pub fn span(&self) -> (r: Span)
        ensures
            r == self.name.spec_span(),
    {
        self.name.span()
    }
}

/// A copy of a type specification.
pub fn clone_type_spec(t: &TypeSpec) -> (r: TypeSpec)
    ensures
        r@ == t@,
    decreases t,
{
    let base_type = match &t.base_type {
        Some(n) => Some(n.duplicate()),
        None => None,
    };
    let mut attributes: Vec<Attribute> = Vec::new();
    let mut i: usize = 0;
    while i < t.attributes.len()
        invariant
            i <= t.attributes@.len(),
            attributes@.len() == i,
            forall|k: int| 0 <= k < i ==> (#[trigger] attributes@[k])@ == t.attributes@[k]@,
        decreases t.attributes@.len() - i,
    {
        assert(decreases_to!(t => t.attributes@[i as int]));
        attributes.push(clone_attribute(&t.attributes[i]));
        i = i + 1;
    }
    let r = TypeSpec { base_type, attributes };
    proof {
        reveal_with_fuel(<TypeSpec as View>::view, 2);
        assert(r.attributes@.len() == t.attributes@.len());
        assert forall|k: int| 0 <= k < r@.attributes.len() implies r@.attributes[k] == t@.attributes[k] by {
            assert(r.attributes@[k]@ == t.attributes@[k]@);
        }
        assert(r@.attributes =~= t@.attributes);
    }
    r
}

/// A copy of an attribute.
pub fn clone_attribute(a: &Attribute) -> (r: Attribute)
    ensures
        r@ == a@,
    decreases a,
{
    Attribute { name: a.name.duplicate(), value: clone_attribute_value(&a.value) }
}

/// A copy of an attribute value.
pub fn clone_attribute_value(v: &AttributeValue) -> (r: AttributeValue)
    ensures
        r@ == v@,
    decreases v,
{
    match v {
        AttributeValue::String(s) => AttributeValue::String(s.duplicate()),
        AttributeValue::Float(f) => AttributeValue::Float(f.duplicate()),
        AttributeValue::TypeSpec(t) => AttributeValue::TypeSpec(clone_type_spec(t)),
        AttributeValue::Identifiers(ids) => {
            let r = AttributeValue::Identifiers(duplicate_ids(ids));
            proof {
                assert(r@ =~= v@);
            }
            r
        },
        AttributeValue::Empty => AttributeValue::Empty,
    }
}


/// A copy of a list of elements.
pub fn clone_elements(es: &Vec<Element>) -> (r: Vec<Element>)
    ensures
        elements_view(r@) == elements_view(es@),
    decreases es, 0nat,
{
    let mut out: Vec<Element> = Vec::new();
    let mut i: usize = 0;
    while i < es.len()
        invariant
            i <= es@.len(),
            out@.len() == i,
            forall|k: int| 0 <= k < i ==> (#[trigger] out@[k])@ == es@[k]@,
        decreases es@.len() - i,
    {
        assert(decreases_to!(es => es@[i as int]));
        out.push(clone_element(&es[i]));
        i = i + 1;
    }
    proof {
        lemma_elements_view(out@);
        lemma_elements_view(es@);
        assert(Seq::new(out@.len(), |k: int| out@[k]@) =~= Seq::new(es@.len(), |k: int| es@[k]@));
    }
    out
}

/// A copy of a section.
pub fn clone_section(s: &FragmentSection) -> (r: FragmentSection)
    ensures
        r@ == s@,
    decreases s, 1nat,
{
    let title = match &s.title {
        Some(t) => Some(t.duplicate()),
        None => None,
    };
    let r = FragmentSection { title, elements: clone_elements(&s.elements) };
    proof {
        lemma_section_view(s);
        lemma_section_view(&r);
    }
    r
}

/// A copy of a list of sections.
pub fn clone_sections(ss: &Vec<FragmentSection>) -> (r: Vec<FragmentSection>)
    ensures
        sections_view(r@) == sections_view(ss@),
    decreases ss, 2nat,
{
    let mut out: Vec<FragmentSection> = Vec::new();
    let mut i: usize = 0;
    while i < ss.len()
        invariant
            i <= ss@.len(),
            out@.len() == i,
            forall|k: int| 0 <= k < i ==> (#[trigger] out@[k])@ == ss@[k]@,
        decreases ss@.len() - i,
    {
        assert(decreases_to!(ss => ss@[i as int]));
        out.push(clone_section(&ss[i]));
        i = i + 1;
    }
    proof {
        assert(sections_view(out@) =~= sections_view(ss@));
    }
    out
}

/// A copy of a note.
pub fn clone_note(n: &Note) -> (r: Note)
    ensures
        r@ == n@,
{
    Note { type_spec: clone_type_spec(&n.type_spec), content: n.content.duplicate() }
}

/// A copy of a component's content.
pub fn clone_content(c: &ComponentContent) -> (r: ComponentContent)
    ensures
        r@ == c@,
    decreases c, 1nat,
{
    proof {
        lemma_content_view(c);
    }
    let r = match c {
        ComponentContent::Empty => ComponentContent::Empty,
        ComponentContent::Scope(es) => ComponentContent::Scope(clone_elements(es)),
        ComponentContent::Diagram(DiagramSource::Inline(f)) => ComponentContent::Diagram(
            DiagramSource::Inline(Box::new(clone_file_ast(f)))),
        ComponentContent::Diagram(DiagramSource::Ref(id)) => ComponentContent::Diagram(
            DiagramSource::Ref(id.duplicate())),
    };
    proof {
        lemma_content_view(&r);
    }
    r
}

/// A copy of an element.
pub fn clone_element(e: &Element) -> (r: Element)
    ensures
        r@ == e@,
    decreases e, 3nat,
{
    proof {
        lemma_element_view(e);
    }
    let r = match e {
        Element::Component { name, display_name, type_spec, content } => Element::Component {
            name: name.duplicate(),
            display_name: match display_name {
                Some(d) => Some(d.duplicate()),
                None => None,
            },
            type_spec: clone_type_spec(type_spec),
            content: clone_content(content),
        },
        Element::Relation { source, target, relation_type, type_spec, label } => Element::Relation {
            source: source.duplicate(),
            target: target.duplicate(),
            relation_type: relation_type.duplicate(),
            type_spec: clone_type_spec(type_spec),
            label: match label {
                Some(l) => Some(l.duplicate()),
                None => None,
            },
        },
        Element::ActivateBlock { component, type_spec, elements } => Element::ActivateBlock {
            component: component.duplicate(),
            type_spec: clone_type_spec(type_spec),
            elements: clone_elements(elements),
        },
        Element::Activate { component, type_spec } => Element::Activate {
            component: component.duplicate(),
            type_spec: clone_type_spec(type_spec),
        },
        Element::Deactivate { component } => Element::Deactivate { component: component.duplicate() },
        Element::Fragment(f) => Element::Fragment(clone_fragment(f)),
        Element::AltElseBlock { keyword_span, type_spec, sections } => Element::AltElseBlock {
            keyword_span: *keyword_span,
            type_spec: clone_type_spec(type_spec),
            sections: clone_sections(sections),
        },
        Element::OptBlock { keyword_span, type_spec, section } => Element::OptBlock {
            keyword_span: *keyword_span,
            type_spec: clone_type_spec(type_spec),
            section: clone_section(section),
        },
        Element::LoopBlock { keyword_span, type_spec, section } => Element::LoopBlock {
            keyword_span: *keyword_span,
            type_spec: clone_type_spec(type_spec),
            section: clone_section(section),
        },
        Element::ParBlock { keyword_span, type_spec, sections } => Element::ParBlock {
            keyword_span: *keyword_span,
            type_spec: clone_type_spec(type_spec),
            sections: clone_sections(sections),
        },
        Element::BreakBlock { keyword_span, type_spec, section } => Element::BreakBlock {
            keyword_span: *keyword_span,
            type_spec: clone_type_spec(type_spec),
            section: clone_section(section),
        },
        Element::CriticalBlock { keyword_span, type_spec, section } => Element::CriticalBlock {
            keyword_span: *keyword_span,
            type_spec: clone_type_spec(type_spec),
            section: clone_section(section),
        },
        Element::Note(n) => Element::Note(clone_note(n)),
    };
    proof {
        lemma_element_view(&r);
    }
    r
}

/// A copy of a fragment.
pub fn clone_fragment(f: &Fragment) -> (r: Fragment)
    ensures
        r@ == f@,
    decreases f, 3nat,
{
    let r = Fragment {
        operation: f.operation.duplicate(),
        type_spec: clone_type_spec(&f.type_spec),
        sections: clone_sections(&f.sections),
    };
    proof {
        lemma_fragment_view(f);
        lemma_fragment_view(&r);
    }
    r
}

/// A copy of a list of attributes.
pub fn clone_attributes(attrs: &Vec<Attribute>) -> (r: Vec<Attribute>)
    ensures
        attributes_view(r@) == attributes_view(attrs@),
{
    let mut out: Vec<Attribute> = Vec::new();
    let mut i: usize = 0;
    while i < attrs.len()
        invariant
            i <= attrs@.len(),
            out@.len() == i,
            forall|k: int| 0 <= k < i ==> (#[trigger] out@[k])@ == attrs@[k]@,
        decreases attrs@.len() - i,
    {
        out.push(clone_attribute(&attrs[i]));
        i = i + 1;
    }
    proof {
        assert(attributes_view(out@) =~= attributes_view(attrs@));
    }
    out
}

/// A copy of a file header.
pub fn clone_header(h: &FileHeader) -> (r: FileHeader)
    ensures
        r@ == h@,
{
    proof {
        lemma_header_view(h);
    }
    let r = match h {
        FileHeader::Diagram { kind, attributes } => FileHeader::Diagram {
            kind: Spanned::new(*kind.inner(), kind.span()),
            attributes: clone_attributes(attributes),
        },
        FileHeader::Library { span } => FileHeader::Library { span: *span },
    };
    proof {
        lemma_header_view(&r);
    }
    r
}

/// A copy of a list of type definitions.
pub fn clone_type_definitions(tds: &Vec<TypeDefinition>) -> (r: Vec<TypeDefinition>)
    ensures
        type_definitions_view(r@) == type_definitions_view(tds@),
{
    let mut out: Vec<TypeDefinition> = Vec::new();
    let mut i: usize = 0;
    while i < tds.len()
        invariant
            i <= tds@.len(),
            out@.len() == i,
            forall|k: int| 0 <= k < i ==> (#[trigger] out@[k])@ == tds@[k]@,
        decreases tds@.len() - i,
    {
        let td = &tds[i];
        out.push(TypeDefinition { name: td.name.duplicate(), type_spec: clone_type_spec(&td.type_spec) });
        i = i + 1;
    }
    proof {
        assert(type_definitions_view(out@) =~= type_definitions_view(tds@));
    }
    out
}

/// A copy of a list of import declarations.
pub fn clone_import_decls(ds: &Vec<Spanned<ImportDecl>>) -> (r: Vec<Spanned<ImportDecl>>)
    ensures
        Seq::new(r@.len(), |i: int| r@[i]@) == Seq::new(ds@.len(), |i: int| ds@[i]@),
{
    let mut out: Vec<Spanned<ImportDecl>> = Vec::new();
    let mut i: usize = 0;
    while i < ds.len()
        invariant
            i <= ds@.len(),
            out@.len() == i,
            forall|k: int| 0 <= k < i ==> (#[trigger] out@[k])@ == ds@[k]@,
        decreases ds@.len() - i,
    {
        let d = ds[i].inner();
        out.push(Spanned::new(ImportDecl { path: d.path.duplicate(), form: d.form }, ds[i].span()));
        i = i + 1;
    }
    proof {
        assert(Seq::new(out@.len(), |i: int| out@[i]@) =~= Seq::new(ds@.len(), |i: int| ds@[i]@));
    }
    out
}

/// A copy of a list of resolved imports.
pub fn clone_imports(imports: &Vec<Import>) -> (r: Vec<Import>)
    ensures
        imports_view(r@) == imports_view(imports@),
    decreases imports, 0nat,
{
    let mut out: Vec<Import> = Vec::new();
    let mut i: usize = 0;
    while i < imports.len()
        invariant
            i <= imports@.len(),
            out@.len() == i,
            forall|k: int| 0 <= k < i ==> (#[trigger] out@[k])@ == imports@[k]@,
        decreases imports@.len() - i,
    {
        assert(decreases_to!(imports => imports@[i as int]));
        let imp = &imports[i];
        let namespace = match &imp.namespace {
            Some(ns) => Some(ns.clone()),
            None => None,
        };
        let c = Import { namespace, file_ast: Box::new(clone_file_ast(&imp.file_ast)) };
        proof {
            lemma_import_view(imp);
            lemma_import_view(&c);
        }
        out.push(c);
        i = i + 1;
    }
    proof {
        assert(imports_view(out@) =~= imports_view(imports@));
    }
    out
}

/// A copy of a file's syntax tree.
pub fn clone_file_ast(f: &FileAst) -> (r: FileAst)
    ensures
        r@ == f@,
    decreases f, 1nat,
{
    let r = FileAst {
        header: clone_header(&f.header),
        import_decls: clone_import_decls(&f.import_decls),
        imports: clone_imports(&f.imports),
        type_definitions: clone_type_definitions(&f.type_definitions),
        elements: clone_elements(&f.elements),
    };
    proof {
        lemma_file_view(f);
        lemma_file_view(&r);
    }
    r
}

} // verus!
