//! Desugaring of a parsed file.
//!
//! The pass rewrites a [`FileAst`] into the core language:
//!
//! 1. `activate c { ... };` becomes `activate c;`, the block's elements and
//!    `deactivate c;`.
//! 2. `alt`/`else`, `opt`, `loop`, `par`, `break` and `critical` blocks
//!    become `fragment "alt" { ... }` (and so on), one section per block.
//! 3. Relations, notes, fragments and activations without a base type get
//!    `Arrow`, `Note`, `Fragment` and `Activate`, spanning their type
//!    specification.
//! 4. Component identifiers are qualified with the path of the enclosing
//!    components: `child` inside `parent` becomes `parent::child`. Spans are
//!    kept.
//! 5. Library imports give their type definitions to the importing file,
//!    under the import's namespace unless the type is built in; definitions
//!    are merged by name, each name at its first position with its last
//!    definition. Diagram imports under a namespace are what embedded-diagram
//!    references resolve to. No import is kept.
use vstd::prelude::*;
use crate::ast::{
    attributes_view, clone_attribute, clone_import_decls, clone_type_spec, elements_view,
    ids_view, imports_view, lemma_element_view, lemma_file_view, lemma_fragment_view,
    lemma_header_view, lemma_import_view, lemma_section_view, lemma_type_spec_view,
    lemma_attribute_view, lemma_attribute_value_view, lemma_content_view, sections_view,
    type_definitions_view, type_spec_span, Attribute, AttributeValue, AttributeValueView,
    AttributeView, ComponentContent, ComponentContentView, DiagramSource, DiagramSourceView,
    Element, ElementView, FileAst, FileAstView, FileHeader, FileHeaderView, Fragment,
    FragmentSection, FragmentSectionView, FragmentView, Import, ImportView, Note, NoteView,
    TypeDefinition, TypeDefinitionView, TypeSpec, TypeSpecView,
};
use crate::builtin_types::{builtin_id, is_builtin};
use crate::identifier::{nested_view, Id, IdView};
use crate::span::{Span, Spanned, SpannedView};

verus! {

broadcast use crate::ast::group_elements_view;

// ---------------------------------------------------------------------------
// The rewriting, over abstract values
// ---------------------------------------------------------------------------

/// The qualified path of the innermost enclosing component, if any.
pub open spec fn current_path(path: Seq<IdView>) -> Option<IdView> {
    if path.len() == 0 {
        None
    } else {
        Some(path.last())
    }
}

/// An identifier qualified with the innermost enclosing component's path.
pub open spec fn qualify_id(path: Seq<IdView>, id: IdView) -> IdView {
    match current_path(path) {
        Some(p) => nested_view(p, id),
        None => id,
    }
}

/// A spanned identifier, qualified; the span is kept.
pub open spec fn ds_identifier(path: Seq<IdView>, id: SpannedView<IdView>) -> SpannedView<IdView> {
    SpannedView { value: qualify_id(path, id.value), span: id.span }
}

/// A list of spanned identifiers, each qualified.
pub open spec fn ds_identifiers(path: Seq<IdView>, ids: Seq<SpannedView<IdView>>) -> Seq<SpannedView<IdView>> {
    Seq::new(ids.len(), |i: int| ds_identifier(path, ids[i]))
}

/// A type specification: its base type is kept, identifier lists in its
/// attributes (at any depth) are qualified.
pub open spec fn ds_type_spec(path: Seq<IdView>, t: TypeSpecView) -> TypeSpecView
    decreases t,
{
    TypeSpecView { base_type: t.base_type, attributes: ds_attributes(path, t.attributes) }
}

/// A list of attributes, each rewritten.
pub open spec fn ds_attributes(path: Seq<IdView>, s: Seq<AttributeView>) -> Seq<AttributeView>
    decreases s,
{
    if s.len() == 0 {
        Seq::empty()
    } else {
        ds_attributes(path, s.drop_last()).push(ds_attribute(path, s.last()))
    }
}

/// An attribute: its name is kept, its value rewritten.
pub open spec fn ds_attribute(path: Seq<IdView>, a: AttributeView) -> AttributeView
    decreases a,
{
    AttributeView { name: a.name, value: ds_value(path, a.value) }
}

/// An attribute value: nested type specifications are rewritten,
/// identifier lists qualified, anything else kept.
pub open spec fn ds_value(path: Seq<IdView>, v: AttributeValueView) -> AttributeValueView
    decreases v,
{
    match v {
        AttributeValueView::TypeSpec(t) => AttributeValueView::TypeSpec(ds_type_spec(path, t)),
        AttributeValueView::Identifiers(ids) => AttributeValueView::Identifiers(ds_identifiers(path, ids)),
        _ => v,
    }
}

/// A type specification with the built-in type `name` as its base type when
/// it names none; the new name spans the whole specification.
pub open spec fn default_type(t: TypeSpecView, name: Seq<char>) -> TypeSpecView {
    match t.base_type {
        Some(_) => t,
        None => TypeSpecView {
            base_type: Some(SpannedView { value: builtin_id(name), span: type_spec_span(t) }),
            attributes: t.attributes,
        },
    }
}

/// The file header: the attributes of a diagram header are rewritten.
pub open spec fn ds_header(path: Seq<IdView>, h: FileHeaderView) -> FileHeaderView {
    match h {
        FileHeaderView::Diagram { kind, attributes } => FileHeaderView::Diagram {
            kind,
            attributes: ds_attributes(path, attributes),
        },
        FileHeaderView::Library { .. } => h,
    }
}

/// Type definitions: names kept, specifications rewritten.
pub open spec fn ds_type_definitions(path: Seq<IdView>, s: Seq<TypeDefinitionView>) -> Seq<TypeDefinitionView> {
    Seq::new(s.len(), |i: int| TypeDefinitionView { name: s[i].name, type_spec: ds_type_spec(path, s[i].type_spec) })
}

/// Whether a file is a library.
pub open spec fn is_library_view(f: FileAstView) -> bool {
    f.header is Library
}

/// The embedded diagrams that references can name: each diagram import
/// with a namespace, in import order.
pub open spec fn embed_table(imports: Seq<ImportView>) -> Seq<(IdView, FileAstView)>
    decreases imports.len(),
{
    if imports.len() == 0 {
        Seq::empty()
    } else {
        let t = embed_table(imports.drop_last());
        let imp = imports.last();
        match imp.namespace {
            Some(ns) => if is_library_view(imp.file_ast) { t } else { t.push((ns, imp.file_ast)) },
            None => t,
        }
    }
}

/// The library imports, in import order.
pub open spec fn library_imports(imports: Seq<ImportView>) -> Seq<ImportView>
    decreases imports.len(),
{
    if imports.len() == 0 {
        Seq::empty()
    } else {
        let t = library_imports(imports.drop_last());
        if is_library_view(imports.last().file_ast) { t.push(imports.last()) } else { t }
    }
}

/// The diagram that a reference names: the last embedded diagram
/// registered under that identifier.
pub open spec fn embed_lookup(embeds: Seq<(IdView, FileAstView)>, id: IdView) -> Option<FileAstView>
    decreases embeds.len(),
{
    if embeds.len() == 0 {
        None
    } else if embeds.last().0 == id {
        Some(embeds.last().1)
    } else {
        embed_lookup(embeds.drop_last(), id)
    }
}

/// A type specification placed under the namespace `ns`: a base type that
/// is not built in is nested under `ns`, and so are the base types of
/// nested type specifications in its attributes.
pub open spec fn qualify_type_spec(ns: IdView, t: TypeSpecView) -> TypeSpecView
    decreases t,
{
    TypeSpecView {
        base_type: match t.base_type {
            Some(b) => if is_builtin(b.value) {
                Some(b)
            } else {
                Some(SpannedView { value: nested_view(ns, b.value), span: b.span })
            },
            None => None,
        },
        attributes: qualify_attributes(ns, t.attributes),
    }
}

/// Attributes placed under the namespace `ns`.
pub open spec fn qualify_attributes(ns: IdView, s: Seq<AttributeView>) -> Seq<AttributeView>
    decreases s,
{
    if s.len() == 0 {
        Seq::empty()
    } else {
        let a = s.last();
        let v = match a.value {
            AttributeValueView::TypeSpec(inner) => AttributeValueView::TypeSpec(qualify_type_spec(ns, inner)),
            _ => a.value,
        };
        qualify_attributes(ns, s.drop_last()).push(AttributeView { name: a.name, value: v })
    }
}

/// A type definition placed under the namespace `ns`: its name and its
/// specification.
pub open spec fn qualify_type_definition(ns: IdView, td: TypeDefinitionView) -> TypeDefinitionView {
    TypeDefinitionView {
        name: SpannedView { value: nested_view(ns, td.name.value), span: td.name.span },
        type_spec: qualify_type_spec(ns, td.type_spec),
    }
}

/// The type definitions that an import gives: under its namespace, if it
/// has one.
pub open spec fn import_type_definitions(imp: ImportView) -> Seq<TypeDefinitionView> {
    let tds = imp.file_ast.type_definitions;
    match imp.namespace {
        Some(ns) => Seq::new(tds.len(), |i: int| qualify_type_definition(ns, tds[i])),
        None => tds,
    }
}

/// The type definitions of a list of imports, in import order.
pub open spec fn extracted_type_definitions(imports: Seq<ImportView>) -> Seq<TypeDefinitionView>
    decreases imports.len(),
{
    if imports.len() == 0 {
        Seq::empty()
    } else {
        extracted_type_definitions(imports.drop_last()) + import_type_definitions(imports.last())
    }
}

/// The position of the first definition named `id`.
pub open spec fn definition_position(s: Seq<TypeDefinitionView>, id: IdView) -> Option<int>
    decreases s.len(),
{
    if s.len() == 0 {
        None
    } else {
        match definition_position(s.drop_last(), id) {
            Some(j) => Some(j),
            None => if s.last().name.value == id { Some(s.len() - 1) } else { None },
        }
    }
}

/// Type definitions merged by name: each name keeps the position where it
/// first appears and takes the definition that comes last.
pub open spec fn merge_type_definitions(s: Seq<TypeDefinitionView>) -> Seq<TypeDefinitionView>
    decreases s.len(),
{
    if s.len() == 0 {
        Seq::empty()
    } else {
        let m = merge_type_definitions(s.drop_last());
        let td = s.last();
        match definition_position(m, td.name.value) {
            Some(j) => m.update(j, td),
            None => m.push(td),
        }
    }
}

/// The rewriting context: the qualified paths of the enclosing components
/// and the embedded diagrams that references resolve to.
pub struct DsCtx {
    pub path: Seq<IdView>,
    pub embeds: Seq<(IdView, FileAstView)>,
}

/// A file, rewritten: imports are folded first (each as a file of its own);
/// library imports give their type definitions, merged with the file's own;
/// namespaced diagram imports become the targets of references; no import
/// is kept.
pub open spec fn ds_file(path: Seq<IdView>, f: FileAstView) -> FileAstView
    decreases f,
{
    let imports = ds_imports(path, f.imports);
    let defs = merge_type_definitions(extracted_type_definitions(library_imports(imports)) + f.type_definitions);
    FileAstView {
        header: ds_header(path, f.header),
        import_decls: f.import_decls,
        imports: Seq::empty(),
        type_definitions: ds_type_definitions(path, defs),
        elements: ds_elements(DsCtx { path, embeds: embed_table(imports) }, f.elements),
    }
}

/// Imports, each file rewritten.
pub open spec fn ds_imports(path: Seq<IdView>, s: Seq<ImportView>) -> Seq<ImportView>
    decreases s,
{
    if s.len() == 0 {
        Seq::empty()
    } else {
        let imp = s.last();
        ds_imports(path, s.drop_last()).push(ImportView { namespace: imp.namespace, file_ast: ds_file(path, imp.file_ast) })
    }
}

/// A list of elements, rewritten in order; an activate block is spliced
/// into `activate`, its elements and `deactivate`.
pub open spec fn ds_elements(ctx: DsCtx, s: Seq<ElementView>) -> Seq<ElementView>
    decreases s,
{
    if s.len() == 0 {
        Seq::empty()
    } else {
        let prev = ds_elements(ctx, s.drop_last());
        match s.last() {
            ElementView::ActivateBlock { component, type_spec, elements } => {
                let c = ds_identifier(ctx.path, component);
                prev.push(ElementView::Activate {
                    component: c,
                    type_spec: ds_type_spec(ctx.path, default_type(type_spec, "Activate"@)),
                }) + ds_elements(ctx, elements) + seq![ElementView::Deactivate { component: c }]
            },
            _ => prev.push(ds_element(ctx, s.last())),
        }
    }
}

/// A section: the title is kept, the elements rewritten.
pub open spec fn ds_section(ctx: DsCtx, s: FragmentSectionView) -> FragmentSectionView
    decreases s,
{
    FragmentSectionView { title: s.title, elements: ds_elements(ctx, s.elements) }
}

/// A list of sections, each rewritten.
pub open spec fn ds_sections(ctx: DsCtx, s: Seq<FragmentSectionView>) -> Seq<FragmentSectionView>
    decreases s,
{
    if s.len() == 0 {
        Seq::empty()
    } else {
        ds_sections(ctx, s.drop_last()).push(ds_section(ctx, s.last()))
    }
}

/// A component's content: nested elements are rewritten, an inline diagram
/// is rewritten as a file, and a reference that names an embedded diagram
/// becomes that diagram, written inline.
pub open spec fn ds_content(ctx: DsCtx, c: ComponentContentView) -> ComponentContentView
    decreases c,
{
    match c {
        ComponentContentView::Empty => ComponentContentView::Empty,
        ComponentContentView::Scope(es) => ComponentContentView::Scope(ds_elements(ctx, es)),
        ComponentContentView::Diagram(DiagramSourceView::Inline(f)) => ComponentContentView::Diagram(
            DiagramSourceView::Inline(ds_file(ctx.path, f))),
        ComponentContentView::Diagram(DiagramSourceView::Ref(id)) => match embed_lookup(ctx.embeds, id.value) {
            Some(f) => ComponentContentView::Diagram(DiagramSourceView::Inline(f)),
            None => c,
        },
    }
}

/// A fragment built from a sugar block: the keyword becomes the operation.
pub open spec fn sugar_fragment(ctx: DsCtx, op: Seq<char>, keyword_span: Span, t: TypeSpecView, sections: Seq<FragmentSectionView>) -> ElementView {
    ElementView::Fragment(FragmentView {
        operation: SpannedView { value: op, span: keyword_span },
        type_spec: ds_type_spec(ctx.path, default_type(t, "Fragment"@)),
        sections,
    })
}

/// One element, rewritten.
pub open spec fn ds_element(ctx: DsCtx, e: ElementView) -> ElementView
    decreases e,
{
    let path = ctx.path;
    match e {
        ElementView::Component { name, display_name, type_spec, content } => ElementView::Component {
            name: ds_identifier(path, name),
            display_name,
            type_spec: ds_type_spec(path, type_spec),
            content: ds_content(DsCtx { path: path.push(qualify_id(path, name.value)), embeds: ctx.embeds }, content),
        },
        ElementView::Relation { source, target, relation_type, type_spec, label } => ElementView::Relation {
            source: ds_identifier(path, source),
            target: ds_identifier(path, target),
            relation_type,
            type_spec: ds_type_spec(path, default_type(type_spec, "Arrow"@)),
            label,
        },
        ElementView::ActivateBlock { component, type_spec, elements } => ElementView::ActivateBlock {
            component: ds_identifier(path, component),
            type_spec: ds_type_spec(path, default_type(type_spec, "Activate"@)),
            elements: ds_elements(ctx, elements),
        },
        ElementView::Activate { component, type_spec } => ElementView::Activate {
            component: ds_identifier(path, component),
            type_spec: ds_type_spec(path, default_type(type_spec, "Activate"@)),
        },
        ElementView::Deactivate { component } => ElementView::Deactivate { component: ds_identifier(path, component) },
        ElementView::Fragment(fr) => ElementView::Fragment(FragmentView {
            operation: fr.operation,
            type_spec: ds_type_spec(path, default_type(fr.type_spec, "Fragment"@)),
            sections: ds_sections(ctx, fr.sections),
        }),
        ElementView::AltElseBlock { keyword_span, type_spec, sections } =>
            sugar_fragment(ctx, "alt"@, keyword_span, type_spec, ds_sections(ctx, sections)),
        ElementView::OptBlock { keyword_span, type_spec, section } =>
            sugar_fragment(ctx, "opt"@, keyword_span, type_spec, seq![ds_section(ctx, section)]),
        ElementView::LoopBlock { keyword_span, type_spec, section } =>
            sugar_fragment(ctx, "loop"@, keyword_span, type_spec, seq![ds_section(ctx, section)]),
        ElementView::ParBlock { keyword_span, type_spec, sections } =>
            sugar_fragment(ctx, "par"@, keyword_span, type_spec, ds_sections(ctx, sections)),
        ElementView::BreakBlock { keyword_span, type_spec, section } =>
            sugar_fragment(ctx, "break"@, keyword_span, type_spec, seq![ds_section(ctx, section)]),
        ElementView::CriticalBlock { keyword_span, type_spec, section } =>
            sugar_fragment(ctx, "critical"@, keyword_span, type_spec, seq![ds_section(ctx, section)]),
        ElementView::Note(n) => ElementView::Note(NoteView {
            type_spec: ds_type_spec(path, default_type(n.type_spec, "Note"@)),
            content: n.content,
        }),
    }
}

/// The result of desugaring a root file.
pub open spec fn desugar_view(f: FileAstView) -> FileAstView {
    ds_file(Seq::empty(), f)
}


// ---------------------------------------------------------------------------
// The pass
// ---------------------------------------------------------------------------

/// The abstract value of a table of embedded diagrams.
pub open spec fn embeds_view(e: Seq<(Id, FileAst)>) -> Seq<(IdView, FileAstView)> {
    Seq::new(e.len(), |i: int| (e[i].0@, e[i].1@))
}

/// Whether `id` is the identifier of a built-in type.
pub fn is_builtin_id(id: &Id) -> (r: bool)
    ensures
        r == is_builtin(id@),
{
    let builtins = crate::builtin_types::ids();
    let ghost names = crate::builtin_types::builtin_names();
    let mut i: usize = 0;
    while i < builtins.len()
        invariant
            i <= builtins@.len(),
            names == crate::builtin_types::builtin_names(),
            builtins@.len() == names.len(),
            forall|k: int| 0 <= k < builtins@.len() ==> (#[trigger] builtins@[k])@ == builtin_id(names[k]),
            forall|k: int| 0 <= k < i ==> id@ != builtin_id(names[k]),
        decreases builtins@.len() - i,
    {
        if *id == builtins[i] {
            proof {
                assert(id@ == builtin_id(names[i as int]));
                assert(names[i as int] == id@.name);
                assert(names.contains(id@.name));
            }
            return true;
        }
        i = i + 1;
    }
    proof {
        if is_builtin(id@) {
            let k = choose|k: int| 0 <= k < names.len() && names[k] == id@.name;
            assert(id@ == builtin_id(names[k]));
        }
    }
    false
}

/// A copy of a type definition.
fn clone_type_definition(td: &TypeDefinition) -> (r: TypeDefinition)
    ensures
        r@ == td@,
{
    TypeDefinition { name: td.name.duplicate(), type_spec: clone_type_spec(&td.type_spec) }
}

/// The key under which a type name is merged: its name and namespace.
fn type_key(id: &Id) -> (r: (String, Option<String>))
    ensures
        crate::type_index::key_view(r) == (id@.name, id@.namespace),
{
    let name = String::from_str(id.name());
    let namespace = match id.namespace() {
        Some(ns) => Some(String::from_str(ns)),
        None => None,
    };
    (name, namespace)
}

/// A type specification placed under the namespace `ns` (see
/// [`qualify_type_spec`]).
fn qualify_type_spec_exec(t: &TypeSpec, ns: &Id) -> (r: TypeSpec)
    ensures
        r@ == qualify_type_spec(ns@, t@),
    decreases t,
{
    proof {
        lemma_type_spec_view(t);
    }
    let base_type = match &t.base_type {
        Some(b) => if is_builtin_id(b.inner()) {
            Some(b.duplicate())
        } else {
            Some(Spanned::new(ns.create_nested(b.inner()), b.span()))
        },
        None => None,
    };
    let ghost view = t@.attributes;
    let mut attributes: Vec<Attribute> = Vec::new();
    let mut i: usize = 0;
    while i < t.attributes.len()
        invariant
            i <= t.attributes@.len(),
            view == attributes_view(t.attributes@),
            attributes_view(attributes@) == qualify_attributes(ns@, view.take(i as int)),
        decreases t.attributes@.len() - i,
    {
        let a = &t.attributes[i];
        assert(decreases_to!(t => t.attributes@[i as int]));
        proof {
            lemma_attribute_view(a);
            lemma_attribute_value_view(&a.value);
            assert(view.take(i as int + 1).drop_last() =~= view.take(i as int));
        }
        let value = match &a.value {
            AttributeValue::TypeSpec(inner) => {
                assert(decreases_to!(t => *inner));
                AttributeValue::TypeSpec(qualify_type_spec_exec(inner, ns))
            },
            _ => crate::ast::clone_attribute_value(&a.value),
        };
        let na = Attribute { name: a.name.duplicate(), value };
        proof {
            lemma_attribute_view(&na);
            lemma_attribute_value_view(&na.value);
        }
        let ghost before = attributes@;
        attributes.push(na);
        proof {
            assert(attributes_view(attributes@) =~= attributes_view(before).push(na@));
        }
        i = i + 1;
    }
    let r = TypeSpec { base_type, attributes };
    proof {
        assert(view.take(i as int) =~= view);
        lemma_type_spec_view(&r);
    }
    r
}

/// A type definition placed under the namespace `ns`.
fn qualify_type_definition_exec(td: &TypeDefinition, ns: &Id) -> (r: TypeDefinition)
    ensures
        r@ == qualify_type_definition(ns@, td@),
{
    TypeDefinition {
        name: Spanned::new(ns.create_nested(td.name.inner()), td.name.span()),
        type_spec: qualify_type_spec_exec(&td.type_spec, ns),
    }
}

/// The type definitions of the library imports, in order, each placed
/// under its import's namespace when the import has one.
fn extract_type_definitions_from_imports(lib: &Vec<Import>) -> (r: Vec<TypeDefinition>)
    ensures
        type_definitions_view(r@) == extracted_type_definitions(imports_view(lib@)),
{
    let ghost view = imports_view(lib@);
    let mut out: Vec<TypeDefinition> = Vec::new();
    let mut i: usize = 0;
    while i < lib.len()
        invariant
            i <= lib@.len(),
            view == imports_view(lib@),
            type_definitions_view(out@) == extracted_type_definitions(view.take(i as int)),
        decreases lib@.len() - i,
    {
        let imp = &lib[i];
        proof {
            lemma_import_view(imp);
            lemma_file_view(&imp.file_ast);
            assert(view.take(i as int + 1).drop_last() =~= view.take(i as int));
        }
        let tds = &imp.file_ast.type_definitions;
        let ghost base = type_definitions_view(out@);
        let ghost given = import_type_definitions(view[i as int]);
        let mut j: usize = 0;
        while j < tds.len()
            invariant
                j <= tds@.len(),
                type_definitions_view(tds@) == view[i as int].file_ast.type_definitions,
                given == import_type_definitions(view[i as int]),
                given.len() == tds@.len(),
                view[i as int].namespace == match &imp.namespace {
                    Some(ns) => Some(ns@),
                    None => None::<IdView>,
                },
                type_definitions_view(out@) == base + given.take(j as int),
            decreases tds@.len() - j,
        {
            let td = match &imp.namespace {
                Some(ns) => qualify_type_definition_exec(&tds[j], ns),
                None => clone_type_definition(&tds[j]),
            };
            let ghost before = out@;
            out.push(td);
            proof {
                assert(type_definitions_view(out@) =~= type_definitions_view(before).push(td@));
                assert(given.take(j as int + 1) =~= given.take(j as int).push(given[j as int]));
            }
            j = j + 1;
        }
        proof {
            assert(given.take(j as int) =~= given);
        }
        i = i + 1;
    }
    proof {
        assert(view.take(i as int) =~= view);
    }
    out
}


/// The position of the last embedded diagram registered under `id`.
fn embed_find(embeds: &Vec<(Id, FileAst)>, id: &Id) -> (r: Option<usize>)
    ensures
        match r {
            Some(k) => k < embeds@.len() && embed_lookup(embeds_view(embeds@), id@) == Some(embeds@[k as int].1@),
            None => embed_lookup(embeds_view(embeds@), id@) is None,
        },
{
    let ghost view = embeds_view(embeds@);
    let mut k: usize = embeds.len();
    proof {
        assert(view.take(k as int) =~= view);
    }
    while k > 0
        invariant
            k <= embeds@.len(),
            view == embeds_view(embeds@),
            embed_lookup(view, id@) == embed_lookup(view.take(k as int), id@),
        decreases k,
    {
        proof {
            assert(view.take(k as int).drop_last() =~= view.take(k as int - 1));
        }
        if embeds[k - 1].0 == *id {
            return Some(k - 1);
        }
        k = k - 1;
    }
    None
}

/// Splits rewritten imports into the library imports and the table of
/// embedded diagrams (diagram imports with a namespace).
fn split_imports(imports: Vec<Import>) -> (r: (Vec<Import>, Vec<(Id, FileAst)>))
    ensures
        imports_view(r.0@) == library_imports(imports_view(imports@)),
        embeds_view(r.1@) == embed_table(imports_view(imports@)),
{
    let ghost all = imports_view(imports@);
    let mut rest = imports;
    let mut lib: Vec<Import> = Vec::new();
    let mut embeds: Vec<(Id, FileAst)> = Vec::new();
    let ghost mut k: int = 0;
    while rest.len() > 0
        invariant
            0 <= k <= all.len(),
            imports_view(rest@) == all.skip(k),
            imports_view(lib@) == library_imports(all.take(k)),
            embeds_view(embeds@) == embed_table(all.take(k)),
        decreases rest@.len(),
    {
        let ghost before_rest = rest@;
        let imp = rest.remove(0);
        proof {
            assert(imports_view(rest@) =~= imports_view(before_rest).skip(1));
            assert(all.skip(k).skip(1) =~= all.skip(k + 1));
            assert(imports_view(before_rest)[0] == before_rest[0]@);
            assert(imp@ == all[k]);
            assert(all.take(k + 1).drop_last() =~= all.take(k));
            lemma_import_view(&imp);
            lemma_file_view(&imp.file_ast);
            lemma_header_view(&imp.file_ast.header);
        }
        let is_lib = imp.file_ast.header.is_library();
        if is_lib {
            let ghost before = lib@;
            lib.push(imp);
            proof {
                assert(imports_view(lib@) =~= imports_view(before).push(all[k]));
            }
        } else {
            let Import { namespace, file_ast } = imp;
            match namespace {
                Some(ns) => {
                    let ghost before = embeds@;
                    let fa: FileAst = *file_ast;
                    embeds.push((ns, fa));
                    proof {
                        assert(embeds_view(embeds@) =~= embeds_view(before).push((all[k].namespace->0, all[k].file_ast)));
                    }
                },
                None => {},
            }
        }
        proof {
            k = k + 1;
        }
    }
    proof {
        assert(all.skip(k).len() == 0);
        assert(all.take(k) =~= all);
    }
    (lib, embeds)
}

/// A one-section list.
fn one_section(sec: FragmentSection) -> (r: Vec<FragmentSection>)
    ensures
        sections_view(r@) == seq![sec@],
{
    let ghost v = sec@;
    let mut out: Vec<FragmentSection> = Vec::new();
    out.push(sec);
    proof {
        assert(sections_view(out@) =~= seq![v]);
    }
    out
}

/// The merge key of an identifier: its name and namespace.
pub open spec fn key_of(id: IdView) -> (Seq<char>, Option<Seq<char>>) {
    (id.name, id.namespace)
}

/// When the keys of an index are, position by position, the keys of a list
/// of definitions, a key is found where its definition is.
proof fn lemma_positions_agree(c: Seq<((Seq<char>, Option<Seq<char>>), usize)>, m: Seq<TypeDefinitionView>, id: IdView)
    requires
        c.len() == m.len(),
        forall|j: int| 0 <= j < c.len() ==> (#[trigger] c[j]).0 == key_of(m[j].name.value),
    ensures
        crate::type_index::key_position(c, key_of(id)) == definition_position(m, id),
    decreases c.len(),
{
    if c.len() > 0 {
        lemma_positions_agree(c.drop_last(), m.drop_last(), id);
        assert(c.last().0 == key_of(m.last().name.value));
    }
}

/// A found definition has the name that was looked for.
proof fn lemma_definition_position(m: Seq<TypeDefinitionView>, id: IdView)
    ensures
        definition_position(m, id) matches Some(j) ==> 0 <= j < m.len() && m[j].name.value == id,
    decreases m.len(),
{
    if m.len() > 0 {
        lemma_definition_position(m.drop_last(), id);
    }
}

/// The merge keeps every definition's name where it was.
proof fn lemma_merge_step(m: Seq<TypeDefinitionView>, td: TypeDefinitionView)
    ensures
        ({
            let m2 = match definition_position(m, td.name.value) {
                Some(j) => m.update(j, td),
                None => m.push(td),
            };
            &&& definition_position(m, td.name.value) matches Some(j) ==> m2.len() == m.len() && m2[j] == td
                && forall|k: int| 0 <= k < m.len() && k != j ==> m2[k] == m[k]
            &&& definition_position(m, td.name.value) is None ==> m2 == m.push(td)
        }),
{
    lemma_definition_position(m, td.name.value);
}

/// Merges the imported and the local type definitions by name: each name
/// keeps the position of its first definition and takes its last one.
fn merge_with_import_type_definitions(type_defs: &Vec<TypeDefinition>, lib: &Vec<Import>) -> (r: Vec<TypeDefinition>)
    ensures
        type_definitions_view(r@) == merge_type_definitions(
            extracted_type_definitions(imports_view(lib@)) + type_definitions_view(type_defs@)),
{
    let mut all = extract_type_definitions_from_imports(lib);
    let ghost imported = type_definitions_view(all@);
    let mut i: usize = 0;
    while i < type_defs.len()
        invariant
            i <= type_defs@.len(),
            type_definitions_view(all@) == imported + type_definitions_view(type_defs@).take(i as int),
        decreases type_defs@.len() - i,
    {
        let td = clone_type_definition(&type_defs[i]);
        let ghost before = all@;
        all.push(td);
        proof {
            assert(type_definitions_view(all@) =~= type_definitions_view(before).push(td@));
            assert(type_definitions_view(type_defs@).take(i as int + 1)
                =~= type_definitions_view(type_defs@).take(i as int).push(type_defs@[i as int]@));
        }
        i = i + 1;
    }
    let ghost s = type_definitions_view(all@);
    proof {
        assert(type_definitions_view(type_defs@).take(i as int) =~= type_definitions_view(type_defs@));
        assert(s == extracted_type_definitions(imports_view(lib@)) + type_definitions_view(type_defs@));
    }
    let mut index = crate::type_index::index_new();
    let mut k: usize = 0;
    while k < all.len()
        invariant
            k <= all@.len(),
            s == type_definitions_view(all@),
            ({
                let c = crate::type_index::type_index_entries(index);
                let m = merge_type_definitions(s.take(k as int));
                &&& c.len() == m.len()
                &&& forall|j: int| 0 <= j < c.len() ==> {
                    &&& (#[trigger] c[j]).1 < k
                    &&& m[j] == s[c[j].1 as int]
                    &&& c[j].0 == key_of(m[j].name.value)
                }
            }),
        decreases all@.len() - k,
    {
        let ghost c = crate::type_index::type_index_entries(index);
        let ghost m = merge_type_definitions(s.take(k as int));
        let ghost td = s[k as int];
        proof {
            assert(s.take(k as int + 1).drop_last() =~= s.take(k as int));
            lemma_positions_agree(c, m, td.name.value);
            lemma_merge_step(m, td);
        }
        let key = type_key(all[k].name.inner());
        proof {
            assert(td == all@[k as int]@);
            assert(crate::type_index::key_view(key) == key_of(td.name.value));
        }
        let _ = crate::type_index::index_insert(&mut index, key, k);
        proof {
            let c2 = crate::type_index::type_index_entries(index);
            let m2 = merge_type_definitions(s.take(k as int + 1));
            assert(m2 == match definition_position(m, td.name.value) {
                Some(j) => m.update(j, td),
                None => m.push(td),
            });
            match definition_position(m, td.name.value) {
                Some(j0) => {
                    lemma_definition_position(m, td.name.value);
                    assert(0 <= j0 < m.len());
                    assert(c2 == c.update(j0, (key_of(td.name.value), k)));
                    assert forall|j: int| 0 <= j < c2.len() implies {
                        &&& (#[trigger] c2[j]).1 < k + 1
                        &&& m2[j] == s[c2[j].1 as int]
                        &&& c2[j].0 == key_of(m2[j].name.value)
                    } by {
                        if j != j0 {
                            assert(c2[j] == c[j]);
                            assert(m2[j] == m[j]);
                        }
                    }
                },
                None => {
                    assert(c2 == c.push((key_of(td.name.value), k)));
                    assert forall|j: int| 0 <= j < c2.len() implies {
                        &&& (#[trigger] c2[j]).1 < k + 1
                        &&& m2[j] == s[c2[j].1 as int]
                        &&& c2[j].0 == key_of(m2[j].name.value)
                    } by {
                        if j < c.len() {
                            assert(c2[j] == c[j]);
                            assert(m2[j] == m[j]);
                        }
                    }
                },
            }
        }
        k = k + 1;
    }
    proof {
        assert(s.take(k as int) =~= s);
    }
    let n = crate::type_index::index_len(&index);
    let ghost c = crate::type_index::type_index_entries(index);
    let ghost m = merge_type_definitions(s);
    let mut out: Vec<TypeDefinition> = Vec::new();
    let mut j: usize = 0;
    while j < n
        invariant
            j <= n,
            n == c.len(),
            c == crate::type_index::type_index_entries(index),
            s == type_definitions_view(all@),
            m == merge_type_definitions(s),
            c.len() == m.len(),
            forall|q: int| 0 <= q < c.len() ==> {
                &&& (#[trigger] c[q]).1 < all@.len()
                &&& m[q] == s[c[q].1 as int]
            },
            type_definitions_view(out@) == m.take(j as int),
        decreases n - j,
    {
        let p = crate::type_index::index_value_at(&index, j);
        match p {
            Some(p) => {
                let td = clone_type_definition(&all[p]);
                let ghost before = out@;
                out.push(td);
                proof {
                    assert(type_definitions_view(out@) =~= type_definitions_view(before).push(td@));
                    assert(m.take(j as int + 1) =~= m.take(j as int).push(m[j as int]));
                }
            },
            None => {},
        }
        j = j + 1;
    }
    proof {
        assert(m.take(j as int) =~= m);
    }
    out
}


/// The qualified paths of the components enclosing an element, outermost
/// first: entering `parent` and then `child` gives `parent`, `parent::child`.
#[derive(Debug)]
pub struct PathStack {
    stack: Vec<Id>,
}

impl View for PathStack {
    type V = Seq<IdView>;

    closed spec fn view(&self) -> Seq<IdView> {
        Seq::new(self.stack@.len(), |i: int| self.stack@[i]@)
    }
}

impl PathStack {
    /// An empty path: the root.
    pub fn new() -> (r: PathStack)
        ensures
            r@ == Seq::<IdView>::empty(),
    {
        let r = PathStack { stack: Vec::new() };
        proof {
            assert(r@ =~= Seq::<IdView>::empty());
        }
        r
    }

    /// Enters `id`: its qualified form becomes the innermost path.
    pub fn push(&mut self, id: Id)
        ensures
            final(self)@ == old(self)@.push(qualify_id(old(self)@, id@)),
    {
        let q = self.qualify(id);
        self.stack.push(q);
        proof {
            assert(final(self)@ =~= old(self)@.push(qualify_id(old(self)@, id@)));
        }
    }

    /// Leaves the innermost path; at the root nothing changes.
    pub fn pop(&mut self)
        ensures
            old(self)@.len() > 0 ==> final(self)@ == old(self)@.drop_last(),
            old(self)@.len() == 0 ==> final(self)@ == old(self)@,
    {
        let _ = self.stack.pop();
        proof {
            if old(self)@.len() > 0 {
                assert(final(self)@ =~= old(self)@.drop_last());
            } else {
                assert(final(self)@ =~= old(self)@);
            }
        }
    }

    /// The innermost qualified path, or none at the root.
    pub fn current(&self) -> (r: Option<Id>)
        ensures
            match r {
                Some(p) => current_path(self@) == Some(p@),
                None => current_path(self@) is None,
            },
    {
        let n = self.stack.len();
        if n > 0 {
            Some(self.stack[n - 1].clone())
        } else {
            None
        }
    }

    /// `id` qualified with the innermost path: nested under it, or unchanged
    /// at the root.
    pub fn qualify(&self, id: Id) -> (r: Id)
        ensures
            r@ == qualify_id(self@, id@),
    {
        let n = self.stack.len();
        if n > 0 {
            self.stack[n - 1].create_nested(&id)
        } else {
            id
        }
    }
}

/// Leaving a component restores the enclosing scope: after
/// [`PathStack::push`] of any identifier, [`PathStack::pop`] gives back the
/// path that was there before.
pub proof fn lemma_pop_undoes_push(before: Seq<IdView>, id: IdView)
    ensures
        before.push(qualify_id(before, id)).len() > 0,
        before.push(qualify_id(before, id)).drop_last() == before,
{
    assert(before.push(qualify_id(before, id)).drop_last() =~= before);
}

/// The desugaring pass: the qualified paths of the components enclosing the
/// element being rewritten.
pub struct Desugar {
    path_stack: PathStack,
}

impl Desugar {
    /// The qualified paths of the enclosing components, outermost first.
    pub closed spec fn spec_path(&self) -> Seq<IdView> {
        self.path_stack@
    }

    /// A pass at the root: no enclosing component.
    pub fn new() -> (r: Desugar)
        ensures
            r.spec_path() == Seq::<IdView>::empty(),
    {
        Desugar { path_stack: PathStack::new() }
    }

    /// An identifier qualified with the innermost enclosing component's path.
    fn qualify(&self, id: &Id) -> (r: Id)
        ensures
            r@ == qualify_id(self.spec_path(), id@),
    {
        self.path_stack.qualify(id.clone())
    }

    /// A spanned identifier, qualified; the span is kept.
    fn fold_identifier(&self, id: &Spanned<Id>) -> (r: Spanned<Id>)
        ensures
            r@ == ds_identifier(self.spec_path(), id@),
    {
        Spanned::new(self.qualify(id.inner()), id.span())
    }

    /// A list of spanned identifiers, each qualified.
    fn fold_identifiers(&self, ids: &Vec<Spanned<Id>>) -> (r: Vec<Spanned<Id>>)
        ensures
            ids_view(r@) == ds_identifiers(self.spec_path(), ids_view(ids@)),
    {
        let mut out: Vec<Spanned<Id>> = Vec::new();
        let mut i: usize = 0;
        while i < ids.len()
            invariant
                i <= ids@.len(),
                out@.len() == i,
                forall|k: int| 0 <= k < i ==> (#[trigger] out@[k])@ == ds_identifier(self.spec_path(), ids@[k]@),
            decreases ids@.len() - i,
        {
            out.push(self.fold_identifier(&ids[i]));
            i = i + 1;
        }
        proof {
            assert(ids_view(out@) =~= ds_identifiers(self.spec_path(), ids_view(ids@)));
        }
        out
    }

    /// A type specification: base type kept, identifier lists in its
    /// attributes qualified.
    fn fold_type_spec(&self, t: &TypeSpec) -> (r: TypeSpec)
        ensures
            r@ == ds_type_spec(self.spec_path(), t@),
        decreases t,
    {
        proof {
            lemma_type_spec_view(t);
        }
        let base_type = match &t.base_type {
            Some(n) => Some(n.duplicate()),
            None => None,
        };
        let r = TypeSpec { base_type, attributes: self.fold_attributes(&t.attributes) };
        proof {
            lemma_type_spec_view(&r);
        }
        r
    }

    /// A list of attributes, each rewritten.
    fn fold_attributes(&self, attrs: &Vec<Attribute>) -> (r: Vec<Attribute>)
        ensures
            attributes_view(r@) == ds_attributes(self.spec_path(), attributes_view(attrs@)),
        decreases attrs,
    {
        let ghost view = attributes_view(attrs@);
        let mut out: Vec<Attribute> = Vec::new();
        let mut i: usize = 0;
        while i < attrs.len()
            invariant
                i <= attrs@.len(),
                view == attributes_view(attrs@),
                attributes_view(out@) == ds_attributes(self.spec_path(), view.take(i as int)),
            decreases attrs@.len() - i,
        {
            let a = &attrs[i];
            assert(decreases_to!(attrs => attrs@[i as int]));
            let na = Attribute { name: a.name.duplicate(), value: self.fold_attribute_value(&a.value) };
            proof {
                lemma_attribute_view(a);
                lemma_attribute_view(&na);
                assert(view.take(i as int + 1).drop_last() =~= view.take(i as int));
            }
            let ghost before = out@;
            out.push(na);
            proof {
                assert(attributes_view(out@) =~= attributes_view(before).push(na@));
                assert(view[i as int] == a@);
                assert(na@ == ds_attribute(self.spec_path(), a@));
                reveal_with_fuel(ds_attributes, 2);
                assert(ds_attributes(self.spec_path(), view.take(i as int + 1))
                    == ds_attributes(self.spec_path(), view.take(i as int)).push(ds_attribute(self.spec_path(), view[i as int])));
            }
            i = i + 1;
        }
        proof {
            assert(view.take(i as int) =~= view);
        }
        out
    }

    /// An attribute value: nested type specifications rewritten,
    /// identifier lists qualified, anything else kept.
    fn fold_attribute_value(&self, v: &AttributeValue) -> (r: AttributeValue)
        ensures
            r@ == ds_value(self.spec_path(), v@),
        decreases v,
    {
        proof {
            lemma_attribute_value_view(v);
        }
        let r = match v {
            AttributeValue::String(s) => AttributeValue::String(s.duplicate()),
            AttributeValue::Float(f) => AttributeValue::Float(f.duplicate()),
            AttributeValue::TypeSpec(t) => AttributeValue::TypeSpec(self.fold_type_spec(t)),
            AttributeValue::Identifiers(ids) => AttributeValue::Identifiers(self.fold_identifiers(ids)),
            AttributeValue::Empty => AttributeValue::Empty,
        };
        proof {
            lemma_attribute_value_view(&r);
        }
        r
    }

    /// A type specification with the built-in type `name` as its base type
    /// when it names none, then rewritten.
    fn fold_defaulted_type_spec(&self, t: &TypeSpec, name: &str) -> (r: TypeSpec)
        requires
            forall|i: int| 0 <= i < name@.len() ==> name@[i] != ':',
        ensures
            r@ == ds_type_spec(self.spec_path(), default_type(t@, name@)),
    {
        proof {
            lemma_type_spec_view(t);
        }
        let folded = self.fold_type_spec(t);
        match &t.base_type {
            Some(_) => folded,
            None => {
                let span = t.span();
                let r = TypeSpec {
                    base_type: Some(Spanned::new(crate::builtin_types::builtin(name), span)),
                    attributes: folded.attributes,
                };
                proof {
                    lemma_type_spec_view(&folded);
                    lemma_type_spec_view(&r);
                    let d = default_type(t@, name@);
                    assert(d.attributes == t@.attributes);
                    lemma_type_spec_view(&r);
                }
                r
            },
        }
    }

    /// The file header: a diagram header's attributes are rewritten.
    fn fold_header(&self, h: &FileHeader) -> (r: FileHeader)
        ensures
            r@ == ds_header(self.spec_path(), h@),
    {
        proof {
            lemma_header_view(h);
        }
        let r = match h {
            FileHeader::Diagram { kind, attributes } => FileHeader::Diagram {
                kind: Spanned::new(*kind.inner(), kind.span()),
                attributes: self.fold_attributes(attributes),
            },
            FileHeader::Library { span } => FileHeader::Library { span: *span },
        };
        proof {
            lemma_header_view(&r);
        }
        r
    }

    /// Type definitions: names kept, specifications rewritten.
    fn fold_type_definitions(&self, tds: &Vec<TypeDefinition>) -> (r: Vec<TypeDefinition>)
        ensures
            type_definitions_view(r@) == ds_type_definitions(self.spec_path(), type_definitions_view(tds@)),
    {
        let mut out: Vec<TypeDefinition> = Vec::new();
        let mut i: usize = 0;
        while i < tds.len()
            invariant
                i <= tds@.len(),
                out@.len() == i,
                forall|k: int| 0 <= k < i ==> (#[trigger] out@[k])@ == (TypeDefinitionView {
                    name: tds@[k]@.name,
                    type_spec: ds_type_spec(self.spec_path(), tds@[k]@.type_spec),
                }),
            decreases tds@.len() - i,
        {
            let td = &tds[i];
            out.push(TypeDefinition { name: td.name.duplicate(), type_spec: self.fold_type_spec(&td.type_spec) });
            i = i + 1;
        }
        proof {
            assert(type_definitions_view(out@) =~= ds_type_definitions(self.spec_path(), type_definitions_view(tds@)));
        }
        out
    }

    /// The rewriting context of this pass with the embedded diagrams `embeds`.
    pub closed spec fn ctx(&self, embeds: Seq<(Id, FileAst)>) -> DsCtx {
        DsCtx { path: self.spec_path(), embeds: embeds_view(embeds) }
    }

    /// A list of elements, rewritten in order; activate blocks are spliced.
    fn fold_elements_in(&mut self, es: &Vec<Element>, embeds: &Vec<(Id, FileAst)>) -> (r: Vec<Element>)
        ensures
            final(self).path_stack@ == old(self).path_stack@,
            elements_view(r@) == ds_elements(old(self).ctx(embeds@), elements_view(es@)),
        decreases es,
    {
        let ghost ctx = self.ctx(embeds@);
        let ghost view = elements_view(es@);
        let ghost stack = self.path_stack@;
        let mut out: Vec<Element> = Vec::new();
        let mut i: usize = 0;
        while i < es.len()
            invariant
                i <= es@.len(),
                view == elements_view(es@),
                self.path_stack@ == stack,
                ctx == self.ctx(embeds@),
                elements_view(out@) == ds_elements(ctx, view.take(i as int)),
            decreases es@.len() - i,
        {
            let e = &es[i];
            assert(decreases_to!(es => es@[i as int]));
            proof {
                lemma_element_view(e);
                assert(view.take(i as int + 1).drop_last() =~= view.take(i as int));
                assert(view[i as int] == e@);
            }
            let ghost before = out@;
            match e {
                Element::ActivateBlock { component, type_spec, elements } => {
                    let comp = self.fold_identifier(component);
                    proof { reveal_strlit("Activate"); }
                    let ts = self.fold_defaulted_type_spec(type_spec, crate::builtin_types::ACTIVATE);
                    let act = Element::Activate { component: comp.duplicate(), type_spec: ts };
                    out.push(act);
                    let mut inner = self.fold_elements_in(elements, embeds);
                    let ghost mid = out@;
                    let ghost inner_v = inner@;
                    out.append(&mut inner);
                    let deact = Element::Deactivate { component: comp };
                    out.push(deact);
                    proof {
                        lemma_element_view(&act);
                        lemma_element_view(&deact);
                        assert(mid == before.push(act));
                        assert(elements_view(out@) =~= elements_view(before).push(act@)
                            + elements_view(inner_v) + seq![deact@]);
                    }
                },
                _ => {
                    let ne = self.fold_element_in(e, embeds);
                    out.push(ne);
                    proof {
                        assert(elements_view(out@) =~= elements_view(before).push(ne@));
                    }
                },
            }
            i = i + 1;
        }
        proof {
            assert(view.take(i as int) =~= view);
        }
        out
    }

    /// A section: title kept, elements rewritten.
    fn fold_section(&mut self, sec: &FragmentSection, embeds: &Vec<(Id, FileAst)>) -> (r: FragmentSection)
        ensures
            final(self).path_stack@ == old(self).path_stack@,
            r@ == ds_section(old(self).ctx(embeds@), sec@),
        decreases sec,
    {
        let title = match &sec.title {
            Some(t) => Some(t.duplicate()),
            None => None,
        };
        let r = FragmentSection { title, elements: self.fold_elements_in(&sec.elements, embeds) };
        proof {
            lemma_section_view(sec);
            lemma_section_view(&r);
        }
        r
    }

    /// A list of sections, each rewritten.
    fn fold_sections(&mut self, ss: &Vec<FragmentSection>, embeds: &Vec<(Id, FileAst)>) -> (r: Vec<FragmentSection>)
        ensures
            final(self).path_stack@ == old(self).path_stack@,
            sections_view(r@) == ds_sections(old(self).ctx(embeds@), sections_view(ss@)),
        decreases ss,
    {
        let ghost ctx = self.ctx(embeds@);
        let ghost view = sections_view(ss@);
        let ghost stack = self.path_stack@;
        let mut out: Vec<FragmentSection> = Vec::new();
        let mut i: usize = 0;
        while i < ss.len()
            invariant
                i <= ss@.len(),
                view == sections_view(ss@),
                self.path_stack@ == stack,
                ctx == self.ctx(embeds@),
                sections_view(out@) == ds_sections(ctx, view.take(i as int)),
            decreases ss@.len() - i,
        {
            assert(decreases_to!(ss => ss@[i as int]));
            let sec = self.fold_section(&ss[i], embeds);
            let ghost before = out@;
            out.push(sec);
            proof {
                assert(view.take(i as int + 1).drop_last() =~= view.take(i as int));
                assert(sections_view(out@) =~= sections_view(before).push(sec@));
            }
            i = i + 1;
        }
        proof {
            assert(view.take(i as int) =~= view);
        }
        out
    }

    /// A component's content, rewritten; a reference that names an
    /// embedded diagram becomes a copy of it.
    fn fold_content(&mut self, c: &ComponentContent, embeds: &Vec<(Id, FileAst)>) -> (r: ComponentContent)
        ensures
            final(self).path_stack@ == old(self).path_stack@,
            r@ == ds_content(old(self).ctx(embeds@), c@),
        decreases c,
    {
        proof {
            lemma_content_view(c);
        }
        let r = match c {
            ComponentContent::Empty => ComponentContent::Empty,
            ComponentContent::Scope(es) => ComponentContent::Scope(self.fold_elements_in(es, embeds)),
            ComponentContent::Diagram(DiagramSource::Inline(f)) => ComponentContent::Diagram(
                DiagramSource::Inline(Box::new(self.fold_file_in(f)))),
            ComponentContent::Diagram(DiagramSource::Ref(id)) => {
                match embed_find(embeds, id.inner()) {
                    Some(k) => ComponentContent::Diagram(
                        DiagramSource::Inline(Box::new(crate::ast::clone_file_ast(&embeds[k].1)))),
                    None => ComponentContent::Diagram(DiagramSource::Ref(id.duplicate())),
                }
            },
        };
        proof {
            lemma_content_view(&r);
        }
        r
    }

    /// One element, rewritten (activate blocks in a list are spliced by
    /// [`Desugar::fold_elements_in`]).
    fn fold_element_in(&mut self, e: &Element, embeds: &Vec<(Id, FileAst)>) -> (r: Element)
        ensures
            final(self).path_stack@ == old(self).path_stack@,
            r@ == ds_element(old(self).ctx(embeds@), e@),
        decreases e,
    {
        proof {
            lemma_element_view(e);
            reveal_strlit("Arrow");
            reveal_strlit("Activate");
            reveal_strlit("Fragment");
            reveal_strlit("Note");
        }
        let ghost ctx = self.ctx(embeds@);
        let r = match e {
            Element::Component { name, display_name, type_spec, content } => {
                let ghost stack = self.path_stack@;
                self.path_stack.push(name.inner().clone());
                proof {
                    assert(self.spec_path() =~= ctx.path.push(qualify_id(ctx.path, name@.value)));
                }
                let content2 = self.fold_content(content, embeds);
                self.path_stack.pop();
                proof {
                    assert(self.path_stack@ =~= stack);
                }
                Element::Component {
                    name: self.fold_identifier(name),
                    display_name: match display_name {
                        Some(d) => Some(d.duplicate()),
                        None => None,
                    },
                    type_spec: self.fold_type_spec(type_spec),
                    content: content2,
                }
            },
            Element::Relation { source, target, relation_type, type_spec, label } => Element::Relation {
                source: self.fold_identifier(source),
                target: self.fold_identifier(target),
                relation_type: relation_type.duplicate(),
                type_spec: self.fold_defaulted_type_spec(type_spec, crate::builtin_types::ARROW),
                label: match label {
                    Some(l) => Some(l.duplicate()),
                    None => None,
                },
            },
            Element::ActivateBlock { component, type_spec, elements } => Element::ActivateBlock {
                component: self.fold_identifier(component),
                type_spec: self.fold_defaulted_type_spec(type_spec, crate::builtin_types::ACTIVATE),
                elements: self.fold_elements_in(elements, embeds),
            },
            Element::Activate { component, type_spec } => Element::Activate {
                component: self.fold_identifier(component),
                type_spec: self.fold_defaulted_type_spec(type_spec, crate::builtin_types::ACTIVATE),
            },
            Element::Deactivate { component } => Element::Deactivate { component: self.fold_identifier(component) },
            Element::Fragment(fr) => {
                proof {
                    lemma_fragment_view(fr);
                }
                let nf = Fragment {
                    operation: fr.operation.duplicate(),
                    type_spec: self.fold_defaulted_type_spec(&fr.type_spec, crate::builtin_types::FRAGMENT),
                    sections: self.fold_sections(&fr.sections, embeds),
                };
                proof {
                    lemma_fragment_view(&nf);
                }
                Element::Fragment(nf)
            },
            Element::AltElseBlock { keyword_span, type_spec, sections } => {
                let sections2 = self.fold_sections(sections, embeds);
                self.sugar(String::from_str("alt"), *keyword_span, type_spec, sections2)
            },
            Element::OptBlock { keyword_span, type_spec, section } => {
                let sections2 = one_section(self.fold_section(section, embeds));
                self.sugar(String::from_str("opt"), *keyword_span, type_spec, sections2)
            },
            Element::LoopBlock { keyword_span, type_spec, section } => {
                let sections2 = one_section(self.fold_section(section, embeds));
                self.sugar(String::from_str("loop"), *keyword_span, type_spec, sections2)
            },
            Element::ParBlock { keyword_span, type_spec, sections } => {
                let sections2 = self.fold_sections(sections, embeds);
                self.sugar(String::from_str("par"), *keyword_span, type_spec, sections2)
            },
            Element::BreakBlock { keyword_span, type_spec, section } => {
                let sections2 = one_section(self.fold_section(section, embeds));
                self.sugar(String::from_str("break"), *keyword_span, type_spec, sections2)
            },
            Element::CriticalBlock { keyword_span, type_spec, section } => {
                let sections2 = one_section(self.fold_section(section, embeds));
                self.sugar(String::from_str("critical"), *keyword_span, type_spec, sections2)
            },
            Element::Note(n) => Element::Note(Note {
                type_spec: self.fold_defaulted_type_spec(&n.type_spec, crate::builtin_types::NOTE),
                content: n.content.duplicate(),
            }),
        };
        proof {
            lemma_element_view(&r);
            reveal_strlit("alt");
            reveal_strlit("opt");
            reveal_strlit("loop");
            reveal_strlit("par");
            reveal_strlit("break");
            reveal_strlit("critical");
        }
        r
    }

    /// The fragment that a sugar block becomes.
    fn sugar(&self, op: String, keyword_span: Span, type_spec: &TypeSpec, sections: Vec<FragmentSection>) -> (r: Element)
        ensures
            r@ == ElementView::Fragment(FragmentView {
                operation: SpannedView { value: op@, span: keyword_span },
                type_spec: ds_type_spec(self.spec_path(), default_type(type_spec@, "Fragment"@)),
                sections: sections_view(sections@),
            }),
    {
        proof {
            reveal_strlit("Fragment");
        }
        let f = Fragment {
            operation: Spanned::new(op, keyword_span),
            type_spec: self.fold_defaulted_type_spec(type_spec, crate::builtin_types::FRAGMENT),
            sections,
        };
        proof {
            lemma_fragment_view(&f);
        }
        let r = Element::Fragment(f);
        proof {
            lemma_element_view(&r);
        }
        r
    }

    /// Imports, each file rewritten.
    fn fold_imports(&mut self, imports: &Vec<Import>) -> (r: Vec<Import>)
        ensures
            final(self).path_stack@ == old(self).path_stack@,
            imports_view(r@) == ds_imports(old(self).spec_path(), imports_view(imports@)),
        decreases imports,
    {
        let ghost path = self.spec_path();
        let ghost view = imports_view(imports@);
        let ghost stack = self.path_stack@;
        let mut out: Vec<Import> = Vec::new();
        let mut i: usize = 0;
        while i < imports.len()
            invariant
                i <= imports@.len(),
                view == imports_view(imports@),
                self.path_stack@ == stack,
                path == self.spec_path(),
                imports_view(out@) == ds_imports(path, view.take(i as int)),
            decreases imports@.len() - i,
        {
            let imp = &imports[i];
            assert(decreases_to!(imports => imports@[i as int]));
            let file = self.fold_file_in(&imp.file_ast);
            let namespace = match &imp.namespace {
                Some(ns) => Some(ns.clone()),
                None => None,
            };
            let ni = Import { namespace, file_ast: Box::new(file) };
            proof {
                lemma_import_view(imp);
                lemma_import_view(&ni);
                assert(view.take(i as int + 1).drop_last() =~= view.take(i as int));
            }
            let ghost before = out@;
            out.push(ni);
            proof {
                assert(imports_view(out@) =~= imports_view(before).push(ni@));
            }
            i = i + 1;
        }
        proof {
            assert(view.take(i as int) =~= view);
        }
        out
    }

    /// A file, rewritten.
    fn fold_file_in(&mut self, f: &FileAst) -> (r: FileAst)
        ensures
            final(self).path_stack@ == old(self).path_stack@,
            r@ == ds_file(old(self).spec_path(), f@),
        decreases f,
    {
        proof {
            lemma_file_view(f);
        }
        let imports = self.fold_imports(&f.imports);
        let ghost folded = imports_view(imports@);
        let (lib, embeds) = split_imports(imports);
        let defs = merge_with_import_type_definitions(&f.type_definitions, &lib);
        let header = self.fold_header(&f.header);
        let type_definitions = self.fold_type_definitions(&defs);
        let elements = self.fold_elements_in(&f.elements, &embeds);
        let r = FileAst {
            header,
            import_decls: clone_import_decls(&f.import_decls),
            imports: Vec::new(),
            type_definitions,
            elements,
        };
        proof {
            lemma_file_view(&r);
            assert(imports_view(r.imports@) =~= Seq::<ImportView>::empty());
        }
        r
    }

    /// Rewrites one element at the current position; no embedded diagram
    /// is registered.
    pub fn fold_element(&mut self, element: Element) -> (r: Element)
        ensures
            final(self).spec_path() == old(self).spec_path(),
            r@ == ds_element(DsCtx { path: old(self).spec_path(), embeds: Seq::empty() }, element@),
    {
        let embeds: Vec<(Id, FileAst)> = Vec::new();
        proof {
            assert(embeds_view(embeds@) =~= Seq::<(IdView, FileAstView)>::empty());
        }
        self.fold_element_in(&element, &embeds)
    }

    /// Rewrites a list of elements at the current position; no embedded
    /// diagram is registered.
    pub fn fold_elements(&mut self, elements: Vec<Element>) -> (r: Vec<Element>)
        ensures
            final(self).spec_path() == old(self).spec_path(),
            elements_view(r@) == ds_elements(DsCtx { path: old(self).spec_path(), embeds: Seq::empty() }, elements_view(elements@)),
    {
        let embeds: Vec<(Id, FileAst)> = Vec::new();
        proof {
            assert(embeds_view(embeds@) =~= Seq::<(IdView, FileAstView)>::empty());
        }
        self.fold_elements_in(&elements, &embeds)
    }

    /// Rewrites a file at the current position.
    pub fn fold_file_ast(&mut self, file_ast: FileAst) -> (r: FileAst)
        ensures
            final(self).spec_path() == old(self).spec_path(),
            r@ == ds_file(old(self).spec_path(), file_ast@),
    {
        self.fold_file_in(&file_ast)
    }
}


/// Desugars a parsed root file (see the module documentation).
pub fn desugar(ast: FileAst) -> (r: FileAst)
    ensures
        r@ == desugar_view(ast@),
{
    let mut folder = Desugar::new();
    folder.fold_file_ast(ast)
}

// ---------------------------------------------------------------------------
// What a desugared file looks like
// ---------------------------------------------------------------------------

/// An element of the core language: no activate block and no fragment
/// sugar, and every relation, activation, fragment and note names its base
/// type; nested content is core too.
pub open spec fn is_core_element(e: ElementView) -> bool
    decreases e,
{
    match e {
        ElementView::Component { content, .. } => is_core_content(content),
        ElementView::Relation { type_spec, .. } => type_spec.base_type is Some,
        ElementView::Activate { type_spec, .. } => type_spec.base_type is Some,
        ElementView::Deactivate { .. } => true,
        ElementView::Fragment(fr) => fr.type_spec.base_type is Some && is_core_sections(fr.sections),
        ElementView::Note(n) => n.type_spec.base_type is Some,
        _ => false,
    }
}

/// Every element of the list is core.
pub open spec fn is_core_elements(s: Seq<ElementView>) -> bool
    decreases s,
{
    forall|i: int| 0 <= i < s.len() ==> is_core_element(#[trigger] s[i])
}

/// Every section's elements are core.
pub open spec fn is_core_sections(s: Seq<FragmentSectionView>) -> bool
    decreases s,
{
    forall|i: int| 0 <= i < s.len() ==> is_core_elements(#[trigger] s[i].elements)
}

/// A component's content is core: nested elements and inline diagrams.
pub open spec fn is_core_content(c: ComponentContentView) -> bool
    decreases c,
{
    match c {
        ComponentContentView::Scope(es) => is_core_elements(es),
        ComponentContentView::Diagram(DiagramSourceView::Inline(f)) => is_core_file(f),
        _ => true,
    }
}

/// A file of the core language: no import is left and every element is
/// core.
pub open spec fn is_core_file(f: FileAstView) -> bool
    decreases f,
{
    f.imports.len() == 0 && is_core_elements(f.elements)
}

/// Every embedded diagram of a table is core.
pub open spec fn core_embeds(embeds: Seq<(IdView, FileAstView)>) -> bool {
    forall|i: int| 0 <= i < embeds.len() ==> is_core_file(#[trigger] embeds[i].1)
}

/// A diagram found in a table is one of its entries.
proof fn lemma_embed_lookup_core(embeds: Seq<(IdView, FileAstView)>, id: IdView)
    requires
        core_embeds(embeds),
    ensures
        embed_lookup(embeds, id) matches Some(f) ==> is_core_file(f),
    decreases embeds.len(),
{
    if embeds.len() > 0 && embeds.last().0 != id {
        lemma_embed_lookup_core(embeds.drop_last(), id);
    }
}

/// The embedded diagrams of core imports are core.
proof fn lemma_embed_table_core(imports: Seq<ImportView>)
    requires
        forall|i: int| 0 <= i < imports.len() ==> is_core_file(#[trigger] imports[i].file_ast),
    ensures
        core_embeds(embed_table(imports)),
    decreases imports.len(),
{
    if imports.len() > 0 {
        lemma_embed_table_core(imports.drop_last());
    }
}

/// Rewritten imports are core files.
proof fn lemma_core_imports(path: Seq<IdView>, s: Seq<ImportView>)
    ensures
        forall|i: int| 0 <= i < ds_imports(path, s).len() ==> is_core_file(#[trigger] ds_imports(path, s)[i].file_ast),
        ds_imports(path, s).len() == s.len(),
    decreases s,
{
    if s.len() > 0 {
        lemma_core_imports(path, s.drop_last());
        lemma_core_file(path, s.last().file_ast);
    }
}

/// A rewritten file is core.
proof fn lemma_core_file(path: Seq<IdView>, f: FileAstView)
    ensures
        is_core_file(ds_file(path, f)),
    decreases f,
{
    let imports = ds_imports(path, f.imports);
    lemma_core_imports(path, f.imports);
    lemma_embed_table_core(imports);
    lemma_core_elements(DsCtx { path, embeds: embed_table(imports) }, f.elements);
}

/// Rewritten elements are core.
proof fn lemma_core_elements(ctx: DsCtx, s: Seq<ElementView>)
    requires
        core_embeds(ctx.embeds),
    ensures
        is_core_elements(ds_elements(ctx, s)),
    decreases s,
{
    if s.len() > 0 {
        let prev = ds_elements(ctx, s.drop_last());
        lemma_core_elements(ctx, s.drop_last());
        match s.last() {
            ElementView::ActivateBlock { component, type_spec, elements } => {
                lemma_core_elements(ctx, elements);
                let c = ds_identifier(ctx.path, component);
                let act = ElementView::Activate {
                    component: c,
                    type_spec: ds_type_spec(ctx.path, default_type(type_spec, "Activate"@)),
                };
                let r = prev.push(act) + ds_elements(ctx, elements) + seq![ElementView::Deactivate { component: c }];
                assert(is_core_element(act));
                assert(is_core_element(ElementView::Deactivate { component: c }));
                assert forall|i: int| 0 <= i < r.len() implies is_core_element(#[trigger] r[i]) by {
                    if i < prev.len() {
                        assert(r[i] == prev[i]);
                    } else if i == prev.len() {
                        assert(r[i] == act);
                    } else if i < prev.len() + 1 + ds_elements(ctx, elements).len() {
                        assert(r[i] == ds_elements(ctx, elements)[i - prev.len() - 1]);
                    }
                }
            },
            _ => {
                lemma_core_element(ctx, s.last());
                let r = prev.push(ds_element(ctx, s.last()));
                assert forall|i: int| 0 <= i < r.len() implies is_core_element(#[trigger] r[i]) by {
                    if i < prev.len() {
                        assert(r[i] == prev[i]);
                    }
                }
            },
        }
    }
}

/// A rewritten section is core.
proof fn lemma_core_section(ctx: DsCtx, sec: FragmentSectionView)
    requires
        core_embeds(ctx.embeds),
    ensures
        is_core_elements(ds_section(ctx, sec).elements),
    decreases sec,
{
    lemma_core_elements(ctx, sec.elements);
}

/// Rewritten sections are core.
proof fn lemma_core_sections(ctx: DsCtx, s: Seq<FragmentSectionView>)
    requires
        core_embeds(ctx.embeds),
    ensures
        is_core_sections(ds_sections(ctx, s)),
    decreases s,
{
    if s.len() > 0 {
        lemma_core_sections(ctx, s.drop_last());
        lemma_core_section(ctx, s.last());
        let prev = ds_sections(ctx, s.drop_last());
        let r = prev.push(ds_section(ctx, s.last()));
        assert forall|i: int| 0 <= i < r.len() implies is_core_elements(#[trigger] r[i].elements) by {
            if i < prev.len() {
                assert(r[i] == prev[i]);
            }
        }
    }
}

/// Rewritten content is core.
proof fn lemma_core_content(ctx: DsCtx, c: ComponentContentView)
    requires
        core_embeds(ctx.embeds),
    ensures
        is_core_content(ds_content(ctx, c)),
    decreases c,
{
    match c {
        ComponentContentView::Scope(es) => lemma_core_elements(ctx, es),
        ComponentContentView::Diagram(DiagramSourceView::Inline(f)) => lemma_core_file(ctx.path, f),
        ComponentContentView::Diagram(DiagramSourceView::Ref(id)) => lemma_embed_lookup_core(ctx.embeds, id.value),
        _ => {},
    }
}

/// A rewritten element other than an activate block is core.
proof fn lemma_core_element(ctx: DsCtx, e: ElementView)
    requires
        core_embeds(ctx.embeds),
        !(e is ActivateBlock),
    ensures
        is_core_element(ds_element(ctx, e)),
    decreases e,
{
    match e {
        ElementView::Component { name, content, .. } => {
            lemma_core_content(DsCtx { path: ctx.path.push(qualify_id(ctx.path, name.value)), embeds: ctx.embeds }, content);
        },
        ElementView::Fragment(fr) => lemma_core_sections(ctx, fr.sections),
        ElementView::AltElseBlock { sections, .. } => lemma_core_sections(ctx, sections),
        ElementView::ParBlock { sections, .. } => lemma_core_sections(ctx, sections),
        ElementView::OptBlock { section, .. } => {
            lemma_core_section(ctx, section);
            assert(is_core_sections(seq![ds_section(ctx, section)]));
        },
        ElementView::LoopBlock { section, .. } => {
            lemma_core_section(ctx, section);
            assert(is_core_sections(seq![ds_section(ctx, section)]));
        },
        ElementView::BreakBlock { section, .. } => {
            lemma_core_section(ctx, section);
            assert(is_core_sections(seq![ds_section(ctx, section)]));
        },
        ElementView::CriticalBlock { section, .. } => {
            lemma_core_section(ctx, section);
            assert(is_core_sections(seq![ds_section(ctx, section)]));
        },
        _ => {},
    }
}

/// Desugaring yields the core language: no activate block or fragment
/// sugar is left at any depth, every relation, activation, fragment and
/// note names a base type, and no import is left, in the file and in every
/// diagram embedded in it.
pub proof fn lemma_desugar_is_core(f: FileAstView)
    ensures
        is_core_file(desugar_view(f)),
{
    lemma_core_file(Seq::empty(), f);
}


// ---------------------------------------------------------------------------
// Merging type definitions by name
// ---------------------------------------------------------------------------

/// The position of the last definition named `id`.
pub open spec fn last_definition_position(s: Seq<TypeDefinitionView>, id: IdView) -> Option<int>
    decreases s.len(),
{
    if s.len() == 0 {
        None
    } else if s.last().name.value == id {
        Some(s.len() - 1)
    } else {
        last_definition_position(s.drop_last(), id)
    }
}

/// What the first-position lookup finds: the first definition with that
/// name, or none at all.
proof fn lemma_first_position(s: Seq<TypeDefinitionView>, id: IdView)
    ensures
        match definition_position(s, id) {
            Some(p) => 0 <= p < s.len() && s[p].name.value == id
                && forall|q: int| 0 <= q < p ==> (#[trigger] s[q]).name.value != id,
            None => forall|q: int| 0 <= q < s.len() ==> (#[trigger] s[q]).name.value != id,
        },
    decreases s.len(),
{
    if s.len() > 0 {
        lemma_first_position(s.drop_last(), id);
        assert forall|q: int| 0 <= q < s.len() - 1 implies (#[trigger] s[q]) == s.drop_last()[q] by {}
    }
}

/// What the last-position lookup finds: the last definition with that
/// name, or none at all.
proof fn lemma_last_position(s: Seq<TypeDefinitionView>, id: IdView)
    ensures
        match last_definition_position(s, id) {
            Some(p) => 0 <= p < s.len() && s[p].name.value == id
                && forall|q: int| p < q < s.len() ==> (#[trigger] s[q]).name.value != id,
            None => forall|q: int| 0 <= q < s.len() ==> (#[trigger] s[q]).name.value != id,
        },
    decreases s.len(),
{
    if s.len() > 0 {
        lemma_last_position(s.drop_last(), id);
        assert forall|q: int| 0 <= q < s.len() - 1 implies (#[trigger] s[q]) == s.drop_last()[q] by {}
    }
}

/// Lists with the same names, position by position, find a name at the
/// same position.
proof fn lemma_same_names_same_position(a: Seq<TypeDefinitionView>, b: Seq<TypeDefinitionView>, id: IdView)
    requires
        a.len() == b.len(),
        forall|j: int| 0 <= j < a.len() ==> (#[trigger] a[j]).name.value == b[j].name.value,
    ensures
        definition_position(a, id) == definition_position(b, id),
    decreases a.len(),
{
    if a.len() > 0 {
        lemma_same_names_same_position(a.drop_last(), b.drop_last(), id);
        assert(a.last().name.value == b.last().name.value);
    }
}

/// The merge of type definitions by name ("first position, last value"):
/// - no name occurs twice;
/// - every name of the input occurs;
/// - each name holds the last definition given for it;
/// - names come in the order of their first definition in the input.
pub proof fn lemma_merge_first_position_last_value(s: Seq<TypeDefinitionView>)
    ensures
        ({
            let m = merge_type_definitions(s);
            &&& forall|i: int, j: int| 0 <= i < j < m.len() ==> (#[trigger] m[i]).name.value != (#[trigger] m[j]).name.value
            &&& forall|k: int| 0 <= k < s.len() ==> definition_position(m, (#[trigger] s[k]).name.value) is Some
            &&& forall|j: int| 0 <= j < m.len() ==>
                (last_definition_position(s, (#[trigger] m[j]).name.value) matches Some(p) && m[j] == s[p])
            &&& forall|i: int, j: int| 0 <= i < j < m.len() ==>
                (definition_position(s, (#[trigger] m[i]).name.value) matches Some(pi)
                && definition_position(s, (#[trigger] m[j]).name.value) matches Some(pj) && pi < pj)
        }),
    decreases s.len(),
{
    if s.len() == 0 {
        return;
    }
    let s0 = s.drop_last();
    let td = s.last();
    let id = td.name.value;
    let m = merge_type_definitions(s0);
    lemma_merge_first_position_last_value(s0);
    lemma_first_position(m, id);
    let m2 = merge_type_definitions(s);
    assert(forall|q: int| 0 <= q < s0.len() ==> (#[trigger] s0[q]) == s[q]);
    // Positions in the input, before and after the new definition.
    assert forall|x: IdView| #[trigger] definition_position(s, x) == (match definition_position(s0, x) {
        Some(p) => Some(p),
        None => if x == id { Some(s.len() - 1) } else { None },
    }) by {
        assert(s.drop_last() == s0);
    }
    assert forall|x: IdView| x != id implies #[trigger] last_definition_position(s, x) == last_definition_position(s0, x) by {
    }
    assert(last_definition_position(s, id) == Some(s.len() - 1));
    match definition_position(m, id) {
        Some(j0) => {
            assert(m2 == m.update(j0, td));
            assert forall|j: int| 0 <= j < m.len() implies (#[trigger] m2[j]).name.value == m[j].name.value by {}
            assert forall|i: int, j: int| 0 <= i < j < m2.len() implies
                (#[trigger] m2[i]).name.value != (#[trigger] m2[j]).name.value by {
                assert(m2[i].name.value == m[i].name.value);
                assert(m2[j].name.value == m[j].name.value);
            }
            assert forall|k: int| 0 <= k < s.len() implies definition_position(m2, (#[trigger] s[k]).name.value) is Some by {
                lemma_same_names_same_position(m2, m, s[k].name.value);
                if k < s0.len() {
                    assert(s[k] == s0[k]);
                }
            }
            assert forall|j: int| 0 <= j < m2.len() implies
                (last_definition_position(s, (#[trigger] m2[j]).name.value) matches Some(p) && m2[j] == s[p]) by {
                if j != j0 {
                    assert(m2[j] == m[j]);
                    let x = m[j].name.value;
                    assert(x != m[j0].name.value);
                    assert(last_definition_position(s, x) == last_definition_position(s0, x));
                    lemma_last_position(s0, x);
                    let p = last_definition_position(s0, x)->0;
                    assert(s[p] == s0[p]);
                } else {
                    assert(m2[j] == td);
                    assert(s[s.len() - 1] == td);
                }
            }
            assert forall|i: int, j: int| 0 <= i < j < m2.len() implies
                (definition_position(s, (#[trigger] m2[i]).name.value) matches Some(pi)
                && definition_position(s, (#[trigger] m2[j]).name.value) matches Some(pj) && pi < pj) by {
                assert(m2[i].name.value == m[i].name.value);
                assert(m2[j].name.value == m[j].name.value);
                lemma_last_position(s0, m[i].name.value);
                lemma_last_position(s0, m[j].name.value);
                lemma_first_position(s0, m[i].name.value);
                lemma_first_position(s0, m[j].name.value);
            }
        },
        None => {
            assert(m2 == m.push(td));
            // The new name is nowhere in the earlier input.
            assert forall|q: int| 0 <= q < s0.len() implies (#[trigger] s0[q]).name.value != id by {
                assert(definition_position(m, s0[q].name.value) is Some);
                lemma_first_position(m, s0[q].name.value);
            }
            lemma_first_position(s0, id);
            assert forall|i: int, j: int| 0 <= i < j < m2.len() implies
                (#[trigger] m2[i]).name.value != (#[trigger] m2[j]).name.value by {
                if j == m.len() {
                    assert(m2[i] == m[i]);
                }
            }
            assert forall|k: int| 0 <= k < s.len() implies definition_position(m2, (#[trigger] s[k]).name.value) is Some by {
                if k < s0.len() {
                    assert(s[k] == s0[k]);
                    assert(m2.drop_last() == m);
                }
            }
            assert forall|j: int| 0 <= j < m2.len() implies
                (last_definition_position(s, (#[trigger] m2[j]).name.value) matches Some(p) && m2[j] == s[p]) by {
                if j < m.len() {
                    assert(m2[j] == m[j]);
                    let x = m[j].name.value;
                    lemma_last_position(s0, x);
                    let p = last_definition_position(s0, x)->0;
                    assert(x != id) by {
                        assert(s0[p].name.value == x);
                    }
                    assert(last_definition_position(s, x) == last_definition_position(s0, x));
                    assert(s[p] == s0[p]);
                } else {
                    assert(m2[j] == td);
                    assert(s[s.len() - 1] == td);
                }
            }
            assert forall|i: int, j: int| 0 <= i < j < m2.len() implies
                (definition_position(s, (#[trigger] m2[i]).name.value) matches Some(pi)
                && definition_position(s, (#[trigger] m2[j]).name.value) matches Some(pj) && pi < pj) by {
                assert(m2[i] == m[i]);
                lemma_last_position(s0, m[i].name.value);
                lemma_first_position(s0, m[i].name.value);
                if j < m.len() {
                    assert(m2[j] == m[j]);
                    lemma_last_position(s0, m[j].name.value);
                    lemma_first_position(s0, m[j].name.value);
                }
            }
        },
    }
}

} // verus!
