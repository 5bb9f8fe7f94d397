//! Semantic validation of a desugared syntax tree.
//!
//! The validator walks a [`FileAst`] and reports:
//!
//! - references to components that are not defined (`E200`);
//! - `activate` statements without a later `deactivate` (`E201`), and
//!   `deactivate` statements without an earlier `activate` (`E202`);
//! - note `align` values that do not suit the diagram kind (`E203`);
//! - embedded-diagram references that no import resolved (`E204`);
//! - base types that are neither built in nor defined earlier (`E205`).
//!
//! Every file (the root, each import, each inline embedded diagram) is
//! checked with its own registries. All findings are collected; validation
//! fails when there is at least one.
use vstd::prelude::*;
use crate::ast::{
    AttributeValue, AttributeValueView, AttributeView, ComponentContent, ComponentContentView,
    DiagramSource, DiagramSourceView, Element, ElementView, FileAst, FileAstView, FileHeader,
    FileHeaderView, FragmentSection, FragmentSectionView, Import, ImportView, TypeDefinition,
    TypeDefinitionView, TypeSpec, TypeSpecView, Attribute, attributes_view, elements_view, ids_view,
    imports_view, sections_view, type_definitions_view,
};
use crate::builtin_types::{builtin_id, builtin_names, ids};
use crate::error::{Diagnostic, DiagnosticCollector, ErrorCode, Severity};
use crate::identifier::{Id, IdView};
use crate::semantic::DiagramKind;
use crate::span::{Span, Spanned, SpannedView};
use crate::strings::{concat3, str_eq};

verus! {

broadcast use crate::ast::group_elements_view;

// ---------------------------------------------------------------------------
// Findings
// ---------------------------------------------------------------------------

/// What a diagnostic reports: its code, message, primary label and help.
pub struct Finding {
    pub code: ErrorCode,
    pub message: Seq<char>,
    pub span: Span,
    pub label: Seq<char>,
    pub help: Option<Seq<char>>,
}

/// Whether the diagnostic `d` is the error that reports `f`.
pub open spec fn describes(d: Diagnostic, f: Finding) -> bool {
    &&& d.spec_severity() == Severity::Error
    &&& d.spec_code() == Some(f.code)
    &&& d.spec_message() == f.message
    &&& d.spec_labels().len() == 1
    &&& d.spec_labels()[0].spec_span() == f.span
    &&& d.spec_labels()[0].spec_message() == f.label
    &&& d.spec_labels()[0].spec_primary()
    &&& d.spec_help() == f.help
}

/// Whether the diagnostics `ds` report the findings `fs`, one for one.
pub open spec fn reports(ds: Seq<Diagnostic>, fs: Seq<Finding>) -> bool {
    ds.len() == fs.len() && forall|i: int| 0 <= i < ds.len() ==> describes(#[trigger] ds[i], fs[i])
}

/// `E200`: a reference to a component that is not defined.
pub open spec fn undefined_component(id: SpannedView<IdView>) -> Finding {
    Finding {
        code: ErrorCode::E200,
        message: "component `"@ + id.value.full_path() + "` not found"@,
        span: id.span,
        label: "undefined component"@,
        help: Some("component must be defined before it can be referenced"@),
    }
}

/// `E201`: a component activated but never deactivated.
pub open spec fn unpaired_activate(id: IdView, span: Span) -> Finding {
    Finding {
        code: ErrorCode::E201,
        message: "component `"@ + id.full_path() + "` was activated but never deactivated"@,
        span,
        label: "unpaired activate"@,
        help: Some("every activate statement must have a corresponding deactivate statement"@),
    }
}

/// `E202`: a deactivation without a matching activation.
pub open spec fn unpaired_deactivate(id: SpannedView<IdView>) -> Finding {
    Finding {
        code: ErrorCode::E202,
        message: "cannot deactivate component `"@ + id.value.full_path() + "`: no matching activate statement"@,
        span: id.span,
        label: "unpaired deactivate"@,
        help: Some("deactivate statements must be preceded by a corresponding activate statement"@),
    }
}

/// The align values allowed in sequence diagrams.
pub open spec fn sequence_align(v: Seq<char>) -> bool {
    v == "over"@ || v == "left"@ || v == "right"@
}

/// The align values allowed in component diagrams.
pub open spec fn component_align(v: Seq<char>) -> bool {
    v == "left"@ || v == "right"@ || v == "top"@ || v == "bottom"@
}

/// `E203`: the findings for a note's align value.
pub open spec fn align_findings(kind: Option<DiagramKind>, v: Seq<char>, span: Span) -> Seq<Finding> {
    match kind {
        Some(DiagramKind::Sequence) => if sequence_align(v) {
            Seq::empty()
        } else {
            seq![Finding {
                code: ErrorCode::E203,
                message: "invalid align value `"@ + v + "` for sequence diagram"@,
                span,
                label: "invalid align value"@,
                help: Some("valid values: over, left, right"@),
            }]
        },
        Some(DiagramKind::Component) => if component_align(v) {
            Seq::empty()
        } else {
            seq![Finding {
                code: ErrorCode::E203,
                message: "invalid align value `"@ + v + "` for component diagram"@,
                span,
                label: "invalid align value"@,
                help: Some("valid values: left, right, top, bottom"@),
            }]
        },
        None => seq![Finding {
            code: ErrorCode::E203,
            message: "diagram type not set, cannot validate align attribute"@,
            span,
            label: "missing diagram type"@,
            help: None,
        }],
    }
}

/// `E204`: an embedded-diagram reference that was not resolved.
pub open spec fn unknown_embed(id: SpannedView<IdView>) -> Finding {
    Finding {
        code: ErrorCode::E204,
        message: "unknown embed reference `"@ + id.value.full_path() + "`"@,
        span: id.span,
        label: "no namespaced import matches this identifier"@,
        help: Some("add a namespaced import: `import \"diagram_file\";` or `import \"path\" as name;`"@),
    }
}

/// `E205`: a base type that is neither built in nor defined.
pub open spec fn unknown_base_type(id: SpannedView<IdView>) -> Finding {
    Finding {
        code: ErrorCode::E205,
        message: "unknown base type `"@ + id.value.full_path() + "`"@,
        span: id.span,
        label: "unknown base type"@,
        help: Some("type `"@ + id.value.full_path()
            + "` must be a built-in type or defined with a `type` statement before it can be used as a base type"@),
    }
}

// ---------------------------------------------------------------------------
// The state of a file's check
// ---------------------------------------------------------------------------

/// What the validation of one file knows at a point of the walk.
pub struct VState {
    /// Known type names: the built-ins, then each defined type.
    pub types: Seq<IdView>,
    /// Components defined so far.
    pub components: Seq<IdView>,
    /// Open activations: for each component, the spans of its pending
    /// `activate` statements, oldest first.
    pub stack: Seq<(IdView, Seq<Span>)>,
    /// The kind of the diagram, once its header has been seen.
    pub kind: Option<DiagramKind>,
}

/// The state at the start of a file's check.
pub open spec fn fresh_state() -> VState {
    VState {
        types: Seq::new(builtin_names().len(), |i: int| builtin_id(builtin_names()[i])),
        components: Seq::empty(),
        stack: Seq::empty(),
        kind: None,
    }
}

/// The first entry of the activation stack for `id`.
pub open spec fn stack_find(stack: Seq<(IdView, Seq<Span>)>, id: IdView) -> Option<int>
    decreases stack.len(),
{
    if stack.len() == 0 {
        None
    } else {
        match stack_find(stack.drop_last(), id) {
            Some(i) => Some(i),
            None => if stack.last().0 == id { Some(stack.len() - 1) } else { None },
        }
    }
}

/// The stack after an `activate` of `id` at `span`.
pub open spec fn stack_push(stack: Seq<(IdView, Seq<Span>)>, id: IdView, span: Span) -> Seq<(IdView, Seq<Span>)> {
    match stack_find(stack, id) {
        Some(i) => stack.update(i, (stack[i].0, stack[i].1.push(span))),
        None => stack.push((id, seq![span])),
    }
}

/// Whether `id` has a pending activation.
pub open spec fn stack_can_pop(stack: Seq<(IdView, Seq<Span>)>, id: IdView) -> bool {
    stack_find(stack, id) matches Some(i) && stack[i].1.len() > 0
}

/// The stack after a `deactivate` of `id` that has a pending activation.
pub open spec fn stack_pop(stack: Seq<(IdView, Seq<Span>)>, id: IdView) -> Seq<(IdView, Seq<Span>)> {
    match stack_find(stack, id) {
        Some(i) => stack.update(i, (stack[i].0, stack[i].1.drop_last())),
        None => stack,
    }
}

/// The entry found in a prefix of the stack is the entry found in the stack.
pub proof fn lemma_stack_find_extend(s: Seq<(IdView, Seq<Span>)>, n: int, id: IdView)
    requires
        0 <= n <= s.len(),
        stack_find(s.take(n), id) is Some,
    ensures
        stack_find(s, id) == stack_find(s.take(n), id),
    decreases s.len() - n,
{
    if n < s.len() {
        assert(s.take(n + 1).drop_last() =~= s.take(n));
        lemma_stack_find_extend(s, n + 1, id);
    } else {
        assert(s.take(n) =~= s);
    }
}

/// The entry found in the stack is within it.
pub proof fn lemma_stack_find_bounds(s: Seq<(IdView, Seq<Span>)>, id: IdView)
    ensures
        stack_find(s, id) matches Some(i) ==> 0 <= i < s.len() && s[i].0 == id,
    decreases s.len(),
{
    if s.len() > 0 {
        lemma_stack_find_bounds(s.drop_last(), id);
    }
}

/// The spans of the pending activations of `id`, oldest first (none when
/// it has no entry).
pub open spec fn pending(stack: Seq<(IdView, Seq<Span>)>, id: IdView) -> Seq<Span> {
    match stack_find(stack, id) {
        Some(i) => stack[i].1,
        None => Seq::empty(),
    }
}

/// Changing the spans of an entry keeps every lookup.
proof fn lemma_stack_find_update(s: Seq<(IdView, Seq<Span>)>, i: int, spans: Seq<Span>, id: IdView)
    requires
        0 <= i < s.len(),
    ensures
        stack_find(s.update(i, (s[i].0, spans)), id) == stack_find(s, id),
    decreases s.len(),
{
    let u = s.update(i, (s[i].0, spans));
    if i < s.len() - 1 {
        assert(u.drop_last() =~= s.drop_last().update(i, (s[i].0, spans)));
        lemma_stack_find_update(s.drop_last(), i, spans, id);
    } else {
        assert(u.drop_last() =~= s.drop_last());
    }
}

/// A `deactivate` undoes the `activate` just before it: afterwards every
/// component has the pending activations it had before.
pub proof fn lemma_deactivate_undoes_activate(stack: Seq<(IdView, Seq<Span>)>, id: IdView, span: Span, other: IdView)
    ensures
        pending(stack_pop(stack_push(stack, id, span), id), other) == pending(stack, other),
{
    lemma_stack_find_bounds(stack, id);
    lemma_stack_find_bounds(stack, other);
    match stack_find(stack, id) {
        Some(i) => {
            let pushed = stack.update(i, (stack[i].0, stack[i].1.push(span)));
            lemma_stack_find_update(stack, i, stack[i].1.push(span), id);
            let popped = pushed.update(i, (pushed[i].0, pushed[i].1.drop_last()));
            assert(stack[i].1.push(span).drop_last() =~= stack[i].1);
            assert(popped =~= stack);
        },
        None => {
            let pushed = stack.push((id, seq![span]));
            assert(pushed.drop_last() =~= stack);
            let n = stack.len() as int;
            assert(stack_find(pushed, id) == Some(n));
            let popped = pushed.update(n, (pushed[n].0, pushed[n].1.drop_last()));
            lemma_stack_find_update(pushed, n, pushed[n].1.drop_last(), other);
            if stack_find(stack, other) is None && other == id {
                assert(seq![span].drop_last() =~= Seq::<Span>::empty());
            }
        },
    }
}

/// `E201` for every component left with pending activations, reported at
/// its most recent one.
pub open spec fn unpaired_findings(stack: Seq<(IdView, Seq<Span>)>) -> Seq<Finding>
    decreases stack.len(),
{
    if stack.len() == 0 {
        Seq::empty()
    } else {
        let rest = unpaired_findings(stack.drop_last());
        let (id, spans) = stack.last();
        if spans.len() > 0 {
            rest.push(unpaired_activate(id, spans.last()))
        } else {
            rest
        }
    }
}

// ---------------------------------------------------------------------------
// The specification of the walk
// ---------------------------------------------------------------------------

/// `E200` unless the component is defined.
pub open spec fn check_component(st: VState, id: SpannedView<IdView>) -> Seq<Finding> {
    if st.components.contains(id.value) {
        Seq::empty()
    } else {
        seq![undefined_component(id)]
    }
}

/// `E200` for each undefined component of a list.
pub open spec fn check_ids(st: VState, ids: Seq<SpannedView<IdView>>) -> Seq<Finding>
    decreases ids.len(),
{
    if ids.len() == 0 {
        Seq::empty()
    } else {
        check_ids(st, ids.drop_last()) + check_component(st, ids.last())
    }
}

/// `E205` unless the base type (if any) is known.
pub open spec fn check_base(st: VState, base: Option<SpannedView<IdView>>) -> Seq<Finding> {
    match base {
        Some(b) => if st.types.contains(b.value) {
            Seq::empty()
        } else {
            seq![unknown_base_type(b)]
        },
        None => Seq::empty(),
    }
}

/// The findings of a type specification: its base type, then its
/// attributes' nested type specifications and component lists.
pub open spec fn check_type_spec(st: VState, t: TypeSpecView) -> Seq<Finding>
    decreases t,
{
    check_base(st, t.base_type) + check_attributes(st, t.attributes)
}

/// The findings of a list of attributes.
pub open spec fn check_attributes(st: VState, s: Seq<AttributeView>) -> Seq<Finding>
    decreases s,
{
    if s.len() == 0 {
        Seq::empty()
    } else {
        check_attributes(st, s.drop_last()) + check_value(st, s.last().value)
    }
}

/// The findings of an attribute value.
pub open spec fn check_value(st: VState, v: AttributeValueView) -> Seq<Finding>
    decreases v,
{
    match v {
        AttributeValueView::TypeSpec(t) => check_type_spec(st, t),
        AttributeValueView::Identifiers(ids) => check_ids(st, ids),
        _ => Seq::empty(),
    }
}

/// `E203` findings for the `align` attributes of a note.
pub open spec fn check_aligns(st: VState, s: Seq<AttributeView>) -> Seq<Finding>
    decreases s.len(),
{
    if s.len() == 0 {
        Seq::empty()
    } else {
        let a = s.last();
        check_aligns(st, s.drop_last()) + if a.name.value == "align"@ {
            match a.value {
                AttributeValueView::String(v) => align_findings(st.kind, v.value, v.span),
                _ => Seq::empty(),
            }
        } else {
            Seq::empty()
        }
    }
}

/// Walks a list of elements in order.
pub open spec fn visit_elements(st: VState, s: Seq<ElementView>) -> (VState, Seq<Finding>)
    decreases s,
{
    if s.len() == 0 {
        (st, Seq::empty())
    } else {
        let (st1, f1) = visit_elements(st, s.drop_last());
        let (st2, f2) = visit_element(st1, s.last());
        (st2, f1 + f2)
    }
}

/// Walks the elements of a list of sections in order.
pub open spec fn visit_sections(st: VState, s: Seq<FragmentSectionView>) -> (VState, Seq<Finding>)
    decreases s,
{
    if s.len() == 0 {
        (st, Seq::empty())
    } else {
        let (st1, f1) = visit_sections(st, s.drop_last());
        let (st2, f2) = visit_elements(st1, s.last().elements);
        (st2, f1 + f2)
    }
}

/// Walks one element.
///
/// - A component is registered before its type specification and content
///   are checked; an inline embedded diagram is checked as a file of its
///   own; an unresolved reference is `E204`.
/// - A relation checks its two ends and its type specification.
/// - `activate` checks its component, then opens an activation;
///   `deactivate` checks its component, then closes the most recent
///   activation of that component, or reports `E202`.
/// - Fragments walk their sections; a note also checks its `align` values.
pub open spec fn visit_element(st: VState, e: ElementView) -> (VState, Seq<Finding>)
    decreases e,
{
    match e {
        ElementView::Component { name, type_spec, content, .. } => {
            let st1 = VState { components: st.components.push(name.value), ..st };
            let f = check_type_spec(st1, type_spec);
            match content {
                ComponentContentView::Empty => (st1, f),
                ComponentContentView::Scope(es) => {
                    let (st2, g) = visit_elements(st1, es);
                    (st2, f + g)
                },
                ComponentContentView::Diagram(DiagramSourceView::Inline(file)) => (st1, f + check_file(file)),
                ComponentContentView::Diagram(DiagramSourceView::Ref(id)) => (st1, f.push(unknown_embed(id))),
            }
        },
        ElementView::Relation { source, target, type_spec, .. } => (
            st,
            check_component(st, source) + check_component(st, target) + check_type_spec(st, type_spec),
        ),
        ElementView::ActivateBlock { type_spec, elements, .. } => {
            let f = check_type_spec(st, type_spec);
            let (st2, g) = visit_elements(st, elements);
            (st2, f + g)
        },
        ElementView::Activate { component, type_spec } => (
            VState { stack: stack_push(st.stack, component.value, component.span), ..st },
            check_component(st, component) + check_type_spec(st, type_spec),
        ),
        ElementView::Deactivate { component } => {
            let f = check_component(st, component);
            if stack_can_pop(st.stack, component.value) {
                (VState { stack: stack_pop(st.stack, component.value), ..st }, f)
            } else {
                (st, f.push(unpaired_deactivate(component)))
            }
        },
        ElementView::Fragment(fr) => visit_sections(st, fr.sections),
        ElementView::AltElseBlock { type_spec, sections, .. } => {
            let f = check_type_spec(st, type_spec);
            let (st2, g) = visit_sections(st, sections);
            (st2, f + g)
        },
        ElementView::ParBlock { type_spec, sections, .. } => {
            let f = check_type_spec(st, type_spec);
            let (st2, g) = visit_sections(st, sections);
            (st2, f + g)
        },
        ElementView::OptBlock { type_spec, section, .. } => {
            let f = check_type_spec(st, type_spec);
            let (st2, g) = visit_elements(st, section.elements);
            (st2, f + g)
        },
        ElementView::LoopBlock { type_spec, section, .. } => {
            let f = check_type_spec(st, type_spec);
            let (st2, g) = visit_elements(st, section.elements);
            (st2, f + g)
        },
        ElementView::BreakBlock { type_spec, section, .. } => {
            let f = check_type_spec(st, type_spec);
            let (st2, g) = visit_elements(st, section.elements);
            (st2, f + g)
        },
        ElementView::CriticalBlock { type_spec, section, .. } => {
            let f = check_type_spec(st, type_spec);
            let (st2, g) = visit_elements(st, section.elements);
            (st2, f + g)
        },
        ElementView::Note(n) => (
            st,
            check_type_spec(st, n.type_spec) + check_aligns(st, n.type_spec.attributes),
        ),
    }
}

/// Walks the type definitions: each one's specification is checked, then
/// its name becomes a known type.
pub open spec fn visit_type_definitions(st: VState, s: Seq<TypeDefinitionView>) -> (VState, Seq<Finding>)
    decreases s.len(),
{
    if s.len() == 0 {
        (st, Seq::empty())
    } else {
        let (st1, f1) = visit_type_definitions(st, s.drop_last());
        let td = s.last();
        (VState { types: st1.types.push(td.name.value), ..st1 }, f1 + check_type_spec(st1, td.type_spec))
    }
}

/// The findings of a list of imported files, each checked on its own.
pub open spec fn check_imports(s: Seq<ImportView>) -> Seq<Finding>
    decreases s,
{
    if s.len() == 0 {
        Seq::empty()
    } else {
        check_imports(s.drop_last()) + check_file(s.last().file_ast)
    }
}

/// The state after a file's header.
pub open spec fn header_state(h: FileHeaderView) -> VState {
    match h {
        FileHeaderView::Diagram { kind, .. } => VState { kind: Some(kind.value), ..fresh_state() },
        FileHeaderView::Library { .. } => fresh_state(),
    }
}

/// The findings of a file's header attributes.
pub open spec fn check_header(h: FileHeaderView) -> Seq<Finding> {
    match h {
        FileHeaderView::Diagram { attributes, .. } => check_attributes(header_state(h), attributes),
        FileHeaderView::Library { .. } => Seq::empty(),
    }
}

/// The findings of a file: its header, its imports, its type definitions,
/// its elements, and finally every activation left open.
pub open spec fn check_file(f: FileAstView) -> Seq<Finding>
    decreases f,
{
    let st1 = header_state(f.header);
    let (st2, ft) = visit_type_definitions(st1, f.type_definitions);
    let (st3, fe) = visit_elements(st2, f.elements);
    check_header(f.header) + check_imports(f.imports) + ft + fe + unpaired_findings(st3.stack)
}

// ---------------------------------------------------------------------------
// The validator
// ---------------------------------------------------------------------------

/// The abstract values of a list of identifiers.
pub open spec fn id_list_view(s: Seq<Id>) -> Seq<IdView> {
    Seq::new(s.len(), |i: int| s[i]@)
}

/// The registries of the file being checked.
struct FileAstState {
    type_registry: Vec<Id>,
    activation_stack: Vec<(Id, Vec<Span>)>,
    component_registry: Vec<Id>,
    diagram_kind: Option<DiagramKind>,
}

impl FileAstState {
    closed spec fn view(&self) -> VState {
        VState {
            types: id_list_view(self.type_registry@),
            components: id_list_view(self.component_registry@),
            stack: Seq::new(self.activation_stack@.len(), |i: int|
                (self.activation_stack@[i].0@, self.activation_stack@[i].1@)),
            kind: self.diagram_kind,
        }
    }

    fn new() -> (r: FileAstState)
        ensures
            r.view() == fresh_state(),
    {
        let type_registry = ids();
        let r = FileAstState {
            type_registry,
            activation_stack: Vec::new(),
            component_registry: Vec::new(),
            diagram_kind: None,
        };
        proof {
            assert(r.view().types =~= fresh_state().types);
            assert(r.view().components =~= fresh_state().components);
            assert(r.view().stack =~= fresh_state().stack);
        }
        r
    }
}

/// Whether a list of identifiers holds one equal to `id`.
fn contains_id(v: &Vec<Id>, id: &Id) -> (r: bool)
    ensures
        r == id_list_view(v@).contains(id@),
{
    let mut i: usize = 0;
    while i < v.len()
        invariant
            i <= v@.len(),
            forall|k: int| 0 <= k < i ==> v@[k]@ != id@,
        decreases v@.len() - i,
    {
        if v[i] == *id {
            proof {
                assert(id_list_view(v@)[i as int] == id@);
            }
            return true;
        }
        i = i + 1;
    }
    proof {
        if id_list_view(v@).contains(id@) {
            let k = choose|k: int| 0 <= k < id_list_view(v@).len() && id_list_view(v@)[k] == id@;
            assert(v@[k]@ == id@);
        }
    }
    false
}

/// Checks a syntax tree and collects its findings.
pub struct Validator {
    state: FileAstState,
    diagnostics: DiagnosticCollector,
    findings: Ghost<Seq<Finding>>,
}

impl Validator {
    /// The collected diagnostics report the collected findings.
    pub closed spec fn wf(&self) -> bool {
        reports(self.diagnostics.spec_diagnostics(), self.findings@)
    }

    /// The findings collected so far.
    pub closed spec fn spec_findings(&self) -> Seq<Finding> {
        self.findings@
    }

    /// The diagnostics collected so far.
    pub closed spec fn spec_diagnostics(&self) -> Seq<Diagnostic> {
        self.diagnostics.spec_diagnostics()
    }

    closed spec fn st(&self) -> VState {
        self.state.view()
    }

    /// Creates a validator with no findings and a fresh state.
    pub fn new() -> (r: Validator)
        ensures
            r.wf(),
            r.spec_findings() == Seq::<Finding>::empty(),
    {
        Validator { state: FileAstState::new(), diagnostics: DiagnosticCollector::new(), findings: Ghost(Seq::empty()) }
    }

    /// Records a finding as an error diagnostic.
    fn emit(&mut self, message: &str, code: ErrorCode, span: Span, label: &str, help: Option<&str>, Ghost(f): Ghost<Finding>)
        requires
            old(self).wf(),
            f.code == code,
            f.message == message@,
            f.span == span,
            f.label == label@,
            f.help == match help { Some(h) => Some(h@), None => None::<Seq<char>> },
        ensures
            final(self).wf(),
            final(self).spec_findings() == old(self).spec_findings().push(f),
            final(self).st() == old(self).st(),
    {
        let d = Diagnostic::error(message).with_code(code).with_label(span, label);
        let d = match help {
            Some(h) => d.with_help(h),
            None => d,
        };
        self.diagnostics.emit(d);
        self.findings = Ghost(self.findings@.push(f));
        proof {
            let ds = self.diagnostics.spec_diagnostics();
            assert forall|i: int| 0 <= i < ds.len() implies describes(#[trigger] ds[i], self.findings@[i]) by {
                if i < ds.len() - 1 {
                    assert(ds[i] == old(self).diagnostics.spec_diagnostics()[i]);
                }
            }
        }
    }

    /// `E200` for each undefined component of a list.
    fn visit_identifiers(&mut self, ids: &Vec<Spanned<Id>>)
        requires
            old(self).wf(),
        ensures
            final(self).wf(),
            final(self).st() == old(self).st(),
            final(self).spec_findings() == old(self).spec_findings() + check_ids(old(self).st(), ids_view(ids@)),
    {
        let ghost st0 = self.st();
        let ghost f0 = self.findings@;
        let ghost view = ids_view(ids@);
        let mut i: usize = 0;
        while i < ids.len()
            invariant
                i <= ids@.len(),
                view == ids_view(ids@),
                self.wf(),
                self.st() == st0,
                self.findings@ == f0 + check_ids(st0, view.take(i as int)),
            decreases ids@.len() - i,
        {
            self.visit_identifier(&ids[i]);
            proof {
                assert(view.take(i as int + 1).drop_last() =~= view.take(i as int));
                assert(self.findings@ =~= f0 + check_ids(st0, view.take(i as int + 1)));
            }
            i = i + 1;
        }
        proof {
            assert(view.take(i as int) =~= view);
        }
    }

    /// `E205` unless the base type, if any, is known.
    fn visit_base_type(&mut self, base: &Option<Spanned<Id>>)
        requires
            old(self).wf(),
        ensures
            final(self).wf(),
            final(self).st() == old(self).st(),
            final(self).spec_findings() == old(self).spec_findings() + check_base(old(self).st(), match base {
                Some(b) => Some(b@),
                None => None::<SpannedView<IdView>>,
            }),
    {
        match base {
            Some(b) => {
                if !contains_id(&self.state.type_registry, b.inner()) {
                    let full = b.inner().to_string();
                    let message = concat3("unknown base type `", full.as_str(), "`");
                    let help = concat3("type `", full.as_str(),
                        "` must be a built-in type or defined with a `type` statement before it can be used as a base type");
                    self.emit(message.as_str(), ErrorCode::E205, b.span(), "unknown base type",
                        Some(help.as_str()), Ghost(unknown_base_type(b@)));
                } else {
                    proof {
                        assert(self.findings@ =~= old(self).findings@);
                    }
                }
            },
            None => {
                proof {
                    assert(self.findings@ =~= old(self).findings@);
                }
            },
        }
    }

    /// Checks a type specification: its base type, then the nested type
    /// specifications and component lists among its attributes.
    fn visit_type_spec(&mut self, t: &TypeSpec)
        requires
            old(self).wf(),
        ensures
            final(self).wf(),
            final(self).st() == old(self).st(),
            final(self).spec_findings() == old(self).spec_findings() + check_type_spec(old(self).st(), t@),
        decreases t,
    {
        proof {
            reveal_with_fuel(<TypeSpec as View>::view, 2);
        }
        let ghost st0 = self.st();
        let ghost f0 = self.findings@;
        self.visit_base_type(&t.base_type);
        proof {
            assert(t@.base_type == match &t.base_type {
                Some(b) => Some(b@),
                None => None::<SpannedView<IdView>>,
            });
        }
        let ghost f1 = self.findings@;
        self.visit_attributes(&t.attributes);
        proof {
            assert(attributes_view(t.attributes@) =~= t@.attributes);
            assert(self.findings@ =~= f0 + check_type_spec(st0, t@));
        }
    }

    /// Checks the values of a list of attributes.
    fn visit_attributes(&mut self, attrs: &Vec<Attribute>)
        requires
            old(self).wf(),
        ensures
            final(self).wf(),
            final(self).st() == old(self).st(),
            final(self).spec_findings() == old(self).spec_findings()
                + check_attributes(old(self).st(), attributes_view(attrs@)),
        decreases attrs,
    {
        let ghost st0 = self.st();
        let ghost f0 = self.findings@;
        let ghost view = attributes_view(attrs@);
        let mut i: usize = 0;
        while i < attrs.len()
            invariant
                i <= attrs@.len(),
                view == attributes_view(attrs@),
                self.wf(),
                self.st() == st0,
                self.findings@ == f0 + check_attributes(st0, view.take(i as int)),
            decreases attrs@.len() - i,
        {
            proof {
                reveal_with_fuel(<Attribute as View>::view, 2);
                assert(decreases_to!(attrs => attrs@[i as int]));
            }
            self.visit_value(&attrs[i].value);
            proof {
                assert(view.take(i as int + 1).drop_last() =~= view.take(i as int));
                assert(view[i as int].value == attrs@[i as int].value@);
                assert(self.findings@ =~= f0 + check_attributes(st0, view.take(i as int + 1)));
            }
            i = i + 1;
        }
        proof {
            assert(view.take(i as int) =~= view);
        }
    }

    /// Checks an attribute value: nested type specifications and component lists.
    fn visit_value(&mut self, v: &AttributeValue)
        requires
            old(self).wf(),
        ensures
            final(self).wf(),
            final(self).st() == old(self).st(),
            final(self).spec_findings() == old(self).spec_findings() + check_value(old(self).st(), v@),
        decreases v,
    {
        proof {
            reveal_with_fuel(<AttributeValue as View>::view, 2);
        }
        match v {
            AttributeValue::TypeSpec(t) => {
                self.visit_type_spec(t);
            },
            AttributeValue::Identifiers(ids) => {
                self.visit_identifiers(ids);
                proof {
                    assert(ids_view(ids@) =~= match v@ {
                        AttributeValueView::Identifiers(x) => x,
                        _ => Seq::empty(),
                    });
                }
            },
            _ => {
                proof {
                    assert(self.findings@ =~= old(self).findings@ + check_value(old(self).st(), v@));
                }
            },
        }
    }

    /// The entry of the activation stack for `id`, if any.
    fn stack_index(&self, id: &Id) -> (r: Option<usize>)
        ensures
            match r {
                Some(i) => stack_find(self.st().stack, id@) == Some(i as int)
                    && i < self.state.activation_stack@.len(),
                None => stack_find(self.st().stack, id@) is None,
            },
    {
        let ghost stack = self.st().stack;
        let mut i: usize = 0;
        while i < self.state.activation_stack.len()
            invariant
                i <= self.state.activation_stack@.len(),
                stack == self.st().stack,
                stack.len() == self.state.activation_stack@.len(),
                stack_find(stack.take(i as int), id@) is None,
            decreases self.state.activation_stack@.len() - i,
        {
            proof {
                assert(stack.take(i as int + 1).drop_last() =~= stack.take(i as int));
                assert(stack[i as int].0 == self.state.activation_stack@[i as int].0@);
            }
            if self.state.activation_stack[i].0 == *id {
                proof {
                    lemma_stack_find_extend(stack, i as int + 1, id@);
                }
                return Some(i);
            }
            i = i + 1;
        }
        proof {
            assert(stack.take(i as int) =~= stack);
        }
        None
    }

    /// Opens an activation of `component` at its span.
    fn push_activation(&mut self, component: &Spanned<Id>)
        requires
            old(self).wf(),
        ensures
            final(self).wf(),
            final(self).spec_findings() == old(self).spec_findings(),
            final(self).st() == (VState {
                stack: stack_push(old(self).st().stack, component@.value, component@.span),
                ..old(self).st()
            }),
    {
        let ghost old_stack = self.st().stack;
        match self.stack_index(component.inner()) {
            Some(i) => {
                let key = self.state.activation_stack[i].0.clone();
                let mut spans = self.state.activation_stack[i].1.clone();
                proof {
                    assert(spans@ =~= self.state.activation_stack@[i as int].1@);
                }
                spans.push(component.span());
                self.state.activation_stack.set(i, (key, spans));
                proof {
                    assert(self.st().stack =~= stack_push(old_stack, component@.value, component@.span));
                }
            },
            None => {
                let mut spans: Vec<Span> = Vec::new();
                spans.push(component.span());
                self.state.activation_stack.push((component.inner().clone(), spans));
                proof {
                    assert(spans@ =~= seq![component@.span]);
                    assert(self.st().stack =~= stack_push(old_stack, component@.value, component@.span));
                }
            },
        }
        proof {
            assert(self.st().types =~= old(self).st().types);
            assert(self.st().components =~= old(self).st().components);
        }
    }

    /// Closes the most recent activation of `component`, or reports `E202`.
    fn pop_activation(&mut self, component: &Spanned<Id>)
        requires
            old(self).wf(),
        ensures
            final(self).wf(),
            stack_can_pop(old(self).st().stack, component@.value) ==> {
                &&& final(self).spec_findings() == old(self).spec_findings()
                &&& final(self).st() == (VState {
                    stack: stack_pop(old(self).st().stack, component@.value),
                    ..old(self).st()
                })
            },
            !stack_can_pop(old(self).st().stack, component@.value) ==> {
                &&& final(self).spec_findings() == old(self).spec_findings().push(unpaired_deactivate(component@))
                &&& final(self).st() == old(self).st()
            },
    {
        let ghost old_stack = self.st().stack;
        match self.stack_index(component.inner()) {
            Some(i) => {
                if self.state.activation_stack[i].1.len() > 0 {
                    let key = self.state.activation_stack[i].0.clone();
                    let mut spans = self.state.activation_stack[i].1.clone();
                    proof {
                        assert(spans@ =~= self.state.activation_stack@[i as int].1@);
                    }
                    let _ = spans.pop();
                    self.state.activation_stack.set(i, (key, spans));
                    proof {
                        assert(self.st().stack =~= stack_pop(old_stack, component@.value));
                        assert(self.st().types =~= old(self).st().types);
                        assert(self.st().components =~= old(self).st().components);
                    }
                    return;
                }
            },
            None => {},
        }
        let full = component.inner().to_string();
        let message = concat3("cannot deactivate component `", full.as_str(), "`: no matching activate statement");
        self.emit(message.as_str(), ErrorCode::E202, component.span(), "unpaired deactivate",
            Some("deactivate statements must be preceded by a corresponding activate statement"),
            Ghost(unpaired_deactivate(component@)));
    }

    /// `E203` unless the align value suits the diagram kind.
    fn validate_align_for_diagram_type(&mut self, value: &str, span: Span)
        requires
            old(self).wf(),
        ensures
            final(self).wf(),
            final(self).st() == old(self).st(),
            final(self).spec_findings() == old(self).spec_findings() + align_findings(old(self).st().kind, value@, span),
    {
        match self.state.diagram_kind {
            Some(DiagramKind::Sequence) => {
                if !(str_eq(value, "over") || str_eq(value, "left") || str_eq(value, "right")) {
                    let message = concat3("invalid align value `", value, "` for sequence diagram");
                    let ghost f = align_findings(self.st().kind, value@, span)[0];
                    self.emit(message.as_str(), ErrorCode::E203, span, "invalid align value",
                        Some("valid values: over, left, right"), Ghost(f));
                    proof {
                        assert(self.findings@ =~= old(self).findings@ + align_findings(old(self).st().kind, value@, span));
                    }
                } else {
                    proof {
                        assert(self.findings@ =~= old(self).findings@ + align_findings(old(self).st().kind, value@, span));
                    }
                }
            },
            Some(DiagramKind::Component) => {
                if !(str_eq(value, "left") || str_eq(value, "right") || str_eq(value, "top") || str_eq(value, "bottom")) {
                    let message = concat3("invalid align value `", value, "` for component diagram");
                    let ghost f = align_findings(self.st().kind, value@, span)[0];
                    self.emit(message.as_str(), ErrorCode::E203, span, "invalid align value",
                        Some("valid values: left, right, top, bottom"), Ghost(f));
                    proof {
                        assert(self.findings@ =~= old(self).findings@ + align_findings(old(self).st().kind, value@, span));
                    }
                } else {
                    proof {
                        assert(self.findings@ =~= old(self).findings@ + align_findings(old(self).st().kind, value@, span));
                    }
                }
            },
            None => {
                let ghost f = align_findings(self.st().kind, value@, span)[0];
                self.emit("diagram type not set, cannot validate align attribute", ErrorCode::E203, span,
                    "missing diagram type", None, Ghost(f));
                proof {
                    assert(self.findings@ =~= old(self).findings@ + align_findings(old(self).st().kind, value@, span));
                }
            },
        }
    }

    /// Checks the `align` attributes of a note.
    fn visit_aligns(&mut self, attrs: &Vec<Attribute>)
        requires
            old(self).wf(),
        ensures
            final(self).wf(),
            final(self).st() == old(self).st(),
            final(self).spec_findings() == old(self).spec_findings()
                + check_aligns(old(self).st(), attributes_view(attrs@)),
    {
        let ghost st0 = self.st();
        let ghost f0 = self.findings@;
        let ghost view = attributes_view(attrs@);
        let mut i: usize = 0;
        while i < attrs.len()
            invariant
                i <= attrs@.len(),
                view == attributes_view(attrs@),
                self.wf(),
                self.st() == st0,
                self.findings@ == f0 + check_aligns(st0, view.take(i as int)),
            decreases attrs@.len() - i,
        {
            proof {
                reveal_with_fuel(<Attribute as View>::view, 2);
                reveal_with_fuel(<AttributeValue as View>::view, 2);
                assert(view.take(i as int + 1).drop_last() =~= view.take(i as int));
                assert(view[i as int] == attrs@[i as int]@);
            }
            let attr = &attrs[i];
            let is_align = str_eq(attr.name.inner().as_str(), "align");
            if is_align {
                match &attr.value {
                    AttributeValue::String(v) => {
                        self.validate_align_for_diagram_type(v.inner().as_str(), v.span());
                    },
                    _ => {},
                }
            }
            proof {
                assert(self.findings@ =~= f0 + check_aligns(st0, view.take(i as int + 1)));
            }
            i = i + 1;
        }
        proof {
            assert(view.take(i as int) =~= view);
        }
    }

    /// Walks a list of elements in order.
    fn visit_elements(&mut self, es: &Vec<Element>)
        requires
            old(self).wf(),
        ensures
            final(self).wf(),
            (final(self).st(), final(self).spec_findings()) == ({
                let (st, f) = visit_elements(old(self).st(), elements_view(es@));
                (st, old(self).spec_findings() + f)
            }),
        decreases es, 0nat,
    {
        let ghost st0 = self.st();
        let ghost f0 = self.findings@;
        let ghost view = elements_view(es@);
        let mut i: usize = 0;
        while i < es.len()
            invariant
                i <= es@.len(),
                view == elements_view(es@),
                self.wf(),
                (self.st(), self.findings@) == ({
                    let (st, f) = visit_elements(st0, view.take(i as int));
                    (st, f0 + f)
                }),
            decreases es@.len() - i,
        {
            proof {
                assert(view.take(i as int + 1).drop_last() =~= view.take(i as int));
                assert(decreases_to!(es => es@[i as int]));
            }
            let ghost fa = self.findings@;
            self.visit_element(&es[i]);
            proof {
                let (st1, f1) = visit_elements(st0, view.take(i as int));
                let (st2, f2) = visit_element(st1, view[i as int]);
                assert(self.findings@ =~= f0 + (f1 + f2));
            }
            i = i + 1;
        }
        proof {
            assert(view.take(i as int) =~= view);
        }
    }

    /// Walks the elements of a list of sections in order.
    fn visit_sections(&mut self, ss: &Vec<FragmentSection>)
        requires
            old(self).wf(),
        ensures
            final(self).wf(),
            (final(self).st(), final(self).spec_findings()) == ({
                let (st, f) = visit_sections(old(self).st(), sections_view(ss@));
                (st, old(self).spec_findings() + f)
            }),
        decreases ss, 0nat,
    {
        let ghost st0 = self.st();
        let ghost f0 = self.findings@;
        let ghost view = sections_view(ss@);
        let mut i: usize = 0;
        while i < ss.len()
            invariant
                i <= ss@.len(),
                view == sections_view(ss@),
                self.wf(),
                (self.st(), self.findings@) == ({
                    let (st, f) = visit_sections(st0, view.take(i as int));
                    (st, f0 + f)
                }),
            decreases ss@.len() - i,
        {
            proof {
                crate::ast::lemma_section_view(&ss[i as int]);
                assert(view.take(i as int + 1).drop_last() =~= view.take(i as int));
                assert(decreases_to!(ss => ss@[i as int]));
            }
            self.visit_elements(&ss[i].elements);
            proof {
                let (st1, f1) = visit_sections(st0, view.take(i as int));
                let (st2, f2) = visit_elements(st1, view[i as int].elements);
                assert(self.findings@ =~= f0 + (f1 + f2));
            }
            i = i + 1;
        }
        proof {
            assert(view.take(i as int) =~= view);
        }
    }

    /// Checks a type specification, then walks a list of elements.
    fn visit_block(&mut self, type_spec: &TypeSpec, es: &Vec<Element>)
        requires
            old(self).wf(),
        ensures
            final(self).wf(),
            (final(self).st(), final(self).spec_findings()) == ({
                let f = check_type_spec(old(self).st(), type_spec@);
                let (st2, g) = visit_elements(old(self).st(), elements_view(es@));
                (st2, old(self).spec_findings() + (f + g))
            }),
        decreases es, 1nat,
    {
        let ghost st0 = self.st();
        let ghost f0 = self.findings@;
        self.visit_type_spec(type_spec);
        self.visit_elements(es);
        proof {
            let (st2, g) = visit_elements(st0, elements_view(es@));
            assert(self.findings@ =~= f0 + (check_type_spec(st0, type_spec@) + g));
        }
    }

    /// Checks a type specification, then walks a list of sections.
    fn visit_sections_block(&mut self, type_spec: &TypeSpec, ss: &Vec<FragmentSection>)
        requires
            old(self).wf(),
        ensures
            final(self).wf(),
            (final(self).st(), final(self).spec_findings()) == ({
                let f = check_type_spec(old(self).st(), type_spec@);
                let (st2, g) = visit_sections(old(self).st(), sections_view(ss@));
                (st2, old(self).spec_findings() + (f + g))
            }),
        decreases ss, 1nat,
    {
        let ghost st0 = self.st();
        let ghost f0 = self.findings@;
        self.visit_type_spec(type_spec);
        self.visit_sections(ss);
        proof {
            let (st2, g) = visit_sections(st0, sections_view(ss@));
            assert(self.findings@ =~= f0 + (check_type_spec(st0, type_spec@) + g));
        }
    }

    /// Walks a component: registers its name, checks its type
    /// specification, then its content.
    fn visit_component(&mut self, name: &Spanned<Id>, type_spec: &TypeSpec, content: &ComponentContent)
        requires
            old(self).wf(),
        ensures
            final(self).wf(),
            (final(self).st(), final(self).spec_findings()) == ({
                let st0 = old(self).st();
                let st1 = VState { components: st0.components.push(name@.value), ..st0 };
                let f = check_type_spec(st1, type_spec@);
                match content@ {
                    ComponentContentView::Empty => (st1, old(self).spec_findings() + f),
                    ComponentContentView::Scope(es) => {
                        let (st2, g) = visit_elements(st1, es);
                        (st2, old(self).spec_findings() + (f + g))
                    },
                    ComponentContentView::Diagram(DiagramSourceView::Inline(file)) =>
                        (st1, old(self).spec_findings() + (f + check_file(file))),
                    ComponentContentView::Diagram(DiagramSourceView::Ref(id)) =>
                        (st1, old(self).spec_findings() + f.push(unknown_embed(id))),
                }
            }),
        decreases content, 1nat,
    {
        proof {
            crate::ast::lemma_content_view(content);
        }
        let ghost st0 = self.st();
        let ghost f0 = self.findings@;
        self.state.component_registry.push(name.inner().clone());
        proof {
            assert(self.st().components =~= st0.components.push(name@.value));
            assert(self.st().types =~= st0.types);
            assert(self.st().stack =~= st0.stack);
        }
        let ghost st1 = self.st();
        self.visit_type_spec(type_spec);
        match content {
            ComponentContent::Empty => {},
            ComponentContent::Scope(es) => {
                self.visit_elements(es);
                proof {
                    let (st2, g) = visit_elements(st1, elements_view(es@));
                    assert(self.findings@ =~= f0 + (check_type_spec(st1, type_spec@) + g));
                }
            },
            ComponentContent::Diagram(DiagramSource::Inline(file)) => {
                self.visit_file_ast(file);
                proof {
                    assert(self.findings@ =~= f0 + (check_type_spec(st1, type_spec@) + check_file((**file)@)));
                }
            },
            ComponentContent::Diagram(DiagramSource::Ref(id)) => {
                let full = id.inner().to_string();
                let message = concat3("unknown embed reference `", full.as_str(), "`");
                self.emit(message.as_str(), ErrorCode::E204, id.span(),
                    "no namespaced import matches this identifier",
                    Some("add a namespaced import: `import \"diagram_file\";` or `import \"path\" as name;`"),
                    Ghost(unknown_embed(id@)));
                proof {
                    assert(self.findings@ =~= f0 + check_type_spec(st1, type_spec@).push(unknown_embed(id@)));
                }
            },
        }
    }

    /// Walks one element.
    fn visit_element(&mut self, e: &Element)
        requires
            old(self).wf(),
        ensures
            final(self).wf(),
            (final(self).st(), final(self).spec_findings()) == ({
                let (st, f) = visit_element(old(self).st(), e@);
                (st, old(self).spec_findings() + f)
            }),
        decreases e, 2nat,
    {
        proof {
            crate::ast::lemma_element_view(e);
        }
        let ghost st0 = self.st();
        let ghost f0 = self.findings@;
        match e {
            Element::Component { name, type_spec, content, .. } => {
                self.visit_component(name, type_spec, content);
            },
            Element::Relation { source, target, type_spec, .. } => {
                self.visit_identifier(source);
                self.visit_identifier(target);
                self.visit_type_spec(type_spec);
                proof {
                    assert(self.findings@ =~= f0 + (check_component(st0, source@) + check_component(st0, target@)
                        + check_type_spec(st0, type_spec@)));
                }
            },
            Element::ActivateBlock { type_spec, elements, .. } => {
                self.visit_block(type_spec, elements);
            },
            Element::Activate { component, type_spec } => {
                self.visit_identifier(component);
                self.visit_type_spec(type_spec);
                self.push_activation(component);
                proof {
                    assert(self.findings@ =~= f0 + (check_component(st0, component@) + check_type_spec(st0, type_spec@)));
                }
            },
            Element::Deactivate { component } => {
                self.visit_identifier(component);
                self.pop_activation(component);
                proof {
                    if stack_can_pop(st0.stack, component@.value) {
                        assert(self.findings@ =~= f0 + check_component(st0, component@));
                    } else {
                        assert(self.findings@ =~= f0 + check_component(st0, component@).push(unpaired_deactivate(component@)));
                    }
                }
            },
            Element::Fragment(fr) => {
                proof {
                    crate::ast::lemma_fragment_view(fr);
                }
                self.visit_sections(&fr.sections);
            },
            Element::AltElseBlock { type_spec, sections, .. } => {
                self.visit_sections_block(type_spec, sections);
            },
            Element::ParBlock { type_spec, sections, .. } => {
                self.visit_sections_block(type_spec, sections);
            },
            Element::OptBlock { type_spec, section, .. } => {
                proof { crate::ast::lemma_section_view(section); }
                self.visit_block(type_spec, &section.elements);
            },
            Element::LoopBlock { type_spec, section, .. } => {
                proof { crate::ast::lemma_section_view(section); }
                self.visit_block(type_spec, &section.elements);
            },
            Element::BreakBlock { type_spec, section, .. } => {
                proof { crate::ast::lemma_section_view(section); }
                self.visit_block(type_spec, &section.elements);
            },
            Element::CriticalBlock { type_spec, section, .. } => {
                proof { crate::ast::lemma_section_view(section); }
                self.visit_block(type_spec, &section.elements);
            },
            Element::Note(n) => {
                self.visit_type_spec(&n.type_spec);
                self.visit_aligns(&n.type_spec.attributes);
                proof {
                    crate::ast::lemma_type_spec_view(&n.type_spec);
                    assert(self.findings@ =~= f0 + (check_type_spec(st0, n@.type_spec)
                        + check_aligns(st0, n@.type_spec.attributes)));
                }
            },
        }
    }

    /// Walks the type definitions, registering each name after its
    /// specification is checked.
    fn visit_type_definitions(&mut self, tds: &Vec<TypeDefinition>)
        requires
            old(self).wf(),
        ensures
            final(self).wf(),
            (final(self).st(), final(self).spec_findings()) == ({
                let (st, f) = visit_type_definitions(old(self).st(), type_definitions_view(tds@));
                (st, old(self).spec_findings() + f)
            }),
    {
        let ghost st0 = self.st();
        let ghost f0 = self.findings@;
        let ghost view = type_definitions_view(tds@);
        let mut i: usize = 0;
        while i < tds.len()
            invariant
                i <= tds@.len(),
                view == type_definitions_view(tds@),
                self.wf(),
                (self.st(), self.findings@) == ({
                    let (st, f) = visit_type_definitions(st0, view.take(i as int));
                    (st, f0 + f)
                }),
            decreases tds@.len() - i,
        {
            proof {
                assert(view.take(i as int + 1).drop_last() =~= view.take(i as int));
            }
            let ghost st_before = self.st();
            self.visit_type_spec(&tds[i].type_spec);
            self.state.type_registry.push(tds[i].name.inner().clone());
            proof {
                assert(self.st().types =~= st_before.types.push(view[i as int].name.value));
                assert(self.st().components =~= st_before.components);
                assert(self.st().stack =~= st_before.stack);
                let (st1, f1) = visit_type_definitions(st0, view.take(i as int));
                assert(self.findings@ =~= f0 + (f1 + check_type_spec(st1, view[i as int].type_spec)));
            }
            i = i + 1;
        }
        proof {
            assert(view.take(i as int) =~= view);
        }
    }

    /// Checks each imported file on its own.
    fn visit_imports(&mut self, imports: &Vec<Import>)
        requires
            old(self).wf(),
        ensures
            final(self).wf(),
            final(self).st() == old(self).st(),
            final(self).spec_findings() == old(self).spec_findings() + check_imports(imports_view(imports@)),
        decreases imports, 0nat,
    {
        let ghost f0 = self.findings@;
        let ghost st0 = self.st();
        let ghost view = imports_view(imports@);
        let mut i: usize = 0;
        while i < imports.len()
            invariant
                i <= imports@.len(),
                view == imports_view(imports@),
                self.wf(),
                self.st() == st0,
                self.findings@ == f0 + check_imports(view.take(i as int)),
            decreases imports@.len() - i,
        {
            proof {
                reveal_with_fuel(<Import as View>::view, 2);
                assert(view.take(i as int + 1).drop_last() =~= view.take(i as int));
                assert(decreases_to!(imports => imports@[i as int]));
            }
            self.visit_file_ast(&imports[i].file_ast);
            proof {
                assert(self.findings@ =~= f0 + check_imports(view.take(i as int + 1)));
            }
            i = i + 1;
        }
        proof {
            assert(view.take(i as int) =~= view);
        }
    }

    /// Reports every activation left open.
    fn validate_activation_stack_pairs(&mut self)
        requires
            old(self).wf(),
        ensures
            final(self).wf(),
            final(self).st() == old(self).st(),
            final(self).spec_findings() == old(self).spec_findings() + unpaired_findings(old(self).st().stack),
    {
        let ghost f0 = self.findings@;
        let ghost stack = self.st().stack;
        let ghost st0 = self.st();
        let n = self.state.activation_stack.len();
        let mut i: usize = 0;
        while i < n
            invariant
                i <= n,
                n == self.state.activation_stack@.len(),
                stack == self.st().stack,
                st0 == self.st(),
                stack.len() == n,
                self.wf(),
                self.findings@ == f0 + unpaired_findings(stack.take(i as int)),
            decreases n - i,
        {
            proof {
                assert(stack.take(i as int + 1).drop_last() =~= stack.take(i as int));
                assert(stack[i as int] == (self.state.activation_stack@[i as int].0@, self.state.activation_stack@[i as int].1@));
            }
            let len = self.state.activation_stack[i].1.len();
            if len > 0 {
                let span = self.state.activation_stack[i].1[len - 1];
                let full = self.state.activation_stack[i].0.to_string();
                let message = concat3("component `", full.as_str(), "` was activated but never deactivated");
                self.emit(message.as_str(), ErrorCode::E201, span, "unpaired activate",
                    Some("every activate statement must have a corresponding deactivate statement"),
                    Ghost(unpaired_activate(stack[i as int].0, span)));
            }
            proof {
                assert(self.findings@ =~= f0 + unpaired_findings(stack.take(i as int + 1)));
            }
            i = i + 1;
        }
        proof {
            assert(stack.take(i as int) =~= stack);
        }
    }

    /// Checks a file with registries of its own, restoring the current
    /// registries afterwards.
    fn visit_file_ast(&mut self, file: &FileAst)
        requires
            old(self).wf(),
        ensures
            final(self).wf(),
            final(self).st() == old(self).st(),
            final(self).spec_findings() == old(self).spec_findings() + check_file(file@),
        decreases file, 0nat,
    {
        proof {
            reveal_with_fuel(<FileAst as View>::view, 2);
        }
        let ghost f0 = self.findings@;
        let ghost outer = self.st();
        let mut saved = FileAstState::new();
        std::mem::swap(&mut self.state, &mut saved);
        match &file.header {
            FileHeader::Diagram { kind, attributes } => {
                self.state.diagram_kind = Some(*kind.inner());
                self.visit_attributes(attributes);
                proof {
                    assert(attributes_view(attributes@) =~= match file@.header {
                        FileHeaderView::Diagram { attributes: x, .. } => x,
                        _ => Seq::empty(),
                    });
                }
            },
            FileHeader::Library { .. } => {},
        }
        proof {
            assert(self.st() == header_state(file@.header));
            assert(self.findings@ =~= f0 + check_header(file@.header));
        }
        let ghost fh = self.findings@;
        self.visit_imports(&file.imports);
        proof {
            assert(imports_view(file.imports@) =~= file@.imports);
        }
        self.visit_type_definitions(&file.type_definitions);
        proof {
            assert(type_definitions_view(file.type_definitions@) =~= file@.type_definitions);
        }
        self.visit_elements(&file.elements);
        proof {
            assert(elements_view(file.elements@) =~= file@.elements);
        }
        self.validate_activation_stack_pairs();
        proof {
            let st1 = header_state(file@.header);
            let (st2, ft) = visit_type_definitions(st1, file@.type_definitions);
            let (st3, fe) = visit_elements(st2, file@.elements);
            assert(self.findings@ =~= f0 + (check_header(file@.header) + check_imports(file@.imports) + ft + fe
                + unpaired_findings(st3.stack)));
        }
        self.state = saved;
    }

    /// Finishes validation: `Ok(())` when nothing was found, otherwise the
    /// diagnostics of all findings in order.
    pub fn finish(self) -> (r: Result<(), Vec<Diagnostic>>)
        requires
            self.wf(),
        ensures
            self.spec_findings().len() == 0 ==> r is Ok,
            self.spec_findings().len() > 0 ==> (r matches Err(v) && reports(v@, self.spec_findings())),
    {
        self.diagnostics.finish()
    }

    /// `E200` unless the referenced component is defined.
    fn visit_identifier(&mut self, id: &Spanned<Id>)
        requires
            old(self).wf(),
        ensures
            final(self).wf(),
            final(self).st() == old(self).st(),
            final(self).spec_findings() == old(self).spec_findings() + check_component(old(self).st(), id@),
    {
        if !contains_id(&self.state.component_registry, id.inner()) {
            let full = id.inner().to_string();
            let message = concat3("component `", full.as_str(), "` not found");
            self.emit(message.as_str(), ErrorCode::E200, id.span(), "undefined component",
                Some("component must be defined before it can be referenced"), Ghost(undefined_component(id@)));
        } else {
            proof {
                assert(self.findings@ =~= old(self).findings@ + check_component(old(self).st(), id@));
            }
        }
    }
}



/// Validates a syntax tree.
///
/// Returns `Ok(())` when the file has no findings (see [`check_file`]);
/// otherwise one diagnostic for each finding, in the order of the walk.
pub fn validate(ast: &FileAst) -> (r: Result<(), Vec<Diagnostic>>)
    ensures
        check_file(ast@).len() == 0 ==> r is Ok,
        check_file(ast@).len() > 0 ==> (r matches Err(v) && reports(v@, check_file(ast@))),
{
    let mut validator = Validator::new();
    validator.visit_file_ast(ast);
    proof {
        assert(validator.spec_findings() =~= check_file(ast@));
    }
    validator.finish()
}

// ---------------------------------------------------------------------------
// The components a walk registers
// ---------------------------------------------------------------------------

/// The components that a list of elements defines, at any depth, in order:
/// those in a component's scope and in activate blocks and fragment
/// sections included (an inline embedded diagram is a file of its own).
pub open spec fn components_defined(s: Seq<ElementView>) -> Seq<IdView>
    decreases s,
{
    if s.len() == 0 {
        Seq::empty()
    } else {
        components_defined(s.drop_last()) + components_defined_by(s.last())
    }
}

/// The components that the sections of a fragment define, in order.
pub open spec fn components_in_sections(s: Seq<FragmentSectionView>) -> Seq<IdView>
    decreases s,
{
    if s.len() == 0 {
        Seq::empty()
    } else {
        components_in_sections(s.drop_last()) + components_defined(s.last().elements)
    }
}

/// The components that one element defines: a component itself, then
/// those of its scope; the components inside blocks and fragments.
pub open spec fn components_defined_by(e: ElementView) -> Seq<IdView>
    decreases e,
{
    match e {
        ElementView::Component { name, content, .. } => seq![name.value] + match content {
            ComponentContentView::Scope(es) => components_defined(es),
            _ => Seq::empty(),
        },
        ElementView::ActivateBlock { elements, .. } => components_defined(elements),
        ElementView::Fragment(fr) => components_in_sections(fr.sections),
        ElementView::AltElseBlock { sections, .. } => components_in_sections(sections),
        ElementView::ParBlock { sections, .. } => components_in_sections(sections),
        ElementView::OptBlock { section, .. } => components_defined(section.elements),
        ElementView::LoopBlock { section, .. } => components_defined(section.elements),
        ElementView::BreakBlock { section, .. } => components_defined(section.elements),
        ElementView::CriticalBlock { section, .. } => components_defined(section.elements),
        _ => Seq::empty(),
    }
}

/// Walking a list of elements registers every component it defines, at
/// any depth, after those already known, and forgets none: a component
/// registered inside a scope stays registered once the scope ends.
pub proof fn lemma_walk_registers_components(st: VState, s: Seq<ElementView>)
    ensures
        visit_elements(st, s).0.components == st.components + components_defined(s),
    decreases s,
{
    if s.len() > 0 {
        lemma_walk_registers_components(st, s.drop_last());
        let st1 = visit_elements(st, s.drop_last()).0;
        lemma_element_registers_components(st1, s.last());
        assert(st.components + components_defined(s.drop_last()) + components_defined_by(s.last())
            =~= st.components + components_defined(s));
    } else {
        assert(st.components + components_defined(s) =~= st.components);
    }
}

/// Walking fragment sections registers every component they define.
pub proof fn lemma_sections_register_components(st: VState, s: Seq<FragmentSectionView>)
    ensures
        visit_sections(st, s).0.components == st.components + components_in_sections(s),
    decreases s,
{
    if s.len() > 0 {
        lemma_sections_register_components(st, s.drop_last());
        let st1 = visit_sections(st, s.drop_last()).0;
        lemma_walk_registers_components(st1, s.last().elements);
        assert(st.components + components_in_sections(s.drop_last()) + components_defined(s.last().elements)
            =~= st.components + components_in_sections(s));
    } else {
        assert(st.components + components_in_sections(s) =~= st.components);
    }
}

/// Walking one element registers the components it defines after those
/// already known.
pub proof fn lemma_element_registers_components(st: VState, e: ElementView)
    ensures
        visit_element(st, e).0.components == st.components + components_defined_by(e),
    decreases e,
{
    match e {
        ElementView::Component { name, content, .. } => {
            let st1 = VState { components: st.components.push(name.value), ..st };
            match content {
                ComponentContentView::Scope(es) => {
                    lemma_walk_registers_components(st1, es);
                    assert(st1.components + components_defined(es) =~= st.components + components_defined_by(e));
                },
                _ => {
                    assert(st1.components =~= st.components + components_defined_by(e));
                },
            }
        },
        ElementView::ActivateBlock { elements, .. } => {
            lemma_walk_registers_components(st, elements);
        },
        ElementView::Fragment(fr) => {
            lemma_sections_register_components(st, fr.sections);
        },
        ElementView::AltElseBlock { sections, .. } => {
            lemma_sections_register_components(st, sections);
        },
        ElementView::ParBlock { sections, .. } => {
            lemma_sections_register_components(st, sections);
        },
        ElementView::OptBlock { section, .. } => {
            lemma_walk_registers_components(st, section.elements);
        },
        ElementView::LoopBlock { section, .. } => {
            lemma_walk_registers_components(st, section.elements);
        },
        ElementView::BreakBlock { section, .. } => {
            lemma_walk_registers_components(st, section.elements);
        },
        ElementView::CriticalBlock { section, .. } => {
            lemma_walk_registers_components(st, section.elements);
        },
        _ => {
            assert(st.components + components_defined_by(e) =~= st.components);
        },
    }
}

/// A relation whose two ends are components defined earlier, at any depth
/// under their qualified names, is reported for neither end: its findings
/// are only those of its type specification.
pub proof fn lemma_relation_to_defined_components(
    st: VState,
    earlier: Seq<ElementView>,
    source: SpannedView<IdView>,
    target: SpannedView<IdView>,
    relation_type: SpannedView<Seq<char>>,
    type_spec: TypeSpecView,
    label: Option<SpannedView<Seq<char>>>,
)
    requires
        (st.components + components_defined(earlier)).contains(source.value),
        (st.components + components_defined(earlier)).contains(target.value),
    ensures
        ({
            let walked = visit_elements(st, earlier).0;
            let rel = ElementView::Relation { source, target, relation_type, type_spec, label };
            visit_element(walked, rel).1 == check_type_spec(walked, type_spec)
        }),
{
    lemma_walk_registers_components(st, earlier);
    let walked = visit_elements(st, earlier).0;
    assert(check_component(walked, source) =~= Seq::<Finding>::empty());
    assert(check_component(walked, target) =~= Seq::<Finding>::empty());
    assert(Seq::<Finding>::empty() + Seq::<Finding>::empty() + check_type_spec(walked, type_spec)
        =~= check_type_spec(walked, type_spec));
}

} // verus!
