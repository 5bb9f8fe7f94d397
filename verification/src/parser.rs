//! The parser: from tokens to a syntax tree.
//!
//! The grammar is parsed by ordered choice with backtracking. Every parser
//! takes the tokens and a position and either succeeds with a value and the
//! position after it, or fails with an error that records whether it may be
//! backtracked over, the contexts it passed through (innermost first) and
//! the position where the input was left. A failure that may be backtracked
//! over lets an enclosing choice try its next alternative; a committed
//! failure ("cut") ends the parse.
//!
//! Layout tokens (whitespace, line breaks, comments) are skipped where the
//! grammar allows them.
use vstd::prelude::*;
use crate::ast::{
    attributes_view, elements_view, lemma_attribute_value_view, lemma_element_view, lemma_section_view,
    lemma_fragment_view, lemma_content_view, lemma_file_view, lemma_header_view, sections_view, ComponentContent,
    DiagramSource, Element, FileAst, FileHeader, Fragment, FragmentSection, Note, lemma_attribute_view, lemma_type_spec_view, type_definitions_view,
    Attribute, AttributeValue, AttributeValueView, AttributeView, ComponentContentView, DiagramSourceView, ElementView,
    FileAstView, FileHeaderView, FragmentSectionView, FragmentView, NoteView, TypeDefinition, TypeDefinitionView, TypeSpec,
    TypeSpecView,
};
use crate::semantic::DiagramKind;
use crate::identifier::{id_of_text, nested_view, Id, IdView};
use crate::span::{Span, Spanned, SpannedView};
use crate::tokens::{is_layout, PositionedToken, Token};
use crate::error::diagnostic::Diagnostic;
use crate::error::error_code::ErrorCode;
use crate::error::severity::Severity;
use crate::strings::{concat, concat3};

verus! {

broadcast use crate::ast::group_elements_view;

// ---------------------------------------------------------------------------
// Results and errors
// ---------------------------------------------------------------------------

/// A context recorded by a failure.
pub enum Ctx {
    /// What was being parsed.
    Label(Seq<char>),
    /// The number of tokens left where a committed construct started.
    Start(nat),
}

/// A parse failure: whether it is committed, its contexts (innermost
/// first) and the position where the input was left.
pub struct PErr {
    pub cut: bool,
    pub ctx: Seq<Ctx>,
    pub pos: int,
}

/// A failure that may be backtracked over, with no context, at `pos`.
pub open spec fn bt(pos: int) -> PErr {
    PErr { cut: false, ctx: Seq::empty(), pos }
}

/// The failure `e` with the label `l` added.
pub open spec fn labelled(e: PErr, l: Seq<char>) -> PErr {
    PErr { ctx: e.ctx.push(Ctx::Label(l)), ..e }
}

/// The failure `e`, committed, with the start of the committed construct
/// (`remaining` tokens left) recorded.
pub open spec fn committed(e: PErr, remaining: nat) -> PErr {
    PErr { cut: true, ctx: e.ctx.push(Ctx::Start(remaining)), pos: e.pos }
}

/// Every position that the failure `e` records lies within `n` tokens.
pub open spec fn within(e: PErr, n: int) -> bool {
    &&& 0 <= e.pos <= n
    &&& forall|i: int| 0 <= i < e.ctx.len() ==> (#[trigger] e.ctx[i] matches Ctx::Start(k) ==> k <= n)
}

/// A result whose failure, if any, lies within `n` tokens.
pub open spec fn fails_within<T>(r: Result<T, PError>, n: int) -> bool {
    r matches Err(e) ==> within(e@, n)
}

/// A label keeps a failure within bounds.
proof fn lemma_labelled_within(e: PErr, l: Seq<char>, n: int)
    requires
        within(e, n),
    ensures
        within(labelled(e, l), n),
{
    assert forall|i: int| 0 <= i < labelled(e, l).ctx.len() implies
        (#[trigger] labelled(e, l).ctx[i] matches Ctx::Start(k) ==> k <= n) by {
        if i < e.ctx.len() {
            assert(labelled(e, l).ctx[i] == e.ctx[i]);
        }
    }
}

/// Committing keeps a failure within bounds when the start is.
proof fn lemma_committed_within(e: PErr, remaining: nat, n: int)
    requires
        within(e, n),
        remaining <= n,
    ensures
        within(committed(e, remaining), n),
{
    assert forall|i: int| 0 <= i < committed(e, remaining).ctx.len() implies
        (#[trigger] committed(e, remaining).ctx[i] matches Ctx::Start(k) ==> k <= n) by {
        if i < e.ctx.len() {
            assert(committed(e, remaining).ctx[i] == e.ctx[i]);
        }
    }
}

/// A context recorded by a failure.
#[derive(Debug, Clone, Copy)]
pub enum Context {
    /// What was being parsed.
    Label(&'static str),
    /// The number of tokens left where a committed construct started.
    StartOffset(usize),
}

impl View for Context {
    type V = Ctx;

    open spec fn view(&self) -> Ctx {
        match self {
            Context::Label(l) => Ctx::Label(l@),
            Context::StartOffset(n) => Ctx::Start(*n as nat),
        }
    }
}

/// A parse failure.
#[derive(Debug)]
pub struct PError {
    /// Whether the failure is committed.
    pub cut: bool,
    /// The contexts, innermost first.
    pub contexts: Vec<Context>,
    /// The position where the input was left.
    pub pos: usize,
}

impl View for PError {
    type V = PErr;

    open spec fn view(&self) -> PErr {
        PErr {
            cut: self.cut,
            ctx: Seq::new(self.contexts@.len(), |i: int| self.contexts@[i]@),
            pos: self.pos as int,
        }
    }
}

/// A failure that may be backtracked over, with no context.
fn backtrack(pos: usize) -> (r: PError)
    ensures
        r@ == bt(pos as int),
{
    let r = PError { cut: false, contexts: Vec::new(), pos };
    proof {
        assert(r@.ctx =~= Seq::<Ctx>::empty());
    }
    r
}

/// Adds the label `l` to a failure.
fn label(e: PError, l: &'static str) -> (r: PError)
    ensures
        r@ == labelled(e@, l@),
        forall|n: int| within(e@, n) ==> #[trigger] within(r@, n),
{
    proof {
        assert forall|n: int| within(e@, n) implies within(labelled(e@, l@), n) by {
            lemma_labelled_within(e@, l@, n);
        }
    }
    let mut contexts = e.contexts;
    let ghost before = contexts@;
    contexts.push(Context::Label(l));
    let r = PError { cut: e.cut, contexts, pos: e.pos };
    proof {
        assert(r@.ctx =~= Seq::new(before.len(), |i: int| before[i]@).push(Ctx::Label(l@)));
    }
    r
}

/// Commits a failure, recording where the committed construct started.
fn commit(e: PError, remaining: usize) -> (r: PError)
    ensures
        r@ == committed(e@, remaining as nat),
        forall|n: int| within(e@, n) && remaining <= n ==> #[trigger] within(r@, n),
{
    proof {
        assert forall|n: int| within(e@, n) && remaining <= n implies within(committed(e@, remaining as nat), n) by {
            lemma_committed_within(e@, remaining as nat, n);
        }
    }
    let mut contexts = e.contexts;
    let ghost before = contexts@;
    contexts.push(Context::StartOffset(remaining));
    let r = PError { cut: true, contexts, pos: e.pos };
    proof {
        assert(r@.ctx =~= Seq::new(before.len(), |i: int| before[i]@).push(Ctx::Start(remaining as nat)));
    }
    r
}

// ---------------------------------------------------------------------------
// Layout
// ---------------------------------------------------------------------------

/// The position after the layout tokens starting at `pos`.
pub open spec fn ws0_spec(t: Seq<PositionedToken>, pos: int) -> int
    decreases t.len() - pos,
{
    if 0 <= pos < t.len() && is_layout(t[pos].token) {
        ws0_spec(t, pos + 1)
    } else {
        pos
    }
}

/// At least one layout token, then any more.
pub open spec fn ws1_spec(t: Seq<PositionedToken>, pos: int) -> Result<int, PErr> {
    if 0 <= pos < t.len() && is_layout(t[pos].token) {
        Ok(ws0_spec(t, pos + 1))
    } else {
        Err(bt(pos))
    }
}

/// Skipping layout never goes back nor past the end.
pub proof fn lemma_ws0(t: Seq<PositionedToken>, pos: int)
    requires
        0 <= pos <= t.len(),
    ensures
        pos <= ws0_spec(t, pos) <= t.len(),
    decreases t.len() - pos,
{
    if pos < t.len() && is_layout(t[pos].token) {
        lemma_ws0(t, pos + 1);
    }
}

/// Whether the token at `pos` is a layout token.
fn layout_at(t: &Vec<PositionedToken>, pos: usize) -> (r: bool)
    ensures
        t@.len() <= usize::MAX,
        r == (pos < t@.len() && is_layout(t@[pos as int].token)),
{
    let n = t.len();
    if pos < n {
        match &t[pos].token {
            Token::Whitespace | Token::Newline | Token::LineComment(_) => true,
            _ => false,
        }
    } else {
        false
    }
}

/// Skips layout tokens.
pub fn ws0(t: &Vec<PositionedToken>, pos: usize) -> (r: usize)
    requires
        pos <= t@.len(),
    ensures
        r == ws0_spec(t@, pos as int),
        pos <= r <= t@.len(),
        t@.len() <= usize::MAX,
{
    let n = t.len();
    let mut p = pos;
    while p < t.len() && layout_at(t, p)
        invariant
            pos <= p <= t@.len(),
            ws0_spec(t@, p as int) == ws0_spec(t@, pos as int),
        decreases t@.len() - p,
    {
        p = p + 1;
    }
    p
}

/// Skips at least one layout token.
pub fn ws1(t: &Vec<PositionedToken>, pos: usize) -> (r: Result<usize, PError>)
    requires
        pos <= t@.len(),
    ensures
        fails_within(r, t@.len() as int),
        match r {
            Ok(p) => ws1_spec(t@, pos as int) == Ok::<int, PErr>(p as int) && pos < p <= t@.len(),
            Err(e) => ws1_spec(t@, pos as int) == Err::<int, PErr>(e@),
        },
{
    if pos < t.len() && layout_at(t, pos) {
        Ok(ws0(t, pos + 1))
    } else {
        Err(backtrack(pos))
    }
}

// ---------------------------------------------------------------------------
// Single tokens
// ---------------------------------------------------------------------------

/// `;`, after optional layout.
pub open spec fn semicolon_spec(t: Seq<PositionedToken>, pos: int) -> Result<int, PErr> {
    let p = ws0_spec(t, pos);
    if 0 <= p < t.len() && t[p].token is Semicolon {
        Ok(p + 1)
    } else {
        Err(labelled(bt(p), "semicolon"@))
    }
}

/// Parses `;`, after optional layout.
pub fn semicolon(t: &Vec<PositionedToken>, pos: usize) -> (r: Result<usize, PError>)
    requires
        pos <= t@.len(),
    ensures
        fails_within(r, t@.len() as int),
        match r {
            Ok(p) => semicolon_spec(t@, pos as int) == Ok::<int, PErr>(p as int) && pos < p <= t@.len(),
            Err(e) => semicolon_spec(t@, pos as int) == Err::<int, PErr>(e@),
        },
{
    let p = ws0(t, pos);
    if p < t.len() && matches!(t[p].token, Token::Semicolon) {
        Ok(p + 1)
    } else {
        Err(label(backtrack(p), "semicolon"))
    }
}

/// The name that a token stands for where a name is expected: an
/// identifier, or a keyword that can also be a name.
pub open spec fn name_of_token(t: Token) -> Option<Seq<char>> {
    match t {
        Token::Identifier(n) => Some(n@),
        Token::Component => Some("Component"@),
        Token::Sequence => Some("Sequence"@),
        Token::Type => Some("Type"@),
        Token::Diagram => Some("Diagram"@),
        Token::Embed => Some("Embed"@),
        Token::As => Some("As"@),
        _ => None,
    }
}

/// A name, with its span.
pub open spec fn raw_identifier_spec(t: Seq<PositionedToken>, pos: int) -> Result<(SpannedView<Seq<char>>, int), PErr> {
    if 0 <= pos < t.len() && name_of_token(t[pos].token) is Some {
        Ok((SpannedView { value: name_of_token(t[pos].token)->0, span: t[pos].span }, pos + 1))
    } else {
        Err(labelled(bt(pos), "identifier"@))
    }
}

/// Whether an exec result agrees with a spec result.
pub open spec fn agrees<T, V>(r: Result<(T, usize), PError>, s: Result<(V, int), PErr>, f: spec_fn(T) -> V) -> bool {
    match r {
        Ok((v, p)) => s == Ok::<(V, int), PErr>((f(v), p as int)),
        Err(e) => s == Err::<(V, int), PErr>(e@),
    }
}

/// Parses a name.
pub fn raw_identifier(t: &Vec<PositionedToken>, pos: usize) -> (r: Result<(Spanned<String>, usize), PError>)
    requires
        pos <= t@.len(),
    ensures
        fails_within(r, t@.len() as int),
        agrees(r, raw_identifier_spec(t@, pos as int), |v: Spanned<String>| v@),
        r matches Ok((_, p)) ==> pos < p <= t@.len(),
{
    if pos < t.len() {
        let tok = &t[pos];
        let name: Option<String> = match &tok.token {
            Token::Identifier(n) => Some(n.clone()),
            Token::Component => Some(String::from_str("Component")),
            Token::Sequence => Some(String::from_str("Sequence")),
            Token::Type => Some(String::from_str("Type")),
            Token::Diagram => Some(String::from_str("Diagram")),
            Token::Embed => Some(String::from_str("Embed")),
            Token::As => Some(String::from_str("As")),
            _ => None,
        };
        match name {
            Some(n) => return Ok((Spanned::new(n, tok.span), pos + 1)),
            None => {},
        }
    }
    Err(label(backtrack(pos), "identifier"))
}

/// An identifier: a name, read as an identifier.
pub open spec fn identifier_spec(t: Seq<PositionedToken>, pos: int) -> Result<(SpannedView<IdView>, int), PErr> {
    match raw_identifier_spec(t, pos) {
        Ok((n, p)) => Ok((SpannedView { value: id_of_text(n.value), span: n.span }, p)),
        Err(e) => Err(e),
    }
}

/// Parses an identifier.
pub fn identifier(t: &Vec<PositionedToken>, pos: usize) -> (r: Result<(Spanned<Id>, usize), PError>)
    requires
        pos <= t@.len(),
    ensures
        fails_within(r, t@.len() as int),
        agrees(r, identifier_spec(t@, pos as int), |v: Spanned<Id>| v@),
        r matches Ok((_, p)) ==> pos < p <= t@.len(),
{
    match raw_identifier(t, pos) {
        Ok((n, p)) => Ok((Spanned::new(Id::new(n.inner().as_str()), n.span()), p)),
        Err(e) => Err(e),
    }
}

/// The rest of a `::`-separated identifier, from `pos`, given the
/// identifier and span read so far.
pub open spec fn nested_rest_spec(t: Seq<PositionedToken>, pos: int, id: IdView, span: Span) -> Result<(SpannedView<IdView>, int), PErr>
    decreases t.len() - pos,
{
    if 0 <= pos < t.len() && t[pos].token is DoubleColon {
        match identifier_spec(t, pos + 1) {
            Ok((next, p)) => if p > pos {
                nested_rest_spec(t, p, nested_view(id, next.value), span.spec_join(next.span))
            } else {
                Ok((SpannedView { value: id, span }, pos))
            },
            Err(e) => Err(e),
        }
    } else {
        Ok((SpannedView { value: id, span }, pos))
    }
}

/// An identifier with `::` separators: each further segment is nested
/// under the identifier read so far; the span covers every segment.
pub open spec fn nested_identifier_spec(t: Seq<PositionedToken>, pos: int) -> Result<(SpannedView<IdView>, int), PErr> {
    match identifier_spec(t, pos) {
        Ok((first, p)) => nested_rest_spec(t, p, first.value, first.span),
        Err(e) => Err(e),
    }
}

/// Parses an identifier with `::` separators.
pub fn nested_identifier(t: &Vec<PositionedToken>, pos: usize) -> (r: Result<(Spanned<Id>, usize), PError>)
    requires
        pos <= t@.len(),
    ensures
        fails_within(r, t@.len() as int),
        agrees(r, nested_identifier_spec(t@, pos as int), |v: Spanned<Id>| v@),
        r matches Ok((_, p)) ==> pos < p <= t@.len(),
{
    let (first, p0) = match identifier(t, pos) {
        Ok(x) => x,
        Err(e) => return Err(e),
    };
    let mut current = first.inner().clone();
    let mut span = first.span();
    let mut p = p0;
    while p < t.len() && matches!(t[p].token, Token::DoubleColon)
        invariant
            pos < p <= t@.len(),
            nested_identifier_spec(t@, pos as int) == nested_rest_spec(t@, p as int, current@, span),
        decreases t@.len() - p,
    {
        match identifier(t, p + 1) {
            Ok((next, q)) => {
                current = current.create_nested(next.inner());
                span = span.union(next.span());
                p = q;
            },
            Err(e) => return Err(e),
        }
    }
    Ok((Spanned::new(current, span), p))
}

/// A string literal, with its span.
pub open spec fn string_literal_spec(t: Seq<PositionedToken>, pos: int) -> Result<(SpannedView<Seq<char>>, int), PErr> {
    if 0 <= pos < t.len() && t[pos].token is StringLiteral {
        Ok((SpannedView { value: t[pos].token->StringLiteral_0@, span: t[pos].span }, pos + 1))
    } else {
        Err(labelled(bt(pos), "string literal"@))
    }
}

/// Parses a string literal.
pub fn string_literal(t: &Vec<PositionedToken>, pos: usize) -> (r: Result<(Spanned<String>, usize), PError>)
    requires
        pos <= t@.len(),
    ensures
        fails_within(r, t@.len() as int),
        agrees(r, string_literal_spec(t@, pos as int), |v: Spanned<String>| v@),
        r matches Ok((_, p)) ==> pos < p <= t@.len(),
{
    if pos < t.len() {
        match &t[pos].token {
            Token::StringLiteral(s) => return Ok((Spanned::new(s.clone(), t[pos].span), pos + 1)),
            _ => {},
        }
    }
    Err(label(backtrack(pos), "string literal"))
}


// ---------------------------------------------------------------------------
// Identifier lists and attributes
// ---------------------------------------------------------------------------

/// The identifiers after the first one of an identifier list: each after a
/// comma; the list ends before the first position where no comma and
/// identifier follow.
pub open spec fn id_list_rest_spec(t: Seq<PositionedToken>, q: int, acc: Seq<SpannedView<IdView>>) -> (Seq<SpannedView<IdView>>, int)
    decreases t.len() - q,
{
    let a = ws0_spec(t, q);
    if 0 <= a < t.len() && t[a].token is Comma {
        match nested_identifier_spec(t, ws0_spec(t, a + 1)) {
            Ok((id, c)) => if q < c <= t.len() {
                id_list_rest_spec(t, c, acc.push(id))
            } else {
                (acc.push(id), c)
            },
            Err(_) => (acc, q),
        }
    } else {
        (acc, q)
    }
}

/// `[a, b::c, ...]`: a non-empty list of identifiers. A first identifier
/// followed by `=` is not an identifier list.
pub open spec fn identifiers_spec(t: Seq<PositionedToken>, pos: int) -> Result<(Seq<SpannedView<IdView>>, int), PErr> {
    if !(0 <= pos < t.len() && t[pos].token is LeftBracket) {
        Err(labelled(bt(pos), "identifiers"@))
    } else {
        match nested_identifier_spec(t, ws0_spec(t, pos + 1)) {
            Err(e) => Err(labelled(e, "identifiers"@)),
            Ok((first, p2)) => {
                let p3 = ws0_spec(t, p2);
                if 0 <= p3 < t.len() && t[p3].token is Equals {
                    Err(labelled(bt(p3 + 1), "identifiers"@))
                } else {
                    let (ids, q) = id_list_rest_spec(t, p3, seq![first]);
                    let r1 = ws0_spec(t, q);
                    if 0 <= r1 < t.len() && t[r1].token is RightBracket {
                        Ok((ids, r1 + 1))
                    } else {
                        Err(labelled(bt(r1), "identifiers"@))
                    }
                }
            },
        }
    }
}

/// `[]`
pub open spec fn empty_brackets_spec(t: Seq<PositionedToken>, pos: int) -> Result<int, PErr> {
    if !(0 <= pos < t.len() && t[pos].token is LeftBracket) {
        Err(labelled(bt(pos), "empty brackets"@))
    } else {
        let p = ws0_spec(t, pos + 1);
        if 0 <= p < t.len() && t[p].token is RightBracket {
            Ok(p + 1)
        } else {
            Err(labelled(bt(p), "empty brackets"@))
        }
    }
}

/// An attribute value: `[]`, an identifier list, a type specification, a
/// string or a number, tried in this order.
pub open spec fn attribute_value_spec(t: Seq<PositionedToken>, pos: int) -> Result<(AttributeValueView, int), PErr>
    decreases t.len() - pos, 5nat,
{
    match empty_brackets_spec(t, pos) {
        Ok(p) => Ok((AttributeValueView::Empty, p)),
        Err(e1) => if e1.cut {
            Err(labelled(e1, "attribute value"@))
        } else {
            match identifiers_spec(t, pos) {
                Ok((ids, p)) => Ok((AttributeValueView::Identifiers(ids), p)),
                Err(e2) => if e2.cut {
                    Err(labelled(e2, "attribute value"@))
                } else {
                    match attribute_type_spec_spec(t, pos) {
                        Ok((ts, p)) => Ok((AttributeValueView::TypeSpec(ts), p)),
                        Err(e3) => if e3.cut {
                            Err(labelled(e3, "attribute value"@))
                        } else if 0 <= pos < t.len() && t[pos].token is StringLiteral {
                            Ok((AttributeValueView::String(SpannedView {
                                value: t[pos].token->StringLiteral_0@,
                                span: t[pos].span,
                            }), pos + 1))
                        } else if 0 <= pos < t.len() && t[pos].token is FloatLiteral {
                            Ok((AttributeValueView::Float(SpannedView {
                                value: t[pos].token->FloatLiteral_0@,
                                span: t[pos].span,
                            }), pos + 1))
                        } else {
                            Err(labelled(bt(pos), "attribute value"@))
                        },
                    }
                },
            }
        },
    }
}

/// A type specification as an attribute value: `Name[attrs]`, `Name`, or
/// `[attrs]` with no base type.
pub open spec fn attribute_type_spec_spec(t: Seq<PositionedToken>, pos: int) -> Result<(TypeSpecView, int), PErr>
    decreases t.len() - pos, 4nat,
{
    match type_spec_spec(t, pos) {
        Ok(r) => Ok(r),
        Err(e1) => if e1.cut {
            Err(labelled(e1, "attribute type spec"@))
        } else {
            match wrapped_attributes_spec(t, pos) {
                Ok((attrs, p)) => Ok((TypeSpecView { base_type: None, attributes: attrs }, p)),
                Err(e2) => Err(labelled(e2, "attribute type spec"@)),
            }
        },
    }
}

/// A type specification: a base type name, then optionally `[attrs]`.
pub open spec fn type_spec_spec(t: Seq<PositionedToken>, pos: int) -> Result<(TypeSpecView, int), PErr>
    decreases t.len() - pos, 3nat,
{
    match identifier_spec(t, pos) {
        Err(e) => Err(e),
        Ok((name, p1)) => {
            let p2 = ws0_spec(t, p1);
            proof {
                lemma_ws0(t, p1);
            }
            match wrapped_attributes_spec(t, p2) {
                Ok((attrs, p3)) => Ok((TypeSpecView { base_type: Some(name), attributes: attrs }, p3)),
                Err(e) => if e.cut {
                    Err(e)
                } else {
                    Ok((TypeSpecView { base_type: Some(name), attributes: Seq::empty() }, p2))
                },
            }
        },
    }
}

/// `[attrs]`, possibly empty.
pub open spec fn wrapped_attributes_spec(t: Seq<PositionedToken>, pos: int) -> Result<(Seq<AttributeView>, int), PErr>
    decreases t.len() - pos, 2nat,
{
    if !(0 <= pos < t.len() && t[pos].token is LeftBracket) {
        Err(labelled(bt(pos), "wrapped attributes"@))
    } else {
        let p1 = ws0_spec(t, pos + 1);
        proof {
            lemma_ws0(t, pos + 1);
        }
        let inner = match attributes_spec(t, p1) {
            Ok((attrs, p2)) => Ok((attrs, p2)),
            Err(e) => if e.cut { Err(e) } else { Ok((Seq::empty(), p1)) },
        };
        match inner {
            Err(e) => Err(labelled(e, "wrapped attributes"@)),
            Ok((attrs, p2)) => {
                let r1 = ws0_spec(t, p2);
                if 0 <= r1 < t.len() && t[r1].token is RightBracket {
                    Ok((attrs, r1 + 1))
                } else {
                    Err(labelled(bt(r1), "wrapped attributes"@))
                }
            },
        }
    }
}

/// Attributes separated by commas, possibly none.
pub open spec fn attributes_spec(t: Seq<PositionedToken>, pos: int) -> Result<(Seq<AttributeView>, int), PErr>
    decreases t.len() - pos, 1nat,
{
    match attribute_spec(t, pos) {
        Err(e) => if e.cut { Err(labelled(e, "attributes"@)) } else { Ok((Seq::empty(), pos)) },
        Ok((a, p)) => if pos < p <= t.len() {
            match attribute_list_rest_spec(t, p, seq![a]) {
                Ok(r) => Ok(r),
                Err(e) => Err(labelled(e, "attributes"@)),
            }
        } else {
            Ok((seq![a], p))
        },
    }
}

/// The attributes after the first one: each after a comma; the list ends
/// before the first position where no comma and attribute follow.
pub open spec fn attribute_list_rest_spec(t: Seq<PositionedToken>, q: int, acc: Seq<AttributeView>) -> Result<(Seq<AttributeView>, int), PErr>
    decreases t.len() - q, 1nat,
{
    if !(0 <= q <= t.len()) {
        Ok((acc, q))
    } else {
        let a = ws0_spec(t, q);
        proof {
            lemma_ws0(t, q);
        }
        if 0 <= a < t.len() && t[a].token is Comma {
            let b = ws0_spec(t, a + 1);
            proof {
                lemma_ws0(t, a + 1);
            }
            match attribute_spec(t, b) {
                Ok((x, c)) => if q < c <= t.len() {
                    attribute_list_rest_spec(t, c, acc.push(x))
                } else {
                    Ok((acc.push(x), c))
                },
                Err(e) => if e.cut { Err(e) } else { Ok((acc, q)) },
            }
        } else {
            Ok((acc, q))
        }
    }
}

/// `name = value`
pub open spec fn attribute_spec(t: Seq<PositionedToken>, pos: int) -> Result<(AttributeView, int), PErr>
    decreases t.len() - pos, 0nat,
{
    match raw_identifier_spec(t, pos) {
        Err(e) => Err(e),
        Ok((name, p1)) => {
            let p2 = ws0_spec(t, p1);
            proof {
                lemma_ws0(t, p1);
            }
            if !(0 <= p2 < t.len() && t[p2].token is Equals) {
                Err(bt(p2))
            } else {
                let p3 = ws0_spec(t, p2 + 1);
                proof {
                    lemma_ws0(t, p2 + 1);
                }
                match attribute_value_spec(t, p3) {
                    Ok((v, p4)) => Ok((AttributeView { name, value: v }, p4)),
                    Err(e) => Err(e),
                }
            }
        },
    }
}


/// Whether the token at `pos` is a `,`.
fn comma_at(t: &Vec<PositionedToken>, pos: usize) -> (r: bool)
    ensures
        t@.len() <= usize::MAX,
        r == (pos < t@.len() && t@[pos as int].token is Comma),
{
    let n = t.len();
    pos < n && matches!(t[pos].token, Token::Comma)
}

/// Whether the token at `pos` is `=`.
fn equals_at(t: &Vec<PositionedToken>, pos: usize) -> (r: bool)
    ensures
        t@.len() <= usize::MAX,
        r == (pos < t@.len() && t@[pos as int].token is Equals),
{
    let n = t.len();
    pos < n && matches!(t[pos].token, Token::Equals)
}

/// Whether the token at `pos` is `[`.
fn left_bracket_at(t: &Vec<PositionedToken>, pos: usize) -> (r: bool)
    ensures
        t@.len() <= usize::MAX,
        r == (pos < t@.len() && t@[pos as int].token is LeftBracket),
{
    let n = t.len();
    pos < n && matches!(t[pos].token, Token::LeftBracket)
}

/// Whether the token at `pos` is `]`.
fn right_bracket_at(t: &Vec<PositionedToken>, pos: usize) -> (r: bool)
    ensures
        t@.len() <= usize::MAX,
        r == (pos < t@.len() && t@[pos as int].token is RightBracket),
{
    let n = t.len();
    pos < n && matches!(t[pos].token, Token::RightBracket)
}

/// Parses `[a, b::c, ...]`.
pub fn identifiers(t: &Vec<PositionedToken>, pos: usize) -> (r: Result<(Vec<Spanned<Id>>, usize), PError>)
    requires
        pos <= t@.len(),
    ensures
        fails_within(r, t@.len() as int),
        agrees(r, identifiers_spec(t@, pos as int), |v: Vec<Spanned<Id>>| crate::ast::ids_view(v@)),
        r matches Ok((_, p)) ==> pos < p <= t@.len(),
{
    if !left_bracket_at(t, pos) {
        return Err(label(backtrack(pos), "identifiers"));
    }
    let p1 = ws0(t, pos + 1);
    let (first, p2) = match nested_identifier(t, p1) {
        Ok(x) => x,
        Err(e) => return Err(label(e, "identifiers")),
    };
    let p3 = ws0(t, p2);
    if equals_at(t, p3) {
        return Err(label(backtrack(p3 + 1), "identifiers"));
    }
    let ghost first_v = first@;
    let mut ids: Vec<Spanned<Id>> = Vec::new();
    ids.push(first);
    proof {
        assert(crate::ast::ids_view(ids@) =~= seq![first_v]);
    }
    let mut q = p3;
    loop
        invariant
            p3 <= q <= t@.len(),
            id_list_rest_spec(t@, p3 as int, seq![first_v]) == id_list_rest_spec(t@, q as int, crate::ast::ids_view(ids@)),
        ensures
            p3 <= q <= t@.len(),
            id_list_rest_spec(t@, p3 as int, seq![first_v]) == (crate::ast::ids_view(ids@), q as int),
        decreases t@.len() - q,
    {
        let a = ws0(t, q);
        if !comma_at(t, a) {
            break;
        }
        let b = ws0(t, a + 1);
        match nested_identifier(t, b) {
            Ok((id, c)) => {
                let ghost before = ids@;
                ids.push(id);
                proof {
                    assert(crate::ast::ids_view(ids@) =~= crate::ast::ids_view(before).push(ids@.last()@));
                }
                q = c;
            },
            Err(_) => break,
        }
    }
    let r1 = ws0(t, q);
    if right_bracket_at(t, r1) {
        Ok((ids, r1 + 1))
    } else {
        Err(label(backtrack(r1), "identifiers"))
    }
}

/// Parses `[]`.
fn empty_brackets(t: &Vec<PositionedToken>, pos: usize) -> (r: Result<usize, PError>)
    requires
        pos <= t@.len(),
    ensures
        fails_within(r, t@.len() as int),
        match r {
            Ok(p) => empty_brackets_spec(t@, pos as int) == Ok::<int, PErr>(p as int) && pos < p <= t@.len(),
            Err(e) => empty_brackets_spec(t@, pos as int) == Err::<int, PErr>(e@),
        },
{
    if !left_bracket_at(t, pos) {
        return Err(label(backtrack(pos), "empty brackets"));
    }
    let p = ws0(t, pos + 1);
    if right_bracket_at(t, p) {
        Ok(p + 1)
    } else {
        Err(label(backtrack(p), "empty brackets"))
    }
}

/// Parses an attribute value.
pub fn attribute_value(t: &Vec<PositionedToken>, pos: usize) -> (r: Result<(AttributeValue, usize), PError>)
    requires
        pos <= t@.len(),
    ensures
        fails_within(r, t@.len() as int),
        agrees(r, attribute_value_spec(t@, pos as int), |v: AttributeValue| v@),
        r matches Ok((_, p)) ==> pos < p <= t@.len(),
    decreases t@.len() - pos, 5nat,
{
    match empty_brackets(t, pos) {
        Ok(p) => return Ok((AttributeValue::Empty, p)),
        Err(e1) => if e1.cut {
            return Err(label(e1, "attribute value"));
        },
    }
    match identifiers(t, pos) {
        Ok((ids, p)) => {
            let v = AttributeValue::Identifiers(ids);
            proof {
                lemma_attribute_value_view(&v);
            }
            return Ok((v, p));
        },
        Err(e2) => if e2.cut {
            return Err(label(e2, "attribute value"));
        },
    }
    match attribute_type_spec(t, pos) {
        Ok((ts, p)) => {
            let v = AttributeValue::TypeSpec(ts);
            proof {
                lemma_attribute_value_view(&v);
            }
            return Ok((v, p));
        },
        Err(e3) => if e3.cut {
            return Err(label(e3, "attribute value"));
        },
    }
    if pos < t.len() {
        match &t[pos].token {
            Token::StringLiteral(s) => {
                let v = AttributeValue::String(Spanned::new(s.clone(), t[pos].span));
                proof {
                    lemma_attribute_value_view(&v);
                }
                return Ok((v, pos + 1));
            },
            Token::FloatLiteral(f) => {
                let v = AttributeValue::Float(Spanned::new(f.clone(), t[pos].span));
                proof {
                    lemma_attribute_value_view(&v);
                }
                return Ok((v, pos + 1));
            },
            _ => {},
        }
    }
    Err(label(backtrack(pos), "attribute value"))
}

/// Parses a type specification as an attribute value.
pub fn attribute_type_spec(t: &Vec<PositionedToken>, pos: usize) -> (r: Result<(TypeSpec, usize), PError>)
    requires
        pos <= t@.len(),
    ensures
        fails_within(r, t@.len() as int),
        agrees(r, attribute_type_spec_spec(t@, pos as int), |v: TypeSpec| v@),
        r matches Ok((_, p)) ==> pos < p <= t@.len(),
    decreases t@.len() - pos, 4nat,
{
    match type_spec(t, pos) {
        Ok(x) => return Ok(x),
        Err(e1) => if e1.cut {
            return Err(label(e1, "attribute type spec"));
        },
    }
    match wrapped_attributes(t, pos) {
        Ok((attributes, p)) => {
            let ts = TypeSpec { base_type: None, attributes };
            proof {
                lemma_type_spec_view(&ts);
            }
            Ok((ts, p))
        },
        Err(e2) => Err(label(e2, "attribute type spec")),
    }
}

/// Parses a type specification: a base type name, then optionally `[attrs]`.
pub fn type_spec(t: &Vec<PositionedToken>, pos: usize) -> (r: Result<(TypeSpec, usize), PError>)
    requires
        pos <= t@.len(),
    ensures
        fails_within(r, t@.len() as int),
        agrees(r, type_spec_spec(t@, pos as int), |v: TypeSpec| v@),
        r matches Ok((_, p)) ==> pos < p <= t@.len(),
    decreases t@.len() - pos, 3nat,
{
    let (name, p1) = match identifier(t, pos) {
        Ok(x) => x,
        Err(e) => return Err(e),
    };
    let p2 = ws0(t, p1);
    match wrapped_attributes(t, p2) {
        Ok((attributes, p3)) => {
            let ts = TypeSpec { base_type: Some(name), attributes };
            proof {
                lemma_type_spec_view(&ts);
            }
            Ok((ts, p3))
        },
        Err(e) => if e.cut {
            Err(e)
        } else {
            let ts = TypeSpec { base_type: Some(name), attributes: Vec::new() };
            proof {
                lemma_type_spec_view(&ts);
                assert(attributes_view(ts.attributes@) =~= Seq::<AttributeView>::empty());
            }
            Ok((ts, p2))
        },
    }
}

/// Parses `[attrs]`.
pub fn wrapped_attributes(t: &Vec<PositionedToken>, pos: usize) -> (r: Result<(Vec<Attribute>, usize), PError>)
    requires
        pos <= t@.len(),
    ensures
        fails_within(r, t@.len() as int),
        agrees(r, wrapped_attributes_spec(t@, pos as int), |v: Vec<Attribute>| attributes_view(v@)),
        r matches Ok((_, p)) ==> pos < p <= t@.len(),
    decreases t@.len() - pos, 2nat,
{
    if !left_bracket_at(t, pos) {
        return Err(label(backtrack(pos), "wrapped attributes"));
    }
    let p1 = ws0(t, pos + 1);
    let (attrs, p2) = match attributes(t, p1) {
        Ok(x) => x,
        Err(e) => if e.cut {
            return Err(label(e, "wrapped attributes"));
        } else {
            let empty: Vec<Attribute> = Vec::new();
            proof {
                assert(attributes_view(empty@) =~= Seq::<AttributeView>::empty());
            }
            (empty, p1)
        },
    };
    let r1 = ws0(t, p2);
    if right_bracket_at(t, r1) {
        Ok((attrs, r1 + 1))
    } else {
        Err(label(backtrack(r1), "wrapped attributes"))
    }
}

/// Parses attributes separated by commas.
pub fn attributes(t: &Vec<PositionedToken>, pos: usize) -> (r: Result<(Vec<Attribute>, usize), PError>)
    requires
        pos <= t@.len(),
    ensures
        fails_within(r, t@.len() as int),
        agrees(r, attributes_spec(t@, pos as int), |v: Vec<Attribute>| attributes_view(v@)),
        r matches Ok((_, p)) ==> pos <= p <= t@.len(),
    decreases t@.len() - pos, 1nat,
{
    match attribute(t, pos) {
        Err(e) => if e.cut {
            Err(label(e, "attributes"))
        } else {
            let empty: Vec<Attribute> = Vec::new();
            proof {
                assert(attributes_view(empty@) =~= Seq::<AttributeView>::empty());
            }
            Ok((empty, pos))
        },
        Ok((a, p)) => {
            let ghost av = a@;
            let mut acc: Vec<Attribute> = Vec::new();
            acc.push(a);
            proof {
                assert(attributes_view(acc@) =~= seq![av]);
            }
            match attribute_list_rest(t, p, acc) {
                Ok(x) => Ok(x),
                Err(e) => Err(label(e, "attributes")),
            }
        },
    }
}

/// Parses the attributes after the first one.
fn attribute_list_rest(t: &Vec<PositionedToken>, q0: usize, acc0: Vec<Attribute>) -> (r: Result<(Vec<Attribute>, usize), PError>)
    requires
        q0 <= t@.len(),
    ensures
        fails_within(r, t@.len() as int),
        agrees(r, attribute_list_rest_spec(t@, q0 as int, attributes_view(acc0@)), |v: Vec<Attribute>| attributes_view(v@)),
        r matches Ok((_, p)) ==> q0 <= p <= t@.len(),
    decreases t@.len() - q0, 1nat,
{
    let mut acc = acc0;
    let mut q = q0;
    loop
        invariant
            q0 <= q <= t@.len(),
            attribute_list_rest_spec(t@, q0 as int, attributes_view(acc0@))
                == attribute_list_rest_spec(t@, q as int, attributes_view(acc@)),
        decreases t@.len() - q,
    {
        let a = ws0(t, q);
        if !comma_at(t, a) {
            return Ok((acc, q));
        }
        let b = ws0(t, a + 1);
        match attribute(t, b) {
            Ok((x, c)) => {
                let ghost before = acc@;
                let ghost xv = x@;
                acc.push(x);
                proof {
                    assert(attributes_view(acc@) =~= attributes_view(before).push(xv));
                }
                q = c;
            },
            Err(e) => if e.cut {
                return Err(e);
            } else {
                return Ok((acc, q));
            },
        }
    }
}

/// Parses `name = value`.
pub fn attribute(t: &Vec<PositionedToken>, pos: usize) -> (r: Result<(Attribute, usize), PError>)
    requires
        pos <= t@.len(),
    ensures
        fails_within(r, t@.len() as int),
        agrees(r, attribute_spec(t@, pos as int), |v: Attribute| v@),
        r matches Ok((_, p)) ==> pos < p <= t@.len(),
    decreases t@.len() - pos, 0nat,
{
    let (name, p1) = match raw_identifier(t, pos) {
        Ok(x) => x,
        Err(e) => return Err(e),
    };
    let p2 = ws0(t, p1);
    if !equals_at(t, p2) {
        return Err(backtrack(p2));
    }
    let p3 = ws0(t, p2 + 1);
    match attribute_value(t, p3) {
        Ok((value, p4)) => {
            let a = Attribute { name, value };
            proof {
                lemma_attribute_view(&a);
            }
            Ok((a, p4))
        },
        Err(e) => Err(e),
    }
}


// ---------------------------------------------------------------------------
// Type specifications of statements and type definitions
// ---------------------------------------------------------------------------

/// The type specification of a statement: `@Name`, `@Name[attrs]`,
/// `[attrs]` or nothing. After `@` a name is required.
pub open spec fn invocation_type_spec_spec(t: Seq<PositionedToken>, pos: int) -> Result<(TypeSpecView, int), PErr> {
    let named: Result<(Option<SpannedView<IdView>>, int), PErr> = if 0 <= pos < t.len() && t[pos].token is At {
        match identifier_spec(t, ws0_spec(t, pos + 1)) {
            Ok((name, p)) => Ok((Some(name), p)),
            Err(e) => Err(committed(labelled(e, "type name after @"@), (t.len() - (pos + 1)) as nat)),
        }
    } else {
        Ok((None, pos))
    };
    match named {
        Err(e) => Err(e),
        Ok((base_type, p1)) => {
            let p2 = ws0_spec(t, p1);
            match wrapped_attributes_spec(t, p2) {
                Ok((attrs, p3)) => Ok((TypeSpecView { base_type, attributes: attrs }, p3)),
                Err(e) => if e.cut {
                    Err(e)
                } else {
                    Ok((TypeSpecView { base_type, attributes: Seq::empty() }, p2))
                },
            }
        },
    }
}

/// An optional statement type specification: none (and no input read)
/// unless it parses, or a committed failure.
pub open spec fn opt_invocation_spec(t: Seq<PositionedToken>, pos: int) -> Result<(TypeSpecView, int), PErr> {
    match invocation_type_spec_spec(t, pos) {
        Ok(r) => Ok(r),
        Err(e) => if e.cut {
            Err(e)
        } else {
            Ok((TypeSpecView { base_type: None, attributes: Seq::empty() }, pos))
        },
    }
}

/// Whether the token at `pos` is `@`.
fn at_sign_at(t: &Vec<PositionedToken>, pos: usize) -> (r: bool)
    ensures
        t@.len() <= usize::MAX,
        r == (pos < t@.len() && t@[pos as int].token is At),
{
    let n = t.len();
    pos < n && matches!(t[pos].token, Token::At)
}

/// Parses a statement's type specification.
pub fn invocation_type_spec(t: &Vec<PositionedToken>, pos: usize) -> (r: Result<(TypeSpec, usize), PError>)
    requires
        pos <= t@.len(),
    ensures
        fails_within(r, t@.len() as int),
        agrees(r, invocation_type_spec_spec(t@, pos as int), |v: TypeSpec| v@),
        r matches Ok((_, p)) ==> pos <= p <= t@.len(),
{
    let (base_type, p1) = if at_sign_at(t, pos) {
        let p = ws0(t, pos + 1);
        match identifier(t, p) {
            Ok((name, q)) => (Some(name), q),
            Err(e) => return Err(commit(label(e, "type name after @"), t.len() - (pos + 1))),
        }
    } else {
        (None, pos)
    };
    let p2 = ws0(t, p1);
    match wrapped_attributes(t, p2) {
        Ok((attributes, p3)) => {
            let ts = TypeSpec { base_type, attributes };
            proof {
                lemma_type_spec_view(&ts);
            }
            Ok((ts, p3))
        },
        Err(e) => if e.cut {
            Err(e)
        } else {
            let ts = TypeSpec { base_type, attributes: Vec::new() };
            proof {
                lemma_type_spec_view(&ts);
                assert(attributes_view(ts.attributes@) =~= Seq::<AttributeView>::empty());
            }
            Ok((ts, p2))
        },
    }
}

/// Parses an optional statement type specification.
fn opt_invocation(t: &Vec<PositionedToken>, pos: usize) -> (r: Result<(TypeSpec, usize), PError>)
    requires
        pos <= t@.len(),
    ensures
        fails_within(r, t@.len() as int),
        agrees(r, opt_invocation_spec(t@, pos as int), |v: TypeSpec| v@),
        r matches Ok((_, p)) ==> pos <= p <= t@.len(),
{
    match invocation_type_spec(t, pos) {
        Ok(x) => Ok(x),
        Err(e) => if e.cut {
            Err(e)
        } else {
            let ts = TypeSpec { base_type: None, attributes: Vec::new() };
            proof {
                lemma_type_spec_view(&ts);
                assert(attributes_view(ts.attributes@) =~= Seq::<AttributeView>::empty());
            }
            Ok((ts, pos))
        },
    }
}

/// `type Name = TypeSpec;`
pub open spec fn type_definition_spec(t: Seq<PositionedToken>, pos: int) -> Result<(TypeDefinitionView, int), PErr> {
    if !(0 <= pos < t.len() && t[pos].token is Type) {
        Err(bt(pos))
    } else {
        match ws1_spec(t, pos + 1) {
            Err(e) => Err(e),
            Ok(p1) => match identifier_spec(t, p1) {
                Err(e) => Err(e),
                Ok((name, p2)) => {
                    let p3 = ws0_spec(t, p2);
                    if !(0 <= p3 < t.len() && t[p3].token is Equals) {
                        Err(bt(p3))
                    } else {
                        match type_spec_spec(t, ws0_spec(t, p3 + 1)) {
                            Err(e) => Err(e),
                            Ok((ts, p4)) => match semicolon_spec(t, p4) {
                                Err(e) => Err(e),
                                Ok(p5) => Ok((TypeDefinitionView { name, type_spec: ts }, p5)),
                            },
                        }
                    }
                },
            },
        }
    }
}

/// Whether the token at `pos` is the keyword `type`.
fn type_keyword_at(t: &Vec<PositionedToken>, pos: usize) -> (r: bool)
    ensures
        t@.len() <= usize::MAX,
        r == (pos < t@.len() && t@[pos as int].token is Type),
{
    let n = t.len();
    pos < n && matches!(t[pos].token, Token::Type)
}

/// Parses `type Name = TypeSpec;`.
pub fn type_definition(t: &Vec<PositionedToken>, pos: usize) -> (r: Result<(TypeDefinition, usize), PError>)
    requires
        pos <= t@.len(),
    ensures
        fails_within(r, t@.len() as int),
        agrees(r, type_definition_spec(t@, pos as int), |v: TypeDefinition| v@),
        r matches Ok((_, p)) ==> pos < p <= t@.len(),
{
    if !type_keyword_at(t, pos) {
        return Err(backtrack(pos));
    }
    let p1 = match ws1(t, pos + 1) {
        Ok(p) => p,
        Err(e) => return Err(e),
    };
    let (name, p2) = match identifier(t, p1) {
        Ok(x) => x,
        Err(e) => return Err(e),
    };
    let p3 = ws0(t, p2);
    if !equals_at(t, p3) {
        return Err(backtrack(p3));
    }
    let (type_spec, p4) = match type_spec(t, ws0(t, p3 + 1)) {
        Ok(x) => x,
        Err(e) => return Err(e),
    };
    match semicolon(t, p4) {
        Ok(p5) => Ok((TypeDefinition { name, type_spec }, p5)),
        Err(e) => Err(e),
    }
}

/// The type definitions from `q`, each after optional layout, until one
/// does not parse.
pub open spec fn type_definitions_spec(t: Seq<PositionedToken>, q: int, acc: Seq<TypeDefinitionView>) -> Result<(Seq<TypeDefinitionView>, int), PErr>
    decreases t.len() - q,
{
    match type_definition_spec(t, ws0_spec(t, q)) {
        Ok((td, p)) => if q < p <= t.len() {
            type_definitions_spec(t, p, acc.push(td))
        } else {
            Err(PErr { cut: true, ctx: Seq::empty(), pos: p })
        },
        Err(e) => if e.cut { Err(e) } else { Ok((acc, q)) },
    }
}

/// Parses type definitions.
pub fn type_definitions(t: &Vec<PositionedToken>, pos: usize) -> (r: Result<(Vec<TypeDefinition>, usize), PError>)
    requires
        pos <= t@.len(),
    ensures
        fails_within(r, t@.len() as int),
        agrees(r, type_definitions_spec(t@, pos as int, Seq::empty()), |v: Vec<TypeDefinition>| type_definitions_view(v@)),
        r matches Ok((_, p)) ==> pos <= p <= t@.len(),
{
    let mut acc: Vec<TypeDefinition> = Vec::new();
    let mut q = pos;
    proof {
        assert(type_definitions_view(acc@) =~= Seq::<TypeDefinitionView>::empty());
    }
    loop
        invariant
            pos <= q <= t@.len(),
            type_definitions_spec(t@, pos as int, Seq::empty()) == type_definitions_spec(t@, q as int, type_definitions_view(acc@)),
        decreases t@.len() - q,
    {
        let a = ws0(t, q);
        match type_definition(t, a) {
            Ok((td, p)) => {
                let ghost before = acc@;
                let ghost tdv = td@;
                acc.push(td);
                proof {
                    assert(type_definitions_view(acc@) =~= type_definitions_view(before).push(tdv));
                }
                q = p;
            },
            Err(e) => if e.cut {
                return Err(e);
            } else {
                return Ok((acc, q));
            },
        }
    }
}

/// The arrow of a relation, as text.
pub open spec fn relation_type_spec(t: Seq<PositionedToken>, pos: int) -> Result<(Seq<char>, int), PErr> {
    if 0 <= pos < t.len() {
        match t[pos].token {
            Token::Arrow => Ok(("->"@, pos + 1)),
            Token::LeftArrow => Ok(("<-"@, pos + 1)),
            Token::DoubleArrow => Ok(("<->"@, pos + 1)),
            Token::Plain => Ok(("-"@, pos + 1)),
            _ => Err(bt(pos)),
        }
    } else {
        Err(bt(pos))
    }
}

/// Parses the arrow of a relation.
pub fn relation_type(t: &Vec<PositionedToken>, pos: usize) -> (r: Result<(&'static str, usize), PError>)
    requires
        pos <= t@.len(),
    ensures
        fails_within(r, t@.len() as int),
        agrees(r, relation_type_spec(t@, pos as int), |v: &'static str| v@),
        r matches Ok((_, p)) ==> pos < p <= t@.len(),
{
    if pos < t.len() {
        match &t[pos].token {
            Token::Arrow => return Ok(("->", pos + 1)),
            Token::LeftArrow => return Ok(("<-", pos + 1)),
            Token::DoubleArrow => return Ok(("<->", pos + 1)),
            Token::Plain => return Ok(("-", pos + 1)),
            _ => {},
        }
    }
    Err(backtrack(pos))
}


// ---------------------------------------------------------------------------
// Statements, over abstract values
// ---------------------------------------------------------------------------

/// Whether `x` is past `pos` and within the input.
pub open spec fn fwd(t: Seq<PositionedToken>, pos: int, x: int) -> bool {
    pos < x <= t.len()
}

/// The first result that is not a failure to backtrack over.
pub open spec fn or_else<V>(r1: Result<(V, int), PErr>, r2: Result<(V, int), PErr>) -> Result<(V, int), PErr> {
    match r1 {
        Ok(x) => Ok(x),
        Err(e) => if e.cut { Err(e) } else { r2 },
    }
}

/// The failure of a token that is not the one expected, with a label.
pub open spec fn expected(pos: int, l: Seq<char>) -> PErr {
    labelled(bt(pos), l)
}

/// The keyword blocks with one section.
pub enum SingleBlock {
    Opt,
    Loop,
    Break,
    Critical,
}

/// The keyword blocks with one or more sections.
pub enum MultiBlock {
    Alt,
    Par,
}

impl SingleBlock {
    /// Whether `t` is the block's keyword.
    pub open spec fn is_keyword(self, t: Token) -> bool {
        match self {
            SingleBlock::Opt => t is Opt,
            SingleBlock::Loop => t is Loop,
            SingleBlock::Break => t is Break,
            SingleBlock::Critical => t is Critical,
        }
    }

    /// The label of the block's keyword.
    pub open spec fn keyword_label(self) -> Seq<char> {
        match self {
            SingleBlock::Opt => "Opt keyword"@,
            SingleBlock::Loop => "Loop keyword"@,
            SingleBlock::Break => "Break keyword"@,
            SingleBlock::Critical => "Critical keyword"@,
        }
    }

    /// The label of the block's closing semicolon.
    pub open spec fn semicolon_label(self) -> Seq<char> {
        match self {
            SingleBlock::Opt => "semicolon after Opt block"@,
            SingleBlock::Loop => "semicolon after Loop block"@,
            SingleBlock::Break => "semicolon after Break block"@,
            SingleBlock::Critical => "semicolon after Critical block"@,
        }
    }

    /// The element that the block is.
    pub open spec fn element(self, keyword_span: Span, type_spec: TypeSpecView, section: FragmentSectionView) -> ElementView {
        match self {
            SingleBlock::Opt => ElementView::OptBlock { keyword_span, type_spec, section },
            SingleBlock::Loop => ElementView::LoopBlock { keyword_span, type_spec, section },
            SingleBlock::Break => ElementView::BreakBlock { keyword_span, type_spec, section },
            SingleBlock::Critical => ElementView::CriticalBlock { keyword_span, type_spec, section },
        }
    }
}

impl MultiBlock {
    /// Whether `t` is the block's keyword.
    pub open spec fn is_keyword(self, t: Token) -> bool {
        match self {
            MultiBlock::Alt => t is Alt,
            MultiBlock::Par => t is Par,
        }
    }

    /// Whether `t` starts a further section.
    pub open spec fn is_continuation(self, t: Token) -> bool {
        match self {
            MultiBlock::Alt => t is Else,
            MultiBlock::Par => t is Par,
        }
    }

    /// The label of the block's keyword.
    pub open spec fn keyword_label(self) -> Seq<char> {
        match self {
            MultiBlock::Alt => "Alt keyword"@,
            MultiBlock::Par => "Par keyword"@,
        }
    }

    /// The label of the block's closing semicolon.
    pub open spec fn semicolon_label(self) -> Seq<char> {
        match self {
            MultiBlock::Alt => "semicolon after Alt block"@,
            MultiBlock::Par => "semicolon after Par block"@,
        }
    }

    /// The element that the block is.
    pub open spec fn element(self, keyword_span: Span, type_spec: TypeSpecView, sections: Seq<FragmentSectionView>) -> ElementView {
        match self {
            MultiBlock::Alt => ElementView::AltElseBlock { keyword_span, type_spec, sections },
            MultiBlock::Par => ElementView::ParBlock { keyword_span, type_spec, sections },
        }
    }
}

/// A token, checked at `pos`: the position after it, or a labelled failure.
pub open spec fn expect_spec(t: Seq<PositionedToken>, pos: int, ok: bool, l: Seq<char>) -> Result<int, PErr> {
    if 0 <= pos < t.len() && ok {
        Ok(pos + 1)
    } else {
        Err(expected(pos, l))
    }
}

/// The elements from `q`, each after optional layout, until one does not
/// parse.
pub open spec fn elements_spec(t: Seq<PositionedToken>, q: int, acc: Seq<ElementView>) -> Result<(Seq<ElementView>, int), PErr>
    decreases t.len() - q, 3nat,
{
    if !(0 <= q <= t.len()) {
        Ok((acc, q))
    } else {
        let a = ws0_spec(t, q);
        proof {
            lemma_ws0(t, q);
        }
        match element_spec(t, a) {
            Ok((e, p)) => if fwd(t, q, p) {
                elements_spec(t, p, acc.push(e))
            } else {
                Err(PErr { cut: true, ctx: Seq::empty(), pos: p })
            },
            Err(e) => if e.cut { Err(e) } else { Ok((acc, q)) },
        }
    }
}

/// One element: the statement kinds, tried in order.
pub open spec fn element_spec(t: Seq<PositionedToken>, pos: int) -> Result<(ElementView, int), PErr>
    decreases t.len() - pos, 2nat,
{
    or_else(activate_element_spec(t, pos),
    or_else(deactivate_statement_spec(t, pos),
    or_else(note_element_spec(t, pos),
    or_else(multi_block_spec(t, pos, MultiBlock::Alt),
    or_else(multi_block_spec(t, pos, MultiBlock::Par),
    or_else(single_block_spec(t, pos, SingleBlock::Opt),
    or_else(single_block_spec(t, pos, SingleBlock::Loop),
    or_else(single_block_spec(t, pos, SingleBlock::Break),
    or_else(single_block_spec(t, pos, SingleBlock::Critical),
    or_else(fragment_block_spec(t, pos),
    or_else(relation_spec(t, pos),
    or_else(component_with_elements_spec(t, pos),
    invalid_statement_with_semicolon_spec(t, pos)))))))))))))
}

/// An activate block, or else an activate statement.
pub open spec fn activate_element_spec(t: Seq<PositionedToken>, pos: int) -> Result<(ElementView, int), PErr>
    decreases t.len() - pos, 1nat,
{
    match activate_block_spec(t, pos) {
        Ok(r) => Ok(r),
        Err(_) => activate_statement_spec(t, pos),
    }
}

/// `activate @Type component { elements };`
pub open spec fn activate_block_spec(t: Seq<PositionedToken>, pos: int) -> Result<(ElementView, int), PErr>
    decreases t.len() - pos, 0nat,
{
    match expect_spec(t, pos, 0 <= pos < t.len() && t[pos].token is Activate, "activate keyword"@) {
        Err(e) => Err(e),
        Ok(p0) => match ws1_spec(t, p0) {
            Err(e) => Err(labelled(e, "whitespace after activate"@)),
            Ok(p1) => match opt_invocation_spec(t, p1) {
                Err(e) => Err(e),
                Ok((ts, p2)) => match nested_identifier_spec(t, ws0_spec(t, p2)) {
                    Err(e) => Err(labelled(e, "component nested identifier"@)),
                    Ok((component, p3)) => {
                        let p4 = ws0_spec(t, p3);
                        match expect_spec(t, p4, 0 <= p4 < t.len() && t[p4].token is LeftBrace, "opening brace '{'"@) {
                            Err(e) => Err(e),
                            Ok(p5) => {
                                let p6 = ws0_spec(t, p5);
                                if fwd(t, pos, p6) {
                                    match elements_spec(t, p6, Seq::empty()) {
                                        Err(e) => Err(labelled(e, "activate block content"@)),
                                        Ok((es, p7)) => {
                                            let p8 = ws0_spec(t, p7);
                                            match expect_spec(t, p8, 0 <= p8 < t.len() && t[p8].token is RightBrace, "closing brace '}'"@) {
                                                Err(e) => Err(e),
                                                Ok(p9) => match semicolon_spec(t, ws0_spec(t, p9)) {
                                                    Err(e) => Err(labelled(e, "semicolon after activate block"@)),
                                                    Ok(p10) => Ok((ElementView::ActivateBlock { component, type_spec: ts, elements: es }, p10)),
                                                },
                                            }
                                        },
                                    }
                                } else {
                                    Err(bt(p6))
                                }
                            },
                        }
                    },
                },
            },
        },
    }
}

/// `activate @Type component;`
pub open spec fn activate_statement_spec(t: Seq<PositionedToken>, pos: int) -> Result<(ElementView, int), PErr> {
    match expect_spec(t, pos, 0 <= pos < t.len() && t[pos].token is Activate, "activate keyword"@) {
        Err(e) => Err(e),
        Ok(p0) => match ws1_spec(t, p0) {
            Err(e) => Err(labelled(e, "whitespace after activate"@)),
            Ok(p1) => match opt_invocation_spec(t, p1) {
                Err(e) => Err(e),
                Ok((ts, p2)) => match nested_identifier_spec(t, ws0_spec(t, p2)) {
                    Err(e) => Err(labelled(e, "component nested identifier"@)),
                    Ok((component, p3)) => match semicolon_spec(t, ws0_spec(t, p3)) {
                        Err(e) => Err(labelled(e, "semicolon after activate statement"@)),
                        Ok(p4) => Ok((ElementView::Activate { component, type_spec: ts }, p4)),
                    },
                },
            },
        },
    }
}

/// `deactivate component;`
pub open spec fn deactivate_statement_spec(t: Seq<PositionedToken>, pos: int) -> Result<(ElementView, int), PErr> {
    match expect_spec(t, pos, 0 <= pos < t.len() && t[pos].token is Deactivate, "deactivate keyword"@) {
        Err(e) => Err(e),
        Ok(p0) => match ws1_spec(t, p0) {
            Err(e) => Err(labelled(e, "whitespace after deactivate"@)),
            Ok(p1) => match nested_identifier_spec(t, p1) {
                Err(e) => Err(labelled(e, "component nested identifier"@)),
                Ok((component, p2)) => match semicolon_spec(t, ws0_spec(t, p2)) {
                    Err(e) => Err(labelled(e, "semicolon after deactivate statement"@)),
                    Ok(p3) => Ok((ElementView::Deactivate { component }, p3)),
                },
            },
        },
    }
}

/// `note @Type: "content";`
pub open spec fn note_element_spec(t: Seq<PositionedToken>, pos: int) -> Result<(ElementView, int), PErr> {
    match expect_spec(t, pos, 0 <= pos < t.len() && t[pos].token is Note, "note keyword"@) {
        Err(e) => Err(e),
        Ok(p0) => match opt_invocation_spec(t, ws0_spec(t, p0)) {
            Err(e) => Err(e),
            Ok((ts, p1)) => {
                let p2 = ws0_spec(t, p1);
                match expect_spec(t, p2, 0 <= p2 < t.len() && t[p2].token is Colon, "colon"@) {
                    Err(e) => Err(e),
                    Ok(p3) => match string_literal_spec(t, ws0_spec(t, p3)) {
                        Err(e) => Err(e),
                        Ok((content, p4)) => match semicolon_spec(t, p4) {
                            Err(e) => Err(e),
                            Ok(p5) => Ok((ElementView::Note(NoteView { type_spec: ts, content }), p5)),
                        },
                    },
                }
            },
        },
    }
}

/// A section's content: an optional title, then `{ elements }`.
pub open spec fn parse_section_content_spec(t: Seq<PositionedToken>, pos: int) -> Result<(FragmentSectionView, int), PErr>
    decreases t.len() - pos, 0nat,
{
    let p0 = ws0_spec(t, pos);
    let (title, p1) = match string_literal_spec(t, p0) {
        Ok((s, p)) => (Some(s), p),
        Err(_) => (None, p0),
    };
    let p2 = ws0_spec(t, p1);
    match expect_spec(t, p2, 0 <= p2 < t.len() && t[p2].token is LeftBrace, "opening brace '{'"@) {
        Err(e) => Err(e),
        Ok(p3) => {
            let p4 = ws0_spec(t, p3);
            if fwd(t, pos, p4) {
                match elements_spec(t, p4, Seq::empty()) {
                    Err(e) => Err(e),
                    Ok((es, p5)) => {
                        let p6 = ws0_spec(t, p5);
                        match expect_spec(t, p6, 0 <= p6 < t.len() && t[p6].token is RightBrace, "closing brace '}'"@) {
                            Err(e) => Err(e),
                            Ok(p7) => Ok((FragmentSectionView { title, elements: es }, p7)),
                        }
                    },
                }
            } else {
                Err(bt(p4))
            }
        },
    }
}

/// A keyword block with one section: `opt @Type "title" { ... };` and so on.
pub open spec fn single_block_spec(t: Seq<PositionedToken>, pos: int, kind: SingleBlock) -> Result<(ElementView, int), PErr>
    decreases t.len() - pos, 0nat,
{
    match expect_spec(t, pos, 0 <= pos < t.len() && kind.is_keyword(t[pos].token), kind.keyword_label()) {
        Err(e) => Err(e),
        Ok(p0) => {
            let start = (t.len() - p0) as nat;
            match opt_invocation_spec(t, ws0_spec(t, p0)) {
                Err(e) => Err(committed(e, start)),
                Ok((ts, p1)) => if fwd(t, pos, p1) {
                    match parse_section_content_spec(t, p1) {
                        Err(e) => Err(committed(e, start)),
                        Ok((section, p2)) => match semicolon_spec(t, ws0_spec(t, p2)) {
                            Err(e) => Err(committed(labelled(e, kind.semicolon_label()), start)),
                            Ok(p3) => Ok((kind.element(t[pos].span, ts, section), p3)),
                        },
                    }
                } else {
                    Err(bt(p1))
                },
            }
        },
    }
}

/// The further sections of a keyword block, each after its keyword.
pub open spec fn more_sections_spec(t: Seq<PositionedToken>, q: int, kind: MultiBlock, acc: Seq<FragmentSectionView>) -> Result<(Seq<FragmentSectionView>, int), PErr>
    decreases t.len() - q, 0nat,
{
    let a = ws0_spec(t, q);
    proof {
        if 0 <= q <= t.len() {
            lemma_ws0(t, q);
        }
    }
    if 0 <= q <= t.len() && 0 <= a < t.len() && kind.is_continuation(t[a].token) {
        match parse_section_content_spec(t, a + 1) {
            Err(e) => Err(e),
            Ok((sec, p)) => if fwd(t, q, p) {
                more_sections_spec(t, p, kind, acc.push(sec))
            } else {
                Ok((acc.push(sec), p))
            },
        }
    } else {
        Ok((acc, a))
    }
}

/// A keyword block with one or more sections: `alt "a" { ... } else "b"
/// { ... };`, `par { ... } par { ... };`.
pub open spec fn multi_block_spec(t: Seq<PositionedToken>, pos: int, kind: MultiBlock) -> Result<(ElementView, int), PErr>
    decreases t.len() - pos, 0nat,
{
    match expect_spec(t, pos, 0 <= pos < t.len() && kind.is_keyword(t[pos].token), kind.keyword_label()) {
        Err(e) => Err(e),
        Ok(p0) => {
            let start = (t.len() - p0) as nat;
            match opt_invocation_spec(t, ws0_spec(t, p0)) {
                Err(e) => Err(committed(e, start)),
                Ok((ts, p1)) => if fwd(t, pos, p1) {
                    match parse_section_content_spec(t, p1) {
                        Err(e) => Err(committed(e, start)),
                        Ok((first, p2)) => if fwd(t, pos, p2) {
                            match more_sections_spec(t, p2, kind, seq![first]) {
                                Err(e) => Err(committed(e, start)),
                                Ok((sections, p3)) => match semicolon_spec(t, ws0_spec(t, p3)) {
                                    Err(e) => Err(committed(labelled(e, kind.semicolon_label()), start)),
                                    Ok(p4) => Ok((kind.element(t[pos].span, ts, sections), p4)),
                                },
                            }
                        } else {
                            Err(bt(p2))
                        },
                    }
                } else {
                    Err(bt(p1))
                },
            }
        },
    }
}

/// `section "title" { elements };`
pub open spec fn section_block_spec(t: Seq<PositionedToken>, pos: int) -> Result<(FragmentSectionView, int), PErr>
    decreases t.len() - pos, 0nat,
{
    match expect_spec(t, pos, 0 <= pos < t.len() && t[pos].token is Section, "section keyword"@) {
        Err(e) => Err(e),
        Ok(p0) => {
            let start = (t.len() - p0) as nat;
            let p1 = ws0_spec(t, p0);
            let (title, p2) = match string_literal_spec(t, p1) {
                Ok((s, p)) => (Some(s), p),
                Err(_) => (None, p1),
            };
            let p3 = ws0_spec(t, p2);
            match expect_spec(t, p3, 0 <= p3 < t.len() && t[p3].token is LeftBrace, "opening brace '{'"@) {
                Err(e) => Err(committed(e, start)),
                Ok(p4) => {
                    let p5 = ws0_spec(t, p4);
                    if fwd(t, pos, p5) {
                        match elements_spec(t, p5, Seq::empty()) {
                            Err(e) => Err(committed(labelled(e, "section content"@), start)),
                            Ok((es, p6)) => {
                                let p7 = ws0_spec(t, p6);
                                match expect_spec(t, p7, 0 <= p7 < t.len() && t[p7].token is RightBrace, "closing brace '}'"@) {
                                    Err(e) => Err(committed(e, start)),
                                    Ok(p8) => match semicolon_spec(t, ws0_spec(t, p8)) {
                                        Err(e) => Err(committed(labelled(e, "semicolon after section"@), start)),
                                        Ok(p9) => Ok((FragmentSectionView { title, elements: es }, p9)),
                                    },
                                }
                            },
                        }
                    } else {
                        Err(bt(p5))
                    }
                },
            }
        },
    }
}

/// Sections, each after optional layout, until one does not parse.
pub open spec fn sections_spec(t: Seq<PositionedToken>, q: int, acc: Seq<FragmentSectionView>) -> Result<(Seq<FragmentSectionView>, int), PErr>
    decreases t.len() - q, 1nat,
{
    if !(0 <= q <= t.len()) {
        Ok((acc, q))
    } else {
        let a = ws0_spec(t, q);
        proof {
            lemma_ws0(t, q);
        }
        match section_block_spec(t, a) {
            Ok((sec, p)) => if fwd(t, q, p) {
                sections_spec(t, p, acc.push(sec))
            } else {
                Err(PErr { cut: true, ctx: Seq::empty(), pos: p })
            },
            Err(e) => if e.cut { Err(e) } else { Ok((acc, q)) },
        }
    }
}

/// `fragment @Type "operation" { section ... };`
pub open spec fn fragment_block_spec(t: Seq<PositionedToken>, pos: int) -> Result<(ElementView, int), PErr>
    decreases t.len() - pos, 0nat,
{
    match expect_spec(t, pos, 0 <= pos < t.len() && t[pos].token is Fragment, "fragment keyword"@) {
        Err(e) => Err(e),
        Ok(p0) => {
            let start = (t.len() - p0) as nat;
            match opt_invocation_spec(t, ws0_spec(t, p0)) {
                Err(e) => Err(committed(e, start)),
                Ok((ts, p1)) => match string_literal_spec(t, ws0_spec(t, p1)) {
                    Err(e) => Err(committed(labelled(e, "fragment operation string literal"@), start)),
                    Ok((operation, p2)) => {
                        let p3 = ws0_spec(t, p2);
                        match expect_spec(t, p3, 0 <= p3 < t.len() && t[p3].token is LeftBrace, "opening brace '{'"@) {
                            Err(e) => Err(committed(e, start)),
                            Ok(p4) => {
                                let p5 = ws0_spec(t, p4);
                                proof {
                                    if 0 <= p4 <= t.len() {
                                        lemma_ws0(t, p4);
                                    }
                                    if 0 <= p5 <= t.len() {
                                        lemma_ws0(t, p5);
                                    }
                                }
                                let first = if fwd(t, pos, p5) {
                                    section_block_spec(t, ws0_spec(t, p5))
                                } else {
                                    Err(bt(p5))
                                };
                                let all = match first {
                                    Err(e) => Err(e),
                                    Ok((sec, p6)) => if fwd(t, pos, p6) {
                                        sections_spec(t, p6, seq![sec])
                                    } else {
                                        Err(bt(p6))
                                    },
                                };
                                match all {
                                    Err(e) => Err(committed(labelled(e, "fragment sections"@), start)),
                                    Ok((sections, p7)) => {
                                        let p8 = ws0_spec(t, p7);
                                        match expect_spec(t, p8, 0 <= p8 < t.len() && t[p8].token is RightBrace, "closing brace '}'"@) {
                                            Err(e) => Err(committed(e, start)),
                                            Ok(p9) => match semicolon_spec(t, ws0_spec(t, p9)) {
                                                Err(e) => Err(committed(labelled(e, "semicolon after fragment"@), start)),
                                                Ok(p10) => Ok((ElementView::Fragment(FragmentView { operation, type_spec: ts, sections }), p10)),
                                            },
                                        }
                                    },
                                }
                            },
                        }
                    },
                },
            }
        },
    }
}

/// `source -> @Type target: "label";`
pub open spec fn relation_spec(t: Seq<PositionedToken>, pos: int) -> Result<(ElementView, int), PErr> {
    match nested_identifier_spec(t, pos) {
        Err(e) => Err(e),
        Ok((source, p0)) => match relation_type_spec(t, ws0_spec(t, p0)) {
            Err(e) => Err(e),
            Ok((arrow, p1)) => {
                let start = (t.len() - p1) as nat;
                match opt_invocation_spec(t, ws0_spec(t, p1)) {
                    Err(e) => Err(committed(e, start)),
                    Ok((ts, p2)) => match nested_identifier_spec(t, ws0_spec(t, p2)) {
                        Err(e) => Err(committed(labelled(e, "target identifier after arrow"@), start)),
                        Ok((target, p3)) => {
                            let p4 = ws0_spec(t, p3);
                            let (label, p5) = if 0 <= p4 < t.len() && t[p4].token is Colon {
                                match string_literal_spec(t, ws0_spec(t, p4 + 1)) {
                                    Ok((l, p)) => (Some(l), p),
                                    Err(_) => (None, p4),
                                }
                            } else {
                                (None, p4)
                            };
                            match semicolon_spec(t, p5) {
                                Err(e) => Err(committed(labelled(e, "semicolon after relation"@), start)),
                                Ok(p6) => Ok((ElementView::Relation {
                                    source,
                                    target,
                                    relation_type: SpannedView { value: arrow, span: Span::spec_empty() },
                                    type_spec: ts,
                                    label,
                                }, p6)),
                            }
                        },
                    },
                }
            },
        },
    }
}

/// `name as "Display": Type { elements };` or `name: Type embed diagram
/// kind { ... };`, the display name and the content being optional.
pub open spec fn component_with_elements_spec(t: Seq<PositionedToken>, pos: int) -> Result<(ElementView, int), PErr>
    decreases t.len() - pos, 0nat,
{
    match identifier_spec(t, pos) {
        Err(e) => Err(e),
        Ok((name, p0)) => {
            let p1 = ws0_spec(t, p0);
            let (display_name, p2) = if 0 <= p1 < t.len() && t[p1].token is As {
                match ws1_spec(t, p1 + 1) {
                    Ok(q) => match string_literal_spec(t, q) {
                        Ok((s, q2)) => (Some(s), q2),
                        Err(_) => (None, p1),
                    },
                    Err(_) => (None, p1),
                }
            } else {
                (None, p1)
            };
            let p3 = ws0_spec(t, p2);
            match expect_spec(t, p3, 0 <= p3 < t.len() && t[p3].token is Colon, ""@) {
                Err(_) => Err(bt(p3)),
                Ok(p4) => match type_spec_spec(t, ws0_spec(t, p4)) {
                    Err(e) => Err(e),
                    Ok((ts, p5)) => {
                        let p6 = ws0_spec(t, p5);
                        let nested: Result<(ComponentContentView, int), PErr> = if fwd(t, pos, p6) {
                            match embedded_diagram_spec(t, p6) {
                                Ok((f, p)) => Ok((ComponentContentView::Diagram(DiagramSourceView::Inline(f)), p)),
                                Err(e1) => if e1.cut {
                                    Err(e1)
                                } else if 0 <= p6 < t.len() && t[p6].token is LeftBrace {
                                    let q0 = ws0_spec(t, p6 + 1);
                                    proof {
                                        lemma_ws0(t, p6 + 1);
                                    }
                                    match elements_spec(t, q0, Seq::empty()) {
                                        Err(e) => if e.cut { Err(e) } else { Ok((ComponentContentView::Empty, p6)) },
                                        Ok((es, q1)) => {
                                            let q2 = ws0_spec(t, q1);
                                            if 0 <= q2 < t.len() && t[q2].token is RightBrace {
                                                Ok((ComponentContentView::Scope(es), q2 + 1))
                                            } else {
                                                Ok((ComponentContentView::Empty, p6))
                                            }
                                        },
                                    }
                                } else {
                                    Ok((ComponentContentView::Empty, p6))
                                },
                            }
                        } else {
                            Err(bt(p6))
                        };
                        match nested {
                            Err(e) => Err(e),
                            Ok((content, p7)) => match semicolon_spec(t, ws0_spec(t, p7)) {
                                Err(e) => Err(e),
                                Ok(p8) => Ok((ElementView::Component { name, display_name, type_spec: ts, content }, p8)),
                            },
                        }
                    },
                },
            }
        },
    }
}

/// `diagram kind [attrs]`
pub open spec fn diagram_header_spec(t: Seq<PositionedToken>, pos: int) -> Result<((SpannedView<DiagramKind>, Seq<AttributeView>), int), PErr> {
    if !(0 <= pos < t.len() && t[pos].token is Diagram) {
        Err(bt(pos))
    } else {
        match ws1_spec(t, pos + 1) {
            Err(e) => Err(e),
            Ok(p1) => {
                let kind: Result<(SpannedView<DiagramKind>, int), PErr> = if 0 <= p1 < t.len() && t[p1].token is Component {
                    Ok((SpannedView { value: DiagramKind::Component, span: t[p1].span }, p1 + 1))
                } else if 0 <= p1 < t.len() && t[p1].token is Sequence {
                    Ok((SpannedView { value: DiagramKind::Sequence, span: t[p1].span }, p1 + 1))
                } else {
                    Err(labelled(bt(p1), "diagram type"@))
                };
                match kind {
                    Err(e) => Err(e),
                    Ok((k, p2)) => {
                        let p3 = ws0_spec(t, p2);
                        match wrapped_attributes_spec(t, p3) {
                            Ok((attrs, p4)) => Ok(((k, attrs), p4)),
                            Err(e) => if e.cut { Err(e) } else { Ok(((k, Seq::empty()), p3)) },
                        }
                    },
                }
            },
        }
    }
}

/// `embed diagram kind [attrs] { type definitions elements }`
pub open spec fn embedded_diagram_spec(t: Seq<PositionedToken>, pos: int) -> Result<(FileAstView, int), PErr>
    decreases t.len() - pos, 0nat,
{
    if !(0 <= pos < t.len() && t[pos].token is Embed) {
        Err(bt(pos))
    } else {
        let start = (t.len() - (pos + 1)) as nat;
        match ws1_spec(t, pos + 1) {
            Err(e) => Err(committed(e, start)),
            Ok(p1) => match diagram_header_spec(t, p1) {
                Err(e) => Err(committed(e, start)),
                Ok(((kind, attrs), p2)) => {
                    let p3 = ws0_spec(t, p2);
                    match expect_spec(t, p3, 0 <= p3 < t.len() && t[p3].token is LeftBrace, ""@) {
                        Err(_) => Err(committed(bt(p3), start)),
                        Ok(p4) => match type_definitions_spec(t, ws0_spec(t, p4), Seq::empty()) {
                            Err(e) => Err(committed(e, start)),
                            Ok((tds, p5)) => if fwd(t, pos, p5) {
                                match elements_spec(t, p5, Seq::empty()) {
                                    Err(e) => Err(committed(e, start)),
                                    Ok((es, p6)) => {
                                        let p7 = ws0_spec(t, p6);
                                        if 0 <= p7 < t.len() && t[p7].token is RightBrace {
                                            Ok((FileAstView {
                                                header: FileHeaderView::Diagram { kind, attributes: attrs },
                                                import_decls: Seq::empty(),
                                                imports: Seq::empty(),
                                                type_definitions: tds,
                                                elements: es,
                                            }, p7 + 1))
                                        } else {
                                            Err(committed(bt(p7), start))
                                        }
                                    },
                                }
                            } else {
                                Err(bt(p5))
                            },
                        },
                    }
                },
            },
        }
    }
}

/// The catch-all statement: tokens up to a `;` are a committed failure;
/// reaching `}` or `]` after some content is a committed failure too;
/// otherwise a failure to backtrack over. The start of the statement is
/// recorded.
pub open spec fn invalid_statement_with_semicolon_spec(t: Seq<PositionedToken>, pos: int) -> Result<(ElementView, int), PErr> {
    invalid_scan_spec(t, pos, pos, false)
}

/// The scan of the catch-all statement from `k`, having seen content or
/// not.
pub open spec fn invalid_scan_spec(t: Seq<PositionedToken>, pos: int, k: int, meaningful: bool) -> Result<(ElementView, int), PErr>
    decreases t.len() - k,
{
    let start = (t.len() - pos) as nat;
    if !(0 <= k < t.len()) {
        Err(PErr { cut: false, ctx: seq![Ctx::Start(start)], pos: k })
    } else {
        let tok = t[k].token;
        let seen = meaningful || !(tok is Whitespace || tok is Newline || tok is RightBrace || tok is RightBracket);
        if tok is RightBrace || tok is RightBracket {
            Err(PErr { cut: seen, ctx: seq![Ctx::Start(start)], pos: k })
        } else if tok is Semicolon {
            Err(PErr { cut: true, ctx: seq![Ctx::Start(start)], pos: k + 1 })
        } else {
            invalid_scan_spec(t, pos, k + 1, seen)
        }
    }
}


// ---------------------------------------------------------------------------
// Statements
// ---------------------------------------------------------------------------

/// What token `pos` must be for a check.
#[derive(Clone, Copy)]
enum Expect {
    Activate,
    Deactivate,
    Note,
    Colon,
    LeftBrace,
    RightBrace,
    Section,
    Fragment,
    Embed,
    Diagram,
    As,
    Component,
    Sequence,
}

/// Whether `t` is the token that `x` expects.
spec fn expects(x: Expect, t: Token) -> bool {
    match x {
        Expect::Activate => t is Activate,
        Expect::Deactivate => t is Deactivate,
        Expect::Note => t is Note,
        Expect::Colon => t is Colon,
        Expect::LeftBrace => t is LeftBrace,
        Expect::RightBrace => t is RightBrace,
        Expect::Section => t is Section,
        Expect::Fragment => t is Fragment,
        Expect::Embed => t is Embed,
        Expect::Diagram => t is Diagram,
        Expect::As => t is As,
        Expect::Component => t is Component,
        Expect::Sequence => t is Sequence,
    }
}

/// Whether the token at `pos` is what `x` expects.
fn token_at(t: &Vec<PositionedToken>, pos: usize, x: Expect) -> (r: bool)
    ensures
        t@.len() <= usize::MAX,
        r == (pos < t@.len() && expects(x, t@[pos as int].token)),
{
    let n = t.len();
    if pos >= n {
        return false;
    }
    match (x, &t[pos].token) {
        (Expect::Activate, Token::Activate) => true,
        (Expect::Deactivate, Token::Deactivate) => true,
        (Expect::Note, Token::Note) => true,
        (Expect::Colon, Token::Colon) => true,
        (Expect::LeftBrace, Token::LeftBrace) => true,
        (Expect::RightBrace, Token::RightBrace) => true,
        (Expect::Section, Token::Section) => true,
        (Expect::Fragment, Token::Fragment) => true,
        (Expect::Embed, Token::Embed) => true,
        (Expect::Diagram, Token::Diagram) => true,
        (Expect::As, Token::As) => true,
        (Expect::Component, Token::Component) => true,
        (Expect::Sequence, Token::Sequence) => true,
        _ => false,
    }
}

/// Checks the token at `pos`, failing with the label `l`.
fn expect(t: &Vec<PositionedToken>, pos: usize, x: Expect, l: &'static str) -> (r: Result<usize, PError>)
    requires
        pos <= t@.len(),
    ensures
        fails_within(r, t@.len() as int),
        match r {
            Ok(p) => expect_spec(t@, pos as int, 0 <= pos < t@.len() && expects(x, t@[pos as int].token), l@)
                == Ok::<int, PErr>(p as int) && p == pos + 1 && p <= t@.len(),
            Err(e) => expect_spec(t@, pos as int, 0 <= pos < t@.len() && expects(x, t@[pos as int].token), l@)
                == Err::<int, PErr>(e@),
        },
{
    if token_at(t, pos, x) {
        Ok(pos + 1)
    } else {
        Err(label(backtrack(pos), l))
    }
}


/// The keyword blocks with one section, to parse.
#[derive(Clone, Copy)]
pub enum SingleKind {
    Opt,
    Loop,
    Break,
    Critical,
}

impl SingleKind {
    /// The block kind this is.
    pub open spec fn block(self) -> SingleBlock {
        match self {
            SingleKind::Opt => SingleBlock::Opt,
            SingleKind::Loop => SingleBlock::Loop,
            SingleKind::Break => SingleBlock::Break,
            SingleKind::Critical => SingleBlock::Critical,
        }
    }

    fn keyword_at(self, t: &Vec<PositionedToken>, pos: usize) -> (r: bool)
        ensures
            t@.len() <= usize::MAX,
            r == (pos < t@.len() && self.block().is_keyword(t@[pos as int].token)),
    {
        let n = t.len();
        if pos >= n {
            return false;
        }
        match (self, &t[pos].token) {
            (SingleKind::Opt, Token::Opt) => true,
            (SingleKind::Loop, Token::Loop) => true,
            (SingleKind::Break, Token::Break) => true,
            (SingleKind::Critical, Token::Critical) => true,
            _ => false,
        }
    }

    fn keyword_label(self) -> (r: &'static str)
        ensures
            r@ == self.block().keyword_label(),
    {
        match self {
            SingleKind::Opt => {
                proof { reveal_strlit("Opt keyword"); }
                "Opt keyword"
            },
            SingleKind::Loop => {
                proof { reveal_strlit("Loop keyword"); }
                "Loop keyword"
            },
            SingleKind::Break => {
                proof { reveal_strlit("Break keyword"); }
                "Break keyword"
            },
            SingleKind::Critical => {
                proof { reveal_strlit("Critical keyword"); }
                "Critical keyword"
            },
        }
    }

    fn semicolon_label(self) -> (r: &'static str)
        ensures
            r@ == self.block().semicolon_label(),
    {
        match self {
            SingleKind::Opt => {
                proof { reveal_strlit("semicolon after Opt block"); }
                "semicolon after Opt block"
            },
            SingleKind::Loop => {
                proof { reveal_strlit("semicolon after Loop block"); }
                "semicolon after Loop block"
            },
            SingleKind::Break => {
                proof { reveal_strlit("semicolon after Break block"); }
                "semicolon after Break block"
            },
            SingleKind::Critical => {
                proof { reveal_strlit("semicolon after Critical block"); }
                "semicolon after Critical block"
            },
        }
    }

    fn element(self, keyword_span: Span, type_spec: TypeSpec, section: FragmentSection) -> (r: Element)
        ensures
            r@ == self.block().element(keyword_span, type_spec@, section@),
    {
        let r = match self {
            SingleKind::Opt => Element::OptBlock { keyword_span, type_spec, section },
            SingleKind::Loop => Element::LoopBlock { keyword_span, type_spec, section },
            SingleKind::Break => Element::BreakBlock { keyword_span, type_spec, section },
            SingleKind::Critical => Element::CriticalBlock { keyword_span, type_spec, section },
        };
        proof {
            lemma_element_view(&r);
        }
        r
    }
}

/// The keyword blocks with one or more sections, to parse.
#[derive(Clone, Copy)]
pub enum MultiKind {
    Alt,
    Par,
}

impl MultiKind {
    /// The block kind this is.
    pub open spec fn block(self) -> MultiBlock {
        match self {
            MultiKind::Alt => MultiBlock::Alt,
            MultiKind::Par => MultiBlock::Par,
        }
    }

    fn keyword_at(self, t: &Vec<PositionedToken>, pos: usize) -> (r: bool)
        ensures
            t@.len() <= usize::MAX,
            r == (pos < t@.len() && self.block().is_keyword(t@[pos as int].token)),
    {
        let n = t.len();
        if pos >= n {
            return false;
        }
        match (self, &t[pos].token) {
            (MultiKind::Alt, Token::Alt) => true,
            (MultiKind::Par, Token::Par) => true,
            _ => false,
        }
    }

    fn continuation_at(self, t: &Vec<PositionedToken>, pos: usize) -> (r: bool)
        ensures
            t@.len() <= usize::MAX,
            r == (pos < t@.len() && self.block().is_continuation(t@[pos as int].token)),
    {
        let n = t.len();
        if pos >= n {
            return false;
        }
        match (self, &t[pos].token) {
            (MultiKind::Alt, Token::Else) => true,
            (MultiKind::Par, Token::Par) => true,
            _ => false,
        }
    }

    fn keyword_label(self) -> (r: &'static str)
        ensures
            r@ == self.block().keyword_label(),
    {
        match self {
            MultiKind::Alt => {
                proof { reveal_strlit("Alt keyword"); }
                "Alt keyword"
            },
            MultiKind::Par => {
                proof { reveal_strlit("Par keyword"); }
                "Par keyword"
            },
        }
    }

    fn semicolon_label(self) -> (r: &'static str)
        ensures
            r@ == self.block().semicolon_label(),
    {
        match self {
            MultiKind::Alt => {
                proof { reveal_strlit("semicolon after Alt block"); }
                "semicolon after Alt block"
            },
            MultiKind::Par => {
                proof { reveal_strlit("semicolon after Par block"); }
                "semicolon after Par block"
            },
        }
    }

    fn element(self, keyword_span: Span, type_spec: TypeSpec, sections: Vec<FragmentSection>) -> (r: Element)
        ensures
            r@ == self.block().element(keyword_span, type_spec@, sections_view(sections@)),
    {
        let r = match self {
            MultiKind::Alt => Element::AltElseBlock { keyword_span, type_spec, sections },
            MultiKind::Par => Element::ParBlock { keyword_span, type_spec, sections },
        };
        proof {
            lemma_element_view(&r);
        }
        r
    }
}


/// Parses elements, each after optional layout, until one does not parse.
pub fn elements(t: &Vec<PositionedToken>, q0: usize) -> (r: Result<(Vec<Element>, usize), PError>)
    requires
        q0 <= t@.len(),
    ensures
        fails_within(r, t@.len() as int),
        agrees(r, elements_spec(t@, q0 as int, Seq::empty()), |v: Vec<Element>| elements_view(v@)),
        r matches Ok((_, p)) ==> q0 <= p <= t@.len(),
    decreases t@.len() - q0, 3nat,
{
    let mut acc: Vec<Element> = Vec::new();
    let mut q = q0;
    proof {
        assert(elements_view(acc@) =~= Seq::<ElementView>::empty());
    }
    loop
        invariant
            q0 <= q <= t@.len(),
            elements_spec(t@, q0 as int, Seq::empty()) == elements_spec(t@, q as int, elements_view(acc@)),
        decreases t@.len() - q,
    {
        let a = ws0(t, q);
        match element(t, a) {
            Ok((e, p)) => {
                let ghost before = acc@;
                acc.push(e);
                proof {
                    assert(acc@.subrange(0, acc@.len() - 1) =~= before);
                }
                q = p;
            },
            Err(e) => if e.cut {
                return Err(e);
            } else {
                return Ok((acc, q));
            },
        }
    }
}

/// Parses one element: the statement kinds, tried in order.
pub fn element(t: &Vec<PositionedToken>, pos: usize) -> (r: Result<(Element, usize), PError>)
    requires
        pos <= t@.len(),
    ensures
        fails_within(r, t@.len() as int),
        agrees(r, element_spec(t@, pos as int), |v: Element| v@),
        r matches Ok((_, p)) ==> pos < p <= t@.len(),
    decreases t@.len() - pos, 2nat,
{
    match activate_element(t, pos) {
        Ok(x) => return Ok(x),
        Err(e) => if e.cut { return Err(e); },
    }
    match deactivate_statement(t, pos) {
        Ok(x) => return Ok(x),
        Err(e) => if e.cut { return Err(e); },
    }
    match note_element(t, pos) {
        Ok(x) => return Ok(x),
        Err(e) => if e.cut { return Err(e); },
    }
    match multi_block(t, pos, MultiKind::Alt) {
        Ok(x) => return Ok(x),
        Err(e) => if e.cut { return Err(e); },
    }
    match multi_block(t, pos, MultiKind::Par) {
        Ok(x) => return Ok(x),
        Err(e) => if e.cut { return Err(e); },
    }
    match single_block(t, pos, SingleKind::Opt) {
        Ok(x) => return Ok(x),
        Err(e) => if e.cut { return Err(e); },
    }
    match single_block(t, pos, SingleKind::Loop) {
        Ok(x) => return Ok(x),
        Err(e) => if e.cut { return Err(e); },
    }
    match single_block(t, pos, SingleKind::Break) {
        Ok(x) => return Ok(x),
        Err(e) => if e.cut { return Err(e); },
    }
    match single_block(t, pos, SingleKind::Critical) {
        Ok(x) => return Ok(x),
        Err(e) => if e.cut { return Err(e); },
    }
    match fragment_block(t, pos) {
        Ok(x) => return Ok(x),
        Err(e) => if e.cut { return Err(e); },
    }
    match relation(t, pos) {
        Ok(x) => return Ok(x),
        Err(e) => if e.cut { return Err(e); },
    }
    match component_with_elements(t, pos) {
        Ok(x) => return Ok(x),
        Err(e) => if e.cut { return Err(e); },
    }
    Err(invalid_statement_with_semicolon(t, pos))
}

/// Parses an activate block, or else an activate statement.
fn activate_element(t: &Vec<PositionedToken>, pos: usize) -> (r: Result<(Element, usize), PError>)
    requires
        pos <= t@.len(),
    ensures
        fails_within(r, t@.len() as int),
        agrees(r, activate_element_spec(t@, pos as int), |v: Element| v@),
        r matches Ok((_, p)) ==> pos < p <= t@.len(),
    decreases t@.len() - pos, 1nat,
{
    match activate_block(t, pos) {
        Ok(x) => Ok(x),
        Err(_) => activate_statement(t, pos),
    }
}

/// Parses `activate @Type component { elements };`.
pub fn activate_block(t: &Vec<PositionedToken>, pos: usize) -> (r: Result<(Element, usize), PError>)
    requires
        pos <= t@.len(),
    ensures
        fails_within(r, t@.len() as int),
        agrees(r, activate_block_spec(t@, pos as int), |v: Element| v@),
        r matches Ok((_, p)) ==> pos < p <= t@.len(),
    decreases t@.len() - pos, 0nat,
{
    let p0 = match expect(t, pos, Expect::Activate, "activate keyword") {
        Ok(p) => p,
        Err(e) => return Err(e),
    };
    let p1 = match ws1(t, p0) {
        Ok(p) => p,
        Err(e) => return Err(label(e, "whitespace after activate")),
    };
    let (type_spec, p2) = match opt_invocation(t, p1) {
        Ok(x) => x,
        Err(e) => return Err(e),
    };
    let (component, p3) = match nested_identifier(t, ws0(t, p2)) {
        Ok(x) => x,
        Err(e) => return Err(label(e, "component nested identifier")),
    };
    let p4 = ws0(t, p3);
    let p5 = match expect(t, p4, Expect::LeftBrace, "opening brace '{'") {
        Ok(p) => p,
        Err(e) => return Err(e),
    };
    let p6 = ws0(t, p5);
    let (elements, p7) = match elements(t, p6) {
        Ok(x) => x,
        Err(e) => return Err(label(e, "activate block content")),
    };
    let p8 = ws0(t, p7);
    let p9 = match expect(t, p8, Expect::RightBrace, "closing brace '}'") {
        Ok(p) => p,
        Err(e) => return Err(e),
    };
    let p10 = match semicolon(t, ws0(t, p9)) {
        Ok(p) => p,
        Err(e) => return Err(label(e, "semicolon after activate block")),
    };
    let el = Element::ActivateBlock { component, type_spec, elements };
    proof {
        lemma_element_view(&el);
    }
    Ok((el, p10))
}

/// Parses `activate @Type component;`.
pub fn activate_statement(t: &Vec<PositionedToken>, pos: usize) -> (r: Result<(Element, usize), PError>)
    requires
        pos <= t@.len(),
    ensures
        fails_within(r, t@.len() as int),
        agrees(r, activate_statement_spec(t@, pos as int), |v: Element| v@),
        r matches Ok((_, p)) ==> pos < p <= t@.len(),
{
    let p0 = match expect(t, pos, Expect::Activate, "activate keyword") {
        Ok(p) => p,
        Err(e) => return Err(e),
    };
    let p1 = match ws1(t, p0) {
        Ok(p) => p,
        Err(e) => return Err(label(e, "whitespace after activate")),
    };
    let (type_spec, p2) = match opt_invocation(t, p1) {
        Ok(x) => x,
        Err(e) => return Err(e),
    };
    let (component, p3) = match nested_identifier(t, ws0(t, p2)) {
        Ok(x) => x,
        Err(e) => return Err(label(e, "component nested identifier")),
    };
    let p4 = match semicolon(t, ws0(t, p3)) {
        Ok(p) => p,
        Err(e) => return Err(label(e, "semicolon after activate statement")),
    };
    let el = Element::Activate { component, type_spec };
    proof {
        lemma_element_view(&el);
    }
    Ok((el, p4))
}

/// Parses `deactivate component;`.
pub fn deactivate_statement(t: &Vec<PositionedToken>, pos: usize) -> (r: Result<(Element, usize), PError>)
    requires
        pos <= t@.len(),
    ensures
        fails_within(r, t@.len() as int),
        agrees(r, deactivate_statement_spec(t@, pos as int), |v: Element| v@),
        r matches Ok((_, p)) ==> pos < p <= t@.len(),
{
    let p0 = match expect(t, pos, Expect::Deactivate, "deactivate keyword") {
        Ok(p) => p,
        Err(e) => return Err(e),
    };
    let p1 = match ws1(t, p0) {
        Ok(p) => p,
        Err(e) => return Err(label(e, "whitespace after deactivate")),
    };
    let (component, p2) = match nested_identifier(t, p1) {
        Ok(x) => x,
        Err(e) => return Err(label(e, "component nested identifier")),
    };
    let p3 = match semicolon(t, ws0(t, p2)) {
        Ok(p) => p,
        Err(e) => return Err(label(e, "semicolon after deactivate statement")),
    };
    let el = Element::Deactivate { component };
    proof {
        lemma_element_view(&el);
    }
    Ok((el, p3))
}

/// Parses `note @Type: "content";`.
pub fn note_element(t: &Vec<PositionedToken>, pos: usize) -> (r: Result<(Element, usize), PError>)
    requires
        pos <= t@.len(),
    ensures
        fails_within(r, t@.len() as int),
        agrees(r, note_element_spec(t@, pos as int), |v: Element| v@),
        r matches Ok((_, p)) ==> pos < p <= t@.len(),
{
    let p0 = match expect(t, pos, Expect::Note, "note keyword") {
        Ok(p) => p,
        Err(e) => return Err(e),
    };
    let (type_spec, p1) = match opt_invocation(t, ws0(t, p0)) {
        Ok(x) => x,
        Err(e) => return Err(e),
    };
    let p2 = ws0(t, p1);
    let p3 = match expect(t, p2, Expect::Colon, "colon") {
        Ok(p) => p,
        Err(e) => return Err(e),
    };
    let (content, p4) = match string_literal(t, ws0(t, p3)) {
        Ok(x) => x,
        Err(e) => return Err(e),
    };
    let p5 = match semicolon(t, p4) {
        Ok(p) => p,
        Err(e) => return Err(e),
    };
    let el = Element::Note(Note { type_spec, content });
    proof {
        lemma_element_view(&el);
    }
    Ok((el, p5))
}

/// Parses a section's content: an optional title, then `{ elements }`.
fn parse_section_content(t: &Vec<PositionedToken>, pos: usize) -> (r: Result<(FragmentSection, usize), PError>)
    requires
        pos <= t@.len(),
    ensures
        fails_within(r, t@.len() as int),
        agrees(r, parse_section_content_spec(t@, pos as int), |v: FragmentSection| v@),
        r matches Ok((_, p)) ==> pos < p <= t@.len(),
    decreases t@.len() - pos, 0nat,
{
    let p0 = ws0(t, pos);
    let (title, p1) = match string_literal(t, p0) {
        Ok((s, p)) => (Some(s), p),
        Err(_) => (None, p0),
    };
    let p2 = ws0(t, p1);
    let p3 = match expect(t, p2, Expect::LeftBrace, "opening brace '{'") {
        Ok(p) => p,
        Err(e) => return Err(e),
    };
    let p4 = ws0(t, p3);
    let (elements, p5) = match elements(t, p4) {
        Ok(x) => x,
        Err(e) => return Err(e),
    };
    let p6 = ws0(t, p5);
    let p7 = match expect(t, p6, Expect::RightBrace, "closing brace '}'") {
        Ok(p) => p,
        Err(e) => return Err(e),
    };
    let sec = FragmentSection { title, elements };
    proof {
        lemma_section_view(&sec);
    }
    Ok((sec, p7))
}

/// Parses a keyword block with one section.
pub fn single_block(t: &Vec<PositionedToken>, pos: usize, kind: SingleKind) -> (r: Result<(Element, usize), PError>)
    requires
        pos <= t@.len(),
    ensures
        fails_within(r, t@.len() as int),
        agrees(r, single_block_spec(t@, pos as int, kind.block()), |v: Element| v@),
        r matches Ok((_, p)) ==> pos < p <= t@.len(),
    decreases t@.len() - pos, 0nat,
{
    if !kind.keyword_at(t, pos) {
        return Err(label(backtrack(pos), kind.keyword_label()));
    }
    let keyword_span = t[pos].span;
    let p0 = pos + 1;
    let start = t.len() - p0;
    let (type_spec, p1) = match opt_invocation(t, ws0(t, p0)) {
        Ok(x) => x,
        Err(e) => return Err(commit(e, start)),
    };
    let (section, p2) = match parse_section_content(t, p1) {
        Ok(x) => x,
        Err(e) => return Err(commit(e, start)),
    };
    let p3 = match semicolon(t, ws0(t, p2)) {
        Ok(p) => p,
        Err(e) => return Err(commit(label(e, kind.semicolon_label()), start)),
    };
    Ok((kind.element(keyword_span, type_spec, section), p3))
}

/// Parses the further sections of a keyword block.
fn more_sections(t: &Vec<PositionedToken>, q0: usize, kind: MultiKind, acc0: Vec<FragmentSection>) -> (r: Result<(Vec<FragmentSection>, usize), PError>)
    requires
        q0 <= t@.len(),
    ensures
        fails_within(r, t@.len() as int),
        agrees(r, more_sections_spec(t@, q0 as int, kind.block(), sections_view(acc0@)), |v: Vec<FragmentSection>| sections_view(v@)),
        r matches Ok((_, p)) ==> q0 <= p <= t@.len(),
    decreases t@.len() - q0, 0nat,
{
    let mut acc = acc0;
    let mut q = q0;
    loop
        invariant
            q0 <= q <= t@.len(),
            more_sections_spec(t@, q0 as int, kind.block(), sections_view(acc0@))
                == more_sections_spec(t@, q as int, kind.block(), sections_view(acc@)),
        decreases t@.len() - q,
    {
        let a = ws0(t, q);
        if !kind.continuation_at(t, a) {
            return Ok((acc, a));
        }
        match parse_section_content(t, a + 1) {
            Ok((sec, p)) => {
                let ghost before = acc@;
                let ghost sv = sec@;
                acc.push(sec);
                proof {
                    assert(sections_view(acc@) =~= sections_view(before).push(sv));
                }
                q = p;
            },
            Err(e) => return Err(e),
        }
    }
}

/// Parses a keyword block with one or more sections.
pub fn multi_block(t: &Vec<PositionedToken>, pos: usize, kind: MultiKind) -> (r: Result<(Element, usize), PError>)
    requires
        pos <= t@.len(),
    ensures
        fails_within(r, t@.len() as int),
        agrees(r, multi_block_spec(t@, pos as int, kind.block()), |v: Element| v@),
        r matches Ok((_, p)) ==> pos < p <= t@.len(),
    decreases t@.len() - pos, 0nat,
{
    if !kind.keyword_at(t, pos) {
        return Err(label(backtrack(pos), kind.keyword_label()));
    }
    let keyword_span = t[pos].span;
    let p0 = pos + 1;
    let start = t.len() - p0;
    let (type_spec, p1) = match opt_invocation(t, ws0(t, p0)) {
        Ok(x) => x,
        Err(e) => return Err(commit(e, start)),
    };
    let (first, p2) = match parse_section_content(t, p1) {
        Ok(x) => x,
        Err(e) => return Err(commit(e, start)),
    };
    let ghost fv = first@;
    let mut acc: Vec<FragmentSection> = Vec::new();
    acc.push(first);
    proof {
        assert(sections_view(acc@) =~= seq![fv]);
    }
    let (sections, p3) = match more_sections(t, p2, kind, acc) {
        Ok(x) => x,
        Err(e) => return Err(commit(e, start)),
    };
    let p4 = match semicolon(t, ws0(t, p3)) {
        Ok(p) => p,
        Err(e) => return Err(commit(label(e, kind.semicolon_label()), start)),
    };
    Ok((kind.element(keyword_span, type_spec, sections), p4))
}

/// Parses `section "title" { elements };`.
#[verifier::rlimit(40)]
pub fn section_block(t: &Vec<PositionedToken>, pos: usize) -> (r: Result<(FragmentSection, usize), PError>)
    requires
        pos <= t@.len(),
    ensures
        fails_within(r, t@.len() as int),
        agrees(r, section_block_spec(t@, pos as int), |v: FragmentSection| v@),
        r matches Ok((_, p)) ==> pos < p <= t@.len(),
    decreases t@.len() - pos, 0nat,
{
    let p0 = match expect(t, pos, Expect::Section, "section keyword") {
        Ok(p) => p,
        Err(e) => return Err(e),
    };
    let start = t.len() - p0;
    let p1 = ws0(t, p0);
    let (title, p2) = match string_literal(t, p1) {
        Ok((s, p)) => (Some(s), p),
        Err(_) => (None, p1),
    };
    let p3 = ws0(t, p2);
    let p4 = match expect(t, p3, Expect::LeftBrace, "opening brace '{'") {
        Ok(p) => p,
        Err(e) => return Err(commit(e, start)),
    };
    let p5 = ws0(t, p4);
    let (elements, p6) = match elements(t, p5) {
        Ok(x) => x,
        Err(e) => return Err(commit(label(e, "section content"), start)),
    };
    let p7 = ws0(t, p6);
    let p8 = match expect(t, p7, Expect::RightBrace, "closing brace '}'") {
        Ok(p) => p,
        Err(e) => return Err(commit(e, start)),
    };
    let p9 = match semicolon(t, ws0(t, p8)) {
        Ok(p) => p,
        Err(e) => return Err(commit(label(e, "semicolon after section"), start)),
    };
    let sec = FragmentSection { title, elements };
    proof {
        lemma_section_view(&sec);
    }
    Ok((sec, p9))
}

/// Parses sections, each after optional layout, until one does not parse.
fn sections(t: &Vec<PositionedToken>, q0: usize, acc0: Vec<FragmentSection>) -> (r: Result<(Vec<FragmentSection>, usize), PError>)
    requires
        q0 <= t@.len(),
    ensures
        fails_within(r, t@.len() as int),
        agrees(r, sections_spec(t@, q0 as int, sections_view(acc0@)), |v: Vec<FragmentSection>| sections_view(v@)),
        r matches Ok((_, p)) ==> q0 <= p <= t@.len(),
    decreases t@.len() - q0, 1nat,
{
    let mut acc = acc0;
    let mut q = q0;
    loop
        invariant
            q0 <= q <= t@.len(),
            sections_spec(t@, q0 as int, sections_view(acc0@)) == sections_spec(t@, q as int, sections_view(acc@)),
        decreases t@.len() - q,
    {
        let a = ws0(t, q);
        match section_block(t, a) {
            Ok((sec, p)) => {
                let ghost before = acc@;
                let ghost sv = sec@;
                acc.push(sec);
                proof {
                    assert(sections_view(acc@) =~= sections_view(before).push(sv));
                }
                q = p;
            },
            Err(e) => if e.cut {
                return Err(e);
            } else {
                return Ok((acc, q));
            },
        }
    }
}

/// Parses `fragment @Type "operation" { section ... };`.
pub fn fragment_block(t: &Vec<PositionedToken>, pos: usize) -> (r: Result<(Element, usize), PError>)
    requires
        pos <= t@.len(),
    ensures
        fails_within(r, t@.len() as int),
        agrees(r, fragment_block_spec(t@, pos as int), |v: Element| v@),
        r matches Ok((_, p)) ==> pos < p <= t@.len(),
    decreases t@.len() - pos, 0nat,
{
    let p0 = match expect(t, pos, Expect::Fragment, "fragment keyword") {
        Ok(p) => p,
        Err(e) => return Err(e),
    };
    let start = t.len() - p0;
    let (type_spec, p1) = match opt_invocation(t, ws0(t, p0)) {
        Ok(x) => x,
        Err(e) => return Err(commit(e, start)),
    };
    let (operation, p2) = match string_literal(t, ws0(t, p1)) {
        Ok(x) => x,
        Err(e) => return Err(commit(label(e, "fragment operation string literal"), start)),
    };
    let p3 = ws0(t, p2);
    let p4 = match expect(t, p3, Expect::LeftBrace, "opening brace '{'") {
        Ok(p) => p,
        Err(e) => return Err(commit(e, start)),
    };
    let p5 = ws0(t, p4);
    proof {
        lemma_ws0(t@, p4 as int);
        lemma_ws0(t@, p5 as int);
    }
    let (first, p6) = match section_block(t, ws0(t, p5)) {
        Ok(x) => x,
        Err(e) => return Err(commit(label(e, "fragment sections"), start)),
    };
    let ghost fv = first@;
    let mut acc: Vec<FragmentSection> = Vec::new();
    acc.push(first);
    proof {
        assert(sections_view(acc@) =~= seq![fv]);
    }
    let (sections, p7) = match sections(t, p6, acc) {
        Ok(x) => x,
        Err(e) => return Err(commit(label(e, "fragment sections"), start)),
    };
    let p8 = ws0(t, p7);
    let p9 = match expect(t, p8, Expect::RightBrace, "closing brace '}'") {
        Ok(p) => p,
        Err(e) => return Err(commit(e, start)),
    };
    let p10 = match semicolon(t, ws0(t, p9)) {
        Ok(p) => p,
        Err(e) => return Err(commit(label(e, "semicolon after fragment"), start)),
    };
    let f = Fragment { operation, type_spec, sections };
    proof {
        lemma_fragment_view(&f);
    }
    let el = Element::Fragment(f);
    proof {
        lemma_element_view(&el);
    }
    Ok((el, p10))
}

/// Parses `source -> @Type target: "label";`.
pub fn relation(t: &Vec<PositionedToken>, pos: usize) -> (r: Result<(Element, usize), PError>)
    requires
        pos <= t@.len(),
    ensures
        fails_within(r, t@.len() as int),
        agrees(r, relation_spec(t@, pos as int), |v: Element| v@),
        r matches Ok((_, p)) ==> pos < p <= t@.len(),
{
    let (source, p0) = match nested_identifier(t, pos) {
        Ok(x) => x,
        Err(e) => return Err(e),
    };
    let (arrow, p1) = match relation_type(t, ws0(t, p0)) {
        Ok(x) => x,
        Err(e) => return Err(e),
    };
    let start = t.len() - p1;
    let (type_spec, p2) = match opt_invocation(t, ws0(t, p1)) {
        Ok(x) => x,
        Err(e) => return Err(commit(e, start)),
    };
    let (target, p3) = match nested_identifier(t, ws0(t, p2)) {
        Ok(x) => x,
        Err(e) => return Err(commit(label(e, "target identifier after arrow"), start)),
    };
    let p4 = ws0(t, p3);
    let (relation_label, p5) = if token_at(t, p4, Expect::Colon) {
        match string_literal(t, ws0(t, p4 + 1)) {
            Ok((l, p)) => (Some(l), p),
            Err(_) => (None, p4),
        }
    } else {
        (None, p4)
    };
    let p6 = match semicolon(t, p5) {
        Ok(p) => p,
        Err(e) => return Err(commit(label(e, "semicolon after relation"), start)),
    };
    let el = Element::Relation {
        source,
        target,
        relation_type: Spanned::new(String::from_str(arrow), Span::empty()),
        type_spec,
        label: relation_label,
    };
    proof {
        lemma_element_view(&el);
    }
    Ok((el, p6))
}

/// Parses a component: `name as "Display": Type { elements };` or with an
/// embedded diagram; the display name and the content are optional.
pub fn component_with_elements(t: &Vec<PositionedToken>, pos: usize) -> (r: Result<(Element, usize), PError>)
    requires
        pos <= t@.len(),
    ensures
        fails_within(r, t@.len() as int),
        agrees(r, component_with_elements_spec(t@, pos as int), |v: Element| v@),
        r matches Ok((_, p)) ==> pos < p <= t@.len(),
    decreases t@.len() - pos, 0nat,
{
    let (name, p0) = match identifier(t, pos) {
        Ok(x) => x,
        Err(e) => return Err(e),
    };
    let p1 = ws0(t, p0);
    let (display_name, p2) = if token_at(t, p1, Expect::As) {
        match ws1(t, p1 + 1) {
            Ok(q) => match string_literal(t, q) {
                Ok((s, q2)) => (Some(s), q2),
                Err(_) => (None, p1),
            },
            Err(_) => (None, p1),
        }
    } else {
        (None, p1)
    };
    let p3 = ws0(t, p2);
    if !token_at(t, p3, Expect::Colon) {
        return Err(backtrack(p3));
    }
    let (type_spec, p5) = match type_spec(t, ws0(t, p3 + 1)) {
        Ok(x) => x,
        Err(e) => return Err(e),
    };
    let p6 = ws0(t, p5);
    let (content, p7) = match embedded_diagram(t, p6) {
        Ok((f, p)) => {
            let c = ComponentContent::Diagram(DiagramSource::Inline(Box::new(f)));
            proof {
                lemma_content_view(&c);
            }
            (c, p)
        },
        Err(e1) => if e1.cut {
            return Err(e1);
        } else if token_at(t, p6, Expect::LeftBrace) {
            let q0 = ws0(t, p6 + 1);
            match elements(t, q0) {
                Err(e) => if e.cut {
                    return Err(e);
                } else {
                    (ComponentContent::Empty, p6)
                },
                Ok((es, q1)) => {
                    let q2 = ws0(t, q1);
                    if token_at(t, q2, Expect::RightBrace) {
                        let c = ComponentContent::Scope(es);
                        proof {
                            lemma_content_view(&c);
                        }
                        (c, q2 + 1)
                    } else {
                        (ComponentContent::Empty, p6)
                    }
                },
            }
        } else {
            (ComponentContent::Empty, p6)
        },
    };
    let p8 = match semicolon(t, ws0(t, p7)) {
        Ok(p) => p,
        Err(e) => return Err(e),
    };
    let el = Element::Component { name, display_name, type_spec, content };
    proof {
        lemma_element_view(&el);
    }
    Ok((el, p8))
}

/// Parses `diagram kind [attrs]`.
pub fn diagram_header(t: &Vec<PositionedToken>, pos: usize) -> (r: Result<((Spanned<DiagramKind>, Vec<Attribute>), usize), PError>)
    requires
        pos <= t@.len(),
    ensures
        fails_within(r, t@.len() as int),
        agrees(r, diagram_header_spec(t@, pos as int),
            |v: (Spanned<DiagramKind>, Vec<Attribute>)| (v.0@, attributes_view(v.1@))),
        r matches Ok((_, p)) ==> pos < p <= t@.len(),
{
    if !token_at(t, pos, Expect::Diagram) {
        return Err(backtrack(pos));
    }
    let p1 = match ws1(t, pos + 1) {
        Ok(p) => p,
        Err(e) => return Err(e),
    };
    let kind = if token_at(t, p1, Expect::Component) {
        Spanned::new(DiagramKind::Component, t[p1].span)
    } else if token_at(t, p1, Expect::Sequence) {
        Spanned::new(DiagramKind::Sequence, t[p1].span)
    } else {
        return Err(label(backtrack(p1), "diagram type"));
    };
    let p2 = p1 + 1;
    let p3 = ws0(t, p2);
    match wrapped_attributes(t, p3) {
        Ok((attributes, p4)) => Ok(((kind, attributes), p4)),
        Err(e) => if e.cut {
            Err(e)
        } else {
            let empty: Vec<Attribute> = Vec::new();
            proof {
                assert(attributes_view(empty@) =~= Seq::<AttributeView>::empty());
            }
            Ok(((kind, empty), p3))
        },
    }
}

/// Parses an embedded diagram: `embed diagram kind [attrs] { type
/// definitions elements }`.
pub fn embedded_diagram(t: &Vec<PositionedToken>, pos: usize) -> (r: Result<(FileAst, usize), PError>)
    requires
        pos <= t@.len(),
    ensures
        fails_within(r, t@.len() as int),
        agrees(r, embedded_diagram_spec(t@, pos as int), |v: FileAst| v@),
        r matches Ok((_, p)) ==> pos < p <= t@.len(),
    decreases t@.len() - pos, 0nat,
{
    if !token_at(t, pos, Expect::Embed) {
        return Err(backtrack(pos));
    }
    let start = t.len() - (pos + 1);
    let p1 = match ws1(t, pos + 1) {
        Ok(p) => p,
        Err(e) => return Err(commit(e, start)),
    };
    let ((kind, attributes), p2) = match diagram_header(t, p1) {
        Ok(x) => x,
        Err(e) => return Err(commit(e, start)),
    };
    let p3 = ws0(t, p2);
    if !token_at(t, p3, Expect::LeftBrace) {
        return Err(commit(backtrack(p3), start));
    }
    let p4 = p3 + 1;
    let (type_definitions, p5) = match type_definitions(t, ws0(t, p4)) {
        Ok(x) => x,
        Err(e) => return Err(commit(e, start)),
    };
    let (elements, p6) = match elements(t, p5) {
        Ok(x) => x,
        Err(e) => return Err(commit(e, start)),
    };
    let p7 = ws0(t, p6);
    if !token_at(t, p7, Expect::RightBrace) {
        return Err(commit(backtrack(p7), start));
    }
    let header = FileHeader::Diagram { kind, attributes };
    proof {
        lemma_header_view(&header);
    }
    let f = FileAst {
        header,
        import_decls: Vec::new(),
        imports: Vec::new(),
        type_definitions,
        elements,
    };
    proof {
        lemma_file_view(&f);
        assert(f@.import_decls =~= Seq::<SpannedView<crate::ast::ImportDeclView>>::empty());
        assert(f@.imports =~= Seq::<crate::ast::ImportView>::empty());
    }
    Ok((f, p7 + 1))
}

/// Checks the catch-all statement: the tokens up to a `;` make a committed
/// failure, and so does reaching `}` or `]` after some content; otherwise
/// the failure may be backtracked over. The start of the statement is
/// recorded.
fn invalid_statement_with_semicolon(t: &Vec<PositionedToken>, pos: usize) -> (r: PError)
    requires
        pos <= t@.len(),
    ensures
        invalid_statement_with_semicolon_spec(t@, pos as int) == Err::<(ElementView, int), PErr>(r@),
        within(r@, t@.len() as int),
{
    let start = t.len() - pos;
    let mut k = pos;
    let mut meaningful = false;
    let n = t.len();
    loop
        invariant
            pos <= k <= n,
            n == t@.len(),
            start == n - pos,
            invalid_statement_with_semicolon_spec(t@, pos as int) == invalid_scan_spec(t@, pos as int, k as int, meaningful),
        decreases n - k,
    {
        if k >= n {
            let mut contexts: Vec<Context> = Vec::new();
            contexts.push(Context::StartOffset(start));
            let r = PError { cut: false, contexts, pos: k };
            proof {
                assert(r@.ctx =~= seq![Ctx::Start(start as nat)]);
            }
            return r;
        }
        let (closing, stop, seen) = match &t[k].token {
            Token::RightBrace | Token::RightBracket => (true, false, meaningful),
            Token::Semicolon => (false, true, true),
            Token::Whitespace | Token::Newline => (false, false, meaningful),
            _ => (false, false, true),
        };
        if closing || stop {
            let mut contexts: Vec<Context> = Vec::new();
            contexts.push(Context::StartOffset(start));
            let r = if closing {
                PError { cut: seen, contexts, pos: k }
            } else {
                PError { cut: true, contexts, pos: k + 1 }
            };
            proof {
                assert(r@.ctx =~= seq![Ctx::Start(start as nat)]);
            }
            return r;
        }
        meaningful = seen;
        k = k + 1;
    }
}


// ---------------------------------------------------------------------------
// Files
// ---------------------------------------------------------------------------

/// `diagram kind [attrs];`
pub open spec fn diagram_header_with_semicolon_spec(t: Seq<PositionedToken>, pos: int) -> Result<((SpannedView<DiagramKind>, Seq<AttributeView>), int), PErr> {
    match diagram_header_spec(t, pos) {
        Err(e) => Err(e),
        Ok((h, p)) => match semicolon_spec(t, p) {
            Err(e) => Err(e),
            Ok(q) => Ok((h, q)),
        },
    }
}

/// Parses `diagram kind [attrs];` at `pos`: the diagram kind with its span
/// and the attributes (none when the brackets are left out), and the
/// position after the semicolon.
pub fn diagram_header_with_semicolon(t: &Vec<PositionedToken>, pos: usize) -> (r: Result<((Spanned<DiagramKind>, Vec<Attribute>), usize), PError>)
    requires
        pos <= t@.len(),
    ensures
        fails_within(r, t@.len() as int),
        agrees(r, diagram_header_with_semicolon_spec(t@, pos as int),
            |v: (Spanned<DiagramKind>, Vec<Attribute>)| (v.0@, attributes_view(v.1@))),
        r matches Ok((_, p)) ==> pos < p <= t@.len(),
{
    let (h, p) = match diagram_header(t, pos) {
        Ok(x) => x,
        Err(e) => return Err(e),
    };
    match semicolon(t, p) {
        Ok(q) => Ok((h, q)),
        Err(e) => Err(e),
    }
}

/// A whole file: layout, the header with its semicolon, type definitions,
/// elements, layout, and then no token left. Tokens left over make a
/// committed failure that records where they start.
pub open spec fn diagram_spec(t: Seq<PositionedToken>) -> Result<(FileAstView, int), PErr> {
    match diagram_header_with_semicolon_spec(t, ws0_spec(t, 0)) {
        Err(e) => Err(e),
        Ok(((kind, attrs), p1)) => match type_definitions_spec(t, p1, Seq::empty()) {
            Err(e) => Err(e),
            Ok((tds, p2)) => match elements_spec(t, p2, Seq::empty()) {
                Err(e) => Err(e),
                Ok((es, p3)) => {
                    let p4 = ws0_spec(t, p3);
                    if p4 < t.len() {
                        Err(PErr { cut: true, ctx: seq![Ctx::Start((t.len() - p4) as nat)], pos: p4 })
                    } else {
                        Ok((FileAstView {
                            header: FileHeaderView::Diagram { kind, attributes: attrs },
                            import_decls: Seq::empty(),
                            imports: Seq::empty(),
                            type_definitions: tds,
                            elements: es,
                        }, p4))
                    }
                },
            },
        },
    }
}

/// Parses a whole file.
fn diagram(t: &Vec<PositionedToken>) -> (r: Result<(FileAst, usize), PError>)
    ensures
        fails_within(r, t@.len() as int),
        agrees(r, diagram_spec(t@), |v: FileAst| v@),
{
    let p0 = ws0(t, 0);
    let ((kind, attributes), p1) = match diagram_header_with_semicolon(t, p0) {
        Ok(x) => x,
        Err(e) => return Err(e),
    };
    let (type_definitions, p2) = match type_definitions(t, p1) {
        Ok(x) => x,
        Err(e) => return Err(e),
    };
    let (elements, p3) = match elements(t, p2) {
        Ok(x) => x,
        Err(e) => return Err(e),
    };
    let p4 = ws0(t, p3);
    if p4 < t.len() {
        let mut contexts: Vec<Context> = Vec::new();
        contexts.push(Context::StartOffset(t.len() - p4));
        let e = PError { cut: true, contexts, pos: p4 };
        proof {
            assert(e@.ctx =~= seq![Ctx::Start((t@.len() - p4) as nat)]);
        }
        return Err(e);
    }
    let header = FileHeader::Diagram { kind, attributes };
    proof {
        lemma_header_view(&header);
    }
    let f = FileAst {
        header,
        import_decls: Vec::new(),
        imports: Vec::new(),
        type_definitions,
        elements,
    };
    proof {
        lemma_file_view(&f);
        assert(f@.import_decls =~= Seq::<SpannedView<crate::ast::ImportDeclView>>::empty());
        assert(f@.imports =~= Seq::<crate::ast::ImportView>::empty());
    }
    Ok((f, p4))
}

// ---------------------------------------------------------------------------
// Diagnostics
// ---------------------------------------------------------------------------

/// The number of tokens left where the innermost committed construct
/// began, looking at the contexts from `i` on.
pub open spec fn first_start(ctx: Seq<Ctx>, i: int) -> Option<nat>
    decreases ctx.len() - i,
{
    if !(0 <= i < ctx.len()) {
        None
    } else {
        match ctx[i] {
            Ctx::Start(n) => Some(n),
            Ctx::Label(_) => first_start(ctx, i + 1),
        }
    }
}

/// `expected <label>` for each label among the first `i` contexts, in order.
pub open spec fn expected_parts(ctx: Seq<Ctx>, i: int) -> Seq<Seq<char>>
    decreases i,
{
    if i <= 0 {
        Seq::empty()
    } else {
        let before = expected_parts(ctx, i - 1);
        match ctx[i - 1] {
            Ctx::Label(l) => before.push("expected "@ + l),
            Ctx::Start(_) => before,
        }
    }
}

/// The parts joined by ` → `.
pub open spec fn join_arrows(parts: Seq<Seq<char>>) -> Seq<char>
    decreases parts.len(),
{
    if parts.len() == 0 {
        Seq::empty()
    } else if parts.len() == 1 {
        parts[0]
    } else {
        join_arrows(parts.drop_last()) + " → "@ + parts.last()
    }
}

/// The message of a parse failure: what was expected, innermost first, or
/// a general message when the failure names nothing.
pub open spec fn parse_error_message(e: PErr) -> Seq<char> {
    let parts = expected_parts(e.ctx, e.ctx.len() as int);
    "unexpected token: "@ + if parts.len() == 0 {
        "unexpected token or end of input"@
    } else {
        join_arrows(parts)
    }
}

/// Whether a token is whitespace or a line break.
pub open spec fn is_blank(t: Token) -> bool {
    t is Whitespace || t is Newline
}

/// The token range `[lo, hi)` that the span of a failure covers: the tokens
/// read since the innermost committed construct began; or, where none
/// were, everything before a closing `}` or `]` at the failure (a missing
/// semicolon), the one other token at the failure, or, at the end of the
/// input, every token.
pub open spec fn examined_range(e: PErr, t: Seq<PositionedToken>) -> (int, int) {
    let end = e.pos;
    let start = match first_start(e.ctx, 0) {
        Some(r) => t.len() - r,
        None => 0,
    };
    if start < end {
        (start, end)
    } else if end < t.len() {
        if t[end].token is RightBrace || t[end].token is RightBracket {
            (0, end)
        } else {
            (end, end + 1)
        }
    } else {
        (0, t.len() as int)
    }
}

/// The span of the first token from `k` up to `hi` that is not whitespace
/// or a line break.
pub open spec fn first_solid(t: Seq<PositionedToken>, k: int, hi: int) -> Option<Span>
    decreases hi - k,
{
    if k >= hi {
        None
    } else if !is_blank(t[k].token) {
        Some(t[k].span)
    } else {
        first_solid(t, k + 1, hi)
    }
}

/// The span of the last token from `lo` up to `k` that is not whitespace
/// or a line break.
pub open spec fn last_solid(t: Seq<PositionedToken>, lo: int, k: int) -> Option<Span>
    decreases k - lo,
{
    if k <= lo {
        None
    } else if !is_blank(t[k - 1].token) {
        Some(t[k - 1].span)
    } else {
        last_solid(t, lo, k - 1)
    }
}

/// The span of a failure: from the first to the last token of the examined
/// range that is not whitespace or a line break (the range's first and last
/// tokens where it has none).
pub open spec fn parse_error_span(e: PErr, t: Seq<PositionedToken>) -> Span {
    let (lo, hi) = examined_range(e, t);
    let first = match first_solid(t, lo, hi) {
        Some(s) => s,
        None => t[lo].span,
    };
    let last = match last_solid(t, lo, hi) {
        Some(s) => s,
        None => t[hi - 1].span,
    };
    first.spec_join(last)
}

/// Whether a failure can be reported: it lies within the tokens and its
/// examined range is not empty.
pub open spec fn reportable(e: PErr, t: Seq<PositionedToken>) -> bool {
    &&& within(e, t.len() as int)
    &&& examined_range(e, t).0 < examined_range(e, t).1
}

/// The diagnostic that reports the failure `e`: an error with code E100,
/// the failure's message, one primary label "unexpected token" on its
/// span, and a help text.
pub open spec fn reports(d: Diagnostic, e: PErr, t: Seq<PositionedToken>) -> bool {
    &&& d.spec_severity() == Severity::Error
    &&& d.spec_code() == Some(ErrorCode::E100)
    &&& d.spec_message() == parse_error_message(e)
    &&& d.spec_labels().len() == 1
    &&& d.spec_labels()[0].spec_span() == parse_error_span(e, t)
    &&& d.spec_labels()[0].spec_message() == "unexpected token"@
    &&& d.spec_labels()[0].spec_primary()
    &&& d.spec_help() == Some("check syntax and token positioning"@)
}

/// Whether a token is whitespace or a line break.
fn blank_at(t: &Vec<PositionedToken>, k: usize) -> (r: bool)
    requires
        k < t@.len(),
    ensures
        r == is_blank(t@[k as int].token),
{
    match &t[k].token {
        Token::Whitespace | Token::Newline => true,
        _ => false,
    }
}

/// The message of a parse failure.
fn error_message(e: &PError) -> (r: String)
    ensures
        r@ == parse_error_message(e@),
{
    let n = e.contexts.len();
    let mut joined = String::new();
    let mut count: usize = 0;
    let mut i: usize = 0;
    proof {
        assert(joined@ =~= join_arrows(expected_parts(e@.ctx, 0)));
    }
    while i < n
        invariant
            i <= n,
            n == e.contexts@.len(),
            e@.ctx.len() == n,
            count <= i,
            count == expected_parts(e@.ctx, i as int).len(),
            joined@ == join_arrows(expected_parts(e@.ctx, i as int)),
        decreases n - i,
    {
        match e.contexts[i] {
            Context::Label(l) => {
                let ghost before = expected_parts(e@.ctx, i as int);
                let part = concat("expected ", l);
                if count == 0 {
                    joined = part;
                } else {
                    joined = concat3(joined.as_str(), " → ", part.as_str());
                }
                proof {
                    let after = expected_parts(e@.ctx, i + 1);
                    assert(after == before.push("expected "@ + l@));
                    assert(after.drop_last() =~= before);
                    if count == 0 {
                        assert(join_arrows(after) == after[0]);
                    }
                }
                count = count + 1;
            },
            Context::StartOffset(_) => {},
        }
        i = i + 1;
    }
    if count == 0 {
        let r = String::from_str("unexpected token: unexpected token or end of input");
        proof {
            reveal_strlit("unexpected token: unexpected token or end of input");
            reveal_strlit("unexpected token: ");
            reveal_strlit("unexpected token or end of input");
            assert(r@ =~= parse_error_message(e@));
        }
        r
    } else {
        concat("unexpected token: ", joined.as_str())
    }
}

/// The number of tokens left where the innermost committed construct of a
/// failure began, if it records one.
fn failure_start(e: &PError, n: usize) -> (r: Option<usize>)
    requires
        within(e@, n as int),
    ensures
        match r {
            Some(k) => first_start(e@.ctx, 0) == Some(k as nat) && k <= n,
            None => first_start(e@.ctx, 0) is None,
        },
{
    let mut i: usize = 0;
    while i < e.contexts.len()
        invariant
            i <= e.contexts@.len(),
            e@.ctx.len() == e.contexts@.len(),
            within(e@, n as int),
            first_start(e@.ctx, 0) == first_start(e@.ctx, i as int),
        decreases e.contexts@.len() - i,
    {
        match e.contexts[i] {
            Context::StartOffset(k) => {
                proof {
                    assert(e@.ctx[i as int] == Ctx::Start(k as nat));
                }
                return Some(k);
            },
            Context::Label(_) => {},
        }
        i = i + 1;
    }
    None
}

/// The examined range of a failure.
fn error_range(e: &PError, t: &Vec<PositionedToken>) -> (r: (usize, usize))
    requires
        within(e@, t@.len() as int),
    ensures
        r.0 as int == examined_range(e@, t@).0,
        r.1 as int == examined_range(e@, t@).1,
        r.1 <= t@.len(),
{
    let n = t.len();
    let end = e.pos;
    let start = match failure_start(e, n) {
        Some(k) => n - k,
        None => 0,
    };
    if start < end {
        (start, end)
    } else if end < n {
        match &t[end].token {
            Token::RightBrace | Token::RightBracket => (0, end),
            _ => (end, end + 1),
        }
    } else {
        (0, n)
    }
}

/// The span of the first token from `lo` up to `hi` that is not
/// whitespace or a line break.
fn first_solid_span(t: &Vec<PositionedToken>, lo: usize, hi: usize) -> (r: Option<Span>)
    requires
        lo <= hi <= t@.len(),
    ensures
        r == first_solid(t@, lo as int, hi as int),
{
    let mut k = lo;
    while k < hi
        invariant
            lo <= k <= hi <= t@.len(),
            first_solid(t@, lo as int, hi as int) == first_solid(t@, k as int, hi as int),
        decreases hi - k,
    {
        if !blank_at(t, k) {
            return Some(t[k].span);
        }
        k = k + 1;
    }
    None
}

/// The span of the last token from `lo` up to `hi` that is not whitespace
/// or a line break.
fn last_solid_span(t: &Vec<PositionedToken>, lo: usize, hi: usize) -> (r: Option<Span>)
    requires
        lo <= hi <= t@.len(),
    ensures
        r == last_solid(t@, lo as int, hi as int),
{
    let mut j = hi;
    while j > lo
        invariant
            lo <= j <= hi <= t@.len(),
            last_solid(t@, lo as int, hi as int) == last_solid(t@, lo as int, j as int),
        decreases j - lo,
    {
        if !blank_at(t, j - 1) {
            return Some(t[j - 1].span);
        }
        j = j - 1;
    }
    None
}

/// The span of a failure.
fn error_span(e: &PError, t: &Vec<PositionedToken>) -> (r: Span)
    requires
        reportable(e@, t@),
    ensures
        r == parse_error_span(e@, t@),
{
    let (lo, hi) = error_range(e, t);
    let first = match first_solid_span(t, lo, hi) {
        Some(s) => s,
        None => t[lo].span,
    };
    let last = match last_solid_span(t, lo, hi) {
        Some(s) => s,
        None => t[hi - 1].span,
    };
    first.union(last)
}

/// Reports a parse failure as a diagnostic.
pub fn convert_error(e: &PError, t: &Vec<PositionedToken>) -> (r: Diagnostic)
    requires
        reportable(e@, t@),
    ensures
        reports(r, e@, t@),
{
    let message = error_message(e);
    let span = error_span(e, t);
    Diagnostic::error(message.as_str())
        .with_code(ErrorCode::E100)
        .with_label(span, "unexpected token")
        .with_help("check syntax and token positioning")
}

/// The span of a whole token list: from its first to its last token.
pub open spec fn total_span(t: Seq<PositionedToken>) -> Span {
    if t.len() == 0 {
        Span::spec_empty()
    } else {
        t[t.len() - 1].span.spec_join(t[0].span)
    }
}

/// A failure of the whole file can always be reported when the tokens do
/// not start with a closing `}` or `]`.
proof fn lemma_diagram_error_reportable(e: PErr, t: Seq<PositionedToken>)
    requires
        t.len() > 0,
        !(t[0].token is RightBrace || t[0].token is RightBracket),
        within(e, t.len() as int),
    ensures
        reportable(e, t),
{
}

/// Parses the tokens of a file into its syntax tree, spanning all the
/// tokens; a failure is reported as a diagnostic.
pub fn build_diagram(tokens: &Vec<PositionedToken>) -> (r: Result<Spanned<FileAst>, Diagnostic>)
    requires
        tokens@.len() > 0,
        !(tokens@[0].token is RightBrace || tokens@[0].token is RightBracket),
    ensures
        match r {
            Ok(f) => diagram_spec(tokens@) matches Ok((v, _))
                && f@ == (SpannedView { value: v, span: total_span(tokens@) }),
            Err(d) => diagram_spec(tokens@) matches Err(e) && reports(d, e, tokens@),
        },
{
    match diagram(tokens) {
        Ok((f, _)) => {
            let n = tokens.len();
            let span = tokens[n - 1].span.union(tokens[0].span);
            Ok(Spanned::new(f, span))
        },
        Err(e) => {
            proof {
                lemma_diagram_error_reportable(e@, tokens@);
            }
            Err(convert_error(&e, tokens))
        },
    }
}

} // verus!
