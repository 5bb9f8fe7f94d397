//! Source code span tracking.
//!
//! - [`Span`]: a byte range within source text.
//! - [`Spanned<T>`]: a value with its source location.
use vstd::prelude::*;
use vstd::std_specs::cmp::PartialEqSpec;
use crate::identifier::Id;

verus! {

/// A byte range `start..end` in source text.
#[derive(Debug, Clone, Copy, PartialEq, Eq, Hash, Structural)]
pub struct Span {
    start: usize,
    end: usize,
}

impl Span {
    /// The start offset of the span.
    pub closed spec fn spec_start(self) -> nat {
        self.start as nat
    }

    /// The (exclusive) end offset of the span.
    pub closed spec fn spec_end(self) -> nat {
        self.end as nat
    }

    /// The span covering the byte range `range`.
    pub closed spec fn spec_from_range(range: core::ops::Range<usize>) -> Span {
        Span { start: range.start, end: range.end }
    }

    /// A span is well formed when it does not end before it starts.
    pub open spec fn wf(self) -> bool {
        self.spec_start() <= self.spec_end()
    }

    /// A span is empty when its two offsets coincide.
    pub open spec fn spec_is_empty(self) -> bool {
        self.spec_start() == self.spec_end()
    }

    /// The smallest span covering both spans; an empty span is absorbed.
    pub open spec fn spec_union(self, other: Span) -> (nat, nat) {
        if self.spec_is_empty() {
            (other.spec_start(), other.spec_end())
        } else if other.spec_is_empty() {
            (self.spec_start(), self.spec_end())
        } else {
            (
                if self.spec_start() <= other.spec_start() { self.spec_start() } else { other.spec_start() },
                if self.spec_end() >= other.spec_end() { self.spec_end() } else { other.spec_end() },
            )
        }
    }

    /// The zero-length span at offset zero.
    pub closed spec fn spec_empty() -> Span {
        Span { start: 0, end: 0 }
    }

    /// The span that `union` returns: the smallest span covering both, an
    /// empty span being absorbed.
    pub closed spec fn spec_join(self, other: Span) -> Span {
        if self.start == self.end {
            other
        } else if other.start == other.end {
            self
        } else {
            Span {
                start: if self.start <= other.start { self.start } else { other.start },
                end: if self.end >= other.end { self.end } else { other.end },
            }
        }
    }

    /// Two spans are equal exactly when their offsets are.
    pub proof fn lemma_eq_by_offsets(a: Span, b: Span)
        ensures
            (a == b) <==> (a.spec_start() == b.spec_start() && a.spec_end() == b.spec_end()),
    {
    }

    /// Creates a span from a byte range.
    pub fn new(range: core::ops::Range<usize>) -> (s: Span)
        ensures
            s.spec_start() == range.start,
            s.spec_end() == range.end,
    {
        Span { start: range.start, end: range.end }
    }

    /// Creates the zero-length span at offset zero.
    pub fn empty() -> (s: Span)
        ensures
            s == Span::spec_empty(),
            s.spec_start() == 0,
            s.spec_end() == 0,
    {
        Span { start: 0, end: 0 }
    }

    /// Returns the start byte offset.
    pub fn start(&self) -> (r: usize)
        ensures
            r == self.spec_start(),
    {
        self.start
    }

    /// Returns the end byte offset.
    pub fn end(&self) -> (r: usize)
        ensures
            r == self.spec_end(),
    {
        self.end
    }

    /// Returns the length of the span in bytes.
    pub fn len(&self) -> (r: usize)
        requires
            self.wf(),
        ensures
            r == self.spec_end() - self.spec_start(),
    {
        self.end - self.start
    }

    /// Returns `true` when the span has zero length.
    pub fn is_empty(&self) -> (r: bool)
        ensures
            r == self.spec_is_empty(),
    {
        self.start == self.end
    }

    /// The smallest span covering `self` and `other`; when either is empty
    /// the other is returned unchanged.
    pub fn union(&self, other: Span) -> (r: Span)
        ensures
            (r.spec_start(), r.spec_end()) == self.spec_union(other),
            r == self.spec_join(other),
            self.spec_is_empty() ==> r == other,
            !self.spec_is_empty() && other.spec_is_empty() ==> r == *self,
    {
        if self.is_empty() {
            return other;
        }
        if other.is_empty() {
            return *self;
        }
        let start = if self.start <= other.start { self.start } else { other.start };
        let end = if self.end >= other.end { self.end } else { other.end };
        Span { start, end }
    }

    /// Translates both offsets by `base` bytes.
    pub fn shift(self, base: usize) -> (r: Span)
        requires
            self.spec_end() + base <= usize::MAX,
            self.spec_start() + base <= usize::MAX,
        ensures
            r.spec_start() == self.spec_start() + base,
            r.spec_end() == self.spec_end() + base,
    {
        Span { start: self.start + base, end: self.end + base }
    }
}

impl Default for Span {
    fn default() -> (s: Span)
        ensures
            s.spec_start() == 0,
            s.spec_end() == 0,
    {
        Span::empty()
    }
}

impl From<core::ops::Range<usize>> for Span {
    fn from(range: core::ops::Range<usize>) -> (s: Span) {
        Span { start: range.start, end: range.end }
    }
}

impl vstd::std_specs::convert::FromSpecImpl<core::ops::Range<usize>> for Span {
    open spec fn obeys_from_spec() -> bool {
        true
    }

    open spec fn from_spec(range: core::ops::Range<usize>) -> Span {
        Span::spec_from_range(range)
    }
}

/// The union of two non-empty spans covers both of them.
pub proof fn lemma_union_covers(a: Span, b: Span)
    requires
        !a.spec_is_empty(),
        !b.spec_is_empty(),
    ensures
        a.spec_union(b).0 <= a.spec_start(),
        a.spec_union(b).0 <= b.spec_start(),
        a.spec_union(b).1 >= a.spec_end(),
        a.spec_union(b).1 >= b.spec_end(),
{
}

/// Union is commutative on offsets when both spans are non-empty.
pub proof fn lemma_union_commutative(a: Span, b: Span)
    requires
        !a.spec_is_empty(),
        !b.spec_is_empty(),
    ensures
        a.spec_union(b) == b.spec_union(a),
{
}

/// The abstract value of a spanned value.
pub struct SpannedView<V> {
    /// The value's abstract value.
    pub value: V,
    /// The value's location.
    pub span: Span,
}

/// A value paired with its source location.
///
/// Equality compares the inner values only.
#[derive(Debug, Default)]
pub struct Spanned<T> {
    value: T,
    span: Span,
}

impl<T> Spanned<T> {
    /// The wrapped value.
    pub closed spec fn spec_value(self) -> T {
        self.value
    }

    /// The source location.
    pub closed spec fn spec_span(self) -> Span {
        self.span
    }

    /// Creates a spanned value.
    pub fn new(value: T, span: Span) -> (r: Spanned<T>)
        ensures
            r.spec_value() == value,
            r.spec_span() == span,
    {
        Spanned { value, span }
    }

    /// Returns the span of the value.
    pub fn span(&self) -> (r: Span)
        ensures
            r == self.spec_span(),
    {
        self.span
    }

    /// Applies `f` to the inner value, keeping the span.
    pub fn map<F, U>(&self, f: F) -> (r: Spanned<U>)
        where
            F: FnOnce(&T) -> U,
        requires
            f.requires((&self.spec_value(),)),
        ensures
            f.ensures((&self.spec_value(),), r.spec_value()),
            r.spec_span() == self.spec_span(),
    {
        Spanned { value: f(&self.value), span: self.span }
    }

    /// Borrows the inner value.
    pub fn inner(&self) -> (r: &T)
        ensures
            *r == self.spec_value(),
    {
        &self.value
    }

    /// Consumes the wrapper and returns the inner value.
    pub fn into_inner(self) -> (r: T)
        ensures
            r == self.spec_value(),
    {
        self.value
    }
}

impl<T: core::fmt::Display> Spanned<T> {
    /// The displayed form of the inner value; the span is not shown.
    pub fn to_string(&self) -> (r: String)
        ensures
            vstd::string::to_string_from_display_ensures::<T>(&self.spec_value(), r),
    {
        self.value.to_string()
    }
}

impl<T: View> View for Spanned<T> {
    type V = SpannedView<T::V>;

    open spec fn view(&self) -> SpannedView<T::V> {
        SpannedView { value: self.spec_value()@, span: self.spec_span() }
    }
}

impl<T> core::ops::Deref for Spanned<T> {
    type Target = T;

    fn deref(&self) -> (r: &T)
        ensures
            *r == self.spec_value(),
    {
        &self.value
    }
}

/// Spanned values compare by their values alone, for every value type: the
/// answer is one that the values' own `==` gives, whatever the spans.
impl<T: PartialEq + vstd::std_specs::cmp::PartialEqSpec> PartialEq for Spanned<T> {
    fn eq(&self, other: &Self) -> (r: bool)
        ensures
            call_ensures(T::eq, (&self.spec_value(), &other.spec_value()), r),
    {
        self.value.eq(&other.value)
    }
}

impl<T: Eq + vstd::std_specs::cmp::PartialEqSpec> Eq for Spanned<T> {
}

impl Spanned<String> {
    /// A copy of a spanned string.
    pub fn duplicate(&self) -> (r: Spanned<String>)
        ensures
            r == *self,
    {
        Spanned { value: self.value.clone(), span: self.span }
    }
}

impl Spanned<Id> {
    /// A copy of a spanned identifier.
    pub fn duplicate(&self) -> (r: Spanned<Id>)
        ensures
            r == *self,
    {
        Spanned { value: self.value.clone(), span: self.span }
    }
}

/// A copy of a list of spanned identifiers.
pub fn duplicate_ids(ids: &Vec<Spanned<Id>>) -> (r: Vec<Spanned<Id>>)
    ensures
        r@ == ids@,
{
    let mut out: Vec<Spanned<Id>> = Vec::new();
    let mut i: usize = 0;
    while i < ids.len()
        invariant
            i <= ids@.len(),
            out@ == ids@.take(i as int),
        decreases ids@.len() - i,
    {
        out.push(ids[i].duplicate());
        i = i + 1;
        proof {
            assert(out@ =~= ids@.take(i as int));
        }
    }
    proof {
        assert(ids@.take(i as int) =~= ids@);
    }
    out
}

impl<T: Clone> Clone for Spanned<T> {
    fn clone(&self) -> (r: Spanned<T>)
        ensures
            r.spec_span() == self.spec_span(),
            cloned::<T>(self.spec_value(), r.spec_value()),
    {
        Spanned { value: self.value.clone(), span: self.span }
    }
}

impl<T: PartialEq + vstd::std_specs::cmp::PartialEqSpec> vstd::std_specs::cmp::PartialEqSpecImpl for Spanned<T> {
    open spec fn obeys_eq_spec() -> bool {
        T::obeys_eq_spec()
    }

    open spec fn eq_spec(&self, other: &Spanned<T>) -> bool {
        self.spec_value().eq_spec(&other.spec_value())
    }
}

/// Equality of spanned values compares the values alone, for every value
/// type: the spans play no part, and the equality obeys its specification
/// exactly when the values' equality does.
pub proof fn lemma_spanned_eq_ignores_span<T: PartialEq + PartialEqSpec>(a: Spanned<T>, b: Spanned<T>)
    ensures
        a.eq_spec(&b) == a.spec_value().eq_spec(&b.spec_value()),
        Spanned::<T>::obeys_eq_spec() == T::obeys_eq_spec(),
{
}

} // verus!
