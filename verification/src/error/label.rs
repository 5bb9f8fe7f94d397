//! Labelled source locations attached to diagnostics.
use vstd::prelude::*;
use crate::span::Span;

verus! {

/// A span of source text with an explanatory message.
///
/// A primary label marks where the problem is; secondary labels give context.
#[derive(Debug, Clone)]
pub struct Label {
    span: Span,
    message: String,
    primary: bool,
}

impl Label {
    /// The labelled span.
    pub closed spec fn spec_span(&self) -> Span {
        self.span
    }

    /// The label's message.
    pub closed spec fn spec_message(&self) -> Seq<char> {
        self.message@
    }

    /// Whether this is the primary label.
    pub closed spec fn spec_primary(&self) -> bool {
        self.primary
    }

    /// Creates a primary label.
    pub fn primary(span: Span, message: &str) -> (r: Label)
        ensures
            r.spec_span() == span,
            r.spec_message() == message@,
            r.spec_primary(),
    {
        Label { span, message: String::from_str(message), primary: true }
    }

    /// Creates a secondary label.
    pub fn secondary(span: Span, message: &str) -> (r: Label)
        ensures
            r.spec_span() == span,
            r.spec_message() == message@,
            !r.spec_primary(),
    {
        Label { span, message: String::from_str(message), primary: false }
    }

    /// Returns the labelled span.
    pub fn span(&self) -> (r: Span)
        ensures
            r == self.spec_span(),
    {
        self.span
    }

    /// Returns the label's message.
    pub fn message(&self) -> (r: &str)
        ensures
            r@ == self.spec_message(),
    {
        self.message.as_str()
    }

    /// Returns `true` for a primary label.
    pub fn is_primary(&self) -> (r: bool)
        ensures
            r == self.spec_primary(),
    {
        self.primary
    }
}

} // verus!
