//! Severity levels for diagnostics.
use vstd::prelude::*;

verus! {

/// The severity level of a diagnostic.
#[derive(Debug, Clone, Copy, PartialEq, Eq, Hash, Structural)]
pub enum Severity {
    /// A fatal error that prevents the diagram from being produced.
    Error,
    /// An advisory issue that does not stop processing.
    Warning,
}

impl Severity {
    /// Returns `true` for [`Severity::Error`].
    pub fn is_error(&self) -> (r: bool)
        ensures
            r == (*self == Severity::Error),
    {
        match self {
            Severity::Error => true,
            Severity::Warning => false,
        }
    }

    /// Returns `true` for [`Severity::Warning`].
    pub fn is_warning(&self) -> (r: bool)
        ensures
            r == (*self == Severity::Warning),
    {
        match self {
            Severity::Error => false,
            Severity::Warning => true,
        }
    }

    /// The lower-case word shown for this severity.
    pub open spec fn spec_word(self) -> Seq<char> {
        match self {
            Severity::Error => "error"@,
            Severity::Warning => "warning"@,
        }
    }

    /// The lower-case word shown for this severity (`error` or `warning`).
    pub fn as_str(&self) -> (r: &'static str)
        ensures
            r@ == self.spec_word(),
    {
        match self {
            Severity::Error => "error",
            Severity::Warning => "warning",
        }
    }

    /// The displayed form of this severity.
    pub fn to_string(&self) -> (r: String)
        ensures
            r@ == self.spec_word(),
    {
        String::from_str(self.as_str())
    }
}

} // verus!
