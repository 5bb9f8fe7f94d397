//! Errors reported by source providers.
use vstd::prelude::*;
use crate::strings::concat3;

verus! {

/// A failure to resolve or read a source file: the path concerned and a
/// human-readable message.
#[derive(Debug, Clone, PartialEq, Eq, Hash)]
pub struct SourceError {
    path: String,
    message: String,
}

impl SourceError {
    /// The path that caused the error.
    pub closed spec fn spec_path(&self) -> Seq<char> {
        self.path@
    }

    /// The error's message.
    pub closed spec fn spec_message(&self) -> Seq<char> {
        self.message@
    }

    /// Creates a source error.
    pub fn new(path: &str, message: &str) -> (r: SourceError)
        ensures
            r.spec_path() == path@,
            r.spec_message() == message@,
    {
        SourceError { path: String::from_str(path), message: String::from_str(message) }
    }

    /// Returns the path associated with the error.
    pub fn path(&self) -> (r: &str)
        ensures
            r@ == self.spec_path(),
    {
        self.path.as_str()
    }

    /// Returns the error's message.
    pub fn message(&self) -> (r: &str)
        ensures
            r@ == self.spec_message(),
    {
        self.message.as_str()
    }

    /// The displayed form, `path: message`.
    pub fn to_string(&self) -> (r: String)
        ensures
            r@ == self.spec_path() + ": "@ + self.spec_message(),
    {
        concat3(self.path.as_str(), ": ", self.message.as_str())
    }
}

} // verus!
