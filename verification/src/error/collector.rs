//! Accumulation of diagnostics during a pass.
use vstd::prelude::*;
use crate::error::diagnostic::Diagnostic;

verus! {

/// Collects diagnostics in the order they are emitted.
#[derive(Debug, Clone)]
pub struct DiagnosticCollector {
    diagnostics: Vec<Diagnostic>,
}

impl DiagnosticCollector {
    /// The diagnostics emitted so far, in order.
    pub closed spec fn spec_diagnostics(&self) -> Seq<Diagnostic> {
        self.diagnostics@
    }

    /// Creates an empty collector.
    pub fn new() -> (r: DiagnosticCollector)
        ensures
            r.spec_diagnostics() == Seq::<Diagnostic>::empty(),
    {
        DiagnosticCollector { diagnostics: Vec::new() }
    }

    /// Records a diagnostic.
    pub fn emit(&mut self, diagnostic: Diagnostic)
        ensures
            final(self).spec_diagnostics() == old(self).spec_diagnostics().push(diagnostic),
    {
        self.diagnostics.push(diagnostic);
    }

    /// Returns the number of diagnostics emitted so far.
    pub fn len(&self) -> (r: usize)
        ensures
            r == self.spec_diagnostics().len(),
    {
        self.diagnostics.len()
    }

    /// Returns `true` when nothing has been emitted.
    pub fn is_empty(&self) -> (r: bool)
        ensures
            r == (self.spec_diagnostics().len() == 0),
    {
        self.diagnostics.len() == 0
    }

    /// Finishes collection: `Ok(())` when nothing was emitted, otherwise all
    /// diagnostics in emission order.
    pub fn finish(self) -> (r: Result<(), Vec<Diagnostic>>)
        ensures
            self.spec_diagnostics().len() == 0 ==> r is Ok,
            self.spec_diagnostics().len() > 0 ==> (r matches Err(v) && v@ == self.spec_diagnostics()),
    {
        if self.diagnostics.len() == 0 {
            Ok(())
        } else {
            Err(self.diagnostics)
        }
    }
}

} // verus!
