//! The error returned by a failed run of the front end.
use vstd::prelude::*;
use crate::error::diagnostic::Diagnostic;
use crate::source_map::SourceMap;
use crate::strings::concat;

verus! {

/// One or more diagnostics together with the source map that locates their
/// spans.
#[derive(Debug)]
pub struct ParseError {
    diagnostics: Vec<Diagnostic>,
    source_map: SourceMap,
}

/// The decimal digits of `n`.
pub open spec fn decimal(n: nat) -> Seq<char>
    decreases n,
{
    if n < 10 {
        seq![digit_char(n)]
    } else {
        decimal(n / 10).push(digit_char(n % 10))
    }
}

/// The character for a decimal digit.
pub open spec fn digit_char(d: nat) -> char {
    if d == 0 { '0' } else if d == 1 { '1' } else if d == 2 { '2' } else if d == 3 { '3' }
    else if d == 4 { '4' } else if d == 5 { '5' } else if d == 6 { '6' } else if d == 7 { '7' }
    else if d == 8 { '8' } else { '9' }
}

/// Renders a number in decimal.
pub fn usize_to_decimal(n: usize) -> (r: String)
    ensures
        r@ == decimal(n as nat),
    decreases n,
{
    let d = n % 10;
    let c: &str = if d == 0 { "0" } else if d == 1 { "1" } else if d == 2 { "2" } else if d == 3 { "3" }
        else if d == 4 { "4" } else if d == 5 { "5" } else if d == 6 { "6" } else if d == 7 { "7" }
        else if d == 8 { "8" } else { "9" };
    proof {
        reveal_strlit("0"); reveal_strlit("1"); reveal_strlit("2"); reveal_strlit("3");
        reveal_strlit("4"); reveal_strlit("5"); reveal_strlit("6"); reveal_strlit("7");
        reveal_strlit("8"); reveal_strlit("9");
        assert(c@ =~= seq![digit_char(d as nat)]);
    }
    if n < 10 {
        String::from_str(c)
    } else {
        let prefix = usize_to_decimal(n / 10);
        let r = concat(prefix.as_str(), c);
        proof {
            assert(r@ =~= decimal(n as nat));
        }
        r
    }
}

impl ParseError {
    /// The diagnostics, in order.
    pub closed spec fn spec_diagnostics(&self) -> Seq<Diagnostic> {
        self.diagnostics@
    }

    /// The source map that locates the diagnostics' spans.
    pub closed spec fn spec_source_map(&self) -> &SourceMap {
        &self.source_map
    }

    /// The displayed form: the first diagnostic, followed by ` (+N more)`
    /// when there are `N > 0` further diagnostics; empty when there are none.
    pub open spec fn spec_display(&self) -> Seq<char> {
        let d = self.spec_diagnostics();
        if d.len() == 0 {
            Seq::empty()
        } else if d.len() == 1 {
            d[0].spec_display()
        } else {
            d[0].spec_display() + " (+"@ + decimal((d.len() - 1) as nat) + " more)"@
        }
    }

    /// Creates a parse error from diagnostics and a source map.
    pub fn new(diagnostics: Vec<Diagnostic>, source_map: SourceMap) -> (r: ParseError)
        ensures
            r.spec_diagnostics() == diagnostics@,
            r.spec_source_map() == &source_map,
    {
        ParseError { diagnostics, source_map }
    }

    /// Creates a parse error holding a single diagnostic.
    pub fn from_diagnostic(diagnostic: Diagnostic, source_map: SourceMap) -> (r: ParseError)
        ensures
            r.spec_diagnostics() == seq![diagnostic],
            r.spec_source_map() == &source_map,
    {
        let mut diagnostics = Vec::new();
        diagnostics.push(diagnostic);
        proof {
            assert(diagnostics@ =~= seq![diagnostic]);
        }
        ParseError { diagnostics, source_map }
    }

    /// Returns the source map.
    pub fn source_map(&self) -> (r: &SourceMap)
        ensures
            r == self.spec_source_map(),
    {
        &self.source_map
    }

    /// Returns the diagnostics.
    pub fn diagnostics(&self) -> (r: &[Diagnostic])
        ensures
            r@ == self.spec_diagnostics(),
    {
        self.diagnostics.as_slice()
    }

    /// The displayed form: the first diagnostic, then ` (+N more)` when
    /// further diagnostics follow.
    pub fn to_string(&self) -> (r: String)
        ensures
            r@ == self.spec_display(),
    {
        let n = self.diagnostics.len();
        if n == 0 {
            return String::new();
        }
        let first = self.diagnostics[0].to_string();
        if n == 1 {
            return first;
        }
        let count = usize_to_decimal(n - 1);
        let a = concat(first.as_str(), " (+");
        let b = concat(a.as_str(), count.as_str());
        let r = concat(b.as_str(), " more)");
        proof {
            assert(r@ =~= self.spec_display());
        }
        r
    }
}

} // verus!
