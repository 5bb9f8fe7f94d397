//! The kinds of diagrams and the layout engines that arrange them.
use vstd::prelude::*;
use crate::strings::str_eq;

verus! {

/// The kind of a diagram.
#[derive(Debug, PartialEq, Eq, Clone, Copy, Hash, Structural)]
pub enum DiagramKind {
    /// Structural relationships between components.
    Component,
    /// Interactions over time.
    Sequence,
}

impl View for DiagramKind {
    type V = DiagramKind;

    open spec fn view(&self) -> DiagramKind {
        *self
    }
}

impl DiagramKind {
    /// The displayed name of each kind.
    pub open spec fn spec_name(self) -> Seq<char> {
        match self {
            DiagramKind::Component => "component"@,
            DiagramKind::Sequence => "sequence"@,
        }
    }

    /// Returns the displayed name (`component` or `sequence`).
    pub fn as_str(&self) -> (r: &'static str)
        ensures
            r@ == self.spec_name(),
    {
        match self {
            DiagramKind::Component => "component",
            DiagramKind::Sequence => "sequence",
        }
    }

    /// The displayed form of the kind.
    pub fn to_string(&self) -> (r: String)
        ensures
            r@ == self.spec_name(),
    {
        String::from_str(self.as_str())
    }
}

/// The layout engines that position diagram elements.
#[derive(Debug, Default, Clone, Copy, PartialEq, Eq, Hash, Structural)]
pub enum LayoutEngine {
    /// The simple built-in layout (the default).
    #[default]
    Basic,
    /// Hierarchical layered layout (Sugiyama method).
    Sugiyama,
}

impl LayoutEngine {
    /// The configuration name of each engine.
    pub open spec fn spec_name(self) -> Seq<char> {
        match self {
            LayoutEngine::Basic => "basic"@,
            LayoutEngine::Sugiyama => "sugiyama"@,
        }
    }

    /// The default engine.
    pub fn default_engine() -> (r: LayoutEngine)
        ensures
            r == LayoutEngine::Basic,
    {
        LayoutEngine::Basic
    }

    /// Returns the configuration name (`basic` or `sugiyama`).
    pub fn as_str(&self) -> (r: &'static str)
        ensures
            r@ == self.spec_name(),
    {
        match self {
            LayoutEngine::Basic => "basic",
            LayoutEngine::Sugiyama => "sugiyama",
        }
    }

    /// The displayed form, which is the configuration name.
    pub fn to_string(&self) -> (r: String)
        ensures
            r@ == self.spec_name(),
    {
        String::from_str(self.as_str())
    }

    /// Parses a configuration name.
    pub fn from_str(s: &str) -> (r: Result<LayoutEngine, &'static str>)
        ensures
            match r {
                Ok(e) => e.spec_name() == s@,
                Err(m) => (forall|e: LayoutEngine| e.spec_name() != s@)
                    && m@ == "Unsupported layout engine"@,
            },
    {
        if str_eq(s, "basic") {
            Ok(LayoutEngine::Basic)
        } else if str_eq(s, "sugiyama") {
            Ok(LayoutEngine::Sugiyama)
        } else {
            proof {
                assert forall|e: LayoutEngine| e.spec_name() != s@ by {
                    match e {
                        LayoutEngine::Basic => {},
                        LayoutEngine::Sugiyama => {},
                    }
                }
            }
            Err("Unsupported layout engine")
        }
    }
}

/// Parsing the name of an engine gives the engine back.
pub proof fn lemma_layout_engine_roundtrip(e: LayoutEngine, f: LayoutEngine)
    ensures
        e.spec_name() == f.spec_name() ==> e == f,
{
    reveal_strlit("basic");
    reveal_strlit("sugiyama");
    if e.spec_name() == f.spec_name() {
        assert(e.spec_name().len() == f.spec_name().len());
    }
}

impl std::str::FromStr for LayoutEngine {
    type Err = &'static str;

    fn from_str(s: &str) -> (r: Result<LayoutEngine, &'static str>)
        ensures
            match r {
                Ok(e) => e.spec_name() == s@,
                Err(m) => (forall|e: LayoutEngine| e.spec_name() != s@)
                    && m@ == "Unsupported layout engine"@,
            },
    {
        LayoutEngine::from_str(s)
    }
}

} // verus!
