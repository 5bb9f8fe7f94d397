//! Drawing vocabulary shared by the renderer: stroke styles, caps and
//! joins, render layers, and arrow styles and directions.
use vstd::prelude::*;
use crate::strings::{concat3, str_eq};

verus! {

/// The visual pattern of a stroke.
///
/// Each style maps to an SVG `stroke-dasharray` value; `Solid` has none.
#[derive(Debug, Default, Clone, PartialEq)]
pub enum StrokeStyle {
    /// A continuous line.
    #[default]
    Solid,
    /// Dashes of 5 with gaps of 5.
    Dashed,
    /// Dots of 2 with gaps of 3.
    Dotted,
    /// The pattern 10, 5, 2, 5.
    DashDot,
    /// The pattern 10, 5, 2, 5, 2, 5.
    DashDotDot,
    /// A custom SVG dash-array pattern.
    Custom(String),
}

/// The dash-array of each predefined style (`None` for solid lines).
pub open spec fn spec_dasharray(style: StrokeStyle) -> Option<Seq<char>> {
    match style {
        StrokeStyle::Solid => None,
        StrokeStyle::Dashed => Some("5,5"@),
        StrokeStyle::Dotted => Some("2,3"@),
        StrokeStyle::DashDot => Some("10,5,2,5"@),
        StrokeStyle::DashDotDot => Some("10,5,2,5,2,5"@),
        StrokeStyle::Custom(p) => Some(p@),
    }
}

/// The predefined style named by `s`, if any.
pub open spec fn spec_named_style(s: Seq<char>) -> Option<StrokeStyle> {
    if s == "solid"@ {
        Some(StrokeStyle::Solid)
    } else if s == "dashed"@ {
        Some(StrokeStyle::Dashed)
    } else if s == "dotted"@ {
        Some(StrokeStyle::Dotted)
    } else if s == "dash-dot"@ || s == "dashdot"@ {
        Some(StrokeStyle::DashDot)
    } else if s == "dash-dot-dot"@ || s == "dashdotdot"@ {
        Some(StrokeStyle::DashDotDot)
    } else {
        None
    }
}

impl StrokeStyle {
    /// Parses a style name; any other text is taken as a custom dash pattern.
    pub fn from_str(s: &str) -> (r: Result<StrokeStyle, String>)
        ensures
            match spec_named_style(s@) {
                Some(style) => r == Ok::<StrokeStyle, String>(style),
                None => r matches Ok(StrokeStyle::Custom(p)) && p@ == s@,
            },
    {
        if str_eq(s, "solid") {
            Ok(StrokeStyle::Solid)
        } else if str_eq(s, "dashed") {
            Ok(StrokeStyle::Dashed)
        } else if str_eq(s, "dotted") {
            Ok(StrokeStyle::Dotted)
        } else if str_eq(s, "dash-dot") || str_eq(s, "dashdot") {
            Ok(StrokeStyle::DashDot)
        } else if str_eq(s, "dash-dot-dot") || str_eq(s, "dashdotdot") {
            Ok(StrokeStyle::DashDotDot)
        } else {
            Ok(StrokeStyle::Custom(String::from_str(s)))
        }
    }

    /// Returns the SVG dash-array for this style, or `None` for solid lines.
    pub fn to_svg_value(&self) -> (r: Option<String>)
        ensures
            match r {
                Some(v) => spec_dasharray(*self) == Some(v@),
                None => spec_dasharray(*self) is None,
            },
    {
        match self {
            StrokeStyle::Solid => None,
            StrokeStyle::Dashed => Some(String::from_str("5,5")),
            StrokeStyle::Dotted => Some(String::from_str("2,3")),
            StrokeStyle::DashDot => Some(String::from_str("10,5,2,5")),
            StrokeStyle::DashDotDot => Some(String::from_str("10,5,2,5,2,5")),
            StrokeStyle::Custom(p) => Some(p.clone()),
        }
    }
}

/// How line endpoints are drawn (SVG `stroke-linecap`).
#[derive(Debug, Default, Clone, Copy, PartialEq, Eq, Structural)]
pub enum StrokeCap {
    /// A flat end at the endpoint.
    #[default]
    Butt,
    /// A rounded end.
    Round,
    /// A square end.
    Square,
}

impl StrokeCap {
    /// The SVG value of each cap.
    pub open spec fn spec_svg_value(self) -> Seq<char> {
        match self {
            StrokeCap::Butt => "butt"@,
            StrokeCap::Round => "round"@,
            StrokeCap::Square => "square"@,
        }
    }

    /// Returns the SVG `stroke-linecap` value.
    pub fn to_svg_value(&self) -> (r: &'static str)
        ensures
            r@ == self.spec_svg_value(),
    {
        match self {
            StrokeCap::Butt => "butt",
            StrokeCap::Round => "round",
            StrokeCap::Square => "square",
        }
    }

    /// Parses a cap name (`butt`, `round` or `square`).
    pub fn from_str(s: &str) -> (r: Result<StrokeCap, String>)
        ensures
            match r {
                Ok(c) => c.spec_svg_value() == s@,
                Err(m) => (forall|c: StrokeCap| c.spec_svg_value() != s@)
                    && m@ == "invalid stroke cap `"@ + s@ + "`, valid values: butt, round, square"@,
            },
    {
        if str_eq(s, "butt") {
            Ok(StrokeCap::Butt)
        } else if str_eq(s, "round") {
            Ok(StrokeCap::Round)
        } else if str_eq(s, "square") {
            Ok(StrokeCap::Square)
        } else {
            proof {
                assert forall|c: StrokeCap| c.spec_svg_value() != s@ by {
                    match c {
                        StrokeCap::Butt => {},
                        StrokeCap::Round => {},
                        StrokeCap::Square => {},
                    }
                }
            }
            Err(concat3("invalid stroke cap `", s, "`, valid values: butt, round, square"))
        }
    }
}

/// How line corners are drawn (SVG `stroke-linejoin`).
#[derive(Debug, Default, Clone, Copy, PartialEq, Eq, Structural)]
pub enum StrokeJoin {
    /// A sharp mitred corner.
    #[default]
    Miter,
    /// A rounded corner.
    Round,
    /// A bevelled corner.
    Bevel,
}

impl StrokeJoin {
    /// The SVG value of each join.
    pub open spec fn spec_svg_value(self) -> Seq<char> {
        match self {
            StrokeJoin::Miter => "miter"@,
            StrokeJoin::Round => "round"@,
            StrokeJoin::Bevel => "bevel"@,
        }
    }

    /// Returns the SVG `stroke-linejoin` value.
    pub fn to_svg_value(&self) -> (r: &'static str)
        ensures
            r@ == self.spec_svg_value(),
    {
        match self {
            StrokeJoin::Miter => "miter",
            StrokeJoin::Round => "round",
            StrokeJoin::Bevel => "bevel",
        }
    }

    /// Parses a join name (`miter`, `round` or `bevel`).
    pub fn from_str(s: &str) -> (r: Result<StrokeJoin, String>)
        ensures
            match r {
                Ok(j) => j.spec_svg_value() == s@,
                Err(m) => (forall|j: StrokeJoin| j.spec_svg_value() != s@)
                    && m@ == "invalid stroke join `"@ + s@ + "`, valid values: miter, round, bevel"@,
            },
    {
        if str_eq(s, "miter") {
            Ok(StrokeJoin::Miter)
        } else if str_eq(s, "round") {
            Ok(StrokeJoin::Round)
        } else if str_eq(s, "bevel") {
            Ok(StrokeJoin::Bevel)
        } else {
            proof {
                assert forall|j: StrokeJoin| j.spec_svg_value() != s@ by {
                    match j {
                        StrokeJoin::Miter => {},
                        StrokeJoin::Round => {},
                        StrokeJoin::Bevel => {},
                    }
                }
            }
            Err(concat3("invalid stroke join `", s, "`, valid values: miter, round, bevel"))
        }
    }
}

/// The z-order layers of SVG output, bottom first.
#[derive(Debug, Clone, Copy, PartialEq, Eq, Hash, PartialOrd, Ord, Structural)]
pub enum RenderLayer {
    /// Fills and background shapes.
    Background,
    /// Vertical lifelines of sequence diagrams.
    Lifeline,
    /// Main shapes and participants.
    Content,
    /// Activation boxes.
    Activation,
    /// Fragment blocks.
    Fragment,
    /// Notes and annotations.
    Note,
    /// Arrows between elements.
    Arrow,
    /// Text labels.
    Text,
}

impl RenderLayer {
    /// The name of each layer.
    pub open spec fn spec_name(self) -> Seq<char> {
        match self {
            RenderLayer::Background => "background"@,
            RenderLayer::Lifeline => "lifeline"@,
            RenderLayer::Content => "content"@,
            RenderLayer::Activation => "activation"@,
            RenderLayer::Fragment => "fragment"@,
            RenderLayer::Note => "note"@,
            RenderLayer::Arrow => "arrow"@,
            RenderLayer::Text => "text"@,
        }
    }

    /// The position of each layer in drawing order (0 is drawn first).
    pub open spec fn spec_rank(self) -> nat {
        match self {
            RenderLayer::Background => 0,
            RenderLayer::Lifeline => 1,
            RenderLayer::Content => 2,
            RenderLayer::Activation => 3,
            RenderLayer::Fragment => 4,
            RenderLayer::Note => 5,
            RenderLayer::Arrow => 6,
            RenderLayer::Text => 7,
        }
    }

    /// Returns a human-readable name for this layer.
    pub fn name(&self) -> (r: &'static str)
        ensures
            r@ == self.spec_name(),
    {
        match self {
            RenderLayer::Background => "background",
            RenderLayer::Lifeline => "lifeline",
            RenderLayer::Content => "content",
            RenderLayer::Activation => "activation",
            RenderLayer::Fragment => "fragment",
            RenderLayer::Note => "note",
            RenderLayer::Arrow => "arrow",
            RenderLayer::Text => "text",
        }
    }

    /// Returns the position of this layer in drawing order.
    pub fn rank(&self) -> (r: u8)
        ensures
            r == self.spec_rank(),
    {
        match self {
            RenderLayer::Background => 0,
            RenderLayer::Lifeline => 1,
            RenderLayer::Content => 2,
            RenderLayer::Activation => 3,
            RenderLayer::Fragment => 4,
            RenderLayer::Note => 5,
            RenderLayer::Arrow => 6,
            RenderLayer::Text => 7,
        }
    }
}

/// Distinct layers have distinct names and distinct ranks.
pub proof fn lemma_layer_names_distinct(a: RenderLayer, b: RenderLayer)
    ensures
        a != b ==> a.spec_name() != b.spec_name(),
        a != b ==> a.spec_rank() != b.spec_rank(),
{
    reveal_strlit("background");
    reveal_strlit("lifeline");
    reveal_strlit("content");
    reveal_strlit("activation");
    reveal_strlit("fragment");
    reveal_strlit("note");
    reveal_strlit("arrow");
    reveal_strlit("text");
    if a != b && a.spec_name() == b.spec_name() {
        assert(a.spec_name().len() == b.spec_name().len());
        assert(a.spec_name()[0] == b.spec_name()[0]);
        assert(a.spec_name()[1] == b.spec_name()[1]);
    }
}

/// The shape of arrow paths.
#[derive(Debug, Default, Clone, Copy, PartialEq, Eq, Structural)]
pub enum ArrowStyle {
    /// Direct line segments.
    Straight,
    /// Smooth bezier curves.
    #[default]
    Curved,
    /// Horizontal and vertical segments only.
    Orthogonal,
}

impl ArrowStyle {
    /// The name of each style.
    pub open spec fn spec_name(self) -> Seq<char> {
        match self {
            ArrowStyle::Straight => "straight"@,
            ArrowStyle::Curved => "curved"@,
            ArrowStyle::Orthogonal => "orthogonal"@,
        }
    }

    /// Parses a style name (`straight`, `curved` or `orthogonal`).
    pub fn from_str(s: &str) -> (r: Result<ArrowStyle, &'static str>)
        ensures
            match r {
                Ok(st) => st.spec_name() == s@,
                Err(m) => (forall|st: ArrowStyle| st.spec_name() != s@) && m@ == "Invalid arrow style"@,
            },
    {
        if str_eq(s, "straight") {
            Ok(ArrowStyle::Straight)
        } else if str_eq(s, "curved") {
            Ok(ArrowStyle::Curved)
        } else if str_eq(s, "orthogonal") {
            Ok(ArrowStyle::Orthogonal)
        } else {
            proof {
                assert forall|st: ArrowStyle| st.spec_name() != s@ by {
                    match st {
                        ArrowStyle::Straight => {},
                        ArrowStyle::Curved => {},
                        ArrowStyle::Orthogonal => {},
                    }
                }
            }
            Err("Invalid arrow style")
        }
    }
}

/// Where an arrow's markers are drawn.
#[derive(Debug, Clone, Copy, PartialEq, Eq, Structural)]
pub enum ArrowDirection {
    /// `->`: from source to destination.
    Forward,
    /// `<-`: from destination to source.
    Backward,
    /// `<->`: markers at both ends.
    Bidirectional,
    /// `-`: a plain line.
    Plain,
}

impl ArrowDirection {
    /// The relation symbol of each direction.
    pub open spec fn spec_symbol(self) -> Seq<char> {
        match self {
            ArrowDirection::Forward => "->"@,
            ArrowDirection::Backward => "<-"@,
            ArrowDirection::Bidirectional => "<->"@,
            ArrowDirection::Plain => "-"@,
        }
    }

    /// Returns the relation symbol (`->`, `<-`, `<->` or `-`).
    pub fn as_str(&self) -> (r: &'static str)
        ensures
            r@ == self.spec_symbol(),
    {
        match self {
            ArrowDirection::Forward => "->",
            ArrowDirection::Backward => "<-",
            ArrowDirection::Bidirectional => "<->",
            ArrowDirection::Plain => "-",
        }
    }

    /// The displayed form, which is the relation symbol.
    pub fn to_string(&self) -> (r: String)
        ensures
            r@ == self.spec_symbol(),
    {
        String::from_str(self.as_str())
    }

    /// Parses a relation symbol.
    pub fn from_str(s: &str) -> (r: Result<ArrowDirection, &'static str>)
        ensures
            match r {
                Ok(d) => d.spec_symbol() == s@,
                Err(m) => (forall|d: ArrowDirection| d.spec_symbol() != s@)
                    && m@ == "Invalid arrow direction"@,
            },
    {
        if str_eq(s, "->") {
            Ok(ArrowDirection::Forward)
        } else if str_eq(s, "<-") {
            Ok(ArrowDirection::Backward)
        } else if str_eq(s, "<->") {
            Ok(ArrowDirection::Bidirectional)
        } else if str_eq(s, "-") {
            Ok(ArrowDirection::Plain)
        } else {
            proof {
                assert forall|d: ArrowDirection| d.spec_symbol() != s@ by {
                    match d {
                        ArrowDirection::Forward => {},
                        ArrowDirection::Backward => {},
                        ArrowDirection::Bidirectional => {},
                        ArrowDirection::Plain => {},
                    }
                }
            }
            Err("Invalid arrow direction")
        }
    }
}

/// Parsing the symbol of a direction gives that direction back.
pub proof fn lemma_direction_symbols_distinct(a: ArrowDirection, b: ArrowDirection)
    ensures
        a.spec_symbol() == b.spec_symbol() ==> a == b,
{
    reveal_strlit("->");
    reveal_strlit("<-");
    reveal_strlit("<->");
    reveal_strlit("-");
    if a.spec_symbol() == b.spec_symbol() {
        assert(a.spec_symbol().len() == b.spec_symbol().len());
        if a.spec_symbol().len() == 2 {
            assert(a.spec_symbol()[0] == b.spec_symbol()[0]);
        }
    }
}

/// Parsing through `str::parse`, by the inherent `from_str` of each type.
impl std::str::FromStr for StrokeStyle {
    type Err = String;

    fn from_str(s: &str) -> (r: Result<StrokeStyle, String>)
        ensures
            match spec_named_style(s@) {
                Some(style) => r == Ok::<StrokeStyle, String>(style),
                None => r matches Ok(StrokeStyle::Custom(p)) && p@ == s@,
            },
    {
        StrokeStyle::from_str(s)
    }
}

impl std::str::FromStr for StrokeCap {
    type Err = String;

    fn from_str(s: &str) -> (r: Result<StrokeCap, String>)
        ensures
            match r {
                Ok(c) => c.spec_svg_value() == s@,
                Err(m) => (forall|c: StrokeCap| c.spec_svg_value() != s@)
                    && m@ == "invalid stroke cap `"@ + s@ + "`, valid values: butt, round, square"@,
            },
    {
        StrokeCap::from_str(s)
    }
}

impl std::str::FromStr for StrokeJoin {
    type Err = String;

    fn from_str(s: &str) -> (r: Result<StrokeJoin, String>)
        ensures
            match r {
                Ok(j) => j.spec_svg_value() == s@,
                Err(m) => (forall|j: StrokeJoin| j.spec_svg_value() != s@)
                    && m@ == "invalid stroke join `"@ + s@ + "`, valid values: miter, round, bevel"@,
            },
    {
        StrokeJoin::from_str(s)
    }
}

impl std::str::FromStr for ArrowStyle {
    type Err = &'static str;

    fn from_str(s: &str) -> (r: Result<ArrowStyle, &'static str>)
        ensures
            match r {
                Ok(st) => st.spec_name() == s@,
                Err(m) => (forall|st: ArrowStyle| st.spec_name() != s@) && m@ == "Invalid arrow style"@,
            },
    {
        ArrowStyle::from_str(s)
    }
}

impl std::str::FromStr for ArrowDirection {
    type Err = &'static str;

    fn from_str(s: &str) -> (r: Result<ArrowDirection, &'static str>)
        ensures
            match r {
                Ok(d) => d.spec_symbol() == s@,
                Err(m) => (forall|d: ArrowDirection| d.spec_symbol() != s@)
                    && m@ == "Invalid arrow direction"@,
            },
    {
        ArrowDirection::from_str(s)
    }
}

} // verus!
