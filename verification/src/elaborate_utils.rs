//! Reading text and stroke attributes.
//!
//! A group of nested attributes such as `stroke=[color="red", width=2]`
//! or `text=[font_size=14]` is read attribute by attribute into updates of
//! a stroke or text definition. Each attribute name accepts one kind of
//! value; an unknown name is `E303`, a value of the wrong kind `E302`.
//! Colors are checked by a color parser that the caller hands in; a color
//! it refuses is `E302`. Reading stops at the first error, and the updates
//! of the attributes before it are kept.
use vstd::prelude::*;
use crate::ast::{attributes_view, lemma_attribute_view, lemma_attribute_value_view, Attribute, AttributeValue, AttributeValueView, AttributeView};
use crate::draw::{spec_named_style, StrokeCap, StrokeJoin, StrokeStyle};
use crate::error::{Diagnostic, ErrorCode};
use crate::span::Span;
use crate::strings::{concat, concat3, str_eq};
use crate::validate::{describes, Finding};

verus! {

/// The message of a value that is not a string.
pub open spec fn not_a_string() -> Seq<char> {
    "expected a string value"@
}

/// The message of a value that is not a number.
pub open spec fn not_a_number() -> Seq<char> {
    "expected a numeric value"@
}

/// An `E302` finding at `span`.
pub open spec fn invalid_value(message: Seq<char>, span: Span, label: Seq<char>, help: Seq<char>) -> Finding {
    Finding { code: ErrorCode::E302, message, span, label, help: Some(help) }
}

/// The error that reports a value that is not a valid color.
pub open spec fn invalid_color(what: Seq<char>, err: Seq<char>, span: Span) -> Finding {
    invalid_value(what + ": "@ + err, span, "invalid color"@, "use a CSS color"@)
}

/// Whether `parse_color` may be called on any text.
pub open spec fn parses_any_text<F: Fn(&str) -> Result<(), String>>(parse_color: F) -> bool {
    forall|x: &str| parse_color.requires((x,))
}

/// Whether `parse_color`, called on the color `text`, accepted it.
pub open spec fn color_accepted<F: Fn(&str) -> Result<(), String>>(parse_color: F, text: Seq<char>) -> bool {
    exists|x: &str, u: ()| x@ == text && call_ensures(parse_color, (x,), Ok::<(), String>(u))
}

/// Whether `parse_color`, called on the color `text`, refused it with the
/// reason `err`.
pub open spec fn color_rejected<F: Fn(&str) -> Result<(), String>>(parse_color: F, text: Seq<char>, err: Seq<char>) -> bool {
    exists|x: &str, e: String| x@ == text && e@ == err && call_ensures(parse_color, (x,), Err::<(), String>(e))
}

/// Whether `d` reports that `parse_color` refused the color `text`: the
/// error `what: reason` with the parser's reason, at `span`.
pub open spec fn color_refused_as<F: Fn(&str) -> Result<(), String>>(parse_color: F, text: Seq<char>, d: Diagnostic, what: Seq<char>, span: Span) -> bool {
    exists|m: Seq<char>| #[trigger] color_rejected(parse_color, text, m) && describes(d, invalid_color(what, m, span))
}

/// Calls the color parser on a color text.
fn check_color<F: Fn(&str) -> Result<(), String>>(text: &String, parse_color: &F) -> (r: Result<(), String>)
    requires
        parses_any_text(*parse_color),
    ensures
        r is Ok ==> color_accepted(*parse_color, text@),
        r matches Err(e) ==> color_rejected(*parse_color, text@, e@),
{
    let x = text.as_str();
    let r = parse_color(x);
    proof {
        if let Ok(u) = r {
            assert(call_ensures(*parse_color, (x,), Ok::<(), String>(u)));
        }
    }
    r
}

/// A stroke style given by its text: a named style, or a dash pattern.
pub open spec fn style_of_text(style: StrokeStyle, text: Seq<char>) -> bool {
    match spec_named_style(text) {
        Some(named) => style == named,
        None => style matches StrokeStyle::Custom(p) && p@ == text,
    }
}

/// What one stroke attribute gives.
pub enum StrokeOutcome {
    /// The stroke color, as written; the color parser decides whether it
    /// is accepted.
    Color(Seq<char>),
    /// The stroke width, as its numeric literal.
    Width(Seq<char>),
    /// The stroke style, as its text.
    Style(Seq<char>),
    Cap(StrokeCap),
    Join(StrokeJoin),
    /// The attribute is rejected.
    Error(Finding),
}

/// What the stroke attribute `a` gives.
pub open spec fn stroke_outcome(a: AttributeView) -> StrokeOutcome {
    let name = a.name.value;
    let span = a.name.span;
    if name == "color"@ {
        match a.value {
            AttributeValueView::String(s) => StrokeOutcome::Color(s.value),
            _ => StrokeOutcome::Error(invalid_value(not_a_string(), span, "invalid color value"@, "color values must be strings"@)),
        }
    } else if name == "width"@ {
        match a.value {
            AttributeValueView::Float(f) => StrokeOutcome::Width(f.value),
            _ => StrokeOutcome::Error(invalid_value("invalid stroke width value: "@ + not_a_number(), span,
                "invalid number"@, "width must be a positive number"@)),
        }
    } else if name == "style"@ {
        match a.value {
            AttributeValueView::String(s) => StrokeOutcome::Style(s.value),
            _ => StrokeOutcome::Error(invalid_value(not_a_string(), span, "invalid stroke style value"@,
                "stroke style must be a string"@)),
        }
    } else if name == "cap"@ {
        match a.value {
            AttributeValueView::String(s) => if s.value == "butt"@ {
                StrokeOutcome::Cap(StrokeCap::Butt)
            } else if s.value == "round"@ {
                StrokeOutcome::Cap(StrokeCap::Round)
            } else if s.value == "square"@ {
                StrokeOutcome::Cap(StrokeCap::Square)
            } else {
                StrokeOutcome::Error(invalid_value("invalid stroke cap `"@ + s.value + "`, valid values: butt, round, square"@,
                    span, "invalid stroke cap"@, "valid values are: butt, round, square"@))
            },
            _ => StrokeOutcome::Error(invalid_value(not_a_string(), span, "invalid stroke cap value"@,
                "stroke cap must be a string"@)),
        }
    } else if name == "join"@ {
        match a.value {
            AttributeValueView::String(s) => if s.value == "miter"@ {
                StrokeOutcome::Join(StrokeJoin::Miter)
            } else if s.value == "round"@ {
                StrokeOutcome::Join(StrokeJoin::Round)
            } else if s.value == "bevel"@ {
                StrokeOutcome::Join(StrokeJoin::Bevel)
            } else {
                StrokeOutcome::Error(invalid_value("invalid stroke join `"@ + s.value + "`, valid values: miter, round, bevel"@,
                    span, "invalid stroke join"@, "valid values are: miter, round, bevel"@))
            },
            _ => StrokeOutcome::Error(invalid_value(not_a_string(), span, "invalid stroke join value"@,
                "stroke join must be a string"@)),
        }
    } else {
        StrokeOutcome::Error(Finding {
            code: ErrorCode::E303,
            message: "unknown stroke attribute `"@ + name + "`"@,
            span,
            label: "unknown attribute"@,
            help: Some("valid stroke attributes are: color, width, style, cap, join"@),
        })
    }
}

/// An update of a stroke definition.
#[derive(Debug)]
pub enum StrokeUpdate {
    /// Set the color, written as a CSS color.
    Color(String),
    /// Set the width, written as a numeric literal.
    Width(String),
    Style(StrokeStyle),
    Cap(StrokeCap),
    Join(StrokeJoin),
}

/// Whether the update `u` is what the outcome `o` gives.
pub open spec fn stroke_update_is(u: StrokeUpdate, o: StrokeOutcome) -> bool {
    match o {
        StrokeOutcome::Color(t) => u matches StrokeUpdate::Color(s) && s@ == t,
        StrokeOutcome::Width(t) => u matches StrokeUpdate::Width(s) && s@ == t,
        StrokeOutcome::Style(t) => u matches StrokeUpdate::Style(st) && style_of_text(st, t),
        StrokeOutcome::Cap(c) => u == StrokeUpdate::Cap(c),
        StrokeOutcome::Join(j) => u == StrokeUpdate::Join(j),
        StrokeOutcome::Error(_) => false,
    }
}

/// Whether reading the stroke attribute `a` may give the update `u`: the
/// update of its outcome, where a color must be accepted by `parse_color`.
pub open spec fn stroke_accepts<F: Fn(&str) -> Result<(), String>>(parse_color: F, a: AttributeView, u: StrokeUpdate) -> bool {
    match stroke_outcome(a) {
        StrokeOutcome::Color(t) => stroke_update_is(u, StrokeOutcome::Color(t)) && color_accepted(parse_color, t),
        o => stroke_update_is(u, o),
    }
}

/// Whether reading the stroke attribute `a` may give the error `d`: the
/// error of its outcome, or, for a color that `parse_color` refused,
/// `invalid stroke color` with the parser's reason.
pub open spec fn stroke_rejects<F: Fn(&str) -> Result<(), String>>(parse_color: F, a: AttributeView, d: Diagnostic) -> bool {
    match stroke_outcome(a) {
        StrokeOutcome::Error(f) => describes(d, f),
        StrokeOutcome::Color(t) => color_refused_as(parse_color, t, d, "invalid stroke color"@, a.name.span),
        _ => false,
    }
}

/// The error diagnostic that reports `f`.
fn report(message: &str, code: ErrorCode, span: Span, label: &str, help: &str, Ghost(f): Ghost<Finding>) -> (r: Diagnostic)
    requires
        f.code == code,
        f.message == message@,
        f.span == span,
        f.label == label@,
        f.help == Some(help@),
    ensures
        describes(r, f),
{
    Diagnostic::error(message).with_code(code).with_label(span, label).with_help(help)
}

/// The error that reports a value that is not a valid color: `what` names
/// the attribute (such as `invalid stroke color`), `err` is why the color
/// was refused.
pub fn invalid_color_diagnostic(what: &str, err: &str, span: Span) -> (r: Diagnostic)
    ensures
        describes(r, invalid_color(what@, err@, span)),
{
    let message = concat3(what, ": ", err);
    proof {
        reveal_strlit(": ");
        reveal_strlit("invalid color");
        reveal_strlit("use a CSS color");
    }
    report(message.as_str(), ErrorCode::E302, span, "invalid color", "use a CSS color",
        Ghost(invalid_color(what@, err@, span)))
}

/// Helper for reading stroke attributes from nested attribute lists.
pub struct StrokeAttributeExtractor;

impl StrokeAttributeExtractor {
    /// Reads one stroke attribute; a color is checked with `parse_color`.
    #[verifier::rlimit(50)]
    pub fn extract_single_attribute<F: Fn(&str) -> Result<(), String>>(attr: &Attribute, parse_color: &F) -> (r: Result<StrokeUpdate, Diagnostic>)
        requires
            parses_any_text(*parse_color),
        ensures
            r matches Ok(u) ==> stroke_accepts(*parse_color, attr@, u),
            r matches Err(d) ==> stroke_rejects(*parse_color, attr@, d),
    {
        proof {
            lemma_attribute_view(attr);
            lemma_attribute_value_view(&attr.value);
            reveal_strlit("color");
            reveal_strlit("width");
            reveal_strlit("style");
            reveal_strlit("cap");
            reveal_strlit("join");
        }
        let name = attr.name.inner().as_str();
        let span = attr.name.span();
        let value = &attr.value;
        if str_eq(name, "color") {
            match value {
                AttributeValue::String(s) => match check_color(s.inner(), parse_color) {
                    Ok(()) => {
                        assert(stroke_outcome(attr@) == StrokeOutcome::Color(s@.value));
                        Ok(StrokeUpdate::Color(s.inner().clone()))
                    },
                    Err(e) => {
                        proof {
                            reveal_strlit("invalid stroke color");
                        }
                        let d = invalid_color_diagnostic("invalid stroke color", e.as_str(), span);
                        assert(stroke_outcome(attr@) == StrokeOutcome::Color(s@.value));
                        assert(color_rejected(*parse_color, s@.value, e@));
                        assert(color_refused_as(*parse_color, s@.value, d, "invalid stroke color"@, attr@.name.span));
                        Err(d)
                    },
                },
                _ => {
                    proof {
                        reveal_strlit("expected a string value");
                        reveal_strlit("invalid color value");
                        reveal_strlit("color values must be strings");
                    }
                    Err(report("expected a string value", ErrorCode::E302, span, "invalid color value",
                        "color values must be strings",
                        Ghost(invalid_value(not_a_string(), span, "invalid color value"@, "color values must be strings"@))))
                },
            }
        } else if str_eq(name, "width") {
            match value {
                AttributeValue::Float(f) => Ok(StrokeUpdate::Width(f.inner().clone())),
                _ => {
                    proof {
                        reveal_strlit("invalid stroke width value: expected a numeric value");
                        reveal_strlit("invalid stroke width value: ");
                        reveal_strlit("expected a numeric value");
                        reveal_strlit("invalid number");
                        reveal_strlit("width must be a positive number");
                    }
                    let message = concat("invalid stroke width value: ", "expected a numeric value");
                    Err(report(message.as_str(), ErrorCode::E302, span,
                        "invalid number", "width must be a positive number",
                        Ghost(invalid_value("invalid stroke width value: "@ + not_a_number(), span,
                            "invalid number"@, "width must be a positive number"@))))
                },
            }
        } else if str_eq(name, "style") {
            match value {
                AttributeValue::String(s) => {
                    let style = StrokeStyle::from_str(s.inner().as_str());
                    match style {
                        Ok(st) => Ok(StrokeUpdate::Style(st)),
                        Err(_) => Ok(StrokeUpdate::Style(StrokeStyle::Solid)),
                    }
                },
                _ => {
                    proof {
                        reveal_strlit("expected a string value");
                        reveal_strlit("invalid stroke style value");
                        reveal_strlit("stroke style must be a string");
                    }
                    Err(report("expected a string value", ErrorCode::E302, span, "invalid stroke style value",
                        "stroke style must be a string",
                        Ghost(invalid_value(not_a_string(), span, "invalid stroke style value"@, "stroke style must be a string"@))))
                },
            }
        } else if str_eq(name, "cap") {
            match value {
                AttributeValue::String(s) => {
                    proof {
                        reveal_strlit("butt");
                        reveal_strlit("round");
                        reveal_strlit("square");
                    }
                    match StrokeCap::from_str(s.inner().as_str()) {
                        Ok(c) => {
                            proof {
                                match c {
                                    StrokeCap::Butt => {},
                                    StrokeCap::Round => {},
                                    StrokeCap::Square => {},
                                }
                            }
                            Ok(StrokeUpdate::Cap(c))
                        },
                        Err(e) => {
                            proof {
                                reveal_strlit("invalid stroke cap");
                                reveal_strlit("valid values are: butt, round, square");
                                assert(StrokeCap::Butt.spec_svg_value() != s@.value);
                                assert(StrokeCap::Round.spec_svg_value() != s@.value);
                                assert(StrokeCap::Square.spec_svg_value() != s@.value);
                            }
                            Err(report(e.as_str(), ErrorCode::E302, span, "invalid stroke cap",
                                "valid values are: butt, round, square",
                                Ghost(invalid_value("invalid stroke cap `"@ + s@.value + "`, valid values: butt, round, square"@,
                                    span, "invalid stroke cap"@, "valid values are: butt, round, square"@))))
                        },
                    }
                },
                _ => {
                    proof {
                        reveal_strlit("expected a string value");
                        reveal_strlit("invalid stroke cap value");
                        reveal_strlit("stroke cap must be a string");
                    }
                    Err(report("expected a string value", ErrorCode::E302, span, "invalid stroke cap value",
                        "stroke cap must be a string",
                        Ghost(invalid_value(not_a_string(), span, "invalid stroke cap value"@, "stroke cap must be a string"@))))
                },
            }
        } else if str_eq(name, "join") {
            match value {
                AttributeValue::String(s) => {
                    proof {
                        reveal_strlit("miter");
                        reveal_strlit("round");
                        reveal_strlit("bevel");
                    }
                    match StrokeJoin::from_str(s.inner().as_str()) {
                        Ok(j) => {
                            proof {
                                match j {
                                    StrokeJoin::Miter => {
                                        assert(s@.value == "miter"@);
                                    },
                                    StrokeJoin::Round => {
                                        assert(s@.value == "round"@);
                                        assert(s@.value[0] != "miter"@[0]);
                                    },
                                    StrokeJoin::Bevel => {
                                        assert(s@.value == "bevel"@);
                                        assert(s@.value[0] != "miter"@[0]);
                                        assert(s@.value[0] != "round"@[0]);
                                    },
                                }
                                assert(stroke_outcome(attr@) == StrokeOutcome::Join(j));
                            }
                            Ok(StrokeUpdate::Join(j))
                        },
                        Err(e) => {
                            proof {
                                reveal_strlit("invalid stroke join");
                                reveal_strlit("valid values are: miter, round, bevel");
                                assert(StrokeJoin::Miter.spec_svg_value() != s@.value);
                                assert(StrokeJoin::Round.spec_svg_value() != s@.value);
                                assert(StrokeJoin::Bevel.spec_svg_value() != s@.value);
                            }
                            Err(report(e.as_str(), ErrorCode::E302, span, "invalid stroke join",
                                "valid values are: miter, round, bevel",
                                Ghost(invalid_value("invalid stroke join `"@ + s@.value + "`, valid values: miter, round, bevel"@,
                                    span, "invalid stroke join"@, "valid values are: miter, round, bevel"@))))
                        },
                    }
                },
                _ => {
                    proof {
                        reveal_strlit("expected a string value");
                        reveal_strlit("invalid stroke join value");
                        reveal_strlit("stroke join must be a string");
                    }
                    Err(report("expected a string value", ErrorCode::E302, span, "invalid stroke join value",
                        "stroke join must be a string",
                        Ghost(invalid_value(not_a_string(), span, "invalid stroke join value"@, "stroke join must be a string"@))))
                },
            }
        } else {
            let message = concat3("unknown stroke attribute `", name, "`");
            proof {
                reveal_strlit("unknown stroke attribute `");
                reveal_strlit("`");
                reveal_strlit("unknown attribute");
                reveal_strlit("valid stroke attributes are: color, width, style, cap, join");
            }
            Err(report(message.as_str(), ErrorCode::E303, span, "unknown attribute",
                "valid stroke attributes are: color, width, style, cap, join",
                Ghost(Finding {
                    code: ErrorCode::E303,
                    message: "unknown stroke attribute `"@ + name@ + "`"@,
                    span,
                    label: "unknown attribute"@,
                    help: Some("valid stroke attributes are: color, width, style, cap, join"@),
                })))
        }
    }
}


impl StrokeAttributeExtractor {
    /// Reads a group of stroke attributes in order, appending the update of
    /// each to `updates`, and stops at the first attribute rejected: its
    /// error is returned, and the updates of the attributes before it stay
    /// appended.
    pub fn extract_stroke_attributes<F: Fn(&str) -> Result<(), String>>(updates: &mut Vec<StrokeUpdate>, attrs: &Vec<Attribute>, parse_color: &F) -> (r: Result<(), Diagnostic>)
        requires
            parses_any_text(*parse_color),
        ensures
            old(updates)@.len() <= final(updates)@.len() <= old(updates)@.len() + attrs@.len(),
            final(updates)@.take(old(updates)@.len() as int) == old(updates)@,
            forall|k: int| 0 <= k < final(updates)@.len() - old(updates)@.len()
                ==> stroke_accepts(*parse_color, attrs@[k]@, #[trigger] final(updates)@[old(updates)@.len() + k]),
            r is Ok <==> final(updates)@.len() == old(updates)@.len() + attrs@.len(),
            r matches Err(d) ==> stroke_rejects(*parse_color, attrs@[final(updates)@.len() - old(updates)@.len()]@, d),
    {
        let ghost n0 = updates@.len();
        let mut i: usize = 0;
        while i < attrs.len()
            invariant
                i <= attrs@.len(),
                parses_any_text(*parse_color),
                updates@.len() == n0 + i,
                n0 == old(updates)@.len(),
                updates@.take(n0 as int) == old(updates)@,
                forall|k: int| 0 <= k < i ==> stroke_accepts(*parse_color, attrs@[k]@, #[trigger] updates@[n0 + k]),
            decreases attrs@.len() - i,
        {
            match Self::extract_single_attribute(&attrs[i], parse_color) {
                Ok(u) => {
                    let ghost before = updates@;
                    updates.push(u);
                    proof {
                        assert(updates@.take(n0 as int) =~= before.take(n0 as int));
                        assert forall|k: int| 0 <= k < i + 1 implies stroke_accepts(*parse_color, attrs@[k]@, #[trigger] updates@[n0 + k]) by {
                            if k < i {
                                assert(updates@[n0 + k] == before[n0 + k]);
                            }
                        }
                    }
                },
                Err(d) => {
                    return Err(d);
                },
            }
            i = i + 1;
        }
        Ok(())
    }
}

// ---------------------------------------------------------------------------
// Text attributes
// ---------------------------------------------------------------------------

/// The text of a value in a message: a string or a numeric literal as
/// written.
pub open spec fn value_text(v: AttributeValueView) -> Seq<char> {
    match v {
        AttributeValueView::String(s) => s.value,
        AttributeValueView::Float(f) => f.value,
        AttributeValueView::TypeSpec(_) => "type specification"@,
        AttributeValueView::Identifiers(_) => "identifier list"@,
        AttributeValueView::Empty => "[]"@,
    }
}

/// The error that reports a font size that is not a positive integer.
pub open spec fn invalid_font_size(text: Seq<char>, span: Span) -> Finding {
    invalid_value("invalid font_size value `"@ + text + "`"@, span, "invalid number"@,
        "font size must be a positive integer"@)
}

/// What one text attribute gives.
pub enum TextOutcome {
    /// The font size, as its numeric literal.
    FontSize(Seq<char>),
    FontFamily(Seq<char>),
    /// The background color, as written; the color parser decides whether
    /// it is accepted.
    BackgroundColor(Seq<char>),
    /// The uniform padding, as its numeric literal.
    Padding(Seq<char>),
    /// The text color, as written; the color parser decides whether it is
    /// accepted.
    Color(Seq<char>),
    /// The attribute is rejected.
    Error(Finding),
}

/// What the text attribute `a` gives.
pub open spec fn text_outcome(a: AttributeView) -> TextOutcome {
    let name = a.name.value;
    let span = a.name.span;
    if name == "font_size"@ {
        match a.value {
            AttributeValueView::Float(f) => TextOutcome::FontSize(f.value),
            v => TextOutcome::Error(invalid_font_size(value_text(v), span)),
        }
    } else if name == "font_family"@ {
        match a.value {
            AttributeValueView::String(s) => TextOutcome::FontFamily(s.value),
            _ => TextOutcome::Error(invalid_value(not_a_string(), span, "invalid font family"@,
                "font family must be a string value"@)),
        }
    } else if name == "background_color"@ {
        match a.value {
            AttributeValueView::String(s) => TextOutcome::BackgroundColor(s.value),
            _ => TextOutcome::Error(invalid_value(not_a_string(), span, "invalid color value"@, "color values must be strings"@)),
        }
    } else if name == "padding"@ {
        match a.value {
            AttributeValueView::Float(f) => TextOutcome::Padding(f.value),
            _ => TextOutcome::Error(invalid_value("invalid padding value: "@ + not_a_number(), span,
                "invalid number"@, "text padding must be a positive number"@)),
        }
    } else if name == "color"@ {
        match a.value {
            AttributeValueView::String(s) => TextOutcome::Color(s.value),
            _ => TextOutcome::Error(invalid_value(not_a_string(), span, "invalid color value"@, "color values must be strings"@)),
        }
    } else {
        TextOutcome::Error(Finding {
            code: ErrorCode::E303,
            message: "unknown text attribute `"@ + name + "`"@,
            span,
            label: "unknown attribute"@,
            help: Some("valid text attributes are: font_size, font_family, background_color, padding, color"@),
        })
    }
}

/// An update of a text definition.
#[derive(Debug)]
pub enum TextUpdate {
    /// Set the font size, written as a numeric literal.
    FontSize(String),
    FontFamily(String),
    /// Set the background color, written as a CSS color.
    BackgroundColor(String),
    /// Set a uniform padding, written as a numeric literal.
    Padding(String),
    /// Set the text color, written as a CSS color.
    Color(String),
}

/// Whether the update `u` is what the outcome `o` gives.
pub open spec fn text_update_is(u: TextUpdate, o: TextOutcome) -> bool {
    match o {
        TextOutcome::FontSize(t) => u matches TextUpdate::FontSize(s) && s@ == t,
        TextOutcome::FontFamily(t) => u matches TextUpdate::FontFamily(s) && s@ == t,
        TextOutcome::BackgroundColor(t) => u matches TextUpdate::BackgroundColor(s) && s@ == t,
        TextOutcome::Padding(t) => u matches TextUpdate::Padding(s) && s@ == t,
        TextOutcome::Color(t) => u matches TextUpdate::Color(s) && s@ == t,
        TextOutcome::Error(_) => false,
    }
}

/// Whether reading the text attribute `a` may give the update `u`: the
/// update of its outcome, where a color must be accepted by `parse_color`.
pub open spec fn text_accepts<F: Fn(&str) -> Result<(), String>>(parse_color: F, a: AttributeView, u: TextUpdate) -> bool {
    match text_outcome(a) {
        TextOutcome::BackgroundColor(t) => text_update_is(u, TextOutcome::BackgroundColor(t)) && color_accepted(parse_color, t),
        TextOutcome::Color(t) => text_update_is(u, TextOutcome::Color(t)) && color_accepted(parse_color, t),
        o => text_update_is(u, o),
    }
}

/// Whether reading the text attribute `a` may give the error `d`: the error
/// of its outcome, or, for a color that `parse_color` refused,
/// `invalid background_color` or `invalid color` with the parser's reason.
pub open spec fn text_rejects<F: Fn(&str) -> Result<(), String>>(parse_color: F, a: AttributeView, d: Diagnostic) -> bool {
    match text_outcome(a) {
        TextOutcome::Error(f) => describes(d, f),
        TextOutcome::BackgroundColor(t) => color_refused_as(parse_color, t, d, "invalid background_color"@, a.name.span),
        TextOutcome::Color(t) => color_refused_as(parse_color, t, d, "invalid color"@, a.name.span),
        _ => false,
    }
}

/// The text of an attribute value, as it appears in messages.
fn value_text_exec(v: &AttributeValue) -> (r: String)
    ensures
        r@ == value_text(v@),
{
    proof {
        lemma_attribute_value_view(v);
    }
    match v {
        AttributeValue::String(s) => s.inner().clone(),
        AttributeValue::Float(f) => f.inner().clone(),
        AttributeValue::TypeSpec(_) => String::from_str("type specification"),
        AttributeValue::Identifiers(_) => String::from_str("identifier list"),
        AttributeValue::Empty => String::from_str("[]"),
    }
}

/// The error that reports a font size that is not a positive integer.
pub fn invalid_font_size_diagnostic(text: &str, span: Span) -> (r: Diagnostic)
    ensures
        describes(r, invalid_font_size(text@, span)),
{
    let message = concat3("invalid font_size value `", text, "`");
    proof {
        reveal_strlit("invalid number");
        reveal_strlit("font size must be a positive integer");
    }
    report(message.as_str(), ErrorCode::E302, span, "invalid number", "font size must be a positive integer",
        Ghost(invalid_font_size(text@, span)))
}

/// Extractor for the attributes of a text definition.
pub struct TextAttributeExtractor;

impl TextAttributeExtractor {
    /// Reads one text attribute; a color is checked with `parse_color`.
    #[verifier::rlimit(50)]
    pub fn extract_single_attribute<F: Fn(&str) -> Result<(), String>>(attr: &Attribute, parse_color: &F) -> (r: Result<TextUpdate, Diagnostic>)
        requires
            parses_any_text(*parse_color),
        ensures
            r matches Ok(u) ==> text_accepts(*parse_color, attr@, u),
            r matches Err(d) ==> text_rejects(*parse_color, attr@, d),
    {
        proof {
            lemma_attribute_view(attr);
            lemma_attribute_value_view(&attr.value);
            reveal_strlit("font_size");
            reveal_strlit("font_family");
            reveal_strlit("background_color");
            reveal_strlit("padding");
            reveal_strlit("color");
            reveal_strlit("expected a string value");
            reveal_strlit("invalid color value");
            reveal_strlit("color values must be strings");
        }
        let name = attr.name.inner().as_str();
        let span = attr.name.span();
        let value = &attr.value;
        if str_eq(name, "font_size") {
            match value {
                AttributeValue::Float(f) => Ok(TextUpdate::FontSize(f.inner().clone())),
                _ => {
                    let text = value_text_exec(value);
                    Err(invalid_font_size_diagnostic(text.as_str(), span))
                },
            }
        } else if str_eq(name, "font_family") {
            match value {
                AttributeValue::String(s) => Ok(TextUpdate::FontFamily(s.inner().clone())),
                _ => {
                    proof {
                        reveal_strlit("invalid font family");
                        reveal_strlit("font family must be a string value");
                    }
                    Err(report("expected a string value", ErrorCode::E302, span, "invalid font family",
                        "font family must be a string value",
                        Ghost(invalid_value(not_a_string(), span, "invalid font family"@, "font family must be a string value"@))))
                },
            }
        } else if str_eq(name, "background_color") {
            match value {
                AttributeValue::String(s) => match check_color(s.inner(), parse_color) {
                    Ok(()) => {
                        assert(text_outcome(attr@) == TextOutcome::BackgroundColor(s@.value));
                        Ok(TextUpdate::BackgroundColor(s.inner().clone()))
                    },
                    Err(e) => {
                        proof {
                            reveal_strlit("invalid background_color");
                        }
                        let d = invalid_color_diagnostic("invalid background_color", e.as_str(), span);
                        assert(text_outcome(attr@) == TextOutcome::BackgroundColor(s@.value));
                        assert(color_rejected(*parse_color, s@.value, e@));
                        assert(color_refused_as(*parse_color, s@.value, d, "invalid background_color"@, attr@.name.span));
                        Err(d)
                    },
                },
                _ => Err(report("expected a string value", ErrorCode::E302, span, "invalid color value",
                    "color values must be strings",
                    Ghost(invalid_value(not_a_string(), span, "invalid color value"@, "color values must be strings"@)))),
            }
        } else if str_eq(name, "padding") {
            match value {
                AttributeValue::Float(f) => Ok(TextUpdate::Padding(f.inner().clone())),
                _ => {
                    proof {
                        reveal_strlit("invalid number");
                        reveal_strlit("text padding must be a positive number");
                    }
                    let message = concat("invalid padding value: ", "expected a numeric value");
                    Err(report(message.as_str(), ErrorCode::E302, span, "invalid number",
                        "text padding must be a positive number",
                        Ghost(invalid_value("invalid padding value: "@ + not_a_number(), span,
                            "invalid number"@, "text padding must be a positive number"@))))
                },
            }
        } else if str_eq(name, "color") {
            match value {
                AttributeValue::String(s) => match check_color(s.inner(), parse_color) {
                    Ok(()) => {
                        assert(text_outcome(attr@) == TextOutcome::Color(s@.value));
                        Ok(TextUpdate::Color(s.inner().clone()))
                    },
                    Err(e) => {
                        proof {
                            reveal_strlit("invalid color");
                        }
                        let d = invalid_color_diagnostic("invalid color", e.as_str(), span);
                        assert(text_outcome(attr@) == TextOutcome::Color(s@.value));
                        assert(color_rejected(*parse_color, s@.value, e@));
                        assert(color_refused_as(*parse_color, s@.value, d, "invalid color"@, attr@.name.span));
                        Err(d)
                    },
                },
                _ => Err(report("expected a string value", ErrorCode::E302, span, "invalid color value",
                    "color values must be strings",
                    Ghost(invalid_value(not_a_string(), span, "invalid color value"@, "color values must be strings"@)))),
            }
        } else {
            let message = concat3("unknown text attribute `", name, "`");
            proof {
                reveal_strlit("unknown attribute");
                reveal_strlit("valid text attributes are: font_size, font_family, background_color, padding, color");
            }
            Err(report(message.as_str(), ErrorCode::E303, span, "unknown attribute",
                "valid text attributes are: font_size, font_family, background_color, padding, color",
                Ghost(Finding {
                    code: ErrorCode::E303,
                    message: "unknown text attribute `"@ + name@ + "`"@,
                    span,
                    label: "unknown attribute"@,
                    help: Some("valid text attributes are: font_size, font_family, background_color, padding, color"@),
                })))
        }
    }

    /// Reads a group of text attributes in order, appending the update of
    /// each to `updates`, and stops at the first attribute rejected: its
    /// error is returned, and the updates of the attributes before it stay
    /// appended.
    pub fn extract_text_attributes<F: Fn(&str) -> Result<(), String>>(updates: &mut Vec<TextUpdate>, attrs: &Vec<Attribute>, parse_color: &F) -> (r: Result<(), Diagnostic>)
        requires
            parses_any_text(*parse_color),
        ensures
            old(updates)@.len() <= final(updates)@.len() <= old(updates)@.len() + attrs@.len(),
            final(updates)@.take(old(updates)@.len() as int) == old(updates)@,
            forall|k: int| 0 <= k < final(updates)@.len() - old(updates)@.len()
                ==> text_accepts(*parse_color, attrs@[k]@, #[trigger] final(updates)@[old(updates)@.len() + k]),
            r is Ok <==> final(updates)@.len() == old(updates)@.len() + attrs@.len(),
            r matches Err(d) ==> text_rejects(*parse_color, attrs@[final(updates)@.len() - old(updates)@.len()]@, d),
    {
        let ghost n0 = updates@.len();
        let mut i: usize = 0;
        while i < attrs.len()
            invariant
                i <= attrs@.len(),
                parses_any_text(*parse_color),
                updates@.len() == n0 + i,
                n0 == old(updates)@.len(),
                updates@.take(n0 as int) == old(updates)@,
                forall|k: int| 0 <= k < i ==> text_accepts(*parse_color, attrs@[k]@, #[trigger] updates@[n0 + k]),
            decreases attrs@.len() - i,
        {
            match Self::extract_single_attribute(&attrs[i], parse_color) {
                Ok(u) => {
                    let ghost before = updates@;
                    updates.push(u);
                    proof {
                        assert(updates@.take(n0 as int) =~= before.take(n0 as int));
                        assert forall|k: int| 0 <= k < i + 1 implies text_accepts(*parse_color, attrs@[k]@, #[trigger] updates@[n0 + k]) by {
                            if k < i {
                                assert(updates@[n0 + k] == before[n0 + k]);
                            }
                        }
                    }
                },
                Err(d) => {
                    return Err(d);
                },
            }
            i = i + 1;
        }
        Ok(())
    }
}


} // verus!
