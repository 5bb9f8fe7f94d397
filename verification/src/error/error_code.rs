//! Error codes for the diagnostic system.
//!
//! - `E0xx`: lexer errors
//! - `E1xx`: parser errors
//! - `E2xx`: validation errors
//! - `E3xx`: elaboration errors
//! - `E4xx`: import resolution errors
use vstd::prelude::*;

verus! {

/// Error codes that categorise diagnostics.
#[derive(Debug, Clone, Copy, PartialEq, Eq, Hash, Structural)]
pub enum ErrorCode {
    /// Unterminated string literal: a string was opened with a quote but never closed.
    E001,
    /// Unexpected character that is not valid in this context.
    E002,
    /// Invalid escape sequence in a string literal.
    E003,
    /// Malformed unicode escape; the form is `\u{XXXX}` with 1 to 6 hex digits.
    E004,
    /// Unicode codepoint out of range or in the surrogate range.
    E005,
    /// A unicode escape `\u{}` with no digits.
    E006,
    /// The parser met a token it did not expect here.
    E100,
    /// The input ended before a complete construct was parsed.
    E101,
    /// A component was referenced that has not been defined.
    E200,
    /// An `activate` statement has no matching `deactivate`.
    E201,
    /// A `deactivate` statement has no matching `activate`.
    E202,
    /// The alignment is not valid for this diagram type.
    E203,
    /// An embedded diagram reference names no namespaced import.
    E204,
    /// A base type is neither built in nor defined by a `type` statement.
    E205,
    /// A type was referenced that has not been defined.
    E300,
    /// A type with this name has already been defined.
    E301,
    /// An attribute value is not valid for the expected type.
    E302,
    /// An attribute was given that is not recognised.
    E303,
    /// The attribute is not supported for this shape or type.
    E304,
    /// A diagram definition was found inside another diagram.
    E305,
    /// The diagram structure is invalid or malformed.
    E306,
    /// A type was used where another kind of type is expected.
    E307,
    /// Nested content was given to a shape that cannot hold it.
    E308,
    /// A diagram was placed beside other elements in its scope.
    E309,
    /// An imported file could not be found or read.
    E400,
    /// Files import each other in a cycle.
    E401,
    /// An import path is empty or otherwise invalid.
    E402,
    /// No namespace could be derived from an import path.
    E403,
}

impl ErrorCode {
    /// The code as text, such as `E001`.
    pub open spec fn spec_as_str(self) -> Seq<char> {
        match self {
            ErrorCode::E001 => "E001"@,
            ErrorCode::E002 => "E002"@,
            ErrorCode::E003 => "E003"@,
            ErrorCode::E004 => "E004"@,
            ErrorCode::E005 => "E005"@,
            ErrorCode::E006 => "E006"@,
            ErrorCode::E100 => "E100"@,
            ErrorCode::E101 => "E101"@,
            ErrorCode::E200 => "E200"@,
            ErrorCode::E201 => "E201"@,
            ErrorCode::E202 => "E202"@,
            ErrorCode::E203 => "E203"@,
            ErrorCode::E204 => "E204"@,
            ErrorCode::E205 => "E205"@,
            ErrorCode::E300 => "E300"@,
            ErrorCode::E301 => "E301"@,
            ErrorCode::E302 => "E302"@,
            ErrorCode::E303 => "E303"@,
            ErrorCode::E304 => "E304"@,
            ErrorCode::E305 => "E305"@,
            ErrorCode::E306 => "E306"@,
            ErrorCode::E307 => "E307"@,
            ErrorCode::E308 => "E308"@,
            ErrorCode::E309 => "E309"@,
            ErrorCode::E400 => "E400"@,
            ErrorCode::E401 => "E401"@,
            ErrorCode::E402 => "E402"@,
            ErrorCode::E403 => "E403"@,
        }
    }

    /// A short description of what the code means.
    pub open spec fn spec_description(self) -> Seq<char> {
        match self {
            ErrorCode::E001 => "unterminated string literal"@,
            ErrorCode::E002 => "unexpected character"@,
            ErrorCode::E003 => "invalid escape sequence"@,
            ErrorCode::E004 => "invalid unicode escape"@,
            ErrorCode::E005 => "invalid unicode codepoint"@,
            ErrorCode::E006 => "empty unicode escape"@,
            ErrorCode::E100 => "unexpected token"@,
            ErrorCode::E101 => "incomplete input"@,
            ErrorCode::E200 => "undefined component"@,
            ErrorCode::E201 => "unpaired activate"@,
            ErrorCode::E202 => "unpaired deactivate"@,
            ErrorCode::E203 => "invalid align value"@,
            ErrorCode::E204 => "unknown embed reference"@,
            ErrorCode::E205 => "unknown base type"@,
            ErrorCode::E300 => "undefined type"@,
            ErrorCode::E301 => "duplicate type definition"@,
            ErrorCode::E302 => "invalid attribute value"@,
            ErrorCode::E303 => "unknown attribute"@,
            ErrorCode::E304 => "unsupported attribute"@,
            ErrorCode::E305 => "nested diagram not allowed"@,
            ErrorCode::E306 => "invalid diagram structure"@,
            ErrorCode::E307 => "type mismatch"@,
            ErrorCode::E308 => "shape does not support nested content"@,
            ErrorCode::E309 => "diagram cannot share scope"@,
            ErrorCode::E400 => "file not found"@,
            ErrorCode::E401 => "circular dependency"@,
            ErrorCode::E402 => "invalid import path"@,
            ErrorCode::E403 => "invalid namespace"@,
        }
    }

    /// Returns the code as text (for example `"E001"`).
    pub fn as_str(&self) -> (r: &'static str)
        ensures
            r@ == self.spec_as_str(),
    {
        match self {
            ErrorCode::E001 => "E001",
            ErrorCode::E002 => "E002",
            ErrorCode::E003 => "E003",
            ErrorCode::E004 => "E004",
            ErrorCode::E005 => "E005",
            ErrorCode::E006 => "E006",
            ErrorCode::E100 => "E100",
            ErrorCode::E101 => "E101",
            ErrorCode::E200 => "E200",
            ErrorCode::E201 => "E201",
            ErrorCode::E202 => "E202",
            ErrorCode::E203 => "E203",
            ErrorCode::E204 => "E204",
            ErrorCode::E205 => "E205",
            ErrorCode::E300 => "E300",
            ErrorCode::E301 => "E301",
            ErrorCode::E302 => "E302",
            ErrorCode::E303 => "E303",
            ErrorCode::E304 => "E304",
            ErrorCode::E305 => "E305",
            ErrorCode::E306 => "E306",
            ErrorCode::E307 => "E307",
            ErrorCode::E308 => "E308",
            ErrorCode::E309 => "E309",
            ErrorCode::E400 => "E400",
            ErrorCode::E401 => "E401",
            ErrorCode::E402 => "E402",
            ErrorCode::E403 => "E403",
        }
    }

    /// Returns a short description of what this code means.
    pub fn description(&self) -> (r: &'static str)
        ensures
            r@ == self.spec_description(),
    {
        match self {
            ErrorCode::E001 => "unterminated string literal",
            ErrorCode::E002 => "unexpected character",
            ErrorCode::E003 => "invalid escape sequence",
            ErrorCode::E004 => "invalid unicode escape",
            ErrorCode::E005 => "invalid unicode codepoint",
            ErrorCode::E006 => "empty unicode escape",
            ErrorCode::E100 => "unexpected token",
            ErrorCode::E101 => "incomplete input",
            ErrorCode::E200 => "undefined component",
            ErrorCode::E201 => "unpaired activate",
            ErrorCode::E202 => "unpaired deactivate",
            ErrorCode::E203 => "invalid align value",
            ErrorCode::E204 => "unknown embed reference",
            ErrorCode::E205 => "unknown base type",
            ErrorCode::E300 => "undefined type",
            ErrorCode::E301 => "duplicate type definition",
            ErrorCode::E302 => "invalid attribute value",
            ErrorCode::E303 => "unknown attribute",
            ErrorCode::E304 => "unsupported attribute",
            ErrorCode::E305 => "nested diagram not allowed",
            ErrorCode::E306 => "invalid diagram structure",
            ErrorCode::E307 => "type mismatch",
            ErrorCode::E308 => "shape does not support nested content",
            ErrorCode::E309 => "diagram cannot share scope",
            ErrorCode::E400 => "file not found",
            ErrorCode::E401 => "circular dependency",
            ErrorCode::E402 => "invalid import path",
            ErrorCode::E403 => "invalid namespace",
        }
    }

    /// The displayed form of the code, which is its text.
    pub fn to_string(&self) -> (r: String)
        ensures
            r@ == self.spec_as_str(),
    {
        String::from_str(self.as_str())
    }
}

} // verus!
