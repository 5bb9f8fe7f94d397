//! The tokens of an Orrery source file.
use vstd::prelude::*;
use crate::span::Span;

verus! {

/// A token of an Orrery source file.
#[derive(Debug, Clone, PartialEq)]
pub enum Token {
    /// A name such as `user` or `Rectangle`.
    Identifier(String),
    /// The contents of a `"..."` literal, escapes resolved.
    StringLiteral(String),
    /// A numeric literal, as written.
    FloatLiteral(String),
    /// Spaces and tabs.
    Whitespace,
    /// A line break.
    Newline,
    /// A `//` comment, without the line break.
    LineComment(String),
    Component,
    Sequence,
    Type,
    Diagram,
    Embed,
    As,
    Activate,
    Deactivate,
    Note,
    Fragment,
    Section,
    Alt,
    Else,
    Opt,
    Loop,
    Par,
    Break,
    Critical,
    /// `->`
    Arrow,
    /// `<-`
    LeftArrow,
    /// `<->`
    DoubleArrow,
    /// `-`
    Plain,
    /// `::`
    DoubleColon,
    /// `:`
    Colon,
    /// `;`
    Semicolon,
    /// `,`
    Comma,
    /// `=`
    Equals,
    /// `@`
    At,
    /// `{`
    LeftBrace,
    /// `}`
    RightBrace,
    /// `[`
    LeftBracket,
    /// `]`
    RightBracket,
}

/// A token with its location in the source.
#[derive(Debug, Clone, PartialEq)]
pub struct PositionedToken {
    pub token: Token,
    pub span: Span,
}

/// Whether a token is layout: whitespace, a line break or a comment.
pub open spec fn is_layout(t: Token) -> bool {
    t is Whitespace || t is Newline || t is LineComment
}

} // verus!
