//! A single diagnostic message.
use vstd::prelude::*;
use crate::error::error_code::ErrorCode;
use crate::error::label::Label;
use crate::error::severity::Severity;
use crate::span::Span;
use crate::strings::{concat, concat3};

verus! {

/// One error or warning: a message with an optional code, labelled spans
/// and an optional help text.
#[derive(Debug, Clone)]
pub struct Diagnostic {
    severity: Severity,
    code: Option<ErrorCode>,
    message: String,
    labels: Vec<Label>,
    help: Option<String>,
}

impl Diagnostic {
    /// The severity.
    pub closed spec fn spec_severity(&self) -> Severity {
        self.severity
    }

    /// The error code, if any.
    pub closed spec fn spec_code(&self) -> Option<ErrorCode> {
        self.code
    }

    /// The message text.
    pub closed spec fn spec_message(&self) -> Seq<char> {
        self.message@
    }

    /// The labels, primary and secondary, in the order they were added.
    pub closed spec fn spec_labels(&self) -> Seq<Label> {
        self.labels@
    }

    /// The help text, if any.
    pub closed spec fn spec_help(&self) -> Option<Seq<char>> {
        match &self.help {
            Some(h) => Some(h@),
            None => None,
        }
    }

    /// The displayed form: `severity: message`, or `severity[CODE]: message`
    /// when a code is set.
    pub open spec fn spec_display(&self) -> Seq<char> {
        match self.spec_code() {
            Some(c) => self.spec_severity().spec_word() + "["@ + c.spec_as_str() + "]: "@
                + self.spec_message(),
            None => self.spec_severity().spec_word() + ": "@ + self.spec_message(),
        }
    }

    /// A fresh diagnostic of the given severity with no code, labels or help.
    pub open spec fn spec_fresh(&self, severity: Severity, message: Seq<char>) -> bool {
        &&& self.spec_severity() == severity
        &&& self.spec_code() is None
        &&& self.spec_message() == message
        &&& self.spec_labels().len() == 0
        &&& self.spec_help() is None
    }

    /// Creates an error diagnostic with the given message.
    pub fn error(message: &str) -> (r: Diagnostic)
        ensures
            r.spec_fresh(Severity::Error, message@),
    {
        Diagnostic {
            severity: Severity::Error,
            code: None,
            message: String::from_str(message),
            labels: Vec::new(),
            help: None,
        }
    }

    /// Creates a warning diagnostic with the given message.
    pub fn warning(message: &str) -> (r: Diagnostic)
        ensures
            r.spec_fresh(Severity::Warning, message@),
    {
        Diagnostic {
            severity: Severity::Warning,
            code: None,
            message: String::from_str(message),
            labels: Vec::new(),
            help: None,
        }
    }

    /// Sets the error code.
    pub fn with_code(self, code: ErrorCode) -> (r: Diagnostic)
        ensures
            r.spec_code() == Some(code),
            r.spec_severity() == self.spec_severity(),
            r.spec_message() == self.spec_message(),
            r.spec_labels() == self.spec_labels(),
            r.spec_help() == self.spec_help(),
    {
        Diagnostic { code: Some(code), ..self }
    }

    /// Adds a primary label.
    pub fn with_label(self, span: Span, message: &str) -> (r: Diagnostic)
        ensures
            r.spec_labels().len() == self.spec_labels().len() + 1,
            r.spec_labels().drop_last() == self.spec_labels(),
            r.spec_labels().last().spec_span() == span,
            r.spec_labels().last().spec_message() == message@,
            r.spec_labels().last().spec_primary(),
            r.spec_code() == self.spec_code(),
            r.spec_severity() == self.spec_severity(),
            r.spec_message() == self.spec_message(),
            r.spec_help() == self.spec_help(),
    {
        let mut d = self;
        d.labels.push(Label::primary(span, message));
        proof {
            assert(d.labels@.drop_last() =~= self.labels@);
        }
        d
    }

    /// Adds a secondary label.
    pub fn with_secondary_label(self, span: Span, message: &str) -> (r: Diagnostic)
        ensures
            r.spec_labels().len() == self.spec_labels().len() + 1,
            r.spec_labels().drop_last() == self.spec_labels(),
            r.spec_labels().last().spec_span() == span,
            r.spec_labels().last().spec_message() == message@,
            !r.spec_labels().last().spec_primary(),
            r.spec_code() == self.spec_code(),
            r.spec_severity() == self.spec_severity(),
            r.spec_message() == self.spec_message(),
            r.spec_help() == self.spec_help(),
    {
        let mut d = self;
        d.labels.push(Label::secondary(span, message));
        proof {
            assert(d.labels@.drop_last() =~= self.labels@);
        }
        d
    }

    /// Sets the help text.
    pub fn with_help(self, help: &str) -> (r: Diagnostic)
        ensures
            r.spec_help() == Some(help@),
            r.spec_code() == self.spec_code(),
            r.spec_severity() == self.spec_severity(),
            r.spec_message() == self.spec_message(),
            r.spec_labels() == self.spec_labels(),
    {
        Diagnostic { help: Some(String::from_str(help)), ..self }
    }

    /// Returns the severity.
    pub fn severity(&self) -> (r: Severity)
        ensures
            r == self.spec_severity(),
    {
        self.severity
    }

    /// Returns the error code, if any.
    pub fn code(&self) -> (r: Option<ErrorCode>)
        ensures
            r == self.spec_code(),
    {
        self.code
    }

    /// Returns the message text.
    pub fn message(&self) -> (r: &str)
        ensures
            r@ == self.spec_message(),
    {
        self.message.as_str()
    }

    /// Returns the labels.
    pub fn labels(&self) -> (r: &[Label])
        ensures
            r@ == self.spec_labels(),
    {
        self.labels.as_slice()
    }

    /// Returns the help text, if any.
    pub fn help(&self) -> (r: Option<&str>)
        ensures
            match r {
                Some(h) => self.spec_help() == Some(h@),
                None => self.spec_help() is None,
            },
    {
        match &self.help {
            Some(h) => Some(h.as_str()),
            None => None,
        }
    }

    /// The displayed form: `severity: message`, or `severity[CODE]: message`.
    pub fn to_string(&self) -> (r: String)
        ensures
            r@ == self.spec_display(),
    {
        let word = self.severity.as_str();
        match self.code {
            Some(c) => {
                let head = concat3(word, "[", c.as_str());
                let head2 = concat(head.as_str(), "]: ");
                let r = concat(head2.as_str(), self.message.as_str());
                proof {
                    assert(r@ =~= self.spec_display());
                }
                r
            },
            None => {
                let r = concat3(word, ": ", self.message.as_str());
                r
            },
        }
    }
}

} // verus!
