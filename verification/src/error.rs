//! Diagnostics for the Orrery front end.
//!
//! - [`ErrorCode`]: stable codes grouped by phase.
//! - [`Severity`]: error or warning.
//! - [`Label`]: a span with a message.
//! - [`Diagnostic`]: one message with code, labels and help.
//! - [`DiagnosticCollector`]: accumulates diagnostics during a pass.
//! - [`SourceError`]: failure reported by a source provider.
//! - [`ParseError`]: diagnostics of a failed run with their source map.

pub mod collector;
pub mod diagnostic;
pub mod error_code;
pub mod label;
pub mod parse_error;
pub mod severity;
pub mod source_error;

pub use collector::DiagnosticCollector;
pub use diagnostic::Diagnostic;
pub use error_code::ErrorCode;
pub use label::Label;
pub use parse_error::ParseError;
pub use severity::Severity;
pub use source_error::SourceError;
