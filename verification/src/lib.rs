//! Orrery: a text language for component and sequence diagrams.
//!
//! This crate holds the verified core of the Orrery front end: source spans
//! and the multi-file source map, diagnostics, string interning and
//! identifiers, the syntax tree and its parser, the import
//! resolver, and the passes that check and normalise a parsed file.

pub mod span;
pub mod error;
pub mod strings;
pub mod source_map;
pub mod interner;
pub mod identifier;
pub mod paths;
pub mod source_provider;
pub mod draw;
pub mod semantic;
pub mod ast;
pub mod builtin_types;
pub mod validate;
pub mod type_index;
pub mod desugar;
pub mod elaborate_utils;
pub mod tokens;
pub mod parser;
pub mod resolver;

use vstd::prelude::*;
use crate::ast::{FileAst, FileAstView};
use crate::desugar::{desugar, desugar_view};
use crate::error::parse_error::ParseError;
use crate::error::Diagnostic;
use crate::resolver::{parse_may_fail_silently, parses_any_source, resolution_failed, resolve, resolved_root};
use crate::source_map::SourceMap;
use crate::source_provider::SourceProvider;
use crate::validate::{check_file, reports, validate};

verus! {

/// Whether `e` reports what the semantic checks found in a root file that
/// resolved: their findings, in order.
pub open spec fn checks_failed<G: Fn(&str, usize) -> Result<FileAst, Vec<Diagnostic>>>(parse_file: G, root_path: Seq<char>, e: ParseError) -> bool {
    exists|resolved: FileAstView| resolved_root(parse_file, root_path, *e.spec_source_map(), resolved)
        && check_file(desugar_view(resolved)).len() > 0
        && reports(e.spec_diagnostics(), check_file(desugar_view(resolved)))
}

/// Parses a root file and its imports into a checked syntax tree: resolves
/// the root and, recursively, its imports (reading files through
/// `provider` and parsing each with `parse_file`), rewrites the statement
/// sugar, and runs the semantic checks. The checked tree comes with the
/// source map of every file loaded; a failure of any step comes as a
/// [`ParseError`] with the source map built so far.
pub fn parse<P: SourceProvider, G: Fn(&str, usize) -> Result<FileAst, Vec<Diagnostic>>>(
    root_path: &str,
    provider: &P,
    parse_file: &G,
) -> (r: Result<(FileAst, SourceMap), ParseError>)
    requires
        parses_any_source(*parse_file),
    ensures
        r matches Ok((a, m)) ==> exists|resolved: FileAstView| resolved_root(*parse_file, root_path@, m, resolved)
            && a@ == desugar_view(resolved)
            && check_file(a@).len() == 0,
        r matches Err(e) ==> e.spec_diagnostics().len() > 0 || parse_may_fail_silently(*parse_file),
        r matches Err(e) ==> resolution_failed(provider, *parse_file, root_path@, e)
            || checks_failed(*parse_file, root_path@, e),
{
    let resolved = match resolve(provider, parse_file, root_path) {
        Ok(f) => f,
        Err(e) => return Err(e),
    };
    let ghost rv = resolved.spec_file_ast();
    let (file_ast, source_map) = resolved.into_parts();
    let desugared = desugar(file_ast);
    match validate(&desugared) {
        Ok(()) => Ok((desugared, source_map)),
        Err(ds) => {
            let e = ParseError::new(ds, source_map);
            proof {
                assert(resolved_root(*parse_file, root_path@, *e.spec_source_map(), rv));
                assert(desugared@ == desugar_view(rv));
                assert(check_file(desugar_view(rv)).len() > 0);
                assert(reports(e.spec_diagnostics(), check_file(desugar_view(rv))));
                assert(checks_failed(*parse_file, root_path@, e));
            }
            Err(e)
        },
    }
}

} // verus!
