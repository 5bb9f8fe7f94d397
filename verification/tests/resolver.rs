use orrery::ast::{FileAst, FileHeader, ImportDecl, ImportForm};
use orrery::error::Diagnostic;
use orrery::error::parse_error::ParseError;
use orrery::semantic::DiagramKind;
use orrery::source_provider::InMemorySourceProvider;
use orrery::span::Spanned;
use orrery::error::{ErrorCode, SourceError};
use orrery::interner::Interner;
use orrery::resolver::{
    cycle_error, file_not_found_diagnostic, invalid_namespace_diagnostic, validate_import_path,
    resolve, FileId, ResolutionState, ResolvedFile, Step,
};
use orrery::source_map::SourceMap;
use orrery::span::Span;

/// A library file with nothing in it.
fn library(start: usize) -> FileAst {
    FileAst {
        header: FileHeader::Library { span: Span::new(start..start + 8) },
        import_decls: vec![],
        imports: vec![],
        type_definitions: vec![],
        elements: vec![],
    }
}

#[test]
fn new_returns_distinct_ids() {
    let mut interner = Interner::new();
    let a = FileId::new(&mut interner, "a.orr");
    let b = FileId::new(&mut interner, "b.orr");
    let c = FileId::new(&mut interner, "c.orr");
    assert_ne!(a, b);
    assert_ne!(b, c);
    assert_ne!(a, c);
}

#[test]
fn new_deduplicates_same_path() {
    let mut interner = Interner::new();
    let first = FileId::new(&mut interner, "shared/styles.orr");
    let second = FileId::new(&mut interner, "shared/styles.orr");
    assert_eq!(first, second);
}

#[test]
fn as_str_returns_original_path() {
    let mut interner = Interner::new();
    let id = FileId::new(&mut interner, "shared/styles.orr");
    assert_eq!(id.as_str(&interner), "shared/styles.orr");
}

#[test]
fn begin_loads_a_new_file() {
    let mut state = ResolutionState::new();
    assert!(matches!(state.begin("main.orr", None), Step::Load));
}

#[test]
fn diamond_dependency_is_loaded_once() {
    // a imports b and c; b and c both import d.
    let mut state = ResolutionState::new();
    assert!(matches!(state.begin("a.orr", None), Step::Load));
    assert!(matches!(state.begin("b.orr", Some(Span::new(20..30))), Step::Load));
    assert!(matches!(state.begin("d.orr", Some(Span::new(40..50))), Step::Load));
    state.finish(library(100));
    state.finish(library(200));
    assert!(matches!(state.begin("c.orr", Some(Span::new(31..39))), Step::Load));
    match state.begin("d.orr", Some(Span::new(60..70))) {
        Step::Cached(file) => match file.header {
            FileHeader::Library { span } => assert_eq!((span.start(), span.end()), (100, 108)),
            _ => panic!("Expected the cached library"),
        },
        other => panic!("Expected d.orr from the cache, got {:?}", other),
    }
    state.finish(library(300));
    state.finish(library(0));
    assert!(matches!(state.begin("a.orr", None), Step::Cached(_)));
}

#[test]
fn duplicate_import_is_cached() {
    let mut state = ResolutionState::new();
    assert!(matches!(state.begin("main.orr", None), Step::Load));
    assert!(matches!(state.begin("styles.orr", Some(Span::new(19..35))), Step::Load));
    state.finish(library(50));
    assert!(matches!(state.begin("styles.orr", Some(Span::new(36..52))), Step::Cached(_)));
}

#[test]
fn self_import_is_a_cycle() {
    let mut state = ResolutionState::new();
    assert!(matches!(state.begin("self.orr", None), Step::Load));
    match state.begin("self.orr", Some(Span::new(19..33))) {
        Step::Cycle(d) => {
            assert_eq!(d.code(), Some(ErrorCode::E401));
            assert_eq!(d.message(), "circular dependency detected");
            assert_eq!(d.help(), Some("import chain: self.orr → self.orr"));
            assert_eq!(d.labels().len(), 1);
            assert_eq!(d.labels()[0].message(), "cyclic import");
            assert_eq!(d.labels()[0].span(), Span::new(19..33));
        }
        other => panic!("Expected a cycle, got {:?}", other),
    }
}

#[test]
fn circular_dependency_shows_the_chain() {
    // a imports b, b imports c, c imports b again.
    let mut state = ResolutionState::new();
    assert!(matches!(state.begin("a.orr", None), Step::Load));
    assert!(matches!(state.begin("b.orr", Some(Span::new(19..30))), Step::Load));
    assert!(matches!(state.begin("c.orr", Some(Span::new(60..71))), Step::Load));
    match state.begin("b.orr", Some(Span::new(90..101))) {
        Step::Cycle(d) => {
            assert_eq!(d.code(), Some(ErrorCode::E401));
            assert_eq!(d.help(), Some("import chain: b.orr → c.orr → b.orr"));
            let help = d.help().unwrap();
            assert!(!help.contains("a.orr"));
        }
        other => panic!("Expected a cycle, got {:?}", other),
    }
}

#[test]
fn cycle_error_without_span_has_no_label() {
    let mut interner = Interner::new();
    let a = FileId::new(&mut interner, "a.orr");
    let b = FileId::new(&mut interner, "b.orr");
    let d = cycle_error(&interner, &vec![a, b], a, None);
    assert_eq!(d.code(), Some(ErrorCode::E401));
    assert_eq!(d.help(), Some("import chain: a.orr → b.orr → a.orr"));
    assert!(d.labels().is_empty());
}

#[test]
fn empty_import_path_emits_e402() {
    let d = validate_import_path("", Span::new(7..9)).unwrap_err();
    assert_eq!(d.code(), Some(ErrorCode::E402));
    assert_eq!(d.message(), "import path is empty");
    assert_eq!(d.labels()[0].message(), "empty path");
    assert_eq!(d.labels()[0].span(), Span::new(7..9));
    assert!(validate_import_path("styles", Span::new(7..15)).is_ok());
}

#[test]
fn file_not_found_diagnostic_emits_e400() {
    let error = SourceError::new("missing.orr", "file not found: missing.orr");
    let d = file_not_found_diagnostic(&error, Some(Span::new(19..35)));
    assert_eq!(d.code(), Some(ErrorCode::E400));
    assert_eq!(d.message(), "cannot find file: missing.orr");
    assert_eq!(d.labels()[0].message(), "imported here");
    let d = file_not_found_diagnostic(&error, None);
    assert!(d.labels().is_empty());
}

#[test]
fn invalid_namespace_emits_e403() {
    let error = SourceError::new("..", "cannot derive namespace: path has no valid file stem");
    let d = invalid_namespace_diagnostic(&error, Span::new(3..10));
    assert_eq!(d.code(), Some(ErrorCode::E403));
    assert_eq!(
        d.message(),
        "cannot derive namespace: cannot derive namespace: path has no valid file stem"
    );
    assert_eq!(d.labels()[0].message(), "imported here");
}

#[test]
fn resolved_file_into_parts() {
    let resolved = ResolvedFile::new(SourceMap::new(), library(0));
    let (file_ast, source_map) = resolved.into_parts();
    assert!(file_ast.imports.is_empty());
    assert_eq!(source_map.file_count(), 0);
}

#[test]
fn can_begin_a_new_path() {
    let state = ResolutionState::new();
    assert!(state.can_begin("main.orr"));
}

/// A stand-in for the tokenizer and parser: a first line `library;` gives
/// a library header (anything else a component diagram), and each line
/// `import "path";` or `import "path"::*;` an import declaration. Spans are
/// offsets in the source map.
fn parse_file(text: &str, base: usize) -> Result<FileAst, Vec<Diagnostic>> {
    let mut offset = base;
    let mut header = None;
    let mut import_decls = Vec::new();
    for line in text.split('\n') {
        let len = line.len();
        if header.is_none() {
            header = Some(if line.trim() == "library;" {
                FileHeader::Library { span: Span::new(offset..offset + len) }
            } else {
                FileHeader::Diagram {
                    kind: Spanned::new(DiagramKind::Component, Span::new(offset..offset + len)),
                    attributes: vec![],
                }
            });
        } else if let Some(rest) = line.trim().strip_prefix("import \"") {
            let end = rest.find('"').unwrap();
            let form = if rest[end + 1..].starts_with("::*") { ImportForm::Glob } else { ImportForm::Namespaced };
            let path = Spanned::new(rest[..end].to_string(), Span::new(offset + 8..offset + 8 + end));
            import_decls.push(Spanned::new(ImportDecl { path, form }, Span::new(offset..offset + len)));
        }
        offset += len + 1;
    }
    Ok(FileAst {
        header: header.unwrap_or(FileHeader::Library { span: Span::new(base..base) }),
        import_decls,
        imports: vec![],
        type_definitions: vec![],
        elements: vec![],
    })
}

fn resolve_with(files: &[(&str, &str)], root: &str) -> Result<ResolvedFile, ParseError> {
    let mut provider = InMemorySourceProvider::new();
    for &(path, source) in files {
        provider.add_file(path, source);
    }
    resolve(&provider, &parse_file, root)
}

#[test]
fn single_file_no_imports() {
    let (file_ast, source_map) = resolve_with(&[("main.orr", "diagram component;\na: Rectangle;")], "main.orr")
        .expect("should resolve")
        .into_parts();
    assert!(file_ast.imports.is_empty());
    assert_eq!(source_map.file_count(), 1);
}

#[test]
fn library_file_resolves() {
    let (file_ast, _) = resolve_with(&[("lib.orr", "library;")], "lib.orr")
        .expect("should resolve library")
        .into_parts();
    assert!(file_ast.imports.is_empty());
    assert!(matches!(file_ast.header, FileHeader::Library { .. }));
}

#[test]
fn single_import_loads_both() {
    let (file_ast, source_map) = resolve_with(
        &[
            ("main.orr", "diagram component;\nimport \"styles\";\na: Rectangle;"),
            ("styles.orr", "library;"),
        ],
        "main.orr",
    )
    .expect("should resolve")
    .into_parts();
    assert_eq!(file_ast.imports.len(), 1);
    assert_eq!(source_map.file_count(), 2);
    assert!(matches!(file_ast.imports[0].file_ast.header, FileHeader::Library { .. }));
}

#[test]
fn multiple_imports_from_same_file() {
    let (file_ast, source_map) = resolve_with(
        &[
            ("a.orr", "diagram component;\nimport \"b\";\nimport \"c\";\nimport \"d\";\na: Rectangle;"),
            ("b.orr", "library;"),
            ("c.orr", "library;"),
            ("d.orr", "library;"),
        ],
        "a.orr",
    )
    .expect("should resolve")
    .into_parts();
    assert_eq!(file_ast.imports.len(), 3);
    assert_eq!(source_map.file_count(), 4);
}

#[test]
fn nested_imports_resolve_transitively() {
    let (file_ast, source_map) = resolve_with(
        &[
            ("a.orr", "diagram component;\nimport \"b\";\na: Rectangle;"),
            ("b.orr", "library;\nimport \"c\";"),
            ("c.orr", "library;"),
        ],
        "a.orr",
    )
    .expect("should resolve nested imports")
    .into_parts();
    assert_eq!(source_map.file_count(), 3);
    let b_ast = &file_ast.imports[0].file_ast;
    let c_ast = &b_ast.imports[0].file_ast;
    assert!(matches!(c_ast.header, FileHeader::Library { .. }));
    assert!(c_ast.imports.is_empty());
}

#[test]
fn duplicate_import_in_same_file_deduplicates() {
    let (file_ast, source_map) = resolve_with(
        &[
            ("a.orr", "diagram component;\nimport \"b\";\nimport \"b\";\na: Rectangle;"),
            ("b.orr", "library;"),
        ],
        "a.orr",
    )
    .expect("should resolve")
    .into_parts();
    assert_eq!(file_ast.imports.len(), 2);
    assert_eq!(source_map.file_count(), 2);
}

#[test]
fn diamond_dependency_deduplicates() {
    let (file_ast, source_map) = resolve_with(
        &[
            ("a.orr", "diagram component;\nimport \"b\";\nimport \"c\";\na: Rectangle;"),
            ("b.orr", "library;\nimport \"d\";"),
            ("c.orr", "library;\nimport \"d\";"),
            ("d.orr", "library;"),
        ],
        "a.orr",
    )
    .expect("should resolve diamond")
    .into_parts();
    assert_eq!(source_map.file_count(), 4);
    assert_eq!(file_ast.imports.len(), 2);
    assert_eq!(file_ast.imports[0].file_ast.imports.len(), 1);
    assert_eq!(file_ast.imports[1].file_ast.imports.len(), 1);
}

#[test]
fn missing_root_file_emits_e400() {
    let err = resolve_with(&[], "missing.orr").err().expect("should fail on missing root");
    assert_eq!(err.diagnostics()[0].code().expect("should have error code"), ErrorCode::E400);
}

#[test]
fn missing_file_emits_e400() {
    let err = resolve_with(&[("main.orr", "diagram component;\nimport \"nonexistent\";")], "main.orr")
        .err()
        .expect("should fail on missing file");
    assert_eq!(err.diagnostics()[0].code().expect("should have error code"), ErrorCode::E400);
}

#[test]
fn self_import_cycle_emits_e401() {
    let err = resolve_with(&[("a.orr", "diagram component;\nimport \"a\";")], "a.orr")
        .err()
        .expect("should detect self-cycle");
    assert_eq!(err.diagnostics()[0].code().expect("should have error code"), ErrorCode::E401);
}

#[test]
fn circular_dependency_emits_e401() {
    let err = resolve_with(
        &[
            ("a.orr", "diagram component;\nimport \"b\";"),
            ("b.orr", "library;\nimport \"c\";"),
            ("c.orr", "library;\nimport \"a\";"),
        ],
        "a.orr",
    )
    .err()
    .expect("should detect 3-level cycle");
    let diag = &err.diagnostics()[0];
    assert_eq!(diag.code().expect("should have error code"), ErrorCode::E401);
    let help = diag.help().expect("should have help text");
    assert!(help.contains("a.orr"), "chain should mention a.orr: {help}");
    assert!(help.contains("b.orr"), "chain should mention b.orr: {help}");
    assert!(help.contains("c.orr"), "chain should mention c.orr: {help}");
}

#[test]
fn namespace_derived_from_import_path() {
    let (file_ast, _) = resolve_with(
        &[
            ("dir/main.orr", "diagram component;\nimport \"../common/base\";\na: Rectangle;"),
            ("dir/../common/base.orr", "library;"),
        ],
        "dir/main.orr",
    )
    .expect("should resolve relative import")
    .into_parts();
    let ns = file_ast.imports[0].namespace.as_ref().expect("should have namespace");
    assert!(ns.eq_str("base"), "expected namespace 'base', got '{ns:?}'");
}

#[test]
fn cycle_error_shows_readable_paths() {
    let err = resolve_with(
        &[
            ("src/app.orr", "diagram component;\nimport \"lib\";"),
            ("src/lib.orr", "library;\nimport \"app\";"),
        ],
        "src/app.orr",
    )
    .err()
    .expect("should detect cycle");
    let diag = &err.diagnostics()[0];
    assert_eq!(diag.code().expect("should have error code"), ErrorCode::E401);
    let help = diag.help().expect("should have help text");
    assert!(help.contains("src/app.orr"), "help should show readable path 'src/app.orr': {help}");
    assert!(help.contains("src/lib.orr"), "help should show readable path 'src/lib.orr': {help}");
    assert!(help.contains(" → "), "help should format the chain with arrow separators: {help}");
}

#[test]
fn glob_import_has_no_namespace_and_empty_path_is_e402() {
    let (file_ast, _) = resolve_with(
        &[("a.orr", "diagram component;\nimport \"b\"::*;"), ("b.orr", "library;")],
        "a.orr",
    )
    .expect("should resolve glob import")
    .into_parts();
    assert!(file_ast.imports[0].namespace.is_none());

    let err = resolve_with(&[("a.orr", "diagram component;\nimport \"\";")], "a.orr")
        .err()
        .expect("empty path should fail");
    assert_eq!(err.diagnostics()[0].code(), Some(ErrorCode::E402));
}

#[test]
fn parse_resolves_desugars_and_checks() {
    let mut provider = InMemorySourceProvider::new();
    provider.add_file("main.orr", "diagram component;\nimport \"styles\";");
    provider.add_file("styles.orr", "library;");
    let (file_ast, source_map) = orrery::parse("main.orr", &provider, &parse_file).expect("should parse");
    assert_eq!(source_map.file_count(), 2);
    assert!(matches!(file_ast.header, FileHeader::Diagram { .. }));

    let err = orrery::parse("missing.orr", &provider, &parse_file).err().expect("missing root should fail");
    assert_eq!(err.diagnostics()[0].code(), Some(ErrorCode::E400));
}

#[test]
fn resolve_reports_a_failing_parse() {
    let mut provider = InMemorySourceProvider::new();
    provider.add_file("a.orr", "diagram component;\nimport \"b\";");
    provider.add_file("b.orr", "library;");
    let refuse_b = |text: &str, base: usize| {
        if text.starts_with("library") {
            Err(vec![Diagnostic::error("unexpected token")])
        } else {
            parse_file(text, base)
        }
    };
    let err = resolve(&provider, &refuse_b, "a.orr").err().expect("parse failure should fail");
    assert_eq!(err.diagnostics().len(), 1);
    assert_eq!(err.diagnostics()[0].message(), "unexpected token");
}
