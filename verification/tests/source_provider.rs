use orrery::source_provider::{InMemorySourceProvider, SourceProvider};

#[test]
fn resolve_path_same_directory() {
    let mut provider = InMemorySourceProvider::new();
    provider.add_file("styles.orr", "library;");

    let resolved = provider.resolve_path("main.orr", "styles").unwrap();
    assert_eq!(resolved, "styles.orr");
}

#[test]
fn resolve_path_subdirectory() {
    let mut provider = InMemorySourceProvider::new();
    provider.add_file("shared/styles.orr", "library;");

    let resolved = provider.resolve_path("main.orr", "shared/styles").unwrap();
    assert_eq!(resolved, "shared/styles.orr");
}

#[test]
fn resolve_path_from_nested_file() {
    let mut provider = InMemorySourceProvider::new();
    provider.add_file("shared/base.orr", "library;");

    // shared/ext.orr imports "base" → resolves to shared/base.orr
    let resolved = provider.resolve_path("shared/ext.orr", "base").unwrap();
    assert_eq!(resolved, "shared/base.orr");
}

#[test]
fn resolve_path_file_not_found() {
    let provider = InMemorySourceProvider::new();

    let err = provider.resolve_path("main.orr", "missing").unwrap_err();
    assert_eq!(err.path(), "missing.orr");
    assert!(err.message().contains("file not found"));
}

#[test]
fn resolve_path_appends_orr_extension() {
    let mut provider = InMemorySourceProvider::new();
    provider.add_file("lib.orr", "library;");

    let resolved = provider.resolve_path("main.orr", "lib").unwrap();
    assert_eq!(resolved, "lib.orr");
}

#[test]
fn read_source_existing_file() {
    let mut provider = InMemorySourceProvider::new();
    provider.add_file("styles.orr", "library;\ntype Box = Rectangle;");

    let source = provider.read_source("styles.orr").unwrap();
    assert_eq!(source, "library;\ntype Box = Rectangle;");
}

#[test]
fn read_source_missing_file() {
    let provider = InMemorySourceProvider::new();

    let err = provider.read_source("missing.orr").unwrap_err();
    assert_eq!(err.path(), "missing.orr");
    assert!(err.message().contains("file not found"));
}

#[test]
fn resolve_then_read_round_trip() {
    let mut provider = InMemorySourceProvider::new();
    provider.add_file("shared/styles.orr", "library;\ntype S = Rectangle;");
    provider.add_file("main.orr", "diagram component;");

    let resolved = provider.resolve_path("main.orr", "shared/styles").unwrap();
    let source = provider.read_source(&resolved).unwrap();
    assert!(source.contains("type S = Rectangle"));
}

#[test]
fn resolve_chained_imports() {
    let mut provider = InMemorySourceProvider::new();
    provider.add_file("base.orr", "library;");
    provider.add_file("ext.orr", "library;");
    provider.add_file("main.orr", "diagram component;");

    // main.orr → ext → base
    let ext_path = provider.resolve_path("main.orr", "ext").unwrap();
    assert_eq!(ext_path, "ext.orr");

    let base_path = provider.resolve_path(&ext_path, "base").unwrap();
    assert_eq!(base_path, "base.orr");

    let base_source = provider.read_source(&base_path).unwrap();
    assert_eq!(base_source, "library;");
}

#[test]
fn resolve_nested_directory_structure() {
    let mut provider = InMemorySourceProvider::new();
    provider.add_file("shared/base/types.orr", "library;");
    provider.add_file("shared/ext.orr", "library;");

    // shared/ext.orr imports base/types → shared/base/types.orr
    let types = provider.resolve_path("shared/ext.orr", "base/types").unwrap();
    assert_eq!(types, "shared/base/types.orr");
}

#[test]
fn empty_import_path_is_error() {
    let provider = InMemorySourceProvider::new();

    let err = provider.resolve_path("main.orr", "").unwrap_err();
    assert!(err.message().contains("file not found"));
}

#[test]
fn derive_namespace() {
    let provider = InMemorySourceProvider::new();
    let id = provider.derive_namespace("simple").unwrap();
    assert!(id.eq_str("simple"));

    let id = provider.derive_namespace("shared/nested").unwrap();
    assert!(id.eq_str("nested"));

    let id = provider.derive_namespace("../relative/path").unwrap();
    assert!(id.eq_str("path"));

    let id = provider.derive_namespace("shared/extension.orr").unwrap();
    assert!(id.eq_str("extension"));
}

#[test]
fn derive_namespace_empty_path_is_error() {
    let provider = InMemorySourceProvider::new();
    let err = provider.derive_namespace("").unwrap_err();
    assert!(
        err.message().contains("cannot derive namespace"),
        "expected namespace error, got: {}",
        err.message()
    );
}

#[test]
fn overwrite_file() {
    let mut provider = InMemorySourceProvider::new();
    provider.add_file("a.orr", "version 1");
    provider.add_file("a.orr", "version 2");

    let source = provider.read_source("a.orr").unwrap();
    assert_eq!(source, "version 2");
}

#[test]
fn add_file_keeps_other_paths() {
    let mut provider = InMemorySourceProvider::new();
    provider.add_file("a.orr", "first a");
    provider.add_file("lib/b.orr", "first b");
    provider.add_file("a.orr", "second a");
    provider.add_file("c.orr", "first c");

    assert_eq!(provider.read_source("a.orr").unwrap(), "second a");
    assert_eq!(provider.read_source("lib/b.orr").unwrap(), "first b");
    assert_eq!(provider.read_source("c.orr").unwrap(), "first c");
    assert!(provider.read_source("b.orr").is_err());
}
