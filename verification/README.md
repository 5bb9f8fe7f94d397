# orrery

The front end of Orrery, a text language for component and sequence
diagrams, written in Verus. The functions in `src/` carry contracts that
Verus proves, except the few wrappers marked `#[verifier::external_body]`
that call `std::path`, `String::push`, `indexmap` and `string_interner`:
their contracts are trusted, and their doc comments say what each claims.

`parse` in `src/lib.rs` runs the front end on a root file: import
resolution, desugaring and the semantic checks.

## Layout

- `src/span.rs`, `src/source_map.rs`: byte spans, and the virtual address
  space in which every loaded file has its own range.
- `src/error/`: diagnostics, their codes and severities, and parse errors.
- `src/interner.rs`, `src/identifier.rs`: interned strings and `::`-separated
  identifiers.
- `src/tokens.rs`, `src/parser.rs`: tokens and the parser from tokens to the
  syntax tree of `src/ast.rs`. Each parsing function is proved equal to a
  specification of the grammar, failures and their contexts included.
- `src/resolver.rs`, `src/source_provider.rs`, `src/paths.rs`: the import
  resolver, which loads a root file and its imports through a source
  provider and a parser handed in, takes files already resolved from its
  cache and reports imports that close a cycle; in-memory sources.
- `src/desugar.rs`, `src/type_index.rs`: rewriting statement sugar into core
  elements and merging imported type definitions.
- `src/validate.rs`: the semantic checks (undefined components, unpaired
  activations, note alignment, unresolved embeds, unknown base types).
- `src/builtin_types.rs`, `src/elaborate_utils.rs`, `src/draw.rs`,
  `src/semantic.rs`: the built-in types and the reading of stroke and text
  attributes, with colors checked by a color parser handed in.
- `tests/`: the test suite, run against the compiled library.
- `app/`: what stays outside the verified library: the process-wide
  interner, configuration types with `serde` derives, and parse errors as
  standard errors.
