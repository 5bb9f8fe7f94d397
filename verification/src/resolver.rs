//! The import resolver: loading files, caching them, and detecting cycles.
//!
//! [`resolve`] loads a root file and, recursively, every file it imports.
//! Each file goes through [`ResolutionState::begin`]: a file that was
//! resolved before is handed back from the cache; a file that is still
//! being resolved further up the import chain is a circular dependency
//! (E401); any other file is pushed on the resolution stack, read through a
//! [`SourceProvider`], registered in the source map, parsed, has its imports
//! resolved, and [`ResolutionState::finish`] then caches it. The
//! diagnostics of the resolver (E400 to E403) are built here too.
use vstd::prelude::*;
use crate::ast::{clone_file_ast, imports_view, lemma_file_view, lemma_import_view, FileAst, FileAstView, Import, ImportDecl, ImportForm};
use crate::error::parse_error::ParseError;
use crate::identifier::Id;
use crate::source_provider::SourceProvider;
use crate::span::Spanned;
use crate::error::diagnostic::Diagnostic;
use crate::error::error_code::ErrorCode;
use crate::error::severity::Severity;
use crate::error::source_error::SourceError;
use crate::interner::{Interner, Symbol};
use crate::parser::join_arrows;
use crate::source_map::{SourceFile, SourceMap};
use crate::span::Span;
use crate::strings::{concat, concat3};

verus! {

// ---------------------------------------------------------------------------
// File identifiers
// ---------------------------------------------------------------------------

/// A cheap handle for a file path: the symbol of the interned path.
#[derive(Debug, Clone, Copy, PartialEq, Eq, Hash, Structural)]
pub struct FileId {
    symbol: Symbol,
}

impl FileId {
    /// The symbol of the interned path.
    pub closed spec fn spec_symbol(self) -> Symbol {
        self.symbol
    }

    /// Whether the interner holds this identifier's path.
    pub open spec fn held_by(self, interner: Interner) -> bool {
        self.spec_symbol().spec_index() < interner.strings().len()
    }

    /// The path of this identifier in the interner.
    pub open spec fn spec_path(self, interner: Interner) -> Seq<char> {
        interner.spec_resolve(self.spec_symbol())
    }

    /// The identifier of a path: its path interned.
    pub fn new(interner: &mut Interner, path: &str) -> (r: FileId)
        requires
            old(interner).wf(),
            old(interner).strings().contains(path@) || old(interner).strings().len() < u32::MAX,
        ensures
            final(interner).wf(),
            r.held_by(*final(interner)),
            r.spec_path(*final(interner)) == path@,
            old(interner).strings().contains(path@) ==> final(interner).strings() == old(interner).strings(),
            !old(interner).strings().contains(path@) ==> final(interner).strings() == old(interner).strings().push(path@),
    {
        FileId { symbol: interner.get_or_intern(path) }
    }

    /// The path of this identifier.
    pub fn as_str<'a>(&self, interner: &'a Interner) -> (r: &'a str)
        requires
            interner.wf(),
            self.held_by(*interner),
        ensures
            r@ == self.spec_path(*interner),
    {
        interner.resolve(self.symbol)
    }
}

/// The paths of a list of identifiers.
pub open spec fn paths_of(ids: Seq<FileId>, interner: Interner) -> Seq<Seq<char>> {
    ids.map_values(|id: FileId| id.spec_path(interner))
}

/// Identifiers held by an interner with no duplicates in it are equal
/// exactly when their paths are.
proof fn lemma_same_path_same_id(interner: Interner, a: FileId, b: FileId)
    requires
        interner.wf(),
        a.held_by(interner),
        b.held_by(interner),
    ensures
        (a == b) <==> (a.spec_path(interner) == b.spec_path(interner)),
{
    if a.spec_path(interner) == b.spec_path(interner) {
        crate::interner::lemma_one_symbol_per_string(interner, a.spec_symbol(), b.spec_symbol());
    }
}

// ---------------------------------------------------------------------------
// Diagnostics
// ---------------------------------------------------------------------------

/// The first position of `p` in `s` from `k` on (`s.len()` when absent).
pub open spec fn first_position(s: Seq<Seq<char>>, p: Seq<char>, k: int) -> int
    decreases s.len() - k,
{
    if !(0 <= k < s.len()) {
        s.len() as int
    } else if s[k] == p {
        k
    } else {
        first_position(s, p, k + 1)
    }
}

/// The import chain of a cycle: the files from the first occurrence of `p`
/// on the resolution stack to its top, then `p` again.
pub open spec fn cycle_chain(stack: Seq<Seq<char>>, p: Seq<char>) -> Seq<Seq<char>> {
    stack.subrange(first_position(stack, p, 0), stack.len() as int).push(p)
}

/// The help text of a cycle: `import chain: a → b → a`.
pub open spec fn cycle_help(stack: Seq<Seq<char>>, p: Seq<char>) -> Seq<char> {
    "import chain: "@ + join_arrows(cycle_chain(stack, p))
}

/// Whether `d` is an error with the given code, message and help, and a
/// primary label with the given message on `span` exactly when a span is
/// given.
pub open spec fn reports_error(d: Diagnostic, code: ErrorCode, message: Seq<char>, help: Option<Seq<char>>, span: Option<Span>, label: Seq<char>) -> bool {
    &&& d.spec_severity() == Severity::Error
    &&& d.spec_code() == Some(code)
    &&& d.spec_message() == message
    &&& d.spec_help() == help
    &&& match span {
        Some(s) => {
            &&& d.spec_labels().len() == 1
            &&& d.spec_labels()[0].spec_span() == s
            &&& d.spec_labels()[0].spec_message() == label
            &&& d.spec_labels()[0].spec_primary()
        },
        None => d.spec_labels().len() == 0,
    }
}

/// Adds a primary label when a span is given.
fn with_optional_label(d: Diagnostic, span: Option<Span>, label: &str) -> (r: Diagnostic)
    requires
        d.spec_labels().len() == 0,
    ensures
        r.spec_severity() == d.spec_severity(),
        r.spec_code() == d.spec_code(),
        r.spec_message() == d.spec_message(),
        r.spec_help() == d.spec_help(),
        match span {
            Some(s) => {
                &&& r.spec_labels().len() == 1
                &&& r.spec_labels()[0].spec_span() == s
                &&& r.spec_labels()[0].spec_message() == label@
                &&& r.spec_labels()[0].spec_primary()
            },
            None => r.spec_labels().len() == 0,
        },
{
    match span {
        Some(s) => d.with_label(s, label),
        None => d,
    }
}

/// Rejects an empty import path (E402), which would otherwise resolve to
/// the importing file's directory.
pub fn validate_import_path(import_path: &str, span: Span) -> (r: Result<(), Diagnostic>)
    ensures
        import_path@.len() == 0 <==> r is Err,
        r matches Err(d) ==> reports_error(d, ErrorCode::E402, "import path is empty"@, None, Some(span), "empty path"@),
{
    if import_path.is_empty() {
        return Err(Diagnostic::error("import path is empty")
            .with_code(ErrorCode::E402)
            .with_label(span, "empty path"));
    }
    Ok(())
}

/// The diagnostic for a namespace that cannot be derived (E403).
pub fn invalid_namespace_diagnostic(source_error: &SourceError, span: Span) -> (r: Diagnostic)
    ensures
        reports_error(r, ErrorCode::E403, "cannot derive namespace: "@ + source_error.spec_message(), None,
            Some(span), "imported here"@),
{
    let message = concat("cannot derive namespace: ", source_error.message());
    Diagnostic::error(message.as_str()).with_code(ErrorCode::E403).with_label(span, "imported here")
}

/// The diagnostic for a file that cannot be found (E400), labelled at the
/// import that named it, if any.
pub fn file_not_found_diagnostic(source_error: &SourceError, span: Option<Span>) -> (r: Diagnostic)
    ensures
        reports_error(r, ErrorCode::E400, "cannot find file: "@ + source_error.spec_path(), None, span,
            "imported here"@),
{
    let message = concat("cannot find file: ", source_error.path());
    let d = Diagnostic::error(message.as_str()).with_code(ErrorCode::E400);
    with_optional_label(d, span, "imported here")
}

/// The first position of `id` on `stack` from `k` on.
fn position_on_stack(interner: &Interner, stack: &Vec<FileId>, id: FileId) -> (r: usize)
    requires
        interner.wf(),
        id.held_by(*interner),
        forall|i: int| 0 <= i < stack@.len() ==> (#[trigger] stack@[i]).held_by(*interner),
    ensures
        r == first_position(paths_of(stack@, *interner), id.spec_path(*interner), 0),
{
    let ghost paths = paths_of(stack@, *interner);
    let mut k: usize = 0;
    while k < stack.len()
        invariant
            k <= stack@.len(),
            paths == paths_of(stack@, *interner),
            interner.wf(),
            id.held_by(*interner),
            forall|i: int| 0 <= i < stack@.len() ==> (#[trigger] stack@[i]).held_by(*interner),
            first_position(paths, id.spec_path(*interner), 0) == first_position(paths, id.spec_path(*interner), k as int),
        decreases stack@.len() - k,
    {
        proof {
            lemma_same_path_same_id(*interner, stack@[k as int], id);
        }
        if stack[k] == id {
            return k;
        }
        k = k + 1;
    }
    k
}

/// The circular-dependency diagnostic (E401) for importing `id` again while
/// it is on the resolution stack: the import chain from its first
/// occurrence, in the help text, and a label at the import, if any.
pub fn cycle_error(interner: &Interner, stack: &Vec<FileId>, id: FileId, import_span: Option<Span>) -> (r: Diagnostic)
    requires
        interner.wf(),
        id.held_by(*interner),
        forall|i: int| 0 <= i < stack@.len() ==> (#[trigger] stack@[i]).held_by(*interner),
        paths_of(stack@, *interner).contains(id.spec_path(*interner)),
    ensures
        reports_error(r, ErrorCode::E401, "circular dependency detected"@,
            Some(cycle_help(paths_of(stack@, *interner), id.spec_path(*interner))), import_span, "cyclic import"@),
{
    let ghost paths = paths_of(stack@, *interner);
    let ghost p = id.spec_path(*interner);
    let start = position_on_stack(interner, stack, id);
    let n = stack.len();
    proof {
        let w = choose|i: int| 0 <= i < paths.len() && paths[i] == p;
        lemma_first_position_bound(paths, p, 0, w);
        assert(paths.len() == stack@.len());
        assert(start < stack@.len());
    }
    let ghost chain = cycle_chain(paths, p);
    let mut joined = String::from_str(stack[start].as_str(interner));
    let mut k = start + 1;
    proof {
        assert(chain.subrange(0, 1) =~= seq![paths[start as int]]);
        assert(joined@ == join_arrows(chain.subrange(0, 1)));
    }
    while k < n
        invariant
            n == stack@.len(),
            start < k <= stack@.len(),
            paths == paths_of(stack@, *interner),
            chain == paths.subrange(start as int, stack@.len() as int).push(p),
            interner.wf(),
            forall|i: int| 0 <= i < stack@.len() ==> (#[trigger] stack@[i]).held_by(*interner),
            joined@ == join_arrows(chain.subrange(0, k - start)),
        decreases stack@.len() - k,
    {
        let next = stack[k].as_str(interner);
        joined = concat3(joined.as_str(), " → ", next);
        proof {
            let prefix = chain.subrange(0, k + 1 - start);
            assert(prefix.drop_last() =~= chain.subrange(0, k - start));
            assert(prefix.last() == paths[k as int]);
        }
        k = k + 1;
    }
    joined = concat3(joined.as_str(), " → ", id.as_str(interner));
    proof {
        assert(chain.drop_last() =~= chain.subrange(0, k - start));
        assert(chain.subrange(0, chain.len() as int) =~= chain);
    }
    let help = concat("import chain: ", joined.as_str());
    let d = Diagnostic::error("circular dependency detected")
        .with_code(ErrorCode::E401)
        .with_help(help.as_str());
    with_optional_label(d, import_span, "cyclic import")
}

/// `first_position` from `k` finds any occurrence at or after `k`.
proof fn lemma_first_position_bound(s: Seq<Seq<char>>, p: Seq<char>, k: int, w: int)
    requires
        0 <= k <= w < s.len(),
        s[w] == p,
    ensures
        k <= first_position(s, p, k) <= w,
        s[first_position(s, p, k)] == p,
    decreases w - k,
{
    if s[k] != p {
        lemma_first_position_bound(s, p, k + 1, w);
    }
}


// ---------------------------------------------------------------------------
// The resolution state
// ---------------------------------------------------------------------------

/// The tree cached for path `p` among resolved entries, the latest first.
pub open spec fn cached_in(entries: Seq<(Seq<char>, FileAstView)>, p: Seq<char>) -> Option<FileAstView>
    decreases entries.len(),
{
    if entries.len() == 0 {
        None
    } else if entries.last().0 == p {
        Some(entries.last().1)
    } else {
        cached_in(entries.drop_last(), p)
    }
}

/// The paths of resolved entries.
pub open spec fn entry_paths(entries: Seq<(Seq<char>, FileAstView)>) -> Seq<Seq<char>> {
    entries.map_values(|e: (Seq<char>, FileAstView)| e.0)
}

/// With no path twice among the entries, the tree cached for a path is
/// that of its one entry, and there is none for a path without an entry.
proof fn lemma_cached_in(entries: Seq<(Seq<char>, FileAstView)>, p: Seq<char>)
    requires
        entry_paths(entries).no_duplicates(),
    ensures
        entry_paths(entries).contains(p) <==> cached_in(entries, p) is Some,
        forall|i: int| 0 <= i < entries.len() && #[trigger] entries[i].0 == p ==> cached_in(entries, p) == Some(entries[i].1),
    decreases entries.len(),
{
    if entries.len() > 0 {
        let init = entries.drop_last();
        assert(entry_paths(init) =~= entry_paths(entries).drop_last());
        lemma_cached_in(init, p);
        if entries.last().0 == p {
            assert(entry_paths(entries)[entries.len() - 1] == p);
            assert forall|i: int| 0 <= i < entries.len() && #[trigger] entries[i].0 == p implies i == entries.len() - 1 by {
                if i != entries.len() - 1 {
                    assert(entry_paths(entries)[i] == entry_paths(entries)[entries.len() - 1]);
                }
            }
        } else {
            if entry_paths(entries).contains(p) {
                let k = choose|k: int| 0 <= k < entry_paths(entries).len() && entry_paths(entries)[k] == p;
                assert(k < entries.len() - 1);
                assert(entry_paths(init)[k] == p);
            }
            assert forall|i: int| 0 <= i < entries.len() && #[trigger] entries[i].0 == p implies cached_in(entries, p) == Some(entries[i].1) by {
                assert(init[i] == entries[i]);
            }
        }
    }
}

/// What resolving a file calls for.
#[derive(Debug)]
pub enum Step {
    /// The file was resolved before: a copy of its syntax tree.
    Cached(FileAst),
    /// The file is being resolved further up the import chain: the
    /// circular-dependency diagnostic.
    Cycle(Diagnostic),
    /// The file must be loaded, parsed and finished; it is now on top of the
    /// resolution stack.
    Load,
}

/// The files being resolved, outermost first, and the files resolved so
/// far with their syntax trees.
pub struct ResolutionState {
    files: Interner,
    stack: Vec<FileId>,
    resolved: Vec<(FileId, FileAst)>,
}

impl ResolutionState {
    /// The paths being resolved, outermost first.
    pub closed spec fn spec_stack(&self) -> Seq<Seq<char>> {
        paths_of(self.stack@, self.files)
    }

    /// The resolved files with their syntax trees, in the order they were
    /// finished.
    pub closed spec fn spec_resolved(&self) -> Seq<(Seq<char>, FileAstView)> {
        self.resolved@.map_values(|e: (FileId, FileAst)| (e.0.spec_path(self.files), e.1@))
    }

    /// The number of distinct paths met so far.
    pub closed spec fn spec_known(&self) -> Seq<Seq<char>> {
        self.files.strings()
    }

    /// The tree cached for a path.
    pub open spec fn cached(&self, p: Seq<char>) -> Option<FileAstView> {
        cached_in(self.spec_resolved(), p)
    }

    /// Whether a path can be taken in: it was met before, or there is room
    /// for a new file identifier.
    pub open spec fn has_room_for(&self, p: Seq<char>) -> bool {
        self.spec_known().contains(p) || self.spec_known().len() < u32::MAX
    }

    /// The identifiers are held by the interner, no path is on the stack
    /// twice or resolved twice, and no resolved path is still on the stack.
    pub closed spec fn wf(&self) -> bool {
        &&& self.files.wf()
        &&& forall|i: int| 0 <= i < self.stack@.len() ==> (#[trigger] self.stack@[i]).held_by(self.files)
        &&& forall|i: int| 0 <= i < self.resolved@.len() ==> (#[trigger] self.resolved@[i]).0.held_by(self.files)
        &&& self.spec_stack().no_duplicates()
        &&& entry_paths(self.spec_resolved()).no_duplicates()
        &&& forall|p: Seq<char>| self.spec_stack().contains(p) ==> !(#[trigger] entry_paths(self.spec_resolved()).contains(p))
        &&& forall|p: Seq<char>| #[trigger] self.spec_known().contains(p)
            ==> self.spec_stack().contains(p) || entry_paths(self.spec_resolved()).contains(p)
    }

    /// A state with nothing being resolved and nothing resolved.
    pub fn new() -> (r: ResolutionState)
        ensures
            r.wf(),
            r.spec_stack().len() == 0,
            r.spec_resolved().len() == 0,
            r.spec_known().len() == 0,
    {
        let r = ResolutionState { files: Interner::new(), stack: Vec::new(), resolved: Vec::new() };
        proof {
            assert(r.spec_stack() =~= Seq::<Seq<char>>::empty());
            assert(r.spec_resolved() =~= Seq::<(Seq<char>, FileAstView)>::empty());
            assert(entry_paths(r.spec_resolved()) =~= Seq::<Seq<char>>::empty());
        }
        r
    }

    /// Whether `path` can be taken in by [`ResolutionState::begin`].
    pub fn can_begin(&self, path: &str) -> (r: bool)
        requires
            self.wf(),
        ensures
            r == self.has_room_for(path@),
    {
        self.files.get(path).is_some() || self.files.len() < 4294967295usize
    }
}


/// `first_position` from the start is within the sequence exactly when the
/// sequence holds the path.
proof fn lemma_first_position_contains(s: Seq<Seq<char>>, p: Seq<char>)
    ensures
        first_position(s, p, 0) < s.len() <==> s.contains(p),
        first_position(s, p, 0) < s.len() ==> s[first_position(s, p, 0)] == p,
{
    if s.contains(p) {
        let w = choose|i: int| 0 <= i < s.len() && s[i] == p;
        lemma_first_position_bound(s, p, 0, w);
    } else {
        lemma_first_position_absent(s, p, 0);
    }
}

/// Without the path, `first_position` runs to the end.
proof fn lemma_first_position_absent(s: Seq<Seq<char>>, p: Seq<char>, k: int)
    requires
        0 <= k,
        !s.contains(p),
    ensures
        first_position(s, p, k) == s.len(),
    decreases s.len() - k,
{
    if k < s.len() {
        assert(s[k] != p);
        lemma_first_position_absent(s, p, k + 1);
    }
}

/// Interning more strings keeps the paths of the identifiers already held.
proof fn lemma_path_kept(before: Interner, after: Interner, id: FileId)
    requires
        id.held_by(before),
        before.strings().len() <= after.strings().len(),
        forall|k: int| 0 <= k < before.strings().len() ==> after.strings()[k] == before.strings()[k],
    ensures
        id.held_by(after),
        id.spec_path(after) == id.spec_path(before),
{
}

/// The first resolved entry whose identifier is `id`, or none when no
/// resolved entry has its path.
fn resolved_position(files: &Interner, resolved: &Vec<(FileId, FileAst)>, id: FileId) -> (r: Option<usize>)
    requires
        files.wf(),
        id.held_by(*files),
        forall|i: int| 0 <= i < resolved@.len() ==> (#[trigger] resolved@[i]).0.held_by(*files),
    ensures
        match r {
            Some(i) => i < resolved@.len() && resolved@[i as int].0 == id,
            None => forall|i: int| 0 <= i < resolved@.len()
                ==> (#[trigger] resolved@[i]).0.spec_path(*files) != id.spec_path(*files),
        },
{
    let mut i: usize = 0;
    while i < resolved.len()
        invariant
            i <= resolved@.len(),
            files.wf(),
            id.held_by(*files),
            forall|j: int| 0 <= j < resolved@.len() ==> (#[trigger] resolved@[j]).0.held_by(*files),
            forall|j: int| 0 <= j < i ==> (#[trigger] resolved@[j]).0.spec_path(*files) != id.spec_path(*files),
        decreases resolved@.len() - i,
    {
        proof {
            lemma_same_path_same_id(*files, resolved@[i as int].0, id);
        }
        if resolved[i].0 == id {
            return Some(i);
        }
        i = i + 1;
    }
    None
}

impl ResolutionState {
    /// Takes in a file to resolve. A file resolved before is handed back from
    /// the cache; a file still being resolved further up the import chain is
    /// a circular dependency (E401, with the chain from its first occurrence
    /// and a label at the import, if any); any other file is pushed on the
    /// resolution stack, to be loaded and then finished.
    pub fn begin(&mut self, path: &str, import_span: Option<Span>) -> (r: Step)
        requires
            old(self).wf(),
            old(self).has_room_for(path@),
        ensures
            final(self).wf(),
            final(self).spec_resolved() == old(self).spec_resolved(),
            old(self).cached(path@) is Some <==> r is Cached,
            r matches Step::Cached(f) ==> old(self).cached(path@) == Some(f@)
                && final(self).spec_stack() == old(self).spec_stack(),
            (old(self).cached(path@) is None && old(self).spec_stack().contains(path@)) <==> r is Cycle,
            r matches Step::Cycle(d) ==> final(self).spec_stack() == old(self).spec_stack()
                && reports_error(d, ErrorCode::E401, "circular dependency detected"@,
                    Some(cycle_help(old(self).spec_stack(), path@)), import_span, "cyclic import"@),
            r is Load ==> final(self).spec_stack() == old(self).spec_stack().push(path@),
            r is Load ==> final(self).spec_known().len() == old(self).spec_known().len() + 1,
            r is Load ==> final(self).spec_known() == old(self).spec_known().push(path@),
            !(r is Load) ==> final(self).spec_known() == old(self).spec_known(),
    {
        let ghost before = *self;
        let id = FileId::new(&mut self.files, path);
        proof {
            assert forall|i: int| 0 <= i < self.stack@.len() implies
                (#[trigger] self.stack@[i]).held_by(self.files)
                && self.stack@[i].spec_path(self.files) == self.stack@[i].spec_path(before.files) by {
                lemma_path_kept(before.files, self.files, self.stack@[i]);
            }
            assert forall|i: int| 0 <= i < self.resolved@.len() implies
                (#[trigger] self.resolved@[i]).0.held_by(self.files)
                && self.resolved@[i].0.spec_path(self.files) == self.resolved@[i].0.spec_path(before.files) by {
                lemma_path_kept(before.files, self.files, self.resolved@[i].0);
            }
            assert(self.spec_stack() =~= before.spec_stack());
            assert(self.spec_resolved() =~= before.spec_resolved());
            lemma_cached_in(self.spec_resolved(), path@);
        }
        match resolved_position(&self.files, &self.resolved, id) {
            Some(i) => {
                let f = clone_file_ast(&self.resolved[i].1);
                proof {
                    assert(self.spec_resolved()[i as int].0 == path@);
                }
                return Step::Cached(f);
            },
            None => {},
        }
        proof {
            assert forall|k: int| 0 <= k < self.spec_resolved().len() implies
                #[trigger] entry_paths(self.spec_resolved())[k] != path@ by {
                assert(self.spec_resolved()[k].0 == self.resolved@[k].0.spec_path(self.files));
            }
            lemma_first_position_contains(self.spec_stack(), path@);
        }
        let k = position_on_stack(&self.files, &self.stack, id);
        if k < self.stack.len() {
            let d = cycle_error(&self.files, &self.stack, id, import_span);
            return Step::Cycle(d);
        }
        self.stack.push(id);
        proof {
            assert(self.spec_stack() =~= before.spec_stack().push(path@));
            assert(self.spec_resolved() =~= before.spec_resolved());
            assert(self.spec_stack()[self.spec_stack().len() - 1] == path@);
            assert forall|p: Seq<char>| #[trigger] self.spec_known().contains(p)
                implies self.spec_stack().contains(p) || entry_paths(self.spec_resolved()).contains(p) by {
                if p != path@ {
                    let j = choose|j: int| 0 <= j < self.spec_known().len() && self.spec_known()[j] == p;
                    if j < before.spec_known().len() {
                        assert(before.spec_known()[j] == p);
                        assert(before.spec_known().contains(p));
                        if before.spec_stack().contains(p) {
                            let m = choose|m: int| 0 <= m < before.spec_stack().len() && before.spec_stack()[m] == p;
                            assert(self.spec_stack()[m] == p);
                        }
                    }
                }
            }
        }
        Step::Load
    }

    /// Records the file on top of the resolution stack as resolved, with its
    /// syntax tree, and takes it off the stack.
    pub fn finish(&mut self, file_ast: FileAst)
        requires
            old(self).wf(),
            old(self).spec_stack().len() > 0,
        ensures
            final(self).wf(),
            final(self).spec_stack() == old(self).spec_stack().drop_last(),
            final(self).spec_resolved() == old(self).spec_resolved().push((old(self).spec_stack().last(), file_ast@)),
            final(self).spec_known() == old(self).spec_known(),
    {
        let ghost before = *self;
        let ghost fv = file_ast@;
        let id = self.stack.pop().unwrap();
        self.resolved.push((id, file_ast));
        proof {
            let top = before.spec_stack().last();
            assert(self.spec_stack() =~= before.spec_stack().drop_last());
            assert(self.spec_resolved() =~= before.spec_resolved().push((top, fv)));
            assert(entry_paths(self.spec_resolved()) =~= entry_paths(before.spec_resolved()).push(top));
            assert(before.spec_stack().contains(top));
            assert forall|p: Seq<char>| self.spec_stack().contains(p)
                implies !(#[trigger] entry_paths(self.spec_resolved()).contains(p)) by {
                let j = choose|j: int| 0 <= j < self.spec_stack().len() && self.spec_stack()[j] == p;
                assert(before.spec_stack()[j] == p);
                assert(before.spec_stack().contains(p));
                if p == top {
                    assert(before.spec_stack()[before.spec_stack().len() - 1] == p);
                    assert(j != before.spec_stack().len() - 1);
                    assert(false);
                }
                if entry_paths(self.spec_resolved()).contains(p) {
                    let m = choose|m: int| 0 <= m < entry_paths(self.spec_resolved()).len()
                        && entry_paths(self.spec_resolved())[m] == p;
                    if m < entry_paths(before.spec_resolved()).len() {
                        assert(entry_paths(before.spec_resolved())[m] == p);
                        assert(entry_paths(before.spec_resolved()).contains(p));
                    }
                }
            }
            assert(self.spec_known() == before.spec_known());
            assert forall|p: Seq<char>| #[trigger] self.spec_known().contains(p)
                implies self.spec_stack().contains(p) || entry_paths(self.spec_resolved()).contains(p) by {
                assert(before.spec_known().contains(p));
                if before.spec_stack().contains(p) {
                    let m = choose|m: int| 0 <= m < before.spec_stack().len() && before.spec_stack()[m] == p;
                    if m == before.spec_stack().len() - 1 {
                        assert(entry_paths(self.spec_resolved())[entry_paths(self.spec_resolved()).len() - 1] == p);
                    } else {
                        assert(self.spec_stack()[m] == p);
                    }
                } else {
                    let m = choose|m: int| 0 <= m < entry_paths(before.spec_resolved()).len()
                        && entry_paths(before.spec_resolved())[m] == p;
                    assert(entry_paths(self.spec_resolved())[m] == p);
                }
            }
            assert forall|i: int, j: int| 0 <= i < entry_paths(self.spec_resolved()).len()
                && 0 <= j < entry_paths(self.spec_resolved()).len() && i != j
                implies entry_paths(self.spec_resolved())[i] != entry_paths(self.spec_resolved())[j] by {
                let n = entry_paths(before.spec_resolved()).len();
                if i == n {
                    assert(entry_paths(before.spec_resolved()).contains(entry_paths(before.spec_resolved())[j]));
                } else if j == n {
                    assert(entry_paths(before.spec_resolved()).contains(entry_paths(before.spec_resolved())[i]));
                }
            }
        }
    }
}

/// A finished file is cached and no longer being resolved: beginning it
/// again hands back the syntax tree it was finished with.
pub proof fn lemma_finished_file_is_cached(before: ResolutionState, after: ResolutionState, file: FileAstView)
    requires
        before.wf(),
        after.wf(),
        before.spec_stack().len() > 0,
        after.spec_stack() == before.spec_stack().drop_last(),
        after.spec_resolved() == before.spec_resolved().push((before.spec_stack().last(), file)),
    ensures
        after.cached(before.spec_stack().last()) == Some(file),
{
}

// ---------------------------------------------------------------------------
// The result
// ---------------------------------------------------------------------------

/// A root file resolved together with its imports, and the source map of
/// every file loaded.
pub struct ResolvedFile {
    source_map: SourceMap,
    file_ast: FileAst,
}

impl ResolvedFile {
    /// The root file's syntax tree.
    pub closed spec fn spec_file_ast(&self) -> FileAstView {
        self.file_ast@
    }

    /// The source map of every file loaded.
    pub closed spec fn spec_source_map(&self) -> SourceMap {
        self.source_map
    }

    /// Puts a resolved root file and its source map together.
    pub fn new(source_map: SourceMap, file_ast: FileAst) -> (r: ResolvedFile)
        ensures
            r.spec_file_ast() == file_ast@,
            r.spec_source_map() == source_map,
    {
        ResolvedFile { source_map, file_ast }
    }

    /// Takes the resolved file apart into its syntax tree and source map.
    pub fn into_parts(self) -> (r: (FileAst, SourceMap))
        ensures
            r.0@ == self.spec_file_ast(),
            r.1 == self.spec_source_map(),
    {
        (self.file_ast, self.source_map)
    }
}


// ---------------------------------------------------------------------------
// The resolver
// ---------------------------------------------------------------------------

/// Whether `parse` may be called on any source text and base offset.
pub open spec fn parses_any_source<G: Fn(&str, usize) -> Result<FileAst, Vec<Diagnostic>>>(parse: G) -> bool {
    forall|text: &str, base: usize| parse.requires((text, base))
}

/// Whether the source map holds each file once: the names of its files are
/// distinct paths, each met by the resolution.
pub open spec fn map_tracks(state: ResolutionState, map: SourceMap) -> bool {
    &&& forall|i: int| 0 <= i < map.spec_files().len() ==> state.spec_known().contains(#[trigger] map.spec_files()[i].spec_name())
    &&& files_distinct(map)
}

/// Whether no two files of the source map have the same name.
pub open spec fn files_distinct(map: SourceMap) -> bool {
    forall|i: int, j: int| 0 <= i < j < map.spec_files().len()
        ==> #[trigger] map.spec_files()[i].spec_name() != #[trigger] map.spec_files()[j].spec_name()
}

/// Known paths only grow, so a map that tracked the earlier state tracks
/// the later one.
proof fn lemma_tracks_grow(a: ResolutionState, b: ResolutionState, map: SourceMap)
    requires
        a.spec_known().len() <= b.spec_known().len(),
        b.spec_known().take(a.spec_known().len() as int) == a.spec_known(),
    ensures
        map_tracks(a, map) ==> map_tracks(b, map),
{
    if map_tracks(a, map) {
        assert forall|i: int| 0 <= i < map.spec_files().len() implies b.spec_known().contains(#[trigger] map.spec_files()[i].spec_name()) by {
            let p = map.spec_files()[i].spec_name();
            let j = choose|j: int| 0 <= j < a.spec_known().len() && a.spec_known()[j] == p;
            assert(b.spec_known().take(a.spec_known().len() as int)[j] == p);
        }
    }
}

/// Registering a path met for the first time keeps the map tracking.
proof fn lemma_tracks_after_load(sa: ResolutionState, sb: ResolutionState, ma: SourceMap, mb: SourceMap, path: Seq<char>)
    requires
        sb.spec_known() == sa.spec_known().push(path),
        !sa.spec_known().contains(path),
        mb.spec_files().len() == ma.spec_files().len() + 1,
        mb.spec_files().drop_last() == ma.spec_files(),
        mb.spec_files().last().spec_name() == path,
        map_tracks(sa, ma),
    ensures
        map_tracks(sb, mb),
{
    let n = ma.spec_files().len();
    assert forall|i: int| 0 <= i < mb.spec_files().len() implies sb.spec_known().contains(#[trigger] mb.spec_files()[i].spec_name()) by {
        if i < n {
            assert(mb.spec_files()[i] == ma.spec_files()[i]);
            let p = ma.spec_files()[i].spec_name();
            assert(sa.spec_known().contains(p));
            let j = choose|j: int| 0 <= j < sa.spec_known().len() && sa.spec_known()[j] == p;
            assert(sb.spec_known()[j] == p);
        } else {
            assert(sb.spec_known()[sa.spec_known().len() as int] == path);
        }
    }
    assert forall|i: int, j: int| 0 <= i < j < mb.spec_files().len()
        implies #[trigger] mb.spec_files()[i].spec_name() != #[trigger] mb.spec_files()[j].spec_name() by {
        assert(mb.spec_files()[i] == ma.spec_files()[i]);
        if j < n {
            assert(mb.spec_files()[j] == ma.spec_files()[j]);
        } else {
            assert(sa.spec_known().contains(ma.spec_files()[i].spec_name()));
        }
    }
}

/// Two resolutions one after the other keep what each keeps.
proof fn lemma_kept_trans(a: ResolutionState, b: ResolutionState, c: ResolutionState,
    ma: SourceMap, mb: SourceMap, mc: SourceMap, ok1: bool, ok2: bool)
    requires
        resolution_kept(a, b, ma, mb, ok1),
        resolution_kept(b, c, mb, mc, ok2),
    ensures
        resolution_kept(a, c, ma, mc, ok1 && ok2),
{
    assert(c.spec_known().take(a.spec_known().len() as int) =~= a.spec_known()) by {
        assert forall|k: int| 0 <= k < a.spec_known().len() implies c.spec_known()[k] == a.spec_known()[k] by {
            assert(c.spec_known().take(b.spec_known().len() as int)[k] == b.spec_known()[k]);
            assert(b.spec_known().take(a.spec_known().len() as int)[k] == a.spec_known()[k]);
        }
    }
    assert(mc.spec_files().take(ma.spec_files().len() as int) =~= ma.spec_files()) by {
        assert forall|k: int| 0 <= k < ma.spec_files().len() implies mc.spec_files()[k] == ma.spec_files()[k] by {
            assert(mc.spec_files().take(mb.spec_files().len() as int)[k] == mb.spec_files()[k]);
            assert(mb.spec_files().take(ma.spec_files().len() as int)[k] == ma.spec_files()[k]);
        }
    }
}

/// A resolution that changed no path and no registered file keeps
/// everything.
proof fn lemma_kept_unchanged(a: ResolutionState, b: ResolutionState, m: SourceMap, ok: bool)
    requires
        b.wf(),
        m.wf(),
        b.spec_known() == a.spec_known(),
        ok ==> b.spec_stack() == a.spec_stack(),
    ensures
        resolution_kept(a, b, m, m, ok),
{
    assert(b.spec_known().take(a.spec_known().len() as int) =~= a.spec_known());
    assert(m.spec_files().take(m.spec_files().len() as int) =~= m.spec_files());
    lemma_tracks_grow(a, b, m);
}

/// Whether `filled` is the tree `parsed` with one import appended for each
/// of its import declarations, in order: the header, declarations, type
/// definitions and elements are those parsed, and an appended import has
/// no namespace exactly when its declaration is a glob import.
pub open spec fn imports_filled(parsed: FileAstView, filled: FileAstView) -> bool {
    &&& filled.header == parsed.header
    &&& filled.import_decls == parsed.import_decls
    &&& filled.type_definitions == parsed.type_definitions
    &&& filled.elements == parsed.elements
    &&& filled.imports.len() == parsed.imports.len() + parsed.import_decls.len()
    &&& filled.imports.take(parsed.imports.len() as int) == parsed.imports
    &&& forall|k: int| 0 <= k < parsed.import_decls.len() ==>
        ((#[trigger] parsed.import_decls[k]).value.form == ImportForm::Glob
            <==> filled.imports[parsed.imports.len() + k].namespace is None)
}

/// Whether `tree` is what `parse` gave for the registered `file` (its text,
/// at its start offset), with the imports of its declarations filled in.
pub open spec fn parsed_and_filled<G: Fn(&str, usize) -> Result<FileAst, Vec<Diagnostic>>>(parse: G, file: SourceFile, tree: FileAstView) -> bool {
    exists|t: &str, p: FileAst| t@ == file.spec_source()
        && call_ensures(parse, (t, file.spec_start() as usize), Ok::<FileAst, Vec<Diagnostic>>(p))
        && imports_filled(p@, tree)
}

/// Whether `tree` is what `parse` gave for one of the registered `files`
/// (its text, at its start offset), with the imports of its declarations
/// filled in, and the tree of each such import in turn one of these.
pub open spec fn tree_from<G: Fn(&str, usize) -> Result<FileAst, Vec<Diagnostic>>>(parse: G, files: Seq<SourceFile>, tree: FileAstView) -> bool
    decreases tree,
{
    exists|i: int, t: &str, p: FileAst| #![trigger files[i], call_ensures(parse, (t, files[i].spec_start() as usize), Ok::<FileAst, Vec<Diagnostic>>(p))]
        0 <= i < files.len() && t@ == files[i].spec_source()
        && call_ensures(parse, (t, files[i].spec_start() as usize), Ok::<FileAst, Vec<Diagnostic>>(p))
        && imports_filled(p@, tree)
        && forall|k: int| 0 <= k < p@.import_decls.len() ==>
            tree_from(parse, files, #[trigger] tree.imports[p@.imports.len() + k].file_ast)
}

/// Every tree in the cache is one given by `parse` for a registered file,
/// with its imports filled in.
pub open spec fn cache_from<G: Fn(&str, usize) -> Result<FileAst, Vec<Diagnostic>>>(parse: G, state: ResolutionState, files: Seq<SourceFile>) -> bool {
    forall|j: int| 0 <= j < state.spec_resolved().len() ==> tree_from(parse, files, #[trigger] state.spec_resolved()[j].1)
}

/// Registering more files keeps every tree that came from the earlier ones.
proof fn lemma_tree_from_grow<G: Fn(&str, usize) -> Result<FileAst, Vec<Diagnostic>>>(parse: G, f1: Seq<SourceFile>, f2: Seq<SourceFile>, tree: FileAstView)
    requires
        f1.len() <= f2.len(),
        f2.take(f1.len() as int) == f1,
        tree_from(parse, f1, tree),
    ensures
        tree_from(parse, f2, tree),
    decreases tree,
{
    let (i, t, p) = choose|i: int, t: &str, p: FileAst| #![trigger f1[i], call_ensures(parse, (t, f1[i].spec_start() as usize), Ok::<FileAst, Vec<Diagnostic>>(p))]
        0 <= i < f1.len() && t@ == f1[i].spec_source()
        && call_ensures(parse, (t, f1[i].spec_start() as usize), Ok::<FileAst, Vec<Diagnostic>>(p))
        && imports_filled(p@, tree)
        && forall|k: int| 0 <= k < p@.import_decls.len() ==>
            tree_from(parse, f1, #[trigger] tree.imports[p@.imports.len() + k].file_ast);
    assert(f2[i] == f2.take(f1.len() as int)[i]);
    assert forall|k: int| 0 <= k < p@.import_decls.len() implies
        tree_from(parse, f2, #[trigger] tree.imports[p@.imports.len() + k].file_ast) by {
        let j = p@.imports.len() + k;
        assert(tree_from(parse, f1, tree.imports[j].file_ast));
        assert(decreases_to!(tree => tree.imports[j].file_ast)) by {
            assert(decreases_to!(tree => tree.imports));
            assert(decreases_to!(tree.imports => tree.imports[j]));
            assert(decreases_to!(tree.imports[j] => tree.imports[j].file_ast));
        }
        lemma_tree_from_grow(parse, f1, f2, tree.imports[j].file_ast);
    }
}

/// Whether `map` and `tree` are what resolving the root file `root_path`
/// gives: the map holds each file once and the root first, and the tree is
/// what `parse` gave for the root's text, with its imports filled in, each
/// imported tree in turn what `parse` gave for a registered file with its
/// imports filled in.
pub open spec fn resolved_root<G: Fn(&str, usize) -> Result<FileAst, Vec<Diagnostic>>>(parse: G, root_path: Seq<char>, map: SourceMap, tree: FileAstView) -> bool {
    &&& map.spec_files().len() >= 1
    &&& map.spec_files()[0].spec_name() == root_path
    &&& map.wf()
    &&& files_distinct(map)
    &&& parsed_and_filled(parse, map.spec_files()[0], tree)
    &&& tree_from(parse, map.spec_files(), tree)
}

/// Why the resolution of a file failed, and where.
pub enum ResolveFailure {
    /// No room was left for another file identifier.
    TooManyFiles,
    /// The import of `path` closes a cycle; `chain` is the resolution stack
    /// when it was met.
    Cycle { chain: Seq<Seq<char>>, path: Seq<char>, span: Option<Span> },
    /// The provider could not read `path`.
    Unreadable { path: Seq<char>, error: SourceError, span: Option<Span> },
    /// The text of `path`, of `size` bytes, did not fit the source map.
    TooLarge { path: Seq<char>, size: nat, span: Option<Span> },
    /// `parse` failed on the registered text `text` at offset `base`.
    Unparsable { text: Seq<char>, base: usize },
    /// An import declaration has an empty path.
    EmptyImportPath { span: Span },
    /// The provider could not resolve `import_path` from `parent`.
    Unresolvable { parent: Seq<char>, import_path: Seq<char>, error: SourceError, span: Span },
    /// The provider could not derive a namespace from `path`.
    NoNamespace { path: Seq<char>, error: SourceError, span: Span },
}

/// Whether the diagnostics `ds` report the failure `f`, given the
/// provider's and the parser's answers and the source map `map` as it was
/// left.
pub open spec fn failure_reported<P: SourceProvider, G: Fn(&str, usize) -> Result<FileAst, Vec<Diagnostic>>>(
    f: ResolveFailure, ds: Seq<Diagnostic>, provider: &P, parse: G, map: SourceMap,
) -> bool {
    match f {
        ResolveFailure::TooManyFiles => {
            &&& map.spec_files().len() >= u32::MAX
            &&& ds.len() == 1
            &&& ds[0].spec_fresh(Severity::Error, "too many files to resolve"@)
        },
        ResolveFailure::Cycle { chain, path, span } => {
            &&& chain.contains(path)
            &&& ds.len() == 1
            &&& reports_error(ds[0], ErrorCode::E401, "circular dependency detected"@,
                Some(cycle_help(chain, path)), span, "cyclic import"@)
        },
        ResolveFailure::Unreadable { path, error, span } => {
            &&& exists|p: &str| p@ == path
                && call_ensures(P::read_source, (provider, p), Err::<String, SourceError>(error))
            &&& ds.len() == 1
            &&& reports_error(ds[0], ErrorCode::E400, "cannot find file: "@ + error.spec_path(), None, span, "imported here"@)
        },
        ResolveFailure::TooLarge { path, size, span } => {
            &&& map.spec_next_offset() + size + 1 > usize::MAX
            &&& ds.len() == 1
            &&& ds[0].spec_severity() == Severity::Error
            &&& ds[0].spec_message() == "source text too large to register: "@ + path
        },
        ResolveFailure::Unparsable { text, base } => {
            &&& exists|t: &str, e: Vec<Diagnostic>| t@ == text && e@ == ds
                && call_ensures(parse, (t, base), Err::<FileAst, Vec<Diagnostic>>(e))
            &&& exists|i: int| 0 <= i < map.spec_files().len() && map.spec_files()[i].spec_source() == text
                && map.spec_files()[i].spec_start() == base
        },
        ResolveFailure::EmptyImportPath { span } => {
            &&& ds.len() == 1
            &&& reports_error(ds[0], ErrorCode::E402, "import path is empty"@, None, Some(span), "empty path"@)
        },
        ResolveFailure::Unresolvable { parent, import_path, error, span } => {
            &&& exists|a: &str, b: &str| a@ == parent && b@ == import_path
                && call_ensures(P::resolve_path, (provider, a, b), Err::<String, SourceError>(error))
            &&& ds.len() == 1
            &&& reports_error(ds[0], ErrorCode::E400, "cannot find file: "@ + error.spec_path(), None, Some(span), "imported here"@)
        },
        ResolveFailure::NoNamespace { path, error, span } => {
            &&& exists|p: &str| p@ == path
                && call_ensures(P::derive_namespace, (provider, p), Err::<Id, SourceError>(error))
            &&& ds.len() == 1
            &&& reports_error(ds[0], ErrorCode::E403, "cannot derive namespace: "@ + error.spec_message(), None,
                Some(span), "imported here"@)
        },
    }
}

/// A cycle met below a resolution stack has a chain that extends it.
pub open spec fn chain_extends(f: ResolveFailure, stack: Seq<Seq<char>>) -> bool {
    f matches ResolveFailure::Cycle { chain, .. } ==> chain.len() >= stack.len() && chain.take(stack.len() as int) == stack
}

/// A cycle whose chain goes past position `n` has `path` there.
pub open spec fn chain_passes(f: ResolveFailure, n: int, path: Seq<char>) -> bool {
    f matches ResolveFailure::Cycle { chain, .. } ==> (chain.len() > n ==> chain[n] == path)
}

/// Every path met by the resolution is the name of a registered file.
pub open spec fn registered(state: ResolutionState, map: SourceMap) -> bool {
    forall|p: Seq<char>| #[trigger] state.spec_known().contains(p)
        ==> exists|i: int| 0 <= i < map.spec_files().len() && map.spec_files()[i].spec_name() == p
}

/// What the resolution keeps between files: the map holds each file once,
/// every path met is registered, and the cache holds trees that `parse`
/// gave.
pub open spec fn ready<G: Fn(&str, usize) -> Result<FileAst, Vec<Diagnostic>>>(parse: G, state: ResolutionState, map: SourceMap) -> bool {
    &&& map_tracks(state, map)
    &&& registered(state, map)
    &&& cache_from(parse, state, map.spec_files())
}

/// Distinct paths that are all registered are no more than the files.
proof fn lemma_registered_count(state: ResolutionState, map: SourceMap)
    requires
        state.wf(),
        registered(state, map),
    ensures
        state.spec_known().len() <= map.spec_files().len(),
{
    let known = state.spec_known();
    let names = map.spec_files().map_values(|f: SourceFile| f.spec_name());
    known.unique_seq_to_set();
    names.lemma_cardinality_of_set();
    assert forall|p: Seq<char>| known.to_set().contains(p) implies names.to_set().contains(p) by {
        assert(known.contains(p));
        let i = choose|i: int| 0 <= i < map.spec_files().len() && map.spec_files()[i].spec_name() == p;
        assert(names[i] == p);
    }
    vstd::set_lib::lemma_len_subset(known.to_set(), names.to_set());
}

/// Whether `e` reports a failure met while resolving the root file
/// `root_path`: a cycle's chain starts at the root.
pub open spec fn resolution_failed<P: SourceProvider, G: Fn(&str, usize) -> Result<FileAst, Vec<Diagnostic>>>(
    provider: &P, parse: G, root_path: Seq<char>, e: ParseError,
) -> bool {
    exists|f: ResolveFailure|
        failure_reported(f, e.spec_diagnostics(), provider, parse, *e.spec_source_map())
        && chain_passes(f, 0, root_path)
}

/// Whether `parse` may fail with no diagnostic on some text.
pub open spec fn parse_may_fail_silently<G: Fn(&str, usize) -> Result<FileAst, Vec<Diagnostic>>>(parse: G) -> bool {
    exists|t: &str, b: usize, ds: Vec<Diagnostic>|
        ds@.len() == 0 && call_ensures(parse, (t, b), Err::<FileAst, Vec<Diagnostic>>(ds))
}

/// What the resolution of one file keeps: the states stay well formed, no
/// file identifier is forgotten, the source map only grows, and on success
/// the resolution stack is as it was.
pub open spec fn resolution_kept(before: ResolutionState, after: ResolutionState, map_before: SourceMap, map_after: SourceMap, ok: bool) -> bool {
    &&& after.wf()
    &&& map_after.wf()
    &&& before.spec_known().len() <= after.spec_known().len()
    &&& after.spec_known().take(before.spec_known().len() as int) == before.spec_known()
    &&& (map_tracks(before, map_before) ==> map_tracks(after, map_after))
    &&& map_before.spec_files().len() <= map_after.spec_files().len()
    &&& map_after.spec_files().take(map_before.spec_files().len() as int) == map_before.spec_files()
    &&& ok ==> after.spec_stack() == before.spec_stack()
}

/// Every path on the stack or resolved is a known path, and a path with a
/// cached tree is resolved.
proof fn lemma_tracked_paths_known(st: ResolutionState, p: Seq<char>)
    requires
        st.wf(),
    ensures
        st.spec_stack().contains(p) ==> st.spec_known().contains(p),
        st.cached(p) is Some ==> st.spec_known().contains(p),
{
    lemma_cached_in(st.spec_resolved(), p);
    if st.spec_stack().contains(p) {
        let j = choose|j: int| 0 <= j < st.spec_stack().len() && st.spec_stack()[j] == p;
        assert(st.stack@[j].held_by(st.files));
        assert(st.spec_known()[st.stack@[j].spec_symbol().spec_index() as int] == p);
    }
    if entry_paths(st.spec_resolved()).contains(p) {
        let j = choose|j: int| 0 <= j < entry_paths(st.spec_resolved()).len() && entry_paths(st.spec_resolved())[j] == p;
        assert(st.resolved@[j].0.held_by(st.files));
        assert(st.spec_known()[st.resolved@[j].0.spec_symbol().spec_index() as int] == p);
    }
}

/// The diagnostic for a file whose text would not fit in the source map's
/// byte offsets, labelled at the import that named it, if any.
fn file_too_large_diagnostic(path: &str, span: Option<Span>) -> (r: Diagnostic)
    ensures
        r.spec_severity() == Severity::Error,
        r.spec_message() == "source text too large to register: "@ + path@,
{
    let message = concat("source text too large to register: ", path);
    let d = Diagnostic::error(message.as_str());
    with_optional_label(d, span, "imported here")
}

/// Resolves the file at `path` and, recursively, its imports: a file
/// resolved before comes from the cache; a file still being resolved
/// further up the chain is a circular dependency (E401); any other file is
/// read through `provider` (E400 when it cannot be), registered in the
/// source map, parsed with `parse` (its diagnostics are returned when it
/// fails), has each import resolved in order, and is cached. When no room
/// is left for another file identifier or for the file's text in the source
/// map, it fails with a diagnostic that says so. A failure of an import is
/// handed back unchanged: the diagnostics always report one
/// [`ResolveFailure`], whose cycle chain extends the stack it started from.
#[verifier::rlimit(30)]
pub fn resolve_file<P: SourceProvider, G: Fn(&str, usize) -> Result<FileAst, Vec<Diagnostic>>>(
    state: &mut ResolutionState,
    source_map: &mut SourceMap,
    provider: &P,
    parse: &G,
    path: &str,
    import_span: Option<Span>,
) -> (r: Result<FileAst, Vec<Diagnostic>>)
    requires
        old(state).wf(),
        old(source_map).wf(),
        parses_any_source(*parse),
    ensures
        resolution_kept(*old(state), *final(state), *old(source_map), *final(source_map), r is Ok),
        old(state).cached(path@) matches Some(f) ==> (r matches Ok(a) && a@ == f
            && final(state).spec_resolved() == old(state).spec_resolved()),
        old(state).cached(path@) is None && old(state).spec_stack().contains(path@) ==> (r matches Err(ds)
            && ds@.len() == 1
            && reports_error(ds@[0], ErrorCode::E401, "circular dependency detected"@,
                Some(cycle_help(old(state).spec_stack(), path@)), import_span, "cyclic import"@)),
        r matches Ok(a) ==> final(state).cached(path@) == Some(a@),
        r matches Err(ds) ==> ds@.len() > 0 || parse_may_fail_silently(*parse),
        old(state).cached(path@) is None ==> (r matches Ok(a) ==> parsed_and_filled(*parse,
            final(source_map).spec_files()[old(source_map).spec_files().len() as int], a@)),
        cache_from(*parse, *old(state), old(source_map).spec_files()) ==> (r matches Ok(a) ==>
            cache_from(*parse, *final(state), final(source_map).spec_files())
            && tree_from(*parse, final(source_map).spec_files(), a@)),
        r is Ok && old(state).cached(path@) is None ==>
            final(source_map).spec_files().len() > old(source_map).spec_files().len()
            && final(source_map).spec_files()[old(source_map).spec_files().len() as int].spec_name() == path@,
        ready(*parse, *old(state), *old(source_map)) ==> (r matches Err(ds) ==> exists|f: ResolveFailure|
            failure_reported(f, ds@, provider, *parse, *final(source_map))
            && chain_extends(f, old(state).spec_stack())
            && chain_passes(f, old(state).spec_stack().len() as int, path@)),
        ready(*parse, *old(state), *old(source_map)) ==> (r is Ok ==> ready(*parse, *final(state), *final(source_map))),
    decreases u32::MAX - old(state).spec_known().len(), 0nat,
{
    if !state.can_begin(path) {
        proof {
            lemma_tracked_paths_known(*state, path@);
            lemma_kept_unchanged(*old(state), *state, *source_map, false);
        }
        let mut ds: Vec<Diagnostic> = Vec::new();
        ds.push(Diagnostic::error("too many files to resolve"));
        proof {
            if ready(*parse, *state, *source_map) {
                lemma_registered_count(*state, *source_map);
                assert(failure_reported(ResolveFailure::TooManyFiles, ds@, provider, *parse, *source_map)
                    && chain_extends(ResolveFailure::TooManyFiles, old(state).spec_stack())
                    && chain_passes(ResolveFailure::TooManyFiles, old(state).spec_stack().len() as int, path@));
            }
        }
        return Err(ds);
    }
    let ghost s0 = *state;
    let step = state.begin(path, import_span);
    match step {
        Step::Cached(f) => {
            proof {
                lemma_kept_unchanged(s0, *state, *source_map, true);
                lemma_cached_in(s0.spec_resolved(), path@);
                let j = choose|j: int| 0 <= j < entry_paths(s0.spec_resolved()).len()
                    && entry_paths(s0.spec_resolved())[j] == path@;
                assert(s0.spec_resolved()[j].0 == path@);
                assert(state.spec_resolved()[j] == s0.spec_resolved()[j]);
            }
            Ok(f)
        },
        Step::Cycle(d) => {
            proof {
                lemma_kept_unchanged(s0, *state, *source_map, false);
            }
            let mut ds: Vec<Diagnostic> = Vec::new();
            ds.push(d);
            proof {
                let f = ResolveFailure::Cycle { chain: s0.spec_stack(), path: path@, span: import_span };
                assert(s0.spec_stack().take(s0.spec_stack().len() as int) =~= s0.spec_stack());
                assert(failure_reported(f, ds@, provider, *parse, *source_map)
                    && chain_extends(f, old(state).spec_stack())
                    && chain_passes(f, old(state).spec_stack().len() as int, path@));
            }
            Err(ds)
        },
        Step::Load => {
            proof {
                lemma_cached_in(s0.spec_resolved(), path@);
                lemma_tracked_paths_known(s0, path@);
                assert(!s0.spec_known().contains(path@));
                assert(state.spec_known().take(s0.spec_known().len() as int) =~= s0.spec_known());
                lemma_tracks_grow(s0, *state, *source_map);
                assert(source_map.spec_files().take(source_map.spec_files().len() as int) =~= source_map.spec_files());
                assert(resolution_kept(s0, *state, *source_map, *source_map, false));
            }
            let source = match provider.read_source(path) {
                Ok(text) => text,
                Err(e) => {
                    let mut ds: Vec<Diagnostic> = Vec::new();
                    ds.push(file_not_found_diagnostic(&e, import_span));
                    proof {
                        let f = ResolveFailure::Unreadable { path: path@, error: e, span: import_span };
                        assert(call_ensures(P::read_source, (provider, path), Err::<String, SourceError>(e)));
                        assert(failure_reported(f, ds@, provider, *parse, *source_map)
                            && chain_extends(f, old(state).spec_stack())
                            && chain_passes(f, old(state).spec_stack().len() as int, path@));
                    }
                    return Err(ds);
                },
            };
            let text = source.as_str();
            let next = source_map.next_offset();
            let size = text.as_bytes().len();
            if next >= usize::MAX || size > usize::MAX - 1 - next {
                let mut ds: Vec<Diagnostic> = Vec::new();
                ds.push(file_too_large_diagnostic(path, import_span));
                proof {
                    let f = ResolveFailure::TooLarge { path: path@, size: size as nat, span: import_span };
                    assert(failure_reported(f, ds@, provider, *parse, *source_map)
                        && chain_extends(f, old(state).spec_stack())
                        && chain_passes(f, old(state).spec_stack().len() as int, path@));
                }
                return Err(ds);
            }
            let ghost m1 = *source_map;
            let base = source_map.add_file(path, text, import_span);
            proof {
                assert(source_map.spec_files().take(m1.spec_files().len() as int) =~= m1.spec_files());
                if map_tracks(s0, m1) {
                    lemma_tracks_after_load(s0, *state, m1, *source_map, path@);
                }
                assert(resolution_kept(s0, *state, m1, *source_map, false));
                if cache_from(*parse, s0, m1.spec_files()) {
                    assert forall|j: int| 0 <= j < state.spec_resolved().len()
                        implies tree_from(*parse, source_map.spec_files(), #[trigger] state.spec_resolved()[j].1) by {
                        assert(state.spec_resolved()[j] == s0.spec_resolved()[j]);
                        lemma_tree_from_grow(*parse, m1.spec_files(), source_map.spec_files(), s0.spec_resolved()[j].1);
                    }
                }
                if registered(s0, m1) {
                    assert forall|p: Seq<char>| #[trigger] state.spec_known().contains(p)
                        implies exists|i: int| 0 <= i < source_map.spec_files().len() && source_map.spec_files()[i].spec_name() == p by {
                        let last = source_map.spec_files().len() - 1;
                        if p == path@ {
                            assert(source_map.spec_files()[last].spec_name() == p);
                        } else {
                            let k = choose|k: int| 0 <= k < state.spec_known().len() && state.spec_known()[k] == p;
                            assert(s0.spec_known()[k] == p);
                            assert(s0.spec_known().contains(p));
                            let i = choose|i: int| 0 <= i < m1.spec_files().len() && m1.spec_files()[i].spec_name() == p;
                            assert(source_map.spec_files().take(m1.spec_files().len() as int)[i] == m1.spec_files()[i]);
                            assert(source_map.spec_files()[i].spec_name() == p);
                        }
                    }
                }
            }
            let mut file_ast = match parse(text, base) {
                Ok(ast) => ast,
                Err(ds) => {
                    proof {
                        assert(call_ensures(*parse, (text, base), Err::<FileAst, Vec<Diagnostic>>(ds)));
                        let f = ResolveFailure::Unparsable { text: text@, base };
                        let last = source_map.spec_files().len() - 1;
                        assert(source_map.spec_files()[last].spec_source() == text@);
                        assert(failure_reported(f, ds@, provider, *parse, *source_map)
                            && chain_extends(f, old(state).spec_stack())
                            && chain_passes(f, old(state).spec_stack().len() as int, path@));
                    }
                    return Err(ds);
                },
            };
            let ghost m2 = *source_map;
            let ghost p0 = file_ast;
            proof {
                lemma_file_view(&file_ast);
                assert(call_ensures(*parse, (text, base), Ok::<FileAst, Vec<Diagnostic>>(p0)));
                assert(file_ast@.imports.take(p0@.imports.len() as int) =~= p0@.imports);
            }
            let mut i: usize = 0;
            while i < file_ast.import_decls.len()
                invariant
                    state.wf(),
                    source_map.wf(),
                    parses_any_source(*parse),
                    s0.wf(),
                    s0 == *old(state),
                    s0.cached(path@) is None,
                    !s0.spec_stack().contains(path@),
                    state.spec_stack() == s0.spec_stack().push(path@),
                    state.spec_known().len() >= s0.spec_known().len() + 1,
                    s0.spec_known().len() <= u32::MAX,
                    resolution_kept(s0, *state, *old(source_map), *source_map, false),
                    m2.spec_files().len() == old(source_map).spec_files().len() + 1,
                    m2.spec_files()[old(source_map).spec_files().len() as int].spec_name() == path@,
                    m2.spec_files().len() <= source_map.spec_files().len(),
                    source_map.spec_files().take(m2.spec_files().len() as int) == m2.spec_files(),
                    file_ast.import_decls@ == p0.import_decls@,
                    i <= file_ast.import_decls@.len(),
                    file_ast@.header == p0@.header,
                    file_ast@.import_decls == p0@.import_decls,
                    file_ast@.type_definitions == p0@.type_definitions,
                    file_ast@.elements == p0@.elements,
                    file_ast@.imports.len() == p0@.imports.len() + i,
                    file_ast@.imports.take(p0@.imports.len() as int) == p0@.imports,
                    forall|k: int| 0 <= k < i ==>
                        ((#[trigger] p0@.import_decls[k]).value.form == ImportForm::Glob
                            <==> file_ast@.imports[p0@.imports.len() + k].namespace is None),
                    ready(*parse, s0, *old(source_map)) ==> ready(*parse, *state, *source_map),
                    cache_from(*parse, s0, old(source_map).spec_files()) ==> (
                        cache_from(*parse, *state, source_map.spec_files())
                        && forall|k: int| 0 <= k < i ==>
                            tree_from(*parse, source_map.spec_files(), #[trigger] file_ast@.imports[p0@.imports.len() + k].file_ast)),
                decreases file_ast.import_decls@.len() - i,
            {
                let ghost si = *state;
                let ghost mi = *source_map;
                let decl = &file_ast.import_decls[i];
                let import = match resolve_import_decl(state, source_map, provider, parse, path, decl) {
                    Ok(imp) => imp,
                    Err(ds) => {
                        proof {
                            lemma_kept_trans(s0, si, *state, *old(source_map), mi, *source_map, false, false);
                            if ready(*parse, s0, *old(source_map)) {
                                let f = choose|f: ResolveFailure| failure_reported(f, ds@, provider, *parse, *source_map)
                                    && chain_extends(f, si.spec_stack());
                                let n = s0.spec_stack().len() as int;
                                if let ResolveFailure::Cycle { chain, .. } = f {
                                    assert(chain.take(n + 1) == s0.spec_stack().push(path@));
                                    assert(chain[n] == chain.take(n + 1)[n]);
                                    assert(chain.take(n) =~= s0.spec_stack()) by {
                                        assert forall|k: int| 0 <= k < n implies chain[k] == s0.spec_stack()[k] by {
                                            assert(chain[k] == chain.take(n + 1)[k]);
                                        }
                                    }
                                }
                                assert(failure_reported(f, ds@, provider, *parse, *source_map)
                                    && chain_extends(f, s0.spec_stack())
                                    && chain_passes(f, n, path@));
                            }
                        }
                        return Err(ds);
                    },
                };
                proof {
                    lemma_kept_trans(s0, si, *state, *old(source_map), mi, *source_map, false, true);
                    if cache_from(*parse, s0, old(source_map).spec_files()) {
                        assert forall|k: int| 0 <= k < i implies
                            tree_from(*parse, source_map.spec_files(), #[trigger] file_ast@.imports[p0@.imports.len() + k].file_ast) by {
                            lemma_tree_from_grow(*parse, mi.spec_files(), source_map.spec_files(), file_ast@.imports[p0@.imports.len() + k].file_ast);
                        }
                    }
                    assert(source_map.spec_files().take(m2.spec_files().len() as int) =~= m2.spec_files()) by {
                        assert forall|k: int| 0 <= k < m2.spec_files().len() implies source_map.spec_files()[k] == m2.spec_files()[k] by {
                            assert(source_map.spec_files().take(mi.spec_files().len() as int)[k] == mi.spec_files()[k]);
                            assert(mi.spec_files().take(m2.spec_files().len() as int)[k] == m2.spec_files()[k]);
                        }
                    }
                }
                let ghost before = file_ast;
                proof {
                    lemma_file_view(&before);
                    lemma_import_view(&import);
                    assert(p0@.import_decls[i as int] == decl@);
                }
                file_ast.imports.push(import);
                proof {
                    lemma_file_view(&file_ast);
                    assert(file_ast.imports@ == before.imports@.push(import));
                    assert(imports_view(file_ast.imports@) =~= imports_view(before.imports@).push(import@));
                    assert(file_ast@.imports.take(p0@.imports.len() as int) =~= p0@.imports) by {
                        assert forall|k: int| 0 <= k < p0@.imports.len() implies file_ast@.imports[k] == p0@.imports[k] by {
                            assert(before@.imports.take(p0@.imports.len() as int)[k] == p0@.imports[k]);
                        }
                    }
                    assert forall|k: int| 0 <= k < i + 1 implies
                        ((#[trigger] p0@.import_decls[k]).value.form == ImportForm::Glob
                            <==> file_ast@.imports[p0@.imports.len() + k].namespace is None) by {
                        if k < i {
                            assert(file_ast@.imports[p0@.imports.len() + k] == before@.imports[p0@.imports.len() + k]);
                        }
                    }
                    if cache_from(*parse, s0, old(source_map).spec_files()) {
                        assert forall|k: int| 0 <= k < i + 1 implies
                            tree_from(*parse, source_map.spec_files(), #[trigger] file_ast@.imports[p0@.imports.len() + k].file_ast) by {
                            if k < i {
                                assert(file_ast@.imports[p0@.imports.len() + k] == before@.imports[p0@.imports.len() + k]);
                            } else {
                                assert(file_ast@.imports[p0@.imports.len() + k] == import@);
                            }
                        }
                    }
                }
                i = i + 1;
            }
            let result = clone_file_ast(&file_ast);
            let ghost fa = file_ast@;
            let ghost s2 = *state;
            let ghost m3 = *source_map;
            state.finish(file_ast);
            proof {
                lemma_finished_file_is_cached(s2, *state, result@);
                assert(state.spec_stack() =~= s0.spec_stack());
                lemma_kept_unchanged(s2, *state, m3, false);
                lemma_kept_trans(s0, s2, *state, *old(source_map), m3, m3, false, false);
                assert(source_map.spec_files()[old(source_map).spec_files().len() as int]
                    == m2.spec_files()[old(source_map).spec_files().len() as int]);
                lemma_file_view(&p0);
                assert(p0@.import_decls.len() == p0.import_decls@.len());
                assert(imports_filled(p0@, result@));
                assert(parsed_and_filled(*parse, m2.spec_files()[old(source_map).spec_files().len() as int], result@));
                assert(state.spec_known() == s2.spec_known());
                if ready(*parse, s0, *old(source_map)) {
                    assert(map_tracks(s2, m3) && registered(s2, m3));
                    assert(map_tracks(*state, *source_map));
                    assert(registered(*state, *source_map));
                }
                if cache_from(*parse, s0, old(source_map).spec_files()) {
                    let i0 = old(source_map).spec_files().len() as int;
                    let files = source_map.spec_files();
                    assert(files[i0].spec_source() == text@);
                    assert(files[i0].spec_start() as usize == base);
                    assert forall|k: int| 0 <= k < p0@.import_decls.len() implies
                        tree_from(*parse, files, #[trigger] result@.imports[p0@.imports.len() + k].file_ast) by {
                        assert(result@.imports[p0@.imports.len() + k] == fa.imports[p0@.imports.len() + k]);
                    }
                    assert(tree_from(*parse, files, result@));
                    assert forall|j: int| 0 <= j < state.spec_resolved().len()
                        implies tree_from(*parse, files, #[trigger] state.spec_resolved()[j].1) by {
                        if j < s2.spec_resolved().len() {
                            assert(state.spec_resolved()[j] == s2.spec_resolved()[j]);
                        }
                    }
                }
            }
            Ok(result)
        },
    }
}

/// Resolves one import declaration of the file at `parent_path`: an empty
/// path is E402; the path is resolved through `provider` (E400 when it
/// cannot be), the file is resolved, and a namespaced import gets the
/// namespace that `provider` derives from the resolved path (E403 when it
/// cannot), a glob import none.
pub fn resolve_import_decl<P: SourceProvider, G: Fn(&str, usize) -> Result<FileAst, Vec<Diagnostic>>>(
    state: &mut ResolutionState,
    source_map: &mut SourceMap,
    provider: &P,
    parse: &G,
    parent_path: &str,
    decl: &Spanned<ImportDecl>,
) -> (r: Result<Import, Vec<Diagnostic>>)
    requires
        old(state).wf(),
        old(source_map).wf(),
        parses_any_source(*parse),
    ensures
        resolution_kept(*old(state), *final(state), *old(source_map), *final(source_map), r is Ok),
        decl@.value.path.value.len() == 0 ==> (r matches Err(ds) && ds@.len() == 1
            && reports_error(ds@[0], ErrorCode::E402, "import path is empty"@, None, Some(decl@.span), "empty path"@)),
        r matches Ok(imp) ==> ((decl@.value.form == ImportForm::Glob) <==> (imp.namespace is None)),
        cache_from(*parse, *old(state), old(source_map).spec_files()) ==> (r matches Ok(imp) ==>
            cache_from(*parse, *final(state), final(source_map).spec_files())
            && tree_from(*parse, final(source_map).spec_files(), imp@.file_ast)),
        r matches Err(ds) ==> ds@.len() > 0 || parse_may_fail_silently(*parse),
        ready(*parse, *old(state), *old(source_map)) ==> (r matches Err(ds) ==> exists|f: ResolveFailure|
            failure_reported(f, ds@, provider, *parse, *final(source_map))
            && chain_extends(f, old(state).spec_stack())),
        ready(*parse, *old(state), *old(source_map)) ==> (r is Ok ==> ready(*parse, *final(state), *final(source_map))),
    decreases u32::MAX - old(state).spec_known().len(), 1nat,
{
    let import_path = decl.inner().path.inner().as_str();
    let decl_span = decl.span();
    match validate_import_path(import_path, decl_span) {
        Ok(()) => {},
        Err(d) => {
            let mut ds: Vec<Diagnostic> = Vec::new();
            ds.push(d);
            proof {
                lemma_kept_unchanged(*old(state), *state, *source_map, false);
                let f = ResolveFailure::EmptyImportPath { span: decl_span };
                assert(failure_reported(f, ds@, provider, *parse, *source_map) && chain_extends(f, old(state).spec_stack()));
            }
            return Err(ds);
        },
    }
    let resolved_path = match provider.resolve_path(parent_path, import_path) {
        Ok(p) => p,
        Err(e) => {
            let mut ds: Vec<Diagnostic> = Vec::new();
            ds.push(file_not_found_diagnostic(&e, Some(decl_span)));
            proof {
                lemma_kept_unchanged(*old(state), *state, *source_map, false);
                let f = ResolveFailure::Unresolvable { parent: parent_path@, import_path: import_path@, error: e, span: decl_span };
                assert(call_ensures(P::resolve_path, (provider, parent_path, import_path), Err::<String, SourceError>(e)));
                assert(failure_reported(f, ds@, provider, *parse, *source_map) && chain_extends(f, old(state).spec_stack()));
            }
            return Err(ds);
        },
    };
    let file_ast = resolve_file(state, source_map, provider, parse, resolved_path.as_str(), Some(decl_span))?;
    let namespace = match decl.inner().form {
        ImportForm::Namespaced => {
            let target = resolved_path.as_str();
            match provider.derive_namespace(target) {
                Ok(ns) => Some(ns),
                Err(e) => {
                    let mut ds: Vec<Diagnostic> = Vec::new();
                    ds.push(invalid_namespace_diagnostic(&e, decl_span));
                    proof {
                        let f = ResolveFailure::NoNamespace { path: target@, error: e, span: decl_span };
                        assert(call_ensures(P::derive_namespace, (provider, target), Err::<Id, SourceError>(e)));
                        assert(failure_reported(f, ds@, provider, *parse, *source_map) && chain_extends(f, old(state).spec_stack()));
                    }
                    return Err(ds);
                },
            }
        },
        ImportForm::Glob => None,
    };
    Ok(Import { namespace, file_ast: Box::new(file_ast) })
}

/// Resolves the root file at `root_path` and all of its transitive imports,
/// reading files through `provider` and parsing each with `parse` (its
/// text and the offset at which the source map places it). On success the
/// root's syntax tree is what `parse` gave for the root, with its imports
/// filled in recursively, and the source map holds every file loaded once,
/// the root first. On failure the diagnostics are those of the first
/// failure met, wherever in the import tree it arose (a [`ResolveFailure`]:
/// the provider's error, an empty import path, a cycle whose chain starts
/// at the root, `parse`'s own diagnostics, or a machine limit), and come
/// with the source map built so far.
pub fn resolve<P: SourceProvider, G: Fn(&str, usize) -> Result<FileAst, Vec<Diagnostic>>>(
    provider: &P,
    parse: &G,
    root_path: &str,
) -> (r: Result<ResolvedFile, ParseError>)
    requires
        parses_any_source(*parse),
    ensures
        r matches Ok(f) ==> resolved_root(*parse, root_path@, f.spec_source_map(), f.spec_file_ast()),
        r matches Err(e) ==> e.spec_diagnostics().len() > 0 || parse_may_fail_silently(*parse),
        r matches Err(e) ==> e.spec_source_map().wf() && files_distinct(*e.spec_source_map()),
        r matches Err(e) ==> resolution_failed(provider, *parse, root_path@, e),
{
    let mut state = ResolutionState::new();
    let mut source_map = SourceMap::new();
    proof {
        assert(state.spec_resolved().len() == 0);
        assert(state.cached(root_path@) is None);
        assert(map_tracks(state, source_map));
        assert(cache_from(*parse, state, source_map.spec_files()));
        assert(state.spec_known().len() == 0);
        assert(registered(state, source_map));
        assert(ready(*parse, state, source_map));
    }
    match resolve_file(&mut state, &mut source_map, provider, parse, root_path, None) {
        Ok(file_ast) => Ok(ResolvedFile::new(source_map, file_ast)),
        Err(ds) => Err(ParseError::new(ds, source_map)),
    }
}

} // verus!
