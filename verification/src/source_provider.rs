//! Source providers: how the import resolver finds and reads files.
//!
//! - [`SourceProvider`]: resolve import paths, read text, derive namespaces.
//! - [`InMemorySourceProvider`]: a provider backed by a list of in-memory files.
use vstd::prelude::*;
use crate::error::SourceError;
use crate::identifier::Id;
use crate::paths::{
    path_eq, path_file_stem, path_join, path_parent, path_with_extension, spec_path_eq,
    spec_path_file_stem, spec_path_join, spec_path_parent, spec_path_with_extension,
};
use crate::strings::concat;

verus! {

/// The message of a provider error for a missing file.
pub open spec fn not_found_message(path: Seq<char>) -> Seq<char> {
    "file not found: "@ + path
}

/// The message of a provider error for a path without a file stem.
pub open spec fn no_stem_message() -> Seq<char> {
    "cannot derive namespace: path has no valid file stem"@
}

/// The namespace that [`derive_namespace`] gives for `path`, or `None` when
/// the path has no file stem.
pub open spec fn spec_derived_namespace(path: Seq<char>) -> Option<Seq<char>> {
    spec_path_file_stem(path)
}

/// Derives a namespace from an import path: the path's file stem
/// (`shared/styles` gives `styles`, `../common/base.orr` gives `base`).
pub fn derive_namespace(import_path: &str) -> (r: Result<Id, SourceError>)
    ensures
        match r {
            Ok(id) => spec_derived_namespace(import_path@) matches Some(stem)
                && id.spec_parsed_from(stem),
            Err(e) => spec_derived_namespace(import_path@) is None
                && e.spec_path() == import_path@
                && e.spec_message() == no_stem_message(),
        },
{
    match path_file_stem(import_path) {
        Some(stem) => Ok(Id::new(stem.as_str())),
        None => Err(SourceError::new(
            import_path,
            "cannot derive namespace: path has no valid file stem",
        )),
    }
}

/// Access to source files for the import resolver.
///
/// Implementations decide how an import path is resolved relative to the
/// importing file and how a file's text is read.
pub trait SourceProvider {
    /// Resolves `import_path` relative to the file `from`, giving the path of
    /// the imported file.
    fn resolve_path(&self, from: &str, import_path: &str) -> Result<String, SourceError>;

    /// Reads the text of the file at `path`.
    fn read_source(&self, path: &str) -> Result<String, SourceError>;

    /// Derives the namespace of an import from its path; by default the
    /// path's file stem.
    fn derive_namespace(&self, import_path: &str) -> (r: Result<Id, SourceError>)
        default_ensures
            match r {
                Ok(id) => spec_derived_namespace(import_path@) matches Some(stem)
                    && id.spec_parsed_from(stem),
                Err(e) => spec_derived_namespace(import_path@) is None
                    && e.spec_path() == import_path@
                    && e.spec_message() == no_stem_message(),
            },
    {
        derive_namespace(import_path)
    }
}

/// The first index whose path equals `path`, among `files`.
pub open spec fn find_file(files: Seq<(Seq<char>, Seq<char>)>, path: Seq<char>) -> Option<int>
    decreases files.len(),
{
    if files.len() == 0 {
        None
    } else {
        match find_file(files.drop_last(), path) {
            Some(i) => Some(i),
            None => if spec_path_eq(files.last().0, path) {
                Some(files.len() - 1)
            } else {
                None
            },
        }
    }
}

/// The path that an import resolves to: the import path joined to the
/// directory of the importing file, with the extension `orr`.
pub open spec fn spec_import_target(from: Seq<char>, import_path: Seq<char>) -> Seq<char> {
    let dir = match spec_path_parent(from) {
        Some(d) => d,
        None => Seq::<char>::empty(),
    };
    spec_path_with_extension(spec_path_join(dir, import_path), "orr"@)
}

/// No two registered files have equal paths.
pub open spec fn unique_paths(files: Seq<(Seq<char>, Seq<char>)>) -> bool {
    forall|i: int, j: int| 0 <= i < j < files.len() ==> !spec_path_eq(#[trigger] files[i].0, #[trigger] files[j].0)
}

/// A provider over files held in memory, looked up by path.
#[derive(Debug, Clone)]
pub struct InMemorySourceProvider {
    files: Vec<(String, String)>,
}

impl InMemorySourceProvider {
    /// The registered files as (path, text) pairs in registration order.
    pub closed spec fn spec_files(&self) -> Seq<(Seq<char>, Seq<char>)> {
        self.files@.map_values(|f: (String, String)| (f.0@, f.1@))
    }

    /// Creates a provider with no files.
    pub fn new() -> (r: InMemorySourceProvider)
        ensures
            r.spec_files().len() == 0,
            unique_paths(r.spec_files()),
    {
        InMemorySourceProvider { files: Vec::new() }
    }

    /// Finds the index of the file registered under a path equal to `path`.
    fn find(&self, path: &str) -> (r: Option<usize>)
        ensures
            match r {
                Some(i) => find_file(self.spec_files(), path@) == Some(i as int)
                    && i < self.files@.len(),
                None => find_file(self.spec_files(), path@) is None,
            },
            self.spec_files().len() == self.files@.len(),
    {
        let mut i: usize = 0;
        while i < self.files.len()
            invariant
                i <= self.files@.len(),
                find_file(self.spec_files().take(i as int), path@) is None,
            decreases self.files@.len() - i,
        {
            let ghost prefix = self.spec_files().take(i as int + 1);
            proof {
                assert(prefix.drop_last() =~= self.spec_files().take(i as int));
            }
            if path_eq(self.files[i].0.as_str(), path) {
                proof {
                    assert(self.spec_files()[i as int].0 == self.files@[i as int].0@);
                    assert(prefix.last() == self.spec_files()[i as int]);
                    lemma_find_extend(self.spec_files(), i as int + 1, path@);
                }
                return Some(i);
            }
            proof {
                assert(self.spec_files()[i as int].0 == self.files@[i as int].0@);
                assert(prefix.last() == self.spec_files()[i as int]);
            }
            i = i + 1;
        }
        proof {
            assert(self.spec_files().take(i as int) =~= self.spec_files());
        }
        None
    }

    /// Registers the text of a file; a file already registered under an
    /// equal path gets the new text.
    pub fn add_file(&mut self, path: &str, source: &str)
        ensures
            match find_file(old(self).spec_files(), path@) {
                Some(i) => final(self).spec_files() == old(self).spec_files().update(
                    i, (old(self).spec_files()[i].0, source@)),
                None => final(self).spec_files() == old(self).spec_files().push((path@, source@)),
            },
            unique_paths(old(self).spec_files()) ==> unique_paths(final(self).spec_files()),
    {
        match self.find(path) {
            Some(i) => {
                let key = self.files[i].0.clone();
                let ghost before = self.files@;
                self.files.set(i, (key, String::from_str(source)));
                proof {
                    assert(self.spec_files() =~= old(self).spec_files().update(
                        i as int, (old(self).spec_files()[i as int].0, source@)));
                    let s = self.spec_files();
                    assert forall|a: int, b: int| 0 <= a < b < s.len()
                        implies #[trigger] s[a].0 == old(self).spec_files()[a].0 && #[trigger] s[b].0 == old(self).spec_files()[b].0 by {}
                }
            },
            None => {
                self.files.push((String::from_str(path), String::from_str(source)));
                proof {
                    assert(self.spec_files() =~= old(self).spec_files().push((path@, source@)));
                    if unique_paths(old(self).spec_files()) {
                        let s = self.spec_files();
                        assert forall|i: int, j: int| 0 <= i < j < s.len()
                            implies !spec_path_eq(#[trigger] s[i].0, #[trigger] s[j].0) by {
                            if j == s.len() - 1 {
                                if spec_path_eq(s[i].0, s[j].0) {
                                    lemma_find_absent(old(self).spec_files(), path@, i);
                                }
                            }
                        }
                    }
                }
            },
        }
    }

    /// Resolves `import_path` relative to the directory of `from`, appends
    /// the `orr` extension, and checks that such a file is registered.
    pub fn resolve_path(&self, from: &str, import_path: &str) -> (r: Result<String, SourceError>)
        ensures
            match r {
                Ok(p) => p@ == spec_import_target(from@, import_path@)
                    && find_file(self.spec_files(), p@) is Some,
                Err(e) => find_file(self.spec_files(), spec_import_target(from@, import_path@)) is None
                    && e.spec_path() == spec_import_target(from@, import_path@)
                    && e.spec_message() == not_found_message(spec_import_target(from@, import_path@)),
            },
    {
        let dir = match path_parent(from) {
            Some(d) => d,
            None => String::new(),
        };
        let joined = path_join(dir.as_str(), import_path);
        proof {
            reveal_strlit("orr");
            assert(!"orr"@.contains('/'));
            assert(!"orr"@.contains('\\'));
        }
        let target = path_with_extension(joined.as_str(), "orr");
        match self.find(target.as_str()) {
            Some(_) => Ok(target),
            None => {
                let message = concat("file not found: ", target.as_str());
                Err(SourceError::new(target.as_str(), message.as_str()))
            },
        }
    }

    /// Returns the text of the file registered under a path equal to `path`.
    pub fn read_source(&self, path: &str) -> (r: Result<String, SourceError>)
        ensures
            match r {
                Ok(s) => find_file(self.spec_files(), path@) matches Some(i)
                    && s@ == self.spec_files()[i].1,
                Err(e) => find_file(self.spec_files(), path@) is None
                    && e.spec_path() == path@
                    && e.spec_message() == not_found_message(path@),
            },
    {
        match self.find(path) {
            Some(i) => Ok(self.files[i].1.clone()),
            None => {
                let message = concat("file not found: ", path);
                Err(SourceError::new(path, message.as_str()))
            },
        }
    }

    /// Derives the namespace of an import path (its file stem).
    pub fn derive_namespace(&self, import_path: &str) -> (r: Result<Id, SourceError>)
        ensures
            match r {
                Ok(id) => spec_derived_namespace(import_path@) matches Some(stem)
                    && id.spec_parsed_from(stem),
                Err(e) => spec_derived_namespace(import_path@) is None
                    && e.spec_path() == import_path@
                    && e.spec_message() == no_stem_message(),
            },
    {
        derive_namespace(import_path)
    }
}

impl SourceProvider for InMemorySourceProvider {
    fn resolve_path(&self, from: &str, import_path: &str) -> (r: Result<String, SourceError>)
        ensures
            match r {
                Ok(p) => p@ == spec_import_target(from@, import_path@)
                    && find_file(self.spec_files(), p@) is Some,
                Err(e) => find_file(self.spec_files(), spec_import_target(from@, import_path@)) is None
                    && e.spec_path() == spec_import_target(from@, import_path@)
                    && e.spec_message() == not_found_message(spec_import_target(from@, import_path@)),
            },
    {
        InMemorySourceProvider::resolve_path(self, from, import_path)
    }

    fn read_source(&self, path: &str) -> (r: Result<String, SourceError>)
        ensures
            match r {
                Ok(s) => find_file(self.spec_files(), path@) matches Some(i)
                    && s@ == self.spec_files()[i].1,
                Err(e) => find_file(self.spec_files(), path@) is None
                    && e.spec_path() == path@
                    && e.spec_message() == not_found_message(path@),
            },
    {
        InMemorySourceProvider::read_source(self, path)
    }
}

/// Reading back a file just registered gives its text.
pub proof fn lemma_read_after_add(before: Seq<(Seq<char>, Seq<char>)>, after: Seq<(Seq<char>, Seq<char>)>, path: Seq<char>, source: Seq<char>)
    requires
        match find_file(before, path) {
            Some(i) => after == before.update(i, (before[i].0, source)),
            None => after == before.push((path, source)),
        },
    ensures
        find_file(after, path) matches Some(j) && after[j].1 == source,
{
    lemma_find_bounds(before, path);
    lemma_find_update(before, path, source);
}

/// Adding a file leaves every path not equal to the added one answering as
/// before: it is found at the same place, with the same text.
pub proof fn lemma_add_keeps_other_paths(before: Seq<(Seq<char>, Seq<char>)>, after: Seq<(Seq<char>, Seq<char>)>,
    path: Seq<char>, source: Seq<char>, other: Seq<char>)
    requires
        match find_file(before, path) {
            Some(i) => after == before.update(i, (before[i].0, source)),
            None => after == before.push((path, source)),
        },
        !spec_path_eq(path, other),
    ensures
        find_file(after, other) == find_file(before, other),
        find_file(before, other) matches Some(j) ==> after[j] == before[j],
{
    lemma_find_bounds(before, path);
    lemma_find_bounds(before, other);
    match find_file(before, path) {
        Some(i) => {
            lemma_find_keys_only(before, after, other);
            lemma_find_matches(before, path);
            lemma_find_matches(before, other);
        },
        None => {
            assert(after.drop_last() =~= before);
        },
    }
}

/// The entry found by [`find_file`] has a path equal to the one looked up.
pub proof fn lemma_find_matches(s: Seq<(Seq<char>, Seq<char>)>, path: Seq<char>)
    ensures
        find_file(s, path) matches Some(i) ==> spec_path_eq(s[i].0, path),
    decreases s.len(),
{
    if s.len() > 0 {
        lemma_find_matches(s.drop_last(), path);
        lemma_find_bounds(s.drop_last(), path);
    }
}

/// When [`find_file`] finds nothing, no entry has a path equal to the one
/// looked up.
proof fn lemma_find_absent(s: Seq<(Seq<char>, Seq<char>)>, path: Seq<char>, k: int)
    requires
        find_file(s, path) is None,
        0 <= k < s.len(),
    ensures
        !spec_path_eq(s[k].0, path),
    decreases s.len(),
{
    if k < s.len() - 1 {
        lemma_find_absent(s.drop_last(), path, k);
    }
}

/// The index found by [`find_file`] is within the list.
pub proof fn lemma_find_bounds(s: Seq<(Seq<char>, Seq<char>)>, path: Seq<char>)
    ensures
        find_file(s, path) matches Some(i) ==> 0 <= i < s.len(),
    decreases s.len(),
{
    if s.len() > 0 {
        lemma_find_bounds(s.drop_last(), path);
    }
}

proof fn lemma_find_update(before: Seq<(Seq<char>, Seq<char>)>, path: Seq<char>, source: Seq<char>)
    ensures
        match find_file(before, path) {
            Some(i) => find_file(before.update(i, (before[i].0, source)), path) == Some(i),
            None => find_file(before.push((path, source)), path) == Some(before.len() as int),
        },
    decreases before.len(),
{
    lemma_find_bounds(before, path);
    match find_file(before, path) {
        Some(i) => {
            let after = before.update(i, (before[i].0, source));
            lemma_find_keys_only(before, after, path);
        },
        None => {
            let after = before.push((path, source));
            assert(after.drop_last() =~= before);
        },
    }
}

proof fn lemma_find_extend(s: Seq<(Seq<char>, Seq<char>)>, n: int, path: Seq<char>)
    requires
        0 <= n <= s.len(),
        find_file(s.take(n), path) is Some,
    ensures
        find_file(s, path) == find_file(s.take(n), path),
    decreases s.len() - n,
{
    if n < s.len() {
        assert(s.take(n + 1).drop_last() =~= s.take(n));
        lemma_find_extend(s, n + 1, path);
    } else {
        assert(s.take(n) =~= s);
    }
}

proof fn lemma_find_keys_only(a: Seq<(Seq<char>, Seq<char>)>, b: Seq<(Seq<char>, Seq<char>)>, path: Seq<char>)
    requires
        a.len() == b.len(),
        forall|k: int| 0 <= k < a.len() ==> (#[trigger] a[k]).0 == b[k].0,
    ensures
        find_file(a, path) == find_file(b, path),
    decreases a.len(),
{
    if a.len() > 0 {
        lemma_find_keys_only(a.drop_last(), b.drop_last(), path);
    }
}

} // verus!
