//! File-system path operations of `std::path`, on string paths.
//!
//! Each function here makes one call into `std::path` and converts the
//! result back to a string. Their results are named by spec functions: the
//! library relies only on the same arguments giving the same result.
use vstd::prelude::*;

verus! {

/// The parent directory of a path, as `Path::parent` computes it.
pub uninterp spec fn spec_path_parent(path: Seq<char>) -> Option<Seq<char>>;

/// A path joined with another, as `Path::join` computes it.
pub uninterp spec fn spec_path_join(base: Seq<char>, rel: Seq<char>) -> Seq<char>;

/// A path with its extension replaced, as `PathBuf::set_extension` computes it.
pub uninterp spec fn spec_path_with_extension(path: Seq<char>, ext: Seq<char>) -> Seq<char>;

/// The class of a path under `Path`'s `==`, which compares paths component
/// by component: two paths are equal exactly when their classes are. Since
/// `Path` is `Eq`, its `==` is an equivalence, which is what naming a class
/// for each path expresses.
pub uninterp spec fn spec_path_class(path: Seq<char>) -> Seq<Seq<char>>;

/// Whether two paths are equal, as `Path`'s `==` decides.
pub open spec fn spec_path_eq(a: Seq<char>, b: Seq<char>) -> bool {
    spec_path_class(a) == spec_path_class(b)
}

/// The file stem of a path, as `Path::file_stem` computes it.
pub uninterp spec fn spec_path_file_stem(path: Seq<char>) -> Option<Seq<char>>;

/// Calls `Path::parent` and converts the result to a string.
#[verifier::external_body]
pub(crate) fn path_parent(path: &str) -> (r: Option<String>)
    ensures
        match r {
            Some(p) => spec_path_parent(path@) == Some(p@),
            None => spec_path_parent(path@) is None,
        },
{
    match std::path::Path::new(path).parent() {
        Some(p) => Some(p.to_string_lossy().into_owned()),
        None => None,
    }
}

/// Calls `Path::join` and converts the result to a string.
#[verifier::external_body]
pub(crate) fn path_join(base: &str, rel: &str) -> (r: String)
    ensures
        r@ == spec_path_join(base@, rel@),
{
    std::path::Path::new(base).join(rel).to_string_lossy().into_owned()
}

/// Calls `PathBuf::set_extension` and converts the result to a string.
/// `set_extension` panics when the extension holds a path separator, which
/// the `requires` leaves out.
#[verifier::external_body]
pub(crate) fn path_with_extension(path: &str, ext: &str) -> (r: String)
    requires
        !ext@.contains('/'),
        !ext@.contains('\\'),
    ensures
        r@ == spec_path_with_extension(path@, ext@),
{
    let mut buf = std::path::PathBuf::from(path);
    buf.set_extension(ext);
    buf.to_string_lossy().into_owned()
}

/// Compares two paths with `Path`'s `==`: the answer is whether their
/// classes under that equivalence agree.
#[verifier::external_body]
pub(crate) fn path_eq(a: &str, b: &str) -> (r: bool)
    ensures
        r == (spec_path_class(a@) == spec_path_class(b@)),
{
    std::path::Path::new(a) == std::path::Path::new(b)
}

/// Calls `Path::file_stem` and converts the result to a string.
#[verifier::external_body]
pub(crate) fn path_file_stem(path: &str) -> (r: Option<String>)
    ensures
        match r {
            Some(s) => spec_path_file_stem(path@) == Some(s@),
            None => spec_path_file_stem(path@) is None,
        },
{
    match std::path::Path::new(path).file_stem() {
        Some(s) => Some(s.to_string_lossy().into_owned()),
        None => None,
    }
}

} // verus!
