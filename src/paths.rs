//! Paths of template files, held as strings and combined by `std::path`.
use vstd::prelude::*;

verus! {

/// The path that `std::path::Path::join` makes of a base and a relative path.
pub uninterp spec fn joined(base: Seq<char>, path: Seq<char>) -> Seq<char>;

/// The parent that `std::path::Path::parent` gives of a path, if it has one.
pub uninterp spec fn parent_of(path: Seq<char>) -> Option<Seq<char>>;

/// Relies on `std::path::Path::join`: the result depends on the two paths
/// alone. Joining two UTF-8 strings gives UTF-8, so no character is lost.
#[verifier::external_body]
pub(crate) fn join_path(base: &str, path: &str) -> (r: String)
    ensures
        r@ == joined(base@, path@),
{
    std::path::Path::new(base).join(path).to_string_lossy().into_owned()
}

/// Relies on `std::path::Path::parent`: the result depends on the path alone,
/// and is a part of it, so it stays UTF-8.
#[verifier::external_body]
pub(crate) fn parent_path(path: &str) -> (r: Option<String>)
    ensures
        match r {
            Some(p) => parent_of(path@) == Some(p@),
            None => parent_of(path@) is None,
        },
{
    std::path::Path::new(path).parent().map(|p| p.to_string_lossy().into_owned())
}

/// The directory against which the invocations inside the file at `path`
/// resolve: its parent, or the path itself where it has none (a root).
pub open spec fn dir_of(path: Seq<char>) -> Seq<char> {
    match parent_of(path) {
        Some(p) => p,
        None => path,
    }
}

pub fn dir_path(path: &str) -> (r: String)
    ensures
        r@ == dir_of(path@),
{
    match parent_path(path) {
        Some(p) => p,
        None => path.to_owned(),
    }
}

} // verus!
