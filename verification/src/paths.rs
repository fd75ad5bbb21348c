//! Path decomposition, as `std::path::Path` performs it on Unix. Paths
//! travel through the library as strings; the two components that the
//! logic needs come from `Path` itself.

use vstd::prelude::*;

use crate::plan_kg::opt_view;

verus! {

/// What `Path::parent` returns for the path `p`.
pub uninterp spec fn path_parent(p: Seq<char>) -> Option<Seq<char>>;

/// What `Path::file_name` returns for the path `p`.
pub uninterp spec fn path_file_name(p: Seq<char>) -> Option<Seq<char>>;

/// What `Path::starts_with` returns for the path `p` and the base `base`.
pub uninterp spec fn path_has_prefix(p: Seq<char>, base: Seq<char>) -> bool;

/// `std::path::Path::starts_with`: whether `base` is a component-wise
/// prefix of `p`. Claimed: the result is `path_has_prefix` of the two
/// arguments.
#[verifier::external_body]
pub(crate) fn path_starts_with(p: &str, base: &str) -> (r: bool)
    ensures
        r == path_has_prefix(p@, base@),
{
    std::path::Path::new(p).starts_with(base)
}

/// `std::path::Path::parent`: the path without its final component.
/// Claimed: the result is `path_parent` of the argument, and, as the
/// documentation of `parent` states, none for the empty path and for the
/// root `/`.
#[verifier::external_body]
pub(crate) fn parent_of(p: &str) -> (r: Option<String>)
    ensures
        opt_view(r) == path_parent(p@),
        p@.len() == 0 || p@ == "/"@ ==> r is None,
{
    match std::path::Path::new(p).parent() {
        Some(q) => Some(q.to_string_lossy().into_owned()),
        None => None,
    }
}

/// `std::path::Path::file_name`: the final component of the path.
/// Claimed: the result is `path_file_name` of the argument.
#[verifier::external_body]
pub(crate) fn file_name_of(p: &str) -> (r: Option<String>)
    ensures
        opt_view(r) == path_file_name(p@),
{
    match std::path::Path::new(p).file_name() {
        Some(n) => Some(n.to_string_lossy().into_owned()),
        None => None,
    }
}

} // verus!
