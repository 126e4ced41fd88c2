//! File names and extensions of archive paths (`std::path::Path`).

use vstd::prelude::*;

verus! {

/// What `Path::file_name` gives for `path` (the final component, when it
/// is a normal component), as text.
pub uninterp spec fn path_file_name(path: Seq<char>) -> Option<Seq<char>>;

/// What `Path::extension` gives for `path` (the part of the file name after
/// its last `.`, when there is one), as text.
pub uninterp spec fn path_extension(path: Seq<char>) -> Option<Seq<char>>;

/// `Path::file_name`, as a `String`. Claimed: the result is
/// `path_file_name(path)`; the documentation adds that a file name is never
/// empty.
#[verifier::external_body]
pub(crate) fn file_name(path: &str) -> (r: Option<String>)
    ensures
        r.deep_view() == path_file_name(path@),
        r matches Some(n) ==> n@.len() > 0,
{
    std::path::Path::new(path).file_name().and_then(|n| n.to_str()).map(|s| s.to_string())
}

/// `Path::extension`, as a `String`. Claimed: the result is
/// `path_extension(path)`.
#[verifier::external_body]
pub(crate) fn extension(path: &str) -> (r: Option<String>)
    ensures
        r.deep_view() == path_extension(path@),
{
    std::path::Path::new(path).extension().and_then(|e| e.to_str()).map(|s| s.to_string())
}

} // verus!
