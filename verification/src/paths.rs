//! File system paths, held as strings; what the library asks of them is answered by
//! `std::path::Path`.

use vstd::prelude::*;

use crate::text::opt_seq;

verus! {

/// What `Path::parent` gives for a path, as a string.
pub uninterp spec fn path_parent(p: Seq<char>) -> Option<Seq<char>>;

/// What `Path::file_name` gives for a path, as a string.
pub uninterp spec fn path_file_name(p: Seq<char>) -> Option<Seq<char>>;

/// What `Path::extension` gives for a path, as a string.
pub uninterp spec fn path_extension(p: Seq<char>) -> Option<Seq<char>>;

/// Whether `Path::starts_with` holds: `base` is a leading run of whole components of `p`.
pub uninterp spec fn path_starts_with(p: Seq<char>, base: Seq<char>) -> bool;

/// Whether two paths are equal as `Path` values (component by component).
pub uninterp spec fn path_eq(a: Seq<char>, b: Seq<char>) -> bool;

/// `Path::parent` of `p`. A path given as a `&str` is valid UTF-8, and so is each of
/// its components, so the conversion back to `String` loses nothing.
#[verifier::external_body]
pub(crate) fn parent_of(p: &str) -> (r: Option<String>)
    ensures
        opt_seq(r) == path_parent(p@),
{
    std::path::Path::new(p).parent().map(|q| q.to_string_lossy().into_owned())
}

/// `Path::file_name` of `p`, as a string.
#[verifier::external_body]
pub(crate) fn file_name_of(p: &str) -> (r: Option<String>)
    ensures
        opt_seq(r) == path_file_name(p@),
{
    std::path::Path::new(p).file_name().map(|q| q.to_string_lossy().into_owned())
}

/// `Path::extension` of `p`, as a string.
#[verifier::external_body]
pub(crate) fn extension_of(p: &str) -> (r: Option<String>)
    ensures
        opt_seq(r) == path_extension(p@),
{
    std::path::Path::new(p).extension().map(|q| q.to_string_lossy().into_owned())
}

/// `Path::starts_with`: whether `base` is a prefix of `p` made of whole components.
#[verifier::external_body]
pub(crate) fn starts_with_path(p: &str, base: &str) -> (r: bool)
    ensures
        r == path_starts_with(p@, base@),
{
    std::path::Path::new(p).starts_with(std::path::Path::new(base))
}

/// `==` on `Path`: equal strings are always equal paths; paths that differ only in
/// redundant separators are equal too.
#[verifier::external_body]
pub(crate) fn same_path(a: &str, b: &str) -> (r: bool)
    ensures
        r == path_eq(a@, b@),
        a@ == b@ ==> r,
{
    std::path::Path::new(a) == std::path::Path::new(b)
}

} // verus!
