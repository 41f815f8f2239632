//! File paths, as far as their texts are concerned.

use vstd::prelude::*;

verus! {

/// `std::path::PathBuf`, known by its texts.
#[verifier::external_type_specification]
#[verifier::external_body]
pub struct ExPathBuf(std::path::PathBuf);

/// What a `PathBuf` displays.
pub uninterp spec fn path_text(path: std::path::PathBuf) -> Seq<char>;

/// The debug text of a `PathBuf`.
pub uninterp spec fn path_debug(path: std::path::PathBuf) -> Seq<char>;

/// `PathBuf::from` on a text. The path displays that text.
#[verifier::external_body]
pub(crate) fn path_from(text: &str) -> (r: std::path::PathBuf)
    ensures
        path_text(r) == text@,
{
    std::path::PathBuf::from(text)
}

/// `Path::display` and its text.
#[verifier::external_body]
pub(crate) fn path_display(path: &std::path::PathBuf) -> (r: String)
    ensures
        r@ == path_text(*path),
{
    path.display().to_string()
}

/// The debug text of a `PathBuf`.
#[verifier::external_body]
pub(crate) fn path_quoted(path: &std::path::PathBuf) -> (r: String)
    ensures
        r@ == path_debug(*path),
{
    format!("{:?}", path)
}

/// The clone of a `PathBuf`. It has the texts of the path.
#[verifier::external_body]
pub(crate) fn path_copy(path: &std::path::PathBuf) -> (r: std::path::PathBuf)
    ensures
        path_text(r) == path_text(*path),
        path_debug(r) == path_debug(*path),
{
    path.clone()
}

/// Whether two paths, where there are any, have the same texts.
pub open spec fn same_path(
    a: Option<std::path::PathBuf>,
    b: Option<std::path::PathBuf>,
) -> bool {
    match (a, b) {
        (Some(p), Some(q)) => path_text(p) == path_text(q) && path_debug(p) == path_debug(q),
        (None, None) => true,
        _ => false,
    }
}

/// A copy of an optional path.
pub(crate) fn maybe_path_copy(path: &Option<std::path::PathBuf>) -> (r: Option<
    std::path::PathBuf,
>)
    ensures
        same_path(r, *path),
{
    match path {
        Some(p) => Some(path_copy(p)),
        None => None,
    }
}

} // verus!
