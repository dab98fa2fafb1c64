//! Paths of the file system, as the standard library takes them apart.

use vstd::prelude::*;

verus! {

/// A path of the file system.
#[verifier::external_type_specification]
#[verifier::external_body]
pub struct ExPathBuf(std::path::PathBuf);

/// The extension of a path's file name, where it is text.
pub uninterp spec fn path_extension(path: std::path::PathBuf) -> Option<Seq<char>>;

/// The path without its last component.
pub uninterp spec fn path_parent(path: std::path::PathBuf) -> Option<std::path::PathBuf>;

/// The path with a relative path below it.
pub uninterp spec fn path_join(path: std::path::PathBuf, part: Seq<char>) -> std::path::PathBuf;

/// The extension of a path's file name, from `Path::extension`, where it is text.
/// The result depends on the path alone.
#[verifier::external_body]
pub(crate) fn extension(path: &std::path::PathBuf) -> (extension: Option<&str>)
    ensures
        (match extension {
            Some(extension) => Some(extension@),
            None => None,
        }) == path_extension(*path),
{
    path.extension().and_then(|extension| extension.to_str())
}

/// The path without its last component, from `Path::parent`. The result depends
/// on the path alone.
#[verifier::external_body]
pub(crate) fn parent(path: &std::path::PathBuf) -> (parent: Option<std::path::PathBuf>)
    ensures
        parent == path_parent(*path),
{
    path.parent().map(|parent| parent.to_path_buf())
}

/// The path with a part below it, from `Path::join`. The result depends on the
/// path and the part alone.
#[verifier::external_body]
pub(crate) fn join(path: &std::path::PathBuf, part: &str) -> (joined: std::path::PathBuf)
    ensures
        joined == path_join(*path, part@),
{
    path.join(part)
}

/// The path that a text writes out.
pub uninterp spec fn path_from(text: Seq<char>) -> std::path::PathBuf;

/// The path that a text writes out, from `PathBuf::from`. The result depends on the
/// text alone.
#[verifier::external_body]
pub(crate) fn path_of(text: &str) -> (path: std::path::PathBuf)
    ensures
        path == path_from(text@),
{
    std::path::PathBuf::from(text)
}

/// The path's file name without its extension, where it is text.
pub uninterp spec fn path_stem(path: std::path::PathBuf) -> Option<Seq<char>>;

/// Whether a path does not depend on the working directory.
pub uninterp spec fn path_is_absolute(path: std::path::PathBuf) -> bool;

/// The path's file name without its extension, from `Path::file_stem`, where it is
/// text. The result depends on the path alone.
#[verifier::external_body]
pub(crate) fn stem(path: &std::path::PathBuf) -> (stem: Option<&str>)
    ensures
        (match stem {
            Some(stem) => Some(stem@),
            None => None,
        }) == path_stem(*path),
{
    path.file_stem().and_then(|stem| stem.to_str())
}

/// Whether a path is absolute, from `Path::is_absolute`. The result depends on the
/// path alone.
#[verifier::external_body]
pub(crate) fn is_absolute(path: &std::path::PathBuf) -> (answer: bool)
    ensures
        answer == path_is_absolute(*path),
{
    path.is_absolute()
}

} // verus!
