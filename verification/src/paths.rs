//! File system paths: `std::path::PathBuf` and its way to and from URLs.

use crate::uri::url_text;
use lsp_types::Url;
use std::path::PathBuf;
use vstd::prelude::*;

verus! {

/// `std::path::PathBuf`, opaque.
#[verifier::external_type_specification]
#[verifier::external_body]
pub struct ExPathBuf(std::path::PathBuf);

/// A component of a path.
#[derive(PartialEq, Eq, Debug)]
pub enum PathPart {
    /// The name of a directory or a file.
    Name(String),
    /// A name that is not valid Unicode.
    Unreadable,
    /// A root, a drive, or a step to the same or the parent directory.
    Other,
}

/// Contents of a [`PathPart`].
pub enum PathPartView {
    Name(Seq<char>),
    Unreadable,
    Other,
}

impl View for PathPart {
    type V = PathPartView;

    open spec fn view(&self) -> PathPartView {
        match *self {
            PathPart::Name(n) => PathPartView::Name(n@),
            PathPart::Unreadable => PathPartView::Unreadable,
            PathPart::Other => PathPartView::Other,
        }
    }
}

/// Contents of a list of path components.
pub open spec fn part_views(v: Seq<PathPart>) -> Seq<PathPartView> {
    Seq::new(v.len(), |i: int| v[i]@)
}

/// The components of a path.
pub uninterp spec fn path_parts(path: PathBuf) -> Seq<PathPartView>;

/// Whether a path lies below a root, or is the root.
pub uninterp spec fn path_below(path: PathBuf, root: PathBuf) -> bool;

/// Whether the URL with the given text may stand for the given path, or for none. What a
/// URL stands for differs between platforms.
pub uninterp spec fn url_may_be_path(url: Seq<char>, path: Option<PathBuf>) -> bool;

/// Whether a path may be written as the URL with the given text, or as none. How a path is
/// written differs between platforms.
pub uninterp spec fn path_may_be_url(path: PathBuf, url: Option<Seq<char>>) -> bool;

/// `Url::to_file_path` gives the path that a `file` URL stands for, or fails.
#[verifier::external_body]
pub(crate) fn file_path(url: &Url) -> (r: Option<PathBuf>)
    ensures
        url_may_be_path(url_text(*url), r),
{
    url.to_file_path().ok()
}

/// `Url::from_file_path` writes an absolute path as a URL, or fails.
#[verifier::external_body]
pub(crate) fn file_url(path: &PathBuf) -> (r: Option<Url>)
    ensures
        match r {
            Some(u) => path_may_be_url(*path, Some(url_text(u))),
            None => path_may_be_url(*path, None),
        },
{
    Url::from_file_path(path).ok()
}

/// `Path::strip_prefix` gives the components of a path behind those of a root, if the path
/// lies below it.
#[verifier::external_body]
pub(crate) fn strip_root(path: &PathBuf, root: &PathBuf) -> (r: Option<PathBuf>)
    ensures
        r is Some == path_below(*path, *root),
        r matches Some(rel) ==> path_parts(*path) == path_parts(*root) + path_parts(rel),
{
    path.strip_prefix(root).ok().map(|p| p.to_path_buf())
}

/// `Path::components` lists the components of a path.
#[verifier::external_body]
pub(crate) fn parts_of(path: &PathBuf) -> (r: Vec<PathPart>)
    ensures
        part_views(r@) == path_parts(*path),
{
    path.components().map(|c| match c {
        std::path::Component::Normal(n) => {
            n.to_str().map_or(PathPart::Unreadable, |s| PathPart::Name(s.to_owned()))
        },
        _ => PathPart::Other,
    }).collect()
}

} // verus!
