//! Document identifiers: `lsp_types::Url`.

use lsp_types::Url;
use vstd::prelude::*;

verus! {

/// `lsp_types::Url` (the `url` crate's type), opaque.
#[verifier::external_type_specification]
#[verifier::external_body]
pub struct ExUrl(lsp_types::Url);

/// The serialization of a URL.
pub uninterp spec fn url_text(url: Url) -> Seq<char>;

/// The path component of the URL with the given serialization.
pub uninterp spec fn url_path(url: Seq<char>) -> Seq<char>;

/// The serialization of the absolute URL that the text denotes, if it denotes one.
pub uninterp spec fn url_parse(text: Seq<char>) -> Option<Seq<char>>;

/// `Url::as_str` is the stored serialization.
#[verifier::external_body]
pub(crate) fn url_str(url: &Url) -> (r: &str)
    ensures
        r@ == url_text(*url),
{
    url.as_str()
}

/// `Url::path` is a slice of the serialization, fixed by it.
#[verifier::external_body]
pub(crate) fn path_of(url: &Url) -> (r: &str)
    ensures
        r@ == url_path(url_text(*url)),
{
    url.path()
}

/// `Url::parse` reads an absolute URL, or fails.
#[verifier::external_body]
pub(crate) fn parse_url(text: &str) -> (r: Option<Url>)
    ensures
        match r {
            Some(u) => url_parse(text@) == Some(url_text(u)),
            None => url_parse(text@) is None,
        },
{
    Url::parse(text).ok()
}

/// Cloning a URL keeps its serialization.
pub assume_specification[ <lsp_types::Url as Clone>::clone ](url: &lsp_types::Url) -> (r:
    lsp_types::Url)
    ensures
        url_text(r) == url_text(*url),
;

} // verus!
