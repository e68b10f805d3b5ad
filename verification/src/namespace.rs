//! Namespaces, taken from the places of files.
//!
//! The directories and the name of a file below the workspace root, the name without its
//! `.dlf` ending and all in lower case, are the parts of its namespace.

use crate::document::namespace_view;
use crate::lists::{lemma_present_contains, lemma_present_push, present};
use crate::paths::{
    parts_of, part_views, path_below, path_parts, strip_root, PathPart, PathPartView,
};
use crate::text::{chars_of, ends_with, pieces, slice_text, split, starts_with, texts};
use crate::uri::{path_of, url_path, url_text};
use lsp_types::Url;
use std::path::PathBuf;
use vstd::prelude::*;
use vstd::utf8::is_ascii_chars;

verus! {

// ── Parts ─────────────────────────────────────────────────────────────────────

/// Whether a character may stand in a part of a namespace.
pub open spec fn part_char(c: char) -> bool {
    ('a' <= c && c <= 'z') || ('A' <= c && c <= 'Z') || ('0' <= c && c <= '9') || c == '_'
}

/// Whether a text may be a part of a namespace.
pub open spec fn valid_part(s: Seq<char>) -> bool {
    s.len() > 0 && forall|i: int| 0 <= i < s.len() ==> part_char(#[trigger] s[i])
}

/// A file name without its `.dlf` ending.
pub open spec fn without_ending(s: Seq<char>) -> Seq<char> {
    if ".dlf"@.is_suffix_of(s) {
        s.take(s.len() - 4)
    } else {
        s
    }
}

/// An ASCII character in lower case.
pub open spec fn lower_char(c: char) -> char {
    if 'A' <= c && c <= 'Z' {
        ((c as u8 + 32) as u8) as char
    } else {
        c
    }
}

/// An ASCII text in lower case.
pub open spec fn lower(s: Seq<char>) -> Seq<char> {
    Seq::new(s.len(), |i: int| lower_char(s[i]))
}

/// What `str::to_lowercase` makes of a text.
pub uninterp spec fn lowercase(s: Seq<char>) -> Seq<char>;

/// `str::to_lowercase` puts a text in lower case; of an ASCII text it changes the letters
/// only, each to one character.
#[verifier::external_body]
pub(crate) fn to_lowercase(s: &str) -> (r: String)
    ensures
        r@ == lowercase(s@),
        is_ascii_chars(s@) ==> r@ == lower(s@),
{
    s.to_lowercase()
}

/// Whether a text may be a part of a namespace.
fn is_valid_part(s: &str) -> (r: bool)
    ensures
        r == valid_part(s@),
{
    let v = chars_of(s);
    let mut i: usize = 0;
    while i < v.len()
        invariant
            i <= v.len(),
            v@ == s@,
            forall|j: int| 0 <= j < i ==> part_char(#[trigger] v@[j]),
        decreases v.len() - i,
    {
        let c: char = v[i];
        if !(('a' <= c && c <= 'z') || ('A' <= c && c <= 'Z') || ('0' <= c && c <= '9') || c
            == '_') {
            return false;
        }
        i = i + 1;
    }
    v.len() > 0
}

/// A file name without its `.dlf` ending.
fn strip_ending(s: &str) -> (r: String)
    ensures
        r@ == without_ending(s@),
{
    if ends_with(s, ".dlf") {
        let v = chars_of(s);
        proof {
            reveal_strlit(".dlf");
            assert(v@.subrange(0, v@.len() - 4) =~= s@.take(s@.len() - 4));
        }
        slice_text(&v, 0, v.len() - 4)
    } else {
        s.to_owned()
    }
}

// ── From paths ────────────────────────────────────────────────────────────────

/// The name of a component in a namespace, if it is valid.
pub open spec fn name_part(n: Seq<char>) -> Option<Seq<char>> {
    if valid_part(n) {
        Some(lower(n))
    } else {
        None
    }
}

/// The parts for path components, if all names among them are valid.
pub open spec fn derived_parts(parts: Seq<PathPartView>) -> Option<Seq<Seq<char>>>
    decreases parts.len(),
{
    if parts.len() == 0 {
        Some(Seq::empty())
    } else {
        match derived_parts(parts.drop_last()) {
            Some(before) => match parts.last() {
                PathPartView::Name(n) => match name_part(n) {
                    Some(s) => Some(before.push(s)),
                    None => None,
                },
                PathPartView::Unreadable => None,
                PathPartView::Other => Some(before),
            },
            None => None,
        }
    }
}

/// The place of the last name among path components, -1 if there is none.
pub open spec fn last_named(parts: Seq<PathPartView>) -> int
    decreases parts.len(),
{
    if parts.len() == 0 {
        -1
    } else if parts.last() is Name {
        parts.len() - 1
    } else {
        last_named(parts.drop_last())
    }
}

/// Path components whose last name has lost its `.dlf` ending.
pub open spec fn without_last_ending(parts: Seq<PathPartView>) -> Seq<PathPartView> {
    Seq::new(
        parts.len(),
        |i: int|
            match parts[i] {
                PathPartView::Name(n) => if i == last_named(parts) {
                    PathPartView::Name(without_ending(n))
                } else {
                    PathPartView::Name(n)
                },
                p => p,
            },
    )
}

/// The namespace for the path of a file below the root.
pub open spec fn derived(parts: Seq<PathPartView>) -> Option<Seq<Seq<char>>> {
    match derived_parts(without_last_ending(parts)) {
        Some(names) => if names.len() == 0 {
            None
        } else {
            Some(names)
        },
        None => None,
    }
}

/// The namespace of a file with the given path, if it has one and lies below the root.
pub open spec fn path_namespace(path: Option<PathBuf>, root: PathBuf) -> Option<Seq<Seq<char>>> {
    match path {
        Some(p) => if path_below(p, root) {
            derived(path_parts(p).skip(path_parts(root).len() as int))
        } else {
            None
        },
        None => None,
    }
}

/// Once a name is not valid there is no namespace.
proof fn lemma_derived_none(parts: Seq<PathPartView>, i: int)
    requires
        0 <= i <= parts.len(),
        derived_parts(parts.take(i)) is None,
    ensures
        derived_parts(parts) is None,
    decreases parts.len() - i,
{
    if i == parts.len() {
        assert(parts.take(i) =~= parts);
    } else {
        assert(parts.take(i + 1).drop_last() =~= parts.take(i));
        lemma_derived_none(parts, i + 1);
    }
}

/// The place of the last name among path components, their number if there is none.
fn find_last_name(rel: &Vec<PathPart>) -> (r: usize)
    ensures
        last_named(part_views(rel@)) == if r < rel@.len() {
            r as int
        } else {
            -1
        },
{
    let ghost all = part_views(rel@);
    let mut i: usize = rel.len();
    assert(all.take(i as int) =~= all);
    while i > 0
        invariant
            i <= rel.len(),
            all == part_views(rel@),
            last_named(all) == last_named(all.take(i as int)),
        decreases i,
    {
        proof {
            assert(all.take(i as int).last() == rel@[i - 1]@);
            assert(all.take(i as int).drop_last() =~= all.take(i - 1));
        }
        i = i - 1;
        if let PathPart::Name(_) = &rel[i] {
            return i;
        }
    }
    rel.len()
}

/// The namespace for the components of a path below the root. The last name loses a `.dlf`
/// ending, and names are put in lower case; a name that is not made of ASCII letters, digits
/// and underscores gives no namespace.
pub fn derive_namespace(rel: &Vec<PathPart>) -> (r: Option<Vec<String>>)
    ensures
        namespace_view(r) == derived(part_views(rel@)),
{
    let mut parts: Vec<String> = Vec::new();
    let last: usize = find_last_name(rel);
    let ghost views = part_views(rel@);
    let ghost all = without_last_ending(views);
    let mut i: usize = 0;
    assert(texts(parts@) =~= Seq::empty());
    while i < rel.len()
        invariant
            i <= rel.len(),
            views == part_views(rel@),
            all == without_last_ending(views),
            last_named(views) == if last < rel@.len() {
                last as int
            } else {
                -1
            },
            derived_parts(all.take(i as int)) == Some(texts(parts@)),
        decreases rel.len() - i,
    {
        let ghost before = texts(parts@);
        proof {
            assert(all.take(i + 1).drop_last() =~= all.take(i as int));
            assert(all.take(i + 1).last() == all[i as int]);
            assert(views[i as int] == rel@[i as int]@);
        }
        match &rel[i] {
            PathPart::Name(name) => {
                let s = if i == last {
                    strip_ending(name.as_str())
                } else {
                    name.clone()
                };
                assert(all[i as int] == PathPartView::Name(s@));
                if !is_valid_part(s.as_str()) {
                    proof {
                        lemma_derived_none(all, i + 1);
                    }
                    return None;
                }
                proof {
                    assert(is_ascii_chars(s@)) by {
                        assert forall|k: int| 0 <= k < s@.len() implies '\0' <= #[trigger] s@[k]
                            <= '\u{7f}' by {
                            assert(part_char(s@[k]));
                        }
                    }
                }
                parts.push(to_lowercase(s.as_str()));
                assert(texts(parts@) =~= before.push(lower(s@)));
            },
            PathPart::Unreadable => {
                proof {
                    lemma_derived_none(all, i + 1);
                }
                return None;
            },
            PathPart::Other => {},
        }
        i = i + 1;
    }
    assert(all.take(all.len() as int) =~= all);
    assert(texts(parts@).len() == parts@.len());
    if parts.len() == 0 {
        None
    } else {
        Some(parts)
    }
}

/// The namespace of a file with the given path, if it has one and lies below the root.
pub fn namespace_below(path: &Option<PathBuf>, root: &PathBuf) -> (r: Option<Vec<String>>)
    ensures
        namespace_view(r) == path_namespace(*path, *root),
{
    match path {
        Some(p) => match strip_root(p, root) {
            Some(rel) => {
                proof {
                    let n = path_parts(*root).len() as int;
                    assert(path_parts(*p).skip(n) =~= path_parts(rel));
                }
                derive_namespace(&parts_of(&rel))
            },
            None => None,
        },
        None => None,
    }
}

// ── From URLs ─────────────────────────────────────────────────────────────────

/// The part of a namespace that a piece of a URL path gives, if it is valid.
pub open spec fn url_part(piece: Seq<char>) -> Option<Seq<char>> {
    let s = lowercase(without_ending(piece));
    if valid_part(s) {
        Some(s)
    } else {
        None
    }
}

/// The parts of a namespace that the pieces of a URL path give.
pub open spec fn url_parts(v: Seq<Seq<char>>) -> Seq<Option<Seq<char>>> {
    Seq::new(v.len(), |i: int| url_part(v[i]))
}

/// The namespace for a relative URL path: its valid pieces, if there are any.
pub open spec fn url_namespace(rel: Seq<char>) -> Option<Seq<Seq<char>>> {
    let parts = present(url_parts(pieces(rel, '/')));
    if rel.len() == 0 || parts.len() == 0 {
        None
    } else {
        Some(parts)
    }
}

/// A text without slashes at its start.
pub open spec fn without_leading_slashes(s: Seq<char>) -> Seq<char>
    decreases s.len(),
{
    if s.len() > 0 && s[0] == '/' {
        without_leading_slashes(s.drop_first())
    } else {
        s
    }
}

/// A text without slashes at its end.
pub open spec fn without_trailing_slashes(s: Seq<char>) -> Seq<char>
    decreases s.len(),
{
    if s.len() > 0 && s.last() == '/' {
        without_trailing_slashes(s.drop_last())
    } else {
        s
    }
}

/// The namespace of the file with URL path `file` below the root with URL path `root`.
pub open spec fn namespace_under(root: Seq<char>, file: Seq<char>) -> Option<Seq<Seq<char>>> {
    let base = without_trailing_slashes(root);
    if base.is_prefix_of(file) {
        url_namespace(without_leading_slashes(file.skip(base.len() as int)))
    } else {
        None
    }
}

/// A text without slashes at its start.
fn trim_leading_slashes(s: &str) -> (r: String)
    ensures
        r@ == without_leading_slashes(s@),
{
    let v = chars_of(s);
    let mut i: usize = 0;
    assert(v@.skip(0) =~= v@);
    while i < v.len() && v[i] == '/'
        invariant
            i <= v.len(),
            v@ == s@,
            without_leading_slashes(s@) == without_leading_slashes(v@.skip(i as int)),
        decreases v.len() - i,
    {
        proof {
            assert(v@.skip(i as int).drop_first() =~= v@.skip(i + 1));
        }
        i = i + 1;
    }
    proof {
        assert(v@.subrange(i as int, v@.len() as int) =~= v@.skip(i as int));
    }
    slice_text(&v, i, v.len())
}

/// A text without slashes at its end.
fn trim_trailing_slashes(s: &str) -> (r: String)
    ensures
        r@ == without_trailing_slashes(s@),
{
    let v = chars_of(s);
    let mut i: usize = v.len();
    assert(v@.take(i as int) =~= v@);
    while i > 0 && v[i - 1] == '/'
        invariant
            i <= v.len(),
            v@ == s@,
            without_trailing_slashes(s@) == without_trailing_slashes(v@.take(i as int)),
        decreases i,
    {
        proof {
            assert(v@.take(i as int).drop_last() =~= v@.take(i - 1));
        }
        i = i - 1;
    }
    proof {
        assert(v@.subrange(0, i as int) =~= v@.take(i as int));
    }
    slice_text(&v, 0, i)
}

/// The namespace for a relative URL path: its valid pieces, without `.dlf` endings and in
/// lower case, if there are any.
pub fn namespace_of_url_path(rel: &str) -> (r: Option<Vec<String>>)
    ensures
        namespace_view(r) == url_namespace(rel@),
{
    if rel.is_empty() {
        return None;
    }
    let split_path = split(rel, '/');
    let mut parts: Vec<String> = Vec::new();
    let ghost all = url_parts(texts(split_path@));
    let mut i: usize = 0;
    assert(texts(parts@) =~= present(all.take(0)));
    while i < split_path.len()
        invariant
            i <= split_path.len(),
            all == url_parts(texts(split_path@)),
            texts(parts@) == present(all.take(i as int)),
        decreases split_path.len() - i,
    {
        let ghost before = texts(parts@);
        proof {
            assert(all.take(i + 1) =~= all.take(i as int).push(all[i as int]));
            lemma_present_push(all.take(i as int), all[i as int]);
        }
        let s = to_lowercase(strip_ending(split_path[i].as_str()).as_str());
        if is_valid_part(s.as_str()) {
            parts.push(s);
            assert(texts(parts@) =~= before.push(s@));
        }
        i = i + 1;
    }
    assert(all.take(all.len() as int) =~= all);
    assert(texts(parts@).len() == parts@.len());
    if parts.len() == 0 {
        None
    } else {
        Some(parts)
    }
}

/// The namespace of a file below a root, both given by URL.
pub fn namespace_relative_to_root(root: &Url, file: &Url) -> (r: Option<Vec<String>>)
    ensures
        namespace_view(r) == namespace_under(
            url_path(url_text(*root)),
            url_path(url_text(*file)),
        ),
{
    let base = trim_trailing_slashes(path_of(root));
    let path = path_of(file);
    if !starts_with(path, base.as_str()) {
        return None;
    }
    let v = chars_of(path);
    let n: usize = chars_of(base.as_str()).len();
    let rest = slice_text(&v, n, v.len());
    proof {
        assert(v@.subrange(n as int, v@.len() as int) =~= path@.skip(n as int));
    }
    namespace_of_url_path(trim_leading_slashes(rest.as_str()).as_str())
}

/// The namespace of a file from its URL alone, for when no root is known.
pub fn namespace_from_uri_path(uri: &Url) -> (r: Option<Vec<String>>)
    ensures
        namespace_view(r) == url_namespace(
            without_leading_slashes(url_path(url_text(*uri))),
        ),
{
    namespace_of_url_path(trim_leading_slashes(path_of(uri)).as_str())
}

// ── Laws ──────────────────────────────────────────────────────────────────────

/// Whether a text is a part of a namespace in lower case.
pub open spec fn lower_part(s: Seq<char>) -> bool {
    valid_part(s) && forall|i: int| 0 <= i < s.len() ==> !('A' <= #[trigger] s[i] && s[i] <= 'Z')
}

/// A namespace that is derived from a path has at least one part, and each part is made of
/// lower case ASCII letters, digits and underscores.
pub proof fn law_derived_is_valid(parts: Seq<PathPartView>)
    ensures
        derived(parts) matches Some(ns) ==> ns.len() > 0 && forall|i: int|
            0 <= i < ns.len() ==> lower_part(#[trigger] ns[i]),
{
    lemma_derived_parts_valid(without_last_ending(parts));
}

/// Each part derived from a path is valid and in lower case.
proof fn lemma_derived_parts_valid(parts: Seq<PathPartView>)
    ensures
        derived_parts(parts) matches Some(ns) ==> forall|i: int|
            0 <= i < ns.len() ==> lower_part(#[trigger] ns[i]),
    decreases parts.len(),
{
    if parts.len() > 0 {
        lemma_derived_parts_valid(parts.drop_last());
        if derived_parts(parts) is Some {
            if let PathPartView::Name(n) = parts.last() {
                let l = lower(n);
                assert forall|i: int| 0 <= i < l.len() implies part_char(#[trigger] l[i]) && !('A'
                    <= l[i] && l[i] <= 'Z') by {
                    assert(part_char(n[i]));
                }
                assert(lower_part(l));
            }
        }
    }
}

/// A namespace that is taken from a URL path has at least one part, and each part is made of
/// ASCII letters, digits and underscores.
pub proof fn law_url_namespace_is_valid(rel: Seq<char>)
    ensures
        url_namespace(rel) matches Some(ns) ==> ns.len() > 0 && forall|i: int|
            0 <= i < ns.len() ==> valid_part(#[trigger] ns[i]),
{
    if let Some(ns) = url_namespace(rel) {
        let all = url_parts(pieces(rel, '/'));
        assert forall|i: int| 0 <= i < ns.len() implies valid_part(#[trigger] ns[i]) by {
            lemma_present_contains(all, ns[i]);
            assert(ns.contains(ns[i]));
            let k = choose|k: int| 0 <= k < all.len() && all[k] == Some(ns[i]);
            assert(url_part(pieces(rel, '/')[k]) == Some(ns[i]));
        }
    }
}

} // verus!
