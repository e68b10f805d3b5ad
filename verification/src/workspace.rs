//! The model of a workspace: its documents, background files and symbol index, and what
//! each operation makes of them.

use crate::ast::FileTreeView;
use crate::checks::{all_loose, analysis_outcome, lint_outcome, made_of};
use crate::document::DocumentView;
use crate::index::{declared, law_with_merged, law_without_merged, symbols_of, IndexView};
use crate::keyed::{
    distinct, get, has_key, key_at, lemma_place, lemma_put, lemma_without, place, put, without,
    Keyed,
};
use crate::lists::{lemma_present_contains, lemma_present_from, lemma_present_order, present};
use crate::namespace::{namespace_under, path_namespace, url_namespace, without_leading_slashes};
use crate::parsing::{
    leading_in, manifest_of, manifest_parse, manifest_parser_returns, no_comments, ontology_parse,
    parser_returns,
};
use crate::paths::{path_may_be_url, url_may_be_path};
use crate::places::places_in;
use crate::types::SourceSpan;
use crate::uri::url_path;
use rowl::ast::OntologyFile;
use std::path::PathBuf;
use vstd::prelude::*;

verus! {

/// Where the server runs.
#[derive(Clone, Copy, PartialEq, Eq, Debug, Structural)]
pub enum Host {
    /// With a file system: files that are not open are read from it.
    Native,
    /// Without one: the client provides the files that are not open.
    Web,
}

/// A file that is known but not open: its namespace, its syntax tree and the places of the
/// names of its rules.
pub struct BackgroundView {
    pub namespace: Seq<Seq<char>>,
    pub tree: OntologyFile,
    pub places: Seq<SourceSpan>,
}

/// The contents of a workspace. Documents and background files stand under the texts of
/// their identifiers.
pub struct WorldView {
    pub docs: Keyed<DocumentView>,
    pub background: Keyed<BackgroundView>,
    pub index: IndexView,
    pub host: Host,
    pub root: Option<PathBuf>,
    pub web_root: Option<Seq<char>>,
}

// ── Documents ─────────────────────────────────────────────────────────────────

/// Whether a URL is that of a package manifest.
pub open spec fn is_manifest(uri: Seq<char>) -> bool {
    "/package.dlf"@.is_suffix_of(url_path(uri)) || url_path(uri) == "package.dlf"@
}

/// Whether a text can be taken in as that of a document: its parser comes back from it.
pub open spec fn legible(uri: Seq<char>, text: Seq<char>) -> bool {
    if is_manifest(uri) {
        manifest_parser_returns(text)
    } else {
        parser_returns(text)
    }
}

/// Whether a file on disk can be read again in `w`: where its text counts, the parser comes
/// back from it. It does not count for manifests and open documents.
pub open spec fn reloadable(w: WorldView, uri: Seq<char>, on_disk: Option<Seq<char>>) -> bool {
    on_disk matches Some(text) ==> is_manifest(uri) || has_key(w.docs, uri) || parser_returns(text)
}

/// Whether a document can be closed in `w`: where its text on disk counts, the parser comes
/// back from it. It does not count for manifests and on the web.
pub open spec fn closable(w: WorldView, uri: Seq<char>, on_disk: Option<Seq<char>>) -> bool {
    on_disk matches Some(text) ==> is_manifest(uri) || w.host == Host::Web || parser_returns(text)
}

/// Whether the parser comes back from all texts that a search found.
pub open spec fn all_scannable(files: Option<Seq<DiscoveredView>>) -> bool {
    files matches Some(v) ==> forall|i: int|
        0 <= i < v.len() ==> ((#[trigger] v[i]).source matches Some(text) ==> parser_returns(text))
}

/// Whether the files that a search found can be taken in: where the text of one may count,
/// the parser comes back from it. It does not count for open documents and for files without
/// a URL.
pub open spec fn scannable(w: WorldView, files: Option<Seq<DiscoveredView>>) -> bool {
    files matches Some(v) ==> forall|i: int, u: Seq<char>|
        0 <= i < v.len() && #[trigger] path_may_be_url(v[i].path, Some(u)) && !has_key(w.docs, u)
            ==> (v[i].source matches Some(text) ==> parser_returns(text))
}

/// Whether provided files can be taken in: where the text of one counts, the parser comes
/// back from it. It does not count for open documents and for files without a namespace.
pub open spec fn providable(w: WorldView, root: Seq<char>, files: Keyed<Seq<char>>) -> bool {
    forall|i: int|
        0 <= i < files.len() ==> {
            ||| has_key(w.docs, (#[trigger] files[i]).0)
            ||| namespace_under(url_path(root), url_path(files[i].0)) is None
            ||| parser_returns(files[i].1)
        }
}

/// A document that has not been analysed yet.
pub open spec fn fresh_document(
    uri: Seq<char>,
    text: Seq<char>,
    namespace: Option<Seq<Seq<char>>>,
) -> DocumentView {
    if is_manifest(uri) {
        DocumentView {
            text,
            parse: manifest_parse(text),
            analysis: None,
            lint: Seq::empty(),
            package: manifest_of(text),
            namespace,
            comments: no_comments(),
        }
    } else {
        DocumentView {
            text,
            parse: ontology_parse(text),
            analysis: None,
            lint: Seq::empty(),
            package: None,
            namespace,
            comments: leading_in(text),
        }
    }
}

/// A document apart from its analysis and its lint findings.
pub open spec fn bare_doc(d: DocumentView) -> DocumentView {
    DocumentView { analysis: None, lint: Seq::empty(), ..d }
}

/// Documents apart from their analyses and lint findings.
pub open spec fn bare_docs(docs: Keyed<DocumentView>) -> Keyed<DocumentView> {
    Seq::new(docs.len(), |i: int| (docs[i].0, bare_doc(docs[i].1)))
}

/// A workspace apart from the analyses and lint findings of its documents.
pub open spec fn bare(w: WorldView) -> WorldView {
    WorldView { docs: bare_docs(w.docs), ..w }
}

/// Whether a file may have the given namespace. On a native host that rests on the path
/// that its URL stands for.
pub open spec fn namespace_may_be(
    w: WorldView,
    uri: Seq<char>,
    namespace: Option<Seq<Seq<char>>>,
) -> bool {
    match w.host {
        Host::Native => disk_namespace_may_be(w.root, uri, namespace),
        Host::Web => namespace == match w.web_root {
            Some(root) => namespace_under(url_path(root), url_path(uri)),
            None => url_namespace(without_leading_slashes(url_path(uri))),
        },
    }
}

/// Whether a URL is a file URL.
pub open spec fn is_file(uri: Seq<char>) -> bool {
    "file:"@.is_prefix_of(uri)
}

/// Whether a file may have the given namespace below the root directory. Only file URLs have
/// one.
pub open spec fn disk_namespace_may_be(
    root: Option<PathBuf>,
    uri: Seq<char>,
    namespace: Option<Seq<Seq<char>>>,
) -> bool {
    match root {
        Some(root) => if is_file(uri) {
            exists|path: Option<PathBuf>| #[trigger]
                url_may_be_path(uri, path) && namespace == path_namespace(path, root)
        } else {
            namespace is None
        },
        None => namespace is None,
    }
}

// ── Package knowledge ─────────────────────────────────────────────────────────

/// For each document, its namespace and syntax tree, if it has both.
pub open spec fn named_docs(docs: Keyed<DocumentView>) -> Seq<
    Option<(Seq<Seq<char>>, OntologyFile)>,
> {
    Seq::new(
        docs.len(),
        |i: int|
            match (docs[i].1.namespace, docs[i].1.parse.tree) {
                (Some(n), Some(t)) => Some((n, t)),
                _ => None,
            },
    )
}

/// The namespaces and syntax trees of background files.
pub open spec fn named_background(v: Keyed<BackgroundView>) -> Seq<
    (Seq<Seq<char>>, OntologyFile),
> {
    Seq::new(v.len(), |i: int| (v[i].1.namespace, v[i].1.tree))
}

/// The files that the lint rules know about: documents, then background files.
pub open spec fn package_files(w: WorldView) -> Seq<(Seq<Seq<char>>, OntologyFile)> {
    present(named_docs(w.docs)) + named_background(w.background)
}

/// The syntax trees of the documents.
pub open spec fn doc_trees(docs: Keyed<DocumentView>) -> Map<Seq<char>, OntologyFile>
    decreases docs.len(),
{
    if docs.len() == 0 {
        Map::empty()
    } else {
        let before = doc_trees(docs.drop_last());
        match docs.last().1.parse.tree {
            Some(t) => before.insert(docs.last().0, t),
            None => before,
        }
    }
}

// ── Known files ───────────────────────────────────────────────────────────────

/// The background files.
pub open spec fn background_files(v: Keyed<BackgroundView>) -> Seq<FileTreeView> {
    Seq::new(v.len(), |i: int| FileTreeView { key: v[i].0, tree: v[i].1.tree, places: v[i].1.places })
}

/// For each document, its file, if it has a syntax tree.
pub open spec fn doc_files(docs: Keyed<DocumentView>) -> Seq<Option<FileTreeView>> {
    Seq::new(
        docs.len(),
        |i: int|
            match docs[i].1.parse.tree {
                Some(tree) => Some(
                    FileTreeView { key: docs[i].0, tree, places: places_in(docs[i].1.text) },
                ),
                None => None,
            },
    )
}

/// All known files: those in the background, then the open ones that have a syntax tree.
pub open spec fn known_files(w: WorldView) -> Seq<FileTreeView> {
    background_files(w.background) + present(doc_files(w.docs))
}

// ── Invariant ─────────────────────────────────────────────────────────────────

/// Whether a document is what its text gives.
pub open spec fn doc_follows_text(uri: Seq<char>, d: DocumentView) -> bool {
    legible(uri, d.text) && bare_doc(d) == fresh_document(uri, d.text, d.namespace)
}

/// Whether the index holds exactly the symbols of an open document, none if it has no
/// syntax tree.
pub open spec fn doc_indexed(index: IndexView, uri: Seq<char>, d: DocumentView) -> bool {
    match d.parse.tree {
        Some(f) => index.files.contains_key(uri) && index.files[uri] == symbols_of(uri, f),
        None => !index.files.contains_key(uri) && d.analysis is None && d.lint.len() == 0,
    }
}

/// Whether a document with a syntax tree has been analysed and linted against the whole
/// workspace as it is.
pub open spec fn doc_settled(w: WorldView, uri: Seq<char>, d: DocumentView) -> bool {
    match d.parse.tree {
        Some(f) => {
            &&& d.analysis matches Some(a) && a.index == w.index && made_of(
                a.problems,
                analysis_outcome(f, w.index.symbols),
            )
            &&& all_loose(d.lint) == lint_outcome(
                f,
                d.text,
                uri,
                package_files(w),
                doc_trees(w.docs),
            )
        },
        None => true,
    }
}

/// The parts of the invariant that hold before documents are analysed again: identifiers
/// are distinct, documents follow their texts, and the index is in step with documents and
/// with the background files that are not open.
pub open spec fn in_step(w: WorldView) -> bool {
    &&& distinct(w.docs)
    &&& distinct(w.background)
    &&& w.index.merged()
    &&& forall|i: int|
        0 <= i < w.docs.len() ==> doc_follows_text((#[trigger] w.docs[i]).0, w.docs[i].1)
    &&& forall|i: int|
        0 <= i < w.docs.len() ==> doc_indexed(w.index, (#[trigger] w.docs[i]).0, w.docs[i].1)
    &&& forall|i: int|
        0 <= i < w.background.len() ==> background_indexed(w, (#[trigger] w.background[i]).0, w.background[i].1)
}

/// Whether the index holds exactly the symbols of a background file, unless it is open.
pub open spec fn background_indexed(w: WorldView, key: Seq<char>, b: BackgroundView) -> bool {
    has_key(w.docs, key) || (w.index.files.contains_key(key) && w.index.files[key] == symbols_of(
        key,
        b.tree,
    ))
}

/// The invariant of a workspace: it is in step and every document is settled.
pub open spec fn consistent(w: WorldView) -> bool {
    &&& in_step(w)
    &&& forall|i: int|
        0 <= i < w.docs.len() ==> doc_settled(w, (#[trigger] w.docs[i]).0, w.docs[i].1)
}

// ── Operations ────────────────────────────────────────────────────────────────

/// The workspace without files.
pub open spec fn empty_world(host: Host) -> WorldView {
    WorldView {
        docs: Seq::empty(),
        background: Seq::empty(),
        index: IndexView::empty(),
        host,
        root: None,
        web_root: None,
    }
}

/// The index with the symbols of a document, or without the file if it has no syntax tree.
pub open spec fn reindexed(index: IndexView, uri: Seq<char>, d: DocumentView) -> IndexView {
    match d.parse.tree {
        Some(f) => index.with(uri, symbols_of(uri, f)),
        None => index.without(uri),
    }
}

/// The workspace after the text of a document has changed.
pub open spec fn updated(
    w: WorldView,
    uri: Seq<char>,
    text: Seq<char>,
    namespace: Option<Seq<Seq<char>>>,
) -> WorldView {
    let d = fresh_document(uri, text, namespace);
    WorldView { docs: put(w.docs, uri, d), index: reindexed(w.index, uri, d), ..w }
}

/// The workspace after a document has been opened: it is no background file any more.
pub open spec fn opened(
    w: WorldView,
    uri: Seq<char>,
    text: Seq<char>,
    namespace: Option<Seq<Seq<char>>>,
) -> WorldView {
    updated(
        WorldView { background: without(w.background, uri), ..w },
        uri,
        text,
        namespace,
    )
}

/// The workspace with a background file.
pub open spec fn with_background(w: WorldView, key: Seq<char>, b: BackgroundView) -> WorldView {
    WorldView {
        background: put(w.background, key, b),
        index: w.index.with(key, symbols_of(key, b.tree)),
        ..w
    }
}

/// The workspace with background files, one after the other.
pub open spec fn with_backgrounds(w: WorldView, v: Keyed<BackgroundView>) -> WorldView
    decreases v.len(),
{
    if v.len() == 0 {
        w
    } else {
        with_background(with_backgrounds(w, v.drop_last()), v.last().0, v.last().1)
    }
}

/// The workspace without a file.
pub open spec fn removed(w: WorldView, key: Seq<char>) -> WorldView {
    WorldView {
        background: without(w.background, key),
        index: w.index.without(key),
        ..w
    }
}

/// The workspace after a document has been closed. It becomes the background file
/// `restored`, if there is one.
pub open spec fn closed(w: WorldView, uri: Seq<char>, restored: Option<BackgroundView>)
    -> WorldView {
    let base = WorldView {
        docs: without(w.docs, uri),
        index: w.index.without(uri),
        ..w
    };
    match restored {
        Some(b) => with_background(base, uri, b),
        None => WorldView { background: without(w.background, uri), ..base },
    }
}

/// The background file that a text gives, if it has a namespace and can be parsed.
pub open spec fn background_of(text: Option<Seq<char>>, namespace: Option<Seq<Seq<char>>>)
    -> Option<BackgroundView> {
    match (text, namespace) {
        (Some(t), Some(namespace)) => match ontology_parse(t).tree {
            Some(tree) => Some(BackgroundView { namespace, tree, places: places_in(t) }),
            None => None,
        },
        _ => None,
    }
}

/// The background file that an open document leaves behind, if it has a namespace and a
/// syntax tree.
pub open spec fn left_behind(d: Option<DocumentView>) -> Option<BackgroundView> {
    match d {
        Some(d) => match (d.namespace, d.parse.tree) {
            (Some(namespace), Some(tree)) => Some(
                BackgroundView { namespace, tree, places: places_in(d.text) },
            ),
            _ => None,
        },
        None => None,
    }
}

/// The workspace after a file that is not open has changed on disk. One that gives no
/// background file any more keeps its symbols in the index.
pub open spec fn reloaded(
    w: WorldView,
    key: Seq<char>,
    text: Seq<char>,
    namespace: Option<Seq<Seq<char>>>,
) -> WorldView {
    match background_of(Some(text), namespace) {
        Some(b) => with_background(w, key, b),
        None => WorldView { background: without(w.background, key), ..w },
    }
}

/// The background file that a closed document becomes, if it becomes one. On a native host
/// that is what stands on disk, else what the document was. Manifests never do.
pub open spec fn restored(
    w: WorldView,
    uri: Seq<char>,
    on_disk: Option<Seq<char>>,
    namespace: Option<Seq<Seq<char>>>,
) -> Option<BackgroundView> {
    if is_manifest(uri) {
        None
    } else {
        match w.host {
            Host::Native => background_of(on_disk, namespace),
            Host::Web => left_behind(get(w.docs, uri)),
        }
    }
}

/// A file that was found on disk: its path, its namespace and its text, if it could be
/// read.
pub struct DiscoveredView {
    pub path: PathBuf,
    pub namespace: Seq<Seq<char>>,
    pub source: Option<Seq<char>>,
}

/// The background file that a discovered file with the given URL gives. A file that is
/// open gives none.
pub open spec fn scan_entry(docs: Keyed<DocumentView>, file: DiscoveredView, url: Option<Seq<char>>)
    -> Option<(Seq<char>, BackgroundView)> {
    match url {
        Some(u) => if has_key(docs, u) {
            None
        } else {
            match background_of(file.source, Some(file.namespace)) {
                Some(b) => Some((u, b)),
                None => None,
            }
        },
        None => None,
    }
}

/// The background files that discovered files with the given URLs give.
pub open spec fn scan_entries(
    docs: Keyed<DocumentView>,
    files: Seq<DiscoveredView>,
    urls: Seq<Option<Seq<char>>>,
) -> Seq<Option<(Seq<char>, BackgroundView)>> {
    Seq::new(files.len(), |i: int| scan_entry(docs, files[i], urls[i]))
}

/// Whether discovered files may have the given URLs.
pub open spec fn urls_may_be(files: Seq<DiscoveredView>, urls: Seq<Option<Seq<char>>>) -> bool {
    &&& urls.len() == files.len()
    &&& forall|i: int| 0 <= i < files.len() ==> path_may_be_url(files[i].path, #[trigger] urls[i])
}

/// The background file that a provided text gives. A file that is open gives none, and so
/// does one without a namespace below the root.
pub open spec fn provided_entry(
    docs: Keyed<DocumentView>,
    root: Seq<char>,
    uri: Seq<char>,
    text: Seq<char>,
) -> Option<(Seq<char>, BackgroundView)> {
    if has_key(docs, uri) {
        None
    } else {
        match background_of(Some(text), namespace_under(url_path(root), url_path(uri))) {
            Some(b) => Some((uri, b)),
            None => None,
        }
    }
}

/// The background files that provided texts give.
pub open spec fn provided_entries(
    docs: Keyed<DocumentView>,
    root: Seq<char>,
    files: Keyed<Seq<char>>,
) -> Seq<Option<(Seq<char>, BackgroundView)>> {
    Seq::new(files.len(), |i: int| provided_entry(docs, root, files[i].0, files[i].1))
}

/// The workspace after the client has provided background files.
pub open spec fn provided(w: WorldView, root: Seq<char>, files: Keyed<Seq<char>>) -> WorldView {
    let base = WorldView {
        web_root: match w.host {
            Host::Native => w.web_root,
            Host::Web => Some(root),
        },
        ..w
    };
    with_backgrounds(base, present(provided_entries(w.docs, root, files)))
}

// ── Outcomes of operations ────────────────────────────────────────────────────

/// Whether `v` may come of opening a document in `w`. Analyses and lint findings aside,
/// only the namespace may differ from one outcome to another.
pub open spec fn may_open(w: WorldView, uri: Seq<char>, text: Seq<char>, v: WorldView) -> bool {
    exists|ns: Option<Seq<Seq<char>>>| #[trigger]
        namespace_may_be(w, uri, ns) && bare(v) == bare(opened(w, uri, text, ns))
}

/// Whether `v` may come of changing the text of a document in `w`.
pub open spec fn may_update(w: WorldView, uri: Seq<char>, text: Seq<char>, v: WorldView) -> bool {
    exists|ns: Option<Seq<Seq<char>>>| #[trigger]
        namespace_may_be(w, uri, ns) && bare(v) == bare(updated(w, uri, text, ns))
}

/// Whether `v` may come of closing a document in `w` that has the text `on_disk` on disk.
pub open spec fn may_close(
    w: WorldView,
    uri: Seq<char>,
    on_disk: Option<Seq<char>>,
    v: WorldView,
) -> bool {
    exists|ns: Option<Seq<Seq<char>>>| #[trigger]
        disk_namespace_may_be(w.root, uri, ns) && bare(v) == bare(
            closed(w, uri, restored(w, uri, on_disk, ns)),
        )
}

/// Whether `v` may come of a search below `root` in `w`: a search that failed changes the
/// root only.
pub open spec fn may_scan(
    w: WorldView,
    root: PathBuf,
    files: Option<Seq<DiscoveredView>>,
    v: WorldView,
) -> bool {
    let base = WorldView { root: Some(root), ..w };
    match files {
        Some(files) => exists|urls: Seq<Option<Seq<char>>>| #[trigger]
            urls_may_be(files, urls) && bare(v) == bare(
                with_backgrounds(base, present(scan_entries(w.docs, files, urls))),
            ),
        None => v == base,
    }
}

/// Whether `v` may come of reading a file again in `w` that has the text `on_disk` on disk.
/// Manifests, open documents and files that cannot be read are left alone.
pub open spec fn may_reload(
    w: WorldView,
    uri: Seq<char>,
    on_disk: Option<Seq<char>>,
    v: WorldView,
) -> bool {
    if is_manifest(uri) || has_key(w.docs, uri) || on_disk is None {
        v == w
    } else {
        exists|ns: Option<Seq<Seq<char>>>| #[trigger]
            disk_namespace_may_be(w.root, uri, ns) && bare(v) == bare(
                reloaded(w, uri, on_disk->0, ns),
            )
    }
}

/// Whether `v` may come of deleting a file in `w`. Open documents are left alone.
pub open spec fn may_remove(w: WorldView, uri: Seq<char>, v: WorldView) -> bool {
    if has_key(w.docs, uri) {
        v == w
    } else {
        bare(v) == bare(removed(w, uri))
    }
}

// ── The invariant is kept ─────────────────────────────────────────────────────

/// Changing the text of a document keeps the workspace in step.
pub proof fn law_update_in_step(
    w: WorldView,
    uri: Seq<char>,
    text: Seq<char>,
    namespace: Option<Seq<Seq<char>>>,
)
    requires
        in_step(w),
        legible(uri, text),
    ensures
        in_step(updated(w, uri, text, namespace)),
{
    let d = fresh_document(uri, text, namespace);
    let v = updated(w, uri, text, namespace);
    lemma_put(w.docs, uri, d);
    match d.parse.tree {
        Some(f) => law_with_merged(w.index, uri, symbols_of(uri, f)),
        None => law_without_merged(w.index, uri),
    }
    assert forall|i: int| 0 <= i < v.docs.len() implies doc_follows_text(
        (#[trigger] v.docs[i]).0,
        v.docs[i].1,
    ) && doc_indexed(v.index, v.docs[i].0, v.docs[i].1) by {
        let k = v.docs[i].0;
        lemma_place(v.docs, i);
        if k != uri {
            assert(get(v.docs, k) == get(w.docs, k));
            let j = place(w.docs, k);
            assert(key_at(w.docs, j, k));
            assert(w.docs[j].1 == v.docs[i].1);
        } else {
            assert(get(v.docs, k) == Some(d));
            assert(bare_doc(d) == d);
        }
    }
    assert forall|i: int| 0 <= i < v.background.len() implies background_indexed(
        v,
        (#[trigger] v.background[i]).0,
        v.background[i].1,
    ) by {
        let k = v.background[i].0;
        assert(background_indexed(w, w.background[i].0, w.background[i].1));
        assert(has_key(v.docs, k) <==> k == uri || has_key(w.docs, k));
    }
}

/// Forgetting a background entry keeps the workspace in step.
pub proof fn law_forget_in_step(w: WorldView, key: Seq<char>)
    requires
        in_step(w),
    ensures
        in_step(WorldView { background: without(w.background, key), ..w }),
{
    let v = WorldView { background: without(w.background, key), ..w };
    lemma_without(w.background, key);
    assert forall|i: int| 0 <= i < v.background.len() implies background_indexed(
        v,
        (#[trigger] v.background[i]).0,
        v.background[i].1,
    ) by {
        let k = v.background[i].0;
        lemma_place(v.background, i);
        assert(get(v.background, k) == get(w.background, k));
        let j = place(w.background, k);
        assert(key_at(w.background, j, k));
        assert(background_indexed(w, w.background[j].0, w.background[j].1));
    }
}

/// Opening a document keeps the workspace in step.
pub proof fn law_open_in_step(
    w: WorldView,
    uri: Seq<char>,
    text: Seq<char>,
    namespace: Option<Seq<Seq<char>>>,
)
    requires
        in_step(w),
        legible(uri, text),
    ensures
        in_step(opened(w, uri, text, namespace)),
{
    law_forget_in_step(w, uri);
    law_update_in_step(
        WorldView { background: without(w.background, uri), ..w },
        uri,
        text,
        namespace,
    );
}

/// Adding a background file that is not open keeps the workspace in step.
pub proof fn law_background_in_step(w: WorldView, key: Seq<char>, b: BackgroundView)
    requires
        in_step(w),
        !has_key(w.docs, key),
    ensures
        in_step(with_background(w, key, b)),
{
    let v = with_background(w, key, b);
    lemma_put(w.background, key, b);
    law_with_merged(w.index, key, symbols_of(key, b.tree));
    assert forall|i: int| 0 <= i < v.docs.len() implies doc_follows_text(
        (#[trigger] v.docs[i]).0,
        v.docs[i].1,
    ) && doc_indexed(v.index, v.docs[i].0, v.docs[i].1) by {
        let k = v.docs[i].0;
        lemma_place(w.docs, i);
        assert(k != key);
        assert(doc_indexed(w.index, w.docs[i].0, w.docs[i].1));
    }
    assert forall|i: int| 0 <= i < v.background.len() implies background_indexed(
        v,
        (#[trigger] v.background[i]).0,
        v.background[i].1,
    ) by {
        let k = v.background[i].0;
        lemma_place(v.background, i);
        if k != key {
            assert(get(v.background, k) == get(w.background, k));
            let j = place(w.background, k);
            assert(key_at(w.background, j, k));
            assert(background_indexed(w, w.background[j].0, w.background[j].1));
        } else {
            assert(get(v.background, k) == Some(b));
        }
    }
}

/// Adding background files that are not open keeps the workspace in step.
pub proof fn law_backgrounds_in_step(w: WorldView, v: Keyed<BackgroundView>)
    requires
        in_step(w),
        forall|i: int| 0 <= i < v.len() ==> !has_key(w.docs, (#[trigger] v[i]).0),
    ensures
        in_step(with_backgrounds(w, v)),
        with_backgrounds(w, v).docs == w.docs,
    decreases v.len(),
{
    if v.len() > 0 {
        let rest = v.drop_last();
        assert forall|i: int| 0 <= i < rest.len() implies !has_key(w.docs, (#[trigger] rest[i]).0) by {
            assert(!has_key(w.docs, v[i].0));
        }
        law_backgrounds_in_step(w, rest);
        assert(!has_key(w.docs, v[v.len() - 1].0));
        law_background_in_step(with_backgrounds(w, rest), v.last().0, v.last().1);
    }
}

/// Removing a file that is not open keeps the workspace in step.
pub proof fn law_remove_in_step(w: WorldView, key: Seq<char>)
    requires
        in_step(w),
        !has_key(w.docs, key),
    ensures
        in_step(removed(w, key)),
{
    let u = WorldView { background: without(w.background, key), ..w };
    let v = removed(w, key);
    law_forget_in_step(w, key);
    lemma_without(w.background, key);
    law_without_merged(w.index, key);
    assert forall|i: int| 0 <= i < v.docs.len() implies doc_follows_text(
        (#[trigger] v.docs[i]).0,
        v.docs[i].1,
    ) && doc_indexed(v.index, v.docs[i].0, v.docs[i].1) by {
        lemma_place(w.docs, i);
        assert(w.docs[i].0 != key);
        assert(doc_indexed(w.index, w.docs[i].0, w.docs[i].1));
    }
    assert forall|i: int| 0 <= i < v.background.len() implies background_indexed(
        v,
        (#[trigger] v.background[i]).0,
        v.background[i].1,
    ) by {
        let k = v.background[i].0;
        assert(background_indexed(u, u.background[i].0, u.background[i].1));
        lemma_place(v.background, i);
        assert(k != key);
    }
}

/// Closing a document keeps the workspace in step.
pub proof fn law_close_in_step(w: WorldView, uri: Seq<char>, restored: Option<BackgroundView>)
    requires
        in_step(w),
    ensures
        in_step(closed(w, uri, restored)),
{
    let mid = WorldView {
        docs: without(w.docs, uri),
        index: w.index.without(uri),
        background: without(w.background, uri),
        ..w
    };
    lemma_without(w.docs, uri);
    lemma_without(w.background, uri);
    law_without_merged(w.index, uri);
    assert forall|i: int| 0 <= i < mid.docs.len() implies doc_follows_text(
        (#[trigger] mid.docs[i]).0,
        mid.docs[i].1,
    ) && doc_indexed(mid.index, mid.docs[i].0, mid.docs[i].1) by {
        let k = mid.docs[i].0;
        lemma_place(mid.docs, i);
        assert(k != uri);
        assert(get(mid.docs, k) == get(w.docs, k));
        let j = place(w.docs, k);
        assert(key_at(w.docs, j, k));
        assert(doc_follows_text(w.docs[j].0, w.docs[j].1));
        assert(doc_indexed(w.index, w.docs[j].0, w.docs[j].1));
    }
    assert forall|i: int| 0 <= i < mid.background.len() implies background_indexed(
        mid,
        (#[trigger] mid.background[i]).0,
        mid.background[i].1,
    ) by {
        let k = mid.background[i].0;
        lemma_place(mid.background, i);
        assert(k != uri);
        assert(get(mid.background, k) == get(w.background, k));
        let j = place(w.background, k);
        assert(key_at(w.background, j, k));
        assert(background_indexed(w, w.background[j].0, w.background[j].1));
        assert(has_key(mid.docs, k) <==> has_key(w.docs, k));
    }
    if let Some(b) = restored {
        let base = WorldView {
            docs: without(w.docs, uri),
            index: w.index.without(uri),
            ..w
        };
        assert(!has_key(mid.docs, uri));
        law_background_in_step(mid, uri, b);
        let v = with_background(base, uri, b);
        let u = with_background(mid, uri, b);
        lemma_put(w.background, uri, b);
        lemma_put(mid.background, uri, b);
        assert forall|i: int| 0 <= i < v.background.len() implies background_indexed(
            v,
            (#[trigger] v.background[i]).0,
            v.background[i].1,
        ) by {
            let k = v.background[i].0;
            lemma_place(v.background, i);
            assert(get(v.background, k) == get(u.background, k));
            let j = place(u.background, k);
            assert(key_at(u.background, j, k));
            assert(background_indexed(u, u.background[j].0, u.background[j].1));
        }
    }
}

/// What the lint rules know about does not rest on analyses and lint findings.
pub proof fn lemma_bare_knowledge(v: WorldView, w: WorldView)
    requires
        bare(v) == bare(w),
    ensures
        package_files(v) == package_files(w),
        doc_trees(v.docs) == doc_trees(w.docs),
{
    assert(named_docs(v.docs) =~= named_docs(bare_docs(v.docs)));
    assert(named_docs(w.docs) =~= named_docs(bare_docs(w.docs)));
    lemma_bare_trees(v.docs);
    lemma_bare_trees(w.docs);
}

/// The syntax trees of documents do not rest on analyses and lint findings.
proof fn lemma_bare_trees(docs: Keyed<DocumentView>)
    ensures
        doc_trees(bare_docs(docs)) == doc_trees(docs),
    decreases docs.len(),
{
    if docs.len() > 0 {
        lemma_bare_trees(docs.drop_last());
        assert(bare_docs(docs).drop_last() =~= bare_docs(docs.drop_last()));
    }
}

// ── Laws ──────────────────────────────────────────────────────────────────────

/// Whether no open document is a background file too.
pub open spec fn exclusive(w: WorldView) -> bool {
    forall|k: Seq<char>| #[trigger] has_key(w.background, k) ==> !has_key(w.docs, k)
}

/// Keys do not rest on analyses and lint findings.
proof fn lemma_bare_keys(docs: Keyed<DocumentView>, k: Seq<char>)
    ensures
        has_key(bare_docs(docs), k) == has_key(docs, k),
{
    if has_key(docs, k) {
        assert(key_at(bare_docs(docs), place(docs, k), k));
    }
    if has_key(bare_docs(docs), k) {
        assert(key_at(docs, place(bare_docs(docs), k), k));
    }
}

/// What a key gives does not rest on analyses and lint findings, these aside.
pub(crate) proof fn lemma_bare_get(docs: Keyed<DocumentView>, k: Seq<char>)
    requires
        distinct(docs),
    ensures
        get(bare_docs(docs), k) == match get(docs, k) {
            Some(d) => Some(bare_doc(d)),
            None => None,
        },
{
    lemma_bare_keys(docs, k);
    if has_key(docs, k) {
        let i = place(docs, k);
        assert(key_at(docs, i, k));
        let b = bare_docs(docs);
        assert(distinct(b)) by {
            assert forall|x: int, y: int| 0 <= x < y < b.len() implies (#[trigger] b[x]).0 != (
            #[trigger] b[y]).0 by {
                assert(docs[x].0 != docs[y].0);
            }
        }
        lemma_place(b, i);
    }
}

/// A file that changes or is deleted on disk opens and closes no document.
pub proof fn lemma_disk_keeps_documents(
    w: WorldView,
    uri: Seq<char>,
    on_disk: Option<Seq<char>>,
    v: WorldView,
    k: Seq<char>,
)
    requires
        may_reload(w, uri, on_disk, v) || may_remove(w, uri, v),
    ensures
        has_key(v.docs, k) == has_key(w.docs, k),
{
    lemma_bare_keys(v.docs, k);
    lemma_bare_keys(w.docs, k);
    if v != w {
        assert(bare(v).docs == bare_docs(w.docs)) by {
            if may_remove(w, uri, v) {
                assert(bare(v) == bare(removed(w, uri)));
            } else {
                let ns = choose|ns: Option<Seq<Seq<char>>>| #[trigger]
                    disk_namespace_may_be(w.root, uri, ns) && bare(v) == bare(
                        reloaded(w, uri, on_disk->0, ns),
                    );
                assert(bare(v) == bare(reloaded(w, uri, on_disk->0, ns)));
            }
        }
    }
}

/// A workspace with the same keys as an exclusive one is exclusive.
proof fn lemma_exclusive_bare(v: WorldView, w: WorldView)
    requires
        bare(v) == bare(w),
        exclusive(w),
    ensures
        exclusive(v),
{
    assert(v.background == w.background);
    assert forall|k: Seq<char>| #[trigger] has_key(v.background, k) implies !has_key(v.docs, k) by {
        lemma_bare_keys(v.docs, k);
        lemma_bare_keys(w.docs, k);
        assert(has_key(w.background, k));
        assert(bare(v).docs == bare(w).docs);
    }
}

/// An opened document is no background file: the text in the editor counts.
pub proof fn law_open_takes_over(w: WorldView, uri: Seq<char>, text: Seq<char>, v: WorldView)
    requires
        in_step(w),
        exclusive(w),
        may_open(w, uri, text, v),
    ensures
        exclusive(v),
        has_key(v.docs, uri),
        !has_key(v.background, uri),
{
    let ns = choose|ns: Option<Seq<Seq<char>>>| #[trigger]
        namespace_may_be(w, uri, ns) && bare(v) == bare(opened(w, uri, text, ns));
    let o = opened(w, uri, text, ns);
    lemma_without(w.background, uri);
    lemma_put(w.docs, uri, fresh_document(uri, text, ns));
    assert forall|k: Seq<char>| #[trigger] has_key(o.background, k) implies !has_key(o.docs, k) by {
        assert(has_key(w.background, k));
    }
    lemma_exclusive_bare(v, o);
    lemma_bare_keys(v.docs, uri);
    lemma_bare_keys(o.docs, uri);
    assert(has_key(put(w.docs, uri, fresh_document(uri, text, ns)), uri));
    assert(bare(v).docs == bare(o).docs);
    assert(v.background == o.background);
}

/// A change of a document that is open, or that is no background file, leaves no document
/// in the background.
pub proof fn law_update_keeps_exclusive(w: WorldView, uri: Seq<char>, text: Seq<char>, v: WorldView)
    requires
        in_step(w),
        exclusive(w),
        has_key(w.docs, uri) || !has_key(w.background, uri),
        may_update(w, uri, text, v),
    ensures
        exclusive(v),
{
    let ns = choose|ns: Option<Seq<Seq<char>>>| #[trigger]
        namespace_may_be(w, uri, ns) && bare(v) == bare(updated(w, uri, text, ns));
    let o = updated(w, uri, text, ns);
    lemma_put(w.docs, uri, fresh_document(uri, text, ns));
    assert forall|k: Seq<char>| #[trigger] has_key(o.background, k) implies !has_key(o.docs, k) by {
        assert(has_key(w.background, k));
        assert(has_key(o.docs, k) <==> k == uri || has_key(w.docs, k));
    }
    lemma_exclusive_bare(v, o);
}

/// A closed document is not open any more; it goes to the background or is gone.
pub proof fn law_close_hands_back(
    w: WorldView,
    uri: Seq<char>,
    on_disk: Option<Seq<char>>,
    v: WorldView,
)
    requires
        in_step(w),
        exclusive(w),
        may_close(w, uri, on_disk, v),
    ensures
        exclusive(v),
        !has_key(v.docs, uri),
        exists|ns: Option<Seq<Seq<char>>>| #[trigger]
            disk_namespace_may_be(w.root, uri, ns) && get(v.background, uri) == restored(
                w,
                uri,
                on_disk,
                ns,
            ),
        get(v.background, uri) matches Some(b) ==> v.index.files.contains_key(uri)
            && v.index.files[uri] == symbols_of(uri, b.tree),
        get(v.background, uri) is None ==> !v.index.files.contains_key(uri),
{
    let ns = choose|ns: Option<Seq<Seq<char>>>| #[trigger]
        disk_namespace_may_be(w.root, uri, ns) && bare(v) == bare(
            closed(w, uri, restored(w, uri, on_disk, ns)),
        );
    let r = restored(w, uri, on_disk, ns);
    let o = closed(w, uri, r);
    lemma_without(w.docs, uri);
    lemma_without(w.background, uri);
    if let Some(b) = r {
        lemma_put(w.background, uri, b);
    }
    assert forall|k: Seq<char>| #[trigger] has_key(o.background, k) implies !has_key(o.docs, k) by {
        if k != uri {
            assert(has_key(w.background, k));
        }
        assert(has_key(o.docs, k) <==> k != uri && has_key(w.docs, k));
    }
    lemma_exclusive_bare(v, o);
    lemma_bare_keys(v.docs, uri);
    lemma_bare_keys(o.docs, uri);
    assert(bare(v).docs == bare(o).docs);
    assert(v.background == o.background);
    assert(v.index == o.index);
    assert(!has_key(without(w.docs, uri), uri));
    assert(get(o.background, uri) == r);
}

/// Files found on disk do not take the place of open documents.
pub proof fn law_scan_keeps_exclusive(
    w: WorldView,
    root: PathBuf,
    files: Option<Seq<DiscoveredView>>,
    v: WorldView,
)
    requires
        in_step(w),
        exclusive(w),
        may_scan(w, root, files, v),
    ensures
        exclusive(v),
        bare_docs(v.docs) == bare_docs(w.docs),
{
    let base = WorldView { root: Some(root), ..w };
    if let Some(files) = files {
        let urls = choose|urls: Seq<Option<Seq<char>>>| #[trigger]
            urls_may_be(files, urls) && bare(v) == bare(
                with_backgrounds(base, present(scan_entries(w.docs, files, urls))),
            );
        let entries = scan_entries(w.docs, files, urls);
        let list = present(entries);
        assert forall|i: int| 0 <= i < list.len() implies !has_key(base.docs, (#[trigger] list[i]).0) by {
            lemma_present_contains(entries, list[i]);
            assert(list.contains(list[i]));
            let k = choose|k: int| 0 <= k < entries.len() && entries[k] == Some(list[i]);
            assert(scan_entry(w.docs, files[k], urls[k]) == Some(list[i]));
        }
        lemma_backgrounds_exclusive(base, list);
        lemma_exclusive_bare(v, with_backgrounds(base, list));
        assert(bare(v).docs == bare(with_backgrounds(base, list)).docs);
    }
}

/// Files that the client provides do not take the place of open documents.
pub proof fn law_provide_keeps_exclusive(
    w: WorldView,
    root: Seq<char>,
    files: Keyed<Seq<char>>,
    v: WorldView,
)
    requires
        in_step(w),
        exclusive(w),
        bare(v) == bare(provided(w, root, files)),
    ensures
        exclusive(v),
        bare_docs(v.docs) == bare_docs(w.docs),
{
    let base = WorldView {
        web_root: match w.host {
            Host::Native => w.web_root,
            Host::Web => Some(root),
        },
        ..w
    };
    let entries = provided_entries(w.docs, root, files);
    let list = present(entries);
    assert forall|i: int| 0 <= i < list.len() implies !has_key(base.docs, (#[trigger] list[i]).0) by {
        lemma_present_contains(entries, list[i]);
        assert(list.contains(list[i]));
        let k = choose|k: int| 0 <= k < entries.len() && entries[k] == Some(list[i]);
        assert(provided_entry(w.docs, root, files[k].0, files[k].1) == Some(list[i]));
    }
    lemma_backgrounds_exclusive(base, list);
    lemma_exclusive_bare(v, with_backgrounds(base, list));
    assert(bare(v).docs == bare(with_backgrounds(base, list)).docs);
}

/// Background files that are not open leave a workspace exclusive.
proof fn lemma_backgrounds_exclusive(w: WorldView, list: Keyed<BackgroundView>)
    requires
        distinct(w.background),
        exclusive(w),
        forall|i: int| 0 <= i < list.len() ==> !has_key(w.docs, (#[trigger] list[i]).0),
    ensures
        exclusive(with_backgrounds(w, list)),
        distinct(with_backgrounds(w, list).background),
        with_backgrounds(w, list).docs == w.docs,
    decreases list.len(),
{
    if list.len() > 0 {
        let rest = list.drop_last();
        assert forall|i: int| 0 <= i < rest.len() implies !has_key(w.docs, (#[trigger] rest[i]).0) by {
            assert(!has_key(w.docs, list[i].0));
        }
        lemma_backgrounds_exclusive(w, rest);
        let mid = with_backgrounds(w, rest);
        lemma_put(mid.background, list.last().0, list.last().1);
        assert(!has_key(w.docs, list[list.len() - 1].0));
        let o = with_backgrounds(w, list);
        assert forall|k: Seq<char>| #[trigger] has_key(o.background, k) implies !has_key(o.docs, k) by {
            if k != list.last().0 {
                assert(has_key(mid.background, k));
            }
        }
    }
}

/// Changes on disk touch no open document and leave none in the background.
pub proof fn law_disk_changes_keep_exclusive(
    w: WorldView,
    uri: Seq<char>,
    on_disk: Option<Seq<char>>,
    v: WorldView,
)
    requires
        in_step(w),
        exclusive(w),
        may_reload(w, uri, on_disk, v) || may_remove(w, uri, v),
    ensures
        exclusive(v),
        bare_docs(v.docs) == bare_docs(w.docs),
{
    lemma_without(w.background, uri);
    if v != w {
        assert(!has_key(w.docs, uri));
        if may_remove(w, uri, v) {
            let o = removed(w, uri);
            assert forall|k: Seq<char>| #[trigger] has_key(o.background, k) implies !has_key(o.docs, k) by {
                assert(has_key(w.background, k));
            }
            lemma_exclusive_bare(v, o);
            assert(bare(v).docs == bare(o).docs);
        } else {
            let ns = choose|ns: Option<Seq<Seq<char>>>| #[trigger]
                disk_namespace_may_be(w.root, uri, ns) && bare(v) == bare(
                    reloaded(w, uri, on_disk->0, ns),
                );
            let o = reloaded(w, uri, on_disk->0, ns);
            if let Some(b) = background_of(on_disk, ns) {
                lemma_put(w.background, uri, b);
            }
            assert forall|k: Seq<char>| #[trigger] has_key(o.background, k) implies !has_key(o.docs, k) by {
                if k != uri {
                    assert(has_key(w.background, k));
                }
            }
            lemma_exclusive_bare(v, o);
            assert(bare(v).docs == bare(o).docs);
        }
    }
}

/// Opening, changing and closing a document leaves every other document with its text, its
/// parse and its namespace.
pub proof fn law_other_documents_untouched(
    w: WorldView,
    uri: Seq<char>,
    text: Seq<char>,
    on_disk: Option<Seq<char>>,
    v: WorldView,
    other: Seq<char>,
)
    requires
        in_step(w),
        in_step(v),
        may_open(w, uri, text, v) || may_update(w, uri, text, v) || may_close(w, uri, on_disk, v),
        other != uri,
    ensures
        match (get(w.docs, other), get(v.docs, other)) {
            (Some(a), Some(b)) => bare_doc(a) == bare_doc(b),
            (None, None) => true,
            _ => false,
        },
{
    lemma_bare_get(w.docs, other);
    lemma_bare_get(v.docs, other);
    if may_close(w, uri, on_disk, v) {
        let ns = choose|ns: Option<Seq<Seq<char>>>| #[trigger]
            disk_namespace_may_be(w.root, uri, ns) && bare(v) == bare(
                closed(w, uri, restored(w, uri, on_disk, ns)),
            );
        let o = closed(w, uri, restored(w, uri, on_disk, ns));
        lemma_without(w.docs, uri);
        lemma_bare_get(o.docs, other);
        assert(o.docs == without(w.docs, uri));
        assert(bare(v).docs == bare(o).docs);
    } else {
        let ns = if may_open(w, uri, text, v) {
            choose|ns: Option<Seq<Seq<char>>>| #[trigger]
                namespace_may_be(w, uri, ns) && bare(v) == bare(opened(w, uri, text, ns))
        } else {
            choose|ns: Option<Seq<Seq<char>>>| #[trigger]
                namespace_may_be(w, uri, ns) && bare(v) == bare(updated(w, uri, text, ns))
        };
        let d = fresh_document(uri, text, ns);
        lemma_put(w.docs, uri, d);
        lemma_bare_get(put(w.docs, uri, d), other);
        assert(bare(v).docs == bare_docs(put(w.docs, uri, d)));
    }
}

/// After a change only the last text counts: the documents, the symbols of each file and
/// the names in the index are those of a document that was opened with it.
pub proof fn law_last_text_counts(
    w: WorldView,
    uri: Seq<char>,
    before: Seq<char>,
    text: Seq<char>,
    ns: Option<Seq<Seq<char>>>,
)
    requires
        in_step(w),
        legible(uri, before),
        legible(uri, text),
    ensures
        updated(opened(w, uri, before, ns), uri, text, ns).docs == opened(w, uri, text, ns).docs,
        updated(opened(w, uri, before, ns), uri, text, ns).background == opened(
            w,
            uri,
            text,
            ns,
        ).background,
        updated(opened(w, uri, before, ns), uri, text, ns).index.files == opened(
            w,
            uri,
            text,
            ns,
        ).index.files,
        updated(opened(w, uri, before, ns), uri, text, ns).index.symbols.dom() == opened(
            w,
            uri,
            text,
            ns,
        ).index.symbols.dom(),
{
    let first = fresh_document(uri, before, ns);
    let last = fresh_document(uri, text, ns);
    let a = opened(w, uri, before, ns);
    let v = updated(a, uri, text, ns);
    let o = opened(w, uri, text, ns);
    law_open_in_step(w, uri, before, ns);
    law_update_in_step(a, uri, text, ns);
    law_open_in_step(w, uri, text, ns);
    lemma_put(w.docs, uri, first);
    assert(has_key(a.docs, uri));
    let p = place(a.docs, uri);
    assert(key_at(a.docs, p, uri));
    if has_key(w.docs, uri) {
        let q = place(w.docs, uri);
        assert(key_at(w.docs, q, uri));
        lemma_place(a.docs, q);
    } else {
        lemma_place(a.docs, w.docs.len() as int);
    }
    assert(v.docs =~= o.docs);
    assert(v.index.files =~= o.index.files);
    assert forall|n: Seq<char>| v.index.symbols.contains_key(n) == o.index.symbols.contains_key(n) by {
        assert(v.index.merged() && o.index.merged());
        assert(v.index.symbols.contains_key(n) <==> declared(v.index.files, n));
        assert(o.index.symbols.contains_key(n) <==> declared(o.index.files, n));
    }
    assert(v.index.symbols.dom() =~= o.index.symbols.dom());
}

/// A name is known to a consistent workspace exactly if some indexed file declares it; the
/// indexed files include every open document with a syntax tree and every background file,
/// and each analysis looks names up in the same table.
pub proof fn law_names_are_shared(w: WorldView, name: Seq<char>)
    requires
        consistent(w),
    ensures
        w.index.symbols.contains_key(name) <==> declared(w.index.files, name),
        forall|i: int|
            0 <= i < w.docs.len() && (#[trigger] w.docs[i]).1.parse.tree is Some ==> {
                &&& w.index.files[w.docs[i].0] == symbols_of(
                    w.docs[i].0,
                    w.docs[i].1.parse.tree->0,
                )
                &&& w.docs[i].1.analysis is Some
                &&& w.docs[i].1.analysis->0.index == w.index
            },
        forall|i: int|
            0 <= i < w.docs.len() && (#[trigger] w.docs[i]).1.parse.tree is None ==> {
                &&& w.docs[i].1.analysis is None
                &&& w.docs[i].1.lint.len() == 0
            },
        forall|i: int|
            0 <= i < w.background.len() && !has_key(w.docs, (#[trigger] w.background[i]).0)
                ==> w.index.files[w.background[i].0] == symbols_of(
                w.background[i].0,
                w.background[i].1.tree,
            ),
{
    assert forall|i: int|
        0 <= i < w.docs.len() && (#[trigger] w.docs[i]).1.parse.tree is Some implies {
        &&& w.index.files[w.docs[i].0] == symbols_of(w.docs[i].0, w.docs[i].1.parse.tree->0)
        &&& w.docs[i].1.analysis is Some
        &&& w.docs[i].1.analysis->0.index == w.index
    } by {
        assert(doc_settled(w, w.docs[i].0, w.docs[i].1));
        assert(doc_indexed(w.index, w.docs[i].0, w.docs[i].1));
    }
    assert forall|i: int|
        0 <= i < w.background.len() && !has_key(w.docs, (#[trigger] w.background[i]).0) implies
        w.index.files[w.background[i].0] == symbols_of(
        w.background[i].0,
        w.background[i].1.tree,
    ) by {
        assert(background_indexed(w, w.background[i].0, w.background[i].1));
    }
}

/// Whether no two of the files have the same identifier.
pub open spec fn distinct_files(v: Seq<FileTreeView>) -> bool {
    forall|i: int, j: int| 0 <= i < j < v.len() ==> (#[trigger] v[i]).key != (#[trigger] v[j]).key
}

/// Whether a file with the given identifier is among the files.
pub open spec fn has_file(v: Seq<FileTreeView>, key: Seq<char>) -> bool {
    exists|i: int| 0 <= i < v.len() && (#[trigger] v[i]).key == key
}

/// Where no open document is in the background too, no known file occurs twice. The known
/// files are the background files and the open documents that have a syntax tree; the tree of
/// an open document is that of its text in the editor.
pub proof fn law_known_files(w: WorldView)
    requires
        in_step(w),
        exclusive(w),
    ensures
        distinct_files(known_files(w)),
        forall|k: Seq<char>| #[trigger]
            has_file(known_files(w), k) <==> has_key(w.background, k) || (get(
                w.docs,
                k,
            ) matches Some(d) && d.parse.tree is Some),
        forall|i: int|
            0 <= i < w.docs.len() && (#[trigger] w.docs[i]).1.parse.tree is Some ==> {
                &&& !is_manifest(w.docs[i].0)
                &&& w.docs[i].1.parse.tree == ontology_parse(w.docs[i].1.text).tree
                &&& known_files(w).contains(
                    FileTreeView {
                        key: w.docs[i].0,
                        tree: w.docs[i].1.parse.tree->0,
                        places: places_in(w.docs[i].1.text),
                    },
                )
            },
{
    let all = known_files(w);
    let back = background_files(w.background);
    let entries = doc_files(w.docs);
    let open = present(entries);
    assert forall|i: int, j: int| 0 <= i < j < all.len() implies (#[trigger] all[i]).key != (
    #[trigger] all[j]).key by {
        if j < back.len() {
            assert(w.background[i].0 != w.background[j].0);
        } else if i >= back.len() {
            let (p, q) = lemma_present_order(entries, i - back.len(), j - back.len());
            assert(w.docs[p].0 != w.docs[q].0);
        } else {
            let q = lemma_present_from(entries, j - back.len());
            assert(key_at(w.background, i, w.background[i].0));
            assert(has_key(w.background, w.background[i].0));
            assert(key_at(w.docs, q, w.docs[q].0));
            assert(has_key(w.docs, w.docs[q].0));
        }
    }
    assert forall|i: int|
        0 <= i < w.docs.len() && (#[trigger] w.docs[i]).1.parse.tree is Some implies {
        &&& !is_manifest(w.docs[i].0)
        &&& w.docs[i].1.parse.tree == ontology_parse(w.docs[i].1.text).tree
        &&& known_files(w).contains(
            FileTreeView {
                key: w.docs[i].0,
                tree: w.docs[i].1.parse.tree->0,
                places: places_in(w.docs[i].1.text),
            },
        )
    } by {
        let d = w.docs[i].1;
        assert(doc_follows_text(w.docs[i].0, d));
        assert(bare_doc(d).parse == d.parse);
        let f = FileTreeView {
            key: w.docs[i].0,
            tree: d.parse.tree->0,
            places: places_in(d.text),
        };
        assert(entries[i] == Some(f));
        assert(entries.contains(Some(f)));
        lemma_present_contains(entries, f);
        let p = choose|p: int| 0 <= p < open.len() && open[p] == f;
        assert(all[back.len() + p] == f);
    }
    assert forall|k: Seq<char>| #[trigger]
        has_file(all, k) <==> has_key(w.background, k) || (get(w.docs, k) matches Some(d)
            && d.parse.tree is Some) by {
        if has_file(all, k) {
            let i = choose|i: int| 0 <= i < all.len() && (#[trigger] all[i]).key == k;
            if i < back.len() {
                assert(key_at(w.background, i, k));
            } else {
                let q = lemma_present_from(entries, i - back.len());
                lemma_place(w.docs, q);
                assert(key_at(w.docs, q, k));
            }
        }
        if has_key(w.background, k) {
            let i = place(w.background, k);
            assert(key_at(w.background, i, k));
            assert(all[i].key == k);
        }
        if has_key(w.docs, k) && get(w.docs, k)->0.parse.tree is Some {
            let i = place(w.docs, k);
            assert(key_at(w.docs, i, k));
            let d = w.docs[i].1;
            let f = FileTreeView { key: k, tree: d.parse.tree->0, places: places_in(d.text) };
            assert(w.docs[i].1.parse.tree is Some);
            assert(all.contains(f));
            let p = choose|p: int| 0 <= p < all.len() && all[p] == f;
            assert(all[p].key == k);
        }
    }
}

/// What can happen to a workspace.
pub enum Step {
    Open { uri: Seq<char>, text: Seq<char> },
    /// A change of a document that is open.
    Change { uri: Seq<char>, text: Seq<char> },
    Close { uri: Seq<char>, on_disk: Option<Seq<char>> },
    Scan { dir: PathBuf, found: Option<Seq<DiscoveredView>> },
    Provide { root: Seq<char>, files: Keyed<Seq<char>> },
    Reload { uri: Seq<char>, on_disk: Option<Seq<char>> },
    Remove { uri: Seq<char> },
}

/// Whether `v` may come of a step in `w`.
pub open spec fn may_step(w: WorldView, step: Step, v: WorldView) -> bool {
    &&& consistent(v)
    &&& match step {
        Step::Open { uri, text } => may_open(w, uri, text, v),
        Step::Change { uri, text } => has_key(w.docs, uri) && may_update(w, uri, text, v),
        Step::Close { uri, on_disk } => may_close(w, uri, on_disk, v),
        Step::Scan { dir, found } => may_scan(w, dir, found, v),
        Step::Provide { root, files } => bare(v) == bare(provided(w, root, files)),
        Step::Reload { uri, on_disk } => may_reload(w, uri, on_disk, v),
        Step::Remove { uri } => may_remove(w, uri, v),
    }
}

/// Whether a workspace that starts empty may go through the given states by the given steps.
pub open spec fn may_run(host: Host, steps: Seq<Step>, states: Seq<WorldView>) -> bool {
    &&& states.len() == steps.len() + 1
    &&& states[0] == empty_world(host)
    &&& forall|i: int|
        0 <= i < steps.len() ==> may_step(states[i], #[trigger] steps[i], states[i + 1])
}

/// In a workspace that starts empty and in which only open documents are changed, no document
/// is ever in the background too, and no known file ever occurs twice.
pub proof fn law_reached_workspaces(
    host: Host,
    steps: Seq<Step>,
    states: Seq<WorldView>,
    i: int,
)
    requires
        may_run(host, steps, states),
        0 <= i < states.len(),
    ensures
        consistent(states[i]),
        exclusive(states[i]),
        distinct_files(known_files(states[i])),
    decreases i,
{
    if i > 0 {
        law_reached_workspaces(host, steps, states, i - 1);
        let w = states[i - 1];
        let v = states[i];
        assert(may_step(states[i - 1], steps[i - 1], states[i]));
        match steps[i - 1] {
            Step::Open { uri, text } => law_open_takes_over(w, uri, text, v),
            Step::Change { uri, text } => law_update_keeps_exclusive(w, uri, text, v),
            Step::Close { uri, on_disk } => law_close_hands_back(w, uri, on_disk, v),
            Step::Scan { dir, found } => law_scan_keeps_exclusive(w, dir, found, v),
            Step::Provide { root, files } => law_provide_keeps_exclusive(w, root, files, v),
            Step::Reload { uri, on_disk } => law_disk_changes_keep_exclusive(w, uri, on_disk, v),
            Step::Remove { uri } => law_disk_changes_keep_exclusive(w, uri, None, v),
        }
    }
    law_known_files(states[i]);
}

} // verus!
