//! Workspaces: what every operation makes of the files, and what the checks are run against.

use crate::ast::FileTreeView;
use crate::checks::{all_loose, analysis_outcome, lint_outcome, loose};
use crate::document::DocumentView;
use crate::index::{declared, symbols_of, IndexView, SymbolTable};
use crate::keyed::{distinct, get, has_key, lemma_put, lemma_without, put, without, Keyed};
use crate::laws::shared::{lemma_present_places, picks};
use crate::lists::present;
use crate::parsing::{attached_texts, comments_in, manifest_outcome, parse_outcome};
use crate::paths::{path_may_be_url, url_may_be_path};
use crate::places::places_in;
use crate::problem::FindingView;
use crate::uri::url_path;
use crate::workspace::{
    background_files, background_of, bare, bare_doc, closed, consistent, disk_namespace_may_be,
    doc_files, doc_follows_text, doc_indexed, doc_settled, doc_trees, empty_world, fresh_document,
    in_step, is_manifest, known_files, lemma_bare_get, may_close, may_open, may_reload, may_remove,
    may_scan, may_update, named_background, named_docs, namespace_may_be, opened, package_files,
    provided, provided_entries, provided_entry, reloaded, removed, restored, scan_entries,
    scan_entry, updated, urls_may_be, with_background, with_backgrounds, BackgroundView,
    DiscoveredView, Host, WorldView,
};
use rowl::ast::OntologyFile;
use std::path::PathBuf;
use vstd::prelude::*;

verus! {

// ── What the lint rules know ──────────────────────────────────────────────────

/// Document `i` has a namespace and a syntax tree, which make up `pair`.
pub open spec fn open_pair(w: WorldView, i: int, pair: (Seq<Seq<char>>, OntologyFile)) -> bool {
    &&& 0 <= i < w.docs.len()
    &&& w.docs[i].1.namespace == Some(pair.0)
    &&& w.docs[i].1.parse.tree == Some(pair.1)
}

/// Background file `i` has the namespace and the syntax tree that make up `pair`.
pub open spec fn background_pair(w: WorldView, i: int, pair: (Seq<Seq<char>>, OntologyFile)) -> bool {
    &&& 0 <= i < w.background.len()
    &&& w.background[i].1.namespace == pair.0
    &&& w.background[i].1.tree == pair.1
}

/// `files` are the namespaces and trees of the open documents at the places `at`, then those of
/// all background files.
pub open spec fn package_places(
    w: WorldView,
    at: Seq<int>,
    files: Seq<(Seq<Seq<char>>, OntologyFile)>,
) -> bool {
    &&& picks(at, w.docs.len() as int)
    &&& files.len() == at.len() + w.background.len()
    &&& forall|k: int| 0 <= k < at.len() ==> open_pair(w, #[trigger] at[k], files[k])
    &&& forall|i: int|
        0 <= i < w.docs.len() && (#[trigger] w.docs[i]).1.namespace is Some
            && w.docs[i].1.parse.tree is Some ==> at.contains(i)
    &&& forall|j: int|
        0 <= j < w.background.len() ==> #[trigger] background_pair(w, j, files[at.len() + j])
}

/// The lint rules know the namespace and tree of every open document that has both and of every
/// background file, and nothing else.
pub proof fn law_package_is_all_files(w: WorldView)
    ensures
        exists|at: Seq<int>| #[trigger] package_places(w, at, package_files(w)),
        forall|pair: (Seq<Seq<char>>, OntologyFile)| #[trigger]
            package_files(w).contains(pair) <==> (exists|i: int| #[trigger] open_pair(w, i, pair))
                || (exists|i: int| #[trigger] background_pair(w, i, pair)),
{
    let files = package_files(w);
    let all = named_docs(w.docs);
    let first = present(all);
    let at = lemma_present_places(all);
    assert forall|k: int| 0 <= k < at.len() implies open_pair(w, #[trigger] at[k], files[k]) by {
        assert(all[at[k]] == Some(first[k]));
    }
    assert forall|i: int|
        0 <= i < w.docs.len() && (#[trigger] w.docs[i]).1.namespace is Some
            && w.docs[i].1.parse.tree is Some implies at.contains(i) by {
        assert(all[i] is Some);
    }
    assert forall|j: int| 0 <= j < w.background.len() implies #[trigger] background_pair(
        w,
        j,
        files[at.len() + j],
    ) by {
        assert(files[at.len() + j] == named_background(w.background)[j]);
    }
    assert(package_places(w, at, files));
    assert forall|pair: (Seq<Seq<char>>, OntologyFile)| #[trigger]
        files.contains(pair) <==> (exists|i: int| #[trigger] open_pair(w, i, pair)) || (exists|i: int|
         #[trigger]
            background_pair(w, i, pair)) by {
        if files.contains(pair) {
            let k = choose|k: int| 0 <= k < files.len() && files[k] == pair;
            if k < at.len() {
                assert(open_pair(w, at[k], pair));
            } else {
                assert(background_pair(w, k - at.len(), files[at.len() + (k - at.len())]));
            }
        }
        if exists|i: int| #[trigger] open_pair(w, i, pair) {
            let i = choose|i: int| #[trigger] open_pair(w, i, pair);
            assert(at.contains(i));
            let k = choose|k: int| 0 <= k < at.len() && at[k] == i;
            assert(open_pair(w, at[k], files[k]));
            assert(files[k] == pair);
        }
        if exists|i: int| #[trigger] background_pair(w, i, pair) {
            let i = choose|i: int| #[trigger] background_pair(w, i, pair);
            assert(background_pair(w, i, files[at.len() + i]));
            assert(files[at.len() + i] == pair);
        }
    }
}

/// Document `i` stands under `key` and has the tree `f`.
pub open spec fn open_tree(w: WorldView, i: int, key: Seq<char>, f: OntologyFile) -> bool {
    0 <= i < w.docs.len() && w.docs[i].0 == key && w.docs[i].1.parse.tree == Some(f)
}

/// The trees that are kept are those of the open documents, under their identifiers.
proof fn lemma_doc_trees(w: WorldView, key: Seq<char>, f: OntologyFile)
    requires
        distinct(w.docs),
    ensures
        doc_trees(w.docs).contains_pair(key, f) <==> exists|i: int| #[trigger] open_tree(w, i, key, f),
    decreases w.docs.len(),
{
    if w.docs.len() > 0 {
        let v = WorldView { docs: w.docs.drop_last(), ..w };
        assert forall|a: int, b: int| 0 <= a < b < v.docs.len() implies (#[trigger] v.docs[a]).0 != (
        #[trigger] v.docs[b]).0 by {
            assert(w.docs[a].0 != w.docs[b].0);
        }
        lemma_doc_trees(v, key, f);
        let n = w.docs.len() - 1;
        if exists|i: int| #[trigger] open_tree(v, i, key, f) {
            let i = choose|i: int| #[trigger] open_tree(v, i, key, f);
            assert(open_tree(w, i, key, f));
            assert(w.docs[i].0 != w.docs[n].0);
        }
        if exists|i: int| #[trigger] open_tree(w, i, key, f) {
            let i = choose|i: int| #[trigger] open_tree(w, i, key, f);
            if i < n {
                assert(open_tree(v, i, key, f));
                assert(w.docs[i].0 != w.docs[n].0);
            }
        }
        if w.docs[n].0 == key && w.docs[n].1.parse.tree == Some(f) {
            assert(open_tree(w, n, key, f));
        }
    }
}

/// `trees` are the syntax trees of the open documents, under their identifiers.
pub open spec fn trees_of_documents(w: WorldView, trees: Map<Seq<char>, OntologyFile>) -> bool {
    forall|key: Seq<char>, f: OntologyFile| #[trigger]
        trees.contains_pair(key, f) <==> exists|i: int| #[trigger] open_tree(w, i, key, f)
}

/// `files` are known to the lint rules of a workspace.
pub open spec fn known_package(w: WorldView, files: Seq<(Seq<Seq<char>>, OntologyFile)>) -> bool {
    exists|at: Seq<int>| #[trigger] package_places(w, at, files)
}

/// Every open document that can be parsed has been linted against all open documents and all
/// background files as they are; one that cannot be parsed has no lint findings.
pub proof fn law_lint_sees_the_whole_workspace(w: WorldView, i: int)
    requires
        consistent(w),
        0 <= i < w.docs.len(),
    ensures
        match w.docs[i].1.parse.tree {
            Some(f) => exists|
                files: Seq<(Seq<Seq<char>>, OntologyFile)>,
                trees: Map<Seq<char>, OntologyFile>,
            |
                known_package(w, files) && trees_of_documents(w, trees) && all_loose(
                    w.docs[i].1.lint,
                ) == #[trigger] lint_outcome(f, w.docs[i].1.text, w.docs[i].0, files, trees),
            None => w.docs[i].1.lint.len() == 0,
        },
{
    let d = w.docs[i].1;
    assert(doc_settled(w, w.docs[i].0, d));
    assert(doc_indexed(w.index, w.docs[i].0, d));
    if let Some(f) = d.parse.tree {
        law_package_is_all_files(w);
        let files = package_files(w);
        let trees = doc_trees(w.docs);
        assert forall|key: Seq<char>, g: OntologyFile| #[trigger]
            trees.contains_pair(key, g) <==> exists|j: int| #[trigger] open_tree(w, j, key, g) by {
            lemma_doc_trees(w, key, g);
        }
        assert(trees_of_documents(w, trees));
        assert(known_package(w, files));
        assert(all_loose(d.lint) == lint_outcome(f, d.text, w.docs[i].0, files, trees));
    }
}

/// Two findings are the same but for the order of the edits of their fixes.
pub open spec fn same_finding(a: FindingView, b: FindingView) -> bool {
    &&& a.severity == b.severity
    &&& a.code == b.code
    &&& a.message == b.message
    &&& a.span == b.span
    &&& match (a.fix, b.fix) {
        (Some(x), Some(y)) => x.description == y.description && x.edits.to_multiset()
            == y.edits.to_multiset(),
        (None, None) => true,
        _ => false,
    }
}

/// Lists of lint findings that agree apart from order have the same findings: as many, and each
/// of one in the other.
pub proof fn law_findings_apart_from_order(a: Seq<FindingView>, b: Seq<FindingView>, i: int)
    requires
        all_loose(a) == all_loose(b),
        0 <= i < a.len(),
    ensures
        a.len() == b.len(),
        exists|j: int| 0 <= j < b.len() && same_finding(a[i], #[trigger] b[j]),
{
    let x = Seq::new(a.len(), |i: int| loose(a[i]));
    let y = Seq::new(b.len(), |i: int| loose(b[i]));
    broadcast use vstd::seq_lib::group_to_multiset_ensures;

    assert(x.to_multiset().len() == x.len());
    assert(y.to_multiset().len() == y.len());
    assert(x.contains(x[i]));
    assert(x.to_multiset().count(x[i]) > 0);
    assert(y.to_multiset().count(x[i]) > 0);
    assert(y.contains(x[i]));
    let j = choose|j: int| 0 <= j < y.len() && y[j] == x[i];
    assert(loose(b[j]) == loose(a[i]));
    assert(same_finding(a[i], b[j]));
}

/// Every open document that can be parsed has been analysed against the index of the workspace:
/// it has every finding of the analysis and no other. One that cannot be parsed has no analysis.
pub proof fn law_analysis_sees_the_index(w: WorldView, i: int)
    requires
        consistent(w),
        0 <= i < w.docs.len(),
    ensures
        match w.docs[i].1.parse.tree {
            Some(f) => {
                let (first, middle, last) = analysis_outcome(f, w.index.symbols);
                w.docs[i].1.analysis matches Some(a) && a.index == w.index && exists|
                    m: Seq<FindingView>,
                |
                    a.problems == first + m + last && #[trigger] m.to_multiset() == middle
            },
            None => w.docs[i].1.analysis is None,
        },
{
    assert(doc_settled(w, w.docs[i].0, w.docs[i].1));
    assert(doc_indexed(w.index, w.docs[i].0, w.docs[i].1));
}

/// A URL is that of a manifest if the file is called `package.dlf`.
pub proof fn law_manifests_by_name(uri: Seq<char>)
    ensures
        is_manifest(uri) <==> (url_path(uri) == "package.dlf"@ || (exists|dir: Seq<char>|
            url_path(uri) == #[trigger] (dir + "/package.dlf"@))),
{
    let p = url_path(uri);
    let name = "/package.dlf"@;
    if name.is_suffix_of(p) {
        let dir = p.take(p.len() - name.len());
        assert(p =~= dir + name);
    }
    if exists|dir: Seq<char>| p == #[trigger] (dir + name) {
        let dir = choose|dir: Seq<char>| p == #[trigger] (dir + name);
        assert(p.subrange(p.len() - name.len(), p.len() as int) =~= name);
    }
}

/// An open document is what its text gives: for an ontology the tree and the findings of the
/// parser and the comments of the text, for a manifest the manifest or the finding.
pub proof fn law_documents_follow_their_texts(w: WorldView, i: int)
    requires
        in_step(w),
        0 <= i < w.docs.len(),
    ensures
        ({
            let d = w.docs[i].1;
            if is_manifest(w.docs[i].0) {
                &&& d.parse.tree is None
                &&& d.comments.dom().is_empty()
                &&& match manifest_outcome(d.text) {
                    Ok(p) => d.package == Some(p) && d.parse.problems.len() == 0,
                    Err(e) => d.package is None && d.parse.problems == e,
                }
            } else {
                &&& d.package is None
                &&& d.parse.tree == parse_outcome(d.text).0
                &&& d.parse.problems == parse_outcome(d.text).1
                &&& match d.parse.tree {
                    Some(f) => d.comments == attached_texts(f, comments_in(d.text)),
                    None => d.comments.dom().is_empty(),
                }
            }
        }),
{
    assert(doc_follows_text(w.docs[i].0, w.docs[i].1));
    let d = w.docs[i].1;
    let fresh = fresh_document(w.docs[i].0, d.text, d.namespace);
    assert(bare_doc(d).parse == fresh.parse);
    assert(bare_doc(d).package == fresh.package);
    assert(bare_doc(d).comments == fresh.comments);
}

/// `file` is background file `i`.
pub open spec fn is_background(w: WorldView, i: int, file: FileTreeView) -> bool {
    &&& 0 <= i < w.background.len()
    &&& file.key == w.background[i].0
    &&& file.tree == w.background[i].1.tree
    &&& file.places == w.background[i].1.places
}

/// `file` is the open document `i`, which has a syntax tree.
pub open spec fn is_open_file(w: WorldView, i: int, file: FileTreeView) -> bool {
    &&& 0 <= i < w.docs.len()
    &&& file.key == w.docs[i].0
    &&& w.docs[i].1.parse.tree == Some(file.tree)
    &&& file.places == places_in(w.docs[i].1.text)
}

/// `files` are all background files, then the open documents at the places `at`, which are those
/// with a syntax tree.
pub open spec fn known_places(w: WorldView, at: Seq<int>, files: Seq<FileTreeView>) -> bool {
    &&& picks(at, w.docs.len() as int)
    &&& files.len() == w.background.len() + at.len()
    &&& forall|j: int| 0 <= j < w.background.len() ==> #[trigger] is_background(w, j, files[j])
    &&& forall|k: int|
        0 <= k < at.len() ==> is_open_file(w, #[trigger] at[k], files[w.background.len() + k])
    &&& forall|i: int|
        0 <= i < w.docs.len() && (#[trigger] w.docs[i]).1.parse.tree is Some ==> at.contains(i)
}

/// References, renames and lenses look through every background file and every open document
/// that can be parsed, each once.
pub proof fn law_all_files_are_known(w: WorldView)
    ensures
        exists|at: Seq<int>| #[trigger] known_places(w, at, known_files(w)),
{
    let files = known_files(w);
    let n = w.background.len() as int;
    let all = doc_files(w.docs);
    let open = present(all);
    let at = lemma_present_places(all);
    assert forall|j: int| 0 <= j < n implies #[trigger] is_background(w, j, files[j]) by {
        assert(files[j] == background_files(w.background)[j]);
    }
    assert forall|k: int| 0 <= k < at.len() implies is_open_file(w, #[trigger] at[k], files[n + k]) by {
        assert(all[at[k]] == Some(open[k]));
        assert(files[n + k] == open[k]);
    }
    assert forall|i: int| 0 <= i < w.docs.len() && (#[trigger] w.docs[i]).1.parse.tree is Some implies at.contains(
        i,
    ) by {
        assert(all[i] is Some);
    }
    assert(known_places(w, at, files));
}

// ── The index ─────────────────────────────────────────────────────────────────

/// A file that is indexed has the given symbols then, and so have their names; the symbols of
/// other files stay, and so do the names that another file declares.
pub proof fn law_indexing_a_file(ix: IndexView, path: Seq<char>, table: SymbolTable, name: Seq<char>)
    ensures
        ix.with(path, table).files.contains_pair(path, table),
        forall|p: Seq<char>|
            p != path ==> (#[trigger] ix.with(path, table).files.contains_key(p)
                <==> ix.files.contains_key(p)) && (ix.files.contains_key(p) ==> ix.with(
                path,
                table,
            ).files[p] == ix.files[p]),
        table.contains_key(name) ==> ix.with(path, table).symbols.contains_pair(name, table[name]),
        !table.contains_key(name) && ix.with(path, table).symbols.contains_key(name)
            ==> ix.symbols.contains_pair(name, ix.with(path, table).symbols[name]),
{
}

/// In an index whose names are those that its files declare, a name is known after a file was
/// indexed exactly if that file or another one declares it, and after a file was taken out
/// exactly if another one does. A name that stays known keeps its symbol.
pub proof fn law_known_names(ix: IndexView, path: Seq<char>, table: SymbolTable, name: Seq<char>)
    requires
        ix.merged(),
    ensures
        ix.with(path, table).symbols.contains_key(name) <==> table.contains_key(name) || exists|
            p: Seq<char>,
        |
            p != path && #[trigger] ix.files.contains_key(p) && ix.files[p].contains_key(name),
        ix.without(path).symbols.contains_key(name) <==> exists|p: Seq<char>|
            p != path && #[trigger] ix.files.contains_key(p) && ix.files[p].contains_key(name),
        ix.without(path).symbols.contains_key(name) ==> ix.without(path).symbols[name]
            == ix.symbols[name],
{
    assert(ix.symbols.contains_key(name) <==> declared(ix.files, name));
    let rest = ix.files.remove(path);
    if ix.files.contains_key(path) {
        if exists|p: Seq<char>|
            p != path && #[trigger] ix.files.contains_key(p) && ix.files[p].contains_key(name) {
            let p = choose|p: Seq<char>|
                p != path && #[trigger] ix.files.contains_key(p) && ix.files[p].contains_key(name);
            assert(rest.contains_key(p) && rest[p].contains_key(name));
        }
        if declared(rest, name) {
            let p = choose|p: Seq<char>| #[trigger] rest.contains_key(p) && rest[p].contains_key(name);
            assert(ix.files.contains_key(p));
        }
        if ix.symbols.contains_key(name) && !ix.files[path].contains_key(name) {
            let p = choose|p: Seq<char>| #[trigger]
                ix.files.contains_key(p) && ix.files[p].contains_key(name);
            assert(p != path);
        }
    }
}

/// A file that is taken out of the index is gone; the symbols of other files stay.
pub proof fn law_taking_a_file_out(ix: IndexView, path: Seq<char>, name: Seq<char>)
    ensures
        !ix.without(path).files.contains_key(path),
        forall|p: Seq<char>|
            p != path ==> (#[trigger] ix.without(path).files.contains_key(p)
                <==> ix.files.contains_key(p)) && (ix.files.contains_key(p) ==> ix.without(
                path,
            ).files[p] == ix.files[p]),
        ix.without(path).symbols.contains_key(name) ==> ix.symbols.contains_pair(
            name,
            ix.without(path).symbols[name],
        ),
{
}

// ── Operations ────────────────────────────────────────────────────────────────

/// Two documents are the same but for their analyses and lint findings, or both are missing.
pub open spec fn same_document(a: Option<DocumentView>, b: Option<DocumentView>) -> bool {
    match (a, b) {
        (Some(a), Some(b)) => {
            &&& a.text == b.text
            &&& a.parse == b.parse
            &&& a.package == b.package
            &&& a.namespace == b.namespace
            &&& a.comments == b.comments
        },
        (None, None) => true,
        _ => false,
    }
}

/// The index has the same symbols for a file in both workspaces.
pub open spec fn same_symbols(w: WorldView, v: WorldView, k: Seq<char>) -> bool {
    &&& w.index.files.contains_key(k) <==> v.index.files.contains_key(k)
    &&& w.index.files.contains_key(k) ==> w.index.files[k] == v.index.files[k]
}

/// A file is untouched: as a document, in the background and in the index.
pub open spec fn untouched(w: WorldView, v: WorldView, k: Seq<char>) -> bool {
    &&& same_document(get(w.docs, k), get(v.docs, k))
    &&& get(w.background, k) == get(v.background, k)
    &&& same_symbols(w, v, k)
}

/// The index holds the symbols of a tree for a file, or nothing where there is no tree.
pub open spec fn indexed_as(v: WorldView, k: Seq<char>, tree: Option<OntologyFile>) -> bool {
    match tree {
        Some(f) => v.index.files.contains_pair(k, symbols_of(k, f)),
        None => !v.index.files.contains_key(k),
    }
}

/// The names that a tree declares stand for its symbols; any other name that is known stands for
/// what it stood for before.
pub open spec fn latest(w: WorldView, v: WorldView, k: Seq<char>, tree: Option<OntologyFile>) -> bool {
    forall|n: Seq<char>| #[trigger]
        v.index.symbols.contains_key(n) ==> if tree is Some && symbols_of(k, tree->0).contains_key(n) {
            v.index.symbols[n] == symbols_of(k, tree->0)[n]
        } else {
            w.index.symbols.contains_pair(n, v.index.symbols[n])
        }
}

/// Where a workspace runs and where its roots are.
pub open spec fn same_setting(w: WorldView, v: WorldView) -> bool {
    w.host == v.host && w.root == v.root && w.web_root == v.web_root
}

/// Workspaces that differ in analyses only have the same documents.
proof fn lemma_same_documents(v: WorldView, o: WorldView, k: Seq<char>)
    requires
        bare(v) == bare(o),
        distinct(v.docs),
        distinct(o.docs),
    ensures
        same_document(get(v.docs, k), get(o.docs, k)),
{
    lemma_bare_get(v.docs, k);
    lemma_bare_get(o.docs, k);
    assert(bare(v).docs == bare(o).docs);
    if let (Some(a), Some(b)) = (get(v.docs, k), get(o.docs, k)) {
        assert(bare_doc(a) == bare_doc(b));
        assert(bare_doc(a).text == a.text && bare_doc(b).text == b.text);
        assert(bare_doc(a).parse == a.parse && bare_doc(b).parse == b.parse);
        assert(bare_doc(a).package == a.package && bare_doc(b).package == b.package);
        assert(bare_doc(a).namespace == a.namespace && bare_doc(b).namespace == b.namespace);
        assert(bare_doc(a).comments == a.comments && bare_doc(b).comments == b.comments);
    }
}

/// What a file is after it was opened or changed.
pub open spec fn holds_text(w: WorldView, v: WorldView, uri: Seq<char>, text: Seq<char>) -> bool {
    get(v.docs, uri) matches Some(d) && d.text == text && namespace_may_be(w, uri, d.namespace)
        && (if is_manifest(uri) {
        d.parse.tree is None
    } else {
        d.parse.tree == parse_outcome(text).0
    }) && indexed_as(v, uri, d.parse.tree) && latest(w, v, uri, d.parse.tree)
}

/// An opened document holds its text, and its symbols are those of the text; it is in the
/// background no more. All other files stay as they are.
pub proof fn law_open(w: WorldView, uri: Seq<char>, text: Seq<char>, v: WorldView, k: Seq<char>)
    requires
        in_step(w),
        in_step(v),
        may_open(w, uri, text, v),
    ensures
        holds_text(w, v, uri, text),
        get(v.background, uri) is None,
        k != uri ==> untouched(w, v, k),
        same_setting(w, v),
{
    let ns = choose|ns: Option<Seq<Seq<char>>>| #[trigger]
        namespace_may_be(w, uri, ns) && bare(v) == bare(opened(w, uri, text, ns));
    let base = WorldView { background: without(w.background, uri), ..w };
    let o = opened(w, uri, text, ns);
    lemma_without(w.background, uri);
    lemma_updated(base, uri, text, ns, v, k);
    assert(v.background == o.background);
    assert(get(v.background, k) == if k == uri {
        None
    } else {
        get(w.background, k)
    });
    assert(get(v.background, uri) is None);
    assert(holds_text(base, v, uri, text) == holds_text(w, v, uri, text));
}

/// What changing a text makes of a workspace.
proof fn lemma_updated(
    w: WorldView,
    uri: Seq<char>,
    text: Seq<char>,
    ns: Option<Seq<Seq<char>>>,
    v: WorldView,
    k: Seq<char>,
)
    requires
        distinct(w.docs),
        distinct(v.docs),
        namespace_may_be(w, uri, ns),
        bare(v) == bare(updated(w, uri, text, ns)),
    ensures
        holds_text(w, v, uri, text),
        k != uri ==> same_document(get(w.docs, k), get(v.docs, k)) && same_symbols(w, v, k),
        v.background == w.background,
        same_setting(w, v),
{
    let d = fresh_document(uri, text, ns);
    let o = updated(w, uri, text, ns);
    lemma_put(w.docs, uri, d);
    lemma_same_documents(v, o, uri);
    lemma_same_documents(v, o, k);
    assert(v.index == o.index);
    assert(v.background == o.background);
    assert(get(o.docs, uri) == Some(d));
    assert(get(o.docs, k) == if k == uri {
        Some(d)
    } else {
        get(w.docs, k)
    });
    match d.parse.tree {
        Some(f) => law_indexing_a_file(w.index, uri, symbols_of(uri, f), uri),
        None => law_taking_a_file_out(w.index, uri, uri),
    }
    assert(bare(v).host == bare(o).host && bare(v).root == bare(o).root && bare(v).web_root == bare(
        o,
    ).web_root);
}

/// A changed document holds its new text, and its symbols are those of the text. All other files
/// stay as they are.
pub proof fn law_update(w: WorldView, uri: Seq<char>, text: Seq<char>, v: WorldView, k: Seq<char>)
    requires
        in_step(w),
        in_step(v),
        may_update(w, uri, text, v),
    ensures
        holds_text(w, v, uri, text),
        v.background == w.background,
        k != uri ==> untouched(w, v, k),
        same_setting(w, v),
{
    let ns = choose|ns: Option<Seq<Seq<char>>>| #[trigger]
        namespace_may_be(w, uri, ns) && bare(v) == bare(updated(w, uri, text, ns));
    lemma_updated(w, uri, text, ns, v, k);
}

/// A background file is what a text gives under a namespace.
pub open spec fn background_from(b: BackgroundView, text: Seq<char>, namespace: Seq<Seq<char>>) -> bool {
    &&& b.namespace == namespace
    &&& parse_outcome(text).0 == Some(b.tree)
    &&& b.places == places_in(text)
}

/// What a closed document is in the background: on a native host what its text on disk gives
/// under its namespace, on the web what it was; a manifest, and what has no namespace or cannot
/// be parsed, is not there.
pub open spec fn handed_back(
    w: WorldView,
    uri: Seq<char>,
    on_disk: Option<Seq<char>>,
    ns: Option<Seq<Seq<char>>>,
    b: Option<BackgroundView>,
) -> bool {
    if is_manifest(uri) {
        b is None
    } else {
        match w.host {
            Host::Native => match b {
                Some(b) => on_disk is Some && ns is Some && background_from(b, on_disk->0, ns->0),
                None => on_disk is None || ns is None || parse_outcome(on_disk->0).0 is None,
            },
            Host::Web => match (get(w.docs, uri), b) {
                (Some(d), Some(b)) => d.namespace == Some(b.namespace) && d.parse.tree == Some(
                    b.tree,
                ) && b.places == places_in(d.text),
                (Some(d), None) => d.namespace is None || d.parse.tree is None,
                (None, b) => b is None,
            },
        }
    }
}

/// The tree of a background file, if there is one.
pub open spec fn tree_of(b: Option<BackgroundView>) -> Option<OntologyFile> {
    match b {
        Some(b) => Some(b.tree),
        None => None,
    }
}

/// A closed document is not open any more; it goes to the background as [`handed_back`] says,
/// and its symbols in the index are those of the background file. All other files stay as they
/// are.
pub proof fn law_close(
    w: WorldView,
    uri: Seq<char>,
    on_disk: Option<Seq<char>>,
    v: WorldView,
    k: Seq<char>,
)
    requires
        in_step(w),
        in_step(v),
        may_close(w, uri, on_disk, v),
    ensures
        get(v.docs, uri) is None,
        exists|ns: Option<Seq<Seq<char>>>| #[trigger]
            disk_namespace_may_be(w.root, uri, ns) && handed_back(
                w,
                uri,
                on_disk,
                ns,
                get(v.background, uri),
            ),
        indexed_as(v, uri, tree_of(get(v.background, uri))),
        latest(w, v, uri, tree_of(get(v.background, uri))),
        k != uri ==> untouched(w, v, k),
        same_setting(w, v),
{
    let ns = choose|ns: Option<Seq<Seq<char>>>| #[trigger]
        disk_namespace_may_be(w.root, uri, ns) && bare(v) == bare(
            closed(w, uri, restored(w, uri, on_disk, ns)),
        );
    let r = restored(w, uri, on_disk, ns);
    let o = closed(w, uri, r);
    lemma_without(w.docs, uri);
    lemma_without(w.background, uri);
    law_taking_a_file_out(w.index, uri, uri);
    if let Some(b) = r {
        lemma_put(w.background, uri, b);
        law_indexing_a_file(w.index.without(uri), uri, symbols_of(uri, b.tree), uri);
    }
    lemma_same_documents(v, o, uri);
    lemma_same_documents(v, o, k);
    assert(v.index == o.index);
    assert(v.background == o.background);
    assert(get(o.docs, uri) is None);
    assert(get(o.docs, k) == if k == uri {
        None
    } else {
        get(w.docs, k)
    });
    assert(get(o.background, uri) == r);
    assert(get(o.background, k) == if k == uri {
        r
    } else {
        get(w.background, k)
    });
    assert(bare(v).host == bare(o).host && bare(v).root == bare(o).root && bare(v).web_root == bare(
        o,
    ).web_root);
    assert(handed_back(w, uri, on_disk, ns, get(v.background, uri)));
}

// ── Files that are found or provided ──────────────────────────────────────────

/// An entry stands under a key.
pub open spec fn under(e: Option<(Seq<char>, BackgroundView)>, k: Seq<char>) -> bool {
    e is Some && (e->0).0 == k
}

/// Entry `i` of a list with gaps is the last that stands under a key.
pub open spec fn last_under(
    entries: Seq<Option<(Seq<char>, BackgroundView)>>,
    k: Seq<char>,
    i: int,
) -> bool {
    &&& 0 <= i < entries.len()
    &&& under(entries[i], k)
    &&& forall|j: int| i < j < entries.len() ==> !under(#[trigger] entries[j], k)
}

/// What is put into the background one after the other: the last entry under a key counts.
proof fn lemma_backgrounds(
    w: WorldView,
    entries: Seq<Option<(Seq<char>, BackgroundView)>>,
    k: Seq<char>,
)
    requires
        distinct(w.background),
    ensures
        ({
            let o = with_backgrounds(w, present(entries));
            &&& distinct(o.background)
            &&& o.docs == w.docs
            &&& same_setting(w, o)
            &&& forall|i: int| #[trigger]
                last_under(entries, k, i) ==> get(o.background, k) == Some((entries[i]->0).1)
                    && indexed_as(o, k, Some((entries[i]->0).1.tree))
            &&& (forall|i: int| !#[trigger] last_under(entries, k, i)) ==> get(o.background, k) == get(
                w.background,
                k,
            ) && same_symbols(w, o, k)
        }),
    decreases entries.len(),
{
    let list = present(entries);
    let o = with_backgrounds(w, list);
    if entries.len() > 0 {
        let rest = entries.drop_last();
        let n = entries.len() - 1;
        lemma_backgrounds(w, rest, k);
        let mid = with_backgrounds(w, present(rest));
        assert forall|i: int| i < n && #[trigger] last_under(entries, k, i) implies last_under(rest, k, i) by {
            assert forall|j: int| i < j < rest.len() implies !under(#[trigger] rest[j], k) by {
                assert(entries[j] == rest[j]);
            }
        }
        match entries[n] {
            Some(e) => {
                assert(list.drop_last() =~= present(rest));
                assert(list.last() == e);
                assert(o == with_background(mid, e.0, e.1));
                lemma_put(mid.background, e.0, e.1);
                law_indexing_a_file(mid.index, e.0, symbols_of(e.0, e.1.tree), k);
                assert(get(o.background, k) == if k == e.0 {
                    Some(e.1)
                } else {
                    get(mid.background, k)
                });
                if e.0 == k {
                    assert(last_under(entries, k, n));
                    assert forall|i: int| #[trigger] last_under(entries, k, i) implies i == n by {
                        if i < n {
                            assert(entries[n] is Some);
                        }
                    }
                }
            },
            None => {
                assert(list == present(rest));
            },
        }
        if !under(entries[n], k) {
            assert forall|i: int| #[trigger] last_under(rest, k, i) implies last_under(entries, k, i) by {
                assert forall|j: int| i < j < entries.len() implies !under(#[trigger] entries[j], k) by {
                    if j < n {
                        assert(rest[j] == entries[j]);
                    }
                }
            }
            assert forall|i: int| #[trigger] last_under(entries, k, i) implies i < n by {}
        }
    } else {
        assert(!(exists|i: int| last_under(entries, k, i)));
    }
}

/// A text gives a syntax tree.
pub open spec fn can_be_parsed(text: Option<Seq<char>>) -> bool {
    text is Some && parse_outcome(text->0).0 is Some
}

/// Found file `i` counts for the identifier `k`: it has that URL, is not open, and can be
/// parsed.
pub open spec fn found_for(
    w: WorldView,
    files: Seq<DiscoveredView>,
    urls: Seq<Option<Seq<char>>>,
    k: Seq<char>,
    i: int,
) -> bool {
    &&& 0 <= i < files.len()
    &&& urls[i] == Some(k)
    &&& get(w.docs, k) is None
    &&& can_be_parsed(files[i].source)
}

/// What a search makes of the file `k`: the last found file that counts for it is its background
/// file; without one it is as before.
pub open spec fn scanned(
    w: WorldView,
    files: Seq<DiscoveredView>,
    urls: Seq<Option<Seq<char>>>,
    v: WorldView,
    k: Seq<char>,
) -> bool {
    &&& forall|i: int|
        #[trigger] found_for(w, files, urls, k, i) && (forall|j: int|
            i < j ==> !#[trigger] found_for(w, files, urls, k, j)) ==> {
            &&& get(v.background, k) matches Some(b) && background_from(
                b,
                files[i].source->0,
                files[i].namespace,
            ) && indexed_as(v, k, Some(b.tree))
        }
    &&& (forall|i: int| !#[trigger] found_for(w, files, urls, k, i)) ==> get(v.background, k) == get(
        w.background,
        k,
    ) && same_symbols(w, v, k)
}

/// A search sets the root and leaves the documents alone. Each file that it found, that is not
/// open and can be parsed, is in the background with its namespace and its tree, and indexed;
/// all other background files stay. A search that failed changes no file.
pub proof fn law_scan(
    w: WorldView,
    root: PathBuf,
    files: Option<Seq<DiscoveredView>>,
    v: WorldView,
    k: Seq<char>,
)
    requires
        in_step(w),
        in_step(v),
        may_scan(w, root, files, v),
    ensures
        v.root == Some(root),
        v.host == w.host,
        v.web_root == w.web_root,
        same_document(get(w.docs, k), get(v.docs, k)),
        match files {
            Some(files) => exists|urls: Seq<Option<Seq<char>>>| #[trigger]
                urls_may_be(files, urls) && scanned(w, files, urls, v, k),
            None => untouched(w, v, k),
        },
{
    let base = WorldView { root: Some(root), ..w };
    if let Some(files) = files {
        let urls = choose|urls: Seq<Option<Seq<char>>>| #[trigger]
            urls_may_be(files, urls) && bare(v) == bare(
                with_backgrounds(base, present(scan_entries(w.docs, files, urls))),
            );
        let entries = scan_entries(w.docs, files, urls);
        let o = with_backgrounds(base, present(entries));
        lemma_backgrounds(base, entries, k);
        lemma_same_documents(v, o, k);
        assert(v.background == o.background);
        assert(v.index == o.index);
        assert(bare(v).host == bare(o).host && bare(v).root == bare(o).root && bare(v).web_root
            == bare(o).web_root);
        assert forall|i: int| 0 <= i < files.len() implies (#[trigger] found_for(w, files, urls, k, i)
            <==> under(entries[i], k)) by {
            assert(entries[i] == scan_entry(w.docs, files[i], urls[i]));
        }
        assert forall|i: int|
            #[trigger] found_for(w, files, urls, k, i) && (forall|j: int|
                i < j ==> !#[trigger] found_for(w, files, urls, k, j)) implies {
            &&& get(v.background, k) matches Some(b) && background_from(
                b,
                files[i].source->0,
                files[i].namespace,
            ) && indexed_as(v, k, Some(b.tree))
        } by {
            assert forall|j: int| i < j < entries.len() implies !under(#[trigger] entries[j], k) by {
                assert(!found_for(w, files, urls, k, j));
            }
            assert(last_under(entries, k, i));
            assert(entries[i] == scan_entry(w.docs, files[i], urls[i]));
        }
        if forall|i: int| !#[trigger] found_for(w, files, urls, k, i) {
            assert forall|i: int| !#[trigger] last_under(entries, k, i) by {
                if last_under(entries, k, i) {
                    assert(found_for(w, files, urls, k, i));
                }
            }
        }
        assert(scanned(w, files, urls, v, k));
    }
}

/// Provided file `i` counts for the identifier `k`: it is that file, which is not open, has a
/// namespace below the root, and can be parsed.
pub open spec fn provided_for(
    w: WorldView,
    root: Seq<char>,
    files: Keyed<Seq<char>>,
    k: Seq<char>,
    i: int,
) -> bool {
    &&& 0 <= i < files.len()
    &&& files[i].0 == k
    &&& get(w.docs, k) is None
    &&& crate::namespace::namespace_under(url_path(root), url_path(k)) is Some
    &&& parse_outcome(files[i].1).0 is Some
}

/// Files that the client provides leave the documents alone. Each that is not open, has a
/// namespace below the root and can be parsed is in the background with its namespace and its
/// tree, and indexed; all other background files stay. On the web the root is kept.
pub proof fn law_provide(
    w: WorldView,
    root: Seq<char>,
    files: Keyed<Seq<char>>,
    v: WorldView,
    k: Seq<char>,
)
    requires
        in_step(w),
        in_step(v),
        bare(v) == bare(provided(w, root, files)),
    ensures
        v.host == w.host,
        v.root == w.root,
        v.web_root == if w.host == Host::Web {
            Some(root)
        } else {
            w.web_root
        },
        same_document(get(w.docs, k), get(v.docs, k)),
        forall|i: int|
            #[trigger] provided_for(w, root, files, k, i) && (forall|j: int|
                i < j ==> !#[trigger] provided_for(w, root, files, k, j)) ==> {
                &&& get(v.background, k) matches Some(b) && background_from(
                    b,
                    files[i].1,
                    crate::namespace::namespace_under(url_path(root), url_path(k))->0,
                ) && indexed_as(v, k, Some(b.tree))
            },
        (forall|i: int| !#[trigger] provided_for(w, root, files, k, i)) ==> get(v.background, k) == get(
            w.background,
            k,
        ) && same_symbols(w, v, k),
{
    let base = WorldView {
        web_root: match w.host {
            Host::Native => w.web_root,
            Host::Web => Some(root),
        },
        ..w
    };
    let entries = provided_entries(w.docs, root, files);
    let o = with_backgrounds(base, present(entries));
    lemma_backgrounds(base, entries, k);
    lemma_same_documents(v, o, k);
    assert(v.background == o.background);
    assert(v.index == o.index);
    assert(bare(v).host == bare(o).host && bare(v).root == bare(o).root && bare(v).web_root == bare(
        o,
    ).web_root);
    assert forall|i: int| 0 <= i < files.len() implies (#[trigger] provided_for(w, root, files, k, i)
        <==> under(entries[i], k)) by {
        assert(entries[i] == provided_entry(w.docs, root, files[i].0, files[i].1));
    }
    assert forall|i: int|
        #[trigger] provided_for(w, root, files, k, i) && (forall|j: int|
            i < j ==> !#[trigger] provided_for(w, root, files, k, j)) implies {
        &&& get(v.background, k) matches Some(b) && background_from(
            b,
            files[i].1,
            crate::namespace::namespace_under(url_path(root), url_path(k))->0,
        ) && indexed_as(v, k, Some(b.tree))
    } by {
        assert forall|j: int| i < j < entries.len() implies !under(#[trigger] entries[j], k) by {
            assert(!provided_for(w, root, files, k, j));
        }
        assert(last_under(entries, k, i));
        assert(entries[i] == provided_entry(w.docs, root, files[i].0, files[i].1));
    }
    if forall|i: int| !#[trigger] provided_for(w, root, files, k, i) {
        assert forall|i: int| !#[trigger] last_under(entries, k, i) by {
            if last_under(entries, k, i) {
                assert(provided_for(w, root, files, k, i));
            }
        }
    }
}

// ── Changes on disk ───────────────────────────────────────────────────────────

/// A manifest, an open document and a file that cannot be read are left alone when they change on
/// disk. Any other file is in the background after that exactly if it has a namespace and can be
/// parsed, with the tree of its text, and is then indexed by it. All other files stay as they
/// are.
pub proof fn law_reload(
    w: WorldView,
    uri: Seq<char>,
    on_disk: Option<Seq<char>>,
    v: WorldView,
    k: Seq<char>,
)
    requires
        in_step(w),
        in_step(v),
        may_reload(w, uri, on_disk, v),
    ensures
        is_manifest(uri) || get(w.docs, uri) is Some || on_disk is None ==> v == w,
        !(is_manifest(uri) || get(w.docs, uri) is Some || on_disk is None) ==> exists|
            ns: Option<Seq<Seq<char>>>,
        | #[trigger]
            disk_namespace_may_be(w.root, uri, ns) && match get(v.background, uri) {
                Some(b) => ns is Some && background_from(b, on_disk->0, ns->0) && indexed_as(
                    v,
                    uri,
                    Some(b.tree),
                ) && latest(w, v, uri, Some(b.tree)),
                None => (ns is None || parse_outcome(on_disk->0).0 is None) && v.index == w.index,
            },
        k != uri ==> untouched(w, v, k),
        same_document(get(w.docs, uri), get(v.docs, uri)),
        same_setting(w, v),
{
    if !(is_manifest(uri) || has_key(w.docs, uri) || on_disk is None) {
        let ns = choose|ns: Option<Seq<Seq<char>>>| #[trigger]
            disk_namespace_may_be(w.root, uri, ns) && bare(v) == bare(
                reloaded(w, uri, on_disk->0, ns),
            );
        let o = reloaded(w, uri, on_disk->0, ns);
        lemma_without(w.background, uri);
        if let Some(b) = background_of(on_disk, ns) {
            lemma_put(w.background, uri, b);
            law_indexing_a_file(w.index, uri, symbols_of(uri, b.tree), uri);
        }
        lemma_same_documents(v, o, uri);
        lemma_same_documents(v, o, k);
        assert(v.index == o.index);
        assert(v.background == o.background);
        assert(o.docs == w.docs);
        assert(get(o.background, uri) == background_of(on_disk, ns));
        assert(get(o.background, k) == if k == uri {
            background_of(on_disk, ns)
        } else {
            get(w.background, k)
        });
        assert(bare(v).host == bare(o).host && bare(v).root == bare(o).root && bare(v).web_root
            == bare(o).web_root);
    }
}

/// A deleted file is gone from the background and from the index, unless it is open. All other
/// files stay as they are.
pub proof fn law_remove(w: WorldView, uri: Seq<char>, v: WorldView, k: Seq<char>)
    requires
        in_step(w),
        in_step(v),
        may_remove(w, uri, v),
    ensures
        get(w.docs, uri) is Some ==> v == w,
        get(w.docs, uri) is None ==> get(v.background, uri) is None && indexed_as(v, uri, None)
            && latest(w, v, uri, None) && get(v.docs, uri) is None,
        k != uri ==> untouched(w, v, k),
        same_setting(w, v),
{
    if !has_key(w.docs, uri) {
        let o = removed(w, uri);
        lemma_without(w.background, uri);
        law_taking_a_file_out(w.index, uri, uri);
        lemma_same_documents(v, o, uri);
        lemma_same_documents(v, o, k);
        assert(v.index == o.index);
        assert(v.background == o.background);
        assert(get(o.background, uri) is None);
        assert(get(o.background, k) == if k == uri {
            None
        } else {
            get(w.background, k)
        });
        assert(bare(v).host == bare(o).host && bare(v).root == bare(o).root && bare(v).web_root
            == bare(o).web_root);
    }
}

// ── Namespaces of files ───────────────────────────────────────────────────────

/// On a native host a file has a namespace only below the root, and only as a file URL; then it
/// is that of the path which the URL stands for. On the web it is that of the URL below the
/// provided root, or of the URL alone without one.
pub proof fn law_namespaces_of_files(w: WorldView, uri: Seq<char>, ns: Option<Seq<Seq<char>>>)
    requires
        namespace_may_be(w, uri, ns),
    ensures
        w.host == Host::Native && (w.root is None || !"file:"@.is_prefix_of(uri)) ==> ns is None,
        w.host == Host::Native && w.root is Some && "file:"@.is_prefix_of(uri) ==> exists|
            path: Option<PathBuf>,
        | #[trigger]
            url_may_be_path(uri, path) && ns == crate::namespace::path_namespace(path, w.root->0),
        w.host == Host::Web && w.web_root is Some ==> ns == crate::namespace::namespace_under(
            url_path(w.web_root->0),
            url_path(uri),
        ),
        w.host == Host::Web && w.web_root is None ==> ns == crate::namespace::url_namespace(
            crate::namespace::without_leading_slashes(url_path(uri)),
        ),
{
}

/// What a file has as a namespace below a directory: that of the path which its URL stands for,
/// if it is a file URL and there is a directory; else none.
pub proof fn law_namespaces_on_disk(root: Option<PathBuf>, uri: Seq<char>, ns: Option<Seq<Seq<char>>>)
    ensures
        disk_namespace_may_be(root, uri, ns) <==> if root is Some && "file:"@.is_prefix_of(uri) {
            exists|path: Option<PathBuf>| #[trigger]
                url_may_be_path(uri, path) && ns == crate::namespace::path_namespace(path, root->0)
        } else {
            ns is None
        },
{
}

/// Each found file has one URL, or none, which its path is written as.
pub proof fn law_urls_of_found_files(
    files: Seq<DiscoveredView>,
    urls: Seq<Option<Seq<char>>>,
    i: int,
)
    requires
        urls_may_be(files, urls),
        0 <= i < files.len(),
    ensures
        urls.len() == files.len(),
        path_may_be_url(files[i].path, urls[i]),
{
}

/// A workspace starts without files and without roots.
pub proof fn law_workspaces_start_empty(host: Host, k: Seq<char>)
    ensures
        consistent(empty_world(host)),
        get(empty_world(host).docs, k) is None,
        get(empty_world(host).background, k) is None,
        !empty_world(host).index.files.contains_key(k),
        !empty_world(host).index.symbols.contains_key(k),
        empty_world(host).host == host,
        empty_world(host).root is None,
        empty_world(host).web_root is None,
{
}

} // verus!
