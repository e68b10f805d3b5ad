//! Multi-file workspace state.
//!
//! [`World`] owns every open document and one symbol index that spans all open files and
//! all known files in the background: on a native host those found on disk, on the web
//! those that the client has provided. After each change all open documents are analysed
//! again.

pub use crate::document::Document;
pub use crate::workspace::Host;

use crate::ast::{copy_texts, file_trees, FileTree};
use crate::checks::{
    analyze, knowledge_files, knowledge_keep, knowledge_of, knowledge_trees, lint, named_files,
};
use crate::document::{namespace_view, DocumentView};
use crate::index::{empty_index, index_add, index_remove, index_view};
use crate::keyed::{
    distinct, get, has_key, key_at, lemma_place, lemma_put, place, put, without, Keyed,
};
use crate::lists::{lemma_present_contains, lemma_present_push, present};
use crate::namespace::{
    namespace_below, namespace_from_uri_path, namespace_relative_to_root, namespace_under,
};
use crate::parsing::{
    does_manifest_parser_return, does_parser_return, empty_comment_map, parse_document,
    parse_package_manifest, parse_tree, parser_returns,
};
use crate::paths::{file_path, file_url, path_may_be_url, url_may_be_path};
use crate::problem::{findings, Finding};
use crate::rope::{rope_of, rope_string};
use crate::text::{ends_with, opt_text, same, starts_with, texts};
use crate::types::SourceSpan;
use crate::uri::{path_of, url_path, url_str, url_text};
use crate::workspace::{
    all_scannable, background_files, background_indexed, bare, bare_doc, bare_docs, closable, closed,
    consistent, disk_namespace_may_be, doc_files, doc_follows_text, doc_indexed, doc_settled,
    doc_trees, empty_world, fresh_document, in_step, is_file, is_manifest, known_files,
    law_background_in_step, law_backgrounds_in_step, law_close_in_step, law_forget_in_step,
    law_open_in_step, law_remove_in_step, law_update_in_step, legible, lemma_bare_knowledge,
    may_close, may_open, may_reload, may_remove, may_scan, may_update, named_background,
    named_docs, namespace_may_be, opened, package_files, providable, provided, provided_entries,
    provided_entry, reindexed, reloadable, restored, scan_entries, scan_entry, scannable,
    urls_may_be, with_background, with_backgrounds, BackgroundView, DiscoveredView, WorldView,
};
use dolfin_analysis::SymbolIndex;
use dolfin_lint::PackageKnowledge;
use lsp_types::Url;
use rowl::ast::OntologyFile;
use std::path::PathBuf;
use vstd::prelude::*;

verus! {

/// An open document.
struct Opened {
    uri: Url,
    doc: Document,
}

/// A file that is known but not open.
struct Background {
    key: String,
    namespace: Vec<String>,
    tree: OntologyFile,
    places: Vec<SourceSpan>,
}

/// A file that was found below the workspace root: its path, its namespace, and its text
/// if it could be read.
pub struct DiscoveredFile {
    pub path: PathBuf,
    pub namespace: Vec<String>,
    pub source: Option<String>,
}

/// The workspace: all open documents, all background files and their symbol index.
pub struct World {
    opened: Vec<Opened>,
    background: Vec<Background>,
    index: SymbolIndex,
    host: Host,
    /// Root directory, which the namespaces of documents are relative to on a native host.
    pub workspace_root: Option<PathBuf>,
    /// Root URL, which the namespaces of documents are relative to on the web.
    pub web_root: Option<Url>,
}

impl Background {
    /// Contents of the file.
    spec fn contents(&self) -> BackgroundView {
        BackgroundView {
            namespace: texts(self.namespace@),
            tree: self.tree,
            places: self.places@,
        }
    }
}

impl View for DiscoveredFile {
    type V = DiscoveredView;

    open spec fn view(&self) -> DiscoveredView {
        DiscoveredView {
            path: self.path,
            namespace: texts(self.namespace@),
            source: opt_text(self.source),
        }
    }
}

/// Contents of a list of discovered files.
pub open spec fn discovered_views(v: Seq<DiscoveredFile>) -> Seq<DiscoveredView> {
    Seq::new(v.len(), |i: int| v[i]@)
}

/// Contents of the files that a search found, if it succeeded.
pub open spec fn opt_discovered(v: Option<Vec<DiscoveredFile>>) -> Option<Seq<DiscoveredView>> {
    match v {
        Some(files) => Some(discovered_views(files@)),
        None => None,
    }
}

/// Contents of a list of provided files.
pub open spec fn provided_views(v: Seq<(Url, String)>) -> Keyed<Seq<char>> {
    Seq::new(v.len(), |i: int| (url_text(v[i].0), v[i].1@))
}

/// Contents of a list of open documents.
spec fn docs_view(v: Seq<Opened>) -> Keyed<DocumentView> {
    Seq::new(v.len(), |i: int| (url_text(v[i].uri), v[i].doc@))
}

/// Contents of a list of background files.
spec fn background_view(v: Seq<Background>) -> Keyed<BackgroundView> {
    Seq::new(v.len(), |i: int| (v[i].key@, v[i].contents()))
}

/// The text of an optional URL.
pub open spec fn opt_url(u: Option<Url>) -> Option<Seq<char>> {
    match u {
        Some(u) => Some(url_text(u)),
        None => None,
    }
}

impl View for World {
    type V = WorldView;

    closed spec fn view(&self) -> WorldView {
        WorldView {
            docs: docs_view(self.opened@),
            background: background_view(self.background@),
            index: index_view(self.index),
            host: self.host,
            root: self.workspace_root,
            web_root: opt_url(self.web_root),
        }
    }
}

impl World {
    /// Every document is well formed.
    pub closed spec fn outlined(&self) -> bool {
        forall|i: int| 0 <= i < self.opened@.len() ==> (#[trigger] self.opened@[i]).doc.wf()
    }

    /// The invariant of the workspace.
    pub open spec fn wf(&self) -> bool {
        self.outlined() && consistent(self@)
    }

    // ── Construction ──────────────────────────────────────────────────────────

    /// The empty workspace of a native host.
    pub fn new() -> (r: World)
        ensures
            r.wf(),
            r@ == empty_world(Host::Native),
    {
        World::on(Host::Native)
    }

    /// The empty workspace of a host.
    pub fn on(host: Host) -> (r: World)
        ensures
            r.wf(),
            r@ == empty_world(host),
    {
        let r = World {
            opened: Vec::new(),
            background: Vec::new(),
            index: empty_index(),
            host,
            workspace_root: None,
            web_root: None,
        };
        proof {
            assert(r@.docs =~= Seq::empty());
            assert(r@.background =~= Seq::empty());
            assert(r@ == empty_world(host));
            assert(r@.index.merged());
        }
        r
    }

    /// Whether the workspace is that of a native host.
    pub fn is_native(&self) -> (r: bool)
        ensures
            r == (self@.host == Host::Native),
    {
        match self.host {
            Host::Native => true,
            Host::Web => false,
        }
    }

    /// The text under which a file is known.
    pub fn uri_key(uri: &Url) -> (r: String)
        ensures
            r@ == url_text(*uri),
    {
        url_str(uri).to_owned()
    }

    /// Whether a URL is that of a package manifest.
    pub fn is_package_manifest(uri: &Url) -> (r: bool)
        ensures
            r == is_manifest(url_text(*uri)),
    {
        let path = path_of(uri);
        ends_with(path, "/package.dlf") || same(path, "package.dlf")
    }

    // ── Lookup ────────────────────────────────────────────────────────────────

    /// The place of an open document.
    fn find(&self, uri: &Url) -> (r: Option<usize>)
        ensures
            match r {
                Some(i) => i < self.opened@.len() && key_at(self@.docs, i as int, url_text(*uri)),
                None => !has_key(self@.docs, url_text(*uri)),
            },
    {
        let mut i: usize = 0;
        while i < self.opened.len()
            invariant
                i <= self.opened@.len(),
                forall|j: int| 0 <= j < i ==> !key_at(self@.docs, j, url_text(*uri)),
            decreases self.opened@.len() - i,
        {
            if same(url_str(&self.opened[i].uri), url_str(uri)) {
                return Some(i);
            }
            i = i + 1;
        }
        None
    }

    /// The place of a background file.
    fn find_background(&self, key: &str) -> (r: Option<usize>)
        ensures
            match r {
                Some(i) => i < self.background@.len() && key_at(self@.background, i as int, key@),
                None => !has_key(self@.background, key@),
            },
    {
        let mut i: usize = 0;
        while i < self.background.len()
            invariant
                i <= self.background@.len(),
                forall|j: int| 0 <= j < i ==> !key_at(self@.background, j, key@),
            decreases self.background@.len() - i,
        {
            if same(self.background[i].key.as_str(), key) {
                return Some(i);
            }
            i = i + 1;
        }
        None
    }

    /// The document for `uri`, if it is open.
    pub fn doc(&self, uri: &Url) -> (r: Option<&Document>)
        requires
            self.wf(),
        ensures
            match r {
                Some(d) => d.wf() && get(self@.docs, url_text(*uri)) == Some(d@),
                None => get(self@.docs, url_text(*uri)) is None,
            },
    {
        match self.find(uri) {
            Some(i) => {
                proof {
                    lemma_place(self@.docs, i as int);
                }
                Some(&self.opened[i].doc)
            },
            None => None,
        }
    }

    /// Calls `f` with the document for `uri`, if it is open.
    pub fn with_doc<R, F: FnOnce(&Document) -> R>(&self, uri: &Url, f: F) -> (r: Option<R>)
        requires
            self.wf(),
            forall|d: &Document|
                d.wf() && get(self@.docs, url_text(*uri)) == Some(d@) ==> call_requires(f, (d,)),
        ensures
            match r {
                Some(v) => exists|d: &Document|
                    get(self@.docs, url_text(*uri)) == Some(d@) && call_ensures(f, (d,), v),
                None => get(self@.docs, url_text(*uri)) is None,
            },
    {
        match self.doc(uri) {
            Some(d) => Some(f(d)),
            None => None,
        }
    }

    /// The URLs of all open documents.
    pub fn all_uris(&self) -> (r: Vec<Url>)
        ensures
            r@.len() == self@.docs.len(),
            forall|i: int| 0 <= i < r@.len() ==> url_text(#[trigger] r@[i]) == self@.docs[i].0,
    {
        let mut out: Vec<Url> = Vec::new();
        let mut i: usize = 0;
        while i < self.opened.len()
            invariant
                i <= self.opened@.len(),
                out@.len() == i,
                forall|j: int| 0 <= j < i ==> url_text(#[trigger] out@[j]) == self@.docs[j].0,
            decreases self.opened@.len() - i,
        {
            out.push(self.opened[i].uri.clone());
            i = i + 1;
        }
        out
    }

    /// All known syntax trees: those of background files, then those of open documents.
    pub fn all_file_asts(&self) -> (r: Vec<FileTree<'_>>)
        requires
            self.wf(),
        ensures
            file_trees(r@) == known_files(self@),
    {
        let mut out: Vec<FileTree<'_>> = Vec::new();
        let mut i: usize = 0;
        assert(file_trees(out@) =~= background_files(self@.background).take(0));
        while i < self.background.len()
            invariant
                i <= self.background@.len(),
                file_trees(out@) == background_files(self@.background).take(i as int),
            decreases self.background@.len() - i,
        {
            let ghost now = file_trees(out@);
            let b = &self.background[i];
            let entry = FileTree { key: b.key.clone(), tree: &b.tree, places: &b.places };
            out.push(entry);
            proof {
                let all = background_files(self@.background);
                assert(file_trees(out@) =~= now.push(entry@));
                assert(all.take(i + 1) =~= all.take(i as int).push(all[i as int]));
            }
            i = i + 1;
        }
        let ghost before = file_trees(out@);
        let ghost all = doc_files(self@.docs);
        let mut k: usize = 0;
        assert(before =~= background_files(self@.background));
        assert(before + present(all.take(0)) =~= before);
        while k < self.opened.len()
            invariant
                k <= self.opened@.len(),
                self.outlined(),
                all == doc_files(self@.docs),
                file_trees(out@) == before + present(all.take(k as int)),
            decreases self.opened@.len() - k,
        {
            proof {
                assert(all.take(k + 1) =~= all.take(k as int).push(all[k as int]));
                lemma_present_push(all.take(k as int), all[k as int]);
            }
            let ghost now = file_trees(out@);
            let o = &self.opened[k];
            if let Some(f) = &o.doc.parse.ontology {
                let entry = FileTree {
                    key: Self::uri_key(&o.uri),
                    tree: &f.tree,
                    places: &f.places,
                };
                out.push(entry);
                assert(file_trees(out@) =~= now.push(entry@));
            }
            k = k + 1;
        }
        assert(all.take(all.len() as int) =~= all);
        out
    }

    // ── Namespaces ────────────────────────────────────────────────────────────

    /// The namespace of a file from its path below the root directory. `None` if there is
    /// no root, the URL is no file URL or stands for no path, or the path gives no namespace.
    pub fn namespace_for_uri(&self, uri: &Url) -> (r: Option<Vec<String>>)
        ensures
            disk_namespace_may_be(self@.root, url_text(*uri), namespace_view(r)),
            self@.root is None ==> r is None,
            !is_file(url_text(*uri)) ==> r is None,
    {
        if !starts_with(url_str(uri), "file:") {
            return None;
        }
        match &self.workspace_root {
            Some(root) => {
                let path = file_path(uri);
                let ns = namespace_below(&path, root);
                assert(url_may_be_path(url_text(*uri), path));
                ns
            },
            None => None,
        }
    }

    /// The namespace of a document.
    fn document_namespace(&self, uri: &Url) -> (r: Option<Vec<String>>)
        ensures
            namespace_may_be(self@, url_text(*uri), namespace_view(r)),
    {
        match self.host {
            Host::Native => self.namespace_for_uri(uri),
            Host::Web => match &self.web_root {
                Some(root) => namespace_relative_to_root(root, uri),
                None => namespace_from_uri_path(uri),
            },
        }
    }

    // ── Documents ─────────────────────────────────────────────────────────────

    /// A document that has not been analysed yet.
    fn make_document(&self, uri: &Url, source: &str) -> (r: Document)
        requires
            legible(url_text(*uri), source@),
        ensures
            r.wf(),
            namespace_may_be(self@, url_text(*uri), r@.namespace),
            r@ == fresh_document(url_text(*uri), source@, r@.namespace),
    {
        let rope = rope_of(source);
        let namespace = self.document_namespace(uri);
        let lint: Vec<Finding> = Vec::new();
        assert(findings(lint@) =~= Seq::empty());
        if Self::is_package_manifest(uri) {
            let (parse, package) = parse_package_manifest(source);
            Document {
                rope,
                parse,
                analysis: None,
                lint,
                package,
                namespace,
                comment_map: empty_comment_map(),
            }
        } else {
            let (parse, comment_map) = parse_document(source);
            Document { rope, parse, analysis: None, lint, package: None, namespace, comment_map }
        }
    }

    /// Puts the symbols of a document into the index, or takes the file out of it if it has
    /// no syntax tree.
    fn update_index(&mut self, uri: &Url, doc: &Document)
        ensures
            final(self)@ == (WorldView {
                index: reindexed(old(self)@.index, url_text(*uri), doc@),
                ..old(self)@
            }),
            final(self).outlined() == old(self).outlined(),
    {
        let key = Self::uri_key(uri);
        match &doc.parse.ontology {
            Some(f) => index_add(&mut self.index, key.as_str(), &f.tree),
            None => index_remove(&mut self.index, key.as_str()),
        }
    }

    /// Puts a document under its URL, in place of the one that was there.
    fn put_document(&mut self, uri: Url, doc: Document)
        requires
            old(self).outlined(),
            distinct(old(self)@.docs),
            doc.wf(),
        ensures
            final(self).outlined(),
            final(self)@ == (WorldView {
                docs: put(old(self)@.docs, url_text(uri), doc@),
                ..old(self)@
            }),
    {
        let ghost w = self@;
        let ghost u = url_text(uri);
        let ghost d = doc@;
        match self.find(&uri) {
            Some(i) => {
                proof {
                    lemma_place(w.docs, i as int);
                }
                let slot = &mut self.opened[i];
                slot.doc = doc;
                assert(self@.docs =~= put(w.docs, u, d));
            },
            None => {
                self.opened.push(Opened { uri, doc });
                assert(self@.docs =~= put(w.docs, u, d));
            },
        }
    }

    /// Takes the document for `uri` out, if it is open.
    fn take_document(&mut self, uri: &Url) -> (r: Option<Document>)
        requires
            old(self).outlined(),
            distinct(old(self)@.docs),
        ensures
            final(self).outlined(),
            final(self)@ == (WorldView {
                docs: without(old(self)@.docs, url_text(*uri)),
                ..old(self)@
            }),
            match r {
                Some(d) => d.wf() && get(old(self)@.docs, url_text(*uri)) == Some(d@),
                None => get(old(self)@.docs, url_text(*uri)) is None,
            },
    {
        let ghost w = self@;
        let ghost u = url_text(*uri);
        match self.find(uri) {
            Some(i) => {
                proof {
                    lemma_place(w.docs, i as int);
                }
                let o = self.opened.remove(i);
                assert(self@.docs =~= without(w.docs, u));
                Some(o.doc)
            },
            None => None,
        }
    }

    // ── Background files ──────────────────────────────────────────────────────

    /// Puts a background file under its key, and its symbols into the index.
    fn put_background(&mut self, b: Background)
        requires
            distinct(old(self)@.background),
        ensures
            final(self).outlined() == old(self).outlined(),
            final(self)@ == with_background(old(self)@, b.key@, b.contents()),
    {
        let ghost w = self@;
        let ghost key = b.key@;
        let ghost c = b.contents();
        index_add(&mut self.index, b.key.as_str(), &b.tree);
        match self.find_background(b.key.as_str()) {
            Some(i) => {
                proof {
                    lemma_place(w.background, i as int);
                }
                let slot = &mut self.background[i];
                *slot = b;
                assert(self@.background =~= put(w.background, key, c));
            },
            None => {
                self.background.push(b);
                assert(self@.background =~= put(w.background, key, c));
            },
        }
    }

    /// Puts background files under their keys, one after the other.
    fn put_backgrounds(&mut self, files: Vec<Background>)
        requires
            distinct(old(self)@.background),
        ensures
            final(self).outlined() == old(self).outlined(),
            final(self)@ == with_backgrounds(old(self)@, background_view(files@)),
    {
        let ghost w = self@;
        let ghost out = self.outlined();
        let ghost all = files@;
        let ghost views = background_view(all);
        for b in it: files
            invariant
                it.seq() == all,
                views == background_view(all),
                distinct(self@.background),
                self.outlined() == out,
                self@ == with_backgrounds(w, views.take(it.index() as int)),
        {
            proof {
                let n = it.index() as int;
                assert(views.take(n + 1).drop_last() =~= views.take(n));
                assert(views.take(n + 1).last() == (b.key@, b.contents()));
                lemma_put(self@.background, b.key@, b.contents());
            }
            self.put_background(b);
        }
        assert(views.take(views.len() as int) =~= views);
    }

    /// Takes a background file out; the index is left as it is.
    fn forget_background(&mut self, key: &str)
        requires
            distinct(old(self)@.background),
        ensures
            final(self).outlined() == old(self).outlined(),
            final(self)@ == (WorldView {
                background: without(old(self)@.background, key@),
                ..old(self)@
            }),
    {
        let ghost w = self@;
        if let Some(i) = self.find_background(key) {
            proof {
                lemma_place(w.background, i as int);
            }
            let _b = self.background.remove(i);
            assert(self@.background =~= without(w.background, key@));
        }
    }

    // ── Analysis ──────────────────────────────────────────────────────────────

    /// What the lint rules know: all files with a namespace, and the syntax trees of the
    /// open documents.
    fn build_package_knowledge(&self) -> (r: PackageKnowledge)
        requires
            self.outlined(),
        ensures
            knowledge_files(r) == package_files(self@),
            knowledge_trees(r) == doc_trees(self@.docs),
    {
        let mut files: Vec<(Vec<String>, &OntologyFile)> = Vec::new();
        let ghost all = named_docs(self@.docs);
        let mut i: usize = 0;
        assert(named_files(files@) =~= present(all.take(0)));
        while i < self.opened.len()
            invariant
                i <= self.opened@.len(),
                self.outlined(),
                all == named_docs(self@.docs),
                named_files(files@) == present(all.take(i as int)),
            decreases self.opened@.len() - i,
        {
            proof {
                assert(all.take(i + 1) =~= all.take(i as int).push(all[i as int]));
                lemma_present_push(all.take(i as int), all[i as int]);
            }
            let ghost now = named_files(files@);
            let doc = &self.opened[i].doc;
            if let (Some(ns), Some(f)) = (&doc.namespace, &doc.parse.ontology) {
                let entry = (copy_texts(ns), &f.tree);
                files.push(entry);
                assert(named_files(files@) =~= now.push((texts(entry.0@), *entry.1)));
            }
            i = i + 1;
        }
        assert(all.take(all.len() as int) =~= all);
        let ghost docs = named_files(files@);
        let ghost rest = named_background(self@.background);
        let mut k: usize = 0;
        assert(docs =~= docs + rest.take(0));
        while k < self.background.len()
            invariant
                k <= self.background@.len(),
                rest == named_background(self@.background),
                named_files(files@) == docs + rest.take(k as int),
            decreases self.background@.len() - k,
        {
            let ghost now = named_files(files@);
            let b = &self.background[k];
            let entry = (copy_texts(&b.namespace), &b.tree);
            files.push(entry);
            proof {
                assert(named_files(files@) =~= now.push(rest[k as int]));
                assert(rest.take(k + 1) =~= rest.take(k as int).push(rest[k as int]));
            }
            k = k + 1;
        }
        assert(rest.take(rest.len() as int) =~= rest);
        let mut knowledge = knowledge_of(&files);
        let mut m: usize = 0;
        assert(knowledge_trees(knowledge) =~= doc_trees(self@.docs.take(0)));
        while m < self.opened.len()
            invariant
                m <= self.opened@.len(),
                self.outlined(),
                knowledge_files(knowledge) == package_files(self@),
                knowledge_trees(knowledge) == doc_trees(self@.docs.take(m as int)),
            decreases self.opened@.len() - m,
        {
            proof {
                assert(self@.docs.take(m + 1).drop_last() =~= self@.docs.take(m as int));
                assert(self@.docs.take(m + 1).last() == self@.docs[m as int]);
            }
            let o = &self.opened[m];
            if let Some(f) = &o.doc.parse.ontology {
                knowledge_keep(&mut knowledge, url_str(&o.uri), &f.tree);
            }
            m = m + 1;
        }
        assert(self@.docs.take(self@.docs.len() as int) =~= self@.docs);
        knowledge
    }

    /// Analyses and lints every open document against the workspace as it is.
    fn reanalyze_all_inner(&mut self)
        requires
            old(self).outlined(),
            in_step(old(self)@),
        ensures
            final(self).wf(),
            bare(final(self)@) == bare(old(self)@),
    {
        let knowledge = self.build_package_knowledge();
        let ghost w = self@;
        let n: usize = self.opened.len();
        let mut i: usize = 0;
        while i < n
            invariant
                i <= n == self.opened@.len(),
                n == w.docs.len(),
                knowledge_files(knowledge) == package_files(w),
                knowledge_trees(knowledge) == doc_trees(w.docs),
                in_step(w),
                self.outlined(),
                self@.index == w.index,
                self@.background == w.background,
                self@.host == w.host,
                self@.root == w.root,
                self@.web_root == w.web_root,
                forall|j: int|
                    0 <= j < n ==> (#[trigger] self@.docs[j]).0 == w.docs[j].0 && bare_doc(
                        self@.docs[j].1,
                    ) == bare_doc(w.docs[j].1),
                forall|j: int| i <= j < n ==> #[trigger] self@.docs[j] == w.docs[j],
                forall|j: int|
                    0 <= j < i ==> doc_settled(w, (#[trigger] self@.docs[j]).0, self@.docs[j].1)
                        && doc_indexed(w.index, self@.docs[j].0, self@.docs[j].1),
            decreases n - i,
        {
            let ghost before = self@.docs;
            let ghost d = self.opened@[i as int].doc;
            assert(self@.docs[i as int] == w.docs[i as int]);
            assert(doc_indexed(w.index, w.docs[i as int].0, w.docs[i as int].1));
            let fresh = {
                let o = &self.opened[i];
                match &o.doc.parse.ontology {
                    Some(f) => {
                        let analysis = analyze(&f.tree, &self.index);
                        let source = rope_string(&o.doc.rope);
                        let found = lint(
                            &f.tree,
                            source.as_str(),
                            url_str(&o.uri),
                            &knowledge,
                        );
                        Some((analysis, found))
                    },
                    None => None,
                }
            };
            if let Some((analysis, found)) = fresh {
                let slot = &mut self.opened[i];
                slot.doc.analysis = Some(analysis);
                slot.doc.lint = found;
            }
            proof {
                assert forall|j: int| 0 <= j < n && j != i implies #[trigger] self@.docs[j]
                    == before[j] by {}
                assert(self@.docs[i as int].0 == w.docs[i as int].0);
                assert(bare_doc(self@.docs[i as int].1) == bare_doc(w.docs[i as int].1));
                assert(doc_settled(w, self@.docs[i as int].0, self@.docs[i as int].1));
                assert(self.opened@[i as int].doc.wf());
            }
            i = i + 1;
        }
        proof {
            assert(bare_docs(self@.docs) =~= bare_docs(w.docs));
            assert(bare(self@) == bare(w));
            lemma_bare_knowledge(self@, w);
            assert(distinct(self@.docs)) by {
                assert forall|a: int, b: int| 0 <= a < b < self@.docs.len() implies (
                #[trigger] self@.docs[a]).0 != (#[trigger] self@.docs[b]).0 by {
                    assert(w.docs[a].0 != w.docs[b].0);
                }
            }
            assert forall|j: int| 0 <= j < self@.docs.len() implies doc_follows_text(
                (#[trigger] self@.docs[j]).0,
                self@.docs[j].1,
            ) by {
                assert(doc_follows_text(w.docs[j].0, w.docs[j].1));
                assert(bare_doc(self@.docs[j].1) == bare_doc(w.docs[j].1));
                assert(bare_doc(w.docs[j].1).text == self@.docs[j].1.text);
                assert(bare_doc(w.docs[j].1).namespace == self@.docs[j].1.namespace);
            }
            assert forall|k: Seq<char>| has_key(w.docs, k) implies #[trigger] has_key(self@.docs, k) by {
                let j = place(w.docs, k);
                assert(key_at(w.docs, j, k));
                assert(key_at(self@.docs, j, k));
            }
            assert forall|j: int| 0 <= j < self@.background.len() implies
                background_indexed(
                self@,
                (#[trigger] self@.background[j]).0,
                self@.background[j].1,
            ) by {
                assert(background_indexed(
                    w,
                    w.background[j].0,
                    w.background[j].1,
                ));
            }
            assert(in_step(self@));
            assert forall|j: int| 0 <= j < self@.docs.len() implies doc_settled(
                self@,
                (#[trigger] self@.docs[j]).0,
                self@.docs[j].1,
            ) by {
                assert(doc_settled(w, self@.docs[j].0, self@.docs[j].1));
            }
        }
    }

    // ── Which texts can be taken in ───────────────────────────────────────────

    /// Whether a text can be taken in as that of a document.
    pub fn can_open(uri: &Url, source: &str) -> (r: bool)
        ensures
            r == legible(url_text(*uri), source@),
    {
        if Self::is_package_manifest(uri) {
            does_manifest_parser_return(source)
        } else {
            does_parser_return(source)
        }
    }

    /// Whether a document with the given text on disk can be closed.
    pub fn can_close(&self, uri: &Url, on_disk: &Option<String>) -> (r: bool)
        ensures
            r == closable(self@, url_text(*uri), opt_text(*on_disk)),
    {
        match on_disk {
            Some(source) => Self::is_package_manifest(uri) || !self.is_native() || does_parser_return(
                source.as_str(),
            ),
            None => true,
        }
    }

    /// Whether the parser comes back from all texts that a search found.
    pub fn can_scan(discovered: &Option<Vec<DiscoveredFile>>) -> (r: bool)
        ensures
            r == all_scannable(opt_discovered(*discovered)),
    {
        let files = match discovered {
            Some(files) => files,
            None => {
                return true;
            },
        };
        let ghost views = discovered_views(files@);
        let mut i: usize = 0;
        while i < files.len()
            invariant
                i <= files.len(),
                opt_discovered(*discovered) == Some(views),
                views == discovered_views(files@),
                forall|j: int|
                    0 <= j < i ==> ((#[trigger] views[j]).source matches Some(text) ==> parser_returns(
                        text,
                    )),
            decreases files.len() - i,
        {
            if let Some(source) = &files[i].source {
                if !does_parser_return(source.as_str()) {
                    proof {
                        assert(views[i as int].source == Some(source@));
                        assert(!all_scannable(Some(views)));
                    }
                    return false;
                }
            }
            i = i + 1;
        }
        true
    }

    /// Whether files that the client provides can be taken in.
    pub fn can_index(&self, root: &Url, files: &Vec<(Url, String)>) -> (r: bool)
        ensures
            r == providable(self@, url_text(*root), provided_views(files@)),
    {
        let ghost views = provided_views(files@);
        let mut i: usize = 0;
        while i < files.len()
            invariant
                i <= files.len(),
                views == provided_views(files@),
                forall|j: int|
                    0 <= j < i ==> {
                        ||| has_key(self@.docs, (#[trigger] views[j]).0)
                        ||| namespace_under(url_path(url_text(*root)), url_path(views[j].0))
                            is None
                        ||| parser_returns(views[j].1)
                    },
            decreases files.len() - i,
        {
            let (uri, text) = &files[i];
            if self.find(uri).is_none() && namespace_relative_to_root(root, uri).is_some()
                && !does_parser_return(text.as_str()) {
                assert(!has_key(self@.docs, views[i as int].0));
                return false;
            }
            i = i + 1;
        }
        true
    }

    /// Whether a file with the given text on disk can be read again.
    pub fn can_reload(&self, uri: &Url, on_disk: &Option<String>) -> (r: bool)
        ensures
            r == reloadable(self@, url_text(*uri), opt_text(*on_disk)),
    {
        match on_disk {
            Some(source) => Self::is_package_manifest(uri) || self.find(uri).is_some()
                || does_parser_return(source.as_str()),
            None => true,
        }
    }

    // ── Editor documents ──────────────────────────────────────────────────────

    /// Opens a document. It is no background file any more.
    pub fn open(&mut self, uri: Url, source: String)
        requires
            old(self).wf(),
            legible(url_text(uri), source@),
        ensures
            final(self).wf(),
            may_open(old(self)@, url_text(uri), source@, final(self)@),
    {
        let ghost w = self@;
        self.forget_background(url_str(&uri));
        let doc = self.make_document(&uri, source.as_str());
        let ghost ns = doc@.namespace;
        proof {
            law_open_in_step(w, url_text(uri), source@, ns);
            assert(namespace_may_be(w, url_text(uri), ns));
        }
        self.update_index(&uri, &doc);
        self.put_document(uri, doc);
        self.reanalyze_all_inner();
    }

    /// Changes the text of a document.
    pub fn update(&mut self, uri: &Url, source: String)
        requires
            old(self).wf(),
            legible(url_text(*uri), source@),
        ensures
            final(self).wf(),
            may_update(old(self)@, url_text(*uri), source@, final(self)@),
    {
        let ghost w = self@;
        let doc = self.make_document(uri, source.as_str());
        let ghost ns = doc@.namespace;
        proof {
            law_update_in_step(w, url_text(*uri), source@, ns);
            assert(namespace_may_be(w, url_text(*uri), ns));
        }
        self.update_index(uri, &doc);
        self.put_document(uri.clone(), doc);
        self.reanalyze_all_inner();
    }

    /// Closes a document. It goes back to the background: on a native host as it stands on
    /// disk (`on_disk` is its text there, if it could be read), on the web as it was last.
    pub fn close(&mut self, uri: &Url, on_disk: Option<String>)
        requires
            old(self).wf(),
            closable(old(self)@, url_text(*uri), opt_text(on_disk)),
        ensures
            final(self).wf(),
            may_close(old(self)@, url_text(*uri), opt_text(on_disk), final(self)@),
    {
        let ghost w = self@;
        let ghost u = url_text(*uri);
        let namespace = self.namespace_for_uri(uri);
        let ghost ns = namespace_view(namespace);
        let ghost b = restored(w, u, opt_text(on_disk), ns);
        proof {
            law_close_in_step(w, u, b);
            assert(disk_namespace_may_be(w.root, u, ns));
        }
        let doc = self.take_document(uri);
        let back = if Self::is_package_manifest(uri) {
            None
        } else {
            match self.host {
                Host::Native => match (on_disk, namespace) {
                    (Some(source), Some(namespace)) => match parse_tree(source.as_str()) {
                        Some(f) => Some(
                            Background { key: Self::uri_key(uri), namespace, tree: f.tree, places: f.places },
                        ),
                        None => None,
                    },
                    _ => None,
                },
                Host::Web => match doc {
                    Some(d) => match (d.namespace, d.parse.ontology) {
                        (Some(namespace), Some(f)) => Some(
                            Background { key: Self::uri_key(uri), namespace, tree: f.tree, places: f.places },
                        ),
                        _ => None,
                    },
                    None => None,
                },
            }
        };
        index_remove(&mut self.index, url_str(uri));
        match back {
            Some(file) => {
                self.put_background(file);
            },
            None => {
                self.forget_background(url_str(uri));
            },
        }
        self.reanalyze_all_inner();
    }

    // ── Files on disk ─────────────────────────────────────────────────────────

    /// Takes the files that were found below `root` into the background, but for those that
    /// are open: there the editor's text counts. `discovered` is `None` if the search
    /// failed; then only the root is kept.
    pub fn scan_workspace(&mut self, root: PathBuf, discovered: Option<Vec<DiscoveredFile>>)
        requires
            old(self).wf(),
            scannable(old(self)@, opt_discovered(discovered)),
        ensures
            final(self).wf(),
            may_scan(old(self)@, root, opt_discovered(discovered), final(self)@),
    {
        let ghost w = self@;
        self.workspace_root = Some(root);
        let ghost v = WorldView { root: Some(root), ..w };
        proof {
            assert(self@ == v);
            lemma_root_free(w, v);
        }
        let files = match discovered {
            Some(files) => files,
            None => {
                return;
            },
        };
        let ghost views = discovered_views(files@);
        let ghost all = files@;
        let ghost mut urls: Seq<Option<Seq<char>>> = Seq::empty();
        let mut found: Vec<Background> = Vec::new();
        assert(background_view(found@) =~= present(scan_entries(w.docs, views.take(0), urls)));
        for file in it: files
            invariant
                it.seq() == all,
                views == discovered_views(all),
                scannable(w, Some(views)),
                self@ == v,
                v.docs == w.docs,
                urls_may_be(views.take(it.index() as int), urls),
                background_view(found@) == present(
                    scan_entries(w.docs, views.take(it.index() as int), urls),
                ),
        {
            let ghost n = it.index() as int;
            let ghost before = background_view(found@);
            let ghost old_urls = urls;
            assert(file == all[n]);
            let url = file_url(&file.path);
            proof {
                urls = urls.push(opt_url(url));
                let e0 = scan_entries(w.docs, views.take(n), old_urls);
                let e1 = scan_entries(w.docs, views.take(n + 1), urls);
                assert(views.take(n + 1)[n] == file@);
                assert(e1 =~= e0.push(e1[n]));
                lemma_present_push(e0, e1[n]);
                assert(urls_may_be(views.take(n + 1), urls)) by {
                    assert forall|i: int| 0 <= i < n + 1 implies path_may_be_url(
                        views.take(n + 1)[i].path,
                        #[trigger] urls[i],
                    ) by {
                        if i < n {
                            assert(path_may_be_url(views.take(n)[i].path, old_urls[i]));
                        }
                    }
                }
            }
            if let Some(uri) = url {
                if self.find(&uri).is_none() {
                    if let Some(source) = file.source {
                        assert(views[n].source == Some(source@));
                        if let Some(f) = parse_tree(source.as_str()) {
                            let b = Background {
                                key: Self::uri_key(&uri),
                                namespace: file.namespace,
                                tree: f.tree,
                                places: f.places,
                            };
                            found.push(b);
                            assert(background_view(found@) =~= before.push(
                                (b.key@, b.contents()),
                            ));
                        }
                    }
                }
            }
        }
        proof {
            assert(views.take(views.len() as int) =~= views);
            let entries = scan_entries(w.docs, views, urls);
            let list = background_view(found@);
            assert forall|i: int| 0 <= i < list.len() implies !has_key(v.docs, (#[trigger] list[i]).0) by {
                lemma_present_contains(entries, list[i]);
                assert(list.contains(list[i]));
                let k = choose|k: int| 0 <= k < entries.len() && entries[k] == Some(list[i]);
                assert(scan_entry(w.docs, views[k], urls[k]) == Some(list[i]));
            }
            law_backgrounds_in_step(v, list);
            assert(urls_may_be(views, urls));
        }
        self.put_backgrounds(found);
        self.reanalyze_all_inner();
    }

    /// Takes files that the client provides into the background, but for those that are
    /// open: there the editor's text counts. `root` is what namespaces are relative to.
    pub fn index_background_files(&mut self, root: Url, files: Vec<(Url, String)>)
        requires
            old(self).wf(),
            providable(old(self)@, url_text(root), provided_views(files@)),
        ensures
            final(self).wf(),
            bare(final(self)@) == bare(
                provided(old(self)@, url_text(root), provided_views(files@)),
            ),
    {
        let ghost w = self@;
        if let Host::Web = self.host {
            self.web_root = Some(root.clone());
        }
        let ghost v = self@;
        proof {
            lemma_root_free(w, v);
        }
        let ghost views = provided_views(files@);
        let ghost all = files@;
        let ghost entries = provided_entries(w.docs, url_text(root), views);
        let mut found: Vec<Background> = Vec::new();
        assert(background_view(found@) =~= present(entries.take(0)));
        for file in it: files
            invariant
                it.seq() == all,
                views == provided_views(all),
                providable(w, url_text(root), views),
                self@ == v,
                v.docs == w.docs,
                entries == provided_entries(w.docs, url_text(root), views),
                background_view(found@) == present(entries.take(it.index() as int)),
        {
            let ghost n = it.index() as int;
            let ghost before = background_view(found@);
            proof {
                assert(file == all[n]);
                assert(entries.take(n + 1) =~= entries.take(n).push(entries[n]));
                lemma_present_push(entries.take(n), entries[n]);
            }
            let (uri, text) = file;
            assert(views[n] == (url_text(uri), text@));
            if self.find(&uri).is_none() {
                if let Some(namespace) = namespace_relative_to_root(&root, &uri) {
                    if let Some(f) = parse_tree(text.as_str()) {
                        let b = Background { key: Self::uri_key(&uri), namespace, tree: f.tree, places: f.places };
                        found.push(b);
                        assert(background_view(found@) =~= before.push((b.key@, b.contents())));
                    }
                }
            }
        }
        proof {
            assert(entries.take(entries.len() as int) =~= entries);
            let list = background_view(found@);
            assert forall|i: int| 0 <= i < list.len() implies !has_key(v.docs, (#[trigger] list[i]).0) by {
                lemma_present_contains(entries, list[i]);
                assert(list.contains(list[i]));
                let k = choose|k: int| 0 <= k < entries.len() && entries[k] == Some(list[i]);
                assert(provided_entry(
                    w.docs,
                    url_text(root),
                    views[k].0,
                    views[k].1,
                ) == Some(list[i]));
            }
            law_backgrounds_in_step(v, list);
        }
        self.put_backgrounds(found);
        self.reanalyze_all_inner();
    }

    /// Reads a file again that has changed on disk; `on_disk` is its text there, if it could
    /// be read. Manifests and open documents are left alone.
    pub fn reload_from_disk(&mut self, uri: &Url, on_disk: Option<String>)
        requires
            old(self).wf(),
            reloadable(old(self)@, url_text(*uri), opt_text(on_disk)),
        ensures
            final(self).wf(),
            may_reload(old(self)@, url_text(*uri), opt_text(on_disk), final(self)@),
    {
        let ghost w = self@;
        if Self::is_package_manifest(uri) {
            return;
        }
        if self.find(uri).is_some() {
            proof {
                let i = choose|i: int| key_at(w.docs, i, url_text(*uri));
                assert(has_key(w.docs, url_text(*uri)));
            }
            return;
        }
        let source = match on_disk {
            Some(s) => s,
            None => {
                return;
            },
        };
        let tree = parse_tree(source.as_str());
        let namespace = self.namespace_for_uri(uri);
        let ghost ns = namespace_view(namespace);
        assert(disk_namespace_may_be(w.root, url_text(*uri), ns));
        if let (Some(f), Some(namespace)) = (tree, namespace) {
            let b = Background { key: Self::uri_key(uri), namespace, tree: f.tree, places: f.places };
            proof {
                law_background_in_step(w, url_text(*uri), b.contents());
            }
            self.put_background(b);
        } else {
            proof {
                law_forget_in_step(w, url_text(*uri));
            }
            self.forget_background(url_str(uri));
        }
        self.reanalyze_all_inner();
    }

    /// Forgets a file that was deleted on disk. Open documents are left alone.
    pub fn remove_disk_file(&mut self, uri: &Url)
        requires
            old(self).wf(),
        ensures
            final(self).wf(),
            may_remove(old(self)@, url_text(*uri), final(self)@),
    {
        let ghost w = self@;
        if self.find(uri).is_some() {
            return;
        }
        proof {
            law_remove_in_step(w, url_text(*uri));
        }
        index_remove(&mut self.index, url_str(uri));
        self.forget_background(url_str(uri));
        self.reanalyze_all_inner();
    }
}

/// The invariant does not rest on the roots.
proof fn lemma_root_free(w: WorldView, v: WorldView)
    requires
        consistent(w),
        v == (WorldView { root: v.root, web_root: v.web_root, ..w }),
    ensures
        consistent(v),
{
    assert forall|i: int| 0 <= i < v.background.len() implies background_indexed(
        v,
        (#[trigger] v.background[i]).0,
        v.background[i].1,
    ) by {
        assert(background_indexed(w, w.background[i].0, w.background[i].1));
    }
    assert forall|i: int| 0 <= i < v.docs.len() implies doc_settled(
        v,
        (#[trigger] v.docs[i]).0,
        v.docs[i].1,
    ) by {
        assert(doc_settled(w, w.docs[i].0, w.docs[i].1));
    }
}

impl Default for World {
    fn default() -> (r: World)
        ensures
            r.wf(),
            r@ == empty_world(Host::Native),
    {
        World::new()
    }
}

} // verus!
