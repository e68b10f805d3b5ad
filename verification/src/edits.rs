//! Text edits grouped by file.

use crate::text::same;
use crate::types::Range;
use crate::uri::{url_str, url_text};
use lsp_types::Url;
use vstd::prelude::*;

verus! {

/// A replacement of a range by a text.
#[derive(PartialEq, Eq, Debug)]
pub struct Edit {
    pub range: Range,
    pub new_text: String,
}

/// Contents of an [`Edit`].
pub struct EditView {
    pub range: Range,
    pub new_text: Seq<char>,
}

impl View for Edit {
    type V = EditView;

    open spec fn view(&self) -> EditView {
        EditView { range: self.range, new_text: self.new_text@ }
    }
}

/// Contents of a list of edits.
pub open spec fn edit_views(v: Seq<Edit>) -> Seq<EditView> {
    Seq::new(v.len(), |i: int| v[i]@)
}

/// The edits of one file.
pub struct FileEdits {
    pub uri: Url,
    pub edits: Vec<Edit>,
}

/// Edits of any number of files. Each file occurs once.
pub struct WorkspaceEdit {
    pub changes: Vec<FileEdits>,
}

/// The edits of a file, none if it is not touched.
pub open spec fn edits_for(changes: Map<Seq<char>, Seq<EditView>>, uri: Seq<char>) -> Seq<
    EditView,
> {
    if changes.contains_key(uri) {
        changes[uri]
    } else {
        Seq::empty()
    }
}

/// `changes` with one more edit of the file `uri`.
pub open spec fn with_edit(
    changes: Map<Seq<char>, Seq<EditView>>,
    uri: Seq<char>,
    edit: EditView,
) -> Map<Seq<char>, Seq<EditView>> {
    changes.insert(uri, edits_for(changes, uri).push(edit))
}

/// `changes` with the given edits of the file `uri`, one after the other.
pub open spec fn with_edits(
    changes: Map<Seq<char>, Seq<EditView>>,
    uri: Seq<char>,
    edits: Seq<EditView>,
) -> Map<Seq<char>, Seq<EditView>> {
    if edits.len() == 0 {
        changes
    } else {
        changes.insert(uri, edits_for(changes, uri) + edits)
    }
}

impl WorkspaceEdit {
    /// No file occurs twice.
    pub open spec fn wf(&self) -> bool {
        forall|i: int, j: int|
            0 <= i < j < self.changes@.len() ==> url_text(#[trigger] self.changes@[i].uri)
                != url_text(#[trigger] self.changes@[j].uri)
    }

    /// Whether entry `i` is that of the file `uri`.
    pub open spec fn entry(&self, i: int, uri: Seq<char>) -> bool {
        0 <= i < self.changes@.len() && url_text(self.changes@[i].uri) == uri
    }

    /// The edit of no file.
    pub fn new() -> (r: WorkspaceEdit)
        ensures
            r.wf(),
            r@ == Map::<Seq<char>, Seq<EditView>>::empty(),
    {
        let r = WorkspaceEdit { changes: Vec::new() };
        assert(r@ =~= Map::<Seq<char>, Seq<EditView>>::empty());
        r
    }

    /// Whether no file is touched.
    pub fn is_empty(&self) -> (r: bool)
        ensures
            r == self@.dom().is_empty(),
    {
        let r = self.changes.len() == 0;
        proof {
            if r {
                assert(self@.dom() =~= Set::empty());
            } else {
                let uri = url_text(self.changes@[0].uri);
                assert(self.entry(0, uri));
                assert(self@.dom().contains(uri));
            }
        }
        r
    }

    /// Adds an edit at the end of the edits of a file.
    pub fn add(&mut self, uri: &Url, edit: Edit)
        requires
            old(self).wf(),
        ensures
            final(self).wf(),
            final(self)@ == with_edit(old(self)@, url_text(*uri), edit@),
    {
        let mut i: usize = 0;
        let n: usize = self.changes.len();
        while i < n && !same(url_str(&self.changes[i].uri), url_str(uri))
            invariant
                i <= n == self.changes@.len(),
                *self == *old(self),
                forall|j: int| 0 <= j < i ==> !self.entry(j, url_text(*uri)),
            decreases n - i,
        {
            i = i + 1;
        }
        let ghost before = *self;
        let ghost e = edit@;
        let ghost u = url_text(*uri);
        if i < n {
            let slot = &mut self.changes[i];
            slot.edits.push(edit);
        } else {
            let mut edits: Vec<Edit> = Vec::new();
            edits.push(edit);
            self.changes.push(FileEdits { uri: uri.clone(), edits });
        }
        proof {
            before.lemma_lookup();
            assert forall|j: int| 0 <= j < n implies url_text(#[trigger] self.changes@[j].uri)
                == url_text(before.changes@[j].uri) && (i == n ==> url_text(
                before.changes@[j].uri,
            ) != u) by {
                if i == n {
                    assert(!before.entry(j, u));
                }
            }
            assert(self.wf());
            self.lemma_lookup();
            assert(self.entry(i as int, u));
            assert(edit_views(self.changes@[i as int].edits@) =~= edits_for(before@, u).push(e)) by {
                if i < n {
                    assert(before.entry(i as int, u));
                } else {
                    assert(!before@.contains_key(u));
                }
            }
            let w = with_edit(before@, u, e);
            assert forall|k: Seq<char>| self@.dom().contains(k) == w.dom().contains(k) && (
            self@.dom().contains(k) ==> #[trigger] self@[k] == w[k]) by {
                if k != u {
                    if self@.contains_key(k) {
                        let j = choose|j: int| self.entry(j, k);
                        assert(before.entry(j, k));
                    }
                    if before@.contains_key(k) {
                        let j = choose|j: int| before.entry(j, k);
                        assert(self.entry(j, k));
                    }
                }
            }
            assert(self@.dom() =~= w.dom()) by {
                assert forall|k: Seq<char>| self@.dom().contains(k) == w.dom().contains(k) by {
                    let _ = self@[k];
                }
            }
            assert(self@ =~= w);
        }
    }

    /// A file's edits are those of its entry.
    proof fn lemma_lookup(&self)
        requires
            self.wf(),
        ensures
            forall|i: int, uri: Seq<char>| #[trigger]
                self.entry(i, uri) ==> self@.contains_key(uri) && self@[uri] == edit_views(
                    self.changes@[i].edits@,
                ),
    {
        assert forall|i: int, uri: Seq<char>| #[trigger] self.entry(i, uri) implies self@[uri]
            == edit_views(self.changes@[i].edits@) by {
            let j = choose|j: int| self.entry(j, uri);
            assert(self.entry(j, uri));
            assert(i == j);
        }
    }
}

impl View for WorkspaceEdit {
    type V = Map<Seq<char>, Seq<EditView>>;

    open spec fn view(&self) -> Map<Seq<char>, Seq<EditView>> {
        Map::new(
            |uri: Seq<char>| exists|i: int| self.entry(i, uri),
            |uri: Seq<char>| edit_views(self.changes@[choose|i: int| self.entry(i, uri)].edits@),
        )
    }
}

} // verus!
