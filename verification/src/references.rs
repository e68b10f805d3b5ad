//! References to a symbol.
//!
//! [`target_at`] names the symbol under the cursor, [`search`] looks for it in all files.

use crate::ast::{file_trees, FileTree, FileTreeView};
use crate::checks::{reference_spans, references_in};
use crate::diagnostics::{offset_at, offset_of, range_of, span_to_range};
use crate::document::{Document, DocumentView};
use crate::index::{lookup, lookup_in};
use crate::lists::lemma_concat_contains;
use crate::rope::rope_string;
use crate::types::{Position, Range, SourceSpan};
use crate::uri::{parse_url, url_parse, url_text};
use crate::words::{cut_text, end_of_run, has_word, start_of_run, word};
use lsp_types::Url;
use vstd::prelude::*;
use vstd::utf8::encode_utf8;

verus! {

/// A range in a file.
pub struct FileRange {
    pub uri: Url,
    pub range: Range,
}

/// Contents of a [`FileRange`].
pub struct FileRangeView {
    pub uri: Seq<char>,
    pub range: Range,
}

impl View for FileRange {
    type V = FileRangeView;

    open spec fn view(&self) -> FileRangeView {
        FileRangeView { uri: url_text(self.uri), range: self.range }
    }
}

/// Contents of a list of ranges in files.
pub open spec fn file_ranges(v: Seq<FileRange>) -> Seq<FileRangeView> {
    Seq::new(v.len(), |i: int| v[i]@)
}

// ── Symbol under the cursor ───────────────────────────────────────────────────

/// Whether the word that a lookup at `pos` reads is made of whole characters. Without an
/// analysis no word is read.
pub open spec fn target_readable(doc: DocumentView, pos: Position) -> bool {
    doc.analysis is Some ==> has_word(doc.text, offset_at(doc.text, pos))
}

/// The name of the symbol at `pos`.
pub open spec fn target(doc: DocumentView, pos: Position) -> Option<Seq<char>> {
    match doc.analysis {
        Some(a) => {
            let w = word(doc.text, offset_at(doc.text, pos));
            if w.len() == 0 {
                None
            } else {
                match lookup_in(a.index.symbols, w) {
                    Some(s) => Some(s.name),
                    None => None,
                }
            }
        },
        None => None,
    }
}

/// The word around a byte offset.
pub fn word_at(source: &str, byte_offset: usize) -> (r: &str)
    requires
        byte_offset <= encode_utf8(source@).len(),
        has_word(source@, byte_offset as int),
    ensures
        r@ == word(source@, byte_offset as int),
{
    let start: usize = start_of_run(source, byte_offset);
    let end: usize = end_of_run(source, byte_offset);
    cut_text(source, start, end)
}

/// The canonical name of the symbol under the cursor, if there is a known one.
pub fn target_at(doc: &Document, pos: Position) -> (r: Option<String>)
    requires
        target_readable(doc@, pos),
    ensures
        match r {
            Some(name) => target(doc@, pos) == Some(name@),
            None => target(doc@, pos) is None,
        },
{
    match &doc.analysis {
        Some(a) => {
            let byte_offset: usize = offset_of(&doc.rope, pos);
            let source = rope_string(&doc.rope);
            let word = word_at(source.as_str(), byte_offset);
            if word.is_empty() {
                return None;
            }
            match lookup(&a.index, word) {
                Some(s) => Some(s.name),
                None => None,
            }
        },
        None => None,
    }
}

// ── Search ────────────────────────────────────────────────────────────────────

/// The places `spans` in the file `uri`.
pub open spec fn places(uri: Seq<char>, spans: Seq<SourceSpan>) -> Seq<FileRangeView> {
    Seq::new(spans.len(), |i: int| FileRangeView { uri, range: range_of(spans[i]) })
}

/// The references to `name` in one file. A file whose key is no URL has none to show.
pub open spec fn found_in(file: FileTreeView, name: Seq<char>) -> Seq<FileRangeView> {
    match url_parse(file.key) {
        Some(uri) => places(uri, references_in(file.tree, name)),
        None => Seq::empty(),
    }
}

/// The references to `name` in a list of files, file by file.
pub open spec fn found(files: Seq<FileTreeView>, name: Seq<char>) -> Seq<FileRangeView>
    decreases files.len(),
{
    if files.len() == 0 {
        Seq::empty()
    } else {
        found(files.drop_last(), name) + found_in(files.last(), name)
    }
}

/// Appends the places `spans` in the file `uri`.
pub fn push_places(out: &mut Vec<FileRange>, uri: &Url, spans: &Vec<SourceSpan>)
    ensures
        file_ranges(final(out)@) == file_ranges(old(out)@) + places(url_text(*uri), spans@),
{
    let ghost before = out@;
    let mut i: usize = 0;
    while i < spans.len()
        invariant
            i <= spans.len(),
            file_ranges(out@) == file_ranges(before) + places(url_text(*uri), spans@.take(i as int)),
        decreases spans.len() - i,
    {
        let ghost now = out@;
        out.push(FileRange { uri: uri.clone(), range: span_to_range(spans[i]) });
        i = i + 1;
        proof {
            let place = FileRangeView { uri: url_text(*uri), range: range_of(spans@[i - 1]) };
            assert(file_ranges(out@) =~= file_ranges(now).push(place));
            assert(places(url_text(*uri), spans@.take(i as int)) =~= places(
                url_text(*uri),
                spans@.take(i - 1),
            ).push(place));
        }
    }
    assert(spans@.take(spans@.len() as int) =~= spans@);
}

/// Searches the files for every reference to `target`.
pub fn search(all_asts: &Vec<FileTree>, target: &str) -> (r: Vec<FileRange>)
    ensures
        file_ranges(r@) == found(file_trees(all_asts@), target@),
{
    let mut out: Vec<FileRange> = Vec::new();
    let ghost files = file_trees(all_asts@);
    let mut i: usize = 0;
    assert(file_ranges(out@) =~= found(files.take(0), target@));
    while i < all_asts.len()
        invariant
            i <= all_asts.len(),
            files == file_trees(all_asts@),
            file_ranges(out@) == found(files.take(i as int), target@),
        decreases all_asts.len() - i,
    {
        proof {
            assert(files.take(i + 1).drop_last() =~= files.take(i as int));
            assert(files.take(i + 1).last() == all_asts@[i as int]@);
        }
        let ghost before = out@;
        let file = &all_asts[i];
        if let Some(uri) = parse_url(file.key.as_str()) {
            let spans = reference_spans(file.tree, target);
            push_places(&mut out, &uri, &spans);
        } else {
            assert(file_ranges(out@) =~= file_ranges(before) + Seq::empty());
        }
        i = i + 1;
    }
    assert(files.take(files.len() as int) =~= files);
    out
}

// ── Laws ──────────────────────────────────────────────────────────────────────

/// A search finds exactly the references in each of the files.
pub proof fn law_search_covers_files(files: Seq<FileTreeView>, name: Seq<char>, p: FileRangeView)
    ensures
        found(files, name).contains(p) <==> exists|i: int|
            0 <= i < files.len() && found_in(#[trigger] files[i], name).contains(p),
    decreases files.len(),
{
    if files.len() > 0 {
        let rest = files.drop_last();
        law_search_covers_files(rest, name, p);
        lemma_concat_contains(found(rest, name), found_in(files.last(), name), p);
        if exists|i: int| 0 <= i < rest.len() && found_in(#[trigger] rest[i], name).contains(p) {
            let i = choose|i: int|
                0 <= i < rest.len() && found_in(#[trigger] rest[i], name).contains(p);
            assert(found_in(files[i], name).contains(p));
        }
        if exists|i: int| 0 <= i < files.len() && found_in(#[trigger] files[i], name).contains(p) {
            let i = choose|i: int|
                0 <= i < files.len() && found_in(#[trigger] files[i], name).contains(p);
            if i < rest.len() {
                assert(found_in(rest[i], name).contains(p));
            } else {
                assert(files[i] == files.last());
            }
        }
        if found_in(files.last(), name).contains(p) {
            assert(found_in(files[files.len() - 1], name).contains(p));
        }
    }
}

} // verus!
