//! Go to definition.

use crate::diagnostics::{offset_at, offset_of, range_of, span_to_range};
use crate::document::{Document, DocumentView};
use crate::index::{lookup, lookup_in, SymbolView};
use crate::references::{target_readable, word_at, FileRange, FileRangeView};
use crate::rope::rope_string;
use crate::types::Position;
use crate::uri::{parse_url, url_parse, url_text};
use crate::words::word;
use lsp_types::Url;
use vstd::prelude::*;

verus! {

/// The file that a symbol is declared in: its own if it names one, else `uri`.
pub open spec fn home(s: SymbolView, uri: Seq<char>) -> Seq<char> {
    match s.file {
        Some(f) => match url_parse(f) {
            Some(u) => u,
            None => uri,
        },
        None => uri,
    }
}

/// Where the symbol at `pos` is declared, if it is known and has a place.
pub open spec fn definition(doc: DocumentView, uri: Seq<char>, pos: Position) -> Option<
    FileRangeView,
> {
    match doc.analysis {
        Some(a) => {
            let w = word(doc.text, offset_at(doc.text, pos));
            if w.len() == 0 {
                None
            } else {
                match lookup_in(a.index.symbols, w) {
                    Some(s) => match s.definition {
                        Some(span) => Some(
                            FileRangeView { uri: home(s, uri), range: range_of(span) },
                        ),
                        None => None,
                    },
                    None => None,
                }
            }
        },
        None => None,
    }
}

/// Finds the definition of the symbol at `pos` in `doc`. `uri` is the target where the
/// symbol names no file of its own.
pub fn provide(doc: &Document, uri: &Url, pos: Position) -> (r: Option<FileRange>)
    requires
        target_readable(doc@, pos),
    ensures
        match r {
            Some(place) => definition(doc@, url_text(*uri), pos) == Some(place@),
            None => definition(doc@, url_text(*uri), pos) is None,
        },
{
    let index = match &doc.analysis {
        Some(a) => &a.index,
        None => {
            return None;
        },
    };
    let byte_offset: usize = offset_of(&doc.rope, pos);
    let source = rope_string(&doc.rope);
    let word = word_at(source.as_str(), byte_offset);
    if word.is_empty() {
        return None;
    }
    let sym = match lookup(index, word) {
        Some(s) => s,
        None => {
            return None;
        },
    };
    let span = match sym.definition {
        Some(s) => s,
        None => {
            return None;
        },
    };
    let target = match &sym.file {
        Some(f) => match parse_url(f.as_str()) {
            Some(u) => u,
            None => uri.clone(),
        },
        None => uri.clone(),
    };
    Some(FileRange { uri: target, range: span_to_range(span) })
}

} // verus!
