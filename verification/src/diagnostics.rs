//! Diagnostics as the protocol shows them, and conversions between positions.

use crate::document::{Document, DocumentView};
use crate::problem::{code_text, findings, Finding, FindingView, Severity};
use crate::rope::{
    byte_index, char_to_byte, lemma_byte_index_order, lemma_char_is_boundary, lemma_line_exists, lemma_line_start_unique, len_bytes, len_chars,
    len_lines, line_count, line_start, line_to_char, rope_text, starts_line,
};
use crate::types::{zero_range, Location, Position, Range, SourceSpan};
use ropey::Rope;
use vstd::prelude::*;
use vstd::utf8::{encode_utf8, is_char_boundary};

verus! {

// ── Protocol diagnostics ──────────────────────────────────────────────────────

/// A diagnostic as it is published.
#[derive(PartialEq, Eq, Debug)]
pub struct LspDiagnostic {
    pub range: Range,
    pub severity: Severity,
    pub code: String,
    pub source: String,
    pub message: String,
}

/// Contents of an [`LspDiagnostic`].
pub struct LspDiagnosticView {
    pub range: Range,
    pub severity: Severity,
    pub code: Seq<char>,
    pub source: Seq<char>,
    pub message: Seq<char>,
}

impl View for LspDiagnostic {
    type V = LspDiagnosticView;

    open spec fn view(&self) -> LspDiagnosticView {
        LspDiagnosticView {
            range: self.range,
            severity: self.severity,
            code: self.code@,
            source: self.source@,
            message: self.message@,
        }
    }
}

/// Contents of a list of diagnostics.
pub open spec fn lsp_views(v: Seq<LspDiagnostic>) -> Seq<LspDiagnosticView> {
    Seq::new(v.len(), |i: int| v[i]@)
}

/// How a finding is published. One without a span is put at the start of the document.
pub open spec fn published(d: FindingView) -> LspDiagnosticView {
    LspDiagnosticView {
        range: range_or_zero(d.span),
        severity: d.severity,
        code: code_text(d.code),
        source: "dolfin"@,
        message: d.message,
    }
}

/// How a list of findings is published.
pub open spec fn all_published(v: Seq<FindingView>) -> Seq<LspDiagnosticView> {
    Seq::new(v.len(), |i: int| published(v[i]))
}

/// What is published for a document: what the parser found, then the analysis, then
/// the lint rules.
pub open spec fn document_diagnostics(doc: DocumentView) -> Seq<LspDiagnosticView> {
    all_published(doc.parse.problems) + (match doc.analysis {
        Some(a) => all_published(a.problems),
        None => Seq::empty(),
    }) + all_published(doc.lint)
}

/// Appends what is published for a list of findings.
fn publish(out: &mut Vec<LspDiagnostic>, v: &Vec<Finding>)
    ensures
        lsp_views(final(out)@) == lsp_views(old(out)@) + all_published(findings(v@)),
{
    let mut i: usize = 0;
    let ghost before = out@;
    while i < v.len()
        invariant
            i <= v.len(),
            out@.len() == before.len() + i,
            forall|j: int| 0 <= j < before.len() ==> #[trigger] out@[j] == before[j],
            forall|j: int|
                0 <= j < i ==> (#[trigger] out@[before.len() + j])@ == published(v@[j]@),
        decreases v.len() - i,
    {
        out.push(to_lsp(&v[i]));
        i = i + 1;
    }
    assert(lsp_views(out@) =~= lsp_views(before) + all_published(findings(v@))) by {
        assert forall|j: int| 0 <= j < lsp_views(out@).len() implies lsp_views(out@)[j] == (
        lsp_views(before) + all_published(findings(v@)))[j] by {
            if j >= before.len() {
                assert(out@[before.len() + (j - before.len())]@ == published(
                    v@[j - before.len()]@,
                ));
            }
        }
    }
}

/// Collects the parse, analysis and lint diagnostics of a document.
pub fn collect(doc: &Document) -> (r: Vec<LspDiagnostic>)
    ensures
        lsp_views(r@) == document_diagnostics(doc@),
{
    let mut out: Vec<LspDiagnostic> = Vec::new();
    publish(&mut out, &doc.parse.diagnostics);
    if let Some(a) = &doc.analysis {
        publish(&mut out, &a.diagnostics);
    }
    publish(&mut out, &doc.lint);
    assert(lsp_views(out@) =~= document_diagnostics(doc@));
    out
}

/// Converts a finding to a protocol diagnostic.
pub fn to_lsp(d: &Finding) -> (r: LspDiagnostic)
    ensures
        r@ == published(d@),
{
    LspDiagnostic {
        range: fallback_range(d.span),
        severity: d.severity,
        code: d.code.code_str(),
        source: "dolfin".to_owned(),
        message: d.message.clone(),
    }
}

// ── Positions and spans ───────────────────────────────────────────────────────

/// The protocol position of a source location.
pub open spec fn position_of(loc: Location) -> Position {
    Position {
        line: (if loc.line > 0 { loc.line - 1 } else { 0 }) as u32,
        character: (if loc.column > 0 { loc.column - 1 } else { 0 }) as u32,
    }
}

/// The source location of a protocol position, with the offset left at zero.
pub open spec fn location_at(pos: Position) -> Location {
    Location {
        line: (pos.line + 1) as usize,
        column: (pos.character + 1) as usize,
        offset: 0,
    }
}

/// The protocol range of a span.
pub open spec fn range_of(span: SourceSpan) -> Range {
    Range { start: position_of(span.start), end: position_of(span.end) }
}

/// The protocol range of an optional span, at the start of the document without one.
pub open spec fn range_or_zero(span: Option<SourceSpan>) -> Range {
    match span {
        Some(s) => range_of(s),
        None => zero_range(),
    }
}

/// The byte offset of a protocol position. A character beyond the end of the text stands
/// for the end, and so does a line that the text does not have.
pub open spec fn offset_at(text: Seq<char>, pos: Position) -> int {
    if pos.line >= line_count(text) {
        encode_utf8(text).len() as int
    } else {
        let i = line_start(text, pos.line as int) + pos.character;
        byte_index(text, if i <= text.len() { i } else { text.len() as int })
    }
}

/// Whether the span holds the byte offset, its end included.
pub open spec fn holds(span: Option<SourceSpan>, offset: int) -> bool {
    match span {
        Some(s) => s.start.offset <= offset <= s.end.offset,
        None => false,
    }
}

/// Converts a protocol position to a byte offset.
pub fn offset_of(rope: &Rope, pos: Position) -> (r: usize)
    ensures
        r == offset_at(rope_text(*rope), pos),
        r <= encode_utf8(rope_text(*rope)).len(),
{
    let ghost text = rope_text(*rope);
    let line: usize = pos.line as usize;
    let col: usize = pos.character as usize;
    if line >= len_lines(rope) {
        return len_bytes(rope);
    }
    let start: usize = line_to_char(rope, line);
    proof {
        assert(starts_line(text, line as int, line_start(text, line as int)));
        lemma_line_start_unique(text, line as int, start as int, line_start(text, line as int));
    }
    let len: usize = len_chars(rope);
    let i: usize = if col <= len - start {
        start + col
    } else {
        len
    };
    proof {
        lemma_byte_index_order(text, i as int, len as int);
    }
    char_to_byte(rope, i)
}

/// The protocol range of a span.
pub fn span_to_range(span: SourceSpan) -> (r: Range)
    ensures
        r == range_of(span),
{
    Range { start: location_to_position(span.start), end: location_to_position(span.end) }
}

/// The protocol range of a span, or the start of the document without one.
pub fn fallback_range(span: Option<SourceSpan>) -> (r: Range)
    ensures
        r == range_or_zero(span),
{
    match span {
        Some(s) => span_to_range(s),
        None => Range::zero(),
    }
}

/// The protocol position of a location: both count from zero there, from one here.
pub fn location_to_position(loc: Location) -> (r: Position)
    ensures
        r == position_of(loc),
{
    Position {
        line: loc.line.saturating_sub(1) as u32,
        character: loc.column.saturating_sub(1) as u32,
    }
}

/// The location of a protocol position, with the offset left at zero: [`offset_of`]
/// tells it.
pub fn position_to_location(pos: Position) -> (r: Location)
    requires
        pos.line < usize::MAX,
        pos.character < usize::MAX,
    ensures
        r == location_at(pos),
{
    Location { line: pos.line as usize + 1, column: pos.character as usize + 1, offset: 0 }
}

/// Whether the span holds the byte offset, its end included.
pub fn span_contains(span: Option<SourceSpan>, byte_offset: usize) -> (r: bool)
    ensures
        r == holds(span, byte_offset as int),
{
    match span {
        Some(s) => s.start.offset <= byte_offset && byte_offset <= s.end.offset,
        None => false,
    }
}

// ── Laws ──────────────────────────────────────────────────────────────────────

/// A position survives the way to a location and back.
pub proof fn law_position_round_trip(pos: Position)
    requires
        pos.line < usize::MAX,
        pos.character < usize::MAX,
    ensures
        position_of(location_at(pos)) == pos,
{
}

/// The offset of a position lies in the text and never inside a character.
pub proof fn law_offset_between_characters(text: Seq<char>, pos: Position)
    ensures
        0 <= offset_at(text, pos) <= encode_utf8(text).len(),
        is_char_boundary(encode_utf8(text), offset_at(text, pos)),
{
    let len = text.len() as int;
    lemma_byte_index_order(text, len, len);
    if pos.line < line_count(text) {
        let s = lemma_line_exists(text, pos.line as int);
        assert(starts_line(text, pos.line as int, line_start(text, pos.line as int)));
        let i = line_start(text, pos.line as int) + pos.character;
        let c = if i <= text.len() {
            i
        } else {
            len
        };
        lemma_byte_index_order(text, c, len);
        lemma_char_is_boundary(text, c);
    } else {
        lemma_char_is_boundary(text, len);
    }
}

} // verus!
