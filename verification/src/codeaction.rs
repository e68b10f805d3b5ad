//! Quick fixes: the suggested fixes of lint findings as code actions.
//!
//! Each lint finding that overlaps the requested range and suggests a fix gives one
//! action, with its edits embedded.

use crate::diagnostics::{
    fallback_range, lsp_views, published, range_of, range_or_zero, span_to_range, to_lsp,
    LspDiagnostic, LspDiagnosticView,
};
use crate::document::{Document, DocumentView};
use crate::edits::{with_edit, Edit, EditView, WorkspaceEdit};
use crate::lists::{lemma_present_contains, lemma_present_len, lemma_present_push, present};
use crate::problem::{Finding, FindingView, Fix, FixEditView};
use crate::types::{Position, Range};
use crate::uri::{parse_url, url_parse, url_text};
use lsp_types::Url;
use vstd::prelude::*;

verus! {

/// The kinds of code action that are offered.
#[derive(Clone, Copy, PartialEq, Eq, Debug, Structural)]
pub enum ActionKind {
    QuickFix,
}

/// A code action.
pub struct CodeAction {
    pub title: String,
    pub kind: ActionKind,
    pub diagnostics: Vec<LspDiagnostic>,
    pub edit: WorkspaceEdit,
    pub is_preferred: bool,
}

/// Contents of a [`CodeAction`].
pub struct CodeActionView {
    pub title: Seq<char>,
    pub kind: ActionKind,
    pub diagnostics: Seq<LspDiagnosticView>,
    pub edit: Map<Seq<char>, Seq<EditView>>,
    pub is_preferred: bool,
}

impl View for CodeAction {
    type V = CodeActionView;

    open spec fn view(&self) -> CodeActionView {
        CodeActionView {
            title: self.title@,
            kind: self.kind,
            diagnostics: lsp_views(self.diagnostics@),
            edit: self.edit@,
            is_preferred: self.is_preferred,
        }
    }
}

/// Contents of a list of code actions.
pub open spec fn action_views(v: Seq<CodeAction>) -> Seq<CodeActionView> {
    Seq::new(v.len(), |i: int| v[i]@)
}

// ── Overlap ───────────────────────────────────────────────────────────────────

/// Whether `a` stands at or before `b`.
pub open spec fn at_or_before(a: Position, b: Position) -> bool {
    a.line < b.line || (a.line == b.line && a.character <= b.character)
}

/// Whether each of two ranges starts no later than the other ends.
pub open spec fn overlap(a: Range, b: Range) -> bool {
    at_or_before(a.start, b.end) && at_or_before(b.start, a.end)
}

/// Whether a range holds a position, its end included.
pub open spec fn range_holds(r: Range, p: Position) -> bool {
    at_or_before(r.start, p) && at_or_before(p, r.end)
}

/// Whether `a` stands at or before `b`.
pub fn position_le(a: Position, b: Position) -> (r: bool)
    ensures
        r == at_or_before(a, b),
{
    a.line < b.line || (a.line == b.line && a.character <= b.character)
}

/// Whether two ranges share a position.
pub fn ranges_overlap(a: Range, b: Range) -> (r: bool)
    ensures
        r == overlap(a, b),
{
    position_le(a.start, b.end) && position_le(b.start, a.end)
}

/// Two ranges overlap exactly if they share a position, provided that neither ends before
/// it starts.
pub proof fn law_overlap_shares_position(a: Range, b: Range)
    requires
        at_or_before(a.start, a.end),
        at_or_before(b.start, b.end),
    ensures
        overlap(a, b) <==> exists|p: Position| range_holds(a, p) && range_holds(b, p),
{
    if overlap(a, b) {
        if at_or_before(a.start, b.start) {
            assert(range_holds(a, b.start) && range_holds(b, b.start));
        } else {
            assert(range_holds(a, a.start) && range_holds(b, a.start));
        }
    }
}

// ── Actions ───────────────────────────────────────────────────────────────────

/// The file that an edit of a fix goes to. One that names no file, or none that can be
/// read as a URL, goes to the document itself.
pub open spec fn edit_target(e: FixEditView, uri: Seq<char>) -> Seq<char> {
    if e.file.len() == 0 {
        uri
    } else {
        match url_parse(e.file) {
            Some(u) => u,
            None => uri,
        }
    }
}

/// The edits of a fix, grouped by file.
pub open spec fn fix_changes(edits: Seq<FixEditView>, uri: Seq<char>) -> Map<
    Seq<char>,
    Seq<EditView>,
>
    decreases edits.len(),
{
    if edits.len() == 0 {
        Map::empty()
    } else {
        let e = edits.last();
        with_edit(
            fix_changes(edits.drop_last(), uri),
            edit_target(e, uri),
            EditView { range: range_of(e.span), new_text: e.replacement },
        )
    }
}

/// The action for a finding: there is one if the finding suggests a fix and overlaps the
/// range.
pub open spec fn action_for(d: FindingView, uri: Seq<char>, range: Range) -> Option<
    CodeActionView,
> {
    match d.fix {
        Some(f) => if overlap(range_or_zero(d.span), range) {
            Some(
                CodeActionView {
                    title: f.description,
                    kind: ActionKind::QuickFix,
                    diagnostics: seq![published(d)],
                    edit: fix_changes(f.edits, uri),
                    is_preferred: true,
                },
            )
        } else {
            None
        },
        None => None,
    }
}

/// The actions for each finding of a list.
pub open spec fn offered(lint: Seq<FindingView>, uri: Seq<char>, range: Range) -> Seq<
    Option<CodeActionView>,
> {
    Seq::new(lint.len(), |i: int| action_for(lint[i], uri, range))
}

/// The actions for a range of a document, in the order of its lint findings.
pub open spec fn actions(doc: DocumentView, uri: Seq<char>, range: Range) -> Seq<CodeActionView> {
    present(offered(doc.lint, uri, range))
}

/// The edits of a fix, grouped by file.
fn changes_of(fix: &Fix, uri: &Url) -> (r: WorkspaceEdit)
    ensures
        r.wf(),
        r@ == fix_changes(fix@.edits, url_text(*uri)),
{
    let mut changes = WorkspaceEdit::new();
    let mut i: usize = 0;
    let ghost all = fix@.edits;
    let ghost u = url_text(*uri);
    while i < fix.edits.len()
        invariant
            i <= fix.edits.len(),
            all == fix@.edits,
            u == url_text(*uri),
            changes.wf(),
            changes@ == fix_changes(all.take(i as int), u),
        decreases fix.edits.len() - i,
    {
        proof {
            assert(all.take(i + 1).drop_last() =~= all.take(i as int));
            assert(all.take(i + 1).last() == fix.edits@[i as int]@);
        }
        let e = &fix.edits[i];
        let target = if e.file.as_str().is_empty() {
            uri.clone()
        } else {
            match parse_url(e.file.as_str()) {
                Some(parsed) => parsed,
                None => uri.clone(),
            }
        };
        changes.add(
            &target,
            Edit { range: span_to_range(e.span), new_text: e.replacement.clone() },
        );
        i = i + 1;
    }
    assert(all.take(all.len() as int) =~= all);
    changes
}

/// The action for a finding, if there is one.
fn action_of(d: &Finding, uri: &Url, range: Range) -> (r: Option<CodeAction>)
    ensures
        match r {
            Some(a) => a.edit.wf() && action_for(d@, url_text(*uri), range) == Some(a@),
            None => action_for(d@, url_text(*uri), range) is None,
        },
{
    let fix = match &d.fix {
        Some(f) => f,
        None => {
            return None;
        },
    };
    if !ranges_overlap(fallback_range(d.span), range) {
        return None;
    }
    let changes = changes_of(fix, uri);
    let mut diagnostics: Vec<LspDiagnostic> = Vec::new();
    diagnostics.push(to_lsp(d));
    assert(lsp_views(diagnostics@) =~= seq![published(d@)]);
    Some(
        CodeAction {
            title: fix.description.clone(),
            kind: ActionKind::QuickFix,
            diagnostics,
            edit: changes,
            is_preferred: true,
        },
    )
}

/// All quick fixes for a range of a document.
pub fn provide(doc: &Document, uri: &Url, range: Range) -> (r: Vec<CodeAction>)
    ensures
        action_views(r@) == actions(doc@, url_text(*uri), range),
        forall|i: int| 0 <= i < r@.len() ==> (#[trigger] r@[i]).edit.wf(),
{
    let mut out: Vec<CodeAction> = Vec::new();
    let ghost all = offered(doc@.lint, url_text(*uri), range);
    let mut i: usize = 0;
    assert(action_views(out@) =~= present(all.take(0)));
    while i < doc.lint.len()
        invariant
            i <= doc.lint.len(),
            all == offered(doc@.lint, url_text(*uri), range),
            action_views(out@) == present(all.take(i as int)),
            forall|j: int| 0 <= j < out@.len() ==> (#[trigger] out@[j]).edit.wf(),
        decreases doc.lint.len() - i,
    {
        proof {
            assert(all.take(i + 1) =~= all.take(i as int).push(all[i as int]));
            lemma_present_push(all.take(i as int), all[i as int]);
        }
        let ghost before = out@;
        if let Some(a) = action_of(&doc.lint[i], uri, range) {
            out.push(a);
            assert(action_views(out@) =~= action_views(before).push(a@));
        }
        i = i + 1;
    }
    assert(all.take(all.len() as int) =~= all);
    out
}

// ── Laws ──────────────────────────────────────────────────────────────────────

/// Every action comes from a lint finding that overlaps the range and suggests a fix, and
/// every such finding gives its action.
pub proof fn law_actions_from_overlapping_fixes(
    doc: DocumentView,
    uri: Seq<char>,
    range: Range,
    a: CodeActionView,
)
    ensures
        actions(doc, uri, range).contains(a) <==> exists|i: int|
            0 <= i < doc.lint.len() && action_for(#[trigger] doc.lint[i], uri, range) == Some(a),
        actions(doc, uri, range).len() <= doc.lint.len(),
        forall|i: int|
            0 <= i < doc.lint.len() ==> (action_for(#[trigger] doc.lint[i], uri, range) is Some
                <==> doc.lint[i].fix is Some && overlap(range_or_zero(doc.lint[i].span), range)),
{
    let all = offered(doc.lint, uri, range);
    lemma_present_contains(all, a);
    if all.contains(Some(a)) {
        let i = choose|i: int| 0 <= i < all.len() && all[i] == Some(a);
        assert(action_for(doc.lint[i], uri, range) == Some(a));
    }
    if exists|i: int|
        0 <= i < doc.lint.len() && action_for(#[trigger] doc.lint[i], uri, range) == Some(a) {
        let i = choose|i: int|
            0 <= i < doc.lint.len() && action_for(#[trigger] doc.lint[i], uri, range) == Some(a);
        assert(all[i] == Some(a));
    }
    lemma_present_len(all);
}

} // verus!
