//! Code lenses: an "N references" line above each concept, property and rule.

use crate::ast::{file_decls, file_trees, FileTree, FileTreeView};
use crate::diagnostics::{range_of, span_to_range};
use crate::document::{Document, DocumentView};
use crate::lists::{lemma_present_contains, lemma_present_push, present};
use crate::references::{file_ranges, found, search, FileRange, FileRangeView};
use crate::syntax::{Decl, DeclView};
use crate::text::{decimal, decimal_text};
use crate::types::{Position, Range, SourceSpan};
use crate::uri::{url_str, url_text};
use lsp_types::Url;
use vstd::prelude::*;

verus! {

/// What a lens runs when it is clicked: a titled command that shows `locations` as the
/// references to what stands at `position` of `uri`.
pub struct Command {
    pub title: String,
    pub command: String,
    pub uri: String,
    pub position: Position,
    pub locations: Vec<FileRange>,
}

/// A lens at the start of a line.
pub struct CodeLens {
    pub range: Range,
    pub command: Command,
}

/// Contents of a [`Command`].
pub struct CommandView {
    pub title: Seq<char>,
    pub command: Seq<char>,
    pub uri: Seq<char>,
    pub position: Position,
    pub locations: Seq<FileRangeView>,
}

/// Contents of a [`CodeLens`].
pub struct CodeLensView {
    pub range: Range,
    pub command: CommandView,
}

impl View for Command {
    type V = CommandView;

    open spec fn view(&self) -> CommandView {
        CommandView {
            title: self.title@,
            command: self.command@,
            uri: self.uri@,
            position: self.position,
            locations: file_ranges(self.locations@),
        }
    }
}

impl View for CodeLens {
    type V = CodeLensView;

    open spec fn view(&self) -> CodeLensView {
        CodeLensView { range: self.range, command: self.command@ }
    }
}

/// Contents of a list of lenses.
pub open spec fn lens_views(v: Seq<CodeLens>) -> Seq<CodeLensView> {
    Seq::new(v.len(), |i: int| v[i]@)
}

// ── Lenses ────────────────────────────────────────────────────────────────────

/// The title for `n` references.
pub open spec fn reference_count(n: nat) -> Seq<char> {
    if n == 1 {
        "1 reference"@
    } else {
        decimal_text(n) + " references"@
    }
}

/// The name and the place of a declaration that gets a lens. Facts get none, and neither
/// does a declaration without a place.
pub open spec fn lens_subject(d: DeclView) -> Option<(Seq<char>, SourceSpan)> {
    match d {
        DeclView::Concept(c) => match c.span {
            Some(s) => Some((c.name, s)),
            None => None,
        },
        DeclView::Property(p) => match p.span {
            Some(s) => Some((p.name, s)),
            None => None,
        },
        DeclView::Rule(r) => match r.span {
            Some(s) => Some((r.name, s)),
            None => None,
        },
        DeclView::Fact(_) => None,
    }
}

/// The lens of a declaration named `name` at `span`.
pub open spec fn lens_for(
    files: Seq<FileTreeView>,
    uri: Seq<char>,
    name: Seq<char>,
    span: SourceSpan,
) -> CodeLensView {
    let start = range_of(span).start;
    let line_start = Position { line: start.line, character: 0 };
    CodeLensView {
        range: Range { start: line_start, end: line_start },
        command: CommandView {
            title: reference_count(found(files, name).len()),
            command: "editor.action.showReferences"@,
            uri,
            position: start,
            locations: found(files, name),
        },
    }
}

/// For each declaration, its lens.
pub open spec fn declaration_lenses(
    files: Seq<FileTreeView>,
    uri: Seq<char>,
    v: Seq<DeclView>,
) -> Seq<Option<CodeLensView>> {
    Seq::new(
        v.len(),
        |i: int|
            match lens_subject(v[i]) {
                Some((name, span)) => Some(lens_for(files, uri, name, span)),
                None => None,
            },
    )
}

/// The lenses of a document. One without a syntax tree has none.
pub open spec fn lenses(files: Seq<FileTreeView>, uri: Seq<char>, doc: DocumentView) -> Seq<
    CodeLensView,
> {
    match doc.parse.tree {
        Some(f) => present(declaration_lenses(files, uri, file_decls(f))),
        None => Seq::empty(),
    }
}

/// The lens of a declaration named `name` at `span`.
fn lens_of(all_asts: &Vec<FileTree>, uri: &Url, name: &str, span: SourceSpan) -> (r: CodeLens)
    ensures
        r@ == lens_for(file_trees(all_asts@), url_text(*uri), name@, span),
{
    let locations = search(all_asts, name);
    let count: usize = locations.len();
    proof {
        assert(file_ranges(locations@).len() == count);
    }
    let title = if count == 1 {
        "1 reference".to_owned()
    } else {
        let mut t = decimal(count);
        t.append(" references");
        t
    };
    let start = span_to_range(span).start;
    let line_start = Position { line: start.line, character: 0 };
    let command = Command {
        title,
        command: "editor.action.showReferences".to_owned(),
        uri: url_str(uri).to_owned(),
        position: start,
        locations,
    };
    CodeLens { range: Range { start: line_start, end: line_start }, command }
}

/// The lenses of a document. `all_asts` are the files to count references in.
pub fn provide(all_asts: &Vec<FileTree>, uri: &Url, doc: &Document) -> (r: Vec<CodeLens>)
    requires
        doc.wf(),
    ensures
        lens_views(r@) == lenses(file_trees(all_asts@), url_text(*uri), doc@),
{
    let mut out: Vec<CodeLens> = Vec::new();
    let file = match &doc.parse.ontology {
        Some(f) => f,
        None => {
            assert(lens_views(out@) =~= Seq::empty());
            return out;
        },
    };
    let ghost all = declaration_lenses(
        file_trees(all_asts@),
        url_text(*uri),
        file_decls(file.tree),
    );
    let mut i: usize = 0;
    assert(lens_views(out@) =~= present(all.take(0)));
    while i < file.decls.len()
        invariant
            i <= file.decls.len(),
            file.wf(),
            all == declaration_lenses(
                file_trees(all_asts@),
                url_text(*uri),
                file_decls(file.tree),
            ),
            lens_views(out@) == present(all.take(i as int)),
        decreases file.decls.len() - i,
    {
        proof {
            assert(all.take(i + 1) =~= all.take(i as int).push(all[i as int]));
            lemma_present_push(all.take(i as int), all[i as int]);
            assert(file_decls(file.tree)[i as int] == file.decls@[i as int]@);
        }
        let ghost before = out@;
        let subject = match &file.decls[i] {
            Decl::Concept(c) => Some((&c.name, c.span)),
            Decl::Property(p) => Some((&p.name, p.span)),
            Decl::Rule(r) => Some((&r.name, r.span)),
            Decl::Fact(_) => None,
        };
        if let Some((name, Some(span))) = subject {
            let lens = lens_of(all_asts, uri, name.as_str(), span);
            out.push(lens);
            assert(lens_views(out@) =~= lens_views(before).push(lens@));
        }
        i = i + 1;
    }
    assert(all.take(all.len() as int) =~= all);
    out
}

// ── Laws ──────────────────────────────────────────────────────────────────────

/// Every lens counts the references that it shows, and these are all references to the name
/// of some declaration of the document.
pub proof fn law_lens_counts_what_it_shows(
    files: Seq<FileTreeView>,
    uri: Seq<char>,
    doc: DocumentView,
    lens: CodeLensView,
)
    requires
        lenses(files, uri, doc).contains(lens),
    ensures
        lens.command.title == reference_count(lens.command.locations.len()),
        exists|i: int|
            0 <= i < file_decls(doc.parse.tree->0).len() && (lens_subject(
                #[trigger] file_decls(doc.parse.tree->0)[i],
            ) matches Some((name, _)) && lens.command.locations == found(files, name)),
{
    let v = file_decls(doc.parse.tree->0);
    let all = declaration_lenses(files, uri, v);
    lemma_present_contains(all, lens);
    let i = choose|i: int| 0 <= i < all.len() && all[i] == Some(lens);
    assert(lens_subject(v[i]) is Some);
}

} // verus!
