//! Outlines, diagnostics, quick fixes and completions of a document.

use crate::ast::file_decls;
use crate::codeaction::{actions, fix_changes, offered, ActionKind, CodeActionView};
use crate::completion::{completes, keywords, CompletionItemView, ItemKind};
use crate::diagnostics::{document_diagnostics, offset_at, range_of, LspDiagnosticView};
use crate::document::DocumentView;
use crate::edits::{edits_for, EditView};
use crate::index::{KindView, SymbolView};
use crate::laws::shared::{lemma_present_places, picks};
use crate::lists::present;
use crate::problem::{CodeView, FindingView, FixEditView};
use crate::symbols::{
    declaration_symbols, outline, DocumentSymbolView, FieldSymbolView, OutlineKind,
};
use crate::syntax::{type_text, type_texts, DeclView, SlotView};
use crate::text::{decimal_text, joined, text_before};
use crate::types::{Position, Range, SourceSpan};
use crate::uri::url_parse;
use crate::words::word_start;
use vstd::prelude::*;

verus! {

/// `r` is the place of a span, or the start of the document where there is no span.
pub open spec fn placed(r: Range, span: Option<SourceSpan>) -> bool {
    match span {
        Some(s) => r == range_of(s),
        None => r.start == (Position { line: 0, character: 0 }) && r.end == r.start,
    }
}

// ── Outline ───────────────────────────────────────────────────────────────────

/// The entry of a slot: its name, its type and its place.
pub open spec fn outlines_slot(e: FieldSymbolView, s: SlotView) -> bool {
    &&& e.name == s.name
    &&& e.detail == Some(type_text(s.target))
    &&& e.kind == OutlineKind::Field
    &&& placed(e.range, s.span)
    &&& placed(e.selection_range, s.span)
}

/// The entry of a declaration: its name, what it is, its place, and below a concept the entries
/// of its slots in their order.
pub open spec fn outlines(e: DocumentSymbolView, d: DeclView) -> bool {
    match d {
        DeclView::Concept(c) => {
            &&& e.name == c.name
            &&& e.kind == OutlineKind::Class
            &&& placed(e.range, c.span)
            &&& placed(e.selection_range, c.span)
            &&& e.detail == if c.parents.len() == 0 {
                None
            } else {
                Some("sub "@ + joined(type_texts(c.parents), ", "@))
            }
            &&& e.children matches Some(v) && v.len() == c.slots.len() && forall|k: int|
                0 <= k < v.len() ==> outlines_slot(#[trigger] v[k], c.slots[k])
        },
        DeclView::Property(p) => {
            &&& e.name == p.name
            &&& e.kind == OutlineKind::Function
            &&& placed(e.range, p.span)
            &&& placed(e.selection_range, p.span)
            &&& e.detail == Some(type_text(p.domain) + " → "@ + type_text(p.range))
            &&& e.children is None
        },
        DeclView::Rule(r) => {
            &&& e.name == r.name
            &&& e.kind == OutlineKind::Namespace
            &&& placed(e.range, r.span)
            &&& placed(e.selection_range, r.span)
            &&& e.detail == Some(
                decimal_text(r.patterns as nat) + " pattern(s), "@ + decimal_text(
                    r.assertions as nat,
                ) + " assertion(s)"@,
            )
            &&& e.children is None
        },
        DeclView::Fact(_) => false,
    }
}

/// `v` are the entries of the declarations at the places `at`, which are all but the facts.
pub open spec fn outline_places(at: Seq<int>, v: Seq<DocumentSymbolView>, decls: Seq<DeclView>) -> bool {
    &&& picks(at, decls.len() as int)
    &&& at.len() == v.len()
    &&& forall|k: int| 0 <= k < at.len() ==> outlines(v[k], decls[#[trigger] at[k]])
    &&& forall|i: int| 0 <= i < decls.len() && !(#[trigger] decls[i] is Fact) ==> at.contains(i)
}

/// The outline of a document has one entry for each of its concepts, properties and rules, in
/// their order.
pub proof fn law_outline_shows_declarations(doc: DocumentView)
    ensures
        match doc.parse.tree {
            Some(f) => exists|at: Seq<int>| #[trigger]
                outline_places(at, outline(doc), file_decls(f)),
            None => outline(doc).len() == 0,
        },
{
    if let Some(f) = doc.parse.tree {
        let v = file_decls(f);
        let all = declaration_symbols(v);
        let out = outline(doc);
        let at = lemma_present_places(all);
        assert forall|k: int| 0 <= k < at.len() implies outlines(out[k], v[#[trigger] at[k]]) by {
            assert(all[at[k]] == Some(out[k]));
        }
        assert forall|i: int| 0 <= i < v.len() && !(#[trigger] v[i] is Fact) implies at.contains(i) by {
            assert(all[i] is Some);
        }
        assert(outline_places(at, out, v));
    }
}

// ── Diagnostics ───────────────────────────────────────────────────────────────

/// A code as it is shown: by where it comes from and its number or rule. Numbers of the analysis
/// have at least three digits.
pub open spec fn shows_code(text: Seq<char>, code: CodeView) -> bool {
    match code {
        CodeView::Parse(n) => text == "P"@ + decimal_text(n as nat),
        CodeView::Semantic(n) => if n < 10 {
            text == "S"@ + ("00"@ + decimal_text(n as nat))
        } else if n < 100 {
            text == "S"@ + ("0"@ + decimal_text(n as nat))
        } else {
            text == "S"@ + decimal_text(n as nat)
        },
        CodeView::Lint(rule) => text == "L/"@ + rule,
    }
}

/// A diagnostic tells a finding: its severity, code and message, at its place.
pub open spec fn publishes(x: LspDiagnosticView, d: FindingView) -> bool {
    &&& x.severity == d.severity
    &&& x.message == d.message
    &&& x.source == "dolfin"@
    &&& shows_code(x.code, d.code)
    &&& placed(x.range, d.span)
}

/// What is published for a document is every finding of the parser, then every finding of the
/// analysis, then every finding of the lint rules, each once and in its order.
pub proof fn law_every_finding_is_published(doc: DocumentView)
    ensures
        ({
            let out = document_diagnostics(doc);
            let parse = doc.parse.problems;
            let analysis = match doc.analysis {
                Some(a) => a.problems,
                None => Seq::empty(),
            };
            &&& out.len() == parse.len() + analysis.len() + doc.lint.len()
            &&& forall|i: int| 0 <= i < parse.len() ==> publishes(#[trigger] out[i], parse[i])
            &&& forall|i: int|
                0 <= i < analysis.len() ==> publishes(
                    out[parse.len() + i],
                    #[trigger] analysis[i],
                )
            &&& forall|i: int|
                0 <= i < doc.lint.len() ==> publishes(
                    out[parse.len() + analysis.len() + i],
                    #[trigger] doc.lint[i],
                )
        }),
{
}

// ── Quick fixes ───────────────────────────────────────────────────────────────

/// `a` stands before `b`.
pub open spec fn before(a: Position, b: Position) -> bool {
    a.line < b.line || (a.line == b.line && a.character < b.character)
}

/// Neither of two ranges ends before the other starts.
pub open spec fn touch(a: Range, b: Range) -> bool {
    !before(a.end, b.start) && !before(b.end, a.start)
}

/// An edit of a fix goes to the file `to`: to the one that it names, if that is a URL, else to
/// the document `uri`.
pub open spec fn goes_to(e: FixEditView, uri: Seq<char>, to: Seq<char>) -> bool {
    if e.file.len() > 0 && url_parse(e.file) is Some {
        url_parse(e.file) == Some(to)
    } else {
        to == uri
    }
}

/// `v` are the edits at the places `at`, which are all that go to the file `to`.
pub open spec fn edit_places(
    at: Seq<int>,
    v: Seq<EditView>,
    edits: Seq<FixEditView>,
    uri: Seq<char>,
    to: Seq<char>,
) -> bool {
    &&& picks(at, edits.len() as int)
    &&& at.len() == v.len()
    &&& forall|k: int|
        0 <= k < at.len() ==> {
            let e = edits[#[trigger] at[k]];
            v[k].range == range_of(e.span) && v[k].new_text == e.replacement
        }
    &&& forall|j: int| 0 <= j < edits.len() ==> (goes_to(#[trigger] edits[j], uri, to) <==> at.contains(j))
}

/// `v` are the edits that go to the file `to`, in their order.
pub open spec fn all_edits_to(
    v: Seq<EditView>,
    edits: Seq<FixEditView>,
    uri: Seq<char>,
    to: Seq<char>,
) -> bool {
    exists|at: Seq<int>| #[trigger] edit_places(at, v, edits, uri, to)
}

/// For each edit that goes to a file, what it does there.
spec fn edits_to(edits: Seq<FixEditView>, uri: Seq<char>, to: Seq<char>) -> Seq<Option<EditView>> {
    Seq::new(
        edits.len(),
        |j: int|
            if goes_to(edits[j], uri, to) {
                Some(EditView { range: range_of(edits[j].span), new_text: edits[j].replacement })
            } else {
                None
            },
    )
}

/// The edits of a fix in a file are those that go there.
proof fn lemma_fix_changes(edits: Seq<FixEditView>, uri: Seq<char>, to: Seq<char>)
    ensures
        edits_for(fix_changes(edits, uri), to) == present(edits_to(edits, uri, to)),
    decreases edits.len(),
{
    let all = edits_to(edits, uri, to);
    if edits.len() > 0 {
        let rest = edits.drop_last();
        lemma_fix_changes(rest, uri, to);
        assert(all.drop_last() =~= edits_to(rest, uri, to));
    }
}

/// An action carries out the fix of a finding: it has the description of the fix, names the
/// finding, and makes exactly the edits of the fix, file by file in their order.
pub open spec fn carries_out(a: CodeActionView, d: FindingView, uri: Seq<char>) -> bool {
    d.fix matches Some(f) && {
        &&& a.title == f.description
        &&& a.kind == ActionKind::QuickFix
        &&& a.is_preferred
        &&& a.diagnostics.len() == 1
        &&& publishes(a.diagnostics[0], d)
        &&& forall|to: Seq<char>| #[trigger]
            all_edits_to(edits_for(a.edit, to), f.edits, uri, to)
    }
}

/// The place of a finding, the start of the document where it has none.
pub open spec fn place_of(d: FindingView) -> Range {
    match d.span {
        Some(s) => range_of(s),
        None => Range {
            start: Position { line: 0, character: 0 },
            end: Position { line: 0, character: 0 },
        },
    }
}

/// `v` are the actions of the lint findings at the places `at`: all that suggest a fix and touch
/// the range.
pub open spec fn action_places(
    at: Seq<int>,
    v: Seq<CodeActionView>,
    lint: Seq<FindingView>,
    uri: Seq<char>,
    range: Range,
) -> bool {
    &&& picks(at, lint.len() as int)
    &&& at.len() == v.len()
    &&& forall|k: int| 0 <= k < at.len() ==> carries_out(v[k], lint[#[trigger] at[k]], uri)
    &&& forall|i: int|
        0 <= i < lint.len() ==> ((#[trigger] lint[i]).fix is Some && touch(place_of(lint[i]), range)
            <==> at.contains(i))
}

/// The quick fixes for a range are those of the lint findings that suggest a fix and touch the
/// range, in their order.
pub proof fn law_fixes_of_touched_findings(doc: DocumentView, uri: Seq<char>, range: Range)
    ensures
        exists|at: Seq<int>| #[trigger]
            action_places(at, actions(doc, uri, range), doc.lint, uri, range),
{
    let all = offered(doc.lint, uri, range);
    let out = actions(doc, uri, range);
    let at = lemma_present_places(all);
    assert forall|k: int| 0 <= k < at.len() implies carries_out(
        out[k],
        doc.lint[#[trigger] at[k]],
        uri,
    ) by {
        assert(all[at[k]] == Some(out[k]));
        let d = doc.lint[at[k]];
        let f = d.fix->0;
        assert forall|to: Seq<char>| #[trigger]
            all_edits_to(edits_for(out[k].edit, to), f.edits, uri, to) by {
            lemma_fix_changes(f.edits, uri, to);
            let entries = edits_to(f.edits, uri, to);
            let p = lemma_present_places(entries);
            assert forall|j: int| 0 <= j < f.edits.len() implies (goes_to(
                #[trigger] f.edits[j],
                uri,
                to,
            ) <==> p.contains(j)) by {
                assert(entries[j] is Some <==> goes_to(f.edits[j], uri, to));
            }
            assert forall|n: int| 0 <= n < p.len() implies {
                let e = f.edits[#[trigger] p[n]];
                edits_for(out[k].edit, to)[n].range == range_of(e.span) && edits_for(
                    out[k].edit,
                    to,
                )[n].new_text == e.replacement
            } by {
                assert(entries[p[n]] == Some(edits_for(out[k].edit, to)[n]));
            }
            assert(edit_places(p, edits_for(out[k].edit, to), f.edits, uri, to));
        }
    }
    assert forall|i: int| 0 <= i < doc.lint.len() implies ((#[trigger] doc.lint[i]).fix is Some
        && touch(place_of(doc.lint[i]), range) <==> at.contains(i)) by {
        assert(all[i] is Some <==> at.contains(i));
    }
    assert(action_places(at, out, doc.lint, uri, range));
}

// ── Completion ────────────────────────────────────────────────────────────────

/// What a completion of a symbol is.
pub open spec fn completes_symbol(item: CompletionItemView, s: SymbolView) -> bool {
    &&& item.label == s.name
    &&& item.detail == s.detail
    &&& item.kind == match s.kind {
        KindView::Concept => ItemKind::Class,
        KindView::Property => ItemKind::Function,
        KindView::Rule => ItemKind::Interface,
        KindView::Prefix => ItemKind::Module,
        KindView::Individual { .. } => ItemKind::EnumMember,
    }
}

/// Every known symbol whose name starts with what stands before the cursor is suggested, by
/// its name, its kind and its detail.
pub proof fn law_symbols_are_suggested(
    doc: DocumentView,
    pos: Position,
    items: Seq<CompletionItemView>,
    name: Seq<char>,
)
    requires
        completes(doc, pos, items),
        doc.analysis is Some,
        doc.analysis->0.index.symbols.contains_key(name),
        doc.analysis->0.index.symbols[name].name == name,
        word_start(doc.text, offset_at(doc.text, pos)).is_prefix_of(name),
    ensures
        exists|item: CompletionItemView| #[trigger]
            items.contains(item) && completes_symbol(item, doc.analysis->0.index.symbols[name]),
{
    let s = doc.analysis->0.index.symbols[name];
    let item = crate::completion::symbol_item(s);
    assert(crate::completion::suggested(
        crate::semantic::names_of(doc),
        word_start(doc.text, offset_at(doc.text, pos)),
        item,
    ));
    assert(items.contains(item));
}

/// The keywords that are suggested.
pub open spec fn suggested_keyword(w: Seq<char>) -> bool {
    ||| w == "concept"@ || w == "property"@ || w == "rule"@ || w == "prefix"@ || w == "sub"@
    ||| w == "has"@ || w == "match"@ || w == "then"@ || w == "one"@ || w == "any"@ || w == "some"@
    ||| w == "optional"@ || w == "string"@ || w == "int"@ || w == "float"@ || w == "boolean"@
    ||| w == "all"@ || w == "none"@ || w == "at_least"@ || w == "at_most"@ || w == "exactly"@
    ||| w == "between"@
}

/// The keywords with what is said about them: declarations and their parts, multiplicities,
/// built-in types and quantifiers.
pub open spec fn explained_keyword(w: Seq<char>, help: Seq<char>) -> bool {
    ||| w == "concept"@ && help == "Define a concept (class)"@
    ||| w == "property"@ && help == "Define a property (relation)"@
    ||| w == "rule"@ && help == "Define an inference rule"@
    ||| w == "prefix"@ && help == "Declare a prefix alias"@
    ||| w == "sub"@ && help == "Inherit from a parent concept"@
    ||| w == "has"@ && help == "Declare a property slot"@
    ||| w == "match"@ && help == "Match block of an inference rule"@
    ||| w == "then"@ && help == "Then block of an inference rule"@
    ||| w == "one"@ && help == "Cardinality: exactly one"@
    ||| w == "any"@ && help == "Cardinality: zero or more"@
    ||| w == "some"@ && help == "Cardinality: one or more"@
    ||| w == "optional"@ && help == "Cardinality: zero or one"@
    ||| w == "string"@ && help == "Primitive type: string"@
    ||| w == "int"@ && help == "Primitive type: integer"@
    ||| w == "float"@ && help == "Primitive type: floating-point"@
    ||| w == "boolean"@ && help == "Primitive type: boolean"@
    ||| w == "all"@ && help == "Quantifier: for all"@
    ||| w == "none"@ && help == "Quantifier: for none"@
    ||| w == "at_least"@ && help == "Quantifier: at least N"@
    ||| w == "at_most"@ && help == "Quantifier: at most N"@
    ||| w == "exactly"@ && help == "Quantifier: exactly N"@
    ||| w == "between"@ && help == "Quantifier: between M and N"@
}

/// Every keyword that starts with what stands before the cursor is suggested, with what is said
/// about it.
pub proof fn law_keywords_are_suggested(
    doc: DocumentView,
    pos: Position,
    items: Seq<CompletionItemView>,
    w: Seq<char>,
)
    requires
        completes(doc, pos, items),
        suggested_keyword(w),
        word_start(doc.text, offset_at(doc.text, pos)).is_prefix_of(w),
    ensures
        exists|item: CompletionItemView| #[trigger]
            items.contains(item) && item.label == w && item.kind == ItemKind::Keyword
                && explained_keyword(w, item.detail),
{
    let k = keywords();
    let i = lemma_keyword_place(w);
    let item = crate::completion::keyword_item(k[i]);
    assert(crate::completion::suggested(
        crate::semantic::names_of(doc),
        word_start(doc.text, offset_at(doc.text, pos)),
        item,
    ));
    assert(items.contains(item));
    lemma_is_keyword(i);
}

/// Each keyword stands in the table.
proof fn lemma_keyword_place(w: Seq<char>) -> (i: int)
    requires
        suggested_keyword(w),
    ensures
        0 <= i < keywords().len(),
        keywords()[i].0 == w,
{
    let k = keywords();
    assert(k[0].0 == "concept"@ && k[1].0 == "property"@ && k[2].0 == "rule"@ && k[3].0 == "prefix"@);
    assert(k[4].0 == "sub"@ && k[5].0 == "has"@ && k[6].0 == "match"@ && k[7].0 == "then"@);
    assert(k[8].0 == "one"@ && k[9].0 == "any"@ && k[10].0 == "some"@ && k[11].0 == "optional"@);
    assert(k[12].0 == "string"@ && k[13].0 == "int"@ && k[14].0 == "float"@);
    assert(k[15].0 == "boolean"@ && k[16].0 == "all"@ && k[17].0 == "none"@);
    assert(k[18].0 == "at_least"@ && k[19].0 == "at_most"@ && k[20].0 == "exactly"@);
    assert(k[21].0 == "between"@);
    choose|i: int| 0 <= i < k.len() && (#[trigger] k[i]).0 == w
}

/// Nothing else is suggested: every completion starts with what stands before the cursor, and is
/// a keyword or a known symbol.
pub proof fn law_nothing_else_is_suggested(
    doc: DocumentView,
    pos: Position,
    items: Seq<CompletionItemView>,
    item: CompletionItemView,
)
    requires
        completes(doc, pos, items),
        items.contains(item),
    ensures
        word_start(doc.text, offset_at(doc.text, pos)).is_prefix_of(item.label),
        (item.kind == ItemKind::Keyword && explained_keyword(item.label, item.detail)) || (doc.analysis is Some
            && doc.analysis->0.index.symbols.contains_key(item.label) && completes_symbol(
            item,
            doc.analysis->0.index.symbols[item.label],
        )),
{
    if exists|k: int|
        0 <= k < keywords().len() && item == crate::completion::keyword_item(
            #[trigger] keywords()[k],
        ) {
        let k = choose|k: int|
            0 <= k < keywords().len() && item == crate::completion::keyword_item(
                #[trigger] keywords()[k],
            );
        lemma_is_keyword(k);
    }
}

/// The table holds keywords only.
proof fn lemma_is_keyword(i: int)
    requires
        0 <= i < keywords().len(),
    ensures
        explained_keyword(keywords()[i].0, keywords()[i].1),
{
}

/// Completions are listed by their names, and a keyword before a symbol of the same name; none
/// is listed twice.
pub proof fn law_completions_are_in_order(
    doc: DocumentView,
    pos: Position,
    items: Seq<CompletionItemView>,
    i: int,
    j: int,
)
    requires
        completes(doc, pos, items),
        0 <= i < j < items.len(),
    ensures
        text_before(items[i].label, items[j].label) || (items[i].label == items[j].label
            && items[i].kind == ItemKind::Keyword && items[j].kind != ItemKind::Keyword),
{
    assert(crate::completion::listed_before(items[i], items[j]));
}

} // verus!
