//! Document symbols, which editors show as outline and breadcrumbs.

use crate::ast::{file_decls, Ontology};
use crate::diagnostics::{fallback_range, range_or_zero};
use crate::document::{Document, DocumentView};
use crate::lists::{lemma_present_contains, lemma_present_push, present};
use crate::syntax::{
    decls, list_types, type_list, type_text, Decl, DeclView, Slot, SlotView, TypeNameView,
};
use crate::text::{decimal, decimal_text, opt_text};
use crate::types::Range;
use vstd::prelude::*;

verus! {

/// Kinds of document symbol.
#[derive(Clone, Copy, PartialEq, Eq, Debug, Structural)]
pub enum OutlineKind {
    Class,
    Field,
    Function,
    Namespace,
}

/// An entry below a concept in the outline.
#[derive(PartialEq, Eq, Debug)]
pub struct FieldSymbol {
    pub name: String,
    pub detail: Option<String>,
    pub kind: OutlineKind,
    pub range: Range,
    pub selection_range: Range,
}

/// A top-level entry of the outline.
#[derive(PartialEq, Eq, Debug)]
pub struct DocumentSymbol {
    pub name: String,
    pub detail: Option<String>,
    pub kind: OutlineKind,
    pub range: Range,
    pub selection_range: Range,
    pub children: Option<Vec<FieldSymbol>>,
}

/// Contents of a [`FieldSymbol`].
pub struct FieldSymbolView {
    pub name: Seq<char>,
    pub detail: Option<Seq<char>>,
    pub kind: OutlineKind,
    pub range: Range,
    pub selection_range: Range,
}

/// Contents of a [`DocumentSymbol`].
pub struct DocumentSymbolView {
    pub name: Seq<char>,
    pub detail: Option<Seq<char>>,
    pub kind: OutlineKind,
    pub range: Range,
    pub selection_range: Range,
    pub children: Option<Seq<FieldSymbolView>>,
}

impl View for FieldSymbol {
    type V = FieldSymbolView;

    open spec fn view(&self) -> FieldSymbolView {
        FieldSymbolView {
            name: self.name@,
            detail: opt_text(self.detail),
            kind: self.kind,
            range: self.range,
            selection_range: self.selection_range,
        }
    }
}

impl View for DocumentSymbol {
    type V = DocumentSymbolView;

    open spec fn view(&self) -> DocumentSymbolView {
        DocumentSymbolView {
            name: self.name@,
            detail: opt_text(self.detail),
            kind: self.kind,
            range: self.range,
            selection_range: self.selection_range,
            children: match self.children {
                Some(c) => Some(field_views(c@)),
                None => None,
            },
        }
    }
}

/// Contents of a list of field symbols.
pub open spec fn field_views(v: Seq<FieldSymbol>) -> Seq<FieldSymbolView> {
    Seq::new(v.len(), |i: int| v[i]@)
}

/// Contents of a list of document symbols.
pub open spec fn symbol_views(v: Seq<DocumentSymbol>) -> Seq<DocumentSymbolView> {
    Seq::new(v.len(), |i: int| v[i]@)
}

// ── Outline ───────────────────────────────────────────────────────────────────

/// The entry of a slot.
pub open spec fn slot_symbol(slot: SlotView) -> FieldSymbolView {
    FieldSymbolView {
        name: slot.name,
        detail: Some(type_text(slot.target)),
        kind: OutlineKind::Field,
        range: range_or_zero(slot.span),
        selection_range: range_or_zero(slot.span),
    }
}

/// The entries of the slots of a concept.
pub open spec fn slot_symbols(slots: Seq<SlotView>) -> Seq<FieldSymbolView> {
    Seq::new(slots.len(), |i: int| slot_symbol(slots[i]))
}

/// The parents of a concept, if it has any.
pub open spec fn parents_detail(parents: Seq<TypeNameView>) -> Option<Seq<char>> {
    if parents.len() == 0 {
        None
    } else {
        Some("sub "@ + type_list(parents))
    }
}

/// The entry of a declaration. Facts have none.
pub open spec fn declaration_symbol(d: DeclView) -> Option<DocumentSymbolView> {
    match d {
        DeclView::Concept(c) => Some(
            DocumentSymbolView {
                name: c.name,
                detail: parents_detail(c.parents),
                kind: OutlineKind::Class,
                range: range_or_zero(c.span),
                selection_range: range_or_zero(c.span),
                children: Some(slot_symbols(c.slots)),
            },
        ),
        DeclView::Property(p) => Some(
            DocumentSymbolView {
                name: p.name,
                detail: Some(type_text(p.domain) + " → "@ + type_text(p.range)),
                kind: OutlineKind::Function,
                range: range_or_zero(p.span),
                selection_range: range_or_zero(p.span),
                children: None,
            },
        ),
        DeclView::Fact(_) => None,
        DeclView::Rule(r) => Some(
            DocumentSymbolView {
                name: r.name,
                detail: Some(
                    decimal_text(r.patterns as nat) + " pattern(s), "@ + decimal_text(
                        r.assertions as nat,
                    ) + " assertion(s)"@,
                ),
                kind: OutlineKind::Namespace,
                range: range_or_zero(r.span),
                selection_range: range_or_zero(r.span),
                children: None,
            },
        ),
    }
}

/// For each declaration, its entry.
pub open spec fn declaration_symbols(v: Seq<DeclView>) -> Seq<Option<DocumentSymbolView>> {
    Seq::new(v.len(), |i: int| declaration_symbol(v[i]))
}

/// The outline of a document. One without a syntax tree has none.
pub open spec fn outline(doc: DocumentView) -> Seq<DocumentSymbolView> {
    match doc.parse.tree {
        Some(f) => present(declaration_symbols(file_decls(f))),
        None => Seq::empty(),
    }
}

/// The entries of the slots of a concept.
fn slots_to_symbols(slots: &Vec<Slot>) -> (r: Vec<FieldSymbol>)
    ensures
        field_views(r@) == slot_symbols(Seq::new(slots@.len(), |i: int| slots@[i]@)),
{
    let mut out: Vec<FieldSymbol> = Vec::new();
    let mut i: usize = 0;
    while i < slots.len()
        invariant
            i <= slots.len(),
            out.len() == i,
            forall|j: int| 0 <= j < i ==> (#[trigger] out@[j])@ == slot_symbol(slots@[j]@),
        decreases slots.len() - i,
    {
        let slot = &slots[i];
        let range = fallback_range(slot.span);
        out.push(
            FieldSymbol {
                name: slot.name.clone(),
                detail: Some(slot.target.text()),
                kind: OutlineKind::Field,
                range,
                selection_range: range,
            },
        );
        i = i + 1;
    }
    assert(field_views(out@) =~= slot_symbols(Seq::new(slots@.len(), |i: int| slots@[i]@)));
    out
}

/// The entry of a declaration, if it has one.
pub fn decl_to_symbol(decl: &Decl) -> (r: Option<DocumentSymbol>)
    ensures
        match r {
            Some(s) => declaration_symbol(decl@) == Some(s@),
            None => declaration_symbol(decl@) is None,
        },
{
    match decl {
        Decl::Concept(c) => {
            let range = fallback_range(c.span);
            let children = slots_to_symbols(&c.slots);
            let detail = if c.parents.len() == 0 {
                None
            } else {
                let mut d = "sub ".to_owned();
                d.append(list_types(&c.parents).as_str());
                Some(d)
            };
            Some(
                DocumentSymbol {
                    name: c.name.clone(),
                    detail,
                    kind: OutlineKind::Class,
                    range,
                    selection_range: range,
                    children: Some(children),
                },
            )
        },
        Decl::Property(p) => {
            let range = fallback_range(p.span);
            let mut detail = p.domain.text();
            detail.append(" → ");
            detail.append(p.range.text().as_str());
            Some(
                DocumentSymbol {
                    name: p.name.clone(),
                    detail: Some(detail),
                    kind: OutlineKind::Function,
                    range,
                    selection_range: range,
                    children: None,
                },
            )
        },
        Decl::Fact(_) => None,
        Decl::Rule(r) => {
            let range = fallback_range(r.span);
            let mut detail = decimal(r.patterns);
            detail.append(" pattern(s), ");
            detail.append(decimal(r.assertions).as_str());
            detail.append(" assertion(s)");
            Some(
                DocumentSymbol {
                    name: r.name.clone(),
                    detail: Some(detail),
                    kind: OutlineKind::Namespace,
                    range,
                    selection_range: range,
                    children: None,
                },
            )
        },
    }
}

/// The outline of a parsed file.
pub fn document_symbols(file: &Ontology) -> (r: Vec<DocumentSymbol>)
    ensures
        symbol_views(r@) == present(declaration_symbols(decls(file.decls@))),
{
    let mut out: Vec<DocumentSymbol> = Vec::new();
    let ghost all = declaration_symbols(decls(file.decls@));
    let mut i: usize = 0;
    assert(symbol_views(out@) =~= present(all.take(0)));
    while i < file.decls.len()
        invariant
            i <= file.decls.len(),
            all == declaration_symbols(decls(file.decls@)),
            symbol_views(out@) == present(all.take(i as int)),
        decreases file.decls.len() - i,
    {
        proof {
            assert(all.take(i + 1) =~= all.take(i as int).push(all[i as int]));
            lemma_present_push(all.take(i as int), all[i as int]);
        }
        let ghost before = out@;
        if let Some(s) = decl_to_symbol(&file.decls[i]) {
            out.push(s);
            assert(symbol_views(out@) =~= symbol_views(before).push(s@));
        }
        i = i + 1;
    }
    assert(all.take(all.len() as int) =~= all);
    out
}

/// The symbol tree for the outline.
pub fn provide(doc: &Document) -> (r: Vec<DocumentSymbol>)
    requires
        doc.wf(),
    ensures
        symbol_views(r@) == outline(doc@),
{
    match &doc.parse.ontology {
        Some(file) => document_symbols(file),
        None => {
            let r: Vec<DocumentSymbol> = Vec::new();
            assert(symbol_views(r@) =~= outline(doc@));
            r
        },
    }
}

// ── Laws ──────────────────────────────────────────────────────────────────────

/// The outline of a document holds exactly the entries of its declarations.
pub proof fn law_outline_covers_declarations(doc: DocumentView, s: DocumentSymbolView)
    requires
        doc.parse.tree is Some,
    ensures
        outline(doc).contains(s) <==> exists|i: int|
            0 <= i < file_decls(doc.parse.tree->0).len() && declaration_symbol(
                #[trigger] file_decls(doc.parse.tree->0)[i],
            ) == Some(s),
{
    let v = file_decls(doc.parse.tree->0);
    let all = declaration_symbols(v);
    lemma_present_contains(all, s);
    if all.contains(Some(s)) {
        let i = choose|i: int| 0 <= i < all.len() && all[i] == Some(s);
        assert(declaration_symbol(v[i]) == Some(s));
    }
    if exists|i: int| 0 <= i < v.len() && declaration_symbol(#[trigger] v[i]) == Some(s) {
        let i = choose|i: int| 0 <= i < v.len() && declaration_symbol(#[trigger] v[i]) == Some(s);
        assert(all[i] == Some(s));
    }
}

} // verus!
