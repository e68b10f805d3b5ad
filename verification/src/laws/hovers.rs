//! Hovers: what is shown for what stands under the cursor.

use crate::ast::{file_decls, file_prefixes};
use crate::comments::description;
use crate::diagnostics::{holds, offset_at, range_of};
use crate::document::DocumentView;
use crate::hover::{
    concept_lines, decl_at, decls_at, hover, prefixes_at, slot_at, slot_lines, slots_at, type_at,
    types_at, HoverView,
};
use crate::index::{KindView, SymbolTable, SymbolView};
use crate::laws::shared::{lemma_first_at, lemma_first_none, span_of};
use crate::lists::first;
use crate::syntax::{
    multiplicity_prefix, type_text, type_texts, ConceptView, DeclView, PrefixView, SlotView,
    TypeNameView,
};
use crate::text::{decimal_text, joined};
use crate::types::{Position, SourceSpan};
use vstd::prelude::*;

verus! {

// ── What is under the cursor ──────────────────────────────────────────────────

/// The span of a declaration holds the place `at`.
pub open spec fn in_declaration(d: DeclView, at: int) -> bool {
    match d {
        DeclView::Concept(c) => holds(c.span, at),
        DeclView::Property(p) => holds(p.span, at),
        DeclView::Rule(r) => holds(r.span, at),
        DeclView::Fact(f) => holds(f.span, at),
    }
}

/// Declaration `i` is the first that holds the place `at`.
pub open spec fn first_declaration(v: Seq<DeclView>, at: int, i: int) -> bool {
    &&& 0 <= i < v.len()
    &&& in_declaration(v[i], at)
    &&& forall|j: int| 0 <= j < i ==> !in_declaration(#[trigger] v[j], at)
}

/// Slot `k` is the first that holds the place `at`.
pub open spec fn first_slot(v: Seq<SlotView>, at: int, k: int) -> bool {
    &&& 0 <= k < v.len()
    &&& holds(v[k].span, at)
    &&& forall|j: int| 0 <= j < k ==> !holds((#[trigger] v[j]).span, at)
}

/// Some slot has the type reference and is the first at `at`.
pub open spec fn slot_refers(c: ConceptView, t: TypeNameView, at: int) -> bool {
    exists|k: int| #[trigger] first_slot(c.slots, at, k) && c.slots[k].target == t
}

/// The type reference stands at `at` in the declaration: it is a parent, the target of the slot
/// there, or the domain or range of a property.
pub open spec fn refers_at(d: DeclView, t: TypeNameView, at: int) -> bool {
    holds(span_of(t), at) && match d {
        DeclView::Concept(c) => c.parents.contains(t) || slot_refers(c, t, at),
        DeclView::Property(p) => t == p.domain || t == p.range,
        DeclView::Rule(_) => false,
        DeclView::Fact(_) => false,
    }
}

/// `value` is what is shown for a symbol: its detail and what it is.
pub open spec fn tells_symbol(value: Seq<char>, s: SymbolView) -> bool {
    match s.kind {
        KindView::Concept => value == "```dolfin\n"@ + s.detail + "\n```"@ + "\n\n*"@ + "concept"@
            + "* `"@ + s.name + "`"@,
        KindView::Property => value == "```dolfin\n"@ + s.detail + "\n```"@ + "\n\n*"@
            + "property"@ + "* `"@ + s.name + "`"@,
        KindView::Rule => value == "```dolfin\n"@ + s.detail + "\n```"@ + "\n\n*"@ + "rule"@
            + "* `"@ + s.name + "`"@,
        KindView::Prefix => value == "```dolfin\n"@ + s.detail + "\n```"@ + "\n\n*"@ + "prefix"@
            + "* `"@ + s.name + "`"@,
        KindView::Individual { parent } => value == "```dolfin\n"@ + s.name + "\n```"@
            + "\n\nIndividual of `"@ + parent + "`."@,
    }
}

/// `value` is what is shown for a type reference: the symbol that it resolves to, by its last
/// part and else by all of it, that it is not resolved, or that it is built in.
pub open spec fn tells_type(value: Seq<char>, t: TypeNameView, symbols: SymbolTable) -> bool {
    match t {
        TypeNameView::Named { parts, .. } => if parts.len() > 0 && symbols.contains_key(
            parts.last(),
        ) {
            tells_symbol(value, symbols[parts.last()])
        } else if parts.len() == 0 && symbols.contains_key(Seq::empty()) {
            tells_symbol(value, symbols[Seq::empty()])
        } else if symbols.contains_key(joined(parts, "."@)) {
            tells_symbol(value, symbols[joined(parts, "."@)])
        } else {
            value == "```dolfin\n"@ + joined(parts, "."@) + "\n```"@ + "\n\n⚠ Unresolved."@
        },
        TypeNameView::Builtin { .. } => value == "```dolfin\n"@ + type_text(t) + "\n```"@
            + "\n\nBuilt-in primitive."@,
    }
}

/// A hover is about a type reference.
pub open spec fn hover_of_type(h: HoverView, t: TypeNameView, symbols: SymbolTable) -> bool {
    (span_of(t) matches Some(s) && h.range == Some(range_of(s))) && tells_type(h.value, t, symbols)
}

/// A hover is about a type reference of the declaration that stands at `at`.
pub open spec fn hover_on_reference(
    h: Option<HoverView>,
    d: DeclView,
    at: int,
    symbols: SymbolTable,
) -> bool {
    exists|u: TypeNameView| #[trigger]
        refers_at(d, u, at) && (h matches Some(h) && hover_of_type(h, u, symbols))
}

/// The document has a syntax tree and an analysis.
pub open spec fn analysed(doc: DocumentView) -> bool {
    doc.parse.tree is Some && doc.analysis is Some
}

/// A type reference at the place has its hover, and no other has.
proof fn lemma_type_hover(t: TypeNameView, symbols: SymbolTable, at: int)
    ensures
        type_at(t, symbols, at) is Some <==> holds(span_of(t), at),
        type_at(t, symbols, at) matches Some(h) ==> hover_of_type(h, t, symbols),
{
}

/// What is first among references is about one of them.
proof fn lemma_first_type(v: Seq<TypeNameView>, symbols: SymbolTable, at: int)
    ensures
        first(types_at(v, symbols, at)) is Some <==> exists|i: int|
            0 <= i < v.len() && holds(span_of(#[trigger] v[i]), at),
        first(types_at(v, symbols, at)) matches Some(h) ==> exists|i: int|
            0 <= i < v.len() && holds(span_of(#[trigger] v[i]), at) && hover_of_type(
                h,
                v[i],
                symbols,
            ),
{
    let all = types_at(v, symbols, at);
    if first(all) is Some {
        let i = crate::lists::lemma_first_from(all);
        lemma_type_hover(v[i], symbols, at);
    } else {
        if exists|i: int| 0 <= i < v.len() && holds(span_of(#[trigger] v[i]), at) {
            let i = lemma_least(v, at);
            assert forall|j: int| 0 <= j < i implies #[trigger] all[j] is None by {
                lemma_type_hover(v[j], symbols, at);
            }
            lemma_type_hover(v[i], symbols, at);
            lemma_first_at(all, i);
        }
    }
}

/// The first reference at a place.
proof fn lemma_least(v: Seq<TypeNameView>, at: int) -> (i: int)
    requires
        exists|i: int| 0 <= i < v.len() && holds(span_of(#[trigger] v[i]), at),
    ensures
        0 <= i < v.len(),
        holds(span_of(v[i]), at),
        forall|j: int| 0 <= j < i ==> !holds(span_of(#[trigger] v[j]), at),
    decreases v.len(),
{
    let k = choose|i: int| 0 <= i < v.len() && holds(span_of(#[trigger] v[i]), at);
    if exists|j: int| 0 <= j < k && holds(span_of(#[trigger] v[j]), at) {
        let w = v.take(k);
        let j = choose|j: int| 0 <= j < k && holds(span_of(#[trigger] v[j]), at);
        assert(holds(span_of(w[j]), at));
        let i = lemma_least(w, at);
        assert(v[i] == w[i]);
        assert forall|j: int| 0 <= j < i implies !holds(span_of(#[trigger] v[j]), at) by {
            assert(w[j] == v[j]);
        }
        i
    } else {
        k
    }
}

/// The hover in a document is that of the first declaration at the cursor.
proof fn lemma_hover_is_first(doc: DocumentView, pos: Position, i: int)
    requires
        analysed(doc),
        first_declaration(file_decls(doc.parse.tree->0), offset_at(doc.text, pos), i),
    ensures
        hover(doc, pos) == decl_at(
            file_decls(doc.parse.tree->0)[i],
            doc.analysis->0.index.symbols,
            doc.comments,
            offset_at(doc.text, pos),
        ),
        hover(doc, pos) is Some,
{
    let v = file_decls(doc.parse.tree->0);
    let at = offset_at(doc.text, pos);
    let all = decls_at(v, doc.analysis->0.index.symbols, doc.comments, at);
    assert forall|j: int| 0 <= j < i implies #[trigger] all[j] is None by {
        assert(!in_declaration(v[j], at));
    }
    lemma_first_at(all, i);
}

// ── Laws ──────────────────────────────────────────────────────────────────────

/// Where a type reference stands under the cursor, the hover is about a type reference there: it
/// has its range and shows the symbol that it resolves to.
pub proof fn law_hover_on_types(doc: DocumentView, pos: Position, i: int, t: TypeNameView)
    requires
        analysed(doc),
        first_declaration(file_decls(doc.parse.tree->0), offset_at(doc.text, pos), i),
        refers_at(file_decls(doc.parse.tree->0)[i], t, offset_at(doc.text, pos)),
    ensures
        hover_on_reference(
            hover(doc, pos),
            file_decls(doc.parse.tree->0)[i],
            offset_at(doc.text, pos),
            doc.analysis->0.index.symbols,
        ),
{
    let d = file_decls(doc.parse.tree->0)[i];
    let at = offset_at(doc.text, pos);
    let symbols = doc.analysis->0.index.symbols;
    lemma_hover_is_first(doc, pos, i);
    match d {
        DeclView::Concept(c) => {
            lemma_first_type(c.parents, symbols, at);
            if first(types_at(c.parents, symbols, at)) is Some {
                let h = first(types_at(c.parents, symbols, at))->0;
                let n = choose|n: int|
                    0 <= n < c.parents.len() && holds(span_of(#[trigger] c.parents[n]), at)
                        && hover_of_type(h, c.parents[n], symbols);
                assert(c.parents.contains(c.parents[n]));
                assert(refers_at(d, c.parents[n], at));
            } else {
                if c.parents.contains(t) {
                    let n = choose|n: int| 0 <= n < c.parents.len() && c.parents[n] == t;
                    assert(holds(span_of(c.parents[n]), at));
                }
                let k = choose|k: int| #[trigger] first_slot(c.slots, at, k) && c.slots[k].target == t;
                lemma_slot_first(c, symbols, at, k);
                lemma_type_hover(t, symbols, at);
                assert(refers_at(d, t, at));
            }
        },
        DeclView::Property(p) => {
            lemma_type_hover(p.domain, symbols, at);
            lemma_type_hover(p.range, symbols, at);
            if holds(span_of(p.domain), at) {
                assert(refers_at(d, p.domain, at));
            } else {
                assert(refers_at(d, p.range, at));
            }
        },
        DeclView::Rule(_) => {},
        DeclView::Fact(_) => {},
    }
}

/// The hover among the slots is that of the first at the place.
proof fn lemma_slot_first(c: ConceptView, symbols: SymbolTable, at: int, k: int)
    requires
        first_slot(c.slots, at, k),
    ensures
        first(slots_at(c.slots, c.name, symbols, at)) == slot_at(c.slots[k], c.name, symbols, at),
        first(slots_at(c.slots, c.name, symbols, at)) is Some,
{
    let all = slots_at(c.slots, c.name, symbols, at);
    assert forall|j: int| 0 <= j < k implies #[trigger] all[j] is None by {
        assert(!holds(c.slots[j].span, at));
    }
    lemma_first_at(all, k);
}

/// A slot as it is written: `has`, its name, its multiplicity and its type.
pub open spec fn written_slot(s: SlotView) -> Seq<char> {
    "has "@ + s.name + ": "@ + multiplicity_prefix(s.multiplicity) + type_text(s.target)
}

/// On a slot, but not on its type, the hover shows the slot and whose it is.
pub proof fn law_hover_on_slots(doc: DocumentView, pos: Position, i: int, c: ConceptView, k: int)
    requires
        analysed(doc),
        first_declaration(file_decls(doc.parse.tree->0), offset_at(doc.text, pos), i),
        file_decls(doc.parse.tree->0)[i] == DeclView::Concept(c),
        first_slot(c.slots, offset_at(doc.text, pos), k),
        forall|t: TypeNameView| !refers_at(DeclView::Concept(c), t, offset_at(doc.text, pos)),
    ensures
        hover(doc, pos) matches Some(h) && h.value == "```dolfin\n"@ + written_slot(c.slots[k])
            + "\n```"@ + "\n\nSlot on `"@ + c.name + "`."@ && h.range == Some(
            range_of(c.slots[k].span->0),
        ),
{
    let at = offset_at(doc.text, pos);
    let symbols = doc.analysis->0.index.symbols;
    lemma_hover_is_first(doc, pos, i);
    lemma_no_parent(c, symbols, at);
    lemma_slot_first(c, symbols, at, k);
    lemma_type_hover(c.slots[k].target, symbols, at);
    assert(!refers_at(DeclView::Concept(c), c.slots[k].target, at));
}

/// Without a reference at the place there is no hover for a parent.
proof fn lemma_no_parent(c: ConceptView, symbols: SymbolTable, at: int)
    requires
        forall|t: TypeNameView| !refers_at(DeclView::Concept(c), t, at),
    ensures
        first(types_at(c.parents, symbols, at)) is None,
{
    lemma_first_type(c.parents, symbols, at);
    assert forall|n: int| 0 <= n < c.parents.len() implies !holds(
        span_of(#[trigger] c.parents[n]),
        at,
    ) by {
        assert(c.parents.contains(c.parents[n]));
        assert(!refers_at(DeclView::Concept(c), c.parents[n], at));
    }
}

/// The lines of a concept: its name, its parents if it has any, and its slots.
pub open spec fn concept_written(lines: Seq<Seq<char>>, c: ConceptView) -> bool {
    let top = if c.parents.len() == 0 {
        1int
    } else {
        2
    };
    &&& lines.len() == top + c.slots.len()
    &&& lines[0] == "concept "@ + c.name + ":"@
    &&& c.parents.len() > 0 ==> lines[1] == "  sub "@ + joined(type_texts(c.parents), ", "@)
    &&& forall|k: int|
        0 <= k < c.slots.len() ==> #[trigger] lines[top + k] == "  "@ + written_slot(c.slots[k])
}

/// How many properties a concept has, in words.
pub open spec fn counts_properties(text: Seq<char>, n: nat) -> bool {
    if n == 0 {
        text == "No properties."@
    } else if n == 1 {
        text == decimal_text(1) + " propert"@ + "y"@ + "."@
    } else {
        text == decimal_text(n) + " propert"@ + "ies"@ + "."@
    }
}

/// `value` is what is shown for a declaration without description.
pub open spec fn tells_declaration(value: Seq<char>, d: DeclView) -> bool {
    match d {
        DeclView::Concept(c) => exists|lines: Seq<Seq<char>>, count: Seq<char>|
            #![trigger concept_written(lines, c), counts_properties(count, c.slots.len())]
            concept_written(lines, c) && counts_properties(count, c.slots.len()) && value
                == "```dolfin\n"@ + joined(lines, "\n"@) + "\n```"@ + "\n\n"@ + count,
        DeclView::Property(p) => value == "```dolfin\n"@ + ("property "@ + p.name + ": "@
            + multiplicity_prefix(p.domain_multiplicity) + type_text(p.domain) + " → "@
            + multiplicity_prefix(p.range_multiplicity) + type_text(p.range)) + "\n```"@
            + "\n\nRelation `"@ + type_text(p.domain) + "` → `"@ + type_text(p.range) + "`."@,
        DeclView::Rule(r) => value == "```dolfin\n"@ + ("rule "@ + r.name) + "\n```"@ + "\n\n"@
            + decimal_text(r.patterns as nat) + " pattern(s), "@ + decimal_text(r.assertions as nat)
            + " assertion(s)."@,
        DeclView::Fact(f) => exists|types: Seq<Seq<char>>|
            types.len() == f.types.len() && (forall|k: int|
                0 <= k < types.len() ==> #[trigger] types[k] == joined(f.types[k], "."@)) && value
                == "```dolfin\n"@ + ("fact "@ + f.id + " a "@ + #[trigger] joined(types, ", "@))
                + "\n```"@,
    }
}

/// The comments that stand before a declaration, none if there are none.
pub open spec fn comments_of(doc: DocumentView, span: SourceSpan) -> Seq<Seq<char>> {
    if doc.comments.dom().contains(span) {
        doc.comments[span]
    } else {
        Seq::empty()
    }
}

/// The span of a declaration.
pub open spec fn declaration_span(d: DeclView) -> Option<SourceSpan> {
    match d {
        DeclView::Concept(c) => c.span,
        DeclView::Property(p) => p.span,
        DeclView::Rule(r) => r.span,
        DeclView::Fact(f) => f.span,
    }
}

/// In a declaration, but on none of its types and slots, the hover shows the description in the
/// comments before it, or else the declaration itself, and has its range.
pub proof fn law_hover_on_declarations(doc: DocumentView, pos: Position, i: int)
    requires
        analysed(doc),
        first_declaration(file_decls(doc.parse.tree->0), offset_at(doc.text, pos), i),
        forall|t: TypeNameView|
            !refers_at(file_decls(doc.parse.tree->0)[i], t, offset_at(doc.text, pos)),
        file_decls(doc.parse.tree->0)[i] matches DeclView::Concept(c) ==> forall|k: int|
            0 <= k < c.slots.len() ==> !holds((#[trigger] c.slots[k]).span, offset_at(doc.text, pos)),
    ensures
        ({
            let d = file_decls(doc.parse.tree->0)[i];
            hover(doc, pos) matches Some(h) && declaration_span(d) is Some && h.range == Some(
                range_of(declaration_span(d)->0),
            ) && match description(comments_of(doc, declaration_span(d)->0)) {
                Some(text) => h.value == text,
                None => tells_declaration(h.value, d),
            }
        }),
{
    let d = file_decls(doc.parse.tree->0)[i];
    let at = offset_at(doc.text, pos);
    let symbols = doc.analysis->0.index.symbols;
    lemma_hover_is_first(doc, pos, i);
    match d {
        DeclView::Concept(c) => {
            lemma_no_parent(c, symbols, at);
            let all = slots_at(c.slots, c.name, symbols, at);
            assert forall|j: int| 0 <= j < all.len() implies #[trigger] all[j] is None by {
                assert(!holds(c.slots[j].span, at));
            }
            lemma_first_none(all);
            let lines = concept_lines(c);
            let count = crate::hover::property_count(c.slots.len());
            let top = if c.parents.len() == 0 {
                1int
            } else {
                2
            };
            assert forall|k: int| 0 <= k < c.slots.len() implies #[trigger] lines[top + k] == "  "@
                + written_slot(c.slots[k]) by {
                assert(lines[top + k] == slot_lines(c.slots)[k]);
            }
            assert(concept_written(lines, c));
            assert(counts_properties(count, c.slots.len()));
        },
        DeclView::Property(p) => {
            lemma_type_hover(p.domain, symbols, at);
            lemma_type_hover(p.range, symbols, at);
            assert(!refers_at(d, p.domain, at));
            assert(!refers_at(d, p.range, at));
        },
        DeclView::Rule(_) => {},
        DeclView::Fact(f) => {
            let types = crate::hover::all_dotted(f.types);
            assert(joined(types, ", "@) == joined(types, ", "@));
        },
    }
}

/// Outside all declarations the hover shows the first prefix at the cursor, and where there is
/// none either, there is no hover.
pub proof fn law_hover_on_prefixes(doc: DocumentView, pos: Position)
    requires
        analysed(doc),
        forall|j: int|
            0 <= j < file_decls(doc.parse.tree->0).len() ==> !in_declaration(
                #[trigger] file_decls(doc.parse.tree->0)[j],
                offset_at(doc.text, pos),
            ),
    ensures
        forall|k: int|
            0 <= k < file_prefixes(doc.parse.tree->0).len() && holds(
                (#[trigger] file_prefixes(doc.parse.tree->0)[k]).span,
                offset_at(doc.text, pos),
            ) && (forall|j: int|
                0 <= j < k ==> !holds(
                    (#[trigger] file_prefixes(doc.parse.tree->0)[j]).span,
                    offset_at(doc.text, pos),
                )) ==> hover(doc, pos) == Some(
                shown_prefix(file_prefixes(doc.parse.tree->0)[k]),
            ),
        (forall|k: int|
            0 <= k < file_prefixes(doc.parse.tree->0).len() ==> !holds(
                (#[trigger] file_prefixes(doc.parse.tree->0)[k]).span,
                offset_at(doc.text, pos),
            )) ==> hover(doc, pos) is None,
{
    let v = file_decls(doc.parse.tree->0);
    let p = file_prefixes(doc.parse.tree->0);
    let at = offset_at(doc.text, pos);
    let in_decls = decls_at(v, doc.analysis->0.index.symbols, doc.comments, at);
    assert forall|j: int| 0 <= j < in_decls.len() implies #[trigger] in_decls[j] is None by {
        assert(!in_declaration(v[j], at));
    }
    lemma_first_none(in_decls);
    let all = prefixes_at(p, at);
    assert forall|k: int|
        0 <= k < p.len() && holds((#[trigger] p[k]).span, at) && (forall|j: int|
            0 <= j < k ==> !holds((#[trigger] p[j]).span, at)) implies hover(doc, pos) == Some(
        shown_prefix(p[k]),
    ) by {
        assert forall|j: int| 0 <= j < k implies #[trigger] all[j] is None by {
            assert(!holds(p[j].span, at));
        }
        lemma_first_at(all, k);
    }
    if forall|k: int| 0 <= k < p.len() ==> !holds((#[trigger] p[k]).span, at) {
        assert forall|j: int| 0 <= j < all.len() implies #[trigger] all[j] is None by {
            assert(!holds(p[j].span, at));
        }
        lemma_first_none(all);
    }
}

/// What is shown for a prefix: what its alias stands for.
pub open spec fn shown_prefix(p: PrefixView) -> HoverView {
    HoverView {
        value: "```dolfin\n"@ + ("prefix "@ + joined(p.path, "."@) + " as "@ + p.alias) + "\n```"@
            + "\n\nAlias `"@ + p.alias + "` expands to `"@ + joined(p.path, "."@) + "`."@,
        range: match p.span {
            Some(s) => Some(range_of(s)),
            None => None,
        },
    }
}

/// A document that could not be parsed or was not analysed shows no hover.
pub proof fn law_no_hover_without_analysis(doc: DocumentView, pos: Position)
    requires
        !analysed(doc),
    ensures
        hover(doc, pos) is None,
{
}

} // verus!
