//! Hover: markdown for what stands under the cursor.

use crate::ast::{file_decls, file_prefixes, Ontology};
use crate::comments::{description, description_from_leading};
use crate::diagnostics::{holds, offset_at, offset_of, range_of, span_contains, span_to_range};
use crate::document::{Document, DocumentView};
use crate::index::{
    index_symbols, lookup, lookup_in, Kind, KindView, SymbolInfo, SymbolTable, SymbolView,
};
use crate::lists::{first, lemma_first_from, lemma_first_skip};
use crate::parsing::{comments_before, leading_comments, leading_texts};
use crate::syntax::{
    decls, dotted, full_name, last_name, last_part, list_types, multiplicity_prefix, prefix_text,
    type_list, type_text, Concept, ConceptView, Decl, DeclView, Fact, FactView, PrefixAlias,
    PrefixView, Property, PropertyView, Rule, RuleView, Slot, SlotView, TypeName, TypeNameView,
};
use crate::text::{decimal, decimal_text, join, joined, texts};
use crate::types::{Position, Range, SourceSpan};
use dolfin_analysis::SymbolIndex;
use rowl::comment::CommentMap;
use vstd::prelude::*;

verus! {

/// A hover: markdown and the range that it is about.
#[derive(PartialEq, Eq, Debug)]
pub struct Hover {
    pub value: String,
    pub range: Option<Range>,
}

/// Contents of a [`Hover`].
pub struct HoverView {
    pub value: Seq<char>,
    pub range: Option<Range>,
}

impl View for Hover {
    type V = HoverView;

    open spec fn view(&self) -> HoverView {
        HoverView { value: self.value@, range: self.range }
    }
}

/// Contents of an optional hover.
pub open spec fn hover_view(h: Option<Hover>) -> Option<HoverView> {
    match h {
        Some(h) => Some(h@),
        None => None,
    }
}

/// Comments by the span of the node they stand before.
pub type Comments = Map<SourceSpan, Seq<Seq<char>>>;

// ── Texts ─────────────────────────────────────────────────────────────────────

/// `code` in a fenced block.
pub open spec fn fenced(code: Seq<char>) -> Seq<char> {
    "```dolfin\n"@ + code + "\n```"@
}

/// `code` in a fenced block.
fn fence(code: &str) -> (r: String)
    ensures
        r@ == fenced(code@),
{
    let mut s = "```dolfin\n".to_owned();
    s.append(code);
    s.append("\n```");
    s
}

/// A slot line.
pub open spec fn slot_line(s: SlotView) -> Seq<char> {
    "has "@ + s.name + ": "@ + multiplicity_prefix(s.multiplicity) + type_text(s.target)
}

/// A slot line.
fn write_slot(s: &Slot) -> (r: String)
    ensures
        r@ == slot_line(s@),
{
    let mut t = "has ".to_owned();
    t.append(s.name.as_str());
    t.append(": ");
    t.append(prefix_text(&s.multiplicity).as_str());
    t.append(s.target.text().as_str());
    t
}

/// The slot lines of a concept, indented.
pub open spec fn slot_lines(slots: Seq<SlotView>) -> Seq<Seq<char>> {
    Seq::new(slots.len(), |i: int| "  "@ + slot_line(slots[i]))
}

/// The lines of a concept: its name, its parents if it has any, its slots.
pub open spec fn concept_lines(c: ConceptView) -> Seq<Seq<char>> {
    let head = seq!["concept "@ + c.name + ":"@];
    let parents = if c.parents.len() == 0 {
        Seq::empty()
    } else {
        seq!["  sub "@ + type_list(c.parents)]
    };
    head + parents + slot_lines(c.slots)
}

/// How many properties there are.
pub open spec fn property_count(n: nat) -> Seq<char> {
    if n == 0 {
        "No properties."@
    } else {
        decimal_text(n) + " propert"@ + (if n == 1 {
            "y"@
        } else {
            "ies"@
        }) + "."@
    }
}

/// What is shown for a concept without description.
pub open spec fn concept_text(c: ConceptView) -> Seq<char> {
    fenced(joined(concept_lines(c), "\n"@)) + "\n\n"@ + property_count(c.slots.len())
}

/// What is shown for a concept without description.
pub fn concept_hover(c: &Concept) -> (r: String)
    ensures
        r@ == concept_text(c@),
{
    let mut lines: Vec<String> = Vec::new();
    let mut head = "concept ".to_owned();
    head.append(c.name.as_str());
    head.append(":");
    lines.push(head);
    if c.parents.len() > 0 {
        let mut sub = "  sub ".to_owned();
        sub.append(list_types(&c.parents).as_str());
        lines.push(sub);
    }
    let ghost top = texts(lines@);
    let ghost slots = c@.slots;
    proof {
        if c.parents.len() > 0 {
            assert(top =~= seq!["concept "@ + c@.name + ":"@] + seq![
                "  sub "@ + type_list(c@.parents),
            ]);
        } else {
            assert(top =~= seq!["concept "@ + c@.name + ":"@] + Seq::empty());
        }
        assert(top =~= top + slot_lines(slots).take(0));
    }
    let mut i: usize = 0;
    while i < c.slots.len()
        invariant
            i <= c.slots.len(),
            slots == c@.slots,
            texts(lines@) == top + slot_lines(slots).take(i as int),
        decreases c.slots.len() - i,
    {
        let ghost before = texts(lines@);
        let mut line = "  ".to_owned();
        line.append(write_slot(&c.slots[i]).as_str());
        lines.push(line);
        proof {
            assert(texts(lines@) =~= before.push(slot_lines(slots)[i as int]));
            assert(slot_lines(slots).take(i + 1) =~= slot_lines(slots).take(i as int).push(
                slot_lines(slots)[i as int],
            ));
        }
        i = i + 1;
    }
    proof {
        assert(slot_lines(slots).take(slots.len() as int) =~= slot_lines(slots));
        assert(texts(lines@) =~= concept_lines(c@));
    }
    let n: usize = c.slots.len();
    let mut out = fence(join(&lines, "\n").as_str());
    out.append("\n\n");
    if n == 0 {
        out.append("No properties.");
    } else {
        let mut count = decimal(n);
        count.append(" propert");
        count.append(if n == 1 { "y" } else { "ies" });
        count.append(".");
        out.append(count.as_str());
    }
    out
}

/// What a symbol is called by its kind.
pub open spec fn kind_label(kind: KindView) -> Seq<char> {
    match kind {
        KindView::Concept => "concept"@,
        KindView::Property => "property"@,
        KindView::Rule => "rule"@,
        KindView::Prefix => "prefix"@,
        KindView::Individual { .. } => "individual"@,
    }
}

/// What is shown for a reference to a symbol.
pub open spec fn symbol_text(s: SymbolView) -> Seq<char> {
    match s.kind {
        KindView::Individual { parent } => fenced(s.name) + "\n\nIndividual of `"@ + parent
            + "`."@,
        _ => fenced(s.detail) + "\n\n*"@ + kind_label(s.kind) + "* `"@ + s.name + "`"@,
    }
}

/// What is shown for a reference to a symbol.
pub fn symbol_hover(sym: &SymbolInfo) -> (r: String)
    ensures
        r@ == symbol_text(sym@),
{
    if let Kind::Individual { parent } = &sym.kind {
        let mut s = fence(sym.name.as_str());
        s.append("\n\nIndividual of `");
        s.append(parent.as_str());
        s.append("`.");
        return s;
    }
    let label = match &sym.kind {
        Kind::Concept => "concept",
        Kind::Property => "property",
        Kind::Rule => "rule",
        Kind::Prefix => "prefix",
        Kind::Individual { .. } => "individual",
    };
    let mut s = fence(sym.detail.as_str());
    s.append("\n\n*");
    s.append(label);
    s.append("* `");
    s.append(sym.name.as_str());
    s.append("`");
    s
}

/// What is shown for a property without description.
pub open spec fn property_text(p: PropertyView) -> Seq<char> {
    fenced(
        "property "@ + p.name + ": "@ + multiplicity_prefix(p.domain_multiplicity) + type_text(
            p.domain,
        ) + " → "@ + multiplicity_prefix(p.range_multiplicity) + type_text(p.range),
    ) + "\n\nRelation `"@ + type_text(p.domain) + "` → `"@ + type_text(p.range) + "`."@
}

/// What is shown for a property without description.
fn property_hover(p: &Property) -> (r: String)
    ensures
        r@ == property_text(p@),
{
    let domain = p.domain.text();
    let range = p.range.text();
    let mut code = "property ".to_owned();
    code.append(p.name.as_str());
    code.append(": ");
    code.append(prefix_text(&p.domain_multiplicity).as_str());
    code.append(domain.as_str());
    code.append(" → ");
    code.append(prefix_text(&p.range_multiplicity).as_str());
    code.append(range.as_str());
    let mut s = fence(code.as_str());
    s.append("\n\nRelation `");
    s.append(domain.as_str());
    s.append("` → `");
    s.append(range.as_str());
    s.append("`.");
    s
}

/// What is shown for a rule without description.
pub open spec fn rule_text(r: RuleView) -> Seq<char> {
    fenced("rule "@ + r.name) + "\n\n"@ + decimal_text(r.patterns as nat) + " pattern(s), "@
        + decimal_text(r.assertions as nat) + " assertion(s)."@
}

/// What is shown for a rule without description.
fn rule_hover(r: &Rule) -> (out: String)
    ensures
        out@ == rule_text(r@),
{
    let mut code = "rule ".to_owned();
    code.append(r.name.as_str());
    let mut s = fence(code.as_str());
    s.append("\n\n");
    s.append(decimal(r.patterns).as_str());
    s.append(" pattern(s), ");
    s.append(decimal(r.assertions).as_str());
    s.append(" assertion(s).");
    s
}

/// The dotted names of a list.
pub open spec fn all_dotted(v: Seq<Seq<Seq<char>>>) -> Seq<Seq<char>> {
    Seq::new(v.len(), |i: int| dotted(v[i]))
}

/// What is shown for a fact without description.
pub open spec fn fact_text(f: FactView) -> Seq<char> {
    fenced("fact "@ + f.id + " a "@ + joined(all_dotted(f.types), ", "@))
}

/// What is shown for a fact without description.
fn fact_hover(f: &Fact) -> (r: String)
    ensures
        r@ == fact_text(f@),
{
    let mut names: Vec<String> = Vec::new();
    let mut i: usize = 0;
    while i < f.types.len()
        invariant
            i <= f.types.len(),
            names.len() == i,
            forall|j: int| 0 <= j < i ==> (#[trigger] names@[j])@ == dotted(texts(f.types@[j]@)),
        decreases f.types.len() - i,
    {
        names.push(full_name(&f.types[i]));
        i = i + 1;
    }
    assert(texts(names@) =~= all_dotted(f@.types));
    let mut code = "fact ".to_owned();
    code.append(f.id.as_str());
    code.append(" a ");
    code.append(join(&names, ", ").as_str());
    fence(code.as_str())
}

/// What is shown for a prefix.
pub open spec fn prefix_alias_text(p: PrefixView) -> Seq<char> {
    fenced("prefix "@ + dotted(p.path) + " as "@ + p.alias) + "\n\nAlias `"@ + p.alias
        + "` expands to `"@ + dotted(p.path) + "`."@
}

/// What is shown for a prefix.
fn prefix_alias_hover(p: &PrefixAlias) -> (r: String)
    ensures
        r@ == prefix_alias_text(p@),
{
    let path = full_name(&p.path);
    let mut code = "prefix ".to_owned();
    code.append(path.as_str());
    code.append(" as ");
    code.append(p.alias.as_str());
    let mut s = fence(code.as_str());
    s.append("\n\nAlias `");
    s.append(p.alias.as_str());
    s.append("` expands to `");
    s.append(path.as_str());
    s.append("`.");
    s
}

// ── What stands at an offset ──────────────────────────────────────────────────

/// The range of an optional span.
pub open spec fn opt_range(span: Option<SourceSpan>) -> Option<Range> {
    match span {
        Some(s) => Some(range_of(s)),
        None => None,
    }
}

/// The range of an optional span.
fn range_opt(span: Option<SourceSpan>) -> (r: Option<Range>)
    ensures
        r == opt_range(span),
{
    match span {
        Some(s) => Some(span_to_range(s)),
        None => None,
    }
}

/// What a name in a type position refers to: its last part if that is known, else the
/// whole name.
pub open spec fn resolve(symbols: SymbolTable, parts: Seq<Seq<char>>) -> Option<SymbolView> {
    match lookup_in(symbols, last_part(parts)) {
        Some(s) => Some(s),
        None => lookup_in(symbols, dotted(parts)),
    }
}

/// The hover for a type reference, if it stands at the offset.
pub open spec fn type_at(t: TypeNameView, symbols: SymbolTable, at: int) -> Option<HoverView> {
    match t {
        TypeNameView::Named { parts, span } => if holds(span, at) {
            Some(
                HoverView {
                    value: match resolve(symbols, parts) {
                        Some(s) => symbol_text(s),
                        None => fenced(dotted(parts)) + "\n\n⚠ Unresolved."@,
                    },
                    range: opt_range(span),
                },
            )
        } else {
            None
        },
        TypeNameView::Builtin { span, .. } => if holds(span, at) {
            Some(
                HoverView {
                    value: fenced(type_text(t)) + "\n\nBuilt-in primitive."@,
                    range: opt_range(span),
                },
            )
        } else {
            None
        },
    }
}

/// The hovers for type references at the offset.
pub open spec fn types_at(v: Seq<TypeNameView>, symbols: SymbolTable, at: int) -> Seq<
    Option<HoverView>,
> {
    Seq::new(v.len(), |i: int| type_at(v[i], symbols, at))
}

/// The hover for a slot, if it stands at the offset: that of its type there, else the slot
/// line.
pub open spec fn slot_at(
    s: SlotView,
    concept: Seq<char>,
    symbols: SymbolTable,
    at: int,
) -> Option<HoverView> {
    if holds(s.span, at) {
        match type_at(s.target, symbols, at) {
            Some(h) => Some(h),
            None => Some(
                HoverView {
                    value: fenced(slot_line(s)) + "\n\nSlot on `"@ + concept + "`."@,
                    range: opt_range(s.span),
                },
            ),
        }
    } else {
        None
    }
}

/// The hovers for slots at the offset.
pub open spec fn slots_at(
    v: Seq<SlotView>,
    concept: Seq<char>,
    symbols: SymbolTable,
    at: int,
) -> Seq<Option<HoverView>> {
    Seq::new(v.len(), |i: int| slot_at(v[i], concept, symbols, at))
}

/// The description before a node, else `text`.
pub open spec fn described_or(
    comments: Comments,
    span: Option<SourceSpan>,
    text: Seq<char>,
) -> Seq<char> {
    match span {
        Some(s) => match description(comments_before(comments, s)) {
            Some(d) => d,
            None => text,
        },
        None => text,
    }
}

/// The hover for a concept that the offset is in.
pub open spec fn concept_at(c: ConceptView, symbols: SymbolTable, comments: Comments, at: int)
    -> HoverView {
    match first(types_at(c.parents, symbols, at)) {
        Some(h) => h,
        None => match first(slots_at(c.slots, c.name, symbols, at)) {
            Some(h) => h,
            None => HoverView {
                value: described_or(comments, c.span, concept_text(c)),
                range: opt_range(c.span),
            },
        },
    }
}

/// The hover for a property that the offset is in.
pub open spec fn property_at(p: PropertyView, symbols: SymbolTable, comments: Comments, at: int)
    -> HoverView {
    match type_at(p.domain, symbols, at) {
        Some(h) => h,
        None => match type_at(p.range, symbols, at) {
            Some(h) => h,
            None => HoverView {
                value: described_or(comments, p.span, property_text(p)),
                range: opt_range(p.span),
            },
        },
    }
}

/// The place of a declaration.
pub open spec fn decl_span(d: DeclView) -> Option<SourceSpan> {
    match d {
        DeclView::Concept(c) => c.span,
        DeclView::Property(p) => p.span,
        DeclView::Rule(r) => r.span,
        DeclView::Fact(f) => f.span,
    }
}

/// The hover for a declaration, if the offset is in it.
pub open spec fn decl_at(d: DeclView, symbols: SymbolTable, comments: Comments, at: int) -> Option<
    HoverView,
> {
    if holds(decl_span(d), at) {
        Some(
            match d {
                DeclView::Concept(c) => concept_at(c, symbols, comments, at),
                DeclView::Property(p) => property_at(p, symbols, comments, at),
                DeclView::Rule(r) => HoverView {
                    value: described_or(comments, r.span, rule_text(r)),
                    range: opt_range(r.span),
                },
                DeclView::Fact(f) => HoverView {
                    value: described_or(comments, f.span, fact_text(f)),
                    range: opt_range(f.span),
                },
            },
        )
    } else {
        None
    }
}

/// The hovers for declarations at the offset.
pub open spec fn decls_at(
    v: Seq<DeclView>,
    symbols: SymbolTable,
    comments: Comments,
    at: int,
) -> Seq<Option<HoverView>> {
    Seq::new(v.len(), |i: int| decl_at(v[i], symbols, comments, at))
}

/// The hover for a prefix, if the offset is in it.
pub open spec fn prefix_at(p: PrefixView, at: int) -> Option<HoverView> {
    if holds(p.span, at) {
        Some(HoverView { value: prefix_alias_text(p), range: opt_range(p.span) })
    } else {
        None
    }
}

/// The hovers for prefixes at the offset.
pub open spec fn prefixes_at(v: Seq<PrefixView>, at: int) -> Seq<Option<HoverView>> {
    Seq::new(v.len(), |i: int| prefix_at(v[i], at))
}

/// The hover in a file: for the first declaration at the offset, else for the first prefix.
pub open spec fn file_at(
    file: rowl::ast::OntologyFile,
    symbols: SymbolTable,
    comments: Comments,
    at: int,
) -> Option<HoverView> {
    match first(decls_at(file_decls(file), symbols, comments, at)) {
        Some(h) => Some(h),
        None => first(prefixes_at(file_prefixes(file), at)),
    }
}

/// The hover in a document. There is none without a syntax tree or an analysis.
pub open spec fn hover(doc: DocumentView, pos: Position) -> Option<HoverView> {
    match (doc.analysis, doc.parse.tree) {
        (Some(a), Some(f)) => file_at(
            f,
            a.index.symbols,
            doc.comments,
            offset_at(doc.text, pos),
        ),
        _ => None,
    }
}

// ── Walk ──────────────────────────────────────────────────────────────────────

/// The hover for a type reference, if it stands at the offset.
pub fn hover_type_ref(tr: &TypeName, index: &SymbolIndex, at: usize) -> (r: Option<Hover>)
    ensures
        hover_view(r) == type_at(tr@, index_symbols(*index), at as int),
{
    match tr {
        TypeName::Named { parts, span } => {
            if !span_contains(*span, at) {
                return None;
            }
            let found = match lookup(index, last_name(parts).as_str()) {
                Some(s) => Some(s),
                None => lookup(index, full_name(parts).as_str()),
            };
            let value = match &found {
                Some(s) => symbol_hover(s),
                None => {
                    let mut t = fence(full_name(parts).as_str());
                    t.append("\n\n⚠ Unresolved.");
                    t
                },
            };
            Some(Hover { value, range: range_opt(*span) })
        },
        TypeName::Builtin { span, .. } => {
            if !span_contains(*span, at) {
                return None;
            }
            let mut value = fence(tr.text().as_str());
            value.append("\n\nBuilt-in primitive.");
            Some(Hover { value, range: range_opt(*span) })
        },
    }
}

/// The description before a node, if it has one.
fn describe(comment_map: &CommentMap, span: Option<SourceSpan>) -> (r: Option<String>)
    ensures
        match span {
            Some(s) => match r {
                Some(d) => description(comments_before(leading_texts(*comment_map), s)) == Some(d@),
                None => description(comments_before(leading_texts(*comment_map), s)) is None,
            },
            None => r is None,
        },
{
    match span {
        Some(s) => description_from_leading(&leading_comments(comment_map, s)),
        None => None,
    }
}

/// The hover for a concept that the offset is in.
fn hover_concept(c: &Concept, index: &SymbolIndex, comment_map: &CommentMap, at: usize) -> (r:
    Hover)
    ensures
        r@ == concept_at(c@, index_symbols(*index), leading_texts(*comment_map), at as int),
{
    let ghost symbols = index_symbols(*index);
    let ghost in_parents = types_at(c@.parents, symbols, at as int);
    let ghost in_slots = slots_at(c@.slots, c@.name, symbols, at as int);
    let mut i: usize = 0;
    assert(in_parents.skip(0) =~= in_parents);
    while i < c.parents.len()
        invariant
            i <= c.parents.len(),
            symbols == index_symbols(*index),
            in_parents == types_at(c@.parents, symbols, at as int),
            first(in_parents) == first(in_parents.skip(i as int)),
        decreases c.parents.len() - i,
    {
        proof {
            lemma_first_skip(in_parents, i as int);
        }
        if let Some(h) = hover_type_ref(&c.parents[i], index, at) {
            return h;
        }
        i = i + 1;
    }
    assert(first(in_parents) is None);
    let mut k: usize = 0;
    assert(in_slots.skip(0) =~= in_slots);
    while k < c.slots.len()
        invariant
            k <= c.slots.len(),
            symbols == index_symbols(*index),
            first(types_at(c@.parents, symbols, at as int)) is None,
            in_slots == slots_at(c@.slots, c@.name, symbols, at as int),
            first(in_slots) == first(in_slots.skip(k as int)),
        decreases c.slots.len() - k,
    {
        proof {
            lemma_first_skip(in_slots, k as int);
        }
        let slot = &c.slots[k];
        if span_contains(slot.span, at) {
            if let Some(h) = hover_type_ref(&slot.target, index, at) {
                return h;
            }
            let mut value = fence(write_slot(slot).as_str());
            value.append("\n\nSlot on `");
            value.append(c.name.as_str());
            value.append("`.");
            return Hover { value, range: range_opt(slot.span) };
        }
        k = k + 1;
    }
    let value = match describe(comment_map, c.span) {
        Some(d) => d,
        None => concept_hover(c),
    };
    Hover { value, range: range_opt(c.span) }
}

/// The hover for a declaration, if the offset is in it.
pub fn hover_decl(decl: &Decl, index: &SymbolIndex, comment_map: &CommentMap, at: usize) -> (r:
    Option<Hover>)
    ensures
        hover_view(r) == decl_at(
            decl@,
            index_symbols(*index),
            leading_texts(*comment_map),
            at as int,
        ),
{
    match decl {
        Decl::Concept(c) => {
            if !span_contains(c.span, at) {
                return None;
            }
            Some(hover_concept(c, index, comment_map, at))
        },
        Decl::Property(p) => {
            if !span_contains(p.span, at) {
                return None;
            }
            if let Some(h) = hover_type_ref(&p.domain, index, at) {
                return Some(h);
            }
            if let Some(h) = hover_type_ref(&p.range, index, at) {
                return Some(h);
            }
            let value = match describe(comment_map, p.span) {
                Some(d) => d,
                None => property_hover(p),
            };
            Some(Hover { value, range: range_opt(p.span) })
        },
        Decl::Rule(r) => {
            if !span_contains(r.span, at) {
                return None;
            }
            let value = match describe(comment_map, r.span) {
                Some(d) => d,
                None => rule_hover(r),
            };
            Some(Hover { value, range: range_opt(r.span) })
        },
        Decl::Fact(f) => {
            if !span_contains(f.span, at) {
                return None;
            }
            let value = match describe(comment_map, f.span) {
                Some(d) => d,
                None => fact_hover(f),
            };
            Some(Hover { value, range: range_opt(f.span) })
        },
    }
}

/// The hover in a file at a byte offset.
pub fn hover_in_file(file: &Ontology, index: &SymbolIndex, comment_map: &CommentMap, at: usize)
    -> (r: Option<Hover>)
    requires
        file.wf(),
    ensures
        hover_view(r) == file_at(
            file.tree,
            index_symbols(*index),
            leading_texts(*comment_map),
            at as int,
        ),
{
    let ghost symbols = index_symbols(*index);
    let ghost comments = leading_texts(*comment_map);
    let ghost in_decls = decls_at(file_decls(file.tree), symbols, comments, at as int);
    let ghost in_prefixes = prefixes_at(file_prefixes(file.tree), at as int);
    let mut i: usize = 0;
    assert(in_decls.skip(0) =~= in_decls);
    while i < file.decls.len()
        invariant
            i <= file.decls.len(),
            file.wf(),
            symbols == index_symbols(*index),
            comments == leading_texts(*comment_map),
            in_decls == decls_at(file_decls(file.tree), symbols, comments, at as int),
            first(in_decls) == first(in_decls.skip(i as int)),
        decreases file.decls.len() - i,
    {
        proof {
            assert(file_decls(file.tree)[i as int] == file.decls@[i as int]@);
            lemma_first_skip(in_decls, i as int);
        }
        if let Some(h) = hover_decl(&file.decls[i], index, comment_map, at) {
            return Some(h);
        }
        i = i + 1;
    }
    assert(first(in_decls) is None);
    let mut k: usize = 0;
    assert(in_prefixes.skip(0) =~= in_prefixes);
    while k < file.prefixes.len()
        invariant
            k <= file.prefixes.len(),
            file.wf(),
            first(decls_at(file_decls(file.tree), symbols, comments, at as int)) is None,
            symbols == index_symbols(*index),
            comments == leading_texts(*comment_map),
            in_prefixes == prefixes_at(file_prefixes(file.tree), at as int),
            first(in_prefixes) == first(in_prefixes.skip(k as int)),
        decreases file.prefixes.len() - k,
    {
        proof {
            assert(file_prefixes(file.tree)[k as int] == file.prefixes@[k as int]@);
            lemma_first_skip(in_prefixes, k as int);
        }
        let prefix = &file.prefixes[k];
        if span_contains(prefix.span, at) {
            return Some(
                Hover { value: prefix_alias_hover(prefix), range: range_opt(prefix.span) },
            );
        }
        k = k + 1;
    }
    None
}

/// The hover for what stands at `pos`.
pub fn provide(doc: &Document, pos: Position) -> (r: Option<Hover>)
    requires
        doc.wf(),
    ensures
        hover_view(r) == hover(doc@, pos),
{
    let index = match &doc.analysis {
        Some(a) => &a.index,
        None => {
            return None;
        },
    };
    let file = match &doc.parse.ontology {
        Some(f) => f,
        None => {
            return None;
        },
    };
    let byte_offset: usize = offset_of(&doc.rope, pos);
    hover_in_file(file, index, &doc.comment_map, byte_offset)
}

// ── Laws ──────────────────────────────────────────────────────────────────────

/// Whether a hover is about a stretch of source that holds the offset.
pub open spec fn about(h: HoverView, at: int) -> bool {
    exists|s: SourceSpan| #[trigger] holds(Some(s), at) && h.range == Some(range_of(s))
}

/// A hover for a type reference is about the reference.
proof fn lemma_type_about(t: TypeNameView, symbols: SymbolTable, at: int)
    ensures
        type_at(t, symbols, at) matches Some(h) ==> about(h, at),
{
    match t {
        TypeNameView::Named { span, .. } => {
            if holds(span, at) {
                assert(holds(Some(span->0), at));
            }
        },
        TypeNameView::Builtin { span, .. } => {
            if holds(span, at) {
                assert(holds(Some(span->0), at));
            }
        },
    }
}

/// A hover for a declaration is about a stretch of source that holds the offset.
proof fn lemma_decl_about(d: DeclView, symbols: SymbolTable, comments: Comments, at: int)
    ensures
        decl_at(d, symbols, comments, at) matches Some(h) ==> about(h, at),
{
    if holds(decl_span(d), at) {
        assert(holds(Some(decl_span(d)->0), at));
        match d {
            DeclView::Concept(c) => {
                let parents = types_at(c.parents, symbols, at);
                let slots = slots_at(c.slots, c.name, symbols, at);
                if first(parents) is Some {
                    let i = lemma_first_from(parents);
                    lemma_type_about(c.parents[i], symbols, at);
                } else if first(slots) is Some {
                    let i = lemma_first_from(slots);
                    let s = c.slots[i];
                    lemma_type_about(s.target, symbols, at);
                    assert(holds(Some(s.span->0), at));
                }
            },
            DeclView::Property(p) => {
                lemma_type_about(p.domain, symbols, at);
                lemma_type_about(p.range, symbols, at);
            },
            DeclView::Rule(_) => {},
            DeclView::Fact(_) => {},
        }
    }
}

/// Every hover has a range, and it is that of a stretch of source that holds the cursor.
pub proof fn law_hover_is_about_cursor(doc: DocumentView, pos: Position)
    ensures
        hover(doc, pos) matches Some(h) ==> about(h, offset_at(doc.text, pos)),
{
    let at = offset_at(doc.text, pos);
    if hover(doc, pos) is Some {
        let symbols = doc.analysis->0.index.symbols;
        let file = doc.parse.tree->0;
        let in_decls = decls_at(file_decls(file), symbols, doc.comments, at);
        if first(in_decls) is Some {
            let i = lemma_first_from(in_decls);
            lemma_decl_about(file_decls(file)[i], symbols, doc.comments, at);
        } else {
            let in_prefixes = prefixes_at(file_prefixes(file), at);
            let i = lemma_first_from(in_prefixes);
            let p = file_prefixes(file)[i];
            assert(holds(Some(p.span->0), at));
        }
    }
}

} // verus!
