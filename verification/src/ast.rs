//! Reading `rowl` syntax trees into outlines.
//!
//! Each tree node is opaque; one function per node type reads its public fields. An
//! outline is built from them, and [`Ontology`] keeps it beside the tree it describes.

use crate::syntax::{
    decls, prefixes, type_names, variant_views, Concept, ConceptView, Decl, DeclView, Fact,
    FactView, Multiplicity, PrefixAlias, PrefixView, Primitive, Property, PropertyView, Rule,
    RuleView, Slot, SlotView, TypeName, TypeNameView, Variant, VariantView,
};
use crate::text::texts;
use crate::types::{Location, SourceSpan};
use vstd::prelude::*;

verus! {

// ── Outside types ─────────────────────────────────────────────────────────────

/// `rowl::error::Span`, opaque.
#[verifier::external_type_specification]
#[verifier::external_body]
pub struct ExParsedSpan(rowl::error::Span);

/// `rowl::ast::QualifiedName`, opaque.
#[verifier::external_type_specification]
#[verifier::external_body]
pub struct ExParsedName(rowl::ast::QualifiedName);

/// `rowl::ast::Cardinality`, opaque.
#[verifier::external_type_specification]
#[verifier::external_body]
pub struct ExParsedCardinality(rowl::ast::Cardinality);

/// `rowl::ast::TypeRef`, opaque.
#[verifier::external_type_specification]
#[verifier::external_body]
pub struct ExParsedType(rowl::ast::TypeRef);

/// `rowl::ast::HasDeclaration`, opaque.
#[verifier::external_type_specification]
#[verifier::external_body]
pub struct ExParsedSlot(rowl::ast::HasDeclaration);

/// `rowl::ast::OneOfVariant`, opaque.
#[verifier::external_type_specification]
#[verifier::external_body]
pub struct ExParsedVariant(rowl::ast::OneOfVariant);

/// `rowl::ast::ConceptDef`, opaque.
#[verifier::external_type_specification]
#[verifier::external_body]
pub struct ExParsedConcept(rowl::ast::ConceptDef);

/// `rowl::ast::PropertyDef`, opaque.
#[verifier::external_type_specification]
#[verifier::external_body]
pub struct ExParsedProperty(rowl::ast::PropertyDef);

/// `rowl::ast::RuleDef`, opaque.
#[verifier::external_type_specification]
#[verifier::external_body]
pub struct ExParsedRule(rowl::ast::RuleDef);

/// `rowl::ast::FactDef`, opaque.
#[verifier::external_type_specification]
#[verifier::external_body]
pub struct ExParsedFact(rowl::ast::FactDef);

/// `rowl::ast::Declaration`, opaque.
#[verifier::external_type_specification]
#[verifier::external_body]
pub struct ExParsedDecl(rowl::ast::Declaration);

/// `rowl::ast::PrefixDecl`, opaque.
#[verifier::external_type_specification]
#[verifier::external_body]
pub struct ExParsedPrefix(rowl::ast::PrefixDecl);

/// `rowl::ast::OntologyFile`, opaque.
#[verifier::external_type_specification]
#[verifier::external_body]
pub struct ExParsedFile(rowl::ast::OntologyFile);

// ── What the nodes hold ───────────────────────────────────────────────────────

/// The fields of a `rowl` span.
pub uninterp spec fn parsed_span(s: rowl::error::Span) -> SourceSpan;

/// The parts of a `rowl` qualified name.
pub uninterp spec fn parsed_parts(q: rowl::ast::QualifiedName) -> Seq<Seq<char>>;

/// The variant and numbers of a `rowl` cardinality.
pub uninterp spec fn parsed_multiplicity(c: rowl::ast::Cardinality) -> Multiplicity;

/// The variant, name and span of a `rowl` type reference.
pub uninterp spec fn parsed_type(t: rowl::ast::TypeRef) -> TypeNameView;

/// The name, cardinality, type and span of a `rowl` has-declaration.
pub uninterp spec fn parsed_slot(h: rowl::ast::HasDeclaration) -> SlotView;

/// The name and span of a `rowl` variant.
pub uninterp spec fn parsed_variant(v: rowl::ast::OneOfVariant) -> VariantView;

/// The name, parents, has-declarations, variants and span of a `rowl` concept.
pub uninterp spec fn parsed_concept(c: rowl::ast::ConceptDef) -> ConceptView;

/// The name, domain, range, their cardinalities and the span of a `rowl` property.
pub uninterp spec fn parsed_property(p: rowl::ast::PropertyDef) -> PropertyView;

/// The name, block sizes and span of a `rowl` rule.
pub uninterp spec fn parsed_rule(r: rowl::ast::RuleDef) -> RuleView;

/// The identifier, types and span of a `rowl` fact.
pub uninterp spec fn parsed_fact(f: rowl::ast::FactDef) -> FactView;

/// The contents of a `rowl` declaration.
pub uninterp spec fn parsed_decl(d: rowl::ast::Declaration) -> DeclView;

/// The path, alias and span of a `rowl` prefix declaration.
pub uninterp spec fn parsed_prefix(p: rowl::ast::PrefixDecl) -> PrefixView;

/// The declarations of a parsed file, in order.
pub uninterp spec fn file_decls(f: rowl::ast::OntologyFile) -> Seq<DeclView>;

/// The prefixes of a parsed file, in order.
pub uninterp spec fn file_prefixes(f: rowl::ast::OntologyFile) -> Seq<PrefixView>;

/// The fields of an optional `rowl` span.
pub open spec fn opt_span(s: Option<rowl::error::Span>) -> Option<SourceSpan> {
    match s {
        Some(s) => Some(parsed_span(s)),
        None => None,
    }
}

/// The contents of an optional `rowl` cardinality.
pub open spec fn opt_multiplicity(c: Option<rowl::ast::Cardinality>) -> Option<Multiplicity> {
    match c {
        Some(c) => Some(parsed_multiplicity(c)),
        None => None,
    }
}

/// The contents of an optional list of `rowl` variants; no list counts as an empty one.
pub open spec fn opt_variants(v: Option<Vec<rowl::ast::OneOfVariant>>) -> Seq<VariantView> {
    match v {
        Some(v) => Seq::new(v@.len(), |i: int| parsed_variant(v@[i])),
        None => Seq::empty(),
    }
}

// ── Borrowed fields ───────────────────────────────────────────────────────────

/// Borrowed fields of a type reference.
pub enum TypeParts<'a> {
    Named { parts: &'a Vec<String>, span: &'a Option<rowl::error::Span> },
    Builtin { kind: Primitive, span: &'a Option<rowl::error::Span> },
}

/// Borrowed fields of a has-declaration.
pub struct SlotParts<'a> {
    pub name: &'a String,
    pub cardinality: &'a Option<rowl::ast::Cardinality>,
    pub target: &'a rowl::ast::TypeRef,
    pub span: &'a Option<rowl::error::Span>,
}

/// Borrowed fields of a concept.
pub struct ConceptParts<'a> {
    pub name: &'a String,
    pub name_span: &'a Option<rowl::error::Span>,
    pub parents: &'a Vec<rowl::ast::TypeRef>,
    pub slots: &'a Vec<rowl::ast::HasDeclaration>,
    pub variants: &'a Option<Vec<rowl::ast::OneOfVariant>>,
    pub span: &'a Option<rowl::error::Span>,
}

/// Borrowed fields of a variant.
pub struct VariantParts<'a> {
    pub name: &'a String,
    pub span: &'a Option<rowl::error::Span>,
}

/// Borrowed fields of a property.
pub struct PropertyParts<'a> {
    pub name: &'a String,
    pub name_span: &'a Option<rowl::error::Span>,
    pub domain_cardinality: &'a Option<rowl::ast::Cardinality>,
    pub domain: &'a rowl::ast::TypeRef,
    pub range_cardinality: &'a Option<rowl::ast::Cardinality>,
    pub range: &'a rowl::ast::TypeRef,
    pub span: &'a Option<rowl::error::Span>,
}

/// Borrowed fields of a rule.
pub struct RuleParts<'a> {
    pub name: &'a String,
    pub patterns: usize,
    pub assertions: usize,
    pub span: &'a Option<rowl::error::Span>,
}

/// Borrowed fields of a fact.
pub struct FactParts<'a> {
    pub id: &'a String,
    pub types: &'a Vec<rowl::ast::QualifiedName>,
    pub span: &'a Option<rowl::error::Span>,
}

/// A borrowed declaration, by kind.
pub enum DeclParts<'a> {
    Concept(&'a rowl::ast::ConceptDef),
    Property(&'a rowl::ast::PropertyDef),
    Rule(&'a rowl::ast::RuleDef),
    Fact(&'a rowl::ast::FactDef),
}

/// Borrowed fields of a prefix declaration.
pub struct PrefixParts<'a> {
    pub path: &'a rowl::ast::QualifiedName,
    pub alias: &'a String,
    pub span: &'a Option<rowl::error::Span>,
}

impl<'a> TypeParts<'a> {
    /// The contents that the fields make up.
    pub open spec fn contents(self) -> TypeNameView {
        match self {
            TypeParts::Named { parts, span } => TypeNameView::Named {
                parts: texts(parts@),
                span: opt_span(*span),
            },
            TypeParts::Builtin { kind, span } => TypeNameView::Builtin {
                kind,
                span: opt_span(*span),
            },
        }
    }
}

impl<'a> SlotParts<'a> {
    /// The contents that the fields make up.
    pub open spec fn contents(self) -> SlotView {
        SlotView {
            name: self.name@,
            multiplicity: opt_multiplicity(*self.cardinality),
            target: parsed_type(*self.target),
            span: opt_span(*self.span),
        }
    }
}

impl<'a> ConceptParts<'a> {
    /// The contents that the fields make up.
    pub open spec fn contents(self) -> ConceptView {
        ConceptView {
            name: self.name@,
            name_span: opt_span(*self.name_span),
            parents: Seq::new(self.parents@.len(), |i: int| parsed_type(self.parents@[i])),
            slots: Seq::new(self.slots@.len(), |i: int| parsed_slot(self.slots@[i])),
            variants: opt_variants(*self.variants),
            span: opt_span(*self.span),
        }
    }
}

impl<'a> VariantParts<'a> {
    /// The contents that the fields make up.
    pub open spec fn contents(self) -> VariantView {
        VariantView { name: self.name@, span: opt_span(*self.span) }
    }
}

impl<'a> PropertyParts<'a> {
    /// The contents that the fields make up.
    pub open spec fn contents(self) -> PropertyView {
        PropertyView {
            name: self.name@,
            name_span: opt_span(*self.name_span),
            domain_multiplicity: opt_multiplicity(*self.domain_cardinality),
            domain: parsed_type(*self.domain),
            range_multiplicity: opt_multiplicity(*self.range_cardinality),
            range: parsed_type(*self.range),
            span: opt_span(*self.span),
        }
    }
}

impl<'a> RuleParts<'a> {
    /// The contents that the fields make up.
    pub open spec fn contents(self) -> RuleView {
        RuleView {
            name: self.name@,
            patterns: self.patterns,
            assertions: self.assertions,
            span: opt_span(*self.span),
        }
    }
}

impl<'a> FactParts<'a> {
    /// The contents that the fields make up.
    pub open spec fn contents(self) -> FactView {
        FactView {
            id: self.id@,
            types: Seq::new(self.types@.len(), |i: int| parsed_parts(self.types@[i])),
            span: opt_span(*self.span),
        }
    }
}

impl<'a> DeclParts<'a> {
    /// The contents that the variant makes up.
    pub open spec fn contents(self) -> DeclView {
        match self {
            DeclParts::Concept(c) => DeclView::Concept(parsed_concept(*c)),
            DeclParts::Property(p) => DeclView::Property(parsed_property(*p)),
            DeclParts::Rule(r) => DeclView::Rule(parsed_rule(*r)),
            DeclParts::Fact(f) => DeclView::Fact(parsed_fact(*f)),
        }
    }
}

impl<'a> PrefixParts<'a> {
    /// The contents that the fields make up.
    pub open spec fn contents(self) -> PrefixView {
        PrefixView {
            path: parsed_parts(*self.path),
            alias: self.alias@,
            span: opt_span(*self.span),
        }
    }
}

// ── Field access ──────────────────────────────────────────────────────────────

/// Reads the public fields of a `rowl::error::Span`.
#[verifier::external_body]
pub(crate) fn span_parts(s: &rowl::error::Span) -> (r: SourceSpan)
    ensures
        r == parsed_span(*s),
{
    SourceSpan {
        start: Location { line: s.start.line, column: s.start.column, offset: s.start.offset },
        end: Location { line: s.end.line, column: s.end.column, offset: s.end.offset },
    }
}

/// Reads the parts of a `rowl::ast::QualifiedName`.
#[verifier::external_body]
pub(crate) fn name_parts(q: &rowl::ast::QualifiedName) -> (r: &Vec<String>)
    ensures
        texts(r@) == parsed_parts(*q),
{
    &q.parts
}

/// Tells the variants of `rowl::ast::Cardinality` apart and reads their numbers.
#[verifier::external_body]
pub(crate) fn multiplicity_parts(c: &rowl::ast::Cardinality) -> (r: Multiplicity)
    ensures
        r == parsed_multiplicity(*c),
{
    match c {
        rowl::ast::Cardinality::One { .. } => Multiplicity::One,
        rowl::ast::Cardinality::Any { .. } => Multiplicity::Any,
        rowl::ast::Cardinality::Some { .. } => Multiplicity::AtLeastOne,
        rowl::ast::Cardinality::Optional { .. } => Multiplicity::AtMostOne,
        rowl::ast::Cardinality::Exact { value, .. } => Multiplicity::Exact(*value),
        rowl::ast::Cardinality::Range { min, max, .. } => Multiplicity::Between(*min, *max),
    }
}

/// Tells the variants of `rowl::ast::TypeRef` apart and reads their fields.
#[verifier::external_body]
pub(crate) fn type_parts(t: &rowl::ast::TypeRef) -> (r: TypeParts<'_>)
    ensures
        r.contents() == parsed_type(*t),
{
    match t {
        rowl::ast::TypeRef::Named { name, span } => TypeParts::Named { parts: &name.parts, span },
        rowl::ast::TypeRef::Primitive { kind, span } => TypeParts::Builtin {
            kind: match kind {
                rowl::ast::PrimitiveKind::String => Primitive::Text,
                rowl::ast::PrimitiveKind::Int => Primitive::Int,
                rowl::ast::PrimitiveKind::Float => Primitive::Float,
                rowl::ast::PrimitiveKind::Boolean => Primitive::Boolean,
            },
            span,
        },
    }
}

/// Reads fields of a `rowl::ast::HasDeclaration`.
#[verifier::external_body]
pub(crate) fn slot_parts(h: &rowl::ast::HasDeclaration) -> (r: SlotParts<'_>)
    ensures
        r.contents() == parsed_slot(*h),
{
    SlotParts { name: &h.name, cardinality: &h.cardinality, target: &h.type_ref, span: &h.span }
}

/// Reads fields of a `rowl::ast::ConceptDef`; `SpannedString::get` is the name's text.
#[verifier::external_body]
pub(crate) fn concept_parts(c: &rowl::ast::ConceptDef) -> (r: ConceptParts<'_>)
    ensures
        r.contents() == parsed_concept(*c),
{
    ConceptParts {
        name: c.name.get(),
        name_span: &c.name.span,
        parents: &c.parents,
        slots: &c.has_declarations,
        variants: &c.one_of,
        span: &c.span,
    }
}

/// Reads fields of a `rowl::ast::OneOfVariant`.
#[verifier::external_body]
pub(crate) fn variant_parts(v: &rowl::ast::OneOfVariant) -> (r: VariantParts<'_>)
    ensures
        r.contents() == parsed_variant(*v),
{
    VariantParts { name: &v.name, span: &v.span }
}

/// Reads fields of a `rowl::ast::PropertyDef`; `SpannedString::get` is the name's text.
#[verifier::external_body]
pub(crate) fn property_parts(p: &rowl::ast::PropertyDef) -> (r: PropertyParts<'_>)
    ensures
        r.contents() == parsed_property(*p),
{
    PropertyParts {
        name: p.name.get(),
        name_span: &p.name.span,
        domain_cardinality: &p.domain_cardinality,
        domain: &p.domain,
        range_cardinality: &p.range_cardinality,
        range: &p.range,
        span: &p.span,
    }
}

/// Reads fields of a `rowl::ast::RuleDef`, of its blocks only their lengths.
#[verifier::external_body]
pub(crate) fn rule_parts(r: &rowl::ast::RuleDef) -> (out: RuleParts<'_>)
    ensures
        out.contents() == parsed_rule(*r),
{
    RuleParts {
        name: &r.name,
        patterns: r.match_block.patterns.len(),
        assertions: r.then_block.items.len(),
        span: &r.span,
    }
}

/// Reads fields of a `rowl::ast::FactDef`.
#[verifier::external_body]
pub(crate) fn fact_parts(f: &rowl::ast::FactDef) -> (r: FactParts<'_>)
    ensures
        r.contents() == parsed_fact(*f),
{
    FactParts { id: &f.id, types: &f.types, span: &f.span }
}

/// Tells the variants of `rowl::ast::Declaration` apart.
#[verifier::external_body]
pub(crate) fn decl_parts(d: &rowl::ast::Declaration) -> (r: DeclParts<'_>)
    ensures
        r.contents() == parsed_decl(*d),
{
    match d {
        rowl::ast::Declaration::Concept(c) => DeclParts::Concept(c),
        rowl::ast::Declaration::Property(p) => DeclParts::Property(p),
        rowl::ast::Declaration::Rule(r) => DeclParts::Rule(r),
        rowl::ast::Declaration::Fact(f) => DeclParts::Fact(f),
    }
}

/// Reads the public fields of a `rowl::ast::PrefixDecl`.
#[verifier::external_body]
pub(crate) fn prefix_parts(p: &rowl::ast::PrefixDecl) -> (r: PrefixParts<'_>)
    ensures
        r.contents() == parsed_prefix(*p),
{
    PrefixParts { path: &p.path, alias: &p.alias, span: &p.span }
}

/// Reads the declarations of a `rowl::ast::OntologyFile`.
#[verifier::external_body]
pub(crate) fn decl_nodes(f: &rowl::ast::OntologyFile) -> (r: &Vec<rowl::ast::Declaration>)
    ensures
        Seq::new(r@.len(), |i: int| parsed_decl(r@[i])) == file_decls(*f),
{
    &f.declarations
}

/// Reads the prefixes of a `rowl::ast::OntologyFile`.
#[verifier::external_body]
pub(crate) fn prefix_nodes(f: &rowl::ast::OntologyFile) -> (r: &Vec<rowl::ast::PrefixDecl>)
    ensures
        Seq::new(r@.len(), |i: int| parsed_prefix(r@[i])) == file_prefixes(*f),
{
    &f.prefixes
}

// ── Building outlines ─────────────────────────────────────────────────────────

/// The plain value of an optional span.
pub(crate) fn span_from(s: &Option<rowl::error::Span>) -> (r: Option<SourceSpan>)
    ensures
        r == opt_span(*s),
{
    match s {
        Some(s) => Some(span_parts(s)),
        None => None,
    }
}

/// The plain value of an optional cardinality.
fn multiplicity_from(c: &Option<rowl::ast::Cardinality>) -> (r: Option<Multiplicity>)
    ensures
        r == opt_multiplicity(*c),
{
    match c {
        Some(c) => Some(multiplicity_parts(c)),
        None => None,
    }
}

/// A copy of a list of strings.
pub(crate) fn copy_texts(v: &Vec<String>) -> (r: Vec<String>)
    ensures
        texts(r@) == texts(v@),
{
    let mut out: Vec<String> = Vec::new();
    let mut i: usize = 0;
    while i < v.len()
        invariant
            i <= v.len(),
            out.len() == i,
            forall|j: int| 0 <= j < i ==> (#[trigger] out@[j])@ == v@[j]@,
        decreases v.len() - i,
    {
        out.push(v[i].clone());
        i = i + 1;
    }
    assert(texts(out@) =~= texts(v@));
    out
}

/// The plain value of a type reference.
fn type_from(t: &rowl::ast::TypeRef) -> (r: TypeName)
    ensures
        r@ == parsed_type(*t),
{
    match type_parts(t) {
        TypeParts::Named { parts, span } => {
            TypeName::Named { parts: copy_texts(parts), span: span_from(span) }
        },
        TypeParts::Builtin { kind, span } => TypeName::Builtin { kind, span: span_from(span) },
    }
}

/// The plain values of a list of type references.
fn types_from(v: &Vec<rowl::ast::TypeRef>) -> (r: Vec<TypeName>)
    ensures
        type_names(r@) == Seq::new(v@.len(), |i: int| parsed_type(v@[i])),
{
    let mut out: Vec<TypeName> = Vec::new();
    let mut i: usize = 0;
    while i < v.len()
        invariant
            i <= v.len(),
            out.len() == i,
            forall|j: int| 0 <= j < i ==> (#[trigger] out@[j])@ == parsed_type(v@[j]),
        decreases v.len() - i,
    {
        out.push(type_from(&v[i]));
        i = i + 1;
    }
    assert(type_names(out@) =~= Seq::new(v@.len(), |i: int| parsed_type(v@[i])));
    out
}

/// The plain value of a has-declaration.
fn slot_from(h: &rowl::ast::HasDeclaration) -> (r: Slot)
    ensures
        r@ == parsed_slot(*h),
{
    let p = slot_parts(h);
    Slot {
        name: p.name.clone(),
        multiplicity: multiplicity_from(p.cardinality),
        target: type_from(p.target),
        span: span_from(p.span),
    }
}

/// The plain values of an optional list of variants.
fn variants_from(v: &Option<Vec<rowl::ast::OneOfVariant>>) -> (r: Vec<Variant>)
    ensures
        variant_views(r@) == opt_variants(*v),
{
    let mut out: Vec<Variant> = Vec::new();
    let v = match v {
        Some(v) => v,
        None => {
            assert(variant_views(out@) =~= Seq::empty());
            return out;
        },
    };
    let mut i: usize = 0;
    while i < v.len()
        invariant
            i <= v.len(),
            out.len() == i,
            forall|j: int| 0 <= j < i ==> (#[trigger] out@[j])@ == parsed_variant(v@[j]),
        decreases v.len() - i,
    {
        let p = variant_parts(&v[i]);
        out.push(Variant { name: p.name.clone(), span: span_from(p.span) });
        i = i + 1;
    }
    assert(variant_views(out@) =~= Seq::new(v@.len(), |i: int| parsed_variant(v@[i])));
    out
}

/// The plain value of a concept.
fn concept_from(c: &rowl::ast::ConceptDef) -> (r: Concept)
    ensures
        r@ == parsed_concept(*c),
{
    let p = concept_parts(c);
    let mut slots: Vec<Slot> = Vec::new();
    let mut i: usize = 0;
    while i < p.slots.len()
        invariant
            i <= p.slots.len(),
            slots.len() == i,
            forall|j: int| 0 <= j < i ==> (#[trigger] slots@[j])@ == parsed_slot(p.slots@[j]),
        decreases p.slots.len() - i,
    {
        slots.push(slot_from(&p.slots[i]));
        i = i + 1;
    }
    let r = Concept {
        name: p.name.clone(),
        name_span: span_from(p.name_span),
        parents: types_from(p.parents),
        slots,
        variants: variants_from(p.variants),
        span: span_from(p.span),
    };
    assert(r@.slots =~= p.contents().slots);
    r
}

/// The plain value of a property.
fn property_from(p: &rowl::ast::PropertyDef) -> (r: Property)
    ensures
        r@ == parsed_property(*p),
{
    let q = property_parts(p);
    Property {
        name: q.name.clone(),
        name_span: span_from(q.name_span),
        domain_multiplicity: multiplicity_from(q.domain_cardinality),
        domain: type_from(q.domain),
        range_multiplicity: multiplicity_from(q.range_cardinality),
        range: type_from(q.range),
        span: span_from(q.span),
    }
}

/// The plain value of a rule.
fn rule_from(r: &rowl::ast::RuleDef) -> (out: Rule)
    ensures
        out@ == parsed_rule(*r),
{
    let p = rule_parts(r);
    Rule {
        name: p.name.clone(),
        patterns: p.patterns,
        assertions: p.assertions,
        span: span_from(p.span),
    }
}

/// The plain value of a fact.
fn fact_from(f: &rowl::ast::FactDef) -> (r: Fact)
    ensures
        r@ == parsed_fact(*f),
{
    let p = fact_parts(f);
    let mut types: Vec<Vec<String>> = Vec::new();
    let mut i: usize = 0;
    while i < p.types.len()
        invariant
            i <= p.types.len(),
            types.len() == i,
            forall|j: int|
                0 <= j < i ==> texts((#[trigger] types@[j])@) == parsed_parts(p.types@[j]),
        decreases p.types.len() - i,
    {
        types.push(copy_texts(name_parts(&p.types[i])));
        i = i + 1;
    }
    let r = Fact { id: p.id.clone(), types, span: span_from(p.span) };
    assert(r@.types =~= p.contents().types);
    r
}

/// The plain value of a declaration.
fn decl_from(d: &rowl::ast::Declaration) -> (r: Decl)
    ensures
        r@ == parsed_decl(*d),
{
    match decl_parts(d) {
        DeclParts::Concept(c) => Decl::Concept(concept_from(c)),
        DeclParts::Property(p) => Decl::Property(property_from(p)),
        DeclParts::Rule(r) => Decl::Rule(rule_from(r)),
        DeclParts::Fact(f) => Decl::Fact(fact_from(f)),
    }
}

/// The plain value of a prefix declaration.
fn prefix_from(p: &rowl::ast::PrefixDecl) -> (r: PrefixAlias)
    ensures
        r@ == parsed_prefix(*p),
{
    let q = prefix_parts(p);
    PrefixAlias {
        path: copy_texts(name_parts(q.path)),
        alias: q.alias.clone(),
        span: span_from(q.span),
    }
}

/// The declarations of a parsed file as plain values.
pub fn decls_from(f: &rowl::ast::OntologyFile) -> (r: Vec<Decl>)
    ensures
        decls(r@) == file_decls(*f),
{
    let nodes = decl_nodes(f);
    let mut out: Vec<Decl> = Vec::new();
    let mut i: usize = 0;
    while i < nodes.len()
        invariant
            i <= nodes.len(),
            out.len() == i,
            forall|j: int| 0 <= j < i ==> (#[trigger] out@[j])@ == parsed_decl(nodes@[j]),
        decreases nodes.len() - i,
    {
        out.push(decl_from(&nodes[i]));
        i = i + 1;
    }
    assert(decls(out@) =~= Seq::new(nodes@.len(), |i: int| parsed_decl(nodes@[i])));
    out
}

/// The prefixes of a parsed file as plain values.
pub fn prefixes_from(f: &rowl::ast::OntologyFile) -> (r: Vec<PrefixAlias>)
    ensures
        prefixes(r@) == file_prefixes(*f),
{
    let nodes = prefix_nodes(f);
    let mut out: Vec<PrefixAlias> = Vec::new();
    let mut i: usize = 0;
    while i < nodes.len()
        invariant
            i <= nodes.len(),
            out.len() == i,
            forall|j: int| 0 <= j < i ==> (#[trigger] out@[j])@ == parsed_prefix(nodes@[j]),
        decreases nodes.len() - i,
    {
        out.push(prefix_from(&nodes[i]));
        i = i + 1;
    }
    assert(prefixes(out@) =~= Seq::new(nodes@.len(), |i: int| parsed_prefix(nodes@[i])));
    out
}

// ── Parsed file with its outline ──────────────────────────────────────────────

/// A parsed file, its outline, and the places of the names of its rules.
pub struct Ontology {
    pub tree: rowl::ast::OntologyFile,
    pub prefixes: Vec<PrefixAlias>,
    pub decls: Vec<Decl>,
    pub places: Vec<SourceSpan>,
}

impl Ontology {
    /// The outline describes the tree.
    pub open spec fn wf(&self) -> bool {
        &&& prefixes(self.prefixes@) == file_prefixes(self.tree)
        &&& decls(self.decls@) == file_decls(self.tree)
    }

    /// A parsed file with its outline.
    pub fn of(tree: rowl::ast::OntologyFile, places: Vec<SourceSpan>) -> (r: Ontology)
        ensures
            r.wf(),
            r.tree == tree,
            r.places == places,
    {
        let prefixes = prefixes_from(&tree);
        let decls = decls_from(&tree);
        Ontology { tree, prefixes, decls, places }
    }
}

// ── Files by identifier ───────────────────────────────────────────────────────

/// The syntax tree of a known file and the places of the names of its rules, under the text of
/// its identifier.
pub struct FileTree<'a> {
    pub key: String,
    pub tree: &'a rowl::ast::OntologyFile,
    pub places: &'a Vec<SourceSpan>,
}

/// Contents of a [`FileTree`].
pub struct FileTreeView {
    pub key: Seq<char>,
    pub tree: rowl::ast::OntologyFile,
    pub places: Seq<SourceSpan>,
}

impl<'a> View for FileTree<'a> {
    type V = FileTreeView;

    open spec fn view(&self) -> FileTreeView {
        FileTreeView { key: self.key@, tree: *self.tree, places: self.places@ }
    }
}

/// Contents of a list of files.
pub open spec fn file_trees(v: Seq<FileTree>) -> Seq<FileTreeView> {
    Seq::new(v.len(), |i: int| v[i]@)
}

} // verus!
