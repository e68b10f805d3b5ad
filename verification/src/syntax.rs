//! The outline of a parsed ontology file.
//!
//! `rowl` parses a file into a `rowl::OntologyFile`. The language features read it
//! through [`Ontology`], which keeps the parsed file and, as plain values, the parts of
//! its prefixes and declarations that hovers, outlines, lenses and renames need.

use crate::text::{decimal, decimal_text, join, joined, texts};
use crate::types::SourceSpan;
use vstd::prelude::*;

verus! {

// ── Plain outline ─────────────────────────────────────────────────────────────

/// Built-in types.
#[derive(Clone, Copy, PartialEq, Eq, Debug, Structural)]
pub enum Primitive {
    Text,
    Int,
    Float,
    Boolean,
}

/// How many values a slot or one end of a relation takes.
#[derive(Clone, Copy, PartialEq, Eq, Debug, Structural)]
pub enum Multiplicity {
    One,
    Any,
    AtLeastOne,
    AtMostOne,
    Exact(usize),
    Between(usize, Option<usize>),
}

/// A reference to a type.
#[derive(PartialEq, Eq, Debug)]
pub enum TypeName {
    /// A declared type, by the parts of its dotted name.
    Named { parts: Vec<String>, span: Option<SourceSpan> },
    /// A built-in type.
    Builtin { kind: Primitive, span: Option<SourceSpan> },
}

/// A `has` line of a concept.
#[derive(PartialEq, Eq, Debug)]
pub struct Slot {
    pub name: String,
    pub multiplicity: Option<Multiplicity>,
    pub target: TypeName,
    pub span: Option<SourceSpan>,
}

/// A variant that a concept lists under `one of`. Its span starts with its name.
#[derive(PartialEq, Eq, Debug)]
pub struct Variant {
    pub name: String,
    pub span: Option<SourceSpan>,
}

/// A concept declaration.
#[derive(PartialEq, Eq, Debug)]
pub struct Concept {
    pub name: String,
    pub name_span: Option<SourceSpan>,
    pub parents: Vec<TypeName>,
    pub slots: Vec<Slot>,
    pub variants: Vec<Variant>,
    pub span: Option<SourceSpan>,
}

/// A property declaration.
#[derive(PartialEq, Eq, Debug)]
pub struct Property {
    pub name: String,
    pub name_span: Option<SourceSpan>,
    pub domain_multiplicity: Option<Multiplicity>,
    pub domain: TypeName,
    pub range_multiplicity: Option<Multiplicity>,
    pub range: TypeName,
    pub span: Option<SourceSpan>,
}

/// A rule declaration, with the sizes of its match block and its then block.
#[derive(PartialEq, Eq, Debug)]
pub struct Rule {
    pub name: String,
    pub patterns: usize,
    pub assertions: usize,
    pub span: Option<SourceSpan>,
}

/// A fact declaration, with the dotted names of its types.
#[derive(PartialEq, Eq, Debug)]
pub struct Fact {
    pub id: String,
    pub types: Vec<Vec<String>>,
    pub span: Option<SourceSpan>,
}

/// A top-level declaration.
#[derive(PartialEq, Eq, Debug)]
pub enum Decl {
    Concept(Concept),
    Property(Property),
    Rule(Rule),
    Fact(Fact),
}

/// A prefix declaration: `alias` stands for the dotted name `path`.
#[derive(PartialEq, Eq, Debug)]
pub struct PrefixAlias {
    pub path: Vec<String>,
    pub alias: String,
    pub span: Option<SourceSpan>,
}

// ── Models ────────────────────────────────────────────────────────────────────

/// Contents of a [`TypeName`].
pub enum TypeNameView {
    Named { parts: Seq<Seq<char>>, span: Option<SourceSpan> },
    Builtin { kind: Primitive, span: Option<SourceSpan> },
}

/// Contents of a [`Slot`].
pub struct SlotView {
    pub name: Seq<char>,
    pub multiplicity: Option<Multiplicity>,
    pub target: TypeNameView,
    pub span: Option<SourceSpan>,
}

/// Contents of a [`Variant`].
pub struct VariantView {
    pub name: Seq<char>,
    pub span: Option<SourceSpan>,
}

/// Contents of a [`Concept`].
pub struct ConceptView {
    pub name: Seq<char>,
    pub name_span: Option<SourceSpan>,
    pub parents: Seq<TypeNameView>,
    pub slots: Seq<SlotView>,
    pub variants: Seq<VariantView>,
    pub span: Option<SourceSpan>,
}

/// Contents of a [`Property`].
pub struct PropertyView {
    pub name: Seq<char>,
    pub name_span: Option<SourceSpan>,
    pub domain_multiplicity: Option<Multiplicity>,
    pub domain: TypeNameView,
    pub range_multiplicity: Option<Multiplicity>,
    pub range: TypeNameView,
    pub span: Option<SourceSpan>,
}

/// Contents of a [`Rule`].
pub struct RuleView {
    pub name: Seq<char>,
    pub patterns: usize,
    pub assertions: usize,
    pub span: Option<SourceSpan>,
}

/// Contents of a [`Fact`].
pub struct FactView {
    pub id: Seq<char>,
    pub types: Seq<Seq<Seq<char>>>,
    pub span: Option<SourceSpan>,
}

/// Contents of a [`Decl`].
pub enum DeclView {
    Concept(ConceptView),
    Property(PropertyView),
    Rule(RuleView),
    Fact(FactView),
}

/// Contents of a [`PrefixAlias`].
pub struct PrefixView {
    pub path: Seq<Seq<char>>,
    pub alias: Seq<char>,
    pub span: Option<SourceSpan>,
}

impl View for TypeName {
    type V = TypeNameView;

    open spec fn view(&self) -> TypeNameView {
        match *self {
            TypeName::Named { parts, span } => TypeNameView::Named { parts: texts(parts@), span },
            TypeName::Builtin { kind, span } => TypeNameView::Builtin { kind, span },
        }
    }
}

impl View for Slot {
    type V = SlotView;

    open spec fn view(&self) -> SlotView {
        SlotView {
            name: self.name@,
            multiplicity: self.multiplicity,
            target: self.target@,
            span: self.span,
        }
    }
}

impl View for Variant {
    type V = VariantView;

    open spec fn view(&self) -> VariantView {
        VariantView { name: self.name@, span: self.span }
    }
}

impl View for Concept {
    type V = ConceptView;

    open spec fn view(&self) -> ConceptView {
        ConceptView {
            name: self.name@,
            name_span: self.name_span,
            parents: type_names(self.parents@),
            slots: Seq::new(self.slots@.len(), |i: int| self.slots@[i]@),
            variants: variant_views(self.variants@),
            span: self.span,
        }
    }
}

impl View for Property {
    type V = PropertyView;

    open spec fn view(&self) -> PropertyView {
        PropertyView {
            name: self.name@,
            name_span: self.name_span,
            domain_multiplicity: self.domain_multiplicity,
            domain: self.domain@,
            range_multiplicity: self.range_multiplicity,
            range: self.range@,
            span: self.span,
        }
    }
}

impl View for Rule {
    type V = RuleView;

    open spec fn view(&self) -> RuleView {
        RuleView {
            name: self.name@,
            patterns: self.patterns,
            assertions: self.assertions,
            span: self.span,
        }
    }
}

impl View for Fact {
    type V = FactView;

    open spec fn view(&self) -> FactView {
        FactView {
            id: self.id@,
            types: Seq::new(self.types@.len(), |i: int| texts(self.types@[i]@)),
            span: self.span,
        }
    }
}

impl View for Decl {
    type V = DeclView;

    open spec fn view(&self) -> DeclView {
        match *self {
            Decl::Concept(c) => DeclView::Concept(c@),
            Decl::Property(p) => DeclView::Property(p@),
            Decl::Rule(r) => DeclView::Rule(r@),
            Decl::Fact(f) => DeclView::Fact(f@),
        }
    }
}

impl View for PrefixAlias {
    type V = PrefixView;

    open spec fn view(&self) -> PrefixView {
        PrefixView { path: texts(self.path@), alias: self.alias@, span: self.span }
    }
}

/// Contents of a list of type references.
pub open spec fn type_names(v: Seq<TypeName>) -> Seq<TypeNameView> {
    Seq::new(v.len(), |i: int| v[i]@)
}

/// Contents of a list of variants.
pub open spec fn variant_views(v: Seq<Variant>) -> Seq<VariantView> {
    Seq::new(v.len(), |i: int| v[i]@)
}

/// Contents of a list of declarations.
pub open spec fn decls(v: Seq<Decl>) -> Seq<DeclView> {
    Seq::new(v.len(), |i: int| v[i]@)
}

/// Contents of a list of prefixes.
pub open spec fn prefixes(v: Seq<PrefixAlias>) -> Seq<PrefixView> {
    Seq::new(v.len(), |i: int| v[i]@)
}

// ── Text forms ────────────────────────────────────────────────────────────────

/// A dotted name.
pub open spec fn dotted(parts: Seq<Seq<char>>) -> Seq<char> {
    joined(parts, "."@)
}

/// The last part of a dotted name, empty if there is none.
pub open spec fn last_part(parts: Seq<Seq<char>>) -> Seq<char> {
    if parts.len() == 0 {
        Seq::empty()
    } else {
        parts.last()
    }
}

/// A built-in type as it is shown.
pub open spec fn primitive_text(kind: Primitive) -> Seq<char> {
    match kind {
        Primitive::Text => "String"@,
        Primitive::Int => "Int"@,
        Primitive::Float => "Float"@,
        Primitive::Boolean => "Boolean"@,
    }
}

/// A type reference as it is shown.
pub open spec fn type_text(t: TypeNameView) -> Seq<char> {
    match t {
        TypeNameView::Named { parts, .. } => dotted(parts),
        TypeNameView::Builtin { kind, .. } => primitive_text(kind),
    }
}

/// A multiplicity as it is shown.
pub open spec fn multiplicity_text(m: Multiplicity) -> Seq<char> {
    match m {
        Multiplicity::One => "one"@,
        Multiplicity::Any => "any"@,
        Multiplicity::AtLeastOne => "some"@,
        Multiplicity::AtMostOne => "optional"@,
        Multiplicity::Exact(n) => decimal_text(n as nat),
        Multiplicity::Between(lo, Some(hi)) => decimal_text(lo as nat) + ".."@ + decimal_text(
            hi as nat,
        ),
        Multiplicity::Between(lo, None) => decimal_text(lo as nat) + "..*"@,
    }
}

/// A multiplicity and a blank, or nothing where there is no multiplicity.
pub open spec fn multiplicity_prefix(m: Option<Multiplicity>) -> Seq<char> {
    match m {
        Some(m) => multiplicity_text(m) + " "@,
        None => Seq::empty(),
    }
}

/// A dotted name as one string.
pub fn full_name(parts: &Vec<String>) -> (r: String)
    ensures
        r@ == dotted(texts(parts@)),
{
    join(parts, ".")
}

/// The last part of a dotted name.
pub fn last_name(parts: &Vec<String>) -> (r: String)
    ensures
        r@ == last_part(texts(parts@)),
{
    if parts.len() == 0 {
        String::new()
    } else {
        parts[parts.len() - 1].clone()
    }
}

impl TypeName {
    /// The reference as it is shown.
    pub fn text(&self) -> (r: String)
        ensures
            r@ == type_text(self@),
    {
        match self {
            TypeName::Named { parts, .. } => full_name(parts),
            TypeName::Builtin { kind, .. } => match kind {
                Primitive::Text => "String".to_owned(),
                Primitive::Int => "Int".to_owned(),
                Primitive::Float => "Float".to_owned(),
                Primitive::Boolean => "Boolean".to_owned(),
            },
        }
    }
}

impl Multiplicity {
    /// The multiplicity as it is shown.
    pub fn text(&self) -> (r: String)
        ensures
            r@ == multiplicity_text(*self),
    {
        match *self {
            Multiplicity::One => "one".to_owned(),
            Multiplicity::Any => "any".to_owned(),
            Multiplicity::AtLeastOne => "some".to_owned(),
            Multiplicity::AtMostOne => "optional".to_owned(),
            Multiplicity::Exact(n) => decimal(n),
            Multiplicity::Between(lo, Some(hi)) => {
                let mut s = decimal(lo);
                s.append("..");
                s.append(decimal(hi).as_str());
                s
            },
            Multiplicity::Between(lo, None) => {
                let mut s = decimal(lo);
                s.append("..*");
                s
            },
        }
    }
}

/// A multiplicity and a blank, or nothing.
pub fn prefix_text(m: &Option<Multiplicity>) -> (r: String)
    ensures
        r@ == multiplicity_prefix(*m),
{
    match m {
        Some(m) => {
            let mut s = m.text();
            s.append(" ");
            s
        },
        None => String::new(),
    }
}

/// The references as they are shown.
pub open spec fn type_texts(v: Seq<TypeNameView>) -> Seq<Seq<char>> {
    Seq::new(v.len(), |i: int| type_text(v[i]))
}

/// The references with commas between them.
pub open spec fn type_list(v: Seq<TypeNameView>) -> Seq<char> {
    joined(type_texts(v), ", "@)
}

/// The references with commas between them.
pub fn list_types(v: &Vec<TypeName>) -> (r: String)
    ensures
        r@ == type_list(type_names(v@)),
{
    let mut parts: Vec<String> = Vec::new();
    let mut i: usize = 0;
    while i < v.len()
        invariant
            i <= v.len(),
            parts.len() == i,
            forall|j: int| 0 <= j < i ==> (#[trigger] parts@[j])@ == type_text(v@[j]@),
        decreases v.len() - i,
    {
        parts.push(v[i].text());
        i = i + 1;
    }
    assert(texts(parts@) =~= type_texts(type_names(v@)));
    join(&parts, ", ")
}

} // verus!
