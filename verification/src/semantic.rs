//! Semantic highlighting.
//!
//! The source is read with the lexer for exact positions, and names are classified by
//! what introduces them, by where they stand in the syntax tree, or by the symbol index.
//!
//! Token types, by their place in the legend: 0 namespace (prefix aliases), 1 type
//! (built-in types, and concepts where a type stands), 2 class (concept declarations and
//! other uses of their names), 3 enum, 4 enum member (variants), 5 function (properties and
//! slots), 6 macro (rules), 7 variable, 8 keyword.
//! Modifier bit 0: the token stands where a symbol is defined.

use crate::ast::{file_decls, file_prefixes, Ontology};
use crate::document::{Document, DocumentView};
use crate::index::{index_symbols, lookup, lookup_in, Kind, KindView, SymbolTable};
use crate::layout::laid_out;
use crate::lexer::{lexed, scan, scanned_views, Lexeme, LexemeView, Scanned, ScannedView};
use crate::lists::{lemma_present_contains, lemma_present_push, present};
use crate::rope::rope_string;
use crate::sorting::{in_order, law_sorted_in_order, law_sorted_same_values, sort, sorted, Ranked};
use crate::syntax::{
    decls, prefixes, Decl, DeclView, PrefixAlias, PrefixView, TypeName, TypeNameView,
};
use crate::text::same;
use dolfin_analysis::SymbolIndex;
use vstd::prelude::*;

verus! {

// ── Legend ────────────────────────────────────────────────────────────────────

/// Token types of the protocol.
#[derive(Clone, Copy, PartialEq, Eq, Debug, Structural)]
pub enum TokenType {
    Namespace,
    Type,
    Class,
    Enum,
    EnumMember,
    Function,
    Macro,
    Variable,
    Keyword,
}

/// Token modifiers of the protocol.
#[derive(Clone, Copy, PartialEq, Eq, Debug, Structural)]
pub enum TokenModifier {
    Declaration,
}

/// The token types and modifiers that tokens refer to by number.
#[derive(PartialEq, Eq, Debug)]
pub struct Legend {
    pub token_types: Vec<TokenType>,
    pub token_modifiers: Vec<TokenModifier>,
}

pub const TT_NAMESPACE: u32 = 0;

pub const TT_TYPE: u32 = 1;

pub const TT_CLASS: u32 = 2;

pub const TT_ENUM_MEMBER: u32 = 4;

pub const TT_FUNCTION: u32 = 5;

pub const TT_MACRO: u32 = 6;

pub const TT_VARIABLE: u32 = 7;

pub const TT_KEYWORD: u32 = 8;

pub const MOD_DECLARATION: u32 = 1;

/// The token types in the order of their numbers.
pub open spec fn token_types() -> Seq<TokenType> {
    seq![
        TokenType::Namespace,
        TokenType::Type,
        TokenType::Class,
        TokenType::Enum,
        TokenType::EnumMember,
        TokenType::Function,
        TokenType::Macro,
        TokenType::Variable,
        TokenType::Keyword,
    ]
}

/// The token modifiers in the order of their bits.
pub open spec fn token_modifiers() -> Seq<TokenModifier> {
    seq![TokenModifier::Declaration]
}

/// The legend.
pub fn legend() -> (r: Legend)
    ensures
        r.token_types@ == token_types(),
        r.token_modifiers@ == token_modifiers(),
{
    let token_types = vec![
        TokenType::Namespace,
        TokenType::Type,
        TokenType::Class,
        TokenType::Enum,
        TokenType::EnumMember,
        TokenType::Function,
        TokenType::Macro,
        TokenType::Variable,
        TokenType::Keyword,
    ];
    let token_modifiers = vec![TokenModifier::Declaration];
    Legend { token_types, token_modifiers }
}

// ── Raw tokens ────────────────────────────────────────────────────────────────

/// A highlighted token at its absolute position.
#[derive(Clone, Copy, PartialEq, Eq, Debug, Structural)]
pub struct RawToken {
    pub line: u32,
    pub col: u32,
    pub len: u32,
    pub token_type: u32,
    pub modifiers: u32,
}

impl Ranked for RawToken {
    open spec fn precedes(self, other: Self) -> bool {
        self.line < other.line || (self.line == other.line && self.col < other.col)
    }

    proof fn lemma_asymmetric(a: Self, b: Self) {
    }

    proof fn lemma_negatively_transitive(a: Self, b: Self, c: Self) {
    }

    fn comes_before(&self, other: &Self) -> (r: bool) {
        self.line < other.line || (self.line == other.line && self.col < other.col)
    }
}

/// What the token before a name says about it.
#[derive(Clone, Copy, PartialEq, Eq, Debug, Structural)]
pub enum Context {
    Plain,
    AfterConcept,
    AfterProperty,
    AfterRule,
    AfterPrefix,
    AfterAs,
    AfterHas,
}

/// Where a name stands in the syntax tree.
#[derive(Clone, Copy, PartialEq, Eq, Debug, Structural)]
pub enum Spot {
    /// Where a type stands.
    Type,
    /// Where a variant is defined.
    Variant,
    /// Where an alias is defined.
    Alias,
    /// Anywhere else.
    Elsewhere,
}

/// Whether a name belongs to types that stand behind `a`.
#[derive(Clone, Copy, PartialEq, Eq, Debug, Structural)]
pub enum Typing {
    /// It does not.
    Off,
    /// To a single type.
    Single,
    /// To a list of types of a fact.
    Several,
}

/// The parts of a syntax tree that tell where names stand.
pub struct Outline {
    pub decls: Seq<DeclView>,
    pub prefixes: Seq<PrefixView>,
}

// ── Classification ────────────────────────────────────────────────────────────

/// What a token says about a name right behind it.
pub open spec fn context_after(item: Option<ScannedView>) -> Context {
    match item {
        Some(s) => match s.lexeme {
            LexemeView::Concept => Context::AfterConcept,
            LexemeView::Property => Context::AfterProperty,
            LexemeView::Rule => Context::AfterRule,
            LexemeView::Prefix => Context::AfterPrefix,
            LexemeView::As => Context::AfterAs,
            LexemeView::Has => Context::AfterHas,
            LexemeView::Key => Context::AfterHas,
            _ => Context::Plain,
        },
        None => Context::Plain,
    }
}

/// What is known about a name at place `i` of a list of tokens.
pub open spec fn context_at(items: Seq<Option<ScannedView>>, i: int) -> Context {
    if i > 0 {
        context_after(items[i - 1])
    } else {
        Context::Plain
    }
}

/// Whether a token is a keyword.
pub open spec fn keyword(l: LexemeView) -> bool {
    ||| l is Concept || l is Property || l is Rule || l is Prefix || l is Has
    ||| l is Package || l is As || l is IriName || l is Sub || l is Key
    ||| l is OneOf || l is Fact || l is Inverse || l is Of || l is Match
    ||| l is Then || l is Is || l is All || l is NoneOf
    ||| l is AtLeast || l is AtMost || l is Exactly || l is Between
    ||| l is One || l is Any || l is SomeOf || l is Optional
}

/// Whether a token is a built-in type.
pub open spec fn builtin(l: LexemeView) -> bool {
    l is StringType || l is IntType || l is FloatType || l is BooleanType
}

/// Whether a name with the given start stands in a type reference.
pub open spec fn type_holds(t: TypeNameView, offset: usize) -> bool {
    t matches TypeNameView::Named { span: Some(s), .. } && s.start.offset <= offset < s.end.offset
}

/// Whether a name with the given start stands in a type reference of a declaration: a
/// parent, the target of a slot, or the domain or range of a property.
pub open spec fn decl_type_at(d: DeclView, offset: usize) -> bool {
    match d {
        DeclView::Concept(c) => {
            ||| exists|i: int|
                0 <= i < c.parents.len() && type_holds(#[trigger] c.parents[i], offset)
            ||| exists|i: int|
                0 <= i < c.slots.len() && type_holds((#[trigger] c.slots[i]).target, offset)
        },
        DeclView::Property(p) => type_holds(p.domain, offset) || type_holds(p.range, offset),
        _ => false,
    }
}

/// Whether a name with the given start stands where declarations have a type.
pub open spec fn in_type_position(decls: Seq<DeclView>, offset: usize) -> bool {
    exists|i: int| 0 <= i < decls.len() && decl_type_at(#[trigger] decls[i], offset)
}

/// Whether a declaration defines a variant at the given start.
pub open spec fn decl_variant_at(d: DeclView, offset: usize) -> bool {
    d matches DeclView::Concept(c) && exists|i: int|
        0 <= i < c.variants.len() && ((#[trigger] c.variants[i]).span matches Some(s)
            && s.start.offset == offset)
}

/// Whether a variant is defined at the given start.
pub open spec fn defines_variant(decls: Seq<DeclView>, offset: usize) -> bool {
    exists|i: int| 0 <= i < decls.len() && decl_variant_at(#[trigger] decls[i], offset)
}

/// Whether a name with the given end is the alias that a prefix defines: it stands at the
/// end of the prefix.
pub open spec fn defines_alias(prefixes: Seq<PrefixView>, name: Seq<char>, end: usize) -> bool {
    exists|i: int|
        0 <= i < prefixes.len() && (#[trigger] prefixes[i]).alias == name && (prefixes[i].span
            matches Some(s) && s.end.offset == end)
}

/// Whether a token is a name.
pub open spec fn is_name(item: Option<ScannedView>) -> bool {
    item matches Some(s) && s.lexeme is Name
}

/// Whether the token at place `i` belongs to types that stand behind `a`: right behind it,
/// behind a dot in such a type, or behind a comma in the types of a fact.
pub open spec fn typing_at(items: Seq<Option<ScannedView>>, i: int) -> Typing
    decreases i,
{
    if i <= 0 {
        Typing::Off
    } else {
        match items[i - 1] {
            Some(s) => match s.lexeme {
                LexemeView::Is => if i >= 3 && is_name(items[i - 2]) && (items[i - 3] matches Some(
                    f,
                ) && f.lexeme is Fact) {
                    Typing::Several
                } else {
                    Typing::Single
                },
                LexemeView::Dot => if i >= 2 && is_name(items[i - 2]) {
                    typing_at(items, i - 2)
                } else {
                    Typing::Off
                },
                LexemeView::Comma => if i >= 2 && is_name(items[i - 2]) && typing_at(items, i - 2)
                    == Typing::Several {
                    Typing::Several
                } else {
                    Typing::Off
                },
                _ => Typing::Off,
            },
            None => Typing::Off,
        }
    }
}

/// Where a token that is a name stands.
pub open spec fn spot_of(s: ScannedView, name: Seq<char>, typing: Typing, outline: Outline) -> Spot {
    if defines_variant(outline.decls, s.start.offset) {
        Spot::Variant
    } else if defines_alias(outline.prefixes, name, s.end.offset) {
        Spot::Alias
    } else if typing != Typing::Off || in_type_position(outline.decls, s.start.offset) {
        Spot::Type
    } else {
        Spot::Elsewhere
    }
}

/// The token type of a declared symbol where it is used.
pub open spec fn kind_type(kind: KindView, spot: Spot) -> u32 {
    match kind {
        KindView::Concept => if spot == Spot::Type {
            TT_TYPE
        } else {
            TT_CLASS
        },
        KindView::Property => TT_FUNCTION,
        KindView::Individual { .. } => TT_ENUM_MEMBER,
        KindView::Rule => TT_MACRO,
        KindView::Prefix => TT_NAMESPACE,
    }
}

/// The token type of a name in a symbol table.
pub open spec fn known_type(name: Seq<char>, spot: Spot, symbols: SymbolTable) -> Option<u32> {
    match lookup_in(symbols, name) {
        Some(s) => Some(kind_type(s.kind, spot)),
        None => None,
    }
}

/// The token type of a name, if it is highlighted, and its modifiers.
pub open spec fn name_type(
    name: Seq<char>,
    ctx: Context,
    spot: Spot,
    symbols: Option<SymbolTable>,
) -> (Option<u32>, u32) {
    match (ctx, spot) {
        (Context::AfterConcept, _) => (Some(TT_CLASS), MOD_DECLARATION),
        (Context::AfterProperty, _) => (Some(TT_FUNCTION), MOD_DECLARATION),
        (Context::AfterRule, _) => (Some(TT_MACRO), MOD_DECLARATION),
        (Context::AfterPrefix, _) => (Some(TT_NAMESPACE), MOD_DECLARATION),
        (Context::AfterAs, _) => (Some(TT_NAMESPACE), MOD_DECLARATION),
        (Context::AfterHas, _) => (Some(TT_FUNCTION), 0),
        (Context::Plain, Spot::Variant) => (Some(TT_ENUM_MEMBER), MOD_DECLARATION),
        (Context::Plain, Spot::Alias) => (Some(TT_NAMESPACE), MOD_DECLARATION),
        (Context::Plain, _) => (
            match symbols {
                Some(t) => known_type(name, spot, t),
                None => None,
            },
            0,
        ),
    }
}

/// The token type and modifiers of a token, if it is highlighted.
pub open spec fn highlight(
    s: ScannedView,
    ctx: Context,
    typing: Typing,
    outline: Outline,
    symbols: Option<SymbolTable>,
) -> Option<(u32, u32)> {
    match s.lexeme {
        LexemeView::Name(n) => match name_type(n, ctx, spot_of(s, n, typing, outline), symbols) {
            (Some(t), m) => Some((t, m)),
            (None, _) => None,
        },
        LexemeView::Variable => Some((TT_VARIABLE, 0)),
        l => if keyword(l) {
            Some((TT_KEYWORD, 0u32))
        } else if builtin(l) {
            Some((TT_TYPE, 0u32))
        } else {
            None
        },
    }
}

/// `n - m`, or zero if that is negative.
pub open spec fn less(n: usize, m: usize) -> int {
    if n >= m {
        n - m
    } else {
        0
    }
}

/// The token at place `i`, if it is highlighted.
pub open spec fn raw_at(
    items: Seq<Option<ScannedView>>,
    i: int,
    outline: Outline,
    symbols: Option<SymbolTable>,
) -> Option<RawToken> {
    match items[i] {
        Some(s) => match highlight(
            s,
            context_at(items, i),
            typing_at(items, i),
            outline,
            symbols,
        ) {
            Some((token_type, modifiers)) => Some(
                RawToken {
                    line: less(s.start.line, 1) as u32,
                    col: less(s.start.column, 1) as u32,
                    len: less(s.end.offset, s.start.offset) as u32,
                    token_type,
                    modifiers,
                },
            ),
            None => None,
        },
        None => None,
    }
}

/// For each token, its highlighting.
pub open spec fn highlights(
    items: Seq<Option<ScannedView>>,
    outline: Outline,
    symbols: Option<SymbolTable>,
) -> Seq<Option<RawToken>> {
    Seq::new(items.len(), |i: int| raw_at(items, i, outline, symbols))
}

/// The highlighted tokens in the order of the source.
pub open spec fn raw_tokens(
    items: Seq<Option<ScannedView>>,
    outline: Outline,
    symbols: Option<SymbolTable>,
) -> Seq<RawToken> {
    present(highlights(items, outline, symbols))
}

/// The symbol table that names of a document are looked up in.
pub open spec fn names_of(doc: DocumentView) -> Option<SymbolTable> {
    match doc.analysis {
        Some(a) => Some(a.index.symbols),
        None => None,
    }
}

/// The outline of a document, empty if it has no syntax tree.
pub open spec fn outline_of(doc: DocumentView) -> Outline {
    match doc.parse.tree {
        Some(f) => Outline { decls: file_decls(f), prefixes: file_prefixes(f) },
        None => Outline { decls: Seq::empty(), prefixes: Seq::empty() },
    }
}

/// The highlighted tokens of a document, sorted by position.
pub open spec fn document_tokens(doc: DocumentView) -> Seq<RawToken> {
    sorted(raw_tokens(lexed(doc.text), outline_of(doc), names_of(doc)))
}

// ── Delta encoding ────────────────────────────────────────────────────────────

/// A token relative to the one before it.
#[derive(Clone, Copy, PartialEq, Eq, Debug, Structural)]
pub struct SemanticToken {
    pub delta_line: u32,
    pub delta_start: u32,
    pub length: u32,
    pub token_type: u32,
    pub token_modifiers_bitset: u32,
}

/// The tokens of a document.
#[derive(PartialEq, Eq, Debug)]
pub struct SemanticTokens {
    pub data: Vec<SemanticToken>,
}

/// The position of the token before place `i`; the first has the start of the document
/// before it.
pub open spec fn previous(s: Seq<RawToken>, i: int) -> (u32, u32) {
    if i > 0 {
        (s[i - 1].line, s[i - 1].col)
    } else {
        (0, 0)
    }
}

/// A token relative to a position: the lines in between, and the column, from the
/// position on the same line, else from the start of the line.
pub open spec fn relative(t: RawToken, from: (u32, u32)) -> SemanticToken {
    SemanticToken {
        delta_line: (t.line - from.0) as u32,
        delta_start: if t.line == from.0 {
            (t.col - from.1) as u32
        } else {
            t.col
        },
        length: t.len,
        token_type: t.token_type,
        token_modifiers_bitset: t.modifiers,
    }
}

/// Each token relative to the one before it.
pub open spec fn encoded(s: Seq<RawToken>) -> Seq<SemanticToken> {
    Seq::new(s.len(), |i: int| relative(s[i], previous(s, i)))
}

/// The absolute tokens that relative tokens stand for.
pub open spec fn decoded(d: Seq<SemanticToken>) -> Seq<RawToken>
    decreases d.len(),
{
    if d.len() == 0 {
        Seq::empty()
    } else {
        let rest = decoded(d.drop_last());
        let t = d.last();
        let from = previous(rest, rest.len() as int);
        rest.push(
            RawToken {
                line: (from.0 + t.delta_line) as u32,
                col: (if t.delta_line == 0 {
                    from.1 + t.delta_start
                } else {
                    t.delta_start as int
                }) as u32,
                len: t.length,
                token_type: t.token_type,
                modifiers: t.token_modifiers_bitset,
            },
        )
    }
}

// ── Tokens ────────────────────────────────────────────────────────────────────

/// Appends a keyword token.
pub fn push_kw(raw: &mut Vec<RawToken>, line: u32, col: u32, len: u32)
    ensures
        final(raw)@ == old(raw)@.push(
            (RawToken { line, col, len, token_type: TT_KEYWORD, modifiers: 0 }),
        ),
{
    raw.push(RawToken { line, col, len, token_type: TT_KEYWORD, modifiers: 0 });
}

/// The contents of the table that an optional index holds.
pub open spec fn table_of(index: Option<&SymbolIndex>) -> Option<SymbolTable> {
    match index {
        Some(ix) => Some(index_symbols(*ix)),
        None => None,
    }
}

/// Whether a name with the given start stands in a type reference.
fn is_type_at(t: &TypeName, offset: usize) -> (r: bool)
    ensures
        r == type_holds(t@, offset),
{
    match t {
        TypeName::Named { span: Some(s), .. } => {
            s.start.offset <= offset && offset < s.end.offset
        },
        _ => false,
    }
}

/// Whether a name with the given start stands in a type reference of a declaration.
fn is_decl_type_at(d: &Decl, offset: usize) -> (r: bool)
    ensures
        r == decl_type_at(d@, offset),
{
    match d {
        Decl::Concept(c) => {
            let mut i: usize = 0;
            while i < c.parents.len()
                invariant
                    i <= c.parents.len(),
                    d@ == DeclView::Concept(c@),
                    forall|j: int|
                        0 <= j < i ==> !type_holds(#[trigger] c@.parents[j], offset),
                decreases c.parents.len() - i,
            {
                assert(c@.parents[i as int] == c.parents@[i as int]@);
                if is_type_at(&c.parents[i], offset) {
                    return true;
                }
                i = i + 1;
            }
            let mut k: usize = 0;
            while k < c.slots.len()
                invariant
                    k <= c.slots.len(),
                    d@ == DeclView::Concept(c@),
                    forall|j: int|
                        0 <= j < k ==> !type_holds((#[trigger] c@.slots[j]).target, offset),
                decreases c.slots.len() - k,
            {
                assert(c@.slots[k as int] == c.slots@[k as int]@);
                if is_type_at(&c.slots[k].target, offset) {
                    return true;
                }
                k = k + 1;
            }
            false
        },
        Decl::Property(p) => is_type_at(&p.domain, offset) || is_type_at(&p.range, offset),
        _ => false,
    }
}

/// Whether a name with the given start stands where declarations have a type.
pub fn is_in_type_position(declarations: &Vec<Decl>, offset: usize) -> (r: bool)
    ensures
        r == in_type_position(decls(declarations@), offset),
{
    let mut i: usize = 0;
    while i < declarations.len()
        invariant
            i <= declarations.len(),
            forall|j: int|
                0 <= j < i ==> !decl_type_at(#[trigger] decls(declarations@)[j], offset),
        decreases declarations.len() - i,
    {
        assert(decls(declarations@)[i as int] == declarations@[i as int]@);
        if is_decl_type_at(&declarations[i], offset) {
            return true;
        }
        i = i + 1;
    }
    false
}

/// Whether a variant is defined at the given start.
pub fn is_variant_at(declarations: &Vec<Decl>, offset: usize) -> (r: bool)
    ensures
        r == defines_variant(decls(declarations@), offset),
{
    let mut i: usize = 0;
    while i < declarations.len()
        invariant
            i <= declarations.len(),
            forall|j: int|
                0 <= j < i ==> !decl_variant_at(#[trigger] decls(declarations@)[j], offset),
        decreases declarations.len() - i,
    {
        assert(decls(declarations@)[i as int] == declarations@[i as int]@);
        if let Decl::Concept(c) = &declarations[i] {
            let mut k: usize = 0;
            while k < c.variants.len()
                invariant
                    k <= c.variants.len(),
                    i < declarations.len(),
                    decls(declarations@)[i as int] == DeclView::Concept(c@),
                    forall|j: int|
                        0 <= j < k ==> !((#[trigger] c@.variants[j]).span matches Some(s)
                            && s.start.offset == offset),
                decreases c.variants.len() - k,
            {
                assert(c@.variants[k as int] == c.variants@[k as int]@);
                if let Some(s) = c.variants[k].span {
                    if s.start.offset == offset {
                        assert(decl_variant_at(decls(declarations@)[i as int], offset));
                        return true;
                    }
                }
                k = k + 1;
            }
        }
        i = i + 1;
    }
    false
}

/// Whether a name with the given end is the alias that a prefix defines.
pub fn is_alias_at(aliases: &Vec<PrefixAlias>, name: &str, end: usize) -> (r: bool)
    ensures
        r == defines_alias(prefixes(aliases@), name@, end),
{
    let mut i: usize = 0;
    while i < aliases.len()
        invariant
            i <= aliases.len(),
            forall|j: int|
                0 <= j < i ==> !((#[trigger] prefixes(aliases@)[j]).alias == name@ && (prefixes(
                    aliases@,
                )[j].span matches Some(s) && s.end.offset == end)),
        decreases aliases.len() - i,
    {
        assert(prefixes(aliases@)[i as int] == aliases@[i as int]@);
        if let Some(s) = aliases[i].span {
            if s.end.offset == end && same(aliases[i].alias.as_str(), name) {
                return true;
            }
        }
        i = i + 1;
    }
    false
}

/// The outline that an optional parsed file has.
pub open spec fn outline_in(file: Option<&Ontology>) -> Outline {
    match file {
        Some(f) => Outline { decls: decls(f.decls@), prefixes: prefixes(f.prefixes@) },
        None => Outline { decls: Seq::empty(), prefixes: Seq::empty() },
    }
}

/// Where a token that is a name stands.
fn find_spot(s: &Scanned, name: &str, typing: Typing, file: Option<&Ontology>) -> (r: Spot)
    ensures
        r == spot_of(s@, name@, typing, outline_in(file)),
{
    if let Some(f) = file {
        if is_variant_at(&f.decls, s.start.offset) {
            return Spot::Variant;
        }
        if is_alias_at(&f.prefixes, name, s.end.offset) {
            return Spot::Alias;
        }
        if is_in_type_position(&f.decls, s.start.offset) {
            return Spot::Type;
        }
    }
    if let Typing::Off = typing {
        Spot::Elsewhere
    } else {
        Spot::Type
    }
}

/// The token type of a name, if it is highlighted, and its modifiers.
pub fn classify_name(name: &str, ctx: Context, spot: Spot, index: Option<&SymbolIndex>) -> (r: (
    Option<u32>,
    u32,
))
    ensures
        r == name_type(name@, ctx, spot, table_of(index)),
{
    match (ctx, spot) {
        (Context::AfterConcept, _) => (Some(TT_CLASS), MOD_DECLARATION),
        (Context::AfterProperty, _) => (Some(TT_FUNCTION), MOD_DECLARATION),
        (Context::AfterRule, _) => (Some(TT_MACRO), MOD_DECLARATION),
        (Context::AfterPrefix, _) => (Some(TT_NAMESPACE), MOD_DECLARATION),
        (Context::AfterAs, _) => (Some(TT_NAMESPACE), MOD_DECLARATION),
        (Context::AfterHas, _) => (Some(TT_FUNCTION), 0),
        (Context::Plain, Spot::Variant) => (Some(TT_ENUM_MEMBER), MOD_DECLARATION),
        (Context::Plain, Spot::Alias) => (Some(TT_NAMESPACE), MOD_DECLARATION),
        (Context::Plain, _) => {
            let tt = match index {
                Some(ix) => classify_by_index(name, spot, ix),
                None => None,
            };
            (tt, 0)
        },
    }
}

/// The token type of a name that the index knows.
pub fn classify_by_index(name: &str, spot: Spot, index: &SymbolIndex) -> (r: Option<u32>)
    ensures
        r == known_type(name@, spot, index_symbols(*index)),
{
    match lookup(index, name) {
        Some(s) => Some(
            match s.kind {
                Kind::Concept => if let Spot::Type = spot {
                    TT_TYPE
                } else {
                    TT_CLASS
                },
                Kind::Property => TT_FUNCTION,
                Kind::Individual { .. } => TT_ENUM_MEMBER,
                Kind::Rule => TT_MACRO,
                Kind::Prefix => TT_NAMESPACE,
            },
        ),
        None => None,
    }
}

/// Appends the highlighting of one token, if it has one, and tells what it says about a
/// name right behind it.
pub fn classify(
    raw: &mut Vec<RawToken>,
    s: &Scanned,
    ctx: Context,
    typing: Typing,
    file: Option<&Ontology>,
    index: Option<&SymbolIndex>,
) -> (next: Context)
    ensures
        next == context_after(Some(s@)),
        final(raw)@ == match highlight(s@, ctx, typing, outline_in(file), table_of(index)) {
            Some((token_type, modifiers)) => old(raw)@.push(
                (RawToken {
                    line: less(s.start.line, 1) as u32,
                    col: less(s.start.column, 1) as u32,
                    len: less(s.end.offset, s.start.offset) as u32,
                    token_type,
                    modifiers,
                }),
            ),
            None => old(raw)@,
        },
{
    let line: u32 = s.start.line.saturating_sub(1) as u32;
    let col: u32 = s.start.column.saturating_sub(1) as u32;
    let len: u32 = s.end.offset.saturating_sub(s.start.offset) as u32;
    match &s.lexeme {
        // Keywords that introduce a name
        Lexeme::Concept => {
            push_kw(raw, line, col, len);
            Context::AfterConcept
        },
        Lexeme::Property => {
            push_kw(raw, line, col, len);
            Context::AfterProperty
        },
        Lexeme::Rule => {
            push_kw(raw, line, col, len);
            Context::AfterRule
        },
        Lexeme::Prefix => {
            push_kw(raw, line, col, len);
            Context::AfterPrefix
        },
        Lexeme::As => {
            push_kw(raw, line, col, len);
            Context::AfterAs
        },
        Lexeme::Has | Lexeme::Key => {
            push_kw(raw, line, col, len);
            Context::AfterHas
        },
        // Other keywords
        Lexeme::Package
        | Lexeme::IriName
        | Lexeme::Sub
        | Lexeme::OneOf
        | Lexeme::Fact
        | Lexeme::Inverse
        | Lexeme::Of
        | Lexeme::Match
        | Lexeme::Then
        | Lexeme::Is
        | Lexeme::All
        | Lexeme::NoneOf
        | Lexeme::AtLeast
        | Lexeme::AtMost
        | Lexeme::Exactly
        | Lexeme::Between
        | Lexeme::One
        | Lexeme::Any
        | Lexeme::SomeOf
        | Lexeme::Optional => {
            push_kw(raw, line, col, len);
            Context::Plain
        },
        // Built-in types
        Lexeme::StringType | Lexeme::IntType | Lexeme::FloatType | Lexeme::BooleanType => {
            raw.push(RawToken { line, col, len, token_type: TT_TYPE, modifiers: 0 });
            Context::Plain
        },
        // Identifiers
        Lexeme::Name(name) => {
            let spot = find_spot(s, name.as_str(), typing, file);
            let (token_type, modifiers) = classify_name(name.as_str(), ctx, spot, index);
            if let Some(tt) = token_type {
                raw.push(RawToken { line, col, len, token_type: tt, modifiers });
            }
            Context::Plain
        },
        // Rule variables
        Lexeme::Variable => {
            raw.push(RawToken { line, col, len, token_type: TT_VARIABLE, modifiers: 0 });
            Context::Plain
        },
        Lexeme::Dot | Lexeme::Comma | Lexeme::Other => Context::Plain,
    }
}

/// Whether the token at place `i` is a name.
fn is_name_at(items: &Vec<Option<Scanned>>, i: usize) -> (r: bool)
    requires
        i < items.len(),
    ensures
        r == is_name(scanned_views(items@)[i as int]),
{
    match &items[i] {
        Some(s) => match &s.lexeme {
            Lexeme::Name(_) => true,
            _ => false,
        },
        None => false,
    }
}

/// Whether the token at place `i` belongs to types that stand behind `a`, where that is known
/// of all tokens before it.
fn find_typing(items: &Vec<Option<Scanned>>, i: usize, known: &Vec<Typing>) -> (r: Typing)
    requires
        i < items.len(),
        known.len() == i,
        forall|j: int|
            0 <= j < i ==> #[trigger] known@[j] == typing_at(scanned_views(items@), j),
    ensures
        r == typing_at(scanned_views(items@), i as int),
{
    if i == 0 {
        return Typing::Off;
    }
    let ghost views = scanned_views(items@);
    match &items[i - 1] {
        Some(s) => {
            assert(views[i - 1] == Some(s@));
            match &s.lexeme {
                Lexeme::Is => {
                    if i >= 3 && is_name_at(items, i - 2) {
                        if let Some(f) = &items[i - 3] {
                            assert(views[i - 3] == Some(f@));
                            if let Lexeme::Fact = &f.lexeme {
                                return Typing::Several;
                            }
                        }
                    }
                    Typing::Single
                },
                Lexeme::Dot => {
                    if i >= 2 && is_name_at(items, i - 2) {
                        known[i - 2]
                    } else {
                        Typing::Off
                    }
                },
                Lexeme::Comma => {
                    if i >= 2 && is_name_at(items, i - 2) {
                        if let Typing::Several = known[i - 2] {
                            return Typing::Several;
                        }
                    }
                    Typing::Off
                },
                _ => Typing::Off,
            }
        },
        None => Typing::Off,
    }
}

/// The highlighted tokens of a list of tokens.
pub fn classify_all(
    items: &Vec<Option<Scanned>>,
    file: Option<&Ontology>,
    index: Option<&SymbolIndex>,
) -> (r: Vec<RawToken>)
    ensures
        r@ == raw_tokens(scanned_views(items@), outline_in(file), table_of(index)),
{
    let mut raw: Vec<RawToken> = Vec::new();
    let mut ctx = Context::Plain;
    let mut typings: Vec<Typing> = Vec::new();
    let ghost views = scanned_views(items@);
    let ghost all = highlights(views, outline_in(file), table_of(index));
    let mut i: usize = 0;
    while i < items.len()
        invariant
            i <= items.len(),
            views == scanned_views(items@),
            all == highlights(views, outline_in(file), table_of(index)),
            ctx == context_at(views, i as int),
            typings.len() == i,
            forall|j: int| 0 <= j < i ==> #[trigger] typings@[j] == typing_at(views, j),
            raw@ == present(all.take(i as int)),
        decreases items.len() - i,
    {
        proof {
            assert(all.take(i + 1) =~= all.take(i as int).push(all[i as int]));
            lemma_present_push(all.take(i as int), all[i as int]);
        }
        let typing = find_typing(items, i, &typings);
        match &items[i] {
            Some(s) => {
                assert(views[i as int] == Some(s@));
                ctx = classify(&mut raw, s, ctx, typing, file, index);
            },
            None => {
                ctx = Context::Plain;
            },
        }
        typings.push(typing);
        i = i + 1;
    }
    assert(all.take(all.len() as int) =~= all);
    raw
}

/// Encodes tokens, sorted by position, relative to each other.
pub fn encode(raw: &Vec<RawToken>) -> (r: Vec<SemanticToken>)
    requires
        in_order(raw@),
    ensures
        r@ == encoded(raw@),
{
    let mut tokens: Vec<SemanticToken> = Vec::new();
    let mut prev_line: u32 = 0;
    let mut prev_col: u32 = 0;
    let mut i: usize = 0;
    while i < raw.len()
        invariant
            i <= raw.len(),
            in_order(raw@),
            (prev_line, prev_col) == previous(raw@, i as int),
            tokens@ == encoded(raw@).take(i as int),
        decreases raw.len() - i,
    {
        let t = raw[i];
        proof {
            if i > 0 {
                assert(!raw@[i as int].precedes(raw@[i - 1]));
            }
        }
        let delta_line: u32 = t.line - prev_line;
        let delta_start: u32 = if delta_line == 0 {
            t.col - prev_col
        } else {
            t.col
        };
        tokens.push(
            SemanticToken {
                delta_line,
                delta_start,
                length: t.len,
                token_type: t.token_type,
                token_modifiers_bitset: t.modifiers,
            },
        );
        proof {
            assert(encoded(raw@).take(i + 1) =~= encoded(raw@).take(i as int).push(
                encoded(raw@)[i as int],
            ));
        }
        prev_line = t.line;
        prev_col = t.col;
        i = i + 1;
    }
    assert(encoded(raw@).take(raw@.len() as int) =~= encoded(raw@));
    tokens
}

/// The delta-encoded tokens of the whole document.
pub fn full_tokens(doc: &Document) -> (r: Option<SemanticTokens>)
    requires
        doc.wf(),
        laid_out(doc@.text),
    ensures
        r is Some,
        r->0.data@ == encoded(document_tokens(doc@)),
{
    let index = match &doc.analysis {
        Some(a) => Some(&a.index),
        None => None,
    };
    let file = match &doc.parse.ontology {
        Some(f) => Some(f),
        None => None,
    };
    let source = rope_string(&doc.rope);
    let items = scan(source.as_str());
    let raw = sort(classify_all(&items, file, index));
    proof {
        law_sorted_in_order(raw_tokens(lexed(doc@.text), outline_of(doc@), names_of(doc@)));
    }
    Some(SemanticTokens { data: encode(&raw) })
}

// ── Laws ──────────────────────────────────────────────────────────────────────

/// Each number that tokens are given stands for its type in the legend.
pub proof fn law_legend_matches_numbers()
    ensures
        token_types()[TT_NAMESPACE as int] == TokenType::Namespace,
        token_types()[TT_TYPE as int] == TokenType::Type,
        token_types()[TT_CLASS as int] == TokenType::Class,
        token_types()[TT_ENUM_MEMBER as int] == TokenType::EnumMember,
        token_types()[TT_FUNCTION as int] == TokenType::Function,
        token_types()[TT_MACRO as int] == TokenType::Macro,
        token_types()[TT_VARIABLE as int] == TokenType::Variable,
        token_types()[TT_KEYWORD as int] == TokenType::Keyword,
        token_modifiers()[0] == TokenModifier::Declaration,
        MOD_DECLARATION == 1u32 << 0,
{
    assert(1u32 << 0 == 1u32) by (bit_vector);
}

/// A client that adds the differences up again gets every token back at its place.
pub proof fn law_decode_encode(s: Seq<RawToken>)
    requires
        in_order(s),
    ensures
        decoded(encoded(s)) == s,
    decreases s.len(),
{
    if s.len() > 0 {
        let rest = s.drop_last();
        assert(in_order(rest)) by {
            assert forall|i: int, j: int| 0 <= i < j < rest.len() implies !(
            #[trigger] rest[j]).precedes(#[trigger] rest[i]) by {
                assert(!s[j].precedes(s[i]));
            }
        }
        law_decode_encode(rest);
        assert(encoded(s).drop_last() =~= encoded(rest));
        if s.len() > 1 {
            assert(!s[s.len() - 1].precedes(s[s.len() - 2]));
        }
        assert(decoded(encoded(s)) =~= rest.push(s.last()));
        assert(rest.push(s.last()) =~= s);
    }
}

/// The tokens of a document are in order, get back to their places, and refer to types and
/// modifiers of the legend.
pub proof fn law_document_tokens(doc: DocumentView)
    ensures
        in_order(document_tokens(doc)),
        decoded(encoded(document_tokens(doc))) == document_tokens(doc),
        forall|i: int|
            0 <= i < document_tokens(doc).len() ==> {
                let t = #[trigger] document_tokens(doc)[i];
                t.token_type < token_types().len() && (t.modifiers == 0 || t.modifiers
                    == MOD_DECLARATION)
            },
{
    let items = lexed(doc.text);
    let symbols = names_of(doc);
    let outline = outline_of(doc);
    let raw = raw_tokens(items, outline, symbols);
    law_sorted_in_order(raw);
    law_decode_encode(sorted(raw));
    assert forall|i: int| 0 <= i < sorted(raw).len() implies {
        let t = #[trigger] sorted(raw)[i];
        t.token_type < token_types().len() && (t.modifiers == 0 || t.modifiers == MOD_DECLARATION)
    } by {
        let t = sorted(raw)[i];
        law_sorted_same_values(raw, t);
        assert(sorted(raw).contains(t));
        lemma_present_contains(highlights(items, outline, symbols), t);
        let k = choose|k: int| 0 <= k < items.len() && highlights(
            items,
            outline,
            symbols,
        )[k] == Some(t);
        assert(raw_at(items, k, outline, symbols) == Some(t));
    }
}

} // verus!
