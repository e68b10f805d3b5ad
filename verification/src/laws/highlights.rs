//! Highlighting: which tokens of a text are shown, and as what.

use crate::ast::{file_decls, file_prefixes};
use crate::document::DocumentView;
use crate::index::KindView;
use crate::laws::shared::{lemma_present_places, picks, proper, refers};
use crate::lexer::{lexed, LexemeView, ScannedView};
use crate::semantic::{
    decl_type_at, decl_variant_at, defines_alias, defines_variant, document_tokens, encoded,
    highlights, in_type_position, law_legend_matches_numbers, names_of, outline_of, raw_at,
    raw_tokens, token_types, type_holds, typing_at, RawToken, TokenType, Typing,
};
use crate::sorting::{law_sorted_in_order, law_sorted_multiset, sorted, Ranked};
use crate::syntax::{DeclView, PrefixView, TypeNameView, VariantView};
use vstd::prelude::*;

verus! {

// ── What a token is shown as ──────────────────────────────────────────────────

/// The declarations of a document, none if it could not be parsed.
pub open spec fn declarations(doc: DocumentView) -> Seq<DeclView> {
    match doc.parse.tree {
        Some(f) => file_decls(f),
        None => Seq::empty(),
    }
}

/// The prefixes of a document, none if it could not be parsed.
pub open spec fn aliases(doc: DocumentView) -> Seq<PrefixView> {
    match doc.parse.tree {
        Some(f) => file_prefixes(f),
        None => Seq::empty(),
    }
}

/// Token `i` is right behind one of the given kind.
pub open spec fn behind(items: Seq<Option<ScannedView>>, i: int, l: LexemeView) -> bool {
    i > 0 && (items[i - 1] matches Some(s) && s.lexeme == l)
}

/// Token `i` is a name.
pub open spec fn named(items: Seq<Option<ScannedView>>, i: int) -> bool {
    0 <= i < items.len() && (items[i] matches Some(s) && s.lexeme is Name)
}

/// Token `i` stands where a type is asserted: right behind `a`, behind a dot that goes on a
/// name there, or behind a comma in the types of a fact. With `listing` only the types of a fact
/// count.
pub open spec fn asserted(items: Seq<Option<ScannedView>>, i: int, listing: bool) -> bool
    decreases i,
{
    ||| i > 0 && behind(items, i, LexemeView::Is) && (!listing || (i >= 3 && named(items, i - 2)
        && behind(items, i - 2, LexemeView::Fact)))
    ||| i >= 2 && behind(items, i, LexemeView::Dot) && named(items, i - 2) && asserted(
        items,
        i - 2,
        listing,
    )
    ||| i >= 2 && behind(items, i, LexemeView::Comma) && named(items, i - 2) && asserted(
        items,
        i - 2,
        true,
    )
}

/// A name with the given start stands in a type reference of a declaration.
pub open spec fn referring(v: Seq<DeclView>, offset: usize) -> bool {
    exists|j: int, t: TypeNameView|
        0 <= j < v.len() && #[trigger] refers(v[j], t) && (t matches TypeNameView::Named {
            span: Some(s),
            ..
        } && s.start.offset <= offset < s.end.offset)
}

/// A declaration is a concept that lists the variant.
pub open spec fn lists(d: DeclView, x: VariantView) -> bool {
    d matches DeclView::Concept(c) && c.variants.contains(x)
}

/// A variant of a concept is defined at the given start.
pub open spec fn variant_starts(v: Seq<DeclView>, offset: usize) -> bool {
    exists|j: int, x: VariantView|
        0 <= j < v.len() && #[trigger] lists(v[j], x) && (x.span matches Some(s) && s.start.offset == offset)
}

/// A prefix ends with the alias `name` at the given end.
pub open spec fn alias_ends(v: Seq<PrefixView>, name: Seq<char>, offset: usize) -> bool {
    exists|p: PrefixView| #[trigger]
        v.contains(p) && p.alias == name && (p.span matches Some(s) && s.end.offset == offset)
}

/// What a known name is shown as where it is used.
pub open spec fn shown_use(kind: KindView, as_type: bool) -> TokenType {
    match kind {
        KindView::Concept => if as_type {
            TokenType::Type
        } else {
            TokenType::Class
        },
        KindView::Property => TokenType::Function,
        KindView::Rule => TokenType::Macro,
        KindView::Prefix => TokenType::Namespace,
        KindView::Individual { .. } => TokenType::EnumMember,
    }
}

/// What token `i` of a document is shown as, and whether it defines a symbol; `None` if it is
/// not shown.
pub open spec fn shown(doc: DocumentView, i: int) -> Option<(TokenType, bool)> {
    let items = lexed(doc.text);
    match items[i] {
        Some(s) => match s.lexeme {
            LexemeView::Variable => Some((TokenType::Variable, false)),
            LexemeView::StringType => Some((TokenType::Type, false)),
            LexemeView::IntType => Some((TokenType::Type, false)),
            LexemeView::FloatType => Some((TokenType::Type, false)),
            LexemeView::BooleanType => Some((TokenType::Type, false)),
            LexemeView::Dot => None,
            LexemeView::Comma => None,
            LexemeView::Other => None,
            LexemeView::Name(n) => if behind(items, i, LexemeView::Concept) {
                Some((TokenType::Class, true))
            } else if behind(items, i, LexemeView::Property) {
                Some((TokenType::Function, true))
            } else if behind(items, i, LexemeView::Rule) {
                Some((TokenType::Macro, true))
            } else if behind(items, i, LexemeView::Prefix) || behind(items, i, LexemeView::As) {
                Some((TokenType::Namespace, true))
            } else if behind(items, i, LexemeView::Has) || behind(items, i, LexemeView::Key) {
                Some((TokenType::Function, false))
            } else if variant_starts(declarations(doc), s.start.offset) {
                Some((TokenType::EnumMember, true))
            } else if alias_ends(aliases(doc), n, s.end.offset) {
                Some((TokenType::Namespace, true))
            } else if doc.analysis is Some && doc.analysis->0.index.symbols.contains_key(n) {
                Some(
                    (
                        shown_use(
                            doc.analysis->0.index.symbols[n].kind,
                            asserted(items, i, false) || referring(
                                declarations(doc),
                                s.start.offset,
                            ),
                        ),
                        false,
                    ),
                )
            } else {
                None
            },
            _ => Some((TokenType::Keyword, false)),
        },
        None => None,
    }
}

/// A highlighted token stands for a token of the text: at its place, of its length, of the type
/// of the legend that it is shown as, and marked as a declaration exactly if it defines a symbol.
pub open spec fn stands_for(t: RawToken, s: ScannedView, what: (TokenType, bool)) -> bool {
    &&& proper(s.start) ==> t.line + 1 == s.start.line && t.col + 1 == s.start.column
    &&& s.start.offset <= s.end.offset <= u32::MAX ==> t.len == s.end.offset - s.start.offset
    &&& 0 <= t.token_type < token_types().len()
    &&& token_types()[t.token_type as int] == what.0
    &&& t.modifiers == if what.1 {
        1u32
    } else {
        0
    }
}

/// `raw` are the tokens of a document that are shown, which stand at the places `at`.
pub open spec fn highlighted(doc: DocumentView, at: Seq<int>, raw: Seq<RawToken>) -> bool {
    let items = lexed(doc.text);
    &&& picks(at, items.len() as int)
    &&& at.len() == raw.len()
    &&& forall|k: int|
        0 <= k < at.len() ==> items[#[trigger] at[k]] is Some && shown(doc, at[k]) is Some
            && stands_for(raw[k], items[at[k]]->0, shown(doc, at[k])->0)
    &&& forall|i: int| 0 <= i < items.len() && #[trigger] shown(doc, i) is Some ==> at.contains(i)
}

// ── Proofs ────────────────────────────────────────────────────────────────────

/// Types behind `a` are told by the tokens before them.
proof fn lemma_asserted(items: Seq<Option<ScannedView>>, i: int)
    requires
        i <= items.len(),
    ensures
        asserted(items, i, false) <==> typing_at(items, i) != Typing::Off,
        asserted(items, i, true) <==> typing_at(items, i) == Typing::Several,
    decreases i,
{
    if i >= 2 {
        lemma_asserted(items, i - 2);
    }
}

/// A name stands in a type reference exactly if some declaration has the reference.
proof fn lemma_referring(v: Seq<DeclView>, offset: usize)
    ensures
        referring(v, offset) <==> in_type_position(v, offset),
{
    if in_type_position(v, offset) {
        let j = choose|j: int| 0 <= j < v.len() && decl_type_at(#[trigger] v[j], offset);
        match v[j] {
            DeclView::Concept(c) => {
                if exists|i: int| 0 <= i < c.parents.len() && type_holds(#[trigger] c.parents[i], offset) {
                    let i = choose|i: int|
                        0 <= i < c.parents.len() && type_holds(#[trigger] c.parents[i], offset);
                    assert(c.parents.contains(c.parents[i]));
                    assert(refers(v[j], c.parents[i]));
                } else {
                    let i = choose|i: int|
                        0 <= i < c.slots.len() && type_holds((#[trigger] c.slots[i]).target, offset);
                    assert(refers(v[j], c.slots[i].target));
                }
            },
            DeclView::Property(p) => {
                assert(refers(v[j], p.domain));
                assert(refers(v[j], p.range));
            },
            _ => {},
        }
    }
    if referring(v, offset) {
        let (j, t) = choose|j: int, t: TypeNameView|
            0 <= j < v.len() && #[trigger] refers(v[j], t) && (t matches TypeNameView::Named {
                span: Some(s),
                ..
            } && s.start.offset <= offset < s.end.offset);
        assert(type_holds(t, offset));
        match v[j] {
            DeclView::Concept(c) => {
                if c.parents.contains(t) {
                    let i = choose|i: int| 0 <= i < c.parents.len() && c.parents[i] == t;
                    assert(type_holds(c.parents[i], offset));
                } else {
                    let i = choose|i: int| 0 <= i < c.slots.len() && (#[trigger] c.slots[i]).target == t;
                    assert(type_holds(c.slots[i].target, offset));
                }
            },
            _ => {},
        }
        assert(decl_type_at(v[j], offset));
    }
}

/// Variants are defined where they start.
proof fn lemma_variant_starts(v: Seq<DeclView>, offset: usize)
    ensures
        variant_starts(v, offset) <==> defines_variant(v, offset),
{
    if defines_variant(v, offset) {
        let j = choose|j: int| 0 <= j < v.len() && decl_variant_at(#[trigger] v[j], offset);
        let c = v[j]->Concept_0;
        let i = choose|i: int|
            0 <= i < c.variants.len() && ((#[trigger] c.variants[i]).span matches Some(s)
                && s.start.offset == offset);
        assert(c.variants.contains(c.variants[i]));
        assert(lists(v[j], c.variants[i]));
    }
    if variant_starts(v, offset) {
        let (j, x) = choose|j: int, x: VariantView|
            0 <= j < v.len() && #[trigger] lists(v[j], x) && (x.span matches Some(s)
                && s.start.offset == offset);
        let c = v[j]->Concept_0;
        let i = choose|i: int| 0 <= i < c.variants.len() && c.variants[i] == x;
        assert(c.variants[i].span == x.span);
        assert(decl_variant_at(v[j], offset));
    }
}

/// Aliases are defined where they end.
proof fn lemma_alias_ends(v: Seq<PrefixView>, name: Seq<char>, offset: usize)
    ensures
        alias_ends(v, name, offset) <==> defines_alias(v, name, offset),
{
    if defines_alias(v, name, offset) {
        let i = choose|i: int|
            0 <= i < v.len() && (#[trigger] v[i]).alias == name && (v[i].span matches Some(s)
                && s.end.offset == offset);
        assert(v.contains(v[i]));
    }
    if alias_ends(v, name, offset) {
        let p = choose|p: PrefixView| #[trigger]
            v.contains(p) && p.alias == name && (p.span matches Some(s) && s.end.offset == offset);
        let i = choose|i: int| 0 <= i < v.len() && v[i] == p;
        assert(v[i].alias == name);
    }
}

/// A token is highlighted exactly if it is shown, and as what it is shown.
proof fn lemma_shown(doc: DocumentView, i: int)
    requires
        0 <= i < lexed(doc.text).len(),
    ensures
        ({
            let items = lexed(doc.text);
            match raw_at(items, i, outline_of(doc), names_of(doc)) {
                Some(t) => items[i] is Some && shown(doc, i) is Some && stands_for(
                    t,
                    items[i]->0,
                    shown(doc, i)->0,
                ),
                None => shown(doc, i) is None,
            }
        }),
{
    let items = lexed(doc.text);
    law_legend_matches_numbers();
    if let Some(s) = items[i] {
        lemma_asserted(items, i);
        lemma_referring(declarations(doc), s.start.offset);
        lemma_variant_starts(declarations(doc), s.start.offset);
        if let LexemeView::Name(n) = s.lexeme {
            lemma_alias_ends(aliases(doc), n, s.end.offset);
        }
    }
}

// ── Laws ──────────────────────────────────────────────────────────────────────

/// Highlighting shows exactly the tokens of the text that are to be shown, each once: variables,
/// built-in types, keywords, and names by what introduces them, by what they define, or by the
/// symbol that they name.
pub proof fn law_tokens_are_shown(doc: DocumentView)
    ensures
        exists|at: Seq<int>, raw: Seq<RawToken>| #[trigger]
            highlighted(doc, at, raw) && document_tokens(doc).to_multiset() == raw.to_multiset()
                && document_tokens(doc).len() == raw.len(),
{
    let items = lexed(doc.text);
    let all = highlights(items, outline_of(doc), names_of(doc));
    let raw = raw_tokens(items, outline_of(doc), names_of(doc));
    let at = lemma_present_places(all);
    law_sorted_multiset(raw);
    assert forall|k: int| 0 <= k < at.len() implies items[#[trigger] at[k]] is Some && shown(
        doc,
        at[k],
    ) is Some && stands_for(raw[k], items[at[k]]->0, shown(doc, at[k])->0) by {
        lemma_shown(doc, at[k]);
        assert(all[at[k]] == Some(raw[k]));
    }
    assert forall|i: int| 0 <= i < items.len() && #[trigger] shown(doc, i) is Some implies at.contains(
        i,
    ) by {
        lemma_shown(doc, i);
        assert(all[i] is Some);
    }
    assert(highlighted(doc, at, raw));
}

/// A token that is shown is among the highlighted ones.
pub proof fn law_shown_tokens_are_highlighted(doc: DocumentView, i: int)
    requires
        0 <= i < lexed(doc.text).len(),
        shown(doc, i) is Some,
    ensures
        exists|t: RawToken| #[trigger]
            document_tokens(doc).contains(t) && stands_for(
                t,
                lexed(doc.text)[i]->0,
                shown(doc, i)->0,
            ),
{
    broadcast use vstd::seq_lib::group_to_multiset_ensures;

    law_tokens_are_shown(doc);
    let (at, raw) = choose|at: Seq<int>, raw: Seq<RawToken>| #[trigger]
        highlighted(doc, at, raw) && document_tokens(doc).to_multiset() == raw.to_multiset()
            && document_tokens(doc).len() == raw.len();
    let k = choose|k: int| 0 <= k < at.len() && at[k] == i;
    assert(raw.contains(raw[k]));
    assert(raw.to_multiset().count(raw[k]) > 0);
    assert(document_tokens(doc).contains(raw[k]));
    assert(stands_for(raw[k], lexed(doc.text)[at[k]]->0, shown(doc, at[k])->0));
}

/// Every highlighted token stands for a token of the text that is shown.
pub proof fn law_highlighted_tokens_are_shown(doc: DocumentView, t: RawToken)
    requires
        document_tokens(doc).contains(t),
    ensures
        exists|i: int|
            0 <= i < lexed(doc.text).len() && #[trigger] shown(doc, i) is Some && stands_for(
                t,
                lexed(doc.text)[i]->0,
                shown(doc, i)->0,
            ),
{
    broadcast use vstd::seq_lib::group_to_multiset_ensures;

    law_tokens_are_shown(doc);
    let (at, raw) = choose|at: Seq<int>, raw: Seq<RawToken>| #[trigger]
        highlighted(doc, at, raw) && document_tokens(doc).to_multiset() == raw.to_multiset()
            && document_tokens(doc).len() == raw.len();
    assert(document_tokens(doc).to_multiset().count(t) > 0);
    assert(raw.contains(t));
    let k = choose|k: int| 0 <= k < raw.len() && raw[k] == t;
    assert(shown(doc, at[k]) is Some);
}

/// Highlighted tokens come line by line, and on a line from left to right.
pub proof fn law_tokens_from_top_to_bottom(doc: DocumentView, i: int, j: int)
    requires
        0 <= i < j < document_tokens(doc).len(),
    ensures
        document_tokens(doc)[i].line <= document_tokens(doc)[j].line,
        document_tokens(doc)[i].line == document_tokens(doc)[j].line
            ==> document_tokens(doc)[i].col <= document_tokens(doc)[j].col,
{
    let raw = raw_tokens(lexed(doc.text), outline_of(doc), names_of(doc));
    law_sorted_in_order(raw);
    assert(!sorted(raw)[j].precedes(sorted(raw)[i]));
}

/// A client that adds up what each token is sent with gets back where it stands: the first
/// counts from the start of the document, each other from the one before, and its column from
/// the start of the line where the line is another.
pub proof fn law_tokens_are_sent_as_differences(doc: DocumentView, i: int)
    requires
        0 <= i < document_tokens(doc).len(),
    ensures
        ({
            let v = document_tokens(doc);
            let d = encoded(v)[i];
            let line = if i == 0 {
                0int
            } else {
                v[i - 1].line as int
            };
            let col = if i == 0 {
                0int
            } else {
                v[i - 1].col as int
            };
            &&& encoded(v).len() == v.len()
            &&& line + d.delta_line == v[i].line
            &&& d.delta_line == 0 ==> col + d.delta_start == v[i].col
            &&& d.delta_line != 0 ==> d.delta_start == v[i].col
            &&& d.length == v[i].len
            &&& d.token_type == v[i].token_type
            &&& d.token_modifiers_bitset == v[i].modifiers
        }),
{
    if i > 0 {
        law_tokens_from_top_to_bottom(doc, i - 1, i);
    }
}

} // verus!
