//! Completion of keywords and symbols.

use crate::diagnostics::{offset_at, offset_of};
use crate::document::{Document, DocumentView};
use crate::index::{index_all, indexed_symbol, symbol_from, Kind, KindView, SymbolTable, SymbolView};
use crate::lists::{
    lemma_present_contains, lemma_present_from, lemma_present_order, lemma_present_push, present,
};
use crate::rope::rope_string;
use crate::semantic::names_of;
use crate::sorting::{
    law_sorted_in_order, law_sorted_keeps_order, law_sorted_same_values, sort, sorted, Ranked,
};
use crate::text::{
    is_before, lemma_bytes_asymmetric, lemma_bytes_negatively_transitive, lemma_text_total,
    starts_with, text_before,
};
use crate::types::Position;
use crate::words::{cut_text, has_word_start, start_of_run, word_start};
use vstd::prelude::*;
use vstd::utf8::encode_utf8;

verus! {

/// Kinds of completion.
#[derive(Clone, Copy, PartialEq, Eq, Debug, Structural)]
pub enum ItemKind {
    Keyword,
    Class,
    Function,
    EnumMember,
    Interface,
    Module,
}

/// A suggested completion.
#[derive(PartialEq, Eq, Debug)]
pub struct CompletionItem {
    pub label: String,
    pub kind: ItemKind,
    pub detail: String,
}

/// Contents of a [`CompletionItem`].
pub struct CompletionItemView {
    pub label: Seq<char>,
    pub kind: ItemKind,
    pub detail: Seq<char>,
}

impl View for CompletionItem {
    type V = CompletionItemView;

    open spec fn view(&self) -> CompletionItemView {
        CompletionItemView { label: self.label@, kind: self.kind, detail: self.detail@ }
    }
}

/// Contents of a list of completions.
pub open spec fn item_views(v: Seq<CompletionItem>) -> Seq<CompletionItemView> {
    Seq::new(v.len(), |i: int| v[i]@)
}

impl Ranked for CompletionItem {
    open spec fn precedes(self, other: Self) -> bool {
        text_before(self.label@, other.label@)
    }

    proof fn lemma_asymmetric(a: Self, b: Self) {
        lemma_bytes_asymmetric(encode_utf8(a.label@), encode_utf8(b.label@));
    }

    proof fn lemma_negatively_transitive(a: Self, b: Self, c: Self) {
        lemma_bytes_negatively_transitive(
            encode_utf8(a.label@),
            encode_utf8(b.label@),
            encode_utf8(c.label@),
        );
    }

    fn comes_before(&self, other: &Self) -> (r: bool) {
        is_before(self.label.as_str(), other.label.as_str())
    }
}

// ── Keywords ──────────────────────────────────────────────────────────────────

/// The keywords and what they are shown with.
pub open spec fn keywords() -> Seq<(Seq<char>, Seq<char>)> {
    seq![
        ("concept"@, "Define a concept (class)"@),
        ("property"@, "Define a property (relation)"@),
        ("rule"@, "Define an inference rule"@),
        ("prefix"@, "Declare a prefix alias"@),
        ("sub"@, "Inherit from a parent concept"@),
        ("has"@, "Declare a property slot"@),
        ("match"@, "Match block of an inference rule"@),
        ("then"@, "Then block of an inference rule"@),
        ("one"@, "Cardinality: exactly one"@),
        ("any"@, "Cardinality: zero or more"@),
        ("some"@, "Cardinality: one or more"@),
        ("optional"@, "Cardinality: zero or one"@),
        ("string"@, "Primitive type: string"@),
        ("int"@, "Primitive type: integer"@),
        ("float"@, "Primitive type: floating-point"@),
        ("boolean"@, "Primitive type: boolean"@),
        ("all"@, "Quantifier: for all"@),
        ("none"@, "Quantifier: for none"@),
        ("at_least"@, "Quantifier: at least N"@),
        ("at_most"@, "Quantifier: at most N"@),
        ("exactly"@, "Quantifier: exactly N"@),
        ("between"@, "Quantifier: between M and N"@),
    ]
}

/// The keywords and what they are shown with.
fn keyword_table() -> (r: Vec<(&'static str, &'static str)>)
    ensures
        r@.len() == keywords().len(),
        forall|i: int|
            0 <= i < r@.len() ==> (#[trigger] r@[i]).0@ == keywords()[i].0 && r@[i].1@
                == keywords()[i].1,
{
    vec![
        ("concept", "Define a concept (class)"),
        ("property", "Define a property (relation)"),
        ("rule", "Define an inference rule"),
        ("prefix", "Declare a prefix alias"),
        ("sub", "Inherit from a parent concept"),
        ("has", "Declare a property slot"),
        ("match", "Match block of an inference rule"),
        ("then", "Then block of an inference rule"),
        ("one", "Cardinality: exactly one"),
        ("any", "Cardinality: zero or more"),
        ("some", "Cardinality: one or more"),
        ("optional", "Cardinality: zero or one"),
        ("string", "Primitive type: string"),
        ("int", "Primitive type: integer"),
        ("float", "Primitive type: floating-point"),
        ("boolean", "Primitive type: boolean"),
        ("all", "Quantifier: for all"),
        ("none", "Quantifier: for none"),
        ("at_least", "Quantifier: at least N"),
        ("at_most", "Quantifier: at most N"),
        ("exactly", "Quantifier: exactly N"),
        ("between", "Quantifier: between M and N"),
    ]
}

/// A number that tells the keywords apart: from the first two characters and the length.
spec fn signature(s: Seq<char>) -> int {
    (s[0] as int * 256 + s[1] as int) * 256 + s.len()
}

/// No keyword occurs twice.
pub proof fn lemma_keywords_distinct(i: int, j: int)
    requires
        0 <= i < j < keywords().len(),
    ensures
        keywords()[i].0 != keywords()[j].0,
{
    reveal_strlit("concept");
    reveal_strlit("property");
    reveal_strlit("rule");
    reveal_strlit("prefix");
    reveal_strlit("sub");
    reveal_strlit("has");
    reveal_strlit("match");
    reveal_strlit("then");
    reveal_strlit("one");
    reveal_strlit("any");
    reveal_strlit("some");
    reveal_strlit("optional");
    reveal_strlit("string");
    reveal_strlit("int");
    reveal_strlit("float");
    reveal_strlit("boolean");
    reveal_strlit("all");
    reveal_strlit("none");
    reveal_strlit("at_least");
    reveal_strlit("at_most");
    reveal_strlit("exactly");
    reveal_strlit("between");
    let codes = keywords().map_values(|k: (Seq<char>, Seq<char>)| signature(k.0));
    assert(codes[i] != codes[j]);
}

// ── Suggestions ───────────────────────────────────────────────────────────────

/// The completion for a keyword.
pub open spec fn keyword_item(k: (Seq<char>, Seq<char>)) -> CompletionItemView {
    CompletionItemView { label: k.0, kind: ItemKind::Keyword, detail: k.1 }
}

/// The kind of completion that a symbol is.
pub open spec fn kind_of(kind: KindView) -> ItemKind {
    match kind {
        KindView::Concept => ItemKind::Class,
        KindView::Property => ItemKind::Function,
        KindView::Individual { .. } => ItemKind::EnumMember,
        KindView::Rule => ItemKind::Interface,
        KindView::Prefix => ItemKind::Module,
    }
}

/// The completion for a symbol.
pub open spec fn symbol_item(s: SymbolView) -> CompletionItemView {
    CompletionItemView { label: s.name, kind: kind_of(s.kind), detail: s.detail }
}

/// Whether `item` is a keyword or a known symbol that starts with `start`.
pub open spec fn suggested(
    symbols: Option<SymbolTable>,
    start: Seq<char>,
    item: CompletionItemView,
) -> bool {
    &&& start.is_prefix_of(item.label)
    &&& {
        ||| exists|k: int| 0 <= k < keywords().len() && item == keyword_item(#[trigger] keywords()[k])
        ||| symbols matches Some(t) && t.contains_key(item.label) && item == symbol_item(
            t[item.label],
        )
    }
}

/// Whether `a` is listed before `b`: by label, and a keyword before a symbol of the same
/// name.
pub open spec fn listed_before(a: CompletionItemView, b: CompletionItemView) -> bool {
    ||| text_before(a.label, b.label)
    ||| a.label == b.label && a.kind == ItemKind::Keyword && b.kind != ItemKind::Keyword
}

/// Whether `items` are the completions at `pos`: everything that is suggested there, once,
/// in order.
pub open spec fn completes(
    doc: DocumentView,
    pos: Position,
    items: Seq<CompletionItemView>,
) -> bool {
    let start = word_start(doc.text, offset_at(doc.text, pos));
    &&& forall|item: CompletionItemView| #[trigger]
        items.contains(item) <==> suggested(names_of(doc), start, item)
    &&& forall|i: int, j: int|
        0 <= i < j < items.len() ==> listed_before(#[trigger] items[i], #[trigger] items[j])
}

/// The kind of completion that a symbol is.
pub fn symbol_kind(kind: &Kind) -> (r: ItemKind)
    ensures
        r == kind_of(kind@),
{
    match kind {
        Kind::Concept => ItemKind::Class,
        Kind::Property => ItemKind::Function,
        Kind::Individual { .. } => ItemKind::EnumMember,
        Kind::Rule => ItemKind::Interface,
        Kind::Prefix => ItemKind::Module,
    }
}

/// The part of a word that ends before a byte offset.
pub fn partial_word(source: &str, byte_offset: usize) -> (r: &str)
    requires
        byte_offset <= encode_utf8(source@).len(),
        has_word_start(source@, byte_offset as int),
    ensures
        r@ == word_start(source@, byte_offset as int),
{
    let start: usize = start_of_run(source, byte_offset);
    cut_text(source, start, byte_offset)
}

/// For each keyword, its completion if it starts with `start`.
spec fn keyword_options(start: Seq<char>) -> Seq<Option<CompletionItemView>> {
    Seq::new(
        keywords().len(),
        |k: int|
            if start.is_prefix_of(keywords()[k].0) {
                Some(keyword_item(keywords()[k]))
            } else {
                None
            },
    )
}

/// The keywords that start with `start`.
fn keyword_items(start: &str) -> (r: Vec<CompletionItem>)
    ensures
        item_views(r@) == present(keyword_options(start@)),
{
    let table = keyword_table();
    let mut items: Vec<CompletionItem> = Vec::new();
    let ghost all = keyword_options(start@);
    let mut i: usize = 0;
    assert(item_views(items@) =~= present(all.take(0)));
    while i < table.len()
        invariant
            i <= table.len(),
            table@.len() == keywords().len(),
            forall|i: int|
                0 <= i < table@.len() ==> (#[trigger] table@[i]).0@ == keywords()[i].0
                    && table@[i].1@ == keywords()[i].1,
            all == keyword_options(start@),
            item_views(items@) == present(all.take(i as int)),
        decreases table.len() - i,
    {
        proof {
            assert(all.take(i + 1) =~= all.take(i as int).push(all[i as int]));
            lemma_present_push(all.take(i as int), all[i as int]);
        }
        let ghost before = items@;
        let (kw, detail) = table[i];
        if starts_with(kw, start) {
            let item = CompletionItem {
                label: kw.to_owned(),
                kind: ItemKind::Keyword,
                detail: detail.to_owned(),
            };
            items.push(item);
            assert(item_views(items@) =~= item_views(before).push(item@));
        }
        i = i + 1;
    }
    assert(all.take(all.len() as int) =~= all);
    items
}

/// For each symbol, its completion if it starts with `start`.
spec fn symbol_options(v: Seq<&dolfin_analysis::Symbol>, start: Seq<char>) -> Seq<
    Option<CompletionItemView>,
> {
    Seq::new(
        v.len(),
        |i: int|
            if start.is_prefix_of(indexed_symbol(*v[i]).name) {
                Some(symbol_item(indexed_symbol(*v[i])))
            } else {
                None
            },
    )
}

/// The symbols of a list that start with `start`.
fn symbol_items(symbols: &Vec<&dolfin_analysis::Symbol>, start: &str) -> (r: Vec<CompletionItem>)
    ensures
        item_views(r@) == present(symbol_options(symbols@, start@)),
{
    let mut items: Vec<CompletionItem> = Vec::new();
    let ghost all = symbol_options(symbols@, start@);
    let mut i: usize = 0;
    assert(item_views(items@) =~= present(all.take(0)));
    while i < symbols.len()
        invariant
            i <= symbols.len(),
            all == symbol_options(symbols@, start@),
            item_views(items@) == present(all.take(i as int)),
        decreases symbols.len() - i,
    {
        proof {
            assert(all.take(i + 1) =~= all.take(i as int).push(all[i as int]));
            lemma_present_push(all.take(i as int), all[i as int]);
        }
        let ghost before = items@;
        let sym = symbol_from(symbols[i]);
        if starts_with(sym.name.as_str(), start) {
            let item = CompletionItem {
                kind: symbol_kind(&sym.kind),
                label: sym.name,
                detail: sym.detail,
            };
            items.push(item);
            assert(item_views(items@) =~= item_views(before).push(item@));
        }
        i = i + 1;
    }
    assert(all.take(all.len() as int) =~= all);
    items
}

/// Whether a list holds every symbol of a table once.
spec fn lists_table(v: Seq<&dolfin_analysis::Symbol>, t: SymbolTable) -> bool {
    &&& forall|i: int|
        0 <= i < v.len() ==> {
            let s = indexed_symbol(*#[trigger] v[i]);
            t.contains_key(s.name) && t[s.name] == s
        }
    &&& forall|n: Seq<char>| #[trigger]
        t.contains_key(n) ==> exists|i: int|
            0 <= i < v.len() && indexed_symbol(*#[trigger] v[i]).name == n
    &&& forall|i: int, j: int|
        0 <= i < j < v.len() ==> indexed_symbol(*#[trigger] v[i]).name != indexed_symbol(
            *#[trigger] v[j],
        ).name
}

/// What is suggested is what the keywords and the symbols of the table give.
proof fn lemma_suggested(
    v: Seq<&dolfin_analysis::Symbol>,
    symbols: Option<SymbolTable>,
    start: Seq<char>,
    item: CompletionItemView,
)
    requires
        match symbols {
            Some(t) => lists_table(v, t),
            None => v.len() == 0,
        },
    ensures
        suggested(symbols, start, item) <==> present(keyword_options(start)).contains(item)
            || present(symbol_options(v, start)).contains(item),
{
    let ks = keyword_options(start);
    let ss = symbol_options(v, start);
    lemma_present_contains(ks, item);
    lemma_present_contains(ss, item);
    if suggested(symbols, start, item) {
        if exists|k: int| 0 <= k < keywords().len() && item == keyword_item(#[trigger] keywords()[k]) {
            let k = choose|k: int|
                0 <= k < keywords().len() && item == keyword_item(#[trigger] keywords()[k]);
            assert(ks[k] == Some(item));
        } else {
            let t = symbols->0;
            assert(t.contains_key(item.label));
            let i = choose|i: int|
                0 <= i < v.len() && indexed_symbol(*#[trigger] v[i]).name == item.label;
            assert(ss[i] == Some(item));
        }
    }
    if ks.contains(Some(item)) {
        let k = choose|k: int| 0 <= k < ks.len() && ks[k] == Some(item);
        assert(item == keyword_item(keywords()[k]));
    }
    if ss.contains(Some(item)) {
        let i = choose|i: int| 0 <= i < ss.len() && ss[i] == Some(item);
        let s = indexed_symbol(*v[i]);
        assert(symbols->0.contains_key(s.name));
    }
}

/// Sorting keywords followed by symbols lists each item once and in order.
proof fn lemma_listed(
    v: Seq<&dolfin_analysis::Symbol>,
    t: SymbolTable,
    start: Seq<char>,
    keys: Seq<CompletionItem>,
    syms: Seq<CompletionItem>,
    i: int,
    j: int,
)
    requires
        v.len() > 0 ==> lists_table(v, t),
        item_views(keys) == present(keyword_options(start)),
        item_views(syms) == present(symbol_options(v, start)),
        0 <= i < j < sorted(keys + syms).len(),
    ensures
        listed_before(sorted(keys + syms)[i]@, sorted(keys + syms)[j]@),
{
    let all = keys + syms;
    let out = sorted(all);
    let a = out[i];
    let b = out[j];
    law_sorted_in_order(all);
    assert(!b.precedes(a));
    if !a.precedes(b) {
        lemma_text_total(a.label@, b.label@);
        let (p, q) = law_sorted_keeps_order(all, i, j);
        let ks = keyword_options(start);
        let ss = symbol_options(v, start);
        let n = keys.len();
        if q < n {
            let (x, y) = lemma_present_order(ks, p, q);
            assert(item_views(keys)[p] == a@ && item_views(keys)[q] == b@);
            lemma_keywords_distinct(x, y);
        } else if p >= n {
            let (x, y) = lemma_present_order(ss, p - n, q - n);
            assert(item_views(syms)[p - n] == a@ && item_views(syms)[q - n] == b@);
            assert(indexed_symbol(*v[x]).name != indexed_symbol(*v[y]).name);
        } else {
            let x = lemma_present_from(ks, p);
            let y = lemma_present_from(ss, q - n);
            assert(item_views(keys)[p] == a@);
            assert(item_views(syms)[q - n] == b@);
        }
    }
}

/// The completions at `pos`.
pub fn provide(doc: &Document, pos: Position) -> (r: Vec<CompletionItem>)
    requires
        has_word_start(doc@.text, offset_at(doc@.text, pos)),
    ensures
        completes(doc@, pos, item_views(r@)),
{
    let byte_offset: usize = offset_of(&doc.rope, pos);
    let source = rope_string(&doc.rope);
    let start = partial_word(source.as_str(), byte_offset);
    let mut items = keyword_items(start);
    let symbols: Vec<&dolfin_analysis::Symbol> = match &doc.analysis {
        Some(a) => index_all(&a.index),
        None => Vec::new(),
    };
    let mut found = symbol_items(&symbols, start);
    let ghost keys = items@;
    let ghost syms = found@;
    items.append(&mut found);
    let out = sort(items);
    proof {
        let table = names_of(doc@);
        let t = match table {
            Some(t) => t,
            None => Map::empty(),
        };
        assert(symbols@.len() > 0 ==> lists_table(symbols@, t));
        let views = item_views(out@);
        assert forall|item: CompletionItemView| #[trigger]
            views.contains(item) <==> suggested(table, start@, item) by {
            lemma_suggested(symbols@, table, start@, item);
            lemma_views_sorted(keys, syms, item);
        }
        assert forall|i: int, j: int| 0 <= i < j < views.len() implies listed_before(
            #[trigger] views[i],
            #[trigger] views[j],
        ) by {
            lemma_listed(symbols@, t, start@, keys, syms, i, j);
        }
    }
    out
}

/// The views of a sorted list are those of its parts.
proof fn lemma_views_sorted(
    keys: Seq<CompletionItem>,
    syms: Seq<CompletionItem>,
    item: CompletionItemView,
)
    ensures
        item_views(sorted(keys + syms)).contains(item) <==> item_views(keys).contains(item)
            || item_views(syms).contains(item),
{
    let all = keys + syms;
    let out = sorted(all);
    if item_views(out).contains(item) {
        let i = choose|i: int| 0 <= i < out.len() && item_views(out)[i] == item;
        law_sorted_same_values(all, out[i]);
        assert(out.contains(out[i]));
        let k = choose|k: int| 0 <= k < all.len() && all[k] == out[i];
        if k < keys.len() {
            assert(item_views(keys)[k] == item);
        } else {
            assert(item_views(syms)[k - keys.len()] == item);
        }
    }
    if item_views(keys).contains(item) || item_views(syms).contains(item) {
        let k = if item_views(keys).contains(item) {
            choose|k: int| 0 <= k < keys.len() && item_views(keys)[k] == item
        } else {
            keys.len() + choose|k: int| 0 <= k < syms.len() && item_views(syms)[k] == item
        };
        law_sorted_same_values(all, all[k]);
        assert(all.contains(all[k]));
        let i = choose|i: int| 0 <= i < out.len() && out[i] == all[k];
        assert(item_views(out)[i] == item);
    }
}

// ── Laws ──────────────────────────────────────────────────────────────────────

/// Of two completions at most one is listed before the other.
proof fn lemma_listed_asymmetric(a: CompletionItemView, b: CompletionItemView)
    requires
        listed_before(a, b),
    ensures
        !listed_before(b, a),
{
    if text_before(a.label, b.label) {
        lemma_bytes_asymmetric(encode_utf8(a.label), encode_utf8(b.label));
    }
    if text_before(b.label, a.label) {
        lemma_bytes_asymmetric(encode_utf8(b.label), encode_utf8(a.label));
    }
}

/// The completions at a position do not depend on the order in which the index hands out
/// its symbols: there is only one list of them.
pub proof fn law_completion_unique(
    doc: DocumentView,
    pos: Position,
    a: Seq<CompletionItemView>,
    b: Seq<CompletionItemView>,
)
    requires
        completes(doc, pos, a),
        completes(doc, pos, b),
    ensures
        a == b,
{
    lemma_same_up_to(doc, pos, a, b, a.len() as int);
    lemma_same_up_to(doc, pos, b, a, b.len() as int);
    assert(a =~= b);
}

/// Two lists of the completions agree on the places below `n`.
proof fn lemma_same_up_to(
    doc: DocumentView,
    pos: Position,
    a: Seq<CompletionItemView>,
    b: Seq<CompletionItemView>,
    n: int,
)
    requires
        completes(doc, pos, a),
        completes(doc, pos, b),
        0 <= n <= a.len(),
    ensures
        n <= b.len(),
        forall|i: int| 0 <= i < n ==> a[i] == b[i],
    decreases n,
{
    if n > 0 {
        lemma_same_up_to(doc, pos, a, b, n - 1);
        let i = n - 1;
        assert(a.contains(a[i]));
        assert(b.contains(a[i]));
        let m = choose|m: int| 0 <= m < b.len() && b[m] == a[i];
        if m < i {
            assert(listed_before(a[m], a[i]));
            lemma_listed_asymmetric(a[m], a[i]);
        }
        if a[i] != b[i] {
            assert(listed_before(b[i], b[m]));
            assert(b.contains(b[i]));
            assert(a.contains(b[i]));
            let k = choose|k: int| 0 <= k < a.len() && a[k] == b[i];
            if k < i {
                assert(listed_before(b[k], b[i]));
                lemma_listed_asymmetric(b[k], b[i]);
            } else {
                assert(listed_before(a[i], a[k]));
                lemma_listed_asymmetric(a[i], a[k]);
            }
        }
    }
}

} // verus!
