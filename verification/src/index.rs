//! The workspace symbol index: `dolfin_analysis::SymbolIndex`.
//!
//! The index keeps the symbols of every indexed file and a merged table that lookups
//! go to. It is modelled by these two maps.

use crate::ast::{opt_span, span_from};
use crate::text::opt_text;
use crate::types::SourceSpan;
use dolfin_analysis::SymbolIndex;
use vstd::prelude::*;

verus! {

// ── Plain symbols ─────────────────────────────────────────────────────────────

/// What a symbol stands for.
#[derive(PartialEq, Eq, Debug)]
pub enum Kind {
    Concept,
    Property,
    Rule,
    Prefix,
    /// A named individual of the concept `parent`.
    Individual { parent: String },
}

/// A declared symbol.
#[derive(PartialEq, Eq, Debug)]
pub struct SymbolInfo {
    pub name: String,
    pub kind: Kind,
    pub definition: Option<SourceSpan>,
    pub detail: String,
    pub file: Option<String>,
}

/// Contents of a [`Kind`].
pub enum KindView {
    Concept,
    Property,
    Rule,
    Prefix,
    Individual { parent: Seq<char> },
}

/// Contents of a [`SymbolInfo`].
pub struct SymbolView {
    pub name: Seq<char>,
    pub kind: KindView,
    pub definition: Option<SourceSpan>,
    pub detail: Seq<char>,
    pub file: Option<Seq<char>>,
}

impl View for Kind {
    type V = KindView;

    open spec fn view(&self) -> KindView {
        match *self {
            Kind::Concept => KindView::Concept,
            Kind::Property => KindView::Property,
            Kind::Rule => KindView::Rule,
            Kind::Prefix => KindView::Prefix,
            Kind::Individual { parent } => KindView::Individual { parent: parent@ },
        }
    }
}

impl View for SymbolInfo {
    type V = SymbolView;

    open spec fn view(&self) -> SymbolView {
        SymbolView {
            name: self.name@,
            kind: self.kind@,
            definition: self.definition,
            detail: self.detail@,
            file: opt_text(self.file),
        }
    }
}

// ── Model of the index ────────────────────────────────────────────────────────

/// Symbols by name.
pub type SymbolTable = Map<Seq<char>, SymbolView>;

/// The contents of a symbol index: the symbols of each file, by file, and the merged
/// table that lookups read.
pub struct IndexView {
    pub files: Map<Seq<char>, SymbolTable>,
    pub symbols: SymbolTable,
}

/// Whether some file declares `name`.
pub open spec fn declared(files: Map<Seq<char>, SymbolTable>, name: Seq<char>) -> bool {
    exists|path: Seq<char>| #[trigger] files.contains_key(path) && files[path].contains_key(name)
}

impl IndexView {
    /// The index of no file.
    pub open spec fn empty() -> IndexView {
        IndexView { files: Map::empty(), symbols: Map::empty() }
    }

    /// The index without the file `path`: the names that only it declares leave the
    /// merged table.
    pub open spec fn without(self, path: Seq<char>) -> IndexView {
        if self.files.contains_key(path) {
            let rest = self.files.remove(path);
            IndexView {
                files: rest,
                symbols: Map::new(
                    |n: Seq<char>|
                        self.symbols.contains_key(n) && (self.files[path].contains_key(n)
                            ==> declared(rest, n)),
                    |n: Seq<char>| self.symbols[n],
                ),
            }
        } else {
            self
        }
    }

    /// The index with the symbols of `path` replaced by `table`.
    pub open spec fn with(self, path: Seq<char>, table: SymbolTable) -> IndexView {
        let base = self.without(path);
        IndexView {
            files: base.files.insert(path, table),
            symbols: base.symbols.union_prefer_right(table),
        }
    }

    /// The merged table holds exactly the names that some indexed file declares.
    pub open spec fn merged(self) -> bool {
        forall|n: Seq<char>| #[trigger] self.symbols.contains_key(n) <==> declared(self.files, n)
    }
}

// ── Outside types ─────────────────────────────────────────────────────────────

/// `dolfin_analysis::SymbolIndex`, opaque.
#[verifier::external_type_specification]
#[verifier::external_body]
pub struct ExSymbolIndex(dolfin_analysis::SymbolIndex);

/// `dolfin_analysis::Symbol`, opaque.
#[verifier::external_type_specification]
#[verifier::external_body]
pub struct ExSymbol(dolfin_analysis::Symbol);

/// The symbols that a `SymbolIndex` keeps for each file.
pub uninterp spec fn index_files(index: SymbolIndex) -> Map<Seq<char>, Map<Seq<char>, SymbolView>>;

/// The merged table of a `SymbolIndex`.
pub uninterp spec fn index_symbols(index: SymbolIndex) -> Map<Seq<char>, SymbolView>;

/// The symbols that `SymbolIndex::add_file` takes from a parsed file under a path: its
/// prefixes, concepts, individuals, properties and rules, and all of these but prefixes and
/// dotted names once more behind the stem of the path, as `stem.name`.
pub uninterp spec fn symbols_of(
    path: Seq<char>,
    file: rowl::ast::OntologyFile,
) -> Map<Seq<char>, SymbolView>;

/// The fields of a `dolfin_analysis::Symbol`.
pub uninterp spec fn indexed_symbol(s: dolfin_analysis::Symbol) -> SymbolView;

/// The contents of a `SymbolIndex`.
pub open spec fn index_view(index: SymbolIndex) -> IndexView {
    IndexView { files: index_files(index), symbols: index_symbols(index) }
}

/// Borrowed fields of a symbol.
pub struct SymbolParts<'a> {
    pub name: &'a String,
    pub kind: Kind,
    pub definition: &'a Option<rowl::error::Span>,
    pub detail: &'a String,
    pub file: &'a Option<String>,
}

impl<'a> SymbolParts<'a> {
    /// The contents that the fields make up.
    pub open spec fn contents(self) -> SymbolView {
        SymbolView {
            name: self.name@,
            kind: self.kind@,
            definition: opt_span(*self.definition),
            detail: self.detail@,
            file: opt_text(*self.file),
        }
    }
}

// ── Index operations ──────────────────────────────────────────────────────────

/// `SymbolIndex::default` is the index of no file.
#[verifier::external_body]
pub(crate) fn empty_index() -> (r: SymbolIndex)
    ensures
        index_files(r) == IndexView::empty().files,
        index_symbols(r) == IndexView::empty().symbols,
{
    SymbolIndex::default()
}

/// `SymbolIndex::add_file` replaces the symbols of a path and merges the new ones, which
/// win over symbols of the same name from other files.
#[verifier::external_body]
pub(crate) fn index_add(index: &mut SymbolIndex, path: &str, file: &rowl::ast::OntologyFile)
    ensures
        index_files(*final(index)) == index_view(*old(index)).with(
            path@,
            symbols_of(path@, *file),
        ).files,
        index_symbols(*final(index)) == index_view(*old(index)).with(
            path@,
            symbols_of(path@, *file),
        ).symbols,
{
    index.add_file(path, file)
}

/// `SymbolIndex::remove_file` drops the symbols of a path; a name that another file also
/// declares keeps its entry in the merged table.
#[verifier::external_body]
pub(crate) fn index_remove(index: &mut SymbolIndex, path: &str)
    ensures
        index_files(*final(index)) == index_view(*old(index)).without(path@).files,
        index_symbols(*final(index)) == index_view(*old(index)).without(path@).symbols,
{
    index.remove_file(path)
}

/// `SymbolIndex::get` looks a name up in the merged table.
#[verifier::external_body]
pub(crate) fn index_get<'a>(index: &'a SymbolIndex, name: &str) -> (r: Option<
    &'a dolfin_analysis::Symbol,
>)
    ensures
        match r {
            Some(s) => index_symbols(*index).contains_key(name@) && index_symbols(*index)[name@]
                == indexed_symbol(*s),
            None => !index_symbols(*index).contains_key(name@),
        },
{
    index.get(name)
}

/// `SymbolIndex::iter` hands out every symbol of the merged table once, in no particular
/// order; the table holds a symbol under its own name.
#[verifier::external_body]
pub(crate) fn index_all(index: &SymbolIndex) -> (r: Vec<&dolfin_analysis::Symbol>)
    ensures
        forall|i: int|
            0 <= i < r@.len() ==> {
                let s = indexed_symbol(*#[trigger] r@[i]);
                index_symbols(*index).contains_key(s.name) && index_symbols(*index)[s.name] == s
            },
        forall|n: Seq<char>| #[trigger]
            index_symbols(*index).contains_key(n) ==> exists|i: int|
                0 <= i < r@.len() && indexed_symbol(*#[trigger] r@[i]).name == n,
        forall|i: int, j: int|
            0 <= i < j < r@.len() ==> indexed_symbol(*#[trigger] r@[i]).name != indexed_symbol(
                *#[trigger] r@[j],
            ).name,
{
    index.iter().collect()
}

/// Reads the public fields of a `dolfin_analysis::Symbol`.
#[verifier::external_body]
pub(crate) fn symbol_parts(s: &dolfin_analysis::Symbol) -> (r: SymbolParts<'_>)
    ensures
        r.contents() == indexed_symbol(*s),
{
    let kind = match &s.kind {
        dolfin_analysis::SymbolKind::Concept => Kind::Concept,
        dolfin_analysis::SymbolKind::Property => Kind::Property,
        dolfin_analysis::SymbolKind::Rule => Kind::Rule,
        dolfin_analysis::SymbolKind::Prefix => Kind::Prefix,
        dolfin_analysis::SymbolKind::Individual { parent } => {
            Kind::Individual { parent: parent.clone() }
        },
    };
    SymbolParts { name: &s.name, kind, definition: &s.definition_span, detail: &s.detail, file: &s.file }
}

/// The plain value of a symbol.
pub fn symbol_from(s: &dolfin_analysis::Symbol) -> (r: SymbolInfo)
    ensures
        r@ == indexed_symbol(*s),
{
    let p = symbol_parts(s);
    let file: Option<String> = match p.file {
        Some(f) => Some(f.clone()),
        None => None,
    };
    SymbolInfo {
        name: p.name.clone(),
        kind: p.kind,
        definition: span_from(p.definition),
        detail: p.detail.clone(),
        file,
    }
}

/// The entry for `name` in an index, if it has one.
pub open spec fn lookup_in(symbols: SymbolTable, name: Seq<char>) -> Option<SymbolView> {
    if symbols.contains_key(name) {
        Some(symbols[name])
    } else {
        None
    }
}

/// Looks `name` up in the merged table.
pub fn lookup(index: &SymbolIndex, name: &str) -> (r: Option<SymbolInfo>)
    ensures
        match r {
            Some(s) => lookup_in(index_symbols(*index), name@) == Some(s@),
            None => lookup_in(index_symbols(*index), name@) is None,
        },
{
    match index_get(index, name) {
        Some(s) => Some(symbol_from(s)),
        None => None,
    }
}

// ── Laws of the index ─────────────────────────────────────────────────────────

/// Removing a file keeps the merged table in step with the files.
pub proof fn law_without_merged(ix: IndexView, path: Seq<char>)
    requires
        ix.merged(),
    ensures
        ix.without(path).merged(),
{
    if ix.files.contains_key(path) {
        let rest = ix.files.remove(path);
        let w = ix.without(path);
        assert forall|n: Seq<char>| #[trigger]
            w.symbols.contains_key(n) <==> declared(w.files, n) by {
            if w.symbols.contains_key(n) {
                assert(ix.symbols.contains_key(n));
                let p = choose|p: Seq<char>| #[trigger]
                    ix.files.contains_key(p) && ix.files[p].contains_key(n);
                if p != path {
                    assert(rest.contains_key(p));
                }
            }
            if declared(rest, n) {
                let p = choose|p: Seq<char>| #[trigger]
                    rest.contains_key(p) && rest[p].contains_key(n);
                assert(ix.files.contains_key(p));
                assert(ix.symbols.contains_key(n));
            }
        }
    }
}

/// Adding a file keeps the merged table in step with the files.
pub proof fn law_with_merged(ix: IndexView, path: Seq<char>, table: SymbolTable)
    requires
        ix.merged(),
    ensures
        ix.with(path, table).merged(),
{
    law_without_merged(ix, path);
    let base = ix.without(path);
    let w = ix.with(path, table);
    assert forall|n: Seq<char>| #[trigger]
        w.symbols.contains_key(n) <==> declared(w.files, n) by {
        if table.contains_key(n) {
            assert(w.files.contains_key(path));
        } else {
            if base.symbols.contains_key(n) {
                let p = choose|p: Seq<char>| #[trigger]
                    base.files.contains_key(p) && base.files[p].contains_key(n);
                assert(w.files.contains_key(p));
            }
            if declared(w.files, n) {
                let p = choose|p: Seq<char>| #[trigger]
                    w.files.contains_key(p) && w.files[p].contains_key(n);
                assert(p != path);
                assert(base.files.contains_key(p));
            }
        }
    }
}

} // verus!
