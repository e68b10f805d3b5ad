//! References, renames, definitions and lenses: where symbols are declared and used.

use crate::ast::{file_decls, FileTreeView};
use crate::checks::references_in;
use crate::codelens::{declaration_lenses, lenses, CodeLensView};
use crate::diagnostics::{offset_at, position_of, range_of};
use crate::dispatch::references_to;
use crate::document::DocumentView;
use crate::edits::{edits_for, EditView};
use crate::goto::definition;
use crate::index::SymbolView;
use crate::keyed::get;
use crate::laws::shared::{last_segment_of, lemma_present_places, picks};
use crate::layout::laid_out;
use crate::lexer::{lexed, LexemeView, ScannedView};
use crate::lists::{lemma_concat_contains, lemma_present_contains, present};
use crate::places::{name_in, place_at, places_at, places_in};
use crate::references::{found, found_in, places, target, FileRangeView};
use crate::rename::{
    declares, declaring, law_rename_edits_every_site, rename_changes, rename_sites, renamed,
    replacements, simple_name, wants_edit,
};
use crate::syntax::DeclView;
use crate::text::decimal_text;
use crate::types::{Position, SourceSpan};
use crate::uri::url_parse;
use crate::words::word;
use crate::workspace::{known_files, WorldView};
use vstd::prelude::*;

verus! {

// ── The symbol at a position ──────────────────────────────────────────────────

/// The symbol that a table has for the word at a position of an analysed document.
pub open spec fn symbol_there(doc: DocumentView, pos: Position, s: SymbolView) -> bool {
    let w = word(doc.text, offset_at(doc.text, pos));
    doc.analysis matches Some(a) && w.len() > 0 && a.index.symbols.contains_pair(w, s)
}

/// References and renames are about the name of the symbol whose name stands at the cursor.
pub proof fn law_target_is_the_symbol_there(doc: DocumentView, pos: Position, name: Seq<char>)
    ensures
        target(doc, pos) == Some(name) <==> exists|s: SymbolView| #[trigger]
            symbol_there(doc, pos, s) && s.name == name,
{
    let w = word(doc.text, offset_at(doc.text, pos));
    if target(doc, pos) == Some(name) {
        let s = doc.analysis->0.index.symbols[w];
        assert(symbol_there(doc, pos, s));
    }
}

/// A definition is where the symbol at the cursor is declared: in the file that the symbol
/// names, if that is a URL, else in the document itself.
pub proof fn law_definition_is_the_declaration(
    doc: DocumentView,
    uri: Seq<char>,
    pos: Position,
    p: FileRangeView,
)
    ensures
        definition(doc, uri, pos) == Some(p) <==> exists|s: SymbolView| #[trigger]
            symbol_there(doc, pos, s) && (s.definition matches Some(span) && p.range == range_of(
                span,
            )) && (if s.file is Some && url_parse(s.file->0) is Some {
                url_parse(s.file->0) == Some(p.uri)
            } else {
                p.uri == uri
            }),
{
    let w = word(doc.text, offset_at(doc.text, pos));
    if definition(doc, uri, pos) == Some(p) {
        let s = doc.analysis->0.index.symbols[w];
        assert(symbol_there(doc, pos, s));
    }
}

// ── References ────────────────────────────────────────────────────────────────

/// How many references to `name` can be shown in a list of files.
pub open spec fn use_count(files: Seq<FileTreeView>, name: Seq<char>) -> nat
    decreases files.len(),
{
    if files.len() == 0 {
        0
    } else {
        use_count(files.drop_last(), name) + if url_parse(files.last().key) is Some {
            references_in(files.last().tree, name).len()
        } else {
            0
        }
    }
}

/// Whether `p` is the place of a reference to `name` in a file.
pub open spec fn used_at(file: FileTreeView, name: Seq<char>, p: FileRangeView) -> bool {
    &&& url_parse(file.key) == Some(p.uri)
    &&& exists|s: SourceSpan| #[trigger]
        references_in(file.tree, name).contains(s) && p.range == range_of(s)
}

/// Whether reference `k` of file `i` stands in the list `v`, behind the references of the files
/// before it.
pub open spec fn lists_use(
    v: Seq<FileRangeView>,
    files: Seq<FileTreeView>,
    name: Seq<char>,
    i: int,
    k: int,
) -> bool {
    let p = use_count(files.take(i), name) + k;
    &&& 0 <= p < v.len()
    &&& url_parse(files[i].key) == Some(v[p].uri)
    &&& v[p].range == range_of(references_in(files[i].tree, name)[k])
}

/// Whether `v` lists the references to `name` in all files: each file's references stand in
/// their order behind those of the files before it, and there are no others.
pub open spec fn lists_uses(v: Seq<FileRangeView>, files: Seq<FileTreeView>, name: Seq<char>) -> bool {
    &&& v.len() == use_count(files, name)
    &&& forall|i: int, k: int|
        0 <= i < files.len() && url_parse(files[i].key) is Some && 0 <= k < references_in(
            files[i].tree,
            name,
        ).len() ==> #[trigger] lists_use(v, files, name, i, k)
    &&& forall|p: FileRangeView| #[trigger]
        v.contains(p) <==> exists|i: int| 0 <= i < files.len() && used_at(#[trigger] files[i], name, p)
}

/// A search lists the references of all files.
proof fn lemma_found_lists_uses(files: Seq<FileTreeView>, name: Seq<char>)
    ensures
        lists_uses(found(files, name), files, name),
    decreases files.len(),
{
    let v = found(files, name);
    if files.len() > 0 {
        let rest = files.drop_last();
        let last = files.last();
        lemma_found_lists_uses(rest, name);
        let before = found(rest, name);
        let here = found_in(last, name);
        assert(v == before + here);
        assert forall|i: int, k: int|
            0 <= i < files.len() && url_parse(files[i].key) is Some && 0 <= k < references_in(
                files[i].tree,
                name,
            ).len() implies #[trigger] lists_use(v, files, name, i, k) by {
            if i < rest.len() {
                assert(rest.take(i) =~= files.take(i));
                assert(rest[i] == files[i]);
                assert(lists_use(before, rest, name, i, k));
            } else {
                assert(files.take(i) =~= rest);
                assert(here[k] == v[before.len() + k]);
            }
        }
        assert forall|p: FileRangeView| #[trigger]
            v.contains(p) <==> exists|i: int|
                0 <= i < files.len() && used_at(#[trigger] files[i], name, p) by {
            lemma_concat_contains(before, here, p);
            assert(here.contains(p) <==> used_at(last, name, p)) by {
                let refs = references_in(last.tree, name);
                if here.contains(p) {
                    let k = choose|k: int| 0 <= k < here.len() && here[k] == p;
                    assert(refs.contains(refs[k]));
                }
                if used_at(last, name, p) {
                    let s = choose|s: SourceSpan| #[trigger]
                        refs.contains(s) && p.range == range_of(s);
                    let k = choose|k: int| 0 <= k < refs.len() && refs[k] == s;
                    assert(here[k] == p);
                }
            }
            if before.contains(p) {
                let i = choose|i: int| 0 <= i < rest.len() && used_at(#[trigger] rest[i], name, p);
                assert(used_at(files[i], name, p));
            }
            if here.contains(p) {
                assert(used_at(files[files.len() - 1], name, p));
            }
            if exists|i: int| 0 <= i < files.len() && used_at(#[trigger] files[i], name, p) {
                let i = choose|i: int| 0 <= i < files.len() && used_at(#[trigger] files[i], name, p);
                if i < rest.len() {
                    assert(used_at(rest[i], name, p));
                }
            }
        }
        assert(v.len() == use_count(files, name));
    } else {
        assert(v =~= Seq::empty());
    }
}

/// The answer to a request for references holds every reference to the symbol at the cursor in
/// every known file, each once and file by file; without any the answer is empty.
pub proof fn law_references_are_all_uses(
    w: WorldView,
    uri: Seq<char>,
    d: DocumentView,
    pos: Position,
    name: Seq<char>,
)
    requires
        get(w.docs, uri) == Some(d),
        target(d, pos) == Some(name),
    ensures
        match references_to(w, uri, pos) {
            Some(v) => v.len() > 0 && lists_uses(v, known_files(w), name),
            None => use_count(known_files(w), name) == 0,
        },
{
    lemma_found_lists_uses(known_files(w), name);
}

/// Where there is no symbol at the cursor, there are no references.
pub proof fn law_no_references_without_symbol(w: WorldView, uri: Seq<char>, pos: Position)
    requires
        get(w.docs, uri) matches Some(d) ==> target(d, pos) is None,
    ensures
        references_to(w, uri, pos) is None,
{
}

// ── Lenses ────────────────────────────────────────────────────────────────────

/// Whether a declaration is named `name` and stands at `span`; facts have no name to count.
pub open spec fn stands_at(d: DeclView, name: Seq<char>, span: SourceSpan) -> bool {
    match d {
        DeclView::Concept(c) => c.name == name && c.span == Some(span),
        DeclView::Property(p) => p.name == name && p.span == Some(span),
        DeclView::Rule(r) => r.name == name && r.span == Some(span),
        DeclView::Fact(_) => false,
    }
}

/// Whether a lens belongs to a declaration named `name` at `span`: it stands at the start of
/// the line, counts all references to the name in words, and shows them.
pub open spec fn lens_counts(
    lens: CodeLensView,
    files: Seq<FileTreeView>,
    uri: Seq<char>,
    name: Seq<char>,
    span: SourceSpan,
) -> bool {
    let n = use_count(files, name);
    &&& lens.range.start == (Position { line: position_of(span.start).line, character: 0 })
    &&& lens.range.end == lens.range.start
    &&& lens.command.title == if n == 1 {
        "1 reference"@
    } else {
        decimal_text(n) + " references"@
    }
    &&& lens.command.command == "editor.action.showReferences"@
    &&& lens.command.uri == uri
    &&& lens.command.position == position_of(span.start)
    &&& lists_uses(lens.command.locations, files, name)
}

/// Whether a lens belongs to a declaration.
pub open spec fn lens_of_declaration(
    lens: CodeLensView,
    d: DeclView,
    files: Seq<FileTreeView>,
    uri: Seq<char>,
) -> bool {
    exists|name: Seq<char>, span: SourceSpan|
        stands_at(d, name, span) && #[trigger] lens_counts(lens, files, uri, name, span)
}

/// Whether the lenses of a document are those of the declarations at the places `at`: of the
/// concepts, properties and rules that have a place.
pub open spec fn lens_places(
    at: Seq<int>,
    v: Seq<CodeLensView>,
    decls: Seq<DeclView>,
    files: Seq<FileTreeView>,
    uri: Seq<char>,
) -> bool {
    &&& picks(at, decls.len() as int)
    &&& at.len() == v.len()
    &&& forall|k: int|
        0 <= k < at.len() ==> lens_of_declaration(v[k], decls[#[trigger] at[k]], files, uri)
    &&& forall|i: int, name: Seq<char>, span: SourceSpan|
        0 <= i < decls.len() && #[trigger] stands_at(decls[i], name, span) ==> at.contains(i)
}

/// The lenses of a document are those of its concepts, properties and rules that have a place,
/// in their order, and each counts and shows all references to the name.
pub proof fn law_lenses_count_all_uses(files: Seq<FileTreeView>, uri: Seq<char>, doc: DocumentView)
    ensures
        match doc.parse.tree {
            Some(f) => exists|at: Seq<int>| #[trigger]
                lens_places(at, lenses(files, uri, doc), file_decls(f), files, uri),
            None => lenses(files, uri, doc).len() == 0,
        },
{
    if let Some(f) = doc.parse.tree {
        let v = file_decls(f);
        let out = lenses(files, uri, doc);
        let all = declaration_lenses(files, uri, v);
        let at = lemma_present_places(all);
        assert forall|k: int| 0 <= k < at.len() implies lens_of_declaration(
            out[k],
            v[#[trigger] at[k]],
            files,
            uri,
        ) by {
            assert(all[at[k]] == Some(out[k]));
            let (name, span) = match v[at[k]] {
                DeclView::Concept(c) => (c.name, c.span->0),
                DeclView::Property(p) => (p.name, p.span->0),
                DeclView::Rule(r) => (r.name, r.span->0),
                DeclView::Fact(f) => (f.id, f.span->0),
            };
            lemma_found_lists_uses(files, name);
            assert(stands_at(v[at[k]], name, span));
            assert(lens_counts(out[k], files, uri, name, span));
        }
        assert forall|i: int, name: Seq<char>, span: SourceSpan|
            0 <= i < v.len() && #[trigger] stands_at(v[i], name, span) implies at.contains(i) by {
            assert(all[i] is Some);
        }
        assert(lens_places(at, out, v, files, uri));
    }
}

// ── Rename ────────────────────────────────────────────────────────────────────

/// What stands behind the last dot of a name is its last segment.
pub proof fn law_simple_name(name: Seq<char>)
    ensures
        last_segment_of(simple_name(name), name),
    decreases name.len(),
{
    let s = simple_name(name);
    if name.len() > 0 && name.last() != '.' {
        let rest = name.drop_last();
        law_simple_name(rest);
        let r = simple_name(rest);
        assert(!s.contains('.')) by {
            if s.contains('.') {
                let i = choose|i: int| 0 <= i < s.len() && s[i] == '.';
                if i < r.len() {
                    assert(r[i] == '.');
                }
            }
        }
        if r == rest {
            assert(s =~= name);
        } else {
            let k = choose|k: int| 0 <= k < rest.len() && #[trigger] rest[k] == '.' && r == rest.skip(k + 1);
            assert(name[k] == '.');
            assert(s =~= name.skip(k + 1));
        }
    } else if name.len() > 0 {
        let k = name.len() - 1;
        assert(name[k] == '.');
        assert(s =~= name.skip(k + 1));
    } else {
        assert(s =~= name);
    }
}

/// A name has only one last segment.
proof fn lemma_last_segment_unique(a: Seq<char>, b: Seq<char>, full: Seq<char>)
    requires
        last_segment_of(a, full),
        last_segment_of(b, full),
    ensures
        a == b,
{
    let k = if a == full {
        -1
    } else {
        choose|k: int| 0 <= k < full.len() && #[trigger] full[k] == '.' && a == full.skip(k + 1)
    };
    let l = if b == full {
        -1
    } else {
        choose|k: int| 0 <= k < full.len() && #[trigger] full[k] == '.' && b == full.skip(k + 1)
    };
    if k < l {
        assert(a[l - k - 1] == full[l]);
        assert(a.contains('.'));
    }
    if l < k {
        assert(b[k - l - 1] == full[k]);
        assert(b.contains('.'));
    }
}

/// Whether `s` is the first of the places that lies in `span`.
pub open spec fn first_within(places: Seq<SourceSpan>, span: SourceSpan, s: SourceSpan) -> bool {
    exists|j: int|
        0 <= j < places.len() && #[trigger] places[j] == s && span.start.offset <= s.start.offset
            && s.end.offset <= span.end.offset && forall|i: int|
            0 <= i < j ==> !(span.start.offset <= (#[trigger] places[i]).start.offset
                && places[i].end.offset <= span.end.offset)
}

/// Whether a declaration names `target`, or its last segment, at `s`: `s` is the place of the
/// name alone, which for a rule is the first name right behind `rule` in it.
pub open spec fn names_at(
    d: DeclView,
    places: Seq<SourceSpan>,
    target: Seq<char>,
    s: SourceSpan,
) -> bool {
    match d {
        DeclView::Concept(c) => (c.name == target || last_segment_of(c.name, target))
            && c.name_span == Some(s),
        DeclView::Property(p) => (p.name == target || last_segment_of(p.name, target))
            && p.name_span == Some(s),
        DeclView::Rule(r) => (r.name == target || last_segment_of(r.name, target)) && (r.span
            matches Some(span) && first_within(places, span, s)),
        DeclView::Fact(_) => false,
    }
}

/// The first place in a span is found.
proof fn lemma_name_in(places: Seq<SourceSpan>, span: SourceSpan, s: SourceSpan)
    ensures
        name_in(places, Some(span)) == Some(s) <==> first_within(places, span, s),
    decreases places.len(),
{
    if places.len() > 0 {
        let rest = places.skip(1);
        lemma_name_in(rest, span, s);
        if span.start.offset <= places[0].start.offset && places[0].end.offset <= span.end.offset {
            if places[0] == s {
                assert(places[0] == s);
            }
        } else {
            if first_within(rest, span, s) {
                let j = choose|j: int|
                    0 <= j < rest.len() && #[trigger] rest[j] == s && span.start.offset
                        <= s.start.offset && s.end.offset <= span.end.offset && forall|i: int|
                        0 <= i < j ==> !(span.start.offset <= (#[trigger] rest[i]).start.offset
                            && rest[i].end.offset <= span.end.offset);
                assert(places[j + 1] == s);
                assert forall|i: int| 0 <= i < j + 1 implies !(span.start.offset <= (
                #[trigger] places[i]).start.offset && places[i].end.offset <= span.end.offset) by {
                    if i > 0 {
                        assert(rest[i - 1] == places[i]);
                    }
                }
            }
            if first_within(places, span, s) {
                let j = choose|j: int|
                    0 <= j < places.len() && #[trigger] places[j] == s && span.start.offset
                        <= s.start.offset && s.end.offset <= span.end.offset && forall|i: int|
                        0 <= i < j ==> !(span.start.offset <= (#[trigger] places[i]).start.offset
                            && places[i].end.offset <= span.end.offset);
                assert(rest[j - 1] == s);
                assert forall|i: int| 0 <= i < j - 1 implies !(span.start.offset <= (
                #[trigger] rest[i]).start.offset && rest[i].end.offset <= span.end.offset) by {
                    assert(places[i + 1] == rest[i]);
                }
            }
        }
    }
}

/// A declaration declares a name where it names it.
proof fn lemma_declares(d: DeclView, places: Seq<SourceSpan>, target: Seq<char>, s: SourceSpan)
    ensures
        declares(d, places, target) == Some(s) <==> names_at(d, places, target, s),
{
    law_simple_name(target);
    let name = match d {
        DeclView::Concept(c) => c.name,
        DeclView::Property(p) => p.name,
        DeclView::Rule(r) => r.name,
        DeclView::Fact(f) => f.id,
    };
    if last_segment_of(name, target) {
        lemma_last_segment_unique(name, simple_name(target), target);
    }
    if let DeclView::Rule(r) = d {
        if let Some(span) = r.span {
            lemma_name_in(places, span, s);
        }
    }
}

/// Whether a rename of `target` has to replace the place `s` of a file: a declaration names it
/// there, or the reference search reports a reference there.
pub open spec fn rename_place(file: FileTreeView, target: Seq<char>, s: SourceSpan) -> bool {
    ||| exists|j: int|
        0 <= j < file_decls(file.tree).len() && names_at(
            #[trigger] file_decls(file.tree)[j],
            file.places,
            target,
            s,
        )
    ||| references_in(file.tree, target).contains(s)
}

/// The places that a rename replaces.
proof fn lemma_rename_sites(file: FileTreeView, target: Seq<char>, s: SourceSpan)
    ensures
        rename_sites(file, target).contains(s) <==> rename_place(file, target, s),
{
    let v = file_decls(file.tree);
    let all = declaring(v, file.places, target);
    lemma_concat_contains(present(all), references_in(file.tree, target), s);
    lemma_present_contains(all, s);
    if all.contains(Some(s)) {
        let j = choose|j: int| 0 <= j < all.len() && all[j] == Some(s);
        lemma_declares(v[j], file.places, target, s);
        assert(names_at(v[j], file.places, target, s));
    }
    if exists|j: int| 0 <= j < v.len() && names_at(#[trigger] v[j], file.places, target, s) {
        let j = choose|j: int| 0 <= j < v.len() && names_at(#[trigger] v[j], file.places, target, s);
        lemma_declares(v[j], file.places, target, s);
        assert(all[j] == Some(s));
    }
}

/// Whether an edit of the file `uri` puts the new name at a place that a rename has to replace.
pub open spec fn renames_place(
    file: FileTreeView,
    target: Seq<char>,
    new_name: Seq<char>,
    uri: Seq<char>,
    e: EditView,
) -> bool {
    &&& url_parse(file.key) == Some(uri)
    &&& e.new_text == new_name
    &&& exists|s: SourceSpan| #[trigger] rename_place(file, target, s) && e.range == range_of(s)
}

/// A rename of the symbol at the cursor puts the new name at the name in every declaration, and
/// nothing but the name, and at every reference, in every known file; it makes no other edit.
/// Without any such place there is no edit at all.
pub proof fn law_rename_replaces_names(
    w: WorldView,
    uri: Seq<char>,
    d: DocumentView,
    pos: Position,
    name: Seq<char>,
    new_name: Seq<char>,
    file: Seq<char>,
    e: EditView,
)
    requires
        get(w.docs, uri) == Some(d),
        target(d, pos) == Some(name),
    ensures
        match renamed(w, uri, pos, new_name) {
            Some(changes) => edits_for(changes, file).contains(e) <==> exists|i: int|
                0 <= i < known_files(w).len() && renames_place(
                    #[trigger] known_files(w)[i],
                    name,
                    new_name,
                    file,
                    e,
                ),
            None => forall|i: int|
                0 <= i < known_files(w).len() ==> !renames_place(
                    #[trigger] known_files(w)[i],
                    name,
                    new_name,
                    file,
                    e,
                ),
        },
{
    let files = known_files(w);
    law_rename_edits_every_site(files, name, new_name, file, e);
    assert forall|i: int| 0 <= i < files.len() implies (wants_edit(
        #[trigger] files[i],
        name,
        new_name,
        file,
        e,
    ) <==> renames_place(files[i], name, new_name, file, e)) by {
        let sites = rename_sites(files[i], name);
        let all = replacements(sites, new_name);
        if wants_edit(files[i], name, new_name, file, e) {
            let k = choose|k: int| 0 <= k < all.len() && all[k] == e;
            assert(sites.contains(sites[k]));
            lemma_rename_sites(files[i], name, sites[k]);
            assert(rename_place(files[i], name, sites[k]));
        }
        if renames_place(files[i], name, new_name, file, e) {
            let s = choose|s: SourceSpan| #[trigger]
                rename_place(files[i], name, s) && e.range == range_of(s);
            lemma_rename_sites(files[i], name, s);
            let k = choose|k: int| 0 <= k < sites.len() && sites[k] == s;
            assert(all[k] == e);
        }
    }
    let changes = rename_changes(files, name, new_name);
    if changes.dom().is_empty() {
        assert(!changes.contains_key(file));
        assert(!edits_for(changes, file).contains(e));
    }
}

/// How many declarations name `target`.
pub open spec fn naming_count(v: Seq<DeclView>, places: Seq<SourceSpan>, target: Seq<char>) -> nat
    decreases v.len(),
{
    if v.len() == 0 {
        0
    } else {
        naming_count(v.drop_last(), places, target) + if exists|s: SourceSpan| #[trigger]
            names_at(v.last(), places, target, s) {
            1nat
        } else {
            0
        }
    }
}

proof fn lemma_naming_count(v: Seq<DeclView>, places: Seq<SourceSpan>, target: Seq<char>)
    ensures
        present(declaring(v, places, target)).len() == naming_count(v, places, target),
    decreases v.len(),
{
    let all = declaring(v, places, target);
    if v.len() > 0 {
        lemma_naming_count(v.drop_last(), places, target);
        assert(all.drop_last() =~= declaring(v.drop_last(), places, target));
        assert(all.last() == declares(v.last(), places, target));
        if let Some(s) = all.last() {
            lemma_declares(v.last(), places, target, s);
            assert(names_at(v.last(), places, target, s));
        }
        if exists|s: SourceSpan| #[trigger] names_at(v.last(), places, target, s) {
            let s = choose|s: SourceSpan| #[trigger] names_at(v.last(), places, target, s);
            lemma_declares(v.last(), places, target, s);
        }
    }
}

/// How many places of the file `uri` a rename of `target` replaces: the names in declarations and
/// the references.
pub open spec fn rename_count(files: Seq<FileTreeView>, target: Seq<char>, uri: Seq<char>) -> nat
    decreases files.len(),
{
    if files.len() == 0 {
        0
    } else {
        rename_count(files.drop_last(), target, uri) + if url_parse(files.last().key) == Some(uri) {
            naming_count(file_decls(files.last().tree), files.last().places, target) + references_in(
                files.last().tree,
                target,
            ).len()
        } else {
            0
        }
    }
}

proof fn lemma_rename_count(
    files: Seq<FileTreeView>,
    target: Seq<char>,
    new_name: Seq<char>,
    uri: Seq<char>,
)
    ensures
        edits_for(rename_changes(files, target, new_name), uri).len() == rename_count(
            files,
            target,
            uri,
        ),
    decreases files.len(),
{
    if files.len() > 0 {
        let f = files.last();
        lemma_rename_count(files.drop_last(), target, new_name, uri);
        lemma_naming_count(file_decls(f.tree), f.places, target);
    }
}

/// A rename makes one edit for each declaration that names the symbol and one for each
/// reference, in each file, and no more.
pub proof fn law_rename_edits_are_counted(
    w: WorldView,
    uri: Seq<char>,
    d: DocumentView,
    pos: Position,
    name: Seq<char>,
    new_name: Seq<char>,
    file: Seq<char>,
)
    requires
        get(w.docs, uri) == Some(d),
        target(d, pos) == Some(name),
    ensures
        match renamed(w, uri, pos, new_name) {
            Some(changes) => edits_for(changes, file).len() == rename_count(
                known_files(w),
                name,
                file,
            ),
            None => rename_count(known_files(w), name, file) == 0,
        },
{
    lemma_rename_count(known_files(w), name, new_name, file);
    let changes = rename_changes(known_files(w), name, new_name);
    if changes.dom().is_empty() {
        assert(!changes.contains_key(file));
    }
}

/// Without a symbol at the cursor, or without the document, nothing is renamed.
pub proof fn law_no_rename_without_symbol(
    w: WorldView,
    uri: Seq<char>,
    pos: Position,
    new_name: Seq<char>,
)
    requires
        get(w.docs, uri) matches Some(d) ==> target(d, pos) is None,
    ensures
        renamed(w, uri, pos, new_name) is None,
{
}

/// `places` are those of the tokens at `at`: the names right behind `rule`.
pub open spec fn rule_name_places(
    items: Seq<Option<ScannedView>>,
    at: Seq<int>,
    places: Seq<SourceSpan>,
) -> bool {
    &&& picks(at, items.len() as int)
    &&& at.len() == places.len()
    &&& forall|k: int|
        0 <= k < at.len() ==> (items[#[trigger] at[k]] matches Some(n) && places[k].start == n.start
            && places[k].end == n.end)
    &&& forall|i: int|
        0 <= i < items.len() ==> (at.contains(i) <==> i > 0 && (items[i - 1] matches Some(r) && r.lexeme
            == LexemeView::Rule) && (#[trigger] items[i] matches Some(n) && n.lexeme is Name))
}

/// The places of the names of rules are in the order of the text; a text that cannot be followed
/// to its end has none.
pub proof fn law_rule_names_in_order(text: Seq<char>)
    ensures
        laid_out(text) ==> exists|at: Seq<int>| #[trigger]
            rule_name_places(lexed(text), at, places_in(text)),
        !laid_out(text) ==> places_in(text).len() == 0,
{
    if laid_out(text) {
        let items = lexed(text);
        let all = places_at(items);
        let at = lemma_present_places(all);
        assert forall|i: int| 0 <= i < items.len() implies (at.contains(i) <==> i > 0 && (
        items[i - 1] matches Some(r) && r.lexeme == LexemeView::Rule) && (#[trigger] items[i]
            matches Some(n) && n.lexeme is Name)) by {
            assert(all[i] == place_at(items, i));
        }
        assert forall|k: int| 0 <= k < at.len() implies (items[#[trigger] at[k]] matches Some(n)
            && places_in(text)[k].start == n.start && places_in(text)[k].end == n.end) by {
            assert(all[at[k]] == place_at(items, at[k]));
        }
        assert(rule_name_places(items, at, places_in(text)));
    }
}

/// The places of the names of rules are those of the names right behind `rule`.
pub proof fn law_rule_names(text: Seq<char>, s: SourceSpan)
    requires
        laid_out(text),
    ensures
        places_in(text).contains(s) <==> exists|i: int|
            0 < i < lexed(text).len() && (lexed(text)[i - 1] matches Some(r) && r.lexeme
                == LexemeView::Rule) && (#[trigger] lexed(text)[i] matches Some(n) && n.lexeme is Name
                && s == (SourceSpan { start: n.start, end: n.end })),
{
    let items = lexed(text);
    let all = places_at(items);
    lemma_present_contains(all, s);
    if all.contains(Some(s)) {
        let i = choose|i: int| 0 <= i < all.len() && all[i] == Some(s);
        assert(place_at(items, i) == Some(s));
        assert(items[i] is Some);
    }
    if exists|i: int|
        0 < i < items.len() && (items[i - 1] matches Some(r) && r.lexeme == LexemeView::Rule) && (
        #[trigger] items[i] matches Some(n) && n.lexeme is Name && s == (SourceSpan {
            start: n.start,
            end: n.end,
        })) {
        let i = choose|i: int|
            0 < i < items.len() && (items[i - 1] matches Some(r) && r.lexeme == LexemeView::Rule)
                && (#[trigger] items[i] matches Some(n) && n.lexeme is Name && s == (SourceSpan {
                start: n.start,
                end: n.end,
            }));
        assert(all[i] == Some(s));
    }
}

} // verus!
