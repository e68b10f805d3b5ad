//! Rename: checking that there is something to rename, and the edits of a rename.

use crate::ast::{decls_from, file_decls, file_trees, FileTree, FileTreeView};
use crate::checks::{reference_spans, references_in};
use crate::diagnostics::{law_offset_between_characters, offset_at, offset_of, range_of, span_to_range};
use crate::document::{Document, DocumentView};
use crate::edits::{edits_for, with_edits, Edit, EditView, WorkspaceEdit};
use crate::index::{lookup, lookup_in};
use crate::keyed::get;
use crate::lists::{lemma_concat_contains, lemma_present_push, present};
use crate::places::{find_name, name_in};
use crate::references::{target, target_at, target_readable};
use crate::rope::{
    breaks_before, byte_index, byte_to_char, char_to_line, lemma_boundary_is_char,
    lemma_breaks_monotone, lemma_byte_index_order, lemma_line_start_exists,
    lemma_line_start_unique, len_bytes, line_start, line_to_char, rope_string, rope_text,
};
use crate::syntax::{decls, Decl, DeclView};
use crate::text::{chars_of, same, slice_text};
use crate::types::{Position, Range, SourceSpan};
use crate::uri::{parse_url, url_parse, url_text};
use crate::words::{
    cut_text, end_of_run, has_word, ident, law_ascii_has_word, law_run_end, law_run_start, run_end,
    run_start, start_of_run, word,
};
use crate::workspace::{known_files, WorldView};
use crate::world::World;
use lsp_types::Url;
use ropey::Rope;
use vstd::prelude::*;
use vstd::utf8::{
    encode_utf8, encode_utf8_decode_utf8, is_ascii_chars, is_ascii_chars_encode_utf8,
    is_char_boundary,
};

verus! {

// ── Positions of bytes ────────────────────────────────────────────────────────

/// Whether byte `b` belongs to character `i`, or both are at the end of the text.
pub open spec fn byte_in_char(text: Seq<char>, b: int, i: int) -> bool {
    &&& 0 <= i <= text.len()
    &&& byte_index(text, i) <= b
    &&& i < text.len() ==> b < byte_index(text, i + 1)
}

/// The character that byte `b` belongs to.
pub open spec fn char_of_byte(text: Seq<char>, b: int) -> int {
    choose|i: int| byte_in_char(text, b, i)
}

/// The protocol position of character `i`.
pub open spec fn char_position(text: Seq<char>, i: int) -> Position {
    let line = breaks_before(text, i) as int;
    Position { line: line as u32, character: (i - line_start(text, line)) as u32 }
}

/// The protocol position of a byte. A byte beyond the end stands for the end.
pub open spec fn byte_position(text: Seq<char>, b: int) -> Position {
    let len = encode_utf8(text).len() as int;
    char_position(text, char_of_byte(text, if b <= len { b } else { len }))
}

/// A byte belongs to one character only.
proof fn lemma_char_of_byte_unique(text: Seq<char>, b: int, i: int, j: int)
    requires
        byte_in_char(text, b, i),
        byte_in_char(text, b, j),
    ensures
        i == j,
{
    if i < j {
        lemma_byte_index_order(text, i + 1, j);
    } else if j < i {
        lemma_byte_index_order(text, j + 1, i);
    }
}

/// Converts a byte offset to a protocol position.
pub fn byte_to_position(rope: &Rope, byte_offset: usize) -> (r: Position)
    ensures
        r == byte_position(rope_text(*rope), byte_offset as int),
{
    let ghost text = rope_text(*rope);
    let len: usize = len_bytes(rope);
    let b: usize = if byte_offset <= len {
        byte_offset
    } else {
        len
    };
    let i: usize = byte_to_char(rope, b);
    let line: usize = char_to_line(rope, i);
    proof {
        lemma_char_of_byte_unique(text, b as int, i as int, char_of_byte(text, b as int));
        lemma_breaks_monotone(text, i as int, text.len() as int);
    }
    let start: usize = line_to_char(rope, line);
    proof {
        let s = lemma_line_start_exists(text, i as int);
        lemma_line_start_unique(text, line as int, s, start as int);
        lemma_line_start_unique(text, line as int, s, line_start(text, line as int));
    }
    Position { line: line as u32, character: (i - start) as u32 }
}

/// The start of a character is found again from its position, where line and column fit
/// the protocol.
pub proof fn law_position_of_byte_leads_back(text: Seq<char>, i: int)
    requires
        0 <= i <= text.len(),
        breaks_before(text, i) <= u32::MAX,
        i - line_start(text, breaks_before(text, i) as int) <= u32::MAX,
    ensures
        offset_at(text, byte_position(text, byte_index(text, i))) == byte_index(text, i),
{
    let b = byte_index(text, i);
    lemma_byte_index_order(text, i, text.len() as int);
    assert(byte_in_char(text, b, i)) by {
        if i < text.len() {
            lemma_byte_index_order(text, i, i + 1);
        }
    }
    lemma_char_of_byte_unique(text, b, i, char_of_byte(text, b));
    lemma_breaks_monotone(text, i, text.len() as int);
    let line = breaks_before(text, i) as int;
    let s = lemma_line_start_exists(text, i);
    lemma_line_start_unique(text, line, s, line_start(text, line));
}

// ── Checking ──────────────────────────────────────────────────────────────────

/// The range of the word at `pos`, if it names a known symbol.
pub open spec fn renameable(doc: DocumentView, pos: Position) -> Option<Range> {
    let at = offset_at(doc.text, pos);
    let w = word(doc.text, at);
    if w.len() == 0 {
        None
    } else {
        match doc.analysis {
            Some(a) => if lookup_in(a.index.symbols, w) is Some {
                let bytes = encode_utf8(doc.text);
                Some(
                    Range {
                        start: byte_position(doc.text, run_start(bytes, at)),
                        end: byte_position(doc.text, run_end(bytes, at)),
                    },
                )
            } else {
                None
            },
            None => None,
        }
    }
}

/// The range of the identifier at `pos`, or `None` if it is not a known symbol.
pub fn prepare(doc: &Document, pos: Position) -> (r: Option<Range>)
    requires
        has_word(doc@.text, offset_at(doc@.text, pos)),
    ensures
        r == renameable(doc@, pos),
{
    let rope = &doc.rope;
    let source = rope_string(rope);
    let byte_offset: usize = offset_of(rope, pos);
    let word_start: usize = start_of_run(source.as_str(), byte_offset);
    let word_end: usize = end_of_run(source.as_str(), byte_offset);
    let word = cut_text(source.as_str(), word_start, word_end);
    if word.is_empty() {
        return None;
    }
    match &doc.analysis {
        Some(a) => {
            if lookup(&a.index, word).is_none() {
                return None;
            }
        },
        None => {
            return None;
        },
    }
    let start = byte_to_position(rope, word_start);
    let end = byte_to_position(rope, word_end);
    Some(Range { start, end })
}

// ── Declaration sites ─────────────────────────────────────────────────────────

/// The part of a name after its last dot, the whole name if it has none.
pub open spec fn simple_name(name: Seq<char>) -> Seq<char>
    decreases name.len(),
{
    if name.len() == 0 || name.last() == '.' {
        Seq::empty()
    } else {
        simple_name(name.drop_last()).push(name.last())
    }
}

/// Whether a declared name is `target` or its simple name.
pub open spec fn named(name: Seq<char>, target: Seq<char>) -> bool {
    name == target || name == simple_name(target)
}

/// The place where a declaration declares `target` or its simple name, if it does: the name of
/// a concept, property or rule.
pub open spec fn declares(d: DeclView, places: Seq<SourceSpan>, target: Seq<char>) -> Option<
    SourceSpan,
> {
    match d {
        DeclView::Concept(c) => if named(c.name, target) {
            c.name_span
        } else {
            None
        },
        DeclView::Property(p) => if named(p.name, target) {
            p.name_span
        } else {
            None
        },
        DeclView::Rule(r) => if named(r.name, target) {
            name_in(places, r.span)
        } else {
            None
        },
        DeclView::Fact(_) => None,
    }
}

/// For each declaration, the place where it declares `target`.
pub open spec fn declaring(v: Seq<DeclView>, places: Seq<SourceSpan>, target: Seq<char>) -> Seq<
    Option<SourceSpan>,
> {
    Seq::new(v.len(), |i: int| declares(v[i], places, target))
}

/// The places in a file where `target` is declared. Aliases of prefixes and variants of
/// concepts have none: what uses them is not among the references that can be found, so a
/// rename leaves them alone.
pub open spec fn declaration_sites(
    file: rowl::ast::OntologyFile,
    places: Seq<SourceSpan>,
    target: Seq<char>,
) -> Seq<SourceSpan> {
    present(declaring(file_decls(file), places, target))
}

/// The part of a name after its last dot.
pub fn last_segment(name: &str) -> (r: String)
    ensures
        r@ == simple_name(name@),
{
    let chars = chars_of(name);
    let mut i: usize = chars.len();
    proof {
        assert(name@.subrange(i as int, i as int) =~= Seq::empty());
        assert(name@.take(i as int) =~= name@);
        assert(simple_name(name@) =~= simple_name(name@) + Seq::empty());
    }
    while i > 0 && chars[i - 1] != '.'
        invariant
            i <= chars.len(),
            chars@ == name@,
            simple_name(name@) == simple_name(name@.take(i as int)) + name@.subrange(
                i as int,
                name@.len() as int,
            ),
        decreases i,
    {
        proof {
            let t = name@.take(i as int);
            assert(t.drop_last() =~= name@.take(i - 1));
            assert(t.last() == name@[i - 1]);
            assert(simple_name(t) + name@.subrange(i as int, name@.len() as int) =~= simple_name(
                name@.take(i - 1),
            ) + name@.subrange(i - 1, name@.len() as int));
        }
        i = i - 1;
    }
    proof {
        let t = name@.take(i as int);
        assert(simple_name(t) =~= Seq::empty());
        assert(simple_name(name@) =~= name@.subrange(i as int, name@.len() as int));
    }
    slice_text(&chars, i, chars.len())
}

/// Whether a declared name is `target` or its simple name.
fn is_named(name: &str, target: &str, simple: &str) -> (r: bool)
    requires
        simple@ == simple_name(target@),
    ensures
        r == named(name@, target@),
{
    same(name, target) || same(name, simple)
}

/// The places of the declared names in a file that match `target`.
pub fn declaration_spans_in_file(
    file: &rowl::ast::OntologyFile,
    places: &Vec<SourceSpan>,
    target: &str,
) -> (r: Vec<SourceSpan>)
    ensures
        r@ == declaration_sites(*file, places@, target@),
{
    let declarations = decls_from(file);
    declaration_spans(&declarations, places, target)
}

/// The places of the declared names in a list of declarations that match `target`.
pub fn declaration_spans(declarations: &Vec<Decl>, places: &Vec<SourceSpan>, target: &str) -> (r: Vec<
    SourceSpan,
>)
    ensures
        r@ == present(declaring(decls(declarations@), places@, target@)),
{
    let simple = last_segment(target);
    let mut out: Vec<SourceSpan> = Vec::new();
    let ghost all = declaring(decls(declarations@), places@, target@);
    let mut i: usize = 0;
    assert(out@ =~= present(all.take(0)));
    while i < declarations.len()
        invariant
            i <= declarations.len(),
            all == declaring(decls(declarations@), places@, target@),
            simple@ == simple_name(target@),
            out@ == present(all.take(i as int)),
        decreases declarations.len() - i,
    {
        proof {
            assert(all.take(i + 1) =~= all.take(i as int).push(all[i as int]));
            lemma_present_push(all.take(i as int), all[i as int]);
            assert(decls(declarations@)[i as int] == declarations@[i as int]@);
        }
        let site = match &declarations[i] {
            Decl::Concept(c) => if is_named(c.name.as_str(), target, simple.as_str()) {
                c.name_span
            } else {
                None
            },
            Decl::Property(p) => if is_named(p.name.as_str(), target, simple.as_str()) {
                p.name_span
            } else {
                None
            },
            Decl::Rule(r) => if is_named(r.name.as_str(), target, simple.as_str()) {
                find_name(places, r.span)
            } else {
                None
            },
            Decl::Fact(_) => None,
        };
        assert(site == all[i as int]);
        if let Some(s) = site {
            out.push(s);
        }
        i = i + 1;
    }
    assert(all.take(all.len() as int) =~= all);
    out
}

// ── Edits of a rename ─────────────────────────────────────────────────────────

/// The edits that put `new_name` at each of the places.
pub open spec fn replacements(sites: Seq<SourceSpan>, new_name: Seq<char>) -> Seq<EditView> {
    Seq::new(sites.len(), |i: int| EditView { range: range_of(sites[i]), new_text: new_name })
}

/// The places to rename in a file: where `target` is declared, then where it is referred
/// to.
pub open spec fn rename_sites(file: FileTreeView, target: Seq<char>) -> Seq<SourceSpan> {
    declaration_sites(file.tree, file.places, target) + references_in(file.tree, target)
}

/// The edits of a rename, by file. Files whose key is no URL are left alone.
pub open spec fn rename_changes(
    files: Seq<FileTreeView>,
    target: Seq<char>,
    new_name: Seq<char>,
) -> Map<Seq<char>, Seq<EditView>>
    decreases files.len(),
{
    if files.len() == 0 {
        Map::empty()
    } else {
        let before = rename_changes(files.drop_last(), target, new_name);
        let file = files.last();
        match url_parse(file.key) {
            Some(uri) => with_edits(
                before,
                uri,
                replacements(rename_sites(file, target), new_name),
            ),
            None => before,
        }
    }
}

/// Adds the edits that put `new_name` at each of the places in the file `uri`.
fn add_replacements(
    changes: &mut WorkspaceEdit,
    uri: &Url,
    sites: &Vec<SourceSpan>,
    new_name: &str,
)
    requires
        old(changes).wf(),
    ensures
        final(changes).wf(),
        final(changes)@ == with_edits(
            old(changes)@,
            url_text(*uri),
            replacements(sites@, new_name@),
        ),
{
    let ghost before = changes@;
    let ghost u = url_text(*uri);
    let ghost all = replacements(sites@, new_name@);
    let mut i: usize = 0;
    assert(all.take(0) =~= Seq::empty());
    while i < sites.len()
        invariant
            i <= sites.len(),
            u == url_text(*uri),
            all == replacements(sites@, new_name@),
            changes.wf(),
            changes@ == with_edits(before, u, all.take(i as int)),
        decreases sites.len() - i,
    {
        let ghost now = changes@;
        changes.add(uri, Edit { range: span_to_range(sites[i]), new_text: new_name.to_owned() });
        proof {
            assert(all.take(i + 1) =~= all.take(i as int).push(all[i as int]));
            assert(edits_for(now, u).push(all[i as int]) =~= edits_for(before, u) + all.take(
                i + 1,
            ));
            assert(changes@ =~= with_edits(before, u, all.take(i + 1)));
        }
        i = i + 1;
    }
    assert(all.take(all.len() as int) =~= all);
}

/// The edits that rename `target` to `new_name` in all files, or `None` if there are none.
pub fn rename_in(all_asts: &Vec<FileTree>, target: &str, new_name: &str) -> (r: Option<
    WorkspaceEdit,
>)
    ensures
        match r {
            Some(e) => e.wf() && e@ == rename_changes(file_trees(all_asts@), target@, new_name@)
                && !e@.dom().is_empty(),
            None => rename_changes(
                file_trees(all_asts@),
                target@,
                new_name@,
            ).dom().is_empty(),
        },
{
    let mut changes = WorkspaceEdit::new();
    let ghost files = file_trees(all_asts@);
    let mut i: usize = 0;
    while i < all_asts.len()
        invariant
            i <= all_asts.len(),
            files == file_trees(all_asts@),
            changes.wf(),
            changes@ == rename_changes(files.take(i as int), target@, new_name@),
        decreases all_asts.len() - i,
    {
        proof {
            assert(files.take(i + 1).drop_last() =~= files.take(i as int));
            assert(files.take(i + 1).last() == all_asts@[i as int]@);
        }
        let file = &all_asts[i];
        if let Some(uri) = parse_url(file.key.as_str()) {
            let ghost before = changes@;
            let ghost u = url_text(uri);
            let declared = declaration_spans_in_file(file.tree, file.places, target);
            let referring = reference_spans(file.tree, target);
            add_replacements(&mut changes, &uri, &declared, new_name);
            add_replacements(&mut changes, &uri, &referring, new_name);
            proof {
                let a = replacements(declared@, new_name@);
                let b = replacements(referring@, new_name@);
                assert(replacements(declared@ + referring@, new_name@) =~= a + b);
                assert(edits_for(before, u) + (a + b) =~= edits_for(before, u) + a + b);
                assert(a + Seq::empty() =~= a);
                assert(Seq::empty() + b =~= b);
                assert(with_edits(with_edits(before, u, a), u, b) =~= with_edits(before, u, a + b));
            }
        }
        i = i + 1;
    }
    assert(files.take(files.len() as int) =~= files);
    if changes.is_empty() {
        None
    } else {
        Some(changes)
    }
}

/// The edits that rename the symbol at `pos` of an open document in all known files.
pub open spec fn renamed(w: WorldView, uri: Seq<char>, pos: Position, new_name: Seq<char>) -> Option<
    Map<Seq<char>, Seq<EditView>>,
> {
    match get(w.docs, uri) {
        Some(d) => match target(d, pos) {
            Some(t) => {
                let changes = rename_changes(known_files(w), t, new_name);
                if changes.dom().is_empty() {
                    None
                } else {
                    Some(changes)
                }
            },
            None => None,
        },
        None => None,
    }
}

/// Computes the edits of a rename in all known files: every declaration site and every
/// reference of the symbol at `pos`. What refers to a symbol is told by the reference search;
/// it does not know what uses an alias or a variant, and there are no edits for these.
pub fn rename(world: &World, uri: &Url, pos: Position, new_name: &str) -> (r: Option<WorkspaceEdit>)
    requires
        world.wf(),
        get(world@.docs, url_text(*uri)) matches Some(d) ==> target_readable(d, pos),
    ensures
        match r {
            Some(e) => e.wf() && renamed(world@, url_text(*uri), pos, new_name@) == Some(e@),
            None => renamed(world@, url_text(*uri), pos, new_name@) is None,
        },
{
    let target = match world.doc(uri) {
        Some(doc) => match target_at(doc, pos) {
            Some(t) => t,
            None => {
                return None;
            },
        },
        None => {
            return None;
        },
    };
    let all_asts = world.all_file_asts();
    rename_in(&all_asts, target.as_str(), new_name)
}

// ── Laws ──────────────────────────────────────────────────────────────────────

/// Whether a rename has to put `new_name` at some place of `file` with the edit `e`.
pub open spec fn wants_edit(
    file: FileTreeView,
    target: Seq<char>,
    new_name: Seq<char>,
    uri: Seq<char>,
    e: EditView,
) -> bool {
    &&& url_parse(file.key) == Some(uri)
    &&& replacements(rename_sites(file, target), new_name).contains(e)
}

/// A rename makes exactly the edits that put the new name at a declaration site or a
/// reference of some file: it misses none and adds none.
pub proof fn law_rename_edits_every_site(
    files: Seq<FileTreeView>,
    target: Seq<char>,
    new_name: Seq<char>,
    uri: Seq<char>,
    e: EditView,
)
    ensures
        edits_for(rename_changes(files, target, new_name), uri).contains(e) <==> exists|i: int|
            0 <= i < files.len() && wants_edit(#[trigger] files[i], target, new_name, uri, e),
    decreases files.len(),
{
    if files.len() > 0 {
        let rest = files.drop_last();
        let last = files.last();
        law_rename_edits_every_site(rest, target, new_name, uri, e);
        let before = edits_for(rename_changes(rest, target, new_name), uri);
        let after = edits_for(rename_changes(files, target, new_name), uri);
        let added = replacements(rename_sites(last, target), new_name);
        assert(after.contains(e) <==> before.contains(e) || wants_edit(
            last,
            target,
            new_name,
            uri,
            e,
        )) by {
            if url_parse(last.key) == Some(uri) {
                assert(after =~= before + added);
                lemma_concat_contains(before, added, e);
            }
        }
        if exists|i: int|
            0 <= i < files.len() && wants_edit(#[trigger] files[i], target, new_name, uri, e) {
            let i = choose|i: int|
                0 <= i < files.len() && wants_edit(#[trigger] files[i], target, new_name, uri, e);
            if i < rest.len() {
                assert(wants_edit(rest[i], target, new_name, uri, e));
            }
        }
        if exists|i: int|
            0 <= i < rest.len() && wants_edit(#[trigger] rest[i], target, new_name, uri, e) {
            let i = choose|i: int|
                0 <= i < rest.len() && wants_edit(#[trigger] rest[i], target, new_name, uri, e);
            assert(wants_edit(files[i], target, new_name, uri, e));
        }
        if wants_edit(last, target, new_name, uri, e) {
            assert(wants_edit(files[files.len() - 1], target, new_name, uri, e));
        }
    }
}

/// A position can be renamed exactly if a rename finds a symbol there.
pub proof fn law_prepare_agrees_with_rename(doc: DocumentView, pos: Position)
    ensures
        renameable(doc, pos) is Some <==> target(doc, pos) is Some,
{
}

/// The range that is offered for a rename is that of the word at the position, where lines
/// and columns fit the protocol.
pub proof fn law_prepared_range_is_the_word(doc: DocumentView, pos: Position)
    requires
        has_word(doc.text, offset_at(doc.text, pos)),
        doc.text.len() <= u32::MAX,
    ensures
        renameable(doc, pos) matches Some(r) ==> {
            let bytes = encode_utf8(doc.text);
            let at = offset_at(doc.text, pos);
            &&& offset_at(doc.text, r.start) == run_start(bytes, at)
            &&& offset_at(doc.text, r.end) == run_end(bytes, at)
        },
{
    let text = doc.text;
    let bytes = encode_utf8(text);
    let at = offset_at(text, pos);
    lemma_boundary_position(text, run_start(bytes, at));
    lemma_boundary_position(text, run_end(bytes, at));
}

/// The range that is offered for a rename in an ASCII text starts and ends on one line, and
/// is that of a word which names a known symbol.
pub proof fn law_prepared_range_is_on_one_line(doc: DocumentView, pos: Position)
    requires
        is_ascii_chars(doc.text),
        doc.text.len() <= u32::MAX,
    ensures
        renameable(doc, pos) matches Some(r) ==> {
            let at = offset_at(doc.text, pos);
            let start = offset_at(doc.text, r.start);
            let end = offset_at(doc.text, r.end);
            &&& r.start.line == r.end.line
            &&& r.start.character < r.end.character
            &&& 0 <= start < end <= doc.text.len()
            &&& doc.text.subrange(start, end) == word(doc.text, at)
            &&& forall|i: int| start <= i < end ==> ident(#[trigger] doc.text[i])
            &&& doc.analysis is Some
            &&& lookup_in(doc.analysis->0.index.symbols, word(doc.text, at)) is Some
        },
{
    let text = doc.text;
    let bytes = encode_utf8(text);
    let at = offset_at(text, pos);
    is_ascii_chars_encode_utf8(text);
    law_offset_between_characters(text, pos);
    law_ascii_has_word(text, at);
    law_run_start(bytes, at);
    law_run_end(bytes, at);
    let a = run_start(bytes, at);
    let b = run_end(bytes, at);
    lemma_ascii_char_of_byte(text, a);
    lemma_ascii_char_of_byte(text, b);
    law_prepared_range_is_the_word(doc, pos);
    assert forall|i: int| a <= i < b implies ident(#[trigger] text[i]) by {
        assert(bytes[i] == text[i] as u8);
        assert(ident(bytes[i] as char));
    }
    lemma_no_break(text, a, b);
    lemma_breaks_bound(text, a);
    let line = breaks_before(text, a) as int;
    let s = lemma_line_start_exists(text, a);
    lemma_line_start_unique(text, line, s, line_start(text, line));
    if renameable(doc, pos) is Some {
        assert(text.subrange(a, b) =~= word(text, at)) by {
            let piece = bytes.subrange(a, b);
            let chars = text.subrange(a, b);
            assert(is_ascii_chars(chars));
            is_ascii_chars_encode_utf8(chars);
            assert(encode_utf8(chars) =~= piece);
            encode_utf8_decode_utf8(chars);
        }
        if a == b {
            assert(text.subrange(a, b) =~= Seq::empty());
        }
    }
}

/// In an ASCII text each byte is the character at its place.
proof fn lemma_ascii_char_of_byte(text: Seq<char>, b: int)
    requires
        is_ascii_chars(text),
        0 <= b <= text.len(),
    ensures
        char_of_byte(text, b) == b,
        byte_index(text, b) == b,
{
    is_ascii_chars_encode_utf8(text.take(b));
    assert(byte_in_char(text, b, b)) by {
        if b < text.len() {
            is_ascii_chars_encode_utf8(text.take(b + 1));
        }
    }
    lemma_char_of_byte_unique(text, b, b, char_of_byte(text, b));
}

/// No line breaks in a stretch of identifier characters.
proof fn lemma_no_break(text: Seq<char>, a: int, b: int)
    requires
        is_ascii_chars(text),
        0 <= a <= b <= text.len(),
        forall|i: int| a <= i < b ==> ident(#[trigger] text[i]),
    ensures
        breaks_before(text, b) == breaks_before(text, a),
    decreases b - a,
{
    if a < b {
        lemma_no_break(text, a, b - 1);
        assert(ident(text[b - 1]));
        assert('\0' <= text[b - 1] <= '\u{7f}');
    }
}

/// A byte between characters is found again from its position.
proof fn lemma_boundary_position(text: Seq<char>, b: int)
    requires
        is_char_boundary(encode_utf8(text), b),
        text.len() <= u32::MAX,
    ensures
        offset_at(text, byte_position(text, b)) == b,
{
    let i = lemma_boundary_is_char(text, b);
    lemma_breaks_bound(text, i);
    let line = breaks_before(text, i) as int;
    let s = lemma_line_start_exists(text, i);
    lemma_line_start_unique(text, line, s, line_start(text, line));
    law_position_of_byte_leads_back(text, i);
}

/// There are no more line breaks before a character than characters.
proof fn lemma_breaks_bound(text: Seq<char>, i: int)
    requires
        0 <= i <= text.len(),
    ensures
        breaks_before(text, i) <= i,
    decreases i,
{
    if i > 0 {
        lemma_breaks_bound(text, i - 1);
    }
}

} // verus!
