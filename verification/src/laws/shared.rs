//! Places, words and lists, which the other laws speak of.

use crate::diagnostics::{holds, offset_at, position_of, range_of, range_or_zero};
use crate::index::{lookup_in, SymbolTable};
use crate::lists::{first, present};
use crate::rope::{breaks_before, lemma_breaks_monotone, line_start, starts_line};
use crate::rope::lemma_line_start_unique;
use crate::syntax::{DeclView, TypeNameView};
use crate::types::{Location, Position, Range, SourceSpan};
use crate::words::{ident, law_run_end, law_run_start, run_end, run_start, word, word_start};
use vstd::prelude::*;
use vstd::utf8::{
    encode_utf8, encode_utf8_decode_utf8, is_ascii_chars, is_ascii_chars_encode_utf8,
};

verus! {

// ── Places ────────────────────────────────────────────────────────────────────

/// Whether a location counts from one and its numbers fit the protocol.
pub open spec fn proper(l: Location) -> bool {
    1 <= l.line <= u32::MAX && 1 <= l.column <= u32::MAX
}

/// Positions of the protocol count lines and characters from zero, locations from one.
pub proof fn law_positions_count_from_zero(l: Location)
    requires
        proper(l),
    ensures
        position_of(l).line + 1 == l.line,
        position_of(l).character + 1 == l.column,
{
}

/// A location that counts no lines or columns is put at the first.
pub proof fn law_positions_do_not_go_below_zero(l: Location)
    ensures
        l.line == 0 ==> position_of(l).line == 0,
        l.column == 0 ==> position_of(l).character == 0,
{
}

/// A range starts and ends where its span does; what has no span is put at the start of the
/// document.
pub proof fn law_ranges_follow_spans(s: SourceSpan)
    ensures
        range_of(s).start == position_of(s.start),
        range_of(s).end == position_of(s.end),
        range_or_zero(Some(s)) == range_of(s),
        range_or_zero(None) == (Range {
            start: Position { line: 0, character: 0 },
            end: Position { line: 0, character: 0 },
        }),
{
}

/// A span holds the bytes from its start to its end, its end included.
pub proof fn law_span_holds(span: Option<SourceSpan>, at: int)
    ensures
        holds(span, at) <==> exists|s: SourceSpan|
            span == Some(s) && s.start.offset <= at && at <= #[trigger] s.end.offset,
{
    if let Some(s) = span {
        assert(span == Some(s) && s.end.offset == s.end.offset);
    }
}

/// The offset of a position is the number of bytes before the character that stands
/// `pos.character` characters behind the start of line `pos.line`.
pub proof fn law_offset_counts_bytes(text: Seq<char>, pos: Position, i: int)
    requires
        0 <= i <= text.len(),
        starts_line(text, pos.line as int, i - pos.character),
    ensures
        offset_at(text, pos) == encode_utf8(text.take(i)).len(),
{
    let start = i - pos.character;
    lemma_line_start_unique(text, pos.line as int, start, line_start(text, pos.line as int));
    lemma_breaks_monotone(text, start, text.len() as int);
}

/// A position behind the end of the text stands for the end.
pub proof fn law_offset_behind_the_end(text: Seq<char>, pos: Position)
    requires
        pos.line > breaks_before(text, text.len() as int),
    ensures
        offset_at(text, pos) == encode_utf8(text).len(),
{
}

/// A position behind the end of the last characters stands for the end of the text too.
pub proof fn law_offset_behind_the_last_line(text: Seq<char>, pos: Position, start: int)
    requires
        starts_line(text, pos.line as int, start),
        start + pos.character > text.len(),
    ensures
        offset_at(text, pos) == encode_utf8(text).len(),
{
    lemma_line_start_unique(text, pos.line as int, start, line_start(text, pos.line as int));
    lemma_breaks_monotone(text, start, text.len() as int);
    assert(text.take(text.len() as int) =~= text);
}

// ── Words ─────────────────────────────────────────────────────────────────────

/// Whether the characters from `a` to `b` are a whole word of an ASCII text around `at`.
pub open spec fn whole_word(text: Seq<char>, a: int, at: int, b: int) -> bool {
    &&& 0 <= a <= at <= b <= text.len()
    &&& forall|i: int| a <= i < b ==> ident(#[trigger] text[i])
    &&& a > 0 ==> !ident(text[a - 1])
    &&& b < text.len() ==> !ident(text[b])
}

/// In an ASCII text the word at a place is all identifier characters around it, and the start
/// of the word those before it.
pub proof fn law_word_is_whole(text: Seq<char>, a: int, at: int, b: int)
    requires
        is_ascii_chars(text),
        whole_word(text, a, at, b),
    ensures
        word(text, at) == text.subrange(a, b),
        word_start(text, at) == text.subrange(a, at),
{
    let bytes = encode_utf8(text);
    is_ascii_chars_encode_utf8(text);
    law_run_start(bytes, at);
    law_run_end(bytes, at);
    let s = run_start(bytes, at);
    let e = run_end(bytes, at);
    assert forall|i: int| 0 <= i < text.len() implies #[trigger] bytes[i] as char == text[i] by {
        assert(bytes[i] == text[i] as u8);
        assert('\0' <= text[i] <= '\u{7f}');
    }
    if s < a {
        assert(ident(bytes[a - 1] as char));
    }
    if a < s {
        assert(ident(text[s - 1]));
        assert(bytes[s - 1] as char == text[s - 1]);
    }
    if e > b {
        assert(ident(bytes[b] as char));
    }
    if e < b {
        assert(ident(text[e]));
        assert(bytes[e] as char == text[e]);
    }
    lemma_ascii_cut(text, a, b);
    lemma_ascii_cut(text, a, at);
}

/// Bytes of an ASCII text are its characters.
proof fn lemma_ascii_cut(text: Seq<char>, a: int, b: int)
    requires
        is_ascii_chars(text),
        0 <= a <= b <= text.len(),
    ensures
        vstd::utf8::decode_utf8(encode_utf8(text).subrange(a, b)) == text.subrange(a, b),
{
    let chars = text.subrange(a, b);
    is_ascii_chars_encode_utf8(text);
    assert(is_ascii_chars(chars));
    is_ascii_chars_encode_utf8(chars);
    assert(encode_utf8(chars) =~= encode_utf8(text).subrange(a, b));
    encode_utf8_decode_utf8(chars);
}

/// Identifiers are made of letters, digits and underscores; of ASCII there are no others.
pub proof fn law_identifier_characters(c: char)
    requires
        '\0' <= c <= '\u{7f}',
    ensures
        ident(c) <==> ('a' <= c && c <= 'z') || ('A' <= c && c <= 'Z') || ('0' <= c && c <= '9')
            || c == '_',
{
}

/// A name is known exactly if the table has an entry for it, which is what is found.
pub proof fn law_lookup(symbols: SymbolTable, name: Seq<char>)
    ensures
        lookup_in(symbols, name) is Some <==> symbols.dom().contains(name),
        lookup_in(symbols, name) matches Some(s) ==> s == symbols[name],
{
}

// ── Lists ─────────────────────────────────────────────────────────────────────

/// Whether `at` are places below `n`, from the lowest to the highest.
pub open spec fn picks(at: Seq<int>, n: int) -> bool {
    &&& forall|k: int| 0 <= k < at.len() ==> 0 <= #[trigger] at[k] < n
    &&& forall|k: int, l: int| 0 <= k < l < at.len() ==> #[trigger] at[k] < #[trigger] at[l]
}

/// The values of a list with gaps stand at the places that have one, in order.
pub proof fn lemma_present_places<A>(s: Seq<Option<A>>) -> (at: Seq<int>)
    ensures
        picks(at, s.len() as int),
        at.len() == present(s).len(),
        forall|k: int| 0 <= k < at.len() ==> s[#[trigger] at[k]] == Some(present(s)[k]),
        forall|i: int| 0 <= i < s.len() ==> (#[trigger] s[i] is Some <==> at.contains(i)),
    decreases s.len(),
{
    if s.len() == 0 {
        Seq::empty()
    } else {
        let rest = s.drop_last();
        let before = lemma_present_places(rest);
        let n = s.len() - 1;
        let at = if s.last() is Some {
            before.push(n)
        } else {
            before
        };
        assert forall|k: int| 0 <= k < at.len() implies s[#[trigger] at[k]] == Some(present(s)[k])
            && 0 <= at[k] < s.len() by {
            if k < before.len() {
                assert(at[k] == before[k]);
                assert(rest[before[k]] == s[before[k]]);
            }
        }
        assert forall|k: int, l: int| 0 <= k < l < at.len() implies #[trigger] at[k]
            < #[trigger] at[l] by {
            if l < before.len() {
                assert(before[k] < before[l]);
            } else {
                assert(0 <= before[k] < n);
            }
        }
        assert forall|i: int| 0 <= i < s.len() implies (#[trigger] s[i] is Some
            <==> at.contains(i)) by {
            if i < n {
                assert(rest[i] == s[i]);
                if before.contains(i) {
                    let k = choose|k: int| 0 <= k < before.len() && before[k] == i;
                    assert(at[k] == i);
                }
                if at.contains(i) {
                    let k = choose|k: int| 0 <= k < at.len() && at[k] == i;
                    assert(before[k] == i);
                }
            } else if s.last() is Some {
                assert(at[before.len() as int] == n);
            } else if at.contains(i) {
                let k = choose|k: int| 0 <= k < at.len() && at[k] == i;
                assert(0 <= before[k] < n);
            }
        }
        at
    }
}

/// The first value of a list with gaps is that of the first place that has one.
pub proof fn lemma_first_at<A>(s: Seq<Option<A>>, i: int)
    requires
        0 <= i < s.len(),
        s[i] is Some,
        forall|j: int| 0 <= j < i ==> #[trigger] s[j] is None,
    ensures
        first(s) == s[i],
    decreases i,
{
    if i > 0 {
        assert(s[0] is None);
        let rest = s.drop_first();
        assert forall|j: int| 0 <= j < i - 1 implies #[trigger] rest[j] is None by {
            assert(s[j + 1] is None);
        }
        lemma_first_at(rest, i - 1);
    }
}

/// A list without values has no first one.
pub proof fn lemma_first_none<A>(s: Seq<Option<A>>)
    requires
        forall|j: int| 0 <= j < s.len() ==> #[trigger] s[j] is None,
    ensures
        first(s) is None,
    decreases s.len(),
{
    if s.len() > 0 {
        assert(s[0] is None);
        let rest = s.drop_first();
        assert forall|j: int| 0 <= j < rest.len() implies #[trigger] rest[j] is None by {
            assert(s[j + 1] is None);
        }
        lemma_first_none(rest);
    }
}

// ── Declarations ──────────────────────────────────────────────────────────────

/// The type references that a declaration has: the parents and the targets of the slots of a
/// concept, the domain and the range of a property.
pub open spec fn refers(d: DeclView, t: TypeNameView) -> bool {
    match d {
        DeclView::Concept(c) => c.parents.contains(t) || exists|k: int|
            0 <= k < c.slots.len() && (#[trigger] c.slots[k]).target == t,
        DeclView::Property(p) => t == p.domain || t == p.range,
        DeclView::Rule(_) => false,
        DeclView::Fact(_) => false,
    }
}

/// The span of a type reference.
pub open spec fn span_of(t: TypeNameView) -> Option<SourceSpan> {
    match t {
        TypeNameView::Named { span, .. } => span,
        TypeNameView::Builtin { span, .. } => span,
    }
}

/// Whether a name is all of `full`, or its part behind the last dot.
pub open spec fn last_segment_of(name: Seq<char>, full: Seq<char>) -> bool {
    &&& !name.contains('.')
    &&& name == full || exists|k: int|
        0 <= k < full.len() && #[trigger] full[k] == '.' && name == full.skip(k + 1)
}

} // verus!
