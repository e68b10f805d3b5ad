//! Text buffers: `ropey::Rope` with its position queries.
//!
//! A rope is modelled by its characters. Lines end after a line feed, a carriage
//! return that no line feed follows, a vertical tab, a form feed, NEL, LS or PS.

use ropey::Rope;
use vstd::prelude::*;
use vstd::utf8::{
    encode_utf8, encode_utf8_first_scalar, encode_utf8_valid_utf8, is_char_boundary,
    length_of_first_scalar, pop_first_scalar,
};

verus! {

/// `ropey::Rope`, opaque.
#[verifier::external_type_specification]
#[verifier::external_body]
pub struct ExRope(ropey::Rope);

/// The characters that a rope holds.
pub uninterp spec fn rope_text(rope: Rope) -> Seq<char>;

// ── Model of positions ────────────────────────────────────────────────────────

/// Number of bytes that the first `i` characters take in UTF-8.
pub open spec fn byte_index(text: Seq<char>, i: int) -> int {
    encode_utf8(text.take(i)).len() as int
}

/// Whether a line break ends right before character `i`.
pub open spec fn break_ends_at(text: Seq<char>, i: int) -> bool {
    0 < i <= text.len() && {
        let c = text[i - 1];
        ||| c == '\n' || c == '\u{B}' || c == '\u{C}'
        ||| c == '\u{85}' || c == '\u{2028}' || c == '\u{2029}'
        ||| c == '\r' && !(i < text.len() && text[i] == '\n')
    }
}

/// Number of line breaks that end at or before character `i`.
pub open spec fn breaks_before(text: Seq<char>, i: int) -> nat
    decreases i,
{
    if i <= 0 {
        0
    } else {
        breaks_before(text, i - 1) + if break_ends_at(text, i) { 1nat } else { 0 }
    }
}

/// Number of lines: one more than there are line breaks.
pub open spec fn line_count(text: Seq<char>) -> nat {
    breaks_before(text, text.len() as int) + 1
}

/// Whether line `line` starts at character `i`.
pub open spec fn starts_line(text: Seq<char>, line: int, i: int) -> bool {
    &&& 0 <= i <= text.len()
    &&& breaks_before(text, i) == line
    &&& i == 0 || break_ends_at(text, i)
}

/// The character at which line `line` starts.
pub open spec fn line_start(text: Seq<char>, line: int) -> int {
    choose|i: int| starts_line(text, line, i)
}

// ── Rope operations ───────────────────────────────────────────────────────────

/// `Rope::from_str` makes a rope that holds exactly the given text.
#[verifier::external_body]
pub(crate) fn rope_of(text: &str) -> (r: Rope)
    ensures
        rope_text(r) == text@,
{
    Rope::from_str(text)
}

/// `Rope`'s `Display` writes out the whole text of the rope.
#[verifier::external_body]
pub(crate) fn rope_string(rope: &Rope) -> (r: String)
    ensures
        r@ == rope_text(*rope),
{
    rope.to_string()
}

/// `Rope::len_bytes` is the length of the text in UTF-8.
#[verifier::external_body]
pub(crate) fn len_bytes(rope: &Rope) -> (r: usize)
    ensures
        r == encode_utf8(rope_text(*rope)).len(),
{
    rope.len_bytes()
}

/// `Rope::len_chars` is the number of characters.
#[verifier::external_body]
pub(crate) fn len_chars(rope: &Rope) -> (r: usize)
    ensures
        r == rope_text(*rope).len(),
{
    rope.len_chars()
}

/// `Rope::len_lines` is the number of lines, the last of which may be empty.
#[verifier::external_body]
pub(crate) fn len_lines(rope: &Rope) -> (r: usize)
    ensures
        r == line_count(rope_text(*rope)),
{
    rope.len_lines()
}

/// `Rope::line_to_char` gives the character at which a line starts. It panics on a
/// line beyond the end, which `requires` rules out.
#[verifier::external_body]
pub(crate) fn line_to_char(rope: &Rope, line: usize) -> (r: usize)
    requires
        line < line_count(rope_text(*rope)),
    ensures
        starts_line(rope_text(*rope), line as int, r as int),
{
    rope.line_to_char(line)
}

/// `Rope::char_to_line` counts the line breaks that end at or before a character. It
/// panics beyond the end, which `requires` rules out.
#[verifier::external_body]
pub(crate) fn char_to_line(rope: &Rope, i: usize) -> (r: usize)
    requires
        i <= rope_text(*rope).len(),
    ensures
        r == breaks_before(rope_text(*rope), i as int),
{
    rope.char_to_line(i)
}

/// `Rope::char_to_byte` gives the byte at which a character starts. It panics beyond
/// the end, which `requires` rules out.
#[verifier::external_body]
pub(crate) fn char_to_byte(rope: &Rope, i: usize) -> (r: usize)
    requires
        i <= rope_text(*rope).len(),
    ensures
        r == byte_index(rope_text(*rope), i as int),
{
    rope.char_to_byte(i)
}

/// `Rope::byte_to_char` gives the character that a byte belongs to, or the number of
/// characters for the end of the text. It panics beyond the end, which `requires`
/// rules out.
#[verifier::external_body]
pub(crate) fn byte_to_char(rope: &Rope, b: usize) -> (r: usize)
    requires
        b <= encode_utf8(rope_text(*rope)).len(),
    ensures
        r <= rope_text(*rope).len(),
        byte_index(rope_text(*rope), r as int) <= b,
        r < rope_text(*rope).len() ==> b < byte_index(rope_text(*rope), r + 1),
{
    rope.byte_to_char(b)
}

// ── Facts about bytes ─────────────────────────────────────────────────────────

/// A text is encoded piece by piece.
pub proof fn lemma_encode_concat(a: Seq<char>, b: Seq<char>)
    ensures
        encode_utf8(a + b) == encode_utf8(a) + encode_utf8(b),
    decreases a.len(),
{
    if a.len() == 0 {
        assert(a + b == b);
    } else {
        lemma_encode_concat(a.drop_first(), b);
        assert((a + b).drop_first() == a.drop_first() + b);
    }
}

/// Later characters start at later bytes, and the text ends where its bytes end.
pub proof fn lemma_byte_index_order(text: Seq<char>, i: int, j: int)
    requires
        0 <= i <= j <= text.len(),
    ensures
        0 <= byte_index(text, i) <= byte_index(text, j) <= encode_utf8(text).len(),
        i < j ==> byte_index(text, i) < byte_index(text, j),
        byte_index(text, text.len() as int) == encode_utf8(text).len(),
{
    assert(text.take(text.len() as int) == text);
    lemma_encode_concat(text.take(i), text.subrange(i, j));
    assert(text.take(i) + text.subrange(i, j) == text.take(j));
    lemma_encode_concat(text.take(j), text.skip(j));
    assert(text.take(j) + text.skip(j) == text);
    if i < j {
        assert(encode_utf8(text.subrange(i, j)).len() > 0);
    }
}

/// The bytes of a text are those of its first character and of the rest.
proof fn lemma_byte_index_first(text: Seq<char>, i: int)
    requires
        0 < i <= text.len(),
    ensures
        byte_index(text, i) == length_of_first_scalar(encode_utf8(text)) + byte_index(
            text.drop_first(),
            i - 1,
        ),
        pop_first_scalar(encode_utf8(text)) == encode_utf8(text.drop_first()),
        0 < length_of_first_scalar(encode_utf8(text)) <= encode_utf8(text).len(),
{
    encode_utf8_first_scalar(text);
    assert(pop_first_scalar(encode_utf8(text)) =~= encode_utf8(text.drop_first()));
    assert(text.take(i).drop_first() =~= text.drop_first().take(i - 1));
}

/// A byte between characters is where some character starts, or the end.
pub proof fn lemma_boundary_is_char(text: Seq<char>, b: int) -> (i: int)
    requires
        is_char_boundary(encode_utf8(text), b),
    ensures
        0 <= i <= text.len(),
        byte_index(text, i) == b,
    decreases text.len(),
{
    encode_utf8_valid_utf8(text);
    if b == 0 {
        assert(text.take(0) =~= Seq::empty());
        0
    } else {
        lemma_byte_index_first(text, 1);
        let first = length_of_first_scalar(encode_utf8(text));
        let j = lemma_boundary_is_char(text.drop_first(), b - first);
        lemma_byte_index_first(text, j + 1);
        j + 1
    }
}

/// Where a character starts is between characters.
pub proof fn lemma_char_is_boundary(text: Seq<char>, i: int)
    requires
        0 <= i <= text.len(),
    ensures
        is_char_boundary(encode_utf8(text), byte_index(text, i)),
    decreases i,
{
    encode_utf8_valid_utf8(text);
    if i == 0 {
        assert(text.take(0) =~= Seq::empty());
    } else {
        lemma_byte_index_first(text, i);
        lemma_char_is_boundary(text.drop_first(), i - 1);
        lemma_byte_index_order(text, i, text.len() as int);
    }
}

// ── Facts about lines ─────────────────────────────────────────────────────────

/// Later characters have at least as many line breaks before them.
pub proof fn lemma_breaks_monotone(text: Seq<char>, i: int, j: int)
    requires
        i <= j,
    ensures
        breaks_before(text, i) <= breaks_before(text, j),
    decreases j - i,
{
    if i < j {
        lemma_breaks_monotone(text, i, j - 1);
    }
}

/// A line starts at one character only.
pub proof fn lemma_line_start_unique(text: Seq<char>, line: int, i: int, j: int)
    requires
        starts_line(text, line, i),
        starts_line(text, line, j),
    ensures
        i == j,
{
    if i < j {
        lemma_breaks_monotone(text, i, j - 1);
    } else if j < i {
        lemma_breaks_monotone(text, j, i - 1);
    }
}

/// The line that holds character `i` starts at or before it.
pub proof fn lemma_line_start_exists(text: Seq<char>, i: int) -> (s: int)
    requires
        0 <= i <= text.len(),
    ensures
        s <= i,
        starts_line(text, breaks_before(text, i) as int, s),
    decreases i,
{
    if i == 0 || break_ends_at(text, i) {
        i
    } else {
        lemma_line_start_exists(text, i - 1)
    }
}

/// Every line below the number of lines starts somewhere.
pub proof fn lemma_line_exists(text: Seq<char>, line: int) -> (s: int)
    requires
        0 <= line < line_count(text),
    ensures
        starts_line(text, line, s),
{
    lemma_line_within(text, line, text.len() as int)
}

/// Every line up to that of character `i` starts somewhere.
proof fn lemma_line_within(text: Seq<char>, line: int, i: int) -> (s: int)
    requires
        0 <= i <= text.len(),
        0 <= line <= breaks_before(text, i),
    ensures
        starts_line(text, line, s),
    decreases i,
{
    if breaks_before(text, i) == line {
        lemma_line_start_exists(text, i)
    } else {
        lemma_line_within(text, line, i - 1)
    }
}

} // verus!
