//! Identifiers in source text.
//!
//! A word is a maximal run of bytes that read as identifier characters. A text that is
//! not ASCII may hold runs that end inside a character; such a run is no word.

use vstd::prelude::*;
use vstd::utf8::{
    decode_utf8, encode_utf8, encode_utf8_valid_utf8, is_ascii_chars, is_ascii_chars_encode_utf8,
    is_char_boundary, is_char_boundary_iff_not_is_continuation_byte,
    is_char_boundary_start_end_of_seq, is_continuation_byte,
};

verus! {

broadcast use vstd::utf8::encode_utf8_decode_utf8;

// ── Identifier characters ─────────────────────────────────────────────────────

/// Whether `char::is_alphanumeric` holds of a character beyond ASCII.
pub uninterp spec fn wide_alphanumeric(c: char) -> bool;

/// Whether a character is a letter or a number.
pub open spec fn alphanumeric(c: char) -> bool {
    if c >= '\u{80}' {
        wide_alphanumeric(c)
    } else {
        ('0' <= c && c <= '9') || ('A' <= c && c <= 'Z') || ('a' <= c && c <= 'z')
    }
}

/// `char::is_alphanumeric` tells letters and numbers of all scripts; of ASCII these are
/// the letters and the digits.
#[verifier::external_body]
pub(crate) fn char_is_alphanumeric(c: char) -> (r: bool)
    ensures
        c >= '\u{80}' ==> r == wide_alphanumeric(c),
        c < '\u{80}' ==> r == (('0' <= c && c <= '9') || ('A' <= c && c <= 'Z') || ('a' <= c && c
            <= 'z')),
{
    c.is_alphanumeric()
}

/// Whether `c` may stand in an identifier.
pub open spec fn ident(c: char) -> bool {
    alphanumeric(c) || c == '_'
}

/// Whether `c` may stand in an identifier.
pub fn is_ident(c: char) -> (r: bool)
    ensures
        r == ident(c),
{
    char_is_alphanumeric(c) || c == '_'
}

// ── Runs of identifier bytes ──────────────────────────────────────────────────

/// The first byte of the run of identifier bytes that ends before byte `at`.
pub open spec fn run_start(bytes: Seq<u8>, at: int) -> int
    decreases at,
{
    if 0 < at <= bytes.len() && ident(bytes[at - 1] as char) {
        run_start(bytes, at - 1)
    } else {
        at
    }
}

/// The byte after the run of identifier bytes that starts at byte `at`.
pub open spec fn run_end(bytes: Seq<u8>, at: int) -> int
    decreases bytes.len() - at,
{
    if 0 <= at < bytes.len() && ident(bytes[at] as char) {
        run_end(bytes, at + 1)
    } else {
        at
    }
}

/// Whether bytes `from..to` of a text are whole characters.
pub open spec fn cuts(text: Seq<char>, from: int, to: int) -> bool {
    &&& is_char_boundary(encode_utf8(text), from)
    &&& is_char_boundary(encode_utf8(text), to)
}

/// The characters in bytes `from..to` of a text.
pub open spec fn cut(text: Seq<char>, from: int, to: int) -> Seq<char> {
    decode_utf8(encode_utf8(text).subrange(from, to))
}

/// Whether the run of identifier bytes around byte `at` is made of whole characters.
pub open spec fn has_word(text: Seq<char>, at: int) -> bool {
    cuts(text, run_start(encode_utf8(text), at), run_end(encode_utf8(text), at))
}

/// The word around byte `at`.
pub open spec fn word(text: Seq<char>, at: int) -> Seq<char> {
    cut(text, run_start(encode_utf8(text), at), run_end(encode_utf8(text), at))
}

/// Whether the run of identifier bytes up to byte `at` is made of whole characters.
pub open spec fn has_word_start(text: Seq<char>, at: int) -> bool {
    cuts(text, run_start(encode_utf8(text), at), at)
}

/// The part of a word that ends before byte `at`.
pub open spec fn word_start(text: Seq<char>, at: int) -> Seq<char> {
    cut(text, run_start(encode_utf8(text), at), at)
}

/// The first byte of the run of identifier bytes that ends before `at`.
pub fn start_of_run(source: &str, at: usize) -> (r: usize)
    requires
        at <= encode_utf8(source@).len(),
    ensures
        r <= at,
        r == run_start(encode_utf8(source@), at as int),
{
    let bytes = source.as_bytes();
    let mut i: usize = at;
    while i > 0 && is_ident(bytes[i - 1] as char)
        invariant
            i <= at <= bytes.len(),
            bytes@ == encode_utf8(source@),
            run_start(bytes@, at as int) == run_start(bytes@, i as int),
        decreases i,
    {
        i = i - 1;
    }
    i
}

/// The byte after the run of identifier bytes that starts at `at`.
pub fn end_of_run(source: &str, at: usize) -> (r: usize)
    requires
        at <= encode_utf8(source@).len(),
    ensures
        at <= r <= encode_utf8(source@).len(),
        r == run_end(encode_utf8(source@), at as int),
{
    let bytes = source.as_bytes();
    let mut i: usize = at;
    while i < bytes.len() && is_ident(bytes[i] as char)
        invariant
            at <= i <= bytes.len(),
            bytes@ == encode_utf8(source@),
            run_end(bytes@, at as int) == run_end(bytes@, i as int),
        decreases bytes.len() - i,
    {
        i = i + 1;
    }
    i
}

/// Whether the run of identifier bytes around byte `at` is made of whole characters.
pub fn check_word(source: &str, at: usize) -> (r: bool)
    requires
        at <= encode_utf8(source@).len(),
    ensures
        r == has_word(source@, at as int),
{
    let start: usize = start_of_run(source, at);
    let end: usize = end_of_run(source, at);
    source.is_char_boundary(start) && source.is_char_boundary(end)
}

/// Whether the run of identifier bytes up to byte `at` is made of whole characters.
pub fn check_word_start(source: &str, at: usize) -> (r: bool)
    requires
        at <= encode_utf8(source@).len(),
    ensures
        r == has_word_start(source@, at as int),
{
    let start: usize = start_of_run(source, at);
    source.is_char_boundary(start) && source.is_char_boundary(at)
}

/// The characters in bytes `from..to`.
pub fn cut_text(source: &str, from: usize, to: usize) -> (r: &str)
    requires
        from <= to <= encode_utf8(source@).len(),
        cuts(source@, from as int, to as int),
    ensures
        r@ == cut(source@, from as int, to as int),
{
    let ghost all = encode_utf8(source@);
    let head = source.split_at(to).0;
    proof {
        encode_utf8_valid_utf8(source@);
        encode_utf8_valid_utf8(head@);
        let h = encode_utf8(head@);
        assert(h == all.subrange(0, to as int));
        is_char_boundary_start_end_of_seq(h);
        if from < to {
            assert(h[from as int] == all[from as int]);
            is_char_boundary_iff_not_is_continuation_byte(all, from as int);
            is_char_boundary_iff_not_is_continuation_byte(h, from as int);
        }
        assert(is_char_boundary(h, from as int));
    }
    let r = head.split_at(from).1;
    proof {
        assert(encode_utf8(r@) == all.subrange(from as int, to as int));
        assert(decode_utf8(encode_utf8(r@)) == r@);
    }
    r
}

// ── Laws ──────────────────────────────────────────────────────────────────────

/// The run that ends before `at` starts no later than `at`, holds identifier bytes only,
/// and cannot be extended to the left.
pub proof fn law_run_start(bytes: Seq<u8>, at: int)
    requires
        0 <= at <= bytes.len(),
    ensures
        0 <= run_start(bytes, at) <= at,
        forall|i: int| run_start(bytes, at) <= i < at ==> ident(#[trigger] bytes[i] as char),
        run_start(bytes, at) > 0 ==> !ident(bytes[run_start(bytes, at) - 1] as char),
    decreases at,
{
    if 0 < at && ident(bytes[at - 1] as char) {
        law_run_start(bytes, at - 1);
    }
}

/// The run that starts at `at` ends no earlier than `at`, holds identifier bytes only,
/// and cannot be extended to the right.
pub proof fn law_run_end(bytes: Seq<u8>, at: int)
    requires
        0 <= at <= bytes.len(),
    ensures
        at <= run_end(bytes, at) <= bytes.len(),
        forall|i: int| at <= i < run_end(bytes, at) ==> ident(#[trigger] bytes[i] as char),
        run_end(bytes, at) < bytes.len() ==> !ident(bytes[run_end(bytes, at)] as char),
    decreases bytes.len() - at,
{
    if at < bytes.len() && ident(bytes[at] as char) {
        law_run_end(bytes, at + 1);
    }
}

/// In an ASCII text every byte position has a word.
pub proof fn law_ascii_has_word(text: Seq<char>, at: int)
    requires
        is_ascii_chars(text),
        0 <= at <= text.len(),
    ensures
        has_word(text, at),
        has_word_start(text, at),
{
    let bytes = encode_utf8(text);
    is_ascii_chars_encode_utf8(text);
    encode_utf8_valid_utf8(text);
    law_run_start(bytes, at);
    law_run_end(bytes, at);
    assert forall|i: int| 0 <= i <= bytes.len() implies is_char_boundary(bytes, i) by {
        is_char_boundary_start_end_of_seq(bytes);
        if i < bytes.len() {
            is_char_boundary_iff_not_is_continuation_byte(bytes, i);
            assert(text[i] as u8 == bytes[i]);
            assert('\0' <= text[i] <= '\u{7f}');
            assert(!is_continuation_byte(bytes[i]));
        }
    }
}

} // verus!
