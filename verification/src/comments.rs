//! Descriptions in comments.
//!
//! The comments before a declaration describe it: their lines without blanks at both ends,
//! but for empty lines and annotations, which start with `@`.

use crate::lists::{lemma_present_push, present};
use crate::text::{chars_of, join, joined, pieces, slice_text, split, texts};
use vstd::prelude::*;

verus! {

// ── Blanks ────────────────────────────────────────────────────────────────────

/// Whether a character is a blank: whether it has the Unicode property `White_Space`.
pub open spec fn whitespace(c: char) -> bool {
    ||| ('\u{9}' <= c && c <= '\u{D}') || c == ' ' || c == '\u{85}' || c == '\u{A0}'
    ||| c == '\u{1680}' || ('\u{2000}' <= c && c <= '\u{200A}') || c == '\u{2028}'
    ||| c == '\u{2029}' || c == '\u{202F}' || c == '\u{205F}' || c == '\u{3000}'
}

/// `char::is_whitespace` tells the characters with the Unicode property `White_Space`.
#[verifier::external_body]
pub(crate) fn char_is_whitespace(c: char) -> (r: bool)
    ensures
        r == whitespace(c),
{
    c.is_whitespace()
}

/// A text without blanks at its start.
pub open spec fn trim_start(s: Seq<char>) -> Seq<char>
    decreases s.len(),
{
    if s.len() > 0 && whitespace(s[0]) {
        trim_start(s.drop_first())
    } else {
        s
    }
}

/// A text without blanks at its end.
pub open spec fn trim_end(s: Seq<char>) -> Seq<char>
    decreases s.len(),
{
    if s.len() > 0 && whitespace(s.last()) {
        trim_end(s.drop_last())
    } else {
        s
    }
}

/// A text without blanks at both ends.
pub open spec fn trimmed(s: Seq<char>) -> Seq<char> {
    trim_end(trim_start(s))
}

/// A text without blanks at both ends.
fn trim(text: &str) -> (r: String)
    ensures
        r@ == trimmed(text@),
{
    let v = chars_of(text);
    let to: usize = v.len();
    let mut a: usize = 0;
    assert(v@.subrange(0, to as int) =~= v@);
    while a < to && char_is_whitespace(v[a])
        invariant
            a <= to == v.len(),
            trim_start(v@) == trim_start(v@.subrange(a as int, to as int)),
        decreases to - a,
    {
        proof {
            assert(v@.subrange(a as int, to as int).drop_first() =~= v@.subrange(
                a + 1,
                to as int,
            ));
        }
        a = a + 1;
    }
    let mut b: usize = to;
    while b > a && char_is_whitespace(v[b - 1])
        invariant
            a <= b <= to == v.len(),
            trim_end(v@.subrange(a as int, to as int)) == trim_end(
                v@.subrange(a as int, b as int),
            ),
        decreases b,
    {
        proof {
            assert(v@.subrange(a as int, b as int).drop_last() =~= v@.subrange(a as int, b - 1));
        }
        b = b - 1;
    }
    slice_text(&v, a, b)
}

// ── Lines ─────────────────────────────────────────────────────────────────────

/// The lines of all texts, text by text.
pub open spec fn all_lines(comments: Seq<Seq<char>>) -> Seq<Seq<char>>
    decreases comments.len(),
{
    if comments.len() == 0 {
        Seq::empty()
    } else {
        all_lines(comments.drop_last()) + pieces(comments.last(), '\n')
    }
}

/// What a line adds to a description.
pub open spec fn described(line: Seq<char>) -> Option<Seq<char>> {
    let t = trimmed(line);
    if t.len() == 0 || t[0] == '@' {
        None
    } else {
        Some(t)
    }
}

/// What each line adds to a description.
pub open spec fn all_described(lines: Seq<Seq<char>>) -> Seq<Option<Seq<char>>> {
    Seq::new(lines.len(), |i: int| described(lines[i]))
}

/// The lines of the description in the given comments.
pub open spec fn description_lines(comments: Seq<Seq<char>>) -> Seq<Seq<char>> {
    present(all_described(all_lines(comments)))
}

/// The description in the given comments, if there is one.
pub open spec fn description(comments: Seq<Seq<char>>) -> Option<Seq<char>> {
    let lines = description_lines(comments);
    if lines.len() == 0 {
        None
    } else {
        Some(joined(lines, "\n"@))
    }
}

/// Appends what the lines of a comment describe.
fn push_lines(out: &mut Vec<String>, lines: &Vec<String>)
    ensures
        texts(final(out)@) == texts(old(out)@) + present(all_described(texts(lines@))),
{
    let ghost before = texts(out@);
    let ghost all = all_described(texts(lines@));
    let mut i: usize = 0;
    assert(before =~= before + present(all.take(0)));
    while i < lines.len()
        invariant
            i <= lines.len(),
            all == all_described(texts(lines@)),
            texts(out@) == before + present(all.take(i as int)),
        decreases lines.len() - i,
    {
        proof {
            assert(all.take(i + 1) =~= all.take(i as int).push(all[i as int]));
            lemma_present_push(all.take(i as int), all[i as int]);
        }
        let ghost now = texts(out@);
        let line = trim(lines[i].as_str());
        if !line.as_str().is_empty() && line.as_str().get_char(0) != '@' {
            out.push(line);
            assert(texts(out@) =~= now.push(line@));
        }
        i = i + 1;
    }
    assert(all.take(all.len() as int) =~= all);
}

/// The lines of two lists describe what the lines of each describe.
proof fn lemma_described_concat(a: Seq<Seq<char>>, b: Seq<Seq<char>>)
    ensures
        present(all_described(a + b)) == present(all_described(a)) + present(all_described(b)),
    decreases b.len(),
{
    if b.len() == 0 {
        assert(a + b =~= a);
        assert(present(all_described(a)) + Seq::empty() =~= present(all_described(a)));
    } else {
        lemma_described_concat(a, b.drop_last());
        assert(all_described(a + b).drop_last() =~= all_described(a + b.drop_last()));
        assert(all_described(b).drop_last() =~= all_described(b.drop_last()));
        let x = present(all_described(a));
        let y = present(all_described(b.drop_last()));
        match described(b.last()) {
            Some(t) => {
                assert((x + y).push(t) =~= x + y.push(t));
            },
            None => {},
        }
    }
}

/// The description in the given comments, if there is one.
pub fn description_from_leading(comments: &Vec<String>) -> (r: Option<String>)
    ensures
        match r {
            Some(s) => description(texts(comments@)) == Some(s@),
            None => description(texts(comments@)) is None,
        },
{
    let mut lines: Vec<String> = Vec::new();
    let ghost all = texts(comments@);
    let mut i: usize = 0;
    proof {
        assert(texts(lines@) =~= Seq::empty());
        assert(all_described(all_lines(all.take(0))) =~= Seq::empty());
    }
    while i < comments.len()
        invariant
            i <= comments.len(),
            all == texts(comments@),
            texts(lines@) == description_lines(all.take(i as int)),
        decreases comments.len() - i,
    {
        proof {
            assert(all.take(i + 1).drop_last() =~= all.take(i as int));
            assert(all.take(i + 1).last() == comments@[i as int]@);
        }
        let split_lines = split(comments[i].as_str(), '\n');
        push_lines(&mut lines, &split_lines);
        proof {
            lemma_described_concat(all_lines(all.take(i as int)), texts(split_lines@));
        }
        i = i + 1;
    }
    assert(all.take(all.len() as int) =~= all);
    assert(texts(lines@).len() == lines@.len());
    if lines.len() == 0 {
        None
    } else {
        Some(join(&lines, "\n"))
    }
}

} // verus!
