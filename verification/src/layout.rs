//! Texts whose layout `rowl`'s lexer can follow.
//!
//! The lexer turns line breaks into tokens for indentation. Line breaks with nothing but
//! comments and unreadable characters between them form one gap, and the lexer joins the
//! tokens of a gap. It does not come back from two kinds of gaps that go deeper than the
//! line before them: one that the text ends in, and one that goes deeper in two steps or
//! more and leaves the indentation of the line before it in one. Both are harmless once the
//! gap has left that indentation before. This module tells the texts without such gaps, and
//! how far a parser gets in a text: it stops at the first piece that cannot be read, so it
//! does not reach a gap behind that.

use crate::text::{chars_of, slice_text};
use vstd::prelude::*;

verus! {

// ── Model ─────────────────────────────────────────────────────────────────────

/// What the lexer has seen of the layout of a text.
pub struct Layout {
    /// The indentations that are open, from the outermost to the innermost; never zero.
    pub levels: Seq<nat>,
    /// How many of them the current gap has opened.
    pub deeper: nat,
    /// Whether the current gap has closed one that stood open before it.
    pub left: bool,
}

/// The layout at the start of a text.
pub open spec fn at_start() -> Layout {
    Layout { levels: Seq::empty(), deeper: 0, left: false }
}

/// The indentations that are not deeper than `n`.
pub open spec fn lowered(levels: Seq<nat>, n: nat) -> Seq<nat>
    decreases levels.len(),
{
    if levels.len() > 0 && levels.last() > n {
        lowered(levels.drop_last(), n)
    } else {
        levels
    }
}

/// The layout after a line break before a line with the indentation `n`, `None` if the
/// lexer does not come back from it.
pub open spec fn landed(s: Layout, n: nat) -> Option<Layout> {
    let top = if s.levels.len() == 0 {
        0
    } else {
        s.levels.last()
    };
    if n > top {
        Some(Layout { levels: s.levels.push(n), deeper: s.deeper + 1, ..s })
    } else {
        let levels = lowered(s.levels, n);
        let closed = s.levels.len() - levels.len();
        if closed <= s.deeper {
            Some(Layout { levels, deeper: (s.deeper - closed) as nat, ..s })
        } else if s.deeper >= 2 && !s.left {
            None
        } else {
            Some(Layout { levels, deeper: 0, left: true })
        }
    }
}

/// A piece of a text, as far as the layout goes.
pub enum Piece {
    /// Blanks or a comment.
    Blank,
    /// What the lexer cannot read.
    Unreadable,
    /// A token, or part of one.
    Token,
    /// A line break, with the indentation of the line after it.
    Break(nat),
}

/// Whether a character is an ASCII letter.
pub open spec fn letter(c: char) -> bool {
    ('a' <= c && c <= 'z') || ('A' <= c && c <= 'Z')
}

/// Whether a character is an ASCII digit.
pub open spec fn number(c: char) -> bool {
    '0' <= c && c <= '9'
}

/// Whether a character is a token by itself or starts a longer one.
pub open spec fn mark(c: char) -> bool {
    ||| c == ':' || c == ',' || c == '.' || c == '*' || c == '|' || c == '[' || c == ']'
    ||| c == '=' || c == '>' || c == '+' || c == '-' || c == '/' || c == '(' || c == ')'
}

/// The first place from `i` on that holds `c`, the end of the text if there is none.
pub open spec fn find(t: Seq<char>, i: int, c: char) -> int
    decreases t.len() - i,
{
    if 0 <= i < t.len() && t[i] != c {
        find(t, i + 1, c)
    } else {
        i
    }
}

/// The end of the run of digits and underscores at `i`.
pub open spec fn digits_end(t: Seq<char>, i: int) -> int
    decreases t.len() - i,
{
    if 0 <= i < t.len() && (number(t[i]) || t[i] == '_') {
        digits_end(t, i + 1)
    } else {
        i
    }
}

/// The end of the run of digits at `i`.
pub open spec fn figures_end(t: Seq<char>, i: int) -> int
    decreases t.len() - i,
{
    if 0 <= i < t.len() && number(t[i]) {
        figures_end(t, i + 1)
    } else {
        i
    }
}

/// The number that the digits from `i` to `end` write. Underscores do not count.
pub open spec fn worth(t: Seq<char>, i: int, end: int) -> nat
    decreases end - i,
{
    if i < end {
        if number(t[end - 1]) {
            10 * worth(t, i, end - 1) + (t[end - 1] as nat - '0' as nat) as nat
        } else {
            worth(t, i, end - 1)
        }
    } else {
        0
    }
}

/// Whether the fraction of a number starts at `i`: a dot and a digit.
pub open spec fn fraction(t: Seq<char>, i: int) -> bool {
    stands(t, i, '.') && i + 1 < t.len() && number(t[i + 1])
}

/// The end of the exponent at `i`, which is `i` if there is none.
pub open spec fn exponent_end(t: Seq<char>, i: int) -> int {
    if stands(t, i, 'e') || stands(t, i, 'E') {
        let from = if stands(t, i + 1, '+') || stands(t, i + 1, '-') {
            i + 2
        } else {
            i + 1
        };
        if from < t.len() && number(t[from]) {
            figures_end(t, from)
        } else {
            i
        }
    } else {
        i
    }
}

/// How many characters from `i` on are those of `word`.
pub open spec fn agreeing(t: Seq<char>, i: int, word: Seq<char>) -> int
    decreases word.len(),
{
    if word.len() > 0 && stands(t, i, word[0]) {
        1 + agreeing(t, i + 1, word.skip(1))
    } else {
        0
    }
}

/// The end of the run of letters, digits and underscores at `i`.
pub open spec fn name_end(t: Seq<char>, i: int) -> int
    decreases t.len() - i,
{
    if 0 <= i < t.len() && (letter(t[i]) || number(t[i]) || t[i] == '_') {
        name_end(t, i + 1)
    } else {
        i
    }
}

/// Where a string literal ends whose contents start at `i`, and whether it is closed. A
/// backslash takes the next character with it, which must not be a line feed.
pub open spec fn literal_end(t: Seq<char>, i: int) -> (bool, int)
    decreases t.len() - i,
{
    if 0 <= i < t.len() {
        if t[i] == '"' {
            (true, i + 1)
        } else if t[i] == '\\' {
            if i + 1 < t.len() && t[i + 1] != '\n' {
                literal_end(t, i + 2)
            } else {
                (false, i + 1)
            }
        } else {
            literal_end(t, i + 1)
        }
    } else {
        (false, i)
    }
}

/// The length of the line ending at `i`, zero if there is none.
pub open spec fn ending(t: Seq<char>, i: int) -> int {
    if 0 <= i < t.len() && t[i] == '\n' {
        1
    } else if 0 <= i && i + 1 < t.len() && t[i] == '\r' && t[i + 1] == '\n' {
        2
    } else {
        0
    }
}

/// The end of the spaces and tabs at `i`, and how far they indent: a tab counts twice.
pub open spec fn indent(t: Seq<char>, i: int) -> (int, nat)
    decreases t.len() - i,
{
    if 0 <= i < t.len() && (t[i] == ' ' || t[i] == '\t') {
        let (end, n) = indent(t, i + 1);
        (
            end,
            n + if t[i] == '\t' {
                2nat
            } else {
                1
            },
        )
    } else {
        (i, 0)
    }
}

/// The end of the line break that starts with the line ending at `i`, and the indentation
/// of the line after it. Empty lines belong to the break.
pub open spec fn break_end(t: Seq<char>, i: int) -> (int, nat)
    decreases t.len() - i,
    when 0 <= i
{
    let (end, n) = indent(t, i + ending(t, i));
    if ending(t, i) > 0 && i < end && ending(t, end) > 0 {
        break_end(t, end)
    } else {
        (end, n)
    }
}

/// Whether `c` stands at `i`.
pub open spec fn stands(t: Seq<char>, i: int, c: char) -> bool {
    0 <= i < t.len() && t[i] == c
}

/// The piece at `i` and its end.
pub open spec fn piece(t: Seq<char>, i: int) -> (Piece, int) {
    let c = t[i];
    if ending(t, i) > 0 {
        let (end, n) = break_end(t, i);
        (Piece::Break(n), end)
    } else if c == ' ' || c == '\t' || c == '\u{c}' {
        (Piece::Blank, i + 1)
    } else if c == '#' {
        (Piece::Blank, find(t, i, '\n'))
    } else if c == '"' {
        let (closed, end) = literal_end(t, i + 1);
        (
            if closed {
                Piece::Token
            } else {
                Piece::Unreadable
            },
            end,
        )
    } else if c == '<' {
        let end = find(t, i + 1, '>');
        (
            Piece::Token,
            if i + 1 < end < t.len() {
                end + 1
            } else {
                i + 1
            },
        )
    } else if number(c) {
        let end = digits_end(t, i);
        if fraction(t, end) {
            (Piece::Token, exponent_end(t, digits_end(t, end + 1)))
        } else if worth(t, i, end) <= i64::MAX {
            (Piece::Token, end)
        } else {
            (Piece::Unreadable, end)
        }
    } else if c == '@' {
        let n = agreeing(t, i, "@iri_name"@);
        (
            if n == "@iri_name"@.len() {
                Piece::Token
            } else {
                Piece::Unreadable
            },
            i + n,
        )
    } else if letter(c) {
        let n = agreeing(t, i, "one of"@);
        (
            Piece::Token,
            if n == "one of"@.len() {
                i + n
            } else {
                name_end(t, i)
            },
        )
    } else if mark(c) {
        (Piece::Token, i + 1)
    } else if c == '?' && i + 1 < t.len() && (letter(t[i + 1]) || t[i + 1] == '_') {
        (Piece::Token, name_end(t, i + 1))
    } else if (c == '!' && stands(t, i + 1, '=')) || (c == '^' && stands(t, i + 1, '^')) {
        (Piece::Token, i + 2)
    } else {
        (Piece::Unreadable, i + 1)
    }
}

/// Whether the lexer can follow the text from `i` on with the layout `s` to the end.
pub open spec fn followed(t: Seq<char>, i: int, s: Layout) -> bool
    decreases t.len() - i,
    when 0 <= i
{
    if i < t.len() {
        let (p, end) = piece(t, i);
        if i < end <= t.len() {
            match p {
                Piece::Blank => followed(t, end, s),
                Piece::Unreadable => followed(t, end, s),
                Piece::Token => followed(t, end, Layout { deeper: 0, left: false, ..s }),
                Piece::Break(n) => match landed(s, n) {
                    Some(u) => followed(t, end, u),
                    None => false,
                },
            }
        } else {
            false
        }
    } else {
        s.deeper == 0 || s.left
    }
}

/// Whether `rowl`'s lexer can follow the layout of a text to its end.
pub open spec fn laid_out(text: Seq<char>) -> bool {
    followed(text, 0, at_start())
}

/// How far a parser gets in a text that no error of syntax stops it in.
#[derive(Clone, Copy, PartialEq, Eq, Debug, Structural)]
pub enum Course {
    /// To the end.
    Whole,
    /// To a piece that cannot be read.
    Unreadable,
    /// To a gap inside the text that cannot be followed.
    Lost,
    /// To a gap that the text ends in and that cannot be followed.
    Dangling,
}

/// How far a parser gets from `i` on with the layout `s`, and the end of the last token up to
/// there, `last` if there is none.
pub open spec fn course(t: Seq<char>, i: int, s: Layout, last: int) -> (Course, int)
    decreases t.len() - i,
    when 0 <= i
{
    if i < t.len() {
        let (p, end) = piece(t, i);
        if i < end <= t.len() {
            match p {
                Piece::Blank => course(t, end, s, last),
                Piece::Unreadable => (Course::Unreadable, last),
                Piece::Token => course(t, end, Layout { deeper: 0, left: false, ..s }, end),
                Piece::Break(n) => match landed(s, n) {
                    Some(u) => course(t, end, u, last),
                    None => (Course::Lost, last),
                },
            }
        } else {
            (Course::Lost, last)
        }
    } else if s.deeper == 0 || s.left {
        (Course::Whole, last)
    } else {
        (Course::Dangling, last)
    }
}

/// How far a parser gets in a text that no error of syntax stops it in.
pub open spec fn course_of(text: Seq<char>) -> Course {
    course(text, 0, at_start(), 0).0
}

/// The part of a text up to the last token that a parser can reach.
pub open spec fn head(text: Seq<char>) -> Seq<char> {
    text.take(course(text, 0, at_start(), 0).1)
}

/// Whether a parser does not get to a gap that cannot be followed, whatever its grammar.
pub open spec fn parsable(text: Seq<char>) -> bool {
    course_of(text) is Whole || course_of(text) is Unreadable
}

// ── Reading pieces ────────────────────────────────────────────────────────────

/// Whether a character is an ASCII letter.
fn is_letter(c: char) -> (r: bool)
    ensures
        r == letter(c),
{
    ('a' <= c && c <= 'z') || ('A' <= c && c <= 'Z')
}

/// Whether a character is an ASCII digit.
fn is_number(c: char) -> (r: bool)
    ensures
        r == number(c),
{
    '0' <= c && c <= '9'
}

/// Whether a character is a token by itself or starts a longer one.
fn is_mark(c: char) -> (r: bool)
    ensures
        r == mark(c),
{
    c == ':' || c == ',' || c == '.' || c == '*' || c == '|' || c == '[' || c == ']' || c == '='
        || c == '>' || c == '+' || c == '-' || c == '/' || c == '(' || c == ')'
}

/// A place that was found lies inside the text.
proof fn lemma_find(t: Seq<char>, i: int, c: char)
    requires
        0 <= i <= t.len(),
    ensures
        i <= find(t, i, c) <= t.len(),
    decreases t.len() - i,
{
    if i < t.len() {
        lemma_find(t, i + 1, c);
    }
}

/// The end of a run lies behind its start and inside the text.
proof fn lemma_ends(t: Seq<char>, i: int)
    requires
        0 <= i <= t.len(),
    ensures
        i <= digits_end(t, i) <= t.len(),
        i <= figures_end(t, i) <= t.len(),
        i <= name_end(t, i) <= t.len(),
        i <= literal_end(t, i).1 <= t.len(),
        i <= indent(t, i).0 <= t.len(),
        indent(t, i).1 <= 2 * (t.len() - i),
    decreases t.len() - i,
{
    if i < t.len() {
        lemma_ends(t, i + 1);
        if i + 1 < t.len() {
            lemma_ends(t, i + 2);
        }
    }
}

/// A line break ends behind its start.
proof fn lemma_break_end(t: Seq<char>, i: int)
    requires
        0 <= i <= t.len(),
        ending(t, i) > 0,
    ensures
        i < break_end(t, i).0 <= t.len(),
        break_end(t, i).1 <= 2 * t.len(),
    decreases t.len() - i,
{
    lemma_ends(t, i + ending(t, i));
    let (end, n) = indent(t, i + ending(t, i));
    if ending(t, end) > 0 {
        lemma_break_end(t, end);
    }
}

/// Characters that agree with a word lie inside the text.
proof fn lemma_agreeing(t: Seq<char>, i: int, word: Seq<char>)
    requires
        0 <= i <= t.len(),
    ensures
        0 <= agreeing(t, i, word) <= word.len(),
        i + agreeing(t, i, word) <= t.len(),
    decreases word.len(),
{
    if word.len() > 0 && stands(t, i, word[0]) {
        lemma_agreeing(t, i + 1, word.skip(1));
    }
}

/// A piece ends behind its start.
pub(crate) proof fn lemma_piece(t: Seq<char>, i: int)
    requires
        0 <= i < t.len(),
    ensures
        i < piece(t, i).1 <= t.len(),
        piece(t, i).0 matches Piece::Break(n) ==> n <= 2 * t.len(),
{
    lemma_ends(t, i + 1);
    lemma_find(t, i + 1, '\n');
    lemma_find(t, i + 1, '>');
    lemma_agreeing(t, i, "@iri_name"@);
    lemma_agreeing(t, i, "one of"@);
    reveal_strlit("@iri_name");
    reveal_strlit("one of");
    if t[i] == '@' {
        lemma_agreeing(t, i + 1, "@iri_name"@.skip(1));
        assert(agreeing(t, i, "@iri_name"@) >= 1);
    }
    if ending(t, i) > 0 {
        lemma_break_end(t, i);
    }
    if number(t[i]) && fraction(t, digits_end(t, i)) {
        lemma_ends(t, digits_end(t, i) + 1);
        lemma_exponent_end(t, digits_end(t, digits_end(t, i) + 1));
    }
}

/// An exponent ends inside the text.
proof fn lemma_exponent_end(t: Seq<char>, i: int)
    requires
        0 <= i <= t.len(),
    ensures
        i <= exponent_end(t, i) <= t.len(),
{
    if i + 2 <= t.len() {
        lemma_ends(t, i + 1);
        lemma_ends(t, i + 2);
    }
}

/// The first place from `from` on that holds `c`.
fn find_char(t: &Vec<char>, from: usize, c: char) -> (r: usize)
    requires
        from <= t.len(),
    ensures
        r == find(t@, from as int, c),
        from <= r <= t.len(),
{
    let mut i: usize = from;
    while i < t.len() && t[i] != c
        invariant
            from <= i <= t.len(),
            find(t@, from as int, c) == find(t@, i as int, c),
        decreases t.len() - i,
    {
        i = i + 1;
    }
    i
}

/// The end of the run of digits and underscores at `from`.
fn find_digits_end(t: &Vec<char>, from: usize) -> (r: usize)
    requires
        from <= t.len(),
    ensures
        r == digits_end(t@, from as int),
        from <= r <= t.len(),
{
    let mut i: usize = from;
    while i < t.len() && (is_number(t[i]) || t[i] == '_')
        invariant
            from <= i <= t.len(),
            digits_end(t@, from as int) == digits_end(t@, i as int),
        decreases t.len() - i,
    {
        i = i + 1;
    }
    i
}

/// The end of the run of digits at `from`.
fn find_figures_end(t: &Vec<char>, from: usize) -> (r: usize)
    requires
        from <= t.len(),
    ensures
        r == figures_end(t@, from as int),
        from <= r <= t.len(),
{
    let mut i: usize = from;
    while i < t.len() && is_number(t[i])
        invariant
            from <= i <= t.len(),
            figures_end(t@, from as int) == figures_end(t@, i as int),
        decreases t.len() - i,
    {
        i = i + 1;
    }
    i
}

/// Whether the number that the digits from `from` to `end` write is one of 64 bits.
fn fits(t: &Vec<char>, from: usize, end: usize) -> (r: bool)
    requires
        from <= end <= t.len(),
    ensures
        r == (worth(t@, from as int, end as int) <= i64::MAX),
{
    let most: u128 = i64::MAX as u128;
    let mut n: u128 = 0;
    let mut i: usize = from;
    while i < end
        invariant
            from <= i <= end <= t.len(),
            most == i64::MAX,
            n <= most ==> worth(t@, from as int, i as int) == n,
            n > most ==> worth(t@, from as int, i as int) > most,
            n <= 10 * most + 9,
        decreases end - i,
    {
        if is_number(t[i]) && n <= most {
            n = 10 * n + (t[i] as u128 - '0' as u128);
        }
        i = i + 1;
    }
    n <= most
}

/// The end of the exponent at `i`.
fn find_exponent_end(t: &Vec<char>, i: usize) -> (r: usize)
    requires
        i <= t.len(),
    ensures
        r == exponent_end(t@, i as int),
{
    if i < t.len() && (t[i] == 'e' || t[i] == 'E') {
        let from: usize = if is_at(t, i + 1, '+') || is_at(t, i + 1, '-') {
            i + 2
        } else {
            i + 1
        };
        if from < t.len() && is_number(t[from]) {
            return find_figures_end(t, from);
        }
    }
    i
}

/// How many characters from `from` on are those of `word`.
fn find_agreeing(t: &Vec<char>, from: usize, word: &str) -> (r: usize)
    requires
        from <= t.len(),
    ensures
        r == agreeing(t@, from as int, word@),
        r <= word@.len(),
        from + r <= t.len(),
{
    let w = chars_of(word);
    let mut n: usize = 0;
    assert(word@.skip(0) =~= word@);
    while n < w.len() && is_at(t, from + n, w[n])
        invariant
            w@ == word@,
            n <= w.len(),
            from + n <= t.len(),
            agreeing(t@, from as int, word@) == n + agreeing(
                t@,
                from + n,
                word@.skip(n as int),
            ),
        decreases w.len() - n,
    {
        assert(word@.skip(n as int).skip(1) =~= word@.skip(n + 1));
        n = n + 1;
    }
    n
}

/// The end of the run of letters, digits and underscores at `from`.
fn find_name_end(t: &Vec<char>, from: usize) -> (r: usize)
    requires
        from <= t.len(),
    ensures
        r == name_end(t@, from as int),
        from <= r <= t.len(),
{
    let mut i: usize = from;
    while i < t.len() && (is_letter(t[i]) || is_number(t[i]) || t[i] == '_')
        invariant
            from <= i <= t.len(),
            name_end(t@, from as int) == name_end(t@, i as int),
        decreases t.len() - i,
    {
        i = i + 1;
    }
    i
}

/// Where a string literal ends whose contents start at `from`, and whether it is closed.
fn find_literal_end(t: &Vec<char>, from: usize) -> (r: (bool, usize))
    requires
        from <= t.len(),
    ensures
        (r.0, r.1 as int) == literal_end(t@, from as int),
        from <= r.1 <= t.len(),
{
    let mut i: usize = from;
    while i < t.len()
        invariant
            from <= i <= t.len(),
            literal_end(t@, from as int) == literal_end(t@, i as int),
        decreases t.len() - i,
    {
        if t[i] == '"' {
            return (true, i + 1);
        }
        if t[i] == '\\' {
            if t.len() - i > 1 && t[i + 1] != '\n' {
                i = i + 2;
            } else {
                return (false, i + 1);
            }
        } else {
            i = i + 1;
        }
    }
    (false, i)
}

/// The length of the line ending at `i`.
fn find_ending(t: &Vec<char>, i: usize) -> (r: usize)
    requires
        i <= t.len(),
    ensures
        r == ending(t@, i as int),
        r <= 2,
        i + r <= t.len(),
{
    if i < t.len() && t[i] == '\n' {
        1
    } else if t.len() - i > 1 && t[i] == '\r' && t[i + 1] == '\n' {
        2
    } else {
        0
    }
}

/// The end of the spaces and tabs at `from`, and how far they indent.
fn find_indent(t: &Vec<char>, from: usize) -> (r: (usize, u128))
    requires
        from <= t.len(),
    ensures
        (r.0 as int, r.1 as nat) == indent(t@, from as int),
        from <= r.0 <= t.len(),
{
    let mut i: usize = from;
    let mut n: u128 = 0;
    while i < t.len() && (t[i] == ' ' || t[i] == '\t')
        invariant
            from <= i <= t.len(),
            n <= 2 * (i - from),
            indent(t@, from as int).0 == indent(t@, i as int).0,
            indent(t@, from as int).1 == n + indent(t@, i as int).1,
        decreases t.len() - i,
    {
        n = n + if t[i] == '\t' {
            2
        } else {
            1
        };
        i = i + 1;
    }
    (i, n)
}

/// The end of the line break at `from`, and the indentation of the line after it.
fn find_break_end(t: &Vec<char>, from: usize) -> (r: (usize, u128))
    requires
        from <= t.len(),
        ending(t@, from as int) > 0,
    ensures
        (r.0 as int, r.1 as nat) == break_end(t@, from as int),
        from < r.0 <= t.len(),
{
    let mut i: usize = from;
    loop
        invariant
            from <= i <= t.len(),
            ending(t@, i as int) > 0,
            break_end(t@, from as int) == break_end(t@, i as int),
        decreases t.len() - i,
    {
        let width: usize = find_ending(t, i);
        let (end, n) = find_indent(t, i + width);
        if find_ending(t, end) == 0 {
            return (end, n);
        }
        i = end;
    }
}

/// A piece that was read.
enum Read {
    Blank,
    Unreadable,
    Token,
    Break(u128),
}

impl View for Read {
    type V = Piece;

    closed spec fn view(&self) -> Piece {
        match *self {
            Read::Blank => Piece::Blank,
            Read::Unreadable => Piece::Unreadable,
            Read::Token => Piece::Token,
            Read::Break(n) => Piece::Break(n as nat),
        }
    }
}

/// Whether `c` stands at `i`.
fn is_at(t: &Vec<char>, i: usize, c: char) -> (r: bool)
    ensures
        r == stands(t@, i as int, c),
{
    i < t.len() && t[i] == c
}

/// The piece at `i` and its end.
fn read_piece(t: &Vec<char>, i: usize) -> (r: (Read, usize))
    requires
        i < t.len(),
    ensures
        (r.0@, r.1 as int) == piece(t@, i as int),
{
    let c = t[i];
    if find_ending(t, i) > 0 {
        let (end, n) = find_break_end(t, i);
        (Read::Break(n), end)
    } else if c == ' ' || c == '\t' || c == '\u{c}' {
        (Read::Blank, i + 1)
    } else if c == '#' {
        (Read::Blank, find_char(t, i, '\n'))
    } else if c == '"' {
        let (closed, end) = find_literal_end(t, i + 1);
        if closed {
            (Read::Token, end)
        } else {
            (Read::Unreadable, end)
        }
    } else if c == '<' {
        let end: usize = find_char(t, i + 1, '>');
        if i + 1 < end && end < t.len() {
            (Read::Token, end + 1)
        } else {
            (Read::Token, i + 1)
        }
    } else if is_number(c) {
        let end: usize = find_digits_end(t, i);
        if is_at(t, end, '.') && end + 1 < t.len() && is_number(t[end + 1]) {
            let end: usize = find_digits_end(t, end + 1);
            (Read::Token, find_exponent_end(t, end))
        } else if fits(t, i, end) {
            (Read::Token, end)
        } else {
            (Read::Unreadable, end)
        }
    } else if c == '@' {
        proof {
            reveal_strlit("@iri_name");
        }
        let n: usize = find_agreeing(t, i, "@iri_name");
        if n == 9 {
            (Read::Token, i + n)
        } else {
            (Read::Unreadable, i + n)
        }
    } else if is_letter(c) {
        proof {
            reveal_strlit("one of");
        }
        let n: usize = find_agreeing(t, i, "one of");
        if n == 6 {
            (Read::Token, i + n)
        } else {
            (Read::Token, find_name_end(t, i))
        }
    } else if is_mark(c) {
        (Read::Token, i + 1)
    } else if c == '?' && i + 1 < t.len() && (is_letter(t[i + 1]) || t[i + 1] == '_') {
        (Read::Token, find_name_end(t, i + 1))
    } else if (c == '!' && is_at(t, i + 1, '=')) || (c == '^' && is_at(t, i + 1, '^')) {
        (Read::Token, i + 2)
    } else {
        (Read::Unreadable, i + 1)
    }
}

// ── Following a layout ────────────────────────────────────────────────────────

/// What has been seen of the layout of a text.
struct Seen {
    levels: Vec<u128>,
    deeper: usize,
    left: bool,
}

impl View for Seen {
    type V = Layout;

    closed spec fn view(&self) -> Layout {
        Layout {
            levels: Seq::new(self.levels@.len(), |i: int| self.levels@[i] as nat),
            deeper: self.deeper as nat,
            left: self.left,
        }
    }
}

/// Takes a line break into account; false if the lexer does not come back from it.
fn land(s: &mut Seen, n: u128) -> (r: bool)
    requires
        old(s).deeper <= old(s).levels@.len(),
    ensures
        match landed(old(s)@, n as nat) {
            Some(u) => r && final(s)@ == u && final(s).deeper <= final(s).levels@.len(),
            None => !r,
        },
{
    let ghost before = s@;
    let top: u128 = if s.levels.len() == 0 {
        0
    } else {
        s.levels[s.levels.len() - 1]
    };
    if n > top {
        s.levels.push(n);
        let depth: usize = s.levels.len();
        assert(s.deeper < depth);
        s.deeper = s.deeper + 1;
        assert(s@.levels =~= before.levels.push(n as nat));
        return true;
    }
    let all: usize = s.levels.len();
    while s.levels.len() > 0 && s.levels[s.levels.len() - 1] > n
        invariant
            s.levels@.len() <= all == before.levels.len(),
            s.deeper == before.deeper,
            s.left == before.left,
            lowered(s@.levels, n as nat) == lowered(before.levels, n as nat),
        decreases s.levels@.len(),
    {
        let ghost now = s@.levels;
        s.levels.pop();
        assert(s@.levels =~= now.drop_last());
    }
    let closed: usize = all - s.levels.len();
    if closed <= s.deeper {
        s.deeper = s.deeper - closed;
        true
    } else if s.deeper >= 2 && !s.left {
        false
    } else {
        s.deeper = 0;
        s.left = true;
        true
    }
}

/// Whether `rowl`'s lexer can follow the layout of a text to its end.
pub fn is_laid_out(text: &str) -> (r: bool)
    ensures
        r == laid_out(text@),
{
    let t = chars_of(text);
    let mut s = Seen { levels: Vec::new(), deeper: 0, left: false };
    assert(s@.levels =~= at_start().levels);
    let mut i: usize = 0;
    while i < t.len()
        invariant
            i <= t.len(),
            t@ == text@,
            s.deeper <= s.levels@.len(),
            laid_out(text@) == followed(t@, i as int, s@),
        decreases t.len() - i,
    {
        proof {
            lemma_piece(t@, i as int);
        }
        let ghost before = s@;
        let (p, end) = read_piece(&t, i);
        match p {
            Read::Blank => {},
            Read::Unreadable => {},
            Read::Token => {
                s.deeper = 0;
                s.left = false;
            },
            Read::Break(n) => {
                if !land(&mut s, n) {
                    return false;
                }
            },
        }
        assert(s@.levels =~= before.levels || p is Break);
        i = end;
    }
    s.deeper == 0 || s.left
}

/// How far a parser gets in a text that no error of syntax stops it in, and the part of the
/// text up to the last token that it can reach.
pub fn trace(text: &str) -> (r: (Course, String))
    ensures
        r.0 == course_of(text@),
        r.1@ == head(text@),
{
    let t = chars_of(text);
    let (c, last) = find_course(&t);
    (c, slice_text(&t, 0, last))
}

/// How far a parser gets in a text, and the end of the last token up to there.
fn find_course(t: &Vec<char>) -> (r: (Course, usize))
    ensures
        (r.0, r.1 as int) == course(t@, 0, at_start(), 0),
        r.1 <= t.len(),
{
    let mut s = Seen { levels: Vec::new(), deeper: 0, left: false };
    assert(s@.levels =~= at_start().levels);
    let mut last: usize = 0;
    let mut i: usize = 0;
    while i < t.len()
        invariant
            last <= i <= t.len(),
            s.deeper <= s.levels@.len(),
            course(t@, 0, at_start(), 0) == course(t@, i as int, s@, last as int),
        decreases t.len() - i,
    {
        proof {
            lemma_piece(t@, i as int);
        }
        let ghost before = s@;
        let (p, end) = read_piece(t, i);
        match p {
            Read::Blank => {},
            Read::Unreadable => {
                return (Course::Unreadable, last);
            },
            Read::Token => {
                s.deeper = 0;
                s.left = false;
                last = end;
            },
            Read::Break(n) => {
                if !land(&mut s, n) {
                    return (Course::Lost, last);
                }
            },
        }
        assert(s@.levels =~= before.levels || p is Break);
        i = end;
    }
    if s.deeper == 0 || s.left {
        (Course::Whole, last)
    } else {
        (Course::Dangling, last)
    }
}

/// Whether a parser does not get to a gap that cannot be followed, whatever its grammar.
pub fn is_parsable(text: &str) -> (r: bool)
    ensures
        r == parsable(text@),
{
    match find_course(&chars_of(text)).0 {
        Course::Whole => true,
        Course::Unreadable => true,
        Course::Lost => false,
        Course::Dangling => false,
    }
}

// ── Laws ──────────────────────────────────────────────────────────────────────

/// Whether no line of a text but the first is indented.
pub open spec fn flat(t: Seq<char>) -> bool {
    forall|i: int|
        0 <= i && i + 1 < t.len() && #[trigger] t[i] == '\n' ==> t[i + 1] != ' ' && t[i + 1]
            != '\t'
}

/// A text can be followed in which no line is indented.
pub proof fn law_flat_is_laid_out(text: Seq<char>)
    requires
        flat(text),
    ensures
        laid_out(text),
{
    lemma_flat_followed(text, 0, at_start());
}

/// In a text that can be followed to its end, a parser does not get to a gap that cannot.
pub proof fn law_laid_out_is_parsable(text: Seq<char>)
    ensures
        laid_out(text) ==> parsable(text),
{
    lemma_followed_course(text, 0, at_start(), 0);
}

/// Where a text can be followed to its end, so can the way of a parser.
proof fn lemma_followed_course(t: Seq<char>, i: int, s: Layout, last: int)
    requires
        0 <= i,
    ensures
        followed(t, i, s) ==> {
            let c = course(t, i, s, last).0;
            c is Whole || c is Unreadable
        },
    decreases t.len() - i,
{
    if i < t.len() {
        let (p, end) = piece(t, i);
        if i < end <= t.len() {
            lemma_followed_course(t, end, s, last);
            lemma_followed_course(t, end, Layout { deeper: 0, left: false, ..s }, end);
            if let Piece::Break(n) = p {
                if let Some(u) = landed(s, n) {
                    lemma_followed_course(t, end, u, last);
                }
            }
        }
    }
}

/// What a parser can reach of a text, followed by a character that cannot be read, is such that
/// it stops at that character; followed by a line break, it can be followed to the end.
pub proof fn law_heads_are_parsable(text: Seq<char>)
    ensures
        course_of(head(text).push('$')) is Unreadable,
        course_of(head(text).push('\n')) is Whole,
{
    let k = course(text, 0, at_start(), 0).1;
    lemma_course_end(text, 0, at_start(), 0);
    lemma_course_of_head(text, head(text).push('$'), k, 0, at_start(), 0);
    lemma_course_of_head(text, head(text).push('\n'), k, 0, at_start(), 0);
}

/// Whether `u` is made of the first `k` characters of `t` and a dollar sign or a line feed.
spec fn ends_early(t: Seq<char>, u: Seq<char>, k: int) -> bool {
    &&& 0 <= k <= t.len()
    &&& u.len() == k + 1
    &&& forall|j: int| 0 <= j < k ==> #[trigger] u[j] == t[j]
    &&& u[k] == '$' || u[k] == '\n'
    &&& k > 0 ==> t[k - 1] != '\r'
}

/// A run does not end with a carriage return.
proof fn lemma_run_ends(t: Seq<char>, i: int)
    requires
        0 <= i <= t.len(),
    ensures
        digits_end(t, i) > i ==> t[digits_end(t, i) - 1] != '\r',
        figures_end(t, i) > i ==> t[figures_end(t, i) - 1] != '\r',
        name_end(t, i) > i ==> t[name_end(t, i) - 1] != '\r',
        literal_end(t, i).0 ==> literal_end(t, i).1 > i && t[literal_end(t, i).1 - 1] == '"',
    decreases t.len() - i,
{
    if i < t.len() {
        lemma_ends(t, i + 1);
        lemma_run_ends(t, i + 1);
        if i + 1 < t.len() {
            lemma_ends(t, i + 2);
            lemma_run_ends(t, i + 2);
        }
    }
}

/// Characters agree with a whole word exactly if they are those of the word.
pub(crate) proof fn lemma_agreeing_whole(t: Seq<char>, i: int, word: Seq<char>)
    requires
        0 <= i <= t.len(),
    ensures
        agreeing(t, i, word) == word.len() <==> i + word.len() <= t.len() && forall|j: int|
            0 <= j < word.len() ==> t[i + j] == #[trigger] word[j],
    decreases word.len(),
{
    lemma_agreeing(t, i, word);
    if word.len() > 0 && stands(t, i, word[0]) {
        let rest = word.skip(1);
        lemma_agreeing_whole(t, i + 1, rest);
        if i + word.len() <= t.len() {
            if forall|j: int| 0 <= j < word.len() ==> t[i + j] == #[trigger] word[j] {
                assert forall|j: int| 0 <= j < rest.len() implies t[i + 1 + j] == #[trigger] rest[j] by {
                    assert(rest[j] == word[j + 1]);
                }
            }
            if forall|j: int| 0 <= j < rest.len() ==> t[i + 1 + j] == #[trigger] rest[j] {
                assert forall|j: int| 0 <= j < word.len() implies t[i + j] == #[trigger] word[j] by {
                    if j > 0 {
                        assert(rest[j - 1] == word[j]);
                    }
                }
            }
        }
    } else if word.len() > 0 && i + word.len() <= t.len() {
        assert(t[i + 0] != word[0]);
    }
}

/// A token does not end with a carriage return.
proof fn lemma_token_end(t: Seq<char>, i: int)
    requires
        0 <= i < t.len(),
        piece(t, i).0 is Token,
    ensures
        t[piece(t, i).1 - 1] != '\r',
{
    lemma_piece(t, i);
    lemma_run_ends(t, i);
    lemma_run_ends(t, i + 1);
    lemma_found(t, i + 1, '>');
    reveal_strlit("@iri_name");
    reveal_strlit("one of");
    lemma_agreeing_whole(t, i, "@iri_name"@);
    lemma_agreeing_whole(t, i, "one of"@);
    if number(t[i]) {
        let end = digits_end(t, i);
        lemma_ends(t, i);
        if fraction(t, end) {
            lemma_ends(t, end + 1);
            lemma_run_ends(t, end + 1);
            let next = digits_end(t, end + 1);
            if next + 1 <= t.len() {
                lemma_ends(t, next + 1);
                lemma_run_ends(t, next + 1);
            }
            if next + 2 <= t.len() {
                lemma_ends(t, next + 2);
                lemma_run_ends(t, next + 2);
            }
        }
    } else if t[i] == '@' {
        assert(t[i + 8] == "@iri_name"@[8]);
    } else if letter(t[i]) {
        if agreeing(t, i, "one of"@) == "one of"@.len() {
            assert(t[i + 5] == "one of"@[5]);
        }
    }
}

/// At a place that was found stands what was looked for, and nowhere before it.
pub(crate) proof fn lemma_found(t: Seq<char>, i: int, c: char)
    requires
        0 <= i <= t.len(),
    ensures
        i <= find(t, i, c) <= t.len(),
        find(t, i, c) < t.len() ==> t[find(t, i, c)] == c,
        forall|j: int| i <= j < find(t, i, c) ==> t[j] != c,
    decreases t.len() - i,
{
    if i < t.len() && t[i] != c {
        lemma_found(t, i + 1, c);
    }
}

/// The last token is one from before, or ends behind the start.
proof fn lemma_course_end(t: Seq<char>, i: int, s: Layout, last: int)
    requires
        0 <= i <= t.len(),
    ensures
        ({
            let k = course(t, i, s, last).1;
            k == last || (i < k <= t.len() && t[k - 1] != '\r')
        }),
    decreases t.len() - i,
{
    if i < t.len() {
        lemma_piece(t, i);
        let (p, end) = piece(t, i);
        match p {
            Piece::Blank => lemma_course_end(t, end, s, last),
            Piece::Unreadable => {},
            Piece::Token => {
                lemma_token_end(t, i);
                lemma_course_end(t, end, Layout { deeper: 0, left: false, ..s }, end);
            },
            Piece::Break(n) => {
                if let Some(u) = landed(s, n) {
                    lemma_course_end(t, end, u, last);
                }
            },
        }
    }
}

/// Runs that end early enough are the same.
proof fn lemma_same_runs(t: Seq<char>, u: Seq<char>, k: int, i: int)
    requires
        ends_early(t, u, k),
        0 <= i <= k,
    ensures
        digits_end(t, i) <= k ==> digits_end(u, i) == digits_end(t, i),
        figures_end(t, i) <= k ==> figures_end(u, i) == figures_end(t, i),
        name_end(t, i) <= k ==> name_end(u, i) == name_end(t, i),
        literal_end(t, i).0 && literal_end(t, i).1 <= k ==> literal_end(u, i) == literal_end(t, i),
        indent(t, i).0 < k ==> indent(u, i) == indent(t, i),
    decreases k - i,
{
    lemma_ends(t, i);
    lemma_run_ends(t, i);
    if i < k {
        assert(u[i] == t[i]);
        lemma_same_runs(t, u, k, i + 1);
        if i + 1 < k {
            assert(u[i + 1] == t[i + 1]);
            lemma_same_runs(t, u, k, i + 2);
        } else if i + 1 < t.len() {
            lemma_ends(t, i + 2);
        }
    }
}

/// A line break that ends early enough is the same.
proof fn lemma_same_break(t: Seq<char>, u: Seq<char>, k: int, i: int)
    requires
        ends_early(t, u, k),
        0 <= i < k,
        ending(t, i) > 0,
        break_end(t, i).0 < k,
    ensures
        break_end(u, i) == break_end(t, i),
    decreases k - i,
{
    let next = i + ending(t, i);
    lemma_ends(t, next);
    let (end, n) = indent(t, next);
    if ending(t, end) > 0 {
        lemma_break_end(t, end);
    }
    assert(u[i] == t[i]);
    if i + 1 < k {
        assert(u[i + 1] == t[i + 1]);
    }
    assert(ending(u, i) == ending(t, i));
    lemma_same_runs(t, u, k, next);
    assert(u[end] == t[end]);
    if end + 1 < k {
        assert(u[end + 1] == t[end + 1]);
    }
    assert(ending(u, end) == ending(t, end));
    if ending(t, end) > 0 {
        lemma_same_break(t, u, k, end);
    }
}

/// A number that ends early enough is the same.
proof fn lemma_same_worth(t: Seq<char>, u: Seq<char>, k: int, i: int, end: int)
    requires
        ends_early(t, u, k),
        0 <= i,
        end <= k,
    ensures
        worth(u, i, end) == worth(t, i, end),
    decreases end - i,
{
    if i < end {
        assert(u[end - 1] == t[end - 1]);
        lemma_same_worth(t, u, k, i, end - 1);
    }
}

/// A word without dollar sign and line feed stands in both texts or in none.
proof fn lemma_same_word(t: Seq<char>, u: Seq<char>, k: int, i: int, word: Seq<char>)
    requires
        ends_early(t, u, k),
        0 <= i <= k,
        forall|j: int| 0 <= j < word.len() ==> #[trigger] word[j] != '$' && word[j] != '\n',
        agreeing(t, i, word) == word.len() ==> i + word.len() <= k,
    ensures
        agreeing(t, i, word) == word.len() <==> agreeing(u, i, word) == word.len(),
{
    lemma_agreeing_whole(t, i, word);
    lemma_agreeing_whole(u, i, word);
    if agreeing(u, i, word) == word.len() {
        if i + word.len() > k {
            assert(u[i + (k - i)] == word[k - i]);
        }
        assert forall|j: int| 0 <= j < word.len() implies t[i + j] == #[trigger] word[j] by {
            assert(u[i + j] == t[i + j]);
        }
    }
    if agreeing(t, i, word) == word.len() {
        assert forall|j: int| 0 <= j < word.len() implies u[i + j] == #[trigger] word[j] by {
            assert(u[i + j] == t[i + j]);
        }
    }
}

/// A piece that ends early enough is the same.
proof fn lemma_same_piece(t: Seq<char>, u: Seq<char>, k: int, i: int)
    requires
        ends_early(t, u, k),
        0 <= i < k,
        !(piece(t, i).0 is Unreadable),
        piece(t, i).1 <= k,
        !(piece(t, i).0 is Token) ==> piece(t, i).1 < k,
    ensures
        piece(u, i) == piece(t, i),
{
    let c = t[i];
    let end = piece(t, i).1;
    assert(u[i] == c);
    lemma_piece(t, i);
    if i + 1 < k {
        assert(u[i + 1] == t[i + 1]);
    }
    assert(ending(u, i) == ending(t, i));
    lemma_same_runs(t, u, k, i);
    lemma_same_runs(t, u, k, i + 1);
    reveal_strlit("@iri_name");
    reveal_strlit("one of");
    if ending(t, i) > 0 {
        lemma_same_break(t, u, k, i);
    } else if c == '#' {
        lemma_found(t, i, '\n');
        lemma_found(u, i, '\n');
        let a = find(t, i, '\n');
        let b = find(u, i, '\n');
        assert(u[a] == t[a]);
        if b < a {
            assert(u[b] == t[b]);
        }
    } else if c == '<' {
        lemma_found(t, i + 1, '>');
        lemma_found(u, i + 1, '>');
        let a = find(t, i + 1, '>');
        let b = find(u, i + 1, '>');
        if b < k {
            assert(u[b] == t[b]);
        }
        if a < k {
            assert(u[a] == t[a]);
        }
    } else if number(c) {
        let stop = digits_end(t, i);
        lemma_ends(t, i);
        if fraction(t, stop) {
            lemma_ends(t, stop + 1);
            lemma_exponent_end(t, digits_end(t, stop + 1));
            lemma_same_fraction(t, u, k, stop);
        } else {
            lemma_same_worth(t, u, k, i, stop);
            if stop < k {
                assert(u[stop] == t[stop]);
            }
            if stop + 1 < k {
                assert(u[stop + 1] == t[stop + 1]);
            }
        }
    } else if c == '@' {
        lemma_same_word(t, u, k, i, "@iri_name"@);
    } else if letter(c) {
        lemma_same_word(t, u, k, i, "one of"@);
    } else if c == '?' && i + 2 <= t.len() {
        lemma_ends(t, i + 2);
    }
}

/// A fraction that ends early enough is the same.
proof fn lemma_same_fraction(t: Seq<char>, u: Seq<char>, k: int, i: int)
    requires
        ends_early(t, u, k),
        0 <= i,
        fraction(t, i),
        exponent_end(t, digits_end(t, i + 1)) <= k,
    ensures
        fraction(u, i),
        digits_end(u, i + 1) == digits_end(t, i + 1),
        exponent_end(u, digits_end(t, i + 1)) == exponent_end(t, digits_end(t, i + 1)),
{
    let e = digits_end(t, i + 1);
    lemma_ends(t, i + 2);
    lemma_exponent_end(t, e);
    assert(e >= i + 2);
    assert(u[i] == t[i] && u[i + 1] == t[i + 1]);
    lemma_same_runs(t, u, k, i + 1);
    if e < k {
        assert(u[e] == t[e]);
    }
    if e + 1 < k {
        assert(u[e + 1] == t[e + 1]);
        lemma_same_runs(t, u, k, e + 1);
    }
    if e + 2 < k {
        assert(u[e + 2] == t[e + 2]);
        lemma_same_runs(t, u, k, e + 2);
    }
    if e + 2 <= t.len() {
        lemma_ends(t, e + 1);
        lemma_ends(t, e + 2);
    }
    if e + 3 <= t.len() {
        lemma_ends(t, e + 3);
    }
}

/// Lowering opens no indentation.
proof fn lemma_lowered(levels: Seq<nat>, n: nat)
    ensures
        lowered(levels, n).len() <= levels.len(),
    decreases levels.len(),
{
    if levels.len() > 0 {
        lemma_lowered(levels.drop_last(), n);
    }
}

/// In a text that ends early behind its last token, the way of a parser is the same up to
/// there.
proof fn lemma_course_of_head(t: Seq<char>, u: Seq<char>, k: int, i: int, s: Layout, last: int)
    requires
        ends_early(t, u, k),
        0 <= i <= k,
        last <= i,
        i == k ==> s.deeper == 0,
        course(t, i, s, last).1 == k,
    ensures
        course(u, i, s, last).0 == if u[k] == '$' {
            Course::Unreadable
        } else {
            Course::Whole
        },
    decreases k - i,
{
    if i < k {
        lemma_piece(t, i);
        let (p, end) = piece(t, i);
        match p {
            Piece::Blank => {
                lemma_course_end(t, end, s, last);
                lemma_same_piece(t, u, k, i);
                lemma_course_of_head(t, u, k, end, s, last);
            },
            Piece::Unreadable => {},
            Piece::Token => {
                let after = Layout { deeper: 0, left: false, ..s };
                lemma_course_end(t, end, after, end);
                lemma_same_piece(t, u, k, i);
                lemma_course_of_head(t, u, k, end, after, end);
            },
            Piece::Break(n) => {
                if let Some(v) = landed(s, n) {
                    lemma_course_end(t, end, v, last);
                    lemma_same_piece(t, u, k, i);
                    lemma_course_of_head(t, u, k, end, v, last);
                }
            },
        }
    } else if u[k] == '$' {
        assert(piece(u, k) == (Piece::Unreadable, k + 1));
    } else {
        assert(indent(u, k + 1) == (k + 1, 0nat));
        assert(break_end(u, k) == (k + 1, 0nat));
        assert(piece(u, k) == (Piece::Break(0), k + 1));
        lemma_lowered(s.levels, 0);
        let v = landed(s, 0);
        assert(v is Some && v->0.deeper == 0);
        assert(course(u, k + 1, v->0, last).0 is Whole);
    }
}

/// The line after a break is not indented in a flat text.
proof fn lemma_flat_break(t: Seq<char>, i: int)
    requires
        flat(t),
        0 <= i < t.len(),
        ending(t, i) > 0,
    ensures
        break_end(t, i).1 == 0,
    decreases t.len() - i,
{
    let next = i + ending(t, i);
    assert(t[next - 1] == '\n');
    assert(indent(t, next) == (next, 0nat));
    if ending(t, next) > 0 {
        lemma_flat_break(t, next);
    }
}

/// A flat text can be followed from a place on.
proof fn lemma_flat_followed(t: Seq<char>, i: int, s: Layout)
    requires
        flat(t),
        0 <= i <= t.len(),
        s.levels.len() == 0,
        s.deeper == 0,
    ensures
        followed(t, i, s),
    decreases t.len() - i,
{
    if i < t.len() {
        lemma_piece(t, i);
        let (p, end) = piece(t, i);
        if ending(t, i) > 0 {
            lemma_flat_break(t, i);
        }
        lemma_flat_followed(t, end, s);
        lemma_flat_followed(t, end, Layout { deeper: 0, left: false, ..s });
    }
}

} // verus!
