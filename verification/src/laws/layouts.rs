//! Layouts: how a text falls into pieces, how its lines are indented, and when it can be followed.

use crate::layout::{
    agreeing, at_start, break_end, course, course_of, digits_end, ending, figures_end, find,
    followed, fraction, head, indent, laid_out, landed, law_laid_out_is_parsable,
    lemma_agreeing_whole, lemma_found, lemma_piece, letter, literal_end, lowered, mark, name_end,
    number, parsable, piece, stands, worth, Course, Layout, Piece,
};
use crate::laws::texts::number_read;
use crate::parsing::{manifest_parser_returns, parse_outcome, parser_returns, reach};
use vstd::prelude::*;
use vstd::utf8::encode_utf8;

verus! {

// ── Runs ──────────────────────────────────────────────────────────────────────

/// A character that may stand in a name.
pub open spec fn in_name(c: char) -> bool {
    'a' <= c <= 'z' || 'A' <= c <= 'Z' || '0' <= c <= '9' || c == '_'
}

/// A space or a tab.
pub open spec fn indents(c: char) -> bool {
    c == ' ' || c == '\t'
}

/// How many of the characters from `i` to `e` are tabs.
pub open spec fn tabs(t: Seq<char>, i: int, e: int) -> nat
    decreases e - i,
{
    if i < e {
        tabs(t, i, e - 1) + if t[e - 1] == '\t' {
            1nat
        } else {
            0
        }
    } else {
        0
    }
}

proof fn lemma_tabs_first(t: Seq<char>, i: int, e: int)
    requires
        i < e,
    ensures
        tabs(t, i, e) == tabs(t, i + 1, e) + if t[i] == '\t' {
            1nat
        } else {
            0
        },
    decreases e - i,
{
    if i + 1 < e {
        lemma_tabs_first(t, i, e - 1);
    } else {
        assert(tabs(t, i, e - 1) == 0);
        assert(tabs(t, i + 1, e) == 0);
    }
}

/// The characters from `i` to `e` are all the spaces and tabs there are.
pub open spec fn indentation(t: Seq<char>, i: int, e: int) -> bool {
    &&& 0 <= i <= e <= t.len()
    &&& forall|j: int| i <= j < e ==> indents(#[trigger] t[j])
    &&& e < t.len() ==> !indents(t[e])
}

/// Spaces and tabs at the start of a line indent it: a space by one, a tab by two.
pub proof fn law_indentation(t: Seq<char>, i: int, e: int)
    requires
        indentation(t, i, e),
    ensures
        indent(t, i) == (e, (e - i + tabs(t, i, e)) as nat),
    decreases e - i,
{
    if i < e {
        assert(indents(t[i]));
        law_indentation(t, i + 1, e);
        lemma_tabs_first(t, i, e);
    }
}

proof fn lemma_indent_end(t: Seq<char>, i: int)
    requires
        0 <= i <= t.len(),
    ensures
        indentation(t, i, indent(t, i).0),
    decreases t.len() - i,
{
    if i < t.len() && indents(t[i]) {
        lemma_indent_end(t, i + 1);
    }
}

/// A line ends at `i`: with a line feed, or a carriage return and a line feed.
pub open spec fn line_ends(t: Seq<char>, i: int) -> bool {
    0 <= i < t.len() && (t[i] == '\n' || (t[i] == '\r' && i + 1 < t.len() && t[i + 1] == '\n'))
}

/// From `i` to `j` there are only line endings and empty lines; the line at `j` has more than
/// the indentation up to `e`, or the text ends with it.
pub open spec fn line_break(t: Seq<char>, i: int, j: int, e: int) -> bool {
    &&& 0 <= i < j
    &&& line_ends(t, i)
    &&& t[j - 1] == '\n'
    &&& forall|k: int|
        i <= k < j ==> indents(#[trigger] t[k]) || line_ends(t, k)
    &&& indentation(t, j, e)
    &&& !line_ends(t, e)
}

/// A line break takes empty lines with it and ends with the indentation of the line behind
/// them.
pub proof fn law_line_breaks(t: Seq<char>, i: int, j: int, e: int)
    requires
        line_break(t, i, j, e),
    ensures
        piece(t, i) == (Piece::Break((e - j + tabs(t, j, e)) as nat), e),
{
    lemma_line_break(t, i, j, e);
}

proof fn lemma_line_break(t: Seq<char>, i: int, j: int, e: int)
    requires
        line_break(t, i, j, e),
    ensures
        break_end(t, i) == (e, (e - j + tabs(t, j, e)) as nat),
        ending(t, i) > 0,
    decreases t.len() - i,
{
    let b = i + ending(t, i);
    if t[i] == '\r' {
        assert(i + 1 < j);
    }
    assert(b <= j);
    if b == j {
        law_indentation(t, j, e);
    } else {
        lemma_indent_end(t, b);
        let f = indent(t, b).0;
        if f >= j {
            assert(indents(t[j - 1]));
        }
        assert(indents(t[f]) || line_ends(t, f));
        assert(line_break(t, f, j, e));
        lemma_line_break(t, f, j, e);
    }
}

// ── Levels ────────────────────────────────────────────────────────────────────

/// The first `m` levels are those that a line with indentation `n` leaves open.
pub open spec fn stay_open(levels: Seq<nat>, n: nat, m: int) -> bool {
    &&& 0 <= m <= levels.len()
    &&& forall|i: int| m <= i < levels.len() ==> #[trigger] levels[i] > n
    &&& m > 0 ==> levels[m - 1] <= n
}

proof fn lemma_lowered(levels: Seq<nat>, n: nat, m: int)
    requires
        stay_open(levels, n, m),
    ensures
        lowered(levels, n) == levels.take(m),
    decreases levels.len(),
{
    if levels.len() > 0 && levels.last() > n {
        let rest = levels.drop_last();
        assert forall|i: int| m <= i < rest.len() implies #[trigger] rest[i] > n by {
            assert(rest[i] == levels[i]);
        }
        lemma_lowered(rest, n, m);
        assert(rest.take(m) =~= levels.take(m));
    } else {
        if m < levels.len() {
            assert(levels[levels.len() - 1] > n);
        }
        assert(levels.take(m) =~= levels);
    }
}

/// A line that is deeper than the one before it opens a level.
pub proof fn law_deeper_lines(s: Layout, n: nat)
    requires
        n > 0,
        s.levels.len() > 0 ==> n > s.levels[s.levels.len() - 1],
    ensures
        landed(s, n) matches Some(u) && u.levels == s.levels.push(n) && u.deeper == s.deeper + 1
            && u.left == s.left,
{
}

/// A line that is not deeper closes the levels that are deeper than it. The layout is lost
/// exactly if that closes a level from before the gap, the gap has opened two or more, and it has
/// closed none from before it yet.
pub proof fn law_other_lines(s: Layout, n: nat, m: int)
    requires
        stay_open(s.levels, n, m),
        s.levels.len() == 0 ==> n == 0,
        s.levels.len() > 0 ==> n <= s.levels[s.levels.len() - 1],
    ensures
        ({
            let closed = s.levels.len() - m;
            match landed(s, n) {
                Some(u) => {
                    &&& u.levels == s.levels.take(m)
                    &&& closed <= s.deeper ==> u.deeper == s.deeper - closed && u.left == s.left
                    &&& closed > s.deeper ==> u.deeper == 0 && u.left
                    &&& !(closed > s.deeper && s.deeper >= 2 && !s.left)
                },
                None => closed > s.deeper && s.deeper >= 2 && !s.left,
            }
        }),
{
    lemma_lowered(s.levels, n, m);
}

// ── Pieces ────────────────────────────────────────────────────────────────────

/// Spaces, tabs and form feeds are blanks.
pub proof fn law_blank_pieces(t: Seq<char>, i: int)
    requires
        0 <= i < t.len(),
        t[i] == ' ' || t[i] == '\t' || t[i] == '\u{c}',
    ensures
        piece(t, i) == (Piece::Blank, i + 1),
{
}

/// A comment goes from a hash sign to the end of its line.
pub proof fn law_comments_end_with_the_line(t: Seq<char>, i: int, e: int)
    requires
        0 <= i < e <= t.len(),
        t[i] == '#',
        forall|j: int| i <= j < e ==> #[trigger] t[j] != '\n',
        e < t.len() ==> t[e] == '\n',
    ensures
        piece(t, i) == (Piece::Blank, e),
{
    lemma_found(t, i, '\n');
    let f = find(t, i, '\n');
    if f < e {
        assert(t[f] != '\n');
    }
    if e < f {
        assert(t[e] != '\n');
    }
}

/// The characters from `i` to `e` are all that may stand in the name there.
pub open spec fn name_run(t: Seq<char>, i: int, e: int) -> bool {
    &&& 0 <= i <= e <= t.len()
    &&& forall|j: int| i <= j < e ==> in_name(#[trigger] t[j])
    &&& e < t.len() ==> !in_name(t[e])
}

proof fn lemma_name_end(t: Seq<char>, i: int, e: int)
    requires
        name_run(t, i, e),
    ensures
        name_end(t, i) == e,
    decreases e - i,
{
    if i < e {
        assert(in_name(t[i]));
        lemma_name_end(t, i + 1, e);
    }
}

/// A word stands at `i`.
pub open spec fn word_at(t: Seq<char>, i: int, word: Seq<char>) -> bool {
    i + word.len() <= t.len() && t.subrange(i, i + word.len()) == word
}

proof fn lemma_word_at(t: Seq<char>, i: int, word: Seq<char>)
    requires
        0 <= i <= t.len(),
    ensures
        agreeing(t, i, word) == word.len() <==> word_at(t, i, word),
{
    lemma_agreeing_whole(t, i, word);
    if word_at(t, i, word) {
        assert forall|j: int| 0 <= j < word.len() implies t[i + j] == #[trigger] word[j] by {
            assert(t.subrange(i, i + word.len())[j] == t[i + j]);
        }
    }
    if agreeing(t, i, word) == word.len() {
        assert(t.subrange(i, i + word.len()) =~= word);
    }
}

/// A name starts with a letter and takes all letters, digits and underscores behind it; `one of`
/// is one word.
pub proof fn law_names(t: Seq<char>, i: int, e: int)
    requires
        0 <= i < t.len(),
        'a' <= t[i] <= 'z' || 'A' <= t[i] <= 'Z',
        name_run(t, i, e),
    ensures
        word_at(t, i, "one of"@) ==> piece(t, i) == (Piece::Token, i + 6),
        !word_at(t, i, "one of"@) ==> piece(t, i) == (Piece::Token, e),
{
    reveal_strlit("one of");
    lemma_word_at(t, i, "one of"@);
    lemma_name_end(t, i, e);
}

/// A variable is a question mark and a name, which may start with an underscore.
pub proof fn law_variables(t: Seq<char>, i: int, e: int)
    requires
        0 <= i && i + 1 < t.len(),
        t[i] == '?',
        'a' <= t[i + 1] <= 'z' || 'A' <= t[i + 1] <= 'Z' || t[i + 1] == '_',
        name_run(t, i + 1, e),
    ensures
        piece(t, i) == (Piece::Token, e),
{
    lemma_name_end(t, i + 1, e);
}

/// `@iri_name` is a token; any other at sign cannot be read.
pub proof fn law_at_signs(t: Seq<char>, i: int)
    requires
        0 <= i < t.len(),
        t[i] == '@',
    ensures
        word_at(t, i, "@iri_name"@) ==> piece(t, i) == (Piece::Token, i + 9),
        !word_at(t, i, "@iri_name"@) ==> piece(t, i).0 is Unreadable,
{
    reveal_strlit("@iri_name");
    lemma_word_at(t, i, "@iri_name"@);
}

/// A string literal goes to the next quotation mark; without one it cannot be read.
pub proof fn law_strings(t: Seq<char>, i: int, e: int)
    requires
        0 <= i < e <= t.len(),
        t[i] == '"',
        forall|j: int| i < j < e ==> #[trigger] t[j] != '"' && t[j] != '\\',
    ensures
        e < t.len() && t[e] == '"' ==> piece(t, i) == (Piece::Token, e + 1),
        e == t.len() ==> piece(t, i) == (Piece::Unreadable, e),
{
    lemma_literal(t, i + 1, e);
}

proof fn lemma_literal(t: Seq<char>, i: int, e: int)
    requires
        0 <= i <= e <= t.len(),
        forall|j: int| i <= j < e ==> #[trigger] t[j] != '"' && t[j] != '\\',
    ensures
        literal_end(t, i) == literal_end(t, e),
    decreases e - i,
{
    if i < e {
        lemma_literal(t, i + 1, e);
    }
}

/// In a string literal a backslash takes the next character with it, a quotation mark too; at the
/// end of a line it ends the literal.
pub proof fn law_escapes(t: Seq<char>, i: int)
    requires
        0 <= i < t.len(),
        t[i] == '\\',
    ensures
        i + 1 < t.len() && t[i + 1] != '\n' ==> literal_end(t, i) == literal_end(t, i + 2),
        i + 1 >= t.len() || t[i + 1] == '\n' ==> literal_end(t, i) == (false, i + 1),
{
}

/// An IRI goes from `<` to the next `>` and is not empty; any other `<` is a token by itself.
pub proof fn law_iris(t: Seq<char>, i: int, e: int)
    requires
        0 <= i < e <= t.len(),
        t[i] == '<',
        forall|j: int| i < j < e ==> #[trigger] t[j] != '>',
        e < t.len() ==> t[e] == '>',
    ensures
        piece(t, i) == (
            Piece::Token,
            if i + 1 < e && e < t.len() {
                e + 1
            } else {
                i + 1
            },
        ),
{
    lemma_found(t, i + 1, '>');
    let f = find(t, i + 1, '>');
    if f < e {
        assert(t[f] != '>');
    }
    if e < f {
        assert(t[e] != '>');
    }
}

/// The characters from `i` to `e` are all the digits there are.
pub open spec fn digit_run(t: Seq<char>, i: int, e: int) -> bool {
    &&& 0 <= i <= e <= t.len()
    &&& forall|j: int| i <= j < e ==> '0' <= #[trigger] t[j] <= '9'
    &&& e < t.len() ==> !('0' <= t[e] <= '9') && t[e] != '_'
}

proof fn lemma_digits(t: Seq<char>, i: int, e: int)
    requires
        digit_run(t, i, e),
    ensures
        digits_end(t, i) == e,
        figures_end(t, i) == e,
    decreases e - i,
{
    if i < e {
        assert('0' <= t[i] <= '9');
        lemma_digits(t, i + 1, e);
    }
}

proof fn lemma_worth(t: Seq<char>, i: int, e: int)
    requires
        0 <= i <= e <= t.len(),
        forall|j: int| i <= j < e ==> '0' <= #[trigger] t[j] <= '9',
    ensures
        worth(t, i, e) == number_read(t.subrange(i, e)),
    decreases e - i,
{
    let d = t.subrange(i, e);
    if i < e {
        lemma_worth(t, i, e - 1);
        assert(d.drop_last() =~= t.subrange(i, e - 1));
        assert('0' <= t[e - 1] <= '9');
    }
}

/// A whole number can be read if it is no larger than the largest signed number of 64 bits.
pub proof fn law_whole_numbers(t: Seq<char>, i: int, e: int)
    requires
        i < e,
        digit_run(t, i, e),
        !(e + 1 < t.len() && t[e] == '.' && '0' <= t[e + 1] <= '9'),
    ensures
        number_read(t.subrange(i, e)) <= 0x7fff_ffff_ffff_ffff ==> piece(t, i) == (Piece::Token, e),
        number_read(t.subrange(i, e)) > 0x7fff_ffff_ffff_ffff ==> piece(t, i) == (
            Piece::Unreadable,
            e,
        ),
{
    assert('0' <= t[i] <= '9');
    lemma_digits(t, i, e);
    lemma_worth(t, i, e);
}

/// A number with a fraction goes to the end of the digits behind the dot.
pub proof fn law_fractions(t: Seq<char>, i: int, e: int, f: int)
    requires
        i < e,
        digit_run(t, i, e),
        e + 1 < f,
        t[e] == '.',
        digit_run(t, e + 1, f),
        f < t.len() ==> t[f] != 'e' && t[f] != 'E',
    ensures
        piece(t, i) == (Piece::Token, f),
{
    assert('0' <= t[i] <= '9');
    assert('0' <= t[e + 1] <= '9');
    lemma_digits(t, i, e);
    lemma_digits(t, e + 1, f);
}

/// A number with a fraction and an exponent goes to the end of the digits of the exponent.
pub proof fn law_exponents(t: Seq<char>, i: int, e: int, f: int, g: int, h: int)
    requires
        i < e,
        digit_run(t, i, e),
        e + 1 < f < t.len(),
        t[e] == '.',
        digit_run(t, e + 1, f),
        t[f] == 'e' || t[f] == 'E',
        g == f + 1 || (g == f + 2 && (t[f + 1] == '+' || t[f + 1] == '-')),
        g < h,
        digit_run(t, g, h),
    ensures
        piece(t, i) == (Piece::Token, h),
{
    assert('0' <= t[i] <= '9');
    assert('0' <= t[e + 1] <= '9');
    assert('0' <= t[g] <= '9');
    lemma_digits(t, i, e);
    lemma_digits(t, e + 1, f);
    lemma_digits(t, g, h);
}

/// The signs of the language are tokens, `!=` and `^^` as two characters. What starts no piece
/// cannot be read.
pub proof fn law_signs(t: Seq<char>, i: int)
    requires
        0 <= i < t.len(),
    ensures
        ":,.*|[]=>+-/()"@.contains(t[i]) ==> piece(t, i) == (Piece::Token, i + 1),
        i + 1 < t.len() && t[i] == '!' && t[i + 1] == '=' ==> piece(t, i) == (Piece::Token, i + 2),
        i + 1 < t.len() && t[i] == '^' && t[i + 1] == '^' ==> piece(t, i) == (Piece::Token, i + 2),
        "$%&';\\_`{}~"@.contains(t[i]) ==> piece(t, i) == (Piece::Unreadable, i + 1),
        t[i] > '~' ==> piece(t, i) == (Piece::Unreadable, i + 1),
{
    reveal_strlit(":,.*|[]=>+-/()");
    reveal_strlit("$%&';\\_`{}~");
}

// ── Following a text ──────────────────────────────────────────────────────────

/// Every piece ends behind its start, inside the text.
pub proof fn law_pieces_go_on(t: Seq<char>, i: int)
    requires
        0 <= i < t.len(),
    ensures
        i < piece(t, i).1 <= t.len(),
{
    lemma_piece(t, i);
}

/// A text is followed piece by piece: a token ends a gap, a line break moves the layout, and
/// everything else leaves it. At the end the gap must not be deeper than the line before it,
/// unless it has left that line.
pub proof fn law_texts_are_followed_by_pieces(t: Seq<char>, i: int, s: Layout)
    requires
        0 <= i <= t.len(),
    ensures
        i == t.len() ==> (followed(t, i, s) <==> s.deeper == 0 || s.left),
        i < t.len() && (piece(t, i).0 is Blank || piece(t, i).0 is Unreadable) ==> followed(t, i, s)
            == followed(t, piece(t, i).1, s),
        i < t.len() && piece(t, i).0 is Token ==> followed(t, i, s) == followed(
            t,
            piece(t, i).1,
            Layout { levels: s.levels, deeper: 0, left: false },
        ),
        i < t.len() ==> (piece(t, i).0 matches Piece::Break(n) ==> followed(t, i, s) == (landed(s, n)
            matches Some(u) && followed(t, piece(t, i).1, u))),
{
    if i < t.len() {
        lemma_piece(t, i);
    }
}

/// A parser goes the same way, but stops at what cannot be read, and keeps the end of the last
/// token.
pub proof fn law_parsers_go_by_pieces(t: Seq<char>, i: int, s: Layout, last: int)
    requires
        0 <= i <= t.len(),
    ensures
        i == t.len() ==> course(t, i, s, last) == (
            if s.deeper == 0 || s.left {
                Course::Whole
            } else {
                Course::Dangling
            },
            last,
        ),
        i < t.len() && piece(t, i).0 is Blank ==> course(t, i, s, last) == course(
            t,
            piece(t, i).1,
            s,
            last,
        ),
        i < t.len() && piece(t, i).0 is Unreadable ==> course(t, i, s, last) == (
            Course::Unreadable,
            last,
        ),
        i < t.len() && piece(t, i).0 is Token ==> course(t, i, s, last) == course(
            t,
            piece(t, i).1,
            Layout { levels: s.levels, deeper: 0, left: false },
            piece(t, i).1,
        ),
        i < t.len() ==> (piece(t, i).0 matches Piece::Break(n) ==> course(t, i, s, last) == match landed(
            s,
            n,
        ) {
            Some(u) => course(t, piece(t, i).1, u, last),
            None => (Course::Lost, last),
        }),
{
    if i < t.len() {
        lemma_piece(t, i);
    }
}

/// Behind every line break a token follows.
pub open spec fn no_empty_gaps(t: Seq<char>) -> bool {
    forall|i: int|
        0 <= i < t.len() && #[trigger] piece(t, i).0 is Break ==> piece(t, i).1 < t.len() && piece(
            t,
            piece(t, i).1,
        ).0 is Token
}

/// A text in which every line starts with a token can be followed to its end, however its lines
/// are indented.
pub proof fn law_lines_with_tokens_are_followed(text: Seq<char>)
    requires
        no_empty_gaps(text),
    ensures
        laid_out(text),
        parsable(text),
        parser_returns(text),
{
    lemma_lines_with_tokens(text, 0, at_start());
    law_laid_out_is_parsable(text);
}

proof fn lemma_lines_with_tokens(t: Seq<char>, i: int, s: Layout)
    requires
        no_empty_gaps(t),
        0 <= i <= t.len(),
        s.deeper == 0 && !s.left || (i < t.len() && piece(t, i).0 is Token),
    ensures
        followed(t, i, s),
    decreases t.len() - i,
{
    if i < t.len() {
        lemma_piece(t, i);
        let (p, end) = piece(t, i);
        match p {
            Piece::Blank => lemma_lines_with_tokens(t, end, s),
            Piece::Unreadable => lemma_lines_with_tokens(t, end, s),
            Piece::Token => lemma_lines_with_tokens(t, end, Layout { deeper: 0, left: false, ..s }),
            Piece::Break(n) => {
                assert(landed(s, n) is Some);
                lemma_lines_with_tokens(t, end, landed(s, n)->0);
            },
        }
    }
}

/// A text that ends deeper than its only line cannot be followed to its end.
pub proof fn law_texts_must_not_end_deeper(text: Seq<char>, k: int)
    requires
        0 < k && k + 1 < text.len(),
        'a' <= text[0] <= 'z' || 'A' <= text[0] <= 'Z',
        forall|j: int| 0 <= j < k ==> in_name(#[trigger] text[j]),
        text[k] == '\n',
        forall|j: int| k < j < text.len() ==> indents(#[trigger] text[j]),
    ensures
        !laid_out(text),
        course_of(text) is Dangling,
        head(text) == text.take(k),
{
    let n = text.len() as int;
    assert(name_run(text, 0, k));
    assert(!word_at(text, 0, "one of"@)) by {
        reveal_strlit("one of");
        if word_at(text, 0, "one of"@) {
            let w = text.subrange(0, 6);
            assert(w[3] == ' ' && w[3] == text[3]);
            assert(text[0] == w[0] && text[1] == w[1] && text[2] == w[2]);
            assert(w[4] == 'o' && text[4] == w[4]);
            assert(k <= 3) by {
                if k > 3 {
                    assert(in_name(text[3]));
                }
            }
            if k < 3 {
                assert(w[k] == '\n');
            }
            if k == 3 {
                assert(text[3] == '\n');
            }
        }
    }
    law_names(text, 0, k);
    assert(indentation(text, k + 1, n));
    assert(line_break(text, k, k + 1, n));
    law_line_breaks(text, k, k + 1, n);
    let s = at_start();
    let d = (n - (k + 1) + tabs(text, k + 1, n)) as nat;
    assert(d > 0);
    assert(landed(s, d) is Some);
    let u = landed(s, d)->0;
    assert(u.deeper == 1 && !u.left);
    law_texts_are_followed_by_pieces(text, 0, s);
    law_texts_are_followed_by_pieces(text, k, s);
    law_texts_are_followed_by_pieces(text, n, u);
    law_parsers_go_by_pieces(text, 0, s, 0);
    law_parsers_go_by_pieces(text, k, s, k);
    law_parsers_go_by_pieces(text, n, u, k);
}

// ── Texts that parsers come back from ─────────────────────────────────────────

/// A parser comes back from every text that can be followed, and from one that cannot where an
/// error of syntax stops it in what it can reach.
pub proof fn law_parsers_come_back(text: Seq<char>, at: int)
    requires
        parse_outcome(head(text).push('$')).1.len() > 0,
        parse_outcome(head(text).push('$')).1[0].span matches Some(s) && s.start.offset == at,
        at < encode_utf8(head(text)).len(),
    ensures
        course_of(text) is Lost ==> parser_returns(text),
{
}

/// The same of the manifest parser, which does not come back from the empty text.
pub proof fn law_manifest_parsers_come_back(text: Seq<char>)
    ensures
        text.len() > 0 && laid_out(text) ==> manifest_parser_returns(text),
        laid_out(text) ==> parser_returns(text),
        !manifest_parser_returns(Seq::empty()),
{
    law_laid_out_is_parsable(text);
}

} // verus!
