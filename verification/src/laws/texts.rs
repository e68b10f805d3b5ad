//! Texts: how they are put together, taken apart, ordered and written.

use crate::comments::{
    all_described, all_lines, described, description, description_lines, trim_end, trim_start,
    trimmed, whitespace,
};
use crate::laws::shared::{lemma_present_places, picks};
use crate::lists::present;
use crate::namespace::{
    derived, derived_parts, last_named, lower, lowercase, namespace_under, part_char,
    path_namespace, url_namespace, url_part, url_parts, valid_part, without_ending,
    without_last_ending, without_leading_slashes, without_trailing_slashes,
};
use crate::paths::{path_below, path_parts, PathPartView};
use crate::problem::{code_text, three_digits, CodeView};
use crate::syntax::{
    dotted, last_part, multiplicity_prefix, multiplicity_text, type_list, type_text, type_texts,
    Multiplicity, Primitive, TypeNameView,
};
use crate::text::{bytes_before, decimal_text, digit, joined, pieces, text_before};
use std::path::PathBuf;
use vstd::prelude::*;
use vstd::utf8::encode_utf8;

verus! {

// ── Joining and splitting ─────────────────────────────────────────────────────

/// Joining two lists puts one separator between what each of them gives.
pub proof fn law_joined(a: Seq<Seq<char>>, b: Seq<Seq<char>>, sep: Seq<char>)
    requires
        a.len() > 0,
        b.len() > 0,
    ensures
        joined(a + b, sep) == joined(a, sep) + sep + joined(b, sep),
    decreases b.len(),
{
    let all = a + b;
    if b.len() == 1 {
        assert(all.drop_last() =~= a);
    } else {
        assert(all.drop_last() =~= a + b.drop_last());
        law_joined(a, b.drop_last(), sep);
        assert(joined(a, sep) + sep + joined(b.drop_last(), sep) + sep + b.last() =~= joined(a, sep)
            + sep + (joined(b.drop_last(), sep) + sep + b.last()));
    }
}

/// One text alone is joined to itself, no text to nothing.
pub proof fn law_joined_alone(a: Seq<char>, sep: Seq<char>)
    ensures
        joined(seq![a], sep) == a,
        joined(Seq::empty(), sep).len() == 0,
{
}

/// The pieces of a text hold no separator, and joined with separators they give the text.
pub proof fn law_pieces(s: Seq<char>, sep: char)
    ensures
        pieces(s, sep).len() > 0,
        joined(pieces(s, sep), seq![sep]) == s,
        forall|i: int| 0 <= i < pieces(s, sep).len() ==> !(#[trigger] pieces(s, sep)[i]).contains(sep),
    decreases s.len(),
{
    let all = pieces(s, sep);
    if s.len() > 0 {
        let before = pieces(s.drop_last(), sep);
        law_pieces(s.drop_last(), sep);
        assert(s =~= s.drop_last().push(s.last()));
        if s.last() == sep {
            assert(all.drop_last() =~= before);
            assert(joined(all, seq![sep]) =~= s);
        } else {
            let last = before.last().push(s.last());
            assert(all.drop_last() =~= before.drop_last());
            assert(all.last() == last);
            assert(!last.contains(sep)) by {
                if last.contains(sep) {
                    let k = choose|k: int| 0 <= k < last.len() && last[k] == sep;
                    assert(before.last()[k] == sep);
                    assert(before[before.len() - 1].contains(sep));
                }
            }
            if before.len() > 1 {
                assert(joined(before, seq![sep]) == joined(before.drop_last(), seq![sep]) + seq![sep]
                    + before.last());
                assert(joined(all, seq![sep]) == joined(before.drop_last(), seq![sep]) + seq![sep]
                    + last);
            }
            assert(joined(all, seq![sep]) =~= s);
        }
        assert forall|i: int| 0 <= i < all.len() implies !(#[trigger] all[i]).contains(sep) by {
            if i < before.len() - 1 {
                assert(all[i] == before[i]);
            } else if s.last() == sep && i == before.len() - 1 {
                assert(all[i] == before[i]);
            }
        }
    }
}

// ── Order ─────────────────────────────────────────────────────────────────────

/// Up to byte `k` two texts agree; there the first ends or has the lower byte.
pub open spec fn lower_at(a: Seq<u8>, b: Seq<u8>, k: int) -> bool {
    &&& 0 <= k <= a.len()
    &&& k < b.len()
    &&& forall|i: int| 0 <= i < k ==> #[trigger] a[i] == b[i]
    &&& k == a.len() || a[k] < b[k]
}

/// The first byte in which two texts differ decides which comes first.
proof fn lemma_bytes_before(a: Seq<u8>, b: Seq<u8>)
    ensures
        bytes_before(a, b) <==> exists|k: int| #[trigger] lower_at(a, b, k),
    decreases a.len(),
{
    if a.len() == 0 {
        if b.len() > 0 {
            assert(lower_at(a, b, 0));
        }
    } else if b.len() > 0 {
        let x = a.drop_first();
        let y = b.drop_first();
        lemma_bytes_before(x, y);
        if a[0] < b[0] {
            assert(lower_at(a, b, 0));
        }
        if a[0] == b[0] && bytes_before(x, y) {
            let k = choose|k: int| #[trigger] lower_at(x, y, k);
            assert forall|i: int| 0 <= i < k + 1 implies #[trigger] a[i] == b[i] by {
                if i > 0 {
                    assert(x[i - 1] == y[i - 1]);
                }
            }
            assert(lower_at(a, b, k + 1));
        }
        if exists|k: int| #[trigger] lower_at(a, b, k) {
            let k = choose|k: int| #[trigger] lower_at(a, b, k);
            if k > 0 {
                assert(a[0] == b[0]);
                assert forall|i: int| 0 <= i < k - 1 implies #[trigger] x[i] == y[i] by {
                    assert(a[i + 1] == b[i + 1]);
                }
                assert(lower_at(x, y, k - 1));
            }
        }
    }
}

/// A text comes before another if their bytes do: at the first byte in which they differ, it has
/// the lower byte or ends.
pub proof fn law_texts_are_ordered_by_bytes(a: Seq<char>, b: Seq<char>)
    ensures
        text_before(a, b) <==> exists|k: int| #[trigger] lower_at(encode_utf8(a), encode_utf8(b), k),
{
    lemma_bytes_before(encode_utf8(a), encode_utf8(b));
}

// ── Numbers ───────────────────────────────────────────────────────────────────

/// The number that digits stand for.
pub open spec fn number_read(t: Seq<char>) -> int
    decreases t.len(),
{
    if t.len() == 0 {
        0
    } else {
        number_read(t.drop_last()) * 10 + (t.last() as int - '0' as int)
    }
}

/// A text is made of decimal digits.
pub open spec fn all_digits(t: Seq<char>) -> bool {
    forall|i: int| 0 <= i < t.len() ==> '0' <= #[trigger] t[i] && t[i] <= '9'
}

/// A written number is read back as what it was; it is made of digits and has no zero in front.
pub proof fn law_numbers_are_read_back(n: nat)
    ensures
        number_read(decimal_text(n)) == n,
        all_digits(decimal_text(n)),
        decimal_text(n).len() > 0,
        n > 0 ==> decimal_text(n)[0] != '0',
        decimal_text(0).len() == 1,
    decreases n,
{
    let t = decimal_text(n);
    if n < 10 {
        assert(t.drop_last() =~= Seq::<char>::empty());
        assert(number_read(t.drop_last()) == 0);
    } else {
        law_numbers_are_read_back(n / 10);
        assert(t.drop_last() =~= decimal_text(n / 10));
        assert(t.last() == digit(n % 10));
        assert(t[0] == decimal_text(n / 10)[0]);
    }
}

/// A zero in front leaves a number as it is.
proof fn lemma_zero_in_front(t: Seq<char>)
    ensures
        number_read(seq!['0'] + t) == number_read(t),
    decreases t.len(),
{
    let z = seq!['0'] + t;
    if t.len() == 0 {
        assert(z.drop_last() =~= Seq::<char>::empty());
        assert(number_read(z.drop_last()) == 0);
    } else {
        lemma_zero_in_front(t.drop_last());
        assert(z.drop_last() =~= seq!['0'] + t.drop_last());
        assert(z.last() == t.last());
    }
}

/// Codes are shown by a letter and the number or rule: those of the parser with `P`, those of the
/// analysis with `S` and at least three digits, those of the lint rules with `L/` and the rule.
pub proof fn law_codes_are_shown(code: CodeView)
    ensures
        match code {
            CodeView::Parse(n) => code_text(code) == "P"@ + decimal_text(n as nat),
            CodeView::Semantic(n) => exists|t: Seq<char>|
                code_text(code) == #[trigger] ("S"@ + t) && all_digits(t) && number_read(t) == n
                    && t.len() >= 3 && (t.len() > 3 ==> t[0] != '0'),
            CodeView::Lint(id) => code_text(code) == "L/"@ + id,
        },
{
    if let CodeView::Semantic(n) = code {
        let n = n as nat;
        let d = decimal_text(n);
        let t = three_digits(n);
        reveal_strlit("0");
        reveal_strlit("00");
        law_numbers_are_read_back(n);
        lemma_zero_in_front(d);
        lemma_zero_in_front(seq!['0'] + d);
        if n >= 10 {
            law_numbers_are_read_back(n / 10);
        }
        if n < 10 {
            assert(t =~= seq!['0'] + (seq!['0'] + d));
        } else if n < 100 {
            assert(t =~= seq!['0'] + d);
            assert(n / 10 < 10);
            assert(decimal_text(n / 10).len() == 1);
        } else {
            let e = decimal_text(n / 10);
            assert(n / 10 >= 10);
            assert(e.len() >= 2) by {
                law_numbers_are_read_back(n / 10 / 10);
            }
            assert(d.len() == e.len() + 1);
        }
        assert(code_text(code) == "S"@ + t);
    }
}

// ── Types and multiplicities ──────────────────────────────────────────────────

/// A type reference is shown as it is written: its parts with dots between them, or the name of
/// the built-in type.
pub proof fn law_types_are_shown(t: TypeNameView)
    ensures
        match t {
            TypeNameView::Named { parts, .. } => type_text(t) == joined(parts, "."@),
            TypeNameView::Builtin { kind, .. } => type_text(t) == match kind {
                Primitive::Text => "String"@,
                Primitive::Int => "Int"@,
                Primitive::Float => "Float"@,
                Primitive::Boolean => "Boolean"@,
            },
        },
{
}

/// A list of type references shows each of them, in order, with commas between them.
pub proof fn law_type_lists_show_all(v: Seq<TypeNameView>, w: Seq<TypeNameView>)
    requires
        v.len() > 0,
        w.len() > 0,
    ensures
        type_list(v + w) == type_list(v) + ", "@ + type_list(w),
        v.len() == 1 ==> type_list(v) == type_text(v[0]),
{
    law_joined(type_texts(v), type_texts(w), ", "@);
    assert(type_texts(v) + type_texts(w) =~= type_texts(v + w));
}

/// The last part of a dotted name is what stands behind its last dot.
pub proof fn law_last_part(parts: Seq<Seq<char>>)
    requires
        parts.len() > 1,
    ensures
        dotted(parts) == dotted(parts.drop_last()) + "."@ + last_part(parts),
{
    law_joined(parts.drop_last(), seq![parts.last()], "."@);
    assert(parts.drop_last() + seq![parts.last()] =~= parts);
}

/// How multiplicities are written.
pub proof fn law_multiplicities_are_shown(m: Multiplicity)
    ensures
        match m {
            Multiplicity::One => multiplicity_text(m) == "one"@,
            Multiplicity::Any => multiplicity_text(m) == "any"@,
            Multiplicity::AtLeastOne => multiplicity_text(m) == "some"@,
            Multiplicity::AtMostOne => multiplicity_text(m) == "optional"@,
            Multiplicity::Exact(n) => number_read(multiplicity_text(m)) == n,
            Multiplicity::Between(lo, Some(hi)) => multiplicity_text(m) == decimal_text(lo as nat)
                + ".."@ + decimal_text(hi as nat),
            Multiplicity::Between(lo, None) => multiplicity_text(m) == decimal_text(lo as nat)
                + "..*"@,
        },
        multiplicity_prefix(Some(m)) == multiplicity_text(m) + " "@,
        multiplicity_prefix(None).len() == 0,
{
    if let Multiplicity::Exact(n) = m {
        law_numbers_are_read_back(n as nat);
    }
}

// ── Descriptions ──────────────────────────────────────────────────────────────

/// Blanks of ASCII are the space and the characters from tab to carriage return.
pub proof fn law_blanks(c: char)
    requires
        c < '\u{80}',
    ensures
        whitespace(c) <==> (c == ' ' || ('\t' <= c && c <= '\r')),
{
}

/// `a..b` is what is left of a text without blanks at both ends.
pub open spec fn unblanked(s: Seq<char>, a: int, b: int) -> bool {
    &&& 0 <= a <= b <= s.len()
    &&& forall|i: int| 0 <= i < a ==> whitespace(#[trigger] s[i])
    &&& forall|i: int| b <= i < s.len() ==> whitespace(#[trigger] s[i])
    &&& a < b ==> !whitespace(s[a]) && !whitespace(s[b - 1])
}

proof fn lemma_trim_start(s: Seq<char>) -> (a: int)
    ensures
        0 <= a <= s.len(),
        trim_start(s) == s.skip(a),
        forall|i: int| 0 <= i < a ==> whitespace(#[trigger] s[i]),
        a < s.len() ==> !whitespace(s[a]),
    decreases s.len(),
{
    if s.len() > 0 && whitespace(s[0]) {
        let a = lemma_trim_start(s.drop_first());
        assert(s.drop_first().skip(a) =~= s.skip(a + 1));
        assert forall|i: int| 0 <= i < a + 1 implies whitespace(#[trigger] s[i]) by {
            if i > 0 {
                assert(s.drop_first()[i - 1] == s[i]);
            }
        }
        a + 1
    } else {
        assert(s.skip(0) =~= s);
        0
    }
}

proof fn lemma_trim_end(s: Seq<char>) -> (b: int)
    ensures
        0 <= b <= s.len(),
        trim_end(s) == s.take(b),
        forall|i: int| b <= i < s.len() ==> whitespace(#[trigger] s[i]),
        b > 0 ==> !whitespace(s[b - 1]),
    decreases s.len(),
{
    if s.len() > 0 && whitespace(s.last()) {
        let b = lemma_trim_end(s.drop_last());
        assert(s.drop_last().take(b) =~= s.take(b));
        assert forall|i: int| b <= i < s.len() implies whitespace(#[trigger] s[i]) by {
            if i < s.len() - 1 {
                assert(s.drop_last()[i] == s[i]);
            }
        }
        b
    } else {
        assert(s.take(s.len() as int) =~= s);
        s.len() as int
    }
}

/// A trimmed text has lost the blanks at both ends and nothing else.
pub proof fn law_trimmed(s: Seq<char>)
    ensures
        exists|a: int, b: int| #[trigger] unblanked(s, a, b) && trimmed(s) == s.subrange(a, b),
{
    let a = lemma_trim_start(s);
    let t = s.skip(a);
    let b = lemma_trim_end(t);
    assert(t.take(b) =~= s.subrange(a, a + b));
    assert forall|i: int| a + b <= i < s.len() implies whitespace(#[trigger] s[i]) by {
        assert(t[i - a] == s[i]);
    }
    if b > 0 {
        assert(t[b - 1] == s[a + b - 1]);
    }
    assert(unblanked(s, a, a + b));
}

/// `lines` are the lines of the comments: they hold no line break, and joined with line breaks
/// they give the comments.
pub open spec fn lines_of(lines: Seq<Seq<char>>, comments: Seq<Seq<char>>) -> bool {
    &&& joined(lines, seq!['\n']) == joined(comments, seq!['\n'])
    &&& lines.len() >= comments.len()
    &&& forall|i: int| 0 <= i < lines.len() ==> !(#[trigger] lines[i]).contains('\n')
}

proof fn lemma_all_lines(comments: Seq<Seq<char>>)
    ensures
        lines_of(all_lines(comments), comments),
    decreases comments.len(),
{
    if comments.len() > 0 {
        let rest = comments.drop_last();
        let sep = seq!['\n'];
        lemma_all_lines(rest);
        law_pieces(comments.last(), '\n');
        let before = all_lines(rest);
        let last = pieces(comments.last(), '\n');
        if rest.len() > 0 {
            law_joined(before, last, sep);
        } else {
            assert(before =~= Seq::<Seq<char>>::empty());
            assert(before + last =~= last);
        }
        assert forall|i: int| 0 <= i < all_lines(comments).len() implies !(#[trigger] all_lines(
            comments,
        )[i]).contains('\n') by {
            if i < before.len() {
                assert(all_lines(comments)[i] == before[i]);
            } else {
                assert(all_lines(comments)[i] == last[i - before.len()]);
            }
        }
    }
}

/// `kept` are the trimmed lines at the places `at`: those that are not blank and do not start
/// with `@`.
pub open spec fn kept_lines(lines: Seq<Seq<char>>, at: Seq<int>, kept: Seq<Seq<char>>) -> bool {
    &&& picks(at, lines.len() as int)
    &&& at.len() == kept.len()
    &&& forall|k: int| 0 <= k < at.len() ==> kept[k] == trimmed(lines[#[trigger] at[k]])
    &&& forall|i: int|
        0 <= i < lines.len() ==> (at.contains(i) <==> trimmed(#[trigger] lines[i]).len() > 0 && trimmed(
            lines[i],
        )[0] != '@')
}

/// The description in comments is made of their trimmed lines, in order, without those that are
/// blank and those that start with `@`. Without such a line there is no description.
pub proof fn law_descriptions(comments: Seq<Seq<char>>)
    ensures
        exists|lines: Seq<Seq<char>>, at: Seq<int>, kept: Seq<Seq<char>>|
            lines_of(lines, comments) && #[trigger] kept_lines(lines, at, kept) && description(comments)
                == if kept.len() == 0 {
                None
            } else {
                Some(joined(kept, "\n"@))
            },
{
    lemma_all_lines(comments);
    let lines = all_lines(comments);
    let entries = all_described(lines);
    let at = lemma_present_places(entries);
    let kept = description_lines(comments);
    assert forall|i: int| 0 <= i < lines.len() implies (at.contains(i) <==> trimmed(
        #[trigger] lines[i],
    ).len() > 0 && trimmed(lines[i])[0] != '@') by {
        assert(entries[i] == described(lines[i]));
    }
    assert forall|k: int| 0 <= k < at.len() implies kept[k] == trimmed(lines[#[trigger] at[k]]) by {
        assert(entries[at[k]] == Some(kept[k]));
        assert(entries[at[k]] == described(lines[at[k]]));
    }
    assert(kept_lines(lines, at, kept));
}

// ── Namespaces ────────────────────────────────────────────────────────────────

/// A file name loses the ending `.dlf` once, and no other ending.
pub proof fn law_endings(name: Seq<char>)
    ensures
        without_ending(name + ".dlf"@) == name,
        without_ending(name) == name || name == without_ending(name) + ".dlf"@,
{
    reveal_strlit(".dlf");
    let ending = ".dlf"@;
    let full = name + ending;
    assert(full.subrange(full.len() - ending.len(), full.len() as int) =~= ending);
    assert(full.take(full.len() - 4) =~= name);
    if ending.is_suffix_of(name) {
        assert(name =~= name.take(name.len() - 4) + ending);
    }
}

/// A valid part is made of ASCII letters, digits and underscores, and is not empty.
pub proof fn law_valid_parts(s: Seq<char>)
    ensures
        valid_part(s) <==> s.len() > 0 && forall|i: int|
            0 <= i < s.len() ==> ('a' <= #[trigger] s[i] <= 'z' || 'A' <= s[i] <= 'Z' || '0' <= s[i]
                <= '9' || s[i] == '_'),
{
    if valid_part(s) {
        assert forall|i: int| 0 <= i < s.len() implies ('a' <= #[trigger] s[i] <= 'z' || 'A' <= s[i]
            <= 'Z' || '0' <= s[i] <= '9' || s[i] == '_') by {
            assert(part_char(s[i]));
        }
    }
}

/// In lower case each capital letter becomes the small letter with the same place in the
/// alphabet; all else stays.
pub proof fn law_lower_case(s: Seq<char>, i: int)
    requires
        0 <= i < s.len(),
    ensures
        lower(s).len() == s.len(),
        'A' <= s[i] <= 'Z' ==> 'a' <= lower(s)[i] <= 'z' && lower(s)[i] as int - 'a' as int
            == s[i] as int - 'A' as int,
        !('A' <= s[i] <= 'Z') ==> lower(s)[i] == s[i],
{
}

/// Component `i` is the last name of a path.
pub open spec fn last_name_at(parts: Seq<PathPartView>, i: int) -> bool {
    &&& parts[i] is Name
    &&& forall|j: int| i < j < parts.len() ==> !(#[trigger] parts[j] is Name)
}

/// The name of component `i`; the last name of a path has lost its ending.
pub open spec fn component_name(parts: Seq<PathPartView>, i: int) -> Seq<char> {
    if last_name_at(parts, i) {
        without_ending(parts[i]->Name_0)
    } else {
        parts[i]->Name_0
    }
}

/// Every component can be read, and every name among them is valid.
pub open spec fn nameable(parts: Seq<PathPartView>) -> bool {
    forall|i: int|
        0 <= i < parts.len() ==> !(#[trigger] parts[i] is Unreadable) && (parts[i] is Name
            ==> valid_part(component_name(parts, i)))
}

/// `ns` are the names of the components at the places `at` in lower case, and there is no other
/// name.
pub open spec fn named_by(parts: Seq<PathPartView>, at: Seq<int>, ns: Seq<Seq<char>>) -> bool {
    &&& picks(at, parts.len() as int)
    &&& at.len() == ns.len()
    &&& forall|k: int| 0 <= k < at.len() ==> ns[k] == lower(component_name(parts, #[trigger] at[k]))
    &&& forall|i: int| 0 <= i < parts.len() ==> (#[trigger] parts[i] is Name <==> at.contains(i))
}

proof fn lemma_last_named(parts: Seq<PathPartView>)
    ensures
        -1 <= last_named(parts) < parts.len(),
        last_named(parts) >= 0 ==> parts[last_named(parts)] is Name,
        forall|j: int| last_named(parts) < j < parts.len() ==> !(#[trigger] parts[j] is Name),
    decreases parts.len(),
{
    if parts.len() > 0 && !(parts.last() is Name) {
        let rest = parts.drop_last();
        lemma_last_named(rest);
        assert forall|j: int| last_named(parts) < j < parts.len() implies !(#[trigger] parts[j] is Name) by {
            if j < rest.len() {
                assert(rest[j] == parts[j]);
            }
        }
    }
}

/// The names among components in lower case.
spec fn lowered(parts: Seq<PathPartView>) -> Seq<Option<Seq<char>>> {
    Seq::new(
        parts.len(),
        |i: int|
            match parts[i] {
                PathPartView::Name(n) => Some(lower(n)),
                _ => None,
            },
    )
}

/// Every component can be read, and every name is valid as it is.
spec fn all_valid(parts: Seq<PathPartView>) -> bool {
    forall|i: int|
        0 <= i < parts.len() ==> !(#[trigger] parts[i] is Unreadable) && (parts[i] matches PathPartView::Name(
            n,
        ) ==> valid_part(n))
}

proof fn lemma_derived_parts(parts: Seq<PathPartView>)
    ensures
        all_valid(parts) ==> derived_parts(parts) == Some(present(lowered(parts))),
        !all_valid(parts) ==> derived_parts(parts) is None,
    decreases parts.len(),
{
    if parts.len() > 0 {
        let rest = parts.drop_last();
        lemma_derived_parts(rest);
        assert(lowered(parts).drop_last() =~= lowered(rest));
        if all_valid(parts) {
            assert forall|i: int| 0 <= i < rest.len() implies !(#[trigger] rest[i] is Unreadable) && (
            rest[i] matches PathPartView::Name(n) ==> valid_part(n)) by {
                assert(parts[i] == rest[i]);
            }
            assert(!(parts[parts.len() - 1] is Unreadable));
        } else if all_valid(rest) && derived_parts(parts) is Some {
            assert forall|i: int| 0 <= i < parts.len() implies !(#[trigger] parts[i] is Unreadable) && (
            parts[i] matches PathPartView::Name(n) ==> valid_part(n)) by {
                if i < rest.len() {
                    assert(parts[i] == rest[i]);
                }
            }
        }
    } else {
        assert(lowered(parts) =~= Seq::<Option<Seq<char>>>::empty());
    }
}

/// The namespace of a path is made of all its names in lower case, the last one without its
/// ending. There is none if the path has no name, a component that cannot be read or a name that
/// is not valid.
pub proof fn law_namespaces_of_paths(parts: Seq<PathPartView>)
    ensures
        derived(parts) is Some <==> nameable(parts) && exists|i: int|
            0 <= i < parts.len() && #[trigger] parts[i] is Name,
        derived(parts) matches Some(ns) ==> exists|at: Seq<int>| #[trigger] named_by(parts, at, ns),
{
    let q = without_last_ending(parts);
    lemma_last_named(parts);
    lemma_derived_parts(q);
    let l = last_named(parts);
    let at = lemma_present_places(lowered(q));
    assert forall|i: int| 0 <= i < parts.len() implies (#[trigger] parts[i] is Name <==> q[i] is Name)
        && (parts[i] is Unreadable <==> q[i] is Unreadable) && (parts[i] is Name ==> q[i]->Name_0
        == component_name(parts, i)) by {
        if parts[i] is Name {
            assert(last_name_at(parts, i) <==> i == l) by {
                if i < l {
                    assert(parts[l] is Name);
                }
            }
        }
    }
    if all_valid(q) {
        assert forall|i: int| 0 <= i < parts.len() implies !(#[trigger] parts[i] is Unreadable) && (
        parts[i] is Name ==> valid_part(component_name(parts, i))) by {
            assert(!(q[i] is Unreadable));
        }
    }
    if nameable(parts) {
        assert forall|i: int| 0 <= i < q.len() implies !(#[trigger] q[i] is Unreadable) && (
        q[i] matches PathPartView::Name(n) ==> valid_part(n)) by {
            assert(!(parts[i] is Unreadable));
        }
    }
    let ns = present(lowered(q));
    assert forall|i: int| 0 <= i < parts.len() implies (#[trigger] parts[i] is Name <==> at.contains(i)) by {
        assert(lowered(q)[i] is Some <==> q[i] is Name);
    }
    assert forall|k: int| 0 <= k < at.len() implies ns[k] == lower(
        component_name(parts, #[trigger] at[k]),
    ) by {
        assert(lowered(q)[at[k]] == Some(ns[k]));
        assert(parts[at[k]] is Name);
    }
    assert(named_by(parts, at, ns));
    if exists|i: int| 0 <= i < parts.len() && #[trigger] parts[i] is Name {
        let i = choose|i: int| 0 <= i < parts.len() && #[trigger] parts[i] is Name;
        assert(at.contains(i));
        assert(ns.len() > 0);
    }
    if ns.len() > 0 {
        assert(at.contains(at[0]));
        assert(parts[at[0]] is Name);
    }
}

/// A file has the namespace of its path below the root; one that does not lie below it, or has
/// no path, has none.
pub proof fn law_namespaces_below_the_root(path: PathBuf, root: PathBuf)
    ensures
        path_below(path, root) ==> path_namespace(Some(path), root) == derived(
            path_parts(path).subrange(path_parts(root).len() as int, path_parts(path).len() as int),
        ),
        !path_below(path, root) ==> path_namespace(Some(path), root) is None,
        path_namespace(None, root) is None,
{
}

/// `ns` are the pieces of a relative URL path at the places `at`, without endings and in lower
/// case; the other pieces are not valid.
pub open spec fn url_named_by(rel: Seq<char>, at: Seq<int>, ns: Seq<Seq<char>>) -> bool {
    let v = pieces(rel, '/');
    &&& picks(at, v.len() as int)
    &&& at.len() == ns.len()
    &&& forall|k: int| 0 <= k < at.len() ==> ns[k] == lowercase(without_ending(v[#[trigger] at[k]]))
    &&& forall|i: int|
        0 <= i < v.len() ==> (at.contains(i) <==> valid_part(
            lowercase(without_ending(#[trigger] v[i])),
        ))
}

/// The namespace for a relative URL path is made of its valid pieces, in order, without endings
/// and in lower case. There is none if there is no valid piece.
pub proof fn law_namespaces_of_urls(rel: Seq<char>)
    ensures
        exists|at: Seq<int>, ns: Seq<Seq<char>>| #[trigger]
            url_named_by(rel, at, ns) && (ns.len() > 0 && rel.len() > 0 ==> url_namespace(rel)
                == Some(ns)) && (ns.len() == 0 || rel.len() == 0 ==> url_namespace(rel) is None),
{
    let v = pieces(rel, '/');
    let entries = url_parts(v);
    let at = lemma_present_places(entries);
    let ns = present(entries);
    assert forall|i: int| 0 <= i < v.len() implies (at.contains(i) <==> valid_part(
        lowercase(without_ending(#[trigger] v[i])),
    )) by {
        assert(entries[i] == url_part(v[i]));
    }
    assert forall|k: int| 0 <= k < at.len() implies ns[k] == lowercase(
        without_ending(v[#[trigger] at[k]]),
    ) by {
        assert(entries[at[k]] == Some(ns[k]));
        assert(entries[at[k]] == url_part(v[at[k]]));
    }
    assert(url_named_by(rel, at, ns));
}

/// That many slashes.
pub open spec fn slashes(n: nat) -> Seq<char> {
    Seq::new(n, |i: int| '/')
}

/// Slashes at the start of a text are left out.
pub proof fn law_leading_slashes(n: nat, rest: Seq<char>)
    requires
        rest.len() == 0 || rest[0] != '/',
    ensures
        without_leading_slashes(slashes(n) + rest) == rest,
    decreases n,
{
    let s = slashes(n) + rest;
    if n == 0 {
        assert(s =~= rest);
    } else {
        law_leading_slashes((n - 1) as nat, rest);
        assert(s.drop_first() =~= slashes((n - 1) as nat) + rest);
    }
}

proof fn lemma_trailing_slashes(base: Seq<char>, n: nat)
    requires
        base.len() == 0 || base.last() != '/',
    ensures
        without_trailing_slashes(base + slashes(n)) == base,
    decreases n,
{
    let s = base + slashes(n);
    if n == 0 {
        assert(s =~= base);
    } else {
        lemma_trailing_slashes(base, (n - 1) as nat);
        assert(s.drop_last() =~= base + slashes((n - 1) as nat));
    }
}

/// A file below a root has the namespace of what stands behind the root and the slashes after
/// it.
pub proof fn law_namespaces_below_root_urls(base: Seq<char>, n: nat, m: nat, rest: Seq<char>)
    requires
        base.len() == 0 || base.last() != '/',
        rest.len() == 0 || rest[0] != '/',
    ensures
        namespace_under(base + slashes(n), base + slashes(m) + rest) == url_namespace(rest),
{
    lemma_trailing_slashes(base, n);
    law_leading_slashes(m, rest);
    let file = base + slashes(m) + rest;
    assert(file.skip(base.len() as int) =~= slashes(m) + rest);
    assert(file.take(base.len() as int) =~= base);
    assert(base.is_prefix_of(file));
}

/// A file whose URL does not start with that of the root has no namespace.
pub proof fn law_no_namespace_outside_root_urls(base: Seq<char>, n: nat, file: Seq<char>)
    requires
        base.len() == 0 || base.last() != '/',
        !base.is_prefix_of(file),
    ensures
        namespace_under(base + slashes(n), file) is None,
{
    lemma_trailing_slashes(base, n);
}

} // verus!
