//! Places of the names of rules.
//!
//! The syntax tree has the span of a rule, but not that of its name. The tokens have: a rule
//! is named right behind `rule`.

use crate::layout::{is_laid_out, laid_out};
use crate::lexer::{lexed, scan, scanned_views, Lexeme, LexemeView, ScannedView};
use crate::lists::{lemma_present_push, present};
use crate::types::SourceSpan;
use vstd::prelude::*;

verus! {

// ── Reading places ────────────────────────────────────────────────────────────

/// Whether a token is `rule`.
pub open spec fn is_rule(item: Option<ScannedView>) -> bool {
    item matches Some(s) && s.lexeme is Rule
}

/// Where the name of a rule stands, if token `i` is one.
pub open spec fn place_at(items: Seq<Option<ScannedView>>, i: int) -> Option<SourceSpan> {
    if i > 0 && is_rule(items[i - 1]) {
        match items[i] {
            Some(s) => match s.lexeme {
                LexemeView::Name(_) => Some(SourceSpan { start: s.start, end: s.end }),
                _ => None,
            },
            None => None,
        }
    } else {
        None
    }
}

/// For each token, where the name of a rule stands, if it is one.
pub open spec fn places_at(items: Seq<Option<ScannedView>>) -> Seq<Option<SourceSpan>> {
    Seq::new(items.len(), |i: int| place_at(items, i))
}

/// Where the names of the rules in a text stand, in order. A text that cannot be followed to
/// its end has none.
pub open spec fn places_in(text: Seq<char>) -> Seq<SourceSpan> {
    if laid_out(text) {
        present(places_at(lexed(text)))
    } else {
        Seq::empty()
    }
}

/// Where the names of the rules in a text stand, in order.
pub fn read_places(text: &str) -> (r: Vec<SourceSpan>)
    ensures
        r@ == places_in(text@),
{
    let mut out: Vec<SourceSpan> = Vec::new();
    if !is_laid_out(text) {
        assert(out@ =~= Seq::empty());
        return out;
    }
    let items = scan(text);
    let ghost views = scanned_views(items@);
    let ghost all = places_at(views);
    let mut behind: bool = false;
    let mut i: usize = 0;
    assert(out@ =~= present(all.take(0)));
    while i < items.len()
        invariant
            i <= items.len(),
            views == scanned_views(items@),
            all == places_at(views),
            behind == (i > 0 && is_rule(views[i - 1])),
            out@ == present(all.take(i as int)),
        decreases items.len() - i,
    {
        proof {
            assert(all.take(i + 1) =~= all.take(i as int).push(all[i as int]));
            lemma_present_push(all.take(i as int), all[i as int]);
        }
        let next = match &items[i] {
            Some(s) => {
                assert(views[i as int] == Some(s@));
                match &s.lexeme {
                    Lexeme::Rule => true,
                    Lexeme::Name(_) => {
                        if behind {
                            out.push(SourceSpan { start: s.start, end: s.end });
                        }
                        false
                    },
                    _ => false,
                }
            },
            None => false,
        };
        behind = next;
        i = i + 1;
    }
    assert(all.take(all.len() as int) =~= all);
    out
}

// ── Looking places up ─────────────────────────────────────────────────────────

/// Whether a place lies in a span.
pub open spec fn stands_in(p: SourceSpan, span: SourceSpan) -> bool {
    span.start.offset <= p.start.offset && p.end.offset <= span.end.offset
}

/// The first place in a span.
pub open spec fn name_in(places: Seq<SourceSpan>, span: Option<SourceSpan>) -> Option<
    SourceSpan,
>
    decreases places.len(),
{
    match span {
        Some(s) => if places.len() == 0 {
            None
        } else if stands_in(places[0], s) {
            Some(places[0])
        } else {
            name_in(places.skip(1), span)
        },
        None => None,
    }
}

/// The first place in a span.
pub fn find_name(places: &Vec<SourceSpan>, span: Option<SourceSpan>) -> (r: Option<
    SourceSpan,
>)
    ensures
        r == name_in(places@, span),
{
    let s = match span {
        Some(s) => s,
        None => {
            return None;
        },
    };
    let ghost all = places@;
    let mut i: usize = 0;
    assert(all.skip(0) =~= all);
    while i < places.len()
        invariant
            i <= places.len(),
            all == places@,
            span == Some(s),
            name_in(all, span) == name_in(all.skip(i as int), span),
        decreases places.len() - i,
    {
        let p = places[i];
        proof {
            assert(all.skip(i as int)[0] == p);
            assert(all.skip(i as int).skip(1) =~= all.skip(i + 1));
        }
        if s.start.offset <= p.start.offset && p.end.offset <= s.end.offset {
            return Some(p);
        }
        i = i + 1;
    }
    None
}

} // verus!
