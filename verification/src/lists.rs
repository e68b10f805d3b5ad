//! Lists with gaps.

use vstd::prelude::*;

verus! {

/// The values that are there, in order.
pub open spec fn present<A>(s: Seq<Option<A>>) -> Seq<A>
    decreases s.len(),
{
    if s.len() == 0 {
        Seq::empty()
    } else {
        match s.last() {
            Some(a) => present(s.drop_last()).push(a),
            None => present(s.drop_last()),
        }
    }
}

/// One more entry adds its value, if it has one.
pub proof fn lemma_present_push<A>(s: Seq<Option<A>>, x: Option<A>)
    ensures
        present(s.push(x)) == match x {
            Some(a) => present(s).push(a),
            None => present(s),
        },
{
    assert(s.push(x).drop_last() =~= s);
}

/// A value is present exactly if some entry holds it.
pub proof fn lemma_present_contains<A>(s: Seq<Option<A>>, a: A)
    ensures
        present(s).contains(a) <==> s.contains(Some(a)),
    decreases s.len(),
{
    if s.len() > 0 {
        lemma_present_contains(s.drop_last(), a);
        let rest = s.drop_last();
        assert(s =~= rest.push(s.last()));
        if rest.contains(Some(a)) {
            let i = choose|i: int| 0 <= i < rest.len() && rest[i] == Some(a);
            assert(s[i] == Some(a));
        }
        if s.contains(Some(a)) {
            let i = choose|i: int| 0 <= i < s.len() && s[i] == Some(a);
            if i < s.len() - 1 {
                assert(rest[i] == Some(a));
            }
        }
        match s.last() {
            Some(b) => {
                let p = present(rest);
                assert(p.push(b).contains(a) <==> p.contains(a) || b == a) by {
                    if p.contains(a) {
                        let i = choose|i: int| 0 <= i < p.len() && p[i] == a;
                        assert(p.push(b)[i] == a);
                    }
                    if b == a {
                        assert(p.push(b)[p.len() as int] == a);
                    }
                }
            },
            None => {},
        }
    }
}

/// No more values are present than there are entries.
pub proof fn lemma_present_len<A>(s: Seq<Option<A>>)
    ensures
        present(s).len() <= s.len(),
    decreases s.len(),
{
    if s.len() > 0 {
        lemma_present_len(s.drop_last());
    }
}

/// Values that are present come from entries in the same order.
pub proof fn lemma_present_order<A>(s: Seq<Option<A>>, p: int, q: int) -> (r: (int, int))
    requires
        0 <= p < q < present(s).len(),
    ensures
        0 <= r.0 < r.1 < s.len(),
        s[r.0] == Some(present(s)[p]),
        s[r.1] == Some(present(s)[q]),
    decreases s.len(),
{
    let rest = s.drop_last();
    if q < present(rest).len() {
        lemma_present_order(rest, p, q)
    } else {
        let i = lemma_present_from(rest, p);
        (i, s.len() - 1)
    }
}

/// A value that is present comes from an entry.
pub proof fn lemma_present_from<A>(s: Seq<Option<A>>, p: int) -> (i: int)
    requires
        0 <= p < present(s).len(),
    ensures
        0 <= i < s.len(),
        s[i] == Some(present(s)[p]),
    decreases s.len(),
{
    let rest = s.drop_last();
    if p < present(rest).len() {
        lemma_present_from(rest, p)
    } else {
        s.len() - 1
    }
}

/// The first value that is there.
pub open spec fn first<A>(s: Seq<Option<A>>) -> Option<A>
    decreases s.len(),
{
    if s.len() == 0 {
        None
    } else {
        match s[0] {
            Some(a) => Some(a),
            None => first(s.drop_first()),
        }
    }
}

/// What comes first from place `i` on is entry `i`, if it has a value, else what comes first
/// from the next place on.
pub proof fn lemma_first_skip<A>(s: Seq<Option<A>>, i: int)
    requires
        0 <= i < s.len(),
    ensures
        first(s.skip(i)) == match s[i] {
            Some(a) => Some(a),
            None => first(s.skip(i + 1)),
        },
{
    assert(s.skip(i).drop_first() =~= s.skip(i + 1));
}

/// The first value comes from some entry.
pub proof fn lemma_first_from<A>(s: Seq<Option<A>>) -> (i: int)
    requires
        first(s) is Some,
    ensures
        0 <= i < s.len(),
        s[i] == first(s),
    decreases s.len(),
{
    match s[0] {
        Some(_) => 0,
        None => lemma_first_from(s.drop_first()) + 1,
    }
}

/// A value is in a concatenation exactly if it is in one of the parts.
pub proof fn lemma_concat_contains<A>(a: Seq<A>, b: Seq<A>, x: A)
    ensures
        (a + b).contains(x) <==> a.contains(x) || b.contains(x),
{
    if a.contains(x) {
        let i = choose|i: int| 0 <= i < a.len() && a[i] == x;
        assert((a + b)[i] == x);
    }
    if b.contains(x) {
        let i = choose|i: int| 0 <= i < b.len() && b[i] == x;
        assert((a + b)[a.len() + i] == x);
    }
}

} // verus!
