//! Stable sorting.

use vstd::prelude::*;
use vstd::seq_lib::*;

verus! {

/// Values with a rank to be sorted by.
pub trait Ranked: Sized {
    /// Whether this value has to stand before the other.
    spec fn precedes(self, other: Self) -> bool;

    /// Of two values at most one precedes the other.
    proof fn lemma_asymmetric(a: Self, b: Self)
        requires
            a.precedes(b),
        ensures
            !b.precedes(a),
    ;

    /// Not preceding is transitive.
    proof fn lemma_negatively_transitive(a: Self, b: Self, c: Self)
        requires
            !a.precedes(b),
            !b.precedes(c),
        ensures
            !a.precedes(c),
    ;

    /// Whether this value has to stand before the other.
    fn comes_before(&self, other: &Self) -> (r: bool)
        ensures
            r == self.precedes(*other),
    ;
}

// ── Model ─────────────────────────────────────────────────────────────────────

/// `s` with `x` put in behind the last value that `x` does not precede, seen from the end.
pub open spec fn inserted<T: Ranked>(s: Seq<T>, x: T) -> Seq<T>
    decreases s.len(),
{
    if s.len() > 0 && x.precedes(s.last()) {
        inserted(s.drop_last(), x).push(s.last())
    } else {
        s.push(x)
    }
}

/// The values of `s` sorted by rank. Values of the same rank keep their order.
pub open spec fn sorted<T: Ranked>(s: Seq<T>) -> Seq<T>
    decreases s.len(),
{
    if s.len() == 0 {
        Seq::empty()
    } else {
        inserted(sorted(s.drop_last()), s.last())
    }
}

/// No later value precedes an earlier one.
pub open spec fn in_order<T: Ranked>(s: Seq<T>) -> bool {
    forall|i: int, j: int| 0 <= i < j < s.len() ==> !(#[trigger] s[j]).precedes(#[trigger] s[i])
}

/// Whether neither of two values precedes the other.
pub open spec fn same_rank<T: Ranked>(a: T, b: T) -> bool {
    !a.precedes(b) && !b.precedes(a)
}

/// The values of the same rank as `x`.
pub open spec fn ranked_like<T: Ranked>(s: Seq<T>, x: T) -> Seq<T>
    decreases s.len(),
{
    if s.len() == 0 {
        Seq::empty()
    } else if same_rank(s.last(), x) {
        ranked_like(s.drop_last(), x).push(s.last())
    } else {
        ranked_like(s.drop_last(), x)
    }
}

// ── Sorting ───────────────────────────────────────────────────────────────────

/// Puts `x` in behind the last value that it does not precede.
fn insert_ranked<T: Ranked>(v: &mut Vec<T>, x: T)
    ensures
        final(v)@ == inserted(old(v)@, x),
{
    let mut i: usize = v.len();
    let ghost before = v@;
    assert(before.take(i as int) =~= before);
    assert(before.skip(i as int) =~= Seq::empty());
    assert(inserted(before, x) =~= inserted(before, x) + Seq::empty());
    while i > 0 && x.comes_before(&v[i - 1])
        invariant
            i <= v.len(),
            v@ == before,
            inserted(before, x) == inserted(before.take(i as int), x) + before.skip(i as int),
        decreases i,
    {
        proof {
            let t = before.take(i as int);
            assert(t.drop_last() =~= before.take(i - 1));
            assert(inserted(t, x) + before.skip(i as int) =~= inserted(before.take(i - 1), x)
                + before.skip(i - 1));
        }
        i = i - 1;
    }
    proof {
        assert(before.take(i as int).push(x) + before.skip(i as int) =~= before.insert(
            i as int,
            x,
        ));
    }
    v.insert(i, x);
}

/// Sorts by rank; values of the same rank keep their order.
pub fn sort<T: Ranked>(v: Vec<T>) -> (r: Vec<T>)
    ensures
        r@ == sorted(v@),
{
    let mut out: Vec<T> = Vec::new();
    let ghost all = v@;
    for x in it: v
        invariant
            it.seq() == all,
            out@ == sorted(all.take(it.index() as int)),
    {
        proof {
            let n = it.index() as int;
            assert(all.take(n + 1).drop_last() =~= all.take(n));
            assert(all.take(n + 1).last() == x);
        }
        insert_ranked(&mut out, x);
    }
    assert(all.take(all.len() as int) =~= all);
    out
}

// ── Laws ──────────────────────────────────────────────────────────────────────

/// Putting a value in keeps the order.
proof fn lemma_inserted_in_order<T: Ranked>(s: Seq<T>, x: T)
    requires
        in_order(s),
    ensures
        in_order(inserted(s, x)),
        forall|y: T| inserted(s, x).contains(y) ==> s.contains(y) || y == x,
        inserted(s, x).len() == s.len() + 1,
    decreases s.len(),
{
    let r = inserted(s, x);
    if s.len() > 0 && x.precedes(s.last()) {
        let rest = s.drop_last();
        lemma_inserted_in_order(rest, x);
        let q = inserted(rest, x);
        assert forall|i: int, j: int| 0 <= i < j < r.len() implies !(#[trigger] r[j]).precedes(
            #[trigger] r[i],
        ) by {
            if j < q.len() {
                assert(!q[j].precedes(q[i]));
            } else {
                assert(r[j] == s.last());
                assert(q.contains(q[i]));
                if q[i] == x {
                    T::lemma_asymmetric(x, s.last());
                } else {
                    assert(rest.contains(q[i]));
                    let k = choose|k: int| 0 <= k < rest.len() && rest[k] == q[i];
                    assert(!s[s.len() - 1].precedes(s[k]));
                }
            }
        }
        assert forall|y: T| r.contains(y) implies s.contains(y) || y == x by {
            let i = choose|i: int| 0 <= i < r.len() && r[i] == y;
            if i < q.len() {
                assert(q.contains(y));
                if rest.contains(y) {
                    let k = choose|k: int| 0 <= k < rest.len() && rest[k] == y;
                    assert(s[k] == y);
                }
            } else {
                assert(s[s.len() - 1] == y);
            }
        }
    } else {
        assert forall|i: int, j: int| 0 <= i < j < r.len() implies !(#[trigger] r[j]).precedes(
            #[trigger] r[i],
        ) by {
            if j < s.len() {
                assert(!s[j].precedes(s[i]));
            } else {
                assert(!x.precedes(s.last()));
                if i < s.len() - 1 {
                    assert(!s[s.len() - 1].precedes(s[i]));
                    T::lemma_negatively_transitive(x, s.last(), s[i]);
                }
            }
        }
        assert forall|y: T| r.contains(y) implies s.contains(y) || y == x by {
            let i = choose|i: int| 0 <= i < r.len() && r[i] == y;
            if i < s.len() {
                assert(s[i] == y);
            }
        }
    }
}

/// A sorted list is in order.
pub proof fn law_sorted_in_order<T: Ranked>(s: Seq<T>)
    ensures
        in_order(sorted(s)),
    decreases s.len(),
{
    if s.len() > 0 {
        law_sorted_in_order(s.drop_last());
        lemma_inserted_in_order(sorted(s.drop_last()), s.last());
    }
}

/// Putting a value in adds just that value.
proof fn lemma_inserted_multiset<T: Ranked>(s: Seq<T>, x: T)
    ensures
        inserted(s, x).to_multiset() == s.to_multiset().insert(x),
    decreases s.len(),
{
    broadcast use group_to_multiset_ensures;

    if s.len() > 0 && x.precedes(s.last()) {
        let rest = s.drop_last();
        lemma_inserted_multiset(rest, x);
        assert(s =~= rest.push(s.last()));
        assert(rest.to_multiset().insert(x).insert(s.last()) =~= rest.to_multiset().insert(
            s.last(),
        ).insert(x));
    }
}

/// Sorting keeps the values, each as often as it occurs.
pub proof fn law_sorted_multiset<T: Ranked>(s: Seq<T>)
    ensures
        sorted(s).to_multiset() == s.to_multiset(),
        sorted(s).len() == s.len(),
    decreases s.len(),
{
    broadcast use group_to_multiset_ensures;

    if s.len() == 0 {
        assert(s =~= Seq::empty());
    } else {
        law_sorted_multiset(s.drop_last());
        lemma_inserted_multiset(sorted(s.drop_last()), s.last());
        assert(s =~= s.drop_last().push(s.last()));
        assert(sorted(s).len() == sorted(s).to_multiset().len());
        assert(s.len() == s.to_multiset().len());
    }
}

/// A sorted list holds the same values.
pub proof fn law_sorted_same_values<T: Ranked>(s: Seq<T>, x: T)
    ensures
        sorted(s).contains(x) <==> s.contains(x),
{
    broadcast use group_to_multiset_ensures;

    law_sorted_multiset(s);
    assert(sorted(s).contains(x) <==> sorted(s).to_multiset().count(x) > 0);
    assert(s.contains(x) <==> s.to_multiset().count(x) > 0);
}

/// Sorting keeps the order of the values of any one rank.
pub proof fn law_sorted_stable<T: Ranked>(s: Seq<T>, x: T)
    ensures
        ranked_like(sorted(s), x) == ranked_like(s, x),
    decreases s.len(),
{
    if s.len() > 0 {
        law_sorted_stable(s.drop_last(), x);
        lemma_inserted_stable(sorted(s.drop_last()), s.last(), x);
    }
}

/// Putting a value in puts it behind those of the same rank.
proof fn lemma_inserted_stable<T: Ranked>(s: Seq<T>, y: T, x: T)
    ensures
        ranked_like(inserted(s, y), x) == if same_rank(y, x) {
            ranked_like(s, x).push(y)
        } else {
            ranked_like(s, x)
        },
    decreases s.len(),
{
    if s.len() > 0 && y.precedes(s.last()) {
        let rest = s.drop_last();
        lemma_inserted_stable(rest, y, x);
        assert(inserted(s, y).drop_last() =~= inserted(rest, y));
        if same_rank(y, x) && same_rank(s.last(), x) {
            T::lemma_negatively_transitive(y, x, s.last());
        }
    } else {
        assert(s.push(y).drop_last() =~= s);
    }
}

/// Values of one rank stand among those of their rank as they stand in the list.
proof fn lemma_ranked_like_keeps<T: Ranked>(s: Seq<T>, x: T, i: int, j: int) -> (r: (int, int))
    requires
        0 <= i < j < s.len(),
        same_rank(s[i], x),
        same_rank(s[j], x),
    ensures
        0 <= r.0 < r.1 < ranked_like(s, x).len(),
        ranked_like(s, x)[r.0] == s[i],
        ranked_like(s, x)[r.1] == s[j],
    decreases s.len(),
{
    let rest = s.drop_last();
    if j < s.len() - 1 {
        lemma_ranked_like_keeps(rest, x, i, j)
    } else {
        let p = lemma_ranked_like_holds(rest, x, i);
        (p, ranked_like(rest, x).len() as int)
    }
}

/// A value stands among those of its rank.
proof fn lemma_ranked_like_holds<T: Ranked>(s: Seq<T>, x: T, i: int) -> (p: int)
    requires
        0 <= i < s.len(),
        same_rank(s[i], x),
    ensures
        0 <= p < ranked_like(s, x).len(),
        ranked_like(s, x)[p] == s[i],
    decreases s.len(),
{
    if i < s.len() - 1 {
        lemma_ranked_like_holds(s.drop_last(), x, i)
    } else {
        ranked_like(s.drop_last(), x).len() as int
    }
}

/// What stands among the values of one rank stands in the list.
proof fn lemma_ranked_like_from<T: Ranked>(s: Seq<T>, x: T, p: int) -> (i: int)
    requires
        0 <= p < ranked_like(s, x).len(),
    ensures
        0 <= i < s.len(),
        s[i] == ranked_like(s, x)[p],
    decreases s.len(),
{
    let rest = s.drop_last();
    if p < ranked_like(rest, x).len() {
        lemma_ranked_like_from(rest, x, p)
    } else {
        s.len() - 1
    }
}

/// What stands in this order among the values of one rank does so in the list.
proof fn lemma_ranked_like_order<T: Ranked>(s: Seq<T>, x: T, p: int, q: int) -> (r: (int, int))
    requires
        0 <= p < q < ranked_like(s, x).len(),
    ensures
        0 <= r.0 < r.1 < s.len(),
        s[r.0] == ranked_like(s, x)[p],
        s[r.1] == ranked_like(s, x)[q],
    decreases s.len(),
{
    let rest = s.drop_last();
    if q < ranked_like(rest, x).len() {
        lemma_ranked_like_order(rest, x, p, q)
    } else {
        let i = lemma_ranked_like_from(rest, x, p);
        (i, s.len() - 1)
    }
}

/// Two values of the same rank that stand in some order after sorting stood in that order
/// before.
pub proof fn law_sorted_keeps_order<T: Ranked>(s: Seq<T>, i: int, j: int) -> (r: (int, int))
    requires
        0 <= i < j < sorted(s).len(),
        same_rank(sorted(s)[i], sorted(s)[j]),
    ensures
        0 <= r.0 < r.1 < s.len(),
        s[r.0] == sorted(s)[i],
        s[r.1] == sorted(s)[j],
{
    let x = sorted(s)[i];
    if x.precedes(x) {
        T::lemma_asymmetric(x, x);
    }
    let (p, q) = lemma_ranked_like_keeps(sorted(s), x, i, j);
    law_sorted_stable(s, x);
    lemma_ranked_like_order(s, x, p, q)
}

} // verus!
