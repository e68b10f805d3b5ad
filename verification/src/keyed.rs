//! Lists of values under keys.

use vstd::prelude::*;

verus! {

/// Values under keys, in order of entry.
pub type Keyed<V> = Seq<(Seq<char>, V)>;

/// Whether entry `i` has the key.
pub open spec fn key_at<V>(s: Keyed<V>, i: int, key: Seq<char>) -> bool {
    0 <= i < s.len() && s[i].0 == key
}

/// Whether some entry has the key.
pub open spec fn has_key<V>(s: Keyed<V>, key: Seq<char>) -> bool {
    exists|i: int| key_at(s, i, key)
}

/// The entry that has the key.
pub open spec fn place<V>(s: Keyed<V>, key: Seq<char>) -> int {
    choose|i: int| key_at(s, i, key)
}

/// The value under a key.
pub open spec fn get<V>(s: Keyed<V>, key: Seq<char>) -> Option<V> {
    if has_key(s, key) {
        Some(s[place(s, key)].1)
    } else {
        None
    }
}

/// The list with `value` under `key`, in place of what was there, else at the end.
pub open spec fn put<V>(s: Keyed<V>, key: Seq<char>, value: V) -> Keyed<V> {
    if has_key(s, key) {
        s.update(place(s, key), (key, value))
    } else {
        s.push((key, value))
    }
}

/// The list without the entry for `key`.
pub open spec fn without<V>(s: Keyed<V>, key: Seq<char>) -> Keyed<V> {
    if has_key(s, key) {
        s.remove(place(s, key))
    } else {
        s
    }
}

/// No key occurs twice.
pub open spec fn distinct<V>(s: Keyed<V>) -> bool {
    forall|i: int, j: int| 0 <= i < j < s.len() ==> (#[trigger] s[i]).0 != (#[trigger] s[j]).0
}

/// With distinct keys each entry is the one for its key.
pub proof fn lemma_place<V>(s: Keyed<V>, i: int)
    requires
        distinct(s),
        0 <= i < s.len(),
    ensures
        has_key(s, s[i].0),
        place(s, s[i].0) == i,
        get(s, s[i].0) == Some(s[i].1),
{
    let key = s[i].0;
    assert(key_at(s, i, key));
    let p = place(s, key);
    assert(key_at(s, p, key));
    if p < i {
        assert(s[p].0 != s[i].0);
    } else if i < p {
        assert(s[i].0 != s[p].0);
    }
}

/// A value put under a key is found there, and the other keys keep theirs.
pub proof fn lemma_put<V>(s: Keyed<V>, key: Seq<char>, value: V)
    requires
        distinct(s),
    ensures
        distinct(put(s, key, value)),
        forall|k: Seq<char>| #[trigger]
            get(put(s, key, value), k) == if k == key {
                Some(value)
            } else {
                get(s, k)
            },
        forall|k: Seq<char>| #[trigger] has_key(put(s, key, value), k) <==> k == key || has_key(s, k),
{
    let t = put(s, key, value);
    if has_key(s, key) {
        assert(key_at(s, place(s, key), key));
    }
    assert(distinct(t)) by {
        assert forall|i: int, j: int| 0 <= i < j < t.len() implies (#[trigger] t[i]).0 != (
        #[trigger] t[j]).0 by {
            if has_key(s, key) {
                assert(s[i].0 != s[j].0);
            } else if j < s.len() {
                assert(s[i].0 != s[j].0);
            } else if s[i].0 == key {
                assert(key_at(s, i, key));
            }
        }
    }
    assert forall|k: Seq<char>| #[trigger]
        get(t, k) == (if k == key {
            Some(value)
        } else {
            get(s, k)
        }) && (has_key(t, k) <==> k == key || has_key(s, k)) by {
        if k == key {
            let i = if has_key(s, key) {
                place(s, key)
            } else {
                s.len() as int
            };
            assert(t[i] == (key, value));
            lemma_place(t, i);
        } else {
            if has_key(s, k) {
                let i = place(s, k);
                assert(key_at(s, i, k));
                assert(t[i] == s[i]);
                lemma_place(t, i);
            }
            if has_key(t, k) {
                let i = place(t, k);
                assert(key_at(t, i, k));
                assert(key_at(s, i, k));
            }
        }
    }
    assert forall|k: Seq<char>| #[trigger] has_key(t, k) <==> k == key || has_key(s, k) by {
        let _ = get(t, k);
    }
}

/// After removal the key is gone, and the other keys keep their values.
pub proof fn lemma_without<V>(s: Keyed<V>, key: Seq<char>)
    requires
        distinct(s),
    ensures
        distinct(without(s, key)),
        forall|k: Seq<char>| #[trigger]
            get(without(s, key), k) == if k == key {
                None
            } else {
                get(s, k)
            },
        forall|k: Seq<char>| #[trigger] has_key(without(s, key), k) <==> k != key && has_key(s, k),
{
    let t = without(s, key);
    if has_key(s, key) {
        let p = place(s, key);
        assert(key_at(s, p, key));
        assert(distinct(t)) by {
            assert forall|i: int, j: int| 0 <= i < j < t.len() implies (#[trigger] t[i]).0 != (
            #[trigger] t[j]).0 by {
                let a = if i < p {
                    i
                } else {
                    i + 1
                };
                let b = if j < p {
                    j
                } else {
                    j + 1
                };
                assert(s[a].0 != s[b].0);
            }
        }
        assert forall|k: Seq<char>| #[trigger]
            get(t, k) == (if k == key {
                None
            } else {
                get(s, k)
            }) && (has_key(t, k) <==> k != key && has_key(s, k)) by {
            if has_key(t, k) {
                let i = place(t, k);
                assert(key_at(t, i, k));
                let a = if i < p {
                    i
                } else {
                    i + 1
                };
                assert(s[a] == t[i]);
                lemma_place(s, a);
                if k == key {
                    lemma_place(s, p);
                }
            }
            if k != key && has_key(s, k) {
                let i = place(s, k);
                assert(key_at(s, i, k));
                let b = if i < p {
                    i
                } else {
                    i - 1
                };
                assert(t[b] == s[i]);
                lemma_place(t, b);
            }
        }
        assert forall|k: Seq<char>| #[trigger] has_key(t, k) <==> k != key && has_key(s, k) by {
            let _ = get(t, k);
        }
    }
}

} // verus!
