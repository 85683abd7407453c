//! Association lists: sequences of pairs whose first components are distinct,
//! read as finite maps.

use vstd::prelude::*;

verus! {

/// The first components of `s` are pairwise distinct.
pub open spec fn unique_keys<K, V>(s: Seq<(K, V)>) -> bool {
    forall|i: int, j: int|
        0 <= i < s.len() && 0 <= j < s.len() && #[trigger] s[i].0 == #[trigger] s[j].0 ==> i == j
}

/// `k` is the first component of some pair of `s`.
pub open spec fn has_key<K, V>(s: Seq<(K, V)>, k: K) -> bool {
    exists|i: int| 0 <= i < s.len() && #[trigger] s[i].0 == k
}

/// The map that sends each first component to the second component paired with it.
pub open spec fn assoc<K, V>(s: Seq<(K, V)>) -> Map<K, V> {
    Map::new(
        |k: K| has_key(s, k),
        |k: K| s[choose|i: int| 0 <= i < s.len() && #[trigger] s[i].0 == k].1,
    )
}

pub proof fn lemma_assoc_index<K, V>(s: Seq<(K, V)>, i: int)
    requires
        unique_keys(s),
        0 <= i < s.len(),
    ensures
        assoc(s).contains_key(s[i].0),
        assoc(s)[s[i].0] == s[i].1,
{
    let k = s[i].0;
    assert(has_key(s, k));
    let j = choose|j: int| 0 <= j < s.len() && #[trigger] s[j].0 == k;
    assert(s[j].0 == s[i].0);
}

pub proof fn lemma_assoc_empty<K, V>(s: Seq<(K, V)>)
    requires
        s.len() == 0,
    ensures
        assoc(s) == Map::<K, V>::empty(),
{
    assert(assoc(s) =~= Map::<K, V>::empty());
}

/// Replacing the second component at one index updates the map at that key.
pub proof fn lemma_assoc_update<K, V>(s: Seq<(K, V)>, i: int, v: V)
    requires
        unique_keys(s),
        0 <= i < s.len(),
    ensures
        unique_keys(s.update(i, (s[i].0, v))),
        assoc(s.update(i, (s[i].0, v))) == assoc(s).insert(s[i].0, v),
{
    let t = s.update(i, (s[i].0, v));
    assert forall|a: int, b: int|
        0 <= a < t.len() && 0 <= b < t.len() && #[trigger] t[a].0 == #[trigger] t[b].0 implies a == b by {
        assert(t[a].0 == s[a].0);
        assert(t[b].0 == s[b].0);
    }
    assert forall|k: K| #[trigger] has_key(t, k) == (has_key(s, k) || k == s[i].0) by {
        if has_key(t, k) {
            let a = choose|a: int| 0 <= a < t.len() && #[trigger] t[a].0 == k;
            assert(s[a].0 == k);
        }
        if has_key(s, k) {
            let a = choose|a: int| 0 <= a < s.len() && #[trigger] s[a].0 == k;
            assert(t[a].0 == k);
        }
        if k == s[i].0 {
            assert(t[i].0 == k);
        }
    }
    assert forall|k: K| #[trigger] assoc(t).contains_key(k) implies assoc(t)[k] == assoc(s).insert(
        s[i].0,
        v,
    )[k] by {
        let a = choose|a: int| 0 <= a < t.len() && #[trigger] t[a].0 == k;
        lemma_assoc_index(t, a);
        if a != i {
            lemma_assoc_index(s, a);
        }
    }
    assert(assoc(t) =~= assoc(s).insert(s[i].0, v));
}

/// Appending a pair with a fresh key inserts it into the map.
pub proof fn lemma_assoc_push<K, V>(s: Seq<(K, V)>, k: K, v: V)
    requires
        unique_keys(s),
        !has_key(s, k),
    ensures
        unique_keys(s.push((k, v))),
        assoc(s.push((k, v))) == assoc(s).insert(k, v),
{
    let t = s.push((k, v));
    assert forall|a: int, b: int|
        0 <= a < t.len() && 0 <= b < t.len() && #[trigger] t[a].0 == #[trigger] t[b].0 implies a == b by {
        if a < s.len() {
            assert(t[a].0 == s[a].0);
        }
        if b < s.len() {
            assert(t[b].0 == s[b].0);
        }
    }
    assert forall|x: K| #[trigger] has_key(t, x) == (has_key(s, x) || x == k) by {
        if has_key(t, x) {
            let a = choose|a: int| 0 <= a < t.len() && #[trigger] t[a].0 == x;
            if a < s.len() {
                assert(s[a].0 == x);
            }
        }
        if has_key(s, x) {
            let a = choose|a: int| 0 <= a < s.len() && #[trigger] s[a].0 == x;
            assert(t[a].0 == x);
        }
        if x == k {
            assert(t[s.len() as int].0 == x);
        }
    }
    assert forall|x: K| #[trigger] assoc(t).contains_key(x) implies assoc(t)[x] == assoc(s).insert(
        k,
        v,
    )[x] by {
        let a = choose|a: int| 0 <= a < t.len() && #[trigger] t[a].0 == x;
        lemma_assoc_index(t, a);
        if a < s.len() {
            assert(t[a] == s[a]);
            lemma_assoc_index(s, a);
        }
    }
    assert(assoc(t) =~= assoc(s).insert(k, v));
}

/// Removing the last pair removes its key from the map.
pub proof fn lemma_assoc_drop_last<K, V>(s: Seq<(K, V)>)
    requires
        unique_keys(s),
        s.len() > 0,
    ensures
        unique_keys(s.drop_last()),
        !has_key(s.drop_last(), s.last().0),
        assoc(s) == assoc(s.drop_last()).insert(s.last().0, s.last().1),
{
    let t = s.drop_last();
    assert forall|a: int, b: int|
        0 <= a < t.len() && 0 <= b < t.len() && #[trigger] t[a].0 == #[trigger] t[b].0 implies a == b by {
        assert(t[a] == s[a]);
        assert(t[b] == s[b]);
    }
    if has_key(t, s.last().0) {
        let a = choose|a: int| 0 <= a < t.len() && #[trigger] t[a].0 == s.last().0;
        assert(s[a].0 == s[s.len() - 1].0);
    }
    lemma_assoc_push(t, s.last().0, s.last().1);
    assert(t.push((s.last().0, s.last().1)) =~= s);
}

} // verus!
