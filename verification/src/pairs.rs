//! Lists of `(key, rank)` pairs read as maps.
use vstd::prelude::*;

verus! {

/// The map that a list of `(key, rank)` pairs describes, later pairs
/// overriding earlier ones.
pub open spec fn pairs_map<K: View>(t: Seq<(K, u32)>) -> Map<K::V, u32>
    decreases t.len(),
{
    if t.len() == 0 {
        Map::empty()
    } else {
        pairs_map(t.drop_last()).insert(t.last().0@, t.last().1)
    }
}

/// No key occurs twice in the list.
pub open spec fn distinct_keys<K: View>(t: Seq<(K, u32)>) -> bool {
    forall|i: int, j: int| 0 <= i < t.len() && 0 <= j < t.len() && i != j ==> t[i].0@ != t[j].0@
}

/// Some pair in `t` has key `x`.
pub open spec fn has_key<K: View>(t: Seq<(K, u32)>, x: K::V) -> bool {
    exists|j: int| 0 <= j < t.len() && t[j].0@ == x
}

/// With distinct keys, the map holds exactly the list's pairs.
pub proof fn lemma_pairs_map<K: View>(t: Seq<(K, u32)>)
    requires
        distinct_keys(t),
    ensures
        forall|k: K::V| #[trigger] pairs_map(t).dom().contains(k) <==> has_key(t, k),
        forall|i: int| 0 <= i < t.len() ==> pairs_map(t)[#[trigger] t[i].0@] == t[i].1,
    decreases t.len(),
{
    if t.len() > 0 {
        let init = t.drop_last();
        let last = t[t.len() - 1];
        assert forall|i: int| 0 <= i < init.len() implies #[trigger] init[i] == t[i] by {}
        assert(distinct_keys(init));
        lemma_pairs_map(init);
        assert(pairs_map(t) == pairs_map(init).insert(last.0@, last.1));
        assert forall|k: K::V| #[trigger] pairs_map(t).dom().contains(k) implies has_key(t, k) by {
            if k != last.0@ {
                assert(pairs_map(init).dom().contains(k));
                let i = choose|i: int| 0 <= i < init.len() && init[i].0@ == k;
                assert(t[i] == init[i]);
            } else {
                assert(t[t.len() - 1].0@ == k);
            }
        }
        assert forall|k: K::V| has_key(t, k) implies #[trigger] pairs_map(t).dom().contains(k) by {
            let i = choose|i: int| 0 <= i < t.len() && t[i].0@ == k;
            if i < t.len() - 1 {
                assert(init[i] == t[i]);
                assert(has_key(init, k));
            }
        }
        assert forall|i: int| 0 <= i < t.len() implies pairs_map(t)[#[trigger] t[i].0@] == t[i].1 by {
            if i < t.len() - 1 {
                assert(init[i] == t[i]);
                assert(t[i].0@ != t[t.len() - 1].0@);
                assert(pairs_map(init)[init[i].0@] == init[i].1);
            }
        }
    }
}

/// Replacing the pair with key `k` sets `k`'s rank.
pub proof fn lemma_pairs_update<K: View>(t: Seq<(K, u32)>, i: int, k: K, v: u32)
    requires
        distinct_keys(t),
        0 <= i < t.len(),
        t[i].0@ == k@,
    ensures
        distinct_keys(t.update(i, (k, v))),
        pairs_map(t.update(i, (k, v))) == pairs_map(t).insert(k@, v),
{
    let u = t.update(i, (k, v));
    assert forall|a: int| 0 <= a < t.len() && a != i implies #[trigger] u[a] == t[a] by {}
    assert(distinct_keys(u)) by {
        assert forall|a: int, b: int| 0 <= a < u.len() && 0 <= b < u.len() && a != b implies u[a].0@ != u[b].0@ by {
            if a != i && b != i {
                assert(u[a] == t[a] && u[b] == t[b]);
            } else if a == i {
                assert(u[b] == t[b]);
            } else {
                assert(u[a] == t[a]);
            }
        }
    }
    lemma_pairs_map(t);
    lemma_pairs_map(u);
    assert forall|x: K::V| #[trigger] pairs_map(u).dom().contains(x) <==> pairs_map(t).insert(k@, v).dom().contains(x) by {
        if has_key(u, x) {
            let j = choose|j: int| 0 <= j < u.len() && u[j].0@ == x;
            if j != i {
                assert(u[j] == t[j]);
            }
        }
        if has_key(t, x) {
            let j = choose|j: int| 0 <= j < t.len() && t[j].0@ == x;
            if j != i {
                assert(u[j] == t[j]);
            } else {
                assert(u[i].0@ == x);
            }
        }
    }
    assert forall|x: K::V| #[trigger] pairs_map(u).dom().contains(x) implies pairs_map(u)[x] == pairs_map(t).insert(k@, v)[x] by {
        let j = choose|j: int| 0 <= j < u.len() && u[j].0@ == x;
        if j != i {
            assert(u[j] == t[j]);
        }
    }
    assert(pairs_map(u) =~= pairs_map(t).insert(k@, v));
}

/// Appending a pair with a new key keeps the keys distinct.
pub proof fn lemma_pairs_push<K: View>(t: Seq<(K, u32)>, k: K, v: u32)
    requires
        distinct_keys(t),
        !has_key(t, k@),
    ensures
        distinct_keys(t.push((k, v))),
        pairs_map(t.push((k, v))) == pairs_map(t).insert(k@, v),
{
    let u = t.push((k, v));
    assert(u.drop_last() == t);
    assert forall|j: int| 0 <= j < t.len() implies #[trigger] u[j] == t[j] by {}
    assert forall|a: int, b: int| 0 <= a < u.len() && 0 <= b < u.len() && a != b implies u[a].0@ != u[b].0@ by {
        if a < t.len() && b < t.len() {
            assert(u[a] == t[a] && u[b] == t[b]);
        } else if a < t.len() {
            assert(u[a] == t[a]);
        } else {
            assert(u[b] == t[b]);
        }
    }
}

} // verus!
