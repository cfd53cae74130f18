//! Association sequences: the mathematical content of the library's small
//! insertion-ordered maps.
//!
//! A map of the library is stored as a sequence of key/value pairs in which
//! no key occurs twice. Its meaning is the `Map` that sends each key to the
//! value paired with it.

use vstd::prelude::*;

verus! {

/// No key occurs at two positions of `s`.
pub open spec fn keys_distinct<K, V>(s: Seq<(K, V)>) -> bool {
    forall|i: int, j: int| 0 <= i < j < s.len() ==> (#[trigger] s[i]).0 != (#[trigger] s[j]).0
}

/// Some position of `s` holds the key `k`.
pub open spec fn has_key<K, V>(s: Seq<(K, V)>, k: K) -> bool {
    exists|i: int| 0 <= i < s.len() && (#[trigger] s[i]).0 == k
}

/// A position of `s` that holds the key `k`, if there is one.
pub open spec fn position_of<K, V>(s: Seq<(K, V)>, k: K) -> int {
    choose|i: int| 0 <= i < s.len() && (#[trigger] s[i]).0 == k
}

/// The map that `s` stands for.
pub open spec fn assoc_map<K, V>(s: Seq<(K, V)>) -> Map<K, V> {
    Map::new(|k: K| has_key(s, k), |k: K| s[position_of(s, k)].1)
}

/// The pair at position `i` is an entry of the map.
pub proof fn lemma_assoc_at<K, V>(s: Seq<(K, V)>, i: int)
    requires
        keys_distinct(s),
        0 <= i < s.len(),
    ensures
        has_key(s, s[i].0),
        position_of(s, s[i].0) == i,
        assoc_map(s).dom().contains(s[i].0),
        assoc_map(s)[s[i].0] == s[i].1,
{
    let k = s[i].0;
    let j = position_of(s, k);
}

/// The empty sequence stands for the empty map.
pub proof fn lemma_assoc_empty<K, V>()
    ensures
        keys_distinct(Seq::<(K, V)>::empty()),
        assoc_map(Seq::<(K, V)>::empty()) == Map::<K, V>::empty(),
{
}

/// Appending a pair with a fresh key inserts it into the map.
pub proof fn lemma_assoc_push<K, V>(s: Seq<(K, V)>, k: K, v: V)
    requires
        keys_distinct(s),
        !has_key(s, k),
    ensures
        keys_distinct(s.push((k, v))),
        assoc_map(s.push((k, v))) == assoc_map(s).insert(k, v),
{
    let t = s.push((k, v));
    assert forall|q: K| has_key(t, q) <==> (q == k || has_key(s, q)) by {
        if has_key(t, q) {
            let i = position_of(t, q);
        }
        if q == k {
            assert(t[s.len() as int].0 == k);
        }
        if has_key(s, q) {
            let i = position_of(s, q);
            assert(t[i].0 == q);
        }
    }
    assert forall|q: K| has_key(t, q) implies #[trigger] assoc_map(t)[q] == assoc_map(s).insert(
        k,
        v,
    )[q] by {
        let i = position_of(t, q);
        lemma_assoc_at(t, i);
        if i < s.len() {
            lemma_assoc_at(s, i);
        }
    }
}

/// Replacing the value at position `i` replaces the value of that key in
/// the map.
pub proof fn lemma_assoc_update<K, V>(s: Seq<(K, V)>, i: int, v: V)
    requires
        keys_distinct(s),
        0 <= i < s.len(),
    ensures
        keys_distinct(s.update(i, (s[i].0, v))),
        assoc_map(s.update(i, (s[i].0, v))) == assoc_map(s).insert(s[i].0, v),
{
    let k = s[i].0;
    let t = s.update(i, (k, v));
    assert forall|q: K| has_key(t, q) <==> has_key(s, q) by {
        if has_key(t, q) {
            let j = position_of(t, q);
        }
        if has_key(s, q) {
            let j = position_of(s, q);
            assert(t[j].0 == q);
        }
    }
    lemma_assoc_at(s, i);
    assert forall|q: K| has_key(t, q) implies #[trigger] assoc_map(t)[q] == assoc_map(s).insert(
        k,
        v,
    )[q] by {
        let j = position_of(t, q);
        lemma_assoc_at(t, j);
        if j != i {
            lemma_assoc_at(s, j);
        }
    }
}

/// The map has as many keys as the sequence has pairs.
pub proof fn lemma_assoc_len<K, V>(s: Seq<(K, V)>)
    requires
        keys_distinct(s),
    ensures
        assoc_map(s).dom().finite(),
        assoc_map(s).dom().len() == s.len(),
    decreases s.len(),
{
    if s.len() == 0 {
        assert(assoc_map(s).dom() =~= Set::<K>::empty());
    } else {
        let shorter = s.drop_last();
        let k = s.last().0;
        let v = s.last().1;
        lemma_assoc_len(shorter);
        lemma_assoc_push(shorter, k, v);
        assert(shorter.push((k, v)) =~= s);
    }
}

} // verus!
