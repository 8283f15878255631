//! Sequences of `(key, value)` pairs with distinct keys, read as finite maps.
//!
//! The in-memory stores of this crate keep their rows in a `Vec` and reason
//! about them through [`seq_map`], the map that such a sequence denotes.
use vstd::prelude::*;

verus! {

/// No key occurs twice in `s`.
pub open spec fn keys_distinct<K, V>(s: Seq<(K, V)>) -> bool {
    forall|i: int, j: int| 0 <= i < s.len() && 0 <= j < s.len() && i != j ==> s[i].0 != s[j].0
}

/// `k` is the key of some row of `s`.
pub open spec fn has_key<K, V>(s: Seq<(K, V)>, k: K) -> bool {
    exists|i: int| 0 <= i < s.len() && s[i].0 == k
}

/// The finite map denoted by a row sequence.
pub open spec fn seq_map<K, V>(s: Seq<(K, V)>) -> Map<K, V> {
    Map::new(
        |k: K| has_key(s, k),
        |k: K| s[choose|i: int| 0 <= i < s.len() && s[i].0 == k].1,
    )
}

pub proof fn lemma_seq_map_index<K, V>(s: Seq<(K, V)>, i: int)
    requires
        keys_distinct(s),
        0 <= i < s.len(),
    ensures
        seq_map(s).contains_key(s[i].0),
        seq_map(s)[s[i].0] == s[i].1,
{
    assert(has_key(s, s[i].0));
    let j = choose|j: int| 0 <= j < s.len() && s[j].0 == s[i].0;
    assert(j == i);
}

pub proof fn lemma_seq_map_absent<K, V>(s: Seq<(K, V)>, k: K)
    requires
        forall|i: int| 0 <= i < s.len() ==> s[i].0 != k,
    ensures
        !seq_map(s).contains_key(k),
{
}

pub proof fn lemma_seq_map_push<K, V>(s: Seq<(K, V)>, k: K, v: V)
    requires
        keys_distinct(s),
        !has_key(s, k),
    ensures
        keys_distinct(s.push((k, v))),
        seq_map(s.push((k, v))) == seq_map(s).insert(k, v),
{
    let t = s.push((k, v));
    assert forall|x: K| #[trigger] seq_map(t).contains_key(x) == seq_map(s).insert(k, v).contains_key(x) by {
        if has_key(s, x) {
            let i = choose|i: int| 0 <= i < s.len() && s[i].0 == x;
            assert(t[i].0 == x);
        }
        if has_key(t, x) && x != k {
            let i = choose|i: int| 0 <= i < t.len() && t[i].0 == x;
            assert(s[i].0 == x);
        }
        if x == k {
            assert(t[s.len() as int].0 == k);
        }
    }
    assert forall|x: K| seq_map(t).contains_key(x) implies #[trigger] seq_map(t)[x] == seq_map(s).insert(k, v)[x] by {
        if x == k {
            lemma_seq_map_index(t, s.len() as int);
        } else {
            let i = choose|i: int| 0 <= i < t.len() && t[i].0 == x;
            lemma_seq_map_index(t, i);
            lemma_seq_map_index(s, i);
        }
    }
    assert(seq_map(t) =~= seq_map(s).insert(k, v));
}

pub proof fn lemma_seq_map_update<K, V>(s: Seq<(K, V)>, i: int, v: V)
    requires
        keys_distinct(s),
        0 <= i < s.len(),
    ensures
        keys_distinct(s.update(i, (s[i].0, v))),
        seq_map(s.update(i, (s[i].0, v))) == seq_map(s).insert(s[i].0, v),
{
    let t = s.update(i, (s[i].0, v));
    let k = s[i].0;
    assert forall|x: K| #[trigger] seq_map(t).contains_key(x) == seq_map(s).insert(k, v).contains_key(x) by {
        if has_key(s, x) {
            let j = choose|j: int| 0 <= j < s.len() && s[j].0 == x;
            assert(t[j].0 == x);
        }
        if has_key(t, x) {
            let j = choose|j: int| 0 <= j < t.len() && t[j].0 == x;
            assert(s[j].0 == x);
        }
    }
    assert forall|x: K| seq_map(t).contains_key(x) implies #[trigger] seq_map(t)[x] == seq_map(s).insert(k, v)[x] by {
        let j = choose|j: int| 0 <= j < t.len() && t[j].0 == x;
        lemma_seq_map_index(t, j);
        lemma_seq_map_index(s, j);
    }
    assert(seq_map(t) =~= seq_map(s).insert(k, v));
}

pub proof fn lemma_seq_map_remove<K, V>(s: Seq<(K, V)>, i: int)
    requires
        keys_distinct(s),
        0 <= i < s.len(),
    ensures
        keys_distinct(s.remove(i)),
        seq_map(s.remove(i)) == seq_map(s).remove(s[i].0),
{
    let t = s.remove(i);
    let k = s[i].0;
    assert forall|a: int, b: int| 0 <= a < t.len() && 0 <= b < t.len() && a != b implies t[a].0 != t[b].0 by {
        let a2 = if a < i { a } else { a + 1 };
        let b2 = if b < i { b } else { b + 1 };
        assert(t[a] == s[a2]);
        assert(t[b] == s[b2]);
    }
    assert forall|x: K| #[trigger] seq_map(t).contains_key(x) == seq_map(s).remove(k).contains_key(x) by {
        if has_key(s, x) && x != k {
            let j = choose|j: int| 0 <= j < s.len() && s[j].0 == x;
            if j < i {
                assert(t[j].0 == x);
            } else {
                assert(j != i);
                assert(t[j - 1].0 == x);
            }
        }
        if has_key(t, x) {
            let j = choose|j: int| 0 <= j < t.len() && t[j].0 == x;
            let j2 = if j < i { j } else { j + 1 };
            assert(s[j2].0 == x);
            assert(j2 != i);
        }
    }
    assert forall|x: K| seq_map(t).contains_key(x) implies #[trigger] seq_map(t)[x] == seq_map(s).remove(k)[x] by {
        let j = choose|j: int| 0 <= j < t.len() && t[j].0 == x;
        let j2 = if j < i { j } else { j + 1 };
        lemma_seq_map_index(t, j);
        lemma_seq_map_index(s, j2);
    }
    assert(seq_map(t) =~= seq_map(s).remove(k));
}

pub proof fn lemma_seq_map_insert<K, V>(s: Seq<(K, V)>, p: int, k: K, v: V)
    requires
        keys_distinct(s),
        !has_key(s, k),
        0 <= p <= s.len(),
    ensures
        keys_distinct(s.insert(p, (k, v))),
        seq_map(s.insert(p, (k, v))) == seq_map(s).insert(k, v),
{
    let t = s.insert(p, (k, v));
    assert forall|a: int, b: int| 0 <= a < t.len() && 0 <= b < t.len() && a != b implies t[a].0 != t[b].0 by {
        if a != p && b != p {
            let a2 = if a < p { a } else { a - 1 };
            let b2 = if b < p { b } else { b - 1 };
            assert(t[a] == s[a2] && t[b] == s[b2]);
        } else if a == p {
            let b2 = if b < p { b } else { b - 1 };
            assert(t[b] == s[b2]);
        } else {
            let a2 = if a < p { a } else { a - 1 };
            assert(t[a] == s[a2]);
        }
    }
    assert forall|x: K| #[trigger] seq_map(t).contains_key(x) == seq_map(s).insert(k, v).contains_key(x) by {
        if has_key(s, x) {
            let i = choose|i: int| 0 <= i < s.len() && s[i].0 == x;
            let i2 = if i < p { i } else { i + 1 };
            assert(t[i2].0 == x);
        }
        if has_key(t, x) && x != k {
            let i = choose|i: int| 0 <= i < t.len() && t[i].0 == x;
            let i2 = if i < p { i } else { i - 1 };
            assert(i != p);
            assert(s[i2].0 == x);
        }
        if x == k {
            assert(t[p].0 == k);
        }
    }
    assert forall|x: K| seq_map(t).contains_key(x) implies #[trigger] seq_map(t)[x] == seq_map(s).insert(k, v)[x] by {
        let i = choose|i: int| 0 <= i < t.len() && t[i].0 == x;
        lemma_seq_map_index(t, i);
        if i != p {
            let i2 = if i < p { i } else { i - 1 };
            lemma_seq_map_index(s, i2);
        }
    }
    assert(seq_map(t) =~= seq_map(s).insert(k, v));
}

pub proof fn lemma_seq_map_len<K, V>(s: Seq<(K, V)>)
    requires
        keys_distinct(s),
    ensures
        seq_map(s).dom().finite(),
        seq_map(s).dom().len() == s.len(),
    decreases s.len(),
{
    if s.len() == 0 {
        assert(seq_map(s).dom() =~= Set::<K>::empty());
    } else {
        let t = s.drop_last();
        assert(keys_distinct(t));
        lemma_seq_map_len(t);
        assert(!has_key(t, s.last().0)) by {
            if has_key(t, s.last().0) {
                let i = choose|i: int| 0 <= i < t.len() && t[i].0 == s.last().0;
                assert(s[i].0 == s[s.len() - 1].0);
            }
        }
        lemma_seq_map_push(t, s.last().0, s.last().1);
        assert(t.push(s.last()) =~= s);
        assert(seq_map(s).dom() =~= seq_map(t).dom().insert(s.last().0));
    }
}


/// What a sequence holds after a push.
pub proof fn lemma_push_contains<A>(s: Seq<A>, e: A, x: A)
    ensures
        s.push(e).contains(x) <==> (s.contains(x) || x == e),
{
    let t = s.push(e);
    if t.contains(x) {
        let k = choose|k: int| 0 <= k < t.len() && t[k] == x;
        if k < s.len() {
            assert(s[k] == x);
        }
    }
    if s.contains(x) {
        let k = choose|k: int| 0 <= k < s.len() && s[k] == x;
        assert(t[k] == x);
    }
    if x == e {
        assert(t[s.len() as int] == e);
    }
}

/// What a sequence holds after an insertion.
pub proof fn lemma_insert_contains<A>(s: Seq<A>, p: int, e: A, x: A)
    requires
        0 <= p <= s.len(),
    ensures
        s.insert(p, e).contains(x) <==> (s.contains(x) || x == e),
{
    let t = s.insert(p, e);
    if t.contains(x) {
        let k = choose|k: int| 0 <= k < t.len() && t[k] == x;
        if k < p {
            assert(s[k] == x);
        } else if k > p {
            assert(s[k - 1] == x);
        }
    }
    if s.contains(x) {
        let k = choose|k: int| 0 <= k < s.len() && s[k] == x;
        if k < p {
            assert(t[k] == x);
        } else {
            assert(t[k + 1] == x);
        }
    }
    if x == e {
        assert(t[p] == e);
    }
}

} // verus!
