//! Small maps kept as lists of key-value pairs with distinct keys.
use vstd::prelude::*;

verus! {

/// Keys whose equality is decided by a verified comparison.
pub trait Key: Copy + Sized {
    /// Returns whether `self` and `other` are the same key.
    fn key_eq(&self, other: &Self) -> (r: bool)
        ensures
            r == (*self == *other),
    ;
}

/// No key occurs twice in `s`.
pub open spec fn keys_unique<K, V>(s: Seq<(K, V)>) -> bool {
    forall|i: int, j: int|
        #![trigger s[i], s[j]]
        0 <= i < s.len() && 0 <= j < s.len() && i != j ==> s[i].0 != s[j].0
}

/// Whether `k` is a key of `s`.
pub open spec fn has_key<K, V>(s: Seq<(K, V)>, k: K) -> bool {
    exists|i: int| 0 <= i < s.len() && #[trigger] s[i].0 == k
}

/// The map that a list of key-value pairs with distinct keys describes.
pub open spec fn assoc_map<K, V>(s: Seq<(K, V)>) -> Map<K, V> {
    Map::new(|k: K| has_key(s, k), |k: K| s[choose|i: int| 0 <= i < s.len() && s[i].0 == k].1)
}

/// The entry at index `i` of a list with distinct keys is what the map holds
/// for its key.
pub proof fn lemma_assoc_index<K, V>(s: Seq<(K, V)>, i: int)
    requires
        keys_unique(s),
        0 <= i < s.len(),
    ensures
        assoc_map(s).contains_key(s[i].0),
        assoc_map(s)[s[i].0] == s[i].1,
{
    let k = s[i].0;
    assert(has_key(s, k));
    let j = choose|j: int| 0 <= j < s.len() && s[j].0 == k;
    assert(s[j].0 == s[i].0);
}

/// A key that no entry has is not in the map.
pub proof fn lemma_assoc_absent<K, V>(s: Seq<(K, V)>, k: K)
    requires
        forall|i: int| 0 <= i < s.len() ==> #[trigger] s[i].0 != k,
    ensures
        !assoc_map(s).contains_key(k),
{
}

/// The empty list describes the empty map.
pub proof fn lemma_assoc_empty<K, V>(s: Seq<(K, V)>)
    requires
        s.len() == 0,
    ensures
        assoc_map(s) == Map::<K, V>::empty(),
        keys_unique(s),
{
    assert(assoc_map(s) =~= Map::<K, V>::empty());
}

/// Replacing the value of entry `i` replaces the value of its key.
pub proof fn lemma_assoc_update<K, V>(s: Seq<(K, V)>, i: int, v: V)
    requires
        keys_unique(s),
        0 <= i < s.len(),
    ensures
        keys_unique(s.update(i, (s[i].0, v))),
        assoc_map(s.update(i, (s[i].0, v))) == assoc_map(s).insert(s[i].0, v),
{
    let t = s.update(i, (s[i].0, v));
    assert forall|a: int, b: int|
        #![trigger t[a], t[b]]
        0 <= a < t.len() && 0 <= b < t.len() && a != b implies t[a].0 != t[b].0 by {
        assert(s[a].0 == t[a].0);
        assert(s[b].0 == t[b].0);
    }
    let m = assoc_map(s).insert(s[i].0, v);
    assert forall|k: K| #[trigger] assoc_map(t).contains_key(k) == m.contains_key(k) by {
        if has_key(s, k) {
            let j = choose|j: int| 0 <= j < s.len() && s[j].0 == k;
            assert(t[j].0 == k);
        }
        if has_key(t, k) {
            let j = choose|j: int| 0 <= j < t.len() && t[j].0 == k;
            assert(s[j].0 == k);
        }
    }
    assert forall|k: K| assoc_map(t).contains_key(k) implies #[trigger] assoc_map(t)[k] == m[k] by {
        let j = choose|j: int| 0 <= j < t.len() && t[j].0 == k;
        assert(s[j].0 == k);
        lemma_assoc_index(s, j);
        lemma_assoc_index(t, j);
    }
    assert(assoc_map(t) =~= m);
}

/// Appending an entry with a new key adds the key to the map.
pub proof fn lemma_assoc_push<K, V>(s: Seq<(K, V)>, k: K, v: V)
    requires
        keys_unique(s),
        !has_key(s, k),
    ensures
        keys_unique(s.push((k, v))),
        assoc_map(s.push((k, v))) == assoc_map(s).insert(k, v),
{
    let t = s.push((k, v));
    assert forall|a: int, b: int|
        #![trigger t[a], t[b]]
        0 <= a < t.len() && 0 <= b < t.len() && a != b implies t[a].0 != t[b].0 by {
        if a < s.len() && b < s.len() {
            assert(s[a] == t[a] && s[b] == t[b]);
        } else if a < s.len() {
            assert(s[a] == t[a]);
        } else {
            assert(s[b] == t[b]);
        }
    }
    let m = assoc_map(s).insert(k, v);
    assert forall|x: K| #[trigger] assoc_map(t).contains_key(x) == m.contains_key(x) by {
        if has_key(s, x) {
            let j = choose|j: int| 0 <= j < s.len() && s[j].0 == x;
            assert(t[j].0 == x);
        }
        if x == k {
            assert(t[s.len() as int].0 == k);
        }
        if has_key(t, x) {
            let j = choose|j: int| 0 <= j < t.len() && t[j].0 == x;
            if j < s.len() {
                assert(s[j].0 == x);
            }
        }
    }
    assert forall|x: K| assoc_map(t).contains_key(x) implies #[trigger] assoc_map(t)[x] == m[x] by {
        let j = choose|j: int| 0 <= j < t.len() && t[j].0 == x;
        lemma_assoc_index(t, j);
        if j < s.len() {
            assert(s[j] == t[j]);
            lemma_assoc_index(s, j);
        }
    }
    assert(assoc_map(t) =~= m);
}

/// Removing entry `i` removes its key from the map.
pub proof fn lemma_assoc_remove<K, V>(s: Seq<(K, V)>, i: int)
    requires
        keys_unique(s),
        0 <= i < s.len(),
    ensures
        keys_unique(s.remove(i)),
        assoc_map(s.remove(i)) == assoc_map(s).remove(s[i].0),
{
    let t = s.remove(i);
    let k = s[i].0;
    assert forall|a: int, b: int|
        #![trigger t[a], t[b]]
        0 <= a < t.len() && 0 <= b < t.len() && a != b implies t[a].0 != t[b].0 by {
        let oa = if a < i { a } else { a + 1 };
        let ob = if b < i { b } else { b + 1 };
        assert(t[a] == s[oa]);
        assert(t[b] == s[ob]);
    }
    let m = assoc_map(s).remove(k);
    assert forall|x: K| #[trigger] assoc_map(t).contains_key(x) == m.contains_key(x) by {
        if has_key(t, x) {
            let j = choose|j: int| 0 <= j < t.len() && t[j].0 == x;
            let oj = if j < i { j } else { j + 1 };
            assert(s[oj].0 == x);
            assert(oj != i);
        }
        if has_key(s, x) && x != k {
            let j = choose|j: int| 0 <= j < s.len() && s[j].0 == x;
            assert(j != i);
            let tj = if j < i { j } else { j - 1 };
            assert(t[tj].0 == x);
        }
    }
    assert forall|x: K| assoc_map(t).contains_key(x) implies #[trigger] assoc_map(t)[x] == m[x] by {
        let j = choose|j: int| 0 <= j < t.len() && t[j].0 == x;
        let oj = if j < i { j } else { j + 1 };
        assert(t[j] == s[oj]);
        lemma_assoc_index(t, j);
        lemma_assoc_index(s, oj);
    }
    assert(assoc_map(t) =~= m);
}

/// A list with distinct keys describes a finite map with one key per entry.
pub proof fn lemma_assoc_len<K, V>(s: Seq<(K, V)>)
    requires
        keys_unique(s),
    ensures
        assoc_map(s).dom().finite(),
        assoc_map(s).dom().len() == s.len(),
    decreases s.len(),
{
    if s.len() == 0 {
        lemma_assoc_empty(s);
    } else {
        let t = s.drop_last();
        let last = s[s.len() - 1];
        assert forall|a: int, b: int|
            #![trigger t[a], t[b]]
            0 <= a < t.len() && 0 <= b < t.len() && a != b implies t[a].0 != t[b].0 by {
            assert(t[a] == s[a] && t[b] == s[b]);
        }
        if has_key(t, last.0) {
            let j = choose|j: int| 0 <= j < t.len() && t[j].0 == last.0;
            assert(t[j] == s[j]);
            assert(s[j].0 == s[s.len() - 1].0);
        }
        lemma_assoc_len(t);
        lemma_assoc_push(t, last.0, last.1);
        assert(t.push((last.0, last.1)) =~= s);
        assert(!assoc_map(t).dom().contains(last.0));
    }
}

/// Returns the index of the entry with key `k`, if any.
pub fn find_key<K: Key, V>(entries: &Vec<(K, V)>, k: &K) -> (r: Option<usize>)
    ensures
        r matches Some(i) ==> i < entries@.len() && entries@[i as int].0 == *k,
        r is None ==> forall|i: int| 0 <= i < entries@.len() ==> #[trigger] entries@[i].0 != *k,
        r is None <==> !has_key(entries@, *k),
{
    let mut i: usize = 0;
    while i < entries.len()
        invariant
            0 <= i <= entries@.len(),
            forall|j: int| 0 <= j < i ==> #[trigger] entries@[j].0 != *k,
        decreases entries@.len() - i,
    {
        if entries[i].0.key_eq(k) {
            return Some(i);
        }
        i = i + 1;
    }
    None
}

} // verus!
