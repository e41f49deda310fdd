//! Sequences used as maps: each item has a key, and no key occurs twice.
//!
//! The node keeps its tables as vectors in arrival order, so that what it
//! sends out, and in which order, is a function of what it was given.

use vstd::prelude::*;

verus! {

/// Some item of `s` has the key `k`.
pub open spec fn has_key<A, K>(s: Seq<A>, key: spec_fn(A) -> K, k: K) -> bool {
    exists|i: int| 0 <= i < s.len() && #[trigger] key(s[i]) == k
}

/// An index at which `s` holds an item with the key `k`.
pub open spec fn index_of<A, K>(s: Seq<A>, key: spec_fn(A) -> K, k: K) -> int {
    choose|i: int| 0 <= i < s.len() && #[trigger] key(s[i]) == k
}

/// No two items of `s` have the same key.
pub open spec fn distinct<A, K>(s: Seq<A>, key: spec_fn(A) -> K) -> bool {
    forall|i: int, j: int| 0 <= i < j < s.len() ==> #[trigger] key(s[i]) != #[trigger] key(s[j])
}

/// The item with the key `k`, if there is one.
pub open spec fn lookup<A, K>(s: Seq<A>, key: spec_fn(A) -> K, k: K) -> Option<A> {
    if has_key(s, key, k) {
        Some(s[index_of(s, key, k)])
    } else {
        None
    }
}

/// `s` with `item` in the place of the item that has its key, or at the end
/// if there is none.
pub open spec fn upsert<A, K>(s: Seq<A>, key: spec_fn(A) -> K, item: A) -> Seq<A> {
    if has_key(s, key, key(item)) {
        s.update(index_of(s, key, key(item)), item)
    } else {
        s.push(item)
    }
}

/// `s` without the item that has the key `k`.
pub open spec fn without<A, K>(s: Seq<A>, key: spec_fn(A) -> K, k: K) -> Seq<A> {
    if has_key(s, key, k) {
        s.remove(index_of(s, key, k))
    } else {
        s
    }
}

/// Where keys are distinct, the index of an item's key is the item's index.
pub proof fn lemma_index_of<A, K>(s: Seq<A>, key: spec_fn(A) -> K, i: int)
    requires
        distinct(s, key),
        0 <= i < s.len(),
    ensures
        has_key(s, key, key(s[i])),
        index_of(s, key, key(s[i])) == i,
        lookup(s, key, key(s[i])) == Some(s[i]),
{
    let k = key(s[i]);
    assert(has_key(s, key, k));
    let j = index_of(s, key, k);
    if j < i {
        assert(key(s[j]) != key(s[i]));
    } else if i < j {
        assert(key(s[i]) != key(s[j]));
    }
}

/// Where no item has the key `k`, looking it up finds nothing and taking
/// it out changes nothing.
pub proof fn lemma_no_key<A, K>(s: Seq<A>, key: spec_fn(A) -> K, k: K)
    requires
        forall|i: int| 0 <= i < s.len() ==> #[trigger] key(s[i]) != k,
    ensures
        !has_key(s, key, k),
        lookup(s, key, k) is None,
        without(s, key, k) == s,
{
}

/// `upsert` keeps keys distinct, and afterwards each key is looked up as
/// before, but for the new item's.
pub proof fn lemma_upsert<A, K>(s: Seq<A>, key: spec_fn(A) -> K, item: A)
    requires
        distinct(s, key),
    ensures
        distinct(upsert(s, key, item), key),
        lookup(upsert(s, key, item), key, key(item)) == Some(item),
        forall|k: K|
            k != key(item) ==> #[trigger] lookup(upsert(s, key, item), key, k) == lookup(s, key, k),
{
    let t = upsert(s, key, item);
    let ki = key(item);
    if has_key(s, key, ki) {
        let at = index_of(s, key, ki);
        assert forall|i: int, j: int| 0 <= i < j < t.len() implies #[trigger] key(t[i])
            != #[trigger] key(t[j]) by {
            assert(key(t[i]) == key(s[i]));
            assert(key(t[j]) == key(s[j]));
        }
        assert(key(t[at]) == ki);
        lemma_index_of(t, key, at);
        assert forall|k: K| k != ki implies #[trigger] lookup(t, key, k) == lookup(s, key, k) by {
            if has_key(s, key, k) {
                let i = index_of(s, key, k);
                assert(key(t[i]) == k);
                lemma_index_of(t, key, i);
            }
            if has_key(t, key, k) {
                let i = index_of(t, key, k);
                assert(key(s[i]) == k);
                lemma_index_of(s, key, i);
            }
        }
    } else {
        let n = s.len() as int;
        assert forall|i: int, j: int| 0 <= i < j < t.len() implies #[trigger] key(t[i])
            != #[trigger] key(t[j]) by {
            assert(t[i] == s[i]);
            if j < n {
                assert(t[j] == s[j]);
            }
        }
        assert(key(t[n]) == ki);
        lemma_index_of(t, key, n);
        assert forall|k: K| k != ki implies #[trigger] lookup(t, key, k) == lookup(s, key, k) by {
            if has_key(s, key, k) {
                let i = index_of(s, key, k);
                assert(key(t[i]) == k);
                lemma_index_of(t, key, i);
            }
            if has_key(t, key, k) {
                let i = index_of(t, key, k);
                assert(i < n);
                assert(key(s[i]) == k);
                lemma_index_of(s, key, i);
            }
        }
    }
}

/// `without` keeps keys distinct and removes the key.
pub proof fn lemma_without<A, K>(s: Seq<A>, key: spec_fn(A) -> K, k: K)
    requires
        distinct(s, key),
    ensures
        distinct(without(s, key, k), key),
        !has_key(without(s, key, k), key, k),
        forall|other: K|
            other != k ==> #[trigger] lookup(without(s, key, k), key, other) == lookup(
                s,
                key,
                other,
            ),
{
    let t = without(s, key, k);
    if has_key(s, key, k) {
        let at = index_of(s, key, k);
        assert forall|i: int| 0 <= i < t.len() implies t[i] == s[if i < at {
            i
        } else {
            i + 1
        }] by {}
        assert forall|i: int, j: int| 0 <= i < j < t.len() implies #[trigger] key(t[i])
            != #[trigger] key(t[j]) by {
            let i0 = if i < at { i } else { i + 1 };
            let j0 = if j < at { j } else { j + 1 };
            assert(key(t[i]) == key(s[i0]));
            assert(key(t[j]) == key(s[j0]));
        }
        if has_key(t, key, k) {
            let i = index_of(t, key, k);
            let i0 = if i < at { i } else { i + 1 };
            assert(key(s[i0]) == k);
            lemma_index_of(s, key, i0);
        }
        assert forall|other: K| other != k implies #[trigger] lookup(t, key, other) == lookup(
            s,
            key,
            other,
        ) by {
            if has_key(s, key, other) {
                let i = index_of(s, key, other);
                let i1 = if i < at { i } else { i - 1 };
                assert(key(t[i1]) == other);
                lemma_index_of(t, key, i1);
            }
            if has_key(t, key, other) {
                let i = index_of(t, key, other);
                let i0 = if i < at { i } else { i + 1 };
                assert(key(s[i0]) == other);
                lemma_index_of(s, key, i0);
            }
        }
    }
}

} // verus!
