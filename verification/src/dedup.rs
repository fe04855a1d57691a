//! First-occurrence deduplication, described abstractly.
//!
//! Two pipeline passes keep a cache so that a repeated key reuses the entry
//! made for its first occurrence: the subdivision pass (one midpoint per
//! undirected edge) and the seam repair pass (one duplicate per corrected
//! vertex).  Both are specified with `firsts_by`: the subsequence of a
//! sequence that keeps the first element of each key class, in order of
//! first occurrence.

use vstd::prelude::*;

verus! {

/// Some element of `s` has key `k` under `key`.
pub open spec fn has_key_of<A, K>(s: Seq<A>, key: spec_fn(A) -> K, k: K) -> bool {
    exists|i: int| 0 <= i < s.len() && key(s[i]) == k
}

/// The subsequence of `s` keeping only the first element of each key class,
/// in order of first occurrence.
pub open spec fn firsts_by<A, K>(s: Seq<A>, key: spec_fn(A) -> K) -> Seq<A>
    decreases s.len(),
{
    if s.len() == 0 {
        Seq::empty()
    } else {
        let prefix = firsts_by(s.drop_last(), key);
        if has_key_of(s.drop_last(), key, key(s.last())) {
            prefix
        } else {
            prefix.push(s.last())
        }
    }
}

/// The position in `firsts_by(s, key)` of the element with key `k`.
pub open spec fn first_index_by<A, K>(s: Seq<A>, key: spec_fn(A) -> K, k: K) -> int {
    choose|j: int|
        0 <= j < firsts_by(s, key).len() && key(firsts_by(s, key)[j]) == k
}

/// Appending one element either leaves the first-occurrence subsequence
/// unchanged (key already seen) or appends that element to it.
pub proof fn lemma_firsts_by_push<A, K>(s: Seq<A>, key: spec_fn(A) -> K, x: A)
    ensures
        firsts_by(s.push(x), key) == if has_key_of(s, key, key(x)) {
            firsts_by(s, key)
        } else {
            firsts_by(s, key).push(x)
        },
{
    assert(s.push(x).drop_last() =~= s);
    assert(s.push(x).last() == x);
}

/// Every element of the first-occurrence subsequence is an element of `s`.
pub proof fn lemma_firsts_by_elems<A, K>(s: Seq<A>, key: spec_fn(A) -> K)
    ensures
        forall|j: int|
            0 <= j < firsts_by(s, key).len() ==> s.contains(#[trigger] firsts_by(s, key)[j]),
    decreases s.len(),
{
    if s.len() > 0 {
        lemma_firsts_by_elems(s.drop_last(), key);
        assert forall|j: int|
            0 <= j < firsts_by(s, key).len() implies s.contains(
            #[trigger] firsts_by(s, key)[j],
        ) by {
            let f = firsts_by(s, key);
            let fp = firsts_by(s.drop_last(), key);
            if j < fp.len() {
                let i = choose|i: int| 0 <= i < s.drop_last().len() && s.drop_last()[i] == fp[j];
                assert(s[i] == fp[j]);
            } else {
                assert(f[j] == s.last());
                assert(s[s.len() - 1] == s.last());
            }
        }
    }
}

/// The keys of the first-occurrence subsequence are pairwise distinct.
pub proof fn lemma_firsts_by_distinct<A, K>(s: Seq<A>, key: spec_fn(A) -> K)
    ensures
        forall|j1: int, j2: int|
            0 <= j1 < j2 < firsts_by(s, key).len() ==> key(#[trigger] firsts_by(s, key)[j1])
                != key(#[trigger] firsts_by(s, key)[j2]),
    decreases s.len(),
{
    if s.len() > 0 {
        lemma_firsts_by_distinct(s.drop_last(), key);
        lemma_firsts_by_elems(s.drop_last(), key);
        assert forall|j1: int, j2: int|
            0 <= j1 < j2 < firsts_by(s, key).len() implies key(#[trigger] firsts_by(s, key)[j1])
            != key(#[trigger] firsts_by(s, key)[j2]) by {
            let f = firsts_by(s, key);
            let fp = firsts_by(s.drop_last(), key);
            if j2 == fp.len() && f.len() == fp.len() + 1 {
                // f[j2] is the newly appended element; its key is unseen in
                // s.drop_last(), while f[j1]'s key occurs there.
                let i = choose|i: int|
                    0 <= i < s.drop_last().len() && s.drop_last()[i] == fp[j1];
                assert(key(s.drop_last()[i]) == key(fp[j1]));
            }
        }
    }
}

/// A key occurs in the first-occurrence subsequence exactly when it occurs
/// in `s`.
pub proof fn lemma_firsts_by_has<A, K>(s: Seq<A>, key: spec_fn(A) -> K, k: K)
    ensures
        has_key_of(firsts_by(s, key), key, k) <==> has_key_of(s, key, k),
    decreases s.len(),
{
    if s.len() > 0 {
        lemma_firsts_by_has(s.drop_last(), key, k);
        let f = firsts_by(s, key);
        let fp = firsts_by(s.drop_last(), key);
        if has_key_of(s, key, k) {
            let i = choose|i: int| 0 <= i < s.len() && key(s[i]) == k;
            if i < s.len() - 1 {
                assert(s.drop_last()[i] == s[i]);
                assert(has_key_of(s.drop_last(), key, k));
                let j = choose|j: int| 0 <= j < fp.len() && key(fp[j]) == k;
                assert(key(f[j]) == k);
            } else {
                // k is the key of s.last()
                if has_key_of(s.drop_last(), key, key(s.last())) {
                    let j = choose|j: int| 0 <= j < fp.len() && key(fp[j]) == k;
                    assert(key(f[j]) == k);
                } else {
                    assert(key(f[f.len() - 1]) == k);
                }
            }
        }
        if has_key_of(f, key, k) {
            let j = choose|j: int| 0 <= j < f.len() && key(f[j]) == k;
            if j < fp.len() {
                assert(has_key_of(fp, key, k));
                let i = choose|i: int| 0 <= i < s.drop_last().len() && key(s.drop_last()[i]) == k;
                assert(key(s[i]) == k);
            } else {
                assert(key(s[s.len() - 1]) == k);
            }
        }
    }
}

/// When a key occurs in `s`, `first_index_by` is the one position of the
/// first-occurrence subsequence holding that key.
pub proof fn lemma_first_index_by<A, K>(s: Seq<A>, key: spec_fn(A) -> K, k: K)
    requires
        has_key_of(s, key, k),
    ensures
        0 <= first_index_by(s, key, k) < firsts_by(s, key).len(),
        key(firsts_by(s, key)[first_index_by(s, key, k)]) == k,
        forall|j: int|
            0 <= j < firsts_by(s, key).len() && key(#[trigger] firsts_by(s, key)[j]) == k ==> j
                == first_index_by(s, key, k),
{
    lemma_firsts_by_has(s, key, k);
    lemma_firsts_by_distinct(s, key);
    let f = firsts_by(s, key);
    let j0 = choose|j: int| 0 <= j < f.len() && key(f[j]) == k;
    assert(0 <= first_index_by(s, key, k) < f.len() && key(f[first_index_by(s, key, k)]) == k);
}

/// Extending `s` on the right extends its first-occurrence subsequence on
/// the right: the old entries keep their positions.
pub proof fn lemma_firsts_by_extend<A, K>(s: Seq<A>, t: Seq<A>, key: spec_fn(A) -> K)
    ensures
        firsts_by(s, key).len() <= firsts_by(s + t, key).len(),
        forall|j: int|
            0 <= j < firsts_by(s, key).len() ==> #[trigger] firsts_by(s + t, key)[j] == firsts_by(
                s,
                key,
            )[j],
    decreases t.len(),
{
    if t.len() == 0 {
        assert(s + t =~= s);
    } else {
        lemma_firsts_by_extend(s, t.drop_last(), key);
        assert(s + t =~= (s + t.drop_last()).push(t.last()));
        lemma_firsts_by_push(s + t.drop_last(), key, t.last());
    }
}

/// The position assigned at first occurrence never changes as the sequence
/// grows.
pub proof fn lemma_first_index_stable<A, K>(s: Seq<A>, t: Seq<A>, key: spec_fn(A) -> K, k: K)
    requires
        has_key_of(s, key, k),
    ensures
        first_index_by(s + t, key, k) == first_index_by(s, key, k),
{
    lemma_first_index_by(s, key, k);
    lemma_firsts_by_extend(s, t, key);
    assert(has_key_of(s + t, key, k)) by {
        let i = choose|i: int| 0 <= i < s.len() && key(s[i]) == k;
        assert((s + t)[i] == s[i]);
    }
    lemma_first_index_by(s + t, key, k);
    let j = first_index_by(s, key, k);
    assert(key(firsts_by(s + t, key)[j]) == k);
}

/// The first-occurrence subsequence has exactly one entry per distinct key
/// of `s`.
pub proof fn lemma_firsts_by_count<A, K>(s: Seq<A>, key: spec_fn(A) -> K)
    ensures
        firsts_by(s, key).len() == s.map_values(key).to_set().len(),
{
    let f = firsts_by(s, key);
    let ks = f.map_values(key);
    lemma_firsts_by_distinct(s, key);
    assert(ks.no_duplicates());
    ks.unique_seq_to_set();
    assert(ks.to_set() =~= s.map_values(key).to_set()) by {
        assert forall|k: K| ks.to_set().contains(k) implies s.map_values(key).to_set().contains(
            k,
        ) by {
            let j = choose|j: int| 0 <= j < ks.len() && ks[j] == k;
            lemma_firsts_by_has(s, key, k);
            assert(has_key_of(f, key, k));
            let i = choose|i: int| 0 <= i < s.len() && key(s[i]) == k;
            assert(s.map_values(key)[i] == k);
        }
        assert forall|k: K| s.map_values(key).to_set().contains(k) implies ks.to_set().contains(
            k,
        ) by {
            let i = choose|i: int| 0 <= i < s.map_values(key).len() && s.map_values(key)[i] == k;
            assert(key(s[i]) == k);
            lemma_firsts_by_has(s, key, k);
            let j = choose|j: int| 0 <= j < f.len() && key(f[j]) == k;
            assert(ks[j] == k);
        }
    }
}

} // verus!
