//! Stable ordering by an integer key, as one recursive definition.
//!
//! `sort_by_key` names the ascending rearrangement of a sequence exactly: an
//! element is inserted after everything whose key is at most its own, so
//! elements with equal keys keep their relative order. Contracts state that a
//! function sorts by equating its result with this definition; the lemmas
//! here say once and for all that the definition is ascending and a
//! permutation.

use vstd::prelude::*;

verus! {

/// Inserts `x` after every element whose key is at most `key(x)`: the
/// insertion step of a stable sort.
pub open spec fn insert_by_key<A>(x: A, s: Seq<A>, key: spec_fn(A) -> int) -> Seq<A>
    decreases s.len(),
{
    if s.len() == 0 {
        seq![x]
    } else if key(s[0]) <= key(x) {
        seq![s[0]] + insert_by_key(x, s.drop_first(), key)
    } else {
        seq![x] + s
    }
}

/// The stable ascending rearrangement of `s` under `key`: elements with equal
/// keys keep their relative order.
pub open spec fn sort_by_key<A>(s: Seq<A>, key: spec_fn(A) -> int) -> Seq<A>
    decreases s.len(),
{
    if s.len() == 0 {
        Seq::empty()
    } else {
        insert_by_key(s.last(), sort_by_key(s.drop_last(), key), key)
    }
}

/// Ascending by key.
pub open spec fn sorted_by_key<A>(s: Seq<A>, key: spec_fn(A) -> int) -> bool {
    forall|i: int, j: int| 0 <= i <= j < s.len() ==> key(#[trigger] s[i]) <= key(#[trigger] s[j])
}

proof fn lemma_insert_by_key_props<A>(x: A, s: Seq<A>, key: spec_fn(A) -> int)
    requires
        sorted_by_key(s, key),
    ensures
        insert_by_key(x, s, key).len() == s.len() + 1,
        sorted_by_key(insert_by_key(x, s, key), key),
        forall|k: int|
            0 <= k < insert_by_key(x, s, key).len() ==> (insert_by_key(x, s, key)[k] == x
                || s.contains(insert_by_key(x, s, key)[k])),
        insert_by_key(x, s, key).to_multiset() == s.to_multiset().insert(x),
    decreases s.len(),
{
    broadcast use vstd::seq_lib::group_to_multiset_ensures;

    let r = insert_by_key(x, s, key);
    if s.len() == 0 {
        assert(r =~= seq![x]);
        assert(r == Seq::<A>::empty().push(x));
        assert(Seq::<A>::empty().push(x).to_multiset() =~= Seq::<A>::empty().to_multiset().insert(
            x,
        ));
        assert(s.to_multiset() =~= Seq::<A>::empty().to_multiset());
    } else if key(s[0]) <= key(x) {
        let tail = s.drop_first();
        assert(sorted_by_key(tail, key));
        lemma_insert_by_key_props(x, tail, key);
        let rt = insert_by_key(x, tail, key);
        assert(r =~= seq![s[0]] + rt);
        assert forall|k: int| 0 <= k < rt.len() implies key(#[trigger] rt[k]) >= key(s[0]) by {
            if rt[k] == x {
            } else {
                assert(tail.contains(rt[k]));
                let w = choose|w: int| 0 <= w < tail.len() && tail[w] == rt[k];
                assert(s[w + 1] == tail[w]);
            }
        }
        assert forall|k: int| 0 <= k < r.len() implies (r[k] == x || s.contains(r[k])) by {
            if k == 0 {
                assert(s[0] == r[0]);
                assert(s.contains(s[0]));
            } else {
                assert(r[k] == rt[k - 1]);
                if rt[k - 1] != x {
                    assert(tail.contains(rt[k - 1]));
                    let w = choose|w: int| 0 <= w < tail.len() && tail[w] == rt[k - 1];
                    assert(s[w + 1] == tail[w]);
                    assert(s.contains(s[w + 1]));
                }
            }
        }
        assert(s =~= seq![s[0]] + tail);
        vstd::seq_lib::lemma_multiset_commutative(seq![s[0]], rt);
        vstd::seq_lib::lemma_multiset_commutative(seq![s[0]], tail);
        assert(r.to_multiset() =~= seq![s[0]].to_multiset().add(rt.to_multiset()));
        assert(rt.to_multiset() == tail.to_multiset().insert(x));
        assert(r.to_multiset() =~= s.to_multiset().insert(x));
    } else {
        assert(r =~= seq![x] + s);
        vstd::seq_lib::lemma_multiset_commutative(seq![x], s);
        assert(seq![x].to_multiset() =~= Seq::<A>::empty().to_multiset().insert(x));
        assert(r.to_multiset() =~= s.to_multiset().insert(x));
    }
}

/// What sorting means: `sort_by_key` is ascending by key, keeps the length,
/// and is a permutation of its input.
pub proof fn lemma_sort_by_key_props<A>(s: Seq<A>, key: spec_fn(A) -> int)
    ensures
        sort_by_key(s, key).len() == s.len(),
        sorted_by_key(sort_by_key(s, key), key),
        sort_by_key(s, key).to_multiset() == s.to_multiset(),
    decreases s.len(),
{
    broadcast use vstd::seq_lib::group_to_multiset_ensures;

    if s.len() == 0 {
        assert(sort_by_key(s, key) =~= Seq::<A>::empty());
    } else {
        lemma_sort_by_key_props(s.drop_last(), key);
        lemma_insert_by_key_props(s.last(), sort_by_key(s.drop_last(), key), key);
        assert(s =~= s.drop_last().push(s.last()));
        assert(s.drop_last().push(s.last()).to_multiset() =~= s.drop_last().to_multiset().insert(
            s.last(),
        ));
    }
}

/// Where the insertion lands: at the first position whose key exceeds
/// `key(x)`. An insertion sort finds that position by scanning and then
/// meets `insert_by_key` exactly.
pub proof fn lemma_insert_by_key_at<A>(s: Seq<A>, x: A, key: spec_fn(A) -> int, j: int)
    requires
        0 <= j <= s.len(),
        forall|k: int| 0 <= k < j ==> key(#[trigger] s[k]) <= key(x),
        j < s.len() ==> key(s[j]) > key(x),
    ensures
        insert_by_key(x, s, key) == s.insert(j, x),
    decreases s.len(),
{
    if j == 0 {
        if s.len() == 0 {
            assert(insert_by_key(x, s, key) =~= s.insert(0, x));
        } else {
            assert(key(s[0]) > key(x));
            assert(insert_by_key(x, s, key) =~= s.insert(0, x));
        }
    } else {
        assert(key(s[0]) <= key(x));
        let tail = s.drop_first();
        assert(forall|k: int| 0 <= k < j - 1 ==> key(#[trigger] tail[k]) <= key(x));
        lemma_insert_by_key_at(tail, x, key, j - 1);
        assert(seq![s[0]] + tail.insert(j - 1, x) =~= s.insert(j, x));
    }
}

} // verus!
