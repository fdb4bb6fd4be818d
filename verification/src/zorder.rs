//! Dense stacking orders: sequences of places that are a permutation of `0..n`.

use vstd::prelude::*;
use vstd::set_lib::*;

verus! {

/// The places form a dense stacking order: each lies below their number, and no two are equal.
pub open spec fn is_dense(zs: Seq<int>) -> bool {
    &&& forall|i: int| 0 <= i < zs.len() ==> 0 <= #[trigger] zs[i] < zs.len()
    &&& forall|i: int, j: int| 0 <= i < j < zs.len() ==> #[trigger] zs[i] != #[trigger] zs[j]
}

/// In a dense stacking order of `n` places, every place from `0` to `n - 1` is taken.
pub proof fn lemma_dense_takes_every_place(zs: Seq<int>, k: int)
    requires
        is_dense(zs),
        0 <= k < zs.len(),
    ensures
        zs.contains(k),
{
    let n = zs.len() as int;
    let taken = zs.to_set();
    let all = set_int_range(0, n);
    assert(zs.no_duplicates());
    zs.unique_seq_to_set();
    lemma_int_range(0, n);
    assert(taken.subset_of(all)) by {
        assert forall|z: int| taken.contains(z) implies all.contains(z) by {
            let i = choose|i: int| 0 <= i < zs.len() && zs[i] == z;
            assert(0 <= zs[i] < zs.len());
        }
    }
    lemma_len_subset(taken, all);
    lemma_subset_equality(taken, all);
    assert(all.contains(k));
}

/// A dense stacking order of `n` places holds each of `0, ..., n - 1` once, and nothing else.
pub proof fn lemma_dense_is_permutation(zs: Seq<int>)
    requires
        is_dense(zs),
    ensures
        forall|k: int|
            #[trigger] zs.to_multiset().count(k) == if 0 <= k < zs.len() {
                1nat
            } else {
                0nat
            },
{
    assert(zs.no_duplicates());
    zs.lemma_multiset_has_no_duplicates();
    zs.to_multiset_ensures();
    assert forall|k: int|
        #[trigger] zs.to_multiset().count(k) == if 0 <= k < zs.len() {
            1nat
        } else {
            0nat
        } by {
        if 0 <= k < zs.len() {
            lemma_dense_takes_every_place(zs, k);
            assert(zs.to_multiset().contains(k));
        } else {
            if zs.contains(k) {
                let i = choose|i: int| 0 <= i < zs.len() && zs[i] == k;
                assert(0 <= zs[i] < zs.len());
            }
        }
    }
}

} // verus!
