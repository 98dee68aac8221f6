//! What two index arrays have in common, as mathematics: the count of shared
//! indices, the shared indices in order, and the facts that tie the two to a
//! left-to-right scan.

use vstd::prelude::*;
use crate::vector::strictly_increasing;

verus! {

/// Size of the intersection of the two index sets.
pub open spec fn common_count(a: Seq<u16>, b: Seq<u16>) -> nat {
    a.to_set().intersect(b.to_set()).len()
}

/// The test "occurs somewhere in `b`".
pub open spec fn occurs_in(b: Seq<u16>) -> spec_fn(u16) -> bool {
    |k: u16| b.contains(k)
}

/// The elements of `a` that also occur in `b`, in the order of `a`.
pub open spec fn shared_indices(a: Seq<u16>, b: Seq<u16>) -> Seq<u16> {
    a.filter(occurs_in(b))
}

/// Extending the scanned prefix of `a` by one element extends the shared
/// indices by that element exactly when it occurs in `b`.
pub proof fn lemma_shared_step(a: Seq<u16>, b: Seq<u16>, n: int)
    requires
        0 <= n < a.len(),
    ensures
        shared_indices(a.take(n + 1), b) == if b.contains(a[n]) {
            shared_indices(a.take(n), b).push(a[n])
        } else {
            shared_indices(a.take(n), b)
        },
{
    a.lemma_take_succ_push(n);
    a.take(n).lemma_filter_push(a[n], occurs_in(b));
}

/// Once nothing from position `i` on occurs in `b`, the prefix of length `i`
/// already has every shared index.
pub proof fn lemma_shared_rest(a: Seq<u16>, b: Seq<u16>, i: int, n: int)
    requires
        0 <= i <= n <= a.len(),
        forall|p: int| i <= p < a.len() ==> !b.contains(#[trigger] a[p]),
    ensures
        shared_indices(a.take(n), b) == shared_indices(a.take(i), b),
    decreases n - i,
{
    if i < n {
        lemma_shared_rest(a, b, i, n - 1);
        lemma_shared_step(a, b, n - 1);
    }
}

/// The intersection of the index sets of a prefix of `a` and of `b`.
pub open spec fn common_of_prefix(a: Seq<u16>, b: Seq<u16>, n: int) -> Set<u16> {
    a.take(n).to_set().intersect(b.to_set())
}

/// Without repeats in `a`, there are as many shared indices in a prefix as
/// the two index sets have elements in common.
pub proof fn lemma_shared_prefix_len(a: Seq<u16>, b: Seq<u16>, n: int)
    requires
        strictly_increasing(a),
        0 <= n <= a.len(),
    ensures
        shared_indices(a.take(n), b).len() == common_of_prefix(a, b, n).len(),
        common_of_prefix(a, b, n).finite(),
    decreases n,
{
    broadcast use vstd::seq_lib::group_seq_properties;
    broadcast use vstd::set::group_set_axioms;

    if n == 0 {
        assert(a.take(0) =~= Seq::<u16>::empty());
        assert(shared_indices(a.take(0), b) =~= Seq::<u16>::empty()) by {
            reveal(Seq::filter);
        }
        assert(common_of_prefix(a, b, 0) =~= Set::<u16>::empty());
    } else {
        lemma_shared_prefix_len(a, b, n - 1);
        lemma_shared_step(a, b, n - 1);
        let x = a[n - 1];
        let before = common_of_prefix(a, b, n - 1);
        a.lemma_take_succ_push(n - 1);
        a.take(n - 1).lemma_push_to_set_commute(x);
        assert(!a.take(n - 1).to_set().contains(x)) by {
            if a.take(n - 1).contains(x) {
                let p = a.take(n - 1).index_of(x);
                assert(a[p] < a[n - 1]);
            }
        }
        if b.contains(x) {
            assert(common_of_prefix(a, b, n) =~= before.insert(x));
        } else {
            assert(common_of_prefix(a, b, n) =~= before);
        }
    }
}

/// Without repeats in `a`, the shared indices are as many as the two index
/// sets have elements in common.
pub proof fn lemma_shared_len(a: Seq<u16>, b: Seq<u16>)
    requires
        strictly_increasing(a),
    ensures
        shared_indices(a, b).len() == common_count(a, b),
{
    lemma_shared_prefix_len(a, b, a.len() as int);
    assert(a.take(a.len() as int) =~= a);
}

/// Two index arrays of which one is empty share nothing.
pub proof fn lemma_empty_count(a: Seq<u16>, b: Seq<u16>)
    requires
        a.len() == 0 || b.len() == 0,
    ensures
        common_count(a, b) == 0,
{
    broadcast use vstd::seq_lib::group_seq_properties;
    broadcast use vstd::set::group_set_axioms;

    assert(a.to_set().intersect(b.to_set()) =~= Set::<u16>::empty());
}

/// Two index arrays share at most as many indices as the first one has
/// elements.
pub proof fn lemma_count_bound(a: Seq<u16>, b: Seq<u16>)
    ensures
        common_count(a, b) <= a.len(),
{
    broadcast use vstd::seq_lib::group_seq_properties;
    broadcast use vstd::set::group_set_axioms;

    a.lemma_cardinality_of_set();
    vstd::set_lib::lemma_len_subset(a.to_set().intersect(b.to_set()), a.to_set());
}

} // verus!
