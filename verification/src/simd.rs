//! The vectorized count of shared indices, computed by the SimSIMD kernels.
//!
//! The kernels are handed a window of each index array rather than the whole
//! of it: a leading index 0 and the elements that tower above the other
//! array's maximum are settled here, before the call.

use vstd::prelude::*;
use vstd::slice::slice_subrange;
use crate::vector::{SparseVector, strictly_increasing};
use crate::shared::{common_count, lemma_count_bound, lemma_empty_count};

verus! {

/// No element is the index 0.
pub open spec fn free_of_zero(s: Seq<u16>) -> bool {
    forall|i: int| 0 <= i < s.len() ==> s[i] != 0
}

/// At most one element of `a` is greater than the last element of `b`.
pub open spec fn overhang_at_most_one(a: Seq<u16>, b: Seq<u16>) -> bool {
    a.len() < 2 || b.len() == 0 || a[a.len() - 2] <= b[b.len() - 1]
}

/// `simsimd::Sparse::intersect` for `u16`, with its result turned from a
/// float into an integer.
///
/// Believed, not proved: for two slices in ascending order without repeats,
/// the call returns `Some` of the number of elements that occur in both. The
/// binding always returns `Some`; the count comes from whichever kernel the
/// crate selects for the processor at hand.
///
/// The contract leaves out two kinds of input on which the kernels as written
/// do not keep to that description. One kernel pads a partial block with
/// zeros before comparing, so a slice holding the index 0 is not passed. The
/// scalar search that finishes the kernels can read past the end of the
/// longer slice once an element of the shorter one lies above the longer
/// one's maximum and another follows it, so at most one element of either
/// slice may exceed the other's last.
#[verifier::external_body]
fn intersect_size(a: &[u16], b: &[u16]) -> (size: Option<u64>)
    requires
        strictly_increasing(a@),
        strictly_increasing(b@),
        free_of_zero(a@),
        free_of_zero(b@),
        overhang_at_most_one(a@, b@),
        overhang_at_most_one(b@, a@),
    ensures
        size == Some(common_count(a@, b@) as u64),
{
    match simsimd::Sparse::intersect(a, b) {
        Some(size) => Some(size as u64),
        None => None,
    }
}

/// Where to end the window of `s` that starts at `from`: one past the first
/// element above `bound`, so that every element above `bound` but the first
/// is cut off the end. The place is found by bisection.
fn overhang_cut(s: &[u16], from: usize, bound: u16) -> (to: usize)
    requires
        strictly_increasing(s@),
        from < s@.len(),
    ensures
        from < to <= s@.len(),
        to - from >= 2 ==> s@[to - 2] <= bound,
        to < s@.len() ==> forall|p: int| to - 1 <= p < s@.len() ==> s@[p] > bound,
{
    let mut low: usize = from;
    let mut high: usize = s.len();
    while low < high
        invariant
            strictly_increasing(s@),
            from <= low <= high <= s@.len(),
            forall|p: int| from <= p < low ==> s@[p] <= bound,
            forall|p: int| high <= p < s@.len() ==> s@[p] > bound,
        decreases high - low,
    {
        let mid: usize = low + (high - low) / 2;
        if s[mid] <= bound {
            proof {
                assert forall|p: int| from <= p < mid + 1 implies s@[p] <= bound by {
                    if p < mid {
                        assert(s@[p] < s@[mid as int]);
                    }
                }
            }
            low = mid + 1;
        } else {
            proof {
                assert forall|p: int| mid <= p < s@.len() implies s@[p] > bound by {
                    if p > mid {
                        assert(s@[mid as int] < s@[p]);
                    }
                }
            }
            high = mid;
        }
    }
    if low < s.len() {
        low + 1
    } else {
        low
    }
}

/// Cutting windows out of two index arrays changes the count of shared
/// indices by at most the one index 0: provided that nothing but a zero is
/// cut off in front, that everything cut off behind lies above the whole of
/// the other array, and that the windows themselves hold no zero.
pub proof fn lemma_window_count(
    a: Seq<u16>,
    b: Seq<u16>,
    a_from: int,
    a_to: int,
    b_from: int,
    b_to: int,
)
    requires
        strictly_increasing(a),
        strictly_increasing(b),
        0 <= a_from <= a_to <= a.len(),
        0 <= b_from <= b_to <= b.len(),
        forall|p: int| 0 <= p < a_from ==> a[p] == 0,
        forall|q: int| 0 <= q < b_from ==> b[q] == 0,
        forall|p: int| a_from <= p < a.len() ==> a[p] != 0,
        forall|q: int| b_from <= q < b.len() ==> b[q] != 0,
        forall|p: int, q: int| a_to <= p < a.len() && 0 <= q < b.len() ==> a[p] > b[q],
        forall|p: int, q: int| b_to <= q < b.len() && 0 <= p < a.len() ==> b[q] > a[p],
    ensures
        common_count(a, b) == common_count(a.subrange(a_from, a_to), b.subrange(b_from, b_to)) + (if a_from > 0
            && b_from > 0 {
            1nat
        } else {
            0nat
        }),
{
    broadcast use vstd::seq_lib::group_seq_properties;
    broadcast use vstd::set::group_set_axioms;

    let wa = a.subrange(a_from, a_to);
    let wb = b.subrange(b_from, b_to);
    let whole = a.to_set().intersect(b.to_set());
    let inner = wa.to_set().intersect(wb.to_set());
    assert(inner.finite());
    assert(!inner.contains(0u16)) by {
        if wa.contains(0u16) {
            let p = wa.index_of(0u16);
            assert(a[a_from + p] == 0);
        }
    }
    assert forall|x: u16| inner.contains(x) implies whole.contains(x) by {
        let p = wa.index_of(x);
        let q = wb.index_of(x);
        assert(wa.contains(x) && wb.contains(x));
        assert(a[a_from + p] == x);
        assert(b[b_from + q] == x);
    }
    assert forall|x: u16| whole.contains(x) && x != 0 implies inner.contains(x) by {
        assert(a.contains(x) && b.contains(x));
        let p = a.index_of(x);
        let q = b.index_of(x);
        assert(a[p] == x && b[q] == x);
        assert(a_from <= p < a_to);
        assert(b_from <= q < b_to);
        assert(wa[p - a_from] == x);
        assert(wb[q - b_from] == x);
    }
    if a_from > 0 && b_from > 0 {
        assert(a[0] == 0 && b[0] == 0);
        assert(a.contains(0u16) && b.contains(0u16));
        assert(whole =~= inner.insert(0u16));
    } else {
        assert(!whole.contains(0u16)) by {
            if a.contains(0u16) && b.contains(0u16) {
                let p = a.index_of(0u16);
                let q = b.index_of(0u16);
                assert(a[p] == 0 && b[q] == 0);
            }
        }
        assert(whole =~= inner);
    }
}

/// The leading zero of an ascending array, if it has one, stands alone:
/// nothing from position `from` on is zero.
pub proof fn lemma_zero_leads(s: Seq<u16>, from: int)
    requires
        strictly_increasing(s),
        0 <= from <= 1,
        from == 1 <==> s.len() > 0 && s[0] == 0,
    ensures
        forall|p: int| 0 <= p < from ==> s[p] == 0,
        forall|p: int| from <= p < s.len() ==> s[p] != 0,
{
    assert forall|p: int| from <= p < s.len() implies s[p] != 0 by {
        if p > 0 {
            assert(s[0] < s[p]);
        }
    }
}

/// What is cut off the end of one array lies above the whole of the other.
pub proof fn lemma_cut_is_above(a: Seq<u16>, b: Seq<u16>, a_to: int)
    requires
        strictly_increasing(b),
        0 < a_to <= a.len(),
        0 < b.len(),
        a_to < a.len() ==> forall|p: int| a_to - 1 <= p < a.len() ==> a[p] > b[b.len() - 1],
    ensures
        forall|p: int, q: int| a_to <= p < a.len() && 0 <= q < b.len() ==> a[p] > b[q],
{
    assert forall|p: int, q: int| a_to <= p < a.len() && 0 <= q < b.len() implies a[p] > b[q] by {
        assert(a[p] > b[b.len() - 1]);
        if q < b.len() - 1 {
            assert(b[q] < b[b.len() - 1]);
        }
    }
}

/// After the cut, at most one element of the window of `a` is above the last
/// element of the window of `b`.
pub proof fn lemma_cut_overhang(a: Seq<u16>, b: Seq<u16>, a_from: int, a_to: int, b_from: int, b_to: int)
    requires
        strictly_increasing(a),
        0 <= a_from < a_to <= a.len(),
        0 <= b_from < b_to <= b.len(),
        a_to >= a_from + 2 ==> a[a_to - 2] <= b[b.len() - 1],
        b_to < b.len() ==> b[b_to - 1] > a[a.len() - 1],
    ensures
        overhang_at_most_one(a.subrange(a_from, a_to), b.subrange(b_from, b_to)),
{
    let wa = a.subrange(a_from, a_to);
    let wb = b.subrange(b_from, b_to);
    if wa.len() >= 2 {
        assert(wa[wa.len() - 2] == a[a_to - 2]);
        assert(wb[wb.len() - 1] == b[b_to - 1]);
        if b_to < b.len() {
            if a_to - 2 < a.len() - 1 {
                assert(a[a_to - 2] < a[a.len() - 1]);
            }
        }
    }
}

/// A window of an ascending array is ascending.
pub proof fn lemma_window_increasing(s: Seq<u16>, from: int, to: int)
    requires
        strictly_increasing(s),
        0 <= from <= to <= s.len(),
    ensures
        strictly_increasing(s.subrange(from, to)),
{
    let w = s.subrange(from, to);
    assert forall|i: int, j: int| 0 <= i < j < w.len() implies w[i] < w[j] by {
        assert(s[from + i] < s[from + j]);
    }
}

impl SparseVector {
    /// Counts the indices that the two vectors share, with the vectorized
    /// kernels doing the intersection. The count is the one that
    /// `sparse_dot_product` returns for the same two vectors.
    pub fn simd_match_count(&self, other: &SparseVector) -> (count: u16)
        requires
            self.wf(),
            other.wf(),
        ensures
            count == common_count(self.indices@, other.indices@),
    {
        let a: &[u16] = self.indices.as_slice();
        let b: &[u16] = other.indices.as_slice();
        let a_from: usize = if a.len() > 0 && a[0] == 0 { 1 } else { 0 };
        let b_from: usize = if b.len() > 0 && b[0] == 0 { 1 } else { 0 };
        let zero_shared: u16 = if a_from == 1 && b_from == 1 { 1 } else { 0 };
        proof {
            lemma_zero_leads(a@, a_from as int);
            lemma_zero_leads(b@, b_from as int);
        }
        if a_from == a.len() || b_from == b.len() {
            proof {
                lemma_window_count(
                    a@,
                    b@,
                    a_from as int,
                    a@.len() as int,
                    b_from as int,
                    b@.len() as int,
                );
                lemma_empty_count(
                    a@.subrange(a_from as int, a@.len() as int),
                    b@.subrange(b_from as int, b@.len() as int),
                );
            }
            return zero_shared;
        }
        let a_to: usize = overhang_cut(a, a_from, b[b.len() - 1]);
        let b_to: usize = overhang_cut(b, b_from, a[a.len() - 1]);
        let a_window: &[u16] = slice_subrange(a, a_from, a_to);
        let b_window: &[u16] = slice_subrange(b, b_from, b_to);
        proof {
            self.lemma_len_bound();
            lemma_cut_is_above(a@, b@, a_to as int);
            lemma_cut_is_above(b@, a@, b_to as int);
            lemma_window_count(a@, b@, a_from as int, a_to as int, b_from as int, b_to as int);
            lemma_window_increasing(a@, a_from as int, a_to as int);
            lemma_window_increasing(b@, b_from as int, b_to as int);
            lemma_cut_overhang(a@, b@, a_from as int, a_to as int, b_from as int, b_to as int);
            lemma_cut_overhang(b@, a@, b_from as int, b_to as int, a_from as int, a_to as int);
            lemma_count_bound(a_window@, b_window@);
        }
        match intersect_size(a_window, b_window) {
            Some(size) => size as u16 + zero_shared,
            None => self.sparse_dot_product(other).0,
        }
    }
}

} // verus!
