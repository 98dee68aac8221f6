//! The sparse vector itself: its representation, what makes one well formed,
//! and its construction from a dense array.

use vstd::prelude::*;

verus! {

/// Size of the dense space that indices point into: every index is below it.
pub const DIMENSION_LIMIT: usize = 65535;

/// Every element is smaller than each one after it.
pub open spec fn strictly_increasing(s: Seq<u16>) -> bool {
    forall|i: int, j: int| 0 <= i < j < s.len() ==> s[i] < s[j]
}

/// The pattern is one of the two that encode zero (positive or negative).
/// Every other pattern, the NaNs included, compares unequal to zero.
pub open spec fn is_zero_pattern(bits: u32) -> bool {
    bits == 0 || bits == 0x8000_0000
}

/// The entries of a dense array seen as a finite map: each position that
/// holds something other than zero, with the pattern found there.
pub open spec fn dense_entries(dense: Seq<u32>) -> Map<u16, u32> {
    Map::new(
        |k: u16| (k as int) < dense.len() && !is_zero_pattern(dense[k as int]),
        |k: u16| dense[k as int],
    )
}

/// The test "is not zero", on a pattern.
pub open spec fn is_nonzero() -> spec_fn(u32) -> bool {
    |bits: u32| !is_zero_pattern(bits)
}

/// The test "`dense` holds something other than zero at this position".
pub open spec fn holds_nonzero(dense: Seq<u32>) -> spec_fn(u16) -> bool {
    |k: u16| !is_zero_pattern(dense[k as int])
}

/// The first `n` positions of the dense space, in order.
pub open spec fn positions(n: nat) -> Seq<u16> {
    Seq::new(n, |i: int| i as u16)
}

/// Exact comparison of a value pattern with zero.
pub fn is_zero(bits: u32) -> (zero: bool)
    ensures
        zero == is_zero_pattern(bits),
{
    bits == 0 || bits == 0x8000_0000
}

/// A sparse vector: `indices[i]` is a position in the dense space and
/// `values[i]` the pattern of the value stored there.
#[derive(Clone, Debug)]
pub struct SparseVector {
    pub indices: Vec<u16>,
    pub values: Vec<u32>,
}

impl View for SparseVector {
    type V = Map<u16, u32>;

    /// The vector as a finite map from position to stored pattern.
    open spec fn view(&self) -> Map<u16, u32> {
        Map::new(
            |k: u16| self.indices@.contains(k),
            |k: u16| self.values@[self.indices@.index_of(k)],
        )
    }
}

impl SparseVector {
    /// The invariant that every operation on two vectors relies on: one value
    /// per index, indices ascending without repeats, all inside the dense
    /// space.
    pub open spec fn wf(&self) -> bool {
        &&& self.indices@.len() == self.values@.len()
        &&& strictly_increasing(self.indices@)
        &&& forall|i: int| 0 <= i < self.indices@.len() ==> (#[trigger] self.indices@[i]) < DIMENSION_LIMIT
    }

    /// In a well-formed vector the map holds, under the index at position
    /// `i`, the value at position `i`.
    pub proof fn lemma_entry(&self, i: int)
        requires
            self.wf(),
            0 <= i < self.indices@.len(),
        ensures
            self@.dom().contains(self.indices@[i]),
            self@[self.indices@[i]] == self.values@[i],
    {
        let k = self.indices@[i];
        assert(self.indices@.contains(k));
        let p = self.indices@.index_of(k);
        assert(0 <= p < self.indices@.len() && self.indices@[p] == k);
        if p < i {
            assert(self.indices@[p] < self.indices@[i]);
        }
        if i < p {
            assert(self.indices@[i] < self.indices@[p]);
        }
    }

    /// A well-formed vector has at most as many entries as the dense space
    /// has positions.
    pub proof fn lemma_len_bound(&self)
        requires
            self.wf(),
        ensures
            self.indices@.len() <= DIMENSION_LIMIT,
    {
        lemma_increasing_lower_bound(self.indices@, self.indices@.len() - 1);
    }

    /// Number of stored entries.
    pub fn len(&self) -> (n: usize)
        ensures
            n == self.indices@.len(),
    {
        self.indices.len()
    }

    /// Checks the invariant at run time, for callers that cannot prove it.
    pub fn is_valid(&self) -> (ok: bool)
        ensures
            ok == self.wf(),
    {
        let n: usize = self.indices.len();
        if self.values.len() != n {
            return false;
        }
        if n == 0 {
            return true;
        }
        let mut i: usize = 1;
        while i < n
            invariant
                1 <= i <= n,
                n == self.indices@.len(),
                forall|p: int, q: int| 0 <= p < q < i ==> self.indices@[p] < self.indices@[q],
            decreases n - i,
        {
            if self.indices[i - 1] >= self.indices[i] {
                return false;
            }
            i += 1;
        }
        let last: u16 = self.indices[n - 1];
        proof {
            if last < DIMENSION_LIMIT {
                assert forall|p: int| 0 <= p < self.indices@.len() implies (#[trigger] self.indices@[p])
                    < DIMENSION_LIMIT by {
                    if p < n - 1 {
                        assert(self.indices@[p] < self.indices@[n - 1]);
                    }
                }
            }
        }
        (last as usize) < DIMENSION_LIMIT
    }

    /// Collects the entries of `dense` that are not zero, in the order of
    /// their positions. The comparison with zero is exact: a pattern is kept
    /// unless it encodes positive or negative zero.
    pub fn from_dense(dense: &[u32]) -> (sparse: SparseVector)
        requires
            dense@.len() <= DIMENSION_LIMIT,
        ensures
            sparse.wf(),
            sparse.indices@ == positions(dense@.len()).filter(holds_nonzero(dense@)),
            sparse.values@ == dense@.filter(is_nonzero()),
            sparse@ == dense_entries(dense@),
    {
        let mut indices: Vec<u16> = Vec::new();
        let mut values: Vec<u32> = Vec::new();
        let n: usize = dense.len();
        let mut idx: usize = 0;
        let ghost all = positions(dense@.len());
        proof {
            reveal(Seq::filter);
            assert(all.take(0).filter(holds_nonzero(dense@)) =~= Seq::<u16>::empty());
            assert(dense@.take(0).filter(is_nonzero()) =~= Seq::<u32>::empty());
        }
        while idx < n
            invariant
                idx <= n,
                n == dense@.len(),
                n <= DIMENSION_LIMIT,
                all == positions(dense@.len()),
                indices@ == all.take(idx as int).filter(holds_nonzero(dense@)),
                values@ == dense@.take(idx as int).filter(is_nonzero()),
                indices@.len() == values@.len(),
                strictly_increasing(indices@),
                forall|i: int| 0 <= i < indices@.len() ==> (#[trigger] indices@[i]) < idx,
                forall|i: int| 0 <= i < indices@.len() ==> values@[i] == dense@[indices@[i] as int],
                forall|i: int| 0 <= i < indices@.len() ==> !is_zero_pattern(dense@[(#[trigger] indices@[i]) as int]),
                forall|p: int| 0 <= p < idx && !is_zero_pattern(dense@[p]) ==> indices@.contains(p as u16),
            decreases n - idx,
        {
            let value: u32 = dense[idx];
            proof {
                all.lemma_take_succ_push(idx as int);
                all.take(idx as int).lemma_filter_push(idx as u16, holds_nonzero(dense@));
                dense@.lemma_take_succ_push(idx as int);
                dense@.take(idx as int).lemma_filter_push(value, is_nonzero());
            }
            if !is_zero(value) {
                let ghost before = indices@;
                indices.push(idx as u16);
                values.push(value);
                proof {
                    assert forall|p: int| 0 <= p < idx + 1 && !is_zero_pattern(dense@[p]) implies indices@.contains(
                        p as u16,
                    ) by {
                        if p < idx {
                            let w = before.index_of(p as u16);
                            assert(before.contains(p as u16));
                            assert(indices@[w] == p as u16);
                        } else {
                            assert(indices@[before.len() as int] == p as u16);
                        }
                    }
                }
            }
            idx += 1;
        }
        let sparse = SparseVector { indices, values };
        proof {
            assert(all.take(n as int) =~= all);
            assert(dense@.take(n as int) =~= dense@);
            assert(sparse.wf());
            assert forall|k: u16| sparse@.dom().contains(k) == dense_entries(dense@).dom().contains(k) by {
                if sparse.indices@.contains(k) {
                    let w = sparse.indices@.index_of(k);
                    assert(sparse.indices@[w] == k);
                }
                if (k as int) < dense@.len() && !is_zero_pattern(dense@[k as int]) {
                    assert(sparse.indices@.contains((k as int) as u16));
                }
            }
            assert forall|k: u16| sparse@.dom().contains(k) implies sparse@[k] == dense_entries(dense@)[k] by {
                let w = sparse.indices@.index_of(k);
                assert(sparse.indices@[w] == k);
            }
            assert(sparse@ =~= dense_entries(dense@));
        }
        sparse
    }
}

/// In an ascending sequence without repeats the element at position `i` is
/// at least `i`.
pub proof fn lemma_increasing_lower_bound(s: Seq<u16>, i: int)
    requires
        strictly_increasing(s),
        -1 <= i < s.len(),
    ensures
        i >= 0 ==> s[i] >= i,
    decreases i + 1,
{
    if i > 0 {
        lemma_increasing_lower_bound(s, i - 1);
        assert(s[i - 1] < s[i]);
    }
}

} // verus!
