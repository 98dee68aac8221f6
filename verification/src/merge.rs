//! The scalar merge-join: two cursors walk the two index arrays in step and
//! stop at every index that both hold.

use vstd::prelude::*;
use crate::vector::SparseVector;
use crate::shared::{
    common_count,
    occurs_in,
    shared_indices,
    lemma_empty_count,
    lemma_shared_len,
    lemma_shared_rest,
    lemma_shared_step,
};

verus! {

impl SparseVector {
    /// For an index, the value that `self` stores there and the value that
    /// `other` stores there.
    pub open spec fn paired(&self, other: &SparseVector) -> spec_fn(u16) -> (u32, u32) {
        |k: u16| (self@[k], other@[k])
    }

    /// The terms of the dot product: for each index that both vectors hold, in
    /// ascending order, the two values stored under it. The dot product is the
    /// sum of the products of these pairs.
    pub open spec fn product_terms(&self, other: &SparseVector) -> Seq<(u32, u32)> {
        shared_indices(self.indices@, other.indices@).map_values(self.paired(other))
    }

    /// Intersects the two vectors by a sorted merge. Returns how many indices
    /// they share and, for each shared index in ascending order, the pair of
    /// values to multiply. Neither input is checked at run time.
    pub fn sparse_dot_product(&self, other: &SparseVector) -> (result: (u16, Vec<(u32, u32)>))
        requires
            self.wf(),
            other.wf(),
        ensures
            result.0 == common_count(self.indices@, other.indices@),
            result.1@ == self.product_terms(other),
            result.1@.len() == result.0,
    {
        let mut terms: Vec<(u32, u32)> = Vec::new();
        let mut i: usize = 0;
        let mut j: usize = 0;
        let mut matches: u16 = 0;
        let ghost a = self.indices@;
        let ghost b = other.indices@;
        proof {
            self.lemma_len_bound();
            assert(a.take(0) =~= Seq::<u16>::empty());
            assert(shared_indices(a.take(0), b) =~= Seq::<u16>::empty()) by {
                reveal(Seq::filter);
            }
        }
        while i < self.indices.len() && j < other.indices.len()
            invariant
                self.wf(),
                other.wf(),
                a == self.indices@,
                b == other.indices@,
                a.len() <= 65535,
                i <= a.len(),
                j <= b.len(),
                matches == terms@.len(),
                terms@.len() <= i,
                terms@ == shared_indices(a.take(i as int), b).map_values(self.paired(other)),
                forall|p: int, q: int| 0 <= p < j && i <= q < a.len() ==> b[p] < a[q],
                forall|p: int, q: int| 0 <= p < i && j <= q < b.len() ==> a[p] < b[q],
            decreases a.len() - i + b.len() - j,
        {
            let x: u16 = self.indices[i];
            let y: u16 = other.indices[j];
            proof {
                lemma_shared_step(a, b, i as int);
            }
            if x == y {
                proof {
                    assert(b.contains(x)) by {
                        assert(b[j as int] == x);
                    }
                    self.lemma_entry(i as int);
                    other.lemma_entry(j as int);
                    shared_indices(a.take(i as int), b).lemma_push_map_commute(self.paired(other), x);
                }
                matches += 1;
                terms.push((self.values[i], other.values[j]));
                i += 1;
                j += 1;
            } else if x < y {
                proof {
                    assert(!b.contains(x)) by {
                        if b.contains(x) {
                            let q = b.index_of(x);
                            if q < j {
                                assert(b[q] < a[i as int]);
                            } else if q > j {
                                assert(b[j as int] < b[q]);
                            }
                        }
                    }
                }
                i += 1;
            } else {
                j += 1;
            }
        }
        proof {
            if i < a.len() {
                assert forall|p: int| i <= p < a.len() implies !b.contains(#[trigger] a[p]) by {
                    if b.contains(a[p]) {
                        let q = b.index_of(a[p]);
                        assert(b[q] < a[p]);
                    }
                }
            }
            lemma_shared_rest(a, b, i as int, a.len() as int);
            assert(a.take(a.len() as int) =~= a);
            lemma_shared_len(a, b);
        }
        (matches, terms)
    }
}

/// With an empty operand there is nothing to multiply: the vectors share no
/// index and the dot product has no term.
pub proof fn lemma_empty_operand(a: SparseVector, b: SparseVector)
    requires
        a.indices@.len() == 0 || b.indices@.len() == 0,
    ensures
        common_count(a.indices@, b.indices@) == 0,
        a.product_terms(&b) == Seq::<(u32, u32)>::empty(),
{
    lemma_empty_count(a.indices@, b.indices@);
    if a.indices@.len() == 0 {
        reveal(Seq::filter);
    } else {
        a.indices@.lemma_all_neg_filter_empty(occurs_in(b.indices@));
    }
    assert(a.product_terms(&b) =~= Seq::<(u32, u32)>::empty());
}

} // verus!
