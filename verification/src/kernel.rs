//! The two implementations of the intersection behind one entry point.

use vstd::prelude::*;
use crate::vector::SparseVector;
use crate::shared::common_count;

verus! {

/// Which implementation walks the index arrays.
#[derive(Clone, Copy, Debug, PartialEq, Eq)]
pub enum Kernel {
    /// The two-cursor merge of this library.
    Scalar,
    /// The data-parallel kernels, where the processor has them.
    Vectorized,
}

impl SparseVector {
    /// Counts the indices that the two vectors share, with the kernel of the
    /// caller's choice. The count does not depend on the choice.
    pub fn match_count(&self, other: &SparseVector, kernel: Kernel) -> (count: u16)
        requires
            self.wf(),
            other.wf(),
        ensures
            count == common_count(self.indices@, other.indices@),
    {
        match kernel {
            Kernel::Scalar => self.sparse_dot_product(other).0,
            Kernel::Vectorized => self.simd_match_count(other),
        }
    }
}

} // verus!
