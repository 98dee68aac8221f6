//! Pairs of index arrays with a chosen overlap, drawn at random from the
//! dense space.

use vstd::prelude::*;
use crate::vector::{SparseVector, strictly_increasing, DIMENSION_LIMIT};
use crate::shared::common_count;

verus! {

/// Each drawn position as an index.
pub open spec fn as_indices(picked: Seq<usize>) -> Seq<u16> {
    picked.map_values(|p: usize| p as u16)
}

/// The draw is usable: no position twice, every position inside the dense
/// space.
pub open spec fn is_draw(picked: Seq<usize>) -> bool {
    &&& picked.no_duplicates()
    &&& forall|i: int| 0 <= i < picked.len() ==> picked[i] < DIMENSION_LIMIT
}

/// The part of a draw that goes to the first array: its first `first_size`
/// positions.
pub open spec fn first_part(picked: Seq<usize>, first_size: int) -> Seq<usize> {
    picked.take(first_size)
}

/// The part of a draw that goes to the second array: the positions that it
/// shares with the first array, which lead the draw, and the positions after
/// those of the first array.
pub open spec fn second_part(picked: Seq<usize>, first_size: int, intersection_size: int) -> Seq<usize> {
    picked.take(intersection_size) + picked.skip(first_size)
}

/// `rand::seq::index::sample` on the generator of `rand::thread_rng`.
///
/// Believed, not proved: the call returns exactly `amount` positions, all
/// different, each below `length`. Which positions, and in what order, is
/// left to chance. The call panics when `amount` exceeds `length`, and when
/// the system refuses to seed the thread's generator.
#[verifier::external_body]
fn sample_positions(length: usize, amount: usize) -> (picked: Vec<usize>)
    requires
        amount <= length,
    ensures
        picked@.len() == amount,
        picked@.no_duplicates(),
        forall|i: int| 0 <= i < picked@.len() ==> picked@[i] < length,
{
    rand::seq::index::sample(&mut rand::thread_rng(), length, amount).into_vec()
}

/// The standard library's `sort` on a slice of `u16`.
///
/// Believed, not proved: afterwards the elements are the same ones, each as
/// often as before, and stand in ascending order.
#[verifier::external_body]
fn sort_ascending(v: &mut Vec<u16>)
    ensures
        final(v)@.to_multiset() == old(v)@.to_multiset(),
        forall|i: int, j: int| 0 <= i < j < final(v)@.len() ==> final(v)@[i] <= final(v)@[j],
{
    v.sort();
}

/// Putting a sequence without repeats in ascending order gives a strictly
/// ascending sequence of the same elements.
pub proof fn lemma_sorted_arrangement(before: Seq<u16>, after: Seq<u16>)
    requires
        before.no_duplicates(),
        after.to_multiset() == before.to_multiset(),
        forall|i: int, j: int| 0 <= i < j < after.len() ==> after[i] <= after[j],
    ensures
        strictly_increasing(after),
        after.len() == before.len(),
        after.to_set() == before.to_set(),
{
    broadcast use vstd::seq_lib::group_to_multiset_ensures;

    before.lemma_multiset_has_no_duplicates();
    after.lemma_multiset_has_no_duplicates_conv();
    vstd::seq_lib::to_multiset_len(before);
    vstd::seq_lib::to_multiset_len(after);
    assert forall|i: int, j: int| 0 <= i < j < after.len() implies after[i] < after[j] by {
        assert(after[i] <= after[j]);
        assert(after[i] != after[j]);
    }
    assert forall|x: u16| after.to_set().contains(x) == before.to_set().contains(x) by {
        assert(after.contains(x) <==> after.to_multiset().count(x) > 0);
        assert(before.contains(x) <==> before.to_multiset().count(x) > 0);
    }
    assert(after.to_set() =~= before.to_set());
}

/// In a usable draw, the two parts hold no index twice, and the indices that
/// they share are those of the leading `intersection_size` positions.
pub proof fn lemma_parts_of_draw(picked: Seq<usize>, first_size: int, intersection_size: int)
    requires
        is_draw(picked),
        0 <= intersection_size <= first_size <= picked.len(),
    ensures
        as_indices(first_part(picked, first_size)).no_duplicates(),
        as_indices(second_part(picked, first_size, intersection_size)).no_duplicates(),
        common_count(
            as_indices(first_part(picked, first_size)),
            as_indices(second_part(picked, first_size, intersection_size)),
        ) == intersection_size,
{
    broadcast use vstd::seq_lib::group_seq_properties;
    broadcast use vstd::set::group_set_axioms;

    let first = as_indices(first_part(picked, first_size));
    let second = as_indices(second_part(picked, first_size, intersection_size));
    let lead = as_indices(picked.take(intersection_size));
    // Where the element at a position of the second part stands in the draw.
    let origin = |q: int| if q < intersection_size { q } else { q - intersection_size + first_size };
    assert forall|q: int| 0 <= q < second.len() implies 0 <= origin(q) < picked.len() && second[q]
        == picked[origin(q)] as u16 by {}
    assert forall|i: int, j: int| 0 <= i < first.len() && 0 <= j < first.len() && i != j implies first[i]
        != first[j] by {
        assert(picked[i] != picked[j]);
    }
    assert forall|i: int, j: int| 0 <= i < second.len() && 0 <= j < second.len() && i != j implies second[i]
        != second[j] by {
        assert(picked[origin(i)] != picked[origin(j)]);
    }
    assert forall|i: int, j: int| 0 <= i < lead.len() && 0 <= j < lead.len() && i != j implies lead[i]
        != lead[j] by {
        assert(picked[i] != picked[j]);
    }
    lead.unique_seq_to_set();
    assert forall|x: u16| first.to_set().intersect(second.to_set()).contains(x) implies lead.to_set().contains(
        x,
    ) by {
        let p = first.index_of(x);
        let q = second.index_of(x);
        assert(first.contains(x) && second.contains(x));
        assert(first[p] == x && second[q] == x);
        assert(picked[p] == picked[origin(q)]);
        assert(p == origin(q));
        assert(lead[p] == x);
    }
    assert forall|x: u16| lead.to_set().contains(x) implies first.to_set().intersect(second.to_set()).contains(
        x,
    ) by {
        let p = lead.index_of(x);
        assert(lead.contains(x));
        assert(first[p] == x);
        assert(second[p] == x);
    }
    assert(first.to_set().intersect(second.to_set()) =~= lead.to_set());
}

/// Collects `picked[from..to]` at the end of `indices`, each position as an
/// index.
fn push_positions(indices: &mut Vec<u16>, picked: &[usize], from: usize, to: usize)
    requires
        from <= to <= picked@.len(),
        forall|i: int| from <= i < to ==> picked@[i] < DIMENSION_LIMIT,
    ensures
        final(indices)@ == old(indices)@ + as_indices(picked@.subrange(from as int, to as int)),
{
    let mut k: usize = from;
    while k < to
        invariant
            from <= k <= to <= picked@.len(),
            forall|i: int| from <= i < to ==> picked@[i] < DIMENSION_LIMIT,
            indices@ == old(indices)@ + as_indices(picked@.subrange(from as int, k as int)),
        decreases to - k,
    {
        indices.push(picked[k] as u16);
        proof {
            assert(indices@ =~= old(indices)@ + as_indices(picked@.subrange(from as int, k + 1)));
        }
        k += 1;
    }
}

/// Deals a draw out to two index arrays and sorts each. The first array gets
/// the first `first_size` positions of the draw; the second gets the leading
/// `intersection_size` positions, which it then shares with the first, and
/// the positions behind those of the first.
pub fn split_draw(picked: &[usize], first_size: usize, second_size: usize, intersection_size: usize) -> (parts: (
    Vec<u16>,
    Vec<u16>,
))
    requires
        is_draw(picked@),
        intersection_size <= first_size,
        intersection_size <= second_size,
        picked@.len() == first_size + second_size - intersection_size,
    ensures
        strictly_increasing(parts.0@),
        strictly_increasing(parts.1@),
        parts.0@.to_set() == as_indices(first_part(picked@, first_size as int)).to_set(),
        parts.1@.to_set() == as_indices(
            second_part(picked@, first_size as int, intersection_size as int),
        ).to_set(),
        parts.0@.len() == first_size,
        parts.1@.len() == second_size,
        common_count(parts.0@, parts.1@) == intersection_size,
{
    let mut first: Vec<u16> = Vec::new();
    let mut second: Vec<u16> = Vec::new();
    push_positions(&mut first, picked, 0, first_size);
    push_positions(&mut second, picked, 0, intersection_size);
    push_positions(&mut second, picked, first_size, picked.len());
    let ghost first_dealt = first@;
    let ghost second_dealt = second@;
    proof {
        assert(first_dealt =~= as_indices(first_part(picked@, first_size as int)));
        assert(second_dealt =~= as_indices(
            second_part(picked@, first_size as int, intersection_size as int),
        ));
        lemma_parts_of_draw(picked@, first_size as int, intersection_size as int);
    }
    sort_ascending(&mut first);
    sort_ascending(&mut second);
    proof {
        lemma_sorted_arrangement(first_dealt, first@);
        lemma_sorted_arrangement(second_dealt, second@);
    }
    (first, second)
}

/// Draws two sparse vectors of the given sizes that share exactly
/// `intersection_size` indices. The indices are drawn at random from the
/// dense space; the values are the caller's, taken in the order given.
pub fn generate_intersecting_vectors(
    first_size: usize,
    second_size: usize,
    intersection_size: usize,
    first_values: Vec<u32>,
    second_values: Vec<u32>,
) -> (pair: (SparseVector, SparseVector))
    requires
        intersection_size <= first_size,
        intersection_size <= second_size,
        first_size + second_size - intersection_size <= DIMENSION_LIMIT,
        first_values@.len() == first_size,
        second_values@.len() == second_size,
    ensures
        pair.0.wf(),
        pair.1.wf(),
        pair.0.indices@.len() == first_size,
        pair.1.indices@.len() == second_size,
        pair.0.values@ == first_values@,
        pair.1.values@ == second_values@,
        common_count(pair.0.indices@, pair.1.indices@) == intersection_size,
{
    let total: usize = first_size + (second_size - intersection_size);
    let picked: Vec<usize> = sample_positions(DIMENSION_LIMIT, total);
    let (first, second) = split_draw(picked.as_slice(), first_size, second_size, intersection_size);
    proof {
        lemma_indices_of_draw(picked@, first_part(picked@, first_size as int), first@);
        lemma_indices_of_draw(
            picked@,
            second_part(picked@, first_size as int, intersection_size as int),
            second@,
        );
    }
    (
        SparseVector { indices: first, values: first_values },
        SparseVector { indices: second, values: second_values },
    )
}

/// Indices that all come from a part of a usable draw lie inside the dense
/// space.
pub proof fn lemma_indices_of_draw(picked: Seq<usize>, part: Seq<usize>, indices: Seq<u16>)
    requires
        is_draw(picked),
        forall|i: int| 0 <= i < part.len() ==> picked.contains(#[trigger] part[i]),
        indices.to_set() == as_indices(part).to_set(),
    ensures
        forall|i: int| 0 <= i < indices.len() ==> (#[trigger] indices[i]) < DIMENSION_LIMIT,
{
    assert forall|i: int| 0 <= i < indices.len() implies (#[trigger] indices[i]) < DIMENSION_LIMIT by {
        assert(indices.to_set().contains(indices[i]));
        assert(as_indices(part).contains(indices[i]));
        let p = as_indices(part).index_of(indices[i]);
        assert(as_indices(part)[p] == indices[i]);
        assert(picked.contains(part[p]));
        let w = picked.index_of(part[p]);
        assert(picked[w] == part[p]);
    }
}

} // verus!
