use sparse_dot::generate::{generate_intersecting_vectors, split_draw};
use sparse_dot::vector::SparseVector;
use std::collections::HashSet;

fn shared(a: &[u16], b: &[u16]) -> usize {
    let left: HashSet<u16> = a.iter().copied().collect();
    b.iter().filter(|k| left.contains(k)).count()
}

fn values(n: usize, seed: u32) -> Vec<u32> {
    (0..n as u32).map(|i| ((i + seed) as f32 * 0.25 + 1.0).to_bits()).collect()
}

#[test]
fn split_draw_deals_and_sorts() {
    let picked = [40usize, 7, 65534, 3, 12, 0, 900];
    let (first, second) = split_draw(&picked, 4, 5, 2);
    assert_eq!(first, vec![3, 7, 40, 65534]);
    assert_eq!(second, vec![0, 7, 12, 40, 900]);
    assert_eq!(shared(&first, &second), 2);
}

#[test]
fn split_draw_without_overlap() {
    let picked = [9usize, 8, 7, 6, 5];
    let (first, second) = split_draw(&picked, 2, 3, 0);
    assert_eq!(first, vec![8, 9]);
    assert_eq!(second, vec![5, 6, 7]);
}

#[test]
fn split_draw_with_full_overlap() {
    let picked = [30usize, 10, 20];
    let (first, second) = split_draw(&picked, 3, 3, 3);
    assert_eq!(first, vec![10, 20, 30]);
    assert_eq!(second, vec![10, 20, 30]);
}

#[test]
fn split_draw_of_nothing() {
    let (first, second) = split_draw(&[], 0, 0, 0);
    assert!(first.is_empty());
    assert!(second.is_empty());
}

#[test]
fn split_draw_where_the_second_is_inside_the_first() {
    let picked = [5usize, 3, 1, 4, 2];
    let (first, second) = split_draw(&picked, 5, 2, 2);
    assert_eq!(first, vec![1, 2, 3, 4, 5]);
    assert_eq!(second, vec![3, 5]);
}

fn check_generated(first_size: usize, second_size: usize, intersection_size: usize) {
    let first_values = values(first_size, 1);
    let second_values = values(second_size, 1000);
    let (a, b): (SparseVector, SparseVector) = generate_intersecting_vectors(
        first_size,
        second_size,
        intersection_size,
        first_values.clone(),
        second_values.clone(),
    );
    assert!(a.is_valid());
    assert!(b.is_valid());
    assert_eq!(a.len(), first_size);
    assert_eq!(b.len(), second_size);
    assert_eq!(a.values, first_values);
    assert_eq!(b.values, second_values);
    assert_eq!(shared(&a.indices, &b.indices), intersection_size);
    assert_eq!(usize::from(a.sparse_dot_product(&b).0), intersection_size);
    assert_eq!(usize::from(a.simd_match_count(&b)), intersection_size);
}

#[test]
fn generated_vectors_share_the_requested_number_of_indices() {
    for &first_size in [66usize, 129, 513, 1025, 2049].iter() {
        for &(second_size, intersection_size) in [(9usize, 1usize), (9, 5), (17, 9), (33, 4), (33, 30)].iter() {
            check_generated(first_size, second_size, intersection_size);
        }
    }
}

#[test]
fn generated_vectors_at_the_edges() {
    check_generated(0, 0, 0);
    check_generated(1, 1, 1);
    check_generated(1, 1, 0);
    check_generated(10, 0, 0);
    check_generated(0, 10, 0);
    check_generated(50, 50, 50);
}

#[test]
fn generated_vectors_can_fill_the_dense_space() {
    check_generated(65535, 65535, 65535);
    check_generated(40000, 30000, 4465);
    check_generated(65535, 0, 0);
}

#[test]
fn generated_vectors_differ_between_draws() {
    let (a, _) = generate_intersecting_vectors(64, 8, 4, values(64, 0), values(8, 0));
    let mut differs = false;
    for _ in 0..8 {
        let (c, _) = generate_intersecting_vectors(64, 8, 4, values(64, 0), values(8, 0));
        differs = differs || c.indices != a.indices;
    }
    assert!(differs);
}
