use sparse_dot::vector::{is_zero, SparseVector, DIMENSION_LIMIT};

fn bits(values: &[f32]) -> Vec<u32> {
    values.iter().map(|v| v.to_bits()).collect()
}

fn floats(patterns: &[u32]) -> Vec<f32> {
    patterns.iter().map(|b| f32::from_bits(*b)).collect()
}

#[test]
fn from_dense_keeps_nonzero_entries_in_order() {
    let dense = bits(&[0.0, 1.5, 0.0, 0.0, -2.0, 3.25, 0.0]);
    let sparse = SparseVector::from_dense(&dense);
    assert_eq!(sparse.indices, vec![1, 4, 5]);
    assert_eq!(floats(&sparse.values), vec![1.5, -2.0, 3.25]);
    assert_eq!(sparse.len(), 3);
    assert!(sparse.is_valid());
}

#[test]
fn from_dense_of_nothing_is_empty() {
    let sparse = SparseVector::from_dense(&[]);
    assert!(sparse.indices.is_empty());
    assert!(sparse.values.is_empty());
    assert_eq!(sparse.len(), 0);
    assert!(sparse.is_valid());
}

#[test]
fn from_dense_of_zeros_is_empty() {
    let sparse = SparseVector::from_dense(&bits(&[0.0, 0.0, 0.0, 0.0]));
    assert!(sparse.indices.is_empty());
    assert!(sparse.values.is_empty());
}

#[test]
fn from_dense_drops_negative_zero() {
    let sparse = SparseVector::from_dense(&bits(&[-0.0, 1.0, -0.0]));
    assert_eq!(sparse.indices, vec![1]);
    assert_eq!(floats(&sparse.values), vec![1.0]);
}

#[test]
fn from_dense_compares_with_zero_exactly() {
    let tiny = f32::from_bits(1);
    let dense = bits(&[tiny, 0.0, -tiny, f32::MIN_POSITIVE, 1e-30]);
    let sparse = SparseVector::from_dense(&dense);
    assert_eq!(sparse.indices, vec![0, 2, 3, 4]);
    assert_eq!(sparse.values, vec![1, 0x8000_0001, f32::MIN_POSITIVE.to_bits(), 1e-30f32.to_bits()]);
}

#[test]
fn from_dense_keeps_nan_and_infinity() {
    let dense = bits(&[f32::NAN, 0.0, f32::INFINITY, f32::NEG_INFINITY]);
    let sparse = SparseVector::from_dense(&dense);
    assert_eq!(sparse.indices, vec![0, 2, 3]);
    assert!(f32::from_bits(sparse.values[0]).is_nan());
    assert_eq!(f32::from_bits(sparse.values[1]), f32::INFINITY);
    assert_eq!(f32::from_bits(sparse.values[2]), f32::NEG_INFINITY);
}

#[test]
fn from_dense_agrees_with_float_comparison() {
    let samples = [0.0f32, -0.0, 1.0, -1.0, f32::NAN, f32::EPSILON, f32::MAX, f32::MIN, 1e-45, -1e-45];
    for &x in samples.iter() {
        assert_eq!(is_zero(x.to_bits()), x == 0.0);
        let sparse = SparseVector::from_dense(&[x.to_bits()]);
        assert_eq!(sparse.len() == 1, x != 0.0);
    }
}

#[test]
fn from_dense_accepts_the_largest_dense_vector() {
    assert_eq!(DIMENSION_LIMIT, 65535);
    let dense = vec![1.0f32.to_bits(); 65535];
    let sparse = SparseVector::from_dense(&dense);
    assert_eq!(sparse.len(), 65535);
    assert_eq!(sparse.indices[0], 0);
    assert_eq!(sparse.indices[65534], 65534);
    assert!(sparse.indices.iter().enumerate().all(|(i, &k)| usize::from(k) == i));
    assert!(sparse.is_valid());
}

#[test]
fn from_dense_finds_the_last_position_of_the_largest_dense_vector() {
    let mut dense = vec![0u32; 65535];
    dense[65534] = 2.5f32.to_bits();
    dense[7] = 1.0f32.to_bits();
    let sparse = SparseVector::from_dense(&dense);
    assert_eq!(sparse.indices, vec![7, 65534]);
    assert_eq!(floats(&sparse.values), vec![1.0, 2.5]);
}

#[test]
fn is_valid_accepts_ascending_indices() {
    let v = SparseVector { indices: vec![0, 1, 7, 65534], values: vec![1, 2, 3, 4] };
    assert!(v.is_valid());
    let single = SparseVector { indices: vec![9], values: vec![1] };
    assert!(single.is_valid());
    let empty = SparseVector { indices: vec![], values: vec![] };
    assert!(empty.is_valid());
}

#[test]
fn is_valid_rejects_unsorted_indices() {
    let v = SparseVector { indices: vec![1, 5, 3], values: vec![1, 2, 3] };
    assert!(!v.is_valid());
    let w = SparseVector { indices: vec![4, 1], values: vec![1, 2] };
    assert!(!w.is_valid());
}

#[test]
fn is_valid_rejects_repeated_indices() {
    let v = SparseVector { indices: vec![1, 3, 3], values: vec![1, 2, 3] };
    assert!(!v.is_valid());
}

#[test]
fn is_valid_rejects_mismatched_lengths() {
    let v = SparseVector { indices: vec![1, 3], values: vec![1, 2, 3] };
    assert!(!v.is_valid());
    let w = SparseVector { indices: vec![1, 3], values: vec![1] };
    assert!(!w.is_valid());
    let x = SparseVector { indices: vec![], values: vec![1] };
    assert!(!x.is_valid());
}

#[test]
fn is_valid_rejects_an_index_outside_the_dense_space() {
    let v = SparseVector { indices: vec![1, 65535], values: vec![1, 2] };
    assert!(!v.is_valid());
    let w = SparseVector { indices: vec![1, 65534], values: vec![1, 2] };
    assert!(w.is_valid());
}
