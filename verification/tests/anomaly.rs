use iii_observability::{causality_matrix, correlation_matrix};

fn series() -> Vec<(String, Vec<f64>)> {
    vec![
        ("a".to_string(), vec![1.0, 2.0, 3.0, 4.0, 5.0]),
        ("b".to_string(), vec![2.0, 4.0, 6.0, 8.0, 10.0]),
        ("c".to_string(), vec![5.0, 4.0, 3.0, 2.0, 1.0]),
    ]
}

// The layout of the matrices does not depend on the measure; a stand-in
// measure (difference of the last samples) is used below.
fn stand_in(a: &[f64], b: &[f64]) -> f64 {
    a[a.len() - 1] - b[b.len() - 1]
}

#[test]
fn test_causality_matrix_size() {
    let metrics = series();
    let matrix = causality_matrix(metrics.len(), 0.0, |i, j| stand_in(&metrics[i].1, &metrics[j].1));
    assert_eq!(matrix.len(), 3);
    assert_eq!(matrix[0].len(), 3);
}

#[test]
fn test_causality_matrix_empty() {
    let matrix = causality_matrix(0, 0.0, |_i, _j| 1.0);
    assert!(matrix.is_empty());
}

#[test]
fn test_causality_matrix_diagonal_zero() {
    let metrics = vec![
        ("a".to_string(), vec![1.0, 2.0, 3.0, 4.0, 5.0]),
        ("b".to_string(), vec![2.0, 4.0, 6.0, 8.0, 10.0]),
    ];
    let matrix = causality_matrix(metrics.len(), 0.0, |i, j| stand_in(&metrics[i].1, &metrics[j].1));
    assert_eq!(matrix[0][0], 0.0);
    assert_eq!(matrix[1][1], 0.0);
}

#[test]
fn test_correlation_matrix_symmetric() {
    let metrics = vec![
        ("a".to_string(), vec![1.0, 2.0, 3.0, 4.0, 5.0]),
        ("b".to_string(), vec![2.0, 4.0, 6.0, 8.0, 10.0]),
    ];
    let matrix = correlation_matrix(
        metrics.len(),
        |i| metrics[i].1[0],
        |i, j| stand_in(&metrics[i].1, &metrics[j].1),
    );
    assert!((matrix[0][1] - matrix[1][0]).abs() < 1e-10, "correlation matrix should be symmetric");
}

#[test]
fn test_correlation_matrix_empty() {
    let matrix = correlation_matrix(0, |_i| 1.0, |_i, _j| 2.0);
    assert!(matrix.is_empty());
}

// ---- Further cases ----

#[test]
fn causality_entries_are_directed() {
    let m = causality_matrix(3, -1, |i, j| (10 * i + j) as i64);
    assert_eq!(m, vec![vec![-1, 1, 2], vec![10, -1, 12], vec![20, 21, -1]]);
}

#[test]
fn correlation_each_pair_once_and_mirrored() {
    let calls = std::cell::Cell::new(0);
    let m = correlation_matrix(
        3,
        |i| 100 + i as i64,
        |i, j| {
            calls.set(calls.get() + 1);
            (10 * i + j) as i64
        },
    );
    assert_eq!(m, vec![vec![100, 1, 2], vec![1, 101, 12], vec![2, 12, 102]]);
    assert_eq!(calls.get(), 3);
}
