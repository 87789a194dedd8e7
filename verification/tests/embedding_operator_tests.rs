//! Averaging behavior: the elementwise mean, batched averaging, and
//! the consistency errors. Fixed-point components carry one thousandth
//! units, so 2.5 is written 2500.
use embedding_index::embedding_operator::{average_embeddings, group_average_embeddings};
use embedding_index::errors::ServiceError;

fn scaled(values: &[f64]) -> Vec<i64> {
    values.iter().map(|v| (v * 1000.0).round() as i64).collect()
}

#[test]
pub fn test_average_embeddings() {
    let embeddings = vec![
        scaled(&[3.0, 2.5, 1.0]),
        scaled(&[1.0, 2.5, 1.0]),
        scaled(&[2.0, 2.5, 1.0]),
        scaled(&[2.0, 2.5, 1.0]),
    ];

    let result = average_embeddings(&embeddings).unwrap();
    assert!(result == scaled(&[2.0, 2.5, 1.0]));
}

#[test]
pub fn test_group_average_embeddings() {
    let embeddings = vec![
        scaled(&[3.0, 2.5, 1.0]),
        scaled(&[1.0, 2.5, 1.0]),
        scaled(&[2.0, 2.5, 1.0]),
        scaled(&[2.0, 2.5, 1.0]),
    ];
    let result = group_average_embeddings(&embeddings, 2).unwrap();

    assert!(result == vec![scaled(&[2.0, 2.5, 1.0]), scaled(&[2.0, 2.5, 1.0])]);
}

#[test]
fn average_of_singleton_is_identity() {
    let v = vec![7i64, -3, 0, 1000];
    let result = average_embeddings(&vec![v.clone()]).unwrap();
    assert_eq!(result, v);
}

#[test]
fn average_is_arithmetic_mean() {
    let embeddings = vec![vec![1i64, -9], vec![3, -3], vec![5, 0]];
    let result = average_embeddings(&embeddings).unwrap();
    assert_eq!(result, vec![3, -4]);
}

#[test]
fn average_of_empty_list_is_consistency_error() {
    let embeddings: Vec<Vec<i64>> = vec![];
    let result = average_embeddings(&embeddings);
    assert_eq!(result.unwrap_err(), ServiceError::EmbeddingAveragingError);
}

#[test]
fn average_of_mismatched_dimensions_is_consistency_error() {
    let embeddings = vec![vec![1i64, 2], vec![3]];
    let result = average_embeddings(&embeddings);
    assert_eq!(result.unwrap_err(), ServiceError::VectorToArrayError);
}

#[test]
fn batched_average_has_ceil_len_and_batch_means() {
    let embeddings = vec![vec![2i64], vec![4], vec![6], vec![8], vec![10]];
    let result = group_average_embeddings(&embeddings, 2).unwrap();
    assert_eq!(result.len(), 3);
    assert_eq!(result[0], vec![3]);
    assert_eq!(result[1], vec![7]);
    assert_eq!(result[2], vec![10]);
}

#[test]
fn batched_average_of_empty_input_is_empty() {
    let embeddings: Vec<Vec<i64>> = vec![];
    let result = group_average_embeddings(&embeddings, 3).unwrap();
    assert!(result.is_empty());
}
