//! Row construction with minted identities and timestamps, and the
//! stable error codes.
use embedding_index::errors::ServiceError;
use embedding_index::models::{DocEmbedding, DocGroupEmbedding};

#[test]
fn from_details_mints_distinct_identities() {
    let a = DocEmbedding::from_details(None, "a".to_string(), 1, 0, None, None, None);
    let b = DocEmbedding::from_details(None, "b".to_string(), 1, 1, None, None, None);
    assert_ne!(a.id, b.id);
    assert_ne!(a.qdrant_point_id, b.qdrant_point_id);
    assert_ne!(a.id, a.qdrant_point_id);
}

#[test]
fn from_details_keeps_given_details() {
    let row = DocGroupEmbedding::from_details(Some(9), 5, 2, 1, Some(11), Some(100), Some(200));
    assert_eq!(row.id, 9);
    assert_eq!(row.story_id, 5);
    assert_eq!(row.doc_group_size, 2);
    assert_eq!(row.index, 1);
    assert_eq!(row.qdrant_point_id, 11);
    assert_eq!(row.created_at, 100);
    assert_eq!(row.updated_at, 200);
}

#[test]
fn from_details_timestamps_are_present_times() {
    let row = DocEmbedding::from_details(None, "x".to_string(), 1, 0, None, None, None);
    // microseconds since the epoch: far past the year 2000
    assert!(row.created_at > 946_684_800_000_000);
    assert!(row.updated_at > 946_684_800_000_000);
}

#[test]
fn error_responses_carry_stable_codes() {
    let r = ServiceError::EmptyDocumentError.error_response();
    assert_eq!(r.message, "Empty Document");
    assert_eq!(r.error_code, "0026");
    let r = ServiceError::NotImplemented.error_response();
    assert_eq!(r.error_code, "0420");
    let r = ServiceError::InvalidAPIKey.error_response();
    assert_eq!(r.error_code, "0001");
    let r = ServiceError::UpsertDocEmbeddingQdrantError.error_response();
    assert_eq!(r.error_code, "0006");
    let r = ServiceError::MatchingRecordNotFound.error_response();
    assert_eq!(r.error_code, "0019");
    // each variant carries its own code
    let a = ServiceError::InsertDocGroupEmbeddingPgError.error_response();
    let b = ServiceError::QdrantSimilarityTopFilteredPointError.error_response();
    assert_eq!(a.error_code, "0018");
    assert_eq!(b.error_code, "0030");
    assert_ne!(a.error_code, b.error_code);
}
