//! Fault injection: every store failure surfaces as its tagged error,
//! and a failed operation leaves the documented state behind.
use embedding_index::doc_embedding_operator::create_doc_group_embedding;
use embedding_index::doc_group_operator::{re_index_appropriate_doc_groups, ReaggregateTask};
use embedding_index::errors::ServiceError;
use embedding_index::handlers::{
    create_document_group, embed_document, recommend_document_group, semantic_search,
    GroupDocumentRequest, IndexDocumentGroupRequest, IndexDocumentRequest,
    RecommendDocumentRequest, SemanticSearchRequest,
};
use embedding_index::relational_store::RelationalStore;
use embedding_index::vector_store::VectorStore;

fn one_document() -> (RelationalStore, VectorStore, Vec<ReaggregateTask>) {
    let mut pool = RelationalStore::new();
    let mut store = VectorStore::new();
    let mut tasks: Vec<ReaggregateTask> = Vec::new();
    create_document_group(GroupDocumentRequest { doc_group_size: 2 }, &mut store).unwrap();
    let request = IndexDocumentRequest {
        doc_html: "A document.".to_string(),
        story_id: 1,
        index: 0,
    };
    embed_document(request, vec![vec![10]], &mut pool, &mut store, &mut tasks).unwrap();
    (pool, store, tasks)
}

fn update_request() -> IndexDocumentRequest {
    IndexDocumentRequest {
        doc_html: "A rewritten document.".to_string(),
        story_id: 1,
        index: 0,
    }
}

#[test]
fn relational_upsert_failure_aborts_before_any_write() {
    let (mut pool, mut store, mut tasks) = one_document();
    pool.fail_upsert = true;
    let result = embed_document(update_request(), vec![vec![1]], &mut pool, &mut store, &mut tasks);
    assert_eq!(result.unwrap_err(), ServiceError::UpsertDocEmbeddingPgError);
    assert_eq!(pool.docs.len(), 1);
    assert_eq!(pool.docs[0].doc_html, "A document.");
    assert_eq!(store.doc_collection.points.len(), 1);
    assert!(tasks.is_empty());
}

#[test]
fn vector_delete_failure_compensates_by_deleting_the_row() {
    let (mut pool, mut store, mut tasks) = one_document();
    store.fail_delete = true;
    let result = embed_document(update_request(), vec![vec![1]], &mut pool, &mut store, &mut tasks);
    assert_eq!(result.unwrap_err(), ServiceError::DeleteDocEmbeddingQdrantError);
    // the vector index is untouched, and the overwritten row is gone
    assert_eq!(store.doc_collection.points.len(), 1);
    assert!(pool.docs.is_empty());
    // the task had already been enqueued before the vector write
    assert_eq!(tasks, vec![ReaggregateTask { story_id: 1, index: 0 }]);
}

#[test]
fn failed_compensation_surfaces_the_relational_delete_error() {
    let (mut pool, mut store, mut tasks) = one_document();
    store.fail_upsert = true;
    pool.fail_delete = true;
    let result = embed_document(update_request(), vec![vec![1]], &mut pool, &mut store, &mut tasks);
    assert_eq!(result.unwrap_err(), ServiceError::DeleteDocEmbeddingError);
    // the overwritten row could not be compensated away
    assert_eq!(pool.docs.len(), 1);
    assert_eq!(pool.docs[0].doc_html, "A rewritten document.");
    // the old point had already been deleted
    assert!(store.doc_collection.points.is_empty());
}

#[test]
fn select_failure_tags_the_reading_operation() {
    let (mut pool, mut store, _tasks) = one_document();
    pool.fail_select = true;

    let result = create_doc_group_embedding(
        IndexDocumentGroupRequest::Story { story_id: 1, doc_group_size: 2 },
        &mut pool,
        &mut store,
    );
    assert_eq!(result.unwrap_err(), ServiceError::GetDocEmbeddingsPgError);

    let result = re_index_appropriate_doc_groups(1, 0, &mut pool, &mut store);
    assert_eq!(result.unwrap_err(), ServiceError::SelectUniqueDocGroupSizesPgError);

    let request = SemanticSearchRequest {
        doc_group_size: None,
        page: 1,
        query: "q".to_string(),
    };
    let result = semantic_search(request, vec![1], &pool, &store);
    assert_eq!(result.unwrap_err(), ServiceError::PgSearchError);

    let request = RecommendDocumentRequest {
        doc_group_size: 2,
        story_ids: vec![1],
        limit: None,
        page: None,
    };
    let result = recommend_document_group(request, &pool, &store);
    assert_eq!(result.unwrap_err(), ServiceError::SelectDocGroupQdrantIdsPgError);
}

#[test]
fn scroll_failure_tags_the_vector_fetch() {
    let (mut pool, mut store, _tasks) = one_document();
    store.fail_scroll = true;
    let result = create_doc_group_embedding(
        IndexDocumentGroupRequest::Story { story_id: 1, doc_group_size: 2 },
        &mut pool,
        &mut store,
    );
    assert_eq!(result.unwrap_err(), ServiceError::ScrollDocEmbeddingQdrantError);
}

#[test]
fn group_upsert_failures_tag_their_stores() {
    let (mut pool, mut store, _tasks) = one_document();

    store.fail_upsert = true;
    let result = create_doc_group_embedding(
        IndexDocumentGroupRequest::Story { story_id: 1, doc_group_size: 2 },
        &mut pool,
        &mut store,
    );
    assert_eq!(result.unwrap_err(), ServiceError::UpsertDocGroupEmbeddingQdrantError);
    store.fail_upsert = false;

    pool.fail_upsert = true;
    let result = create_doc_group_embedding(
        IndexDocumentGroupRequest::Story { story_id: 1, doc_group_size: 2 },
        &mut pool,
        &mut store,
    );
    assert_eq!(result.unwrap_err(), ServiceError::InsertDocGroupEmbeddingPgError);
}

#[test]
fn search_and_recommend_failures_tag_the_index() {
    let (pool, mut store, _tasks) = one_document();

    store.fail_search = true;
    let request = SemanticSearchRequest {
        doc_group_size: None,
        page: 1,
        query: "q".to_string(),
    };
    let result = semantic_search(request, vec![1], &pool, &store);
    assert_eq!(result.unwrap_err(), ServiceError::QdrantSearchError);
    store.fail_search = false;

    store.fail_recommend = true;
    let request = RecommendDocumentRequest {
        doc_group_size: 2,
        story_ids: vec![1],
        limit: None,
        page: None,
    };
    let result = recommend_document_group(request, &pool, &store);
    assert_eq!(result.unwrap_err(), ServiceError::RecommendQdrantDocEmbeddingGroupError);
}

#[test]
fn maintainer_range_select_failure_is_tagged() {
    let (mut pool, mut store, _tasks) = one_document();
    create_doc_group_embedding(
        IndexDocumentGroupRequest::Story { story_id: 1, doc_group_size: 2 },
        &mut pool,
        &mut store,
    )
    .unwrap();
    let result = embedding_index::doc_group_operator::get_single_vectors_to_re_average(
        1,
        2,
        0,
        &{
            let mut p = RelationalStore::new();
            p.fail_select = true;
            p
        },
        &store,
    );
    assert_eq!(result.unwrap_err(), ServiceError::SelectDocEmbeddingsQdrantIdsPgError);
}
