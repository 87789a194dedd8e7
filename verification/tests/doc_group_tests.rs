//! The dual-store write protocol and the group aggregation paths:
//! full-story aggregation, selective re-aggregation after an update,
//! and the forward-only compensation under a vector-store failure.
use embedding_index::doc_group_operator::{re_index_appropriate_doc_groups, ReaggregateTask};
use embedding_index::doc_embedding_operator::create_doc_group_embedding;
use embedding_index::errors::ServiceError;
use embedding_index::handlers::{
    create_document_group, embed_document, GroupDocumentRequest, IndexDocumentGroupRequest,
    IndexDocumentRequest,
};
use embedding_index::models::DocGroupEmbedding;
use embedding_index::relational_store::DocGroupQdrantPointIdContainer;
use embedding_index::vector_store::insert_doc_group_embedding_qdrant_query;
use embedding_index::relational_store::RelationalStore;
use embedding_index::vector_store::{VectorPoint, VectorStore};

const STORY: i64 = 7;

fn doc_vector(i: i64) -> Vec<i64> {
    vec![(i + 1) * 1000, i]
}

/// Indexes ten single documents (index 0..9) for one story and
/// registers the width-2 group collection.
fn setup_ten_documents() -> (RelationalStore, VectorStore, Vec<ReaggregateTask>) {
    let mut pool = RelationalStore::new();
    let mut store = VectorStore::new();
    let mut tasks: Vec<ReaggregateTask> = Vec::new();
    create_document_group(GroupDocumentRequest { doc_group_size: 2 }, &mut store).unwrap();
    for i in 0..10i32 {
        let request = IndexDocumentRequest {
            doc_html: format!("Document number {}.", i),
            story_id: STORY,
            index: i,
        };
        let embedding = embed_document(
            request,
            vec![doc_vector(i as i64)],
            &mut pool,
            &mut store,
            &mut tasks,
        )
        .unwrap();
        assert_eq!(embedding, doc_vector(i as i64));
    }
    assert!(tasks.is_empty(), "first inserts must not enqueue re-aggregation");
    (pool, store, tasks)
}

fn group_row(pool: &RelationalStore, index: i32) -> DocGroupEmbedding {
    *pool
        .groups
        .iter()
        .find(|g| g.story_id == STORY && g.doc_group_size == 2 && g.index == index)
        .expect("group row missing")
}

fn group_point(store: &VectorStore, id: u128) -> VectorPoint {
    let collection = store
        .group_collections
        .iter()
        .find(|c| c.doc_group_size == 2)
        .expect("collection missing");
    let p = collection
        .collection
        .points
        .iter()
        .find(|p| p.id == id)
        .expect("group point missing");
    VectorPoint {
        id: p.id,
        vector: p.vector.clone(),
        story_id: p.story_id,
        index: p.index,
        doc_group_size: p.doc_group_size,
    }
}

#[test]
fn test_index_document_group() {
    // ten documents, width 2: exactly five group rows, each vector the
    // average of its two constituent document vectors
    let (mut pool, mut store, _tasks) = setup_ten_documents();
    create_doc_group_embedding(
        IndexDocumentGroupRequest::Story { story_id: STORY, doc_group_size: 2 },
        &mut pool,
        &mut store,
    )
    .unwrap();

    assert_eq!(pool.groups.len(), 5);
    for j in 0..5i32 {
        let row = group_row(&pool, j);
        assert_eq!(row.story_id, STORY);
        assert_eq!(row.doc_group_size, 2);
        let point = group_point(&store, row.qdrant_point_id);
        let a = doc_vector(2 * j as i64);
        let b = doc_vector(2 * j as i64 + 1);
        let expected: Vec<i64> = a.iter().zip(b.iter()).map(|(x, y)| (x + y) / 2).collect();
        assert_eq!(point.vector, expected);
        assert_eq!(point.story_id, STORY);
        assert_eq!(point.index, j);
    }
}

#[test]
fn updating_one_document_recomputes_only_its_group() {
    let (mut pool, mut store, mut tasks) = setup_ten_documents();
    create_doc_group_embedding(
        IndexDocumentGroupRequest::Story { story_id: STORY, doc_group_size: 2 },
        &mut pool,
        &mut store,
    )
    .unwrap();

    let rows_before: Vec<DocGroupEmbedding> = (0..5).map(|j| group_row(&pool, j)).collect();
    let points_before: Vec<VectorPoint> =
        rows_before.iter().map(|r| group_point(&store, r.qdrant_point_id)).collect();

    // update document index 3: the write succeeds and enqueues the
    // detached re-aggregation task
    let request = IndexDocumentRequest {
        doc_html: "Rewritten document three.".to_string(),
        story_id: STORY,
        index: 3,
    };
    embed_document(request, vec![vec![999_000, 77]], &mut pool, &mut store, &mut tasks).unwrap();
    assert_eq!(tasks.len(), 1);
    let task = tasks.pop().unwrap();
    assert_eq!(task, ReaggregateTask { story_id: STORY, index: 3 });

    re_index_appropriate_doc_groups(task.story_id, task.index, &mut pool, &mut store).unwrap();

    assert_eq!(pool.groups.len(), 5);
    for j in 0..5i32 {
        let row = group_row(&pool, j);
        if j == 1 {
            // the recomputed group reuses its previous point identity
            assert_eq!(row.qdrant_point_id, rows_before[1].qdrant_point_id);
            let point = group_point(&store, row.qdrant_point_id);
            // the fetched member range [2, 3) holds document 2
            // alone, per the engine's range check
            assert_eq!(point.vector, doc_vector(2));
        } else {
            let before = &rows_before[j as usize];
            let after = row;
            assert_eq!(after.id, before.id);
            assert_eq!(after.qdrant_point_id, before.qdrant_point_id);
            assert_eq!(after.created_at, before.created_at);
            assert_eq!(after.updated_at, before.updated_at);
            let point = group_point(&store, after.qdrant_point_id);
            assert_eq!(point.vector, points_before[j as usize].vector);
        }
    }
}

#[test]
fn failed_vector_write_during_update_deletes_the_row() {
    let (mut pool, mut store, mut tasks) = setup_ten_documents();

    let old_point_id = pool
        .docs
        .iter()
        .find(|d| d.story_id == STORY && d.index == 3)
        .unwrap()
        .qdrant_point_id;

    store.fail_upsert = true;
    let request = IndexDocumentRequest {
        doc_html: "Rewritten document three.".to_string(),
        story_id: STORY,
        index: 3,
    };
    let result = embed_document(request, vec![vec![1, 2]], &mut pool, &mut store, &mut tasks);
    assert_eq!(result.unwrap_err(), ServiceError::UpsertDocEmbeddingQdrantError);

    // forward-only compensation: the document no longer exists
    assert!(pool.docs.iter().all(|d| !(d.story_id == STORY && d.index == 3)));
    assert_eq!(pool.docs.len(), 9);
    // the old point was deleted before the insert failed
    assert!(store.doc_collection.points.iter().all(|p| p.id != old_point_id));
}

#[test]
fn failed_vector_write_on_first_insert_leaves_orphan_row() {
    let mut pool = RelationalStore::new();
    let mut store = VectorStore::new();
    let mut tasks: Vec<ReaggregateTask> = Vec::new();
    store.fail_upsert = true;
    let request = IndexDocumentRequest {
        doc_html: "A fresh document.".to_string(),
        story_id: STORY,
        index: 0,
    };
    let result = embed_document(request, vec![vec![5]], &mut pool, &mut store, &mut tasks);
    assert_eq!(result.unwrap_err(), ServiceError::UpsertDocEmbeddingQdrantError);
    // the orphaned relational row stays; no vector point exists
    assert_eq!(pool.docs.len(), 1);
    assert!(store.doc_collection.points.is_empty());
    assert!(tasks.is_empty());
}

#[test]
fn empty_document_is_rejected_before_any_write() {
    let mut pool = RelationalStore::new();
    let mut store = VectorStore::new();
    let mut tasks: Vec<ReaggregateTask> = Vec::new();
    let request = IndexDocumentRequest {
        doc_html: "<p></p>".to_string(),
        story_id: STORY,
        index: 0,
    };
    let result = embed_document(request, vec![vec![5]], &mut pool, &mut store, &mut tasks);
    assert_eq!(result.unwrap_err(), ServiceError::EmptyDocumentError);
    assert!(pool.docs.is_empty());
    assert!(store.doc_collection.points.is_empty());
}

#[test]
fn non_story_scopes_are_not_implemented() {
    let mut pool = RelationalStore::new();
    let mut store = VectorStore::new();
    let result = create_doc_group_embedding(
        IndexDocumentGroupRequest::All { doc_group_size: 2 },
        &mut pool,
        &mut store,
    );
    assert_eq!(result.unwrap_err(), ServiceError::NotImplemented);
    let result = create_doc_group_embedding(
        IndexDocumentGroupRequest::Stories { doc_group_size: 2, story_ids: vec![1, 2] },
        &mut pool,
        &mut store,
    );
    assert_eq!(result.unwrap_err(), ServiceError::NotImplemented);
}

#[test]
fn full_aggregation_after_update_groups_by_document_index() {
    // an update moves the document's point to the end of the vector
    // collection; a later full aggregation must still assemble each
    // group from the documents whose index lies in its range
    let (mut pool, mut store, mut tasks) = setup_ten_documents();
    let request = IndexDocumentRequest {
        doc_html: "Rewritten document three.".to_string(),
        story_id: STORY,
        index: 3,
    };
    embed_document(request, vec![vec![999_000, 77]], &mut pool, &mut store, &mut tasks).unwrap();
    tasks.clear();

    create_doc_group_embedding(
        IndexDocumentGroupRequest::Story { story_id: STORY, doc_group_size: 2 },
        &mut pool,
        &mut store,
    )
    .unwrap();

    assert_eq!(pool.groups.len(), 5);
    for j in 0..5i32 {
        let row = group_row(&pool, j);
        let point = group_point(&store, row.qdrant_point_id);
        let a = if 2 * j == 3 { vec![999_000, 77] } else { doc_vector(2 * j as i64) };
        let b = if 2 * j + 1 == 3 { vec![999_000, 77] } else { doc_vector(2 * j as i64 + 1) };
        let expected: Vec<i64> = a.iter().zip(b.iter()).map(|(x, y)| (x + y) / 2).collect();
        assert_eq!(point.vector, expected, "group {} must average documents {} and {}", j, 2 * j, 2 * j + 1);
    }
}

#[test]
fn batch_point_insert_reuses_known_identities() {
    let mut store = VectorStore::new();
    create_document_group(GroupDocumentRequest { doc_group_size: 2 }, &mut store).unwrap();
    let existing = vec![DocGroupQdrantPointIdContainer {
        qdrant_point_id: 42,
        doc_group_size: 2,
        index: 1,
    }];
    let vectors = vec![vec![1i64], vec![2], vec![3]];
    let points =
        insert_doc_group_embedding_qdrant_query(existing, vectors, STORY, 2, &mut store).unwrap();
    assert_eq!(points.len(), 3);
    assert_eq!(points[1].id, 42);
    for (j, p) in points.iter().enumerate() {
        assert_eq!(p.index, j as i32);
        assert_eq!(p.story_id, STORY);
        assert_eq!(p.vector, vec![j as i64 + 1]);
    }
    let collection = store.group_collections.iter().find(|c| c.doc_group_size == 2).unwrap();
    assert_eq!(collection.collection.points.len(), 3);
}
