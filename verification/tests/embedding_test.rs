//! Indexing one document end to end through the library.
use embedding_index::doc_group_operator::ReaggregateTask;
use embedding_index::handlers::{embed_document, IndexDocumentRequest};
use embedding_index::relational_store::RelationalStore;
use embedding_index::vector_store::VectorStore;

#[test]
fn test_index_document() {
    let mut pool = RelationalStore::new();
    let mut store = VectorStore::new();
    let mut tasks: Vec<ReaggregateTask> = Vec::new();
    let request = IndexDocumentRequest {
        doc_html: "<h1>Title</h1><p>The first paragraph. The second one.</p>".to_string(),
        story_id: 1,
        index: 0,
    };
    let embedding =
        embed_document(request, vec![vec![3, 4], vec![5, 6]], &mut pool, &mut store, &mut tasks)
            .unwrap();
    assert_eq!(embedding, vec![4, 5]);
    assert_eq!(pool.docs.len(), 1);
    let row = &pool.docs[0];
    assert_eq!(row.story_id, 1);
    assert_eq!(row.index, 0);
    assert_eq!(store.doc_collection.points.len(), 1);
    let point = &store.doc_collection.points[0];
    assert_eq!(point.id, row.qdrant_point_id);
    assert_eq!(point.vector, vec![4, 5]);
    assert!(tasks.is_empty());
}
