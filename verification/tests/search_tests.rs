//! The query engine: paged semantic search with hydration in ranked
//! order, point similarity with its not-found signal, and
//! recommendation by example.
use embedding_index::doc_embedding_operator::create_doc_group_embedding;
use embedding_index::doc_group_operator::ReaggregateTask;
use embedding_index::errors::ServiceError;
use embedding_index::handlers::{
    create_document_group, embed_document, recommend_document_group, semantic_search,
    similarity_to_single_vector, GroupDocumentRequest, IndexDocumentGroupRequest,
    IndexDocumentRequest, RecommendDocumentRequest, SemanticSearchRequest,
    SimilarityToSingleVectorRequest,
};
use embedding_index::relational_store::RelationalStore;
use embedding_index::search_operator::DocEmbeddingType;
use embedding_index::vector_store::VectorStore;

/// Indexes fifteen single-document stories whose vectors rank story
/// `i` with score `(i + 1) * 10` against the query `[1]`.
fn setup_fifteen_documents() -> (RelationalStore, VectorStore) {
    let mut pool = RelationalStore::new();
    let mut store = VectorStore::new();
    let mut tasks: Vec<ReaggregateTask> = Vec::new();
    for i in 0..15i64 {
        let request = IndexDocumentRequest {
            doc_html: format!("Story number {}.", i),
            story_id: i,
            index: 0,
        };
        embed_document(request, vec![vec![(i + 1) * 10]], &mut pool, &mut store, &mut tasks)
            .unwrap();
    }
    (pool, store)
}

#[test]
fn search_page_two_returns_ranked_hydrated_rows() {
    let (pool, store) = setup_fifteen_documents();
    let request = SemanticSearchRequest {
        doc_group_size: None,
        page: 2,
        query: "query text".to_string(),
    };
    let rows = semantic_search(request, vec![1], &pool, &store).unwrap();
    // fifteen documents, page size ten: page two holds ranked results
    // eleven through fifteen, in descending similarity order
    assert_eq!(rows.len(), 5);
    let expected_story_order = vec![4i64, 3, 2, 1, 0];
    for (row, expected) in rows.iter().zip(expected_story_order.iter()) {
        match row {
            DocEmbeddingType::DocEmbedding(d) => assert_eq!(d.story_id, *expected),
            DocEmbeddingType::DocGroupEmbedding(_) => panic!("expected a document row"),
        }
    }
}

#[test]
fn search_page_one_returns_the_best_ten() {
    let (pool, store) = setup_fifteen_documents();
    let request = SemanticSearchRequest {
        doc_group_size: None,
        page: 1,
        query: "query text".to_string(),
    };
    let rows = semantic_search(request, vec![1], &pool, &store).unwrap();
    assert_eq!(rows.len(), 10);
    let expected_story_order: Vec<i64> = (5..15).rev().collect();
    for (row, expected) in rows.iter().zip(expected_story_order.iter()) {
        match row {
            DocEmbeddingType::DocEmbedding(d) => assert_eq!(d.story_id, *expected),
            DocEmbeddingType::DocGroupEmbedding(_) => panic!("expected a document row"),
        }
    }
}

#[test]
fn similarity_returns_the_matching_points_score() {
    let (_pool, store) = setup_fifteen_documents();
    let request = SimilarityToSingleVectorRequest {
        query: "query text".to_string(),
        doc_group_size: None,
        index: 0,
        story_id: 7,
    };
    let score = similarity_to_single_vector(request, vec![1], &store).unwrap();
    assert_eq!(score, 80);
}

#[test]
fn similarity_misses_with_not_found() {
    let (_pool, store) = setup_fifteen_documents();
    let request = SimilarityToSingleVectorRequest {
        query: "query text".to_string(),
        doc_group_size: None,
        index: 3,
        story_id: 99,
    };
    let result = similarity_to_single_vector(request, vec![1], &store);
    assert_eq!(result.unwrap_err(), ServiceError::MatchingRecordNotFound);
}

#[test]
fn recommend_returns_other_stories_not_the_positives() {
    let mut pool = RelationalStore::new();
    let mut store = VectorStore::new();
    let mut tasks: Vec<ReaggregateTask> = Vec::new();
    create_document_group(GroupDocumentRequest { doc_group_size: 2 }, &mut store).unwrap();
    for (story, vectors) in [(1i64, [10i64, 20]), (2, [12, 14]), (3, [-50, -60])] {
        for (idx, v) in vectors.iter().enumerate() {
            let request = IndexDocumentRequest {
                doc_html: format!("Story {} document {}.", story, idx),
                story_id: story,
                index: idx as i32,
            };
            embed_document(request, vec![vec![*v]], &mut pool, &mut store, &mut tasks).unwrap();
        }
        create_doc_group_embedding(
            IndexDocumentGroupRequest::Story { story_id: story, doc_group_size: 2 },
            &mut pool,
            &mut store,
        )
        .unwrap();
    }
    // positives: story 1's aggregate [15]; candidates: story 2 ([13])
    // scoring 195, story 3 ([-55]) scoring -825 — best match first
    let request = RecommendDocumentRequest {
        doc_group_size: 2,
        story_ids: vec![1],
        limit: Some(5),
        page: None,
    };
    let stories = recommend_document_group(request, &pool, &store).unwrap();
    assert_eq!(stories, vec![2, 3]);
}

#[test]
fn search_of_missing_group_collection_is_an_error() {
    let (pool, store) = setup_fifteen_documents();
    let request = SemanticSearchRequest {
        doc_group_size: Some(4),
        page: 1,
        query: "query text".to_string(),
    };
    let result = semantic_search(request, vec![1], &pool, &store);
    assert_eq!(result.unwrap_err(), ServiceError::QdrantSearchError);
}

#[test]
fn similarity_with_width_one_probes_the_group_collection() {
    let mut pool = RelationalStore::new();
    let mut store = VectorStore::new();
    let mut tasks: Vec<ReaggregateTask> = Vec::new();
    create_document_group(GroupDocumentRequest { doc_group_size: 1 }, &mut store).unwrap();
    let request = IndexDocumentRequest {
        doc_html: "A document.".to_string(),
        story_id: 1,
        index: 0,
    };
    embed_document(request, vec![vec![10]], &mut pool, &mut store, &mut tasks).unwrap();
    create_doc_group_embedding(
        IndexDocumentGroupRequest::Story { story_id: 1, doc_group_size: 1 },
        &mut pool,
        &mut store,
    )
    .unwrap();
    // re-index the document without re-aggregating: the document point
    // now scores 50, the width-1 aggregate still 10
    let request = IndexDocumentRequest {
        doc_html: "A rewritten document.".to_string(),
        story_id: 1,
        index: 0,
    };
    embed_document(request, vec![vec![50]], &mut pool, &mut store, &mut tasks).unwrap();
    tasks.clear();

    let probe = SimilarityToSingleVectorRequest {
        query: "q".to_string(),
        doc_group_size: Some(1),
        index: 0,
        story_id: 1,
    };
    let score = similarity_to_single_vector(probe, vec![1], &store).unwrap();
    assert_eq!(score, 10, "a given width must probe that width's group collection");

    let probe = SimilarityToSingleVectorRequest {
        query: "q".to_string(),
        doc_group_size: None,
        index: 0,
        story_id: 1,
    };
    let score = similarity_to_single_vector(probe, vec![1], &store).unwrap();
    assert_eq!(score, 50);
}
