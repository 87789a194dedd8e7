//! The operations exposed to callers — the dual-store document write
//! protocol, the query entry points — and the request shapes they
//! take. The transport boundary (HTTP, the embedding provider call)
//! lives outside the engine; these functions take the provider's
//! chunk embeddings as plain values and drive the stores.
use crate::doc_group_operator::ReaggregateTask;
use crate::embedding_operator::{average_embeddings, avg_ok, spec_average};
use crate::errors::ServiceError;
use crate::models::{DocEmbedding, DocEmbeddingV};
use crate::parse_operator::{chunk_document, spec_segment, strip_of};
use crate::relational_store::{
    delete_doc_embedding_pg_query, find_doc, get_doc_group_qdrant_ids_pg_query,
    lemma_find_doc_characterization, lemma_find_doc_same_keys, merged_doc_row,
    upsert_doc_embedding_pg_query, RelationalStore,
};
use crate::search_operator::{get_docs_by_point_id, hydrate_docs, hydrate_groups, DocEmbeddingType};
use crate::vector_store::{
    delete_reinsert_doc_embedding_qdrant_query, matching_points, page_of, points_without_id,
    recommend_group_doc_embeddings_qdrant_query, search_qdrant_query,
    similarity_top_filtered_point, spec_rank, upsert_point, VectorPointV, VectorStore,
};
use vstd::prelude::*;

verus! {

/// Witness that a request carried a valid key; the check itself is
/// made at the transport boundary, outside the engine.
pub struct AuthRequired {}

/// A request to index one document of a story.
pub struct IndexDocumentRequest {
    pub doc_html: String,
    pub story_id: i64,
    pub index: i32,
}

/// A request to create the group collection of one aggregation width.
#[derive(Clone, Copy, PartialEq, Eq, Structural)]
pub struct GroupDocumentRequest {
    pub doc_group_size: i32,
}

/// The scope of a group-indexing request: every story, a set of
/// stories, or a single story. Only the single-story scope's
/// aggregation is specified end to end; the other two are
/// acknowledged gaps and are refused rather than guessed at.
#[derive(Clone)]
pub enum IndexDocumentGroupRequest {
    Stories { doc_group_size: i32, story_ids: Vec<i64> },
    Story { story_id: i64, doc_group_size: i32 },
    All { doc_group_size: i32 },
}

/// A request for the group aggregates of one story and width.
#[derive(Clone, Copy, PartialEq, Eq, Structural)]
pub struct GetDocumentGroupRequest {
    pub doc_group_size: i32,
    pub story_id: i64,
}

/// A request to recommend stories similar to the given ones.
pub struct RecommendDocumentRequest {
    pub doc_group_size: i32,
    pub story_ids: Vec<i64>,
    pub limit: Option<u64>,
    pub page: Option<u64>,
}

/// A semantic search over documents, or over the aggregates of one
/// width.
pub struct SemanticSearchRequest {
    pub doc_group_size: Option<i32>,
    pub page: u64,
    pub query: String,
}

/// A similarity probe against the one point of a story position.
pub struct SimilarityToSingleVectorRequest {
    pub query: String,
    pub doc_group_size: Option<i32>,
    pub index: i64,
    pub story_id: i64,
}

/// The payload sent to the embedding provider: the chunk texts.
pub struct CustomServerData {
    pub input: Vec<String>,
}

/// How the document table changes when one row is written: appended
/// under a fresh key, merged in place at an existing key.
pub open spec fn doc_row_written(
    old_docs: Seq<DocEmbeddingV>,
    new_docs: Seq<DocEmbeddingV>,
    row: DocEmbeddingV,
) -> bool {
    let i = find_doc(old_docs, row.story_id, row.index);
    new_docs == (if i == -1 {
        old_docs.push(row)
    } else {
        old_docs.update(i, merged_doc_row(old_docs[i], row))
    })
}

/// The document point that replaces a document's previous one.
pub open spec fn new_doc_point(row: DocEmbeddingV, vector: Seq<i64>) -> VectorPointV {
    VectorPointV {
        id: row.qdrant_point_id,
        vector: vector,
        story_id: row.story_id,
        index: row.index,
        doc_group_size: None,
    }
}

/// Indexes one document: segments its content, averages the provided
/// per-chunk embeddings into the document vector, commits the
/// relational row first under a freshly minted point identity, then
/// replaces the document's vector point (delete of the old point,
/// insert at the new identity). An update — not a first insert —
/// enqueues the detached re-aggregation of the document's groups
/// before the vector write. If the vector write fails after the row
/// of a pre-existing document was overwritten, the row is deleted
/// entirely (forward-only compensation); for a brand-new document a
/// vector-write failure leaves the orphaned row in place.
pub fn embed_document(
    document: IndexDocumentRequest,
    chunk_embeddings: Vec<Vec<i64>>,
    pool: &mut RelationalStore,
    store: &mut VectorStore,
    tasks: &mut Vec<ReaggregateTask>,
) -> (r: Result<Vec<i64>, ServiceError>)
    requires
        old(pool).wf(),
    ensures
        final(pool).wf(),
        final(pool).faults() == old(pool).faults(),
        final(store).faults() == old(store).faults(),
        final(pool).groups_v() == old(pool).groups_v(),
        final(store).group_collections@ == old(store).group_collections@,
        ({
            let chunks = spec_segment(strip_of(document.doc_html@));
            let ces = chunk_embeddings@.map_values(|v: Vec<i64>| v@);
            let docs = old(pool).docs_v();
            let i = find_doc(docs, document.story_id, document.index);
            let enqueued = (if i != -1 {
                seq![ReaggregateTask { story_id: document.story_id, index: document.index }]
            } else {
                Seq::<ReaggregateTask>::empty()
            });
            match r {
                Ok(emb) => {
                    &&& chunks.len() > 0
                    &&& avg_ok(ces)
                    &&& emb@ == spec_average(ces)
                    &&& !old(pool).fail_select && !old(pool).fail_upsert
                    &&& !old(store).fail_upsert
                    &&& (i != -1 ==> !old(store).fail_delete)
                    &&& final(tasks)@ == old(tasks)@ + enqueued
                    &&& exists|row: DocEmbeddingV|
                        {
                            &&& #[trigger] doc_row_written(docs, final(pool).docs_v(), row)
                            &&& row.story_id == document.story_id
                            &&& row.index == document.index
                            &&& row.doc_html == document.doc_html@
                            &&& final(store).doc_points() == upsert_point(
                                (if i == -1 {
                                    old(store).doc_points()
                                } else {
                                    points_without_id(
                                        old(store).doc_points(),
                                        docs[i].qdrant_point_id,
                                    )
                                }),
                                new_doc_point(row, spec_average(ces)),
                            )
                        }
                },
                Err(e) => {
                    if chunks.len() == 0 {
                        &&& e == ServiceError::EmptyDocumentError
                        &&& final(pool).docs_v() == docs
                        &&& final(store).doc_points() == old(store).doc_points()
                        &&& final(tasks)@ == old(tasks)@
                    } else if !avg_ok(ces) {
                        &&& e == (if ces.len() == 0 {
                            ServiceError::EmbeddingAveragingError
                        } else {
                            ServiceError::VectorToArrayError
                        })
                        &&& final(pool).docs_v() == docs
                        &&& final(store).doc_points() == old(store).doc_points()
                        &&& final(tasks)@ == old(tasks)@
                    } else if old(pool).fail_select || old(pool).fail_upsert {
                        &&& e == ServiceError::UpsertDocEmbeddingPgError
                        &&& final(pool).docs_v() == docs
                        &&& final(store).doc_points() == old(store).doc_points()
                        &&& final(tasks)@ == old(tasks)@
                    } else if i != -1 && old(store).fail_delete {
                        // the vector write failed before touching the index;
                        // the compensation then removed the overwritten row,
                        // unless the relational delete itself failed
                        &&& final(tasks)@ == old(tasks)@ + enqueued
                        &&& final(store).doc_points() == old(store).doc_points()
                        &&& (if old(pool).fail_delete {
                            &&& e == ServiceError::DeleteDocEmbeddingError
                            &&& exists|row: DocEmbeddingV|
                                #[trigger] doc_row_written(docs, final(pool).docs_v(), row)
                                    && row.story_id == document.story_id && row.index
                                    == document.index
                        } else {
                            &&& e == ServiceError::DeleteDocEmbeddingQdrantError
                            &&& final(pool).docs_v() == docs.remove(i)
                        })
                    } else {
                        // the old point (if any) was deleted, then the insert
                        // of the new point failed
                        &&& old(store).fail_upsert
                        &&& final(tasks)@ == old(tasks)@ + enqueued
                        &&& (if i == -1 {
                            // brand-new document: the orphaned row stays
                            &&& e == ServiceError::UpsertDocEmbeddingQdrantError
                            &&& final(store).doc_points() == old(store).doc_points()
                            &&& exists|row: DocEmbeddingV|
                                #[trigger] doc_row_written(docs, final(pool).docs_v(), row)
                                    && row.story_id == document.story_id && row.index
                                    == document.index && row.doc_html == document.doc_html@
                        } else {
                            &&& final(store).doc_points() == points_without_id(
                                old(store).doc_points(),
                                docs[i].qdrant_point_id,
                            )
                            &&& (if old(pool).fail_delete {
                                &&& e == ServiceError::DeleteDocEmbeddingError
                                &&& exists|row: DocEmbeddingV|
                                    #[trigger] doc_row_written(docs, final(pool).docs_v(), row)
                                        && row.story_id == document.story_id && row.index
                                        == document.index
                            } else {
                                &&& e == ServiceError::UpsertDocEmbeddingQdrantError
                                &&& final(pool).docs_v() == docs.remove(i)
                            })
                        })
                    }
                },
            }
        }),
{
    let ghost docs0 = old(pool).docs_v();
    let doc_chunks = chunk_document(document.doc_html.as_str());
    if doc_chunks.len() == 0 {
        return Err(ServiceError::EmptyDocumentError);
    }
    let embedding = match average_embeddings(&chunk_embeddings) {
        Ok(a) => a,
        Err(e) => {
            return Err(e);
        },
    };
    let doc_embedding_to_upsert = DocEmbedding::from_details(
        None,
        document.doc_html,
        document.story_id,
        document.index,
        None,
        None,
        None,
    );
    let ghost row_v = doc_embedding_to_upsert@;
    let qdrant_point_id_to_delete = match upsert_doc_embedding_pg_query(
        doc_embedding_to_upsert.duplicate(),
        pool,
    ) {
        Ok(prev) => prev,
        Err(e) => {
            return Err(e);
        },
    };
    let ghost fi = find_doc(docs0, document.story_id, document.index);
    let ghost task = ReaggregateTask { story_id: document.story_id, index: document.index };
    if qdrant_point_id_to_delete.is_some() {
        tasks.push(
            ReaggregateTask { story_id: doc_embedding_to_upsert.story_id, index: doc_embedding_to_upsert.index },
        );
        proof {
            assert(tasks@ =~= old(tasks)@ + seq![task]);
        }
    } else {
        proof {
            assert(old(tasks)@ + Seq::<ReaggregateTask>::empty() =~= old(tasks)@);
        }
    }
    let vector_copy = crate::seq_util::copy_i64s(&embedding);
    let qdrant_result = delete_reinsert_doc_embedding_qdrant_query(
        qdrant_point_id_to_delete,
        &doc_embedding_to_upsert,
        vector_copy,
        store,
    );
    proof {
        if fi != -1 {
            lemma_find_doc_characterization(docs0, document.story_id, document.index);
            let merged = merged_doc_row(docs0[fi], row_v);
            let updated = docs0.update(fi, merged);
            assert(pool.docs_v() == updated);
            assert(forall|k: int|
                0 <= k < docs0.len() ==> (#[trigger] updated[k]).story_id == (
                #[trigger] docs0[k]).story_id && updated[k].index == docs0[k].index);
            lemma_find_doc_same_keys(updated, docs0, document.story_id, document.index);
            assert(find_doc(pool.docs_v(), document.story_id, document.index) == fi);
            assert(pool.docs_v().remove(fi) =~= docs0.remove(fi));
        }
    }
    if let Err(e) = qdrant_result {
        proof {
            assert(doc_row_written(docs0, pool.docs_v(), row_v));
        }
        if qdrant_point_id_to_delete.is_some() {
            let ghost docs_written = pool.docs_v();
            match delete_doc_embedding_pg_query(&doc_embedding_to_upsert, pool) {
                Ok(()) => {
                    proof {
                        assert(find_doc(docs_written, document.story_id, document.index) == fi);
                        assert(pool.docs_v() == docs_written.remove(fi));
                        assert(pool.docs_v() =~= docs0.remove(fi));
                    }
                },
                Err(e2) => {
                    proof {
                        assert(doc_row_written(docs0, pool.docs_v(), row_v));
                    }
                    return Err(e2);
                },
            }
        }
        return Err(e);
    }
    proof {
        assert(doc_row_written(docs0, pool.docs_v(), row_v));
        assert(doc_chunks@.map_values(|c: crate::parse_operator::Chunk| c.text@).len()
            == spec_segment(strip_of(document.doc_html@)).len());
    }
    Ok(embedding)
}

/// The point identities of a container selection, in order.
pub open spec fn container_ids(
    cs: Seq<crate::relational_store::DocGroupQdrantPointIdContainer>,
) -> Seq<u128>
    decreases cs.len(),
{
    if cs.len() == 0 {
        Seq::empty()
    } else {
        container_ids(cs.drop_last()).push(cs.last().qdrant_point_id)
    }
}

/// Creates the group collection for one aggregation width.
pub fn create_document_group(
    group_document_request: GroupDocumentRequest,
    store: &mut VectorStore,
) -> (r: Result<(), ServiceError>)
    ensures
        r is Ok,
        final(store).faults() == old(store).faults(),
        final(store).doc_points() == old(store).doc_points(),
        final(store).has_group_collection(group_document_request.doc_group_size),
        old(store).has_group_collection(group_document_request.doc_group_size)
            ==> final(store).group_collections@ == old(store).group_collections@,
        !old(store).has_group_collection(group_document_request.doc_group_size) ==> {
            &&& final(store).gc_sizes() == old(store).gc_sizes().push(
                group_document_request.doc_group_size,
            )
            &&& final(store).group_points(group_document_request.doc_group_size).len() == 0
            &&& forall|s: i32|
                s != group_document_request.doc_group_size ==> #[trigger] final(store).group_points(
                    s,
                ) == old(store).group_points(s)
        },
{
    crate::vector_store::create_doc_group_collection_qdrant_query(
        group_document_request.doc_group_size,
        store,
    )
}

/// Searches one collection for the query's nearest neighbors and
/// returns one page of ten results, hydrated from the relational
/// store and re-ordered to the ranked order.
pub fn semantic_search(
    group_document_request: SemanticSearchRequest,
    query_embedding: Vec<i64>,
    pool: &RelationalStore,
    store: &VectorStore,
) -> (r: Result<Vec<DocEmbeddingType>, ServiceError>)
    requires
        group_document_request.page >= 1,
    ensures
        ({
            let page = group_document_request.page;
            match r {
                Ok(rows) => {
                    &&& !store.fail_search && !pool.fail_select
                    &&& match group_document_request.doc_group_size {
                        None => {
                            let hits = page_of(
                                spec_rank(query_embedding@, store.doc_points()),
                                (page - 1) * 10,
                                10,
                            );
                            let hydrated = hydrate_docs(pool.docs_v(), hits);
                            &&& rows@.len() == hydrated.len()
                            &&& forall|k: int|
                                0 <= k < rows@.len() ==> ((#[trigger] rows@[k]) matches DocEmbeddingType::DocEmbedding(d)
                                    && d@ == hydrated[k])
                        },
                        Some(g) => {
                            let hits = page_of(
                                spec_rank(query_embedding@, store.group_points(g)),
                                (page - 1) * 10,
                                10,
                            );
                            let hydrated = hydrate_groups(pool.groups_v(), hits, g);
                            &&& store.has_group_collection(g)
                            &&& rows@.len() == hydrated.len()
                            &&& forall|k: int|
                                0 <= k < rows@.len() ==> ((#[trigger] rows@[k]) matches DocEmbeddingType::DocGroupEmbedding(d)
                                    && d@ == hydrated[k])
                        },
                    }
                },
                Err(e) => (e == ServiceError::QdrantSearchError && (store.fail_search || (
                group_document_request.doc_group_size matches Some(g)
                    && !store.has_group_collection(g)))) || (e == ServiceError::PgSearchError
                    && pool.fail_select),
            }
        }),
{
    let point_ids = match search_qdrant_query(
        query_embedding,
        group_document_request.page,
        group_document_request.doc_group_size,
        store,
    ) {
        Ok(p) => p,
        Err(e) => {
            return Err(e);
        },
    };
    let results = match get_docs_by_point_id(
        point_ids,
        group_document_request.doc_group_size,
        pool,
    ) {
        Ok(rows) => rows,
        Err(e) => {
            return Err(e);
        },
    };
    Ok(results)
}

/// The similarity of the query to the one point of a story position,
/// or the not-found signal when no point matches the filter.
pub fn similarity_to_single_vector(
    similarity_to_single_vector_request: SimilarityToSingleVectorRequest,
    query_embedding: Vec<i64>,
    store: &VectorStore,
) -> (r: Result<i128, ServiceError>)
    requires
        i32::MIN <= similarity_to_single_vector_request.index <= i32::MAX,
    ensures
        ({
            let req = similarity_to_single_vector_request;
            let use_groups = req.doc_group_size is Some;
            let points = if use_groups {
                store.group_points(req.doc_group_size->0)
            } else {
                store.doc_points()
            };
            let matched = matching_points(points, req.story_id, req.index);
            match r {
                Ok(score) => {
                    &&& !store.fail_search
                    &&& matched.len() > 0
                    &&& score == spec_rank(query_embedding@, matched)[0].score
                },
                Err(e) => {
                    if e == ServiceError::MatchingRecordNotFound {
                        &&& !store.fail_search
                        &&& matched.len() == 0
                    } else {
                        &&& e == ServiceError::QdrantSearchError
                        &&& (store.fail_search || (use_groups && !store.has_group_collection(
                            req.doc_group_size->0,
                        )))
                    }
                },
            }
        }),
{
    let similarity = match similarity_top_filtered_point(
        query_embedding,
        similarity_to_single_vector_request.story_id,
        similarity_to_single_vector_request.index,
        similarity_to_single_vector_request.doc_group_size,
        store,
    ) {
        Ok(s) => s,
        Err(e) => {
            return Err(e);
        },
    };
    match similarity {
        Some(score) => Ok(score),
        None => Err(ServiceError::MatchingRecordNotFound),
    }
}

/// Rebuilds the group aggregates of a scope for one width; the
/// request's single-story scope drives the full-story aggregation,
/// and the other scopes are refused as not implemented.
pub fn index_document_group(
    req: IndexDocumentGroupRequest,
    pool: &mut RelationalStore,
    store: &mut VectorStore,
) -> (r: Result<(), ServiceError>)
    requires
        old(pool).wf(),
        req matches IndexDocumentGroupRequest::Story { doc_group_size, .. } ==> doc_group_size
            >= 1,
    ensures
        final(pool).wf(),
        final(pool).faults() == old(pool).faults(),
        final(pool).docs_v() == old(pool).docs_v(),
        final(store).faults() == old(store).faults(),
        final(store).doc_points() == old(store).doc_points(),
        final(store).gc_sizes() == old(store).gc_sizes(),
        ({
            match req {
                IndexDocumentGroupRequest::Story { story_id, doc_group_size } => {
                    let quotients = crate::doc_embedding_operator::quotients_of(
                        crate::relational_store::doc_indexes_for_story(
                            old(pool).docs_v(),
                            story_id,
                        ),
                        doc_group_size as int,
                    );
                    let existing = crate::relational_store::group_containers(
                        old(pool).groups_v(),
                        seq![story_id],
                        doc_group_size,
                    );
                    match r {
                        Err(_) => old(pool).fail_select || old(pool).fail_upsert || old(
                            store,
                        ).fail_scroll || old(store).fail_upsert || !old(store).has_group_collection(
                            doc_group_size,
                        ) || exists|q: i32|
                            #[trigger] quotients.contains(q) && !crate::embedding_operator::avg_ok(
                                crate::doc_embedding_operator::member_vectors(
                                    old(pool).docs_v(),
                                    old(store).doc_points(),
                                    story_id,
                                    doc_group_size as int,
                                    q as int,
                                ),
                            ),
                        Ok(()) => exists|
                            pts: Seq<crate::vector_store::VectorPointV>,
                            rows: Seq<crate::models::DocGroupEmbeddingV>,
                        |
                            {
                                &&& #[trigger] crate::doc_embedding_operator::indexed_groups_ok(
                                    old(pool).docs_v(),
                                    old(store).doc_points(),
                                    existing,
                                    pts,
                                    rows,
                                    story_id,
                                    doc_group_size,
                                )
                                &&& final(store).group_points(doc_group_size)
                                    == crate::vector_store::upsert_points_seq(
                                    old(store).group_points(doc_group_size),
                                    pts,
                                )
                                &&& final(pool).groups_v()
                                    == crate::relational_store::upsert_group_rows(
                                    old(pool).groups_v(),
                                    rows,
                                )
                                &&& forall|s: i32|
                                    s != doc_group_size ==> #[trigger] final(store).group_points(s)
                                        == old(store).group_points(s)
                            },
                    }
                },
                _ => {
                    &&& r == Err::<(), ServiceError>(ServiceError::NotImplemented)
                    &&& final(pool).groups_v() == old(pool).groups_v()
                    &&& final(store).group_collections@ == old(store).group_collections@
                },
            }
        }),
{
    crate::doc_embedding_operator::create_doc_group_embedding(req, pool, store)
}

/// Recommends stories similar to the given ones: the stories' group
/// aggregates of one width serve as positive examples, and the best
/// matching other aggregates' stories come back in rank order.
pub fn recommend_document_group(
    recommend_document_request: RecommendDocumentRequest,
    pool: &RelationalStore,
    store: &VectorStore,
) -> (r: Result<Vec<i64>, ServiceError>)
    ensures
        ({
            let req = recommend_document_request;
            let positives = container_ids(
                crate::relational_store::group_containers(
                    pool.groups_v(),
                    req.story_ids@,
                    req.doc_group_size,
                ),
            );
            let points = store.group_points(req.doc_group_size);
            let pos_vecs = crate::vector_store::vectors_for_ids(points, positives);
            let cands = crate::vector_store::points_not_in(points, positives);
            let l = (match req.limit {
                Some(l) => l,
                None => 10,
            }) as int;
            let off = (match req.page {
                Some(p) => p,
                None => 0,
            }) as int * (2 * l);
            match r {
                Ok(stories) => {
                    &&& !pool.fail_select && !store.fail_recommend
                    &&& store.has_group_collection(req.doc_group_size)
                    &&& stories@ == crate::vector_store::story_ids_of(
                        page_of(
                            crate::vector_store::rank_hits(
                                crate::vector_store::rec_hits_of(pos_vecs, cands),
                            ),
                            off,
                            2 * l,
                        ),
                    )
                },
                Err(e) => (e == ServiceError::SelectDocGroupQdrantIdsPgError && pool.fail_select)
                    || (e == ServiceError::RecommendQdrantDocEmbeddingGroupError && (
                store.fail_recommend || !store.has_group_collection(req.doc_group_size))),
            }
        }),
{
    let containers = match get_doc_group_qdrant_ids_pg_query(
        recommend_document_request.story_ids,
        recommend_document_request.doc_group_size,
        pool,
    ) {
        Ok(c) => c,
        Err(e) => {
            return Err(e);
        },
    };
    let mut positive_qdrant_ids: Vec<u128> = Vec::new();
    let mut i: usize = 0;
    while i < containers.len()
        invariant
            i <= containers@.len(),
            positive_qdrant_ids@ == container_ids(containers@.take(i as int)),
        decreases containers@.len() - i,
    {
        proof {
            assert(containers@.take(i + 1).drop_last() =~= containers@.take(i as int));
            assert(containers@.take(i + 1).last() == containers@[i as int]);
        }
        positive_qdrant_ids.push(containers[i].qdrant_point_id);
        i = i + 1;
    }
    proof {
        assert(containers@.take(containers@.len() as int) =~= containers@);
    }
    let recommended = match recommend_group_doc_embeddings_qdrant_query(
        positive_qdrant_ids,
        recommend_document_request.doc_group_size,
        recommend_document_request.limit,
        recommend_document_request.page,
        store,
    ) {
        Ok(s) => s,
        Err(e) => {
            return Err(e);
        },
    };
    Ok(recommended)
}

} // verus!
