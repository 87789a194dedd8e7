//! The full-story group aggregation: every group index occupied by a
//! document of the story gets its aggregate rebuilt from the
//! documents whose position lies in that group's index range, taken
//! in ascending position order, and the aggregates are written to the
//! vector index and the relational store, reusing known point
//! identities.
use crate::embedding_operator::{average_embeddings, avg_ok, div_trunc, spec_average};
use crate::errors::ServiceError;
use crate::handlers::IndexDocumentGroupRequest;
use crate::models::{DocEmbeddingV, DocGroupEmbedding, DocGroupEmbeddingV};
use crate::relational_store::{
    doc_indexes_for_story, find_doc, get_doc_group_qdrant_ids_pg_query, group_containers,
    select_doc_indexes_for_story, select_doc_point_id_at, upsert_doc_group_embedding_pg_query,
    upsert_group_rows, DocGroupQdrantPointIdContainer, RelationalStore,
};
use crate::vector_store::{
    find_container, find_container_id, find_point, get_point_vector, upsert_group_points,
    upsert_points_seq, VectorPoint, VectorPointV, VectorStore,
};
use vstd::prelude::*;

verus! {

/// The distinct group indexes occupied by the given document
/// positions under width `g`, in order of first occurrence.
pub open spec fn quotients_of(indexes: Seq<i32>, g: int) -> Seq<i32>
    decreases indexes.len(),
{
    if indexes.len() == 0 {
        Seq::empty()
    } else {
        let rest = quotients_of(indexes.drop_last(), g);
        let q = div_trunc(indexes.last() as int, g) as i32;
        if rest.contains(q) {
            rest
        } else {
            rest.push(q)
        }
    }
}

/// The member vectors of the group at index `q` under width `g`,
/// taken over the first `cnt` positions of the group's range
/// `[q*g, q*g + cnt)` in ascending position order: for each occupied
/// position, the vector of the document's point, where that point
/// exists.
pub open spec fn member_vectors_upto(
    docs: Seq<DocEmbeddingV>,
    points: Seq<VectorPointV>,
    story_id: i64,
    g: int,
    q: int,
    cnt: int,
) -> Seq<Seq<i64>>
    decreases cnt,
{
    if cnt <= 0 {
        Seq::empty()
    } else {
        let rest = member_vectors_upto(docs, points, story_id, g, q, cnt - 1);
        let p = q * g + cnt - 1;
        rest + (if i32::MIN <= p <= i32::MAX && find_doc(docs, story_id, p as i32) != -1 {
            match find_point(points, docs[find_doc(docs, story_id, p as i32)].qdrant_point_id) {
                Some(pt) => seq![pt.vector],
                None => Seq::empty(),
            }
        } else {
            Seq::empty()
        })
    }
}

/// The member vectors a group aggregate is built from: the documents
/// of the story whose position lies in `[q*g, (q+1)*g)`, in ascending
/// position order.
pub open spec fn member_vectors(
    docs: Seq<DocEmbeddingV>,
    points: Seq<VectorPointV>,
    story_id: i64,
    g: int,
    q: int,
) -> Seq<Seq<i64>> {
    member_vectors_upto(docs, points, story_id, g, q, g)
}

/// One recomputed aggregate per occupied group index: the points
/// carry the averages of the groups' member vectors under the story's
/// payload, reuse a known identity where one was given, and the rows
/// tie each group index to its point.
pub open spec fn indexed_groups_ok(
    docs: Seq<DocEmbeddingV>,
    points: Seq<VectorPointV>,
    existing: Seq<DocGroupQdrantPointIdContainer>,
    pts: Seq<VectorPointV>,
    rows: Seq<DocGroupEmbeddingV>,
    story_id: i64,
    doc_group_size: i32,
) -> bool {
    let quotients = quotients_of(doc_indexes_for_story(docs, story_id), doc_group_size as int);
    &&& pts.len() == quotients.len()
    &&& rows.len() == quotients.len()
    &&& forall|k: int|
        0 <= k < quotients.len() ==> {
            let q = #[trigger] quotients[k];
            let mv = member_vectors(docs, points, story_id, doc_group_size as int, q as int);
            let p = pts[k];
            &&& avg_ok(mv)
            &&& p.vector == spec_average(mv)
            &&& p.story_id == story_id
            &&& p.index == q
            &&& p.doc_group_size == Some(doc_group_size)
            &&& (find_container(existing, q) != -1 ==> p.id == existing[find_container(
                existing,
                q,
            )].qdrant_point_id)
        }
    &&& forall|k: int|
        0 <= k < quotients.len() ==> {
            let row = #[trigger] rows[k];
            &&& row.story_id == story_id
            &&& row.doc_group_size == doc_group_size
            &&& row.index == quotients[k]
            &&& row.qdrant_point_id == pts[k].id
        }
}

/// Rebuilds every group aggregate of a scope for one width. Only the
/// single-story scope is specified end to end; the other scopes are
/// refused as not implemented. For a story, every group index one of
/// its documents occupies is rebuilt: the vectors of the documents
/// whose position lies in the group's index range, in ascending
/// position order, are averaged and upserted as the width's group
/// point and row, reusing the point identity a group already had.
#[verifier::rlimit(100)]
#[verifier::spinoff_prover]
pub fn create_doc_group_embedding(
    groups: IndexDocumentGroupRequest,
    pool: &mut RelationalStore,
    store: &mut VectorStore,
) -> (r: Result<(), ServiceError>)
    requires
        old(pool).wf(),
        groups matches IndexDocumentGroupRequest::Story { doc_group_size, .. } ==> doc_group_size
            >= 1,
    ensures
        final(pool).wf(),
        final(pool).faults() == old(pool).faults(),
        final(pool).docs_v() == old(pool).docs_v(),
        final(store).faults() == old(store).faults(),
        final(store).doc_points() == old(store).doc_points(),
        final(store).gc_sizes() == old(store).gc_sizes(),
        groups matches IndexDocumentGroupRequest::Story { story_id, doc_group_size } ==> (r
            is Err ==> old(pool).fail_select || old(pool).fail_upsert || old(store).fail_scroll || old(
            store,
        ).fail_upsert || !old(store).has_group_collection(doc_group_size) || exists|q: i32|
            #[trigger] quotients_of(
                doc_indexes_for_story(old(pool).docs_v(), story_id),
                doc_group_size as int,
            ).contains(q) && !avg_ok(
                member_vectors(
                    old(pool).docs_v(),
                    old(store).doc_points(),
                    story_id,
                    doc_group_size as int,
                    q as int,
                ),
            )),
        groups matches IndexDocumentGroupRequest::Story { story_id, doc_group_size } ==> (r
            is Ok ==> exists|pts: Seq<VectorPointV>, rows: Seq<DocGroupEmbeddingV>|
            {
                &&& #[trigger] indexed_groups_ok(
                    old(pool).docs_v(),
                    old(store).doc_points(),
                    group_containers(old(pool).groups_v(), seq![story_id], doc_group_size),
                    pts,
                    rows,
                    story_id,
                    doc_group_size,
                )
                &&& final(store).group_points(doc_group_size) == upsert_points_seq(
                    old(store).group_points(doc_group_size),
                    pts,
                )
                &&& final(pool).groups_v() == upsert_group_rows(old(pool).groups_v(), rows)
                &&& forall|s: i32|
                    s != doc_group_size ==> #[trigger] final(store).group_points(s) == old(
                        store,
                    ).group_points(s)
            }),
        !(groups matches IndexDocumentGroupRequest::Story { .. }) ==> (r == Err::<
            (),
            ServiceError,
        >(ServiceError::NotImplemented) && final(pool).groups_v() == old(pool).groups_v()
            && final(store).group_collections@ == old(store).group_collections@),
{
    let (story_id, doc_group_size) = match groups {
        IndexDocumentGroupRequest::Story { story_id, doc_group_size } => (story_id, doc_group_size),
        _ => {
            return Err(ServiceError::NotImplemented);
        },
    };
    let indexes = match select_doc_indexes_for_story(story_id, pool) {
        Ok(idxs) => idxs,
        Err(e) => {
            return Err(e);
        },
    };
    let ghost idxs = doc_indexes_for_story(old(pool).docs_v(), story_id);
    let ghost quotients = quotients_of(idxs, doc_group_size as int);
    let mut quotient_list: Vec<i32> = Vec::new();
    let mut i: usize = 0;
    while i < indexes.len()
        invariant
            i <= indexes@.len(),
            doc_group_size >= 1,
            indexes@ == idxs,
            quotient_list@ == quotients_of(idxs.take(i as int), doc_group_size as int),
        decreases indexes@.len() - i,
    {
        proof {
            assert(idxs.take(i + 1).drop_last() =~= idxs.take(i as int));
            assert(idxs.take(i + 1).last() == idxs[i as int]);
        }
        let q = crate::doc_group_operator::group_index_of(indexes[i], doc_group_size);
        if !crate::seq_util::contains_i32(&quotient_list, q) {
            quotient_list.push(q);
        }
        i = i + 1;
    }
    proof {
        assert(idxs.take(idxs.len() as int) =~= idxs);
        assert(quotient_list@ == quotients);
    }
    let story_ids_vec: Vec<i64> = vec![story_id];
    proof {
        assert(story_ids_vec@ =~= seq![story_id]);
    }
    let existing_doc_groups = match get_doc_group_qdrant_ids_pg_query(
        story_ids_vec,
        doc_group_size,
        pool,
    ) {
        Ok(c) => c,
        Err(e) => {
            return Err(e);
        },
    };
    let ghost existing = group_containers(old(pool).groups_v(), seq![story_id], doc_group_size);
    proof {
        assert(existing_doc_groups@ == existing);
    }
    let mut points: Vec<VectorPoint> = Vec::new();
    let mut rows_vec: Vec<DocGroupEmbedding> = Vec::new();
    let mut k: usize = 0;
    while k < quotient_list.len()
        invariant
            k <= quotient_list@.len(),
            groups == (IndexDocumentGroupRequest::Story { story_id, doc_group_size }),
            doc_group_size >= 1,
            quotient_list@ == quotients,
            quotients == quotients_of(
                doc_indexes_for_story(old(pool).docs_v(), story_id),
                doc_group_size as int,
            ),
            existing_doc_groups@ == existing,
            existing == group_containers(old(pool).groups_v(), seq![story_id], doc_group_size),
            pool.wf(),
            pool.faults() == old(pool).faults(),
            pool.docs_v() == old(pool).docs_v(),
            pool.groups_v() == old(pool).groups_v(),
            !pool.fail_select,
            store.faults() == old(store).faults(),
            store.group_collections@ == old(store).group_collections@,
            store.doc_points() == old(store).doc_points(),
            points@.len() == k,
            rows_vec@.len() == k,
            forall|kk: int|
                0 <= kk < k ==> {
                    let q = quotients[kk];
                    let mv = member_vectors(
                        old(pool).docs_v(),
                        old(store).doc_points(),
                        story_id,
                        doc_group_size as int,
                        q as int,
                    );
                    let p = (#[trigger] points@[kk])@;
                    &&& avg_ok(mv)
                    &&& p.vector == spec_average(mv)
                    &&& p.story_id == story_id
                    &&& p.index == q
                    &&& p.doc_group_size == Some(doc_group_size)
                    &&& (find_container(existing, q) != -1 ==> p.id == existing[find_container(
                        existing,
                        q,
                    )].qdrant_point_id)
                },
            forall|kk: int|
                0 <= kk < k ==> {
                    let row = (#[trigger] rows_vec@[kk])@;
                    &&& row.story_id == story_id
                    &&& row.doc_group_size == doc_group_size
                    &&& row.index == quotients[kk]
                    &&& row.qdrant_point_id == points@[kk]@.id
                },
        decreases quotient_list@.len() - k,
    {
        let q = quotient_list[k];
        let ghost mv_full = member_vectors(
            old(pool).docs_v(),
            old(store).doc_points(),
            story_id,
            doc_group_size as int,
            q as int,
        );
        let mut members: Vec<Vec<i64>> = Vec::new();
        let width: usize = doc_group_size as usize;
        let mut off: usize = 0;
        while off < width
            invariant
                off <= width,
                groups == (IndexDocumentGroupRequest::Story { story_id, doc_group_size }),
                doc_group_size >= 1,
                width == doc_group_size as usize,
                0 <= k < quotient_list@.len(),
                q == quotient_list@[k as int],
                pool.docs_v() == old(pool).docs_v(),
                pool.groups_v() == old(pool).groups_v(),
                pool.faults() == old(pool).faults(),
                pool.wf(),
                !pool.fail_select,
                store.faults() == old(store).faults(),
                store.group_collections@ == old(store).group_collections@,
                store.doc_points() == old(store).doc_points(),
                members@.map_values(|v: Vec<i64>| v@) == member_vectors_upto(
                    old(pool).docs_v(),
                    old(store).doc_points(),
                    story_id,
                    doc_group_size as int,
                    q as int,
                    off as int,
                ),
            decreases width - off,
        {
            proof {
                assert((q as int) * (doc_group_size as int) + off as int
                    <= 0x8000_0000i64 * 0x8000_0000i64 + 0x8000_0000i64 && (q as int) * (
                doc_group_size as int) + off as int >= -0x8000_0000i64 * 0x8000_0000i64)
                    by (nonlinear_arith)
                    requires
                        -0x8000_0000 <= q as int <= 0x7fff_ffff,
                        1 <= doc_group_size as int <= 0x7fff_ffff,
                        0 <= off as int <= 0x7fff_ffff,
                ;
            }
            let p_i64: i64 = (q as i64) * (doc_group_size as i64) + off as i64;
            let ghost old_members = members@.map_values(|v: Vec<i64>| v@);
            if p_i64 >= i32::MIN as i64 && p_i64 <= i32::MAX as i64 {
                let id_opt = match select_doc_point_id_at(story_id, p_i64 as i32, pool) {
                    Ok(o) => o,
                    Err(e) => {
                        proof {
                            assert(old(pool).fail_select);
                        }
                        return Err(e);
                    },
                };
                if let Some(id) = id_opt {
                    let v_opt = match get_point_vector(id, store) {
                        Ok(o) => o,
                        Err(e) => {
                            proof {
                                assert(old(store).fail_scroll);
                            }
                            return Err(e);
                        },
                    };
                    if let Some(v) = v_opt {
                        members.push(v);
                        proof {
                            assert(members@.map_values(|v2: Vec<i64>| v2@) =~= old_members.push(
                                members@.last()@,
                            ));
                        }
                    }
                }
            }
            proof {
                assert(members@.map_values(|v2: Vec<i64>| v2@) =~= member_vectors_upto(
                    old(pool).docs_v(),
                    old(store).doc_points(),
                    story_id,
                    doc_group_size as int,
                    q as int,
                    off + 1,
                ));
            }
            off = off + 1;
        }
        proof {
            assert(members@.map_values(|v: Vec<i64>| v@) == mv_full);
        }
        let avg = match average_embeddings(&members) {
            Ok(a) => a,
            Err(e) => {
                proof {
                    assert(match groups {
                        IndexDocumentGroupRequest::Story { story_id: s2, doc_group_size: g2 } => s2
                            == story_id && g2 == doc_group_size,
                        _ => false,
                    });
                    assert(quotients[k as int] == q);
                    assert(quotients_of(
                        doc_indexes_for_story(old(pool).docs_v(), story_id),
                        doc_group_size as int,
                    ).contains(q));
                    assert(!avg_ok(mv_full));
                    assert(exists|q2: i32|
                        #[trigger] quotients_of(
                            doc_indexes_for_story(old(pool).docs_v(), story_id),
                            doc_group_size as int,
                        ).contains(q2) && !avg_ok(
                            member_vectors(
                                old(pool).docs_v(),
                                old(store).doc_points(),
                                story_id,
                                doc_group_size as int,
                                q2 as int,
                            ),
                        ));
                }
                return Err(e);
            },
        };
        let id = match find_container_id(&existing_doc_groups, q) {
            Some(id) => id,
            None => crate::models::new_uuid_v4(),
        };
        points.push(
            VectorPoint { id, vector: avg, story_id, index: q, doc_group_size: Some(doc_group_size) },
        );
        let row = DocGroupEmbedding::from_details(
            None,
            story_id,
            doc_group_size,
            q,
            Some(id),
            None,
            None,
        );
        rows_vec.push(row);
        k = k + 1;
    }
    let ghost pts = points@.map_values(|p: VectorPoint| p@);
    let ghost rws = rows_vec@.map_values(|g2: DocGroupEmbedding| g2@);
    match upsert_group_points(points, doc_group_size, store) {
        Ok(()) => {},
        Err(e) => {
            return Err(e);
        },
    }
    match upsert_doc_group_embedding_pg_query(rows_vec, pool) {
        Ok(()) => {},
        Err(e) => {
            return Err(e);
        },
    }
    proof {
        assert(indexed_groups_ok(
            old(pool).docs_v(),
            old(store).doc_points(),
            existing,
            pts,
            rws,
            story_id,
            doc_group_size,
        ));
    }
    Ok(())
}

} // verus!
