//! Hydration of ranked search results: the relational rows behind the
//! returned point identities, re-ordered to match the ranked order.
//!
//! A plain fetch by identity set from a relational store does not
//! preserve rank order, so the rows are deliberately re-assembled in
//! the order of the ranked results — a required correctness step of
//! the query path.
use crate::errors::ServiceError;
use crate::models::{DocEmbedding, DocEmbeddingV, DocGroupEmbedding, DocGroupEmbeddingV};
use crate::relational_store::RelationalStore;
use crate::vector_store::QdrantPoints;
use vstd::prelude::*;

verus! {

/// A hydrated search result: a document row or a group row.
#[derive(Debug)]
pub enum DocEmbeddingType {
    DocEmbedding(DocEmbedding),
    DocGroupEmbedding(DocGroupEmbedding),
}

/// The document rows carrying the given point identity, in table
/// order.
pub open spec fn docs_with_point_id(docs: Seq<DocEmbeddingV>, pid: u128) -> Seq<DocEmbeddingV>
    decreases docs.len(),
{
    if docs.len() == 0 {
        Seq::empty()
    } else {
        docs_with_point_id(docs.drop_last(), pid) + (if docs.last().qdrant_point_id == pid {
            seq![docs.last()]
        } else {
            Seq::empty()
        })
    }
}

/// The group rows of one width carrying the given point identity, in
/// table order.
pub open spec fn groups_with_point_id(
    groups: Seq<DocGroupEmbeddingV>,
    pid: u128,
    doc_group_size: i32,
) -> Seq<DocGroupEmbeddingV>
    decreases groups.len(),
{
    if groups.len() == 0 {
        Seq::empty()
    } else {
        groups_with_point_id(groups.drop_last(), pid, doc_group_size) + (
        if groups.last().qdrant_point_id == pid && groups.last().doc_group_size
            == doc_group_size {
            seq![groups.last()]
        } else {
            Seq::empty()
        })
    }
}

/// The document rows behind the ranked results, in ranked order.
pub open spec fn hydrate_docs(docs: Seq<DocEmbeddingV>, hits: Seq<QdrantPoints>) -> Seq<
    DocEmbeddingV,
>
    decreases hits.len(),
{
    if hits.len() == 0 {
        Seq::empty()
    } else {
        hydrate_docs(docs, hits.drop_last()) + docs_with_point_id(docs, hits.last().point_id)
    }
}

/// The group rows behind the ranked results, in ranked order.
pub open spec fn hydrate_groups(
    groups: Seq<DocGroupEmbeddingV>,
    hits: Seq<QdrantPoints>,
    doc_group_size: i32,
) -> Seq<DocGroupEmbeddingV>
    decreases hits.len(),
{
    if hits.len() == 0 {
        Seq::empty()
    } else {
        hydrate_groups(groups, hits.drop_last(), doc_group_size) + groups_with_point_id(
            groups,
            hits.last().point_id,
            doc_group_size,
        )
    }
}

/// Collects the document rows carrying one point identity.
fn collect_docs_with_point_id(pool: &RelationalStore, pid: u128) -> (r: Vec<DocEmbedding>)
    ensures
        r@.map_values(|d: DocEmbedding| d@) == docs_with_point_id(pool.docs_v(), pid),
{
    let ghost docs = pool.docs_v();
    let mut out: Vec<DocEmbedding> = Vec::new();
    let mut i: usize = 0;
    while i < pool.docs.len()
        invariant
            i <= pool.docs@.len(),
            docs == pool.docs_v(),
            out@.map_values(|d: DocEmbedding| d@) == docs_with_point_id(docs.take(i as int), pid),
        decreases pool.docs@.len() - i,
    {
        proof {
            assert(docs.take(i + 1).drop_last() =~= docs.take(i as int));
            assert(docs.take(i + 1).last() == docs[i as int]);
            assert(docs[i as int] == pool.docs@[i as int]@);
        }
        if pool.docs[i].qdrant_point_id == pid {
            let ghost old_map = out@.map_values(|d: DocEmbedding| d@);
            out.push(pool.docs[i].duplicate());
            proof {
                assert(out@.map_values(|d: DocEmbedding| d@) =~= old_map.push(docs[i as int]));
            }
        }
        i = i + 1;
    }
    proof {
        assert(docs.take(docs.len() as int) =~= docs);
    }
    out
}

/// Collects the group rows of one width carrying one point identity.
fn collect_groups_with_point_id(pool: &RelationalStore, pid: u128, doc_group_size: i32) -> (r: Vec<
    DocGroupEmbedding,
>)
    ensures
        r@.map_values(|d: DocGroupEmbedding| d@) == groups_with_point_id(
            pool.groups_v(),
            pid,
            doc_group_size,
        ),
{
    let ghost groups = pool.groups_v();
    let mut out: Vec<DocGroupEmbedding> = Vec::new();
    let mut i: usize = 0;
    while i < pool.groups.len()
        invariant
            i <= pool.groups@.len(),
            groups == pool.groups_v(),
            out@.map_values(|d: DocGroupEmbedding| d@) == groups_with_point_id(
                groups.take(i as int),
                pid,
                doc_group_size,
            ),
        decreases pool.groups@.len() - i,
    {
        proof {
            assert(groups.take(i + 1).drop_last() =~= groups.take(i as int));
            assert(groups.take(i + 1).last() == groups[i as int]);
            assert(groups[i as int] == pool.groups@[i as int]@);
        }
        if pool.groups[i].qdrant_point_id == pid && pool.groups[i].doc_group_size
            == doc_group_size {
            let ghost old_map = out@.map_values(|d: DocGroupEmbedding| d@);
            out.push(pool.groups[i]);
            proof {
                assert(out@.map_values(|d: DocGroupEmbedding| d@) =~= old_map.push(
                    groups[i as int],
                ));
            }
        }
        i = i + 1;
    }
    proof {
        assert(groups.take(groups.len() as int) =~= groups);
    }
    out
}

/// Fetches the rows behind the ranked results — document rows when no
/// width is given, group rows of that width otherwise — and returns
/// them re-ordered to match the ranked order.
pub fn get_docs_by_point_id(
    points: Vec<QdrantPoints>,
    doc_group_size: Option<i32>,
    pool: &RelationalStore,
) -> (r: Result<Vec<DocEmbeddingType>, ServiceError>)
    ensures
        match r {
            Ok(rows) => {
                &&& !pool.fail_select
                &&& match doc_group_size {
                    None => {
                        let hydrated = hydrate_docs(pool.docs_v(), points@);
                        &&& rows@.len() == hydrated.len()
                        &&& forall|k: int|
                            0 <= k < rows@.len() ==> ((#[trigger] rows@[k]) matches DocEmbeddingType::DocEmbedding(d)
                                && d@ == hydrated[k])
                    },
                    Some(g) => {
                        let hydrated = hydrate_groups(pool.groups_v(), points@, g);
                        &&& rows@.len() == hydrated.len()
                        &&& forall|k: int|
                            0 <= k < rows@.len() ==> ((#[trigger] rows@[k]) matches DocEmbeddingType::DocGroupEmbedding(d)
                                && d@ == hydrated[k])
                    },
                }
            },
            Err(e) => pool.fail_select && e == ServiceError::PgSearchError,
        },
{
    if pool.fail_select {
        return Err(ServiceError::PgSearchError);
    }
    match doc_group_size {
        Some(g) => {
            let mut out: Vec<DocEmbeddingType> = Vec::new();
            let ghost groups = pool.groups_v();
            let mut i: usize = 0;
            while i < points.len()
                invariant
                    i <= points@.len(),
                    groups == pool.groups_v(),
                    out@.len() == hydrate_groups(groups, points@.take(i as int), g).len(),
                    forall|k: int|
                        0 <= k < out@.len() ==> ((#[trigger] out@[k]) matches DocEmbeddingType::DocGroupEmbedding(d)
                            && d@ == hydrate_groups(groups, points@.take(i as int), g)[k]),
                decreases points@.len() - i,
            {
                let ghost pre = hydrate_groups(groups, points@.take(i as int), g);
                proof {
                    assert(points@.take(i + 1).drop_last() =~= points@.take(i as int));
                    assert(points@.take(i + 1).last() == points@[i as int]);
                }
                let matched = collect_groups_with_point_id(pool, points[i].point_id, g);
                let ghost matched_v = matched@.map_values(|d: DocGroupEmbedding| d@);
                let mut k: usize = 0;
                while k < matched.len()
                    invariant
                        k <= matched@.len(),
                        matched_v == matched@.map_values(|d: DocGroupEmbedding| d@),
                        out@.len() == pre.len() + k,
                        forall|k2: int|
                            0 <= k2 < pre.len() ==> ((#[trigger] out@[k2]) matches DocEmbeddingType::DocGroupEmbedding(d)
                                && d@ == pre[k2]),
                        forall|k2: int|
                            pre.len() <= k2 < out@.len() ==> ((#[trigger] out@[k2]) matches DocEmbeddingType::DocGroupEmbedding(d)
                                && d@ == matched_v[k2 - pre.len()]),
                    decreases matched@.len() - k,
                {
                    proof {
                        assert(matched_v[k as int] == matched@[k as int]@);
                    }
                    out.push(DocEmbeddingType::DocGroupEmbedding(matched[k]));
                    k = k + 1;
                }
                proof {
                    assert(hydrate_groups(groups, points@.take(i + 1), g) == pre
                        + groups_with_point_id(groups, points@[i as int].point_id, g));
                }
                i = i + 1;
            }
            proof {
                assert(points@.take(points@.len() as int) =~= points@);
            }
            Ok(out)
        },
        None => {
            let mut out: Vec<DocEmbeddingType> = Vec::new();
            let ghost docs = pool.docs_v();
            let mut i: usize = 0;
            while i < points.len()
                invariant
                    i <= points@.len(),
                    docs == pool.docs_v(),
                    out@.len() == hydrate_docs(docs, points@.take(i as int)).len(),
                    forall|k: int|
                        0 <= k < out@.len() ==> ((#[trigger] out@[k]) matches DocEmbeddingType::DocEmbedding(d)
                            && d@ == hydrate_docs(docs, points@.take(i as int))[k]),
                decreases points@.len() - i,
            {
                let ghost pre = hydrate_docs(docs, points@.take(i as int));
                proof {
                    assert(points@.take(i + 1).drop_last() =~= points@.take(i as int));
                    assert(points@.take(i + 1).last() == points@[i as int]);
                }
                let matched = collect_docs_with_point_id(pool, points[i].point_id);
                let ghost matched_v = matched@.map_values(|d: DocEmbedding| d@);
                let mut k: usize = 0;
                while k < matched.len()
                    invariant
                        k <= matched@.len(),
                        matched_v == matched@.map_values(|d: DocEmbedding| d@),
                        out@.len() == pre.len() + k,
                        forall|k2: int|
                            0 <= k2 < pre.len() ==> ((#[trigger] out@[k2]) matches DocEmbeddingType::DocEmbedding(d)
                                && d@ == pre[k2]),
                        forall|k2: int|
                            pre.len() <= k2 < out@.len() ==> ((#[trigger] out@[k2]) matches DocEmbeddingType::DocEmbedding(d)
                                && d@ == matched_v[k2 - pre.len()]),
                    decreases matched@.len() - k,
                {
                    proof {
                        assert(matched_v[k as int] == matched@[k as int]@);
                    }
                    let row = matched[k].duplicate();
                    out.push(DocEmbeddingType::DocEmbedding(row));
                    k = k + 1;
                }
                proof {
                    assert(hydrate_docs(docs, points@.take(i + 1)) == pre + docs_with_point_id(
                        docs,
                        points@[i as int].point_id,
                    ));
                }
                i = i + 1;
            }
            proof {
                assert(points@.take(points@.len() as int) =~= points@);
            }
            Ok(out)
        },
    }
}

} // verus!
