//! The group aggregation maintainer: when one document of a story
//! changes, the group aggregate that contains it is recomputed for
//! every aggregation width registered for the story, and nothing
//! else is touched.
//!
//! The maintainer runs detached from the request that triggered it:
//! callers enqueue a [`ReaggregateTask`] and a runner executes it
//! best-effort, dropping errors, which never reach the caller that
//! enqueued it.
//!
//! The member range fetched for a group takes positions in
//! `[gi*g, gi*g + g - 1)` and so leaves out the final member of the
//! group — a known quirk of this engine's range check, kept
//! deliberately rather than silently widened.
use crate::embedding_operator::{average_embeddings, avg_ok, div_trunc, spec_average};
use crate::errors::ServiceError;
use crate::models::{DocEmbeddingV, DocGroupEmbedding, DocGroupEmbeddingV};
use crate::relational_store::{
    distinct_group_sizes, doc_point_ids_in_range, find_group, get_indexed_doc_group_qdrant_ids_pg_query,
    get_unique_doc_group_sizes, group_row_at, lemma_distinct_group_sizes_distinct,
    lemma_find_group_characterization, lemma_group_row_at_upsert_other,
    lemma_group_row_at_upsert_same, lemma_indexed_containers_singleton, merged_group_row,
    upsert_group_rows,
    upsert_doc_group_embedding_pg_query, upsert_group_row, RelationalStore,
};
use crate::vector_store::{
    find_point, get_doc_embeddings_qdrant_query, lemma_upsert_point_found, upsert_group_point,
    upsert_point, vectors_for_ids, VectorPoint, VectorPointV, VectorStore,
};
use vstd::prelude::*;

verus! {

/// One pending re-aggregation: the story and the changed document
/// position. Tasks queue the detached, best-effort maintainer work;
/// their errors are dropped, never surfaced to the enqueuing caller.
#[derive(Clone, Copy, Debug, PartialEq, Eq, Structural)]
pub struct ReaggregateTask {
    pub story_id: i64,
    pub index: i32,
}

/// The group index that holds document position `changed` under
/// width `g`: their quotient, truncated toward zero.
pub open spec fn spec_group_index(changed: int, g: int) -> int {
    div_trunc(changed, g)
}

/// The member vectors a group aggregate is rebuilt from: the vectors
/// of the documents of the story whose position lies in
/// `[gi*g, gi*g + g - 1)` — the engine's range check, which leaves
/// out the group's final member.
pub open spec fn range_vectors(
    docs: Seq<DocEmbeddingV>,
    points: Seq<VectorPointV>,
    story_id: i64,
    g: int,
    gi: int,
) -> Seq<Seq<i64>> {
    vectors_for_ids(points, doc_point_ids_in_range(docs, story_id, gi * g, gi * g + g - 1))
}

/// Whether one group's aggregate has been recomputed and nothing else
/// of its width's collection was touched: the row at the group's key
/// exists, reuses the previous point identity if the row already
/// existed, its point carries the average of the group's member
/// vectors, and the collection equals the old one with exactly that
/// point upserted — so every point under another identity is
/// unchanged.
pub open spec fn group_reaggregated(
    old_docs: Seq<DocEmbeddingV>,
    old_points: Seq<VectorPointV>,
    old_groups: Seq<DocGroupEmbeddingV>,
    new_groups: Seq<DocGroupEmbeddingV>,
    old_points_g: Seq<VectorPointV>,
    new_points: Seq<VectorPointV>,
    story_id: i64,
    changed: int,
    g: i32,
) -> bool {
    let gi = spec_group_index(changed, g as int);
    let vs = range_vectors(old_docs, old_points, story_id, g as int, gi);
    match group_row_at(new_groups, story_id, g, gi as i32) {
        Some(row) => {
            &&& row.story_id == story_id
            &&& row.doc_group_size == g
            &&& row.index == gi as i32
            &&& (match group_row_at(old_groups, story_id, g, gi as i32) {
                Some(old_row) => row.qdrant_point_id == old_row.qdrant_point_id,
                None => true,
            })
            &&& (match find_point(new_points, row.qdrant_point_id) {
                Some(p) => {
                    &&& p.vector == spec_average(vs)
                    &&& p.story_id == story_id
                    &&& p.index == gi as i32
                    &&& p.doc_group_size == Some(g)
                    &&& new_points == upsert_point(old_points_g, p)
                },
                None => false,
            })
        },
        None => false,
    }
}

/// The group index of `changed` under width `g`.
pub fn group_index_of(changed: i32, g: i32) -> (r: i32)
    requires
        g >= 1,
    ensures
        r as int == spec_group_index(changed as int, g as int),
{
    proof {
        if changed > 0 {
            vstd::arithmetic::div_mod::lemma_div_nonincreasing(changed as int, g as int);
            vstd::arithmetic::div_mod::lemma_div_pos_is_pos(changed as int, g as int);
        } else if changed < 0 {
            vstd::arithmetic::div_mod::lemma_div_nonincreasing(changed as int * -1, g as int);
            vstd::arithmetic::div_mod::lemma_div_pos_is_pos(changed as int * -1, g as int);
        }
    }
    changed.checked_div(g).unwrap()
}

/// The vectors of the documents a group aggregate is rebuilt from.
pub fn get_single_vectors_to_re_average(
    story_id: i64,
    doc_group_size: i32,
    group_index: i32,
    pool: &RelationalStore,
    store: &VectorStore,
) -> (r: Result<Vec<Vec<i64>>, ServiceError>)
    ensures
        match r {
            Ok(vs) => {
                &&& !pool.fail_select
                &&& !store.fail_scroll
                &&& vs@.map_values(|v: Vec<i64>| v@) == range_vectors(
                    pool.docs_v(),
                    store.doc_points(),
                    story_id,
                    doc_group_size as int,
                    group_index as int,
                )
            },
            Err(e) => (pool.fail_select && e == ServiceError::SelectDocEmbeddingsQdrantIdsPgError)
                || (store.fail_scroll && e == ServiceError::ScrollDocEmbeddingQdrantError),
        },
{
    proof {
        assert((group_index as int) * (doc_group_size as int) <= 0x8000_0000i64 * 0x8000_0000i64
            && (group_index as int) * (doc_group_size as int) >= -0x8000_0000i64
            * 0x8000_0000i64) by (nonlinear_arith)
            requires
                -0x8000_0000 <= group_index as int <= 0x7fff_ffff,
                -0x8000_0000 <= doc_group_size as int <= 0x7fff_ffff,
        ;
    }
    let lo: i64 = (group_index as i64) * (doc_group_size as i64);
    let hi: i64 = lo + (doc_group_size as i64) - 1;
    let qdrant_point_uuids = crate::relational_store::select_doc_point_ids_in_range(
        story_id,
        lo,
        hi,
        pool,
    )?;
    let qdrant_vectors = get_doc_embeddings_qdrant_query(qdrant_point_uuids, store)?;
    Ok(qdrant_vectors)
}

/// Recomputes, for every aggregation width registered for the story,
/// the one group aggregate that contains the changed document
/// position — and touches no other group row or group point: group
/// rows at every other key read back unchanged, each recomputed
/// width's collection changes only at the recomputed aggregate's
/// point identity, and the group collections of unregistered widths
/// are untouched.
#[verifier::rlimit(100)]
pub fn re_index_appropriate_doc_groups(
    story_id: i64,
    single_chapter_index: i32,
    pool: &mut RelationalStore,
    store: &mut VectorStore,
) -> (r: Result<(), ServiceError>)
    requires
        old(pool).wf(),
        forall|k: int|
            0 <= k < distinct_group_sizes(old(pool).groups_v(), seq![story_id]).len()
                ==> #[trigger] distinct_group_sizes(old(pool).groups_v(), seq![story_id])[k] >= 1,
    ensures
        final(pool).wf(),
        final(pool).faults() == old(pool).faults(),
        final(pool).docs_v() == old(pool).docs_v(),
        final(store).faults() == old(store).faults(),
        final(store).doc_points() == old(store).doc_points(),
        final(store).gc_sizes() == old(store).gc_sizes(),
        ({
            let sizes = distinct_group_sizes(old(pool).groups_v(), seq![story_id]);
            let changed = single_chapter_index as int;
            &&& forall|sid: i64, g2: i32, idx: i32|
                !(sid == story_id && sizes.contains(g2) && idx as int == spec_group_index(
                    changed,
                    g2 as int,
                )) ==> #[trigger] group_row_at(final(pool).groups_v(), sid, g2, idx)
                    == group_row_at(old(pool).groups_v(), sid, g2, idx)
            &&& forall|s: i32|
                #![trigger final(store).group_points(s)]
                #![trigger crate::vector_store::group_points_of(final(store).group_collections@, s)]
                !sizes.contains(s) ==> final(store).group_points(s) == old(store).group_points(s)
            &&& (r is Ok ==> forall|g: i32|
                #[trigger] sizes.contains(g) ==> group_reaggregated(
                    old(pool).docs_v(),
                    old(store).doc_points(),
                    old(pool).groups_v(),
                    final(pool).groups_v(),
                    old(store).group_points(g),
                    final(store).group_points(g),
                    story_id,
                    changed,
                    g,
                ))
            &&& (r is Err ==> (old(pool).fail_select || old(pool).fail_upsert || old(
                store,
            ).fail_scroll || old(store).fail_upsert || exists|g: i32|
                #[trigger] sizes.contains(g) && (!old(store).has_group_collection(g) || !avg_ok(
                    range_vectors(
                        old(pool).docs_v(),
                        old(store).doc_points(),
                        story_id,
                        g as int,
                        spec_group_index(changed, g as int),
                    ),
                ))))
        }),
{
    let story_ids_vec: Vec<i64> = vec![story_id];
    proof {
        assert(story_ids_vec@ =~= seq![story_id]);
    }
    let unique_doc_group_sizes = match get_unique_doc_group_sizes(story_ids_vec, pool) {
        Ok(s) => s,
        Err(e) => {
            return Err(e);
        },
    };
    let ghost sizes = distinct_group_sizes(old(pool).groups_v(), seq![story_id]);
    let ghost changed = single_chapter_index as int;
    proof {
        assert(unique_doc_group_sizes@ == sizes);
        lemma_distinct_group_sizes_distinct(old(pool).groups_v(), seq![story_id]);
    }
    let mut i: usize = 0;
    while i < unique_doc_group_sizes.len()
        invariant
            i <= unique_doc_group_sizes@.len(),
            unique_doc_group_sizes@ == sizes,
            sizes == distinct_group_sizes(old(pool).groups_v(), seq![story_id]),
            changed == single_chapter_index as int,
            forall|k: int| 0 <= k < sizes.len() ==> #[trigger] sizes[k] >= 1,
            forall|a: int, b: int|
                0 <= a < b < sizes.len() ==> (#[trigger] sizes[a]) != (#[trigger] sizes[b]),
            pool.wf(),
            pool.faults() == old(pool).faults(),
            pool.docs_v() == old(pool).docs_v(),
            store.faults() == old(store).faults(),
            store.doc_points() == old(store).doc_points(),
            store.gc_sizes() == old(store).gc_sizes(),
            forall|sid: i64, g2: i32, idx: i32|
                !(sid == story_id && sizes.take(i as int).contains(g2) && idx as int
                    == spec_group_index(changed, g2 as int)) ==> #[trigger] group_row_at(
                    pool.groups_v(),
                    sid,
                    g2,
                    idx,
                ) == group_row_at(old(pool).groups_v(), sid, g2, idx),
            forall|s: i32|
                #![trigger store.group_points(s)]
                #![trigger crate::vector_store::group_points_of(store.group_collections@, s)]
                !sizes.take(i as int).contains(s) ==> store.group_points(s) == old(
                    store,
                ).group_points(s),
            forall|k: int|
                0 <= k < i ==> group_reaggregated(
                    old(pool).docs_v(),
                    old(store).doc_points(),
                    old(pool).groups_v(),
                    pool.groups_v(),
                    old(store).group_points(#[trigger] sizes[k]),
                    store.group_points(sizes[k]),
                    story_id,
                    changed,
                    sizes[k],
                ),
        decreases unique_doc_group_sizes@.len() - i,
    {
        let g = unique_doc_group_sizes[i];
        proof {
            assert(sizes[i as int] == g);
            assert(sizes.contains(g));
        }
        let gi = group_index_of(single_chapter_index, g);
        let ghost gi_s = spec_group_index(changed, g as int);
        let vectors = match get_single_vectors_to_re_average(story_id, g, gi, pool, store) {
            Ok(v) => v,
            Err(e) => {
                proof {
                    frame_weaken(pool.groups_v(), old(pool).groups_v(), store.group_collections@, old(store).group_collections@, sizes, i as int, story_id, changed);
                }
                return Err(e);
            },
        };
        let ghost vs = range_vectors(
            old(pool).docs_v(),
            old(store).doc_points(),
            story_id,
            g as int,
            gi_s,
        );
        proof {
            assert(vectors@.map_values(|v: Vec<i64>| v@) == vs);
        }
        let avg = match average_embeddings(&vectors) {
            Ok(a) => a,
            Err(_) => {
                proof {
                    assert(!avg_ok(vs));
                    frame_weaken(pool.groups_v(), old(pool).groups_v(), store.group_collections@, old(store).group_collections@, sizes, i as int, story_id, changed);
                }
                return Err(ServiceError::EmbeddingAveragingError);
            },
        };
        let story_ids_vec2: Vec<i64> = vec![story_id];
        let indices_vec: Vec<i32> = vec![gi];
        proof {
            assert(story_ids_vec2@ =~= seq![story_id]);
            assert(indices_vec@ =~= seq![gi]);
        }
        let existing = match get_indexed_doc_group_qdrant_ids_pg_query(
            story_ids_vec2,
            g,
            indices_vec,
            pool,
        ) {
            Ok(c) => c,
            Err(_) => {
                proof {
                    frame_weaken(pool.groups_v(), old(pool).groups_v(), store.group_collections@, old(store).group_collections@, sizes, i as int, story_id, changed);
                }
                return Err(ServiceError::SelectDocGroupQdrantIdsPgError);
            },
        };
        proof {
            lemma_indexed_containers_singleton(pool.groups_v(), story_id, g, gi);
            // the key is untouched so far, so the current row equals the old one
            assert(!sizes.take(i as int).contains(g)) by {
                if sizes.take(i as int).contains(g) {
                    let k = choose|k: int| 0 <= k < i && sizes.take(i as int)[k] == g;
                    assert(sizes[k] == g);
                    assert(sizes[i as int] == g);
                }
            }
            assert(group_row_at(pool.groups_v(), story_id, g, gi) == group_row_at(
                old(pool).groups_v(),
                story_id,
                g,
                gi,
            ));
        }
        let id: u128 = if existing.len() > 0 {
            existing[0].qdrant_point_id
        } else {
            crate::models::new_uuid_v4()
        };
        proof {
            match group_row_at(old(pool).groups_v(), story_id, g, gi) {
                Some(old_row) => {
                    assert(existing@.len() == 1);
                    assert(existing@[0].qdrant_point_id == old_row.qdrant_point_id);
                },
                None => {
                    assert(existing@.len() == 0);
                },
            }
        }
        let point = VectorPoint {
            id,
            vector: avg,
            story_id,
            index: gi,
            doc_group_size: Some(g),
        };
        let ghost point_v = point@;
        match upsert_group_point(point, g, store) {
            Ok(()) => {},
            Err(e) => {
                proof {
                    assert(old(store).has_group_collection(g) == store.has_group_collection(g));
                    frame_weaken(pool.groups_v(), old(pool).groups_v(), store.group_collections@, old(store).group_collections@, sizes, i as int, story_id, changed);
                }
                return Err(e);
            },
        }
        proof {
            lemma_upsert_point_found(old(store).group_points(g), point_v);
        }
        let row = DocGroupEmbedding::from_details(
            None,
            story_id,
            g,
            gi,
            Some(id),
            None,
            None,
        );
        let ghost row_v = row@;
        let ghost groups_before = pool.groups_v();
        let mut rows_vec: Vec<DocGroupEmbedding> = Vec::new();
        rows_vec.push(row);
        let ghost rows_map = rows_vec@.map_values(|g: DocGroupEmbedding| g@);
        proof {
            assert(rows_map =~= seq![row_v]);
            assert(seq![row_v].drop_last() =~= Seq::<DocGroupEmbeddingV>::empty());
        }
        match upsert_doc_group_embedding_pg_query(rows_vec, pool) {
            Ok(()) => {},
            Err(e) => {
                proof {
                    assert forall|s: i32|
                        !sizes.take(i + 1).contains(s) implies #[trigger]
                    crate::vector_store::group_points_of(store.group_collections@, s)
                        == crate::vector_store::group_points_of(
                        old(store).group_collections@,
                        s,
                    ) by {
                        assert(!sizes.take(i as int).contains(s)) by {
                            if sizes.take(i as int).contains(s) {
                                let k = choose|k: int|
                                    0 <= k < i && sizes.take(i as int)[k] == s;
                                assert(sizes.take(i + 1)[k] == s);
                                assert(sizes.take(i + 1).contains(s));
                            }
                        }
                        assert(s != g) by {
                            if s == g {
                                assert(sizes.take(i + 1)[i as int] == g);
                                assert(sizes.take(i + 1).contains(s));
                            }
                        }
                        assert(store.group_points(s) == old(store).group_points(s));
                    }
                    assert forall|sid: i64, g2: i32, idx: i32|
                        !(sid == story_id && sizes.take(i + 1).contains(g2) && idx as int
                            == spec_group_index(changed, g2 as int)) implies #[trigger]
                    group_row_at(pool.groups_v(), sid, g2, idx) == group_row_at(
                        old(pool).groups_v(),
                        sid,
                        g2,
                        idx,
                    ) by {
                        assert(!(sid == story_id && sizes.take(i as int).contains(g2) && idx as int
                            == spec_group_index(changed, g2 as int))) by {
                            if sizes.take(i as int).contains(g2) {
                                let k = choose|k: int|
                                    0 <= k < i && sizes.take(i as int)[k] == g2;
                                assert(sizes.take(i + 1)[k] == g2);
                                assert(sizes.take(i + 1).contains(g2));
                            }
                        }
                    }
                    frame_weaken(pool.groups_v(), old(pool).groups_v(), store.group_collections@, old(store).group_collections@, sizes, i + 1, story_id, changed);
                }
                return Err(e);
            },
        }
        proof {
            assert(pool.groups_v() == upsert_group_rows(groups_before, rows_map));
            assert(rows_map == seq![row_v]);
            assert(pool.groups_v() == upsert_group_rows(groups_before, seq![row_v]));
            assert(upsert_group_rows(groups_before, seq![row_v]) == upsert_group_row(
                groups_before,
                row_v,
            )) by {
                reveal_with_fuel(upsert_group_rows, 3);
                assert(seq![row_v].drop_last() =~= Seq::<DocGroupEmbeddingV>::empty());
                assert(seq![row_v].last() == row_v);
            }
            assert(pool.groups_v() == upsert_group_row(groups_before, row_v));
            lemma_group_row_at_upsert_same(groups_before, row_v);
            lemma_find_group_characterization(groups_before, row_v.story_id, row_v.doc_group_size, row_v.index);
            // frame for untouched keys, one step further
            assert forall|sid: i64, g2: i32, idx: i32|
                !(sid == story_id && sizes.take(i + 1).contains(g2) && idx as int
                    == spec_group_index(changed, g2 as int)) implies #[trigger] group_row_at(
                pool.groups_v(),
                sid,
                g2,
                idx,
            ) == group_row_at(old(pool).groups_v(), sid, g2, idx) by {
                assert(!(sid == story_id && sizes.take(i as int).contains(g2) && idx as int
                    == spec_group_index(changed, g2 as int))) by {
                    if sizes.take(i as int).contains(g2) {
                        let k = choose|k: int| 0 <= k < i && sizes.take(i as int)[k] == g2;
                        assert(sizes[k] == g2);
                        assert(sizes.take(i + 1)[k] == g2);
                        assert(sizes.take(i + 1).contains(g2));
                    }
                }
                assert(!(sid == row_v.story_id && g2 == row_v.doc_group_size && idx
                    == row_v.index)) by {
                    if sid == row_v.story_id && g2 == row_v.doc_group_size && idx == row_v.index {
                        assert(g2 == g);
                        assert(sizes.take(i + 1)[i as int] == g);
                        assert(sizes.take(i + 1).contains(g2));
                        assert(idx as int == gi as int);
                    }
                }
                lemma_group_row_at_upsert_other(groups_before, row_v, sid, g2, idx);
            }
            // collections of widths outside the processed prefix are untouched
            assert forall|s: i32| !sizes.take(i + 1).contains(s) implies #[trigger]
            store.group_points(s) == old(store).group_points(s) by {
                assert(!sizes.take(i as int).contains(s)) by {
                    if sizes.take(i as int).contains(s) {
                        let k = choose|k: int| 0 <= k < i && sizes.take(i as int)[k] == s;
                        assert(sizes.take(i + 1)[k] == s);
                        assert(sizes.take(i + 1).contains(s));
                    }
                }
                assert(s != g) by {
                    if s == g {
                        assert(sizes.take(i + 1)[i as int] == g);
                        assert(sizes.take(i + 1).contains(s));
                    }
                }
            }
            // the aggregate of width g is now recomputed, and earlier ones survive
            assert forall|k: int| 0 <= k < i + 1 implies group_reaggregated(
                old(pool).docs_v(),
                old(store).doc_points(),
                old(pool).groups_v(),
                pool.groups_v(),
                old(store).group_points(#[trigger] sizes[k]),
                store.group_points(sizes[k]),
                story_id,
                changed,
                sizes[k],
            ) by {
                if k == i {
                    assert(group_row_at(pool.groups_v(), story_id, g, gi) == Some(
                        if find_group(groups_before, story_id, g, gi) == -1 {
                            row_v
                        } else {
                            merged_group_row(
                                groups_before[find_group(groups_before, story_id, g, gi)],
                                row_v,
                            )
                        },
                    ));
                    assert(find_point(store.group_points(g), id) == Some(point_v));
                } else {
                    let gk = sizes[k];
                    assert(gk != g);
                    let gik = spec_group_index(changed, gk as int);
                    assert(!(story_id == row_v.story_id && gk == row_v.doc_group_size && (
                    gik as i32) == row_v.index) ==> group_row_at(
                        pool.groups_v(),
                        story_id,
                        gk,
                        gik as i32,
                    ) == group_row_at(groups_before, story_id, gk, gik as i32)) by {
                        lemma_group_row_at_upsert_other(groups_before, row_v, story_id, gk, gik as i32);
                    }
                    assert(gk != row_v.doc_group_size);
                }
            }
        }
        i = i + 1;
    }
    proof {
        assert(sizes.take(sizes.len() as int) =~= sizes);
        assert forall|g: i32| #[trigger] sizes.contains(g) implies group_reaggregated(
            old(pool).docs_v(),
            old(store).doc_points(),
            old(pool).groups_v(),
            pool.groups_v(),
            old(store).group_points(g),
            store.group_points(g),
            story_id,
            changed,
            g,
        ) by {
            let k = choose|k: int| 0 <= k < sizes.len() && sizes[k] == g;
            assert(group_reaggregated(
                old(pool).docs_v(),
                old(store).doc_points(),
                old(pool).groups_v(),
                pool.groups_v(),
                old(store).group_points(sizes[k]),
                store.group_points(sizes[k]),
                story_id,
                changed,
                sizes[k],
            ));
        }
    }
    Ok(())
}

/// On an early return, the loop's frame facts over the processed
/// prefix weaken to the whole-run frame over `sizes`.
proof fn frame_weaken(
    groups_now: Seq<DocGroupEmbeddingV>,
    groups0: Seq<DocGroupEmbeddingV>,
    gcs_now: Seq<crate::vector_store::GroupCollection>,
    gcs0: Seq<crate::vector_store::GroupCollection>,
    sizes: Seq<i32>,
    i: int,
    story_id: i64,
    changed: int,
)
    requires
        0 <= i <= sizes.len(),
        forall|sid: i64, g2: i32, idx: i32|
            !(sid == story_id && sizes.take(i).contains(g2) && idx as int == spec_group_index(
                changed,
                g2 as int,
            )) ==> #[trigger] group_row_at(groups_now, sid, g2, idx) == group_row_at(
                groups0,
                sid,
                g2,
                idx,
            ),
        forall|s: i32|
            !sizes.take(i).contains(s) ==> #[trigger] crate::vector_store::group_points_of(
                gcs_now,
                s,
            ) == crate::vector_store::group_points_of(gcs0, s),
    ensures
        forall|sid: i64, g2: i32, idx: i32|
            !(sid == story_id && sizes.contains(g2) && idx as int == spec_group_index(
                changed,
                g2 as int,
            )) ==> #[trigger] group_row_at(groups_now, sid, g2, idx) == group_row_at(
                groups0,
                sid,
                g2,
                idx,
            ),
        forall|s: i32|
            !sizes.contains(s) ==> #[trigger] crate::vector_store::group_points_of(gcs_now, s)
                == crate::vector_store::group_points_of(gcs0, s),
{
    assert forall|sid: i64, g2: i32, idx: i32|
        !(sid == story_id && sizes.contains(g2) && idx as int == spec_group_index(
            changed,
            g2 as int,
        )) implies #[trigger] group_row_at(groups_now, sid, g2, idx) == group_row_at(
        groups0,
        sid,
        g2,
        idx,
    ) by {
        assert(!(sid == story_id && sizes.take(i).contains(g2) && idx as int == spec_group_index(
            changed,
            g2 as int,
        ))) by {
            if sizes.take(i).contains(g2) {
                let k = choose|k: int| 0 <= k < i && sizes.take(i)[k] == g2;
                assert(sizes[k] == g2);
                assert(sizes.contains(g2));
            }
        }
    }
    assert forall|s: i32| !sizes.contains(s) implies #[trigger]
    crate::vector_store::group_points_of(gcs_now, s) == crate::vector_store::group_points_of(
        gcs0,
        s,
    ) by {
        assert(!sizes.take(i).contains(s)) by {
            if sizes.take(i).contains(s) {
                let k = choose|k: int| 0 <= k < i && sizes.take(i)[k] == s;
                assert(sizes[k] == s);
                assert(sizes.contains(s));
            }
        }
    }
}

} // verus!
