//! The relational record store: the authoritative tables of document
//! and group rows, modeled in memory with exact contracts.
//!
//! Rows are kept in insertion order; selections return rows in table
//! order, as an unordered relational scan is modeled here. Each
//! operation can be forced to fail through the store's fault switches,
//! which stand for the store's independent failures; a failed
//! operation leaves the store unchanged.
use crate::errors::ServiceError;
use crate::models::{DocEmbedding, DocEmbeddingV, DocGroupEmbedding, DocGroupEmbeddingV};
use vstd::prelude::*;
use vstd::pervasive::VecAdditionalExecFns;

verus! {

/// A row's vector-point identity, as selections of that single column
/// return it.
#[derive(Clone, Copy, PartialEq, Eq, Structural)]
pub struct QdrantPointIdContainer {
    pub qdrant_point_id: u128,
}

/// A group row's point identity together with its aggregation width
/// and group index.
#[derive(Clone, Copy, PartialEq, Eq, Structural)]
pub struct DocGroupQdrantPointIdContainer {
    pub qdrant_point_id: u128,
    pub doc_group_size: i32,
    pub index: i32,
}

/// The two tables of the store, plus its fault switches.
pub struct RelationalStore {
    pub docs: Vec<DocEmbedding>,
    pub groups: Vec<DocGroupEmbedding>,
    pub fail_select: bool,
    pub fail_upsert: bool,
    pub fail_delete: bool,
}

/// The index of the first document row with the given story and
/// position, or -1.
pub open spec fn find_doc(docs: Seq<DocEmbeddingV>, story_id: i64, index: i32) -> int
    decreases docs.len(),
{
    if docs.len() == 0 {
        -1
    } else if docs.first().story_id == story_id && docs.first().index == index {
        0
    } else {
        let r = find_doc(docs.drop_first(), story_id, index);
        if r == -1 {
            -1
        } else {
            r + 1
        }
    }
}

/// The index of the first group row with the given story, width and
/// group index, or -1.
pub open spec fn find_group(
    groups: Seq<DocGroupEmbeddingV>,
    story_id: i64,
    doc_group_size: i32,
    index: i32,
) -> int
    decreases groups.len(),
{
    if groups.len() == 0 {
        -1
    } else if groups.first().story_id == story_id && groups.first().doc_group_size
        == doc_group_size && groups.first().index == index {
        0
    } else {
        let r = find_group(groups.drop_first(), story_id, doc_group_size, index);
        if r == -1 {
            -1
        } else {
            r + 1
        }
    }
}

/// What a document upsert leaves at a conflicting key: the row keeps
/// its identity and creation time; content, point identity and update
/// time come from the new row.
pub open spec fn merged_doc_row(old_row: DocEmbeddingV, new_row: DocEmbeddingV) -> DocEmbeddingV {
    DocEmbeddingV {
        id: old_row.id,
        doc_html: new_row.doc_html,
        story_id: new_row.story_id,
        index: new_row.index,
        qdrant_point_id: new_row.qdrant_point_id,
        created_at: old_row.created_at,
        updated_at: new_row.updated_at,
    }
}

/// What a group upsert leaves at a conflicting key: only the point
/// identity and update time come from the new row.
pub open spec fn merged_group_row(
    old_row: DocGroupEmbeddingV,
    new_row: DocGroupEmbeddingV,
) -> DocGroupEmbeddingV {
    DocGroupEmbeddingV {
        id: old_row.id,
        story_id: old_row.story_id,
        doc_group_size: old_row.doc_group_size,
        index: old_row.index,
        qdrant_point_id: new_row.qdrant_point_id,
        created_at: old_row.created_at,
        updated_at: new_row.updated_at,
    }
}

/// The group table after upserting one row: updated in place at its
/// key if present, appended otherwise.
pub open spec fn upsert_group_row(
    groups: Seq<DocGroupEmbeddingV>,
    row: DocGroupEmbeddingV,
) -> Seq<DocGroupEmbeddingV> {
    let i = find_group(groups, row.story_id, row.doc_group_size, row.index);
    if i == -1 {
        groups.push(row)
    } else {
        groups.update(i, merged_group_row(groups[i], row))
    }
}

/// The group table after upserting each row of `rows` in order.
pub open spec fn upsert_group_rows(
    groups: Seq<DocGroupEmbeddingV>,
    rows: Seq<DocGroupEmbeddingV>,
) -> Seq<DocGroupEmbeddingV>
    decreases rows.len(),
{
    if rows.len() == 0 {
        groups
    } else {
        upsert_group_row(upsert_group_rows(groups, rows.drop_last()), rows.last())
    }
}

/// The point identities of the documents of a story, in table order.
pub open spec fn doc_point_ids_for_story(docs: Seq<DocEmbeddingV>, story_id: i64) -> Seq<u128>
    decreases docs.len(),
{
    if docs.len() == 0 {
        Seq::empty()
    } else {
        doc_point_ids_for_story(docs.drop_last(), story_id) + (if docs.last().story_id
            == story_id {
            seq![docs.last().qdrant_point_id]
        } else {
            Seq::empty()
        })
    }
}

/// The point identities of the documents of a story whose position
/// lies in `[lo, hi)`, in table order.
pub open spec fn doc_point_ids_in_range(
    docs: Seq<DocEmbeddingV>,
    story_id: i64,
    lo: int,
    hi: int,
) -> Seq<u128>
    decreases docs.len(),
{
    if docs.len() == 0 {
        Seq::empty()
    } else {
        doc_point_ids_in_range(docs.drop_last(), story_id, lo, hi) + (if docs.last().story_id
            == story_id && lo <= docs.last().index < hi {
            seq![docs.last().qdrant_point_id]
        } else {
            Seq::empty()
        })
    }
}

/// The positions of the documents of a story, in table order.
pub open spec fn doc_indexes_for_story(docs: Seq<DocEmbeddingV>, story_id: i64) -> Seq<i32>
    decreases docs.len(),
{
    if docs.len() == 0 {
        Seq::empty()
    } else {
        doc_indexes_for_story(docs.drop_last(), story_id) + (if docs.last().story_id == story_id {
            seq![docs.last().index]
        } else {
            Seq::empty()
        })
    }
}

/// The distinct aggregation widths registered for the given stories,
/// in order of first occurrence.
pub open spec fn distinct_group_sizes(
    groups: Seq<DocGroupEmbeddingV>,
    story_ids: Seq<i64>,
) -> Seq<i32>
    decreases groups.len(),
{
    if groups.len() == 0 {
        Seq::empty()
    } else {
        let rest = distinct_group_sizes(groups.drop_last(), story_ids);
        if story_ids.contains(groups.last().story_id) && !rest.contains(
            groups.last().doc_group_size,
        ) {
            rest.push(groups.last().doc_group_size)
        } else {
            rest
        }
    }
}

/// The point-identity containers of the group rows of the given
/// stories and width, in table order.
pub open spec fn group_containers(
    groups: Seq<DocGroupEmbeddingV>,
    story_ids: Seq<i64>,
    doc_group_size: i32,
) -> Seq<DocGroupQdrantPointIdContainer>
    decreases groups.len(),
{
    if groups.len() == 0 {
        Seq::empty()
    } else {
        group_containers(groups.drop_last(), story_ids, doc_group_size) + (if story_ids.contains(
            groups.last().story_id,
        ) && groups.last().doc_group_size == doc_group_size {
            seq![
                DocGroupQdrantPointIdContainer {
                    qdrant_point_id: groups.last().qdrant_point_id,
                    doc_group_size: groups.last().doc_group_size,
                    index: groups.last().index,
                },
            ]
        } else {
            Seq::empty()
        })
    }
}

/// As `group_containers`, further restricted to the given group
/// indices.
pub open spec fn indexed_group_containers(
    groups: Seq<DocGroupEmbeddingV>,
    story_ids: Seq<i64>,
    doc_group_size: i32,
    indices: Seq<i32>,
) -> Seq<DocGroupQdrantPointIdContainer>
    decreases groups.len(),
{
    if groups.len() == 0 {
        Seq::empty()
    } else {
        indexed_group_containers(groups.drop_last(), story_ids, doc_group_size, indices) + (
        if story_ids.contains(groups.last().story_id) && groups.last().doc_group_size
            == doc_group_size && indices.contains(groups.last().index) {
            seq![
                DocGroupQdrantPointIdContainer {
                    qdrant_point_id: groups.last().qdrant_point_id,
                    doc_group_size: groups.last().doc_group_size,
                    index: groups.last().index,
                },
            ]
        } else {
            Seq::empty()
        })
    }
}

impl RelationalStore {
    /// The document table as a sequence of row views.
    pub open spec fn docs_v(&self) -> Seq<DocEmbeddingV> {
        self.docs@.map_values(|r: DocEmbedding| r@)
    }

    /// The group table as a sequence of row views.
    pub open spec fn groups_v(&self) -> Seq<DocGroupEmbeddingV> {
        self.groups@.map_values(|r: DocGroupEmbedding| r@)
    }

    /// The store's key invariants: at most one document row per
    /// `(story_id, index)` and one group row per
    /// `(story_id, doc_group_size, index)`.
    pub open spec fn wf(&self) -> bool {
        &&& forall|i: int, j: int|
            0 <= i < j < self.docs_v().len() ==> !((#[trigger] self.docs_v()[i]).story_id == (
            #[trigger] self.docs_v()[j]).story_id && self.docs_v()[i].index
                == self.docs_v()[j].index)
        &&& forall|i: int, j: int|
            0 <= i < j < self.groups_v().len() ==> !((#[trigger] self.groups_v()[i]).story_id == (
            #[trigger] self.groups_v()[j]).story_id && self.groups_v()[i].doc_group_size
                == self.groups_v()[j].doc_group_size && self.groups_v()[i].index
                == self.groups_v()[j].index)
    }

    /// An empty store with no faults armed.
    pub fn new() -> (r: RelationalStore)
        ensures
            r.docs_v().len() == 0,
            r.groups_v().len() == 0,
            !r.fail_select && !r.fail_upsert && !r.fail_delete,
            r.wf(),
    {
        RelationalStore {
            docs: Vec::new(),
            groups: Vec::new(),
            fail_select: false,
            fail_upsert: false,
            fail_delete: false,
        }
    }

    /// The fault switches, unchanged by every operation.
    pub open spec fn faults(&self) -> (bool, bool, bool) {
        (self.fail_select, self.fail_upsert, self.fail_delete)
    }
}

/// A found index satisfies the document key, nothing before it does;
/// -1 means no row has the key.
pub proof fn lemma_find_doc_characterization(docs: Seq<DocEmbeddingV>, story_id: i64, index: i32)
    ensures
        find_doc(docs, story_id, index) == -1 ==> forall|k: int|
            0 <= k < docs.len() ==> !((#[trigger] docs[k]).story_id == story_id && docs[k].index
                == index),
        find_doc(docs, story_id, index) != -1 ==> {
            let i = find_doc(docs, story_id, index);
            &&& 0 <= i < docs.len()
            &&& docs[i].story_id == story_id && docs[i].index == index
            &&& forall|k: int|
                0 <= k < i ==> !((#[trigger] docs[k]).story_id == story_id && docs[k].index
                    == index)
        },
    decreases docs.len(),
{
    if docs.len() > 0 && !(docs.first().story_id == story_id && docs.first().index == index) {
        lemma_find_doc_characterization(docs.drop_first(), story_id, index);
        assert(forall|k: int| 1 <= k < docs.len() ==> #[trigger] docs[k] == docs.drop_first()[k - 1]);
    }
}

/// An index with the document key, preceded by no row with the key,
/// is `find_doc`.
pub proof fn lemma_find_doc_unique(docs: Seq<DocEmbeddingV>, story_id: i64, index: i32, i: int)
    requires
        0 <= i < docs.len(),
        docs[i].story_id == story_id && docs[i].index == index,
        forall|k: int|
            0 <= k < i ==> !((#[trigger] docs[k]).story_id == story_id && docs[k].index == index),
    ensures
        find_doc(docs, story_id, index) == i,
    decreases docs.len(),
{
    if i > 0 {
        assert(forall|k: int| 1 <= k < docs.len() ==> #[trigger] docs.drop_first()[k - 1] == docs[k]);
        lemma_find_doc_unique(docs.drop_first(), story_id, index, i - 1);
    }
}

/// A found index satisfies the group key, nothing before it does; -1
/// means no row has the key.
pub proof fn lemma_find_group_characterization(
    groups: Seq<DocGroupEmbeddingV>,
    story_id: i64,
    doc_group_size: i32,
    index: i32,
)
    ensures
        find_group(groups, story_id, doc_group_size, index) == -1 ==> forall|k: int|
            0 <= k < groups.len() ==> !((#[trigger] groups[k]).story_id == story_id
                && groups[k].doc_group_size == doc_group_size && groups[k].index == index),
        find_group(groups, story_id, doc_group_size, index) != -1 ==> {
            let i = find_group(groups, story_id, doc_group_size, index);
            &&& 0 <= i < groups.len()
            &&& groups[i].story_id == story_id && groups[i].doc_group_size == doc_group_size
                && groups[i].index == index
            &&& forall|k: int|
                0 <= k < i ==> !((#[trigger] groups[k]).story_id == story_id
                    && groups[k].doc_group_size == doc_group_size && groups[k].index == index)
        },
    decreases groups.len(),
{
    if groups.len() > 0 && !(groups.first().story_id == story_id && groups.first().doc_group_size
        == doc_group_size && groups.first().index == index) {
        lemma_find_group_characterization(groups.drop_first(), story_id, doc_group_size, index);
        assert(forall|k: int|
            1 <= k < groups.len() ==> #[trigger] groups[k] == groups.drop_first()[k - 1]);
    }
}

/// An index with the group key, preceded by no row with the key, is
/// `find_group`.
pub proof fn lemma_find_group_unique(
    groups: Seq<DocGroupEmbeddingV>,
    story_id: i64,
    doc_group_size: i32,
    index: i32,
    i: int,
)
    requires
        0 <= i < groups.len(),
        groups[i].story_id == story_id && groups[i].doc_group_size == doc_group_size
            && groups[i].index == index,
        forall|k: int|
            0 <= k < i ==> !((#[trigger] groups[k]).story_id == story_id
                && groups[k].doc_group_size == doc_group_size && groups[k].index == index),
    ensures
        find_group(groups, story_id, doc_group_size, index) == i,
    decreases groups.len(),
{
    if i > 0 {
        assert(forall|k: int|
            1 <= k < groups.len() ==> #[trigger] groups.drop_first()[k - 1] == groups[k]);
        lemma_find_group_unique(groups.drop_first(), story_id, doc_group_size, index, i - 1);
    }
}

/// Finds the position of the document row with the given key.
fn find_doc_index(pool: &RelationalStore, story_id: i64, index: i32) -> (r: Option<usize>)
    ensures
        match r {
            Some(i) => 0 <= i < pool.docs_v().len() && find_doc(pool.docs_v(), story_id, index)
                == i,
            None => find_doc(pool.docs_v(), story_id, index) == -1,
        },
{
    let ghost docs = pool.docs_v();
    let mut i: usize = 0;
    while i < pool.docs.len()
        invariant
            i <= pool.docs@.len(),
            docs == pool.docs_v(),
            forall|k: int|
                0 <= k < i ==> !((#[trigger] docs[k]).story_id == story_id && docs[k].index
                    == index),
        decreases pool.docs@.len() - i,
    {
        proof {
            assert(docs[i as int] == pool.docs@[i as int]@);
        }
        if pool.docs[i].story_id == story_id && pool.docs[i].index == index {
            proof {
                lemma_find_doc_unique(docs, story_id, index, i as int);
            }
            return Some(i);
        }
        i = i + 1;
    }
    proof {
        lemma_find_doc_characterization(docs, story_id, index);
        if find_doc(docs, story_id, index) != -1 {
            let fi = find_doc(docs, story_id, index);
            assert(!(docs[fi].story_id == story_id && docs[fi].index == index));
        }
    }
    None
}

/// Finds the position of the group row with the given key.
fn find_group_index(pool: &RelationalStore, story_id: i64, doc_group_size: i32, index: i32) -> (r:
    Option<usize>)
    ensures
        match r {
            Some(i) => 0 <= i < pool.groups_v().len() && find_group(
                pool.groups_v(),
                story_id,
                doc_group_size,
                index,
            ) == i,
            None => find_group(pool.groups_v(), story_id, doc_group_size, index) == -1,
        },
{
    let ghost groups = pool.groups_v();
    let mut i: usize = 0;
    while i < pool.groups.len()
        invariant
            i <= pool.groups@.len(),
            groups == pool.groups_v(),
            forall|k: int|
                0 <= k < i ==> !((#[trigger] groups[k]).story_id == story_id
                    && groups[k].doc_group_size == doc_group_size && groups[k].index == index),
        decreases pool.groups@.len() - i,
    {
        proof {
            assert(groups[i as int] == pool.groups@[i as int]@);
        }
        if pool.groups[i].story_id == story_id && pool.groups[i].doc_group_size == doc_group_size
            && pool.groups[i].index == index {
            proof {
                lemma_find_group_unique(groups, story_id, doc_group_size, index, i as int);
            }
            return Some(i);
        }
        i = i + 1;
    }
    proof {
        lemma_find_group_characterization(groups, story_id, doc_group_size, index);
        if find_group(groups, story_id, doc_group_size, index) != -1 {
            let fi = find_group(groups, story_id, doc_group_size, index);
            assert(!(groups[fi].story_id == story_id && groups[fi].doc_group_size == doc_group_size
                && groups[fi].index == index));
        }
    }
    None
}

/// Upserts one document row, keyed by `(story_id, index)`, and
/// returns the point identity the key held before, if any. The select
/// of the previous identity and the write commit together; a failure
/// of either leaves the store unchanged and surfaces as the upsert
/// error.
pub fn upsert_doc_embedding_pg_query(doc_embedding: DocEmbedding, pool: &mut RelationalStore) -> (r:
    Result<Option<u128>, ServiceError>)
    requires
        old(pool).wf(),
    ensures
        final(pool).wf(),
        final(pool).faults() == old(pool).faults(),
        final(pool).groups_v() == old(pool).groups_v(),
        match r {
            Ok(prev) => {
                let docs = old(pool).docs_v();
                let i = find_doc(docs, doc_embedding.story_id, doc_embedding.index);
                &&& !old(pool).fail_select && !old(pool).fail_upsert
                &&& prev == (if i == -1 {
                    None::<u128>
                } else {
                    Some(docs[i].qdrant_point_id)
                })
                &&& final(pool).docs_v() == (if i == -1 {
                    docs.push(doc_embedding@)
                } else {
                    docs.update(i, merged_doc_row(docs[i], doc_embedding@))
                })
            },
            Err(e) => {
                &&& (old(pool).fail_select || old(pool).fail_upsert)
                &&& e == ServiceError::UpsertDocEmbeddingPgError
                &&& final(pool).docs_v() == old(pool).docs_v()
            },
        },
{
    if pool.fail_select || pool.fail_upsert {
        return Err(ServiceError::UpsertDocEmbeddingPgError);
    }
    let ghost docs = pool.docs_v();
    let found = find_doc_index(pool, doc_embedding.story_id, doc_embedding.index);
    match found {
        Some(i) => {
            let prev = pool.docs[i].qdrant_point_id;
            let old_id = pool.docs[i].id;
            let old_created = pool.docs[i].created_at;
            let merged = DocEmbedding {
                id: old_id,
                doc_html: doc_embedding.doc_html,
                story_id: doc_embedding.story_id,
                index: doc_embedding.index,
                qdrant_point_id: doc_embedding.qdrant_point_id,
                created_at: old_created,
                updated_at: doc_embedding.updated_at,
            };
            proof {
                assert(docs[i as int] == pool.docs@[i as int]@);
                lemma_find_doc_characterization(docs, doc_embedding.story_id, doc_embedding.index);
            }
            pool.docs.set(i, merged);
            proof {
                assert(pool.docs_v() =~= docs.update(
                    i as int,
                    merged_doc_row(docs[i as int], DocEmbeddingV {
                        id: doc_embedding.id,
                        doc_html: doc_embedding.doc_html@,
                        story_id: doc_embedding.story_id,
                        index: doc_embedding.index,
                        qdrant_point_id: doc_embedding.qdrant_point_id,
                        created_at: doc_embedding.created_at,
                        updated_at: doc_embedding.updated_at,
                    }),
                ));
                assert forall|a: int, b: int|
                    0 <= a < b < pool.docs_v().len() implies !((#[trigger] pool.docs_v()[a]).story_id
                    == (#[trigger] pool.docs_v()[b]).story_id && pool.docs_v()[a].index
                    == pool.docs_v()[b].index) by {
                    assert(pool.docs_v()[a].story_id == docs[a].story_id && pool.docs_v()[a].index
                        == docs[a].index);
                    assert(pool.docs_v()[b].story_id == docs[b].story_id && pool.docs_v()[b].index
                        == docs[b].index);
                }
                assert(pool.groups_v() =~= old(pool).groups_v());
            }
            Ok(Some(prev))
        },
        None => {
            proof {
                lemma_find_doc_characterization(docs, doc_embedding.story_id, doc_embedding.index);
            }
            let ghost row_v = doc_embedding@;
            pool.docs.push(doc_embedding);
            proof {
                assert(pool.docs_v() =~= docs.push(row_v));
                assert forall|a: int, b: int|
                    0 <= a < b < pool.docs_v().len() implies !((#[trigger] pool.docs_v()[a]).story_id
                    == (#[trigger] pool.docs_v()[b]).story_id && pool.docs_v()[a].index
                    == pool.docs_v()[b].index) by {
                    if b < docs.len() {
                        assert(pool.docs_v()[a] == docs[a]);
                        assert(pool.docs_v()[b] == docs[b]);
                    } else {
                        assert(pool.docs_v()[a] == docs[a]);
                        assert(pool.docs_v()[b] == row_v);
                    }
                }
                assert(pool.groups_v() =~= old(pool).groups_v());
            }
            Ok(None)
        },
    }
}

/// Deletes the document row keyed by the given row's
/// `(story_id, index)`, if present. This is the forward-only
/// compensation of the dual-store write protocol.
pub fn delete_doc_embedding_pg_query(doc_embedding: &DocEmbedding, pool: &mut RelationalStore) -> (r:
    Result<(), ServiceError>)
    requires
        old(pool).wf(),
    ensures
        final(pool).wf(),
        final(pool).faults() == old(pool).faults(),
        final(pool).groups_v() == old(pool).groups_v(),
        match r {
            Ok(()) => {
                let docs = old(pool).docs_v();
                let i = find_doc(docs, doc_embedding.story_id, doc_embedding.index);
                &&& !old(pool).fail_delete
                &&& final(pool).docs_v() == (if i == -1 {
                    docs
                } else {
                    docs.remove(i)
                })
            },
            Err(e) => {
                &&& old(pool).fail_delete
                &&& e == ServiceError::DeleteDocEmbeddingError
                &&& final(pool).docs_v() == old(pool).docs_v()
            },
        },
{
    if pool.fail_delete {
        return Err(ServiceError::DeleteDocEmbeddingError);
    }
    let ghost docs = pool.docs_v();
    let found = find_doc_index(pool, doc_embedding.story_id, doc_embedding.index);
    match found {
        Some(i) => {
            pool.docs.remove(i);
            proof {
                assert(pool.docs_v() =~= docs.remove(i as int));
                assert forall|a: int, b: int|
                    0 <= a < b < pool.docs_v().len() implies !((#[trigger] pool.docs_v()[a]).story_id
                    == (#[trigger] pool.docs_v()[b]).story_id && pool.docs_v()[a].index
                    == pool.docs_v()[b].index) by {
                    let a0 = if a < i { a } else { a + 1 };
                    let b0 = if b < i { b } else { b + 1 };
                    assert(pool.docs_v()[a] == docs[a0]);
                    assert(pool.docs_v()[b] == docs[b0]);
                }
                assert(pool.groups_v() =~= old(pool).groups_v());
            }
            Ok(())
        },
        None => {
            Ok(())
        },
    }
}

/// The distinct aggregation widths already registered for the given
/// stories, in order of first occurrence.
pub fn get_unique_doc_group_sizes(story_ids: Vec<i64>, pool: &RelationalStore) -> (r: Result<
    Vec<i32>,
    ServiceError,
>)
    ensures
        match r {
            Ok(sizes) => !pool.fail_select && sizes@ == distinct_group_sizes(
                pool.groups_v(),
                story_ids@,
            ),
            Err(e) => pool.fail_select && e == ServiceError::SelectUniqueDocGroupSizesPgError,
        },
{
    if pool.fail_select {
        return Err(ServiceError::SelectUniqueDocGroupSizesPgError);
    }
    let ghost groups = pool.groups_v();
    let mut out: Vec<i32> = Vec::new();
    let mut i: usize = 0;
    while i < pool.groups.len()
        invariant
            i <= pool.groups@.len(),
            groups == pool.groups_v(),
            out@ == distinct_group_sizes(groups.take(i as int), story_ids@),
        decreases pool.groups@.len() - i,
    {
        proof {
            assert(groups.take(i + 1).drop_last() =~= groups.take(i as int));
            assert(groups.take(i + 1).last() == groups[i as int]);
            assert(groups[i as int] == pool.groups@[i as int]@);
        }
        let in_stories = crate::seq_util::contains_i64(&story_ids, pool.groups[i].story_id);
        let size = pool.groups[i].doc_group_size;
        if in_stories && !crate::seq_util::contains_i32(&out, size) {
            out.push(size);
        }
        i = i + 1;
    }
    proof {
        assert(groups.take(groups.len() as int) =~= groups);
    }
    Ok(out)
}

/// The point-identity containers of the group rows of the given
/// stories and width.
pub fn get_doc_group_qdrant_ids_pg_query(
    story_ids: Vec<i64>,
    doc_group_size: i32,
    pool: &RelationalStore,
) -> (r: Result<Vec<DocGroupQdrantPointIdContainer>, ServiceError>)
    ensures
        match r {
            Ok(cs) => !pool.fail_select && cs@ == group_containers(
                pool.groups_v(),
                story_ids@,
                doc_group_size,
            ),
            Err(e) => pool.fail_select && e == ServiceError::SelectDocGroupQdrantIdsPgError,
        },
{
    if pool.fail_select {
        return Err(ServiceError::SelectDocGroupQdrantIdsPgError);
    }
    let ghost groups = pool.groups_v();
    let mut out: Vec<DocGroupQdrantPointIdContainer> = Vec::new();
    let mut i: usize = 0;
    while i < pool.groups.len()
        invariant
            i <= pool.groups@.len(),
            groups == pool.groups_v(),
            out@ == group_containers(groups.take(i as int), story_ids@, doc_group_size),
        decreases pool.groups@.len() - i,
    {
        proof {
            assert(groups.take(i + 1).drop_last() =~= groups.take(i as int));
            assert(groups.take(i + 1).last() == groups[i as int]);
            assert(groups[i as int] == pool.groups@[i as int]@);
        }
        let in_stories = crate::seq_util::contains_i64(&story_ids, pool.groups[i].story_id);
        if in_stories && pool.groups[i].doc_group_size == doc_group_size {
            out.push(
                DocGroupQdrantPointIdContainer {
                    qdrant_point_id: pool.groups[i].qdrant_point_id,
                    doc_group_size: pool.groups[i].doc_group_size,
                    index: pool.groups[i].index,
                },
            );
        }
        i = i + 1;
    }
    proof {
        assert(groups.take(groups.len() as int) =~= groups);
    }
    Ok(out)
}

/// As `get_doc_group_qdrant_ids_pg_query`, further restricted to the
/// given group indices.
pub fn get_indexed_doc_group_qdrant_ids_pg_query(
    story_ids: Vec<i64>,
    doc_group_size: i32,
    indices: Vec<i32>,
    pool: &RelationalStore,
) -> (r: Result<Vec<DocGroupQdrantPointIdContainer>, ServiceError>)
    ensures
        match r {
            Ok(cs) => !pool.fail_select && cs@ == indexed_group_containers(
                pool.groups_v(),
                story_ids@,
                doc_group_size,
                indices@,
            ),
            Err(e) => pool.fail_select && e == ServiceError::SelectDocGroupQdrantIdsPgError,
        },
{
    if pool.fail_select {
        return Err(ServiceError::SelectDocGroupQdrantIdsPgError);
    }
    let ghost groups = pool.groups_v();
    let mut out: Vec<DocGroupQdrantPointIdContainer> = Vec::new();
    let mut i: usize = 0;
    while i < pool.groups.len()
        invariant
            i <= pool.groups@.len(),
            groups == pool.groups_v(),
            out@ == indexed_group_containers(
                groups.take(i as int),
                story_ids@,
                doc_group_size,
                indices@,
            ),
        decreases pool.groups@.len() - i,
    {
        proof {
            assert(groups.take(i + 1).drop_last() =~= groups.take(i as int));
            assert(groups.take(i + 1).last() == groups[i as int]);
            assert(groups[i as int] == pool.groups@[i as int]@);
        }
        let in_stories = crate::seq_util::contains_i64(&story_ids, pool.groups[i].story_id);
        let in_indices = crate::seq_util::contains_i32(&indices, pool.groups[i].index);
        if in_stories && pool.groups[i].doc_group_size == doc_group_size && in_indices {
            out.push(
                DocGroupQdrantPointIdContainer {
                    qdrant_point_id: pool.groups[i].qdrant_point_id,
                    doc_group_size: pool.groups[i].doc_group_size,
                    index: pool.groups[i].index,
                },
            );
        }
        i = i + 1;
    }
    proof {
        assert(groups.take(groups.len() as int) =~= groups);
    }
    Ok(out)
}

/// The point identities of a story's documents, in table order.
pub fn get_doc_embeddings_pg_query(story_id: i64, pool: &RelationalStore) -> (r: Result<
    Vec<u128>,
    ServiceError,
>)
    ensures
        match r {
            Ok(ids) => !pool.fail_select && ids@ == doc_point_ids_for_story(
                pool.docs_v(),
                story_id,
            ),
            Err(e) => pool.fail_select && e == ServiceError::GetDocEmbeddingsPgError,
        },
{
    if pool.fail_select {
        return Err(ServiceError::GetDocEmbeddingsPgError);
    }
    let ghost docs = pool.docs_v();
    let mut out: Vec<u128> = Vec::new();
    let mut i: usize = 0;
    while i < pool.docs.len()
        invariant
            i <= pool.docs@.len(),
            docs == pool.docs_v(),
            out@ == doc_point_ids_for_story(docs.take(i as int), story_id),
        decreases pool.docs@.len() - i,
    {
        proof {
            assert(docs.take(i + 1).drop_last() =~= docs.take(i as int));
            assert(docs.take(i + 1).last() == docs[i as int]);
            assert(docs[i as int] == pool.docs@[i as int]@);
        }
        if pool.docs[i].story_id == story_id {
            out.push(pool.docs[i].qdrant_point_id);
        }
        i = i + 1;
    }
    proof {
        assert(docs.take(docs.len() as int) =~= docs);
    }
    Ok(out)
}

/// The positions of a story's documents, in table order.
pub fn select_doc_indexes_for_story(story_id: i64, pool: &RelationalStore) -> (r: Result<
    Vec<i32>,
    ServiceError,
>)
    ensures
        match r {
            Ok(idxs) => !pool.fail_select && idxs@ == doc_indexes_for_story(
                pool.docs_v(),
                story_id,
            ),
            Err(e) => pool.fail_select && e == ServiceError::GetDocEmbeddingsPgError,
        },
{
    if pool.fail_select {
        return Err(ServiceError::GetDocEmbeddingsPgError);
    }
    let ghost docs = pool.docs_v();
    let mut out: Vec<i32> = Vec::new();
    let mut i: usize = 0;
    while i < pool.docs.len()
        invariant
            i <= pool.docs@.len(),
            docs == pool.docs_v(),
            out@ == doc_indexes_for_story(docs.take(i as int), story_id),
        decreases pool.docs@.len() - i,
    {
        proof {
            assert(docs.take(i + 1).drop_last() =~= docs.take(i as int));
            assert(docs.take(i + 1).last() == docs[i as int]);
            assert(docs[i as int] == pool.docs@[i as int]@);
        }
        if pool.docs[i].story_id == story_id {
            out.push(pool.docs[i].index);
        }
        i = i + 1;
    }
    proof {
        assert(docs.take(docs.len() as int) =~= docs);
    }
    Ok(out)
}

/// The point identity of the document at one position of a story, or
/// nothing when the position is unoccupied.
pub fn select_doc_point_id_at(story_id: i64, index: i32, pool: &RelationalStore) -> (r: Result<
    Option<u128>,
    ServiceError,
>)
    ensures
        match r {
            Ok(id) => {
                let i = find_doc(pool.docs_v(), story_id, index);
                &&& !pool.fail_select
                &&& id == (if i == -1 {
                    None::<u128>
                } else {
                    Some(pool.docs_v()[i].qdrant_point_id)
                })
            },
            Err(e) => pool.fail_select && e == ServiceError::GetDocEmbeddingsPgError,
        },
{
    if pool.fail_select {
        return Err(ServiceError::GetDocEmbeddingsPgError);
    }
    let found = find_doc_index(pool, story_id, index);
    match found {
        Some(i) => Ok(Some(pool.docs[i].qdrant_point_id)),
        None => Ok(None),
    }
}

/// The point identities of a story's documents whose position lies in
/// `[lo, hi)`, in table order.
pub fn select_doc_point_ids_in_range(
    story_id: i64,
    lo: i64,
    hi: i64,
    pool: &RelationalStore,
) -> (r: Result<Vec<u128>, ServiceError>)
    ensures
        match r {
            Ok(ids) => !pool.fail_select && ids@ == doc_point_ids_in_range(
                pool.docs_v(),
                story_id,
                lo as int,
                hi as int,
            ),
            Err(e) => pool.fail_select && e == ServiceError::SelectDocEmbeddingsQdrantIdsPgError,
        },
{
    if pool.fail_select {
        return Err(ServiceError::SelectDocEmbeddingsQdrantIdsPgError);
    }
    let ghost docs = pool.docs_v();
    let mut out: Vec<u128> = Vec::new();
    let mut i: usize = 0;
    while i < pool.docs.len()
        invariant
            i <= pool.docs@.len(),
            docs == pool.docs_v(),
            out@ == doc_point_ids_in_range(docs.take(i as int), story_id, lo as int, hi as int),
        decreases pool.docs@.len() - i,
    {
        proof {
            assert(docs.take(i + 1).drop_last() =~= docs.take(i as int));
            assert(docs.take(i + 1).last() == docs[i as int]);
            assert(docs[i as int] == pool.docs@[i as int]@);
        }
        let idx = pool.docs[i].index as i64;
        if pool.docs[i].story_id == story_id && lo <= idx && idx < hi {
            out.push(pool.docs[i].qdrant_point_id);
        }
        i = i + 1;
    }
    proof {
        assert(docs.take(docs.len() as int) =~= docs);
    }
    Ok(out)
}

/// Upserts one group row, keyed by
/// `(story_id, doc_group_size, index)`.
fn upsert_one_group_row(row: DocGroupEmbedding, pool: &mut RelationalStore)
    requires
        old(pool).wf(),
    ensures
        final(pool).wf(),
        final(pool).faults() == old(pool).faults(),
        final(pool).docs_v() == old(pool).docs_v(),
        final(pool).groups_v() == upsert_group_row(old(pool).groups_v(), row@),
{
    let ghost groups = pool.groups_v();
    let found = find_group_index(pool, row.story_id, row.doc_group_size, row.index);
    match found {
        Some(i) => {
            proof {
                assert(groups[i as int] == pool.groups@[i as int]@);
                lemma_find_group_characterization(groups, row.story_id, row.doc_group_size, row.index);
            }
            let old_id = pool.groups[i].id;
            let old_story = pool.groups[i].story_id;
            let old_size = pool.groups[i].doc_group_size;
            let old_index = pool.groups[i].index;
            let old_created = pool.groups[i].created_at;
            let merged = DocGroupEmbedding {
                id: old_id,
                story_id: old_story,
                doc_group_size: old_size,
                index: old_index,
                qdrant_point_id: row.qdrant_point_id,
                created_at: old_created,
                updated_at: row.updated_at,
            };
            pool.groups.set(i, merged);
            proof {
                assert(pool.groups_v() =~= groups.update(
                    i as int,
                    merged_group_row(groups[i as int], row@),
                ));
                assert forall|a: int, b: int|
                    0 <= a < b < pool.groups_v().len() implies !((#[trigger]
                pool.groups_v()[a]).story_id == (#[trigger] pool.groups_v()[b]).story_id
                    && pool.groups_v()[a].doc_group_size == pool.groups_v()[b].doc_group_size
                    && pool.groups_v()[a].index == pool.groups_v()[b].index) by {
                    assert(pool.groups_v()[a].story_id == groups[a].story_id
                        && pool.groups_v()[a].doc_group_size == groups[a].doc_group_size
                        && pool.groups_v()[a].index == groups[a].index);
                    assert(pool.groups_v()[b].story_id == groups[b].story_id
                        && pool.groups_v()[b].doc_group_size == groups[b].doc_group_size
                        && pool.groups_v()[b].index == groups[b].index);
                }
                assert(pool.docs_v() =~= old(pool).docs_v());
            }
        },
        None => {
            proof {
                lemma_find_group_characterization(groups, row.story_id, row.doc_group_size, row.index);
            }
            let ghost row_v = row@;
            pool.groups.push(row);
            proof {
                assert(pool.groups_v() =~= groups.push(row_v));
                assert forall|a: int, b: int|
                    0 <= a < b < pool.groups_v().len() implies !((#[trigger]
                pool.groups_v()[a]).story_id == (#[trigger] pool.groups_v()[b]).story_id
                    && pool.groups_v()[a].doc_group_size == pool.groups_v()[b].doc_group_size
                    && pool.groups_v()[a].index == pool.groups_v()[b].index) by {
                    if b < groups.len() {
                        assert(pool.groups_v()[a] == groups[a]);
                        assert(pool.groups_v()[b] == groups[b]);
                    } else {
                        assert(pool.groups_v()[a] == groups[a]);
                        assert(pool.groups_v()[b] == row_v);
                    }
                }
                assert(pool.docs_v() =~= old(pool).docs_v());
            }
        },
    }
}

/// Upserts the given group rows in order, each keyed by
/// `(story_id, doc_group_size, index)`. A failure leaves the store
/// unchanged.
pub fn upsert_doc_group_embedding_pg_query(
    doc_groups: Vec<DocGroupEmbedding>,
    pool: &mut RelationalStore,
) -> (r: Result<(), ServiceError>)
    requires
        old(pool).wf(),
    ensures
        final(pool).wf(),
        final(pool).faults() == old(pool).faults(),
        final(pool).docs_v() == old(pool).docs_v(),
        match r {
            Ok(()) => !old(pool).fail_upsert && final(pool).groups_v() == upsert_group_rows(
                old(pool).groups_v(),
                doc_groups@.map_values(|g: DocGroupEmbedding| g@),
            ),
            Err(e) => {
                &&& old(pool).fail_upsert
                &&& e == ServiceError::InsertDocGroupEmbeddingPgError
                &&& final(pool).groups_v() == old(pool).groups_v()
            },
        },
{
    if pool.fail_upsert {
        return Err(ServiceError::InsertDocGroupEmbeddingPgError);
    }
    let ghost rows = doc_groups@.map_values(|g: DocGroupEmbedding| g@);
    let ghost groups0 = pool.groups_v();
    let mut i: usize = 0;
    while i < doc_groups.len()
        invariant
            i <= doc_groups@.len(),
            rows == doc_groups@.map_values(|g: DocGroupEmbedding| g@),
            pool.wf(),
            pool.faults() == old(pool).faults(),
            pool.docs_v() == old(pool).docs_v(),
            groups0 == old(pool).groups_v(),
            pool.groups_v() == upsert_group_rows(groups0, rows.take(i as int)),
        decreases doc_groups@.len() - i,
    {
        proof {
            assert(rows.take(i + 1).drop_last() =~= rows.take(i as int));
            assert(rows.take(i + 1).last() == rows[i as int]);
            assert(rows[i as int] == doc_groups@[i as int]@);
        }
        let row = doc_groups[i];
        upsert_one_group_row(row, pool);
        i = i + 1;
    }
    proof {
        assert(rows.take(rows.len() as int) =~= rows);
    }
    Ok(())
}

/// `find_doc` reads only the keys: sequences of equal length whose
/// rows carry the same keys agree on it.
pub proof fn lemma_find_doc_same_keys(
    d1: Seq<DocEmbeddingV>,
    d2: Seq<DocEmbeddingV>,
    story_id: i64,
    index: i32,
)
    requires
        d1.len() == d2.len(),
        forall|k: int|
            0 <= k < d1.len() ==> (#[trigger] d1[k]).story_id == (#[trigger] d2[k]).story_id
                && d1[k].index == d2[k].index,
    ensures
        find_doc(d1, story_id, index) == find_doc(d2, story_id, index),
    decreases d1.len(),
{
    if d1.len() > 0 {
        assert(d1[0].story_id == d2[0].story_id && d1[0].index == d2[0].index);
        assert(forall|k: int|
            0 <= k < d1.drop_first().len() ==> (#[trigger] d1.drop_first()[k]) == d1[k + 1] && (
            #[trigger] d2.drop_first()[k]) == d2[k + 1]);
        lemma_find_doc_same_keys(d1.drop_first(), d2.drop_first(), story_id, index);
    }
}

/// The group row at a key, or nothing.
pub open spec fn group_row_at(
    groups: Seq<DocGroupEmbeddingV>,
    story_id: i64,
    doc_group_size: i32,
    index: i32,
) -> Option<DocGroupEmbeddingV> {
    let i = find_group(groups, story_id, doc_group_size, index);
    if i == -1 {
        None
    } else {
        Some(groups[i])
    }
}

/// Appending a row of another key does not change what `find_group`
/// finds.
pub proof fn lemma_find_group_push_other(
    groups: Seq<DocGroupEmbeddingV>,
    row: DocGroupEmbeddingV,
    story_id: i64,
    doc_group_size: i32,
    index: i32,
)
    requires
        !(row.story_id == story_id && row.doc_group_size == doc_group_size && row.index == index),
    ensures
        find_group(groups.push(row), story_id, doc_group_size, index) == find_group(
            groups,
            story_id,
            doc_group_size,
            index,
        ),
{
    let pushed = groups.push(row);
    lemma_find_group_characterization(groups, story_id, doc_group_size, index);
    let c1 = find_group(groups, story_id, doc_group_size, index);
    assert(forall|k: int| 0 <= k < groups.len() ==> #[trigger] pushed[k] == groups[k]);
    assert(pushed[groups.len() as int] == row);
    if c1 != -1 {
        lemma_find_group_unique(pushed, story_id, doc_group_size, index, c1);
    } else {
        lemma_find_group_characterization(pushed, story_id, doc_group_size, index);
        let c2 = find_group(pushed, story_id, doc_group_size, index);
        if c2 != -1 {
            assert(pushed[c2].story_id == story_id && pushed[c2].doc_group_size == doc_group_size
                && pushed[c2].index == index);
            if c2 < groups.len() {
                assert(groups[c2] == pushed[c2]);
            } else {
                assert(pushed[c2] == row);
            }
        }
    }
}

/// Appending a row whose key is absent makes `find_group` find it at
/// the end.
pub proof fn lemma_find_group_push_absent(groups: Seq<DocGroupEmbeddingV>, row: DocGroupEmbeddingV)
    requires
        find_group(groups, row.story_id, row.doc_group_size, row.index) == -1,
    ensures
        find_group(groups.push(row), row.story_id, row.doc_group_size, row.index)
            == groups.len() as int,
{
    let pushed = groups.push(row);
    lemma_find_group_characterization(groups, row.story_id, row.doc_group_size, row.index);
    assert(forall|k: int| 0 <= k < groups.len() ==> #[trigger] pushed[k] == groups[k]);
    assert(pushed[groups.len() as int] == row);
    lemma_find_group_unique(pushed, row.story_id, row.doc_group_size, row.index, groups.len() as int);
}

/// `find_group` reads only the keys: sequences of equal length whose
/// rows carry the same keys agree on it.
pub proof fn lemma_find_group_same_keys(
    g1: Seq<DocGroupEmbeddingV>,
    g2: Seq<DocGroupEmbeddingV>,
    story_id: i64,
    doc_group_size: i32,
    index: i32,
)
    requires
        g1.len() == g2.len(),
        forall|k: int|
            0 <= k < g1.len() ==> (#[trigger] g1[k]).story_id == (#[trigger] g2[k]).story_id
                && g1[k].doc_group_size == g2[k].doc_group_size && g1[k].index == g2[k].index,
    ensures
        find_group(g1, story_id, doc_group_size, index) == find_group(
            g2,
            story_id,
            doc_group_size,
            index,
        ),
    decreases g1.len(),
{
    if g1.len() > 0 {
        assert(g1[0].story_id == g2[0].story_id && g1[0].doc_group_size == g2[0].doc_group_size
            && g1[0].index == g2[0].index);
        assert(forall|k: int|
            0 <= k < g1.drop_first().len() ==> (#[trigger] g1.drop_first()[k]) == g1[k + 1] && (
            #[trigger] g2.drop_first()[k]) == g2[k + 1]);
        lemma_find_group_same_keys(g1.drop_first(), g2.drop_first(), story_id, doc_group_size, index);
    }
}

/// Upserting a row leaves the row at every other key unchanged.
pub proof fn lemma_group_row_at_upsert_other(
    groups: Seq<DocGroupEmbeddingV>,
    row: DocGroupEmbeddingV,
    story_id: i64,
    doc_group_size: i32,
    index: i32,
)
    requires
        !(row.story_id == story_id && row.doc_group_size == doc_group_size && row.index == index),
    ensures
        group_row_at(upsert_group_row(groups, row), story_id, doc_group_size, index)
            == group_row_at(groups, story_id, doc_group_size, index),
{
    let i = find_group(groups, row.story_id, row.doc_group_size, row.index);
    lemma_find_group_characterization(groups, row.story_id, row.doc_group_size, row.index);
    lemma_find_group_characterization(groups, story_id, doc_group_size, index);
    if i == -1 {
        lemma_find_group_push_other(groups, row, story_id, doc_group_size, index);
    } else {
        let updated = groups.update(i, merged_group_row(groups[i], row));
        assert(forall|k: int|
            0 <= k < groups.len() ==> (#[trigger] updated[k]).story_id == (
            #[trigger] groups[k]).story_id && updated[k].doc_group_size
                == groups[k].doc_group_size && updated[k].index == groups[k].index);
        lemma_find_group_same_keys(updated, groups, story_id, doc_group_size, index);
        let j = find_group(groups, story_id, doc_group_size, index);
        if j != -1 {
            assert(groups[j].story_id == story_id && groups[j].doc_group_size == doc_group_size
                && groups[j].index == index);
            assert(groups[i].story_id == row.story_id && groups[i].doc_group_size
                == row.doc_group_size && groups[i].index == row.index);
            assert(j != i);
            assert(updated[j] == groups[j]);
        }
    }
}

/// Upserting a row leaves its own key holding the merged or the new
/// row.
pub proof fn lemma_group_row_at_upsert_same(groups: Seq<DocGroupEmbeddingV>, row: DocGroupEmbeddingV)
    ensures
        group_row_at(upsert_group_row(groups, row), row.story_id, row.doc_group_size, row.index)
            == Some(
            if find_group(groups, row.story_id, row.doc_group_size, row.index) == -1 {
                row
            } else {
                merged_group_row(
                    groups[find_group(groups, row.story_id, row.doc_group_size, row.index)],
                    row,
                )
            },
        ),
{
    let i = find_group(groups, row.story_id, row.doc_group_size, row.index);
    lemma_find_group_characterization(groups, row.story_id, row.doc_group_size, row.index);
    if i == -1 {
        lemma_find_group_push_absent(groups, row);
        assert(groups.push(row)[groups.len() as int] == row);
    } else {
        let merged = merged_group_row(groups[i], row);
        let updated = groups.update(i, merged);
        assert(forall|k: int|
            0 <= k < groups.len() ==> (#[trigger] updated[k]).story_id == (
            #[trigger] groups[k]).story_id && updated[k].doc_group_size
                == groups[k].doc_group_size && updated[k].index == groups[k].index);
        lemma_find_group_same_keys(updated, groups, row.story_id, row.doc_group_size, row.index);
        assert(updated[i] == merged);
    }
}

/// The distinct widths are pairwise distinct.
pub proof fn lemma_distinct_group_sizes_distinct(groups: Seq<DocGroupEmbeddingV>, story_ids: Seq<i64>)
    ensures
        forall|i: int, j: int|
            0 <= i < j < distinct_group_sizes(groups, story_ids).len() ==> (
            #[trigger] distinct_group_sizes(groups, story_ids)[i]) != (
            #[trigger] distinct_group_sizes(groups, story_ids)[j]),
    decreases groups.len(),
{
    if groups.len() > 0 {
        lemma_distinct_group_sizes_distinct(groups.drop_last(), story_ids);
        let rest = distinct_group_sizes(groups.drop_last(), story_ids);
        let cur = distinct_group_sizes(groups, story_ids);
        if story_ids.contains(groups.last().story_id) && !rest.contains(
            groups.last().doc_group_size,
        ) {
            assert(forall|k: int| 0 <= k < rest.len() ==> (#[trigger] cur[k]) == rest[k]);
            assert forall|k: int| 0 <= k < rest.len() implies (#[trigger] rest[k])
                != groups.last().doc_group_size by {
                if rest[k] == groups.last().doc_group_size {
                    assert(rest.contains(groups.last().doc_group_size));
                }
            }
        }
    }
}

/// In a well-keyed table, the containers selected for one story, one
/// width and one group index are exactly the container of the row at
/// that key, if any.
pub proof fn lemma_indexed_containers_singleton(
    groups: Seq<DocGroupEmbeddingV>,
    story_id: i64,
    doc_group_size: i32,
    index: i32,
)
    requires
        forall|i: int, j: int|
            0 <= i < j < groups.len() ==> !((#[trigger] groups[i]).story_id == (
            #[trigger] groups[j]).story_id && groups[i].doc_group_size
                == groups[j].doc_group_size && groups[i].index == groups[j].index),
    ensures
        indexed_group_containers(groups, seq![story_id], doc_group_size, seq![index]) == (
        match group_row_at(groups, story_id, doc_group_size, index) {
            Some(row) => seq![
                DocGroupQdrantPointIdContainer {
                    qdrant_point_id: row.qdrant_point_id,
                    doc_group_size: row.doc_group_size,
                    index: row.index,
                },
            ],
            None => Seq::<DocGroupQdrantPointIdContainer>::empty(),
        }),
    decreases groups.len(),
{
    lemma_find_group_characterization(groups, story_id, doc_group_size, index);
    if groups.len() == 0 {
    } else {
        let dl = groups.drop_last();
        assert(forall|i: int, j: int|
            0 <= i < j < dl.len() ==> !((#[trigger] dl[i]).story_id == (#[trigger] dl[j]).story_id
                && dl[i].doc_group_size == dl[j].doc_group_size && dl[i].index == dl[j].index))
            by {
            assert(forall|k: int| 0 <= k < dl.len() ==> (#[trigger] dl[k]) == groups[k]);
        }
        lemma_indexed_containers_singleton(dl, story_id, doc_group_size, index);
        lemma_find_group_characterization(dl, story_id, doc_group_size, index);
        let last = groups.last();
        let last_matches = seq![story_id].contains(last.story_id) && last.doc_group_size
            == doc_group_size && seq![index].contains(last.index);
        assert(seq![story_id][0] == story_id);
        assert(seq![index][0] == index);
        if last_matches {
            assert(last.story_id == story_id && last.index == index);
            // the last row matches the key, so no earlier row may
            assert forall|k: int| 0 <= k < dl.len() implies !((#[trigger] dl[k]).story_id
                == story_id && dl[k].doc_group_size == doc_group_size && dl[k].index == index) by {
                assert(dl[k] == groups[k]);
                assert(groups.last() == groups[groups.len() - 1]);
            }
            assert(find_group(dl, story_id, doc_group_size, index) == -1);
            lemma_find_group_unique(groups, story_id, doc_group_size, index, groups.len() - 1);
        } else {
            if last.story_id == story_id && last.doc_group_size == doc_group_size && last.index
                == index {
                assert(seq![story_id].contains(last.story_id));
                assert(seq![index].contains(last.index));
            }
            let j = find_group(dl, story_id, doc_group_size, index);
            if j != -1 {
                lemma_find_group_unique(groups, story_id, doc_group_size, index, j);
            } else {
                assert forall|k: int| 0 <= k < groups.len() implies !((#[trigger]
                groups[k]).story_id == story_id && groups[k].doc_group_size == doc_group_size
                    && groups[k].index == index) by {
                    if k < dl.len() {
                        assert(dl[k] == groups[k]);
                    }
                }
                assert(find_group(groups, story_id, doc_group_size, index) == -1);
            }
        }
    }
}

} // verus!
