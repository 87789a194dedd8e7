//! The vector similarity index: collections of vector points with
//! upsert, delete, scroll, search, recommend and filtered-top-one
//! operations, modeled in memory with exact contracts.
//!
//! One collection holds document points; each aggregation width has
//! its own group collection. The index is a derived cache: rows of the
//! relational store are authoritative for identity. Ranking here is a
//! model of the external index's ranking: points are ordered by a
//! saturating inner product with the query, descending, ties resolved
//! by collection order — no tie order is promised beyond that model
//! choice. Fault switches stand for the store's independent
//! failures; a failed operation reports which mutations, if any, had
//! already been applied.
use crate::errors::ServiceError;
use crate::models::{DocEmbedding, DocEmbeddingQdrantPayload};
use vstd::prelude::*;

verus! {

/// The view of a vector point.
pub struct VectorPointV {
    pub id: u128,
    pub vector: Seq<i64>,
    pub story_id: i64,
    pub index: i32,
    pub doc_group_size: Option<i32>,
}

/// One point of the index: its identity, its vector, and its payload
/// (`story_id` with a document position, or `story_id` with a group
/// index and width).
pub struct VectorPoint {
    pub id: u128,
    pub vector: Vec<i64>,
    pub story_id: i64,
    pub index: i32,
    pub doc_group_size: Option<i32>,
}

impl View for VectorPoint {
    type V = VectorPointV;

    open spec fn view(&self) -> VectorPointV {
        VectorPointV {
            id: self.id,
            vector: self.vector@,
            story_id: self.story_id,
            index: self.index,
            doc_group_size: self.doc_group_size,
        }
    }
}

/// One collection of points.
pub struct VectorCollection {
    pub points: Vec<VectorPoint>,
}

impl VectorCollection {
    /// The collection's points as a sequence of views.
    pub open spec fn points_v(&self) -> Seq<VectorPointV> {
        self.points@.map_values(|p: VectorPoint| p@)
    }
}

/// The group collection of one aggregation width.
pub struct GroupCollection {
    pub doc_group_size: i32,
    pub collection: VectorCollection,
}

/// The whole index: the document collection, the group collections,
/// and the fault switches.
pub struct VectorStore {
    pub doc_collection: VectorCollection,
    pub group_collections: Vec<GroupCollection>,
    pub fail_upsert: bool,
    pub fail_delete: bool,
    pub fail_search: bool,
    pub fail_scroll: bool,
    pub fail_recommend: bool,
}

/// The index of the group collection with the given width, or -1.
pub open spec fn find_gc(sizes: Seq<i32>, doc_group_size: i32) -> int
    decreases sizes.len(),
{
    if sizes.len() == 0 {
        -1
    } else if sizes.first() == doc_group_size {
        0
    } else {
        let r = find_gc(sizes.drop_first(), doc_group_size);
        if r == -1 {
            -1
        } else {
            r + 1
        }
    }
}

/// A found index carries the width, nothing before it does; -1 means
/// no collection has the width.
pub proof fn lemma_find_gc_characterization(sizes: Seq<i32>, doc_group_size: i32)
    ensures
        find_gc(sizes, doc_group_size) == -1 ==> forall|k: int|
            0 <= k < sizes.len() ==> (#[trigger] sizes[k]) != doc_group_size,
        find_gc(sizes, doc_group_size) != -1 ==> {
            let i = find_gc(sizes, doc_group_size);
            &&& 0 <= i < sizes.len()
            &&& sizes[i] == doc_group_size
            &&& forall|k: int| 0 <= k < i ==> (#[trigger] sizes[k]) != doc_group_size
        },
    decreases sizes.len(),
{
    if sizes.len() > 0 && sizes.first() != doc_group_size {
        lemma_find_gc_characterization(sizes.drop_first(), doc_group_size);
        assert(forall|k: int|
            1 <= k < sizes.len() ==> #[trigger] sizes[k] == sizes.drop_first()[k - 1]);
    }
}

/// An index carrying the width, preceded by none, is `find_gc`.
pub proof fn lemma_find_gc_unique(sizes: Seq<i32>, doc_group_size: i32, i: int)
    requires
        0 <= i < sizes.len(),
        sizes[i] == doc_group_size,
        forall|k: int| 0 <= k < i ==> (#[trigger] sizes[k]) != doc_group_size,
    ensures
        find_gc(sizes, doc_group_size) == i,
    decreases sizes.len(),
{
    if i > 0 {
        assert(forall|k: int|
            1 <= k < sizes.len() ==> #[trigger] sizes.drop_first()[k - 1] == sizes[k]);
        lemma_find_gc_unique(sizes.drop_first(), doc_group_size, i - 1);
    }
}

/// The widths of a sequence of group collections, in creation order.
pub open spec fn gc_sizes_of(gcs: Seq<GroupCollection>) -> Seq<i32> {
    gcs.map_values(|g: GroupCollection| g.doc_group_size)
}

/// The points of the group collection of the given width within a
/// sequence of group collections (empty if none has the width).
pub open spec fn group_points_of(gcs: Seq<GroupCollection>, doc_group_size: i32) -> Seq<
    VectorPointV,
> {
    let i = find_gc(gc_sizes_of(gcs), doc_group_size);
    if i == -1 {
        Seq::empty()
    } else {
        gcs[i].collection.points_v()
    }
}

impl VectorStore {
    /// The widths of the group collections, in creation order.
    pub open spec fn gc_sizes(&self) -> Seq<i32> {
        gc_sizes_of(self.group_collections@)
    }

    /// The document collection's points.
    pub open spec fn doc_points(&self) -> Seq<VectorPointV> {
        self.doc_collection.points_v()
    }

    /// The points of the group collection with the given width (empty
    /// if the collection does not exist).
    pub open spec fn group_points(&self, doc_group_size: i32) -> Seq<VectorPointV> {
        group_points_of(self.group_collections@, doc_group_size)
    }

    /// Whether a group collection with the given width exists.
    pub open spec fn has_group_collection(&self, doc_group_size: i32) -> bool {
        find_gc(self.gc_sizes(), doc_group_size) != -1
    }

    /// The fault switches, unchanged by every operation.
    pub open spec fn faults(&self) -> (bool, bool, bool, bool, bool) {
        (self.fail_upsert, self.fail_delete, self.fail_search, self.fail_scroll,
        self.fail_recommend)
    }

    /// An empty index with no faults armed.
    pub fn new() -> (r: VectorStore)
        ensures
            r.doc_points().len() == 0,
            r.gc_sizes().len() == 0,
            r.faults() == (false, false, false, false, false),
    {
        let r = VectorStore {
            doc_collection: VectorCollection { points: Vec::new() },
            group_collections: Vec::new(),
            fail_upsert: false,
            fail_delete: false,
            fail_search: false,
            fail_scroll: false,
            fail_recommend: false,
        };
        proof {
            assert(r.doc_points() =~= Seq::<VectorPointV>::empty());
            assert(r.gc_sizes() =~= Seq::<i32>::empty());
        }
        r
    }
}

/// Finds the position of the group collection with the given width.
fn find_gc_index(store: &VectorStore, doc_group_size: i32) -> (r: Option<usize>)
    ensures
        match r {
            Some(i) => 0 <= i < store.gc_sizes().len() && find_gc(store.gc_sizes(), doc_group_size)
                == i,
            None => find_gc(store.gc_sizes(), doc_group_size) == -1,
        },
{
    let ghost sizes = store.gc_sizes();
    let mut i: usize = 0;
    while i < store.group_collections.len()
        invariant
            i <= store.group_collections@.len(),
            sizes == store.gc_sizes(),
            forall|k: int| 0 <= k < i ==> (#[trigger] sizes[k]) != doc_group_size,
        decreases store.group_collections@.len() - i,
    {
        proof {
            assert(sizes[i as int] == store.group_collections@[i as int].doc_group_size);
        }
        if store.group_collections[i].doc_group_size == doc_group_size {
            proof {
                lemma_find_gc_unique(sizes, doc_group_size, i as int);
            }
            return Some(i);
        }
        i = i + 1;
    }
    proof {
        lemma_find_gc_characterization(sizes, doc_group_size);
        if find_gc(sizes, doc_group_size) != -1 {
            let fi = find_gc(sizes, doc_group_size);
            assert(sizes[fi] == doc_group_size);
        }
    }
    None
}

/// Creates the group collection for the given width if it does not
/// exist yet; an already existing collection is left as it is, and
/// neither case is an error.
pub fn create_doc_group_collection_qdrant_query(doc_group_size: i32, store: &mut VectorStore) -> (r:
    Result<(), ServiceError>)
    ensures
        r is Ok,
        final(store).faults() == old(store).faults(),
        final(store).doc_points() == old(store).doc_points(),
        final(store).has_group_collection(doc_group_size),
        old(store).has_group_collection(doc_group_size) ==> final(store).group_collections@ == old(
            store,
        ).group_collections@,
        !old(store).has_group_collection(doc_group_size) ==> {
            &&& final(store).gc_sizes() == old(store).gc_sizes().push(doc_group_size)
            &&& final(store).group_points(doc_group_size).len() == 0
            &&& forall|s: i32|
                s != doc_group_size ==> #[trigger] final(store).group_points(s) == old(
                    store,
                ).group_points(s)
        },
{
    let ghost sizes = store.gc_sizes();
    let found = find_gc_index(store, doc_group_size);
    match found {
        Some(_) => Ok(()),
        None => {
            proof {
                lemma_find_gc_characterization(sizes, doc_group_size);
            }
            store.group_collections.push(
                GroupCollection {
                    doc_group_size,
                    collection: VectorCollection { points: Vec::new() },
                },
            );
            proof {
                assert(store.gc_sizes() =~= sizes.push(doc_group_size));
                lemma_find_gc_unique(store.gc_sizes(), doc_group_size, sizes.len() as int);
                assert(store.group_collections@[sizes.len() as int].collection.points_v()
                    =~= Seq::<VectorPointV>::empty());
                assert(store.doc_points() =~= old(store).doc_points());
                assert forall|s: i32| s != doc_group_size implies #[trigger] store.group_points(s)
                    == old(store).group_points(s) by {
                    lemma_find_gc_characterization(sizes, s);
                    lemma_find_gc_characterization(store.gc_sizes(), s);
                    let i0 = find_gc(sizes, s);
                    if i0 == -1 {
                        assert(forall|k: int|
                            0 <= k < store.gc_sizes().len() ==> (#[trigger] store.gc_sizes()[k])
                                != s);
                        lemma_find_gc_characterization(store.gc_sizes(), s);
                        assert(find_gc(store.gc_sizes(), s) == -1);
                    } else {
                        lemma_find_gc_unique(store.gc_sizes(), s, i0);
                    }
                }
            }
            Ok(())
        },
    }
}

/// The points of `points` that do not carry the given identity, in
/// order.
pub open spec fn points_without_id(points: Seq<VectorPointV>, id: u128) -> Seq<VectorPointV>
    decreases points.len(),
{
    if points.len() == 0 {
        Seq::empty()
    } else {
        points_without_id(points.drop_last(), id) + (if points.last().id == id {
            Seq::empty()
        } else {
            seq![points.last()]
        })
    }
}

/// The vectors of the points whose identity is in `ids`, in collection
/// order.
pub open spec fn vectors_for_ids(points: Seq<VectorPointV>, ids: Seq<u128>) -> Seq<Seq<i64>>
    decreases points.len(),
{
    if points.len() == 0 {
        Seq::empty()
    } else {
        vectors_for_ids(points.drop_last(), ids) + (if ids.contains(points.last().id) {
            seq![points.last().vector]
        } else {
            Seq::empty()
        })
    }
}

/// A selection by identity has at most as many vectors as the
/// collection has points.
pub proof fn lemma_vectors_for_ids_len(points: Seq<VectorPointV>, ids: Seq<u128>)
    ensures
        vectors_for_ids(points, ids).len() <= points.len(),
    decreases points.len(),
{
    if points.len() > 0 {
        lemma_vectors_for_ids_len(points.drop_last(), ids);
    }
}

/// A collection after upserting one point: every point with the same
/// identity is removed, then the new point is appended.
pub open spec fn upsert_point(points: Seq<VectorPointV>, p: VectorPointV) -> Seq<VectorPointV> {
    points_without_id(points, p.id).push(p)
}

/// A collection after upserting each of `news` in order.
pub open spec fn upsert_points_seq(points: Seq<VectorPointV>, news: Seq<VectorPointV>) -> Seq<
    VectorPointV,
>
    decreases news.len(),
{
    if news.len() == 0 {
        points
    } else {
        upsert_point(upsert_points_seq(points, news.drop_last()), news.last())
    }
}

/// Rebuilds a point vector without the points carrying `id`.
fn remove_points_with_id(points: &Vec<VectorPoint>, id: u128) -> (r: Vec<VectorPoint>)
    ensures
        r@.map_values(|p: VectorPoint| p@) == points_without_id(
            points@.map_values(|p: VectorPoint| p@),
            id,
        ),
{
    let ghost pts = points@.map_values(|p: VectorPoint| p@);
    let mut out: Vec<VectorPoint> = Vec::new();
    let mut i: usize = 0;
    while i < points.len()
        invariant
            i <= points@.len(),
            pts == points@.map_values(|p: VectorPoint| p@),
            out@.map_values(|p: VectorPoint| p@) == points_without_id(pts.take(i as int), id),
        decreases points@.len() - i,
    {
        proof {
            assert(pts.take(i + 1).drop_last() =~= pts.take(i as int));
            assert(pts.take(i + 1).last() == pts[i as int]);
            assert(pts[i as int] == points@[i as int]@);
        }
        if points[i].id != id {
            let ghost old_map = out@.map_values(|p: VectorPoint| p@);
            out.push(copy_point(&points[i]));
            proof {
                assert(out@.map_values(|p: VectorPoint| p@) =~= old_map.push(pts[i as int]));
            }
        }
        i = i + 1;
    }
    proof {
        assert(pts.take(pts.len() as int) =~= pts);
    }
    out
}

/// A field-for-field copy of a point.
fn copy_point(p: &VectorPoint) -> (r: VectorPoint)
    ensures
        r@ == p@,
{
    let mut vector: Vec<i64> = Vec::new();
    let mut i: usize = 0;
    while i < p.vector.len()
        invariant
            i <= p.vector@.len(),
            vector@ == p.vector@.take(i as int),
        decreases p.vector@.len() - i,
    {
        vector.push(p.vector[i]);
        proof {
            assert(p.vector@.take(i + 1) =~= p.vector@.take(i as int).push(p.vector@[i as int]));
        }
        i = i + 1;
    }
    proof {
        assert(p.vector@.take(p.vector@.len() as int) =~= p.vector@);
    }
    VectorPoint {
        id: p.id,
        vector,
        story_id: p.story_id,
        index: p.index,
        doc_group_size: p.doc_group_size,
    }
}

/// Replaces a document's point: the old point, if any, is deleted
/// first, then the new point is written under its fresh identity.
/// A delete failure leaves the index unchanged; an upsert failure
/// leaves the delete applied — the two writes are not atomic together.
pub fn delete_reinsert_doc_embedding_qdrant_query(
    point_id_to_delete: Option<u128>,
    doc_embedding: &DocEmbedding,
    vector: Vec<i64>,
    store: &mut VectorStore,
) -> (r: Result<(), ServiceError>)
    ensures
        final(store).faults() == old(store).faults(),
        final(store).group_collections@ == old(store).group_collections@,
        ({
            let after_delete = match point_id_to_delete {
                Some(del) => points_without_id(old(store).doc_points(), del),
                None => old(store).doc_points(),
            };
            let new_point = VectorPointV {
                id: doc_embedding.qdrant_point_id,
                vector: vector@,
                story_id: doc_embedding.story_id,
                index: doc_embedding.index,
                doc_group_size: None,
            };
            match r {
                Ok(()) => {
                    &&& !old(store).fail_upsert
                    &&& (point_id_to_delete is Some ==> !old(store).fail_delete)
                    &&& final(store).doc_points() == upsert_point(after_delete, new_point)
                },
                Err(e) => {
                    if point_id_to_delete is Some && old(store).fail_delete {
                        &&& e == ServiceError::DeleteDocEmbeddingQdrantError
                        &&& final(store).doc_points() == old(store).doc_points()
                    } else {
                        &&& old(store).fail_upsert
                        &&& e == ServiceError::UpsertDocEmbeddingQdrantError
                        &&& final(store).doc_points() == after_delete
                    }
                },
            }
        }),
{
    if let Some(del) = point_id_to_delete {
        if store.fail_delete {
            return Err(ServiceError::DeleteDocEmbeddingQdrantError);
        }
        let remaining = remove_points_with_id(&store.doc_collection.points, del);
        store.doc_collection = VectorCollection { points: remaining };
    }
    if store.fail_upsert {
        return Err(ServiceError::UpsertDocEmbeddingQdrantError);
    }
    let without = remove_points_with_id(&store.doc_collection.points, doc_embedding.qdrant_point_id);
    let mut points = without;
    points.push(
        VectorPoint {
            id: doc_embedding.qdrant_point_id,
            vector,
            story_id: doc_embedding.story_id,
            index: doc_embedding.index,
            doc_group_size: None,
        },
    );
    let ghost pushed = points@.map_values(|p: VectorPoint| p@);
    store.doc_collection = VectorCollection { points };
    proof {
        assert(store.doc_points() =~= pushed);
        assert(pushed =~= points_without_id(
            match point_id_to_delete {
                Some(del) => points_without_id(old(store).doc_points(), del),
                None => old(store).doc_points(),
            },
            doc_embedding.qdrant_point_id,
        ).push(
            VectorPointV {
                id: doc_embedding.qdrant_point_id,
                vector: vector@,
                story_id: doc_embedding.story_id,
                index: doc_embedding.index,
                doc_group_size: None,
            },
        ));
    }
    Ok(())
}

/// One clamped page of a sequence: the elements from `off` (clamped
/// to the length) up to `off + limit` (likewise clamped).
pub open spec fn page_of<A>(s: Seq<A>, off: int, limit: int) -> Seq<A> {
    let lo = if off < s.len() {
        off
    } else {
        s.len() as int
    };
    let hi = if off + limit < s.len() {
        off + limit
    } else {
        s.len() as int
    };
    s.subrange(lo, hi)
}

/// Collects the vectors of the document points whose identity is in
/// `ids`, in collection order.
fn collect_vectors_for_ids(points: &Vec<VectorPoint>, ids: &Vec<u128>) -> (r: Vec<Vec<i64>>)
    ensures
        r@.map_values(|v: Vec<i64>| v@) == vectors_for_ids(
            points@.map_values(|p: VectorPoint| p@),
            ids@,
        ),
{
    let ghost pts = points@.map_values(|p: VectorPoint| p@);
    let mut out: Vec<Vec<i64>> = Vec::new();
    let mut i: usize = 0;
    while i < points.len()
        invariant
            i <= points@.len(),
            pts == points@.map_values(|p: VectorPoint| p@),
            out@.map_values(|v: Vec<i64>| v@) == vectors_for_ids(pts.take(i as int), ids@),
        decreases points@.len() - i,
    {
        proof {
            assert(pts.take(i + 1).drop_last() =~= pts.take(i as int));
            assert(pts.take(i + 1).last() == pts[i as int]);
            assert(pts[i as int] == points@[i as int]@);
        }
        if crate::seq_util::contains_u128(ids, points[i].id) {
            let ghost old_map = out@.map_values(|v: Vec<i64>| v@);
            let p = copy_point(&points[i]);
            out.push(p.vector);
            proof {
                assert(out@.map_values(|v: Vec<i64>| v@) =~= old_map.push(pts[i as int].vector));
            }
        }
        i = i + 1;
    }
    proof {
        assert(pts.take(pts.len() as int) =~= pts);
    }
    out
}

/// One scroll page over the document points matching `ids`: the
/// matches from `offset` on, at most `limit` of them, and the
/// continuation cursor if matches remain beyond the page.
fn scroll_doc_points(
    store: &VectorStore,
    ids: &Vec<u128>,
    offset: usize,
    limit: usize,
) -> (r: (Vec<Vec<i64>>, Option<usize>))
    requires
        limit >= 1,
    ensures
        ({
            let all = vectors_for_ids(store.doc_points(), ids@);
            &&& r.0@.map_values(|v: Vec<i64>| v@) == page_of(all, offset as int, limit as int)
            &&& r.1 == (if offset + limit < all.len() {
                Some((offset + limit) as usize)
            } else {
                None::<usize>
            })
        }),
{
    let all = collect_vectors_for_ids(&store.doc_collection.points, ids);
    let ghost all_v = vectors_for_ids(store.doc_points(), ids@);
    proof {
        assert(all_v.len() == all@.len());
    }
    let mut out: Vec<Vec<i64>> = Vec::new();
    let mut i: usize = if offset < all.len() {
        offset
    } else {
        all.len()
    };
    let end = if offset <= all.len() && limit <= all.len() - i {
        i + limit
    } else {
        all.len()
    };
    let ghost lo = i as int;
    while i < end
        invariant
            0 <= lo <= i <= end <= all@.len(),
            all@.map_values(|v: Vec<i64>| v@) == all_v,
            out@.map_values(|v: Vec<i64>| v@) == all_v.subrange(lo, i as int),
        decreases end - i,
    {
        proof {
            assert(all_v.len() == all@.len());
        }
        let ghost old_map = out@.map_values(|v: Vec<i64>| v@);
        let mut row: Vec<i64> = Vec::new();
        let mut c: usize = 0;
        while c < all[i].len()
            invariant
                0 <= i < all@.len(),
                c <= all@[i as int]@.len(),
                row@ == all@[i as int]@.take(c as int),
            decreases all@[i as int]@.len() - c,
        {
            row.push(all[i][c]);
            proof {
                assert(all@[i as int]@.take(c + 1) =~= all@[i as int]@.take(c as int).push(
                    all@[i as int]@[c as int],
                ));
            }
            c = c + 1;
        }
        proof {
            assert(row@ =~= all@[i as int]@);
            assert(all@[i as int]@ == all_v[i as int]);
        }
        out.push(row);
        proof {
            assert(all_v.subrange(lo, i + 1) =~= all_v.subrange(lo, i as int).push(
                all_v[i as int],
            ));
            assert(out@.map_values(|v: Vec<i64>| v@) =~= old_map.push(all_v[i as int]));
        }
        i = i + 1;
    }
    proof {
        assert(out@.map_values(|v: Vec<i64>| v@) =~= page_of(all_v, offset as int, limit as int));
    }
    if offset <= all.len() && limit < all.len() - offset {
        (out, Some(offset + limit))
    } else {
        (out, None)
    }
}

/// Fetches the vectors of the document points whose identity is in
/// `qdrant_points`, paging through the index with a continuation
/// cursor until none remains.
pub fn get_doc_embeddings_qdrant_query(qdrant_points: Vec<u128>, store: &VectorStore) -> (r: Result<
    Vec<Vec<i64>>,
    ServiceError,
>)
    ensures
        match r {
            Ok(vecs) => !store.fail_scroll && vecs@.map_values(|v: Vec<i64>| v@) == vectors_for_ids(
                store.doc_points(),
                qdrant_points@,
            ),
            Err(e) => store.fail_scroll && e == ServiceError::ScrollDocEmbeddingQdrantError,
        },
{
    if store.fail_scroll {
        return Err(ServiceError::ScrollDocEmbeddingQdrantError);
    }
    let ghost all = vectors_for_ids(store.doc_points(), qdrant_points@);
    let pts_len = store.doc_collection.points.len();
    proof {
        lemma_vectors_for_ids_len(store.doc_points(), qdrant_points@);
        assert(store.doc_points().len() == pts_len);
        assert(all.len() <= pts_len);
    }
    let limit = if qdrant_points.len() >= 1 {
        qdrant_points.len()
    } else {
        1
    };
    let mut resulting_vectors: Vec<Vec<i64>> = Vec::new();
    let mut offset: usize = 0;
    let mut done = false;
    while !done
        invariant
            limit >= 1,
            all == vectors_for_ids(store.doc_points(), qdrant_points@),
            all.len() <= usize::MAX,
            !done ==> offset <= all.len(),
            !done ==> resulting_vectors@.map_values(|v: Vec<i64>| v@) == all.subrange(
                0,
                offset as int,
            ),
            done ==> resulting_vectors@.map_values(|v: Vec<i64>| v@) == all,
        decreases (if done {
            0int
        } else {
            all.len() - offset + 1
        }),
    {
        proof {
            lemma_vectors_for_ids_len(store.doc_points(), qdrant_points@);
        }
        let (mut page, cursor) = scroll_doc_points(store, &qdrant_points, offset, limit);
        let ghost old_map = resulting_vectors@.map_values(|v: Vec<i64>| v@);
        let ghost page_map = page@.map_values(|v: Vec<i64>| v@);
        resulting_vectors.append(&mut page);
        proof {
            assert(resulting_vectors@.map_values(|v: Vec<i64>| v@) =~= old_map + page_map);
        }
        match cursor {
            Some(next) => {
                proof {
                    assert(next == offset + limit);
                    assert(offset + limit < all.len());
                    assert(page_map == all.subrange(offset as int, next as int));
                    assert(old_map + page_map =~= all.subrange(0, next as int));
                }
                offset = next;
            },
            None => {
                proof {
                    assert(old_map + page_map =~= all);
                }
                done = true;
            },
        }
    }
    Ok(resulting_vectors)
}

/// Fetches the vector of the document point carrying the given
/// identity, or nothing when no point does.
pub fn get_point_vector(id: u128, store: &VectorStore) -> (r: Result<Option<Vec<i64>>, ServiceError>)
    ensures
        match r {
            Ok(v) => {
                &&& !store.fail_scroll
                &&& (find_point(store.doc_points(), id) is Some <==> v is Some)
                &&& (v matches Some(vec) ==> vec@ == find_point(store.doc_points(), id)->0.vector)
            },
            Err(e) => store.fail_scroll && e == ServiceError::ScrollDocEmbeddingQdrantError,
        },
{
    if store.fail_scroll {
        return Err(ServiceError::ScrollDocEmbeddingQdrantError);
    }
    let ghost pts = store.doc_points();
    let points = &store.doc_collection.points;
    let mut i: usize = 0;
    while i < points.len()
        invariant
            i <= points@.len(),
            !store.fail_scroll,
            pts == store.doc_points(),
            pts == points@.map_values(|p: VectorPoint| p@),
            forall|k: int| 0 <= k < i ==> (#[trigger] pts[k]).id != id,
        decreases points@.len() - i,
    {
        proof {
            assert(pts[i as int] == points@[i as int]@);
        }
        if points[i].id == id {
            proof {
                lemma_find_point_unique(pts, id, i as int);
            }
            let p = copy_point(&points[i]);
            return Ok(Some(p.vector));
        }
        i = i + 1;
    }
    proof {
        lemma_find_point_none(pts, id);
    }
    Ok(None)
}

/// The index of the first container carrying group index `index`, or
/// -1.
pub open spec fn find_container(
    containers: Seq<crate::relational_store::DocGroupQdrantPointIdContainer>,
    index: i32,
) -> int
    decreases containers.len(),
{
    if containers.len() == 0 {
        -1
    } else if containers.first().index == index {
        0
    } else {
        let r = find_container(containers.drop_first(), index);
        if r == -1 {
            -1
        } else {
            r + 1
        }
    }
}

/// A found index carries the group index, nothing before it does; -1
/// means no container carries it.
pub proof fn lemma_find_container_characterization(
    containers: Seq<crate::relational_store::DocGroupQdrantPointIdContainer>,
    index: i32,
)
    ensures
        find_container(containers, index) == -1 ==> forall|k: int|
            0 <= k < containers.len() ==> (#[trigger] containers[k]).index != index,
        find_container(containers, index) != -1 ==> {
            let i = find_container(containers, index);
            &&& 0 <= i < containers.len()
            &&& containers[i].index == index
            &&& forall|k: int| 0 <= k < i ==> (#[trigger] containers[k]).index != index
        },
    decreases containers.len(),
{
    if containers.len() > 0 && containers.first().index != index {
        lemma_find_container_characterization(containers.drop_first(), index);
        assert(forall|k: int|
            1 <= k < containers.len() ==> #[trigger] containers[k] == containers.drop_first()[k
                - 1]);
    }
}

/// An index carrying the group index, preceded by none, is
/// `find_container`.
pub proof fn lemma_find_container_unique(
    containers: Seq<crate::relational_store::DocGroupQdrantPointIdContainer>,
    index: i32,
    i: int,
)
    requires
        0 <= i < containers.len(),
        containers[i].index == index,
        forall|k: int| 0 <= k < i ==> (#[trigger] containers[k]).index != index,
    ensures
        find_container(containers, index) == i,
    decreases containers.len(),
{
    if i > 0 {
        assert(forall|k: int|
            1 <= k < containers.len() ==> #[trigger] containers.drop_first()[k - 1]
                == containers[k]);
        lemma_find_container_unique(containers.drop_first(), index, i - 1);
    }
}

/// Finds the container carrying group index `index`.
pub(crate) fn find_container_id(
    containers: &Vec<crate::relational_store::DocGroupQdrantPointIdContainer>,
    index: i32,
) -> (r: Option<u128>)
    ensures
        ({
            let i = find_container(containers@, index);
            match r {
                Some(id) => i != -1 && id == containers@[i].qdrant_point_id,
                None => i == -1,
            }
        }),
{
    let mut i: usize = 0;
    while i < containers.len()
        invariant
            i <= containers@.len(),
            forall|k: int| 0 <= k < i ==> (#[trigger] containers@[k]).index != index,
        decreases containers@.len() - i,
    {
        if containers[i].index == index {
            proof {
                lemma_find_container_unique(containers@, index, i as int);
            }
            return Some(containers[i].qdrant_point_id);
        }
        i = i + 1;
    }
    proof {
        lemma_find_container_characterization(containers@, index);
        if find_container(containers@, index) != -1 {
            let fi = find_container(containers@, index);
            assert(containers@[fi].index != index);
        }
    }
    None
}

/// A field-for-field copy of a point vector.
fn copy_points(points: &Vec<VectorPoint>) -> (r: Vec<VectorPoint>)
    ensures
        r@.map_values(|p: VectorPoint| p@) == points@.map_values(|p: VectorPoint| p@),
{
    let mut out: Vec<VectorPoint> = Vec::new();
    let mut i: usize = 0;
    while i < points.len()
        invariant
            i <= points@.len(),
            out@.map_values(|p: VectorPoint| p@) == points@.map_values(|p: VectorPoint| p@).take(
                i as int,
            ),
        decreases points@.len() - i,
    {
        let ghost old_map = out@.map_values(|p: VectorPoint| p@);
        out.push(copy_point(&points[i]));
        proof {
            let pm = points@.map_values(|p: VectorPoint| p@);
            assert(pm.take(i + 1) =~= pm.take(i as int).push(pm[i as int]));
            assert(out@.map_values(|p: VectorPoint| p@) =~= old_map.push(points@[i as int]@));
        }
        i = i + 1;
    }
    proof {
        let pm = points@.map_values(|p: VectorPoint| p@);
        assert(pm.take(pm.len() as int) =~= pm);
    }
    out
}

/// Batch-upserts points into the group collection of the given width,
/// in order. A failure, or a missing collection, leaves the index
/// unchanged.
pub fn upsert_group_points(points: Vec<VectorPoint>, doc_group_size: i32, store: &mut VectorStore) -> (r:
    Result<(), ServiceError>)
    ensures
        final(store).faults() == old(store).faults(),
        final(store).doc_points() == old(store).doc_points(),
        match r {
            Ok(()) => {
                &&& !old(store).fail_upsert
                &&& old(store).has_group_collection(doc_group_size)
                &&& final(store).group_points(doc_group_size) == upsert_points_seq(
                    old(store).group_points(doc_group_size),
                    points@.map_values(|p: VectorPoint| p@),
                )
                &&& final(store).gc_sizes() == old(store).gc_sizes()
                &&& forall|s: i32|
                    s != doc_group_size ==> #[trigger] final(store).group_points(s) == old(
                        store,
                    ).group_points(s)
            },
            Err(e) => {
                &&& (old(store).fail_upsert || !old(store).has_group_collection(doc_group_size))
                &&& e == ServiceError::UpsertDocGroupEmbeddingQdrantError
                &&& final(store).group_collections@ == old(store).group_collections@
            },
        },
{
    if store.fail_upsert {
        return Err(ServiceError::UpsertDocGroupEmbeddingQdrantError);
    }
    let found = find_gc_index(store, doc_group_size);
    let ci = match found {
        Some(ci) => ci,
        None => {
            return Err(ServiceError::UpsertDocGroupEmbeddingQdrantError);
        },
    };
    let ghost news = points@.map_values(|p: VectorPoint| p@);
    let ghost base = store.group_points(doc_group_size);
    let mut k: usize = 0;
    while k < points.len()
        invariant
            k <= points@.len(),
            news == points@.map_values(|p: VectorPoint| p@),
            0 <= ci < store.group_collections@.len(),
            store.doc_points() == old(store).doc_points(),
            store.faults() == old(store).faults(),
            store.gc_sizes() == old(store).gc_sizes(),
            find_gc(store.gc_sizes(), doc_group_size) == ci,
            base == old(store).group_points(doc_group_size),
            store.group_collections@[ci as int].collection.points_v() == upsert_points_seq(
                base,
                news.take(k as int),
            ),
            forall|x: int|
                0 <= x < store.group_collections@.len() && x != ci
                    ==> #[trigger] store.group_collections@[x] == old(
                    store,
                ).group_collections@[x],
        decreases points@.len() - k,
    {
        proof {
            assert(news.take(k + 1).drop_last() =~= news.take(k as int));
            assert(news.take(k + 1).last() == news[k as int]);
            assert(news[k as int] == points@[k as int]@);
        }
        let p = copy_point(&points[k]);
        let ghost cur = store.group_collections@[ci as int].collection.points_v();
        let without = remove_points_with_id(&store.group_collections[ci].collection.points, p.id);
        let mut new_points = without;
        let ghost pv = p@;
        new_points.push(p);
        let ghost new_map = new_points@.map_values(|q: VectorPoint| q@);
        let size_here = store.group_collections[ci].doc_group_size;
        store.group_collections.set(
            ci,
            GroupCollection { doc_group_size: size_here, collection: VectorCollection { points: new_points } },
        );
        proof {
            assert(new_map =~= points_without_id(cur, pv.id).push(pv));
            assert(store.gc_sizes() =~= old(store).gc_sizes());
            assert(store.group_collections@[ci as int].collection.points_v() == new_map);
        }
        k = k + 1;
    }
    proof {
        assert(news.take(news.len() as int) =~= news);
        assert(store.group_points(doc_group_size) == upsert_points_seq(base, news));
        assert forall|s: i32| s != doc_group_size implies #[trigger] store.group_points(s) == old(
            store,
        ).group_points(s) by {
            lemma_find_gc_characterization(store.gc_sizes(), s);
            lemma_find_gc_characterization(store.gc_sizes(), doc_group_size);
            let i0 = find_gc(store.gc_sizes(), s);
            if i0 != -1 {
                assert(store.gc_sizes()[i0] == s);
                assert(store.gc_sizes()[ci as int] == doc_group_size);
                assert(i0 != ci);
                assert(store.group_collections@[i0] == old(store).group_collections@[i0]);
            }
        }
    }
    Ok(())
}

/// Upserts one recomputed group vector per group index into the group
/// collection of the given width, reusing the point identity of an
/// existing group row where one is known and minting a fresh identity
/// otherwise. Returns the points written. A failure, or a missing
/// collection, leaves the index unchanged.
pub fn insert_doc_group_embedding_qdrant_query(
    existing_doc_groups: Vec<crate::relational_store::DocGroupQdrantPointIdContainer>,
    vectors: Vec<Vec<i64>>,
    story_id: i64,
    doc_group_size: i32,
    store: &mut VectorStore,
) -> (r: Result<Vec<VectorPoint>, ServiceError>)
    requires
        vectors@.len() <= i32::MAX,
    ensures
        final(store).faults() == old(store).faults(),
        final(store).doc_points() == old(store).doc_points(),
        ({
            let sizes = old(store).gc_sizes();
            match r {
                Ok(points) => {
                    &&& !old(store).fail_upsert
                    &&& old(store).has_group_collection(doc_group_size)
                    &&& points@.len() == vectors@.len()
                    &&& forall|j: int|
                        0 <= j < points@.len() ==> {
                            let p = (#[trigger] points@[j])@;
                            &&& p.vector == vectors@[j]@
                            &&& p.story_id == story_id
                            &&& p.index == j
                            &&& p.doc_group_size == Some(doc_group_size)
                            &&& (find_container(existing_doc_groups@, j as i32) != -1 ==> p.id
                                == existing_doc_groups@[find_container(
                                existing_doc_groups@,
                                j as i32,
                            )].qdrant_point_id)
                        }
                    &&& final(store).group_points(doc_group_size) == upsert_points_seq(
                        old(store).group_points(doc_group_size),
                        points@.map_values(|p: VectorPoint| p@),
                    )
                    &&& final(store).gc_sizes() == old(store).gc_sizes()
                    &&& forall|s: i32|
                        s != doc_group_size ==> #[trigger] final(store).group_points(s) == old(
                            store,
                        ).group_points(s)
                },
                Err(e) => {
                    &&& (old(store).fail_upsert || !old(store).has_group_collection(doc_group_size))
                    &&& e == ServiceError::UpsertDocGroupEmbeddingQdrantError
                    &&& final(store).group_collections@ == old(store).group_collections@
                },
            }
        }),
{
    let mut points: Vec<VectorPoint> = Vec::new();
    let mut j: usize = 0;
    while j < vectors.len()
        invariant
            j <= vectors@.len(),
            vectors@.len() <= i32::MAX,
            points@.len() == j,
            forall|k: int|
                0 <= k < j ==> {
                    let p = (#[trigger] points@[k])@;
                    &&& p.vector == vectors@[k]@
                    &&& p.story_id == story_id
                    &&& p.index == k
                    &&& p.doc_group_size == Some(doc_group_size)
                    &&& (find_container(existing_doc_groups@, k as i32) != -1 ==> p.id
                        == existing_doc_groups@[find_container(
                        existing_doc_groups@,
                        k as i32,
                    )].qdrant_point_id)
                },
        decreases vectors@.len() - j,
    {
        let similar = find_container_id(&existing_doc_groups, j as i32);
        let id = match similar {
            Some(id) => id,
            None => crate::models::new_uuid_v4(),
        };
        let mut vector: Vec<i64> = Vec::new();
        let mut c: usize = 0;
        while c < vectors[j].len()
            invariant
                0 <= j < vectors@.len(),
                c <= vectors@[j as int]@.len(),
                vector@ == vectors@[j as int]@.take(c as int),
            decreases vectors@[j as int]@.len() - c,
        {
            vector.push(vectors[j][c]);
            proof {
                assert(vectors@[j as int]@.take(c + 1) =~= vectors@[j as int]@.take(c as int).push(
                    vectors@[j as int]@[c as int],
                ));
            }
            c = c + 1;
        }
        proof {
            assert(vector@ =~= vectors@[j as int]@);
        }
        points.push(
            VectorPoint {
                id,
                vector,
                story_id,
                index: j as i32,
                doc_group_size: Some(doc_group_size),
            },
        );
        j = j + 1;
    }
    let copies = copy_points(&points);
    match upsert_group_points(copies, doc_group_size, store) {
        Ok(()) => Ok(points),
        Err(e) => Err(e),
    }
}

/// The first point carrying the given identity, or nothing.
pub open spec fn find_point(points: Seq<VectorPointV>, id: u128) -> Option<VectorPointV>
    decreases points.len(),
{
    if points.len() == 0 {
        None
    } else if points.first().id == id {
        Some(points.first())
    } else {
        find_point(points.drop_first(), id)
    }
}

/// A found point carries the identity sought.
pub proof fn lemma_find_point_id(points: Seq<VectorPointV>, id: u128)
    ensures
        find_point(points, id) matches Some(p) ==> p.id == id,
    decreases points.len(),
{
    if points.len() > 0 && points.first().id != id {
        lemma_find_point_id(points.drop_first(), id);
    }
}

/// `find_point` misses exactly when no point carries the identity.
pub proof fn lemma_find_point_none(points: Seq<VectorPointV>, id: u128)
    ensures
        find_point(points, id) is None <==> forall|k: int|
            0 <= k < points.len() ==> (#[trigger] points[k]).id != id,
    decreases points.len(),
{
    if points.len() > 0 {
        lemma_find_point_none(points.drop_first(), id);
        assert(forall|k: int|
            1 <= k < points.len() ==> #[trigger] points[k] == points.drop_first()[k - 1]);
        if points.first().id == id {
            assert(points[0].id == id);
        }
    }
}

/// A point with the identity, preceded by none, is what `find_point`
/// finds.
pub proof fn lemma_find_point_unique(points: Seq<VectorPointV>, id: u128, i: int)
    requires
        0 <= i < points.len(),
        points[i].id == id,
        forall|k: int| 0 <= k < i ==> (#[trigger] points[k]).id != id,
    ensures
        find_point(points, id) == Some(points[i]),
    decreases points.len(),
{
    if i > 0 {
        assert(forall|k: int|
            1 <= k < points.len() ==> #[trigger] points.drop_first()[k - 1] == points[k]);
        lemma_find_point_unique(points.drop_first(), id, i - 1);
    }
}

/// No point survives `points_without_id` with the removed identity.
pub proof fn lemma_points_without_id_clears(points: Seq<VectorPointV>, id: u128)
    ensures
        forall|k: int|
            0 <= k < points_without_id(points, id).len() ==> (#[trigger] points_without_id(
                points,
                id,
            )[k]).id != id,
    decreases points.len(),
{
    if points.len() > 0 {
        lemma_points_without_id_clears(points.drop_last(), id);
        let rest = points_without_id(points.drop_last(), id);
        assert(forall|k: int|
            0 <= k < rest.len() ==> points_without_id(points, id)[k] == (#[trigger] rest[k]));
    }
}

/// In a sequence whose points all miss the identity, a point with the
/// identity appended at the end is what `find_point` finds.
pub proof fn lemma_find_point_pushed(points: Seq<VectorPointV>, p: VectorPointV)
    requires
        forall|k: int| 0 <= k < points.len() ==> (#[trigger] points[k]).id != p.id,
    ensures
        find_point(points.push(p), p.id) == Some(p),
    decreases points.len(),
{
    if points.len() == 0 {
        assert(points.push(p).first() == p);
    } else {
        assert(points.push(p).first() == points[0]);
        assert(points.push(p).drop_first() =~= points.drop_first().push(p));
        assert(forall|k: int|
            0 <= k < points.drop_first().len() ==> (#[trigger] points.drop_first()[k]) == points[k
                + 1]);
        lemma_find_point_pushed(points.drop_first(), p);
    }
}

/// After an upsert, the upserted identity resolves to the upserted
/// point.
pub proof fn lemma_upsert_point_found(points: Seq<VectorPointV>, p: VectorPointV)
    ensures
        find_point(upsert_point(points, p), p.id) == Some(p),
{
    lemma_points_without_id_clears(points, p.id);
    lemma_find_point_pushed(points_without_id(points, p.id), p);
}

/// Upserts one point into the group collection of the given width. A
/// failure, or a missing collection, leaves the index unchanged.
pub fn upsert_group_point(point: VectorPoint, doc_group_size: i32, store: &mut VectorStore) -> (r:
    Result<(), ServiceError>)
    ensures
        final(store).faults() == old(store).faults(),
        final(store).doc_points() == old(store).doc_points(),
        final(store).gc_sizes() == old(store).gc_sizes(),
        match r {
            Ok(()) => {
                &&& !old(store).fail_upsert
                &&& old(store).has_group_collection(doc_group_size)
                &&& final(store).group_points(doc_group_size) == upsert_point(
                    old(store).group_points(doc_group_size),
                    point@,
                )
                &&& forall|s: i32|
                    s != doc_group_size ==> #[trigger] final(store).group_points(s) == old(
                        store,
                    ).group_points(s)
            },
            Err(e) => {
                &&& (old(store).fail_upsert || !old(store).has_group_collection(doc_group_size))
                &&& e == ServiceError::UpsertDocGroupEmbeddingQdrantError
                &&& final(store).group_collections@ == old(store).group_collections@
            },
        },
{
    if store.fail_upsert {
        return Err(ServiceError::UpsertDocGroupEmbeddingQdrantError);
    }
    let found = find_gc_index(store, doc_group_size);
    let ci = match found {
        Some(ci) => ci,
        None => {
            return Err(ServiceError::UpsertDocGroupEmbeddingQdrantError);
        },
    };
    let ghost cur = store.group_collections@[ci as int].collection.points_v();
    let without = remove_points_with_id(&store.group_collections[ci].collection.points, point.id);
    let mut new_points = without;
    let ghost pv = point@;
    new_points.push(point);
    let ghost new_map = new_points@.map_values(|q: VectorPoint| q@);
    let size_here = store.group_collections[ci].doc_group_size;
    store.group_collections.set(
        ci,
        GroupCollection {
            doc_group_size: size_here,
            collection: VectorCollection { points: new_points },
        },
    );
    proof {
        assert(new_map =~= points_without_id(cur, pv.id).push(pv));
        assert(store.gc_sizes() =~= old(store).gc_sizes());
        assert(store.doc_points() =~= old(store).doc_points());
        assert(store.group_collections@[ci as int].collection.points_v() == new_map);
        assert forall|s: i32| s != doc_group_size implies #[trigger] store.group_points(s) == old(
            store,
        ).group_points(s) by {
            lemma_find_gc_characterization(store.gc_sizes(), s);
            lemma_find_gc_characterization(store.gc_sizes(), doc_group_size);
            let i0 = find_gc(store.gc_sizes(), s);
            if i0 != -1 {
                assert(store.gc_sizes()[i0] == s);
                assert(store.gc_sizes()[ci as int] == doc_group_size);
                assert(i0 != ci);
                assert(store.group_collections@[i0] == old(store).group_collections@[i0]);
            }
        }
    }
    Ok(())
}

/// `x` clamped to the `i128` range.
pub open spec fn sat_i128(x: int) -> int {
    if x > i128::MAX {
        i128::MAX as int
    } else if x < i128::MIN {
        i128::MIN as int
    } else {
        x
    }
}

/// The saturating inner product of the first `n` components of `a`
/// and `b`.
pub open spec fn dot_prefix(a: Seq<i64>, b: Seq<i64>, n: int) -> int
    decreases n,
{
    if n <= 0 {
        0
    } else {
        sat_i128(dot_prefix(a, b, n - 1) + a[n - 1] * b[n - 1])
    }
}

/// The model's similarity score of a stored vector against a query:
/// their saturating inner product over the shared dimensions.
pub open spec fn spec_score(q: Seq<i64>, v: Seq<i64>) -> int {
    dot_prefix(q, v, if q.len() < v.len() {
        q.len() as int
    } else {
        v.len() as int
    })
}

/// The saturating inner product stays in the `i128` range.
pub proof fn lemma_dot_prefix_in_range(a: Seq<i64>, b: Seq<i64>, n: int)
    ensures
        i128::MIN <= dot_prefix(a, b, n) <= i128::MAX,
    decreases n,
{
    if n > 0 {
        lemma_dot_prefix_in_range(a, b, n - 1);
    }
}

/// Computes the model score of `v` against `q`.
fn score_of(q: &Vec<i64>, v: &Vec<i64>) -> (r: i128)
    ensures
        r as int == spec_score(q@, v@),
{
    let n = if q.len() < v.len() {
        q.len()
    } else {
        v.len()
    };
    let mut acc: i128 = 0;
    let mut k: usize = 0;
    while k < n
        invariant
            k <= n,
            n == (if q@.len() < v@.len() {
                q@.len()
            } else {
                v@.len()
            }),
            acc as int == dot_prefix(q@, v@, k as int),
        decreases n - k,
    {
        proof {
            assert((q@[k as int] as int) * (v@[k as int] as int) <= i128::MAX && (
            q@[k as int] as int) * (v@[k as int] as int) >= i128::MIN) by (nonlinear_arith)
                requires
                    i64::MIN <= q@[k as int] <= i64::MAX,
                    i64::MIN <= v@[k as int] <= i64::MAX,
            ;
        }
        let prod: i128 = (q[k] as i128) * (v[k] as i128);
        acc = match acc.checked_add(prod) {
            Some(s) => s,
            None => {
                if prod > 0 {
                    i128::MAX
                } else {
                    i128::MIN
                }
            },
        };
        k = k + 1;
    }
    acc
}

/// One ranked result: a point's identity, its model score, and its
/// payload.
#[derive(Clone, Copy, PartialEq, Eq, Structural)]
pub struct QdrantPoints {
    pub score: i128,
    pub point_id: u128,
    pub payload: DocEmbeddingQdrantPayload,
}

/// The ranked result a point contributes for a query.
pub open spec fn hit_of(q: Seq<i64>, p: VectorPointV) -> QdrantPoints {
    QdrantPoints {
        score: spec_score(q, p.vector) as i128,
        point_id: p.id,
        payload: DocEmbeddingQdrantPayload { story_id: p.story_id, index: p.index },
    }
}

/// The results the points of a collection contribute for a query, in
/// collection order.
pub open spec fn hits_of(q: Seq<i64>, points: Seq<VectorPointV>) -> Seq<QdrantPoints>
    decreases points.len(),
{
    if points.len() == 0 {
        Seq::empty()
    } else {
        hits_of(q, points.drop_last()).push(hit_of(q, points.last()))
    }
}

/// Inserts a result into a descending list, after every result whose
/// score is at least as high — ties keep their earlier position, a
/// model choice; no tie order is promised beyond it.
pub open spec fn insert_ranked(sorted: Seq<QdrantPoints>, h: QdrantPoints) -> Seq<QdrantPoints>
    decreases sorted.len(),
{
    if sorted.len() == 0 {
        seq![h]
    } else if sorted.first().score >= h.score {
        seq![sorted.first()] + insert_ranked(sorted.drop_first(), h)
    } else {
        seq![h] + sorted
    }
}

/// The results ranked best first: each inserted in turn into a
/// descending list.
pub open spec fn rank_hits(hits: Seq<QdrantPoints>) -> Seq<QdrantPoints>
    decreases hits.len(),
{
    if hits.len() == 0 {
        Seq::empty()
    } else {
        insert_ranked(rank_hits(hits.drop_last()), hits.last())
    }
}

/// The ranked results of searching a collection with a query.
pub open spec fn spec_rank(q: Seq<i64>, points: Seq<VectorPointV>) -> Seq<QdrantPoints> {
    rank_hits(hits_of(q, points))
}

/// `insert_ranked` places the new result exactly at the first
/// position whose score is lower.
proof fn lemma_insert_ranked_at(sorted: Seq<QdrantPoints>, h: QdrantPoints, idx: int)
    requires
        0 <= idx <= sorted.len(),
        forall|k: int| 0 <= k < idx ==> (#[trigger] sorted[k]).score >= h.score,
        idx < sorted.len() ==> sorted[idx].score < h.score,
    ensures
        insert_ranked(sorted, h) == sorted.take(idx) + seq![h] + sorted.skip(idx),
    decreases sorted.len(),
{
    if sorted.len() == 0 {
        assert(insert_ranked(sorted, h) =~= sorted.take(idx) + seq![h] + sorted.skip(idx));
    } else if sorted.first().score >= h.score {
        assert(idx >= 1) by {
            if idx == 0 {
                assert(sorted[0].score < h.score);
            }
        }
        let df = sorted.drop_first();
        assert(forall|k: int| 0 <= k < idx - 1 ==> (#[trigger] df[k]).score >= h.score) by {
            assert(forall|k: int| 0 <= k < df.len() ==> #[trigger] df[k] == sorted[k + 1]);
        }
        assert(idx - 1 < df.len() ==> df[idx - 1].score < h.score) by {
            assert(forall|k: int| 0 <= k < df.len() ==> #[trigger] df[k] == sorted[k + 1]);
        }
        lemma_insert_ranked_at(df, h, idx - 1);
        assert(insert_ranked(sorted, h) =~= sorted.take(idx) + seq![h] + sorted.skip(idx));
    } else {
        assert(idx == 0) by {
            if idx > 0 {
                assert(sorted[0].score >= h.score);
            }
        }
        assert(insert_ranked(sorted, h) =~= sorted.take(idx) + seq![h] + sorted.skip(idx));
    }
}

/// Inserts one result into a descending list as `insert_ranked`
/// defines it.
fn insert_hit(sorted: &mut Vec<QdrantPoints>, h: QdrantPoints)
    ensures
        final(sorted)@ == insert_ranked(old(sorted)@, h),
{
    let mut idx: usize = 0;
    while idx < sorted.len() && sorted[idx].score >= h.score
        invariant
            idx <= sorted@.len(),
            sorted@ == old(sorted)@,
            forall|k: int| 0 <= k < idx ==> (#[trigger] sorted@[k]).score >= h.score,
        decreases sorted@.len() - idx,
    {
        idx = idx + 1;
    }
    proof {
        lemma_insert_ranked_at(sorted@, h, idx as int);
    }
    sorted.insert(idx, h);
    proof {
        assert(final(sorted)@ =~= old(sorted)@.take(idx as int) + seq![h] + old(sorted)@.skip(
            idx as int,
        ));
    }
}

/// Ranks the points of a collection against a query, best first.
fn rank_collection(points: &Vec<VectorPoint>, q: &Vec<i64>) -> (r: Vec<QdrantPoints>)
    ensures
        r@ == spec_rank(q@, points@.map_values(|p: VectorPoint| p@)),
{
    let ghost pts = points@.map_values(|p: VectorPoint| p@);
    let mut sorted: Vec<QdrantPoints> = Vec::new();
    let mut i: usize = 0;
    while i < points.len()
        invariant
            i <= points@.len(),
            pts == points@.map_values(|p: VectorPoint| p@),
            sorted@ == rank_hits(hits_of(q@, pts.take(i as int))),
        decreases points@.len() - i,
    {
        proof {
            assert(pts.take(i + 1).drop_last() =~= pts.take(i as int));
            assert(pts.take(i + 1).last() == pts[i as int]);
            assert(pts[i as int] == points@[i as int]@);
        }
        let score = score_of(q, &points[i].vector);
        proof {
            lemma_dot_prefix_in_range(q@, points@[i as int].vector@, if q@.len()
                < points@[i as int].vector@.len() {
                q@.len() as int
            } else {
                points@[i as int].vector@.len() as int
            });
        }
        let h = QdrantPoints {
            score,
            point_id: points[i].id,
            payload: DocEmbeddingQdrantPayload {
                story_id: points[i].story_id,
                index: points[i].index,
            },
        };
        proof {
            assert(h == hit_of(q@, pts[i as int]));
            let full = hits_of(q@, pts.take(i + 1));
            assert(full == hits_of(q@, pts.take(i as int)).push(h));
            assert(full.drop_last() =~= hits_of(q@, pts.take(i as int)));
            assert(full.last() == h);
        }
        insert_hit(&mut sorted, h);
        i = i + 1;
    }
    proof {
        assert(pts.take(pts.len() as int) =~= pts);
    }
    sorted
}

/// Copies one clamped page of a ranked list.
fn page_slice(sorted: &Vec<QdrantPoints>, off: usize, limit: usize) -> (r: Vec<QdrantPoints>)
    ensures
        r@ == page_of(sorted@, off as int, limit as int),
{
    let lo = if off < sorted.len() {
        off
    } else {
        sorted.len()
    };
    let hi = if off <= sorted.len() && limit <= sorted.len() - lo && off + limit <= sorted.len() {
        off + limit
    } else {
        sorted.len()
    };
    let mut out: Vec<QdrantPoints> = Vec::new();
    let mut i: usize = lo;
    while i < hi
        invariant
            lo <= i <= hi <= sorted@.len(),
            out@ == sorted@.subrange(lo as int, i as int),
        decreases hi - i,
    {
        out.push(sorted[i]);
        proof {
            assert(sorted@.subrange(lo as int, i + 1) =~= sorted@.subrange(lo as int, i as int)
                .push(sorted@[i as int]));
        }
        i = i + 1;
    }
    proof {
        assert(out@ =~= page_of(sorted@, off as int, limit as int));
    }
    out
}

/// Searches a collection for the nearest neighbors of a query vector:
/// the individual-document collection when no width is given, else
/// the group collection of that width. Returns one page of ten ranked
/// results, best first, from offset `(page - 1) * 10`.
pub fn search_qdrant_query(
    embedding: Vec<i64>,
    page: u64,
    doc_group_size: Option<i32>,
    store: &VectorStore,
) -> (r: Result<Vec<QdrantPoints>, ServiceError>)
    requires
        page >= 1,
    ensures
        ({
            let points = match doc_group_size {
                None => store.doc_points(),
                Some(g) => store.group_points(g),
            };
            match r {
                Ok(hits) => {
                    &&& !store.fail_search
                    &&& (doc_group_size matches Some(g) ==> store.has_group_collection(g))
                    &&& hits@ == page_of(
                        spec_rank(embedding@, points),
                        (page - 1) * 10,
                        10,
                    )
                },
                Err(e) => {
                    &&& e == ServiceError::QdrantSearchError
                    &&& (store.fail_search || (doc_group_size matches Some(g)
                        && !store.has_group_collection(g)))
                },
            }
        }),
{
    if store.fail_search {
        return Err(ServiceError::QdrantSearchError);
    }
    let sorted = match doc_group_size {
        None => rank_collection(&store.doc_collection.points, &embedding),
        Some(g) => {
            let found = find_gc_index(store, g);
            match found {
                Some(ci) => rank_collection(&store.group_collections[ci].collection.points, &embedding),
                None => {
                    return Err(ServiceError::QdrantSearchError);
                },
            }
        },
    };
    let off_u128: u128 = (page as u128 - 1) * 10;
    let off: usize = if off_u128 >= sorted.len() as u128 {
        sorted.len()
    } else {
        off_u128 as usize
    };
    let out = page_slice(&sorted, off, 10);
    proof {
        assert(out@ =~= page_of(sorted@, (page - 1) * 10, 10));
    }
    Ok(out)
}

/// The points of a collection whose payload matches the given story
/// and position exactly, in collection order.
pub open spec fn matching_points(points: Seq<VectorPointV>, story_id: i64, index: i64) -> Seq<
    VectorPointV,
>
    decreases points.len(),
{
    if points.len() == 0 {
        Seq::empty()
    } else {
        matching_points(points.drop_last(), story_id, index) + (if points.last().story_id
            == story_id && points.last().index == index {
            seq![points.last()]
        } else {
            Seq::empty()
        })
    }
}

/// The best similarity score of a query against the one point whose
/// payload matches the story and position exactly, or nothing when no
/// point matches. A given width selects that width's group
/// collection; otherwise the document collection is searched.
pub fn similarity_top_filtered_point(
    query_embedding: Vec<i64>,
    story_id: i64,
    index: i64,
    doc_group_size: Option<i32>,
    store: &VectorStore,
) -> (r: Result<Option<i128>, ServiceError>)
    requires
        i32::MIN <= index <= i32::MAX,
    ensures
        ({
            let use_groups = doc_group_size is Some;
            let points = if use_groups {
                store.group_points(doc_group_size->0)
            } else {
                store.doc_points()
            };
            let matched = matching_points(points, story_id, index);
            match r {
                Ok(score) => {
                    &&& !store.fail_search
                    &&& (use_groups ==> store.has_group_collection(doc_group_size->0))
                    &&& score == (if matched.len() == 0 {
                        None::<i128>
                    } else {
                        Some(spec_rank(query_embedding@, matched)[0].score)
                    })
                },
                Err(e) => {
                    &&& e == ServiceError::QdrantSearchError
                    &&& (store.fail_search || (use_groups && !store.has_group_collection(
                        doc_group_size->0,
                    )))
                },
            }
        }),
{
    if store.fail_search {
        return Err(ServiceError::QdrantSearchError);
    }
    let mut use_groups = false;
    let mut g: i32 = 0;
    if let Some(size) = doc_group_size {
        use_groups = true;
        g = size;
    }
    let ghost points_spec = if use_groups {
        store.group_points(g)
    } else {
        store.doc_points()
    };
    let mut matched: Vec<VectorPoint> = Vec::new();
    if use_groups {
        let found = find_gc_index(store, g);
        let ci = match found {
            Some(ci) => ci,
            None => {
                return Err(ServiceError::QdrantSearchError);
            },
        };
        matched = collect_matching(&store.group_collections[ci].collection.points, story_id, index);
    } else {
        matched = collect_matching(&store.doc_collection.points, story_id, index);
    }
    proof {
        assert(matched@.map_values(|p: VectorPoint| p@) == matching_points(
            points_spec,
            story_id,
            index,
        ));
    }
    if matched.len() == 0 {
        return Ok(None);
    }
    let sorted = rank_collection(&matched, &query_embedding);
    proof {
        assert(sorted@.len() > 0) by {
            lemma_rank_len(query_embedding@, matched@.map_values(|p: VectorPoint| p@));
        }
    }
    Ok(Some(sorted[0].score))
}

/// Ranking keeps the number of results.
proof fn lemma_rank_len(q: Seq<i64>, points: Seq<VectorPointV>)
    ensures
        spec_rank(q, points).len() == points.len(),
    decreases points.len(),
{
    if points.len() > 0 {
        lemma_rank_len(q, points.drop_last());
        lemma_hits_len(q, points);
        lemma_insert_len(rank_hits(hits_of(q, points).drop_last()), hits_of(q, points).last());
        assert(hits_of(q, points).drop_last() =~= hits_of(q, points.drop_last()));
        lemma_hits_len(q, points.drop_last());
    }
}

/// Each point contributes one result.
proof fn lemma_hits_len(q: Seq<i64>, points: Seq<VectorPointV>)
    ensures
        hits_of(q, points).len() == points.len(),
    decreases points.len(),
{
    if points.len() > 0 {
        lemma_hits_len(q, points.drop_last());
    }
}

/// Insertion grows a ranked list by one.
proof fn lemma_insert_len(sorted: Seq<QdrantPoints>, h: QdrantPoints)
    ensures
        insert_ranked(sorted, h).len() == sorted.len() + 1,
    decreases sorted.len(),
{
    if sorted.len() > 0 && sorted.first().score >= h.score {
        lemma_insert_len(sorted.drop_first(), h);
    }
}

/// Collects the points matching a story and position exactly.
fn collect_matching(points: &Vec<VectorPoint>, story_id: i64, index: i64) -> (r: Vec<VectorPoint>)
    requires
        i32::MIN <= index <= i32::MAX,
    ensures
        r@.map_values(|p: VectorPoint| p@) == matching_points(
            points@.map_values(|p: VectorPoint| p@),
            story_id,
            index,
        ),
{
    let ghost pts = points@.map_values(|p: VectorPoint| p@);
    let mut out: Vec<VectorPoint> = Vec::new();
    let mut i: usize = 0;
    while i < points.len()
        invariant
            i <= points@.len(),
            pts == points@.map_values(|p: VectorPoint| p@),
            out@.map_values(|p: VectorPoint| p@) == matching_points(
                pts.take(i as int),
                story_id,
                index,
            ),
        decreases points@.len() - i,
    {
        proof {
            assert(pts.take(i + 1).drop_last() =~= pts.take(i as int));
            assert(pts.take(i + 1).last() == pts[i as int]);
            assert(pts[i as int] == points@[i as int]@);
        }
        if points[i].story_id == story_id && points[i].index as i64 == index {
            let ghost old_map = out@.map_values(|p: VectorPoint| p@);
            out.push(copy_point(&points[i]));
            proof {
                assert(out@.map_values(|p: VectorPoint| p@) =~= old_map.push(pts[i as int]));
            }
        }
        i = i + 1;
    }
    proof {
        assert(pts.take(pts.len() as int) =~= pts);
    }
    out
}

/// The points of a collection whose identity is not in `ids`, in
/// collection order.
pub open spec fn points_not_in(points: Seq<VectorPointV>, ids: Seq<u128>) -> Seq<VectorPointV>
    decreases points.len(),
{
    if points.len() == 0 {
        Seq::empty()
    } else {
        points_not_in(points.drop_last(), ids) + (if ids.contains(points.last().id) {
            Seq::empty()
        } else {
            seq![points.last()]
        })
    }
}

/// The model's recommendation score of a vector against a set of
/// positive examples: the saturating sum of its scores against each.
pub open spec fn rec_score(pos_vecs: Seq<Seq<i64>>, v: Seq<i64>) -> int
    decreases pos_vecs.len(),
{
    if pos_vecs.len() == 0 {
        0
    } else {
        sat_i128(rec_score(pos_vecs.drop_last(), v) + spec_score(pos_vecs.last(), v))
    }
}

/// The recommendation score stays in the `i128` range.
pub proof fn lemma_rec_score_in_range(pos_vecs: Seq<Seq<i64>>, v: Seq<i64>)
    ensures
        i128::MIN <= rec_score(pos_vecs, v) <= i128::MAX,
    decreases pos_vecs.len(),
{
    if pos_vecs.len() > 0 {
        lemma_rec_score_in_range(pos_vecs.drop_last(), v);
    }
}

/// The ranked result a candidate point contributes for a set of
/// positive examples.
pub open spec fn rec_hit_of(pos_vecs: Seq<Seq<i64>>, p: VectorPointV) -> QdrantPoints {
    QdrantPoints {
        score: rec_score(pos_vecs, p.vector) as i128,
        point_id: p.id,
        payload: DocEmbeddingQdrantPayload { story_id: p.story_id, index: p.index },
    }
}

/// The results the candidates contribute, in collection order.
pub open spec fn rec_hits_of(pos_vecs: Seq<Seq<i64>>, points: Seq<VectorPointV>) -> Seq<
    QdrantPoints,
>
    decreases points.len(),
{
    if points.len() == 0 {
        Seq::empty()
    } else {
        rec_hits_of(pos_vecs, points.drop_last()).push(rec_hit_of(pos_vecs, points.last()))
    }
}

/// The story of each result, in result order.
pub open spec fn story_ids_of(hits: Seq<QdrantPoints>) -> Seq<i64>
    decreases hits.len(),
{
    if hits.len() == 0 {
        Seq::empty()
    } else {
        story_ids_of(hits.drop_last()).push(hits.last().payload.story_id)
    }
}

/// Collects the points whose identity is not in `ids`.
fn collect_not_in(points: &Vec<VectorPoint>, ids: &Vec<u128>) -> (r: Vec<VectorPoint>)
    ensures
        r@.map_values(|p: VectorPoint| p@) == points_not_in(
            points@.map_values(|p: VectorPoint| p@),
            ids@,
        ),
{
    let ghost pts = points@.map_values(|p: VectorPoint| p@);
    let mut out: Vec<VectorPoint> = Vec::new();
    let mut i: usize = 0;
    while i < points.len()
        invariant
            i <= points@.len(),
            pts == points@.map_values(|p: VectorPoint| p@),
            out@.map_values(|p: VectorPoint| p@) == points_not_in(pts.take(i as int), ids@),
        decreases points@.len() - i,
    {
        proof {
            assert(pts.take(i + 1).drop_last() =~= pts.take(i as int));
            assert(pts.take(i + 1).last() == pts[i as int]);
            assert(pts[i as int] == points@[i as int]@);
        }
        if !crate::seq_util::contains_u128(ids, points[i].id) {
            let ghost old_map = out@.map_values(|p: VectorPoint| p@);
            out.push(copy_point(&points[i]));
            proof {
                assert(out@.map_values(|p: VectorPoint| p@) =~= old_map.push(pts[i as int]));
            }
        }
        i = i + 1;
    }
    proof {
        assert(pts.take(pts.len() as int) =~= pts);
    }
    out
}

/// Recommends stories by example: the points of the group collection
/// whose identities are the positive examples rank every other point
/// of that collection; one page of `2 * limit` results is returned as
/// the stories those results belong to, best match first. Twice the
/// nominal limit is requested deliberately, as headroom for the
/// caller's own deduplication.
pub fn recommend_group_doc_embeddings_qdrant_query(
    positive_qdrant_ids: Vec<u128>,
    doc_group_size: i32,
    limit: Option<u64>,
    page: Option<u64>,
    store: &VectorStore,
) -> (r: Result<Vec<i64>, ServiceError>)
    ensures
        ({
            let points = store.group_points(doc_group_size);
            let pos_vecs = vectors_for_ids(points, positive_qdrant_ids@);
            let cands = points_not_in(points, positive_qdrant_ids@);
            let l = (match limit {
                Some(l) => l,
                None => 10,
            }) as int;
            let off = (match page {
                Some(p) => p,
                None => 0,
            }) as int * (2 * l);
            match r {
                Ok(stories) => {
                    &&& !store.fail_recommend
                    &&& store.has_group_collection(doc_group_size)
                    &&& stories@ == story_ids_of(
                        page_of(rank_hits(rec_hits_of(pos_vecs, cands)), off, 2 * l),
                    )
                },
                Err(e) => {
                    &&& e == ServiceError::RecommendQdrantDocEmbeddingGroupError
                    &&& (store.fail_recommend || !store.has_group_collection(doc_group_size))
                },
            }
        }),
{
    if store.fail_recommend {
        return Err(ServiceError::RecommendQdrantDocEmbeddingGroupError);
    }
    let found = find_gc_index(store, doc_group_size);
    let ci = match found {
        Some(ci) => ci,
        None => {
            return Err(ServiceError::RecommendQdrantDocEmbeddingGroupError);
        },
    };
    let col_points = &store.group_collections[ci].collection.points;
    let ghost points_spec = store.group_points(doc_group_size);
    proof {
        assert(points_spec == col_points@.map_values(|p: VectorPoint| p@));
    }
    let pos_vecs = collect_vectors_for_ids(col_points, &positive_qdrant_ids);
    let cands = collect_not_in(col_points, &positive_qdrant_ids);
    let ghost pos_v = pos_vecs@.map_values(|v: Vec<i64>| v@);
    let ghost cands_v = cands@.map_values(|p: VectorPoint| p@);
    let mut sorted: Vec<QdrantPoints> = Vec::new();
    let mut i: usize = 0;
    while i < cands.len()
        invariant
            i <= cands@.len(),
            pos_v == pos_vecs@.map_values(|v: Vec<i64>| v@),
            cands_v == cands@.map_values(|p: VectorPoint| p@),
            sorted@ == rank_hits(rec_hits_of(pos_v, cands_v.take(i as int))),
        decreases cands@.len() - i,
    {
        proof {
            assert(cands_v.take(i + 1).drop_last() =~= cands_v.take(i as int));
            assert(cands_v.take(i + 1).last() == cands_v[i as int]);
            assert(cands_v[i as int] == cands@[i as int]@);
        }
        let mut acc: i128 = 0;
        let mut j: usize = 0;
        while j < pos_vecs.len()
            invariant
                j <= pos_vecs@.len(),
                0 <= i < cands@.len(),
                pos_v == pos_vecs@.map_values(|v: Vec<i64>| v@),
                cands_v == cands@.map_values(|p: VectorPoint| p@),
                acc as int == rec_score(pos_v.take(j as int), cands_v[i as int].vector),
            decreases pos_vecs@.len() - j,
        {
            proof {
                assert(pos_v.take(j + 1).drop_last() =~= pos_v.take(j as int));
                assert(pos_v.take(j + 1).last() == pos_v[j as int]);
                assert(pos_v[j as int] == pos_vecs@[j as int]@);
            }
            let s = score_of(&pos_vecs[j], &cands[i].vector);
            acc = match acc.checked_add(s) {
                Some(v) => v,
                None => {
                    if s > 0 {
                        i128::MAX
                    } else {
                        i128::MIN
                    }
                },
            };
            proof {
                lemma_dot_prefix_in_range(pos_v[j as int], cands_v[i as int].vector, if pos_v[j as int].len()
                    < cands_v[i as int].vector.len() {
                    pos_v[j as int].len() as int
                } else {
                    cands_v[i as int].vector.len() as int
                });
            }
            j = j + 1;
        }
        proof {
            assert(pos_v.take(pos_v.len() as int) =~= pos_v);
            lemma_rec_score_in_range(pos_v, cands_v[i as int].vector);
        }
        let h = QdrantPoints {
            score: acc,
            point_id: cands[i].id,
            payload: DocEmbeddingQdrantPayload {
                story_id: cands[i].story_id,
                index: cands[i].index,
            },
        };
        proof {
            assert(h == rec_hit_of(pos_v, cands_v[i as int]));
            let full = rec_hits_of(pos_v, cands_v.take(i + 1));
            assert(full.drop_last() =~= rec_hits_of(pos_v, cands_v.take(i as int)));
            assert(full.last() == h);
        }
        insert_hit(&mut sorted, h);
        i = i + 1;
    }
    proof {
        assert(cands_v.take(cands_v.len() as int) =~= cands_v);
    }
    let l: u64 = match limit {
        Some(l) => l,
        None => 10,
    };
    let p: u64 = match page {
        Some(p) => p,
        None => 0,
    };
    let two_l: u128 = 2 * (l as u128);
    let off: usize = match (p as u128).checked_mul(two_l) {
        Some(v) => {
            if v >= sorted.len() as u128 {
                sorted.len()
            } else {
                v as usize
            }
        },
        None => sorted.len(),
    };
    let lim: usize = if two_l >= sorted.len() as u128 {
        sorted.len()
    } else {
        two_l as usize
    };
    let paged = page_slice(&sorted, off, lim);
    proof {
        assert(paged@ =~= page_of(sorted@, (p as int) * (2 * l as int), 2 * (l as int)));
    }
    let mut stories: Vec<i64> = Vec::new();
    let mut k: usize = 0;
    while k < paged.len()
        invariant
            k <= paged@.len(),
            stories@ == story_ids_of(paged@.take(k as int)),
        decreases paged@.len() - k,
    {
        proof {
            assert(paged@.take(k + 1).drop_last() =~= paged@.take(k as int));
            assert(paged@.take(k + 1).last() == paged@[k as int]);
        }
        stories.push(paged[k].payload.story_id);
        k = k + 1;
    }
    proof {
        assert(paged@.take(paged@.len() as int) =~= paged@);
    }
    Ok(stories)
}

} // verus!
