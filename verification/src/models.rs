//! The persisted records of the engine and their mathematical views.
//!
//! A `DocEmbedding` row ties one `(story_id, index)` position to the
//! identity of its point in the vector index; a `DocGroupEmbedding`
//! row does the same for one `(story_id, doc_group_size, group index)`
//! aggregate. Point and row identities are 128-bit values minted from
//! random UUIDs; timestamps are microsecond counts.
use vstd::prelude::*;

verus! {

/// Mints a fresh 128-bit identity.
///
/// Relies on uuid's `Uuid::new_v4`: a freshly generated random UUID,
/// carried as its 128-bit value. Nothing is promised of the value.
#[verifier::external_body]
pub(crate) fn new_uuid_v4() -> u128 {
    uuid::Uuid::new_v4().as_u128()
}

/// The present moment as microseconds.
///
/// Relies on chrono's `Utc::now`: the current UTC time, carried as its
/// microsecond timestamp. Nothing is promised of the value.
#[verifier::external_body]
pub(crate) fn now_timestamp_micros() -> i64 {
    chrono::Utc::now().timestamp_micros()
}

/// The view of a document-embedding row.
pub struct DocEmbeddingV {
    pub id: u128,
    pub doc_html: Seq<char>,
    pub story_id: i64,
    pub index: i32,
    pub qdrant_point_id: u128,
    pub created_at: i64,
    pub updated_at: i64,
}

/// One document of a story: its content, its position `index` within
/// the story, and the identity of its vector point. At most one row
/// exists per `(story_id, index)`.
#[derive(Debug)]
pub struct DocEmbedding {
    pub id: u128,
    pub doc_html: String,
    pub story_id: i64,
    pub index: i32,
    pub qdrant_point_id: u128,
    pub created_at: i64,
    pub updated_at: i64,
}

impl View for DocEmbedding {
    type V = DocEmbeddingV;

    open spec fn view(&self) -> DocEmbeddingV {
        DocEmbeddingV {
            id: self.id,
            doc_html: self.doc_html@,
            story_id: self.story_id,
            index: self.index,
            qdrant_point_id: self.qdrant_point_id,
            created_at: self.created_at,
            updated_at: self.updated_at,
        }
    }
}

impl DocEmbedding {
    /// Builds a row from its details; a missing `id` or
    /// `qdrant_point_id` is freshly minted, a missing timestamp is the
    /// present moment.
    pub fn from_details(
        id: Option<u128>,
        doc_html: String,
        story_id: i64,
        index: i32,
        qdrant_point_id: Option<u128>,
        created_at: Option<i64>,
        updated_at: Option<i64>,
    ) -> (r: DocEmbedding)
        ensures
            r@.doc_html == doc_html@,
            r@.story_id == story_id,
            r@.index == index,
            id is Some ==> r@.id == id->0,
            qdrant_point_id is Some ==> r@.qdrant_point_id == qdrant_point_id->0,
            created_at is Some ==> r@.created_at == created_at->0,
            updated_at is Some ==> r@.updated_at == updated_at->0,
    {
        let id_v = match id {
            Some(v) => v,
            None => new_uuid_v4(),
        };
        let point_v = match qdrant_point_id {
            Some(v) => v,
            None => new_uuid_v4(),
        };
        let created_v = match created_at {
            Some(v) => v,
            None => now_timestamp_micros(),
        };
        let updated_v = match updated_at {
            Some(v) => v,
            None => now_timestamp_micros(),
        };
        DocEmbedding {
            id: id_v,
            doc_html,
            story_id,
            index,
            qdrant_point_id: point_v,
            created_at: created_v,
            updated_at: updated_v,
        }
    }

    /// A field-for-field copy of the row.
    pub fn duplicate(&self) -> (r: DocEmbedding)
        ensures
            r@ == self@,
    {
        DocEmbedding {
            id: self.id,
            doc_html: copy_string(&self.doc_html),
            story_id: self.story_id,
            index: self.index,
            qdrant_point_id: self.qdrant_point_id,
            created_at: self.created_at,
            updated_at: self.updated_at,
        }
    }
}

/// Copies a string.
///
/// Relies on `str::to_owned` of std: the copy reads back character
/// for character as the string it was made from.
pub fn copy_string(s: &String) -> (r: String)
    ensures
        r@ == s@,
{
    s.as_str().to_owned()
}

/// The view of a group-embedding row.
pub struct DocGroupEmbeddingV {
    pub id: u128,
    pub story_id: i64,
    pub doc_group_size: i32,
    pub index: i32,
    pub qdrant_point_id: u128,
    pub created_at: i64,
    pub updated_at: i64,
}

/// One derived aggregate of a story: the group of `doc_group_size`
/// consecutive documents whose positions share `index` as their
/// integer quotient, and the identity of the aggregate's vector point.
/// At most one row exists per `(story_id, doc_group_size, index)`.
#[derive(Clone, Copy, Debug)]
pub struct DocGroupEmbedding {
    pub id: u128,
    pub story_id: i64,
    pub doc_group_size: i32,
    pub index: i32,
    pub qdrant_point_id: u128,
    pub created_at: i64,
    pub updated_at: i64,
}

impl View for DocGroupEmbedding {
    type V = DocGroupEmbeddingV;

    open spec fn view(&self) -> DocGroupEmbeddingV {
        DocGroupEmbeddingV {
            id: self.id,
            story_id: self.story_id,
            doc_group_size: self.doc_group_size,
            index: self.index,
            qdrant_point_id: self.qdrant_point_id,
            created_at: self.created_at,
            updated_at: self.updated_at,
        }
    }
}

impl DocGroupEmbedding {
    /// Builds a row from its details; a missing `id` or
    /// `qdrant_point_id` is freshly minted, a missing timestamp is the
    /// present moment.
    pub fn from_details(
        id: Option<u128>,
        story_id: i64,
        doc_group_size: i32,
        index: i32,
        qdrant_point_id: Option<u128>,
        created_at: Option<i64>,
        updated_at: Option<i64>,
    ) -> (r: DocGroupEmbedding)
        ensures
            r@.story_id == story_id,
            r@.doc_group_size == doc_group_size,
            r@.index == index,
            id is Some ==> r@.id == id->0,
            qdrant_point_id is Some ==> r@.qdrant_point_id == qdrant_point_id->0,
            created_at is Some ==> r@.created_at == created_at->0,
            updated_at is Some ==> r@.updated_at == updated_at->0,
    {
        let id_v = match id {
            Some(v) => v,
            None => new_uuid_v4(),
        };
        let point_v = match qdrant_point_id {
            Some(v) => v,
            None => new_uuid_v4(),
        };
        let created_v = match created_at {
            Some(v) => v,
            None => now_timestamp_micros(),
        };
        let updated_v = match updated_at {
            Some(v) => v,
            None => now_timestamp_micros(),
        };
        DocGroupEmbedding {
            id: id_v,
            story_id,
            doc_group_size,
            index,
            qdrant_point_id: point_v,
            created_at: created_v,
            updated_at: updated_v,
        }
    }
}

/// The payload carried by a document point in the vector index.
#[derive(Clone, Copy, PartialEq, Eq, Structural)]
pub struct DocEmbeddingQdrantPayload {
    pub story_id: i64,
    pub index: i32,
}

impl From<DocEmbedding> for DocEmbeddingQdrantPayload {
    fn from(doc_embedding: DocEmbedding) -> (r: DocEmbeddingQdrantPayload) {
        DocEmbeddingQdrantPayload { story_id: doc_embedding.story_id, index: doc_embedding.index }
    }
}

impl vstd::std_specs::convert::FromSpecImpl<DocEmbedding> for DocEmbeddingQdrantPayload {
    open spec fn obeys_from_spec() -> bool {
        true
    }

    open spec fn from_spec(t: DocEmbedding) -> DocEmbeddingQdrantPayload {
        DocEmbeddingQdrantPayload { story_id: t.story_id, index: t.index }
    }
}

/// The payload carried by a group point in the vector index.
#[derive(Clone, Copy, PartialEq, Eq, Structural)]
pub struct DocGroupEmbeddingQdrantPayload {
    pub story_id: i64,
    pub doc_group_size: i32,
    pub index: i32,
}

impl From<DocGroupEmbedding> for DocGroupEmbeddingQdrantPayload {
    fn from(doc_group_embedding: DocGroupEmbedding) -> (r: DocGroupEmbeddingQdrantPayload) {
        DocGroupEmbeddingQdrantPayload {
            story_id: doc_group_embedding.story_id,
            doc_group_size: doc_group_embedding.doc_group_size,
            index: doc_group_embedding.index,
        }
    }
}

impl vstd::std_specs::convert::FromSpecImpl<DocGroupEmbedding> for DocGroupEmbeddingQdrantPayload {
    open spec fn obeys_from_spec() -> bool {
        true
    }

    open spec fn from_spec(t: DocGroupEmbedding) -> DocGroupEmbeddingQdrantPayload {
        DocGroupEmbeddingQdrantPayload {
            story_id: t.story_id,
            doc_group_size: t.doc_group_size,
            index: t.index,
        }
    }
}

} // verus!
