//! Error taxonomy of the engine, with the stable machine-readable code
//! and human message that callers surface for each variant.
use vstd::prelude::*;

verus! {

/// Every failure the engine reports. Store variants are tagged by the
/// operation that failed; consistency errors come from vector
/// averaging; `EmptyDocumentError` signals a document whose
/// segmentation produced no chunks; `MatchingRecordNotFound` is the
/// miss of a point-similarity lookup.
#[derive(Clone, Copy, Debug, PartialEq, Eq, Structural)]
pub enum ServiceError {
    InvalidAPIKey,
    EmbeddingServerCallError,
    EmbeddingServerParseError,
    EmbeddingAveragingError,
    QdrantConnectionError,
    UpsertDocEmbeddingQdrantError,
    DeleteDocEmbeddingQdrantError,
    UpsertDocEmbeddingPgError,
    SelectDocGroupQdrantIdsPgError,
    RecommendQdrantDocEmbeddingGroupError,
    GetDocEmbeddingsPgError,
    ScrollDocEmbeddingQdrantError,
    NotImplemented,
    VectorToArrayError,
    UpsertDocGroupEmbeddingPgError,
    QdrantSearchError,
    PgSearchError,
    UpsertDocGroupEmbeddingQdrantError,
    InsertDocGroupEmbeddingPgError,
    QdrantSimilarityTopFilteredPointError,
    MatchingRecordNotFound,
    SelectUniqueDocGroupSizesPgError,
    SelectDocEmbeddingsQdrantIdsPgError,
    CreateEmbeddingServerError,
    ParseDocumentCallError,
    ParseDocumentResponseError,
    ChunkDocumentError,
    EmptyDocumentError,
    CreateTmpFileError,
    DeleteTmpFileError,
    DeleteDocEmbeddingError,
}

/// The body of an error reply: a human message and a stable code.
pub struct ErrorResponse {
    pub message: String,
    pub error_code: String,
}

/// The stable code of each error variant.
pub open spec fn spec_error_code(e: ServiceError) -> Seq<char> {
    match e {
        ServiceError::NotImplemented => "0420"@,
        ServiceError::InvalidAPIKey => "0001"@,
        ServiceError::EmbeddingServerCallError => "0002"@,
        ServiceError::EmbeddingServerParseError => "0003"@,
        ServiceError::EmbeddingAveragingError => "0004"@,
        ServiceError::QdrantConnectionError => "0005"@,
        ServiceError::UpsertDocEmbeddingQdrantError => "0006"@,
        ServiceError::DeleteDocEmbeddingQdrantError => "0007"@,
        ServiceError::UpsertDocEmbeddingPgError => "0008"@,
        ServiceError::SelectDocGroupQdrantIdsPgError => "0009"@,
        ServiceError::RecommendQdrantDocEmbeddingGroupError => "0010"@,
        ServiceError::GetDocEmbeddingsPgError => "0011"@,
        ServiceError::ScrollDocEmbeddingQdrantError => "0012"@,
        ServiceError::VectorToArrayError => "0013"@,
        ServiceError::UpsertDocGroupEmbeddingPgError => "0014"@,
        ServiceError::QdrantSearchError => "0015"@,
        ServiceError::PgSearchError => "0016"@,
        ServiceError::UpsertDocGroupEmbeddingQdrantError => "0017"@,
        ServiceError::InsertDocGroupEmbeddingPgError => "0018"@,
        ServiceError::QdrantSimilarityTopFilteredPointError => "0030"@,
        ServiceError::MatchingRecordNotFound => "0019"@,
        ServiceError::SelectUniqueDocGroupSizesPgError => "0020"@,
        ServiceError::SelectDocEmbeddingsQdrantIdsPgError => "0021"@,
        ServiceError::CreateEmbeddingServerError => "0022"@,
        ServiceError::ParseDocumentCallError => "0023"@,
        ServiceError::ParseDocumentResponseError => "0024"@,
        ServiceError::ChunkDocumentError => "0025"@,
        ServiceError::EmptyDocumentError => "0026"@,
        ServiceError::CreateTmpFileError => "0027"@,
        ServiceError::DeleteTmpFileError => "0028"@,
        ServiceError::DeleteDocEmbeddingError => "0029"@,
    }
}

/// The human message of each error variant.
pub open spec fn spec_error_message(e: ServiceError) -> Seq<char> {
    match e {
        ServiceError::NotImplemented => "Not implemented."@,
        ServiceError::InvalidAPIKey => "Invalid API key provided."@,
        ServiceError::EmbeddingServerCallError => "Error calling embedding server."@,
        ServiceError::EmbeddingServerParseError => "Error parsing embedding server response."@,
        ServiceError::EmbeddingAveragingError => "Error averaging embeddings."@,
        ServiceError::QdrantConnectionError => "Error connecting to Qdrant."@,
        ServiceError::UpsertDocEmbeddingQdrantError => "Error upserting DocEmbedding to Qdrant."@,
        ServiceError::DeleteDocEmbeddingQdrantError => "Error deleting DocEmbedding from Qdrant."@,
        ServiceError::UpsertDocEmbeddingPgError => "Error upserting DocEmbedding to Postgres."@,
        ServiceError::SelectDocGroupQdrantIdsPgError => "Error selecting DocGroup Qdrant IDs from Postgres."@,
        ServiceError::RecommendQdrantDocEmbeddingGroupError => "Error recommending DocEmbedding group from Qdrant."@,
        ServiceError::GetDocEmbeddingsPgError => "Error getting DocEmbeddings from Postgres."@,
        ServiceError::ScrollDocEmbeddingQdrantError => "Error scrolling DocEmbeddings from Qdrant."@,
        ServiceError::VectorToArrayError => "Error converting vector to array."@,
        ServiceError::UpsertDocGroupEmbeddingPgError => "Error upserting DocGroupEmbedding to Postgres."@,
        ServiceError::QdrantSearchError => "Error searching Qdrant."@,
        ServiceError::PgSearchError => "Error searching Postgres."@,
        ServiceError::UpsertDocGroupEmbeddingQdrantError => "Error upserting DocGroupEmbedding to Qdrant."@,
        ServiceError::InsertDocGroupEmbeddingPgError => "Error inserting DocGroupEmbedding to Postgres."@,
        ServiceError::QdrantSimilarityTopFilteredPointError => "Error getting top filtered points from Qdrant."@,
        ServiceError::MatchingRecordNotFound => "Matching record not found."@,
        ServiceError::SelectUniqueDocGroupSizesPgError => "Error selecting unique DocGroup sizes from Postgres."@,
        ServiceError::SelectDocEmbeddingsQdrantIdsPgError => "Error selecting DocEmbeddings Qdrant IDs from Postgres."@,
        ServiceError::CreateEmbeddingServerError => "Error creating embedding server."@,
        ServiceError::ParseDocumentCallError => "Error calling Parse Document Command."@,
        ServiceError::ParseDocumentResponseError => "Error Parsing Response from Parse Document Command"@,
        ServiceError::ChunkDocumentError => "Error Chunking Document"@,
        ServiceError::EmptyDocumentError => "Empty Document"@,
        ServiceError::CreateTmpFileError => "Error Creating Temporary File."@,
        ServiceError::DeleteTmpFileError => "Error Deleting Temporary File."@,
        ServiceError::DeleteDocEmbeddingError => "Error Deleting DocEmbedding."@,
    }
}

impl ServiceError {
    /// The reply body for this error: its stable code and message.
    pub fn error_response(&self) -> (r: ErrorResponse)
        ensures
            r.error_code@ == spec_error_code(*self),
            r.message@ == spec_error_message(*self),
    {
        match *self {
            ServiceError::NotImplemented => ErrorResponse {
                message: "Not implemented.".to_owned(),
                error_code: "0420".to_owned(),
            },
            ServiceError::InvalidAPIKey => ErrorResponse {
                message: "Invalid API key provided.".to_owned(),
                error_code: "0001".to_owned(),
            },
            ServiceError::EmbeddingServerCallError => ErrorResponse {
                message: "Error calling embedding server.".to_owned(),
                error_code: "0002".to_owned(),
            },
            ServiceError::EmbeddingServerParseError => ErrorResponse {
                message: "Error parsing embedding server response.".to_owned(),
                error_code: "0003".to_owned(),
            },
            ServiceError::EmbeddingAveragingError => ErrorResponse {
                message: "Error averaging embeddings.".to_owned(),
                error_code: "0004".to_owned(),
            },
            ServiceError::QdrantConnectionError => ErrorResponse {
                message: "Error connecting to Qdrant.".to_owned(),
                error_code: "0005".to_owned(),
            },
            ServiceError::UpsertDocEmbeddingQdrantError => ErrorResponse {
                message: "Error upserting DocEmbedding to Qdrant.".to_owned(),
                error_code: "0006".to_owned(),
            },
            ServiceError::DeleteDocEmbeddingQdrantError => ErrorResponse {
                message: "Error deleting DocEmbedding from Qdrant.".to_owned(),
                error_code: "0007".to_owned(),
            },
            ServiceError::UpsertDocEmbeddingPgError => ErrorResponse {
                message: "Error upserting DocEmbedding to Postgres.".to_owned(),
                error_code: "0008".to_owned(),
            },
            ServiceError::SelectDocGroupQdrantIdsPgError => ErrorResponse {
                message: "Error selecting DocGroup Qdrant IDs from Postgres.".to_owned(),
                error_code: "0009".to_owned(),
            },
            ServiceError::RecommendQdrantDocEmbeddingGroupError => ErrorResponse {
                message: "Error recommending DocEmbedding group from Qdrant.".to_owned(),
                error_code: "0010".to_owned(),
            },
            ServiceError::GetDocEmbeddingsPgError => ErrorResponse {
                message: "Error getting DocEmbeddings from Postgres.".to_owned(),
                error_code: "0011".to_owned(),
            },
            ServiceError::ScrollDocEmbeddingQdrantError => ErrorResponse {
                message: "Error scrolling DocEmbeddings from Qdrant.".to_owned(),
                error_code: "0012".to_owned(),
            },
            ServiceError::VectorToArrayError => ErrorResponse {
                message: "Error converting vector to array.".to_owned(),
                error_code: "0013".to_owned(),
            },
            ServiceError::UpsertDocGroupEmbeddingPgError => ErrorResponse {
                message: "Error upserting DocGroupEmbedding to Postgres.".to_owned(),
                error_code: "0014".to_owned(),
            },
            ServiceError::QdrantSearchError => ErrorResponse {
                message: "Error searching Qdrant.".to_owned(),
                error_code: "0015".to_owned(),
            },
            ServiceError::PgSearchError => ErrorResponse {
                message: "Error searching Postgres.".to_owned(),
                error_code: "0016".to_owned(),
            },
            ServiceError::UpsertDocGroupEmbeddingQdrantError => ErrorResponse {
                message: "Error upserting DocGroupEmbedding to Qdrant.".to_owned(),
                error_code: "0017".to_owned(),
            },
            ServiceError::InsertDocGroupEmbeddingPgError => ErrorResponse {
                message: "Error inserting DocGroupEmbedding to Postgres.".to_owned(),
                error_code: "0018".to_owned(),
            },
            ServiceError::QdrantSimilarityTopFilteredPointError => ErrorResponse {
                message: "Error getting top filtered points from Qdrant.".to_owned(),
                error_code: "0030".to_owned(),
            },
            ServiceError::MatchingRecordNotFound => ErrorResponse {
                message: "Matching record not found.".to_owned(),
                error_code: "0019".to_owned(),
            },
            ServiceError::SelectUniqueDocGroupSizesPgError => ErrorResponse {
                message: "Error selecting unique DocGroup sizes from Postgres.".to_owned(),
                error_code: "0020".to_owned(),
            },
            ServiceError::SelectDocEmbeddingsQdrantIdsPgError => ErrorResponse {
                message: "Error selecting DocEmbeddings Qdrant IDs from Postgres.".to_owned(),
                error_code: "0021".to_owned(),
            },
            ServiceError::CreateEmbeddingServerError => ErrorResponse {
                message: "Error creating embedding server.".to_owned(),
                error_code: "0022".to_owned(),
            },
            ServiceError::ParseDocumentCallError => ErrorResponse {
                message: "Error calling Parse Document Command.".to_owned(),
                error_code: "0023".to_owned(),
            },
            ServiceError::ParseDocumentResponseError => ErrorResponse {
                message: "Error Parsing Response from Parse Document Command".to_owned(),
                error_code: "0024".to_owned(),
            },
            ServiceError::ChunkDocumentError => ErrorResponse {
                message: "Error Chunking Document".to_owned(),
                error_code: "0025".to_owned(),
            },
            ServiceError::EmptyDocumentError => ErrorResponse {
                message: "Empty Document".to_owned(),
                error_code: "0026".to_owned(),
            },
            ServiceError::CreateTmpFileError => ErrorResponse {
                message: "Error Creating Temporary File.".to_owned(),
                error_code: "0027".to_owned(),
            },
            ServiceError::DeleteTmpFileError => ErrorResponse {
                message: "Error Deleting Temporary File.".to_owned(),
                error_code: "0028".to_owned(),
            },
            ServiceError::DeleteDocEmbeddingError => ErrorResponse {
                message: "Error Deleting DocEmbedding.".to_owned(),
                error_code: "0029".to_owned(),
            },
        }
    }
}

} // verus!
