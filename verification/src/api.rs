//! Request and response types of the client API.

use vstd::prelude::*;
use crate::json::JsonValue;
use crate::model::{Execution, Observation};

verus! {

#[derive(Debug, Clone)]
pub struct CreateExecutionRequest {
    pub execution: Execution,
}

#[derive(Debug, Clone)]
pub struct CreateExecutionResponse {}

/// Query of the execution list; all parts optional.
#[derive(Debug, Clone)]
pub struct ListExecutionsQuery {
    pub limit: Option<usize>,
    pub offset: Option<usize>,
    pub search: Option<String>,
}

impl Default for ListExecutionsQuery {
    fn default() -> (r: Self)
        ensures
            r.limit is None,
            r.offset is None,
            r.search is None,
    {
        ListExecutionsQuery { limit: None, offset: None, search: None }
    }
}

#[derive(Debug, Clone)]
pub struct ListExecutionsResponse {
    pub executions: Vec<Execution>,
    pub has_next_page: bool,
}

#[derive(Debug, Clone)]
pub struct GetExecutionResponse {
    pub execution: Execution,
}

#[derive(Debug, Clone)]
pub struct CreateObservationsRequest {
    pub observations: Vec<Observation>,
}

#[derive(Debug, Clone)]
pub struct CreateObservationsResponse {}

/// Query of the observation list; all parts optional.
#[derive(Debug, Clone)]
pub struct ListObservationsQuery {
    pub limit: Option<usize>,
    pub offset: Option<usize>,
    pub search: Option<String>,
    pub labels: Option<String>,
    pub source_file: Option<String>,
    pub parent_span_id: Option<String>,
}

impl Default for ListObservationsQuery {
    fn default() -> (r: Self)
        ensures
            r.limit is None,
            r.offset is None,
            r.search is None,
            r.labels is None,
            r.source_file is None,
            r.parent_span_id is None,
    {
        ListObservationsQuery {
            limit: None,
            offset: None,
            search: None,
            labels: None,
            source_file: None,
            parent_span_id: None,
        }
    }
}

#[derive(Debug, Clone)]
pub struct ListObservationsResponse {
    pub observations: Vec<Observation>,
    pub has_next_page: bool,
}

#[derive(Debug, Clone)]
pub struct GetObservationResponse {
    pub observation: Observation,
}

/// Blob data for an observation, with its MIME type.
#[derive(Debug, Clone)]
pub struct UploadBlobRequest {
    pub data: Vec<u8>,
    pub mime_type: String,
}

/// Where an uploaded blob can be read, and its size.
#[derive(Debug, Clone)]
pub struct UploadBlobResponse {
    pub url: String,
    pub size: usize,
}

/// An error answer: a message, an optional code and optional details.
#[derive(Debug)]
pub struct ErrorResponse {
    pub error: String,
    pub code: Option<String>,
    pub details: Option<JsonValue>,
}

impl ErrorResponse {
    /// An error with a message only.
    pub fn new(error: String) -> (r: Self)
        ensures
            r.error@ == error@,
            r.code is None,
            r.details is None,
    {
        ErrorResponse { error, code: None, details: None }
    }

    /// An error with a message and a code.
    pub fn with_code(error: String, code: String) -> (r: Self)
        ensures
            r.error@ == error@,
            r.code matches Some(c) && c@ == code@,
            r.details is None,
    {
        ErrorResponse { error, code: Some(code), details: None }
    }
}

} // verus!
