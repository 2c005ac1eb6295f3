//! HTTP-layer behaviour of the GraphQL-over-HTTP specification (Stage 2
//! Draft): content negotiation, request parsing (GET/POST, JSON encoding),
//! response encoding and HTTP status-code decisions. GraphQL parsing,
//! validation and execution belong to a GraphQL engine.
//!
//! Module map:
//! - [`media`]: media type parsing and content negotiation.
//! - [`request`]: parsing GET parameters and POST JSON properties into a
//!   well-formed `GraphQLRequest`; the GET mutation check.
//! - [`response`]: `GraphQLResult`, its status decision, and its encoding
//!   as an HTTP response.
//! - [`status`]: status-code recommendations for request-level failures.
//! - [`json`]: the `serde_json` values carried, and the calls made into
//!   `serde_json`.
//! - [`text`]: character-level definitions (trimming, splitting,
//!   lowercasing).

pub mod json;
pub mod media;
pub mod request;
pub mod response;
pub mod status;
pub mod text;

pub use json::JsonValue;
pub use media::{
    content_type_essence, media_range_matches, negotiate, parse_accept, quality_texts, MediaRange,
    Negotiated,
    APPLICATION_GRAPHQL_RESPONSE_JSON, APPLICATION_JSON,
};
pub use request::{
    document_looks_like_mutation, parse_get_params, parse_json_fields, GraphQLRequest,
    QueryParams, RawJsonRequest, RequestParseError,
};
pub use response::{
    decide_result_status, encode_response, GraphQLResult, HttpResponse, StatusDecision,
    STATUS_PARTIAL_SUCCESS,
};
pub use status::RequestFailure;
