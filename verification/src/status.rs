//! HTTP status-code recommendations for request-level (pre-execution)
//! failures, as listed in the "Status Codes" section of the specification.

use vstd::prelude::*;

verus! {

/// The request-level failure conditions called out by the specification,
/// each mapped to its RECOMMENDED status code.
#[derive(Debug, Clone, Copy, PartialEq, Eq, Structural)]
pub enum RequestFailure {
    /// Mutation attempted via GET. RECOMMENDED: 405.
    MutationViaGet,
    /// Unsupported HTTP method used. RECOMMENDED: 405.
    UnsupportedMethod,
    /// Unsupported request `Content-Type`. RECOMMENDED: 415.
    UnsupportedContentType,
    /// No supported media type in `Accept`, and `application/json` not
    /// included either. RECOMMENDED: 406.
    NotAcceptable,
    /// Missing `Content-Type` header on a POST request; 400 is used.
    MissingContentType,
    /// Client took too long to produce a request. RECOMMENDED: 408.
    RequestTimeout,
    /// URI too large. RECOMMENDED: 414.
    UriTooLarge,
    /// Request headers too large. RECOMMENDED: 431.
    HeadersTooLarge,
    /// POST body too large. RECOMMENDED: 413.
    BodyTooLarge,
    /// JSON body could not be parsed. RECOMMENDED: 400.
    JsonParseFailure,
    /// Not a well-formed GraphQL-over-HTTP request. RECOMMENDED: 422.
    NotWellFormedRequest,
    /// GraphQL document could not be parsed. RECOMMENDED: 400.
    DocumentParseFailure,
    /// Request does not pass GraphQL validation. RECOMMENDED: 422.
    ValidationFailure,
    /// Operation to execute cannot be unambiguously determined. RECOMMENDED: 422.
    AmbiguousOperation,
    /// Variable coercion failure. RECOMMENDED: 422.
    VariableCoercionFailure,
    /// Client not permitted to issue the request; 403 is used.
    Forbidden,
    /// Maintenance or load shedding. RECOMMENDED: 503.
    ServiceUnavailable,
}

impl RequestFailure {
    /// The status code table of the specification's "Status Codes" section.
    pub open spec fn status_of(self) -> u16 {
        match self {
            RequestFailure::MutationViaGet => 405,
            RequestFailure::UnsupportedMethod => 405,
            RequestFailure::UnsupportedContentType => 415,
            RequestFailure::NotAcceptable => 406,
            RequestFailure::MissingContentType => 400,
            RequestFailure::RequestTimeout => 408,
            RequestFailure::UriTooLarge => 414,
            RequestFailure::HeadersTooLarge => 431,
            RequestFailure::BodyTooLarge => 413,
            RequestFailure::JsonParseFailure => 400,
            RequestFailure::NotWellFormedRequest => 422,
            RequestFailure::DocumentParseFailure => 400,
            RequestFailure::ValidationFailure => 422,
            RequestFailure::AmbiguousOperation => 422,
            RequestFailure::VariableCoercionFailure => 422,
            RequestFailure::Forbidden => 403,
            RequestFailure::ServiceUnavailable => 503,
        }
    }

    /// The failures that are answered with `405 Method Not Allowed`.
    pub open spec fn is_method_failure(self) -> bool {
        self is MutationViaGet || self is UnsupportedMethod
    }

    /// The RECOMMENDED HTTP status code for this failure condition.
    pub fn recommended_status(self) -> (code: u16)
        ensures
            code == self.status_of(),
            400 <= code <= 599,
            code == 405 <==> self.is_method_failure(),
    {
        match self {
            RequestFailure::MutationViaGet => 405,
            RequestFailure::UnsupportedMethod => 405,
            RequestFailure::UnsupportedContentType => 415,
            RequestFailure::NotAcceptable => 406,
            RequestFailure::MissingContentType => 400,
            RequestFailure::RequestTimeout => 408,
            RequestFailure::UriTooLarge => 414,
            RequestFailure::HeadersTooLarge => 431,
            RequestFailure::BodyTooLarge => 413,
            RequestFailure::JsonParseFailure => 400,
            RequestFailure::NotWellFormedRequest => 422,
            RequestFailure::DocumentParseFailure => 400,
            RequestFailure::ValidationFailure => 422,
            RequestFailure::AmbiguousOperation => 422,
            RequestFailure::VariableCoercionFailure => 422,
            RequestFailure::Forbidden => 403,
            RequestFailure::ServiceUnavailable => 503,
        }
    }

    /// Whether the response for this failure must carry an `Allow` header:
    /// exactly the failures answered with `405`.
    pub fn requires_allow_header(self) -> (r: bool)
        ensures
            r == (self.status_of() == 405),
            r == self.is_method_failure(),
    {
        self.recommended_status() == 405
    }
}

} // verus!
