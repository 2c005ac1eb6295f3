use graphql_http::status::RequestFailure;

#[test]
fn get_sec_get_mutation_via_get_recommends_405() {
    assert_eq!(RequestFailure::MutationViaGet.recommended_status(), 405);
    assert!(RequestFailure::MutationViaGet.requires_allow_header());
}

#[test]
fn status_codes_sec_status_codes_unsupported_content_type_recommends_415() {
    assert_eq!(
        RequestFailure::UnsupportedContentType.recommended_status(),
        415
    );
}

#[test]
fn status_codes_sec_status_codes_not_acceptable_recommends_406() {
    assert_eq!(RequestFailure::NotAcceptable.recommended_status(), 406);
}

#[test]
fn status_codes_sec_status_codes_json_parse_failure_recommends_400() {
    assert_eq!(RequestFailure::JsonParseFailure.recommended_status(), 400);
}

#[test]
fn status_codes_sec_status_codes_not_well_formed_recommends_422() {
    assert_eq!(
        RequestFailure::NotWellFormedRequest.recommended_status(),
        422
    );
}

#[test]
fn status_codes_sec_status_codes_document_parse_failure_recommends_400() {
    assert_eq!(
        RequestFailure::DocumentParseFailure.recommended_status(),
        400
    );
}

#[test]
fn status_codes_sec_status_codes_validation_failure_recommends_422() {
    assert_eq!(RequestFailure::ValidationFailure.recommended_status(), 422);
}

#[test]
fn status_codes_sec_status_codes_ambiguous_operation_recommends_422() {
    assert_eq!(RequestFailure::AmbiguousOperation.recommended_status(), 422);
}

#[test]
fn status_codes_sec_status_codes_variable_coercion_failure_recommends_422() {
    assert_eq!(
        RequestFailure::VariableCoercionFailure.recommended_status(),
        422
    );
}

#[test]
fn status_codes_sec_status_codes_service_unavailable_recommends_503() {
    assert_eq!(RequestFailure::ServiceUnavailable.recommended_status(), 503);
}

#[test]
fn status_codes_sec_status_codes_only_405_requires_allow_header() {
    assert!(RequestFailure::UnsupportedMethod.requires_allow_header());
    assert!(!RequestFailure::NotAcceptable.requires_allow_header());
    assert!(!RequestFailure::JsonParseFailure.requires_allow_header());
}

const ALL: [RequestFailure; 17] = [
    RequestFailure::MutationViaGet,
    RequestFailure::UnsupportedMethod,
    RequestFailure::UnsupportedContentType,
    RequestFailure::NotAcceptable,
    RequestFailure::MissingContentType,
    RequestFailure::RequestTimeout,
    RequestFailure::UriTooLarge,
    RequestFailure::HeadersTooLarge,
    RequestFailure::BodyTooLarge,
    RequestFailure::JsonParseFailure,
    RequestFailure::NotWellFormedRequest,
    RequestFailure::DocumentParseFailure,
    RequestFailure::ValidationFailure,
    RequestFailure::AmbiguousOperation,
    RequestFailure::VariableCoercionFailure,
    RequestFailure::Forbidden,
    RequestFailure::ServiceUnavailable,
];

#[test]
fn every_failure_status_table() {
    let expected = [
        405, 405, 415, 406, 400, 408, 414, 431, 413, 400, 422, 400, 422, 422, 422, 403, 503,
    ];
    for (failure, code) in ALL.iter().zip(expected.iter()) {
        assert_eq!(failure.recommended_status(), *code, "{:?}", failure);
    }
}

#[test]
fn every_failure_is_4xx_or_5xx_and_allow_header_only_on_405() {
    for failure in ALL {
        let code = failure.recommended_status();
        assert!((400..600).contains(&code));
        assert_eq!(failure.requires_allow_header(), code == 405);
    }
}
