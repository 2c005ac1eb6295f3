use graphql_http::response::frame_result_body;
use graphql_http::media::Negotiated;
use graphql_http::response::{
    decide_result_status, encode_response, GraphQLResult, StatusDecision, STATUS_PARTIAL_SUCCESS,
};
use serde_json::Value;

fn json(text: &str) -> Value {
    serde_json::from_str(text).unwrap()
}

#[test]
fn status_codes_sec_status_codes_data_only_yields_200() {
    let result = GraphQLResult::data_only(json(r#"{"user": {"name": "Ada"}}"#));
    assert_eq!(decide_result_status(&result).unwrap().code, 200);
}

#[test]
fn status_codes_sec_status_codes_partial_data_and_errors_yields_294() {
    let result = GraphQLResult::partial(Value::Null, vec![json(r#"{"message": "field error"}"#)]);
    assert_eq!(
        decide_result_status(&result).unwrap().code,
        STATUS_PARTIAL_SUCCESS
    );

    let result_non_null = GraphQLResult::partial(
        json(r#"{"user": null}"#),
        vec![json(r#"{"message": "field error"}"#)],
    );
    assert_eq!(
        decide_result_status(&result_non_null).unwrap().code,
        STATUS_PARTIAL_SUCCESS
    );
}

#[test]
fn status_codes_sec_status_codes_request_error_result_has_no_decision() {
    let result = GraphQLResult::request_error(vec![json(r#"{"message": "bad"}"#)]);
    assert_eq!(decide_result_status(&result), None);
}

#[test]
fn body_sec_body_legacy_negotiation_2xx_uses_application_json_content_type() {
    let result = GraphQLResult::data_only(json(r#"{"ok": true}"#));
    let resp = encode_response(&result, Negotiated::LegacyJson);
    assert_eq!(resp.status, 200);
    assert!(resp.content_type.starts_with("application/json"));
}

#[test]
fn body_sec_body_spec_compliant_negotiation_uses_graphql_response_json() {
    let result = GraphQLResult::data_only(json(r#"{"ok": true}"#));
    let resp = encode_response(&result, Negotiated::GraphqlResponseJson);
    assert!(resp
        .content_type
        .starts_with("application/graphql-response+json"));
}

#[test]
fn media_types_sec_media_types_response_declares_charset() {
    let result = GraphQLResult::data_only(json(r#"{"ok": true}"#));
    let resp = encode_response(&result, Negotiated::GraphqlResponseJson);
    assert!(resp.content_type.contains("charset=utf-8"));
}

#[test]
fn status_codes_sec_status_codes_294_partial_success_data_null_with_errors() {
    let result = GraphQLResult::partial(
        Value::Null,
        vec![json(r#"{"message": "something went wrong"}"#)],
    );
    assert!(result.has_data());
    assert!(!result.has_non_null_data());
    assert!(result.has_errors());

    let resp = encode_response(&result, Negotiated::GraphqlResponseJson);
    assert_eq!(resp.status, STATUS_PARTIAL_SUCCESS);

    let body: Value = serde_json::from_slice(&resp.body).unwrap();
    assert_eq!(body["data"], Value::Null);
    assert!(body["errors"].is_array());
    assert_eq!(body["errors"][0]["message"], "something went wrong");
}

#[test]
fn body_sec_body_legacy_negotiation_294_in_2xx_range_downgrades_content_type() {
    let result = GraphQLResult::partial(Value::Null, vec![json(r#"{"message": "field error"}"#)]);
    let resp = encode_response(&result, Negotiated::LegacyJson);
    assert_eq!(resp.status, STATUS_PARTIAL_SUCCESS);
    assert!(resp.content_type.starts_with("application/json"));
}

#[test]
fn status_codes_sec_status_codes_non_null_data_no_errors_is_2xx() {
    let result = GraphQLResult::data_only(json(r#"{"user": {"name": "Ada"}}"#));
    assert!(result.has_non_null_data());
    assert!(!result.has_errors());
    let decision = decide_result_status(&result).unwrap();
    assert!((200..300).contains(&decision.code));
}

// ---------------------------------------------------------------------
// Exact values
// ---------------------------------------------------------------------

#[test]
fn body_bytes_data_only() {
    let result = GraphQLResult::data_only(json(r#"{"ok": true}"#));
    let resp = encode_response(&result, Negotiated::GraphqlResponseJson);
    assert_eq!(resp.body, br#"{"data":{"ok":true}}"#.to_vec());
    assert_eq!(
        resp.content_type,
        "application/graphql-response+json; charset=utf-8"
    );
}

#[test]
fn body_bytes_partial() {
    let result = GraphQLResult::partial(
        Value::Null,
        vec![json(r#"{"message": "x"}"#), json(r#"{"message": "y"}"#)],
    );
    let resp = encode_response(&result, Negotiated::LegacyJson);
    assert_eq!(
        resp.body,
        br#"{"data":null,"errors":[{"message":"x"},{"message":"y"}]}"#.to_vec()
    );
    assert_eq!(resp.content_type, "application/json; charset=utf-8");
}

#[test]
fn body_bytes_request_error_and_extensions() {
    let mut result = GraphQLResult::request_error(vec![json(r#"{"message": "bad"}"#)]);
    result.extensions = Some(json(r#"{"k": [1, 2]}"#));
    let resp = encode_response(&result, Negotiated::LegacyJson);
    assert_eq!(resp.status, 200);
    assert_eq!(
        resp.body,
        br#"{"errors":[{"message":"bad"}],"extensions":{"k":[1,2]}}"#.to_vec()
    );
}

#[test]
fn body_bytes_empty_result_and_empty_errors() {
    let result = GraphQLResult {
        data: None,
        errors: None,
        extensions: None,
    };
    let resp = encode_response(&result, Negotiated::NotAcceptable);
    assert_eq!(resp.body, b"{}".to_vec());
    assert_eq!(
        resp.content_type,
        "application/graphql-response+json; charset=utf-8"
    );
    let result = GraphQLResult::request_error(vec![]);
    let resp = encode_response(&result, Negotiated::GraphqlResponseJson);
    assert_eq!(resp.body, br#"{"errors":[]}"#.to_vec());
}

#[test]
fn body_bytes_match_serde_serialization_of_members() {
    let data = json(r#"{"s": "a\"b", "n": 1.5, "list": [true, null]}"#);
    let result = GraphQLResult::data_only(data.clone());
    let resp = encode_response(&result, Negotiated::GraphqlResponseJson);
    let expected = format!("{{\"data\":{}}}", serde_json::to_string(&data).unwrap());
    assert_eq!(resp.body, expected.into_bytes());
}

#[test]
fn has_non_null_data_cases() {
    assert!(!GraphQLResult::request_error(vec![]).has_non_null_data());
    assert!(!GraphQLResult::data_only(Value::Null).has_non_null_data());
    assert!(GraphQLResult::data_only(Value::Bool(false)).has_non_null_data());
    assert!(GraphQLResult::data_only(json("{}")).has_non_null_data());
    assert!(GraphQLResult::data_only(json("\"null\"")).has_non_null_data());
}

#[test]
fn constructors_set_entries() {
    let r = GraphQLResult::data_only(Value::Bool(true));
    assert_eq!(r.data, Some(Value::Bool(true)));
    assert_eq!(r.errors, None);
    assert_eq!(r.extensions, None);
    let r = GraphQLResult::request_error(vec![Value::Null]);
    assert!(!r.has_data());
    assert!(r.has_errors());
    assert_eq!(r.errors, Some(vec![Value::Null]));
}

#[test]
fn decision_values() {
    assert_eq!(
        decide_result_status(&GraphQLResult::data_only(Value::Null)),
        Some(StatusDecision { code: 200 })
    );
    assert_eq!(
        decide_result_status(&GraphQLResult::partial(Value::Null, vec![])),
        Some(StatusDecision { code: 294 })
    );
}

#[test]
fn frame_result_body_cases() {
    assert_eq!(frame_result_body(None, None, None), b"{}".to_vec());
    assert_eq!(
        frame_result_body(Some(b"1".to_vec()), Some(vec![b"x".to_vec(), b"y".to_vec()]), Some(b"z".to_vec())),
        br#"{"data":1,"errors":[x,y],"extensions":z}"#.to_vec()
    );
    assert_eq!(
        frame_result_body(None, Some(vec![]), Some(b"null".to_vec())),
        br#"{"errors":[],"extensions":null}"#.to_vec()
    );
}
