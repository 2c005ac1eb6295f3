use graphql_http::request::json_param_value;
use graphql_http::json::JsonValue;
use graphql_http::request::{
    document_looks_like_mutation, is_ident_byte, parse_get_params, parse_json_fields,
    QueryParams, RawJsonRequest, RequestParseError,
};
use serde_json::Value;

fn object(text: &str) -> JsonValue {
    match serde_json::from_str::<Value>(text).unwrap() {
        Value::Object(m) => JsonValue::Object(m),
        _ => panic!("not an object"),
    }
}

fn string(text: &str) -> JsonValue {
    JsonValue::String(text.to_string())
}

fn raw(
    query: Option<JsonValue>,
    operation_name: Option<JsonValue>,
    variables: Option<JsonValue>,
    extensions: Option<JsonValue>,
) -> RawJsonRequest {
    RawJsonRequest {
        query,
        operation_name,
        variables,
        extensions,
    }
}

fn params(pairs: &[(&str, &str)]) -> QueryParams {
    let mut p = QueryParams::new();
    for (k, v) in pairs {
        p.insert(k.to_string(), v.to_string());
    }
    p
}

// ---------------------------------------------------------------------
// GET
// ---------------------------------------------------------------------

#[test]
fn get_sec_get_parses_query_variables_and_extensions() {
    let mut params = QueryParams::new();
    params.insert(
        "query".to_string(),
        "query($id: ID!){user(id:$id){name}}".to_string(),
    );
    params.insert(
        "variables".to_string(),
        r#"{"id":"QVBJcy5ndXJ1"}"#.to_string(),
    );
    let parsed = parse_get_params(&params).unwrap();
    assert_eq!(parsed.query, "query($id: ID!){user(id:$id){name}}");
    assert_eq!(parsed.variables.unwrap().get("id").unwrap(), "QVBJcy5ndXJ1");
}

#[test]
fn get_sec_get_empty_string_optional_params_equivalent_to_omission() {
    let mut params = QueryParams::new();
    params.insert("query".to_string(), "{ __typename }".to_string());
    params.insert("operationName".to_string(), "".to_string());
    params.insert("variables".to_string(), "".to_string());
    let parsed = parse_get_params(&params).unwrap();
    assert_eq!(parsed.operation_name, None);
    assert_eq!(parsed.variables, None);
}

#[test]
fn get_sec_get_missing_query_not_well_formed() {
    let params = QueryParams::new();
    let err = parse_get_params(&params).unwrap_err();
    assert!(matches!(err, RequestParseError::NotWellFormed(_)));
}

#[test]
fn get_empty_query_is_required() {
    let p = params(&[("query", ""), ("operationName", "Q")]);
    assert_eq!(
        parse_get_params(&p).unwrap_err(),
        RequestParseError::NotWellFormed("query is required".into())
    );
}

#[test]
fn get_all_parameters() {
    let p = params(&[
        ("query", "query Q { a }"),
        ("operationName", "Q"),
        ("variables", r#"{"x": 1}"#),
        ("extensions", r#"{"trace": true}"#),
        ("unrelated", "ignored"),
    ]);
    let parsed = parse_get_params(&p).unwrap();
    assert_eq!(parsed.query, "query Q { a }");
    assert_eq!(parsed.operation_name.as_deref(), Some("Q"));
    assert_eq!(parsed.variables.unwrap().get("x").unwrap(), &Value::from(1));
    assert_eq!(
        parsed.extensions.unwrap().get("trace").unwrap(),
        &Value::Bool(true)
    );
}

#[test]
fn get_variables_invalid_json() {
    let p = params(&[("query", "{ a }"), ("variables", "{nope")]);
    match parse_get_params(&p).unwrap_err() {
        RequestParseError::NotWellFormed(m) => {
            assert!(m.starts_with("invalid variables JSON: "));
            assert!(m.len() > "invalid variables JSON: ".len());
        }
        other => panic!("unexpected {other:?}"),
    }
}

#[test]
fn get_variables_not_an_object() {
    let p = params(&[("query", "{ a }"), ("variables", "[7]")]);
    assert_eq!(
        parse_get_params(&p).unwrap_err(),
        RequestParseError::NotWellFormed("variables must be a JSON object".into())
    );
}

#[test]
fn get_extensions_invalid_json_and_not_object() {
    let p = params(&[("query", "{ a }"), ("extensions", "tru")]);
    match parse_get_params(&p).unwrap_err() {
        RequestParseError::NotWellFormed(m) => {
            assert!(m.starts_with("invalid extensions JSON: "))
        }
        other => panic!("unexpected {other:?}"),
    }
    let p = params(&[("query", "{ a }"), ("extensions", "\"text\"")]);
    assert_eq!(
        parse_get_params(&p).unwrap_err(),
        RequestParseError::NotWellFormed("extensions must be a JSON object".into())
    );
}

#[test]
fn get_variables_checked_before_extensions() {
    let p = params(&[("query", "{ a }"), ("variables", "1"), ("extensions", "2")]);
    assert_eq!(
        parse_get_params(&p).unwrap_err(),
        RequestParseError::NotWellFormed("variables must be a JSON object".into())
    );
}

#[test]
fn query_params_insert_get_len() {
    let mut p = QueryParams::new();
    assert_eq!(p.len(), 0);
    assert_eq!(p.get("query"), None);
    assert_eq!(p.insert("query".to_string(), "a".to_string()), None);
    assert_eq!(p.insert("variables".to_string(), "b".to_string()), None);
    assert_eq!(p.len(), 2);
    assert_eq!(
        p.insert("query".to_string(), "c".to_string()),
        Some("a".to_string())
    );
    assert_eq!(p.len(), 2);
    assert_eq!(p.get("query").map(|s| s.as_str()), Some("c"));
    assert_eq!(p.get("variables").map(|s| s.as_str()), Some("b"));
    assert_eq!(p.get("extensions"), None);
}

// ---------------------------------------------------------------------
// POST: JSON properties
// ---------------------------------------------------------------------

#[test]
fn json_fields_query_required() {
    let err = parse_json_fields(raw(None, Some(string("Q")), None, None)).unwrap_err();
    assert_eq!(
        err,
        RequestParseError::NotWellFormed("query is required".into())
    );
}

#[test]
fn json_fields_parses_all_parameters() {
    let parsed = parse_json_fields(raw(
        Some(string("query ($id: ID!) { user(id: $id) { name } }")),
        Some(string("Q")),
        Some(object(r#"{"id": "abc"}"#)),
        Some(object(r#"{"trace": true}"#)),
    ))
    .unwrap();
    assert_eq!(parsed.query, "query ($id: ID!) { user(id: $id) { name } }");
    assert_eq!(parsed.operation_name.as_deref(), Some("Q"));
    assert_eq!(parsed.variables.unwrap().get("id").unwrap(), "abc");
    assert_eq!(
        parsed.extensions.unwrap().get("trace").unwrap(),
        &Value::Bool(true)
    );
}

#[test]
fn json_fields_null_optional_params_equivalent_to_omission() {
    let parsed = parse_json_fields(raw(
        Some(string("{ __typename }")),
        Some(JsonValue::Null),
        Some(JsonValue::Null),
        Some(JsonValue::Null),
    ))
    .unwrap();
    assert_eq!(parsed.operation_name, None);
    assert_eq!(parsed.variables, None);
    assert_eq!(parsed.extensions, None);
}

#[test]
fn json_fields_query_wrong_type() {
    let n = serde_json::Number::from(123);
    let err = parse_json_fields(raw(Some(JsonValue::Number(n)), None, None, None)).unwrap_err();
    assert_eq!(
        err,
        RequestParseError::NotWellFormed("query must be a string".into())
    );
    let err = parse_json_fields(raw(Some(JsonValue::Null), None, None, None)).unwrap_err();
    assert_eq!(
        err,
        RequestParseError::NotWellFormed("query must be a string".into())
    );
}

#[test]
fn json_fields_operation_name_wrong_type() {
    let err = parse_json_fields(raw(
        Some(string("{ a }")),
        Some(JsonValue::Bool(true)),
        None,
        None,
    ))
    .unwrap_err();
    assert_eq!(
        err,
        RequestParseError::NotWellFormed("operationName must be a string".into())
    );
}

#[test]
fn json_fields_variables_array_shape_not_well_formed() {
    let err = parse_json_fields(raw(
        Some(string("query Q ($i:Int!) { q(i: $i) }")),
        None,
        Some(JsonValue::Array(vec![Value::from(7)])),
        None,
    ))
    .unwrap_err();
    assert_eq!(
        err,
        RequestParseError::NotWellFormed("variables must be a map".into())
    );
}

#[test]
fn json_fields_extensions_wrong_type() {
    let err = parse_json_fields(raw(
        Some(string("{ a }")),
        None,
        None,
        Some(string("x")),
    ))
    .unwrap_err();
    assert_eq!(
        err,
        RequestParseError::NotWellFormed("extensions must be a map".into())
    );
}

#[test]
fn json_fields_checked_in_order() {
    let err = parse_json_fields(raw(
        Some(string("{ a }")),
        Some(JsonValue::Bool(false)),
        Some(JsonValue::Bool(false)),
        Some(JsonValue::Bool(false)),
    ))
    .unwrap_err();
    assert_eq!(
        err,
        RequestParseError::NotWellFormed("operationName must be a string".into())
    );
}

#[test]
fn error_messages() {
    assert_eq!(
        RequestParseError::NotParsable("eof".into()).message(),
        "body could not be parsed: eof"
    );
    assert_eq!(
        RequestParseError::NotWellFormed("query is required".into()).message(),
        "not a well-formed GraphQL-over-HTTP request: query is required"
    );
    assert_eq!(
        RequestParseError::MutationViaGet.message(),
        "mutation operations must not be executed via GET"
    );
}

// ---------------------------------------------------------------------
// Mutation detection
// ---------------------------------------------------------------------

#[test]
fn get_sec_get_detects_anonymous_mutation_operation() {
    assert!(document_looks_like_mutation(
        "mutation { createThing { id } }",
        None
    ));
    assert!(!document_looks_like_mutation(
        "query { thing { id } }",
        None
    ));
}

#[test]
fn get_sec_get_detects_named_mutation_operation() {
    let doc = "mutation DoIt { createThing { id } } query Q { thing { id } }";
    assert!(document_looks_like_mutation(doc, Some("DoIt")));
    assert!(!document_looks_like_mutation(doc, Some("Q")));
}

#[test]
fn mutation_keyword_needs_boundaries() {
    assert!(!document_looks_like_mutation("{ mutations }", None));
    assert!(!document_looks_like_mutation("{ premutation }", None));
    assert!(!document_looks_like_mutation("{ mutation_x }", None));
    assert!(document_looks_like_mutation("{mutation}", None));
    assert!(document_looks_like_mutation("mutation", None));
}

#[test]
fn two_mutations_without_name_is_not_the_anonymous_one() {
    let doc = "mutation A { a } mutation B { b }";
    assert!(!document_looks_like_mutation(doc, None));
    assert!(document_looks_like_mutation(doc, Some("B")));
    assert!(!document_looks_like_mutation(doc, Some("C")));
}

#[test]
fn mutation_name_after_whitespace() {
    let doc = "mutation \t\n  Make_1(x: 1) { a }";
    assert!(document_looks_like_mutation(doc, Some("Make_1")));
    assert!(!document_looks_like_mutation(doc, Some("Make")));
}

#[test]
fn anonymous_mutation_does_not_match_a_name() {
    assert!(!document_looks_like_mutation("mutation { a }", Some("A")));
}

#[test]
fn ident_bytes() {
    assert!(is_ident_byte(b'a'));
    assert!(is_ident_byte(b'Z'));
    assert!(is_ident_byte(b'0'));
    assert!(is_ident_byte(b'_'));
    assert!(!is_ident_byte(b' '));
    assert!(!is_ident_byte(b'{'));
    assert!(!is_ident_byte(b'-'));
}

#[test]
fn get_empty_parameter_same_as_absent() {
    let a = params(&[
        ("query", "{ a }"),
        ("variables", ""),
        ("extensions", ""),
        ("operationName", ""),
    ]);
    let b = params(&[("query", "{ a }")]);
    assert_eq!(parse_get_params(&a), parse_get_params(&b));
    let c = params(&[("query", "")]);
    assert_eq!(parse_get_params(&c), parse_get_params(&QueryParams::new()));
}

#[test]
fn mutation_scan_reads_unicode_documents() {
    assert!(!document_looks_like_mutation(r#"query { a(s: "café") }"#, None));
    assert!(document_looks_like_mutation("mutation Créer { a(s: \"é\") }", Some("Créer")));
    assert!(!document_looks_like_mutation("mutation Créer { a }", Some("Cr")));
    assert!(document_looks_like_mutation("émutation { a }", None));
    assert!(!document_looks_like_mutation("query { mutationCount }", None));
    assert!(!document_looks_like_mutation("mutation DoItNow { x }", Some("DoIt")));
    assert!(!document_looks_like_mutation("mutation { x }", Some("X")));
    assert!(!document_looks_like_mutation("mutation { x }", Some("")));
}

#[test]
fn json_param_value_cases() {
    let obj = serde_json::from_str::<Value>(r#"{"a": 1}"#).unwrap();
    let m = match obj {
        Value::Object(m) => m,
        _ => unreachable!(),
    };
    assert_eq!(
        json_param_value("variables", Ok(JsonValue::Object(m.clone()))),
        Ok(m)
    );
    assert_eq!(
        json_param_value("variables", Ok(JsonValue::Bool(true))),
        Err(RequestParseError::NotWellFormed(
            "variables must be a JSON object".into()
        ))
    );
    assert_eq!(
        json_param_value("extensions", Err("EOF at 1:1".to_string())),
        Err(RequestParseError::NotWellFormed(
            "invalid extensions JSON: EOF at 1:1".into()
        ))
    );
}
