//! The _GraphQL result_, its HTTP status code and its encoding as an HTTP
//! response, per the "Response", "Body" and "Status Codes" sections of the
//! specification.

use vstd::prelude::*;
use crate::json::{encode_value, json_encoding};
use crate::media::{Negotiated, APPLICATION_GRAPHQL_RESPONSE_JSON, APPLICATION_JSON};
use vstd::string::StringExecFns;

verus! {

/// A _GraphQL result_: describes the result of parsing, validating, and (if
/// successful) executing a requested operation.
#[derive(Debug, Clone, PartialEq)]
pub struct GraphQLResult {
    /// {data} entry. `None` means the entry is entirely absent (a _GraphQL
    /// request error result_); `Some(Value::Null)` means present-but-null.
    pub data: Option<serde_json::Value>,
    /// {errors} entry, a non-empty list when present.
    pub errors: Option<Vec<serde_json::Value>>,
    /// {extensions} entry.
    pub extensions: Option<serde_json::Value>,
}

/// The JSON text `null`.
pub open spec fn null_text() -> Seq<u8> {
    seq![0x6eu8, 0x75u8, 0x6cu8, 0x6cu8]
}

/// The value is JSON `null`: its JSON text is `null`.
pub open spec fn is_null_value(v: serde_json::Value) -> bool {
    json_encoding(v) == null_text()
}

/// `serde_json::Value::is_null`. Claimed: the value is `Null` exactly when
/// `serde_json` writes it as the text `null` (no other variant is written
/// so: strings are quoted, numbers are finite, arrays and objects are
/// bracketed).
#[verifier::external_body]
fn value_is_null(v: &serde_json::Value) -> (r: bool)
    ensures
        r == is_null_value(*v),
{
    v.is_null()
}

impl GraphQLResult {
    /// Builds a successful execution result with only {data}.
    pub fn data_only(data: serde_json::Value) -> (r: Self)
        ensures
            r.data == Some(data),
            r.errors is None,
            r.extensions is None,
    {
        GraphQLResult { data: Some(data), errors: None, extensions: None }
    }

    /// Builds a partial-success execution result with both {data} (which
    /// may be `null`) and {errors}.
    pub fn partial(data: serde_json::Value, errors: Vec<serde_json::Value>) -> (r: Self)
        ensures
            r.data == Some(data),
            r.errors == Some(errors),
            r.extensions is None,
    {
        GraphQLResult { data: Some(data), errors: Some(errors), extensions: None }
    }

    /// Builds a _GraphQL request error result_: no {data} entry at all.
    pub fn request_error(errors: Vec<serde_json::Value>) -> (r: Self)
        ensures
            r.data is None,
            r.errors == Some(errors),
            r.extensions is None,
    {
        GraphQLResult { data: None, errors: Some(errors), extensions: None }
    }

    /// Whether this result contains the {data} entry (regardless of value).
    pub fn has_data(&self) -> (r: bool)
        ensures
            r == self.data is Some,
    {
        self.data.is_some()
    }

    /// Whether {data} is present and non-null.
    pub fn has_non_null_data(&self) -> (r: bool)
        ensures
            r == (self.data matches Some(v) && !is_null_value(v)),
    {
        match &self.data {
            Some(v) => !value_is_null(v),
            None => false,
        }
    }

    /// Whether the {errors} entry is present.
    pub fn has_errors(&self) -> (r: bool)
        ensures
            r == self.errors is Some,
    {
        self.errors.is_some()
    }
}

/// The decided HTTP status code for a `GraphQLResult`.
#[derive(Debug, Clone, Copy, PartialEq, Eq, Structural)]
pub struct StatusDecision {
    pub code: u16,
}

/// The status code recommended by the specification for partial success.
pub const STATUS_PARTIAL_SUCCESS: u16 = 294;

/// The status code for a result: none when {data} is absent (a request
/// error, answered on the request-error path); `294` when {data} (even
/// `null`) and {errors} are both present; `200` when {data} is present
/// without {errors}.
pub open spec fn result_status(r: GraphQLResult) -> Option<u16> {
    if r.data is None {
        None
    } else if r.errors is Some {
        Some(STATUS_PARTIAL_SUCCESS)
    } else {
        Some(200u16)
    }
}

/// Decides the HTTP status code for a well-formed _GraphQL-over-HTTP
/// response_ body, per "Status Codes".
pub fn decide_result_status(result: &GraphQLResult) -> (d: Option<StatusDecision>)
    ensures
        match result_status(*result) {
            Some(c) => d == Some(StatusDecision { code: c }),
            None => d is None,
        },
{
    if !result.has_data() {
        return None;
    }
    if result.has_errors() {
        Some(StatusDecision { code: STATUS_PARTIAL_SUCCESS })
    } else {
        Some(StatusDecision { code: 200 })
    }
}

/// A fully-formed HTTP response ready to be written by a web framework:
/// status code, `Content-Type` header value, and JSON body bytes.
#[derive(Debug, Clone)]
pub struct HttpResponse {
    pub status: u16,
    pub content_type: String,
    pub body: Vec<u8>,
}

/// The status of the encoded response: the decided one, `200` when there
/// is none.
pub open spec fn response_status(r: GraphQLResult) -> u16 {
    match result_status(r) {
        Some(c) => c,
        None => 200,
    }
}

pub open spec fn charset_suffix() -> Seq<char> {
    "; charset=utf-8"@
}

/// The `Content-Type` of a response: `application/json` for a 2xx
/// response to a legacy client, the specification's media type otherwise;
/// always with the UTF-8 charset.
pub open spec fn content_type_for(n: Negotiated, status: u16) -> Seq<char> {
    if n is LegacyJson && 200 <= status < 300 {
        APPLICATION_JSON@ + charset_suffix()
    } else {
        APPLICATION_GRAPHQL_RESPONSE_JSON@ + charset_suffix()
    }
}

/// The byte sequences `parts`, separated by commas.
pub open spec fn join_commas(parts: Seq<Seq<u8>>) -> Seq<u8>
    decreases parts.len(),
{
    if parts.len() == 0 {
        Seq::<u8>::empty()
    } else if parts.len() == 1 {
        parts[0]
    } else {
        join_commas(parts.drop_last()) + seq![0x2cu8] + parts.last()
    }
}

/// `"name":` as JSON text.
pub open spec fn member_key(name: Seq<u8>) -> Seq<u8> {
    seq![0x22u8] + name + seq![0x22u8, 0x3au8]
}

pub open spec fn data_name() -> Seq<u8> {
    seq![0x64u8, 0x61u8, 0x74u8, 0x61u8]
}

pub open spec fn errors_name() -> Seq<u8> {
    seq![0x65u8, 0x72u8, 0x72u8, 0x6fu8, 0x72u8, 0x73u8]
}

pub open spec fn extensions_name() -> Seq<u8> {
    seq![0x65u8, 0x78u8, 0x74u8, 0x65u8, 0x6eu8, 0x73u8, 0x69u8, 0x6fu8, 0x6eu8, 0x73u8]
}

/// A JSON array whose elements have the texts `ts`.
pub open spec fn array_of(ts: Seq<Seq<u8>>) -> Seq<u8> {
    seq![0x5bu8] + join_commas(ts) + seq![0x5du8]
}

/// The members of a result's JSON object, given the texts of its present
/// entries: `data`, `errors` (an array of its elements' texts) and
/// `extensions`, in this order, each only when present.
pub open spec fn members_of(d: Option<Seq<u8>>, e: Option<Seq<Seq<u8>>>, x: Option<Seq<u8>>) -> Seq<
    Seq<u8>,
> {
    let dm = match d {
        Some(t) => seq![member_key(data_name()) + t],
        None => Seq::<Seq<u8>>::empty(),
    };
    let em = match e {
        Some(ts) => seq![member_key(errors_name()) + array_of(ts)],
        None => Seq::<Seq<u8>>::empty(),
    };
    let xm = match x {
        Some(t) => seq![member_key(extensions_name()) + t],
        None => Seq::<Seq<u8>>::empty(),
    };
    dm + em + xm
}

/// The JSON object of a result, given the texts of its present entries.
pub open spec fn object_of(d: Option<Seq<u8>>, e: Option<Seq<Seq<u8>>>, x: Option<Seq<u8>>) -> Seq<
    u8,
> {
    seq![0x7bu8] + join_commas(members_of(d, e, x)) + seq![0x7du8]
}

/// The JSON text of an optional value.
pub open spec fn opt_encoding(v: Option<serde_json::Value>) -> Option<Seq<u8>> {
    match v {
        Some(x) => Some(json_encoding(x)),
        None => None,
    }
}

/// The JSON texts of the values `vs`.
pub open spec fn encodings(vs: Seq<serde_json::Value>) -> Seq<Seq<u8>> {
    vs.map_values(|v: serde_json::Value| json_encoding(v))
}

/// The compact JSON text of a result: an object with its present members,
/// each written as `serde_json` writes it.
pub open spec fn result_body(r: GraphQLResult) -> Seq<u8> {
    object_of(
        opt_encoding(r.data),
        match r.errors {
            Some(es) => Some(encodings(es@)),
            None => None,
        },
        opt_encoding(r.extensions),
    )
}

/// The contents of optional bytes.
pub open spec fn opt_bytes(b: Option<Vec<u8>>) -> Option<Seq<u8>> {
    match b {
        Some(v) => Some(v@),
        None => None,
    }
}

/// The contents of optional byte vectors.
pub open spec fn opt_byte_views(e: Option<Vec<Vec<u8>>>) -> Option<Seq<Seq<u8>>> {
    match e {
        Some(es) => Some(byte_views(es@)),
        None => None,
    }
}

/// The contents of the byte vectors `v`.
pub open spec fn byte_views(v: Seq<Vec<u8>>) -> Seq<Seq<u8>> {
    v.map_values(|b: Vec<u8>| b@)
}

fn append_bytes(out: &mut Vec<u8>, bytes: &Vec<u8>)
    ensures
        final(out)@ == old(out)@ + bytes@,
{
    let ghost start = out@;
    let mut i: usize = 0;
    while i < bytes.len()
        invariant
            0 <= i <= bytes@.len(),
            out@ == start + bytes@.take(i as int),
        decreases bytes@.len() - i,
    {
        out.push(bytes[i]);
        i = i + 1;
        assert(out@ =~= start + bytes@.take(i as int));
    }
    assert(bytes@.take(i as int) =~= bytes@);
}

/// Appends `"name":` to `out`.
fn append_key(out: &mut Vec<u8>, name: Vec<u8>)
    ensures
        final(out)@ == old(out)@ + member_key(name@),
{
    let ghost start = out@;
    out.push(0x22u8);
    append_bytes(out, &name);
    out.push(0x22u8);
    out.push(0x3au8);
    assert(out@ =~= start + member_key(name@));
}

proof fn lemma_join_push(parts: Seq<Seq<u8>>, p: Seq<u8>)
    ensures
        join_commas(parts.push(p)) == if parts.len() == 0 {
            p
        } else {
            join_commas(parts) + seq![0x2cu8] + p
        },
{
    assert(parts.push(p).drop_last() =~= parts);
    if parts.len() == 0 {
        assert(parts.push(p)[0] == p);
    }
}

/// Appends the JSON array whose elements have the texts `ts` to `out`.
fn append_array(out: &mut Vec<u8>, ts: &Vec<Vec<u8>>)
    ensures
        final(out)@ == old(out)@ + array_of(byte_views(ts@)),
{
    let ghost start = out@;
    let ghost texts = byte_views(ts@);
    out.push(0x5bu8);
    let mut i: usize = 0;
    assert(texts.take(0) =~= Seq::<Seq<u8>>::empty());
    while i < ts.len()
        invariant
            0 <= i <= ts@.len(),
            texts == byte_views(ts@),
            out@ == start + seq![0x5bu8] + join_commas(texts.take(i as int)),
        decreases ts@.len() - i,
    {
        proof {
            lemma_join_push(texts.take(i as int), texts[i as int]);
            assert(texts.take(i as int).push(texts[i as int]) =~= texts.take(i + 1));
        }
        if i > 0 {
            out.push(0x2cu8);
        }
        append_bytes(out, &ts[i]);
        i = i + 1;
        assert(out@ =~= start + seq![0x5bu8] + join_commas(texts.take(i as int)));
    }
    out.push(0x5du8);
    assert(texts.take(i as int) =~= texts);
    assert(out@ =~= start + array_of(byte_views(ts@)));
}

/// Frames the compact JSON object of a result, given the JSON texts of its
/// present entries: `data`, `errors` (the texts of its elements) and
/// `extensions`, in this order, separated by commas.
pub fn frame_result_body(
    data: Option<Vec<u8>>,
    errors: Option<Vec<Vec<u8>>>,
    extensions: Option<Vec<u8>>,
) -> (body: Vec<u8>)
    ensures
        body@ == object_of(
            opt_bytes(data),
            opt_byte_views(errors),
            opt_bytes(extensions),
        ),
{
    let ghost members = object_of(
        opt_bytes(data),
        opt_byte_views(errors),
        opt_bytes(extensions),
    );
    let ghost ms = members_of(
        opt_bytes(data),
        opt_byte_views(errors),
        opt_bytes(extensions),
    );
    let mut out: Vec<u8> = Vec::new();
    out.push(0x7bu8);
    let ghost mut done: Seq<Seq<u8>> = Seq::empty();
    let mut any = false;
    match &data {
        Some(v) => {
            append_key(&mut out, vec![0x64u8, 0x61u8, 0x74u8, 0x61u8]);
            append_bytes(&mut out, v);
            proof {
                let m = member_key(data_name()) + v@;
                lemma_join_push(done, m);
                done = done.push(m);
                assert(out@ =~= seq![0x7bu8] + join_commas(done));
            }
            any = true;
        },
        None => {},
    }
    assert(out@ =~= seq![0x7bu8] + join_commas(done));
    assert(any == (done.len() > 0));
    match &errors {
        Some(es) => {
            if any {
                out.push(0x2cu8);
            }
            append_key(&mut out, vec![0x65u8, 0x72u8, 0x72u8, 0x6fu8, 0x72u8, 0x73u8]);
            append_array(&mut out, es);
            proof {
                let m = member_key(errors_name()) + array_of(byte_views(es@));
                lemma_join_push(done, m);
                done = done.push(m);
                assert(out@ =~= seq![0x7bu8] + join_commas(done));
            }
            any = true;
        },
        None => {},
    }
    assert(any == (done.len() > 0));
    match &extensions {
        Some(v) => {
            if any {
                out.push(0x2cu8);
            }
            append_key(
                &mut out,
                vec![0x65u8, 0x78u8, 0x74u8, 0x65u8, 0x6eu8, 0x73u8, 0x69u8, 0x6fu8, 0x6eu8, 0x73u8],
            );
            append_bytes(&mut out, v);
            proof {
                let m = member_key(extensions_name()) + v@;
                lemma_join_push(done, m);
                done = done.push(m);
                assert(out@ =~= seq![0x7bu8] + join_commas(done));
            }
        },
        None => {},
    }
    assert(done =~= ms);
    out.push(0x7du8);
    assert(out@ =~= members);
    out
}

fn encode_all(vs: &Vec<serde_json::Value>) -> (ts: Vec<Vec<u8>>)
    ensures
        byte_views(ts@) == encodings(vs@),
{
    let mut ts: Vec<Vec<u8>> = Vec::new();
    let mut i: usize = 0;
    while i < vs.len()
        invariant
            0 <= i <= vs@.len(),
            byte_views(ts@) == encodings(vs@).take(i as int),
        decreases vs@.len() - i,
    {
        let b = encode_value(&vs[i]);
        let ghost before = ts@;
        ts.push(b);
        assert(byte_views(ts@) =~= byte_views(before).push(json_encoding(vs@[i as int])));
        assert(encodings(vs@).take(i + 1) =~= encodings(vs@).take(i as int).push(
            json_encoding(vs@[i as int]),
        ));
        i = i + 1;
    }
    assert(encodings(vs@).take(i as int) =~= encodings(vs@));
    ts
}

fn result_body_bytes(result: &GraphQLResult) -> (body: Vec<u8>)
    ensures
        body@ == result_body(*result),
{
    let data = match &result.data {
        Some(v) => Some(encode_value(v)),
        None => None,
    };
    let errors = match &result.errors {
        Some(es) => Some(encode_all(es)),
        None => None,
    };
    let extensions = match &result.extensions {
        Some(v) => Some(encode_value(v)),
        None => None,
    };
    frame_result_body(data, errors, extensions)
}

fn content_type_string(media: &str) -> (r: String)
    ensures
        r@ == media@ + charset_suffix(),
{
    let mut s = String::from_str(media);
    s.append("; charset=utf-8");
    s
}

/// Encodes a `GraphQLResult` into an `HttpResponse`, applying the spec's
/// content-negotiation-aware status and `Content-Type` rules: the status is
/// the decided one (`200` when there is none); a 2xx response to a legacy
/// client is labelled `application/json`, every other response
/// `application/graphql-response+json` (also when negotiation failed); the
/// body is the compact JSON object of the result's present entries.
pub fn encode_response(result: &GraphQLResult, negotiated: Negotiated) -> (resp: HttpResponse)
    ensures
        resp.status == response_status(*result),
        resp.content_type@ == content_type_for(negotiated, resp.status),
        resp.body@ == result_body(*result),
{
    let status = match decide_result_status(result) {
        Some(d) => d.code,
        None => 200,
    };
    let body = result_body_bytes(result);
    let content_type = match negotiated {
        Negotiated::GraphqlResponseJson => content_type_string(APPLICATION_GRAPHQL_RESPONSE_JSON),
        Negotiated::LegacyJson => {
            if 200 <= status && status < 300 {
                content_type_string(APPLICATION_JSON)
            } else {
                content_type_string(APPLICATION_GRAPHQL_RESPONSE_JSON)
            }
        },
        Negotiated::NotAcceptable => content_type_string(APPLICATION_GRAPHQL_RESPONSE_JSON),
    };
    HttpResponse { status, content_type, body }
}


// ---------------------------------------------------------------------
// Laws
// ---------------------------------------------------------------------

/// The status decision reads only whether {data} and {errors} are
/// present: no {data} gives none, {data} with {errors} gives `294`, {data}
/// without {errors} gives `200`, whatever the values and whatever
/// {extensions} holds.
pub proof fn law_status_reads_presence_only(r: GraphQLResult, other: GraphQLResult)
    ensures
        r.data is None ==> result_status(r) is None,
        r.data is Some && r.errors is Some ==> result_status(r) == Some(STATUS_PARTIAL_SUCCESS),
        r.data is Some && r.errors is None ==> result_status(r) == Some(200u16),
        (r.data is Some <==> other.data is Some) && (r.errors is Some <==> other.errors is Some)
            ==> result_status(r) == result_status(other),
{
}

pub open spec fn present(b: bool) -> int {
    if b {
        1
    } else {
        0
    }
}

/// An encoded response carries the decided status, `200` when none is
/// decided.
pub proof fn law_encoded_status_is_the_decision(r: GraphQLResult)
    ensures
        result_status(r) matches Some(c) ==> response_status(r) == c,
        result_status(r) is None ==> response_status(r) == 200,
{
}

/// Every present entry of a result is a member of its JSON object, and no
/// other is: `data` first, then `errors` (an array of its elements), then
/// `extensions` last, each present independently of the others.
pub proof fn law_body_members_are_the_present_entries(
    d: Option<Seq<u8>>,
    e: Option<Seq<Seq<u8>>>,
    x: Option<Seq<u8>>,
)
    ensures
        members_of(d, e, x).len() == present(d is Some) + present(e is Some) + present(x is Some),
        d matches Some(t) ==> members_of(d, e, x)[0] == member_key(data_name()) + t,
        e matches Some(ts) ==> members_of(d, e, x)[present(d is Some)] == member_key(errors_name())
            + array_of(ts),
        x matches Some(t) ==> members_of(d, e, x)[members_of(d, e, x).len() - 1] == member_key(
            extensions_name(),
        ) + t,
{
}

/// The body of an encoded result is the JSON object of the texts of its
/// present entries, `serde_json`'s writing of each value.
pub proof fn law_body_encodes_each_entry(r: GraphQLResult)
    ensures
        result_body(r) == object_of(
            opt_encoding(r.data),
            match r.errors {
                Some(es) => Some(encodings(es@)),
                None => None,
            },
            opt_encoding(r.extensions),
        ),
        members_of(
            opt_encoding(r.data),
            match r.errors {
                Some(es) => Some(encodings(es@)),
                None => None,
            },
            opt_encoding(r.extensions),
        ).len() == present(r.data is Some) + present(r.errors is Some) + present(
            r.extensions is Some,
        ),
{
    law_body_members_are_the_present_entries(
        opt_encoding(r.data),
        match r.errors {
            Some(es) => Some(encodings(es@)),
            None => None,
        },
        opt_encoding(r.extensions),
    );
}

/// A data-only result is answered `200`.
pub proof fn law_data_only_is_200(data: serde_json::Value)
    ensures
        result_status(GraphQLResult { data: Some(data), errors: None, extensions: None }) == Some(
            200u16,
        ),
{
}

/// A result with {data} (even `null`) and {errors} is answered `294`.
pub proof fn law_partial_is_294(data: serde_json::Value, errors: Vec<serde_json::Value>)
    ensures
        result_status(GraphQLResult { data: Some(data), errors: Some(errors), extensions: None })
            == Some(STATUS_PARTIAL_SUCCESS),
{
}

/// A request error result (no {data}) gets no status from the result:
/// it is answered on the request-error path.
pub proof fn law_request_error_has_no_status(errors: Vec<serde_json::Value>)
    ensures
        result_status(GraphQLResult { data: None, errors: Some(errors), extensions: None })
            is None,
{
}

/// A result whose {data} is present and not `null` is answered with a
/// `2xx` status.
pub proof fn law_non_null_data_is_2xx(r: GraphQLResult)
    requires
        r.data matches Some(v) && !is_null_value(v),
    ensures
        result_status(r) matches Some(c) && 200 <= c < 300,
{
}

/// Every encoded result carries a `2xx` status.
pub proof fn law_encoded_status_is_2xx(r: GraphQLResult)
    ensures
        200 <= response_status(r) < 300,
{
}

/// A legacy client is always answered with `Content-Type:
/// application/json` for an encoded result, since that status is `2xx`.
pub proof fn law_legacy_client_gets_application_json(r: GraphQLResult)
    ensures
        content_type_for(Negotiated::LegacyJson, response_status(r)) == APPLICATION_JSON@
            + charset_suffix(),
{
}

/// Every `Content-Type` declares the UTF-8 charset.
pub proof fn law_content_type_declares_charset(n: Negotiated, status: u16)
    ensures
        content_type_for(n, status).len() >= charset_suffix().len(),
        content_type_for(n, status).skip(
            content_type_for(n, status).len() - charset_suffix().len(),
        ) == charset_suffix(),
{
    let t = content_type_for(n, status);
    let m = if n is LegacyJson && 200 <= status < 300 {
        APPLICATION_JSON@
    } else {
        APPLICATION_GRAPHQL_RESPONSE_JSON@
    };
    assert(t == m + charset_suffix());
    assert(t.skip(m.len() as int) =~= charset_suffix());
}

/// A client negotiated into the specification's media type always gets
/// it.
pub proof fn law_spec_compliant_media_type(status: u16)
    ensures
        content_type_for(Negotiated::GraphqlResponseJson, status)
            == APPLICATION_GRAPHQL_RESPONSE_JSON@ + charset_suffix(),
{
}

} // verus!
