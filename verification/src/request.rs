//! GraphQL-over-HTTP request representation and parsing, per the
//! "Request", "GET", "POST" and "JSON Encoding" sections of the
//! specification.

use vstd::prelude::*;
use crate::json::{json_text, parse_json_text, JsonValue};
use crate::text::{alphanumeric, char_is_alphanumeric, chars_of, is_whitespace, trim_start};
use vstd::string::StringExecFns;

verus! {

// ---------------------------------------------------------------------
// Requests and parse errors
// ---------------------------------------------------------------------

/// A parsed, well-formed _GraphQL-over-HTTP request_.
#[derive(Debug, Clone, PartialEq)]
pub struct GraphQLRequest {
    /// {query} - Required string: source text of a GraphQL Document.
    pub query: String,
    /// {operationName} - Optional string.
    pub operation_name: Option<String>,
    /// {variables} - Optional map.
    pub variables: Option<serde_json::Map<String, serde_json::Value>>,
    /// {extensions} - Optional map.
    pub extensions: Option<serde_json::Map<String, serde_json::Value>>,
}

/// Errors that can occur while parsing a request into a well-formed
/// _GraphQL-over-HTTP request_.
#[derive(Debug, Clone, PartialEq)]
pub enum RequestParseError {
    /// The request body could not be parsed at all (e.g. invalid JSON);
    /// `400` is recommended.
    NotParsable(String),
    /// The request was parsed but is not a well-formed _GraphQL-over-HTTP
    /// request_ (missing or wrong-typed parameters, malformed sub-encoded
    /// values in GET parameters); `422` is recommended.
    NotWellFormed(String),
    /// A mutation was attempted via GET; `405` is recommended.
    MutationViaGet,
}

/// The message that describes an error.
pub open spec fn error_message(e: RequestParseError) -> Seq<char> {
    match e {
        RequestParseError::NotParsable(m) => "body could not be parsed: "@ + m@,
        RequestParseError::NotWellFormed(m) => "not a well-formed GraphQL-over-HTTP request: "@ + m@,
        RequestParseError::MutationViaGet => "mutation operations must not be executed via GET"@,
    }
}

impl RequestParseError {
    /// The human-readable description of this error.
    pub fn message(&self) -> (r: String)
        ensures
            r@ == error_message(*self),
    {
        match self {
            RequestParseError::NotParsable(m) => {
                let mut s = String::from_str("body could not be parsed: ");
                s.append(m.as_str());
                s
            },
            RequestParseError::NotWellFormed(m) => {
                let mut s = String::from_str("not a well-formed GraphQL-over-HTTP request: ");
                s.append(m.as_str());
                s
            },
            RequestParseError::MutationViaGet => String::from_str(
                "mutation operations must not be executed via GET",
            ),
        }
    }
}

/// The error `NotWellFormed` with a message whose text is `m`.
pub open spec fn is_not_well_formed(r: Result<GraphQLRequest, RequestParseError>, m: Seq<char>) -> bool {
    r matches Err(RequestParseError::NotWellFormed(e)) && e@ == m
}

fn not_well_formed(m: &str) -> (r: RequestParseError)
    ensures
        r matches RequestParseError::NotWellFormed(e) && e@ == m@,
{
    RequestParseError::NotWellFormed(String::from_str(m))
}

// ---------------------------------------------------------------------
// POST: JSON encoding
// ---------------------------------------------------------------------

/// The four known properties of a JSON-encoded request body, as read by
/// a JSON deserializer: `None` for an absent property (a deserializer may
/// also give `None` for an explicit `null`). Unknown properties are not
/// kept.
#[derive(Debug, Clone, PartialEq)]
pub struct RawJsonRequest {
    pub query: Option<JsonValue>,
    pub operation_name: Option<JsonValue>,
    pub variables: Option<JsonValue>,
    pub extensions: Option<JsonValue>,
}

/// An optional string property: absent, `null` or a string.
pub open spec fn optional_string_ok(f: Option<JsonValue>) -> bool {
    f is None || f matches Some(JsonValue::Null) || f matches Some(JsonValue::String(_))
}

/// An optional map property: absent, `null` or an object.
pub open spec fn optional_map_ok(f: Option<JsonValue>) -> bool {
    f is None || f matches Some(JsonValue::Null) || f matches Some(JsonValue::Object(_))
}

/// The reason why the properties `raw` do not make a well-formed request,
/// checked in the order query, operationName, variables, extensions; `None`
/// when they do.
pub open spec fn json_fields_error(raw: RawJsonRequest) -> Option<Seq<char>> {
    if raw.query is None {
        Some("query is required"@)
    } else if !(raw.query matches Some(JsonValue::String(_))) {
        Some("query must be a string"@)
    } else if !optional_string_ok(raw.operation_name) {
        Some("operationName must be a string"@)
    } else if !optional_map_ok(raw.variables) {
        Some("variables must be a map"@)
    } else if !optional_map_ok(raw.extensions) {
        Some("extensions must be a map"@)
    } else {
        None
    }
}

pub open spec fn string_field(f: Option<JsonValue>) -> Option<String> {
    match f {
        Some(JsonValue::String(s)) => Some(s),
        _ => None,
    }
}

pub open spec fn map_field(f: Option<JsonValue>) -> Option<
    serde_json::Map<String, serde_json::Value>,
> {
    match f {
        Some(JsonValue::Object(m)) => Some(m),
        _ => None,
    }
}

/// Turns the properties of a JSON-encoded POST body into a well-formed
/// _GraphQL-over-HTTP request_, per "JSON Encoding": {query} is a required
/// string; {operationName} an optional string; {variables} and
/// {extensions} optional maps; `null` for an optional parameter is the same
/// as omitting it; unknown properties were already dropped.
pub fn parse_json_fields(raw: RawJsonRequest) -> (r: Result<GraphQLRequest, RequestParseError>)
    ensures
        match json_fields_error(raw) {
            Some(m) => is_not_well_formed(r, m),
            None => r matches Ok(req) && {
                &&& Some(req.query) == string_field(raw.query)
                &&& req.operation_name == string_field(raw.operation_name)
                &&& req.variables == map_field(raw.variables)
                &&& req.extensions == map_field(raw.extensions)
            },
        },
{
    let query = match raw.query {
        Some(JsonValue::String(s)) => s,
        Some(_) => {
            return Err(not_well_formed("query must be a string"));
        },
        None => {
            return Err(not_well_formed("query is required"));
        },
    };
    let operation_name = match raw.operation_name {
        None | Some(JsonValue::Null) => None,
        Some(JsonValue::String(s)) => Some(s),
        Some(_) => {
            return Err(not_well_formed("operationName must be a string"));
        },
    };
    let variables = match raw.variables {
        None | Some(JsonValue::Null) => None,
        Some(JsonValue::Object(m)) => Some(m),
        Some(_) => {
            return Err(not_well_formed("variables must be a map"));
        },
    };
    let extensions = match raw.extensions {
        None | Some(JsonValue::Null) => None,
        Some(JsonValue::Object(m)) => Some(m),
        Some(_) => {
            return Err(not_well_formed("extensions must be a map"));
        },
    };
    Ok(GraphQLRequest { query, operation_name, variables, extensions })
}

// ---------------------------------------------------------------------
// GET: query parameters
// ---------------------------------------------------------------------

/// Decoded query-string parameters: a map from names to values, each name
/// present at most once.
pub struct QueryParams {
    entries: Vec<(String, String)>,
}

/// The map that the pairs `es` describe.
pub open spec fn entries_map(es: Seq<(String, String)>) -> Map<Seq<char>, Seq<char>>
    decreases es.len(),
{
    if es.len() == 0 {
        Map::empty()
    } else {
        entries_map(es.drop_last()).insert(es.last().0@, es.last().1@)
    }
}

/// No name occurs twice among the pairs `es`.
pub open spec fn distinct_names(es: Seq<(String, String)>) -> bool {
    forall|i: int, j: int| 0 <= i < j < es.len() ==> es[i].0@ != es[j].0@
}

proof fn lemma_entries_map(es: Seq<(String, String)>)
    requires
        distinct_names(es),
    ensures
        forall|k: Seq<char>|
            #![trigger entries_map(es).contains_key(k)]
            entries_map(es).contains_key(k) <==> exists|i: int|
                0 <= i < es.len() && es[i].0@ == k,
        forall|i: int|
            0 <= i < es.len() ==> #[trigger] entries_map(es)[es[i].0@] == es[i].1@ && entries_map(
                es,
            ).contains_key(es[i].0@),
    decreases es.len(),
{
    if es.len() > 0 {
        let p = es.drop_last();
        assert(distinct_names(p));
        lemma_entries_map(p);
        assert forall|k: Seq<char>|
            #![trigger entries_map(es).contains_key(k)]
            entries_map(es).contains_key(k) implies exists|i: int|
                0 <= i < es.len() && es[i].0@ == k by {
            if k != es.last().0@ {
                assert(entries_map(p).contains_key(k));
                let i = choose|i: int| 0 <= i < p.len() && p[i].0@ == k;
                assert(es[i] == p[i]);
            } else {
                assert(es[es.len() - 1].0@ == k);
            }
        }
        assert forall|k: Seq<char>|
            #![trigger entries_map(es).contains_key(k)]
            (exists|i: int| 0 <= i < es.len() && es[i].0@ == k) implies entries_map(
                es,
            ).contains_key(k) by {
            let i = choose|i: int| 0 <= i < es.len() && es[i].0@ == k;
            if i < es.len() - 1 {
                assert(p[i] == es[i]);
                assert(entries_map(p).contains_key(p[i].0@));
            }
        }
        assert forall|i: int| 0 <= i < es.len() implies #[trigger] entries_map(es)[es[i].0@]
            == es[i].1@ && entries_map(es).contains_key(es[i].0@) by {
            if i < es.len() - 1 {
                assert(p[i] == es[i]);
                assert(entries_map(p)[p[i].0@] == p[i].1@);
                assert(es[i].0@ != es[es.len() - 1].0@);
            }
        }
    }
}

fn str_eq(a: &str, b: &str) -> (r: bool)
    ensures
        r == (a@ == b@),
{
    let ac = chars_of(a);
    let bc = chars_of(b);
    assert(ac@.subrange(0, ac@.len() as int) =~= ac@);
    chars_eq(&ac, 0, ac.len(), &bc)
}

impl QueryParams {
    #[verifier::type_invariant]
    spec fn inv(self) -> bool {
        distinct_names(self.entries@)
    }

    /// The parameters as a map from names to values.
    pub closed spec fn params(self) -> Map<Seq<char>, Seq<char>> {
        entries_map(self.entries@)
    }

    /// No parameters.
    pub fn new() -> (r: QueryParams)
        ensures
            r.params() == Map::<Seq<char>, Seq<char>>::empty(),
    {
        QueryParams { entries: Vec::new() }
    }

    /// The index of the pair named `key`, if any.
    fn position(&self, key: &str) -> (r: Option<usize>)
        ensures
            r matches Some(i) ==> i < self.entries@.len() && self.entries@[i as int].0@ == key@,
            r is None ==> forall|i: int|
                0 <= i < self.entries@.len() ==> self.entries@[i].0@ != key@,
    {
        let mut i: usize = 0;
        while i < self.entries.len()
            invariant
                0 <= i <= self.entries@.len(),
                forall|j: int| 0 <= j < i ==> self.entries@[j].0@ != key@,
            decreases self.entries@.len() - i,
        {
            if str_eq(self.entries[i].0.as_str(), key) {
                return Some(i);
            }
            i = i + 1;
        }
        None
    }

    /// The value of the parameter named `key`.
    pub fn get(&self, key: &str) -> (r: Option<&String>)
        ensures
            r matches Some(v) ==> self.params().contains_key(key@) && self.params()[key@] == v@,
            r is None ==> !self.params().contains_key(key@),
    {
        proof {
            use_type_invariant(self);
            lemma_entries_map(self.entries@);
        }
        match self.position(key) {
            Some(i) => Some(&self.entries[i].1),
            None => None,
        }
    }

    /// Sets the parameter named `key` to `value`, returning its former
    /// value.
    pub fn insert(&mut self, key: String, value: String) -> (r: Option<String>)
        ensures
            final(self).params() == old(self).params().insert(key@, value@),
            r matches Some(v) ==> old(self).params().contains_key(key@) && old(self).params()[key@]
                == v@,
            r is None ==> !old(self).params().contains_key(key@),
    {
        proof {
            use_type_invariant(&*self);
            lemma_entries_map(self.entries@);
        }
        let ghost old_es = self.entries@;
        let mut es = Vec::new();
        std::mem::swap(&mut es, &mut self.entries);
        let found = {
            let probe = QueryParams { entries: es };
            let p = probe.position(key.as_str());
            es = probe.entries;
            p
        };
        assert(es@ == old_es);
        let result = match found {
            Some(i) => {
                let (_, old_value) = es.remove(i);
                es.insert(i, (key, value));
                Some(old_value)
            },
            None => {
                es.push((key, value));
                None
            },
        };
        proof {
            let new_es = es@;
            let m = old_es;
            assert(distinct_names(new_es)) by {
                assert forall|a: int, b: int| 0 <= a < b < new_es.len() implies new_es[a].0@
                    != new_es[b].0@ by {
                    match found {
                        Some(i) => {
                            assert(new_es.len() == m.len());
                            assert(forall|t: int| 0 <= t < m.len() && t != i ==> new_es[t] == m[t]);
                            assert(new_es[i as int].0@ == m[i as int].0@);
                            assert(new_es[a].0@ == m[a].0@);
                            assert(new_es[b].0@ == m[b].0@);
                        },
                        None => {
                            if b < m.len() {
                                assert(new_es[a] == m[a] && new_es[b] == m[b]);
                            } else {
                                assert(new_es[a] == m[a]);
                            }
                        },
                    }
                }
            }
            lemma_entries_map(new_es);
            assert(entries_map(new_es) =~= entries_map(m).insert(key@, value@)) by {
                assert forall|k: Seq<char>| #[trigger]
                    entries_map(new_es).contains_key(k) == entries_map(m).insert(
                        key@,
                        value@,
                    ).contains_key(k) by {
                    if entries_map(new_es).contains_key(k) {
                        let t = choose|t: int| 0 <= t < new_es.len() && new_es[t].0@ == k;
                        if k != key@ {
                            match found {
                                Some(i) => {
                                    assert(t != i);
                                    assert(new_es[t] == m[t]);
                                },
                                None => {
                                    assert(t < m.len());
                                    assert(new_es[t] == m[t]);
                                },
                            }
                        }
                    }
                    if entries_map(m).contains_key(k) && k != key@ {
                        let t = choose|t: int| 0 <= t < m.len() && m[t].0@ == k;
                        match found {
                            Some(i) => {
                                assert(new_es[t] == m[t]);
                            },
                            None => {
                                assert(new_es[t] == m[t]);
                            },
                        }
                    }
                    if k == key@ {
                        match found {
                            Some(i) => {
                                assert(new_es[i as int].0@ == k);
                            },
                            None => {
                                assert(new_es[m.len() as int].0@ == k);
                            },
                        }
                    }
                }
                assert forall|k: Seq<char>|
                    #[trigger] entries_map(new_es).contains_key(k) implies entries_map(new_es)[k]
                    == entries_map(m).insert(key@, value@)[k] by {
                    let t = choose|t: int| 0 <= t < new_es.len() && new_es[t].0@ == k;
                    assert(entries_map(new_es)[new_es[t].0@] == new_es[t].1@);
                    if k != key@ {
                        match found {
                            Some(i) => {
                                assert(new_es[t] == m[t]);
                            },
                            None => {
                                assert(new_es[t] == m[t]);
                            },
                        }
                        assert(entries_map(m)[m[t].0@] == m[t].1@);
                    }
                }
            }
        }
        self.entries = es;
        result
    }

    /// The number of parameters.
    pub fn len(&self) -> (r: usize)
        ensures
            r == self.params().len(),
    {
        proof {
            use_type_invariant(self);
            lemma_entries_map_len(self.entries@);
        }
        self.entries.len()
    }
}

proof fn lemma_entries_map_len(es: Seq<(String, String)>)
    requires
        distinct_names(es),
    ensures
        entries_map(es).dom().finite(),
        entries_map(es).len() == es.len(),
    decreases es.len(),
{
    if es.len() > 0 {
        let p = es.drop_last();
        assert(distinct_names(p));
        lemma_entries_map_len(p);
        lemma_entries_map(p);
        assert(!entries_map(p).contains_key(es.last().0@)) by {
            if entries_map(p).contains_key(es.last().0@) {
                let i = choose|i: int| 0 <= i < p.len() && p[i].0@ == es.last().0@;
                assert(es[i] == p[i]);
            }
        }
    }
}

/// The parameter `name` is present with a non-empty value.
pub open spec fn given(m: Map<Seq<char>, Seq<char>>, name: Seq<char>) -> bool {
    m.contains_key(name) && m[name].len() > 0
}

/// The reason why a JSON-encoded parameter `name` with text `text` is
/// rejected; `None` when it holds a JSON object.
pub open spec fn json_param_error(name: Seq<char>, text: Seq<char>) -> Option<Seq<char>> {
    read_param_error(name, json_text(text))
}

/// The reason why the parameters `m` do not make a well-formed request,
/// checked in the order query, variables, extensions; `None` when they do.
pub open spec fn get_params_error(m: Map<Seq<char>, Seq<char>>) -> Option<Seq<char>> {
    if !given(m, "query"@) {
        Some("query is required"@)
    } else if given(m, "variables"@) && json_param_error("variables"@, m["variables"@]) is Some {
        json_param_error("variables"@, m["variables"@])
    } else if given(m, "extensions"@) && json_param_error("extensions"@, m["extensions"@]) is Some {
        json_param_error("extensions"@, m["extensions"@])
    } else {
        None
    }
}

/// The object that the JSON text `text` holds, if it holds one.
pub open spec fn json_object(text: Seq<char>) -> Option<serde_json::Map<String, serde_json::Value>> {
    match json_text(text) {
        Ok(JsonValue::Object(m)) => Some(m),
        _ => None,
    }
}

/// The reason why a JSON-encoded parameter `name` is rejected, given what
/// reading its text gave (`r`); `None` when that is a JSON object.
pub open spec fn read_param_error(name: Seq<char>, r: Result<JsonValue, Seq<char>>) -> Option<
    Seq<char>,
> {
    match r {
        Ok(JsonValue::Object(_)) => None,
        Ok(_) => Some(name + " must be a JSON object"@),
        Err(e) => Some("invalid "@ + name + " JSON: "@ + e),
    }
}

/// Turns what reading the JSON text of the parameter `name` gave (a value,
/// or the reader's error message) into the parameter's map: a JSON object
/// is the map; any other value, and an error, reject the request.
pub fn json_param_value(name: &str, read: Result<JsonValue, String>) -> (r: Result<
    serde_json::Map<String, serde_json::Value>,
    RequestParseError,
>)
    ensures
        match read {
            Ok(JsonValue::Object(m)) => r == Ok::<
                serde_json::Map<String, serde_json::Value>,
                RequestParseError,
            >(m),
            Ok(_) => r matches Err(RequestParseError::NotWellFormed(e)) && e@ == name@
                + " must be a JSON object"@,
            Err(msg) => r matches Err(RequestParseError::NotWellFormed(e)) && e@ == "invalid "@
                + name@ + " JSON: "@ + msg@,
        },
{
    match read {
        Ok(JsonValue::Object(m)) => Ok(m),
        Ok(_) => {
            let mut msg = String::from_str(name);
            msg.append(" must be a JSON object");
            Err(RequestParseError::NotWellFormed(msg))
        },
        Err(e) => {
            let mut msg = String::from_str("invalid ");
            msg.append(name);
            msg.append(" JSON: ");
            msg.append(e.as_str());
            proof {
                assert(msg@ =~= "invalid "@ + name@ + " JSON: "@ + e@);
            }
            Err(RequestParseError::NotWellFormed(msg))
        },
    }
}

/// Reads the JSON-encoded parameter `name` with value `text` (non-empty).
fn json_param(name: &str, text: &str) -> (r: Result<
    serde_json::Map<String, serde_json::Value>,
    RequestParseError,
>)
    ensures
        match json_param_error(name@, text@) {
            Some(e) => r matches Err(RequestParseError::NotWellFormed(m)) && m@ == e,
            None => r matches Ok(obj) && json_object(text@) == Some(obj),
        },
{
    json_param_value(name, parse_json_text(text))
}

/// Parses decoded query-string parameters (from a GET request) into a
/// well-formed _GraphQL-over-HTTP request_, per "GET": {query} is required;
/// {variables} and {extensions}, when present and non-empty, are
/// JSON-encoded objects; an empty string for an optional parameter is the
/// same as omitting it.
pub fn parse_get_params(params: &QueryParams) -> (r: Result<GraphQLRequest, RequestParseError>)
    ensures
        match get_params_error(params.params()) {
            Some(m) => is_not_well_formed(r, m),
            None => r matches Ok(req) && {
                let m = params.params();
                &&& req.query@ == m["query"@]
                &&& req.operation_name matches Some(o) ==> given(m, "operationName"@) && o@
                    == m["operationName"@]
                &&& req.operation_name is None ==> !given(m, "operationName"@)
                &&& req.variables == if given(m, "variables"@) {
                    json_object(m["variables"@])
                } else {
                    None
                }
                &&& req.extensions == if given(m, "extensions"@) {
                    json_object(m["extensions"@])
                } else {
                    None
                }
            },
        },
{
    let ghost m = params.params();
    let query = match params.get("query") {
        Some(q) if !q.as_str().is_empty() => q.clone(),
        _ => {
            return Err(not_well_formed("query is required"));
        },
    };
    let operation_name = match params.get("operationName") {
        Some(o) if !o.as_str().is_empty() => Some(o.clone()),
        _ => None,
    };
    let variables = match params.get("variables") {
        Some(v) if !v.as_str().is_empty() => {
            match json_param("variables", v.as_str()) {
                Ok(map) => Some(map),
                Err(e) => {
                    return Err(e);
                },
            }
        },
        _ => None,
    };
    let extensions = match params.get("extensions") {
        Some(x) if !x.as_str().is_empty() => {
            match json_param("extensions", x.as_str()) {
                Ok(map) => Some(map),
                Err(e) => {
                    return Err(e);
                },
            }
        },
        _ => None,
    };
    Ok(GraphQLRequest { query, operation_name, variables, extensions })
}

// ---------------------------------------------------------------------
// Mutation detection for GET requests
// ---------------------------------------------------------------------

/// An identifier byte: an ASCII letter or digit, or `_`.
pub open spec fn ident_byte(b: u8) -> bool {
    (0x61 <= b && b <= 0x7a) || (0x41 <= b && b <= 0x5a) || (0x30 <= b && b <= 0x39) || b == 0x5f
}

/// An identifier character: an ASCII letter or digit, or `_`.
pub open spec fn is_ident_char(c: char) -> bool {
    ('a' <= c && c <= 'z') || ('A' <= c && c <= 'Z') || ('0' <= c && c <= '9') || c == '_'
}

/// Whether `b` is an identifier byte (an ASCII letter or digit, or `_`).
pub fn is_ident_byte(b: u8) -> (r: bool)
    ensures
        r == ident_byte(b),
{
    (0x61 <= b && b <= 0x7a) || (0x41 <= b && b <= 0x5a) || (0x30 <= b && b <= 0x39) || b == 0x5f
}

pub open spec fn mutation_word() -> Seq<char> {
    seq!['m', 'u', 't', 'a', 't', 'i', 'o', 'n']
}

/// The keyword `mutation` starts at index `i` of `s`, and is not part of a
/// longer identifier.
pub open spec fn keyword_at(s: Seq<char>, i: int) -> bool {
    &&& 0 <= i
    &&& i + 8 <= s.len()
    &&& s.subrange(i, i + 8) == mutation_word()
    &&& (i == 0 || !is_ident_char(s[i - 1]))
    &&& (i + 8 >= s.len() || !is_ident_char(s[i + 8]))
}

/// A character of an operation name: alphanumeric (`char::is_alphanumeric`)
/// or `_`.
pub open spec fn is_name_char(c: char) -> bool {
    alphanumeric(c) || c == '_'
}

/// The length of the run of name characters that starts `t`.
pub open spec fn ident_run(t: Seq<char>) -> nat
    decreases t.len(),
{
    if t.len() > 0 && is_name_char(t[0]) {
        1 + ident_run(t.drop_first())
    } else {
        0
    }
}

/// The operation name that follows the keyword at index `i`: the run of
/// name characters after any whitespace, or `None` when there is none.
pub open spec fn name_after(s: Seq<char>, i: int) -> Option<Seq<char>> {
    let t = trim_start(s.skip(i + 8));
    let n = ident_run(t);
    if n == 0 {
        None
    } else {
        Some(t.take(n as int))
    }
}

/// The names of the `mutation` keywords that start before index `n`, in
/// order (`None` for an anonymous one).
pub open spec fn mutation_names(s: Seq<char>, n: int) -> Seq<Option<Seq<char>>>
    decreases n,
{
    if n <= 0 {
        Seq::<Option<Seq<char>>>::empty()
    } else {
        let p = mutation_names(s, n - 1);
        if keyword_at(s, n - 1) {
            p.push(name_after(s, n - 1))
        } else {
            p
        }
    }
}

/// The document looks like a mutation for the selected operation: it has
/// a `mutation` keyword and, with an operation name, one of its mutations
/// carries that name; without one, the document holds exactly one
/// `mutation` keyword.
pub open spec fn looks_like_mutation(query: Seq<char>, operation_name: Option<Seq<char>>) -> bool {
    let names = mutation_names(query, query.len() as int);
    if names.len() == 0 {
        false
    } else {
        match operation_name {
            Some(name) => names.contains(Some(name)),
            None => names.len() == 1,
        }
    }
}

fn name_char(c: char) -> (r: bool)
    ensures
        r == is_name_char(c),
{
    c == '_' || char_is_alphanumeric(c)
}

fn ident_char(c: char) -> (r: bool)
    ensures
        r == is_ident_char(c),
{
    c <= '\u{7f}' && is_ident_byte(c as u8)
}

fn keyword_at_exec(s: &Vec<char>, i: usize) -> (r: bool)
    requires
        i < s@.len(),
    ensures
        r == keyword_at(s@, i as int),
{
    let n = s.len();
    if n - i < 8 {
        return false;
    }
    let word = s[i] == 'm' && s[i + 1] == 'u' && s[i + 2] == 't' && s[i + 3] == 'a' && s[i + 4]
        == 't' && s[i + 5] == 'i' && s[i + 6] == 'o' && s[i + 7] == 'n';
    if !word {
        assert(s@.subrange(i as int, i + 8) != mutation_word()) by {
            if s@.subrange(i as int, i + 8) == mutation_word() {
                assert(forall|k: int|
                    0 <= k < 8 ==> s@[i + k] == #[trigger] s@.subrange(i as int, i + 8)[k]);
            }
        }
        return false;
    }
    assert(s@.subrange(i as int, i + 8) =~= mutation_word());
    let before_ok = i == 0 || !ident_char(s[i - 1]);
    let after_ok = i + 8 >= n || !ident_char(s[i + 8]);
    before_ok && after_ok
}

/// The bounds of the name that follows position `from`: whitespace is
/// skipped, then a run of identifier characters is taken.
fn name_bounds(s: &Vec<char>, from: usize) -> (r: (usize, usize))
    requires
        from <= s@.len(),
    ensures
        from <= r.0 <= r.1 <= s@.len(),
        trim_start(s@.skip(from as int)) == s@.subrange(r.0 as int, s@.len() as int),
        ident_run(s@.subrange(r.0 as int, s@.len() as int)) == r.1 - r.0,
{
    let n = s.len();
    let mut a = from;
    assert(s@.skip(from as int) =~= s@.subrange(from as int, n as int));
    while a < n && is_whitespace(s[a])
        invariant
            from <= a <= n == s@.len(),
            trim_start(s@.skip(from as int)) == trim_start(s@.subrange(a as int, n as int)),
        decreases n - a,
    {
        assert(s@.subrange(a as int, n as int).drop_first() =~= s@.subrange(a + 1, n as int));
        a = a + 1;
    }
    let mut b = a;
    while b < n && name_char(s[b])
        invariant
            a <= b <= n == s@.len(),
            ident_run(s@.subrange(a as int, n as int)) == (b - a) + ident_run(
                s@.subrange(b as int, n as int),
            ),
        decreases n - b,
    {
        assert(s@.subrange(b as int, n as int).drop_first() =~= s@.subrange(b + 1, n as int));
        b = b + 1;
    }
    (a, b)
}

fn chars_eq(a: &Vec<char>, alo: usize, ahi: usize, b: &Vec<char>) -> (r: bool)
    requires
        alo <= ahi <= a@.len(),
    ensures
        r == (a@.subrange(alo as int, ahi as int) == b@),
{
    if ahi - alo != b.len() {
        assert(a@.subrange(alo as int, ahi as int).len() != b@.len());
        return false;
    }
    let mut i: usize = 0;
    while i < b.len()
        invariant
            ahi - alo == b@.len(),
            alo <= ahi <= a@.len(),
            0 <= i <= b@.len(),
            a@.subrange(alo as int, alo + i) =~= b@.subrange(0, i as int),
        decreases b@.len() - i,
    {
        if a[alo + i] != b[i] {
            assert(a@.subrange(alo as int, ahi as int)[i as int] != b@[i as int]);
            return false;
        }
        assert(a@.subrange(alo as int, alo + i + 1) =~= a@.subrange(alo as int, alo + i).push(
            a@[alo + i],
        ));
        assert(b@.subrange(0, i + 1) =~= b@.subrange(0, i as int).push(b@[i as int]));
        i = i + 1;
    }
    assert(a@.subrange(alo as int, ahi as int) =~= a@.subrange(alo as int, alo + i));
    assert(b@ =~= b@.subrange(0, i as int));
    true
}

/// Naive heuristic to detect whether the operation a GraphQL document
/// selects is a mutation, for enforcing the rule that GET requests MUST NOT
/// execute mutations. It scans for the keyword `mutation` (not part of a
/// longer identifier) and the name that follows it.
///
pub fn document_looks_like_mutation(query: &str, operation_name: Option<&str>) -> (r: bool)
    ensures
        r == looks_like_mutation(
            query@,
            match operation_name {
                Some(n) => Some(n@),
                None => None,
            },
        ),
{
    let cs = chars_of(query);
    let n = cs.len();
    let op: Option<Vec<char>> = match operation_name {
        Some(name) => Some(chars_of(name)),
        None => None,
    };
    let ghost opv: Option<Seq<char>> = match operation_name {
        Some(name) => Some(name@),
        None => None,
    };
    let mut count: usize = 0;
    let mut found = false;
    let mut i: usize = 0;
    while i < n
        invariant
            0 <= i <= n == cs@.len(),
            cs@ == query@,
            opv == (match op {
                Some(v) => Some(v@),
                None => None::<Seq<char>>,
            }),
            count == mutation_names(cs@, i as int).len(),
            count <= i,
            found == (opv is Some && mutation_names(cs@, i as int).contains(Some(opv->0))),
        decreases n - i,
    {
        let ghost prev = mutation_names(cs@, i as int);
        if keyword_at_exec(&cs, i) {
            let (ns, ne) = name_bounds(&cs, i + 8);
            let ghost nm = name_after(cs@, i as int);
            assert(cs@.subrange(ns as int, n as int).take((ne - ns) as int) =~= cs@.subrange(
                ns as int,
                ne as int,
            ));
            let ghost next = prev.push(nm);
            assert(next[prev.len() as int] == nm);
            match &op {
                Some(v) => {
                    if ne > ns && chars_eq(&cs, ns, ne, v) {
                        found = true;
                    }
                    assert(found == next.contains(Some(v@))) by {
                        if prev.contains(Some(v@)) {
                            let k = choose|k: int| 0 <= k < prev.len() && prev[k] == Some(v@);
                            assert(next[k] == prev[k]);
                        }
                        if next.contains(Some(v@)) && !prev.contains(Some(v@)) {
                            let k = choose|k: int| 0 <= k < next.len() && next[k] == Some(v@);
                            if k < prev.len() {
                                assert(prev[k] == next[k]);
                            }
                        }
                    }
                },
                None => {},
            }
            count = count + 1;
        }
        i = i + 1;
    }
    if count == 0 {
        false
    } else {
        match op {
            Some(_) => found,
            None => count == 1,
        }
    }
}


// ---------------------------------------------------------------------
// Laws
// ---------------------------------------------------------------------

/// In a JSON-encoded body, `null` for an optional parameter is the same as
/// omitting it.
pub proof fn law_null_optional_is_omission(raw: RawJsonRequest)
    requires
        raw.operation_name is None || raw.operation_name matches Some(JsonValue::Null),
        raw.variables is None || raw.variables matches Some(JsonValue::Null),
        raw.extensions is None || raw.extensions matches Some(JsonValue::Null),
    ensures
        json_fields_error(raw) == json_fields_error(
            RawJsonRequest { operation_name: None, variables: None, extensions: None, ..raw },
        ),
        string_field(raw.operation_name) is None,
        map_field(raw.variables) is None,
        map_field(raw.extensions) is None,
{
}

/// In a GET request, a parameter with an empty value is the same as an
/// absent one: the same parameters count as given, with the same values,
/// and the same error (or none) results.
pub proof fn law_empty_get_param_is_omission(m: Map<Seq<char>, Seq<char>>, name: Seq<char>)
    ensures
        forall|x: Seq<char>|
            #![trigger given(m.insert(name, Seq::<char>::empty()), x)]
            given(m.insert(name, Seq::<char>::empty()), x) == given(m.remove(name), x) && (given(
                m.remove(name),
                x,
            ) ==> m.insert(name, Seq::<char>::empty())[x] == m.remove(name)[x]),
        get_params_error(m.insert(name, Seq::<char>::empty())) == get_params_error(m.remove(name)),
{
    let m1 = m.insert(name, Seq::<char>::empty());
    let m2 = m.remove(name);
    assert(given(m1, "query"@) == given(m2, "query"@));
    assert(given(m1, "variables"@) == given(m2, "variables"@));
    assert(given(m1, "extensions"@) == given(m2, "extensions"@));
}

/// What a POST body's properties give, property by property: a missing
/// {query} is required, a {query} that is not a string is rejected; then an
/// {operationName} that is present, not `null` and not a string, a
/// {variables} and then an {extensions} that is present, not `null` and not
/// an object, each reject the request with its own message, whatever the
/// other well-typed properties hold; when every property is well typed the
/// request is accepted.
pub proof fn law_json_fields_checks(raw: RawJsonRequest)
    ensures
        raw.query is None ==> json_fields_error(raw) == Some("query is required"@),
        raw.query matches Some(q) && !(q is String) ==> json_fields_error(raw) == Some(
            "query must be a string"@,
        ),
        raw.query matches Some(JsonValue::String(_)) ==> {
            let on_ok = match raw.operation_name {
                None => true,
                Some(JsonValue::Null) => true,
                Some(JsonValue::String(_)) => true,
                _ => false,
            };
            let v_ok = match raw.variables {
                None => true,
                Some(JsonValue::Null) => true,
                Some(JsonValue::Object(_)) => true,
                _ => false,
            };
            let x_ok = match raw.extensions {
                None => true,
                Some(JsonValue::Null) => true,
                Some(JsonValue::Object(_)) => true,
                _ => false,
            };
            &&& !on_ok ==> json_fields_error(raw) == Some("operationName must be a string"@)
            &&& on_ok && !v_ok ==> json_fields_error(raw) == Some("variables must be a map"@)
            &&& on_ok && v_ok && !x_ok ==> json_fields_error(raw) == Some(
                "extensions must be a map"@,
            )
            &&& on_ok && v_ok && x_ok ==> json_fields_error(raw) is None
        },
{
}

/// An accepted POST body carries its properties over as they are: the
/// {query} string, an {operationName} string, and {variables} and
/// {extensions} objects; an absent or `null` optional property is absent.
pub proof fn law_json_fields_values(raw: RawJsonRequest)
    ensures
        raw.query matches Some(JsonValue::String(q)) ==> string_field(raw.query) == Some(q),
        raw.operation_name matches Some(JsonValue::String(o)) ==> string_field(raw.operation_name)
            == Some(o),
        (raw.operation_name is None || (raw.operation_name matches Some(JsonValue::Null)))
            ==> string_field(raw.operation_name) is None,
        raw.variables matches Some(JsonValue::Object(m)) ==> map_field(raw.variables) == Some(m),
        (raw.variables is None || (raw.variables matches Some(JsonValue::Null))) ==> map_field(
            raw.variables,
        ) is None,
        raw.extensions matches Some(JsonValue::Object(m)) ==> map_field(raw.extensions) == Some(m),
        (raw.extensions is None || (raw.extensions matches Some(JsonValue::Null))) ==> map_field(
            raw.extensions,
        ) is None,
{
}

/// A JSON-encoded GET parameter whose text holds an object gives that
/// object.
pub proof fn law_json_param_object(text: Seq<char>)
    ensures
        json_text(text) matches Ok(JsonValue::Object(m)) ==> json_object(text) == Some(m),
{
}

/// The message for a JSON-encoded GET parameter `name` whose text does not
/// hold a JSON object.
pub open spec fn param_message(name: Seq<char>, text: Seq<char>) -> Seq<char> {
    match json_text(text) {
        Ok(_) => name + " must be a JSON object"@,
        Err(e) => "invalid "@ + name + " JSON: "@ + e,
    }
}

/// What GET parameters give, parameter by parameter: without a non-empty
/// {query} the request is rejected; then a non-empty {variables} whose text
/// does not hold a JSON object rejects it, and then a non-empty
/// {extensions} whose text does not hold one rejects it, whether or not
/// {variables} is given; otherwise the request is accepted.
pub proof fn law_get_params_checks(m: Map<Seq<char>, Seq<char>>)
    ensures
        !given(m, "query"@) ==> get_params_error(m) == Some("query is required"@),
        given(m, "query"@) ==> {
            let v_ok = !given(m, "variables"@) || json_text(m["variables"@]) matches Ok(
                JsonValue::Object(_),
            );
            let x_ok = !given(m, "extensions"@) || json_text(m["extensions"@]) matches Ok(
                JsonValue::Object(_),
            );
            &&& !v_ok ==> get_params_error(m) == Some(
                param_message("variables"@, m["variables"@]),
            )
            &&& v_ok && !x_ok ==> get_params_error(m) == Some(
                param_message("extensions"@, m["extensions"@]),
            )
            &&& v_ok && x_ok ==> get_params_error(m) is None
        },
{
}

/// A document without the keyword `mutation` never looks like a mutation.
pub proof fn law_no_keyword_no_mutation(query: Seq<char>, operation_name: Option<Seq<char>>)
    requires
        forall|i: int| 0 <= i < query.len() ==> !keyword_at(query, i),
    ensures
        !looks_like_mutation(query, operation_name),
{
    lemma_no_names(query, query.len() as int);
}

proof fn lemma_no_names(s: Seq<char>, n: int)
    requires
        n <= s.len(),
        forall|i: int| 0 <= i < s.len() ==> !keyword_at(s, i),
    ensures
        mutation_names(s, n).len() == 0,
    decreases n,
{
    if n > 0 {
        lemma_no_names(s, n - 1);
    }
}

proof fn lemma_names_grow(s: Seq<char>, a: int, b: int)
    requires
        0 <= a <= b,
    ensures
        mutation_names(s, a).len() <= mutation_names(s, b).len(),
    decreases b - a,
{
    if a < b {
        lemma_names_grow(s, a, b - 1);
    }
}

proof fn lemma_names_one(s: Seq<char>, i: int, n: int)
    requires
        0 <= i < n,
        keyword_at(s, i),
    ensures
        mutation_names(s, n).len() >= mutation_names(s, i).len() + 1,
{
    lemma_names_grow(s, i + 1, n);
}

proof fn lemma_names_some(s: Seq<char>, n: int)
    requires
        mutation_names(s, n).len() >= 1,
    ensures
        exists|i: int| 0 <= i < n && keyword_at(s, i),
    decreases n,
{
    if n > 0 && !keyword_at(s, n - 1) {
        lemma_names_some(s, n - 1);
    }
}

proof fn lemma_names_unique(s: Seq<char>, i: int, n: int)
    requires
        0 <= i,
        keyword_at(s, i),
        forall|j: int| keyword_at(s, j) ==> j == i,
    ensures
        mutation_names(s, n).len() == if n > i {
            1int
        } else {
            0int
        },
    decreases n,
{
    if n > 0 {
        lemma_names_unique(s, i, n - 1);
    }
}

proof fn lemma_names_contain(s: Seq<char>, n: int, name: Seq<char>)
    ensures
        mutation_names(s, n).contains(Some(name)) <==> exists|i: int|
            0 <= i < n && keyword_at(s, i) && name_after(s, i) == Some(name),
    decreases n,
{
    if n > 0 {
        lemma_names_contain(s, n - 1, name);
        let p = mutation_names(s, n - 1);
        if keyword_at(s, n - 1) {
            let q = p.push(name_after(s, n - 1));
            if p.contains(Some(name)) {
                let k = choose|k: int| 0 <= k < p.len() && p[k] == Some(name);
                assert(q[k] == p[k]);
            }
            if q.contains(Some(name)) && !p.contains(Some(name)) {
                let k = choose|k: int| 0 <= k < q.len() && q[k] == Some(name);
                if k < p.len() {
                    assert(p[k] == q[k]);
                }
            }
            if name_after(s, n - 1) == Some(name) {
                assert(q[p.len() as int] == Some(name));
            }
        }
    }
}

/// Without an operation name, a document looks like a mutation exactly
/// when it holds a single `mutation` keyword, named or anonymous.
pub proof fn law_single_mutation_is_selected(query: Seq<char>)
    ensures
        looks_like_mutation(query, None) <==> exists|i: int|
            #![trigger keyword_at(query, i)]
            keyword_at(query, i) && forall|j: int| keyword_at(query, j) ==> j == i,
{
    let n = query.len() as int;
    if looks_like_mutation(query, None) {
        lemma_names_some(query, n);
        let i = choose|i: int| 0 <= i < n && keyword_at(query, i);
        assert forall|j: int| keyword_at(query, j) implies j == i by {
            if j != i {
                assert(0 <= j && j + 8 <= n);
                let (a, b) = if i < j {
                    (i, j)
                } else {
                    (j, i)
                };
                lemma_names_one(query, a, b);
                lemma_names_one(query, b, n);
                assert(mutation_names(query, b).len() >= 1);
            }
        }
    }
    if exists|i: int|
        #![trigger keyword_at(query, i)]
        keyword_at(query, i) && forall|j: int| keyword_at(query, j) ==> j == i {
        let i = choose|i: int|
            #![trigger keyword_at(query, i)]
            keyword_at(query, i) && forall|j: int| keyword_at(query, j) ==> j == i;
        lemma_names_unique(query, i, n);
    }
}

/// With an operation name, a document looks like a mutation exactly when
/// one of its `mutation` keywords is followed by that name.
pub proof fn law_named_mutation_is_selected(query: Seq<char>, name: Seq<char>)
    ensures
        looks_like_mutation(query, Some(name)) <==> exists|i: int|
            keyword_at(query, i) && name_after(query, i) == Some(name),
{
    let n = query.len() as int;
    lemma_names_contain(query, n, name);
    if exists|i: int| keyword_at(query, i) && name_after(query, i) == Some(name) {
        let i = choose|i: int| keyword_at(query, i) && name_after(query, i) == Some(name);
        lemma_names_one(query, i, n);
    }
}

/// Looking a document up by an operation name that no mutation in it
/// carries never finds a mutation.
pub proof fn law_unknown_name_no_mutation(query: Seq<char>, name: Seq<char>)
    requires
        !mutation_names(query, query.len() as int).contains(Some(name)),
    ensures
        !looks_like_mutation(query, Some(name)),
{
}

} // verus!
