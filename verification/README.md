# graphql-http

The HTTP-layer behaviour of the GraphQL-over-HTTP specification (Stage 2
Draft), written in Verus: content negotiation, request parsing (GET
parameters and POST JSON properties), response encoding and status-code
decisions, each function with a contract that Verus proves.

Layout:

- `src/` — the verified library.
  - `media.rs`: `Accept` parsing (a stable sort by quality), media-range
    matching, negotiation and `Content-Type` essences. Qualities are
    floating-point numbers: the library hands out the `q` value texts of a
    header, and the caller passes back their `f32` order keys.
  - `request.rs`: `GraphQLRequest`, the checks on POST JSON properties and
    GET parameters, and the GET mutation scan.
  - `response.rs`: `GraphQLResult`, its status decision and its encoding as
    an HTTP response (status, `Content-Type`, compact JSON body).
  - `status.rs`: recommended status codes for request-level failures.
  - `json.rs`, `text.rs`: the calls into `serde_json` and `std` that the
    library trusts, and character-level definitions.
- `tests/` — tests of the library.
- `app/` — what needs floating point, serde's derives, thiserror or
  `HashMap`: reading `q` values as `f32` order keys (with `parse_accept`
  and `negotiate` taking a header alone), reading a POST body into its
  known properties, adapting decoded GET parameters, and the serializable
  and displayable copies of the library's types.
