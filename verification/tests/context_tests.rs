use grapehul::context::{ChunkFailure, Context, ContextPart};
use grapehul::meta::{Method, RequestMetadata, Version};
use grapehul::params::BindFailure;
use grapehul::peer::{PeerAddr, PeerFailure, PeerIp};
use grapehul::shape::{DecodeFailure, FieldKind, FieldValue};

fn metadata() -> RequestMetadata {
    RequestMetadata {
        headers: vec![("content-type".to_string(), "application/json".to_string())],
        method: Method::Get,
        uri: "/items/42?sort=asc".to_string(),
        version: Version::Http11,
    }
}

fn peer() -> Result<PeerAddr, PeerFailure> {
    Ok(PeerAddr { ip: PeerIp::V4(10, 0, 0, 7), port: 443 })
}

fn chunk(bytes: &[u8]) -> Result<Vec<u8>, ChunkFailure> {
    Ok(bytes.to_vec())
}

fn full_context(
    path: Result<Vec<(String, String)>, BindFailure>,
    query: Result<Vec<(String, String)>, BindFailure>,
    peer_outcome: Result<PeerAddr, PeerFailure>,
    chunks: Vec<Result<Vec<u8>, ChunkFailure>>,
) -> Context<u32> {
    Context::from_request(metadata(), 7u32, path, peer_outcome, query, chunks)
}

fn pairs(src: &[(&str, &str)]) -> Result<Vec<(String, String)>, BindFailure> {
    Ok(src.iter().map(|(k, v)| (k.to_string(), v.to_string())).collect())
}

#[test]
fn unmatched_path_gives_empty_map_and_succeeds() {
    let ctx = full_context(Err(BindFailure::Absent), pairs(&[]), peer(), vec![]);
    assert_eq!(ctx.all_params().len(), 0);
    assert_eq!(ctx.params("id"), "");
}

#[test]
fn malformed_query_gives_empty_map_and_succeeds() {
    let ctx = full_context(pairs(&[]), Err(BindFailure::Malformed), peer(), vec![]);
    assert_eq!(ctx.all_query().len(), 0);
    assert_eq!(ctx.query("sort"), "");
}

#[test]
fn unresolved_peer_falls_back_to_default() {
    let ctx = full_context(pairs(&[]), pairs(&[]), Err(PeerFailure::Unavailable), vec![]);
    assert_eq!(ctx.addr(), PeerAddr { ip: PeerIp::V4(0, 0, 0, 0), port: 8080 });
    assert_eq!(ctx.ip(), PeerIp::V4(0, 0, 0, 0));
}

#[test]
fn resolved_peer_is_returned() {
    let ctx = full_context(pairs(&[]), pairs(&[]), peer(), vec![]);
    assert_eq!(ctx.addr(), PeerAddr { ip: PeerIp::V4(10, 0, 0, 7), port: 443 });
    assert_eq!(ctx.ip(), PeerIp::V4(10, 0, 0, 7));
}

#[test]
fn map_round_trip_decodes_integer() {
    let ctx = full_context(pairs(&[("id", "42")]), pairs(&[]), peer(), vec![]);
    let shape = vec![("id".to_string(), FieldKind::Integer)];
    let rec = ctx.parse_params(&shape).unwrap();
    assert_eq!(rec, vec![("id".to_string(), FieldValue::Int(42))]);
}

#[test]
fn map_round_trip_rejects_non_integer_text() {
    let ctx = full_context(pairs(&[("id", "abc")]), pairs(&[]), peer(), vec![]);
    let shape = vec![("id".to_string(), FieldKind::Integer)];
    assert_eq!(ctx.parse_params(&shape), Err(DecodeFailure::Mismatch));
}

#[test]
fn map_round_trip_keeps_escaped_text() {
    let ctx = full_context(pairs(&[("q", "a\"b\\c")]), pairs(&[]), peer(), vec![]);
    let shape = vec![("q".to_string(), FieldKind::Text)];
    let rec = ctx.parse_params(&shape).unwrap();
    assert_eq!(rec, vec![("q".to_string(), FieldValue::Text("a\"b\\c".to_string()))]);
}

#[test]
fn query_round_trip_decodes_boolean_text() {
    let ctx = full_context(pairs(&[]), pairs(&[("strict", "true")]), peer(), vec![]);
    let shape = vec![("strict".to_string(), FieldKind::Boolean)];
    let rec = ctx.parse_query(&shape).unwrap();
    assert_eq!(rec, vec![("strict".to_string(), FieldValue::Flag(true))]);
}

#[test]
fn payload_decodes_matching_body() {
    let body = br#"{"id":42,"name":"widget","fresh":false}"#;
    let ctx = full_context(pairs(&[]), pairs(&[]), peer(), vec![chunk(body)]);
    let shape = vec![
        ("id".to_string(), FieldKind::Integer),
        ("name".to_string(), FieldKind::Text),
        ("fresh".to_string(), FieldKind::Boolean),
    ];
    let rec = ctx.payload(&shape).unwrap();
    assert_eq!(
        rec,
        vec![
            ("id".to_string(), FieldValue::Int(42)),
            ("name".to_string(), FieldValue::Text("widget".to_string())),
            ("fresh".to_string(), FieldValue::Flag(false)),
        ]
    );
}

#[test]
fn payload_rejects_wrong_field_type() {
    let ctx = full_context(pairs(&[]), pairs(&[]), peer(), vec![chunk(br#"{"id":true}"#)]);
    let shape = vec![("id".to_string(), FieldKind::Integer)];
    assert_eq!(ctx.payload(&shape), Err(DecodeFailure::Mismatch));
}

#[test]
fn payload_rejects_null_for_integer() {
    let ctx = full_context(pairs(&[]), pairs(&[]), peer(), vec![chunk(br#"{"id":null}"#)]);
    let shape = vec![("id".to_string(), FieldKind::Integer)];
    assert_eq!(ctx.payload(&shape), Err(DecodeFailure::Mismatch));
}

#[test]
fn payload_rejects_bad_syntax() {
    let ctx = full_context(pairs(&[]), pairs(&[]), peer(), vec![chunk(b"not structured")]);
    let shape = vec![("id".to_string(), FieldKind::Integer)];
    assert_eq!(ctx.payload(&shape), Err(DecodeFailure::Syntax));
}

#[test]
fn payload_rejects_out_of_range_integer() {
    let body = br#"{"n":99999999999999999999}"#;
    let ctx = full_context(pairs(&[]), pairs(&[]), peer(), vec![chunk(body)]);
    let shape = vec![("n".to_string(), FieldKind::Integer)];
    assert_eq!(ctx.payload(&shape), Err(DecodeFailure::Syntax));
}

#[test]
fn payload_rejects_non_text_body() {
    let ctx = full_context(pairs(&[]), pairs(&[]), peer(), vec![chunk(&[0xff, 0xfe])]);
    let shape = vec![("id".to_string(), FieldKind::Integer)];
    assert_eq!(ctx.payload(&shape), Err(DecodeFailure::NotText));
}

#[test]
fn payload_rejects_duplicate_field() {
    let ctx = full_context(pairs(&[]), pairs(&[]), peer(), vec![chunk(br#"{"a":1,"a":2}"#)]);
    let shape = vec![("a".to_string(), FieldKind::Integer)];
    assert_eq!(ctx.payload(&shape), Err(DecodeFailure::DuplicateField));
}

#[test]
fn payload_rejects_unknown_field() {
    let ctx = full_context(pairs(&[]), pairs(&[]), peer(), vec![chunk(br#"{"a":1}"#)]);
    let shape: Vec<(String, FieldKind)> = vec![];
    assert_eq!(ctx.payload(&shape), Err(DecodeFailure::UnknownField));
}

#[test]
fn payload_rejects_missing_field() {
    let ctx = full_context(pairs(&[]), pairs(&[]), peer(), vec![chunk(b"{}")]);
    let shape = vec![("a".to_string(), FieldKind::Integer)];
    assert_eq!(ctx.payload(&shape), Err(DecodeFailure::MissingField));
}

#[test]
fn payload_accepts_negative_integer() {
    let ctx = full_context(pairs(&[]), pairs(&[]), peer(), vec![chunk(br#"{"n":-5}"#)]);
    let shape = vec![("n".to_string(), FieldKind::Integer)];
    let rec = ctx.payload(&shape).unwrap();
    assert_eq!(rec, vec![("n".to_string(), FieldValue::Int(-5))]);
}

#[test]
fn body_drains_chunks_and_drops_failed_ones() {
    let chunks = vec![chunk(b"ab"), Err(ChunkFailure::Failed), chunk(b"cd")];
    let ctx = full_context(pairs(&[]), pairs(&[]), peer(), chunks);
    assert_eq!(ctx.bytes(), &b"abcd".to_vec());
    assert_eq!(ctx.body(), Some("abcd".to_string()));
}

#[test]
fn body_text_fails_only_on_invalid_text() {
    let ctx = full_context(pairs(&[]), pairs(&[]), peer(), vec![chunk(&[0xff])]);
    assert_eq!(ctx.body(), None);
    assert_eq!(ctx.bytes(), &vec![0xffu8]);
}

#[test]
fn raw_accessors_are_idempotent() {
    let ctx = full_context(pairs(&[("id", "42")]), pairs(&[("sort", "asc")]), peer(), vec![]);
    assert_eq!(ctx.params("id"), ctx.params("id"));
    assert_eq!(ctx.query("sort"), ctx.query("sort"));
    assert_eq!(ctx.addr(), ctx.addr());
    assert_eq!(ctx.body(), ctx.body());
}

#[test]
fn end_to_end_route_extraction() {
    let ctx = full_context(pairs(&[("id", "42")]), pairs(&[("sort", "asc")]), peer(), vec![]);
    assert_eq!(ctx.all_params().len(), 1);
    assert_eq!(ctx.all_query().len(), 1);
    assert_eq!(ctx.params("id"), "42");
    assert_eq!(ctx.query("sort"), "asc");
    let shape = vec![("id".to_string(), FieldKind::Integer)];
    let rec = ctx.parse_params(&shape).unwrap();
    assert_eq!(rec, vec![("id".to_string(), FieldValue::Int(42))]);
}

#[test]
fn metadata_accessors_return_captured_values() {
    let ctx = full_context(pairs(&[]), pairs(&[]), peer(), vec![]);
    assert_eq!(ctx.method(), &Method::Get);
    assert_eq!(ctx.version(), &Version::Http11);
    assert_eq!(ctx.uri(), "/items/42?sort=asc");
    assert_eq!(ctx.headers().len(), 1);
    assert_eq!(ctx.headers()[0].0, "content-type");
    assert_eq!(ctx.state(), &7u32);
}

#[test]
fn send_and_json_are_passthrough() {
    let ctx = full_context(pairs(&[]), pairs(&[]), peer(), vec![]);
    assert_eq!(Context::<u32>::send("hello"), "hello");
    assert_eq!(ctx.json(5i64).0, 5i64);
}

#[test]
fn head_context_mirrors_full_context() {
    let ctx: ContextPart<u32> = ContextPart::from_request_parts(
        metadata(),
        9u32,
        pairs(&[("id", "42")]),
        Err(PeerFailure::Unavailable),
        pairs(&[("sort", "asc")]),
    );
    assert_eq!(ctx.params("id"), "42");
    assert_eq!(ctx.query("sort"), "asc");
    assert_eq!(ctx.params("missing"), "");
    assert_eq!(ctx.addr(), PeerAddr { ip: PeerIp::V4(0, 0, 0, 0), port: 8080 });
    assert_eq!(ctx.state(), &9u32);
    assert_eq!(ctx.method(), &Method::Get);
    let shape = vec![("id".to_string(), FieldKind::Integer)];
    let rec = ctx.parse_params(&shape).unwrap();
    assert_eq!(rec, vec![("id".to_string(), FieldValue::Int(42))]);
    assert_eq!(ContextPart::<u32>::send("ok"), "ok");
}

#[test]
fn empty_map_decodes_into_empty_shape() {
    let ctx = full_context(Err(BindFailure::Absent), pairs(&[]), peer(), vec![]);
    let shape: Vec<(String, FieldKind)> = vec![];
    assert_eq!(ctx.parse_params(&shape), Ok(vec![]));
    assert_eq!(ctx.parse_query(&shape), Ok(vec![]));
}
