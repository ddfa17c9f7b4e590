use rolly::hex::hex_to_bytes_16;
use rolly::trace_id::{generate_span_id, generate_trace_id, hex_encode, trace_id_from_digest};

#[test]
fn deterministic_for_same_request_id() {
    let id1 = generate_trace_id(Some("abc123"));
    let id2 = generate_trace_id(Some("abc123"));
    assert_eq!(id1, id2);
}

#[test]
fn different_request_ids_produce_different_trace_ids() {
    let id1 = generate_trace_id(Some("abc123"));
    let id2 = generate_trace_id(Some("xyz789"));
    assert_ne!(id1, id2);
}

#[test]
fn none_produces_nonzero() {
    let id = generate_trace_id(None);
    assert_ne!(id, [0u8; 16]);
}

#[test]
fn dash_treated_as_none() {
    let id1 = generate_trace_id(Some("-"));
    let id2 = generate_trace_id(Some("-"));
    assert_ne!(id1, id2);
}

#[test]
fn empty_string_treated_as_none() {
    let id1 = generate_trace_id(Some(""));
    let id2 = generate_trace_id(Some(""));
    assert_ne!(id1, id2);
}

#[test]
fn span_id_is_nonzero() {
    let id = generate_span_id();
    assert_ne!(id, [0u8; 8]);
}

#[test]
fn span_ids_are_unique() {
    let id1 = generate_span_id();
    let id2 = generate_span_id();
    assert_ne!(id1, id2);
}

#[test]
fn hex_encode_works() {
    assert_eq!(hex_encode(&[0x0A, 0xFF, 0x00]), "0aff00");
    assert_eq!(hex_encode(&[]), "");
}

#[test]
fn request_id_decides_the_trace_id_by_its_digest() {
    let digest = blake3::hash(b"abc123");
    assert_eq!(generate_trace_id(Some("abc123")), digest.as_bytes()[..16]);
    assert_eq!(trace_id_from_digest(digest.as_bytes()), digest.as_bytes()[..16]);
}

#[test]
fn random_trace_ids_are_marked_as_such() {
    let id = generate_trace_id(None);
    assert_eq!(id[6] >> 4, 4);
    assert_eq!(id[8] >> 6, 2);
}

#[test]
fn hex_reads_back() {
    let id = generate_trace_id(Some("abc123"));
    assert_eq!(hex_to_bytes_16(&hex_encode(&id)), Ok(id));
    assert_eq!(hex_to_bytes_16(&hex_encode(&id).to_uppercase()), Ok(id));
}
