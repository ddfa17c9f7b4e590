//! Trace and span ids.

use vstd::prelude::*;

use crate::attrs::str_eq;
pub use crate::hex::hex_encode;

verus! {

/// The BLAKE3 hash of a byte string: 32 bytes.
pub uninterp spec fn blake3_digest(input: Seq<u8>) -> Seq<u8>;

/// `blake3::hash` hashes the input with the default hash function; the hash depends
/// on the input alone.
#[verifier::external_body]
fn blake3_hash(input: &[u8]) -> (digest: [u8; 32])
    ensures
        digest@ == blake3_digest(input@),
{
    *blake3::hash(input).as_bytes()
}

/// `uuid::Uuid::new_v4` gives a random UUID, of version 4 and of the variant of RFC
/// 9562: the high half of byte 6 is four, and the two high bits of byte 8 are one and
/// zero. The other bits are random.
#[verifier::external_body]
fn random_uuid() -> (id: [u8; 16])
    ensures
        id@[6] / 16 == 4,
        id@[8] / 64 == 2,
{
    *uuid::Uuid::new_v4().as_bytes()
}

/// `rand::fill` fills the array with random bytes. They can be any, so nothing is
/// claimed of them.
#[verifier::external_body]
fn random_bytes_8() -> (id: [u8; 8])
{
    let mut id = [0u8; 8];
    rand::fill(&mut id);
    id
}

/// A request id that a trace id can be derived from: one that is given, not empty and
/// not a lone dash.
pub open spec fn usable_request_id(request_id: Option<&str>) -> bool {
    match request_id {
        Some(id) => id@.len() > 0 && id@ != "-"@,
        None => false,
    }
}

/// The trace id of a request: the first half of the hash of its id.
pub fn trace_id_from_digest(digest: &[u8; 32]) -> (trace_id: [u8; 16])
    ensures
        trace_id@ == digest@.take(16),
{
    let mut trace_id: [u8; 16] = [0u8; 16];
    let mut i: usize = 0;
    while i < 16
        invariant
            i <= 16,
            forall|k: int| 0 <= k < i ==> trace_id@[k] == digest@[k],
        decreases 16 - i,
    {
        trace_id[i] = digest[i];
        i = i + 1;
    }
    assert(trace_id@ =~= digest@.take(16));
    trace_id
}

/// Generates a trace id of 128 bits. From a request id it is derived, so that all
/// services that see the request get the same trace id; without one, it is random.
pub fn generate_trace_id(request_id: Option<&str>) -> (trace_id: [u8; 16])
    ensures
        usable_request_id(request_id) ==> trace_id@ == blake3_digest(
            vstd::utf8::encode_utf8(request_id->0@),
        ).take(16),
        !usable_request_id(request_id) ==> trace_id@[6] / 16 == 4 && trace_id@[8] / 64 == 2,
        request_id matches Some(id) && id@.len() > 0 && id@ != "-"@ ==> trace_id@ == blake3_digest(
            vstd::utf8::encode_utf8(request_id->0@),
        ).take(16),
        request_id is None || request_id->0@.len() == 0 || request_id->0@ == "-"@ ==> trace_id@[6]
            / 16 == 4 && trace_id@[8] / 64 == 2,
{
    match request_id {
        Some(id) => {
            if !id.is_empty() && !str_eq(id, "-") {
                trace_id_from_digest(&blake3_hash(id.as_bytes()))
            } else {
                random_uuid()
            }
        },
        None => random_uuid(),
    }
}

/// Generates a random span id of 64 bits.
pub fn generate_span_id() -> (span_id: [u8; 8])
{
    random_bytes_8()
}

} // verus!
