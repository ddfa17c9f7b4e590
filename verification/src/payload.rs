//! The byte buffers that travel to the exporter, and their concatenation.
//!
//! A buffer is a `bytes::Bytes`: cheap to hand around, never changed once it is made.
use bytes::Bytes;
use vstd::prelude::*;

verus! {

/// Declares `bytes::Bytes`, of which nothing is known here but what [`contents`] says.
#[verifier::external_type_specification]
#[verifier::external_body]
pub struct ExBytes(bytes::Bytes);

/// The bytes that a buffer holds.
pub uninterp spec fn contents(buffer: bytes::Bytes) -> Seq<u8>;

/// `Bytes::from(Vec<u8>)`: the buffer holds the bytes of the vector, in their order.
#[verifier::external_body]
pub(crate) fn freeze(data: Vec<u8>) -> (buffer: Bytes)
    ensures
        contents(buffer) == data@,
{
    Bytes::from(data)
}

/// `Bytes::as_ref`: the bytes that the buffer holds, as a slice.
#[verifier::external_body]
pub(crate) fn as_slice(buffer: &Bytes) -> (slice: &[u8])
    ensures
        slice@ == contents(*buffer),
{
    buffer.as_ref()
}

/// The bytes of several buffers, buffer by buffer.
pub open spec fn all_contents(buffers: Seq<Bytes>) -> Seq<Seq<u8>> {
    Seq::new(buffers.len(), |i: int| contents(buffers[i]))
}

/// Byte sequences laid end to end.
pub open spec fn joined(parts: Seq<Seq<u8>>) -> Seq<u8>
    decreases parts.len(),
{
    if parts.len() == 0 {
        seq![]
    } else {
        joined(parts.drop_last()) + parts.last()
    }
}

/// Lays the contents of the buffers end to end.
pub fn concatenate(buffers: &Vec<Bytes>) -> (payload: Vec<u8>)
    ensures
        payload@ == joined(all_contents(buffers@)),
{
    let mut payload: Vec<u8> = Vec::new();
    let mut i: usize = 0;
    while i < buffers.len()
        invariant
            i <= buffers@.len(),
            payload@ == joined(all_contents(buffers@).take(i as int)),
        decreases buffers@.len() - i,
    {
        payload.extend_from_slice(as_slice(&buffers[i]));
        proof {
            let parts = all_contents(buffers@);
            assert(parts.take(i + 1).drop_last() =~= parts.take(i as int));
        }
        i += 1;
    }
    assert(all_contents(buffers@).take(i as int) =~= all_contents(buffers@));
    payload
}

/// Nothing laid end to end is nothing, and one byte sequence more comes behind the others.
pub proof fn lemma_joined(parts: Seq<Seq<u8>>, last: Seq<u8>)
    ensures
        joined(Seq::empty()) == Seq::<u8>::empty(),
        joined(parts.push(last)) == joined(parts) + last,
{
    assert(parts.push(last).drop_last() =~= parts);
}

} // verus!
