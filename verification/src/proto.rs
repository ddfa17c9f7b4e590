//! Writing protobuf fields to a byte buffer.

use vstd::prelude::*;

use crate::wire;

verus! {

const WIRE_TYPE_VARINT: u8 = 0;

const WIRE_TYPE_FIXED64: u8 = 1;

const WIRE_TYPE_LENGTH_DELIMITED: u8 = 2;

/// Room for the length of a nested message: a varint of at most 35 bits.
pub const MAX_LEN_BYTES: usize = 5;

/// A nested message is shorter than this, so that its length fits the room that
/// is kept for it.
pub const MAX_MESSAGE_LEN: u64 = 0x8_0000_0000;

/// Appends `val` as a varint.
pub fn encode_varint(buf: &mut Vec<u8>, val: u64)
    ensures
        final(buf)@ == old(buf)@ + wire::varint(val as nat),
{
    let mut rest: u64 = val;
    while rest >= 0x80
        invariant
            buf@ + wire::varint(rest as nat) == old(buf)@ + wire::varint(val as nat),
        decreases rest,
    {
        assert((rest as u8) | 0x80 == 128 + rest % 128) by (bit_vector);
        assert(rest >> 7 == rest / 128) by (bit_vector);
        let ghost before = buf@;
        buf.push((rest as u8) | 0x80);
        assert(buf@ + wire::varint((rest / 128) as nat) =~= before + wire::varint(rest as nat));
        rest >>= 7;
    }
    buf.push(rest as u8);
}

/// Appends a field's key: the field's number and, in the low three bits, how its value is written.
/// A wire type of more than three bits is laid over the number, bit by bit.
pub fn encode_tag(buf: &mut Vec<u8>, field_number: u32, wire_type: u8)
    ensures
        final(buf)@ == old(buf)@ + wire::varint(
            (((field_number as u64) << 3) | wire_type as u64) as nat,
        ),
        wire_type < 8 ==> final(buf)@ == old(buf)@ + wire::tag(field_number, wire_type as nat),
{
    assert(wire_type < 8 ==> ((field_number as u64) << 3) | wire_type as u64 == field_number as u64
        * 8 + wire_type) by (bit_vector);
    encode_varint(buf, ((field_number as u64) << 3) | wire_type as u64);
}

/// Appends the eight bytes of `val`, lowest first.
fn push_le_bytes(buf: &mut Vec<u8>, val: u64)
    ensures
        final(buf)@ == old(buf)@ + wire::le_bytes(val as nat, 8),
{
    let mut rest: u64 = val;
    let mut left: usize = 8;
    while left > 0
        invariant
            left <= 8,
            buf@ + wire::le_bytes(rest as nat, left as nat) == old(buf)@ + wire::le_bytes(
                val as nat,
                8,
            ),
        decreases left,
    {
        let ghost before = buf@;
        buf.push((rest % 256) as u8);
        assert(buf@ + wire::le_bytes((rest / 256) as nat, (left - 1) as nat) =~= before
            + wire::le_bytes(rest as nat, left as nat));
        rest = rest / 256;
        left = left - 1;
    }
    assert(buf@ + wire::le_bytes(rest as nat, 0) =~= buf@);
}

/// Appends a varint field. Zero, the default, is left out.
pub fn encode_varint_field(buf: &mut Vec<u8>, field: u32, val: u64)
    ensures
        final(buf)@ == old(buf)@ + wire::message(wire::opt_varint_field(field, val)),
{
    if val == 0 {
        return ;
    }
    encode_varint_field_always(buf, field, val);
}

/// Appends a varint field, also where it is zero: for fields in which zero has a
/// meaning of its own.
pub fn encode_varint_field_always(buf: &mut Vec<u8>, field: u32, val: u64)
    ensures
        final(buf)@ == old(buf)@ + wire::message(wire::varint_field(field, val)),
{
    encode_tag(buf, field, WIRE_TYPE_VARINT);
    encode_varint(buf, val);
    proof {
        wire::lemma_message_one(wire::varint_field(field, val)[0]);
    }
}

/// Appends a string field: the string's UTF-8 bytes. The empty string is left
/// out.
pub fn encode_string_field(buf: &mut Vec<u8>, field: u32, s: &str)
    ensures
        final(buf)@ == old(buf)@ + wire::message(
            wire::opt_bytes_field(field, vstd::utf8::encode_utf8(s@)),
        ),
{
    encode_bytes_field(buf, field, s.as_bytes());
}

/// Appends a bytes field. Empty data is left out.
pub fn encode_bytes_field(buf: &mut Vec<u8>, field: u32, data: &[u8])
    ensures
        final(buf)@ == old(buf)@ + wire::message(wire::opt_bytes_field(field, data@)),
{
    if data.len() == 0 {
        return ;
    }
    encode_tag(buf, field, WIRE_TYPE_LENGTH_DELIMITED);
    encode_varint(buf, data.len() as u64);
    buf.extend_from_slice(data);
    proof {
        wire::lemma_message_one(wire::opt_bytes_field(field, data@)[0]);
    }
}

/// Appends a fixed64 field. Zero, the default, is left out.
pub fn encode_fixed64_field(buf: &mut Vec<u8>, field: u32, val: u64)
    ensures
        final(buf)@ == old(buf)@ + wire::message(wire::opt_fixed64_field(field, val)),
{
    if val == 0 {
        return ;
    }
    encode_fixed64_field_always(buf, field, val);
}

/// Appends a fixed64 field, also where it is zero.
pub fn encode_fixed64_field_always(buf: &mut Vec<u8>, field: u32, val: u64)
    ensures
        final(buf)@ == old(buf)@ + wire::message(wire::fixed64_field(field, val)),
{
    encode_tag(buf, field, WIRE_TYPE_FIXED64);
    push_le_bytes(buf, val);
    proof {
        wire::lemma_message_one(wire::fixed64_field(field, val)[0]);
    }
}

/// Appends a packed repeated fixed64 field. An empty list is left out.
pub fn encode_packed_fixed64_field(buf: &mut Vec<u8>, field: u32, values: &[u64])
    requires
        values@.len() * 8 <= u64::MAX,
    ensures
        final(buf)@ == old(buf)@ + wire::message(
            wire::opt_bytes_field(field, wire::packed(values@)),
        ),
{
    proof {
        wire::lemma_packed_len(values@);
    }
    if values.len() == 0 {
        return ;
    }
    encode_tag(buf, field, WIRE_TYPE_LENGTH_DELIMITED);
    encode_varint(buf, values.len() as u64 * 8);
    let ghost head = buf@;
    let mut i: usize = 0;
    while i < values.len()
        invariant
            i <= values.len(),
            buf@ == head + wire::packed(values@.take(i as int)),
        decreases values.len() - i,
    {
        push_le_bytes(buf, values[i]);
        assert(values@.take(i + 1).drop_last() =~= values@.take(i as int));
        i = i + 1;
    }
    assert(values@.take(i as int) =~= values@);
    proof {
        wire::lemma_message_one(wire::opt_bytes_field(field, wire::packed(values@))[0]);
    }
}

/// Appends a packed repeated double field; each double is given by its IEEE 754
/// bits. An empty list is left out.
pub fn encode_packed_double_field(buf: &mut Vec<u8>, field: u32, values: &[u64])
    requires
        values@.len() * 8 <= u64::MAX,
    ensures
        final(buf)@ == old(buf)@ + wire::message(
            wire::opt_bytes_field(field, wire::packed(values@)),
        ),
{
    encode_packed_fixed64_field(buf, field, values);
}

/// Appends a nested message that is already encoded. An empty one is left out.
pub fn encode_message_field(buf: &mut Vec<u8>, field: u32, msg: &[u8])
    ensures
        final(buf)@ == old(buf)@ + wire::message(wire::opt_bytes_field(field, msg@)),
{
    encode_bytes_field(buf, field, msg);
}

/// Appends a nested message whose body `f` appends, without a buffer of its own: the
/// field's key is written and room is kept for the length, `f` writes the body behind
/// them, and the length is then filled in and the body moved up to it. Where `f`
/// appends nothing, the field is left out.
pub fn encode_message_field_in_place<F>(buf: &mut Vec<u8>, field: u32, f: F) where
    F: FnOnce(&mut Vec<u8>),

    requires
        forall|b: &mut Vec<u8>| call_requires(f, (b,)),
        forall|b: &mut Vec<u8>, r: ()| #[trigger]
            call_ensures(f, (b,), r) ==> b@.is_prefix_of(final(b)@) && final(b)@.len() - b@.len()
                < MAX_MESSAGE_LEN,
    ensures
        exists|b: &mut Vec<u8>| #[trigger]
            call_ensures(f, (b,), ()) && b@ == old(buf)@ + wire::tag(field, 2) + Seq::new(
                MAX_LEN_BYTES as nat,
                |i: int| 0u8,
            ) && b@.is_prefix_of(final(b)@) && final(buf)@ == old(buf)@ + wire::message(
                wire::opt_bytes_field(field, final(b)@.skip(b@.len() as int)),
            ),
{
    encode_tag(buf, field, WIRE_TYPE_LENGTH_DELIMITED);
    let tag_end: usize = buf.len();
    buf.extend_from_slice(&[0u8; MAX_LEN_BYTES]);
    let body_start: usize = buf.len();
    let ghost before = buf@;
    assert(before =~= old(buf)@ + wire::tag(field, 2) + Seq::new(
        MAX_LEN_BYTES as nat,
        |i: int| 0u8,
    ));
    f(buf);
    let ghost after = buf@;
    let ghost body = after.skip(before.len() as int);
    let body_len: usize = buf.len() - body_start;
    if body_len == 0 {
        let tag_len: usize = varint_tag_len(field);
        buf.truncate(tag_end - tag_len);
        assert(buf@ =~= old(buf)@ + wire::message(wire::opt_bytes_field(field, body)));
        return ;
    }
    let mut len_buf: [u8; 5] = [0u8; MAX_LEN_BYTES];
    let varint_len: usize = encode_varint_to_slice(&mut len_buf, body_len as u64);
    let body_at: usize = tag_end + varint_len;
    let mut i: usize = 0;
    while i < body_len
        invariant
            i <= body_len,
            body_len == body.len(),
            body_at <= body_start,
            buf@.len() == body_start + body_len <= usize::MAX,
            buf@.take(tag_end as int) == after.take(tag_end as int),
            tag_end <= body_at,
            forall|j: int| 0 <= j < i ==> buf@[body_at + j] == body[j],
            forall|j: int| i <= j < body_len ==> buf@[body_start + j] == body[j],
        decreases body_len - i,
    {
        let byte: u8 = buf[body_start + i];
        buf[body_at + i] = byte;
        i = i + 1;
    }
    let mut k: usize = 0;
    while k < varint_len
        invariant
            k <= varint_len <= 5,
            body_len == body.len(),
            body_at == tag_end + varint_len,
            body_at <= body_start,
            buf@.len() == body_start + body_len <= usize::MAX,
            buf@.take(tag_end as int) == after.take(tag_end as int),
            forall|j: int| 0 <= j < body_len ==> buf@[body_at + j] == body[j],
            forall|j: int| 0 <= j < k ==> buf@[tag_end + j] == len_buf@[j],
        decreases varint_len - k,
    {
        buf[tag_end + k] = len_buf[k];
        k = k + 1;
    }
    buf.truncate(body_at + body_len);
    proof {
        wire::lemma_message_one(wire::opt_bytes_field(field, body)[0]);
        assert(buf@ =~= old(buf)@ + (wire::tag(field, 2) + wire::varint(body.len()) + body));
    }
}

/// Writes `val` as a varint to the front of `out` and returns its length.
pub fn encode_varint_to_slice(out: &mut [u8; 5], val: u64) -> (len: usize)
    requires
        val < MAX_MESSAGE_LEN,
    ensures
        1 <= len <= 5,
        len == wire::varint(val as nat).len(),
        final(out)@.take(len as int) == wire::varint(val as nat),
        final(out)@.skip(len as int) == old(out)@.skip(len as int),
{
    proof {
        wire::lemma_varint_len(val as nat);
    }
    let mut rest: u64 = val;
    let mut i: usize = 0;
    while rest >= 0x80
        invariant
            i + wire::varint(rest as nat).len() == wire::varint(val as nat).len() <= 5,
            out@.len() == 5,
            out@.take(i as int) + wire::varint(rest as nat) == wire::varint(val as nat),
            out@.skip(i as int) == old(out)@.skip(i as int),
        decreases rest,
    {
        assert((rest as u8) | 0x80 == 128 + rest % 128) by (bit_vector);
        assert(rest >> 7 == rest / 128) by (bit_vector);
        proof {
            wire::lemma_varint_reads_back((rest / 128) as nat, Seq::empty());
        }
        let ghost before = out@;
        out[i] = (rest as u8) | 0x80;
        assert(out@.take(i + 1) + wire::varint((rest / 128) as nat) =~= before.take(i as int)
            + wire::varint(rest as nat));
        assert(out@.skip(i + 1) =~= before.skip(i as int).skip(1));
        assert(out@.skip(i + 1) =~= old(out)@.skip(i as int).skip(1));
        assert(old(out)@.skip(i as int).skip(1) =~= old(out)@.skip(i + 1));
        rest >>= 7;
        i = i + 1;
    }
    let ghost before = out@;
    out[i] = rest as u8;
    assert(out@.take(i + 1) =~= before.take(i as int) + wire::varint(rest as nat));
    assert(out@.skip(i + 1) =~= before.skip(i as int).skip(1));
    assert(old(out)@.skip(i as int).skip(1) =~= old(out)@.skip(i + 1));
    i + 1
}

/// The length of the key of a length-delimited field.
pub fn varint_tag_len(field: u32) -> (len: usize)
    ensures
        len == wire::tag(field, 2).len(),
{
    assert(((field as u64) << 3) | 2u64 == field as u64 * 8 + 2) by (bit_vector);
    let mut v: u64 = ((field as u64) << 3) | WIRE_TYPE_LENGTH_DELIMITED as u64;
    let mut n: usize = 1;
    proof {
        wire::lemma_varint_len(v as nat);
    }
    while v >= 0x80
        invariant
            n + wire::varint(v as nat).len() == 1 + wire::tag(field, 2).len(),
            wire::tag(field, 2).len() <= 5,
        decreases v,
    {
        assert(v >> 7 == v / 128) by (bit_vector);
        proof {
            wire::lemma_varint_reads_back((v / 128) as nat, Seq::empty());
        }
        v >>= 7;
        n = n + 1;
    }
    n
}

} // verus!
