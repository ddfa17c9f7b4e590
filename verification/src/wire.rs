//! The protobuf wire format as mathematics: what a message is, which bytes
//! stand for it, and how a reader gets the message back from the bytes.

use vstd::prelude::*;

use crate::proto::MAX_MESSAGE_LEN;

verus! {

/// The payload of one field on the wire.
pub enum WireValue {
    /// Wire type 0.
    Varint(u64),
    /// Wire type 1.
    Fixed64(u64),
    /// Wire type 2: a string, raw bytes, a nested message or packed numbers.
    Bytes(Seq<u8>),
}

/// One field of a message: its number and its payload.
pub struct WireField {
    pub number: u32,
    pub value: WireValue,
}

/// LEB128: seven bits per byte, low bits first, the top bit set on all bytes
/// but the last.
pub open spec fn varint(val: nat) -> Seq<u8>
    decreases val,
{
    if val < 128 {
        seq![val as u8]
    } else {
        seq![(128 + val % 128) as u8] + varint(val / 128)
    }
}

/// The `n` low bytes of `val`, lowest first.
pub open spec fn le_bytes(val: nat, n: nat) -> Seq<u8>
    decreases n,
{
    if n == 0 {
        Seq::empty()
    } else {
        seq![(val % 256) as u8] + le_bytes(val / 256, (n - 1) as nat)
    }
}

/// The number a little-endian byte string stands for.
pub open spec fn le_value(bytes: Seq<u8>) -> nat
    decreases bytes.len(),
{
    if bytes.len() == 0 {
        0
    } else {
        bytes[0] as nat + 256 * le_value(bytes.skip(1))
    }
}

/// A field's key: its number and its wire type.
pub open spec fn tag(number: u32, wire_type: nat) -> Seq<u8> {
    varint(number as nat * 8 + wire_type)
}

/// The bytes of one field.
pub open spec fn field_bytes(f: WireField) -> Seq<u8> {
    match f.value {
        WireValue::Varint(v) => tag(f.number, 0) + varint(v as nat),
        WireValue::Fixed64(v) => tag(f.number, 1) + le_bytes(v as nat, 8),
        WireValue::Bytes(data) => tag(f.number, 2) + varint(data.len()) + data,
    }
}

/// The bytes of a message: those of its fields, one after another.
pub open spec fn message(fields: Seq<WireField>) -> Seq<u8>
    decreases fields.len(),
{
    if fields.len() == 0 {
        Seq::empty()
    } else {
        message(fields.drop_last()) + field_bytes(fields.last())
    }
}

/// A varint field.
pub open spec fn varint_field(number: u32, val: u64) -> Seq<WireField> {
    seq![WireField { number, value: WireValue::Varint(val) }]
}

/// A varint field that is left out when it holds the default, zero.
pub open spec fn opt_varint_field(number: u32, val: u64) -> Seq<WireField> {
    if val == 0 {
        Seq::empty()
    } else {
        varint_field(number, val)
    }
}

/// A fixed64 field.
pub open spec fn fixed64_field(number: u32, val: u64) -> Seq<WireField> {
    seq![WireField { number, value: WireValue::Fixed64(val) }]
}

/// A fixed64 field that is left out when it holds the default, zero.
pub open spec fn opt_fixed64_field(number: u32, val: u64) -> Seq<WireField> {
    if val == 0 {
        Seq::empty()
    } else {
        fixed64_field(number, val)
    }
}

/// A length-delimited field that is left out when it is empty.
pub open spec fn opt_bytes_field(number: u32, data: Seq<u8>) -> Seq<WireField> {
    if data.len() == 0 {
        Seq::empty()
    } else {
        seq![WireField { number, value: WireValue::Bytes(data) }]
    }
}

/// A repeated length-delimited field; empty entries are left out.
pub open spec fn repeated_field(number: u32, bodies: Seq<Seq<u8>>) -> Seq<WireField>
    decreases bodies.len(),
{
    if bodies.len() == 0 {
        Seq::empty()
    } else {
        repeated_field(number, bodies.drop_last()) + opt_bytes_field(number, bodies.last())
    }
}

/// Eight-byte little-endian numbers, one after another.
pub open spec fn packed(values: Seq<u64>) -> Seq<u8>
    decreases values.len(),
{
    if values.len() == 0 {
        Seq::empty()
    } else {
        packed(values.drop_last()) + le_bytes(values.last() as nat, 8)
    }
}

/// Reads a varint off the front: its value and how many bytes it took.
pub open spec fn read_varint(bytes: Seq<u8>) -> Option<(nat, nat)>
    decreases bytes.len(),
{
    if bytes.len() == 0 {
        None
    } else if bytes[0] < 128 {
        Some((bytes[0] as nat, 1))
    } else {
        match read_varint(bytes.skip(1)) {
            Some((high, n)) => Some(((bytes[0] - 128) as nat + 128 * high, n + 1)),
            None => None,
        }
    }
}

/// Reads one payload of the given wire type off the front: the payload and how
/// many bytes it took.
pub open spec fn read_value(bytes: Seq<u8>, wire_type: nat) -> Option<(WireValue, nat)> {
    if wire_type == 0 {
        match read_varint(bytes) {
            Some((v, n)) => if v <= u64::MAX {
                Some((WireValue::Varint(v as u64), n))
            } else {
                None
            },
            None => None,
        }
    } else if wire_type == 1 {
        if bytes.len() >= 8 {
            Some((WireValue::Fixed64(le_value(bytes.take(8)) as u64), 8))
        } else {
            None
        }
    } else if wire_type == 2 {
        match read_varint(bytes) {
            Some((len, n)) => if n + len <= bytes.len() {
                Some((WireValue::Bytes(bytes.subrange(n as int, (n + len) as int)), n + len))
            } else {
                None
            },
            None => None,
        }
    } else {
        None
    }
}

/// Reads one field off the front: the field and how many bytes it took.
pub open spec fn read_field(bytes: Seq<u8>) -> Option<(WireField, nat)> {
    match read_varint(bytes) {
        Some((key, n)) => if key / 8 <= u32::MAX && n <= bytes.len() {
            match read_value(bytes.skip(n as int), key % 8) {
                Some((value, m)) => Some(
                    (WireField { number: (key / 8) as u32, value }, n + m),
                ),
                None => None,
            }
        } else {
            None
        },
        None => None,
    }
}

/// Reads a whole byte string as a message. `None` where it is not one.
pub open spec fn read_message(bytes: Seq<u8>) -> Option<Seq<WireField>>
    decreases bytes.len(),
{
    if bytes.len() == 0 {
        Some(Seq::empty())
    } else {
        match read_field(bytes) {
            Some((f, n)) => if 0 < n <= bytes.len() {
                match read_message(bytes.skip(n as int)) {
                    Some(rest) => Some(seq![f] + rest),
                    None => None,
                }
            } else {
                None
            },
            None => None,
        }
    }
}

/// A varint takes at least one byte, and reading it back gives its value and
/// its length, whatever follows it.
pub proof fn lemma_varint_reads_back(val: nat, rest: Seq<u8>)
    ensures
        varint(val).len() >= 1,
        read_varint(varint(val) + rest) == Some((val, varint(val).len())),
    decreases val,
{
    let bytes = varint(val) + rest;
    if val >= 128 {
        lemma_varint_reads_back(val / 128, rest);
        assert(bytes.skip(1) =~= varint(val / 128) + rest);
    }
}

/// The length of a varint: one more byte for each further seven bits.
pub proof fn lemma_varint_len(val: nat)
    ensures
        varint(val).len() >= 1,
        val < 0x80 ==> varint(val).len() == 1,
        0x80 <= val < 0x4000 ==> varint(val).len() == 2,
        0x4000 <= val < 0x20_0000 ==> varint(val).len() == 3,
        0x20_0000 <= val < 0x1000_0000 ==> varint(val).len() == 4,
        0x1000_0000 <= val < 0x8_0000_0000 ==> varint(val).len() == 5,
{
    reveal_with_fuel(varint, 6);
    lemma_varint_reads_back(val, Seq::empty());
}

/// A `u64` takes at most ten bytes as a varint.
pub proof fn lemma_varint_at_most_ten_bytes(val: u64)
    ensures
        1 <= varint(val as nat).len() <= 10,
{
    lemma_varint_reads_back(val as nat, Seq::empty());
    reveal_with_fuel(varint, 11);
}

/// `n` little-endian bytes are `n` bytes, and stand for the number they were
/// made of, if it fits.
pub proof fn lemma_le_bytes_read_back(val: nat, n: nat)
    ensures
        le_bytes(val, n).len() == n,
        val < vstd::arithmetic::power::pow(256, n) ==> le_value(le_bytes(val, n)) == val,
    decreases n,
{
    reveal(vstd::arithmetic::power::pow);
    if n > 0 {
        let m = (n - 1) as nat;
        lemma_le_bytes_read_back(val / 256, m);
        assert(le_bytes(val, n).skip(1) =~= le_bytes(val / 256, m));
        let p = vstd::arithmetic::power::pow(256, m);
        assert(vstd::arithmetic::power::pow(256, n) == 256 * p);
        assert(val < 256 * p ==> val / 256 < p) by (nonlinear_arith);
    }
}

/// Eight little-endian bytes of a `u64` stand for it.
pub proof fn lemma_le8_reads_back(val: u64)
    ensures
        le_bytes(val as nat, 8).len() == 8,
        le_value(le_bytes(val as nat, 8)) == val,
{
    lemma_le_bytes_read_back(val as nat, 8);
    assert(vstd::arithmetic::power::pow(256, 8) == 0x1_0000_0000_0000_0000) by {
        reveal_with_fuel(vstd::arithmetic::power::pow, 9);
    }
}

/// Packed numbers take eight bytes each.
pub proof fn lemma_packed_len(values: Seq<u64>)
    ensures
        packed(values).len() == 8 * values.len(),
    decreases values.len(),
{
    if values.len() > 0 {
        lemma_packed_len(values.drop_last());
        lemma_le8_reads_back(values.last());
    }
}

/// Reading a field off the front of a byte string gives the field that was
/// written there, whatever follows it.
pub proof fn lemma_field_reads_back(f: WireField, rest: Seq<u8>)
    ensures
        field_bytes(f).len() >= 2,
        read_field(field_bytes(f) + rest) == Some((f, field_bytes(f).len())),
{
    let wire_type: nat = match f.value {
        WireValue::Varint(_) => 0,
        WireValue::Fixed64(_) => 1,
        WireValue::Bytes(_) => 2,
    };
    let key = f.number as nat * 8 + wire_type;
    let t = varint(key);
    let payload = match f.value {
        WireValue::Varint(v) => varint(v as nat),
        WireValue::Fixed64(v) => le_bytes(v as nat, 8),
        WireValue::Bytes(data) => varint(data.len()) + data,
    };
    let bytes = field_bytes(f) + rest;
    assert(bytes =~= t + (payload + rest));
    lemma_varint_reads_back(key, payload + rest);
    assert(key / 8 == f.number && key % 8 == wire_type);
    let tail = bytes.skip(t.len() as int);
    assert(tail =~= payload + rest);
    match f.value {
        WireValue::Varint(v) => {
            lemma_varint_reads_back(v as nat, rest);
        },
        WireValue::Fixed64(v) => {
            lemma_le8_reads_back(v);
            assert(tail.take(8) =~= payload);
        },
        WireValue::Bytes(data) => {
            let n = varint(data.len()).len();
            lemma_varint_reads_back(data.len(), data + rest);
            assert(tail =~= varint(data.len()) + (data + rest));
            assert(tail.subrange(n as int, (n + data.len()) as int) =~= data);
        },
    }
}

/// Writing the fields of two messages one after another writes one message with
/// the fields of both.
pub broadcast proof fn lemma_message_concat(a: Seq<WireField>, b: Seq<WireField>)
    ensures
        #[trigger] message(a + b) == message(a) + message(b),
    decreases b.len(),
{
    if b.len() == 0 {
        assert(a + b =~= a);
        assert(message(a) + message(b) =~= message(a));
    } else {
        assert((a + b).drop_last() =~= a + b.drop_last());
        lemma_message_concat(a, b.drop_last());
        assert((message(a) + message(b.drop_last())) + field_bytes(b.last()) =~= message(a) + (
        message(b.drop_last()) + field_bytes(b.last())));
    }
}

/// Appending a message to a buffer that ends in another appends the message that
/// has the fields of both.
pub proof fn lemma_append(start: Seq<u8>, a: Seq<WireField>, b: Seq<WireField>)
    ensures
        (start + message(a)) + message(b) == start + message(a + b),
{
    lemma_message_concat(a, b);
    assert((start + message(a)) + message(b) =~= start + (message(a) + message(b)));
}

/// A message without fields has no bytes.
pub proof fn lemma_append_none(start: Seq<u8>)
    ensures
        start + message(Seq::empty()) == start,
{
    assert(start + message(Seq::empty()) =~= start);
}

/// Skipping what a byte string starts with leaves what follows.
pub broadcast proof fn lemma_skip_prefix(a: Seq<u8>, b: Seq<u8>)
    ensures
        #[trigger] (a + b).skip(a.len() as int) == b,
{
    assert((a + b).skip(a.len() as int) =~= b);
}

/// A message of one field has the bytes of that field.
pub proof fn lemma_message_one(f: WireField)
    ensures
        message(seq![f]) == field_bytes(f),
{
    let fields = seq![f];
    assert(fields.drop_last() =~= Seq::<WireField>::empty());
    assert(message(Seq::empty()) + field_bytes(f) =~= field_bytes(f));
    assert(message(fields) == message(fields.drop_last()) + field_bytes(fields.last()));
}

/// Reading the bytes of a message gives the message back: every field, in
/// order, with its number and payload.
pub proof fn lemma_message_reads_back(fields: Seq<WireField>)
    ensures
        read_message(message(fields)) == Some(fields),
    decreases fields.len(),
{
    if fields.len() > 0 {
        let f = fields[0];
        let rest = fields.skip(1);
        lemma_message_concat(seq![f], rest);
        lemma_message_one(f);
        assert(seq![f] + rest =~= fields);
        lemma_field_reads_back(f, message(rest));
        let n = field_bytes(f).len();
        assert(message(fields).skip(n as int) =~= message(rest));
        lemma_message_reads_back(rest);
    }
}

/// Two messages with the same bytes are the same message.
pub proof fn lemma_message_injective(a: Seq<WireField>, b: Seq<WireField>)
    requires
        message(a) == message(b),
    ensures
        a == b,
{
    lemma_message_reads_back(a);
    lemma_message_reads_back(b);
}

/// The bytes of two messages, one after the other, read as one message that has
/// the fields of the first and then those of the second: request payloads can be
/// joined into one request by joining their bytes.
pub proof fn lemma_concatenated_messages_merge(a: Seq<WireField>, b: Seq<WireField>)
    ensures
        read_message(message(a) + message(b)) == Some(a + b),
{
    lemma_message_concat(a, b);
    lemma_message_reads_back(a + b);
}

/// A length-delimited field takes more bytes than it carries.
pub broadcast proof fn lemma_bytes_field_len(number: u32, data: Seq<u8>)
    ensures
        (#[trigger] message(opt_bytes_field(number, data))).len() >= data.len(),
{
    if data.len() > 0 {
        lemma_message_one(opt_bytes_field(number, data)[0]);
    }
}

/// A fixed64 field takes its key and eight bytes.
pub proof fn lemma_fixed64_field_len(number: u32, val: u64)
    ensures
        message(fixed64_field(number, val)).len() == tag(number, 1).len() + 8,
        tag(number, 1).len() <= 5,
{
    lemma_message_one(fixed64_field(number, val)[0]);
    lemma_le8_reads_back(val);
    lemma_varint_len(number as nat * 8 + 1);
}

/// A length-delimited field with a short payload takes its key, one byte for the
/// length, and the payload.
pub proof fn lemma_short_bytes_field_len(number: u32, data: Seq<u8>)
    requires
        0 < data.len() < 128,
    ensures
        message(opt_bytes_field(number, data)).len() == tag(number, 2).len() + 1 + data.len(),
        tag(number, 2).len() <= 5,
{
    lemma_message_one(opt_bytes_field(number, data)[0]);
    lemma_varint_len(number as nat * 8 + 2);
}

/// A message is longer than a length-delimited payload that it starts with, and
/// than the fields behind that.
pub proof fn lemma_two_part_len(number: u32, data: Seq<u8>, rest: Seq<WireField>)
    ensures
        data.len() <= message(opt_bytes_field(number, data) + rest).len(),
        message(rest).len() <= message(opt_bytes_field(number, data) + rest).len(),
{
    lemma_message_concat(opt_bytes_field(number, data), rest);
    lemma_bytes_field_len(number, data);
}

/// A repeated field takes more bytes than any one of its entries.
pub proof fn lemma_repeated_entry_len(number: u32, bodies: Seq<Seq<u8>>, i: int)
    requires
        0 <= i < bodies.len(),
    ensures
        bodies[i].len() <= message(repeated_field(number, bodies)).len(),
    decreases bodies.len(),
{
    lemma_message_concat(
        repeated_field(number, bodies.drop_last()),
        opt_bytes_field(number, bodies.last()),
    );
    lemma_bytes_field_len(number, bodies.last());
    if i < bodies.len() - 1 {
        lemma_repeated_entry_len(number, bodies.drop_last(), i);
    }
}

/// Each of these nested messages is short enough to be written.
pub open spec fn all_fit(bodies: Seq<Seq<u8>>) -> bool {
    forall|i: int| 0 <= i < bodies.len() ==> (#[trigger] bodies[i]).len() < MAX_MESSAGE_LEN
}

/// Where a repeated field is short enough, its entries are.
pub proof fn lemma_entries_fit(number: u32, bodies: Seq<Seq<u8>>)
    requires
        message(repeated_field(number, bodies)).len() < MAX_MESSAGE_LEN,
    ensures
        all_fit(bodies),
{
    assert forall|i: int| 0 <= i < bodies.len() implies (#[trigger] bodies[i]).len()
        < MAX_MESSAGE_LEN by {
        lemma_repeated_entry_len(number, bodies, i);
    }
}

/// One more entry in a repeated field.
pub proof fn lemma_repeated_push(number: u32, bodies: Seq<Seq<u8>>, i: int)
    requires
        0 <= i < bodies.len(),
    ensures
        repeated_field(number, bodies.take(i + 1)) == repeated_field(number, bodies.take(i))
            + opt_bytes_field(number, bodies[i]),
{
    assert(bodies.take(i + 1).drop_last() =~= bodies.take(i));
}

/// Eight little-endian bytes stand for the number whose lowest byte is the first.
pub proof fn lemma_le8_value(bytes: Seq<u8>)
    requires
        bytes.len() == 8,
    ensures
        le_value(bytes) == bytes[0] + 0x100 * bytes[1] + 0x1_0000 * bytes[2] + 0x100_0000 * bytes[3]
            + 0x1_0000_0000 * bytes[4] + 0x100_0000_0000 * bytes[5] + 0x1_0000_0000_0000 * bytes[6]
            + 0x100_0000_0000_0000 * bytes[7],
{
    reveal_with_fuel(le_value, 9);
}

/// A varint has seven bits of the number in each byte, the lowest first; every byte but the last
/// has its top bit set.
pub proof fn lemma_varint_bytes(val: nat)
    ensures
        val < 128 ==> varint(val).len() == 1 && varint(val)[0] == val,
        val >= 128 ==> varint(val)[0] == 128 + val % 128 && varint(val).skip(1) == varint(val / 128),
{
    if val >= 128 {
        assert(varint(val).skip(1) =~= varint(val / 128));
    }
}

/// The key of a field is its number and, in the low three bits, the type of its payload: zero for
/// a varint, one for eight bytes, two for bytes with their length before them.
pub proof fn lemma_field_layout(number: u32, val: u64, data: Seq<u8>)
    ensures
        field_bytes(WireField { number, value: WireValue::Varint(val) }) == varint(
            number as nat * 8,
        ) + varint(val as nat),
        field_bytes(WireField { number, value: WireValue::Fixed64(val) }) == varint(
            number as nat * 8 + 1,
        ) + le_bytes(val as nat, 8),
        field_bytes(WireField { number, value: WireValue::Bytes(data) }) == varint(
            number as nat * 8 + 2,
        ) + varint(data.len()) + data,
{
}

} // verus!
