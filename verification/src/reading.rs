//! What a protobuf reader gets back from the encoded OTLP messages.

use vstd::prelude::*;

use crate::attrs::Pair;
use crate::metrics::{Exemplar, ExemplarValue};
use crate::metrics_model::{HistogramPoint, Point, SnapshotModel};
use crate::otlp_log;
use crate::otlp_log::{LogModel, SeverityNumber};
use crate::otlp_metrics;
use crate::otlp_trace;
use crate::otlp_trace::{
    KeyValueModel, SpanKind, SpanModel, StatusCode, StatusModel, ValueModel,
};
use crate::wire;
use crate::wire::{WireField, WireValue};

verus! {

/// The payloads of the length-delimited fields with this number, in order.
pub open spec fn bytes_of(fields: Seq<WireField>, number: u32) -> Seq<Seq<u8>>
    decreases fields.len(),
{
    if fields.len() == 0 {
        Seq::empty()
    } else {
        let rest = bytes_of(fields.drop_last(), number);
        match fields.last().value {
            WireValue::Bytes(data) => if fields.last().number == number {
                rest.push(data)
            } else {
                rest
            },
            _ => rest,
        }
    }
}

/// The numbers in the varint fields with this number, in order.
pub open spec fn varints_of(fields: Seq<WireField>, number: u32) -> Seq<u64>
    decreases fields.len(),
{
    if fields.len() == 0 {
        Seq::empty()
    } else {
        let rest = varints_of(fields.drop_last(), number);
        match fields.last().value {
            WireValue::Varint(v) => if fields.last().number == number {
                rest.push(v)
            } else {
                rest
            },
            _ => rest,
        }
    }
}

/// The numbers in the fixed64 fields with this number, in order.
pub open spec fn fixed64s_of(fields: Seq<WireField>, number: u32) -> Seq<u64>
    decreases fields.len(),
{
    if fields.len() == 0 {
        Seq::empty()
    } else {
        let rest = fixed64s_of(fields.drop_last(), number);
        match fields.last().value {
            WireValue::Fixed64(v) => if fields.last().number == number {
                rest.push(v)
            } else {
                rest
            },
            _ => rest,
        }
    }
}

/// The fields that a reader finds in a byte string.
pub open spec fn fields_in(bytes: Seq<u8>) -> Seq<WireField> {
    match wire::read_message(bytes) {
        Some(fields) => fields,
        None => Seq::empty(),
    }
}

/// All payloads that a reader finds under a repeated length-delimited field.
pub open spec fn read_repeated(bytes: Seq<u8>, number: u32) -> Seq<Seq<u8>> {
    bytes_of(fields_in(bytes), number)
}

/// What a reader finds in a length-delimited field: the last payload, and nothing
/// where there is none.
pub open spec fn read_bytes(bytes: Seq<u8>, number: u32) -> Seq<u8> {
    let all = bytes_of(fields_in(bytes), number);
    if all.len() == 0 {
        Seq::empty()
    } else {
        all.last()
    }
}

/// What a reader finds in a string field.
pub open spec fn read_string(bytes: Seq<u8>, number: u32) -> Seq<char> {
    vstd::utf8::decode_utf8(read_bytes(bytes, number))
}

/// What a reader finds in a varint field: the last value, and zero where there is
/// none.
pub open spec fn read_varint(bytes: Seq<u8>, number: u32) -> u64 {
    let all = varints_of(fields_in(bytes), number);
    if all.len() == 0 {
        0
    } else {
        all.last()
    }
}

/// What a reader finds in a fixed64 field: the last value, and zero where there is
/// none.
pub open spec fn read_fixed64(bytes: Seq<u8>, number: u32) -> u64 {
    let all = fixed64s_of(fields_in(bytes), number);
    if all.len() == 0 {
        0
    } else {
        all.last()
    }
}

/// The entries that are not empty, in order.
pub open spec fn nonempty(bodies: Seq<Seq<u8>>) -> Seq<Seq<u8>>
    decreases bodies.len(),
{
    if bodies.len() == 0 {
        Seq::empty()
    } else if bodies.last().len() == 0 {
        nonempty(bodies.drop_last())
    } else {
        nonempty(bodies.drop_last()).push(bodies.last())
    }
}

/// A reader finds the fields of two joined lists one after another.
broadcast proof fn lemma_bytes_of_concat(a: Seq<WireField>, b: Seq<WireField>, number: u32)
    ensures
        #[trigger] bytes_of(a + b, number) == bytes_of(a, number) + bytes_of(b, number),
    decreases b.len(),
{
    if b.len() == 0 {
        assert(a + b =~= a);
        assert(bytes_of(a, number) + bytes_of(b, number) =~= bytes_of(a, number));
    } else {
        assert((a + b).drop_last() =~= a + b.drop_last());
        lemma_bytes_of_concat(a, b.drop_last(), number);
        assert(bytes_of(a + b, number) =~= bytes_of(a, number) + bytes_of(b, number));
    }
}

broadcast proof fn lemma_varints_of_concat(a: Seq<WireField>, b: Seq<WireField>, number: u32)
    ensures
        #[trigger] varints_of(a + b, number) == varints_of(a, number) + varints_of(b, number),
    decreases b.len(),
{
    if b.len() == 0 {
        assert(a + b =~= a);
        assert(varints_of(a, number) + varints_of(b, number) =~= varints_of(a, number));
    } else {
        assert((a + b).drop_last() =~= a + b.drop_last());
        lemma_varints_of_concat(a, b.drop_last(), number);
        assert(varints_of(a + b, number) =~= varints_of(a, number) + varints_of(b, number));
    }
}

broadcast proof fn lemma_fixed64s_of_concat(a: Seq<WireField>, b: Seq<WireField>, number: u32)
    ensures
        #[trigger] fixed64s_of(a + b, number) == fixed64s_of(a, number) + fixed64s_of(b, number),
    decreases b.len(),
{
    if b.len() == 0 {
        assert(a + b =~= a);
        assert(fixed64s_of(a, number) + fixed64s_of(b, number) =~= fixed64s_of(a, number));
    } else {
        assert((a + b).drop_last() =~= a + b.drop_last());
        lemma_fixed64s_of_concat(a, b.drop_last(), number);
        assert(fixed64s_of(a + b, number) =~= fixed64s_of(a, number) + fixed64s_of(b, number));
    }
}

/// What a reader finds in a list of one field.
proof fn lemma_of_one(f: WireField, number: u32)
    ensures
        bytes_of(seq![f], number) == (match f.value {
            WireValue::Bytes(data) => if f.number == number {
                seq![data]
            } else {
                Seq::empty()
            },
            _ => Seq::empty(),
        }),
        varints_of(seq![f], number) == (match f.value {
            WireValue::Varint(v) => if f.number == number {
                seq![v]
            } else {
                Seq::empty()
            },
            _ => Seq::empty(),
        }),
        fixed64s_of(seq![f], number) == (match f.value {
            WireValue::Fixed64(v) => if f.number == number {
                seq![v]
            } else {
                Seq::empty()
            },
            _ => Seq::empty(),
        }),
{
    let fields = seq![f];
    assert(fields.drop_last() =~= Seq::<WireField>::empty());
    reveal_with_fuel(bytes_of, 2);
    reveal_with_fuel(varints_of, 2);
    reveal_with_fuel(fixed64s_of, 2);
    assert(bytes_of(fields.drop_last(), number) =~= Seq::<Seq<u8>>::empty());
    assert(varints_of(fields.drop_last(), number) =~= Seq::<u64>::empty());
    assert(fixed64s_of(fields.drop_last(), number) =~= Seq::<u64>::empty());
    match f.value {
        WireValue::Bytes(data) => {
            assert(Seq::<Seq<u8>>::empty().push(data) =~= seq![data]);
        },
        WireValue::Varint(v) => {
            assert(Seq::<u64>::empty().push(v) =~= seq![v]);
        },
        WireValue::Fixed64(v) => {
            assert(Seq::<u64>::empty().push(v) =~= seq![v]);
        },
    }
}

broadcast proof fn lemma_bytes_of_opt_bytes(n: u32, data: Seq<u8>, number: u32)
    ensures
        #[trigger] bytes_of(wire::opt_bytes_field(n, data), number) == if n == number && data.len()
            > 0 {
            seq![data]
        } else {
            Seq::empty()
        },
{
    if data.len() > 0 {
        lemma_of_one(WireField { number: n, value: WireValue::Bytes(data) }, number);
    }
}

broadcast proof fn lemma_varints_of_opt_bytes(n: u32, data: Seq<u8>, number: u32)
    ensures
        #[trigger] varints_of(wire::opt_bytes_field(n, data), number) == Seq::<u64>::empty(),
{
    if data.len() > 0 {
        lemma_of_one(WireField { number: n, value: WireValue::Bytes(data) }, number);
    }
}

broadcast proof fn lemma_fixed64s_of_opt_bytes(n: u32, data: Seq<u8>, number: u32)
    ensures
        #[trigger] fixed64s_of(wire::opt_bytes_field(n, data), number) == Seq::<u64>::empty(),
{
    if data.len() > 0 {
        lemma_of_one(WireField { number: n, value: WireValue::Bytes(data) }, number);
    }
}

broadcast proof fn lemma_bytes_of_varint(n: u32, val: u64, number: u32)
    ensures
        #[trigger] bytes_of(wire::varint_field(n, val), number) == Seq::<Seq<u8>>::empty(),
{
    lemma_of_one(wire::varint_field(n, val)[0], number);
}

broadcast proof fn lemma_varints_of_varint(n: u32, val: u64, number: u32)
    ensures
        #[trigger] varints_of(wire::varint_field(n, val), number) == if n == number {
            seq![val]
        } else {
            Seq::empty()
        },
{
    lemma_of_one(wire::varint_field(n, val)[0], number);
}

broadcast proof fn lemma_fixed64s_of_varint(n: u32, val: u64, number: u32)
    ensures
        #[trigger] fixed64s_of(wire::varint_field(n, val), number) == Seq::<u64>::empty(),
{
    lemma_of_one(wire::varint_field(n, val)[0], number);
}

broadcast proof fn lemma_bytes_of_fixed64(n: u32, val: u64, number: u32)
    ensures
        #[trigger] bytes_of(wire::fixed64_field(n, val), number) == Seq::<Seq<u8>>::empty(),
{
    lemma_of_one(wire::fixed64_field(n, val)[0], number);
}

broadcast proof fn lemma_varints_of_fixed64(n: u32, val: u64, number: u32)
    ensures
        #[trigger] varints_of(wire::fixed64_field(n, val), number) == Seq::<u64>::empty(),
{
    lemma_of_one(wire::fixed64_field(n, val)[0], number);
}

broadcast proof fn lemma_fixed64s_of_fixed64(n: u32, val: u64, number: u32)
    ensures
        #[trigger] fixed64s_of(wire::fixed64_field(n, val), number) == if n == number {
            seq![val]
        } else {
            Seq::empty()
        },
{
    lemma_of_one(wire::fixed64_field(n, val)[0], number);
}

broadcast proof fn lemma_bytes_of_repeated(n: u32, bodies: Seq<Seq<u8>>, number: u32)
    ensures
        #[trigger] bytes_of(wire::repeated_field(n, bodies), number) == if n == number {
            nonempty(bodies)
        } else {
            Seq::empty()
        },
    decreases bodies.len(),
{
    if bodies.len() > 0 {
        lemma_bytes_of_repeated(n, bodies.drop_last(), number);
        lemma_bytes_of_concat(
            wire::repeated_field(n, bodies.drop_last()),
            wire::opt_bytes_field(n, bodies.last()),
            number,
        );
        lemma_bytes_of_opt_bytes(n, bodies.last(), number);
        assert(bytes_of(wire::repeated_field(n, bodies), number) =~= if n == number {
            nonempty(bodies)
        } else {
            Seq::empty()
        });
    }
}

broadcast proof fn lemma_varints_of_repeated(n: u32, bodies: Seq<Seq<u8>>, number: u32)
    ensures
        #[trigger] varints_of(wire::repeated_field(n, bodies), number) == Seq::<u64>::empty(),
    decreases bodies.len(),
{
    if bodies.len() > 0 {
        lemma_varints_of_repeated(n, bodies.drop_last(), number);
        lemma_varints_of_concat(
            wire::repeated_field(n, bodies.drop_last()),
            wire::opt_bytes_field(n, bodies.last()),
            number,
        );
        lemma_varints_of_opt_bytes(n, bodies.last(), number);
        assert(varints_of(wire::repeated_field(n, bodies), number) =~= Seq::<u64>::empty());
    }
}

broadcast proof fn lemma_fixed64s_of_repeated(n: u32, bodies: Seq<Seq<u8>>, number: u32)
    ensures
        #[trigger] fixed64s_of(wire::repeated_field(n, bodies), number) == Seq::<u64>::empty(),
    decreases bodies.len(),
{
    if bodies.len() > 0 {
        lemma_fixed64s_of_repeated(n, bodies.drop_last(), number);
        lemma_fixed64s_of_concat(
            wire::repeated_field(n, bodies.drop_last()),
            wire::opt_bytes_field(n, bodies.last()),
            number,
        );
        lemma_fixed64s_of_opt_bytes(n, bodies.last(), number);
        assert(fixed64s_of(wire::repeated_field(n, bodies), number) =~= Seq::<u64>::empty());
    }
}

/// Where no entry is empty, all are kept.
proof fn lemma_nonempty_all(bodies: Seq<Seq<u8>>)
    requires
        forall|i: int| 0 <= i < bodies.len() ==> (#[trigger] bodies[i]).len() > 0,
    ensures
        nonempty(bodies) == bodies,
    decreases bodies.len(),
{
    if bodies.len() > 0 {
        lemma_nonempty_all(bodies.drop_last());
        assert(bodies.drop_last().push(bodies.last()) =~= bodies);
    }
}

broadcast group group_fields {
    lemma_bytes_of_concat,
    lemma_varints_of_concat,
    lemma_fixed64s_of_concat,
    lemma_bytes_of_opt_bytes,
    lemma_varints_of_opt_bytes,
    lemma_fixed64s_of_opt_bytes,
    lemma_bytes_of_varint,
    lemma_varints_of_varint,
    lemma_fixed64s_of_varint,
    lemma_bytes_of_fixed64,
    lemma_varints_of_fixed64,
    lemma_fixed64s_of_fixed64,
    lemma_bytes_of_repeated,
    lemma_varints_of_repeated,
    lemma_fixed64s_of_repeated,
}

/// A reader finds in a message the fields that were written.
proof fn lemma_fields_in_message(fields: Seq<WireField>)
    ensures
        fields_in(wire::message(fields)) == fields,
{
    wire::lemma_message_reads_back(fields);
}

/// An attribute value, as a reader sees it.
pub enum ReadValue {
    Absent,
    String(Seq<char>),
    Int(int),
    Bool(bool),
    Double(u64),
    Bytes(Seq<u8>),
}

/// What an attribute value means to a reader. The empty string and empty bytes
/// cannot be told from a value that is absent.
pub open spec fn value_meaning(val: ValueModel) -> ReadValue {
    match val {
        ValueModel::String(s) => if s.len() == 0 {
            ReadValue::Absent
        } else {
            ReadValue::String(s)
        },
        ValueModel::Int(i) => ReadValue::Int(i as int),
        ValueModel::Bool(b) => ReadValue::Bool(b),
        ValueModel::Double(bits) => ReadValue::Double(bits),
        ValueModel::Bytes(b) => if b.len() == 0 {
            ReadValue::Absent
        } else {
            ReadValue::Bytes(b)
        },
    }
}

/// How a reader takes an `AnyValue` message: by the last of its fields.
pub open spec fn read_any_value(bytes: Seq<u8>) -> ReadValue {
    let fields = fields_in(bytes);
    if fields.len() == 0 {
        ReadValue::Absent
    } else {
        let number = fields.last().number;
        match fields.last().value {
            WireValue::Bytes(data) => if number == 1 {
                ReadValue::String(vstd::utf8::decode_utf8(data))
            } else if number == 7 {
                ReadValue::Bytes(data)
            } else {
                ReadValue::Absent
            },
            WireValue::Varint(v) => if number == 2 {
                ReadValue::Bool(v != 0)
            } else if number == 3 {
                ReadValue::Int(
                    if v < 0x8000_0000_0000_0000 {
                        v as int
                    } else {
                        v - 0x1_0000_0000_0000_0000
                    },
                )
            } else {
                ReadValue::Absent
            },
            WireValue::Fixed64(v) => if number == 4 {
                ReadValue::Double(v)
            } else {
                ReadValue::Absent
            },
        }
    }
}

/// A string is empty exactly where its UTF-8 bytes are.
proof fn lemma_utf8_empty(s: Seq<char>)
    ensures
        vstd::utf8::encode_utf8(s).len() == 0 <==> s.len() == 0,
        vstd::utf8::decode_utf8(vstd::utf8::encode_utf8(s)) == s,
{
    vstd::utf8::encode_utf8_decode_utf8(s);
    if s.len() == 0 {
        assert(vstd::utf8::encode_utf8(s) =~= Seq::<u8>::empty());
    } else if vstd::utf8::encode_utf8(s).len() == 0 {
        assert(vstd::utf8::encode_utf8(s) =~= Seq::<u8>::empty());
        assert(vstd::utf8::decode_utf8(Seq::<u8>::empty()) =~= Seq::<char>::empty());
    }
}

/// An attribute value reads back as what it means: zero, false and 0.0 do not get
/// lost.
pub proof fn lemma_any_value_reads_back(val: ValueModel)
    ensures
        read_any_value(wire::message(otlp_trace::any_value_fields(val))) == value_meaning(val),
{
    lemma_fields_in_message(otlp_trace::any_value_fields(val));
    match val {
        ValueModel::String(s) => {
            lemma_utf8_empty(s);
        },
        _ => {},
    }
}

/// An attribute reads back with its key and its value.
pub proof fn lemma_key_value_reads_back(kv: KeyValueModel)
    ensures
        ({
            let bytes = wire::message(otlp_trace::key_value_fields(kv));
            &&& read_string(bytes, 1) == kv.key
            &&& read_any_value(read_bytes(bytes, 2)) == value_meaning(kv.value)
        }),
{
    broadcast use group_fields;

    lemma_fields_in_message(otlp_trace::key_value_fields(kv));
    lemma_utf8_empty(kv.key);
    lemma_any_value_reads_back(kv.value);
    let bytes = wire::message(otlp_trace::key_value_fields(kv));
    let body = wire::message(otlp_trace::any_value_fields(kv.value));
    assert(read_bytes(bytes, 1) =~= vstd::utf8::encode_utf8(kv.key));
    assert(read_bytes(bytes, 2) =~= body);
}

/// A status reads back with its message and its code.
pub proof fn lemma_status_reads_back(status: StatusModel)
    ensures
        ({
            let bytes = wire::message(otlp_trace::status_fields(status));
            &&& read_string(bytes, 2) == status.message
            &&& read_varint(bytes, 3) == status.code.number()
        }),
{
    broadcast use group_fields;

    lemma_fields_in_message(otlp_trace::status_fields(status));
    lemma_utf8_empty(status.message);
    let bytes = wire::message(otlp_trace::status_fields(status));
    assert(read_bytes(bytes, 2) =~= vstd::utf8::encode_utf8(status.message));
}

/// A span reads back with everything in it: ids, name, kind, times, attributes
/// and status. An attribute with an empty key and no value leaves no trace.
pub proof fn lemma_span_reads_back(span: SpanModel)
    requires
        span.trace_id.len() == 16,
        span.span_id.len() == 8,
        span.parent_span_id.len() == 8,
    ensures
        ({
            let bytes = wire::message(otlp_trace::span_fields(span));
            &&& bytes.len() > 0
            &&& read_bytes(bytes, 1) == span.trace_id
            &&& read_bytes(bytes, 2) == span.span_id
            &&& read_bytes(bytes, 4) == span.parent_span_id
            &&& read_string(bytes, 5) == span.name
            &&& read_varint(bytes, 6) == span.kind.number()
            &&& read_fixed64(bytes, 7) == span.start_time_unix_nano
            &&& read_fixed64(bytes, 8) == span.end_time_unix_nano
            &&& read_repeated(bytes, 9) == nonempty(
                otlp_trace::key_value_bodies(span.attributes),
            )
            &&& read_bytes(bytes, 15) == match span.status {
                Some(status) => wire::message(otlp_trace::status_fields(status)),
                None => Seq::empty(),
            }
        }),
{
    broadcast use group_fields;

    let fields = otlp_trace::span_fields(span);
    let bytes = wire::message(fields);
    lemma_fields_in_message(fields);
    lemma_utf8_empty(span.name);
    assert(bytes_of(fields, 1) =~= seq![span.trace_id]);
    assert(bytes_of(fields, 2) =~= seq![span.span_id]);
    assert(bytes_of(fields, 4) =~= seq![span.parent_span_id]);
    assert(bytes_of(fields, 5) =~= bytes_of(
        wire::opt_bytes_field(5, vstd::utf8::encode_utf8(span.name)),
        5,
    ));
    assert(read_bytes(bytes, 5) =~= vstd::utf8::encode_utf8(span.name));
    assert(varints_of(fields, 6) =~= varints_of(
        wire::opt_varint_field(6, span.kind.number()),
        6,
    ));
    assert(fixed64s_of(fields, 7) =~= fixed64s_of(
        wire::opt_fixed64_field(7, span.start_time_unix_nano),
        7,
    ));
    assert(fixed64s_of(fields, 8) =~= fixed64s_of(
        wire::opt_fixed64_field(8, span.end_time_unix_nano),
        8,
    ));
    assert(bytes_of(fields, 9) =~= nonempty(otlp_trace::key_value_bodies(span.attributes)));
    assert(bytes_of(fields, 15) =~= bytes_of(otlp_trace::span_status_field(span.status), 15));
    if bytes.len() == 0 {
        assert(bytes =~= Seq::<u8>::empty());
        assert(fields =~= Seq::<WireField>::empty());
    }
}

/// A log record reads back with everything in it: time, severity, body,
/// attributes and ids.
pub proof fn lemma_log_reads_back(log: LogModel)
    requires
        log.trace_id.len() == 16,
        log.span_id.len() == 8,
    ensures
        ({
            let bytes = wire::message(otlp_log::log_fields(log));
            &&& bytes.len() > 0
            &&& read_fixed64(bytes, 1) == log.time_unix_nano
            &&& read_varint(bytes, 2) == log.severity_number.number()
            &&& read_string(bytes, 3) == log.severity_text
            &&& read_any_value(read_bytes(bytes, 5)) == value_meaning(log.body)
            &&& read_repeated(bytes, 6) == nonempty(otlp_trace::key_value_bodies(log.attributes))
            &&& read_bytes(bytes, 9) == log.trace_id
            &&& read_bytes(bytes, 10) == log.span_id
        }),
{
    broadcast use group_fields;

    let fields = otlp_log::log_fields(log);
    let bytes = wire::message(fields);
    let body = wire::message(otlp_trace::any_value_fields(log.body));
    lemma_fields_in_message(fields);
    lemma_utf8_empty(log.severity_text);
    lemma_any_value_reads_back(log.body);
    assert(fixed64s_of(fields, 1) =~= fixed64s_of(
        wire::opt_fixed64_field(1, log.time_unix_nano),
        1,
    ));
    assert(varints_of(fields, 2) =~= varints_of(
        wire::opt_varint_field(2, log.severity_number.number()),
        2,
    ));
    assert(bytes_of(fields, 3) =~= bytes_of(
        wire::opt_bytes_field(3, vstd::utf8::encode_utf8(log.severity_text)),
        3,
    ));
    assert(read_bytes(bytes, 3) =~= vstd::utf8::encode_utf8(log.severity_text));
    assert(bytes_of(fields, 5) =~= bytes_of(wire::opt_bytes_field(5, body), 5));
    assert(read_bytes(bytes, 5) =~= body);
    assert(bytes_of(fields, 6) =~= nonempty(otlp_trace::key_value_bodies(log.attributes)));
    assert(bytes_of(fields, 9) =~= seq![log.trace_id]);
    assert(bytes_of(fields, 10) =~= seq![log.span_id]);
    if bytes.len() == 0 {
        assert(bytes =~= Seq::<u8>::empty());
        assert(fields =~= Seq::<WireField>::empty());
    }
}

/// A message of one nested message and a repeated field reads back as those.
proof fn lemma_scope_reads_back(body: Seq<u8>, entries: Seq<Seq<u8>>)
    ensures
        ({
            let bytes = wire::message(
                wire::opt_bytes_field(1, body) + wire::repeated_field(2, entries),
            );
            &&& read_bytes(bytes, 1) == body
            &&& read_repeated(bytes, 2) == nonempty(entries)
        }),
{
    broadcast use group_fields;

    let fields = wire::opt_bytes_field(1, body) + wire::repeated_field(2, entries);
    lemma_fields_in_message(fields);
    assert(bytes_of(fields, 1) =~= bytes_of(wire::opt_bytes_field(1, body), 1));
    assert(read_bytes(wire::message(fields), 1) =~= body);
    assert(bytes_of(fields, 2) =~= nonempty(entries));
}

/// A message of two nested messages, itself nested in a request, reads back as
/// those.
proof fn lemma_request_reads_back(first: Seq<u8>, second: Seq<u8>)
    ensures
        ({
            let outer = wire::message(
                wire::opt_bytes_field(1, first) + wire::opt_bytes_field(2, second),
            );
            let request = wire::message(wire::opt_bytes_field(1, outer));
            &&& read_bytes(request, 1) == outer
            &&& read_bytes(outer, 1) == first
            &&& read_bytes(outer, 2) == second
        }),
{
    broadcast use group_fields;

    let fields = wire::opt_bytes_field(1, first) + wire::opt_bytes_field(2, second);
    let outer = wire::message(fields);
    lemma_fields_in_message(fields);
    lemma_fields_in_message(wire::opt_bytes_field(1, outer));
    assert(read_bytes(outer, 1) =~= first);
    assert(read_bytes(outer, 2) =~= second);
    assert(read_bytes(wire::message(wire::opt_bytes_field(1, outer)), 1) =~= outer);
}

/// A scope reads back with its name and its version.
pub proof fn lemma_scope_names_read_back(name: Seq<char>, version: Seq<char>)
    ensures
        ({
            let bytes = wire::message(otlp_trace::scope_fields(name, version));
            &&& read_string(bytes, 1) == name
            &&& read_string(bytes, 2) == version
        }),
{
    broadcast use group_fields;

    lemma_fields_in_message(otlp_trace::scope_fields(name, version));
    lemma_utf8_empty(name);
    lemma_utf8_empty(version);
    let bytes = wire::message(otlp_trace::scope_fields(name, version));
    assert(read_bytes(bytes, 1) =~= vstd::utf8::encode_utf8(name));
    assert(read_bytes(bytes, 2) =~= vstd::utf8::encode_utf8(version));
}

/// A resource reads back with its attributes.
pub proof fn lemma_resource_reads_back(attrs: Seq<KeyValueModel>)
    ensures
        read_repeated(wire::message(otlp_trace::resource_fields(attrs)), 1) == nonempty(
            otlp_trace::key_value_bodies(attrs),
        ),
{
    broadcast use group_fields;

    lemma_fields_in_message(otlp_trace::resource_fields(attrs));
}

/// A trace request reads back with its resource, its scope and every span, in
/// order.
pub proof fn lemma_trace_request_reads_back(
    resource_attrs: Seq<KeyValueModel>,
    scope_name: Seq<char>,
    scope_version: Seq<char>,
    spans: Seq<SpanModel>,
)
    requires
        forall|i: int|
            0 <= i < spans.len() ==> (#[trigger] spans[i]).trace_id.len() == 16
                && spans[i].span_id.len() == 8 && spans[i].parent_span_id.len() == 8,
    ensures
        ({
            let request = wire::message(
                otlp_trace::trace_request_fields(
                    resource_attrs,
                    scope_name,
                    scope_version,
                    spans,
                ),
            );
            let outer = read_bytes(request, 1);
            &&& read_bytes(outer, 1) == wire::message(otlp_trace::resource_fields(resource_attrs))
            &&& read_bytes(read_bytes(outer, 2), 1) == wire::message(
                otlp_trace::scope_fields(scope_name, scope_version),
            )
            &&& read_repeated(read_bytes(outer, 2), 2) == otlp_trace::span_bodies(spans)
        }),
{
    let bodies = otlp_trace::span_bodies(spans);
    lemma_request_reads_back(
        wire::message(otlp_trace::resource_fields(resource_attrs)),
        wire::message(otlp_trace::scope_spans_fields(scope_name, scope_version, spans)),
    );
    lemma_scope_reads_back(
        wire::message(otlp_trace::scope_fields(scope_name, scope_version)),
        bodies,
    );
    assert forall|i: int| 0 <= i < bodies.len() implies (#[trigger] bodies[i]).len() > 0 by {
        lemma_span_reads_back(spans[i]);
    }
    lemma_nonempty_all(bodies);
}

/// A logs request reads back with its resource, its scope and every record, in
/// order.
pub proof fn lemma_logs_request_reads_back(
    resource_attrs: Seq<KeyValueModel>,
    scope_name: Seq<char>,
    scope_version: Seq<char>,
    logs: Seq<LogModel>,
)
    requires
        forall|i: int|
            0 <= i < logs.len() ==> (#[trigger] logs[i]).trace_id.len() == 16
                && logs[i].span_id.len() == 8,
    ensures
        ({
            let request = wire::message(
                otlp_log::logs_request_fields(resource_attrs, scope_name, scope_version, logs),
            );
            let outer = read_bytes(request, 1);
            &&& read_bytes(outer, 1) == wire::message(otlp_trace::resource_fields(resource_attrs))
            &&& read_bytes(read_bytes(outer, 2), 1) == wire::message(
                otlp_trace::scope_fields(scope_name, scope_version),
            )
            &&& read_repeated(read_bytes(outer, 2), 2) == otlp_log::log_bodies(logs)
        }),
{
    let bodies = otlp_log::log_bodies(logs);
    lemma_request_reads_back(
        wire::message(otlp_trace::resource_fields(resource_attrs)),
        wire::message(otlp_log::scope_logs_fields(scope_name, scope_version, logs)),
    );
    lemma_scope_reads_back(
        wire::message(otlp_trace::scope_fields(scope_name, scope_version)),
        bodies,
    );
    assert forall|i: int| 0 <= i < bodies.len() implies (#[trigger] bodies[i]).len() > 0 by {
        lemma_log_reads_back(logs[i]);
    }
    lemma_nonempty_all(bodies);
}

/// A metrics request reads back with its resource, its scope and its metrics, in
/// order.
pub proof fn lemma_metrics_request_reads_back(
    resource_attrs: Seq<KeyValueModel>,
    scope_name: Seq<char>,
    scope_version: Seq<char>,
    snapshots: Seq<SnapshotModel>,
    start_time: u64,
    time: u64,
)
    ensures
        ({
            let request = wire::message(
                otlp_metrics::metrics_request_fields(
                    resource_attrs,
                    scope_name,
                    scope_version,
                    snapshots,
                    start_time,
                    time,
                ),
            );
            let outer = read_bytes(request, 1);
            &&& read_bytes(outer, 1) == wire::message(otlp_trace::resource_fields(resource_attrs))
            &&& read_bytes(read_bytes(outer, 2), 1) == wire::message(
                otlp_trace::scope_fields(scope_name, scope_version),
            )
            &&& read_repeated(read_bytes(outer, 2), 2) == nonempty(
                otlp_metrics::metric_bodies(snapshots, start_time, time),
            )
        }),
{
    lemma_request_reads_back(
        wire::message(otlp_trace::resource_fields(resource_attrs)),
        wire::message(
            otlp_metrics::scope_metrics_fields(
                scope_name,
                scope_version,
                snapshots,
                start_time,
                time,
            ),
        ),
    );
    lemma_scope_reads_back(
        wire::message(otlp_trace::scope_fields(scope_name, scope_version)),
        otlp_metrics::metric_bodies(snapshots, start_time, time),
    );
}

/// An exemplar reads back with its ids, its time and its value.
pub proof fn lemma_exemplar_reads_back(exemplar: Exemplar)
    ensures
        ({
            let bytes = wire::message(otlp_metrics::exemplar_fields(exemplar));
            &&& bytes.len() > 0
            &&& read_fixed64(bytes, 2) == exemplar.time_unix_nano
            &&& read_bytes(bytes, 4) == exemplar.span_id@
            &&& read_bytes(bytes, 5) == exemplar.trace_id@
            &&& match exemplar.value {
                ExemplarValue::Double(bits) => fixed64s_of(fields_in(bytes), 3) == seq![bits]
                    && fixed64s_of(fields_in(bytes), 6).len() == 0,
                ExemplarValue::Int(v) => fixed64s_of(fields_in(bytes), 6)
                    == seq![otlp_trace::twos_complement(v)] && fixed64s_of(
                    fields_in(bytes),
                    3,
                ).len() == 0,
            }
        }),
{
    broadcast use group_fields;

    let fields = otlp_metrics::exemplar_fields(exemplar);
    let bytes = wire::message(fields);
    lemma_fields_in_message(fields);
    assert(fixed64s_of(fields, 2) =~= fixed64s_of(
        wire::opt_fixed64_field(2, exemplar.time_unix_nano),
        2,
    ));
    assert(bytes_of(fields, 4) =~= seq![exemplar.span_id@]);
    assert(bytes_of(fields, 5) =~= seq![exemplar.trace_id@]);
    assert(fixed64s_of(fields, 3) =~= fixed64s_of(
        otlp_metrics::exemplar_value_field(exemplar.value),
        3,
    ));
    assert(fixed64s_of(fields, 6) =~= fixed64s_of(
        otlp_metrics::exemplar_value_field(exemplar.value),
        6,
    ));
    if bytes.len() == 0 {
        assert(bytes =~= Seq::<u8>::empty());
        assert(fields =~= Seq::<WireField>::empty());
    }
}

/// An attribute of a data point reads back with its key and its value.
pub proof fn lemma_attr_reads_back(pair: Pair)
    ensures
        ({
            let bytes = wire::message(otlp_metrics::attr_fields(pair));
            &&& read_string(bytes, 1) == pair.0
            &&& read_string(read_bytes(bytes, 2), 1) == pair.1
        }),
{
    broadcast use group_fields;

    let value = wire::opt_bytes_field(1, vstd::utf8::encode_utf8(pair.1));
    lemma_fields_in_message(otlp_metrics::attr_fields(pair));
    lemma_fields_in_message(value);
    lemma_utf8_empty(pair.0);
    lemma_utf8_empty(pair.1);
    let bytes = wire::message(otlp_metrics::attr_fields(pair));
    assert(read_bytes(bytes, 1) =~= vstd::utf8::encode_utf8(pair.0));
    assert(read_bytes(bytes, 2) =~= wire::message(value));
    assert(read_bytes(wire::message(value), 1) =~= vstd::utf8::encode_utf8(pair.1));
}

/// What the exemplar field of a data point holds.
pub open spec fn exemplar_bytes(exemplar: Option<Exemplar>) -> Seq<u8> {
    match exemplar {
        Some(ex) => wire::message(otlp_metrics::exemplar_fields(ex)),
        None => Seq::empty(),
    }
}

/// A counter's data point reads back with its times, its value, its attributes
/// and its exemplar.
pub proof fn lemma_counter_point_reads_back(point: Point<i64>, start_time: u64, time: u64)
    ensures
        ({
            let bytes = wire::message(
                otlp_metrics::counter_point_fields(point, start_time, time),
            );
            &&& bytes.len() > 0
            &&& read_fixed64(bytes, 2) == start_time
            &&& read_fixed64(bytes, 3) == time
            &&& read_fixed64(bytes, 6) == otlp_trace::twos_complement(point.value)
            &&& read_bytes(bytes, 5) == exemplar_bytes(point.exemplar)
            &&& read_repeated(bytes, 7) == nonempty(otlp_metrics::attr_bodies(point.attrs))
        }),
{
    broadcast use group_fields;

    let fields = otlp_metrics::counter_point_fields(point, start_time, time);
    let bytes = wire::message(fields);
    lemma_fields_in_message(fields);
    assert(fixed64s_of(fields, 2) =~= fixed64s_of(wire::opt_fixed64_field(2, start_time), 2));
    assert(fixed64s_of(fields, 3) =~= fixed64s_of(wire::opt_fixed64_field(3, time), 3));
    assert(fixed64s_of(fields, 6) =~= seq![otlp_trace::twos_complement(point.value)]);
    assert(
        bytes_of(fields, 5) =~= bytes_of(otlp_metrics::opt_exemplar_field(5, point.exemplar), 5)
    );
    assert(read_bytes(bytes, 5) =~= exemplar_bytes(point.exemplar));
    assert(bytes_of(fields, 7) =~= nonempty(otlp_metrics::attr_bodies(point.attrs)));
    if bytes.len() == 0 {
        assert(bytes =~= Seq::<u8>::empty());
        assert(fields =~= Seq::<WireField>::empty());
    }
}

/// A gauge's data point reads back with its times, its value, its attributes and
/// its exemplar.
pub proof fn lemma_gauge_point_reads_back(point: Point<u64>, start_time: u64, time: u64)
    ensures
        ({
            let bytes = wire::message(
                otlp_metrics::gauge_point_fields(point, start_time, time),
            );
            &&& bytes.len() > 0
            &&& read_fixed64(bytes, 2) == start_time
            &&& read_fixed64(bytes, 3) == time
            &&& read_fixed64(bytes, 4) == point.value
            &&& read_bytes(bytes, 5) == exemplar_bytes(point.exemplar)
            &&& read_repeated(bytes, 7) == nonempty(otlp_metrics::attr_bodies(point.attrs))
        }),
{
    broadcast use group_fields;

    let fields = otlp_metrics::gauge_point_fields(point, start_time, time);
    let bytes = wire::message(fields);
    lemma_fields_in_message(fields);
    assert(fixed64s_of(fields, 2) =~= fixed64s_of(wire::opt_fixed64_field(2, start_time), 2));
    assert(fixed64s_of(fields, 3) =~= fixed64s_of(wire::opt_fixed64_field(3, time), 3));
    assert(fixed64s_of(fields, 4) =~= seq![point.value]);
    assert(
        bytes_of(fields, 5) =~= bytes_of(otlp_metrics::opt_exemplar_field(5, point.exemplar), 5)
    );
    assert(read_bytes(bytes, 5) =~= exemplar_bytes(point.exemplar));
    assert(bytes_of(fields, 7) =~= nonempty(otlp_metrics::attr_bodies(point.attrs)));
    if bytes.len() == 0 {
        assert(bytes =~= Seq::<u8>::empty());
        assert(fields =~= Seq::<WireField>::empty());
    }
}

/// A histogram's data point reads back with its times, its count, sum, minimum
/// and maximum, its buckets and boundaries, its attributes and its exemplar.
pub proof fn lemma_histogram_point_reads_back(
    point: Point<HistogramPoint>,
    boundaries: Seq<u64>,
    start_time: u64,
    time: u64,
)
    ensures
        ({
            let bytes = wire::message(
                otlp_metrics::histogram_point_fields(point, boundaries, start_time, time),
            );
            &&& bytes.len() > 0
            &&& read_fixed64(bytes, 2) == start_time
            &&& read_fixed64(bytes, 3) == time
            &&& read_fixed64(bytes, 4) == point.value.count
            &&& read_fixed64(bytes, 5) == point.value.sum
            &&& read_bytes(bytes, 6) == wire::packed(point.value.bucket_counts)
            &&& read_bytes(bytes, 7) == wire::packed(boundaries)
            &&& read_bytes(bytes, 8) == exemplar_bytes(point.exemplar)
            &&& read_repeated(bytes, 9) == nonempty(otlp_metrics::attr_bodies(point.attrs))
            &&& read_fixed64(bytes, 11) == point.value.min
            &&& read_fixed64(bytes, 12) == point.value.max
        }),
{
    broadcast use group_fields;

    let fields = otlp_metrics::histogram_point_fields(point, boundaries, start_time, time);
    let bytes = wire::message(fields);
    lemma_fields_in_message(fields);
    wire::lemma_packed_len(point.value.bucket_counts);
    wire::lemma_packed_len(boundaries);
    assert(fixed64s_of(fields, 2) =~= fixed64s_of(wire::opt_fixed64_field(2, start_time), 2));
    assert(fixed64s_of(fields, 3) =~= fixed64s_of(wire::opt_fixed64_field(3, time), 3));
    assert(fixed64s_of(fields, 4) =~= seq![point.value.count]);
    assert(fixed64s_of(fields, 5) =~= seq![point.value.sum]);
    assert(bytes_of(fields, 6) =~= bytes_of(
        wire::opt_bytes_field(6, wire::packed(point.value.bucket_counts)),
        6,
    ));
    assert(read_bytes(bytes, 6) =~= wire::packed(point.value.bucket_counts));
    assert(bytes_of(fields, 7) =~= bytes_of(
        wire::opt_bytes_field(7, wire::packed(boundaries)),
        7,
    ));
    assert(read_bytes(bytes, 7) =~= wire::packed(boundaries));
    assert(bytes_of(fields, 8) =~= bytes_of(
        otlp_metrics::opt_exemplar_field(8, point.exemplar),
        8,
    ));
    assert(read_bytes(bytes, 8) =~= exemplar_bytes(point.exemplar));
    assert(bytes_of(fields, 9) =~= nonempty(otlp_metrics::attr_bodies(point.attrs)));
    assert(fixed64s_of(fields, 11) =~= seq![point.value.min]);
    assert(fixed64s_of(fields, 12) =~= seq![point.value.max]);
    if bytes.len() == 0 {
        assert(bytes =~= Seq::<u8>::empty());
        assert(fields =~= Seq::<WireField>::empty());
    }
}

/// Packed numbers can be read back: the same bytes stand for the same numbers.
pub proof fn lemma_packed_injective(a: Seq<u64>, b: Seq<u64>)
    requires
        wire::packed(a) == wire::packed(b),
    ensures
        a == b,
    decreases a.len(),
{
    wire::lemma_packed_len(a);
    wire::lemma_packed_len(b);
    if a.len() > 0 {
        let x = wire::le_bytes(a.last() as nat, 8);
        let y = wire::le_bytes(b.last() as nat, 8);
        wire::lemma_le8_reads_back(a.last());
        wire::lemma_le8_reads_back(b.last());
        wire::lemma_packed_len(a.drop_last());
        let n = 8 * (a.len() - 1);
        assert(wire::packed(a).take(n) =~= wire::packed(a.drop_last()));
        assert(wire::packed(b).take(n) =~= wire::packed(b.drop_last())) by {
            wire::lemma_packed_len(b.drop_last());
        }
        assert(wire::packed(a).skip(n) =~= x);
        assert(wire::packed(b).skip(n) =~= y) by {
            wire::lemma_packed_len(b.drop_last());
        }
        lemma_packed_injective(a.drop_last(), b.drop_last());
        assert(a =~= a.drop_last().push(a.last()));
        assert(b =~= b.drop_last().push(b.last()));
    } else {
        assert(a =~= b);
    }
}

/// A metric reads back with its name, its description and its data points: a
/// counter's as a cumulative monotonic sum, a gauge's as a gauge, a histogram's
/// as a cumulative histogram.
pub proof fn lemma_metric_reads_back(snapshot: SnapshotModel, start_time: u64, time: u64)
    ensures
        ({
            let bytes = wire::message(
                otlp_metrics::metric_fields(snapshot, start_time, time),
            );
            match snapshot {
                SnapshotModel::Counter { name, description, counts } => {
                    &&& read_string(bytes, 1) == name
                    &&& read_string(bytes, 2) == description
                    &&& read_bytes(bytes, 5).len() == 0
                    &&& read_bytes(bytes, 9).len() == 0
                    &&& read_repeated(read_bytes(bytes, 7), 1)
                        == otlp_metrics::counter_point_bodies(counts, start_time, time)
                    &&& read_varint(read_bytes(bytes, 7), 2) == 2
                    &&& read_varint(read_bytes(bytes, 7), 3) == 1
                },
                SnapshotModel::Gauge { name, description, values } => {
                    &&& read_string(bytes, 1) == name
                    &&& read_string(bytes, 2) == description
                    &&& read_bytes(bytes, 7).len() == 0
                    &&& read_bytes(bytes, 9).len() == 0
                    &&& read_repeated(read_bytes(bytes, 5), 1)
                        == otlp_metrics::gauge_point_bodies(values, start_time, time)
                },
                SnapshotModel::Histogram { name, description, boundaries, distributions } => {
                    &&& read_string(bytes, 1) == name
                    &&& read_string(bytes, 2) == description
                    &&& read_bytes(bytes, 5).len() == 0
                    &&& read_bytes(bytes, 7).len() == 0
                    &&& read_repeated(read_bytes(bytes, 9), 1)
                        == otlp_metrics::histogram_point_bodies(
                        distributions,
                        boundaries,
                        start_time,
                        time,
                    )
                    &&& read_varint(read_bytes(bytes, 9), 2) == 2
                },
            }
        }),
{
    match snapshot {
        SnapshotModel::Counter { name, description, counts } => {
            let body = wire::message(otlp_metrics::sum_fields(counts, start_time, time));
            lemma_metric_head_reads_back(name, description, 7, body);
            lemma_sum_reads_back(counts, start_time, time);
        },
        SnapshotModel::Gauge { name, description, values } => {
            let body = wire::message(otlp_metrics::gauge_fields(values, start_time, time));
            lemma_metric_head_reads_back(name, description, 5, body);
            lemma_gauge_reads_back(values, start_time, time);
        },
        SnapshotModel::Histogram { name, description, boundaries, distributions } => {
            let body = wire::message(
                otlp_metrics::histogram_fields(distributions, boundaries, start_time, time),
            );
            lemma_metric_head_reads_back(name, description, 9, body);
            lemma_histogram_reads_back(distributions, boundaries, start_time, time);
        },
    }
}

proof fn lemma_metric_head_reads_back(
    name: Seq<char>,
    description: Seq<char>,
    number: u32,
    body: Seq<u8>,
)
    requires
        number > 2,
    ensures
        ({
            let bytes = wire::message(
                otlp_metrics::metric_head(name, description) + wire::opt_bytes_field(
                    number,
                    body,
                ),
            );
            &&& read_string(bytes, 1) == name
            &&& read_string(bytes, 2) == description
            &&& read_bytes(bytes, number) == body
            &&& forall|other: u32|
                2 < other && other != number ==> (#[trigger] read_bytes(bytes, other)).len() == 0
        }),
{
    broadcast use group_fields;

    let fields = otlp_metrics::metric_head(name, description) + wire::opt_bytes_field(
        number,
        body,
    );
    let bytes = wire::message(fields);
    lemma_fields_in_message(fields);
    lemma_utf8_empty(name);
    lemma_utf8_empty(description);
    assert(read_bytes(bytes, 1) =~= vstd::utf8::encode_utf8(name));
    assert(read_bytes(bytes, 2) =~= vstd::utf8::encode_utf8(description));
    assert(read_bytes(bytes, number) =~= body);
    assert forall|other: u32| 2 < other && other != number implies (#[trigger] read_bytes(
        bytes,
        other,
    )).len() == 0 by {
        assert(bytes_of(fields, other) =~= Seq::<Seq<u8>>::empty());
    }
}

proof fn lemma_sum_reads_back(points: Seq<Point<i64>>, start_time: u64, time: u64)
    ensures
        ({
            let bytes = wire::message(otlp_metrics::sum_fields(points, start_time, time));
            &&& read_repeated(bytes, 1) == otlp_metrics::counter_point_bodies(
                points,
                start_time,
                time,
            )
            &&& read_varint(bytes, 2) == 2
            &&& read_varint(bytes, 3) == 1
        }),
{
    broadcast use group_fields;

    let fields = otlp_metrics::sum_fields(points, start_time, time);
    let bodies = otlp_metrics::counter_point_bodies(points, start_time, time);
    lemma_fields_in_message(fields);
    assert forall|i: int| 0 <= i < bodies.len() implies (#[trigger] bodies[i]).len() > 0 by {
        lemma_counter_point_reads_back(points[i], start_time, time);
    }
    lemma_nonempty_all(bodies);
    assert(bytes_of(fields, 1) =~= bodies);
    assert(varints_of(fields, 2) =~= seq![2u64]);
    assert(varints_of(fields, 3) =~= seq![1u64]);
}

proof fn lemma_gauge_reads_back(points: Seq<Point<u64>>, start_time: u64, time: u64)
    ensures
        read_repeated(wire::message(otlp_metrics::gauge_fields(points, start_time, time)), 1)
            == otlp_metrics::gauge_point_bodies(points, start_time, time),
{
    broadcast use group_fields;

    let bodies = otlp_metrics::gauge_point_bodies(points, start_time, time);
    lemma_fields_in_message(otlp_metrics::gauge_fields(points, start_time, time));
    assert forall|i: int| 0 <= i < bodies.len() implies (#[trigger] bodies[i]).len() > 0 by {
        lemma_gauge_point_reads_back(points[i], start_time, time);
    }
    lemma_nonempty_all(bodies);
}

proof fn lemma_histogram_reads_back(
    points: Seq<Point<HistogramPoint>>,
    boundaries: Seq<u64>,
    start_time: u64,
    time: u64,
)
    ensures
        ({
            let bytes = wire::message(
                otlp_metrics::histogram_fields(points, boundaries, start_time, time),
            );
            &&& read_repeated(bytes, 1) == otlp_metrics::histogram_point_bodies(
                points,
                boundaries,
                start_time,
                time,
            )
            &&& read_varint(bytes, 2) == 2
        }),
{
    broadcast use group_fields;

    let fields = otlp_metrics::histogram_fields(points, boundaries, start_time, time);
    let bodies = otlp_metrics::histogram_point_bodies(points, boundaries, start_time, time);
    lemma_fields_in_message(fields);
    assert forall|i: int| 0 <= i < bodies.len() implies (#[trigger] bodies[i]).len() > 0 by {
        lemma_histogram_point_reads_back(points[i], boundaries, start_time, time);
    }
    lemma_nonempty_all(bodies);
    assert(bytes_of(fields, 1) =~= bodies);
    assert(varints_of(fields, 2) =~= seq![2u64]);
}

/// Whether an attribute leaves nothing on the wire: its key is empty, and so is its value.
pub open spec fn blank(kv: KeyValueModel) -> bool {
    kv.key.len() == 0 && value_meaning(kv.value) == ReadValue::Absent
}

/// Whether messages are these attributes, one for one and in order. Blank attributes have none.
pub open spec fn tell_attrs(entries: Seq<Seq<u8>>, attrs: Seq<KeyValueModel>) -> bool {
    let shown = attrs.filter(|kv: KeyValueModel| !blank(kv));
    &&& entries.len() == shown.len()
    &&& forall|i: int| #![trigger entries[i]]
        0 <= i < entries.len() ==> {
            &&& read_string(entries[i], 1) == shown[i].key
            &&& read_any_value(read_bytes(entries[i], 2)) == value_meaning(shown[i].value)
        }
}

/// Where every attribute has a key, all of them are told.
pub proof fn lemma_named_attrs_are_told(entries: Seq<Seq<u8>>, attrs: Seq<KeyValueModel>)
    requires
        tell_attrs(entries, attrs),
        forall|i: int| 0 <= i < attrs.len() ==> (#[trigger] attrs[i]).key.len() > 0,
    ensures
        entries.len() == attrs.len(),
        forall|i: int| #![trigger entries[i]]
            0 <= i < entries.len() ==> {
                &&& read_string(entries[i], 1) == attrs[i].key
                &&& read_any_value(read_bytes(entries[i], 2)) == value_meaning(attrs[i].value)
            },
{
    lemma_filter_all(attrs, |kv: KeyValueModel| !blank(kv));
}

/// A filter that lets everything pass changes nothing.
proof fn lemma_filter_all<T>(items: Seq<T>, keeps: spec_fn(T) -> bool)
    requires
        forall|i: int| 0 <= i < items.len() ==> keeps(#[trigger] items[i]),
    ensures
        items.filter(keeps) == items,
    decreases items.len(),
{
    reveal(Seq::filter);
    if items.len() > 0 {
        lemma_filter_all(items.drop_last(), keeps);
        assert(items.drop_last().push(items.last()) =~= items);
    }
}

/// A message is empty exactly where it has no fields.
proof fn lemma_message_empty(fields: Seq<WireField>)
    ensures
        wire::message(fields).len() == 0 <==> fields.len() == 0,
{
    wire::lemma_message_reads_back(fields);
    if wire::message(fields).len() == 0 {
        assert(wire::message(fields) =~= Seq::<u8>::empty());
    }
}

/// Only blank attributes are left out.
proof fn lemma_blank(kv: KeyValueModel)
    ensures
        wire::message(otlp_trace::key_value_fields(kv)).len() == 0 <==> blank(kv),
{
    lemma_message_empty(otlp_trace::key_value_fields(kv));
    lemma_message_empty(otlp_trace::any_value_fields(kv.value));
    lemma_utf8_empty(kv.key);
    if let ValueModel::String(s) = kv.value {
        lemma_utf8_empty(s);
    }
}

/// Encoded attributes tell the attributes.
proof fn lemma_attrs_told(attrs: Seq<KeyValueModel>)
    ensures
        tell_attrs(nonempty(otlp_trace::key_value_bodies(attrs)), attrs),
    decreases attrs.len(),
{
    reveal(Seq::filter);
    let bodies = otlp_trace::key_value_bodies(attrs);
    if attrs.len() > 0 {
        let init = attrs.drop_last();
        lemma_attrs_told(init);
        assert(bodies.drop_last() =~= otlp_trace::key_value_bodies(init));
        lemma_blank(attrs.last());
        lemma_key_value_reads_back(attrs.last());
        assert(bodies.last() == wire::message(otlp_trace::key_value_fields(attrs.last())));
    }
}

/// Whether a request has this resource and this scope: `outer` is the message in its only field.
pub open spec fn tells_origin(
    outer: Seq<u8>,
    resource_attrs: Seq<KeyValueModel>,
    scope_name: Seq<char>,
    scope_version: Seq<char>,
) -> bool {
    &&& tell_attrs(read_repeated(read_bytes(outer, 1), 1), resource_attrs)
    &&& read_string(read_bytes(read_bytes(outer, 2), 1), 1) == scope_name
    &&& read_string(read_bytes(read_bytes(outer, 2), 1), 2) == scope_version
}

/// Whether the messages for a resource and a scope tell them.
proof fn lemma_origin_told(
    outer: Seq<u8>,
    resource_attrs: Seq<KeyValueModel>,
    scope_name: Seq<char>,
    scope_version: Seq<char>,
)
    requires
        read_bytes(outer, 1) == wire::message(otlp_trace::resource_fields(resource_attrs)),
        read_bytes(read_bytes(outer, 2), 1) == wire::message(
            otlp_trace::scope_fields(scope_name, scope_version),
        ),
    ensures
        tells_origin(outer, resource_attrs, scope_name, scope_version),
{
    lemma_resource_reads_back(resource_attrs);
    lemma_attrs_told(resource_attrs);
    lemma_scope_names_read_back(scope_name, scope_version);
}

/// Whether a message is a span with this content.
pub open spec fn tells_span(bytes: Seq<u8>, span: SpanModel) -> bool {
    &&& read_bytes(bytes, 1) == span.trace_id
    &&& read_bytes(bytes, 2) == span.span_id
    &&& read_bytes(bytes, 4) == span.parent_span_id
    &&& read_string(bytes, 5) == span.name
    &&& read_varint(bytes, 6) == (match span.kind {
        SpanKind::Unspecified => 0,
        SpanKind::Internal => 1,
        SpanKind::Server => 2,
        SpanKind::Client => 3,
        SpanKind::Producer => 4,
        SpanKind::Consumer => 5u64,
    })
    &&& read_fixed64(bytes, 7) == span.start_time_unix_nano
    &&& read_fixed64(bytes, 8) == span.end_time_unix_nano
    &&& tell_attrs(read_repeated(bytes, 9), span.attributes)
    &&& match span.status {
        Some(status) => {
            &&& read_string(read_bytes(bytes, 15), 2) == status.message
            &&& read_varint(read_bytes(bytes, 15), 3) == (match status.code {
                StatusCode::Unset => 0,
                StatusCode::Okay => 1,
                StatusCode::Error => 2u64,
            })
        },
        None => read_repeated(bytes, 15).len() == 0,
    }
}

/// Whether a message is a log record with this content.
pub open spec fn tells_log(bytes: Seq<u8>, log: LogModel) -> bool {
    &&& read_fixed64(bytes, 1) == log.time_unix_nano
    &&& read_varint(bytes, 2) == (match log.severity_number {
        SeverityNumber::Trace => 1,
        SeverityNumber::Debug => 5,
        SeverityNumber::Info => 9,
        SeverityNumber::Warn => 13,
        SeverityNumber::Error => 17,
        SeverityNumber::Fatal => 21u64,
    })
    &&& read_string(bytes, 3) == log.severity_text
    &&& read_any_value(read_bytes(bytes, 5)) == value_meaning(log.body)
    &&& tell_attrs(read_repeated(bytes, 6), log.attributes)
    &&& read_bytes(bytes, 9) == log.trace_id
    &&& read_bytes(bytes, 10) == log.span_id
}

/// An encoded span tells the span.
proof fn lemma_span_told(span: SpanModel)
    requires
        span.trace_id.len() == 16,
        span.span_id.len() == 8,
        span.parent_span_id.len() == 8,
    ensures
        tells_span(wire::message(otlp_trace::span_fields(span)), span),
{
    broadcast use group_fields;

    let fields = otlp_trace::span_fields(span);
    lemma_span_reads_back(span);
    lemma_attrs_told(span.attributes);
    lemma_fields_in_message(fields);
    match span.status {
        Some(status) => lemma_status_reads_back(status),
        None => {
            assert(bytes_of(fields, 15) =~= Seq::<Seq<u8>>::empty());
        },
    }
}

/// An encoded log record tells the record.
proof fn lemma_log_told(log: LogModel)
    requires
        log.trace_id.len() == 16,
        log.span_id.len() == 8,
    ensures
        tells_log(wire::message(otlp_log::log_fields(log)), log),
{
    lemma_log_reads_back(log);
    lemma_attrs_told(log.attributes);
}

/// A trace request tells its resource, its scope and every span, in order and down to the last
/// attribute.
pub proof fn lemma_trace_request_tells(
    resource_attrs: Seq<KeyValueModel>,
    scope_name: Seq<char>,
    scope_version: Seq<char>,
    spans: Seq<SpanModel>,
)
    requires
        forall|i: int|
            0 <= i < spans.len() ==> (#[trigger] spans[i]).trace_id.len() == 16
                && spans[i].span_id.len() == 8 && spans[i].parent_span_id.len() == 8,
    ensures
        ({
            let request = wire::message(
                otlp_trace::trace_request_fields(
                    resource_attrs,
                    scope_name,
                    scope_version,
                    spans,
                ),
            );
            let outer = read_bytes(request, 1);
            let entries = read_repeated(read_bytes(outer, 2), 2);
            &&& tells_origin(outer, resource_attrs, scope_name, scope_version)
            &&& entries.len() == spans.len()
            &&& forall|i: int|
                0 <= i < spans.len() ==> tells_span(#[trigger] entries[i], spans[i])
        }),
{
    let request = wire::message(
        otlp_trace::trace_request_fields(resource_attrs, scope_name, scope_version, spans),
    );
    let outer = read_bytes(request, 1);
    let entries = read_repeated(read_bytes(outer, 2), 2);
    lemma_trace_request_reads_back(resource_attrs, scope_name, scope_version, spans);
    lemma_origin_told(outer, resource_attrs, scope_name, scope_version);
    assert forall|i: int| 0 <= i < spans.len() implies tells_span(
        #[trigger] entries[i],
        spans[i],
    ) by {
        lemma_span_told(spans[i]);
    }
}

/// A logs request tells its resource, its scope and every record, in order and down to the last
/// attribute.
pub proof fn lemma_logs_request_tells(
    resource_attrs: Seq<KeyValueModel>,
    scope_name: Seq<char>,
    scope_version: Seq<char>,
    logs: Seq<LogModel>,
)
    requires
        forall|i: int|
            0 <= i < logs.len() ==> (#[trigger] logs[i]).trace_id.len() == 16
                && logs[i].span_id.len() == 8,
    ensures
        ({
            let request = wire::message(
                otlp_log::logs_request_fields(resource_attrs, scope_name, scope_version, logs),
            );
            let outer = read_bytes(request, 1);
            let entries = read_repeated(read_bytes(outer, 2), 2);
            &&& tells_origin(outer, resource_attrs, scope_name, scope_version)
            &&& entries.len() == logs.len()
            &&& forall|i: int| 0 <= i < logs.len() ==> tells_log(#[trigger] entries[i], logs[i])
        }),
{
    let request = wire::message(
        otlp_log::logs_request_fields(resource_attrs, scope_name, scope_version, logs),
    );
    let outer = read_bytes(request, 1);
    let entries = read_repeated(read_bytes(outer, 2), 2);
    lemma_logs_request_reads_back(resource_attrs, scope_name, scope_version, logs);
    lemma_origin_told(outer, resource_attrs, scope_name, scope_version);
    assert forall|i: int| 0 <= i < logs.len() implies tells_log(#[trigger] entries[i], logs[i]) by {
        lemma_log_told(logs[i]);
    }
}

/// The signed number with these bits.
pub open spec fn signed(bits: u64) -> int {
    if bits < 0x8000_0000_0000_0000 {
        bits as int
    } else {
        bits - 0x1_0000_0000_0000_0000
    }
}

/// Whether messages are these pairs, one for one and in order. A pair of empty texts has none.
pub open spec fn tell_pairs(entries: Seq<Seq<u8>>, pairs: Seq<Pair>) -> bool {
    let shown = pairs.filter(|pair: Pair| pair.0.len() > 0 || pair.1.len() > 0);
    &&& entries.len() == shown.len()
    &&& forall|i: int| #![trigger entries[i]]
        0 <= i < entries.len() ==> {
            &&& read_string(entries[i], 1) == shown[i].0
            &&& read_string(read_bytes(entries[i], 2), 1) == shown[i].1
        }
}

/// Encoded pairs tell the pairs.
proof fn lemma_pairs_told(pairs: Seq<Pair>)
    ensures
        tell_pairs(nonempty(otlp_metrics::attr_bodies(pairs)), pairs),
    decreases pairs.len(),
{
    reveal(Seq::filter);
    let bodies = otlp_metrics::attr_bodies(pairs);
    if pairs.len() > 0 {
        let init = pairs.drop_last();
        let last = pairs.last();
        lemma_pairs_told(init);
        assert(bodies.drop_last() =~= otlp_metrics::attr_bodies(init));
        lemma_attr_reads_back(last);
        lemma_message_empty(otlp_metrics::attr_fields(last));
        lemma_message_empty(wire::opt_bytes_field(1, vstd::utf8::encode_utf8(last.1)));
        lemma_utf8_empty(last.0);
        lemma_utf8_empty(last.1);
        assert(bodies.last() == wire::message(otlp_metrics::attr_fields(last)));
    }
}

/// Whether messages are this exemplar, and there is none where it is not given.
pub open spec fn tell_exemplar(entries: Seq<Seq<u8>>, exemplar: Option<Exemplar>) -> bool {
    match exemplar {
        Some(exemplar) => {
            &&& entries.len() == 1
            &&& read_fixed64(entries[0], 2) == exemplar.time_unix_nano
            &&& read_bytes(entries[0], 4) == exemplar.span_id@
            &&& read_bytes(entries[0], 5) == exemplar.trace_id@
            &&& match exemplar.value {
                ExemplarValue::Double(bits) => fixed64s_of(fields_in(entries[0]), 3) == seq![bits]
                    && fixed64s_of(fields_in(entries[0]), 6).len() == 0,
                ExemplarValue::Int(v) => {
                    &&& fixed64s_of(fields_in(entries[0]), 3).len() == 0
                    &&& fixed64s_of(fields_in(entries[0]), 6).len() == 1
                    &&& signed(fixed64s_of(fields_in(entries[0]), 6)[0]) == v
                },
            }
        },
        None => entries.len() == 0,
    }
}

/// An encoded exemplar tells the exemplar.
proof fn lemma_exemplar_told(number: u32, exemplar: Option<Exemplar>)
    ensures
        tell_exemplar(
            bytes_of(otlp_metrics::opt_exemplar_field(number, exemplar), number),
            exemplar,
        ),
{
    broadcast use group_fields;

    if let Some(ex) = exemplar {
        lemma_exemplar_reads_back(ex);
        assert(bytes_of(otlp_metrics::opt_exemplar_field(number, exemplar), number) =~= seq![
            wire::message(otlp_metrics::exemplar_fields(ex)),
        ]);
    }
}

/// The times of a data point, its attributes and its exemplar, which stand in these fields.
pub open spec fn tells_point<T>(
    bytes: Seq<u8>,
    point: Point<T>,
    start_time: u64,
    time: u64,
    attrs_number: u32,
    exemplar_number: u32,
) -> bool {
    &&& read_fixed64(bytes, 2) == start_time
    &&& read_fixed64(bytes, 3) == time
    &&& tell_pairs(read_repeated(bytes, attrs_number), point.attrs)
    &&& tell_exemplar(read_repeated(bytes, exemplar_number), point.exemplar)
}

/// Whether a message is a data point with this count of a counter.
pub open spec fn tells_count(bytes: Seq<u8>, point: Point<i64>, start: u64, time: u64) -> bool {
    &&& tells_point(bytes, point, start, time, 7, 5)
    &&& signed(read_fixed64(bytes, 6)) == point.value
    &&& fixed64s_of(fields_in(bytes), 4).len() == 0
}

/// Whether a message is a data point with this value of a gauge.
pub open spec fn tells_value(bytes: Seq<u8>, point: Point<u64>, start: u64, time: u64) -> bool {
    &&& tells_point(bytes, point, start, time, 7, 5)
    &&& read_fixed64(bytes, 4) == point.value
    &&& fixed64s_of(fields_in(bytes), 6).len() == 0
}

/// Whether a message is a data point with this distribution of a histogram.
pub open spec fn tells_distribution(
    bytes: Seq<u8>,
    point: Point<HistogramPoint>,
    boundaries: Seq<u64>,
    start: u64,
    time: u64,
) -> bool {
    &&& tells_point(bytes, point, start, time, 9, 8)
    &&& read_fixed64(bytes, 4) == point.value.count
    &&& read_fixed64(bytes, 5) == point.value.sum
    &&& unpacked(read_bytes(bytes, 6)) == point.value.bucket_counts
    &&& unpacked(read_bytes(bytes, 7)) == boundaries
    &&& read_fixed64(bytes, 11) == point.value.min
    &&& read_fixed64(bytes, 12) == point.value.max
}

/// The numbers in a string of eight-byte little-endian numbers.
pub open spec fn unpacked(bytes: Seq<u8>) -> Seq<u64> {
    Seq::new(
        bytes.len() / 8,
        |i: int| wire::le_value(bytes.subrange(8 * i, 8 * i + 8)) as u64,
    )
}

/// Packed numbers read back.
proof fn lemma_unpacked(values: Seq<u64>)
    ensures
        unpacked(wire::packed(values)) == values,
    decreases values.len(),
{
    let bytes = wire::packed(values);
    wire::lemma_packed_len(values);
    if values.len() > 0 {
        let init = values.drop_last();
        let front = wire::packed(init);
        wire::lemma_packed_len(init);
        wire::lemma_le8_reads_back(values.last());
        lemma_unpacked(init);
        assert forall|i: int| 0 <= i < values.len() implies #[trigger] unpacked(bytes)[i]
            == values[i] by {
            if i < init.len() {
                assert(bytes.subrange(8 * i, 8 * i + 8) =~= front.subrange(8 * i, 8 * i + 8));
                assert(unpacked(front)[i] == init[i]);
            } else {
                assert(bytes.subrange(8 * i, 8 * i + 8) =~= wire::le_bytes(
                    values.last() as nat,
                    8,
                ));
            }
        }
    }
    assert(unpacked(bytes) =~= values);
}

/// An encoded data point of a counter tells the data point.
proof fn lemma_count_told(point: Point<i64>, start: u64, time: u64)
    ensures
        tells_count(
            wire::message(otlp_metrics::counter_point_fields(point, start, time)),
            point,
            start,
            time,
        ),
{
    broadcast use group_fields;

    let fields = otlp_metrics::counter_point_fields(point, start, time);
    lemma_counter_point_reads_back(point, start, time);
    lemma_pairs_told(point.attrs);
    lemma_exemplar_told(5, point.exemplar);
    lemma_fields_in_message(fields);
    assert(bytes_of(fields, 5) =~= bytes_of(
        otlp_metrics::opt_exemplar_field(5, point.exemplar),
        5,
    ));
    assert(fixed64s_of(fields, 4) =~= Seq::<u64>::empty());
}

/// An encoded data point of a gauge tells the data point.
proof fn lemma_value_told(point: Point<u64>, start: u64, time: u64)
    ensures
        tells_value(
            wire::message(otlp_metrics::gauge_point_fields(point, start, time)),
            point,
            start,
            time,
        ),
{
    broadcast use group_fields;

    let fields = otlp_metrics::gauge_point_fields(point, start, time);
    lemma_gauge_point_reads_back(point, start, time);
    lemma_pairs_told(point.attrs);
    lemma_exemplar_told(5, point.exemplar);
    lemma_fields_in_message(fields);
    assert(bytes_of(fields, 5) =~= bytes_of(
        otlp_metrics::opt_exemplar_field(5, point.exemplar),
        5,
    ));
    assert(fixed64s_of(fields, 6) =~= Seq::<u64>::empty());
}

/// An encoded data point of a histogram tells the data point.
proof fn lemma_distribution_told(
    point: Point<HistogramPoint>,
    boundaries: Seq<u64>,
    start: u64,
    time: u64,
)
    ensures
        tells_distribution(
            wire::message(
                otlp_metrics::histogram_point_fields(point, boundaries, start, time),
            ),
            point,
            boundaries,
            start,
            time,
        ),
{
    broadcast use group_fields;

    let fields = otlp_metrics::histogram_point_fields(point, boundaries, start, time);
    lemma_histogram_point_reads_back(point, boundaries, start, time);
    lemma_pairs_told(point.attrs);
    lemma_exemplar_told(8, point.exemplar);
    lemma_unpacked(point.value.bucket_counts);
    lemma_unpacked(boundaries);
    lemma_fields_in_message(fields);
    assert(bytes_of(fields, 8) =~= bytes_of(
        otlp_metrics::opt_exemplar_field(8, point.exemplar),
        8,
    ));
}

/// Whether a message is a metric with this name, this description and these data points: a
/// counter as a cumulative monotonic sum, a gauge as a gauge, a histogram as a cumulative
/// histogram.
pub open spec fn tells_metric(
    bytes: Seq<u8>,
    snapshot: SnapshotModel,
    start: u64,
    time: u64,
) -> bool {
    match snapshot {
        SnapshotModel::Counter { name, description, counts } => {
            let entries = read_repeated(read_bytes(bytes, 7), 1);
            &&& read_string(bytes, 1) == name
            &&& read_string(bytes, 2) == description
            &&& read_bytes(bytes, 5).len() == 0
            &&& read_bytes(bytes, 9).len() == 0
            &&& read_varint(read_bytes(bytes, 7), 2) == 2
            &&& read_varint(read_bytes(bytes, 7), 3) == 1
            &&& entries.len() == counts.len()
            &&& forall|i: int|
                0 <= i < counts.len() ==> tells_count(#[trigger] entries[i], counts[i], start, time)
        },
        SnapshotModel::Gauge { name, description, values } => {
            let entries = read_repeated(read_bytes(bytes, 5), 1);
            &&& read_string(bytes, 1) == name
            &&& read_string(bytes, 2) == description
            &&& read_bytes(bytes, 7).len() == 0
            &&& read_bytes(bytes, 9).len() == 0
            &&& entries.len() == values.len()
            &&& forall|i: int|
                0 <= i < values.len() ==> tells_value(#[trigger] entries[i], values[i], start, time)
        },
        SnapshotModel::Histogram { name, description, boundaries, distributions } => {
            let entries = read_repeated(read_bytes(bytes, 9), 1);
            &&& read_string(bytes, 1) == name
            &&& read_string(bytes, 2) == description
            &&& read_bytes(bytes, 5).len() == 0
            &&& read_bytes(bytes, 7).len() == 0
            &&& read_varint(read_bytes(bytes, 9), 2) == 2
            &&& entries.len() == distributions.len()
            &&& forall|i: int|
                0 <= i < distributions.len() ==> tells_distribution(
                    #[trigger] entries[i],
                    distributions[i],
                    boundaries,
                    start,
                    time,
                )
        },
    }
}

/// How many data points a snapshot has.
pub open spec fn data_points(snapshot: SnapshotModel) -> nat {
    match snapshot {
        SnapshotModel::Counter { name, description, counts } => counts.len(),
        SnapshotModel::Gauge { name, description, values } => values.len(),
        SnapshotModel::Histogram { name, description, boundaries, distributions } =>
            distributions.len(),
    }
}

/// An encoded metric tells the metric.
proof fn lemma_metric_told(snapshot: SnapshotModel, start: u64, time: u64)
    requires
        data_points(snapshot) > 0,
    ensures
        wire::message(otlp_metrics::metric_fields(snapshot, start, time)).len() > 0,
        tells_metric(
            wire::message(otlp_metrics::metric_fields(snapshot, start, time)),
            snapshot,
            start,
            time,
        ),
{
    let bytes = wire::message(otlp_metrics::metric_fields(snapshot, start, time));
    lemma_metric_reads_back(snapshot, start, time);
    match snapshot {
        SnapshotModel::Counter { name, description, counts } => {
            let entries = read_repeated(read_bytes(bytes, 7), 1);
            assert forall|i: int| 0 <= i < counts.len() implies tells_count(
                #[trigger] entries[i],
                counts[i],
                start,
                time,
            ) by {
                lemma_count_told(counts[i], start, time);
            }
        },
        SnapshotModel::Gauge { name, description, values } => {
            let entries = read_repeated(read_bytes(bytes, 5), 1);
            assert forall|i: int| 0 <= i < values.len() implies tells_value(
                #[trigger] entries[i],
                values[i],
                start,
                time,
            ) by {
                lemma_value_told(values[i], start, time);
            }
        },
        SnapshotModel::Histogram { name, description, boundaries, distributions } => {
            let entries = read_repeated(read_bytes(bytes, 9), 1);
            assert forall|i: int| 0 <= i < distributions.len() implies tells_distribution(
                #[trigger] entries[i],
                distributions[i],
                boundaries,
                start,
                time,
            ) by {
                lemma_distribution_told(distributions[i], boundaries, start, time);
            }
        },
    }
    if bytes.len() == 0 {
        assert(bytes =~= Seq::<u8>::empty());
        lemma_nothing_read();
    }
}

/// A reader finds nothing in no bytes.
proof fn lemma_nothing_read()
    ensures
        forall|number: u32| (#[trigger] read_bytes(Seq::empty(), number)).len() == 0,
        forall|number: u32| (#[trigger] read_repeated(Seq::empty(), number)).len() == 0,
{
    assert(fields_in(Seq::empty()) =~= Seq::<WireField>::empty());
    assert forall|number: u32| (#[trigger] read_bytes(Seq::empty(), number)).len() == 0 by {
        assert(bytes_of(Seq::empty(), number) =~= Seq::<Seq<u8>>::empty());
    }
    assert forall|number: u32| (#[trigger] read_repeated(Seq::empty(), number)).len() == 0 by {
        assert(bytes_of(Seq::empty(), number) =~= Seq::<Seq<u8>>::empty());
    }
}

/// A metrics request tells its resource, its scope and every metric, in order and down to the
/// last data point.
pub proof fn lemma_metrics_request_tells(
    resource_attrs: Seq<KeyValueModel>,
    scope_name: Seq<char>,
    scope_version: Seq<char>,
    snapshots: Seq<SnapshotModel>,
    start: u64,
    time: u64,
)
    requires
        forall|i: int|
            0 <= i < snapshots.len() ==> data_points(#[trigger] snapshots[i]) > 0,
    ensures
        ({
            let request = wire::message(
                otlp_metrics::metrics_request_fields(
                    resource_attrs,
                    scope_name,
                    scope_version,
                    snapshots,
                    start,
                    time,
                ),
            );
            let outer = read_bytes(request, 1);
            let entries = read_repeated(read_bytes(outer, 2), 2);
            &&& tells_origin(outer, resource_attrs, scope_name, scope_version)
            &&& entries.len() == snapshots.len()
            &&& forall|i: int|
                0 <= i < snapshots.len() ==> tells_metric(
                    #[trigger] entries[i],
                    snapshots[i],
                    start,
                    time,
                )
        }),
{
    let request = wire::message(
        otlp_metrics::metrics_request_fields(
            resource_attrs,
            scope_name,
            scope_version,
            snapshots,
            start,
            time,
        ),
    );
    let outer = read_bytes(request, 1);
    let bodies = otlp_metrics::metric_bodies(snapshots, start, time);
    lemma_metrics_request_reads_back(
        resource_attrs,
        scope_name,
        scope_version,
        snapshots,
        start,
        time,
    );
    lemma_origin_told(outer, resource_attrs, scope_name, scope_version);
    assert forall|i: int| 0 <= i < bodies.len() implies (#[trigger] bodies[i]).len() > 0
        && tells_metric(bodies[i], snapshots[i], start, time) by {
        assert(data_points(snapshots[i]) > 0);
        lemma_metric_told(snapshots[i], start, time);
    }
    lemma_nonempty_all(bodies);
}

} // verus!
