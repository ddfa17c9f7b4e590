//! How long encoded requests are, so that one that is too long to be written can be
//! told before it is.
//!
//! Lengths are computed up to [`MAX_MESSAGE_LEN`]; anything longer counts as that.

use vstd::prelude::*;

use crate::attrs;
use crate::metrics::{
    CounterDataPoint, Exemplar, ExemplarValue, GaugeDataPoint, HistogramDataPoint, MetricSnapshot,
};
use crate::metrics_model as model;
use crate::otlp_log;
use crate::otlp_log::LogData;
use crate::otlp_metrics;
use crate::otlp_trace;
use crate::otlp_trace::{AnyValue, KeyValue, SpanData, SpanStatus};
use crate::proto::MAX_MESSAGE_LEN;
use crate::wire;
use crate::wire::WireField;

verus! {

/// A length, or the limit where it is greater.
pub open spec fn capped(n: nat) -> nat {
    if n < MAX_MESSAGE_LEN {
        n
    } else {
        MAX_MESSAGE_LEN as nat
    }
}

/// The length of a length-delimited field with a number below 16 and a payload of this
/// length.
pub open spec fn bytes_field_len(payload: nat) -> nat {
    if payload == 0 {
        0
    } else {
        1 + wire::varint(payload).len() + payload
    }
}

/// The length of a message, up to the limit.
pub open spec fn size(fields: Seq<WireField>) -> nat {
    capped(wire::message(fields).len())
}

proof fn lemma_tag_len(number: u32, wire_type: nat)
    requires
        number < 16,
        wire_type < 8,
    ensures
        wire::tag(number, wire_type).len() == 1,
{
    wire::lemma_varint_len(number as nat * 8 + wire_type);
}

proof fn lemma_bytes_field(number: u32, data: Seq<u8>)
    requires
        number < 16,
    ensures
        wire::message(wire::opt_bytes_field(number, data)).len() == bytes_field_len(data.len()),
        size(wire::opt_bytes_field(number, data)) == capped(bytes_field_len(capped(data.len()))),
{
    lemma_tag_len(number, 2);
    if data.len() > 0 {
        wire::lemma_message_one(wire::opt_bytes_field(number, data)[0]);
    }
}

proof fn lemma_varint_field(number: u32, val: u64)
    requires
        number < 16,
    ensures
        wire::message(wire::varint_field(number, val)).len() == 1 + wire::varint(
            val as nat,
        ).len() <= 11,
{
    lemma_tag_len(number, 0);
    wire::lemma_message_one(wire::varint_field(number, val)[0]);
    wire::lemma_varint_at_most_ten_bytes(val);
}

proof fn lemma_fixed64_field(number: u32, val: u64)
    requires
        number < 16,
    ensures
        wire::message(wire::fixed64_field(number, val)).len() == 9,
{
    lemma_tag_len(number, 1);
    wire::lemma_fixed64_field_len(number, val);
}

/// The length of a message of two parts is the sum of their lengths.
proof fn lemma_size_concat(a: Seq<WireField>, b: Seq<WireField>)
    ensures
        size(a + b) == capped(size(a) + size(b)),
{
    wire::lemma_message_concat(a, b);
}

/// A sum, up to the limit.
fn plus(a: u64, b: u64) -> (r: u64)
    requires
        a <= MAX_MESSAGE_LEN,
        b <= MAX_MESSAGE_LEN,
    ensures
        r == capped(a as nat + b as nat),
{
    if a + b < MAX_MESSAGE_LEN {
        a + b
    } else {
        MAX_MESSAGE_LEN
    }
}

/// The length of a varint.
fn varint_size(val: u64) -> (n: u64)
    ensures
        n == wire::varint(val as nat).len(),
        1 <= n <= 10,
{
    let mut rest: u64 = val;
    let mut n: u64 = 1;
    proof {
        wire::lemma_varint_at_most_ten_bytes(val);
        wire::lemma_varint_reads_back(val as nat, Seq::empty());
    }
    while rest >= 0x80
        invariant
            1 <= n,
            n + wire::varint(rest as nat).len() == 1 + wire::varint(val as nat).len(),
            wire::varint(val as nat).len() <= 10,
            wire::varint(rest as nat).len() >= 1,
        decreases rest,
    {
        proof {
            wire::lemma_varint_reads_back((rest / 128) as nat, Seq::empty());
        }
        rest = rest / 128;
        n = n + 1;
    }
    n
}

/// The length of a length-delimited field with a payload of this length, up to the
/// limit.
fn bytes_size(payload: u64) -> (n: u64)
    ensures
        n == capped(bytes_field_len(payload as nat)),
        n == capped(bytes_field_len(capped(payload as nat))),
{
    if payload == 0 {
        0
    } else if payload >= MAX_MESSAGE_LEN {
        MAX_MESSAGE_LEN
    } else {
        let head: u64 = 1 + varint_size(payload);
        plus(head, payload)
    }
}

/// The length of a string field, up to the limit.
fn string_size(s: &str, Ghost(number): Ghost<u32>) -> (n: u64)
    requires
        number < 16,
    ensures
        n == size(wire::opt_bytes_field(number, vstd::utf8::encode_utf8(s@))),
{
    proof {
        lemma_bytes_field(number, vstd::utf8::encode_utf8(s@));
    }
    bytes_size(s.as_bytes().len() as u64)
}

/// The length of a fixed64 field that is left out where it is zero.
fn opt_fixed64_size(val: u64, Ghost(number): Ghost<u32>) -> (n: u64)
    requires
        number < 16,
    ensures
        n == size(wire::opt_fixed64_field(number, val)),
{
    proof {
        lemma_fixed64_field(number, val);
    }
    if val == 0 {
        0
    } else {
        9
    }
}

/// The length of a varint field that is left out where it is zero.
fn opt_varint_size(val: u64, Ghost(number): Ghost<u32>) -> (n: u64)
    requires
        number < 16,
    ensures
        n == size(wire::opt_varint_field(number, val)),
{
    proof {
        lemma_varint_field(number, val);
    }
    if val == 0 {
        0
    } else {
        1 + varint_size(val)
    }
}

/// The length of a nested message whose length is given.
fn nested_size(body: u64, Ghost(number): Ghost<u32>, Ghost(bytes): Ghost<Seq<u8>>) -> (n: u64)
    requires
        number < 16,
        body == capped(bytes.len()),
    ensures
        n == size(wire::opt_bytes_field(number, bytes)),
{
    proof {
        lemma_bytes_field(number, bytes);
    }
    bytes_size(body)
}

/// The length of an `AnyValue` message.
fn any_value_size(val: &AnyValue) -> (n: u64)
    ensures
        n == size(otlp_trace::any_value_fields(val@)),
{
    match val {
        AnyValue::String(s) => string_size(s, Ghost(1)),
        AnyValue::Bool(b) => {
            proof {
                lemma_varint_field(2, if *b { 1u64 } else { 0u64 });
                wire::lemma_varint_len(if *b { 1nat } else { 0nat });
            }
            2
        },
        AnyValue::Int(i) => {
            let v: i64 = *i;
            assert(v as u64 == if v >= 0 {
                v as int
            } else {
                v + 0x1_0000_0000_0000_0000
            }) by (bit_vector);
            proof {
                lemma_varint_field(3, otlp_trace::twos_complement(v));
            }
            1 + varint_size(v as u64)
        },
        AnyValue::Double(bits) => {
            proof {
                lemma_fixed64_field(4, *bits);
            }
            9
        },
        AnyValue::Bytes(b) => {
            proof {
                lemma_bytes_field(7, b@);
            }
            bytes_size(b.len() as u64)
        },
    }
}

/// The length of a `KeyValue` message.
fn key_value_size(kv: &KeyValue) -> (n: u64)
    ensures
        n == size(otlp_trace::key_value_fields(kv@)),
{
    let ghost value = wire::message(otlp_trace::any_value_fields(kv.value@));
    proof {
        lemma_size_concat(
            wire::opt_bytes_field(1, vstd::utf8::encode_utf8(kv.key@)),
            wire::opt_bytes_field(2, value),
        );
    }
    plus(
        string_size(&kv.key, Ghost(1)),
        nested_size(any_value_size(&kv.value), Ghost(2), Ghost(value)),
    )
}

/// The length of a repeated field with one entry more.
proof fn lemma_size_repeated(number: u32, bodies: Seq<Seq<u8>>, i: int)
    requires
        0 <= i < bodies.len(),
    ensures
        size(wire::repeated_field(number, bodies.take(i + 1))) == capped(
            size(wire::repeated_field(number, bodies.take(i))) + size(
                wire::opt_bytes_field(number, bodies[i]),
            ),
        ),
{
    wire::lemma_repeated_push(number, bodies, i);
    lemma_size_concat(
        wire::repeated_field(number, bodies.take(i)),
        wire::opt_bytes_field(number, bodies[i]),
    );
}

/// The length of attributes as a repeated field.
fn attributes_size(attrs: &[KeyValue], Ghost(number): Ghost<u32>) -> (n: u64)
    requires
        number < 16,
    ensures
        n == size(
            wire::repeated_field(
                number,
                otlp_trace::key_value_bodies(otlp_trace::attrs_model(attrs@)),
            ),
        ),
{
    let ghost bodies = otlp_trace::key_value_bodies(otlp_trace::attrs_model(attrs@));
    let mut n: u64 = 0;
    let mut i: usize = 0;
    while i < attrs.len()
        invariant
            i <= attrs.len(),
            number < 16,
            bodies == otlp_trace::key_value_bodies(otlp_trace::attrs_model(attrs@)),
            n == size(wire::repeated_field(number, bodies.take(i as int))),
        decreases attrs.len() - i,
    {
        let ghost body = bodies[i as int];
        assert(body == wire::message(otlp_trace::key_value_fields(attrs@[i as int]@)));
        proof {
            lemma_size_repeated(number, bodies, i as int);
        }
        n = plus(n, nested_size(key_value_size(&attrs[i]), Ghost(number), Ghost(body)));
        i = i + 1;
    }
    assert(bodies.take(i as int) =~= bodies);
    n
}

/// The length of an `InstrumentationScope` message.
fn scope_size(name: &str, version: &str) -> (n: u64)
    ensures
        n == size(otlp_trace::scope_fields(name@, version@)),
{
    proof {
        lemma_size_concat(
            wire::opt_bytes_field(1, vstd::utf8::encode_utf8(name@)),
            wire::opt_bytes_field(2, vstd::utf8::encode_utf8(version@)),
        );
    }
    plus(string_size(name, Ghost(1)), string_size(version, Ghost(2)))
}

/// The length of a `Status` message.
fn status_size(status: &SpanStatus) -> (n: u64)
    ensures
        n == size(otlp_trace::status_fields(status@)),
{
    proof {
        lemma_size_concat(
            wire::opt_bytes_field(2, vstd::utf8::encode_utf8(status.message@)),
            wire::opt_varint_field(3, status.code.number()),
        );
    }
    plus(string_size(&status.message, Ghost(2)), opt_varint_size(status.code.number(), Ghost(3)))
}

/// The length of a `Span` message.
fn span_size(span: &SpanData) -> (n: u64)
    ensures
        n == size(otlp_trace::span_fields(span@)),
{
    let ghost f1 = wire::opt_bytes_field(1, span.trace_id@);
    let ghost f2 = wire::opt_bytes_field(2, span.span_id@);
    let ghost f4 = wire::opt_bytes_field(4, span.parent_span_id@);
    let ghost f5 = wire::opt_bytes_field(5, vstd::utf8::encode_utf8(span.name@));
    let ghost f6 = wire::opt_varint_field(6, span.kind.number());
    let ghost f7 = wire::opt_fixed64_field(7, span.start_time_unix_nano);
    let ghost f8 = wire::opt_fixed64_field(8, span.end_time_unix_nano);
    let ghost f9 = wire::repeated_field(
        9,
        otlp_trace::key_value_bodies(otlp_trace::attrs_model(span.attributes@)),
    );
    let ghost f15 = otlp_trace::span_status_field(span@.status);
    proof {
        lemma_bytes_field(1, span.trace_id@);
        lemma_bytes_field(2, span.span_id@);
        lemma_bytes_field(4, span.parent_span_id@);
        lemma_size_concat(f1, f2);
        lemma_size_concat(f1 + f2, f4);
        lemma_size_concat(f1 + f2 + f4, f5);
        lemma_size_concat(f1 + f2 + f4 + f5, f6);
        lemma_size_concat(f1 + f2 + f4 + f5 + f6, f7);
        lemma_size_concat(f1 + f2 + f4 + f5 + f6 + f7, f8);
        lemma_size_concat(f1 + f2 + f4 + f5 + f6 + f7 + f8, f9);
        lemma_size_concat(f1 + f2 + f4 + f5 + f6 + f7 + f8 + f9, f15);
    }
    let mut n: u64 = plus(bytes_size(16), bytes_size(8));
    n = plus(n, bytes_size(8));
    n = plus(n, string_size(&span.name, Ghost(5)));
    n = plus(n, opt_varint_size(span.kind.number(), Ghost(6)));
    n = plus(n, opt_fixed64_size(span.start_time_unix_nano, Ghost(7)));
    n = plus(n, opt_fixed64_size(span.end_time_unix_nano, Ghost(8)));
    n = plus(n, attributes_size(&span.attributes, Ghost(9)));
    match &span.status {
        Some(status) => plus(
            n,
            nested_size(
                status_size(status),
                Ghost(15),
                Ghost(wire::message(otlp_trace::status_fields(status@))),
            ),
        ),
        None => n,
    }
}

/// The length of a `LogRecord` message.
fn log_size(log: &LogData) -> (n: u64)
    ensures
        n == size(otlp_log::log_fields(log@)),
{
    let ghost body = wire::message(otlp_trace::any_value_fields(log.body@));
    let ghost f1 = wire::opt_fixed64_field(1, log.time_unix_nano);
    let ghost f2 = wire::opt_varint_field(2, log.severity_number.number());
    let ghost f3 = wire::opt_bytes_field(3, vstd::utf8::encode_utf8(log.severity_text@));
    let ghost f5 = wire::opt_bytes_field(5, body);
    let ghost f6 = wire::repeated_field(
        6,
        otlp_trace::key_value_bodies(otlp_trace::attrs_model(log.attributes@)),
    );
    let ghost f9 = wire::opt_bytes_field(9, log.trace_id@);
    let ghost f10 = wire::opt_bytes_field(10, log.span_id@);
    proof {
        lemma_bytes_field(9, log.trace_id@);
        lemma_bytes_field(10, log.span_id@);
        lemma_size_concat(f1, f2);
        lemma_size_concat(f1 + f2, f3);
        lemma_size_concat(f1 + f2 + f3, f5);
        lemma_size_concat(f1 + f2 + f3 + f5, f6);
        lemma_size_concat(f1 + f2 + f3 + f5 + f6, f9);
        lemma_size_concat(f1 + f2 + f3 + f5 + f6 + f9, f10);
    }
    let mut n: u64 = opt_fixed64_size(log.time_unix_nano, Ghost(1));
    n = plus(n, opt_varint_size(log.severity_number.number(), Ghost(2)));
    n = plus(n, string_size(&log.severity_text, Ghost(3)));
    n = plus(n, nested_size(any_value_size(&log.body), Ghost(5), Ghost(body)));
    n = plus(n, attributes_size(&log.attributes, Ghost(6)));
    n = plus(n, bytes_size(16));
    plus(n, bytes_size(8))
}

/// The length of the message that a request nests: a resource, and a scope with
/// entries.
fn envelope_size(
    resource_attrs: &[KeyValue],
    scope_name: &str,
    scope_version: &str,
    entries: u64,
    Ghost(bodies): Ghost<Seq<Seq<u8>>>,
) -> (n: u64)
    requires
        entries == size(wire::repeated_field(2, bodies)),
    ensures
        n == size(
            wire::opt_bytes_field(
                1,
                wire::message(
                    otlp_trace::resource_fields(otlp_trace::attrs_model(resource_attrs@)),
                ),
            ) + wire::opt_bytes_field(
                2,
                wire::message(
                    wire::opt_bytes_field(
                        1,
                        wire::message(otlp_trace::scope_fields(scope_name@, scope_version@)),
                    ) + wire::repeated_field(2, bodies),
                ),
            ),
        ),
{
    let ghost scope = wire::message(otlp_trace::scope_fields(scope_name@, scope_version@));
    let ghost inner = wire::opt_bytes_field(1, scope) + wire::repeated_field(2, bodies);
    let ghost resource = wire::message(
        otlp_trace::resource_fields(otlp_trace::attrs_model(resource_attrs@)),
    );
    proof {
        lemma_size_concat(wire::opt_bytes_field(1, scope), wire::repeated_field(2, bodies));
        lemma_size_concat(
            wire::opt_bytes_field(1, resource),
            wire::opt_bytes_field(2, wire::message(inner)),
        );
    }
    let inner_size: u64 = plus(
        nested_size(scope_size(scope_name, scope_version), Ghost(1), Ghost(scope)),
        entries,
    );
    plus(
        nested_size(attributes_size(resource_attrs, Ghost(1)), Ghost(1), Ghost(resource)),
        nested_size(inner_size, Ghost(2), Ghost(wire::message(inner))),
    )
}

/// Whether a trace request with these spans is short enough to be written.
pub fn trace_request_fits(
    resource_attrs: &[KeyValue],
    scope_name: &str,
    scope_version: &str,
    spans: &[SpanData],
) -> (fits: bool)
    ensures
        fits == (wire::message(
            otlp_trace::resource_spans_fields(
                otlp_trace::attrs_model(resource_attrs@),
                scope_name@,
                scope_version@,
                otlp_trace::spans_model(spans@),
            ),
        ).len() < MAX_MESSAGE_LEN),
{
    let ghost bodies = otlp_trace::span_bodies(otlp_trace::spans_model(spans@));
    let mut n: u64 = 0;
    let mut i: usize = 0;
    while i < spans.len()
        invariant
            i <= spans.len(),
            bodies == otlp_trace::span_bodies(otlp_trace::spans_model(spans@)),
            n == size(wire::repeated_field(2, bodies.take(i as int))),
        decreases spans.len() - i,
    {
        let ghost body = bodies[i as int];
        assert(body == wire::message(otlp_trace::span_fields(spans@[i as int]@)));
        proof {
            lemma_size_repeated(2, bodies, i as int);
        }
        n = plus(n, nested_size(span_size(&spans[i]), Ghost(2), Ghost(body)));
        i = i + 1;
    }
    assert(bodies.take(i as int) =~= bodies);
    envelope_size(resource_attrs, scope_name, scope_version, n, Ghost(bodies)) < MAX_MESSAGE_LEN
}

/// Whether a logs request with these records is short enough to be written.
pub fn logs_request_fits(
    resource_attrs: &[KeyValue],
    scope_name: &str,
    scope_version: &str,
    logs: &[LogData],
) -> (fits: bool)
    ensures
        fits == (wire::message(
            otlp_log::resource_logs_fields(
                otlp_trace::attrs_model(resource_attrs@),
                scope_name@,
                scope_version@,
                otlp_log::logs_model(logs@),
            ),
        ).len() < MAX_MESSAGE_LEN),
{
    let ghost bodies = otlp_log::log_bodies(otlp_log::logs_model(logs@));
    let mut n: u64 = 0;
    let mut i: usize = 0;
    while i < logs.len()
        invariant
            i <= logs.len(),
            bodies == otlp_log::log_bodies(otlp_log::logs_model(logs@)),
            n == size(wire::repeated_field(2, bodies.take(i as int))),
        decreases logs.len() - i,
    {
        let ghost body = bodies[i as int];
        assert(body == wire::message(otlp_log::log_fields(logs@[i as int]@)));
        proof {
            lemma_size_repeated(2, bodies, i as int);
        }
        n = plus(n, nested_size(log_size(&logs[i]), Ghost(2), Ghost(body)));
        i = i + 1;
    }
    assert(bodies.take(i as int) =~= bodies);
    envelope_size(resource_attrs, scope_name, scope_version, n, Ghost(bodies)) < MAX_MESSAGE_LEN
}

/// The length of attribute pairs as a repeated field.
fn pairs_size(pairs: &[(String, String)], Ghost(number): Ghost<u32>) -> (n: u64)
    requires
        number < 16,
    ensures
        n == size(
            wire::repeated_field(
                number,
                otlp_metrics::attr_bodies(attrs::stored_pairs(pairs@)),
            ),
        ),
{
    let ghost bodies = otlp_metrics::attr_bodies(attrs::stored_pairs(pairs@));
    let mut n: u64 = 0;
    let mut i: usize = 0;
    while i < pairs.len()
        invariant
            i <= pairs.len(),
            number < 16,
            bodies == otlp_metrics::attr_bodies(attrs::stored_pairs(pairs@)),
            n == size(wire::repeated_field(number, bodies.take(i as int))),
        decreases pairs.len() - i,
    {
        let pair: &(String, String) = &pairs[i];
        let ghost value_fields = wire::opt_bytes_field(1, vstd::utf8::encode_utf8(pair.1@));
        let ghost body = bodies[i as int];
        assert(body == wire::message(otlp_metrics::attr_fields((pair.0@, pair.1@))));
        proof {
            lemma_size_repeated(number, bodies, i as int);
            lemma_size_concat(
                wire::opt_bytes_field(1, vstd::utf8::encode_utf8(pair.0@)),
                wire::opt_bytes_field(2, wire::message(value_fields)),
            );
        }
        let pair_size: u64 = plus(
            string_size(&pair.0, Ghost(1)),
            nested_size(
                string_size(&pair.1, Ghost(1)),
                Ghost(2),
                Ghost(wire::message(value_fields)),
            ),
        );
        n = plus(n, nested_size(pair_size, Ghost(number), Ghost(body)));
        i = i + 1;
    }
    assert(bodies.take(i as int) =~= bodies);
    n
}

/// The length of an optional exemplar as a nested message.
fn exemplar_size(exemplar: &Option<Exemplar>, Ghost(number): Ghost<u32>) -> (n: u64)
    requires
        number < 16,
    ensures
        n == size(otlp_metrics::opt_exemplar_field(number, *exemplar)),
{
    match exemplar {
        Some(ex) => {
            let ghost fields = otlp_metrics::exemplar_fields(*ex);
            let ghost f2 = wire::opt_fixed64_field(2, ex.time_unix_nano);
            let ghost value = otlp_metrics::exemplar_value_field(ex.value);
            let ghost f4 = wire::opt_bytes_field(4, ex.span_id@);
            let ghost f5 = wire::opt_bytes_field(5, ex.trace_id@);
            proof {
                match ex.value {
                    ExemplarValue::Double(bits) => lemma_fixed64_field(3, bits),
                    ExemplarValue::Int(v) => lemma_fixed64_field(
                        6,
                        otlp_trace::twos_complement(v),
                    ),
                }
                lemma_bytes_field(4, ex.span_id@);
                lemma_bytes_field(5, ex.trace_id@);
                lemma_size_concat(f2, value);
                lemma_size_concat(f2 + value, f4);
                lemma_size_concat(f2 + value + f4, f5);
            }
            let mut n: u64 = plus(opt_fixed64_size(ex.time_unix_nano, Ghost(2)), 9);
            n = plus(n, bytes_size(8));
            n = plus(n, bytes_size(16));
            nested_size(n, Ghost(number), Ghost(wire::message(fields)))
        },
        None => 0,
    }
}

/// The length of a counter's data point.
fn counter_point_size(dp: &CounterDataPoint, start_time: u64, time: u64) -> (n: u64)
    ensures
        n == size(
            otlp_metrics::counter_point_fields(model::collected_point(*dp), start_time, time),
        ),
{
    let ghost f2 = wire::opt_fixed64_field(2, start_time);
    let ghost f3 = wire::opt_fixed64_field(3, time);
    let ghost f5 = otlp_metrics::opt_exemplar_field(5, dp.2);
    let ghost f6 = wire::fixed64_field(6, otlp_trace::twos_complement(dp.1));
    let ghost f7 = wire::repeated_field(7, otlp_metrics::attr_bodies(attrs::stored_pairs(dp.0@)));
    proof {
        lemma_fixed64_field(6, otlp_trace::twos_complement(dp.1));
        lemma_size_concat(f2, f3);
        lemma_size_concat(f2 + f3, f5);
        lemma_size_concat(f2 + f3 + f5, f6);
        lemma_size_concat(f2 + f3 + f5 + f6, f7);
    }
    let mut n: u64 = plus(
        opt_fixed64_size(start_time, Ghost(2)),
        opt_fixed64_size(time, Ghost(3)),
    );
    n = plus(n, exemplar_size(&dp.2, Ghost(5)));
    n = plus(n, 9);
    plus(n, pairs_size(&dp.0, Ghost(7)))
}

/// The length of a gauge's data point.
fn gauge_point_size(dp: &GaugeDataPoint, start_time: u64, time: u64) -> (n: u64)
    ensures
        n == size(
            otlp_metrics::gauge_point_fields(model::collected_point(*dp), start_time, time),
        ),
{
    let ghost f2 = wire::opt_fixed64_field(2, start_time);
    let ghost f3 = wire::opt_fixed64_field(3, time);
    let ghost f4 = wire::fixed64_field(4, dp.1);
    let ghost f5 = otlp_metrics::opt_exemplar_field(5, dp.2);
    let ghost f7 = wire::repeated_field(7, otlp_metrics::attr_bodies(attrs::stored_pairs(dp.0@)));
    proof {
        lemma_fixed64_field(4, dp.1);
        lemma_size_concat(f2, f3);
        lemma_size_concat(f2 + f3, f4);
        lemma_size_concat(f2 + f3 + f4, f5);
        lemma_size_concat(f2 + f3 + f4 + f5, f7);
    }
    let mut n: u64 = plus(
        opt_fixed64_size(start_time, Ghost(2)),
        opt_fixed64_size(time, Ghost(3)),
    );
    n = plus(n, 9);
    n = plus(n, exemplar_size(&dp.2, Ghost(5)));
    plus(n, pairs_size(&dp.0, Ghost(7)))
}

/// The length of packed numbers as a length-delimited field.
fn packed_size(values: &[u64], Ghost(number): Ghost<u32>) -> (n: u64)
    requires
        number < 16,
    ensures
        n == size(wire::opt_bytes_field(number, wire::packed(values@))),
{
    proof {
        wire::lemma_packed_len(values@);
        lemma_bytes_field(number, wire::packed(values@));
    }
    if values.len() as u64 >= MAX_MESSAGE_LEN {
        MAX_MESSAGE_LEN
    } else {
        bytes_size(values.len() as u64 * 8)
    }
}

/// The length of a histogram's data point.
fn histogram_point_size(
    dp: &HistogramDataPoint,
    boundaries: &[u64],
    start_time: u64,
    time: u64,
) -> (n: u64)
    ensures
        n == size(
            otlp_metrics::histogram_point_fields(
                model::collected_distribution(*dp),
                boundaries@,
                start_time,
                time,
            ),
        ),
{
    let ghost f2 = wire::opt_fixed64_field(2, start_time);
    let ghost f3 = wire::opt_fixed64_field(3, time);
    let ghost f4 = wire::fixed64_field(4, dp.count);
    let ghost f5 = wire::fixed64_field(5, dp.sum);
    let ghost f6 = wire::opt_bytes_field(6, wire::packed(dp.bucket_counts@));
    let ghost f7 = wire::opt_bytes_field(7, wire::packed(boundaries@));
    let ghost f9 = wire::repeated_field(
        9,
        otlp_metrics::attr_bodies(attrs::stored_pairs(dp.attrs@)),
    );
    let ghost f8 = otlp_metrics::opt_exemplar_field(8, dp.exemplar);
    let ghost f11 = wire::fixed64_field(11, dp.min);
    let ghost f12 = wire::fixed64_field(12, dp.max);
    proof {
        lemma_fixed64_field(4, dp.count);
        lemma_fixed64_field(5, dp.sum);
        lemma_fixed64_field(11, dp.min);
        lemma_fixed64_field(12, dp.max);
        lemma_size_concat(f2, f3);
        lemma_size_concat(f2 + f3, f4);
        lemma_size_concat(f2 + f3 + f4, f5);
        lemma_size_concat(f2 + f3 + f4 + f5, f6);
        lemma_size_concat(f2 + f3 + f4 + f5 + f6, f7);
        lemma_size_concat(f2 + f3 + f4 + f5 + f6 + f7, f9);
        lemma_size_concat(f2 + f3 + f4 + f5 + f6 + f7 + f9, f8);
        lemma_size_concat(f2 + f3 + f4 + f5 + f6 + f7 + f9 + f8, f11);
        lemma_size_concat(f2 + f3 + f4 + f5 + f6 + f7 + f9 + f8 + f11, f12);
    }
    let mut n: u64 = plus(
        opt_fixed64_size(start_time, Ghost(2)),
        opt_fixed64_size(time, Ghost(3)),
    );
    n = plus(n, 9);
    n = plus(n, 9);
    n = plus(n, packed_size(&dp.bucket_counts, Ghost(6)));
    n = plus(n, packed_size(boundaries, Ghost(7)));
    n = plus(n, pairs_size(&dp.attrs, Ghost(9)));
    n = plus(n, exemplar_size(&dp.exemplar, Ghost(8)));
    n = plus(n, 9);
    plus(n, 9)
}

/// The length of a `Sum` message.
fn sum_size(data_points: &[CounterDataPoint], start_time: u64, time: u64) -> (n: u64)
    ensures
        n == size(
            otlp_metrics::sum_fields(otlp_metrics::counts_model(data_points@), start_time, time),
        ),
{
    let ghost bodies = otlp_metrics::counter_point_bodies(
        otlp_metrics::counts_model(data_points@),
        start_time,
        time,
    );
    let mut n: u64 = 0;
    let mut i: usize = 0;
    while i < data_points.len()
        invariant
            i <= data_points.len(),
            bodies == otlp_metrics::counter_point_bodies(
                otlp_metrics::counts_model(data_points@),
                start_time,
                time,
            ),
            n == size(wire::repeated_field(1, bodies.take(i as int))),
        decreases data_points.len() - i,
    {
        let ghost body = bodies[i as int];
        assert(body == wire::message(
            otlp_metrics::counter_point_fields(
                model::collected_point(data_points@[i as int]),
                start_time,
                time,
            ),
        ));
        proof {
            lemma_size_repeated(1, bodies, i as int);
        }
        n = plus(
            n,
            nested_size(
                counter_point_size(&data_points[i], start_time, time),
                Ghost(1),
                Ghost(body),
            ),
        );
        i = i + 1;
    }
    assert(bodies.take(i as int) =~= bodies);
    proof {
        let f1 = wire::repeated_field(1, bodies);
        let f2 = wire::opt_varint_field(2, 2);
        let f3 = wire::opt_varint_field(3, 1);
        lemma_size_concat(f1, f2);
        lemma_size_concat(f1 + f2, f3);
    }
    n = plus(n, opt_varint_size(2, Ghost(2)));
    plus(n, opt_varint_size(1, Ghost(3)))
}

/// The length of a `Gauge` message.
fn gauge_size(data_points: &[GaugeDataPoint], start_time: u64, time: u64) -> (n: u64)
    ensures
        n == size(
            otlp_metrics::gauge_fields(
                otlp_metrics::values_model(data_points@),
                start_time,
                time,
            ),
        ),
{
    let ghost bodies = otlp_metrics::gauge_point_bodies(
        otlp_metrics::values_model(data_points@),
        start_time,
        time,
    );
    let mut n: u64 = 0;
    let mut i: usize = 0;
    while i < data_points.len()
        invariant
            i <= data_points.len(),
            bodies == otlp_metrics::gauge_point_bodies(
                otlp_metrics::values_model(data_points@),
                start_time,
                time,
            ),
            n == size(wire::repeated_field(1, bodies.take(i as int))),
        decreases data_points.len() - i,
    {
        let ghost body = bodies[i as int];
        assert(body == wire::message(
            otlp_metrics::gauge_point_fields(
                model::collected_point(data_points@[i as int]),
                start_time,
                time,
            ),
        ));
        proof {
            lemma_size_repeated(1, bodies, i as int);
        }
        n = plus(
            n,
            nested_size(
                gauge_point_size(&data_points[i], start_time, time),
                Ghost(1),
                Ghost(body),
            ),
        );
        i = i + 1;
    }
    assert(bodies.take(i as int) =~= bodies);
    n
}

/// The length of a `Histogram` message.
fn histogram_size(
    data_points: &[HistogramDataPoint],
    boundaries: &[u64],
    start_time: u64,
    time: u64,
) -> (n: u64)
    ensures
        n == size(
            otlp_metrics::histogram_fields(
                otlp_metrics::distributions_model(data_points@),
                boundaries@,
                start_time,
                time,
            ),
        ),
{
    let ghost bodies = otlp_metrics::histogram_point_bodies(
        otlp_metrics::distributions_model(data_points@),
        boundaries@,
        start_time,
        time,
    );
    let mut n: u64 = 0;
    let mut i: usize = 0;
    while i < data_points.len()
        invariant
            i <= data_points.len(),
            bodies == otlp_metrics::histogram_point_bodies(
                otlp_metrics::distributions_model(data_points@),
                boundaries@,
                start_time,
                time,
            ),
            n == size(wire::repeated_field(1, bodies.take(i as int))),
        decreases data_points.len() - i,
    {
        let ghost body = bodies[i as int];
        assert(body == wire::message(
            otlp_metrics::histogram_point_fields(
                model::collected_distribution(data_points@[i as int]),
                boundaries@,
                start_time,
                time,
            ),
        ));
        proof {
            lemma_size_repeated(1, bodies, i as int);
        }
        n = plus(
            n,
            nested_size(
                histogram_point_size(&data_points[i], boundaries, start_time, time),
                Ghost(1),
                Ghost(body),
            ),
        );
        i = i + 1;
    }
    assert(bodies.take(i as int) =~= bodies);
    proof {
        lemma_size_concat(wire::repeated_field(1, bodies), wire::opt_varint_field(2, 2));
    }
    plus(n, opt_varint_size(2, Ghost(2)))
}

/// The length of the name and the description of a metric.
fn metric_head_size(name: &str, description: &str) -> (n: u64)
    ensures
        n == size(otlp_metrics::metric_head(name@, description@)),
{
    proof {
        lemma_size_concat(
            wire::opt_bytes_field(1, vstd::utf8::encode_utf8(name@)),
            wire::opt_bytes_field(2, vstd::utf8::encode_utf8(description@)),
        );
    }
    plus(string_size(name, Ghost(1)), string_size(description, Ghost(2)))
}

/// The length of a `Metric` message.
fn metric_size(snapshot: &MetricSnapshot, start_time: u64, time: u64) -> (n: u64)
    ensures
        n == size(otlp_metrics::metric_fields(snapshot.model(), start_time, time)),
{
    match snapshot {
        MetricSnapshot::Counter { name, description, data_points } => {
            let ghost body = wire::message(
                otlp_metrics::sum_fields(
                    otlp_metrics::counts_model(data_points@),
                    start_time,
                    time,
                ),
            );
            proof {
                lemma_size_concat(
                    otlp_metrics::metric_head(name@, description@),
                    wire::opt_bytes_field(7, body),
                );
            }
            plus(
                metric_head_size(name, description),
                nested_size(sum_size(data_points, start_time, time), Ghost(7), Ghost(body)),
            )
        },
        MetricSnapshot::Gauge { name, description, data_points } => {
            let ghost body = wire::message(
                otlp_metrics::gauge_fields(
                    otlp_metrics::values_model(data_points@),
                    start_time,
                    time,
                ),
            );
            proof {
                lemma_size_concat(
                    otlp_metrics::metric_head(name@, description@),
                    wire::opt_bytes_field(5, body),
                );
            }
            plus(
                metric_head_size(name, description),
                nested_size(gauge_size(data_points, start_time, time), Ghost(5), Ghost(body)),
            )
        },
        MetricSnapshot::Histogram { name, description, boundaries, data_points } => {
            let ghost body = wire::message(
                otlp_metrics::histogram_fields(
                    otlp_metrics::distributions_model(data_points@),
                    boundaries@,
                    start_time,
                    time,
                ),
            );
            proof {
                lemma_size_concat(
                    otlp_metrics::metric_head(name@, description@),
                    wire::opt_bytes_field(9, body),
                );
            }
            plus(
                metric_head_size(name, description),
                nested_size(
                    histogram_size(data_points, boundaries, start_time, time),
                    Ghost(9),
                    Ghost(body),
                ),
            )
        },
    }
}

/// Whether a metrics request with these snapshots is short enough to be written.
pub fn metrics_request_fits(
    resource_attrs: &[KeyValue],
    scope_name: &str,
    scope_version: &str,
    snapshots: &[MetricSnapshot],
    start_time: u64,
    time: u64,
) -> (fits: bool)
    ensures
        fits == (wire::message(
            otlp_metrics::resource_metrics_fields(
                otlp_trace::attrs_model(resource_attrs@),
                scope_name@,
                scope_version@,
                model::snapshot_models(snapshots@),
                start_time,
                time,
            ),
        ).len() < MAX_MESSAGE_LEN),
{
    let ghost bodies = otlp_metrics::metric_bodies(
        model::snapshot_models(snapshots@),
        start_time,
        time,
    );
    let mut n: u64 = 0;
    let mut i: usize = 0;
    while i < snapshots.len()
        invariant
            i <= snapshots.len(),
            bodies == otlp_metrics::metric_bodies(
                model::snapshot_models(snapshots@),
                start_time,
                time,
            ),
            n == size(wire::repeated_field(2, bodies.take(i as int))),
        decreases snapshots.len() - i,
    {
        let ghost body = bodies[i as int];
        assert(body == wire::message(
            otlp_metrics::metric_fields(snapshots@[i as int].model(), start_time, time),
        ));
        proof {
            lemma_size_repeated(2, bodies, i as int);
        }
        n = plus(
            n,
            nested_size(metric_size(&snapshots[i], start_time, time), Ghost(2), Ghost(body)),
        );
        i = i + 1;
    }
    assert(bodies.take(i as int) =~= bodies);
    envelope_size(resource_attrs, scope_name, scope_version, n, Ghost(bodies)) < MAX_MESSAGE_LEN
}

} // verus!
