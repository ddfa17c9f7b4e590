//! The OTLP encoding of metric snapshots.

use vstd::prelude::*;

use crate::attrs;
use crate::attrs::Pair;
use crate::metrics::{
    CounterDataPoint, Exemplar, ExemplarValue, GaugeDataPoint, HistogramDataPoint, MetricSnapshot,
};
use crate::metrics_model as model;
use crate::metrics_model::{HistogramPoint, Point, SnapshotModel};
use crate::otlp_trace;
use crate::otlp_trace::{encode_resource, encode_scope, KeyValue, KeyValueModel};
use crate::proto::{
    encode_bytes_field, encode_fixed64_field, encode_fixed64_field_always,
    encode_message_field_in_place, encode_packed_double_field, encode_packed_fixed64_field,
    encode_string_field, encode_varint_field, MAX_MESSAGE_LEN,
};
use crate::wire;
use crate::wire::WireField;

verus! {

/// OTLP's number for values that add up over the whole run.
const AGGREGATION_TEMPORALITY_CUMULATIVE: u64 = 2;

/// The fields of a `KeyValue` message with a string value.
pub open spec fn attr_fields(pair: Pair) -> Seq<WireField> {
    wire::opt_bytes_field(1, vstd::utf8::encode_utf8(pair.0)) + wire::opt_bytes_field(
        2,
        wire::message(wire::opt_bytes_field(1, vstd::utf8::encode_utf8(pair.1))),
    )
}

/// The encoded attribute pairs, each as a message of its own.
pub open spec fn attr_bodies(pairs: Seq<Pair>) -> Seq<Seq<u8>> {
    pairs.map_values(|pair: Pair| wire::message(attr_fields(pair)))
}

/// The value field of an `Exemplar` message.
pub open spec fn exemplar_value_field(value: ExemplarValue) -> Seq<WireField> {
    match value {
        ExemplarValue::Double(bits) => wire::fixed64_field(3, bits),
        ExemplarValue::Int(v) => wire::fixed64_field(6, otlp_trace::twos_complement(v)),
    }
}

/// The fields of an `Exemplar` message.
pub open spec fn exemplar_fields(exemplar: Exemplar) -> Seq<WireField> {
    wire::opt_fixed64_field(2, exemplar.time_unix_nano) + exemplar_value_field(exemplar.value)
        + wire::opt_bytes_field(4, exemplar.span_id@) + wire::opt_bytes_field(
        5,
        exemplar.trace_id@,
    )
}

/// An optional exemplar as the field `number`.
pub open spec fn opt_exemplar_field(number: u32, exemplar: Option<Exemplar>) -> Seq<WireField> {
    match exemplar {
        Some(ex) => wire::opt_bytes_field(number, wire::message(exemplar_fields(ex))),
        None => Seq::empty(),
    }
}

/// The fields of a counter's `NumberDataPoint` message.
pub open spec fn counter_point_fields(
    point: Point<i64>,
    start_time: u64,
    time: u64,
) -> Seq<WireField> {
    wire::opt_fixed64_field(2, start_time) + wire::opt_fixed64_field(3, time)
        + opt_exemplar_field(5, point.exemplar) + wire::fixed64_field(
        6,
        otlp_trace::twos_complement(point.value),
    ) + wire::repeated_field(7, attr_bodies(point.attrs))
}

/// The fields of a gauge's `NumberDataPoint` message.
pub open spec fn gauge_point_fields(
    point: Point<u64>,
    start_time: u64,
    time: u64,
) -> Seq<WireField> {
    wire::opt_fixed64_field(2, start_time) + wire::opt_fixed64_field(3, time)
        + wire::fixed64_field(4, point.value) + opt_exemplar_field(5, point.exemplar)
        + wire::repeated_field(7, attr_bodies(point.attrs))
}

/// The fields of a `HistogramDataPoint` message.
pub open spec fn histogram_point_fields(
    point: Point<HistogramPoint>,
    boundaries: Seq<u64>,
    start_time: u64,
    time: u64,
) -> Seq<WireField> {
    wire::opt_fixed64_field(2, start_time) + wire::opt_fixed64_field(3, time)
        + wire::fixed64_field(4, point.value.count) + wire::fixed64_field(5, point.value.sum)
        + wire::opt_bytes_field(6, wire::packed(point.value.bucket_counts))
        + wire::opt_bytes_field(7, wire::packed(boundaries)) + wire::repeated_field(
        9,
        attr_bodies(point.attrs),
    ) + opt_exemplar_field(8, point.exemplar) + wire::fixed64_field(11, point.value.min)
        + wire::fixed64_field(12, point.value.max)
}

/// The encoded data points of a counter, each as a message of its own.
pub open spec fn counter_point_bodies(
    points: Seq<Point<i64>>,
    start_time: u64,
    time: u64,
) -> Seq<Seq<u8>> {
    points.map_values(
        |point: Point<i64>| wire::message(counter_point_fields(point, start_time, time)),
    )
}

/// The encoded data points of a gauge, each as a message of its own.
pub open spec fn gauge_point_bodies(
    points: Seq<Point<u64>>,
    start_time: u64,
    time: u64,
) -> Seq<Seq<u8>> {
    points.map_values(
        |point: Point<u64>| wire::message(gauge_point_fields(point, start_time, time)),
    )
}

/// The encoded data points of a histogram, each as a message of its own.
pub open spec fn histogram_point_bodies(
    points: Seq<Point<HistogramPoint>>,
    boundaries: Seq<u64>,
    start_time: u64,
    time: u64,
) -> Seq<Seq<u8>> {
    points.map_values(
        |point: Point<HistogramPoint>|
            wire::message(histogram_point_fields(point, boundaries, start_time, time)),
    )
}

/// The fields of a `Sum` message: cumulative (2) and monotonic.
pub open spec fn sum_fields(points: Seq<Point<i64>>, start_time: u64, time: u64) -> Seq<
    WireField,
> {
    wire::repeated_field(1, counter_point_bodies(points, start_time, time))
        + wire::opt_varint_field(2, 2) + wire::opt_varint_field(3, 1)
}

/// The fields of a `Gauge` message.
pub open spec fn gauge_fields(points: Seq<Point<u64>>, start_time: u64, time: u64) -> Seq<
    WireField,
> {
    wire::repeated_field(1, gauge_point_bodies(points, start_time, time))
}

/// The fields of a `Histogram` message: cumulative (2).
pub open spec fn histogram_fields(
    points: Seq<Point<HistogramPoint>>,
    boundaries: Seq<u64>,
    start_time: u64,
    time: u64,
) -> Seq<WireField> {
    wire::repeated_field(1, histogram_point_bodies(points, boundaries, start_time, time))
        + wire::opt_varint_field(2, 2)
}

/// The name and the description of a metric, as fields of a `Metric` message.
pub open spec fn metric_head(name: Seq<char>, description: Seq<char>) -> Seq<WireField> {
    wire::opt_bytes_field(1, vstd::utf8::encode_utf8(name)) + wire::opt_bytes_field(
        2,
        vstd::utf8::encode_utf8(description),
    )
}

/// The fields of a `Metric` message.
pub open spec fn metric_fields(
    snapshot: SnapshotModel,
    start_time: u64,
    time: u64,
) -> Seq<WireField> {
    match snapshot {
        SnapshotModel::Counter { name, description, counts } => metric_head(name, description)
            + wire::opt_bytes_field(7, wire::message(sum_fields(counts, start_time, time))),
        SnapshotModel::Gauge { name, description, values } => metric_head(name, description)
            + wire::opt_bytes_field(5, wire::message(gauge_fields(values, start_time, time))),
        SnapshotModel::Histogram { name, description, boundaries, distributions } => metric_head(
            name,
            description,
        ) + wire::opt_bytes_field(
            9,
            wire::message(histogram_fields(distributions, boundaries, start_time, time)),
        ),
    }
}

/// The encoded metrics, each as a message of its own.
pub open spec fn metric_bodies(
    snapshots: Seq<SnapshotModel>,
    start_time: u64,
    time: u64,
) -> Seq<Seq<u8>> {
    snapshots.map_values(
        |snapshot: SnapshotModel| wire::message(metric_fields(snapshot, start_time, time)),
    )
}

/// The fields of a `ScopeMetrics` message.
pub open spec fn scope_metrics_fields(
    scope_name: Seq<char>,
    scope_version: Seq<char>,
    snapshots: Seq<SnapshotModel>,
    start_time: u64,
    time: u64,
) -> Seq<WireField> {
    wire::opt_bytes_field(
        1,
        wire::message(otlp_trace::scope_fields(scope_name, scope_version)),
    ) + wire::repeated_field(2, metric_bodies(snapshots, start_time, time))
}

/// The fields of a `ResourceMetrics` message.
pub open spec fn resource_metrics_fields(
    resource_attrs: Seq<KeyValueModel>,
    scope_name: Seq<char>,
    scope_version: Seq<char>,
    snapshots: Seq<SnapshotModel>,
    start_time: u64,
    time: u64,
) -> Seq<WireField> {
    wire::opt_bytes_field(1, wire::message(otlp_trace::resource_fields(resource_attrs)))
        + wire::opt_bytes_field(
        2,
        wire::message(
            scope_metrics_fields(scope_name, scope_version, snapshots, start_time, time),
        ),
    )
}

/// The fields of an `ExportMetricsServiceRequest` message.
pub open spec fn metrics_request_fields(
    resource_attrs: Seq<KeyValueModel>,
    scope_name: Seq<char>,
    scope_version: Seq<char>,
    snapshots: Seq<SnapshotModel>,
    start_time: u64,
    time: u64,
) -> Seq<WireField> {
    wire::opt_bytes_field(
        1,
        wire::message(
            resource_metrics_fields(
                resource_attrs,
                scope_name,
                scope_version,
                snapshots,
                start_time,
                time,
            ),
        ),
    )
}

/// A counter's data points, as mathematics.
pub open spec fn counts_model(data_points: Seq<CounterDataPoint>) -> Seq<Point<i64>> {
    data_points.map_values(|dp: CounterDataPoint| model::collected_point(dp))
}

/// A gauge's data points, as mathematics.
pub open spec fn values_model(data_points: Seq<GaugeDataPoint>) -> Seq<Point<u64>> {
    data_points.map_values(|dp: GaugeDataPoint| model::collected_point(dp))
}

/// A histogram's data points, as mathematics.
pub open spec fn distributions_model(data_points: Seq<HistogramDataPoint>) -> Seq<
    Point<HistogramPoint>,
> {
    data_points.map_values(|dp: HistogramDataPoint| model::collected_distribution(dp))
}

/// An `Exemplar` message takes less than a hundred bytes.
proof fn lemma_exemplar_len(exemplar: Exemplar)
    ensures
        wire::message(exemplar_fields(exemplar)).len() < 100,
{
    broadcast use wire::lemma_message_concat;

    wire::lemma_fixed64_field_len(2, exemplar.time_unix_nano);
    match exemplar.value {
        ExemplarValue::Double(bits) => wire::lemma_fixed64_field_len(3, bits),
        ExemplarValue::Int(v) => wire::lemma_fixed64_field_len(6, otlp_trace::twos_complement(v)),
    }
    wire::lemma_short_bytes_field_len(4, exemplar.span_id@);
    wire::lemma_short_bytes_field_len(5, exemplar.trace_id@);
}

/// Appends a `KeyValue` message with a string value.
pub fn encode_attr_key_value(buf: &mut Vec<u8>, key: &str, value: &str)
    requires
        wire::message(wire::opt_bytes_field(1, vstd::utf8::encode_utf8(value@))).len()
            < MAX_MESSAGE_LEN,
    ensures
        final(buf)@ == old(buf)@ + wire::message(attr_fields((key@, value@))),
{
    broadcast use wire::lemma_skip_prefix;

    encode_string_field(buf, 1, key);
    let body = |b: &mut Vec<u8>|
        ensures
            final(b)@ == old(b)@ + wire::message(
                wire::opt_bytes_field(1, vstd::utf8::encode_utf8(value@)),
            ),
        {
            encode_string_field(b, 1, value);
        };
    encode_message_field_in_place(buf, 2, body);
    proof {
        wire::lemma_append(
            old(buf)@,
            wire::opt_bytes_field(1, vstd::utf8::encode_utf8(key@)),
            wire::opt_bytes_field(
                2,
                wire::message(wire::opt_bytes_field(1, vstd::utf8::encode_utf8(value@))),
            ),
        );
    }
}

/// Appends an attribute pair as a nested message.
fn encode_attr_field(buf: &mut Vec<u8>, field: u32, key: &str, value: &str)
    requires
        wire::message(attr_fields((key@, value@))).len() < MAX_MESSAGE_LEN,
    ensures
        final(buf)@ == old(buf)@ + wire::message(
            wire::opt_bytes_field(field, wire::message(attr_fields((key@, value@)))),
        ),
{
    broadcast use wire::lemma_skip_prefix;

    proof {
        let value_body = wire::message(wire::opt_bytes_field(1, vstd::utf8::encode_utf8(value@)));
        wire::lemma_two_part_len(
            1,
            vstd::utf8::encode_utf8(key@),
            wire::opt_bytes_field(2, value_body),
        );
        wire::lemma_bytes_field_len(2, value_body);
    }
    let body = |b: &mut Vec<u8>|
        ensures
            final(b)@ == old(b)@ + wire::message(attr_fields((key@, value@))),
        {
            encode_attr_key_value(b, key, value);
        };
    encode_message_field_in_place(buf, field, body);
}

/// Appends attribute pairs, each as an entry of the repeated field `field`.
fn encode_attr_pairs(buf: &mut Vec<u8>, field: u32, attrs: &[(String, String)])
    requires
        wire::all_fit(attr_bodies(attrs::stored_pairs(attrs@))),
    ensures
        final(buf)@ == old(buf)@ + wire::message(
            wire::repeated_field(field, attr_bodies(attrs::stored_pairs(attrs@))),
        ),
{
    let ghost bodies = attr_bodies(attrs::stored_pairs(attrs@));
    let mut i: usize = 0;
    while i < attrs.len()
        invariant
            i <= attrs.len(),
            bodies == attr_bodies(attrs::stored_pairs(attrs@)),
            wire::all_fit(bodies),
            buf@ == old(buf)@ + wire::message(wire::repeated_field(field, bodies.take(i as int))),
        decreases attrs.len() - i,
    {
        let pair: &(String, String) = &attrs[i];
        proof {
            wire::lemma_repeated_push(field, bodies, i as int);
            assert(bodies[i as int] == wire::message(attr_fields((pair.0@, pair.1@))));
            wire::lemma_append(
                old(buf)@,
                wire::repeated_field(field, bodies.take(i as int)),
                wire::opt_bytes_field(field, bodies[i as int]),
            );
        }
        encode_attr_field(buf, field, &pair.0, &pair.1);
        i = i + 1;
    }
    assert(bodies.take(i as int) =~= bodies);
}

/// Appends an `Exemplar` message.
pub fn encode_exemplar(buf: &mut Vec<u8>, exemplar: &Exemplar)
    ensures
        final(buf)@ == old(buf)@ + wire::message(exemplar_fields(*exemplar)),
{
    encode_fixed64_field(buf, 2, exemplar.time_unix_nano);
    match exemplar.value {
        ExemplarValue::Double(bits) => {
            encode_fixed64_field_always(buf, 3, bits);
        },
        ExemplarValue::Int(v) => {
            assert(v as u64 == if v >= 0 {
                v as int
            } else {
                v + 0x1_0000_0000_0000_0000
            }) by (bit_vector);
            encode_fixed64_field_always(buf, 6, v as u64);
        },
    }
    encode_bytes_field(buf, 4, &exemplar.span_id);
    encode_bytes_field(buf, 5, &exemplar.trace_id);
    proof {
        let start = old(buf)@;
        let f2 = wire::opt_fixed64_field(2, exemplar.time_unix_nano);
        let value = exemplar_value_field(exemplar.value);
        let f4 = wire::opt_bytes_field(4, exemplar.span_id@);
        let f5 = wire::opt_bytes_field(5, exemplar.trace_id@);
        wire::lemma_append(start, f2, value);
        wire::lemma_append(start, f2 + value, f4);
        wire::lemma_append(start, f2 + value + f4, f5);
    }
}

/// Appends an exemplar, where there is one, as a nested message.
fn encode_exemplar_field(buf: &mut Vec<u8>, field: u32, exemplar: &Option<Exemplar>)
    ensures
        final(buf)@ == old(buf)@ + wire::message(opt_exemplar_field(field, *exemplar)),
{
    broadcast use wire::lemma_skip_prefix;

    match exemplar {
        Some(ex) => {
            proof {
                lemma_exemplar_len(*ex);
            }
            let body = |b: &mut Vec<u8>|
                ensures
                    final(b)@ == old(b)@ + wire::message(exemplar_fields(*ex)),
                {
                    encode_exemplar(b, ex);
                };
            encode_message_field_in_place(buf, field, body);
        },
        None => {
            proof {
                wire::lemma_append_none(buf@);
            }
        },
    }
}

/// Appends a counter's `NumberDataPoint` message.
pub fn encode_counter_data_point(
    buf: &mut Vec<u8>,
    attrs: &[(String, String)],
    start_time_unix_nano: u64,
    time_unix_nano: u64,
    value: i64,
    exemplar: &Option<Exemplar>,
)
    requires
        wire::all_fit(attr_bodies(attrs::stored_pairs(attrs@))),
    ensures
        final(buf)@ == old(buf)@ + wire::message(
            counter_point_fields(
                Point { attrs: attrs::stored_pairs(attrs@), value, exemplar: *exemplar },
                start_time_unix_nano,
                time_unix_nano,
            ),
        ),
{
    encode_fixed64_field(buf, 2, start_time_unix_nano);
    encode_fixed64_field(buf, 3, time_unix_nano);
    encode_exemplar_field(buf, 5, exemplar);
    assert(value as u64 == if value >= 0 {
        value as int
    } else {
        value + 0x1_0000_0000_0000_0000
    }) by (bit_vector);
    encode_fixed64_field_always(buf, 6, value as u64);
    encode_attr_pairs(buf, 7, attrs);
    proof {
        let start = old(buf)@;
        let f2 = wire::opt_fixed64_field(2, start_time_unix_nano);
        let f3 = wire::opt_fixed64_field(3, time_unix_nano);
        let f5 = opt_exemplar_field(5, *exemplar);
        let f6 = wire::fixed64_field(6, otlp_trace::twos_complement(value));
        let f7 = wire::repeated_field(7, attr_bodies(attrs::stored_pairs(attrs@)));
        wire::lemma_append(start, f2, f3);
        wire::lemma_append(start, f2 + f3, f5);
        wire::lemma_append(start, f2 + f3 + f5, f6);
        wire::lemma_append(start, f2 + f3 + f5 + f6, f7);
    }
}

/// Appends a gauge's `NumberDataPoint` message.
pub fn encode_gauge_data_point(
    buf: &mut Vec<u8>,
    attrs: &[(String, String)],
    start_time_unix_nano: u64,
    time_unix_nano: u64,
    value: u64,
    exemplar: &Option<Exemplar>,
)
    requires
        wire::all_fit(attr_bodies(attrs::stored_pairs(attrs@))),
    ensures
        final(buf)@ == old(buf)@ + wire::message(
            gauge_point_fields(
                Point { attrs: attrs::stored_pairs(attrs@), value, exemplar: *exemplar },
                start_time_unix_nano,
                time_unix_nano,
            ),
        ),
{
    encode_fixed64_field(buf, 2, start_time_unix_nano);
    encode_fixed64_field(buf, 3, time_unix_nano);
    encode_fixed64_field_always(buf, 4, value);
    encode_exemplar_field(buf, 5, exemplar);
    encode_attr_pairs(buf, 7, attrs);
    proof {
        let start = old(buf)@;
        let f2 = wire::opt_fixed64_field(2, start_time_unix_nano);
        let f3 = wire::opt_fixed64_field(3, time_unix_nano);
        let f4 = wire::fixed64_field(4, value);
        let f5 = opt_exemplar_field(5, *exemplar);
        let f7 = wire::repeated_field(7, attr_bodies(attrs::stored_pairs(attrs@)));
        wire::lemma_append(start, f2, f3);
        wire::lemma_append(start, f2 + f3, f4);
        wire::lemma_append(start, f2 + f3 + f4, f5);
        wire::lemma_append(start, f2 + f3 + f4 + f5, f7);
    }
}

/// The parts of a histogram data point are short enough to be written.
pub open spec fn histogram_point_fits(point: Point<HistogramPoint>, boundaries: Seq<u64>) -> bool {
    &&& wire::all_fit(attr_bodies(point.attrs))
    &&& point.value.bucket_counts.len() * 8 <= u64::MAX
    &&& boundaries.len() * 8 <= u64::MAX
}

/// Where a `HistogramDataPoint` message is short enough to be nested, its parts
/// are.
proof fn lemma_histogram_point_fits(
    point: Point<HistogramPoint>,
    boundaries: Seq<u64>,
    start_time: u64,
    time: u64,
)
    requires
        wire::message(histogram_point_fields(point, boundaries, start_time, time)).len()
            < MAX_MESSAGE_LEN,
    ensures
        histogram_point_fits(point, boundaries),
{
    let bytes = wire::message(histogram_point_fields(point, boundaries, start_time, time));
    assert(wire::packed(point.value.bucket_counts).len() <= bytes.len() && wire::packed(boundaries).len(
    )
        <= bytes.len() && wire::message(wire::repeated_field(9, attr_bodies(point.attrs))).len()
        <= bytes.len()) by {
        broadcast use wire::lemma_message_concat, wire::lemma_bytes_field_len;

    }
    wire::lemma_packed_len(point.value.bucket_counts);
    wire::lemma_packed_len(boundaries);
    wire::lemma_entries_fit(9, attr_bodies(point.attrs));
}

/// Appends a `HistogramDataPoint` message.
pub fn encode_histogram_data_point(
    buf: &mut Vec<u8>,
    dp: &HistogramDataPoint,
    boundaries: &[u64],
    start_time_unix_nano: u64,
    time_unix_nano: u64,
)
    requires
        histogram_point_fits(model::collected_distribution(*dp), boundaries@),
    ensures
        final(buf)@ == old(buf)@ + wire::message(
            histogram_point_fields(
                model::collected_distribution(*dp),
                boundaries@,
                start_time_unix_nano,
                time_unix_nano,
            ),
        ),
{
    encode_fixed64_field(buf, 2, start_time_unix_nano);
    encode_fixed64_field(buf, 3, time_unix_nano);
    encode_fixed64_field_always(buf, 4, dp.count);
    encode_fixed64_field_always(buf, 5, dp.sum);
    encode_packed_fixed64_field(buf, 6, &dp.bucket_counts);
    encode_packed_double_field(buf, 7, boundaries);
    encode_attr_pairs(buf, 9, &dp.attrs);
    encode_exemplar_field(buf, 8, &dp.exemplar);
    encode_fixed64_field_always(buf, 11, dp.min);
    encode_fixed64_field_always(buf, 12, dp.max);
    proof {
        let start = old(buf)@;
        let f2 = wire::opt_fixed64_field(2, start_time_unix_nano);
        let f3 = wire::opt_fixed64_field(3, time_unix_nano);
        let f4 = wire::fixed64_field(4, dp.count);
        let f5 = wire::fixed64_field(5, dp.sum);
        let f6 = wire::opt_bytes_field(6, wire::packed(dp.bucket_counts@));
        let f7 = wire::opt_bytes_field(7, wire::packed(boundaries@));
        let f9 = wire::repeated_field(9, attr_bodies(attrs::stored_pairs(dp.attrs@)));
        let f8 = opt_exemplar_field(8, dp.exemplar);
        let f11 = wire::fixed64_field(11, dp.min);
        let f12 = wire::fixed64_field(12, dp.max);
        wire::lemma_append(start, f2, f3);
        wire::lemma_append(start, f2 + f3, f4);
        wire::lemma_append(start, f2 + f3 + f4, f5);
        wire::lemma_append(start, f2 + f3 + f4 + f5, f6);
        wire::lemma_append(start, f2 + f3 + f4 + f5 + f6, f7);
        wire::lemma_append(start, f2 + f3 + f4 + f5 + f6 + f7, f9);
        wire::lemma_append(start, f2 + f3 + f4 + f5 + f6 + f7 + f9, f8);
        wire::lemma_append(start, f2 + f3 + f4 + f5 + f6 + f7 + f9 + f8, f11);
        wire::lemma_append(start, f2 + f3 + f4 + f5 + f6 + f7 + f9 + f8 + f11, f12);
    }
}

/// Where a data point's message is short enough to be nested, its attributes are.
proof fn lemma_counter_point_fits(point: Point<i64>, start_time: u64, time: u64)
    requires
        wire::message(counter_point_fields(point, start_time, time)).len() < MAX_MESSAGE_LEN,
    ensures
        wire::all_fit(attr_bodies(point.attrs)),
{
    assert(wire::message(wire::repeated_field(7, attr_bodies(point.attrs))).len()
        <= wire::message(counter_point_fields(point, start_time, time)).len()) by {
        broadcast use wire::lemma_message_concat;

    }
    wire::lemma_entries_fit(7, attr_bodies(point.attrs));
}

/// Where a data point's message is short enough to be nested, its attributes are.
proof fn lemma_gauge_point_fits(point: Point<u64>, start_time: u64, time: u64)
    requires
        wire::message(gauge_point_fields(point, start_time, time)).len() < MAX_MESSAGE_LEN,
    ensures
        wire::all_fit(attr_bodies(point.attrs)),
{
    assert(wire::message(wire::repeated_field(7, attr_bodies(point.attrs))).len()
        <= wire::message(gauge_point_fields(point, start_time, time)).len()) by {
        broadcast use wire::lemma_message_concat;

    }
    wire::lemma_entries_fit(7, attr_bodies(point.attrs));
}

/// Appends a counter's data point as a nested message.
fn encode_counter_point_field(
    buf: &mut Vec<u8>,
    dp: &CounterDataPoint,
    start_time: u64,
    time: u64,
)
    requires
        wire::message(counter_point_fields(model::collected_point(*dp), start_time, time)).len()
            < MAX_MESSAGE_LEN,
    ensures
        final(buf)@ == old(buf)@ + wire::message(
            wire::opt_bytes_field(
                1,
                wire::message(counter_point_fields(model::collected_point(*dp), start_time, time)),
            ),
        ),
{
    broadcast use wire::lemma_skip_prefix;

    proof {
        lemma_counter_point_fits(model::collected_point(*dp), start_time, time);
    }
    let body = |b: &mut Vec<u8>|
        ensures
            final(b)@ == old(b)@ + wire::message(
                counter_point_fields(model::collected_point(*dp), start_time, time),
            ),
        {
            encode_counter_data_point(b, &dp.0, start_time, time, dp.1, &dp.2);
        };
    encode_message_field_in_place(buf, 1, body);
}

/// Appends a `Sum` message: cumulative and monotonic.
pub fn encode_sum(buf: &mut Vec<u8>, data_points: &[CounterDataPoint], start_time: u64, time: u64)
    requires
        wire::all_fit(counter_point_bodies(counts_model(data_points@), start_time, time)),
    ensures
        final(buf)@ == old(buf)@ + wire::message(
            sum_fields(counts_model(data_points@), start_time, time),
        ),
{
    let ghost bodies = counter_point_bodies(counts_model(data_points@), start_time, time);
    let mut i: usize = 0;
    while i < data_points.len()
        invariant
            i <= data_points.len(),
            bodies == counter_point_bodies(counts_model(data_points@), start_time, time),
            wire::all_fit(bodies),
            buf@ == old(buf)@ + wire::message(wire::repeated_field(1, bodies.take(i as int))),
        decreases data_points.len() - i,
    {
        let dp: &CounterDataPoint = &data_points[i];
        proof {
            wire::lemma_repeated_push(1, bodies, i as int);
            assert(bodies[i as int] == wire::message(
                counter_point_fields(model::collected_point(*dp), start_time, time),
            ));
            wire::lemma_append(
                old(buf)@,
                wire::repeated_field(1, bodies.take(i as int)),
                wire::opt_bytes_field(1, bodies[i as int]),
            );
        }
        encode_counter_point_field(buf, dp, start_time, time);
        i = i + 1;
    }
    assert(bodies.take(i as int) =~= bodies);
    encode_varint_field(buf, 2, AGGREGATION_TEMPORALITY_CUMULATIVE);
    encode_varint_field(buf, 3, 1);
    proof {
        let points = wire::repeated_field(1, bodies);
        wire::lemma_append(old(buf)@, points, wire::opt_varint_field(2, 2));
        wire::lemma_append(
            old(buf)@,
            points + wire::opt_varint_field(2, 2),
            wire::opt_varint_field(3, 1),
        );
    }
}

/// Appends a gauge's data point as a nested message.
fn encode_gauge_point_field(buf: &mut Vec<u8>, dp: &GaugeDataPoint, start_time: u64, time: u64)
    requires
        wire::message(gauge_point_fields(model::collected_point(*dp), start_time, time)).len()
            < MAX_MESSAGE_LEN,
    ensures
        final(buf)@ == old(buf)@ + wire::message(
            wire::opt_bytes_field(
                1,
                wire::message(gauge_point_fields(model::collected_point(*dp), start_time, time)),
            ),
        ),
{
    broadcast use wire::lemma_skip_prefix;

    proof {
        lemma_gauge_point_fits(model::collected_point(*dp), start_time, time);
    }
    let body = |b: &mut Vec<u8>|
        ensures
            final(b)@ == old(b)@ + wire::message(
                gauge_point_fields(model::collected_point(*dp), start_time, time),
            ),
        {
            encode_gauge_data_point(b, &dp.0, start_time, time, dp.1, &dp.2);
        };
    encode_message_field_in_place(buf, 1, body);
}

/// Appends a `Gauge` message.
pub fn encode_gauge_msg(
    buf: &mut Vec<u8>,
    data_points: &[GaugeDataPoint],
    start_time: u64,
    time: u64,
)
    requires
        wire::all_fit(gauge_point_bodies(values_model(data_points@), start_time, time)),
    ensures
        final(buf)@ == old(buf)@ + wire::message(
            gauge_fields(values_model(data_points@), start_time, time),
        ),
{
    let ghost bodies = gauge_point_bodies(values_model(data_points@), start_time, time);
    let mut i: usize = 0;
    while i < data_points.len()
        invariant
            i <= data_points.len(),
            bodies == gauge_point_bodies(values_model(data_points@), start_time, time),
            wire::all_fit(bodies),
            buf@ == old(buf)@ + wire::message(wire::repeated_field(1, bodies.take(i as int))),
        decreases data_points.len() - i,
    {
        let dp: &GaugeDataPoint = &data_points[i];
        proof {
            wire::lemma_repeated_push(1, bodies, i as int);
            assert(bodies[i as int] == wire::message(
                gauge_point_fields(model::collected_point(*dp), start_time, time),
            ));
            wire::lemma_append(
                old(buf)@,
                wire::repeated_field(1, bodies.take(i as int)),
                wire::opt_bytes_field(1, bodies[i as int]),
            );
        }
        encode_gauge_point_field(buf, dp, start_time, time);
        i = i + 1;
    }
    assert(bodies.take(i as int) =~= bodies);
}

/// Appends a histogram's data point as a nested message.
fn encode_histogram_point_field(
    buf: &mut Vec<u8>,
    dp: &HistogramDataPoint,
    boundaries: &[u64],
    start_time: u64,
    time: u64,
)
    requires
        wire::message(histogram_point_fields(model::collected_distribution(*dp), boundaries@, start_time, time)).len(
        )
            < MAX_MESSAGE_LEN,
    ensures
        final(buf)@ == old(buf)@ + wire::message(
            wire::opt_bytes_field(
                1,
                wire::message(
                    histogram_point_fields(model::collected_distribution(*dp), boundaries@, start_time, time),
                ),
            ),
        ),
{
    broadcast use wire::lemma_skip_prefix;

    proof {
        lemma_histogram_point_fits(
            model::collected_distribution(*dp),
            boundaries@,
            start_time,
            time,
        );
    }
    let body = |b: &mut Vec<u8>|
        ensures
            final(b)@ == old(b)@ + wire::message(
                histogram_point_fields(
                    model::collected_distribution(*dp),
                    boundaries@,
                    start_time,
                    time,
                ),
            ),
        {
            encode_histogram_data_point(b, dp, boundaries, start_time, time);
        };
    encode_message_field_in_place(buf, 1, body);
}

/// Appends a `Histogram` message: cumulative.
pub fn encode_histogram_msg(
    buf: &mut Vec<u8>,
    data_points: &[HistogramDataPoint],
    boundaries: &[u64],
    start_time: u64,
    time: u64,
)
    requires
        wire::all_fit(
            histogram_point_bodies(distributions_model(data_points@), boundaries@, start_time, time),
        ),
    ensures
        final(buf)@ == old(buf)@ + wire::message(
            histogram_fields(distributions_model(data_points@), boundaries@, start_time, time),
        ),
{
    let ghost bodies = histogram_point_bodies(
        distributions_model(data_points@),
        boundaries@,
        start_time,
        time,
    );
    let mut i: usize = 0;
    while i < data_points.len()
        invariant
            i <= data_points.len(),
            bodies == histogram_point_bodies(
                distributions_model(data_points@),
                boundaries@,
                start_time,
                time,
            ),
            wire::all_fit(bodies),
            buf@ == old(buf)@ + wire::message(wire::repeated_field(1, bodies.take(i as int))),
        decreases data_points.len() - i,
    {
        let dp: &HistogramDataPoint = &data_points[i];
        proof {
            wire::lemma_repeated_push(1, bodies, i as int);
            assert(bodies[i as int] == wire::message(
                histogram_point_fields(
                    model::collected_distribution(*dp),
                    boundaries@,
                    start_time,
                    time,
                ),
            ));
            wire::lemma_append(
                old(buf)@,
                wire::repeated_field(1, bodies.take(i as int)),
                wire::opt_bytes_field(1, bodies[i as int]),
            );
        }
        encode_histogram_point_field(buf, dp, boundaries, start_time, time);
        i = i + 1;
    }
    assert(bodies.take(i as int) =~= bodies);
    encode_varint_field(buf, 2, AGGREGATION_TEMPORALITY_CUMULATIVE);
    proof {
        wire::lemma_append(
            old(buf)@,
            wire::repeated_field(1, bodies),
            wire::opt_varint_field(2, 2),
        );
    }
}

/// Appends the name and the description of a metric.
fn encode_metric_head(buf: &mut Vec<u8>, name: &str, description: &str)
    ensures
        final(buf)@ == old(buf)@ + wire::message(metric_head(name@, description@)),
{
    encode_string_field(buf, 1, name);
    encode_string_field(buf, 2, description);
    proof {
        wire::lemma_append(
            old(buf)@,
            wire::opt_bytes_field(1, vstd::utf8::encode_utf8(name@)),
            wire::opt_bytes_field(2, vstd::utf8::encode_utf8(description@)),
        );
    }
}

/// The data points of a metric, as one nested message, are short enough to be
/// written.
pub open spec fn metric_fits(snapshot: SnapshotModel, start_time: u64, time: u64) -> bool {
    match snapshot {
        SnapshotModel::Counter { name, description, counts } => wire::message(
            sum_fields(counts, start_time, time),
        ).len() < MAX_MESSAGE_LEN,
        SnapshotModel::Gauge { name, description, values } => wire::message(
            gauge_fields(values, start_time, time),
        ).len() < MAX_MESSAGE_LEN,
        SnapshotModel::Histogram { name, description, boundaries, distributions } => wire::message(
            histogram_fields(distributions, boundaries, start_time, time),
        ).len() < MAX_MESSAGE_LEN,
    }
}

/// Where a `Metric` message is short enough to be nested, its data points are.
proof fn lemma_metric_fits(snapshot: SnapshotModel, start_time: u64, time: u64)
    requires
        wire::message(metric_fields(snapshot, start_time, time)).len() < MAX_MESSAGE_LEN,
    ensures
        metric_fits(snapshot, start_time, time),
{
    broadcast use wire::lemma_message_concat, wire::lemma_bytes_field_len;

}

/// Where a `Sum` message is short enough to be nested, its data points are.
proof fn lemma_sum_fits(points: Seq<Point<i64>>, start_time: u64, time: u64)
    requires
        wire::message(sum_fields(points, start_time, time)).len() < MAX_MESSAGE_LEN,
    ensures
        wire::all_fit(counter_point_bodies(points, start_time, time)),
{
    let bodies = counter_point_bodies(points, start_time, time);
    let f1 = wire::repeated_field(1, bodies);
    let f2 = wire::opt_varint_field(2, 2);
    let f3 = wire::opt_varint_field(3, 1);
    wire::lemma_message_concat(f1 + f2, f3);
    wire::lemma_message_concat(f1, f2);
    wire::lemma_entries_fit(1, bodies);
}

/// Where a `Histogram` message is short enough to be nested, its data points are.
proof fn lemma_histogram_fits(
    points: Seq<Point<HistogramPoint>>,
    boundaries: Seq<u64>,
    start_time: u64,
    time: u64,
)
    requires
        wire::message(histogram_fields(points, boundaries, start_time, time)).len()
            < MAX_MESSAGE_LEN,
    ensures
        wire::all_fit(histogram_point_bodies(points, boundaries, start_time, time)),
{
    let bodies = histogram_point_bodies(points, boundaries, start_time, time);
    wire::lemma_message_concat(wire::repeated_field(1, bodies), wire::opt_varint_field(2, 2));
    wire::lemma_entries_fit(1, bodies);
}

/// Appends a `Metric` message.
pub fn encode_metric(buf: &mut Vec<u8>, snapshot: &MetricSnapshot, start_time: u64, time: u64)
    requires
        metric_fits(snapshot.model(), start_time, time),
    ensures
        final(buf)@ == old(buf)@ + wire::message(metric_fields(snapshot.model(), start_time, time)),
{
    broadcast use wire::lemma_skip_prefix;

    match snapshot {
        MetricSnapshot::Counter { name, description, data_points } => {
            encode_metric_head(buf, name, description);
            let ghost bytes = wire::message(
                sum_fields(counts_model(data_points@), start_time, time),
            );
            proof {
                lemma_sum_fits(counts_model(data_points@), start_time, time);
                wire::lemma_append(
                    old(buf)@,
                    metric_head(name@, description@),
                    wire::opt_bytes_field(7, bytes),
                );
            }
            let body = |b: &mut Vec<u8>|
                ensures
                    final(b)@ == old(b)@ + bytes,
                {
                    encode_sum(b, data_points, start_time, time);
                };
            encode_message_field_in_place(buf, 7, body);
        },
        MetricSnapshot::Gauge { name, description, data_points } => {
            encode_metric_head(buf, name, description);
            let ghost bytes = wire::message(
                gauge_fields(values_model(data_points@), start_time, time),
            );
            proof {
                wire::lemma_entries_fit(
                    1,
                    gauge_point_bodies(values_model(data_points@), start_time, time),
                );
                wire::lemma_append(
                    old(buf)@,
                    metric_head(name@, description@),
                    wire::opt_bytes_field(5, bytes),
                );
            }
            let body = |b: &mut Vec<u8>|
                ensures
                    final(b)@ == old(b)@ + bytes,
                {
                    encode_gauge_msg(b, data_points, start_time, time);
                };
            encode_message_field_in_place(buf, 5, body);
        },
        MetricSnapshot::Histogram { name, description, boundaries, data_points } => {
            encode_metric_head(buf, name, description);
            let ghost bytes = wire::message(
                histogram_fields(distributions_model(data_points@), boundaries@, start_time, time),
            );
            proof {
                lemma_histogram_fits(
                    distributions_model(data_points@),
                    boundaries@,
                    start_time,
                    time,
                );
                wire::lemma_append(
                    old(buf)@,
                    metric_head(name@, description@),
                    wire::opt_bytes_field(9, bytes),
                );
            }
            let body = |b: &mut Vec<u8>|
                ensures
                    final(b)@ == old(b)@ + bytes,
                {
                    encode_histogram_msg(b, data_points, boundaries, start_time, time);
                };
            encode_message_field_in_place(buf, 9, body);
        },
    }
}

/// Appends a metric as a nested message of a `ScopeMetrics` message.
fn encode_metric_field(buf: &mut Vec<u8>, snapshot: &MetricSnapshot, start_time: u64, time: u64)
    requires
        wire::message(metric_fields(snapshot.model(), start_time, time)).len() < MAX_MESSAGE_LEN,
    ensures
        final(buf)@ == old(buf)@ + wire::message(
            wire::opt_bytes_field(
                2,
                wire::message(metric_fields(snapshot.model(), start_time, time)),
            ),
        ),
{
    broadcast use wire::lemma_skip_prefix;

    proof {
        lemma_metric_fits(snapshot.model(), start_time, time);
    }
    let body = |b: &mut Vec<u8>|
        ensures
            final(b)@ == old(b)@ + wire::message(metric_fields(snapshot.model(), start_time, time)),
        {
            encode_metric(b, snapshot, start_time, time);
        };
    encode_message_field_in_place(buf, 2, body);
}

/// Appends the metrics, each as an entry of the repeated field of a
/// `ScopeMetrics` message.
fn encode_metrics(buf: &mut Vec<u8>, snapshots: &[MetricSnapshot], start_time: u64, time: u64)
    requires
        wire::all_fit(metric_bodies(model::snapshot_models(snapshots@), start_time, time)),
    ensures
        final(buf)@ == old(buf)@ + wire::message(
            wire::repeated_field(
                2,
                metric_bodies(model::snapshot_models(snapshots@), start_time, time),
            ),
        ),
{
    let ghost bodies = metric_bodies(model::snapshot_models(snapshots@), start_time, time);
    let mut i: usize = 0;
    while i < snapshots.len()
        invariant
            i <= snapshots.len(),
            bodies == metric_bodies(model::snapshot_models(snapshots@), start_time, time),
            wire::all_fit(bodies),
            buf@ == old(buf)@ + wire::message(wire::repeated_field(2, bodies.take(i as int))),
        decreases snapshots.len() - i,
    {
        let snapshot: &MetricSnapshot = &snapshots[i];
        proof {
            wire::lemma_repeated_push(2, bodies, i as int);
            assert(
                bodies[i as int] == wire::message(metric_fields(snapshot.model(), start_time, time))
            );
            wire::lemma_append(
                old(buf)@,
                wire::repeated_field(2, bodies.take(i as int)),
                wire::opt_bytes_field(2, bodies[i as int]),
            );
        }
        encode_metric_field(buf, snapshot, start_time, time);
        i = i + 1;
    }
    assert(bodies.take(i as int) =~= bodies);
}

/// Appends a `ScopeMetrics` message.
fn encode_scope_metrics(
    buf: &mut Vec<u8>,
    scope_name: &str,
    scope_version: &str,
    snapshots: &[MetricSnapshot],
    start_time: u64,
    time: u64,
)
    requires
        wire::message(
            scope_metrics_fields(
                scope_name@,
                scope_version@,
                model::snapshot_models(snapshots@),
                start_time,
                time,
            ),
        ).len() < MAX_MESSAGE_LEN,
    ensures
        final(buf)@ == old(buf)@ + wire::message(
            scope_metrics_fields(
                scope_name@,
                scope_version@,
                model::snapshot_models(snapshots@),
                start_time,
                time,
            ),
        ),
{
    broadcast use wire::lemma_skip_prefix;

    let ghost scope_body = wire::message(otlp_trace::scope_fields(scope_name@, scope_version@));
    let ghost metrics = wire::repeated_field(
        2,
        metric_bodies(model::snapshot_models(snapshots@), start_time, time),
    );
    proof {
        wire::lemma_two_part_len(1, scope_body, metrics);
        wire::lemma_entries_fit(
            2,
            metric_bodies(model::snapshot_models(snapshots@), start_time, time),
        );
    }
    let scope = |b: &mut Vec<u8>|
        ensures
            final(b)@ == old(b)@ + scope_body,
        {
            encode_scope(b, scope_name, scope_version);
        };
    encode_message_field_in_place(buf, 1, scope);
    encode_metrics(buf, snapshots, start_time, time);
    proof {
        wire::lemma_append(old(buf)@, wire::opt_bytes_field(1, scope_body), metrics);
    }
}

/// Appends a `ResourceMetrics` message.
fn encode_resource_metrics(
    buf: &mut Vec<u8>,
    resource_attrs: &[KeyValue],
    scope_name: &str,
    scope_version: &str,
    snapshots: &[MetricSnapshot],
    start_time: u64,
    time: u64,
)
    requires
        wire::message(
            resource_metrics_fields(
                otlp_trace::attrs_model(resource_attrs@),
                scope_name@,
                scope_version@,
                model::snapshot_models(snapshots@),
                start_time,
                time,
            ),
        ).len() < MAX_MESSAGE_LEN,
    ensures
        final(buf)@ == old(buf)@ + wire::message(
            resource_metrics_fields(
                otlp_trace::attrs_model(resource_attrs@),
                scope_name@,
                scope_version@,
                model::snapshot_models(snapshots@),
                start_time,
                time,
            ),
        ),
{
    broadcast use wire::lemma_skip_prefix;

    let ghost resource_body = wire::message(
        otlp_trace::resource_fields(otlp_trace::attrs_model(resource_attrs@)),
    );
    let ghost scope_body = wire::message(
        scope_metrics_fields(
                scope_name@,
                scope_version@,
                model::snapshot_models(snapshots@),
                start_time,
                time,
            ),
    );
    proof {
        wire::lemma_two_part_len(1, resource_body, wire::opt_bytes_field(2, scope_body));
        wire::lemma_bytes_field_len(2, scope_body);
        wire::lemma_entries_fit(
            1,
            otlp_trace::key_value_bodies(otlp_trace::attrs_model(resource_attrs@)),
        );
    }
    let resource = |b: &mut Vec<u8>|
        ensures
            final(b)@ == old(b)@ + resource_body,
        {
            encode_resource(b, resource_attrs);
        };
    encode_message_field_in_place(buf, 1, resource);
    let scope_metrics = |b: &mut Vec<u8>|
        ensures
            final(b)@ == old(b)@ + scope_body,
        {
            encode_scope_metrics(b, scope_name, scope_version, snapshots, start_time, time);
        };
    encode_message_field_in_place(buf, 2, scope_metrics);
    proof {
        wire::lemma_append(
            old(buf)@,
            wire::opt_bytes_field(1, resource_body),
            wire::opt_bytes_field(2, scope_body),
        );
    }
}

/// Encodes an `ExportMetricsServiceRequest` with one resource and one scope.
pub fn encode_export_metrics_request(
    resource_attrs: &[KeyValue],
    scope_name: &str,
    scope_version: &str,
    snapshots: &[MetricSnapshot],
    start_time_unix_nano: u64,
    time_unix_nano: u64,
) -> (request: Vec<u8>)
    requires
        wire::message(
            resource_metrics_fields(
                otlp_trace::attrs_model(resource_attrs@),
                scope_name@,
                scope_version@,
                model::snapshot_models(snapshots@),
                start_time_unix_nano,
                time_unix_nano,
            ),
        ).len() < MAX_MESSAGE_LEN,
    ensures
        request@ == wire::message(
            metrics_request_fields(
                otlp_trace::attrs_model(resource_attrs@),
                scope_name@,
                scope_version@,
                model::snapshot_models(snapshots@),
                start_time_unix_nano,
                time_unix_nano,
            ),
        ),
{
    broadcast use wire::lemma_skip_prefix;

    let mut request_buf: Vec<u8> = Vec::new();
    let ghost bytes = wire::message(
        resource_metrics_fields(
            otlp_trace::attrs_model(resource_attrs@),
            scope_name@,
            scope_version@,
            model::snapshot_models(snapshots@),
            start_time_unix_nano,
            time_unix_nano,
        ),
    );
    let resource_metrics = |b: &mut Vec<u8>|
        ensures
            final(b)@ == old(b)@ + bytes,
        {
            encode_resource_metrics(
                b,
                resource_attrs,
                scope_name,
                scope_version,
                snapshots,
                start_time_unix_nano,
                time_unix_nano,
            );
        };
    encode_message_field_in_place(&mut request_buf, 1, resource_metrics);
    request_buf
}

} // verus!
