//! What the models of the data types say of a value, field by field.
use vstd::prelude::*;

use crate::attrs;
use crate::batch;
use crate::batch::{PendingPost, Signal};
use crate::exporter;
use crate::metrics::MetricSnapshot;
use crate::monoio_exporter;
use crate::otlp_layer::{FieldCollector, SpanFields};
use crate::otlp_log;
use crate::otlp_log::LogData;
use crate::otlp_trace;
use crate::otlp_trace::{AnyValue, KeyValue, SpanData, SpanStatus, ValueModel};
use crate::payload;

verus! {

/// A value is modelled as what it holds.
pub proof fn lemma_value_is_its_model(s: String, i: i64, b: bool, bits: u64, bytes: Vec<u8>)
    ensures
        AnyValue::String(s)@ == ValueModel::String(s@),
        AnyValue::Int(i)@ == ValueModel::Int(i),
        AnyValue::Bool(b)@ == ValueModel::Bool(b),
        AnyValue::Double(bits)@ == ValueModel::Double(bits),
        AnyValue::Bytes(bytes)@ == ValueModel::Bytes(bytes@),
{
}

/// An attribute list is modelled by its keys and values, in order.
pub proof fn lemma_attributes_are_their_model(attributes: Seq<KeyValue>, i: int)
    requires
        0 <= i < attributes.len(),
    ensures
        otlp_trace::attrs_model(attributes).len() == attributes.len(),
        otlp_trace::attrs_model(attributes)[i].key == attributes[i].key@,
        otlp_trace::attrs_model(attributes)[i].value == attributes[i].value@,
{
}

/// A span is modelled by its fields.
pub proof fn lemma_span_is_its_model(span: SpanData, status: SpanStatus)
    ensures
        span@.trace_id == span.trace_id@,
        span@.span_id == span.span_id@,
        span@.parent_span_id == span.parent_span_id@,
        span@.name == span.name@,
        span@.kind == span.kind,
        span@.start_time_unix_nano == span.start_time_unix_nano,
        span@.end_time_unix_nano == span.end_time_unix_nano,
        span@.attributes == otlp_trace::attrs_model(span.attributes@),
        span@.status is Some == span.status is Some,
        span.status == Some(status) ==> span@.status->0.message == status.message@
            && span@.status->0.code == status.code,
{
}

/// A log record is modelled by its fields.
pub proof fn lemma_log_is_its_model(log: LogData)
    ensures
        log@.time_unix_nano == log.time_unix_nano,
        log@.severity_number == log.severity_number,
        log@.severity_text == log.severity_text@,
        log@.body == log.body@,
        log@.attributes == otlp_trace::attrs_model(log.attributes@),
        log@.trace_id == log.trace_id@,
        log@.span_id == log.span_id@,
{
}

/// Lists of spans and of log records are modelled one by one, in order.
pub proof fn lemma_lists_are_their_models(spans: Seq<SpanData>, logs: Seq<LogData>, i: int)
    ensures
        otlp_trace::spans_model(spans).len() == spans.len(),
        0 <= i < spans.len() ==> otlp_trace::spans_model(spans)[i] == spans[i]@,
        otlp_log::logs_model(logs).len() == logs.len(),
        0 <= i < logs.len() ==> otlp_log::logs_model(logs)[i] == logs[i]@,
{
}

/// Collected fields are modelled by what was collected.
pub proof fn lemma_collector_is_its_model(collector: FieldCollector)
    ensures
        collector@.attrs == otlp_trace::attrs_model(collector.attrs@),
        collector@.trace_id is Some == collector.trace_id is Some,
        collector.trace_id is Some ==> collector@.trace_id->0 == collector.trace_id->0@,
        collector@.message is Some == collector.message is Some,
        collector.message is Some ==> collector@.message->0 == collector.message->0@,
        collector@.span_kind == collector.span_kind,
        collector@.status_code == collector.status_code,
        collector@.status_message is Some == collector.status_message is Some,
        collector.status_message is Some ==> collector@.status_message->0
            == collector.status_message->0@,
{
}

/// An open span is modelled by what is kept of it.
pub proof fn lemma_fields_are_their_model(fields: SpanFields)
    ensures
        fields@.attrs == otlp_trace::attrs_model(fields.attrs@),
        fields@.trace_id == fields.trace_id@,
        fields@.span_id == fields.span_id@,
        fields@.parent_span_id == fields.parent_span_id@,
        fields@.sampled == fields.sampled,
        fields@.span_kind == fields.span_kind,
        fields@.status_code == fields.status_code,
        fields@.status_message is Some == fields.status_message is Some,
        fields.status_message is Some ==> fields@.status_message->0 == fields.status_message->0@,
{
}

/// Attributes are modelled as pairs of key and value, in order.
pub proof fn lemma_pairs_are_their_model(
    given: Seq<(&str, &str)>,
    stored: Seq<(String, String)>,
    i: int,
)
    ensures
        attrs::pairs(given).len() == given.len(),
        0 <= i < given.len() ==> attrs::pairs(given)[i] == (given[i].0@, given[i].1@),
        attrs::stored_pairs(stored).len() == stored.len(),
        0 <= i < stored.len() ==> attrs::stored_pairs(stored)[i] == (stored[i].0@, stored[i].1@),
{
}

/// A message to an exporter is modelled by its signal and its bytes.
pub proof fn lemma_message_is_its_model(data: bytes::Bytes)
    ensures
        exporter::ExportMessage::Traces(data)@ == (exporter::MessageModel::Data {
            signal: Signal::Traces,
            bytes: payload::contents(data),
        }),
        exporter::ExportMessage::Logs(data)@ == (exporter::MessageModel::Data {
            signal: Signal::Logs,
            bytes: payload::contents(data),
        }),
        exporter::ExportMessage::Metrics(data)@ == (exporter::MessageModel::Data {
            signal: Signal::Metrics,
            bytes: payload::contents(data),
        }),
        exporter::ExportMessage::Flush@ == exporter::MessageModel::Flush,
        exporter::ExportMessage::Shutdown@ == exporter::MessageModel::Shutdown,
        monoio_exporter::ExportMessage::Traces(data)@.signal == Signal::Traces,
        monoio_exporter::ExportMessage::Traces(data)@.bytes == payload::contents(data),
        monoio_exporter::ExportMessage::Logs(data)@.signal == Signal::Logs,
        monoio_exporter::ExportMessage::Logs(data)@.bytes == payload::contents(data),
        monoio_exporter::ExportMessage::Metrics(data)@.signal == Signal::Metrics,
        monoio_exporter::ExportMessage::Metrics(data)@.bytes == payload::contents(data),
{
}

/// A post is modelled by where it goes and what it carries, and several posts one by one.
pub proof fn lemma_post_is_its_model(post: PendingPost, posts: Seq<PendingPost>, i: int)
    ensures
        post@.url == post.url@,
        post@.payload == post.payload@,
        batch::post_model(None) is None,
        batch::post_model(Some(post)) == Some(post@),
        exporter::posts_model(posts).len() == posts.len(),
        0 <= i < posts.len() ==> exporter::posts_model(posts)[i] == posts[i]@,
{
}

/// The snapshot of a metric is modelled by its name, its description and its data points, in
/// order.
pub proof fn lemma_snapshot_is_its_model(snapshot: MetricSnapshot)
    ensures
        match snapshot {
            MetricSnapshot::Counter { name, description, data_points } => {
                let model = snapshot.model();
                &&& model is Counter
                &&& model->Counter_name == name@
                &&& model->Counter_description == description@
                &&& model->counts.len() == data_points@.len()
                &&& forall|i: int| #![trigger model->counts[i]]
                    0 <= i < data_points@.len() ==> {
                        &&& model->counts[i].attrs == attrs::stored_pairs(data_points@[i].0@)
                        &&& model->counts[i].value == data_points@[i].1
                        &&& model->counts[i].exemplar == data_points@[i].2
                    }
            },
            MetricSnapshot::Gauge { name, description, data_points } => {
                let model = snapshot.model();
                &&& model is Gauge
                &&& model->Gauge_name == name@
                &&& model->Gauge_description == description@
                &&& model->values.len() == data_points@.len()
                &&& forall|i: int| #![trigger model->values[i]]
                    0 <= i < data_points@.len() ==> {
                        &&& model->values[i].attrs == attrs::stored_pairs(data_points@[i].0@)
                        &&& model->values[i].value == data_points@[i].1
                        &&& model->values[i].exemplar == data_points@[i].2
                    }
            },
            MetricSnapshot::Histogram { name, description, boundaries, data_points } => {
                let model = snapshot.model();
                &&& model is Histogram
                &&& model->Histogram_name == name@
                &&& model->Histogram_description == description@
                &&& model->boundaries == boundaries@
                &&& model->distributions.len() == data_points@.len()
                &&& forall|i: int| #![trigger model->distributions[i]]
                    0 <= i < data_points@.len() ==> {
                        let point = model->distributions[i];
                        &&& point.attrs == attrs::stored_pairs(data_points@[i].attrs@)
                        &&& point.value.bucket_counts == data_points@[i].bucket_counts@
                        &&& point.value.sum == data_points@[i].sum
                        &&& point.value.count == data_points@[i].count
                        &&& point.value.min == data_points@[i].min
                        &&& point.value.max == data_points@[i].max
                        &&& point.exemplar == data_points@[i].exemplar
                    }
            },
        },
{
}

} // verus!
