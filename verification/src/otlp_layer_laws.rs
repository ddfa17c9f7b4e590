//! What holds of the tracing layer: what a collector reads in the requests that it makes, and
//! what becomes of the fields of spans and events on the way there.
use vstd::prelude::*;

use crate::constants::fields;
use crate::hex;
use crate::otlp_layer;
use crate::otlp_layer::{
    CollectorModel, LayerModel, Level, OtlpLayer, SpanContext, SpanFields, SpanFieldsModel,
};
use crate::otlp_trace::{KeyValueModel, SpanKind, StatusCode, ValueModel};
use crate::reading;
use crate::reading::ReadValue;
use crate::sampling;

verus! {

/// Whether a trace request holds this span of this layer and no other: its ids, its name, its
/// kind, its start and end, its attributes and its status.
pub open spec fn span_told(
    request: Seq<u8>,
    layer: LayerModel,
    span: SpanFieldsModel,
    name: Seq<char>,
    start_nanos: u64,
    end_nanos: u64,
) -> bool {
    let outer = reading::read_bytes(request, 1);
    let spans = reading::read_repeated(reading::read_bytes(outer, 2), 2);
    let status = reading::read_bytes(spans[0], 15);
    &&& reading::tells_origin(outer, layer.resource_attrs, layer.scope_name, layer.scope_version)
    &&& spans.len() == 1
    &&& reading::read_bytes(spans[0], 1) == span.trace_id
    &&& reading::read_bytes(spans[0], 2) == span.span_id
    &&& reading::read_bytes(spans[0], 4) == span.parent_span_id
    &&& reading::read_string(spans[0], 5) == name
    &&& reading::read_varint(spans[0], 6) == (match span.span_kind {
        SpanKind::Unspecified => 0,
        SpanKind::Internal => 1,
        SpanKind::Server => 2,
        SpanKind::Client => 3,
        SpanKind::Producer => 4,
        SpanKind::Consumer => 5u64,
    })
    &&& reading::read_fixed64(spans[0], 7) == start_nanos
    &&& reading::read_fixed64(spans[0], 8) == end_nanos
    &&& reading::tell_attrs(reading::read_repeated(spans[0], 9), span.attrs)
    &&& match span.status_code {
        StatusCode::Unset => reading::read_repeated(spans[0], 15).len() == 0,
        StatusCode::Okay => reading::read_varint(status, 3) == 1,
        StatusCode::Error => reading::read_varint(status, 3) == 2,
    }
    &&& span.status_code != StatusCode::Unset ==> reading::read_string(status, 2) == (
    match span.status_message {
        Some(message) => message,
        None => Seq::empty(),
    })
}

/// The trace request for a span that closes tells the span as it was kept while it was open, with
/// the times at which it started and ended.
pub proof fn lemma_closed_span_is_told(
    layer: &OtlpLayer,
    span: SpanFieldsModel,
    name: Seq<char>,
    start_nanos: u64,
    end_nanos: u64,
)
    requires
        span.trace_id.len() == 16,
        span.span_id.len() == 8,
        span.parent_span_id.len() == 8,
    ensures
        span_told(
            layer.span_request(otlp_layer::closed_span(span, name, start_nanos, end_nanos)),
            layer@,
            span,
            name,
            start_nanos,
            end_nanos,
        ),
{
    let data = otlp_layer::closed_span(span, name, start_nanos, end_nanos);
    reading::lemma_trace_request_tells(
        layer@.resource_attrs,
        layer@.scope_name,
        layer@.scope_version,
        seq![data],
    );
    let outer = reading::read_bytes(layer.span_request(data), 1);
    let spans = reading::read_repeated(reading::read_bytes(outer, 2), 2);
    assert(reading::tells_span(spans[0], seq![data][0]));
}

/// Whether a logs request holds this event and no other: its time, its severity, its message, its
/// attributes and the ids of the span that it is in.
pub open spec fn event_told(
    request: Seq<u8>,
    layer: LayerModel,
    collected: CollectorModel,
    context: Option<SpanContext>,
    level: Level,
    time: u64,
) -> bool {
    let outer = reading::read_bytes(request, 1);
    let logs = reading::read_repeated(reading::read_bytes(outer, 2), 2);
    &&& reading::tells_origin(outer, layer.resource_attrs, layer.scope_name, layer.scope_version)
    &&& logs.len() == 1
    &&& reading::read_fixed64(logs[0], 1) == time
    &&& match level {
        Level::Trace => reading::read_varint(logs[0], 2) == 1 && reading::read_string(logs[0], 3)
            == "TRACE"@,
        Level::Debug => reading::read_varint(logs[0], 2) == 5 && reading::read_string(logs[0], 3)
            == "DEBUG"@,
        Level::Info => reading::read_varint(logs[0], 2) == 9 && reading::read_string(logs[0], 3)
            == "INFO"@,
        Level::Warn => reading::read_varint(logs[0], 2) == 13 && reading::read_string(logs[0], 3)
            == "WARN"@,
        Level::Error => reading::read_varint(logs[0], 2) == 17 && reading::read_string(logs[0], 3)
            == "ERROR"@,
    }
    &&& reading::read_any_value(reading::read_bytes(logs[0], 5)) == (match collected.message {
        Some(message) => if message.len() > 0 {
            ReadValue::String(message)
        } else {
            ReadValue::Absent
        },
        None => ReadValue::Absent,
    })
    &&& reading::tell_attrs(reading::read_repeated(logs[0], 6), collected.attrs)
    &&& match context {
        Some(context) => {
            &&& reading::read_bytes(logs[0], 9) == context.trace_id@
            &&& reading::read_bytes(logs[0], 10) == context.span_id@
        },
        None => {
            &&& reading::read_bytes(logs[0], 9) == Seq::new(16, |i: int| 0u8)
            &&& reading::read_bytes(logs[0], 10) == Seq::new(8, |i: int| 0u8)
        },
    }
}

/// The logs request for an event tells everything that was collected of it, in order, and which
/// span it is in.
pub proof fn lemma_event_is_told(
    layer: &OtlpLayer,
    collected: CollectorModel,
    context: Option<SpanContext>,
    level: Level,
    time: u64,
)
    ensures
        event_told(
            layer.event_request(collected, context, level, time),
            layer@,
            collected,
            context,
            level,
            time,
        ),
{
    let record = otlp_layer::event_record(collected, context, level, time);
    reading::lemma_logs_request_tells(
        layer@.resource_attrs,
        layer@.scope_name,
        layer@.scope_version,
        seq![record],
    );
    let request = layer.event_request(collected, context, level, time);
    let outer = reading::read_bytes(request, 1);
    let logs = reading::read_repeated(reading::read_bytes(outer, 2), 2);
    assert(reading::tells_log(logs[0], seq![record][0]));
}

/// Which spans and events are exported: with traces, every sampled span whose start and fields
/// are known; with logs, every event outside of a span or in a sampled one.
pub proof fn lemma_what_is_exported(
    layer: LayerModel,
    start_nanos: Option<u64>,
    span: Option<&SpanFields>,
    context: Option<SpanContext>,
)
    ensures
        start_nanos is None || span is None ==> !otlp_layer::span_exported(
            layer,
            start_nanos,
            span,
        ),
        start_nanos is Some && span is Some ==> otlp_layer::span_exported(layer, start_nanos, span)
            == (layer.export_traces && span->0.sampled),
        context is None ==> otlp_layer::event_exported(layer, context) == layer.export_logs,
        context is Some ==> otlp_layer::event_exported(layer, context) == (layer.export_logs
            && context->0.sampled),
{
}

/// What is kept of a new span besides its trace: what was collected, the span id, and of what was
/// not collected the defaults.
pub proof fn lemma_opened_span_keeps_fields(
    collected: CollectorModel,
    parent: Option<SpanContext>,
    span_id: Seq<u8>,
    generated: Seq<u8>,
    sampling_rate: u64,
)
    ensures
        ({
            let span = otlp_layer::opened(collected, parent, span_id, generated, sampling_rate);
            &&& span.attrs == collected.attrs
            &&& span.span_id == span_id
            &&& span.status_message == collected.status_message
            &&& collected.span_kind matches Some(kind) ==> span.span_kind == kind
            &&& collected.span_kind is None ==> span.span_kind == SpanKind::Internal
            &&& collected.status_code matches Some(code) ==> span.status_code == code
            &&& collected.status_code is None ==> span.status_code == StatusCode::Unset
        }),
{
}

/// A span without a parent begins a trace: it names no parent, has the trace id in its fields or
/// else the generated one, and is sampled by that id.
pub proof fn lemma_root_begins_trace(
    collected: CollectorModel,
    span_id: Seq<u8>,
    generated: Seq<u8>,
    sampling_rate: u64,
)
    ensures
        ({
            let span = otlp_layer::opened(collected, None, span_id, generated, sampling_rate);
            &&& span.parent_span_id == Seq::new(8, |i: int| 0u8)
            &&& collected.trace_id matches Some(id) ==> span.trace_id == id
            &&& collected.trace_id is None ==> span.trace_id == generated
            &&& span.sampled == sampling::sampled(span.trace_id, sampling_rate)
        }),
{
}

/// Fields that are recorded on an open span add to its attributes and replace its kind, status
/// code and status message where they are given; ids and sampling stay.
pub proof fn lemma_recording_adds_to_span(span: SpanFieldsModel, collected: CollectorModel)
    ensures
        ({
            let after = otlp_layer::amended(span, collected);
            &&& after.attrs == span.attrs + collected.attrs
            &&& after.trace_id == span.trace_id
            &&& after.span_id == span.span_id
            &&& after.parent_span_id == span.parent_span_id
            &&& after.sampled == span.sampled
            &&& collected.span_kind matches Some(kind) ==> after.span_kind == kind
            &&& collected.span_kind is None ==> after.span_kind == span.span_kind
            &&& collected.status_code matches Some(code) ==> after.status_code == code
            &&& collected.status_code is None ==> after.status_code == span.status_code
            &&& collected.status_message is Some ==> after.status_message
                == collected.status_message
            &&& collected.status_message is None ==> after.status_message == span.status_message
        }),
{
}

/// A field with a text becomes an attribute with its name and its text, behind those that are
/// there, unless it is the message or a control field.
pub proof fn lemma_text_field_becomes_attribute(
    collector: CollectorModel,
    name: Seq<char>,
    value: Seq<char>,
)
    requires
        name != "message"@,
        name != "otel.kind"@,
        name != "otel.status_code"@,
        name != "otel.status_message"@,
    ensures
        ({
            let after = otlp_layer::with_text(collector, name, value);
            &&& after.attrs.len() == collector.attrs.len() + 1
            &&& after.attrs.last() == (KeyValueModel { key: name, value: ValueModel::String(value) })
            &&& after.attrs.drop_last() == collector.attrs
            &&& after.message == collector.message
            &&& after.span_kind == collector.span_kind
            &&& after.status_code == collector.status_code
            &&& after.status_message == collector.status_message
            &&& name != "trace_id"@ ==> after.trace_id == collector.trace_id
        }),
{
    let after = otlp_layer::with_text(collector, name, value);
    assert(after.attrs.drop_last() =~= collector.attrs);
}

/// A field of any type becomes an attribute with its name and its value, behind those that are
/// there, and touches nothing else.
pub proof fn lemma_field_becomes_attribute(
    collector: CollectorModel,
    name: Seq<char>,
    value: ValueModel,
)
    ensures
        ({
            let after = otlp_layer::with_attr(collector, name, value);
            &&& after.attrs.len() == collector.attrs.len() + 1
            &&& after.attrs.last() == (KeyValueModel { key: name, value })
            &&& after.attrs.drop_last() == collector.attrs
            &&& after.trace_id == collector.trace_id
            &&& after.message == collector.message
            &&& after.span_kind == collector.span_kind
            &&& after.status_code == collector.status_code
            &&& after.status_message == collector.status_message
        }),
{
    let after = otlp_layer::with_attr(collector, name, value);
    assert(after.attrs.drop_last() =~= collector.attrs);
}

/// A trace id of thirty-two hexadecimal digits is taken for the trace; any other text leaves the
/// trace id as it is.
pub proof fn lemma_trace_id_field(collector: CollectorModel, value: Seq<char>)
    ensures
        ({
            let after = otlp_layer::with_text(collector, "trace_id"@, value);
            let bytes = vstd::utf8::encode_utf8(value);
            &&& hex::is_hex_16(bytes) ==> after.trace_id == Some(hex::hex_value(bytes))
            &&& !hex::is_hex_16(bytes) ==> after.trace_id == collector.trace_id
        }),
{
    lemma_field_names_differ();
}

/// The message is kept as the message, and the control fields as what they say; none of them
/// becomes an attribute or touches anything else.
pub proof fn lemma_special_fields(collector: CollectorModel, value: Seq<char>)
    ensures
        otlp_layer::with_text(collector, "message"@, value) == (CollectorModel {
            message: Some(value),
            ..collector
        }),
        otlp_layer::with_text(collector, "otel.kind"@, value) == (CollectorModel {
            span_kind: otlp_layer::span_kind_of(value),
            ..collector
        }),
        otlp_layer::with_text(collector, "otel.status_code"@, value) == (CollectorModel {
            status_code: otlp_layer::status_code_of(value),
            ..collector
        }),
        otlp_layer::with_text(collector, "otel.status_message"@, value) == (CollectorModel {
            status_message: Some(value),
            ..collector
        }),
{
    lemma_field_names_differ();
}

/// The names of the fields that are not plain attributes.
proof fn lemma_field_names_differ()
    ensures
        fields::TRACE_ID@ == "trace_id"@,
        fields::OTEL_KIND@ == "otel.kind"@,
        fields::OTEL_STATUS_CODE@ == "otel.status_code"@,
        fields::OTEL_STATUS_MESSAGE@ == "otel.status_message"@,
        "message"@ != "trace_id"@,
        "message"@ != "otel.kind"@,
        "message"@ != "otel.status_code"@,
        "message"@ != "otel.status_message"@,
        "trace_id"@ != "otel.kind"@,
        "trace_id"@ != "otel.status_code"@,
        "trace_id"@ != "otel.status_message"@,
        "otel.kind"@ != "otel.status_code"@,
        "otel.kind"@ != "otel.status_message"@,
        "otel.status_code"@ != "otel.status_message"@,
{
    reveal_strlit("message");
    reveal_strlit("trace_id");
    reveal_strlit("otel.kind");
    reveal_strlit("otel.status_code");
    reveal_strlit("otel.status_message");
    assert("message"@[0] == 'm');
    assert("trace_id"@[0] == 't');
    assert("otel.kind"@.len() == 9);
    assert("otel.status_code"@.len() == 16);
    assert("otel.status_message"@.len() == 19);
}

/// A kind is named by its own name, in lowercase or in uppercase, and by no other text.
pub proof fn lemma_kind_names(text: Seq<char>)
    ensures
        ({
            let kind = otlp_layer::span_kind_of(text);
            &&& kind == Some(SpanKind::Internal) <==> text == "internal"@ || text == "INTERNAL"@
            &&& kind == Some(SpanKind::Server) <==> text == "server"@ || text == "SERVER"@
            &&& kind == Some(SpanKind::Client) <==> text == "client"@ || text == "CLIENT"@
            &&& kind == Some(SpanKind::Producer) <==> text == "producer"@ || text == "PRODUCER"@
            &&& kind == Some(SpanKind::Consumer) <==> text == "consumer"@ || text == "CONSUMER"@
            &&& kind != Some(SpanKind::Unspecified)
        }),
{
    reveal_strlit("internal");
    reveal_strlit("INTERNAL");
    reveal_strlit("server");
    reveal_strlit("SERVER");
    reveal_strlit("client");
    reveal_strlit("CLIENT");
    reveal_strlit("producer");
    reveal_strlit("PRODUCER");
    reveal_strlit("consumer");
    reveal_strlit("CONSUMER");
    assert("internal"@[0] == 'i' && "INTERNAL"@[0] == 'I');
    assert("server"@[0] == 's' && "SERVER"@[0] == 'S');
    assert("client"@[1] == 'l' && "CLIENT"@[1] == 'L');
    assert("client"@[0] == 'c' && "CLIENT"@[0] == 'C');
    assert("producer"@[0] == 'p' && "PRODUCER"@[0] == 'P');
    assert("consumer"@[1] == 'o' && "CONSUMER"@[1] == 'O');
    assert("consumer"@[0] == 'c' && "CONSUMER"@[0] == 'C');
}

/// A status code is named by its own name, in lowercase or in uppercase, and by no other text.
pub proof fn lemma_status_names(text: Seq<char>)
    ensures
        ({
            let code = otlp_layer::status_code_of(text);
            &&& code == Some(StatusCode::Okay) <==> text == "ok"@ || text == "OK"@
            &&& code == Some(StatusCode::Error) <==> text == "error"@ || text == "ERROR"@
            &&& code == Some(StatusCode::Unset) <==> text == "unset"@ || text == "UNSET"@
        }),
{
    reveal_strlit("ok");
    reveal_strlit("OK");
    reveal_strlit("error");
    reveal_strlit("ERROR");
    reveal_strlit("unset");
    reveal_strlit("UNSET");
    assert("ok"@[0] == 'o' && "OK"@[0] == 'O');
    assert("error"@[0] == 'e' && "ERROR"@[0] == 'E');
    assert("unset"@[0] == 'u' && "UNSET"@[0] == 'U');
}

/// A text between quotes loses them and nothing else; a text that has none on one side stays.
pub proof fn lemma_unquoted(text: Seq<char>)
    ensures
        otlp_layer::unquoted(seq!['"'] + text + seq!['"']) == text,
        text.len() < 2 || text[0] != '"' || text.last() != '"' ==> otlp_layer::unquoted(text)
            == text,
{
    let quoted = seq!['"'] + text + seq!['"'];
    assert(quoted.subrange(1, quoted.len() - 1) =~= text);
}

/// A number that is taken as a signed one keeps its value, modulo 2^64.
pub proof fn lemma_as_signed(value: u64)
    ensures
        (otlp_layer::as_signed(value) - value) % 0x1_0000_0000_0000_0000 == 0,
        value <= i64::MAX ==> otlp_layer::as_signed(value) == value,
{
}

/// A resource has its service's name and version and its environment, under their names, and then
/// the custom attributes, in order and with their texts.
pub proof fn lemma_resource_attributes(
    service_name: Seq<char>,
    service_version: Seq<char>,
    environment: Seq<char>,
    custom: Seq<(String, String)>,
)
    ensures
        ({
            let attrs = otlp_layer::resource_model(
                service_name,
                service_version,
                environment,
                custom,
            );
            &&& attrs.len() == 3 + custom.len()
            &&& attrs[0].key == "service.name"@
            &&& attrs[0].value == ValueModel::String(service_name)
            &&& attrs[1].key == "service.version"@
            &&& attrs[1].value == ValueModel::String(service_version)
            &&& attrs[2].key == "deployment.environment"@
            &&& attrs[2].value == ValueModel::String(environment)
            &&& forall|i: int| #![trigger custom[i]]
                0 <= i < custom.len() ==> attrs[3 + i].key == custom[i].0@ && attrs[3 + i].value
                    == ValueModel::String(custom[i].1@)
        }),
{
}

} // verus!
