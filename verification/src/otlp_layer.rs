//! What the tracing layer does with spans and events.

use vstd::prelude::*;
use vstd::string::StrSliceExecFns;

use crate::attrs::str_eq;
use crate::constants::fields;
use crate::hex;
pub use crate::hex::{hex_nibble, hex_to_bytes_16};
use crate::otlp_layer_laws;
use crate::otlp_log;
use crate::otlp_log::{encode_export_logs_request, LogData, LogModel, SeverityNumber};
use crate::otlp_trace;
use crate::otlp_trace::{
    clone_attrs, encode_export_trace_request, AnyValue, KeyValue, KeyValueModel, SpanData, SpanKind, SpanModel,
    SpanStatus, StatusCode, StatusModel, ValueModel,
};
use crate::proto::MAX_MESSAGE_LEN;
use crate::sampling;
pub use crate::sampling::should_sample;
use crate::sizes::{logs_request_fits, trace_request_fits};
use crate::trace_id::{generate_span_id, generate_trace_id};
use crate::wire;

verus! {

/// A message is too long to be written as a nested one.
#[derive(Debug, Clone, Copy, PartialEq, Eq, Structural)]
pub struct MessageTooLong;

/// The level of an event.
#[derive(Debug, Clone, Copy, PartialEq, Eq, Structural)]
pub enum Level {
    Trace,
    Debug,
    Info,
    Warn,
    Error,
}

/// The context that a span hands to its children and its events.
#[derive(Debug, Clone, Copy)]
pub struct SpanContext {
    pub trace_id: [u8; 16],
    pub span_id: [u8; 8],
    pub sampled: bool,
}

/// What is kept of an open span.
pub struct SpanFields {
    pub attrs: Vec<KeyValue>,
    pub trace_id: [u8; 16],
    pub span_id: [u8; 8],
    pub parent_span_id: [u8; 8],
    /// Whether this span (and its descendants) should be exported.
    pub sampled: bool,
    pub span_kind: SpanKind,
    pub status_code: StatusCode,
    pub status_message: Option<String>,
}

/// What is kept of an open span, as mathematics.
pub struct SpanFieldsModel {
    pub attrs: Seq<KeyValueModel>,
    pub trace_id: Seq<u8>,
    pub span_id: Seq<u8>,
    pub parent_span_id: Seq<u8>,
    pub sampled: bool,
    pub span_kind: SpanKind,
    pub status_code: StatusCode,
    pub status_message: Option<Seq<char>>,
}

/// Collects the fields of a span or of an event.
pub struct FieldCollector {
    pub attrs: Vec<KeyValue>,
    pub trace_id: Option<[u8; 16]>,
    pub message: Option<String>,
    pub span_kind: Option<SpanKind>,
    pub status_code: Option<StatusCode>,
    pub status_message: Option<String>,
}

/// Collected fields, as mathematics.
pub struct CollectorModel {
    pub attrs: Seq<KeyValueModel>,
    pub trace_id: Option<Seq<u8>>,
    pub message: Option<Seq<char>>,
    pub span_kind: Option<SpanKind>,
    pub status_code: Option<StatusCode>,
    pub status_message: Option<Seq<char>>,
}

/// An optional text, as mathematics.
pub open spec fn opt_text(text: Option<String>) -> Option<Seq<char>> {
    match text {
        Some(s) => Some(s@),
        None => None,
    }
}

impl View for FieldCollector {
    type V = CollectorModel;

    open spec fn view(&self) -> CollectorModel {
        CollectorModel {
            attrs: otlp_trace::attrs_model(self.attrs@),
            trace_id: match self.trace_id {
                Some(id) => Some(id@),
                None => None,
            },
            message: opt_text(self.message),
            span_kind: self.span_kind,
            status_code: self.status_code,
            status_message: opt_text(self.status_message),
        }
    }
}

impl View for SpanFields {
    type V = SpanFieldsModel;

    open spec fn view(&self) -> SpanFieldsModel {
        SpanFieldsModel {
            attrs: otlp_trace::attrs_model(self.attrs@),
            trace_id: self.trace_id@,
            span_id: self.span_id@,
            parent_span_id: self.parent_span_id@,
            sampled: self.sampled,
            span_kind: self.span_kind,
            status_code: self.status_code,
            status_message: opt_text(self.status_message),
        }
    }
}

/// The span kind that a text names, in lowercase or in uppercase.
pub open spec fn span_kind_of(s: Seq<char>) -> Option<SpanKind> {
    if s == "server"@ || s == "SERVER"@ {
        Some(SpanKind::Server)
    } else if s == "client"@ || s == "CLIENT"@ {
        Some(SpanKind::Client)
    } else if s == "producer"@ || s == "PRODUCER"@ {
        Some(SpanKind::Producer)
    } else if s == "consumer"@ || s == "CONSUMER"@ {
        Some(SpanKind::Consumer)
    } else if s == "internal"@ || s == "INTERNAL"@ {
        Some(SpanKind::Internal)
    } else {
        None
    }
}

/// The status code that a text names, in lowercase or in uppercase.
pub open spec fn status_code_of(s: Seq<char>) -> Option<StatusCode> {
    if s == "ok"@ || s == "OK"@ {
        Some(StatusCode::Okay)
    } else if s == "error"@ || s == "ERROR"@ {
        Some(StatusCode::Error)
    } else if s == "unset"@ || s == "UNSET"@ {
        Some(StatusCode::Unset)
    } else {
        None
    }
}

/// Fields with an attribute more.
pub open spec fn with_attr(
    collector: CollectorModel,
    name: Seq<char>,
    value: ValueModel,
) -> CollectorModel {
    CollectorModel {
        attrs: collector.attrs.push(KeyValueModel { key: name, value }),
        ..collector
    }
}

/// Fields with a text more: the message, the trace id, a control field, or an
/// attribute.
pub open spec fn with_text(
    collector: CollectorModel,
    name: Seq<char>,
    value: Seq<char>,
) -> CollectorModel {
    if name == "message"@ {
        CollectorModel { message: Some(value), ..collector }
    } else if name == fields::TRACE_ID@ {
        let bytes = vstd::utf8::encode_utf8(value);
        let trace_id = if hex::is_hex_16(bytes) {
            Some(hex::hex_value(bytes))
        } else {
            collector.trace_id
        };
        with_attr(CollectorModel { trace_id, ..collector }, name, ValueModel::String(value))
    } else if name == fields::OTEL_KIND@ {
        CollectorModel { span_kind: span_kind_of(value), ..collector }
    } else if name == fields::OTEL_STATUS_CODE@ {
        CollectorModel { status_code: status_code_of(value), ..collector }
    } else if name == fields::OTEL_STATUS_MESSAGE@ {
        CollectorModel { status_message: Some(value), ..collector }
    } else {
        with_attr(collector, name, ValueModel::String(value))
    }
}

/// A text without the quotes around it. One that is not quoted stays as it is.
pub open spec fn unquoted(text: Seq<char>) -> Seq<char> {
    if text.len() >= 2 && text[0] == '"' && text.last() == '"' {
        text.subrange(1, text.len() - 1)
    } else {
        text
    }
}

/// An unsigned number taken as a signed one with the same bits.
pub open spec fn as_signed(value: u64) -> i64 {
    if value < 0x8000_0000_0000_0000 {
        value as i64
    } else {
        (value - 0x1_0000_0000_0000_0000) as i64
    }
}

/// The span kind that a text names.
pub fn parse_span_kind(s: &str) -> (kind: Option<SpanKind>)
    ensures
        kind == span_kind_of(s@),
{
    if str_eq(s, "server") || str_eq(s, "SERVER") {
        Some(SpanKind::Server)
    } else if str_eq(s, "client") || str_eq(s, "CLIENT") {
        Some(SpanKind::Client)
    } else if str_eq(s, "producer") || str_eq(s, "PRODUCER") {
        Some(SpanKind::Producer)
    } else if str_eq(s, "consumer") || str_eq(s, "CONSUMER") {
        Some(SpanKind::Consumer)
    } else if str_eq(s, "internal") || str_eq(s, "INTERNAL") {
        Some(SpanKind::Internal)
    } else {
        None
    }
}

/// The status code that a text names.
pub fn parse_status_code(s: &str) -> (code: Option<StatusCode>)
    ensures
        code == status_code_of(s@),
{
    if str_eq(s, "ok") || str_eq(s, "OK") {
        Some(StatusCode::Okay)
    } else if str_eq(s, "error") || str_eq(s, "ERROR") {
        Some(StatusCode::Error)
    } else if str_eq(s, "unset") || str_eq(s, "UNSET") {
        Some(StatusCode::Unset)
    } else {
        None
    }
}

/// The severity of an event.
pub open spec fn severity_of(level: Level) -> SeverityNumber {
    match level {
        Level::Trace => SeverityNumber::Trace,
        Level::Debug => SeverityNumber::Debug,
        Level::Info => SeverityNumber::Info,
        Level::Warn => SeverityNumber::Warn,
        Level::Error => SeverityNumber::Error,
    }
}

/// The severity of an event with this level.
pub fn level_to_severity(level: Level) -> (severity: SeverityNumber)
    ensures
        severity == severity_of(level),
{
    match level {
        Level::Trace => SeverityNumber::Trace,
        Level::Debug => SeverityNumber::Debug,
        Level::Info => SeverityNumber::Info,
        Level::Warn => SeverityNumber::Warn,
        Level::Error => SeverityNumber::Error,
    }
}

/// The name of a level.
pub open spec fn level_text(level: Level) -> Seq<char> {
    match level {
        Level::Trace => "TRACE"@,
        Level::Debug => "DEBUG"@,
        Level::Info => "INFO"@,
        Level::Warn => "WARN"@,
        Level::Error => "ERROR"@,
    }
}

/// The name of a level.
pub fn level_name(level: Level) -> (name: &'static str)
    ensures
        name@ == level_text(level),
{
    match level {
        Level::Trace => "TRACE",
        Level::Debug => "DEBUG",
        Level::Info => "INFO",
        Level::Warn => "WARN",
        Level::Error => "ERROR",
    }
}

impl FieldCollector {
    /// No fields yet.
    pub fn new() -> (collector: FieldCollector)
        ensures
            collector@ == (CollectorModel {
                attrs: Seq::empty(),
                trace_id: None,
                message: None,
                span_kind: None,
                status_code: None,
                status_message: None,
            }),
    {
        let collector = FieldCollector {
            attrs: Vec::new(),
            trace_id: None,
            message: None,
            span_kind: None,
            status_code: None,
            status_message: None,
        };
        assert(collector@.attrs =~= Seq::<KeyValueModel>::empty());
        collector
    }

    /// Adds an attribute.
    fn push(&mut self, name: &str, value: AnyValue)
        ensures
            final(self)@ == with_attr(old(self)@, name@, value@),
    {
        let ghost before = *self;
        self.attrs.push(KeyValue { key: name.to_owned(), value });
        assert(self@.attrs =~= before@.attrs.push(KeyValueModel { key: name@, value: value@ }));
    }

    /// Takes a text field: the message, the trace id (which is also kept as an
    /// attribute), a control field (which is not), or an attribute.
    pub fn record_field(&mut self, name: &str, value: &str)
        ensures
            final(self)@ == with_text(old(self)@, name@, value@),
    {
        if str_eq(name, "message") {
            self.message = Some(value.to_owned());
        } else if str_eq(name, fields::TRACE_ID) {
            if let Ok(bytes) = hex_to_bytes_16(value) {
                self.trace_id = Some(bytes);
            }
            self.push(name, AnyValue::String(value.to_owned()));
        } else if str_eq(name, fields::OTEL_KIND) {
            self.span_kind = parse_span_kind(value);
        } else if str_eq(name, fields::OTEL_STATUS_CODE) {
            self.status_code = parse_status_code(value);
        } else if str_eq(name, fields::OTEL_STATUS_MESSAGE) {
            self.status_message = Some(value.to_owned());
        } else {
            self.push(name, AnyValue::String(value.to_owned()));
        }
    }

    /// Takes a field in the form in which it is printed for debugging, without the
    /// quotes that a text then has around it.
    pub fn record_debug(&mut self, name: &str, text: &str)
        ensures
            final(self)@ == with_text(old(self)@, name@, unquoted(text@)),
    {
        let n: usize = text.unicode_len();
        if n >= 2 && text.get_char(0) == '"' && text.get_char(n - 1) == '"' {
            self.record_field(name, text.substring_char(1, n - 1));
        } else {
            self.record_field(name, text);
        }
    }

    /// Takes a text field.
    pub fn record_str(&mut self, name: &str, value: &str)
        ensures
            final(self)@ == with_text(old(self)@, name@, value@),
    {
        self.record_field(name, value);
    }

    /// Takes a signed number as an attribute.
    pub fn record_i64(&mut self, name: &str, value: i64)
        ensures
            final(self)@ == with_attr(old(self)@, name@, ValueModel::Int(value)),
    {
        self.push(name, AnyValue::Int(value));
    }

    /// Takes an unsigned number as an attribute: a signed number with the same bits.
    pub fn record_u64(&mut self, name: &str, value: u64)
        ensures
            final(self)@ == with_attr(old(self)@, name@, ValueModel::Int(as_signed(value))),
    {
        assert(value as i64 == if value < 0x8000_0000_0000_0000 {
            value as int
        } else {
            value - 0x1_0000_0000_0000_0000
        }) by (bit_vector);
        self.push(name, AnyValue::Int(value as i64));
    }

    /// Takes a truth value as an attribute.
    pub fn record_bool(&mut self, name: &str, value: bool)
        ensures
            final(self)@ == with_attr(old(self)@, name@, ValueModel::Bool(value)),
    {
        self.push(name, AnyValue::Bool(value));
    }

    /// Takes a double, given by its bits, as an attribute.
    pub fn record_f64(&mut self, name: &str, value: u64)
        ensures
            final(self)@ == with_attr(old(self)@, name@, ValueModel::Double(value)),
    {
        self.push(name, AnyValue::Double(value));
    }
}

/// An attribute with a text value, as mathematics.
pub open spec fn text_attr(key: Seq<char>, value: Seq<char>) -> KeyValueModel {
    KeyValueModel { key, value: ValueModel::String(value) }
}

/// The attributes of a resource: three that every one has, then custom ones.
pub open spec fn resource_model(
    service_name: Seq<char>,
    service_version: Seq<char>,
    environment: Seq<char>,
    custom: Seq<(String, String)>,
) -> Seq<KeyValueModel> {
    seq![
        text_attr("service.name"@, service_name),
        text_attr("service.version"@, service_version),
        text_attr("deployment.environment"@, environment),
    ] + custom.map_values(|p: (String, String)| text_attr(p.0@, p.1@))
}

/// The attributes of a resource: service name, service version and deployment
/// environment, then custom ones.
pub fn resource_attributes(
    service_name: &str,
    service_version: &str,
    environment: &str,
    custom: &[(String, String)],
) -> (attrs: Vec<KeyValue>)
    ensures
        otlp_trace::attrs_model(attrs@) == resource_model(
            service_name@,
            service_version@,
            environment@,
            custom@,
        ),
{
    let mut attrs: Vec<KeyValue> = Vec::new();
    attrs.push(
        KeyValue {
            key: "service.name".to_owned(),
            value: AnyValue::String(service_name.to_owned()),
        },
    );
    attrs.push(
        KeyValue {
            key: "service.version".to_owned(),
            value: AnyValue::String(service_version.to_owned()),
        },
    );
    attrs.push(
        KeyValue {
            key: "deployment.environment".to_owned(),
            value: AnyValue::String(environment.to_owned()),
        },
    );
    let ghost model = resource_model(service_name@, service_version@, environment@, custom@);
    let mut i: usize = 0;
    while i < custom.len()
        invariant
            i <= custom.len(),
            model == resource_model(service_name@, service_version@, environment@, custom@),
            attrs@.len() == 3 + i,
            forall|k: int| 0 <= k < 3 + i ==> (#[trigger] attrs@[k])@ == model[k],
        decreases custom.len() - i,
    {
        let pair: &(String, String) = &custom[i];
        attrs.push(
            KeyValue { key: pair.0.clone(), value: AnyValue::String(pair.1.clone()) },
        );
        i = i + 1;
    }
    assert(otlp_trace::attrs_model(attrs@) =~= model);
    attrs
}

/// Configuration for constructing an `OtlpLayer`. The rate is given by its bits.
pub struct OtlpLayerConfig<'a> {
    pub service_name: &'a str,
    pub service_version: &'a str,
    pub environment: &'a str,
    pub resource_attributes: &'a [(String, String)],
    pub export_traces: bool,
    pub export_logs: bool,
    pub sampling_rate: u64,
    pub scope_name: &'a str,
    pub scope_version: &'a str,
}

/// Turns spans and events into encoded OTLP requests.
pub struct OtlpLayer {
    resource_attrs: Vec<KeyValue>,
    scope_name: String,
    scope_version: String,
    export_traces: bool,
    export_logs: bool,
    sampling_rate: u64,
}

/// A layer, as mathematics.
pub struct LayerModel {
    pub resource_attrs: Seq<KeyValueModel>,
    pub scope_name: Seq<char>,
    pub scope_version: Seq<char>,
    pub export_traces: bool,
    pub export_logs: bool,
    pub sampling_rate: u64,
}

impl View for OtlpLayer {
    type V = LayerModel;

    closed spec fn view(&self) -> LayerModel {
        LayerModel {
            resource_attrs: otlp_trace::attrs_model(self.resource_attrs@),
            scope_name: self.scope_name@,
            scope_version: self.scope_version@,
            export_traces: self.export_traces,
            export_logs: self.export_logs,
            sampling_rate: self.sampling_rate,
        }
    }
}

/// Sixteen zero bytes: no trace.
pub open spec fn no_trace() -> Seq<u8> {
    Seq::new(16, |i: int| 0u8)
}

/// Eight zero bytes: no span.
pub open spec fn no_span() -> Seq<u8> {
    Seq::new(8, |i: int| 0u8)
}

/// The trace id of a new span: that of its parent; else the one in its fields; else a
/// generated one.
pub open spec fn trace_id_of(
    collected: CollectorModel,
    parent: Option<SpanContext>,
    generated: Seq<u8>,
) -> Seq<u8> {
    match parent {
        Some(p) => p.trace_id@,
        None => match collected.trace_id {
            Some(id) => id,
            None => generated,
        },
    }
}

/// What is kept of a new span.
pub open spec fn opened(
    collected: CollectorModel,
    parent: Option<SpanContext>,
    span_id: Seq<u8>,
    generated: Seq<u8>,
    sampling_rate: u64,
) -> SpanFieldsModel {
    let trace_id = trace_id_of(collected, parent, generated);
    SpanFieldsModel {
        attrs: collected.attrs,
        trace_id,
        span_id,
        parent_span_id: match parent {
            Some(p) => p.span_id@,
            None => no_span(),
        },
        sampled: match parent {
            Some(p) => p.sampled,
            None => sampling::sampled(trace_id, sampling_rate),
        },
        span_kind: match collected.span_kind {
            Some(kind) => kind,
            None => SpanKind::Internal,
        },
        status_code: match collected.status_code {
            Some(code) => code,
            None => StatusCode::Unset,
        },
        status_message: collected.status_message,
    }
}

/// What is kept of a span after more fields were recorded on it.
pub open spec fn amended(span: SpanFieldsModel, collected: CollectorModel) -> SpanFieldsModel {
    SpanFieldsModel {
        attrs: span.attrs + collected.attrs,
        span_kind: match collected.span_kind {
            Some(kind) => kind,
            None => span.span_kind,
        },
        status_code: match collected.status_code {
            Some(code) => code,
            None => span.status_code,
        },
        status_message: match collected.status_message {
            Some(message) => Some(message),
            None => span.status_message,
        },
        ..span
    }
}

/// The span that is exported when it closes.
pub open spec fn closed_span(
    span: SpanFieldsModel,
    name: Seq<char>,
    start_nanos: u64,
    end_nanos: u64,
) -> SpanModel {
    SpanModel {
        trace_id: span.trace_id,
        span_id: span.span_id,
        parent_span_id: span.parent_span_id,
        name,
        kind: span.span_kind,
        start_time_unix_nano: start_nanos,
        end_time_unix_nano: end_nanos,
        attributes: span.attrs,
        status: if span.status_code == StatusCode::Unset {
            None
        } else {
            Some(
                StatusModel {
                    message: match span.status_message {
                        Some(message) => message,
                        None => Seq::empty(),
                    },
                    code: span.status_code,
                },
            )
        },
    }
}

/// The record that is exported for an event.
pub open spec fn event_record(
    collected: CollectorModel,
    context: Option<SpanContext>,
    level: Level,
    time: u64,
) -> LogModel {
    LogModel {
        time_unix_nano: time,
        severity_number: severity_of(level),
        severity_text: level_text(level),
        body: ValueModel::String(
            match collected.message {
                Some(message) => message,
                None => Seq::empty(),
            },
        ),
        attributes: collected.attrs,
        trace_id: match context {
            Some(c) => c.trace_id@,
            None => no_trace(),
        },
        span_id: match context {
            Some(c) => c.span_id@,
            None => no_span(),
        },
    }
}

/// Whether an event is exported: where logs are, and the trace that it is in, if it is
/// in one, is sampled.
pub open spec fn event_exported(layer: LayerModel, context: Option<SpanContext>) -> bool {
    layer.export_logs && (context is Some ==> context->0.sampled)
}

impl SpanFields {
    /// The context that the span hands to its children and its events.
    pub fn context(&self) -> (context: SpanContext)
        ensures
            context.trace_id@ == self@.trace_id,
            context.span_id@ == self@.span_id,
            context.sampled == self@.sampled,
    {
        SpanContext { trace_id: self.trace_id, span_id: self.span_id, sampled: self.sampled }
    }

    /// What is kept of a new span, given a span id and a trace id that is used where
    /// there is neither a parent nor a trace id in the fields.
    pub fn open(
        collected: FieldCollector,
        parent: Option<SpanContext>,
        span_id: [u8; 8],
        generated: [u8; 16],
        sampling_rate: u64,
    ) -> (span: SpanFields)
        ensures
            span@ == opened(collected@, parent, span_id@, generated@, sampling_rate),
    {
        let trace_id: [u8; 16] = match parent {
            Some(p) => p.trace_id,
            None => match collected.trace_id {
                Some(id) => id,
                None => generated,
            },
        };
        let parent_span_id: [u8; 8] = match parent {
            Some(p) => p.span_id,
            None => [0u8; 8],
        };
        let sampled: bool = match parent {
            Some(p) => p.sampled,
            None => should_sample(trace_id, sampling_rate),
        };
        let span_kind: SpanKind = match collected.span_kind {
            Some(kind) => kind,
            None => SpanKind::Internal,
        };
        let status_code: StatusCode = match collected.status_code {
            Some(code) => code,
            None => StatusCode::Unset,
        };
        proof {
            if parent is None {
                assert(parent_span_id@ =~= no_span());
            }
        }
        SpanFields {
            attrs: collected.attrs,
            trace_id,
            span_id,
            parent_span_id,
            sampled,
            span_kind,
            status_code,
            status_message: collected.status_message,
        }
    }

    /// Takes more fields: attributes are added; kind, status code and status message
    /// are replaced where they are given.
    pub fn record(&mut self, collected: FieldCollector)
        ensures
            final(self)@ == amended(old(self)@, collected@),
    {
        let ghost before = *self;
        let mut attrs: Vec<KeyValue> = collected.attrs;
        self.attrs.append(&mut attrs);
        if let Some(kind) = collected.span_kind {
            self.span_kind = kind;
        }
        if let Some(code) = collected.status_code {
            self.status_code = code;
        }
        if let Some(message) = collected.status_message {
            self.status_message = Some(message);
        }
        assert(self@.attrs =~= before@.attrs + collected@.attrs);
    }
}

impl OtlpLayer {
    /// A layer with this configuration.
    pub fn new(config: OtlpLayerConfig<'_>) -> (layer: OtlpLayer)
        ensures
            layer@ == (LayerModel {
                resource_attrs: resource_model(
                    config.service_name@,
                    config.service_version@,
                    config.environment@,
                    config.resource_attributes@,
                ),
                scope_name: config.scope_name@,
                scope_version: config.scope_version@,
                export_traces: config.export_traces,
                export_logs: config.export_logs,
                sampling_rate: config.sampling_rate,
            }),
    {
        OtlpLayer {
            resource_attrs: resource_attributes(
                config.service_name,
                config.service_version,
                config.environment,
                config.resource_attributes,
            ),
            scope_name: config.scope_name.to_owned(),
            scope_version: config.scope_version.to_owned(),
            export_traces: config.export_traces,
            export_logs: config.export_logs,
            sampling_rate: config.sampling_rate,
        }
    }

    /// What is kept of a new span. Its span id is random; so is its trace id, where it
    /// has no parent and its fields hold none.
    pub fn on_new_span(
        &self,
        collected: FieldCollector,
        parent: Option<SpanContext>,
    ) -> (span: SpanFields)
        ensures
            exists|generated: Seq<u8>| #[trigger]
                opened(collected@, parent, span@.span_id, generated, self@.sampling_rate) == span@
                    && generated.len() == 16 && (parent is None && collected@.trace_id is None
                    ==> generated[6] / 16 == 4 && generated[8] / 64 == 2),
    {
        let span_id: [u8; 8] = generate_span_id();
        let generated: [u8; 16] = if parent.is_none() && collected.trace_id.is_none() {
            generate_trace_id(None)
        } else {
            [0u8; 16]
        };
        let span: SpanFields = SpanFields::open(
            collected,
            parent,
            span_id,
            generated,
            self.sampling_rate,
        );
        assert(opened(collected@, parent, span@.span_id, generated@, self@.sampling_rate)
            == span@);
        span
    }

    /// Takes more fields for an open span.
    pub fn on_record(&self, span: &mut SpanFields, collected: FieldCollector)
        ensures
            final(span)@ == amended(old(span)@, collected@),
    {
        span.record(collected);
    }

    /// The record for an event, if it is exported. `context` is that of the span that
    /// the event is in.
    pub fn event_log(
        &self,
        collected: FieldCollector,
        context: Option<SpanContext>,
        level: Level,
        time_unix_nano: u64,
    ) -> (log: Option<LogData>)
        ensures
            log is Some <==> event_exported(self@, context),
            log is Some ==> log->0@ == event_record(collected@, context, level, time_unix_nano),
            log matches Some(log) ==> {
                &&& log.time_unix_nano == time_unix_nano
                &&& otlp_trace::attrs_model(log.attributes@) == otlp_trace::attrs_model(
                    collected.attrs@,
                )
                &&& collected.message matches Some(message) ==> log.body@ == ValueModel::String(
                    message@,
                )
                &&& context matches Some(context) ==> log.trace_id == context.trace_id
                    && log.span_id == context.span_id
            },
    {
        if !self.export_logs {
            return None;
        }
        let (trace_id, span_id, sampled): ([u8; 16], [u8; 8], bool) = match context {
            Some(c) => (c.trace_id, c.span_id, c.sampled),
            None => ([0u8; 16], [0u8; 8], true),
        };
        if !sampled {
            return None;
        }
        let body: String = match collected.message {
            Some(message) => message,
            None => String::new(),
        };
        proof {
            if context is None {
                assert(trace_id@ =~= no_trace());
                assert(span_id@ =~= no_span());
            }
        }
        Some(
            LogData {
                time_unix_nano,
                severity_number: level_to_severity(level),
                severity_text: level_name(level).to_owned(),
                body: AnyValue::String(body),
                attributes: collected.attrs,
                trace_id,
                span_id,
            },
        )
    }

    /// The logs request for an event, if it is exported. `context` is that of the span
    /// that the event is in.
    pub fn on_event(
        &self,
        collected: FieldCollector,
        context: Option<SpanContext>,
        level: Level,
        time_unix_nano: u64,
    ) -> (request: Option<Vec<u8>>)
        requires
            event_exported(self@, context) ==> self.event_fits(
                collected@,
                context,
                level,
                time_unix_nano,
            ),
        ensures
            request is Some <==> event_exported(self@, context),
            request is Some ==> request->0@ == self.event_request(
                collected@,
                context,
                level,
                time_unix_nano,
            ),
            request is Some ==> otlp_layer_laws::event_told(
                request->0@,
                self@,
                collected@,
                context,
                level,
                time_unix_nano,
            ),
    {
        proof {
            otlp_layer_laws::lemma_event_is_told(
                self,
                collected@,
                context,
                level,
                time_unix_nano,
            );
        }
        match self.event_log(collected, context, level, time_unix_nano) {
            Some(log) => {
                let mut logs: Vec<LogData> = Vec::new();
                logs.push(log);
                assert(otlp_log::logs_model(logs@) =~= seq![log@]);
                Some(
                    encode_export_logs_request(
                        &self.resource_attrs,
                        &self.scope_name,
                        &self.scope_version,
                        &logs,
                    ),
                )
            },
            None => None,
        }
    }

    /// The logs request for an event, if it is exported and not too long.
    pub fn try_on_event(
        &self,
        collected: FieldCollector,
        context: Option<SpanContext>,
        level: Level,
        time_unix_nano: u64,
    ) -> (request: Result<Option<Vec<u8>>, MessageTooLong>)
        ensures
            match request {
                Ok(None) => !event_exported(self@, context),
                Ok(Some(bytes)) => event_exported(self@, context) && self.event_fits(
                    collected@,
                    context,
                    level,
                    time_unix_nano,
                ) && bytes@ == self.event_request(collected@, context, level, time_unix_nano),
                Err(_) => event_exported(self@, context) && !self.event_fits(
                    collected@,
                    context,
                    level,
                    time_unix_nano,
                ),
            },
    {
        match self.event_log(collected, context, level, time_unix_nano) {
            Some(log) => {
                let mut logs: Vec<LogData> = Vec::new();
                logs.push(log);
                assert(otlp_log::logs_model(logs@) =~= seq![log@]);
                if logs_request_fits(
                    &self.resource_attrs,
                    &self.scope_name,
                    &self.scope_version,
                    &logs,
                ) {
                    Ok(
                        Some(
                            encode_export_logs_request(
                                &self.resource_attrs,
                                &self.scope_name,
                                &self.scope_version,
                                &logs,
                            ),
                        ),
                    )
                } else {
                    Err(MessageTooLong)
                }
            },
            None => Ok(None),
        }
    }

    /// The bytes of the logs request for an event.
    pub open spec fn event_request(
        &self,
        collected: CollectorModel,
        context: Option<SpanContext>,
        level: Level,
        time: u64,
    ) -> Seq<u8> {
        wire::message(
            otlp_log::logs_request_fields(
                self@.resource_attrs,
                self@.scope_name,
                self@.scope_version,
                seq![event_record(collected, context, level, time)],
            ),
        )
    }

    /// The event's request is short enough to be written.
    pub open spec fn event_fits(
        &self,
        collected: CollectorModel,
        context: Option<SpanContext>,
        level: Level,
        time: u64,
    ) -> bool {
        wire::message(
            otlp_log::resource_logs_fields(
                self@.resource_attrs,
                self@.scope_name,
                self@.scope_version,
                seq![event_record(collected, context, level, time)],
            ),
        ).len() < MAX_MESSAGE_LEN
    }

    /// The data of a span that closes, if it is exported: where traces are, the span was
    /// opened with this layer (so that its start and its fields are known), and it is
    /// sampled.
    pub fn close_span(
        &self,
        start_nanos: Option<u64>,
        span: Option<&SpanFields>,
        name: &str,
        end_nanos: u64,
    ) -> (data: Option<SpanData>)
        ensures
            data is Some <==> span_exported(self@, start_nanos, span),
            data is Some ==> data->0@ == closed_span(
                span->0@,
                name@,
                start_nanos->0,
                end_nanos,
            ),
            data matches Some(data) ==> {
                &&& data.start_time_unix_nano == start_nanos->0
                &&& data.end_time_unix_nano == end_nanos
                &&& data.name@ == name@
                &&& data.trace_id == span->0.trace_id
                &&& data.span_id == span->0.span_id
                &&& data.parent_span_id == span->0.parent_span_id
                &&& data.kind == span->0.span_kind
                &&& otlp_trace::attrs_model(data.attributes@) == otlp_trace::attrs_model(
                    span->0.attrs@,
                )
                &&& data.status is Some <==> span->0.status_code != StatusCode::Unset
            },
    {
        if !self.export_traces {
            return None;
        }
        let start: u64 = match start_nanos {
            Some(start) => start,
            None => {
                return None;
            },
        };
        let fields: &SpanFields = match span {
            Some(fields) => fields,
            None => {
                return None;
            },
        };
        if !fields.sampled {
            return None;
        }
        let status: Option<SpanStatus> = match fields.status_code {
            StatusCode::Unset => None,
            code => Some(
                SpanStatus {
                    message: match &fields.status_message {
                        Some(message) => message.clone(),
                        None => String::new(),
                    },
                    code,
                },
            ),
        };
        let data: SpanData = SpanData {
            trace_id: fields.trace_id,
            span_id: fields.span_id,
            parent_span_id: fields.parent_span_id,
            name: name.to_owned(),
            kind: fields.span_kind,
            start_time_unix_nano: start,
            end_time_unix_nano: end_nanos,
            attributes: clone_attrs(&fields.attrs),
            status,
        };
        assert(data@.status == closed_span(fields@, name@, start, end_nanos).status);
        Some(data)
    }

    /// The trace request for a span that closes, if it is exported.
    pub fn on_close(
        &self,
        start_nanos: Option<u64>,
        span: Option<&SpanFields>,
        name: &str,
        end_nanos: u64,
    ) -> (request: Option<Vec<u8>>)
        requires
            span_exported(self@, start_nanos, span) ==> self.span_fits(
                closed_span(span->0@, name@, start_nanos->0, end_nanos),
            ),
        ensures
            request is Some <==> span_exported(self@, start_nanos, span),
            request is Some ==> request->0@ == self.span_request(
                closed_span(span->0@, name@, start_nanos->0, end_nanos),
            ),
            request is Some ==> otlp_layer_laws::span_told(
                request->0@,
                self@,
                span->0@,
                name@,
                start_nanos->0,
                end_nanos,
            ),
    {
        proof {
            if span is Some {
                otlp_layer_laws::lemma_closed_span_is_told(
                    self,
                    span->0@,
                    name@,
                    start_nanos->0,
                    end_nanos,
                );
            }
        }
        match self.close_span(start_nanos, span, name, end_nanos) {
            Some(data) => {
                let mut spans: Vec<SpanData> = Vec::new();
                spans.push(data);
                assert(otlp_trace::spans_model(spans@) =~= seq![data@]);
                Some(
                    encode_export_trace_request(
                        &self.resource_attrs,
                        &self.scope_name,
                        &self.scope_version,
                        &spans,
                    ),
                )
            },
            None => None,
        }
    }

    /// The trace request for a span that closes, if it is exported and not too long.
    pub fn try_on_close(
        &self,
        start_nanos: Option<u64>,
        span: Option<&SpanFields>,
        name: &str,
        end_nanos: u64,
    ) -> (request: Result<Option<Vec<u8>>, MessageTooLong>)
        ensures
            ({
                let data = closed_span(span->0@, name@, start_nanos->0, end_nanos);
                match request {
                    Ok(None) => !span_exported(self@, start_nanos, span),
                    Ok(Some(bytes)) => span_exported(self@, start_nanos, span)
                        && self.span_fits(data) && bytes@ == self.span_request(data),
                    Err(_) => span_exported(self@, start_nanos, span) && !self.span_fits(data),
                }
            }),
    {
        match self.close_span(start_nanos, span, name, end_nanos) {
            Some(data) => {
                let mut spans: Vec<SpanData> = Vec::new();
                spans.push(data);
                assert(otlp_trace::spans_model(spans@) =~= seq![data@]);
                if trace_request_fits(
                    &self.resource_attrs,
                    &self.scope_name,
                    &self.scope_version,
                    &spans,
                ) {
                    Ok(
                        Some(
                            encode_export_trace_request(
                                &self.resource_attrs,
                                &self.scope_name,
                                &self.scope_version,
                                &spans,
                            ),
                        ),
                    )
                } else {
                    Err(MessageTooLong)
                }
            },
            None => Ok(None),
        }
    }

    /// The bytes of the trace request for a span.
    pub open spec fn span_request(&self, span: SpanModel) -> Seq<u8> {
        wire::message(
            otlp_trace::trace_request_fields(
                self@.resource_attrs,
                self@.scope_name,
                self@.scope_version,
                seq![span],
            ),
        )
    }

    /// The span's request is short enough to be written.
    pub open spec fn span_fits(&self, span: SpanModel) -> bool {
        wire::message(
            otlp_trace::resource_spans_fields(
                self@.resource_attrs,
                self@.scope_name,
                self@.scope_version,
                seq![span],
            ),
        ).len() < MAX_MESSAGE_LEN
    }
}

/// Whether a span that closes is exported.
pub open spec fn span_exported(
    layer: LayerModel,
    start_nanos: Option<u64>,
    span: Option<&SpanFields>,
) -> bool {
    layer.export_traces && start_nanos is Some && span is Some && span->0@.sampled
}

/// A span has the trace of its parent, is sampled as its parent is, and names it.
pub proof fn lemma_child_inherits(
    collected: CollectorModel,
    parent: SpanContext,
    span_id: Seq<u8>,
    generated: Seq<u8>,
    sampling_rate: u64,
)
    ensures
        ({
            let child = opened(collected, Some(parent), span_id, generated, sampling_rate);
            &&& child.trace_id == parent.trace_id@
            &&& child.sampled == parent.sampled
            &&& child.parent_span_id == parent.span_id@
        }),
{
}

/// Whether a root span is sampled depends on its trace id alone, so that all services
/// decide alike for a trace.
pub proof fn lemma_root_sampled_by_trace_id(
    a: CollectorModel,
    b: CollectorModel,
    span_a: Seq<u8>,
    span_b: Seq<u8>,
    generated: Seq<u8>,
    sampling_rate: u64,
)
    requires
        trace_id_of(a, None, generated) == trace_id_of(b, None, generated),
    ensures
        opened(a, None, span_a, generated, sampling_rate).sampled == opened(
            b,
            None,
            span_b,
            generated,
            sampling_rate,
        ).sampled,
{
}

/// A control field never becomes an attribute.
pub proof fn lemma_control_fields_are_no_attributes(
    collector: CollectorModel,
    name: Seq<char>,
    value: Seq<char>,
)
    requires
        name == fields::OTEL_KIND@ || name == fields::OTEL_STATUS_CODE@ || name
            == fields::OTEL_STATUS_MESSAGE@,
    ensures
        with_text(collector, name, value).attrs == collector.attrs,
{
    reveal_strlit("trace_id");
    reveal_strlit("otel.kind");
    reveal_strlit("otel.status_code");
    reveal_strlit("otel.status_message");
    assert(fields::TRACE_ID@[0] == 't');
    assert(fields::OTEL_KIND@[0] == 'o');
    assert(fields::OTEL_STATUS_CODE@[0] == 'o');
    assert(fields::OTEL_STATUS_MESSAGE@[0] == 'o');
}

/// No event of a trace that is not sampled is exported; an event outside of any span is
/// exported whatever the rate.
pub proof fn lemma_events_follow_their_trace(layer: LayerModel, context: SpanContext)
    ensures
        !context.sampled ==> !event_exported(layer, Some(context)),
        layer.export_logs ==> event_exported(layer, None),
{
}

} // verus!
