//! OTLP trace data and its encoding.

use vstd::prelude::*;

use crate::proto::{
    encode_bytes_field, encode_fixed64_field, encode_fixed64_field_always,
    encode_message_field_in_place, encode_string_field, encode_varint_field,
    encode_varint_field_always, MAX_MESSAGE_LEN,
};
use crate::wire;
use crate::wire::WireField;

verus! {

/// The value of an attribute. A double is held as its IEEE 754 bits.
#[derive(Debug)]
pub enum AnyValue {
    String(String),
    Int(i64),
    Bool(bool),
    Double(u64),
    Bytes(Vec<u8>),
}

/// An attribute.
#[derive(Debug)]
pub struct KeyValue {
    pub key: String,
    pub value: AnyValue,
}

#[derive(Debug, Clone, Copy, PartialEq, Eq, Structural)]
pub enum SpanKind {
    Unspecified,
    Internal,
    Server,
    Client,
    Producer,
    Consumer,
}

#[derive(Debug, Clone, Copy, PartialEq, Eq, Structural)]
pub enum StatusCode {
    Unset,
    Okay,
    Error,
}

#[derive(Debug)]
pub struct SpanStatus {
    pub message: String,
    pub code: StatusCode,
}

/// A finished span.
#[derive(Debug)]
pub struct SpanData {
    pub trace_id: [u8; 16],
    pub span_id: [u8; 8],
    pub parent_span_id: [u8; 8],
    pub name: String,
    pub kind: SpanKind,
    pub start_time_unix_nano: u64,
    pub end_time_unix_nano: u64,
    pub attributes: Vec<KeyValue>,
    pub status: Option<SpanStatus>,
}

/// The value of an attribute, as mathematics.
pub enum ValueModel {
    String(Seq<char>),
    Int(i64),
    Bool(bool),
    Double(u64),
    Bytes(Seq<u8>),
}

/// An attribute, as mathematics.
pub struct KeyValueModel {
    pub key: Seq<char>,
    pub value: ValueModel,
}

/// A status, as mathematics.
pub struct StatusModel {
    pub message: Seq<char>,
    pub code: StatusCode,
}

/// A finished span, as mathematics.
pub struct SpanModel {
    pub trace_id: Seq<u8>,
    pub span_id: Seq<u8>,
    pub parent_span_id: Seq<u8>,
    pub name: Seq<char>,
    pub kind: SpanKind,
    pub start_time_unix_nano: u64,
    pub end_time_unix_nano: u64,
    pub attributes: Seq<KeyValueModel>,
    pub status: Option<StatusModel>,
}

impl View for AnyValue {
    type V = ValueModel;

    open spec fn view(&self) -> ValueModel {
        match *self {
            AnyValue::String(s) => ValueModel::String(s@),
            AnyValue::Int(i) => ValueModel::Int(i),
            AnyValue::Bool(b) => ValueModel::Bool(b),
            AnyValue::Double(bits) => ValueModel::Double(bits),
            AnyValue::Bytes(b) => ValueModel::Bytes(b@),
        }
    }
}

impl View for KeyValue {
    type V = KeyValueModel;

    open spec fn view(&self) -> KeyValueModel {
        KeyValueModel { key: self.key@, value: self.value@ }
    }
}

impl View for SpanStatus {
    type V = StatusModel;

    open spec fn view(&self) -> StatusModel {
        StatusModel { message: self.message@, code: self.code }
    }
}

impl View for SpanData {
    type V = SpanModel;

    open spec fn view(&self) -> SpanModel {
        SpanModel {
            trace_id: self.trace_id@,
            span_id: self.span_id@,
            parent_span_id: self.parent_span_id@,
            name: self.name@,
            kind: self.kind,
            start_time_unix_nano: self.start_time_unix_nano,
            end_time_unix_nano: self.end_time_unix_nano,
            attributes: attrs_model(self.attributes@),
            status: match self.status {
                Some(status) => Some(status@),
                None => None,
            },
        }
    }
}

impl Clone for AnyValue {
    fn clone(&self) -> (copy: Self)
        ensures
            copy@ == self@,
    {
        match self {
            AnyValue::String(s) => AnyValue::String(s.clone()),
            AnyValue::Int(i) => AnyValue::Int(*i),
            AnyValue::Bool(b) => AnyValue::Bool(*b),
            AnyValue::Double(bits) => AnyValue::Double(*bits),
            AnyValue::Bytes(b) => {
                let bytes: Vec<u8> = b.clone();
                assert(bytes@ =~= b@);
                AnyValue::Bytes(bytes)
            },
        }
    }
}

impl Clone for KeyValue {
    fn clone(&self) -> (copy: Self)
        ensures
            copy@ == self@,
    {
        KeyValue { key: self.key.clone(), value: self.value.clone() }
    }
}

impl Clone for SpanStatus {
    fn clone(&self) -> (copy: Self)
        ensures
            copy@ == self@,
    {
        SpanStatus { message: self.message.clone(), code: self.code }
    }
}

impl Clone for SpanData {
    fn clone(&self) -> (copy: Self)
        ensures
            copy@ == self@,
    {
        SpanData {
            trace_id: self.trace_id,
            span_id: self.span_id,
            parent_span_id: self.parent_span_id,
            name: self.name.clone(),
            kind: self.kind,
            start_time_unix_nano: self.start_time_unix_nano,
            end_time_unix_nano: self.end_time_unix_nano,
            attributes: clone_attrs(&self.attributes),
            status: match &self.status {
                Some(status) => Some(status.clone()),
                None => None,
            },
        }
    }
}

/// A copy of a list of attributes.
pub fn clone_attrs(attrs: &Vec<KeyValue>) -> (copy: Vec<KeyValue>)
    ensures
        attrs_model(copy@) == attrs_model(attrs@),
{
    let mut copy: Vec<KeyValue> = Vec::new();
    let mut i: usize = 0;
    while i < attrs.len()
        invariant
            i <= attrs.len(),
            copy@.len() == i,
            forall|k: int| 0 <= k < i ==> (#[trigger] copy@[k])@ == attrs@[k]@,
        decreases attrs.len() - i,
    {
        copy.push(attrs[i].clone());
        i = i + 1;
    }
    assert(attrs_model(copy@) =~= attrs_model(attrs@));
    copy
}

/// Attributes, as mathematics.
pub open spec fn attrs_model(attrs: Seq<KeyValue>) -> Seq<KeyValueModel> {
    attrs.map_values(|kv: KeyValue| kv@)
}

/// Spans, as mathematics.
pub open spec fn spans_model(spans: Seq<SpanData>) -> Seq<SpanModel> {
    spans.map_values(|span: SpanData| span@)
}

impl SpanKind {
    /// The number that OTLP gives to this kind.
    pub open spec fn spec_number(self) -> u64 {
        match self {
            SpanKind::Unspecified => 0,
            SpanKind::Internal => 1,
            SpanKind::Server => 2,
            SpanKind::Client => 3,
            SpanKind::Producer => 4,
            SpanKind::Consumer => 5,
        }
    }

    /// The number that OTLP gives to this kind.
    #[verifier::when_used_as_spec(spec_number)]
    pub fn number(self) -> (n: u64)
        ensures
            n == self.spec_number(),
    {
        match self {
            SpanKind::Unspecified => 0,
            SpanKind::Internal => 1,
            SpanKind::Server => 2,
            SpanKind::Client => 3,
            SpanKind::Producer => 4,
            SpanKind::Consumer => 5,
        }
    }
}

impl StatusCode {
    /// The number that OTLP gives to this code.
    pub open spec fn spec_number(self) -> u64 {
        match self {
            StatusCode::Unset => 0,
            StatusCode::Okay => 1,
            StatusCode::Error => 2,
        }
    }

    /// The number that OTLP gives to this code.
    #[verifier::when_used_as_spec(spec_number)]
    pub fn number(self) -> (n: u64)
        ensures
            n == self.spec_number(),
    {
        match self {
            StatusCode::Unset => 0,
            StatusCode::Okay => 1,
            StatusCode::Error => 2,
        }
    }
}

/// The kind that a byte picks: six of them, in order, over and over.
pub fn span_kind_from_u8(v: u8) -> (kind: SpanKind)
    ensures
        kind.number() == v % 6,
{
    match v % 6 {
        0 => SpanKind::Unspecified,
        1 => SpanKind::Internal,
        2 => SpanKind::Server,
        3 => SpanKind::Client,
        4 => SpanKind::Producer,
        _ => SpanKind::Consumer,
    }
}

/// The status code that a byte picks: three of them, in order, over and over.
pub fn status_code_from_u8(v: u8) -> (code: StatusCode)
    ensures
        code.number() == v % 3,
{
    match v % 3 {
        0 => StatusCode::Unset,
        1 => StatusCode::Okay,
        _ => StatusCode::Error,
    }
}

/// A signed number on the wire: its two's complement, as an unsigned number.
pub open spec fn twos_complement(i: i64) -> u64 {
    if i >= 0 {
        i as u64
    } else {
        (i + 0x1_0000_0000_0000_0000) as u64
    }
}

/// The fields of an `AnyValue` message. It has one field, also where that holds
/// zero or false: only the empty string and empty bytes leave the message empty.
pub open spec fn any_value_fields(val: ValueModel) -> Seq<WireField> {
    match val {
        ValueModel::String(s) => wire::opt_bytes_field(1, vstd::utf8::encode_utf8(s)),
        ValueModel::Bool(b) => wire::varint_field(2, if b { 1u64 } else { 0u64 }),
        ValueModel::Int(i) => wire::varint_field(3, twos_complement(i)),
        ValueModel::Double(bits) => wire::fixed64_field(4, bits),
        ValueModel::Bytes(b) => wire::opt_bytes_field(7, b),
    }
}

/// The fields of a `KeyValue` message.
pub open spec fn key_value_fields(kv: KeyValueModel) -> Seq<WireField> {
    wire::opt_bytes_field(1, vstd::utf8::encode_utf8(kv.key)) + wire::opt_bytes_field(
        2,
        wire::message(any_value_fields(kv.value)),
    )
}

/// The encoded attributes, each as a message of its own.
pub open spec fn key_value_bodies(attrs: Seq<KeyValueModel>) -> Seq<Seq<u8>> {
    attrs.map_values(|kv: KeyValueModel| wire::message(key_value_fields(kv)))
}

/// The fields of a `Resource` message.
pub open spec fn resource_fields(attrs: Seq<KeyValueModel>) -> Seq<WireField> {
    wire::repeated_field(1, key_value_bodies(attrs))
}

/// The fields of an `InstrumentationScope` message.
pub open spec fn scope_fields(name: Seq<char>, version: Seq<char>) -> Seq<WireField> {
    wire::opt_bytes_field(1, vstd::utf8::encode_utf8(name)) + wire::opt_bytes_field(
        2,
        vstd::utf8::encode_utf8(version),
    )
}

/// The fields of a `Status` message.
pub open spec fn status_fields(status: StatusModel) -> Seq<WireField> {
    wire::opt_bytes_field(2, vstd::utf8::encode_utf8(status.message)) + wire::opt_varint_field(
        3,
        status.code.number(),
    )
}

/// The status field of a `Span` message.
pub open spec fn span_status_field(status: Option<StatusModel>) -> Seq<WireField> {
    match status {
        Some(status) => wire::opt_bytes_field(15, wire::message(status_fields(status))),
        None => Seq::empty(),
    }
}

/// The fields of a `Span` message.
pub open spec fn span_fields(span: SpanModel) -> Seq<WireField> {
    wire::opt_bytes_field(1, span.trace_id) + wire::opt_bytes_field(2, span.span_id)
        + wire::opt_bytes_field(4, span.parent_span_id) + wire::opt_bytes_field(
        5,
        vstd::utf8::encode_utf8(span.name),
    ) + wire::opt_varint_field(6, span.kind.number()) + wire::opt_fixed64_field(
        7,
        span.start_time_unix_nano,
    ) + wire::opt_fixed64_field(8, span.end_time_unix_nano) + wire::repeated_field(
        9,
        key_value_bodies(span.attributes),
    ) + span_status_field(span.status)
}

/// The encoded spans, each as a message of its own.
pub open spec fn span_bodies(spans: Seq<SpanModel>) -> Seq<Seq<u8>> {
    spans.map_values(|span: SpanModel| wire::message(span_fields(span)))
}

/// The fields of a `ScopeSpans` message.
pub open spec fn scope_spans_fields(
    scope_name: Seq<char>,
    scope_version: Seq<char>,
    spans: Seq<SpanModel>,
) -> Seq<WireField> {
    wire::opt_bytes_field(1, wire::message(scope_fields(scope_name, scope_version)))
        + wire::repeated_field(2, span_bodies(spans))
}

/// The fields of a `ResourceSpans` message.
pub open spec fn resource_spans_fields(
    resource_attrs: Seq<KeyValueModel>,
    scope_name: Seq<char>,
    scope_version: Seq<char>,
    spans: Seq<SpanModel>,
) -> Seq<WireField> {
    wire::opt_bytes_field(1, wire::message(resource_fields(resource_attrs)))
        + wire::opt_bytes_field(
        2,
        wire::message(scope_spans_fields(scope_name, scope_version, spans)),
    )
}

/// The fields of an `ExportTraceServiceRequest` message.
pub open spec fn trace_request_fields(
    resource_attrs: Seq<KeyValueModel>,
    scope_name: Seq<char>,
    scope_version: Seq<char>,
    spans: Seq<SpanModel>,
) -> Seq<WireField> {
    wire::opt_bytes_field(
        1,
        wire::message(resource_spans_fields(resource_attrs, scope_name, scope_version, spans)),
    )
}

/// A `KeyValue` message is longer than the value in it.
pub proof fn lemma_key_value_part_len(kv: KeyValueModel)
    ensures
        wire::message(any_value_fields(kv.value)).len() <= wire::message(key_value_fields(kv)).len(
        ),
{
    broadcast use wire::lemma_message_concat, wire::lemma_bytes_field_len;

}

/// The messages in a span are short enough to be written.
pub open spec fn span_fits(span: SpanModel) -> bool {
    &&& wire::all_fit(key_value_bodies(span.attributes))
    &&& span.status is Some ==> wire::message(status_fields(span.status->0)).len()
        < MAX_MESSAGE_LEN
}

/// Where a `Span` message is short enough to be nested, the messages in it are.
proof fn lemma_span_fits(span: SpanModel)
    requires
        wire::message(span_fields(span)).len() < MAX_MESSAGE_LEN,
    ensures
        span_fits(span),
{
    assert(wire::message(wire::repeated_field(9, key_value_bodies(span.attributes))).len()
        <= wire::message(span_fields(span)).len() && (span.status is Some ==> wire::message(
        status_fields(span.status->0),
    ).len() <= wire::message(span_fields(span)).len())) by {
        broadcast use wire::lemma_message_concat, wire::lemma_bytes_field_len;

    }
    wire::lemma_entries_fit(9, key_value_bodies(span.attributes));
}

/// Appends an `AnyValue` message.
pub fn encode_any_value(buf: &mut Vec<u8>, val: &AnyValue)
    ensures
        final(buf)@ == old(buf)@ + wire::message(any_value_fields(val@)),
{
    match val {
        AnyValue::String(s) => encode_string_field(buf, 1, s),
        AnyValue::Bool(b) => encode_varint_field_always(
            buf,
            2,
            if *b {
                1
            } else {
                0
            },
        ),
        AnyValue::Int(i) => {
            let n: i64 = *i;
            assert(n as u64 == if n >= 0 {
                n as int
            } else {
                n + 0x1_0000_0000_0000_0000
            }) by (bit_vector);
            encode_varint_field_always(buf, 3, n as u64)
        },
        AnyValue::Double(bits) => encode_fixed64_field_always(buf, 4, *bits),
        AnyValue::Bytes(b) => encode_bytes_field(buf, 7, b),
    }
}

/// Appends a `KeyValue` message.
pub fn encode_key_value(buf: &mut Vec<u8>, kv: &KeyValue)
    requires
        wire::message(any_value_fields(kv.value@)).len() < MAX_MESSAGE_LEN,
    ensures
        final(buf)@ == old(buf)@ + wire::message(key_value_fields(kv@)),
{
    broadcast use wire::lemma_skip_prefix;

    encode_string_field(buf, 1, &kv.key);
    let body = |b: &mut Vec<u8>|
        ensures
            final(b)@ == old(b)@ + wire::message(any_value_fields(kv.value@)),
        {
            encode_any_value(b, &kv.value);
        };
    encode_message_field_in_place(buf, 2, body);
    proof {
        wire::lemma_append(
            old(buf)@,
            wire::opt_bytes_field(1, vstd::utf8::encode_utf8(kv.key@)),
            wire::opt_bytes_field(2, wire::message(any_value_fields(kv.value@))),
        );
    }
}

/// Appends an attribute as a nested message.
fn encode_attribute(buf: &mut Vec<u8>, field: u32, kv: &KeyValue)
    requires
        wire::message(key_value_fields(kv@)).len() < MAX_MESSAGE_LEN,
    ensures
        final(buf)@ == old(buf)@ + wire::message(
            wire::opt_bytes_field(field, wire::message(key_value_fields(kv@))),
        ),
{
    broadcast use wire::lemma_skip_prefix;

    proof {
        lemma_key_value_part_len(kv@);
    }
    let body = |b: &mut Vec<u8>|
        ensures
            final(b)@ == old(b)@ + wire::message(key_value_fields(kv@)),
        {
            encode_key_value(b, kv);
        };
    encode_message_field_in_place(buf, field, body);
}

/// Appends the attributes, each as an entry of the repeated field `field`.
pub fn encode_attributes(buf: &mut Vec<u8>, field: u32, attrs: &[KeyValue])
    requires
        wire::all_fit(key_value_bodies(attrs_model(attrs@))),
    ensures
        final(buf)@ == old(buf)@ + wire::message(
            wire::repeated_field(field, key_value_bodies(attrs_model(attrs@))),
        ),
{
    let ghost bodies = key_value_bodies(attrs_model(attrs@));
    let mut i: usize = 0;
    while i < attrs.len()
        invariant
            i <= attrs.len(),
            bodies == key_value_bodies(attrs_model(attrs@)),
            wire::all_fit(bodies),
            buf@ == old(buf)@ + wire::message(wire::repeated_field(field, bodies.take(i as int))),
        decreases attrs.len() - i,
    {
        let kv: &KeyValue = &attrs[i];
        proof {
            wire::lemma_repeated_push(field, bodies, i as int);
            assert(bodies[i as int] == wire::message(key_value_fields(kv@)));
            wire::lemma_append(
                old(buf)@,
                wire::repeated_field(field, bodies.take(i as int)),
                wire::opt_bytes_field(field, bodies[i as int]),
            );
        }
        encode_attribute(buf, field, kv);
        i = i + 1;
    }
    assert(bodies.take(i as int) =~= bodies);
}

/// Appends a `Resource` message.
pub fn encode_resource(buf: &mut Vec<u8>, attrs: &[KeyValue])
    requires
        wire::all_fit(key_value_bodies(attrs_model(attrs@))),
    ensures
        final(buf)@ == old(buf)@ + wire::message(resource_fields(attrs_model(attrs@))),
{
    encode_attributes(buf, 1, attrs);
}

/// Appends an `InstrumentationScope` message.
pub fn encode_scope(buf: &mut Vec<u8>, name: &str, version: &str)
    ensures
        final(buf)@ == old(buf)@ + wire::message(scope_fields(name@, version@)),
{
    encode_string_field(buf, 1, name);
    encode_string_field(buf, 2, version);
    proof {
        wire::lemma_append(
            old(buf)@,
            wire::opt_bytes_field(1, vstd::utf8::encode_utf8(name@)),
            wire::opt_bytes_field(2, vstd::utf8::encode_utf8(version@)),
        );
    }
}

/// Appends a `Status` message.
pub fn encode_status(buf: &mut Vec<u8>, status: &SpanStatus)
    ensures
        final(buf)@ == old(buf)@ + wire::message(status_fields(status@)),
{
    encode_string_field(buf, 2, &status.message);
    encode_varint_field(buf, 3, status.code.number());
    proof {
        wire::lemma_append(
            old(buf)@,
            wire::opt_bytes_field(2, vstd::utf8::encode_utf8(status.message@)),
            wire::opt_varint_field(3, status.code.number()),
        );
    }
}

/// Appends a `Span` message.
pub fn encode_span(buf: &mut Vec<u8>, span: &SpanData)
    requires
        span_fits(span@),
    ensures
        final(buf)@ == old(buf)@ + wire::message(span_fields(span@)),
{
    broadcast use wire::lemma_skip_prefix;

    encode_bytes_field(buf, 1, &span.trace_id);
    encode_bytes_field(buf, 2, &span.span_id);
    encode_bytes_field(buf, 4, &span.parent_span_id);
    encode_string_field(buf, 5, &span.name);
    encode_varint_field(buf, 6, span.kind.number());
    encode_fixed64_field(buf, 7, span.start_time_unix_nano);
    encode_fixed64_field(buf, 8, span.end_time_unix_nano);
    encode_attributes(buf, 9, &span.attributes);
    proof {
        let start = old(buf)@;
        let f1 = wire::opt_bytes_field(1, span.trace_id@);
        let f2 = wire::opt_bytes_field(2, span.span_id@);
        let f4 = wire::opt_bytes_field(4, span.parent_span_id@);
        let f5 = wire::opt_bytes_field(5, vstd::utf8::encode_utf8(span.name@));
        let f6 = wire::opt_varint_field(6, span.kind.number());
        let f7 = wire::opt_fixed64_field(7, span.start_time_unix_nano);
        let f8 = wire::opt_fixed64_field(8, span.end_time_unix_nano);
        let f9 = wire::repeated_field(9, key_value_bodies(attrs_model(span.attributes@)));
        wire::lemma_append(start, f1, f2);
        wire::lemma_append(start, f1 + f2, f4);
        wire::lemma_append(start, f1 + f2 + f4, f5);
        wire::lemma_append(start, f1 + f2 + f4 + f5, f6);
        wire::lemma_append(start, f1 + f2 + f4 + f5 + f6, f7);
        wire::lemma_append(start, f1 + f2 + f4 + f5 + f6 + f7, f8);
        wire::lemma_append(start, f1 + f2 + f4 + f5 + f6 + f7 + f8, f9);
        let f15 = span_status_field(span@.status);
        wire::lemma_append(start, f1 + f2 + f4 + f5 + f6 + f7 + f8 + f9, f15);
    }
    match &span.status {
        Some(status) => {
            let body = |b: &mut Vec<u8>|
                ensures
                    final(b)@ == old(b)@ + wire::message(status_fields(status@)),
                {
                    encode_status(b, status);
                };
            encode_message_field_in_place(buf, 15, body);
        },
        None => {
            proof {
                wire::lemma_append_none(buf@);
            }
        },
    }
}

/// Appends a span as a nested message of a `ScopeSpans` message.
fn encode_span_field(buf: &mut Vec<u8>, span: &SpanData)
    requires
        wire::message(span_fields(span@)).len() < MAX_MESSAGE_LEN,
    ensures
        final(buf)@ == old(buf)@ + wire::message(
            wire::opt_bytes_field(2, wire::message(span_fields(span@))),
        ),
{
    broadcast use wire::lemma_skip_prefix;

    proof {
        lemma_span_fits(span@);
    }
    let body = |b: &mut Vec<u8>|
        ensures
            final(b)@ == old(b)@ + wire::message(span_fields(span@)),
        {
            encode_span(b, span);
        };
    encode_message_field_in_place(buf, 2, body);
}

/// Appends the spans, each as an entry of the repeated field of a `ScopeSpans`
/// message.
fn encode_spans(buf: &mut Vec<u8>, spans: &[SpanData])
    requires
        wire::message(wire::repeated_field(2, span_bodies(spans_model(spans@)))).len() < MAX_MESSAGE_LEN,
    ensures
        final(buf)@ == old(buf)@ + wire::message(
            wire::repeated_field(2, span_bodies(spans_model(spans@))),
        ),
{
    let ghost bodies = span_bodies(spans_model(spans@));
    let mut i: usize = 0;
    while i < spans.len()
        invariant
            i <= spans.len(),
            bodies == span_bodies(spans_model(spans@)),
            wire::message(wire::repeated_field(2, bodies)).len() < MAX_MESSAGE_LEN,
            buf@ == old(buf)@ + wire::message(wire::repeated_field(2, bodies.take(i as int))),
        decreases spans.len() - i,
    {
        let span: &SpanData = &spans[i];
        proof {
            wire::lemma_repeated_entry_len(2, bodies, i as int);
            wire::lemma_repeated_push(2, bodies, i as int);
            assert(bodies[i as int] == wire::message(span_fields(span@)));
            wire::lemma_append(
                old(buf)@,
                wire::repeated_field(2, bodies.take(i as int)),
                wire::opt_bytes_field(2, bodies[i as int]),
            );
        }
        encode_span_field(buf, span);
        i = i + 1;
    }
    assert(bodies.take(i as int) =~= bodies);
}

/// Appends a `ScopeSpans` message.
fn encode_scope_spans(
    buf: &mut Vec<u8>,
    scope_name: &str,
    scope_version: &str,
    spans: &[SpanData],
)
    requires
        wire::message(
            scope_spans_fields(scope_name@, scope_version@, spans_model(spans@)),
        ).len() < MAX_MESSAGE_LEN,
    ensures
        final(buf)@ == old(buf)@ + wire::message(
            scope_spans_fields(scope_name@, scope_version@, spans_model(spans@)),
        ),
{
    broadcast use wire::lemma_skip_prefix;

    let ghost scope_body = wire::message(scope_fields(scope_name@, scope_version@));
    let ghost entries = wire::repeated_field(2, span_bodies(spans_model(spans@)));
    proof {
        wire::lemma_two_part_len(1, scope_body, entries);
    }
    let scope = |b: &mut Vec<u8>|
        ensures
            final(b)@ == old(b)@ + scope_body,
        {
            encode_scope(b, scope_name, scope_version);
        };
    encode_message_field_in_place(buf, 1, scope);
    encode_spans(buf, spans);
    proof {
        wire::lemma_append(old(buf)@, wire::opt_bytes_field(1, scope_body), entries);
    }
}

/// Appends a `ResourceSpans` message.
fn encode_resource_spans(
    buf: &mut Vec<u8>,
    resource_attrs: &[KeyValue],
    scope_name: &str,
    scope_version: &str,
    spans: &[SpanData],
)
    requires
        wire::message(
            resource_spans_fields(
                attrs_model(resource_attrs@),
                scope_name@,
                scope_version@,
                spans_model(spans@),
            ),
        ).len() < MAX_MESSAGE_LEN,
    ensures
        final(buf)@ == old(buf)@ + wire::message(
            resource_spans_fields(
                attrs_model(resource_attrs@),
                scope_name@,
                scope_version@,
                spans_model(spans@),
            ),
        ),
{
    broadcast use wire::lemma_skip_prefix;

    let ghost resource_body = wire::message(resource_fields(attrs_model(resource_attrs@)));
    let ghost scope_body = wire::message(
        scope_spans_fields(scope_name@, scope_version@, spans_model(spans@)),
    );
    proof {
        wire::lemma_two_part_len(1, resource_body, wire::opt_bytes_field(2, scope_body));
        wire::lemma_bytes_field_len(2, scope_body);
        wire::lemma_entries_fit(1, key_value_bodies(attrs_model(resource_attrs@)));
    }
    let resource = |b: &mut Vec<u8>|
        ensures
            final(b)@ == old(b)@ + resource_body,
        {
            encode_resource(b, resource_attrs);
        };
    encode_message_field_in_place(buf, 1, resource);
    let scope_spans = |b: &mut Vec<u8>|
        ensures
            final(b)@ == old(b)@ + scope_body,
        {
            encode_scope_spans(b, scope_name, scope_version, spans);
        };
    encode_message_field_in_place(buf, 2, scope_spans);
    proof {
        wire::lemma_append(
            old(buf)@,
            wire::opt_bytes_field(1, resource_body),
            wire::opt_bytes_field(2, scope_body),
        );
    }
}

/// Encodes an `ExportTraceServiceRequest` with one resource and one scope.
pub fn encode_export_trace_request(
    resource_attrs: &[KeyValue],
    scope_name: &str,
    scope_version: &str,
    spans: &[SpanData],
) -> (request: Vec<u8>)
    requires
        wire::message(
            resource_spans_fields(
                attrs_model(resource_attrs@),
                scope_name@,
                scope_version@,
                spans_model(spans@),
            ),
        ).len() < MAX_MESSAGE_LEN,
    ensures
        request@ == wire::message(
            trace_request_fields(
                attrs_model(resource_attrs@),
                scope_name@,
                scope_version@,
                spans_model(spans@),
            ),
        ),
{
    broadcast use wire::lemma_skip_prefix;

    let mut request_buf: Vec<u8> = Vec::new();
    let ghost bytes = wire::message(
        resource_spans_fields(
            attrs_model(resource_attrs@),
            scope_name@,
            scope_version@,
            spans_model(spans@),
        ),
    );
    let resource_spans = |b: &mut Vec<u8>|
        ensures
            final(b)@ == old(b)@ + bytes,
        {
            encode_resource_spans(b, resource_attrs, scope_name, scope_version, spans);
        };
    encode_message_field_in_place(&mut request_buf, 1, resource_spans);
    request_buf
}

} // verus!
