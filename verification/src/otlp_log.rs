//! OTLP log data and its encoding.

use vstd::prelude::*;

use crate::otlp_trace;
use crate::otlp_trace::{
    clone_attrs, encode_any_value, encode_attributes, encode_resource, encode_scope, AnyValue, KeyValue,
    KeyValueModel, ValueModel,
};
use crate::proto::{
    encode_bytes_field, encode_fixed64_field, encode_message_field_in_place, encode_string_field,
    encode_varint_field, MAX_MESSAGE_LEN,
};
use crate::wire;
use crate::wire::WireField;

verus! {

#[derive(Debug, Clone, Copy, PartialEq, Eq, Structural)]
pub enum SeverityNumber {
    Trace,
    Debug,
    Info,
    Warn,
    Error,
    Fatal,
}

/// A log record.
#[derive(Debug)]
pub struct LogData {
    pub time_unix_nano: u64,
    pub severity_number: SeverityNumber,
    pub severity_text: String,
    pub body: AnyValue,
    pub attributes: Vec<KeyValue>,
    pub trace_id: [u8; 16],
    pub span_id: [u8; 8],
}

/// A log record, as mathematics.
pub struct LogModel {
    pub time_unix_nano: u64,
    pub severity_number: SeverityNumber,
    pub severity_text: Seq<char>,
    pub body: ValueModel,
    pub attributes: Seq<KeyValueModel>,
    pub trace_id: Seq<u8>,
    pub span_id: Seq<u8>,
}

impl View for LogData {
    type V = LogModel;

    open spec fn view(&self) -> LogModel {
        LogModel {
            time_unix_nano: self.time_unix_nano,
            severity_number: self.severity_number,
            severity_text: self.severity_text@,
            body: self.body@,
            attributes: otlp_trace::attrs_model(self.attributes@),
            trace_id: self.trace_id@,
            span_id: self.span_id@,
        }
    }
}

impl Clone for LogData {
    fn clone(&self) -> (copy: Self)
        ensures
            copy@ == self@,
    {
        LogData {
            time_unix_nano: self.time_unix_nano,
            severity_number: self.severity_number,
            severity_text: self.severity_text.clone(),
            body: self.body.clone(),
            attributes: clone_attrs(&self.attributes),
            trace_id: self.trace_id,
            span_id: self.span_id,
        }
    }
}

/// Records, as mathematics.
pub open spec fn logs_model(logs: Seq<LogData>) -> Seq<LogModel> {
    logs.map_values(|log: LogData| log@)
}

impl SeverityNumber {
    /// The number that OTLP gives to this severity.
    pub open spec fn spec_number(self) -> u64 {
        match self {
            SeverityNumber::Trace => 1,
            SeverityNumber::Debug => 5,
            SeverityNumber::Info => 9,
            SeverityNumber::Warn => 13,
            SeverityNumber::Error => 17,
            SeverityNumber::Fatal => 21,
        }
    }

    /// The number that OTLP gives to this severity.
    #[verifier::when_used_as_spec(spec_number)]
    pub fn number(self) -> (n: u64)
        ensures
            n == self.spec_number(),
    {
        match self {
            SeverityNumber::Trace => 1,
            SeverityNumber::Debug => 5,
            SeverityNumber::Info => 9,
            SeverityNumber::Warn => 13,
            SeverityNumber::Error => 17,
            SeverityNumber::Fatal => 21,
        }
    }
}

/// The severity that a byte picks: six of them, in order, over and over.
pub fn severity_from_u8(v: u8) -> (severity: SeverityNumber)
    ensures
        severity.number() == 1 + 4 * (v % 6),
{
    match v % 6 {
        0 => SeverityNumber::Trace,
        1 => SeverityNumber::Debug,
        2 => SeverityNumber::Info,
        3 => SeverityNumber::Warn,
        4 => SeverityNumber::Error,
        _ => SeverityNumber::Fatal,
    }
}

/// The fields of a `LogRecord` message.
pub open spec fn log_fields(log: LogModel) -> Seq<WireField> {
    wire::opt_fixed64_field(1, log.time_unix_nano) + wire::opt_varint_field(
        2,
        log.severity_number.number(),
    ) + wire::opt_bytes_field(3, vstd::utf8::encode_utf8(log.severity_text))
        + wire::opt_bytes_field(5, wire::message(otlp_trace::any_value_fields(log.body)))
        + wire::repeated_field(6, otlp_trace::key_value_bodies(log.attributes))
        + wire::opt_bytes_field(9, log.trace_id) + wire::opt_bytes_field(10, log.span_id)
}

/// The encoded records, each as a message of its own.
pub open spec fn log_bodies(logs: Seq<LogModel>) -> Seq<Seq<u8>> {
    logs.map_values(|log: LogModel| wire::message(log_fields(log)))
}

/// The fields of a `ScopeLogs` message.
pub open spec fn scope_logs_fields(
    scope_name: Seq<char>,
    scope_version: Seq<char>,
    logs: Seq<LogModel>,
) -> Seq<WireField> {
    wire::opt_bytes_field(
        1,
        wire::message(otlp_trace::scope_fields(scope_name, scope_version)),
    ) + wire::repeated_field(2, log_bodies(logs))
}

/// The fields of a `ResourceLogs` message.
pub open spec fn resource_logs_fields(
    resource_attrs: Seq<KeyValueModel>,
    scope_name: Seq<char>,
    scope_version: Seq<char>,
    logs: Seq<LogModel>,
) -> Seq<WireField> {
    wire::opt_bytes_field(1, wire::message(otlp_trace::resource_fields(resource_attrs)))
        + wire::opt_bytes_field(
        2,
        wire::message(scope_logs_fields(scope_name, scope_version, logs)),
    )
}

/// The fields of an `ExportLogsServiceRequest` message.
pub open spec fn logs_request_fields(
    resource_attrs: Seq<KeyValueModel>,
    scope_name: Seq<char>,
    scope_version: Seq<char>,
    logs: Seq<LogModel>,
) -> Seq<WireField> {
    wire::opt_bytes_field(
        1,
        wire::message(resource_logs_fields(resource_attrs, scope_name, scope_version, logs)),
    )
}

/// The messages in a record are short enough to be written.
pub open spec fn log_fits(log: LogModel) -> bool {
    &&& wire::message(otlp_trace::any_value_fields(log.body)).len() < MAX_MESSAGE_LEN
    &&& wire::all_fit(otlp_trace::key_value_bodies(log.attributes))
}

/// Where a `LogRecord` message is short enough to be nested, the messages in it
/// are.
proof fn lemma_log_fits(log: LogModel)
    requires
        wire::message(log_fields(log)).len() < MAX_MESSAGE_LEN,
    ensures
        log_fits(log),
{
    let bodies = otlp_trace::key_value_bodies(log.attributes);
    assert(wire::message(otlp_trace::any_value_fields(log.body)).len() <= wire::message(
        log_fields(log),
    ).len() && wire::message(wire::repeated_field(6, bodies)).len() <= wire::message(
        log_fields(log),
    ).len()) by {
        broadcast use wire::lemma_message_concat, wire::lemma_bytes_field_len;

    }
    wire::lemma_entries_fit(6, bodies);
}

/// Appends a `LogRecord` message.
pub fn encode_log_record(buf: &mut Vec<u8>, log: &LogData)
    requires
        log_fits(log@),
    ensures
        final(buf)@ == old(buf)@ + wire::message(log_fields(log@)),
{
    broadcast use wire::lemma_skip_prefix;

    encode_fixed64_field(buf, 1, log.time_unix_nano);
    encode_varint_field(buf, 2, log.severity_number.number());
    encode_string_field(buf, 3, &log.severity_text);
    let body = |b: &mut Vec<u8>|
        ensures
            final(b)@ == old(b)@ + wire::message(otlp_trace::any_value_fields(log.body@)),
        {
            encode_any_value(b, &log.body);
        };
    encode_message_field_in_place(buf, 5, body);
    encode_attributes(buf, 6, &log.attributes);
    encode_bytes_field(buf, 9, &log.trace_id);
    encode_bytes_field(buf, 10, &log.span_id);
    proof {
        let start = old(buf)@;
        let f1 = wire::opt_fixed64_field(1, log.time_unix_nano);
        let f2 = wire::opt_varint_field(2, log.severity_number.number());
        let f3 = wire::opt_bytes_field(3, vstd::utf8::encode_utf8(log.severity_text@));
        let f5 = wire::opt_bytes_field(
            5,
            wire::message(otlp_trace::any_value_fields(log.body@)),
        );
        let f6 = wire::repeated_field(
            6,
            otlp_trace::key_value_bodies(otlp_trace::attrs_model(log.attributes@)),
        );
        let f9 = wire::opt_bytes_field(9, log.trace_id@);
        let f10 = wire::opt_bytes_field(10, log.span_id@);
        wire::lemma_append(start, f1, f2);
        wire::lemma_append(start, f1 + f2, f3);
        wire::lemma_append(start, f1 + f2 + f3, f5);
        wire::lemma_append(start, f1 + f2 + f3 + f5, f6);
        wire::lemma_append(start, f1 + f2 + f3 + f5 + f6, f9);
        wire::lemma_append(start, f1 + f2 + f3 + f5 + f6 + f9, f10);
    }
}

/// Appends a record as a nested message of a `ScopeLogs` message.
fn encode_log_field(buf: &mut Vec<u8>, log: &LogData)
    requires
        wire::message(log_fields(log@)).len() < MAX_MESSAGE_LEN,
    ensures
        final(buf)@ == old(buf)@ + wire::message(
            wire::opt_bytes_field(2, wire::message(log_fields(log@))),
        ),
{
    broadcast use wire::lemma_skip_prefix;

    proof {
        lemma_log_fits(log@);
    }
    let body = |b: &mut Vec<u8>|
        ensures
            final(b)@ == old(b)@ + wire::message(log_fields(log@)),
        {
            encode_log_record(b, log);
        };
    encode_message_field_in_place(buf, 2, body);
}

/// Appends the records, each as an entry of the repeated field of a `ScopeLogs`
/// message.
fn encode_logs(buf: &mut Vec<u8>, logs: &[LogData])
    requires
        wire::message(wire::repeated_field(2, log_bodies(logs_model(logs@)))).len() < MAX_MESSAGE_LEN,
    ensures
        final(buf)@ == old(buf)@ + wire::message(
            wire::repeated_field(2, log_bodies(logs_model(logs@))),
        ),
{
    let ghost bodies = log_bodies(logs_model(logs@));
    let mut i: usize = 0;
    while i < logs.len()
        invariant
            i <= logs.len(),
            bodies == log_bodies(logs_model(logs@)),
            wire::message(wire::repeated_field(2, bodies)).len() < MAX_MESSAGE_LEN,
            buf@ == old(buf)@ + wire::message(wire::repeated_field(2, bodies.take(i as int))),
        decreases logs.len() - i,
    {
        let log: &LogData = &logs[i];
        proof {
            wire::lemma_repeated_entry_len(2, bodies, i as int);
            wire::lemma_repeated_push(2, bodies, i as int);
            assert(bodies[i as int] == wire::message(log_fields(log@)));
            wire::lemma_append(
                old(buf)@,
                wire::repeated_field(2, bodies.take(i as int)),
                wire::opt_bytes_field(2, bodies[i as int]),
            );
        }
        encode_log_field(buf, log);
        i = i + 1;
    }
    assert(bodies.take(i as int) =~= bodies);
}

/// Appends a `ScopeLogs` message.
fn encode_scope_logs(buf: &mut Vec<u8>, scope_name: &str, scope_version: &str, logs: &[LogData])
    requires
        wire::message(scope_logs_fields(scope_name@, scope_version@, logs_model(logs@))).len()
            < MAX_MESSAGE_LEN,
    ensures
        final(buf)@ == old(buf)@ + wire::message(
            scope_logs_fields(scope_name@, scope_version@, logs_model(logs@)),
        ),
{
    broadcast use wire::lemma_skip_prefix;

    let ghost scope_body = wire::message(otlp_trace::scope_fields(scope_name@, scope_version@));
    let ghost records = wire::repeated_field(2, log_bodies(logs_model(logs@)));
    proof {
        wire::lemma_two_part_len(1, scope_body, records);
    }
    let scope = |b: &mut Vec<u8>|
        ensures
            final(b)@ == old(b)@ + scope_body,
        {
            encode_scope(b, scope_name, scope_version);
        };
    encode_message_field_in_place(buf, 1, scope);
    encode_logs(buf, logs);
    proof {
        wire::lemma_append(old(buf)@, wire::opt_bytes_field(1, scope_body), records);
    }
}

/// Appends a `ResourceLogs` message.
fn encode_resource_logs(
    buf: &mut Vec<u8>,
    resource_attrs: &[KeyValue],
    scope_name: &str,
    scope_version: &str,
    logs: &[LogData],
)
    requires
        wire::message(
            resource_logs_fields(
                otlp_trace::attrs_model(resource_attrs@),
                scope_name@,
                scope_version@,
                logs_model(logs@),
            ),
        ).len() < MAX_MESSAGE_LEN,
    ensures
        final(buf)@ == old(buf)@ + wire::message(
            resource_logs_fields(
                otlp_trace::attrs_model(resource_attrs@),
                scope_name@,
                scope_version@,
                logs_model(logs@),
            ),
        ),
{
    broadcast use wire::lemma_skip_prefix;

    let ghost resource_body = wire::message(
        otlp_trace::resource_fields(otlp_trace::attrs_model(resource_attrs@)),
    );
    let ghost scope_body = wire::message(
        scope_logs_fields(scope_name@, scope_version@, logs_model(logs@)),
    );
    proof {
        wire::lemma_two_part_len(1, resource_body, wire::opt_bytes_field(2, scope_body));
        wire::lemma_bytes_field_len(2, scope_body);
        wire::lemma_entries_fit(
            1,
            otlp_trace::key_value_bodies(otlp_trace::attrs_model(resource_attrs@)),
        );
    }
    let resource = |b: &mut Vec<u8>|
        ensures
            final(b)@ == old(b)@ + resource_body,
        {
            encode_resource(b, resource_attrs);
        };
    encode_message_field_in_place(buf, 1, resource);
    let scope_logs = |b: &mut Vec<u8>|
        ensures
            final(b)@ == old(b)@ + scope_body,
        {
            encode_scope_logs(b, scope_name, scope_version, logs);
        };
    encode_message_field_in_place(buf, 2, scope_logs);
    proof {
        wire::lemma_append(
            old(buf)@,
            wire::opt_bytes_field(1, resource_body),
            wire::opt_bytes_field(2, scope_body),
        );
    }
}

/// Encodes an `ExportLogsServiceRequest` with one resource and one scope.
pub fn encode_export_logs_request(
    resource_attrs: &[KeyValue],
    scope_name: &str,
    scope_version: &str,
    logs: &[LogData],
) -> (request: Vec<u8>)
    requires
        wire::message(
            resource_logs_fields(
                otlp_trace::attrs_model(resource_attrs@),
                scope_name@,
                scope_version@,
                logs_model(logs@),
            ),
        ).len() < MAX_MESSAGE_LEN,
    ensures
        request@ == wire::message(
            logs_request_fields(
                otlp_trace::attrs_model(resource_attrs@),
                scope_name@,
                scope_version@,
                logs_model(logs@),
            ),
        ),
{
    broadcast use wire::lemma_skip_prefix;

    let mut request_buf: Vec<u8> = Vec::new();
    let resource_logs = |b: &mut Vec<u8>|
        ensures
            final(b)@ == old(b)@ + wire::message(
                resource_logs_fields(
                    otlp_trace::attrs_model(resource_attrs@),
                    scope_name@,
                    scope_version@,
                    logs_model(logs@),
                ),
            ),
        {
            encode_resource_logs(b, resource_attrs, scope_name, scope_version, logs);
        };
    encode_message_field_in_place(&mut request_buf, 1, resource_logs);
    request_buf
}

} // verus!
