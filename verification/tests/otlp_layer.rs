use rolly::hex::{hex_nibble, hex_to_bytes_16};
use rolly::otlp_layer::{
    level_name, level_to_severity, parse_span_kind, parse_status_code, FieldCollector, Level,
    OtlpLayer, OtlpLayerConfig, SpanFields,
};
use rolly::otlp_log::SeverityNumber;
use rolly::otlp_trace::{AnyValue, SpanKind, StatusCode};
use rolly::sampling::should_sample;

/// What an exporter is handed.
#[derive(Debug)]
enum Message {
    Traces(Vec<u8>),
    Logs(Vec<u8>),
}

/// The fields of spans and events, by type.
enum Field {
    Str(&'static str),
    I64(i64),
    U64(u64),
    Bool(bool),
    F64(f64),
}

/// Spans that are entered and left one inside the other, and what comes of them.
struct Tracer {
    layer: OtlpLayer,
    open: Vec<(&'static str, SpanFields)>,
    messages: Vec<Message>,
}

fn collect(fields: &[(&str, Field)]) -> FieldCollector {
    let mut collector = FieldCollector::new();
    for (name, field) in fields {
        match field {
            Field::Str(value) => collector.record_str(name, value),
            Field::I64(value) => collector.record_i64(name, *value),
            Field::U64(value) => collector.record_u64(name, *value),
            Field::Bool(value) => collector.record_bool(name, *value),
            Field::F64(value) => collector.record_f64(name, value.to_bits()),
        }
    }
    collector
}

impl Tracer {
    fn new(export_traces: bool, export_logs: bool, sampling_rate: f64) -> Tracer {
        Tracer::with_attributes(&[], export_traces, export_logs, sampling_rate)
    }

    fn with_attributes(
        resource_attributes: &[(String, String)],
        export_traces: bool,
        export_logs: bool,
        sampling_rate: f64,
    ) -> Tracer {
        Tracer {
            layer: OtlpLayer::new(OtlpLayerConfig {
                service_name: "test-svc",
                service_version: "0.0.1",
                environment: "test",
                resource_attributes,
                export_traces,
                export_logs,
                sampling_rate: sampling_rate.to_bits(),
                scope_name: "rolly",
                scope_version: "0.1.0",
            }),
            open: Vec::new(),
            messages: Vec::new(),
        }
    }

    fn enter(&mut self, name: &'static str, fields: &[(&str, Field)]) {
        let parent = self.open.last().map(|(_, span)| span.context());
        let span = self.layer.on_new_span(collect(fields), parent);
        self.open.push((name, span));
    }

    fn record(&mut self, fields: &[(&str, Field)]) {
        let (_, span) = self.open.last_mut().unwrap();
        self.layer.on_record(span, collect(fields));
    }

    fn event(&mut self, message: &str) {
        let mut collector = FieldCollector::new();
        collector.record_debug("message", message);
        let context = self.open.last().map(|(_, span)| span.context());
        if let Some(data) = self.layer.on_event(collector, context, Level::Info, 1_500) {
            self.messages.push(Message::Logs(data));
        }
    }

    fn leave(&mut self) {
        let (name, span) = self.open.pop().unwrap();
        if let Some(data) = self.layer.on_close(Some(1_000), Some(&span), name, 2_000) {
            self.messages.push(Message::Traces(data));
        }
    }
}

fn holds(data: &[u8], part: &[u8]) -> bool {
    data.windows(part.len()).any(|w| w == part)
}

fn only_trace(tracer: &Tracer) -> &[u8] {
    assert_eq!(tracer.messages.len(), 1);
    match &tracer.messages[0] {
        Message::Traces(data) => data,
        other => panic!("expected Traces, got {:?}", other),
    }
}

#[test]
fn otlp_layer_otlp_layer_constructs_without_panic() {
    let _tracer = Tracer::new(true, true, 1.0);
}

#[test]
fn custom_resource_attributes_appear_in_trace() {
    let custom_attrs = vec![
        ("team".to_string(), "platform".to_string()),
        ("region".to_string(), "us-east-1".to_string()),
    ];
    let mut tracer = Tracer::with_attributes(&custom_attrs, true, true, 1.0);
    tracer.enter("attr-span", &[]);
    tracer.leave();

    let data = only_trace(&tracer);
    assert!(holds(data, b"team"), "custom attribute key 'team' not found in protobuf");
    assert!(holds(data, b"platform"), "custom attribute value 'platform' not found in protobuf");
    assert!(holds(data, b"region"), "custom attribute key 'region' not found in protobuf");
    assert!(holds(data, b"us-east-1"), "custom attribute value 'us-east-1' not found in protobuf");
}

#[test]
fn hex_to_bytes_16_valid() {
    let result = hex_to_bytes_16("0102030405060708090a0b0c0d0e0f10");
    assert_eq!(
        result,
        Ok([1, 2, 3, 4, 5, 6, 7, 8, 9, 10, 11, 12, 13, 14, 15, 16])
    );
}

#[test]
fn hex_to_bytes_16_wrong_length() {
    assert!(hex_to_bytes_16("0102").is_err());
}

#[test]
fn hex_to_bytes_16_invalid_chars() {
    assert!(hex_to_bytes_16("zz02030405060708090a0b0c0d0e0f10").is_err());
}

#[test]
fn otlp_layer_hex_to_bytes_16_valid() {
    let result = hex_to_bytes_16("0102030405060708090a0b0c0d0e0f10");
    assert_eq!(
        result,
        Ok([1, 2, 3, 4, 5, 6, 7, 8, 9, 10, 11, 12, 13, 14, 15, 16])
    );
}

#[test]
fn otlp_layer_hex_to_bytes_16_wrong_length() {
    assert!(hex_to_bytes_16("0102").is_err());
}

#[test]
fn otlp_layer_hex_to_bytes_16_invalid_chars() {
    assert!(hex_to_bytes_16("zz02030405060708090a0b0c0d0e0f10").is_err());
}

#[test]
fn otlp_layer_layer_captures_span_and_sends_trace_on_close() {
    let mut tracer = Tracer::new(true, true, 1.0);
    let trace_id_hex = "0102030405060708090a0b0c0d0e0f10";
    let trace_id_bytes: [u8; 16] = [1, 2, 3, 4, 5, 6, 7, 8, 9, 10, 11, 12, 13, 14, 15, 16];

    tracer.enter("test-span", &[("trace_id", Field::Str(trace_id_hex))]);
    tracer.leave();

    let data = only_trace(&tracer);
    assert!(holds(data, &trace_id_bytes), "trace_id not found in protobuf");
    assert!(holds(data, b"test-span"), "span name not found in protobuf");
}

#[test]
fn otlp_layer_layer_captures_event_and_sends_log() {
    let mut tracer = Tracer::new(true, true, 1.0);
    tracer.event("hello integration");

    assert_eq!(tracer.messages.len(), 1);
    match &tracer.messages[0] {
        Message::Logs(data) => {
            assert!(holds(data, b"hello integration"), "log body not found in protobuf");
        }
        other => panic!("expected Logs, got {:?}", other),
    }
}

#[test]
fn otlp_layer_layer_event_inside_span_carries_trace_context() {
    let mut tracer = Tracer::new(true, true, 1.0);
    let trace_id_hex = "aabbccdd11223344aabbccdd11223344";
    let trace_id_bytes: [u8; 16] = [
        0xaa, 0xbb, 0xcc, 0xdd, 0x11, 0x22, 0x33, 0x44, 0xaa, 0xbb, 0xcc, 0xdd, 0x11, 0x22, 0x33,
        0x44,
    ];

    tracer.enter("outer", &[("trace_id", Field::Str(trace_id_hex))]);
    tracer.event("inner event");
    tracer.leave();

    match &tracer.messages[0] {
        Message::Logs(data) => {
            assert!(holds(data, &trace_id_bytes), "trace_id not propagated to log");
        }
        other => panic!("expected Logs, got {:?}", other),
    }
    assert!(matches!(tracer.messages[1], Message::Traces(_)));
}

#[test]
fn otlp_layer_field_collector_handles_all_types() {
    let mut tracer = Tracer::new(true, true, 1.0);
    tracer.enter(
        "typed-span",
        &[
            ("str_field", Field::Str("hello")),
            ("i64_field", Field::I64(42)),
            ("u64_field", Field::U64(100)),
            ("bool_field", Field::Bool(true)),
            ("f64_field", Field::F64(1.5)),
        ],
    );
    tracer.leave();

    let data = only_trace(&tracer);
    for name in &["str_field", "i64_field", "u64_field", "bool_field", "f64_field"] {
        assert!(holds(data, name.as_bytes()), "field '{}' not found in protobuf", name);
    }
    assert!(holds(data, b"hello"), "string value 'hello' not found");
}

#[test]
fn otlp_layer_parent_span_id_propagated_to_child() {
    let mut tracer = Tracer::new(true, true, 1.0);
    tracer.enter("parent-span", &[]);
    let parent_id = tracer.open[0].1.span_id;
    tracer.enter("child-span", &[]);
    assert_eq!(tracer.open[1].1.parent_span_id, parent_id);
    tracer.leave();
    tracer.leave();

    match &tracer.messages[0] {
        Message::Traces(data) => {
            assert!(holds(data, b"child-span"), "child span name not found");
            assert!(holds(data, &parent_id), "parent span id not found");
        }
        other => panic!("expected Traces for child, got {:?}", other),
    }
    match &tracer.messages[1] {
        Message::Traces(data) => {
            assert!(holds(data, b"parent-span"), "parent span name not found");
        }
        other => panic!("expected Traces for parent, got {:?}", other),
    }
}

#[test]
fn otlp_layer_layer_skips_log_export_when_disabled() {
    let mut tracer = Tracer::new(true, false, 1.0);
    tracer.event("should not export");
    tracer.enter("traced-span", &[]);
    tracer.leave();

    assert!(matches!(tracer.messages[0], Message::Traces(_)));
    assert_eq!(tracer.messages.len(), 1, "expected no more messages");
}

#[test]
fn otlp_layer_layer_skips_trace_export_when_disabled() {
    let mut tracer = Tracer::new(false, true, 1.0);
    tracer.enter("suppressed-span", &[]);
    tracer.event("logged event");
    tracer.leave();

    assert!(matches!(tracer.messages[0], Message::Logs(_)));
    assert_eq!(tracer.messages.len(), 1, "expected no trace message");
}

#[test]
fn should_sample_rate_1_always_samples() {
    for i in 0u8..=255 {
        let mut trace_id = [0u8; 16];
        trace_id[0] = i;
        assert!(should_sample(trace_id, 1.0f64.to_bits()));
    }
}

#[test]
fn should_sample_rate_0_never_samples() {
    for i in 0u8..=255 {
        let mut trace_id = [0u8; 16];
        trace_id[0] = i;
        assert!(!should_sample(trace_id, 0.0f64.to_bits()));
    }
}

#[test]
fn should_sample_is_deterministic() {
    let trace_id = [
        0xaa, 0xbb, 0xcc, 0xdd, 0x11, 0x22, 0x33, 0x44, 0, 0, 0, 0, 0, 0, 0, 0,
    ];
    let result1 = should_sample(trace_id, 0.5f64.to_bits());
    let result2 = should_sample(trace_id, 0.5f64.to_bits());
    assert_eq!(result1, result2, "same trace_id must produce same decision");
}

#[test]
fn should_sample_respects_rate_approximately() {
    let mut sampled = 0u64;
    let total = 10_000u64;
    for i in 0..total {
        let hash = blake3::hash(&i.to_le_bytes());
        let mut trace_id = [0u8; 16];
        trace_id.copy_from_slice(&hash.as_bytes()[..16]);
        if should_sample(trace_id, 0.5f64.to_bits()) {
            sampled += 1;
        }
    }
    let ratio = sampled as f64 / total as f64;
    assert!(
        (0.45..=0.55).contains(&ratio),
        "expected ~50% sampled, got {:.1}%",
        ratio * 100.0
    );
}

/// The decision as it is made in floating point.
fn sampled_in_floating_point(trace_id: [u8; 16], rate: f64) -> bool {
    if rate >= 1.0 {
        return true;
    }
    if rate <= 0.0 {
        return false;
    }
    let mut first = [0u8; 8];
    first.copy_from_slice(&trace_id[..8]);
    (u64::from_le_bytes(first) as f64) / (u64::MAX as f64) < rate
}

#[test]
fn should_sample_decides_as_floating_point_does() {
    let rates = [
        0.0, -0.0, -1.0, 1.0, 1.5, 0.5, 0.01, 0.1, 0.999999, 1e-19, 1e-20, 5e-324, 0.25,
        f64::INFINITY, f64::NEG_INFINITY, f64::NAN, f64::MIN_POSITIVE, 0.3333333333333333,
        0.9999999999999999,
    ];
    let words = [
        0u64, 1, 2, 1023, 1 << 52, (1 << 53) - 1, 1 << 53, (1 << 53) + 1, 1 << 62, u64::MAX / 2,
        u64::MAX / 2 + 1, u64::MAX / 4, u64::MAX - 1, u64::MAX, u64::MAX - 1024, u64::MAX - 2048,
        184467440737095516, 0x8000_0000_0000_0400, 0x8000_0000_0000_0401,
    ];
    for rate in rates {
        for word in words {
            let mut trace_id = [7u8; 16];
            trace_id[..8].copy_from_slice(&word.to_le_bytes());
            assert_eq!(
                should_sample(trace_id, rate.to_bits()),
                sampled_in_floating_point(trace_id, rate),
                "rate {} word {}",
                rate,
                word
            );
        }
    }
    for i in 0..20_000u64 {
        let hash = blake3::hash(&i.to_le_bytes());
        let mut trace_id = [0u8; 16];
        trace_id.copy_from_slice(&hash.as_bytes()[..16]);
        let mut word = [0u8; 8];
        word.copy_from_slice(&hash.as_bytes()[16..24]);
        let rate = u64::from_le_bytes(word) as f64 / u64::MAX as f64;
        assert_eq!(
            should_sample(trace_id, rate.to_bits()),
            sampled_in_floating_point(trace_id, rate)
        );
    }
}

#[test]
fn sampling_rate_zero_drops_all_traces_and_logs() {
    let mut tracer = Tracer::new(true, true, 0.0);
    tracer.enter("sampled-out-span", &[]);
    tracer.event("sampled-out-log");
    tracer.leave();

    assert!(
        tracer.messages.is_empty(),
        "expected no messages when sampling_rate=0.0"
    );
}

#[test]
fn sampling_rate_one_exports_all() {
    let mut tracer = Tracer::new(true, true, 1.0);
    let trace_id_hex = "0102030405060708090a0b0c0d0e0f10";
    tracer.enter("sampled-in-span", &[("trace_id", Field::Str(trace_id_hex))]);
    tracer.event("sampled-in-log");
    tracer.leave();

    assert!(matches!(tracer.messages[0], Message::Logs(_)));
    assert!(matches!(tracer.messages[1], Message::Traces(_)));
}

#[test]
fn child_spans_inherit_parent_sampling_decision() {
    let mut tracer = Tracer::new(true, true, 0.0);
    tracer.enter("parent", &[]);
    tracer.enter("child", &[]);
    tracer.event("child-event");
    tracer.leave();
    tracer.leave();

    assert!(
        tracer.messages.is_empty(),
        "child spans and events should inherit parent's sampled-out decision"
    );
}

#[test]
fn root_span_without_explicit_trace_id_gets_generated_nonzero_id() {
    let mut tracer = Tracer::new(true, false, 1.0);
    tracer.enter("root-no-trace-id", &[]);
    tracer.leave();

    let data = only_trace(&tracer);
    assert!(holds(data, b"root-no-trace-id"), "span name not found");
    let zero_trace = [0u8; 16];
    assert!(
        !holds(data, &zero_trace),
        "trace_id should not be all zeros for a root span"
    );
}

#[test]
fn child_span_inherits_trace_id_from_parent() {
    let mut tracer = Tracer::new(true, false, 1.0);
    let trace_id_hex = "aabbccdd11223344aabbccdd11223344";
    let trace_id_bytes: [u8; 16] = [
        0xaa, 0xbb, 0xcc, 0xdd, 0x11, 0x22, 0x33, 0x44, 0xaa, 0xbb, 0xcc, 0xdd, 0x11, 0x22, 0x33,
        0x44,
    ];

    tracer.enter("parent", &[("trace_id", Field::Str(trace_id_hex))]);
    tracer.enter("child", &[]);
    tracer.leave();
    tracer.leave();

    match &tracer.messages[0] {
        Message::Traces(data) => {
            assert!(holds(data, b"child"), "child span name not found");
            assert!(
                holds(data, &trace_id_bytes),
                "child span must carry parent's trace_id"
            );
        }
        other => panic!("expected Traces for child, got {:?}", other),
    }
    match &tracer.messages[1] {
        Message::Traces(data) => {
            assert!(holds(data, b"parent"), "parent span name not found");
            assert!(
                holds(data, &trace_id_bytes),
                "parent span must carry its own trace_id"
            );
        }
        other => panic!("expected Traces for parent, got {:?}", other),
    }
}

#[test]
fn grandchild_inherits_trace_id_through_chain() {
    let mut tracer = Tracer::new(true, false, 1.0);
    let trace_id_hex = "1111111122222222aaaaaaaa33333333";
    let trace_id_bytes: [u8; 16] = [
        0x11, 0x11, 0x11, 0x11, 0x22, 0x22, 0x22, 0x22, 0xaa, 0xaa, 0xaa, 0xaa, 0x33, 0x33, 0x33,
        0x33,
    ];

    tracer.enter("root", &[("trace_id", Field::Str(trace_id_hex))]);
    tracer.enter("mid", &[]);
    tracer.enter("leaf", &[]);
    tracer.leave();
    tracer.leave();
    tracer.leave();

    // All three spans must contain the same trace_id
    for (i, expected_name) in [b"leaf" as &[u8], b"mid", b"root"].iter().enumerate() {
        match &tracer.messages[i] {
            Message::Traces(data) => {
                assert!(
                    holds(data, expected_name),
                    "span name {:?} not found",
                    std::str::from_utf8(expected_name)
                );
                assert!(
                    holds(data, &trace_id_bytes),
                    "span {:?} must carry root's trace_id",
                    std::str::from_utf8(expected_name)
                );
            }
            other => panic!("expected Traces, got {:?}", other),
        }
    }
}

#[test]
fn span_kind_from_otel_kind_attr() {
    let mut tracer = Tracer::new(true, false, 1.0);
    tracer.enter("server-span", &[("otel.kind", Field::Str("server"))]);
    tracer.leave();

    let data = only_trace(&tracer);
    // SpanKind::Server = 2, encoded as varint field 6: tag=0x30, value=0x02
    assert!(holds(data, &[0x30, 0x02]), "SpanKind::Server not found in protobuf");
    // otel.kind must NOT appear in attributes
    assert!(
        !holds(data, b"otel.kind"),
        "otel.kind should not leak into span attributes"
    );
}

#[test]
fn span_status_from_otel_status_attrs() {
    let mut tracer = Tracer::new(true, false, 1.0);
    tracer.enter(
        "error-span",
        &[
            ("otel.status_code", Field::Str("error")),
            ("otel.status_message", Field::Str("something broke")),
        ],
    );
    tracer.leave();

    let data = only_trace(&tracer);
    // StatusCode::Error = 2, in Status message field 3: tag=0x18, value=0x02
    assert!(holds(data, &[0x18, 0x02]), "StatusCode::Error not found in protobuf");
    assert!(holds(data, b"something broke"), "status message not found in protobuf");
    // otel.* must NOT appear in attributes
    assert!(
        !holds(data, b"otel.status_code"),
        "otel.status_code should not leak into attributes"
    );
    assert!(
        !holds(data, b"otel.status_message"),
        "otel.status_message should not leak into attributes"
    );
}

#[test]
fn deferred_status_recording() {
    let mut tracer = Tracer::new(true, false, 1.0);
    tracer.enter("deferred-span", &[]);
    // Simulate setting status after work completes
    tracer.record(&[("otel.status_code", Field::Str("ok"))]);
    tracer.record(&[("otel.status_message", Field::Str("all good"))]);
    tracer.leave();

    let data = only_trace(&tracer);
    // Status code 1, in Status message field 3: tag=0x18, value=0x01
    assert!(holds(data, &[0x18, 0x01]), "status code not found in protobuf");
    assert!(
        holds(data, b"all good"),
        "status message 'all good' not found in protobuf"
    );
}

#[test]
fn default_span_kind_is_internal_and_no_status() {
    let mut tracer = Tracer::new(true, false, 1.0);
    tracer.enter("plain-span", &[]);
    tracer.leave();

    let data = only_trace(&tracer);
    // SpanKind::Internal = 1, field 6: tag=0x30, value=0x01
    assert!(holds(data, &[0x30, 0x01]), "SpanKind::Internal should be the default");
    assert!(
        !holds(data, b"otel.status_code"),
        "otel.status_code should not appear in attributes"
    );
}

#[test]
fn all_span_kind_variants_parse() {
    for (input, expected_tag) in [
        ("server", 0x02u8),
        ("client", 0x03),
        ("producer", 0x04),
        ("consumer", 0x05),
        ("internal", 0x01),
        ("SERVER", 0x02),
        ("CLIENT", 0x03),
    ] {
        let mut tracer = Tracer::new(true, false, 1.0);
        tracer.enter("kind-test", &[("otel.kind", Field::Str(input))]);
        tracer.leave();

        let data = only_trace(&tracer);
        assert!(
            holds(data, &[0x30, expected_tag]),
            "SpanKind for '{}' (expected tag byte 0x{:02x}) not found",
            input,
            expected_tag
        );
    }
}

#[test]
fn events_outside_spans_are_exported_regardless_of_sampling() {
    let mut tracer = Tracer::new(true, true, 0.0);
    tracer.event("standalone-log");

    assert_eq!(tracer.messages.len(), 1, "standalone event should be exported");
    assert!(matches!(tracer.messages[0], Message::Logs(_)));
}

#[test]
fn hex_nibble_takes_hexadecimal_digits_only() {
    for b in 0u8..=255 {
        let expected = (b as char).to_digit(16).map(|d| d as u8);
        assert_eq!(hex_nibble(b), expected);
    }
}

#[test]
fn kinds_and_status_codes_parse() {
    assert_eq!(parse_span_kind("PRODUCER"), Some(SpanKind::Producer));
    assert_eq!(parse_span_kind("sideways"), None);
    assert_eq!(parse_status_code("ok"), Some(StatusCode::Okay));
    assert_eq!(parse_status_code("ERROR"), Some(StatusCode::Error));
    assert_eq!(parse_status_code("unset"), Some(StatusCode::Unset));
    assert_eq!(parse_status_code("fine"), None);
}

#[test]
fn levels_have_severities_and_names() {
    assert_eq!(level_to_severity(Level::Trace), SeverityNumber::Trace);
    assert_eq!(level_to_severity(Level::Warn), SeverityNumber::Warn);
    assert_eq!(level_name(Level::Debug), "DEBUG");
    assert_eq!(level_name(Level::Error), "ERROR");
}

#[test]
fn control_fields_are_no_attributes() {
    let collector = collect(&[
        ("trace_id", Field::Str("aabbccdd11223344aabbccdd11223344")),
        ("otel.kind", Field::Str("client")),
        ("otel.status_code", Field::Str("ok")),
        ("otel.status_message", Field::Str("fine")),
        ("user", Field::Str("ada")),
    ]);
    // The trace id stays visible as an attribute.
    let keys: Vec<_> = collector.attrs.iter().map(|attr| attr.key.as_str()).collect();
    assert_eq!(keys, ["trace_id", "user"]);
    assert_eq!(collector.trace_id.unwrap()[0], 0xaa);
    assert_eq!(collector.span_kind, Some(SpanKind::Client));
    assert_eq!(collector.status_code, Some(StatusCode::Okay));
    assert_eq!(collector.status_message.as_deref(), Some("fine"));
}

#[test]
fn numbers_beyond_signed_range_are_kept() {
    let collector = collect(&[("big", Field::U64(u64::MAX)), ("small", Field::I64(-1))]);
    assert!(matches!(collector.attrs[0].value, AnyValue::Int(-1)));
    assert!(matches!(collector.attrs[1].value, AnyValue::Int(-1)));
}

#[test]
fn requests_that_fit_are_given_out() {
    let tracer = Tracer::new(true, true, 1.0);
    let span = tracer.layer.on_new_span(FieldCollector::new(), None);
    let closed = tracer.layer.try_on_close(Some(1_000), Some(&span), "work", 2_000);
    assert_eq!(
        closed,
        Ok(tracer.layer.on_close(Some(1_000), Some(&span), "work", 2_000))
    );
    let logged = tracer.layer.try_on_event(FieldCollector::new(), None, Level::Info, 5);
    assert_eq!(
        logged,
        Ok(tracer.layer.on_event(FieldCollector::new(), None, Level::Info, 5))
    );
    assert_eq!(tracer.layer.try_on_close(None, Some(&span), "work", 2_000), Ok(None));
}
