use rolly::otlp_trace::{
    encode_any_value, encode_export_trace_request, encode_key_value, encode_span, encode_status,
    span_kind_from_u8, status_code_from_u8, AnyValue, KeyValue, SpanData, SpanKind, SpanStatus,
    StatusCode,
};

fn test_span() -> SpanData {
    SpanData {
        trace_id: [1, 2, 3, 4, 5, 6, 7, 8, 9, 10, 11, 12, 13, 14, 15, 16],
        span_id: [1, 2, 3, 4, 5, 6, 7, 8],
        parent_span_id: [0; 8],
        name: "test-span".to_string(),
        kind: SpanKind::Server,
        start_time_unix_nano: 1_000_000_000,
        end_time_unix_nano: 2_000_000_000,
        attributes: vec![KeyValue {
            key: "http.method".to_string(),
            value: AnyValue::String("GET".to_string()),
        }],
        status: Some(SpanStatus {
            message: String::new(),
            code: StatusCode::Okay,
        }),
    }
}

#[test]
fn encode_span_contains_trace_id() {
    let span = test_span();
    let mut buf = Vec::new();
    encode_span(&mut buf, &span);

    assert_eq!(buf[0], 0x0A); // field 1, wire type 2
    assert_eq!(buf[1], 16);
    assert_eq!(&buf[2..18], &span.trace_id);
}

#[test]
fn encode_span_contains_span_id() {
    let span = test_span();
    let mut buf = Vec::new();
    encode_span(&mut buf, &span);

    assert_eq!(buf[18], 0x12); // field 2, wire type 2
    assert_eq!(buf[19], 8);
    assert_eq!(&buf[20..28], &span.span_id);
}

#[test]
fn encode_span_contains_name() {
    let span = test_span();
    let mut buf = Vec::new();
    encode_span(&mut buf, &span);

    let name_bytes = b"test-span";
    let found = buf.windows(name_bytes.len()).any(|w| w == name_bytes);
    assert!(found, "span name not found in encoded bytes");
}

#[test]
fn encode_export_trace_request_is_nonempty() {
    let attrs = vec![KeyValue {
        key: "service.name".to_string(),
        value: AnyValue::String("test-svc".to_string()),
    }];
    let spans = vec![test_span()];

    let bytes = encode_export_trace_request(&attrs, "pz-o11y", "0.1.0", &spans);
    assert!(!bytes.is_empty());
    assert_eq!(bytes[0], 0x0A);
}

#[test]
fn encode_key_value_string() {
    let kv = KeyValue {
        key: "k".to_string(),
        value: AnyValue::String("v".to_string()),
    };
    let mut buf = Vec::new();
    encode_key_value(&mut buf, &kv);

    assert_eq!(&buf[0..3], &[0x0A, 0x01, b'k']);
    assert_eq!(&buf[3..], &[0x12, 0x03, 0x0A, 0x01, b'v']);
}

#[test]
fn encode_any_value_bool_true() {
    let mut buf = Vec::new();
    encode_any_value(&mut buf, &AnyValue::Bool(true));
    assert_eq!(buf, vec![0x10, 0x01]);
}

#[test]
fn encode_any_value_bool_false_is_preserved() {
    let mut buf = Vec::new();
    encode_any_value(&mut buf, &AnyValue::Bool(false));
    // Must encode: tag=0x10, value=0x00
    assert_eq!(buf, vec![0x10, 0x00]);
}

#[test]
fn encode_any_value_int_zero_is_preserved() {
    let mut buf = Vec::new();
    encode_any_value(&mut buf, &AnyValue::Int(0));
    // Must encode: tag=0x18, value=0x00
    assert_eq!(buf, vec![0x18, 0x00]);
}

#[test]
fn encode_any_value_double_zero_is_preserved() {
    let mut buf = Vec::new();
    encode_any_value(&mut buf, &AnyValue::Double(0.0f64.to_bits()));
    // Must encode: tag=0x21 (field 4, wire type 1), then 8 zero bytes
    assert_eq!(buf, vec![0x21, 0, 0, 0, 0, 0, 0, 0, 0]);
}

#[test]
fn encode_any_value_int() {
    let mut buf = Vec::new();
    encode_any_value(&mut buf, &AnyValue::Int(42));
    assert_eq!(buf, vec![0x18, 0x2A]);
}

#[test]
fn encode_status_ok() {
    let status = SpanStatus {
        message: String::new(),
        code: StatusCode::Okay,
    };
    let mut buf = Vec::new();
    encode_status(&mut buf, &status);
    assert_eq!(buf, vec![0x18, 0x01]);
}

#[test]
fn encode_any_value_double_pi() {
    let mut buf = Vec::new();
    encode_any_value(&mut buf, &AnyValue::Double(std::f64::consts::PI.to_bits()));
    // field 4, wire type 1 (fixed64) → tag = 0x21
    assert_eq!(buf[0], 0x21);
    let bits = u64::from_le_bytes(buf[1..9].try_into().unwrap());
    assert_eq!(f64::from_bits(bits), std::f64::consts::PI);
}

#[test]
fn encode_any_value_bytes() {
    let data = vec![0xDE, 0xAD, 0xBE, 0xEF];
    let mut buf = Vec::new();
    encode_any_value(&mut buf, &AnyValue::Bytes(data.clone()));
    // field 7, wire type 2 → tag = (7 << 3) | 2 = 0x3A
    assert_eq!(buf[0], 0x3A);
    assert_eq!(buf[1], 4);
    assert_eq!(&buf[2..6], &data);
}

#[test]
fn encode_span_with_multiple_attributes() {
    let span = SpanData {
        trace_id: [1; 16],
        span_id: [2; 8],
        parent_span_id: [0; 8],
        name: "multi-attr".to_string(),
        kind: SpanKind::Internal,
        start_time_unix_nano: 100,
        end_time_unix_nano: 200,
        attributes: vec![
            KeyValue {
                key: "key1".to_string(),
                value: AnyValue::String("val1".to_string()),
            },
            KeyValue {
                key: "key2".to_string(),
                value: AnyValue::Int(42),
            },
            KeyValue {
                key: "key3".to_string(),
                value: AnyValue::Bool(true),
            },
        ],
        status: None,
    };
    let mut buf = Vec::new();
    encode_span(&mut buf, &span);
    assert!(buf.windows(4).any(|w| w == b"key1"));
    assert!(buf.windows(4).any(|w| w == b"key2"));
    assert!(buf.windows(4).any(|w| w == b"key3"));
    assert!(buf.windows(4).any(|w| w == b"val1"));
}

#[test]
fn bytes_pick_kinds_and_codes() {
    for v in 0u8..=255 {
        assert_eq!(span_kind_from_u8(v).number(), (v % 6) as u64);
        assert_eq!(status_code_from_u8(v).number(), (v % 3) as u64);
    }
}
