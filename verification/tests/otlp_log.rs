use rolly::otlp_log::{
    encode_export_logs_request, encode_log_record, severity_from_u8, LogData, SeverityNumber,
};
use rolly::otlp_trace::{AnyValue, KeyValue};

fn test_log() -> LogData {
    LogData {
        time_unix_nano: 1_000_000_000,
        severity_number: SeverityNumber::Info,
        severity_text: "INFO".to_string(),
        body: AnyValue::String("hello world".to_string()),
        attributes: vec![KeyValue {
            key: "service.name".to_string(),
            value: AnyValue::String("test-svc".to_string()),
        }],
        trace_id: [1, 2, 3, 4, 5, 6, 7, 8, 9, 10, 11, 12, 13, 14, 15, 16],
        span_id: [1, 2, 3, 4, 5, 6, 7, 8],
    }
}

#[test]
fn encode_log_record_contains_time() {
    let log = test_log();
    let mut buf = Vec::new();
    encode_log_record(&mut buf, &log);

    assert_eq!(buf[0], 0x09);
    let time_bytes = &buf[1..9];
    let time = u64::from_le_bytes(time_bytes.try_into().unwrap());
    assert_eq!(time, 1_000_000_000);
}

#[test]
fn encode_log_record_contains_severity() {
    let log = test_log();
    let mut buf = Vec::new();
    encode_log_record(&mut buf, &log);

    assert_eq!(buf[9], 0x10);
    assert_eq!(buf[10], 0x09);
}

#[test]
fn encode_log_record_contains_body() {
    let log = test_log();
    let mut buf = Vec::new();
    encode_log_record(&mut buf, &log);

    let body_bytes = b"hello world";
    let found = buf.windows(body_bytes.len()).any(|w| w == body_bytes);
    assert!(found, "log body not found in encoded bytes");
}

#[test]
fn encode_log_record_contains_trace_id() {
    let log = test_log();
    let mut buf = Vec::new();
    encode_log_record(&mut buf, &log);

    let trace_id = &log.trace_id;
    let found = buf.windows(trace_id.len()).any(|w| w == trace_id);
    assert!(found, "trace_id not found in encoded bytes");
}

#[test]
fn encode_export_logs_request_is_nonempty() {
    let attrs = vec![KeyValue {
        key: "service.name".to_string(),
        value: AnyValue::String("test-svc".to_string()),
    }];
    let logs = vec![test_log()];

    let bytes = encode_export_logs_request(&attrs, "pz-o11y", "0.1.0", &logs);
    assert!(!bytes.is_empty());
    assert_eq!(bytes[0], 0x0A);
}

#[test]
fn bytes_pick_severities() {
    for v in 0u8..=255 {
        assert_eq!(severity_from_u8(v).number(), 1 + 4 * (v % 6) as u64);
    }
}
