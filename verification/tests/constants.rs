use rolly::constants::{fields, metrics};

#[test]
fn field_constants_are_non_empty() {
    assert!(!fields::TRACE_ID.is_empty());
    assert!(!fields::SPAN_ID.is_empty());
    assert!(!fields::HTTP_METHOD.is_empty());
    assert!(!fields::HTTP_URI.is_empty());
    assert!(!fields::HTTP_STATUS_CODE.is_empty());
    assert!(!fields::HTTP_LATENCY_MS.is_empty());
    assert!(!fields::CF_REQUEST_ID.is_empty());
}

#[test]
fn metric_constants_are_non_empty() {
    assert!(!metrics::REQUEST_DURATION.is_empty());
    assert!(!metrics::REQUEST_COUNT.is_empty());
    assert!(!metrics::ERROR_COUNT.is_empty());
}

#[test]
fn trace_id_constant_matches_field_collector() {
    // The field collector of the layer takes the field "trace_id"
    assert_eq!(fields::TRACE_ID, "trace_id");
}
