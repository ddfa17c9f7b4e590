use http::Request;
use rolly::constants::metrics;
use rolly::request::{
    finish_request, request_id, CfRequestIdLayer, MetricValue, RequestSpan, REQUEST_ID_HEADER,
};
use rolly::trace_id::hex_encode;

#[test]
fn cf_request_id_layer_constructs() {
    let _layer = CfRequestIdLayer;
}

#[test]
fn extract_request_id_from_header() {
    let req = Request::builder()
        .header("x-amz-cf-id", "test-cf-id-123")
        .body(())
        .unwrap();
    let id = request_id(req.headers().get("x-amz-cf-id").map(|v| v.as_bytes()));
    assert_eq!(id.as_deref(), Some("test-cf-id-123"));
}

#[test]
fn missing_request_id_header() {
    let req = Request::builder().body(()).unwrap();
    let id = request_id(req.headers().get("x-amz-cf-id").map(|v| v.as_bytes()));
    assert_eq!(id, None);
}

#[test]
fn request_id_must_be_visible_ascii() {
    assert_eq!(REQUEST_ID_HEADER, "x-amz-cf-id");
    assert_eq!(request_id(Some(b"a\tb ~".as_slice())).as_deref(), Some("a\tb ~"));
    assert_eq!(request_id(Some(b"".as_slice())).as_deref(), Some(""));
    assert_eq!(request_id(Some("caf\u{e9}".as_bytes())), None);
    assert_eq!(request_id(Some(b"a\nb".as_slice())), None);
    assert_eq!(request_id(Some(b"a\x7fb".as_slice())), None);
}

#[test]
fn layer_wraps_a_service() {
    let mut service = CfRequestIdLayer.layer(41);
    *service.inner() += 1;
    assert_eq!(*service.inner(), 42);
}

#[test]
fn request_span_shows_the_request_id() {
    let span = RequestSpan::new("GET".into(), "/cart".into(), Some("abc123".into()));
    assert_eq!(span.method, "GET");
    assert_eq!(span.uri, "/cart");
    assert_eq!(span.request_id, "abc123");
    assert_eq!(
        span.trace_id,
        hex_encode(&blake3::hash(b"abc123").as_bytes()[..16])
    );
    assert_eq!(span.span_id.len(), 16);
}

#[test]
fn request_span_without_an_id_shows_a_dash() {
    let span = RequestSpan::new("GET".into(), "/".into(), None);
    assert_eq!(span.request_id, "-");
    assert_eq!(span.trace_id.len(), 32);
    assert_eq!(span.trace_id.as_bytes()[12], b'4');
    let other = RequestSpan::new("GET".into(), "/".into(), None);
    assert_ne!(span.trace_id, other.trace_id);
}

#[test]
fn red_metrics_of_a_request() {
    let latency = 12.5f64.to_bits();
    let served = finish_request(Some(200), latency);
    assert_eq!(served.len(), 2);
    assert_eq!(served[0].name, metrics::REQUEST_DURATION);
    assert_eq!(served[0].value, MetricValue::Histogram(latency));
    assert_eq!(served[1].name, metrics::REQUEST_COUNT);
    assert_eq!(served[1].value, MetricValue::Counter(1));

    let missing = finish_request(Some(404), latency);
    assert_eq!(missing.len(), 3);
    assert_eq!(missing[2].name, metrics::ERROR_COUNT);
    assert_eq!(missing[2].value, MetricValue::Counter(1));

    assert_eq!(finish_request(Some(399), latency).len(), 2);
    assert_eq!(finish_request(Some(400), latency).len(), 3);
    assert!(finish_request(None, latency).is_empty());
}
