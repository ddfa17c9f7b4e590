use std::sync::Arc;

use rolly::metrics::{Exemplar, ExemplarValue, HistogramDataPoint, MetricSnapshot};
use rolly::otlp_metrics::encode_export_metrics_request;
use rolly::otlp_trace::{AnyValue, KeyValue};

#[test]
fn encode_counter_metric_is_nonempty() {
    let snapshots = vec![MetricSnapshot::Counter {
        name: "http_requests_total".to_string(),
        description: "Total HTTP requests".to_string(),
        data_points: vec![(
            Arc::new(vec![
                ("method".to_string(), "GET".to_string()),
                ("status".to_string(), "200".to_string()),
            ]),
            42,
            None,
        )],
    }];

    let bytes = encode_export_metrics_request(
        &[KeyValue {
            key: "service.name".to_string(),
            value: AnyValue::String("test-svc".to_string()),
        }],
        "rolly",
        "0.3.0",
        &snapshots,
        1_000_000_000,
        2_000_000_000,
    );

    assert!(!bytes.is_empty());
    assert_eq!(bytes[0], 0x0A); // field 1, wire type 2

    // Verify the metric name is in the output
    let name = b"http_requests_total";
    assert!(
        bytes.windows(name.len()).any(|w| w == name),
        "metric name not found in encoded bytes"
    );
}

#[test]
fn encode_gauge_metric_is_nonempty() {
    let snapshots = vec![MetricSnapshot::Gauge {
        name: "cpu_usage".to_string(),
        description: "CPU usage percentage".to_string(),
        data_points: vec![(
            Arc::new(vec![("core".to_string(), "0".to_string())]),
            75.5f64.to_bits(),
            None,
        )],
    }];

    let bytes = encode_export_metrics_request(
        &[KeyValue {
            key: "service.name".to_string(),
            value: AnyValue::String("test-svc".to_string()),
        }],
        "rolly",
        "0.3.0",
        &snapshots,
        1_000_000_000,
        2_000_000_000,
    );

    assert!(!bytes.is_empty());
    // Verify gauge value is encoded (75.5 as f64 bits, little-endian)
    let val_bytes = 75.5_f64.to_bits().to_le_bytes();
    assert!(
        bytes.windows(8).any(|w| w == val_bytes),
        "gauge value not found in encoded bytes"
    );
}

#[test]
fn encode_counter_value_is_correct() {
    let snapshots = vec![MetricSnapshot::Counter {
        name: "c".to_string(),
        description: String::new(),
        data_points: vec![(Arc::new(vec![]), 99, None)],
    }];

    let bytes = encode_export_metrics_request(&[], "rolly", "0.3.0", &snapshots, 0, 0);

    // as_int value 99 encoded as fixed64 LE
    let val_bytes = (99_i64 as u64).to_le_bytes();
    assert!(
        bytes.windows(8).any(|w| w == val_bytes),
        "counter value 99 not found in encoded bytes"
    );
}

#[test]
fn encode_multiple_data_points() {
    let snapshots = vec![MetricSnapshot::Counter {
        name: "multi".to_string(),
        description: String::new(),
        data_points: vec![
            (Arc::new(vec![("k".to_string(), "a".to_string())]), 10, None),
            (Arc::new(vec![("k".to_string(), "b".to_string())]), 20, None),
        ],
    }];

    let bytes = encode_export_metrics_request(&[], "rolly", "0.3.0", &snapshots, 0, 0);

    // Both values should be present
    let val10 = (10_i64 as u64).to_le_bytes();
    let val20 = (20_i64 as u64).to_le_bytes();
    assert!(bytes.windows(8).any(|w| w == val10));
    assert!(bytes.windows(8).any(|w| w == val20));
}

#[test]
fn encode_counter_has_cumulative_temporality() {
    let snapshots = vec![MetricSnapshot::Counter {
        name: "c".to_string(),
        description: String::new(),
        data_points: vec![(Arc::new(vec![]), 1, None)],
    }];

    let bytes = encode_export_metrics_request(&[], "rolly", "0.3.0", &snapshots, 0, 0);

    // aggregation_temporality = 2 (CUMULATIVE): varint field 2, value 2
    // tag = (2<<3)|0 = 0x10, value = 0x02
    assert!(
        bytes.windows(2).any(|w| w == [0x10, 0x02]),
        "CUMULATIVE temporality not found"
    );
}

#[test]
fn encode_counter_is_monotonic() {
    let snapshots = vec![MetricSnapshot::Counter {
        name: "c".to_string(),
        description: String::new(),
        data_points: vec![(Arc::new(vec![]), 1, None)],
    }];

    let bytes = encode_export_metrics_request(&[], "rolly", "0.3.0", &snapshots, 0, 0);

    // is_monotonic = true: varint field 3, value 1
    // tag = (3<<3)|0 = 0x18, value = 0x01
    assert!(
        bytes.windows(2).any(|w| w == [0x18, 0x01]),
        "is_monotonic=true not found"
    );
}

#[test]
fn encode_mixed_counter_and_gauge() {
    let snapshots = vec![
        MetricSnapshot::Counter {
            name: "requests".to_string(),
            description: String::new(),
            data_points: vec![(Arc::new(vec![]), 100, None)],
        },
        MetricSnapshot::Gauge {
            name: "temperature".to_string(),
            description: String::new(),
            data_points: vec![(Arc::new(vec![]), 36.6f64.to_bits(), None)],
        },
    ];

    let bytes = encode_export_metrics_request(&[], "rolly", "0.3.0", &snapshots, 0, 0);

    assert!(bytes.windows(8).any(|w| w == b"requests"));
    assert!(bytes.windows(11).any(|w| w == b"temperature"));
}

#[test]
fn encode_histogram_metric_is_nonempty() {
    let snapshots = vec![MetricSnapshot::Histogram {
        name: "request_duration".to_string(),
        description: "Request duration histogram".to_string(),
        boundaries: vec![10.0f64.to_bits(), 50.0f64.to_bits(), 100.0f64.to_bits()],
        data_points: vec![HistogramDataPoint {
            attrs: Arc::new(vec![("method".to_string(), "GET".to_string())]),
            bucket_counts: vec![5, 10, 3, 2],
            sum: 1234.5f64.to_bits(),
            count: 20,
            min: 1.0f64.to_bits(),
            max: 250.0f64.to_bits(),
            exemplar: None,
        }],
    }];

    let bytes = encode_export_metrics_request(
        &[KeyValue {
            key: "service.name".to_string(),
            value: AnyValue::String("test-svc".to_string()),
        }],
        "rolly",
        "0.3.0",
        &snapshots,
        1_000_000_000,
        2_000_000_000,
    );

    assert!(!bytes.is_empty());
    let name = b"request_duration";
    assert!(
        bytes.windows(name.len()).any(|w| w == name),
        "metric name not found in encoded bytes"
    );
}

#[test]
fn encode_histogram_has_cumulative_temporality() {
    let snapshots = vec![MetricSnapshot::Histogram {
        name: "h".to_string(),
        description: String::new(),
        boundaries: vec![10.0f64.to_bits()],
        data_points: vec![HistogramDataPoint {
            attrs: Arc::new(vec![]),
            bucket_counts: vec![1, 0],
            sum: 5.0f64.to_bits(),
            count: 1,
            min: 5.0f64.to_bits(),
            max: 5.0f64.to_bits(),
            exemplar: None,
        }],
    }];

    let bytes = encode_export_metrics_request(&[], "rolly", "0.3.0", &snapshots, 0, 0);

    // aggregation_temporality = 2 (CUMULATIVE): tag = 0x10, value = 0x02
    assert!(
        bytes.windows(2).any(|w| w == [0x10, 0x02]),
        "CUMULATIVE temporality not found"
    );
}

#[test]
fn encode_histogram_bucket_counts_present() {
    let snapshots = vec![MetricSnapshot::Histogram {
        name: "h".to_string(),
        description: String::new(),
        boundaries: vec![10.0f64.to_bits()],
        data_points: vec![HistogramDataPoint {
            attrs: Arc::new(vec![]),
            bucket_counts: vec![3, 7],
            sum: 100.0f64.to_bits(),
            count: 10,
            min: 1.0f64.to_bits(),
            max: 50.0f64.to_bits(),
            exemplar: None,
        }],
    }];

    let bytes = encode_export_metrics_request(&[], "rolly", "0.3.0", &snapshots, 0, 0);

    // bucket_counts contains 3 and 7 as fixed64 LE
    let val3 = 3u64.to_le_bytes();
    let val7 = 7u64.to_le_bytes();
    assert!(bytes.windows(8).any(|w| w == val3));
    assert!(bytes.windows(8).any(|w| w == val7));
}

#[test]
fn encode_histogram_attributes_present() {
    let snapshots = vec![MetricSnapshot::Histogram {
        name: "h".to_string(),
        description: String::new(),
        boundaries: vec![10.0f64.to_bits()],
        data_points: vec![HistogramDataPoint {
            attrs: Arc::new(vec![("method".to_string(), "GET".to_string())]),
            bucket_counts: vec![1, 0],
            sum: 5.0f64.to_bits(),
            count: 1,
            min: 5.0f64.to_bits(),
            max: 5.0f64.to_bits(),
            exemplar: None,
        }],
    }];

    let bytes = encode_export_metrics_request(&[], "rolly", "0.3.0", &snapshots, 0, 0);

    assert!(bytes.windows(6).any(|w| w == b"method"));
    assert!(bytes.windows(3).any(|w| w == b"GET"));
}

#[test]
fn encode_mixed_counter_gauge_histogram() {
    let snapshots = vec![
        MetricSnapshot::Counter {
            name: "requests".to_string(),
            description: String::new(),
            data_points: vec![(Arc::new(vec![]), 100, None)],
        },
        MetricSnapshot::Gauge {
            name: "temperature".to_string(),
            description: String::new(),
            data_points: vec![(Arc::new(vec![]), 36.6f64.to_bits(), None)],
        },
        MetricSnapshot::Histogram {
            name: "latency".to_string(),
            description: String::new(),
            boundaries: vec![10.0f64.to_bits()],
            data_points: vec![HistogramDataPoint {
                attrs: Arc::new(vec![]),
                bucket_counts: vec![1, 1],
                sum: 15.0f64.to_bits(),
                count: 2,
                min: 5.0f64.to_bits(),
                max: 10.0f64.to_bits(),
                exemplar: None,
            }],
        },
    ];

    let bytes = encode_export_metrics_request(&[], "rolly", "0.3.0", &snapshots, 0, 0);

    assert!(bytes.windows(8).any(|w| w == b"requests"));
    assert!(bytes.windows(11).any(|w| w == b"temperature"));
    assert!(bytes.windows(7).any(|w| w == b"latency"));
}

#[test]
fn encode_attributes_in_data_point() {
    let snapshots = vec![MetricSnapshot::Counter {
        name: "c".to_string(),
        description: String::new(),
        data_points: vec![(
            Arc::new(vec![("method".to_string(), "GET".to_string())]),
            1,
            None,
        )],
    }];

    let bytes = encode_export_metrics_request(&[], "rolly", "0.3.0", &snapshots, 0, 0);

    assert!(bytes.windows(6).any(|w| w == b"method"));
    assert!(bytes.windows(3).any(|w| w == b"GET"));
}

#[test]
fn encode_counter_with_exemplar() {
    let exemplar = Some(Exemplar {
        trace_id: [0x01; 16],
        span_id: [0x02; 8],
        time_unix_nano: 5_000_000_000,
        value: ExemplarValue::Int(42),
    });
    let snapshots = vec![MetricSnapshot::Counter {
        name: "c".to_string(),
        description: String::new(),
        data_points: vec![(Arc::new(vec![]), 42, exemplar)],
    }];

    let bytes = encode_export_metrics_request(&[], "rolly", "0.3.0", &snapshots, 0, 0);

    // trace_id bytes should be present
    assert!(bytes.windows(16).any(|w| w == [0x01; 16]));
    // span_id bytes should be present
    assert!(bytes.windows(8).any(|w| w == [0x02; 8]));
}

#[test]
fn encode_histogram_with_exemplar() {
    let exemplar = Some(Exemplar {
        trace_id: [0xAA; 16],
        span_id: [0xBB; 8],
        time_unix_nano: 9_000_000_000,
        value: ExemplarValue::Double(42.5f64.to_bits()),
    });
    let snapshots = vec![MetricSnapshot::Histogram {
        name: "h".to_string(),
        description: String::new(),
        boundaries: vec![10.0f64.to_bits()],
        data_points: vec![HistogramDataPoint {
            attrs: Arc::new(vec![]),
            bucket_counts: vec![1, 0],
            sum: 42.5f64.to_bits(),
            count: 1,
            min: 42.5f64.to_bits(),
            max: 42.5f64.to_bits(),
            exemplar,
        }],
    }];

    let bytes = encode_export_metrics_request(&[], "rolly", "0.3.0", &snapshots, 0, 0);

    // trace_id and span_id bytes should be present
    assert!(bytes.windows(16).any(|w| w == [0xAA; 16]));
    assert!(bytes.windows(8).any(|w| w == [0xBB; 8]));
}
