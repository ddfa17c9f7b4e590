use opentelemetry_proto::tonic::collector::metrics::v1::ExportMetricsServiceRequest;
use opentelemetry_proto::tonic::metrics::v1::metric::Data;
use prost::Message;
use rolly::exporter::DropCounter;
use rolly::metrics::{MetricsRegistry, TraceContext};
use rolly::otlp_layer::FieldCollector;
use rolly::telemetry::{clamp_rate, try_collect_and_encode_metrics, Setup};
use rolly::{
    build_layer, collect_and_encode_metrics, telemetry_dropped_total, BackpressureStrategy,
    Duration, LayerConfig, MetricsExportConfig, NullSink, TelemetryConfig, TelemetrySink,
};

fn config() -> TelemetryConfig {
    TelemetryConfig {
        service_name: "test-service".into(),
        service_version: "0.0.1".into(),
        environment: "test".into(),
        otlp_traces_endpoint: None,
        otlp_logs_endpoint: None,
        otlp_metrics_endpoint: None,
        log_to_stderr: false,
        use_metrics_interval: None,
        metrics_flush_interval: None,
        sampling_rate: None,
        backpressure_strategy: BackpressureStrategy::Drop,
        resource_attributes: vec![],
    }
}

fn metrics_config() -> MetricsExportConfig {
    MetricsExportConfig {
        service_name: "exemplar-test".into(),
        service_version: "0.0.1".into(),
        environment: "test".into(),
        resource_attributes: vec![("team".into(), "platform".into())],
        scope_name: "rolly".into(),
        scope_version: "0.1.0".into(),
        start_time: 1_000,
    }
}

#[test]
fn config_with_none_endpoint_does_not_panic() {
    let setup = Setup::new(config(), 5);
    assert!(setup.targets.is_none());
    assert!(setup.metrics.is_none());
    assert!(build_layer(&setup.layer).is_none());
}

#[test]
fn telemetry_dropped_total_is_callable() {
    let counter = DropCounter::new();
    let _count = telemetry_dropped_total(&counter);
}

#[test]
fn null_sink_accepts_data() {
    let sink: Box<dyn TelemetrySink> = Box::new(NullSink);
    sink.send_traces(vec![1, 2, 3]);
    sink.send_logs(vec![4, 5, 6]);
    sink.send_metrics(vec![7, 8, 9]);
}

#[test]
fn build_layer_with_null_sink_works() {
    let config = LayerConfig {
        log_to_stderr: false,
        export_traces: false,
        export_logs: false,
        service_name: "null-test".into(),
        service_version: "0.0.1".into(),
        environment: "test".into(),
        resource_attributes: vec![],
        sampling_rate: 1.0f64.to_bits(),
        scope_name: "rolly".to_string(),
        scope_version: "test".to_string(),
    };
    assert!(build_layer(&config).is_none());
}

#[test]
fn layer_is_built_for_traces_or_logs() {
    let mut config = LayerConfig {
        export_logs: true,
        ..LayerConfig::default()
    };
    assert!(build_layer(&config).is_some());
    config.export_logs = false;
    config.export_traces = true;
    config.scope_version = "9.9.9".into();
    let layer = build_layer(&config).unwrap();
    let span = layer.on_new_span(FieldCollector::new(), None);
    let data = layer.on_close(Some(1), Some(&span), "s", 2).unwrap();
    assert!(data.windows(5).any(|w| w == b"9.9.9"));
    assert!(data.windows(5).any(|w| w == b"rolly"));
}

#[test]
fn setup_with_every_endpoint() {
    let setup = Setup::new(
        TelemetryConfig {
            otlp_traces_endpoint: Some("http://jaeger:4318".into()),
            otlp_logs_endpoint: Some("http://vector:4318".into()),
            otlp_metrics_endpoint: Some("http://vector:4318".into()),
            log_to_stderr: true,
            use_metrics_interval: Some(Duration::from_secs(30)),
            metrics_flush_interval: Some(Duration::from_millis(250)),
            sampling_rate: Some(0.25f64.to_bits()),
            resource_attributes: vec![("team".into(), "platform".into())],
            ..config()
        },
        77,
    );
    let targets = setup.targets.unwrap();
    assert_eq!(targets.traces_url.as_deref(), Some("http://jaeger:4318/v1/traces"));
    assert_eq!(targets.logs_url.as_deref(), Some("http://vector:4318/v1/logs"));
    assert_eq!(targets.metrics_url.as_deref(), Some("http://vector:4318/v1/metrics"));
    let exporter = targets.exporter_config();
    assert_eq!(exporter.channel_capacity, 1024);
    assert_eq!(exporter.batch_size, 512);
    assert_eq!(exporter.flush_interval, Duration::from_secs(1));
    assert_eq!(exporter.max_concurrent_exports, 4);
    assert!(setup.layer.export_traces && setup.layer.export_logs && setup.layer.log_to_stderr);
    assert_eq!(setup.layer.sampling_rate, 0.25f64.to_bits());
    assert_eq!(setup.layer.scope_name, "rolly");
    assert_eq!(setup.layer.resource_attributes[0].1, "platform");
    assert_eq!(setup.use_metrics_interval, Some(Duration::from_secs(30)));
    let metrics = setup.metrics.unwrap();
    assert_eq!(metrics.flush_interval, Duration::from_millis(250));
    assert_eq!(metrics.config.start_time, 77);
    assert_eq!(metrics.config.service_name, "test-service");
    assert_eq!(metrics.config.resource_attributes[0].0, "team");
}

#[test]
fn setup_with_logs_only() {
    let logs_only = || TelemetryConfig {
        otlp_logs_endpoint: Some("http://vector:4318".into()),
        ..config()
    };
    let setup = Setup::new(logs_only(), 0);
    let targets = setup.targets.unwrap();
    assert!(targets.traces_url.is_none());
    assert!(targets.metrics_url.is_none());
    let exporter = targets.tokio_config();
    assert_eq!(exporter.logs_url.as_deref(), Some("http://vector:4318/v1/logs"));
    assert_eq!(exporter.batch_size, 512);
    assert!(!setup.layer.export_traces);
    assert!(setup.metrics.is_none());
    assert_eq!(setup.layer.sampling_rate, 1.0f64.to_bits());

    let exporter = Setup::new(logs_only(), 0).targets.unwrap().monoio_config();
    assert_eq!(exporter.max_pending_batches, 32);
    assert_eq!(exporter.max_concurrent_exports, 4);
}

#[test]
fn metrics_are_collected_every_ten_seconds_by_default() {
    let setup = Setup::new(
        TelemetryConfig {
            otlp_metrics_endpoint: Some("http://vector:4318".into()),
            ..config()
        },
        0,
    );
    assert_eq!(setup.metrics.unwrap().flush_interval, Duration::from_secs(10));
}

#[test]
fn rates_are_clamped() {
    for rate in [
        0.0, -0.0, 0.5, 1.0, 1.5, -3.0, f64::INFINITY, f64::NEG_INFINITY, f64::MIN_POSITIVE, 1e300,
    ] {
        assert_eq!(
            clamp_rate(rate.to_bits()),
            rate.clamp(0.0, 1.0).to_bits(),
            "rate {}",
            rate
        );
    }
    assert!(f64::from_bits(clamp_rate(f64::NAN.to_bits())).is_nan());
}

#[test]
fn nothing_recorded_gives_nothing_to_export() {
    let mut registry = MetricsRegistry::new();
    assert!(collect_and_encode_metrics(&mut registry, &metrics_config(), 2_000).is_none());
    let _ = registry.counter("unused", "never incremented");
    assert!(collect_and_encode_metrics(&mut registry, &metrics_config(), 2_000).is_none());
}

#[test]
fn metrics_are_exported_once_per_recording() {
    let mut registry = MetricsRegistry::new();
    let counter = registry.counter("exemplar_test_requests", "test counter");
    let context = Some(TraceContext {
        trace_id: [0xaa; 16],
        span_id: [0xbb; 8],
        time_unix_nano: 1_500,
    });
    counter.add(&mut registry, 1, &[("method", "GET")], &context);

    let data = collect_and_encode_metrics(&mut registry, &metrics_config(), 2_000).unwrap();
    // The trace of the recording goes along as an exemplar.
    assert!(data.windows(16).any(|w| w == [0xaa; 16]));
    let request = ExportMetricsServiceRequest::decode(data.as_slice()).unwrap();
    let resource = request.resource_metrics[0].resource.as_ref().unwrap();
    let keys: Vec<_> = resource.attributes.iter().map(|a| a.key.as_str()).collect();
    assert_eq!(
        keys,
        ["service.name", "service.version", "deployment.environment", "team"]
    );
    let metric = &request.resource_metrics[0].scope_metrics[0].metrics[0];
    assert_eq!(metric.name, "exemplar_test_requests");
    match metric.data.as_ref().unwrap() {
        Data::Sum(sum) => {
            assert_eq!(sum.data_points[0].start_time_unix_nano, 1_000);
            assert_eq!(sum.data_points[0].time_unix_nano, 2_000);
        }
        other => panic!("expected Sum, got {:?}", other),
    }

    assert!(collect_and_encode_metrics(&mut registry, &metrics_config(), 3_000).is_none());

    counter.add(&mut registry, 2, &[("method", "GET")], &None);
    let again = try_collect_and_encode_metrics(&mut registry, &metrics_config(), 4_000);
    let data = again.unwrap().unwrap();
    // The counter is cumulative; the exemplar was given out before.
    assert!(data.windows(8).any(|w| w == 3u64.to_le_bytes()));
    assert!(!data.windows(16).any(|w| w == [0xaa; 16]));
}
