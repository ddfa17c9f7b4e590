//! Lightweight observability: spans, logs and metrics as OTLP protobuf.
//!
//! - [`proto`] and [`wire`]: the protobuf wire format, written and read back
//! - [`otlp_trace`], [`otlp_log`], [`otlp_metrics`]: the OTLP messages, with [`reading`] for what
//!   can be read out of them again and [`sizes`] for how long they are
//! - [`attrs`], [`double`], [`metrics`]: counters, gauges and histograms with attributes
//! - [`otlp_layer`], [`sampling`], [`trace_id`], [`hex`]: what becomes of spans and events
//! - [`batch`], [`payload`], [`exporter`], [`tokio_exporter`], [`monoio_exporter`], [`retry`]:
//!   what is posted to a collector, when, and how often it is tried
//! - [`telemetry`], [`request`], [`duration`]: the configuration of the whole, and HTTP requests
//! - [`baseline`], [`text`]: the report on a benchmark run
//! - the modules whose names end in `laws`: what holds of all this, said of inputs and results
pub mod attrs;
pub mod baseline;
pub mod baseline_laws;
pub mod batch;
pub mod bench;
pub mod constants;
pub mod double;
pub mod duration;
pub mod exporter;
pub mod exporter_laws;
pub mod hex;
pub mod metrics;
pub mod metrics_laws;
pub mod metrics_model;
pub mod monoio_exporter;
pub mod monoio_exporter_laws;
pub mod otlp_layer;
pub mod otlp_layer_laws;
pub mod otlp_log;
pub mod otlp_metrics;
pub mod otlp_trace;
pub mod payload;
pub mod proto;
pub mod reading;
pub mod request;
pub mod retry;
pub mod runs;
pub mod sampling;
pub mod sizes;
pub mod telemetry;
pub mod telemetry_laws;
pub mod text;
pub mod tokio_exporter;
pub mod tokio_exporter_laws;
pub mod trace_id;
pub mod view_laws;
pub mod wire;

pub use duration::Duration;
pub use exporter::BackpressureStrategy;
pub use metrics::{Counter, Gauge, Histogram};
pub use telemetry::{
    build_layer, collect_and_encode_metrics, telemetry_dropped_total, LayerConfig,
    MetricsExportConfig, NullSink, TelemetryConfig, TelemetrySink,
};
