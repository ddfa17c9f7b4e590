//! What benchmarks reach besides the public interface, under one roof.
pub use crate::exporter::{BackpressureStrategy, ExportMessage, ExporterConfig};
pub use crate::metrics::{
    Counter, CounterDataPoint, Exemplar, ExemplarValue, Gauge, GaugeDataPoint, Histogram,
    HistogramDataPoint, MetricSnapshot, MetricsRegistry,
};
pub use crate::otlp_layer::{OtlpLayer, OtlpLayerConfig};
pub use crate::otlp_log::{encode_export_logs_request, LogData, SeverityNumber};
pub use crate::otlp_metrics::encode_export_metrics_request;
pub use crate::otlp_trace::{
    encode_export_trace_request, encode_key_value, encode_resource, AnyValue, KeyValue, SpanData,
    SpanKind, SpanStatus, StatusCode,
};
pub use crate::hex::hex_to_bytes_16;
pub use crate::proto::{
    encode_bytes_field, encode_message_field, encode_message_field_in_place, encode_string_field,
    encode_varint_field,
};
pub use crate::sampling::should_sample;
pub use crate::trace_id::{generate_span_id, generate_trace_id, hex_encode};
