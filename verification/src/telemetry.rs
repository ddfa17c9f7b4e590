//! The configuration of the telemetry stack, and what follows from it.
//!
//! [`Setup::new`] settles what an application's [`TelemetryConfig`] asks for: where telemetry is
//! exported to, how the tracing layer is set up, and how often metrics are collected. Starting
//! the exporter, installing the subscriber and running the timers is up to the runtime.
use vstd::prelude::*;
use vstd::string::StringExecFns;

use crate::attrs;
use crate::batch;
use crate::double;
use crate::duration;
use crate::duration::Duration;
use crate::exporter;
use crate::exporter::{BackpressureStrategy, DropCounter};
use crate::metrics::MetricsRegistry;
use crate::metrics_model;
use crate::monoio_exporter;
use crate::otlp_layer;
use crate::otlp_layer::{LayerModel, MessageTooLong, OtlpLayer, OtlpLayerConfig};
use crate::otlp_metrics;
use crate::otlp_metrics::encode_export_metrics_request;
use crate::proto::MAX_MESSAGE_LEN;
use crate::sampling;
use crate::sizes::metrics_request_fits;
use crate::tokio_exporter;
use crate::wire;

verus! {

/// The version that is reported as that of the instrumentation scope.
pub const VERSION: &'static str = "0.1.0";

/// The name of the instrumentation scope.
pub const SCOPE_NAME: &'static str = "rolly";

/// Sink for encoded OTLP protobuf payloads.
///
/// This is the single transport boundary for all three OTLP signals. The tracing layer calls
/// `send_traces()` and `send_logs()` on the application's hot path; the loop that aggregates
/// metrics calls `send_metrics()`.
///
/// Implementations must be non-blocking. If the underlying channel is full, the payload should
/// be dropped silently.
pub trait TelemetrySink: Send + Sync + 'static {
    /// Send encoded `ExportTraceServiceRequest` protobuf bytes.
    fn send_traces(&self, data: Vec<u8>);

    /// Send encoded `ExportLogsServiceRequest` protobuf bytes.
    fn send_logs(&self, data: Vec<u8>);

    /// Send encoded `ExportMetricsServiceRequest` protobuf bytes.
    fn send_metrics(&self, data: Vec<u8>);
}

/// No-op sink that discards all telemetry data.
///
/// Useful for stderr-only setups, CLI tools, or tests where no OTLP export is needed.
#[derive(Debug, Clone, Copy, Default)]
pub struct NullSink;

impl TelemetrySink for NullSink {
    fn send_traces(&self, _data: Vec<u8>) {
    }

    fn send_logs(&self, _data: Vec<u8>) {
    }

    fn send_metrics(&self, _data: Vec<u8>) {
    }
}

/// Configuration for the telemetry stack.
pub struct TelemetryConfig {
    pub service_name: String,
    pub service_version: String,
    pub environment: String,
    /// OTLP HTTP endpoint for traces (e.g. "http://jaeger:4318").
    /// If None, trace export is disabled.
    pub otlp_traces_endpoint: Option<String>,
    /// OTLP HTTP endpoint for logs (e.g. "http://vector:4318").
    /// If None, log export is disabled. Can differ from traces endpoint.
    pub otlp_logs_endpoint: Option<String>,
    /// OTLP HTTP endpoint for metrics (e.g. "http://vector:4318").
    /// If None, metrics export is disabled.
    pub otlp_metrics_endpoint: Option<String>,
    /// Whether to emit JSON-formatted logs to stderr.
    pub log_to_stderr: bool,
    /// Polling interval for USE metrics (cpu, memory).
    /// If None, USE metrics collection is disabled.
    pub use_metrics_interval: Option<Duration>,
    /// How often to flush aggregated metrics to the OTLP endpoint.
    /// Defaults to 10 seconds if None.
    pub metrics_flush_interval: Option<Duration>,
    /// Probabilistic trace sampling rate, by the bits of the double:
    /// 1.0 = export all traces, 0.01 = export 1%.
    /// Sampling is deterministic based on trace_id, so the same trace always gets the
    /// same decision across services. Metrics are never sampled.
    /// Defaults to 1.0 (no sampling) if None.
    pub sampling_rate: Option<u64>,
    /// What to do when the export channel is full.
    pub backpressure_strategy: BackpressureStrategy,
    /// Custom OTel resource attributes appended after the standard three
    /// (service.name, service.version, deployment.environment).
    pub resource_attributes: Vec<(String, String)>,
}

/// Configuration for building telemetry layers.
pub struct LayerConfig {
    /// Whether to emit JSON-formatted logs to stderr.
    pub log_to_stderr: bool,
    /// Whether to export traces via the sink.
    pub export_traces: bool,
    /// Whether to export logs via the sink.
    pub export_logs: bool,
    /// Service name for OTLP resource attributes.
    pub service_name: String,
    /// Service version for OTLP resource attributes.
    pub service_version: String,
    /// Deployment environment for OTLP resource attributes.
    pub environment: String,
    /// Custom resource attributes.
    pub resource_attributes: Vec<(String, String)>,
    /// Probabilistic trace sampling rate (0.0 to 1.0), by the bits of the double.
    pub sampling_rate: u64,
    /// Instrumentation scope name.
    pub scope_name: String,
    /// Instrumentation scope version.
    pub scope_version: String,
}

impl Default for LayerConfig {
    fn default() -> (config: LayerConfig)
        ensures
            !config.log_to_stderr,
            !config.export_traces,
            !config.export_logs,
            config.service_name@.len() == 0,
            config.service_version@.len() == 0,
            config.environment@.len() == 0,
            config.resource_attributes@.len() == 0,
            config.sampling_rate == sampling::ONE,
            config.scope_name@ == SCOPE_NAME@,
            config.scope_version@ == VERSION@,
    {
        LayerConfig {
            log_to_stderr: false,
            export_traces: false,
            export_logs: false,
            service_name: String::new(),
            service_version: String::new(),
            environment: String::new(),
            resource_attributes: Vec::new(),
            sampling_rate: sampling::ONE,
            scope_name: SCOPE_NAME.to_owned(),
            scope_version: VERSION.to_owned(),
        }
    }
}

/// The rate brought into the range from zero to one. A rate that is not a number stays so.
pub open spec fn clamped_rate(bits: u64) -> u64 {
    if double::nan(bits) {
        bits
    } else if double::place(bits) < 0 {
        0
    } else if double::place(bits) > double::place(sampling::ONE) {
        sampling::ONE
    } else {
        bits
    }
}

/// Brings a rate into the range from zero to one.
pub fn clamp_rate(bits: u64) -> (rate: u64)
    ensures
        rate == clamped_rate(bits),
{
    if double::is_nan(bits) {
        bits
    } else if double::order_place(bits) < 0 {
        0
    } else if double::order_place(bits) > double::order_place(sampling::ONE) {
        sampling::ONE
    } else {
        bits
    }
}

/// The OTLP layer that a [`LayerConfig`] asks for: none where neither traces nor logs are
/// exported. The sampling rate is brought into the range from zero to one.
pub fn build_layer(config: &LayerConfig) -> (layer: Option<OtlpLayer>)
    ensures
        layer is Some == (config.export_traces || config.export_logs),
        layer is Some ==> layer->0@ == (LayerModel {
            resource_attrs: otlp_layer::resource_model(
                config.service_name@,
                config.service_version@,
                config.environment@,
                config.resource_attributes@,
            ),
            scope_name: config.scope_name@,
            scope_version: config.scope_version@,
            export_traces: config.export_traces,
            export_logs: config.export_logs,
            sampling_rate: clamped_rate(config.sampling_rate),
        }),
{
    if config.export_traces || config.export_logs {
        Some(
            OtlpLayer::new(
                OtlpLayerConfig {
                    service_name: config.service_name.as_str(),
                    service_version: config.service_version.as_str(),
                    environment: config.environment.as_str(),
                    resource_attributes: config.resource_attributes.as_slice(),
                    export_traces: config.export_traces,
                    export_logs: config.export_logs,
                    sampling_rate: clamp_rate(config.sampling_rate),
                    scope_name: config.scope_name.as_str(),
                    scope_version: config.scope_version.as_str(),
                },
            ),
        )
    } else {
        None
    }
}

/// Configuration for metrics export encoding.
pub struct MetricsExportConfig {
    /// Service name, version, environment, plus any custom attributes.
    /// Converted to OTel KeyValue internally.
    pub service_name: String,
    pub service_version: String,
    pub environment: String,
    pub resource_attributes: Vec<(String, String)>,
    /// Instrumentation scope name.
    pub scope_name: String,
    /// Instrumentation scope version.
    pub scope_version: String,
    /// Start time for cumulative metrics (nanos since epoch).
    pub start_time: u64,
}

/// Return the total number of telemetry messages that the counter has seen dropped.
pub fn telemetry_dropped_total(counter: &DropCounter) -> (total: u64)
    ensures
        total == counter.total(),
{
    counter.dropped_total()
}

/// The `ResourceMetrics` fields of everything that a registry holds.
pub open spec fn metrics_body(
    registry: metrics_model::RegistryModel,
    config: MetricsExportConfig,
    now: u64,
) -> Seq<wire::WireField> {
    otlp_metrics::resource_metrics_fields(
        otlp_layer::resource_model(
            config.service_name@,
            config.service_version@,
            config.environment@,
            config.resource_attributes@,
        ),
        config.scope_name@,
        config.scope_version@,
        metrics_model::registry_snapshots(registry),
        config.start_time,
        now,
    )
}

/// The `ExportMetricsServiceRequest` of everything that a registry holds.
pub open spec fn metrics_request(
    registry: metrics_model::RegistryModel,
    config: MetricsExportConfig,
    now: u64,
) -> Seq<u8> {
    wire::message(
        otlp_metrics::metrics_request_fields(
            otlp_layer::resource_model(
                config.service_name@,
                config.service_version@,
                config.environment@,
                config.resource_attributes@,
            ),
            config.scope_name@,
            config.scope_version@,
            metrics_model::registry_snapshots(registry),
            config.start_time,
            now,
        ),
    )
}

/// Whether there is anything to export: something has been recorded since the last collection.
pub open spec fn has_news(registry: metrics_model::RegistryModel) -> bool {
    registry.fresh && metrics_model::registry_snapshots(registry).len() > 0
}

/// Collect current metric snapshots and encode as OTLP protobuf, with `now` as the time of the
/// data points.
///
/// Returns the encoded `ExportMetricsServiceRequest` bytes, ready to pass to
/// `TelemetrySink::send_metrics()`. Returns `None` if no metrics have been recorded since the
/// last collection.
///
/// The caller decides when and how often to call this.
pub fn collect_and_encode_metrics(
    registry: &mut MetricsRegistry,
    config: &MetricsExportConfig,
    now: u64,
) -> (request: Option<Vec<u8>>)
    requires
        old(registry).wf(),
        has_news(old(registry)@) ==> wire::message(
            metrics_body(old(registry)@, *config, now),
        ).len() < MAX_MESSAGE_LEN,
    ensures
        final(registry).wf(),
        request is Some == has_news(old(registry)@),
        request is Some ==> request->0@ == metrics_request(old(registry)@, *config, now),
        final(registry)@ == (if old(registry)@.fresh {
            metrics_model::registry_cleared(old(registry)@)
        } else {
            old(registry)@
        }),
{
    match try_collect_and_encode_metrics(registry, config, now) {
        Ok(request) => request,
        Err(_) => None,
    }
}

/// Collects and encodes as [`collect_and_encode_metrics`] does, and says so where the request
/// would be too long to be written.
pub fn try_collect_and_encode_metrics(
    registry: &mut MetricsRegistry,
    config: &MetricsExportConfig,
    now: u64,
) -> (request: Result<Option<Vec<u8>>, MessageTooLong>)
    requires
        old(registry).wf(),
    ensures
        final(registry).wf(),
        final(registry)@ == (if old(registry)@.fresh {
            metrics_model::registry_cleared(old(registry)@)
        } else {
            old(registry)@
        }),
        match request {
            Ok(Some(bytes)) => {
                &&& has_news(old(registry)@)
                &&& wire::message(metrics_body(old(registry)@, *config, now)).len()
                    < MAX_MESSAGE_LEN
                &&& bytes@ == metrics_request(old(registry)@, *config, now)
            },
            Ok(None) => !has_news(old(registry)@),
            Err(_) => {
                &&& has_news(old(registry)@)
                &&& wire::message(metrics_body(old(registry)@, *config, now)).len()
                    >= MAX_MESSAGE_LEN
            },
        },
{
    if !registry.is_fresh() {
        return Ok(None);
    }
    let snapshots = registry.collect();
    if snapshots.len() == 0 {
        return Ok(None);
    }
    let resource_attrs = otlp_layer::resource_attributes(
        config.service_name.as_str(),
        config.service_version.as_str(),
        config.environment.as_str(),
        config.resource_attributes.as_slice(),
    );
    if !metrics_request_fits(
        resource_attrs.as_slice(),
        config.scope_name.as_str(),
        config.scope_version.as_str(),
        snapshots.as_slice(),
        config.start_time,
        now,
    ) {
        return Err(MessageTooLong);
    }
    Ok(
        Some(
            encode_export_metrics_request(
                resource_attrs.as_slice(),
                config.scope_name.as_str(),
                config.scope_version.as_str(),
                snapshots.as_slice(),
                config.start_time,
                now,
            ),
        ),
    )
}

/// The URL below an endpoint to which a signal is posted.
pub open spec fn endpoint_url(endpoint: Option<String>, path: Seq<char>) -> Option<Seq<char>> {
    match endpoint {
        Some(endpoint) => Some(endpoint@ + path),
        None => None,
    }
}

/// Appends a path to an endpoint, where there is one.
fn join_url(endpoint: &Option<String>, path: &str) -> (url: Option<String>)
    ensures
        batch::url_model(url) == endpoint_url(*endpoint, path@),
{
    match endpoint {
        Some(endpoint) => {
            let mut url: String = endpoint.clone();
            url.append(path);
            Some(url)
        },
        None => None,
    }
}

/// A copy of resource attributes.
fn clone_pairs(pairs: &Vec<(String, String)>) -> (copy: Vec<(String, String)>)
    ensures
        attrs::stored_pairs(copy@) == attrs::stored_pairs(pairs@),
{
    let mut copy: Vec<(String, String)> = Vec::new();
    let mut i: usize = 0;
    while i < pairs.len()
        invariant
            i <= pairs@.len(),
            attrs::stored_pairs(copy@) == attrs::stored_pairs(pairs@).take(i as int),
        decreases pairs@.len() - i,
    {
        let pair: &(String, String) = &pairs[i];
        let ghost before = attrs::stored_pairs(copy@);
        copy.push((pair.0.clone(), pair.1.clone()));
        assert(attrs::stored_pairs(copy@) =~= before.push((pair.0@, pair.1@)));
        assert(attrs::stored_pairs(pairs@).take(i + 1) =~= before.push((pair.0@, pair.1@)));
        i += 1;
    }
    assert(attrs::stored_pairs(pairs@).take(i as int) =~= attrs::stored_pairs(pairs@));
    copy
}

/// Where telemetry is exported to, and what happens when the channel is full.
pub struct ExportTargets {
    pub traces_url: Option<String>,
    pub logs_url: Option<String>,
    pub metrics_url: Option<String>,
    pub backpressure_strategy: BackpressureStrategy,
}

impl ExportTargets {
    /// The exporter's configuration for these targets.
    pub fn exporter_config(self) -> (config: exporter::ExporterConfig)
        ensures
            config.traces_url == self.traces_url,
            config.logs_url == self.logs_url,
            config.metrics_url == self.metrics_url,
            config.channel_capacity == 1024,
            config.batch_size == 512,
            config.flush_interval.nanos() == duration::NANOS_PER_SEC,
            config.max_concurrent_exports == 4,
            config.backpressure_strategy == self.backpressure_strategy,
    {
        exporter::ExporterConfig {
            traces_url: self.traces_url,
            logs_url: self.logs_url,
            metrics_url: self.metrics_url,
            channel_capacity: 1024,
            batch_size: 512,
            flush_interval: Duration::from_secs(1),
            max_concurrent_exports: 4,
            backpressure_strategy: self.backpressure_strategy,
        }
    }

    /// The configuration of the exporter on tokio for these targets.
    pub fn tokio_config(self) -> (config: tokio_exporter::ExporterConfig)
        ensures
            config.traces_url == self.traces_url,
            config.logs_url == self.logs_url,
            config.metrics_url == self.metrics_url,
            config.channel_capacity == 1024,
            config.batch_size == 512,
            config.flush_interval.nanos() == duration::NANOS_PER_SEC,
            config.max_concurrent_exports == 4,
            config.backpressure_strategy == self.backpressure_strategy,
    {
        let mut config = tokio_exporter::ExporterConfig::default();
        config.traces_url = self.traces_url;
        config.logs_url = self.logs_url;
        config.metrics_url = self.metrics_url;
        config.backpressure_strategy = self.backpressure_strategy;
        config
    }

    /// The configuration of the exporter on monoio for these targets.
    pub fn monoio_config(self) -> (config: monoio_exporter::ExporterConfig)
        ensures
            config.traces_url == self.traces_url,
            config.logs_url == self.logs_url,
            config.metrics_url == self.metrics_url,
            config.channel_capacity == 1024,
            config.batch_size == 512,
            config.flush_interval.nanos() == duration::NANOS_PER_SEC,
            config.max_concurrent_exports == 4,
            config.max_pending_batches == 32,
            config.backpressure_strategy == self.backpressure_strategy,
    {
        let mut config = monoio_exporter::ExporterConfig::default();
        config.traces_url = self.traces_url;
        config.logs_url = self.logs_url;
        config.metrics_url = self.metrics_url;
        config.max_concurrent_exports = 4;
        config.backpressure_strategy = self.backpressure_strategy;
        config
    }
}

/// How metrics are collected.
pub struct MetricsSetup {
    /// What the requests say besides the metrics.
    pub config: MetricsExportConfig,
    /// The time between two collections.
    pub flush_interval: Duration,
}

/// What a [`TelemetryConfig`] asks for.
pub struct Setup {
    /// Where telemetry is exported to: nowhere where no endpoint is given.
    pub targets: Option<ExportTargets>,
    /// How the tracing layer is set up.
    pub layer: LayerConfig,
    /// How metrics are collected: not at all where no endpoint is given for them.
    pub metrics: Option<MetricsSetup>,
    /// The time between two looks at the process's resources, where that is asked for.
    pub use_metrics_interval: Option<Duration>,
}

impl Setup {
    /// Settles what a configuration asks for. `start_time` is the present time, which cumulative
    /// metrics are counted from.
    pub fn new(config: TelemetryConfig, start_time: u64) -> (setup: Setup)
        ensures
            setup.targets is Some == (config.otlp_traces_endpoint is Some
                || config.otlp_logs_endpoint is Some || config.otlp_metrics_endpoint is Some),
            setup.targets matches Some(targets) ==> {
                &&& batch::url_model(targets.traces_url) == endpoint_url(
                    config.otlp_traces_endpoint,
                    "/v1/traces"@,
                )
                &&& batch::url_model(targets.logs_url) == endpoint_url(
                    config.otlp_logs_endpoint,
                    "/v1/logs"@,
                )
                &&& batch::url_model(targets.metrics_url) == endpoint_url(
                    config.otlp_metrics_endpoint,
                    "/v1/metrics"@,
                )
                &&& targets.backpressure_strategy == config.backpressure_strategy
            },
            setup.layer.log_to_stderr == config.log_to_stderr,
            setup.layer.export_traces == config.otlp_traces_endpoint is Some,
            setup.layer.export_logs == config.otlp_logs_endpoint is Some,
            setup.layer.service_name@ == config.service_name@,
            setup.layer.service_version@ == config.service_version@,
            setup.layer.environment@ == config.environment@,
            attrs::stored_pairs(setup.layer.resource_attributes@) == attrs::stored_pairs(
                config.resource_attributes@,
            ),
            setup.layer.sampling_rate == (match config.sampling_rate {
                Some(rate) => rate,
                None => sampling::ONE,
            }),
            setup.layer.scope_name@ == SCOPE_NAME@,
            setup.layer.scope_version@ == VERSION@,
            setup.metrics is Some == config.otlp_metrics_endpoint is Some,
            setup.metrics matches Some(metrics) ==> {
                &&& metrics.flush_interval.nanos() == (match config.metrics_flush_interval {
                    Some(interval) => interval.nanos(),
                    None => 10 * duration::NANOS_PER_SEC as nat,
                })
                &&& metrics.config.service_name@ == config.service_name@
                &&& metrics.config.service_version@ == config.service_version@
                &&& metrics.config.environment@ == config.environment@
                &&& attrs::stored_pairs(metrics.config.resource_attributes@)
                    == attrs::stored_pairs(config.resource_attributes@)
                &&& metrics.config.scope_name@ == SCOPE_NAME@
                &&& metrics.config.scope_version@ == VERSION@
                &&& metrics.config.start_time == start_time
            },
            setup.use_metrics_interval == config.use_metrics_interval,
    {
        let export_traces = config.otlp_traces_endpoint.is_some();
        let export_logs = config.otlp_logs_endpoint.is_some();
        let export_metrics = config.otlp_metrics_endpoint.is_some();
        let targets = if export_traces || export_logs || export_metrics {
            Some(
                ExportTargets {
                    traces_url: join_url(&config.otlp_traces_endpoint, "/v1/traces"),
                    logs_url: join_url(&config.otlp_logs_endpoint, "/v1/logs"),
                    metrics_url: join_url(&config.otlp_metrics_endpoint, "/v1/metrics"),
                    backpressure_strategy: config.backpressure_strategy,
                },
            )
        } else {
            None
        };
        let layer = LayerConfig {
            log_to_stderr: config.log_to_stderr,
            export_traces,
            export_logs,
            service_name: config.service_name.clone(),
            service_version: config.service_version.clone(),
            environment: config.environment.clone(),
            resource_attributes: clone_pairs(&config.resource_attributes),
            sampling_rate: match config.sampling_rate {
                Some(rate) => rate,
                None => sampling::ONE,
            },
            scope_name: SCOPE_NAME.to_owned(),
            scope_version: VERSION.to_owned(),
        };
        let metrics = if export_metrics {
            Some(
                MetricsSetup {
                    flush_interval: match config.metrics_flush_interval {
                        Some(interval) => interval,
                        None => Duration::from_secs(10),
                    },
                    config: MetricsExportConfig {
                        service_name: config.service_name,
                        service_version: config.service_version,
                        environment: config.environment,
                        resource_attributes: config.resource_attributes,
                        scope_name: SCOPE_NAME.to_owned(),
                        scope_version: VERSION.to_owned(),
                        start_time,
                    },
                },
            )
        } else {
            None
        };
        Setup { targets, layer, metrics, use_metrics_interval: config.use_metrics_interval }
    }
}

} // verus!
