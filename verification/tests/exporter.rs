use crossbeam_channel::{Sender, TrySendError};
use rolly::batch::{BatchConfig, Batches, Signal};
use rolly::exporter::{
    data_message, BackpressureStrategy, DropCounter, Event, ExportMessage, ExporterConfig,
    ExporterLoop, Next, SendOutcome,
};
use rolly::monoio_exporter;
use rolly::otlp_layer::{FieldCollector, Level, OtlpLayer, OtlpLayerConfig};
use rolly::payload::concatenate;
use rolly::telemetry::telemetry_dropped_total;
use rolly::tokio_exporter;
use rolly::Duration;

/// Offers a message to a channel, and counts it where the channel does not take it.
fn send(
    tx: &Sender<ExportMessage>,
    counter: &mut DropCounter,
    signal: Signal,
    data: Vec<u8>,
) {
    let outcome = match tx.try_send(data_message(signal, data)) {
        Ok(()) => SendOutcome::Queued,
        Err(TrySendError::Full(_)) => SendOutcome::Full,
        Err(TrySendError::Disconnected(_)) => SendOutcome::Closed,
    };
    counter.record_send(BackpressureStrategy::Drop, outcome);
}

fn config(batch_size: usize) -> BatchConfig {
    BatchConfig {
        traces_url: Some("http://c/v1/traces".into()),
        logs_url: Some("http://c/v1/logs".into()),
        metrics_url: None,
        batch_size,
    }
}

#[test]
fn drop_counter_is_callable() {
    let counter = DropCounter::new();
    let _count = counter.dropped_total();
}

#[test]
fn exporter_drop_counter_is_callable() {
    let counter = DropCounter::new();
    let _count = telemetry_dropped_total(&counter);
}

#[test]
fn drop_counter_starts_at_zero() {
    let mut counter = DropCounter::new();
    counter.reset_dropped_total();
    assert_eq!(counter.dropped_total(), 0);
}

#[test]
fn exporter_config_defaults() {
    let config = monoio_exporter::ExporterConfig::default();
    assert_eq!(config.channel_capacity, 1024);
    assert_eq!(config.batch_size, 512);
    assert_eq!(config.flush_interval, Duration::from_secs(1));
    assert_eq!(config.max_concurrent_exports, 4);
    assert_eq!(config.max_pending_batches, 32);
}

#[test]
fn exporter_config_default_has_correct_values() {
    let config = tokio_exporter::ExporterConfig::default();
    assert!(config.traces_url.is_none());
    assert!(config.logs_url.is_none());
    assert!(config.metrics_url.is_none());
    assert_eq!(config.channel_capacity, 1024);
    assert_eq!(config.batch_size, 512);
    assert_eq!(config.flush_interval, Duration::from_secs(1));
    assert_eq!(config.max_concurrent_exports, 4);
    assert_eq!(config.backpressure_strategy, BackpressureStrategy::Drop);
}

#[test]
fn exporter_exporter_config_with_batch_settings() {
    let config = ExporterConfig {
        traces_url: None,
        logs_url: None,
        metrics_url: None,
        channel_capacity: 16,
        batch_size: 100,
        flush_interval: Duration::from_millis(500),
        max_concurrent_exports: 2,
        backpressure_strategy: BackpressureStrategy::Drop,
    };
    assert_eq!(config.batch_size, 100);
    assert_eq!(config.flush_interval, Duration::from_millis(500));
    assert_eq!(config.max_concurrent_exports, 2);
}

#[test]
fn exporter_config_with_batch_settings() {
    let config = tokio_exporter::ExporterConfig {
        traces_url: None,
        logs_url: None,
        channel_capacity: 16,
        metrics_url: None,
        batch_size: 100,
        flush_interval: Duration::from_millis(500),
        max_concurrent_exports: 2,
        backpressure_strategy: BackpressureStrategy::Drop,
    };
    assert_eq!(config.batch_size, 100);
    assert_eq!(config.flush_interval, Duration::from_millis(500));
    assert_eq!(config.max_concurrent_exports, 2);
}

#[test]
fn exporter_drop_counter_increments_on_channel_full() {
    let mut counter = DropCounter::new();
    let before = telemetry_dropped_total(&counter);
    let (tx, _rx) = crossbeam_channel::bounded(2);
    send(&tx, &mut counter, Signal::Traces, vec![0x0A]);
    send(&tx, &mut counter, Signal::Traces, vec![0x0A]);
    // Channel is full now
    send(&tx, &mut counter, Signal::Traces, vec![0x0A]);
    let delta = telemetry_dropped_total(&counter) - before;
    assert_eq!(delta, 1);
}

#[test]
fn exporter_drop_counter_increments_for_logs_and_traces() {
    let mut counter = DropCounter::new();
    let before = telemetry_dropped_total(&counter);
    let (tx, rx) = crossbeam_channel::bounded(1);
    send(&tx, &mut counter, Signal::Traces, vec![0x0A]); // fills the channel
    send(&tx, &mut counter, Signal::Traces, vec![0x0A]); // dropped
    send(&tx, &mut counter, Signal::Logs, vec![0x0A]); // dropped
    let delta = telemetry_dropped_total(&counter) - before;
    assert_eq!(delta, 2);

    drop(rx);
    send(&tx, &mut counter, Signal::Metrics, vec![0x0A]); // nobody listens any more
    assert_eq!(telemetry_dropped_total(&counter) - before, 3);
}

fn layer(export_traces: bool, export_logs: bool) -> OtlpLayer {
    OtlpLayer::new(OtlpLayerConfig {
        service_name: "bp-test",
        service_version: "0.0.1",
        environment: "test",
        resource_attributes: &[],
        export_traces,
        export_logs,
        sampling_rate: 1.0f64.to_bits(),
        scope_name: "rolly",
        scope_version: "0.1.0",
    })
}

fn send_span(layer: &OtlpLayer, tx: &Sender<ExportMessage>, counter: &mut DropCounter) {
    let span = layer.on_new_span(FieldCollector::new(), None);
    if let Some(data) = layer.on_close(Some(1), Some(&span), "bp-span", 2) {
        send(tx, counter, Signal::Traces, data);
    }
}

#[test]
fn backpressure_hot_path_does_not_block_when_channel_full() {
    let mut counter = DropCounter::new();
    let (tx, _rx) = crossbeam_channel::bounded(4);
    let layer = layer(true, false);

    let start = std::time::Instant::now();
    for _ in 0..1000 {
        send_span(&layer, &tx, &mut counter);
    }
    let elapsed = start.elapsed();

    assert!(
        elapsed.as_millis() < 500,
        "hot path blocked: took {}ms (limit 500ms)",
        elapsed.as_millis()
    );
    let delta = telemetry_dropped_total(&counter);
    assert!(
        delta >= 996,
        "expected at least 996 drops (1000 spans - 4 capacity), got {}",
        delta
    );
}

#[test]
fn backpressure_dropped_total_increments_accurately() {
    let mut counter = DropCounter::new();
    let (tx, _rx) = crossbeam_channel::bounded(1);
    let layer = layer(true, false);

    // Fill the single-capacity channel with one span
    send_span(&layer, &tx, &mut counter);

    // Channel is now full -- next 100 sends should all be dropped
    let before = telemetry_dropped_total(&counter);
    for _ in 0..100 {
        send_span(&layer, &tx, &mut counter);
    }
    let delta = telemetry_dropped_total(&counter) - before;
    assert_eq!(delta, 100);
}

#[test]
fn backpressure_events_also_nonblocking_under_backpressure() {
    let mut counter = DropCounter::new();
    let (tx, _rx) = crossbeam_channel::bounded(2);
    let layer = layer(false, true);

    let start = std::time::Instant::now();
    for _ in 0..1000 {
        let mut collector = FieldCollector::new();
        collector.record_debug("message", "backpressure-event");
        if let Some(data) = layer.on_event(collector, None, Level::Info, 1) {
            send(&tx, &mut counter, Signal::Logs, data);
        }
    }
    let elapsed = start.elapsed();

    let delta = telemetry_dropped_total(&counter);
    assert!(
        elapsed.as_millis() < 500,
        "event hot path blocked: took {}ms (limit 500ms)",
        elapsed.as_millis()
    );
    assert!(
        delta >= 998,
        "expected at least 998 drops (1000 events - 2 capacity), got {}",
        delta
    );
}

#[test]
fn drop_counter_counts_and_resets() {
    let mut counter = DropCounter::new();
    counter.increment_dropped_total();
    counter.increment_dropped_total();
    assert_eq!(counter.dropped_total(), 2);
    counter.record_send(BackpressureStrategy::default(), SendOutcome::Queued);
    assert_eq!(counter.dropped_total(), 2);
    counter.reset_dropped_total();
    assert_eq!(counter.dropped_total(), 0);
}

#[test]
fn messages_carry_their_bytes() {
    match data_message(Signal::Logs, vec![1, 2, 3]) {
        ExportMessage::Logs(data) => assert_eq!(&data[..], &[1, 2, 3]),
        other => panic!("expected Logs, got {:?}", other),
    }
    let buffers = vec![
        bytes::Bytes::from(vec![1, 2]),
        bytes::Bytes::new(),
        bytes::Bytes::from_static(&[3]),
    ];
    assert_eq!(concatenate(&buffers), vec![1, 2, 3]);
}

#[test]
fn batches_keep_signals_apart() {
    let mut batches = Batches::new();
    assert!(batches.batches_empty());
    batches.push(Signal::Traces, bytes::Bytes::from_static(b"a"));
    batches.push(Signal::Metrics, bytes::Bytes::from_static(b"m"));
    batches.push(Signal::Traces, bytes::Bytes::from_static(b"b"));
    assert_eq!(batches.len(Signal::Traces), 2);
    assert_eq!(batches.len(Signal::Logs), 0);
    assert!(batches.is_full(&config(2), Signal::Traces));
    assert!(!batches.is_full(&config(3), Signal::Traces));
    assert!(!batches.is_postable(&config(2), Signal::Metrics));

    let post = batches.take(&config(2), Signal::Traces).unwrap();
    assert_eq!(post.url, "http://c/v1/traces");
    assert_eq!(post.payload, b"ab");
    // No URL for metrics: the batch is discarded.
    assert!(batches.take(&config(2), Signal::Metrics).is_none());
    assert!(batches.batches_empty());
}

fn traces(data: &[u8]) -> Event {
    Event::Message(data_message(Signal::Traces, data.to_vec()))
}

#[test]
fn core_exporter_batches_up_to_batch_size() {
    let mut exporter = ExporterLoop::new(config(3));
    for data in [b"a", b"b"] {
        let step = exporter.step(traces(data));
        assert!(step.posts.is_empty());
        assert_eq!(step.next, Next::Wait);
    }
    let step = exporter.step(traces(b"c"));
    assert_eq!(step.posts.len(), 1);
    assert_eq!(step.posts[0].payload, b"abc");
    assert_eq!(step.posts[0].url, "http://c/v1/traces");
    assert_eq!(step.next, Next::Wait);
}

#[test]
fn core_exporter_flushes_everything_in_order() {
    let mut exporter = ExporterLoop::new(config(100));
    exporter.step(traces(b"t"));
    exporter.step(Event::Message(data_message(Signal::Metrics, b"m".to_vec())));
    exporter.step(Event::Message(data_message(Signal::Logs, b"l".to_vec())));
    let step = exporter.step(Event::Message(ExportMessage::Flush));
    let sent: Vec<_> = step.posts.iter().map(|post| post.payload.clone()).collect();
    // Metrics have no URL.
    assert_eq!(sent, vec![b"t".to_vec(), b"l".to_vec()]);
    assert_eq!(step.next, Next::DrainAndReport);

    let step = exporter.step(Event::Tick);
    assert!(step.posts.is_empty());
    assert_eq!(step.next, Next::Wait);

    exporter.step(traces(b"u"));
    let step = exporter.step(Event::Message(ExportMessage::Shutdown));
    assert_eq!(step.posts[0].payload, b"u");
    assert_eq!(step.next, Next::DrainAndStop);
    assert_eq!(exporter.step(Event::Closed).next, Next::DrainAndStop);
}

#[test]
fn core_exporter_posts_what_came_in_order() {
    for batch_size in 0..5 {
        let mut exporter = ExporterLoop::new(config(batch_size));
        let mut came = Vec::new();
        let mut posted = Vec::new();
        for i in 0u8..23 {
            came.push(i);
            let step = exporter.step(traces(&[i]));
            posted.extend(step.posts.into_iter().flat_map(|post| post.payload));
            if i % 7 == 0 {
                let step = exporter.step(Event::Tick);
                posted.extend(step.posts.into_iter().flat_map(|post| post.payload));
            }
        }
        let step = exporter.step(Event::Message(ExportMessage::Flush));
        posted.extend(step.posts.into_iter().flat_map(|post| post.payload));
        assert_eq!(posted, came);
    }
}
