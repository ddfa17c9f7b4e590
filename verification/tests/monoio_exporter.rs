use rolly::batch::{BatchConfig, Signal};
use rolly::exporter::{BackpressureStrategy, DropCounter};
use rolly::monoio_exporter::{
    data_message, Action, ControlMessage, Event, ExportMessage, ExporterConfig, ExporterLoop, Phase,
    Received, Step, DRAIN_QUOTA,
};
use rolly::Duration;

struct Run {
    exporter: ExporterLoop,
    drops: DropCounter,
}

impl Run {
    fn new(batch_size: usize, max_running: usize, max_pending: usize) -> Run {
        Run {
            exporter: ExporterLoop::new(
                BatchConfig {
                    traces_url: Some("http://c/v1/traces".into()),
                    logs_url: Some("http://c/v1/logs".into()),
                    metrics_url: None,
                    batch_size,
                },
                Duration::from_secs(1),
                max_running,
                max_pending,
            ),
            drops: DropCounter::new(),
        }
    }

    fn step(&mut self, event: Event) -> Step {
        self.exporter.step(event, &mut self.drops)
    }

    fn traces(&mut self, data: &[u8]) -> Step {
        self.step(Event::Received(Received::Message(data_message(
            Signal::Traces,
            data.to_vec(),
        ))))
    }

    fn idle_round(&mut self) -> Step {
        self.step(Event::Woke);
        self.step(Event::Received(Received::Empty));
        self.step(Event::Control(None))
    }
}

fn expect(step: &Step, payload: Option<&[u8]>, action: Action) {
    assert_eq!(step.post.as_ref().map(|post| post.payload.as_slice()), payload);
    assert_eq!(step.action, action);
}

fn millis(millis: u64) -> Action {
    Action::Sleep(Duration::from_millis(millis))
}

#[test]
fn messages_keep_their_signal() {
    assert!(matches!(data_message(Signal::Metrics, vec![1]), ExportMessage::Metrics(data) if data[..] == [1]));
}

#[test]
fn idle_rounds_sleep_longer_than_active_ones() {
    let mut run = Run::new(10, 4, 32);
    assert_eq!(run.exporter.first_action(), millis(100));
    expect(&run.idle_round(), None, Action::CountInFlight);
    expect(&run.step(Event::InFlight(0)), None, millis(100));

    expect(&run.step(Event::Woke), None, Action::Receive);
    expect(&run.traces(b"a"), None, Action::Receive);
    expect(&run.step(Event::Received(Received::Empty)), None, Action::CheckControl);
    expect(&run.step(Event::Control(None)), None, Action::CountInFlight);
    expect(&run.step(Event::InFlight(0)), None, millis(10));
}

#[test]
fn full_batch_is_started_at_the_end_of_the_round() {
    let mut run = Run::new(2, 4, 32);
    run.step(Event::Woke);
    run.traces(b"a");
    run.traces(b"b");
    run.step(Event::Received(Received::Empty));
    run.step(Event::Control(None));
    expect(&run.step(Event::InFlight(0)), Some(b"ab"), Action::CountInFlight);
    expect(&run.step(Event::InFlight(1)), None, millis(10));
}

#[test]
fn flush_interval_flushes_partial_batches() {
    let mut run = Run::new(100, 4, 32);
    run.step(Event::Woke);
    run.traces(b"a");
    run.step(Event::Received(Received::Empty));
    run.step(Event::Control(None));
    run.step(Event::InFlight(0));
    // 100 ms have passed; the next sleep is 10 ms, those after it 100 ms.
    for _ in 0..9 {
        run.idle_round();
        expect(&run.step(Event::InFlight(0)), None, millis(100));
    }
    run.idle_round();
    expect(&run.step(Event::InFlight(0)), Some(b"a"), Action::CountInFlight);
}

#[test]
fn posts_wait_while_too_many_run() {
    let mut run = Run::new(1, 1, 32);
    run.step(Event::Woke);
    run.traces(b"a");
    run.traces(b"b");
    run.step(Event::Received(Received::Empty));
    run.step(Event::Control(None));
    expect(&run.step(Event::InFlight(0)), Some(b"a"), Action::CountInFlight);
    expect(&run.step(Event::InFlight(1)), None, millis(10));
    run.idle_round();
    expect(&run.step(Event::InFlight(0)), Some(b"b"), Action::CountInFlight);
}

#[test]
fn oldest_posts_are_dropped_and_counted() {
    let mut run = Run::new(1, 4, 2);
    run.step(Event::Woke);
    for data in [b"a", b"b", b"c", b"d"] {
        run.traces(data);
    }
    assert_eq!(run.drops.dropped_total(), 2);
    run.step(Event::Received(Received::Empty));
    run.step(Event::Control(None));
    expect(&run.step(Event::InFlight(0)), Some(b"c"), Action::CountInFlight);
    expect(&run.step(Event::InFlight(1)), Some(b"d"), Action::CountInFlight);
    expect(&run.step(Event::InFlight(2)), None, millis(10));
}

#[test]
fn limits_are_at_least_one() {
    let mut run = Run::new(1, 0, 0);
    run.step(Event::Woke);
    run.traces(b"a");
    run.traces(b"b");
    assert_eq!(run.drops.dropped_total(), 1);
    run.step(Event::Received(Received::Empty));
    run.step(Event::Control(None));
    expect(&run.step(Event::InFlight(0)), Some(b"b"), Action::CountInFlight);
}

#[test]
fn quota_leaves_room_for_requests() {
    let mut run = Run::new(usize::MAX, 4, 32);
    run.step(Event::Woke);
    for _ in 1..DRAIN_QUOTA {
        expect(&run.traces(b"x"), None, Action::Receive);
    }
    expect(&run.traces(b"x"), None, Action::CheckControl);
    assert_eq!(run.exporter.phase(), Phase::Checking);
}

#[test]
fn flush_request_posts_everything_before_it_is_reported() {
    let mut run = Run::new(100, 1, 32);
    run.step(Event::Woke);
    run.traces(b"t");
    run.step(Event::Received(Received::Empty));
    expect(
        &run.step(Event::Control(Some(ControlMessage::Flush))),
        None,
        Action::Receive,
    );
    run.step(Event::Received(Received::Message(data_message(
        Signal::Logs,
        b"l".to_vec(),
    ))));
    expect(&run.step(Event::Received(Received::Empty)), None, Action::CountInFlight);
    expect(&run.step(Event::InFlight(0)), Some(b"t"), Action::CountInFlight);
    expect(&run.step(Event::InFlight(1)), None, millis(1));
    expect(&run.step(Event::Woke), None, Action::CountInFlight);
    expect(&run.step(Event::InFlight(0)), Some(b"l"), Action::CountInFlight);
    expect(&run.step(Event::InFlight(1)), None, millis(1));
    run.step(Event::Woke);
    expect(&run.step(Event::InFlight(0)), None, Action::ReportAndCheckControl);
    expect(&run.step(Event::Control(None)), None, Action::CountInFlight);
}

#[test]
fn shutdown_request_stops_the_loop() {
    let mut run = Run::new(100, 1, 32);
    run.step(Event::Woke);
    run.step(Event::Received(Received::Empty));
    run.step(Event::Control(Some(ControlMessage::Shutdown)));
    run.step(Event::Received(Received::Disconnected));
    expect(&run.step(Event::InFlight(0)), None, Action::ReportAndStop);
    assert_eq!(run.exporter.phase(), Phase::Stopped);
}

#[test]
fn end_of_the_channel_stops_the_loop_after_a_flush() {
    let mut run = Run::new(100, 4, 32);
    run.step(Event::Woke);
    run.traces(b"t");
    run.step(Event::Received(Received::Disconnected));
    expect(&run.step(Event::Control(None)), None, Action::CountInFlight);
    expect(&run.step(Event::InFlight(0)), Some(b"t"), Action::CountInFlight);
    expect(&run.step(Event::InFlight(0)), None, Action::Stop);
}

#[test]
fn everything_is_delivered_in_order_with_few_posts_at_a_time() {
    for max_running in 1..4 {
        for batch_size in [1, 2, 100] {
            let mut run = Run::new(batch_size, max_running, 32);
            run.step(Event::Woke);
            for data in [b"a", b"b", b"c", b"d", b"e"] {
                run.traces(data);
            }
            run.step(Event::Received(Received::Empty));
            run.step(Event::Control(Some(ControlMessage::Shutdown)));
            run.traces(b"f");
            let mut step = run.step(Event::Received(Received::Empty));
            let mut posted = Vec::new();
            let mut running = 0;
            while step.action != Action::ReportAndStop {
                step = match step.action {
                    Action::CountInFlight => run.step(Event::InFlight(running)),
                    _ => {
                        running -= 1;
                        run.step(Event::Woke)
                    }
                };
                if let Some(post) = &step.post {
                    assert_eq!(post.url, "http://c/v1/traces");
                    posted.extend_from_slice(&post.payload);
                    running += 1;
                    assert!(running <= max_running);
                }
            }
            assert_eq!(running, 0);
            assert_eq!(posted, b"abcdef");
            assert_eq!(run.drops.dropped_total(), 0);
        }
    }
}

#[test]
fn monoio_exporter_config_with_batch_settings() {
    let config = ExporterConfig {
        traces_url: None,
        logs_url: None,
        metrics_url: None,
        channel_capacity: 16,
        batch_size: 100,
        flush_interval: Duration::from_millis(500),
        max_concurrent_exports: 2,
        max_pending_batches: 16,
        backpressure_strategy: BackpressureStrategy::Drop,
    };
    assert_eq!(config.batch_size, 100);
    assert_eq!(config.flush_interval, Duration::from_millis(500));
    assert_eq!(config.max_concurrent_exports, 2);
    assert_eq!(config.max_pending_batches, 16);
}
