use rolly::batch::{BatchConfig, Signal};
use rolly::exporter::data_message;
use rolly::tokio_exporter::{
    Action, Event, ExportMessage, ExporterLoop, Phase, Step, MAX_FLUSH_ROUNDS,
};

fn exporter(batch_size: usize) -> ExporterLoop {
    ExporterLoop::new(BatchConfig {
        traces_url: Some("http://c/v1/traces".into()),
        logs_url: Some("http://c/v1/logs".into()),
        metrics_url: None,
        batch_size,
    })
}

fn data(signal: Signal, data: &[u8]) -> Event {
    Event::Message(data_message(signal, data.to_vec()))
}

fn expect(step: &Step, payload: Option<&[u8]>, action: Action) {
    assert_eq!(step.post.as_ref().map(|post| post.payload.as_slice()), payload);
    assert_eq!(step.action, action);
}

#[test]
fn full_batch_is_posted_with_a_permit() {
    let mut exporter = exporter(2);
    expect(&exporter.step(data(Signal::Traces, b"a")), None, Action::Wait);
    expect(&exporter.step(data(Signal::Traces, b"b")), None, Action::TryPermit);
    assert_eq!(exporter.phase(), Phase::Acquiring);
    let step = exporter.step(Event::Permit(true));
    expect(&step, Some(b"ab"), Action::Wait);
    assert_eq!(step.post.unwrap().url, "http://c/v1/traces");
}

#[test]
fn batch_without_a_permit_stays() {
    let mut exporter = exporter(2);
    exporter.step(data(Signal::Traces, b"a"));
    exporter.step(data(Signal::Traces, b"b"));
    expect(&exporter.step(Event::Permit(false)), None, Action::Wait);
    expect(&exporter.step(data(Signal::Traces, b"c")), None, Action::TryPermit);
    expect(&exporter.step(Event::Permit(true)), Some(b"abc"), Action::Wait);
}

#[test]
fn batch_without_a_url_is_discarded() {
    let mut exporter = exporter(1);
    expect(&exporter.step(data(Signal::Metrics, b"m")), None, Action::Wait);
    expect(&exporter.step(Event::Tick), None, Action::Wait);
}

#[test]
fn tick_flushes_every_signal() {
    let mut exporter = exporter(10);
    exporter.step(data(Signal::Logs, b"l"));
    exporter.step(data(Signal::Traces, b"t"));
    expect(&exporter.step(Event::Tick), None, Action::TryPermit);
    expect(&exporter.step(Event::Permit(true)), Some(b"t"), Action::TryPermit);
    expect(&exporter.step(Event::Permit(true)), Some(b"l"), Action::Wait);
}

#[test]
fn flush_drains_and_reports() {
    let mut exporter = exporter(10);
    exporter.step(data(Signal::Traces, b"t"));
    expect(
        &exporter.step(Event::Message(ExportMessage::Flush)),
        None,
        Action::TryPermit,
    );
    expect(&exporter.step(Event::Permit(true)), Some(b"t"), Action::Drain);
    expect(&exporter.step(Event::Drained), None, Action::ReportAndWait);
    assert_eq!(exporter.phase(), Phase::Waiting);
}

#[test]
fn flush_goes_on_until_permits_are_free() {
    let mut exporter = exporter(10);
    exporter.step(data(Signal::Traces, b"t"));
    exporter.step(Event::Message(ExportMessage::Shutdown));
    expect(&exporter.step(Event::Permit(false)), None, Action::Drain);
    expect(&exporter.step(Event::Drained), None, Action::Yield);
    expect(&exporter.step(Event::Yielded), None, Action::TryPermit);
    expect(&exporter.step(Event::Permit(true)), Some(b"t"), Action::Drain);
    expect(&exporter.step(Event::Drained), None, Action::ReportAndStop);
    assert_eq!(exporter.phase(), Phase::Stopped);
}

#[test]
fn flush_ends_after_its_rounds() {
    let mut exporter = exporter(10);
    exporter.step(data(Signal::Traces, b"t"));
    expect(&exporter.step(Event::Closed), None, Action::TryPermit);
    for round in 1..=MAX_FLUSH_ROUNDS {
        expect(&exporter.step(Event::Permit(false)), None, Action::Drain);
        expect(&exporter.step(Event::Drained), None, Action::Yield);
        let step = exporter.step(Event::Yielded);
        if round < MAX_FLUSH_ROUNDS {
            expect(&step, None, Action::TryPermit);
        } else {
            expect(&step, None, Action::Stop);
        }
    }
}

#[test]
fn flush_of_nothing_only_drains() {
    let mut exporter = exporter(10);
    expect(
        &exporter.step(Event::Message(ExportMessage::Flush)),
        None,
        Action::Drain,
    );
    expect(&exporter.step(Event::Drained), None, Action::ReportAndWait);
}

/// Runs a loop with so many permits until it reports, and gives back what was posted to each URL
/// and the largest number of posts that ran at a time. A post ends only when it is waited for.
fn deliver(permits: usize, batch_size: usize, last: Event) -> (Vec<(String, Vec<u8>)>, usize) {
    let mut exporter = ExporterLoop::new(BatchConfig {
        traces_url: Some("t".into()),
        logs_url: Some("l".into()),
        metrics_url: Some("m".into()),
        batch_size,
    });
    let mut events = vec![
        data(Signal::Traces, b"a"),
        data(Signal::Logs, b"1"),
        data(Signal::Traces, b"b"),
        data(Signal::Metrics, b"x"),
        data(Signal::Traces, b"c"),
        data(Signal::Logs, b"2"),
        last,
    ]
    .into_iter();
    let mut posted: Vec<(String, Vec<u8>)> = Vec::new();
    let (mut running, mut most) = (0, 0);
    let mut action = Action::Wait;
    loop {
        let event = match action {
            Action::Wait => events.next().unwrap(),
            Action::TryPermit => Event::Permit(running < permits),
            Action::Drain => {
                running = 0;
                Event::Drained
            }
            Action::Yield => Event::Yielded,
            Action::ReportAndWait | Action::ReportAndStop | Action::Stop => break,
        };
        let step = exporter.step(event);
        if let Some(post) = step.post {
            running += 1;
            most = most.max(running);
            match posted.iter_mut().find(|(url, _)| *url == post.url) {
                Some((_, payload)) => payload.extend(post.payload),
                None => posted.push((post.url, post.payload)),
            }
        }
        action = step.action;
    }
    assert_eq!(running, 0);
    posted.sort();
    (posted, most)
}

#[test]
fn everything_is_delivered_with_however_few_permits() {
    for batch_size in [1, 2, 100] {
        for permits in 1..5 {
            for last in [
                Event::Message(ExportMessage::Flush),
                Event::Message(ExportMessage::Shutdown),
                Event::Closed,
            ] {
                let (posted, most) = deliver(permits, batch_size, last);
                assert_eq!(
                    posted,
                    vec![
                        ("l".to_string(), b"12".to_vec()),
                        ("m".to_string(), b"x".to_vec()),
                        ("t".to_string(), b"abc".to_vec()),
                    ]
                );
                assert!(most <= permits);
            }
        }
    }
}
