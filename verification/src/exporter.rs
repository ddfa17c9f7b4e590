//! The exporter: gathers encoded telemetry and decides what is posted when.
//!
//! [`ExporterLoop`] holds the decisions of the background task. The task itself waits for the
//! next event, hands it to [`ExporterLoop::step`], starts the posts that come back and does
//! what the step says next.
use bytes::Bytes;
use vstd::prelude::*;

use crate::batch;
use crate::batch::{BatchConfig, Batches, BatchesModel, ConfigModel, PendingPost, PostModel, Signal};
use crate::duration::Duration;
use crate::payload;

verus! {

/// Configures behavior when the telemetry channel is full.
#[derive(Debug, Clone, Copy, PartialEq, Eq, Structural)]
pub enum BackpressureStrategy {
    /// Drop the message and count it in the [`DropCounter`]. Non-blocking.
    Drop,
}

impl Default for BackpressureStrategy {
    fn default() -> (strategy: BackpressureStrategy)
        ensures
            strategy == BackpressureStrategy::Drop,
    {
        BackpressureStrategy::Drop
    }
}

/// What became of a message that was offered to the exporter's channel.
#[derive(Debug, Clone, Copy, PartialEq, Eq, Structural)]
pub enum SendOutcome {
    /// The channel took it.
    Queued,
    /// The channel was full.
    Full,
    /// The exporter has stopped.
    Closed,
}

/// Counts the telemetry messages that were dropped. After `u64::MAX` it starts again at zero.
#[derive(Debug, Clone, Copy, PartialEq, Eq, Structural)]
pub struct DropCounter {
    total: u64,
}

/// The count after `more` further drops.
pub open spec fn counted(total: u64, more: nat) -> u64 {
    ((total + more) % 0x1_0000_0000_0000_0000) as u64
}

impl DropCounter {
    /// The number of messages dropped so far.
    pub closed spec fn total(self) -> u64 {
        self.total
    }

    /// A counter that has seen no drop.
    pub fn new() -> (counter: DropCounter)
        ensures
            counter.total() == 0,
    {
        DropCounter { total: 0 }
    }

    /// The number of messages dropped so far.
    pub fn dropped_total(&self) -> (total: u64)
        ensures
            total == self.total(),
    {
        self.total
    }

    /// Sets the count back to zero.
    pub fn reset_dropped_total(&mut self)
        ensures
            final(self).total() == 0,
    {
        self.total = 0;
    }

    /// Counts one dropped message.
    pub fn increment_dropped_total(&mut self)
        ensures
            final(self).total() == counted(old(self).total(), 1),
            old(self).total() < u64::MAX ==> final(self).total() == old(self).total() + 1,
            old(self).total() == u64::MAX ==> final(self).total() == 0,
    {
        self.total = self.total.wrapping_add(1);
    }

    /// Counts a message that did not get into the channel: with
    /// [`BackpressureStrategy::Drop`] it is gone, whether the channel was full or closed.
    pub fn record_send(&mut self, strategy: BackpressureStrategy, outcome: SendOutcome)
        ensures
            final(self).total() == (if outcome == SendOutcome::Queued {
                old(self).total()
            } else {
                counted(old(self).total(), 1)
            }),
            outcome != SendOutcome::Queued && old(self).total() < u64::MAX ==> final(self).total()
                == old(self).total() + 1,
            outcome != SendOutcome::Queued && old(self).total() == u64::MAX ==> final(self).total()
                == 0,
    {
        match strategy {
            BackpressureStrategy::Drop => {
                match outcome {
                    SendOutcome::Queued => {},
                    SendOutcome::Full | SendOutcome::Closed => self.increment_dropped_total(),
                }
            },
        }
    }
}

/// Message types sent to the exporter background task.
#[derive(Debug)]
pub enum ExportMessage {
    Traces(Bytes),
    Logs(Bytes),
    Metrics(Bytes),
    Flush,
    Shutdown,
}

/// What a message says.
pub enum MessageModel {
    /// Encoded telemetry of one signal.
    Data { signal: Signal, bytes: Seq<u8> },
    /// A request to post everything and to report when that is done.
    Flush,
    /// A request to post everything and to stop.
    Shutdown,
}

impl View for ExportMessage {
    type V = MessageModel;

    open spec fn view(&self) -> MessageModel {
        match *self {
            ExportMessage::Traces(data) => MessageModel::Data {
                signal: Signal::Traces,
                bytes: payload::contents(data),
            },
            ExportMessage::Logs(data) => MessageModel::Data {
                signal: Signal::Logs,
                bytes: payload::contents(data),
            },
            ExportMessage::Metrics(data) => MessageModel::Data {
                signal: Signal::Metrics,
                bytes: payload::contents(data),
            },
            ExportMessage::Flush => MessageModel::Flush,
            ExportMessage::Shutdown => MessageModel::Shutdown,
        }
    }
}

/// The message that carries encoded telemetry of a signal to the exporter.
pub fn data_message(signal: Signal, data: Vec<u8>) -> (message: ExportMessage)
    ensures
        message@ == (MessageModel::Data { signal, bytes: data@ }),
{
    let buffer = payload::freeze(data);
    match signal {
        Signal::Traces => ExportMessage::Traces(buffer),
        Signal::Logs => ExportMessage::Logs(buffer),
        Signal::Metrics => ExportMessage::Metrics(buffer),
    }
}

/// Configuration for the exporter.
pub struct ExporterConfig {
    pub traces_url: Option<String>,
    pub logs_url: Option<String>,
    pub metrics_url: Option<String>,
    pub channel_capacity: usize,
    pub batch_size: usize,
    pub flush_interval: Duration,
    pub max_concurrent_exports: usize,
    pub backpressure_strategy: BackpressureStrategy,
}

/// What wakes the exporter.
pub enum Event {
    /// A message came out of the channel.
    Message(ExportMessage),
    /// Every sender is gone and the channel is empty.
    Closed,
    /// The flush interval has passed.
    Tick,
}

/// What an [`Event`] says.
pub enum EventModel {
    Message(MessageModel),
    Closed,
    Tick,
}

impl View for Event {
    type V = EventModel;

    open spec fn view(&self) -> EventModel {
        match *self {
            Event::Message(message) => EventModel::Message(message@),
            Event::Closed => EventModel::Closed,
            Event::Tick => EventModel::Tick,
        }
    }
}

/// What the exporter does once it has started the posts of a step.
#[derive(Debug, Clone, Copy, PartialEq, Eq, Structural)]
pub enum Next {
    /// Wait for the next event.
    Wait,
    /// Wait until every post is done, report that to whoever asked, and go on.
    DrainAndReport,
    /// Wait until every post is done, and stop.
    DrainAndStop,
}

/// The posts to start, in order, and what comes after them.
pub struct Step {
    pub posts: Vec<PendingPost>,
    pub next: Next,
}

/// The batches once the message that came with the event, if any, has been added.
pub open spec fn arrived(batches: BatchesModel, event: EventModel) -> BatchesModel {
    match event {
        EventModel::Message(MessageModel::Data { signal, bytes }) => batch::pushed(
            batches,
            signal,
            bytes,
        ),
        _ => batches,
    }
}

/// Whether the batch of a signal leaves on an event: when a message fills it, and on every
/// event that carries no data.
pub open spec fn leaves(
    batches: BatchesModel,
    config: ConfigModel,
    event: EventModel,
    signal: Signal,
) -> bool {
    match event {
        EventModel::Message(MessageModel::Data { signal: from, bytes }) => from == signal
            && batch::full(arrived(batches, event), config, signal),
        _ => true,
    }
}

/// The post in which the batch of a signal leaves on an event.
pub open spec fn sent(
    batches: BatchesModel,
    config: ConfigModel,
    event: EventModel,
    signal: Signal,
) -> Option<PostModel> {
    if leaves(batches, config, event, signal) {
        batch::post(arrived(batches, event), config, signal)
    } else {
        None
    }
}

/// What stays of the batch of a signal after an event.
pub open spec fn kept(
    batches: BatchesModel,
    config: ConfigModel,
    event: EventModel,
    signal: Signal,
) -> Seq<Seq<u8>> {
    if leaves(batches, config, event, signal) {
        seq![]
    } else {
        batch::batch(arrived(batches, event), signal)
    }
}

/// The batches after an event.
pub open spec fn after(
    batches: BatchesModel,
    config: ConfigModel,
    event: EventModel,
) -> BatchesModel {
    BatchesModel {
        traces: kept(batches, config, event, Signal::Traces),
        logs: kept(batches, config, event, Signal::Logs),
        metrics: kept(batches, config, event, Signal::Metrics),
    }
}

/// A sequence of the post, if there is one.
pub open spec fn at_most_one(post: Option<PostModel>) -> Seq<PostModel> {
    match post {
        Some(post) => seq![post],
        None => seq![],
    }
}

/// The posts of an event: traces before logs before metrics.
pub open spec fn posts(
    batches: BatchesModel,
    config: ConfigModel,
    event: EventModel,
) -> Seq<PostModel> {
    at_most_one(sent(batches, config, event, Signal::Traces)) + at_most_one(
        sent(batches, config, event, Signal::Logs),
    ) + at_most_one(sent(batches, config, event, Signal::Metrics))
}

/// What comes after the posts of an event.
pub open spec fn next(event: EventModel) -> Next {
    match event {
        EventModel::Message(MessageModel::Data { signal, bytes }) => Next::Wait,
        EventModel::Message(MessageModel::Flush) => Next::DrainAndReport,
        EventModel::Message(MessageModel::Shutdown) => Next::DrainAndStop,
        EventModel::Closed => Next::DrainAndStop,
        EventModel::Tick => Next::Wait,
    }
}

/// What several posts hold.
pub open spec fn posts_model(posts: Seq<PendingPost>) -> Seq<PostModel> {
    Seq::new(posts.len(), |i: int| posts[i]@)
}

/// Appends a post to others, if there is one.
fn add_post(posts: &mut Vec<PendingPost>, post: Option<PendingPost>)
    ensures
        posts_model(final(posts)@) == posts_model(old(posts)@) + at_most_one(
            batch::post_model(post),
        ),
{
    match post {
        Some(post) => {
            posts.push(post);
            assert(posts_model(posts@) =~= posts_model(old(posts)@) + seq![post@]);
        },
        None => {
            assert(posts_model(posts@) =~= posts_model(old(posts)@) + seq![]);
        },
    }
}

/// The decisions of the exporter's background task.
pub struct ExporterLoop {
    config: BatchConfig,
    batches: Batches,
}

impl ExporterLoop {
    /// Where the batches go and when they are full.
    pub closed spec fn config(&self) -> ConfigModel {
        self.config@
    }

    /// The messages that wait for their batch to leave.
    pub closed spec fn batches(&self) -> BatchesModel {
        self.batches@
    }

    /// A loop that holds no message yet.
    pub fn new(config: BatchConfig) -> (state: ExporterLoop)
        ensures
            state.config() == config@,
            state.batches() == batch::no_batches(),
    {
        ExporterLoop { config, batches: Batches::new() }
    }

    /// Adds a message to its batch; a batch that is full leaves.
    fn collect(&mut self, signal: Signal, message: Bytes) -> (sent: Option<PendingPost>)
        ensures
            final(self).config() == old(self).config(),
            ({
                let more = batch::pushed(old(self).batches(), signal, payload::contents(message));
                if batch::full(more, old(self).config(), signal) {
                    &&& final(self).batches() == batch::emptied(more, signal)
                    &&& batch::post_model(sent) == batch::post(more, old(self).config(), signal)
                } else {
                    &&& final(self).batches() == more
                    &&& sent is None
                }
            }),
    {
        self.batches.push(signal, message);
        if self.batches.is_full(&self.config, signal) {
            self.batches.take(&self.config, signal)
        } else {
            None
        }
    }

    /// Empties every batch into posts.
    fn flush_all(&mut self) -> (flushed: Vec<PendingPost>)
        ensures
            final(self).config() == old(self).config(),
            final(self).batches() == batch::no_batches(),
            posts_model(flushed@) == posts(
                old(self).batches(),
                old(self).config(),
                EventModel::Tick,
            ),
    {
        let mut flushed: Vec<PendingPost> = Vec::new();
        let traces = self.batches.take(&self.config, Signal::Traces);
        add_post(&mut flushed, traces);
        let logs = self.batches.take(&self.config, Signal::Logs);
        add_post(&mut flushed, logs);
        let metrics = self.batches.take(&self.config, Signal::Metrics);
        add_post(&mut flushed, metrics);
        assert(self.batches() =~= batch::no_batches());
        assert(posts_model(flushed@) =~= posts(
            old(self).batches(),
            old(self).config(),
            EventModel::Tick,
        ));
        flushed
    }

    /// Takes the next event: which posts to start, and what to do after that.
    pub fn step(&mut self, event: Event) -> (step: Step)
        ensures
            final(self).config() == old(self).config(),
            final(self).batches() == after(old(self).batches(), old(self).config(), event@),
            posts_model(step.posts@) == posts(old(self).batches(), old(self).config(), event@),
            step.next == next(event@),
    {
        let ghost before = self.batches();
        let ghost config = self.config();
        let ghost seen = event@;
        let step = match event {
            Event::Message(ExportMessage::Traces(data)) => self.data_step(Signal::Traces, data),
            Event::Message(ExportMessage::Logs(data)) => self.data_step(Signal::Logs, data),
            Event::Message(ExportMessage::Metrics(data)) => self.data_step(Signal::Metrics, data),
            Event::Message(ExportMessage::Flush) => Step {
                posts: self.flush_all(),
                next: Next::DrainAndReport,
            },
            Event::Message(ExportMessage::Shutdown) | Event::Closed => Step {
                posts: self.flush_all(),
                next: Next::DrainAndStop,
            },
            Event::Tick => Step { posts: self.flush_all(), next: Next::Wait },
        };
        assert(self.batches() =~= after(before, config, seen));
        step
    }

    /// The step on a message with data.
    fn data_step(&mut self, signal: Signal, data: Bytes) -> (step: Step)
        ensures
            final(self).config() == old(self).config(),
            ({
                let event = EventModel::Message(
                    MessageModel::Data { signal, bytes: payload::contents(data) },
                );
                &&& final(self).batches() == after(old(self).batches(), old(self).config(), event)
                &&& posts_model(step.posts@) == posts(
                    old(self).batches(),
                    old(self).config(),
                    event,
                )
            }),
            step.next == Next::Wait,
    {
        let ghost event = EventModel::Message(
            MessageModel::Data { signal, bytes: payload::contents(data) },
        );
        let ghost before = self.batches();
        let ghost config = self.config();
        let mut posts: Vec<PendingPost> = Vec::new();
        let full = self.collect(signal, data);
        add_post(&mut posts, full);
        assert(self.batches() =~= after(before, config, event));
        assert(posts_model(posts@) =~= self::posts(before, config, event));
        Step { posts, next: Next::Wait }
    }
}

/// A count goes up by the drops, one for one, and starts again at zero after the largest number.
pub proof fn lemma_counted(total: u64, more: nat)
    ensures
        total + more <= u64::MAX ==> counted(total, more) == total + more,
        counted(u64::MAX, 1) == 0,
        counted(counted(total, more), 1) == counted(total, more + 1),
{
}

} // verus!
