//! The exporter that runs on monoio: batches that are full or flushed join a bounded queue, from
//! which a limited number of posts run at a time. Where the queue is full, its oldest post is
//! dropped and counted.
//!
//! [`ExporterLoop`] holds the decisions of the background task. The task does what the last
//! [`Action`] says, and hands what came of it to [`ExporterLoop::step`].
use std::collections::VecDeque;

use bytes::Bytes;
use vstd::prelude::*;

use crate::batch;
use crate::batch::{BatchConfig, Batches, BatchesModel, ConfigModel, PendingPost, PostModel, Signal};
use crate::duration;
use crate::duration::Duration;
use crate::exporter;
use crate::exporter::{BackpressureStrategy, DropCounter};
use crate::payload;

verus! {

/// Message types sent to the exporter background task.
#[derive(Debug)]
pub enum ExportMessage {
    Traces(Bytes),
    Logs(Bytes),
    Metrics(Bytes),
}

/// What a message holds: encoded telemetry of one signal.
pub struct DataModel {
    pub signal: Signal,
    pub bytes: Seq<u8>,
}

impl View for ExportMessage {
    type V = DataModel;

    open spec fn view(&self) -> DataModel {
        match *self {
            ExportMessage::Traces(data) => DataModel {
                signal: Signal::Traces,
                bytes: payload::contents(data),
            },
            ExportMessage::Logs(data) => DataModel {
                signal: Signal::Logs,
                bytes: payload::contents(data),
            },
            ExportMessage::Metrics(data) => DataModel {
                signal: Signal::Metrics,
                bytes: payload::contents(data),
            },
        }
    }
}

/// The message that carries encoded telemetry of a signal to the exporter.
pub fn data_message(signal: Signal, data: Vec<u8>) -> (message: ExportMessage)
    ensures
        message@ == (DataModel { signal, bytes: data@ }),
{
    let buffer = payload::freeze(data);
    match signal {
        Signal::Traces => ExportMessage::Traces(buffer),
        Signal::Logs => ExportMessage::Logs(buffer),
        Signal::Metrics => ExportMessage::Metrics(buffer),
    }
}

/// Requests to the exporter, which travel apart from the data.
#[derive(Debug, Clone, Copy, PartialEq, Eq, Structural)]
pub enum ControlMessage {
    /// Post everything and report when that is done.
    Flush,
    /// Post everything, report, and stop.
    Shutdown,
}

/// Configuration for the exporter.
///
/// Use `Default` for standard values (1024 channel, 512 batch, 1s flush).
pub struct ExporterConfig {
    pub traces_url: Option<String>,
    pub logs_url: Option<String>,
    pub metrics_url: Option<String>,
    pub channel_capacity: usize,
    pub batch_size: usize,
    pub flush_interval: Duration,
    pub max_concurrent_exports: usize,
    /// Maximum number of batches queued for HTTP POST before dropping.
    /// Bounds memory when the collector is slow or unreachable.
    pub max_pending_batches: usize,
    pub backpressure_strategy: BackpressureStrategy,
}

impl Default for ExporterConfig {
    fn default() -> (config: ExporterConfig)
        ensures
            config.traces_url is None,
            config.logs_url is None,
            config.metrics_url is None,
            config.channel_capacity == 1024,
            config.batch_size == 512,
            config.flush_interval.nanos() == duration::NANOS_PER_SEC,
            config.max_concurrent_exports == 4,
            config.max_pending_batches == 32,
            config.backpressure_strategy == BackpressureStrategy::Drop,
    {
        ExporterConfig {
            traces_url: None,
            logs_url: None,
            metrics_url: None,
            channel_capacity: 1024,
            batch_size: 512,
            flush_interval: Duration::from_secs(1),
            max_concurrent_exports: 4,
            max_pending_batches: 32,
            backpressure_strategy: BackpressureStrategy::Drop,
        }
    }
}

/// Milliseconds between looks at the channel while it has been empty.
pub const IDLE_CHECK_MILLIS: u64 = 100;

/// Milliseconds between looks at the channel while messages are flowing.
pub const ACTIVE_CHECK_MILLIS: u64 = 10;

/// Milliseconds between looks at the running posts while waiting for their end.
pub const POLL_MILLIS: u64 = 1;

/// Maximum messages drained per iteration before checking for a request.
pub const DRAIN_QUOTA: usize = 1024;

/// What came of a look at the data channel.
pub enum Received {
    Message(ExportMessage),
    Empty,
    Disconnected,
}

/// What the task reports to the loop.
pub enum Event {
    /// The sleep is over.
    Woke,
    /// The data channel was looked at.
    Received(Received),
    /// The channel for requests was looked at.
    Control(Option<ControlMessage>),
    /// So many posts are running.
    InFlight(usize),
}

/// What an [`Event`] says.
pub enum EventModel {
    Woke,
    Message(DataModel),
    Empty,
    Disconnected,
    Control(Option<ControlMessage>),
    InFlight(nat),
}

impl View for Event {
    type V = EventModel;

    open spec fn view(&self) -> EventModel {
        match *self {
            Event::Woke => EventModel::Woke,
            Event::Received(Received::Message(message)) => EventModel::Message(message@),
            Event::Received(Received::Empty) => EventModel::Empty,
            Event::Received(Received::Disconnected) => EventModel::Disconnected,
            Event::Control(request) => EventModel::Control(request),
            Event::InFlight(count) => EventModel::InFlight(count as nat),
        }
    }
}

/// What the task does next.
#[derive(Debug, Clone, Copy, PartialEq, Eq, Structural)]
pub enum Action {
    /// Sleep that long.
    Sleep(Duration),
    /// Look at the data channel, without waiting.
    Receive,
    /// Look at the channel for requests, without waiting.
    CheckControl,
    /// Count the posts that are running.
    CountInFlight,
    /// Report that the request is done, then look for the next one.
    ReportAndCheckControl,
    /// Report that the request is done, and stop.
    ReportAndStop,
    /// Stop.
    Stop,
}

/// What an [`Action`] says.
pub enum ActionModel {
    Sleep { nanos: nat },
    Receive,
    CheckControl,
    CountInFlight,
    ReportAndCheckControl,
    ReportAndStop,
    Stop,
}

impl View for Action {
    type V = ActionModel;

    open spec fn view(&self) -> ActionModel {
        match *self {
            Action::Sleep(time) => ActionModel::Sleep { nanos: time.nanos() },
            Action::Receive => ActionModel::Receive,
            Action::CheckControl => ActionModel::CheckControl,
            Action::CountInFlight => ActionModel::CountInFlight,
            Action::ReportAndCheckControl => ActionModel::ReportAndCheckControl,
            Action::ReportAndStop => ActionModel::ReportAndStop,
            Action::Stop => ActionModel::Stop,
        }
    }
}

/// Why the loop waits for all posts to end.
#[derive(Debug, Clone, Copy, PartialEq, Eq, Structural)]
pub enum Goal {
    /// A request to flush.
    Flush,
    /// A request to shut down.
    Shutdown,
    /// Every sender of data is gone.
    Disconnected,
}

/// What the loop is waiting for.
#[derive(Debug, Clone, Copy, PartialEq, Eq, Structural)]
pub enum Phase {
    /// The end of the sleep between looks at the channel.
    Sleeping,
    /// A look at the data channel, as long as the quota lasts.
    Draining,
    /// A look at the channel for requests.
    Checking,
    /// A look at the data channel, until it is empty.
    DrainingAll,
    /// A count of running posts, on the way to their end.
    Ending,
    /// The end of a short sleep, on the way to the end of all posts.
    Pausing,
    /// A count of running posts, to start more.
    Starting,
    /// Nothing any more.
    Stopped,
}

/// The post to start, if any, and what comes after it.
pub struct Step {
    pub post: Option<PendingPost>,
    pub action: Action,
}

/// The limits that the loop works under.
pub struct LimitsModel {
    /// Where the batches go and when they are full.
    pub config: ConfigModel,
    /// How many posts wait in the queue at most.
    pub max_pending: nat,
    /// How many posts run at a time.
    pub max_running: nat,
    /// How long a batch waits for its flush, in nanoseconds.
    pub flush_nanos: nat,
}

/// The state of the loop.
#[verifier::ext_equal]
pub struct LoopModel {
    /// The messages that wait for their batch to leave.
    pub batches: BatchesModel,
    /// The posts that wait to be started, oldest first.
    pub pending: Seq<PostModel>,
    /// How long the next sleep is, in nanoseconds.
    pub check_nanos: nat,
    /// The time slept since the last flush, in nanoseconds.
    pub since_flush: nat,
    /// How many messages the quota still allows.
    pub left: nat,
    /// Whether a message came since the last sleep.
    pub got_messages: bool,
    /// Whether every sender of data was found gone.
    pub disconnected: bool,
    /// Why the end of all posts is waited for.
    pub goal: Goal,
    /// What the loop is waiting for.
    pub phase: Phase,
}

/// The outcome of a step.
pub struct StepModel {
    pub state: LoopModel,
    pub post: Option<PostModel>,
    pub action: ActionModel,
    /// How many posts were dropped from the queue.
    pub dropped: nat,
}

/// The loop before its first event: it has just gone to sleep.
pub open spec fn start() -> LoopModel {
    LoopModel {
        batches: batch::no_batches(),
        pending: seq![],
        check_nanos: (IDLE_CHECK_MILLIS * duration::NANOS_PER_MILLI) as nat,
        since_flush: 0,
        left: 0,
        got_messages: false,
        disconnected: false,
        goal: Goal::Flush,
        phase: Phase::Sleeping,
    }
}

/// Whether an event is one that the loop is waiting for.
pub open spec fn expected(phase: Phase, event: EventModel) -> bool {
    match event {
        EventModel::Woke => phase == Phase::Sleeping || phase == Phase::Pausing,
        EventModel::Message(_) | EventModel::Empty | EventModel::Disconnected => phase
            == Phase::Draining || phase == Phase::DrainingAll,
        EventModel::Control(_) => phase == Phase::Checking,
        EventModel::InFlight(_) => phase == Phase::Ending || phase == Phase::Starting,
    }
}

/// How many of the oldest posts are dropped to make room for one more.
pub open spec fn overflow(pending: Seq<PostModel>, max_pending: nat) -> nat {
    if pending.len() >= max_pending {
        (pending.len() - max_pending + 1) as nat
    } else {
        0
    }
}

/// The queue after a post has joined it, if there is one, and how many posts were dropped.
pub open spec fn queued(
    pending: Seq<PostModel>,
    max_pending: nat,
    post: Option<PostModel>,
) -> (Seq<PostModel>, nat) {
    match post {
        Some(post) => {
            let dropped = overflow(pending, max_pending);
            (pending.skip(dropped as int).push(post), dropped)
        },
        None => (pending, 0),
    }
}

/// The state after the batch of a signal has joined the queue, and how many posts were dropped.
pub open spec fn batch_queued(
    state: LoopModel,
    limits: LimitsModel,
    signal: Signal,
) -> (LoopModel, nat) {
    let (pending, dropped) = queued(
        state.pending,
        limits.max_pending,
        batch::post(state.batches, limits.config, signal),
    );
    (LoopModel { batches: batch::emptied(state.batches, signal), pending, ..state }, dropped)
}

/// The state after every batch has joined the queue, and how many posts were dropped.
pub open spec fn all_queued(state: LoopModel, limits: LimitsModel) -> (LoopModel, nat) {
    let (traces, a) = batch_queued(state, limits, Signal::Traces);
    let (logs, b) = batch_queued(traces, limits, Signal::Logs);
    let (metrics, c) = batch_queued(logs, limits, Signal::Metrics);
    (metrics, a + b + c)
}

/// The state after a message has been added to its batch, which leaves where that fills it, and
/// how many posts were dropped.
pub open spec fn collected(
    state: LoopModel,
    limits: LimitsModel,
    data: DataModel,
) -> (LoopModel, nat) {
    let more = LoopModel {
        batches: batch::pushed(state.batches, data.signal, data.bytes),
        ..state
    };
    if batch::full(more.batches, limits.config, data.signal) {
        batch_queued(more, limits, data.signal)
    } else {
        (more, 0)
    }
}

/// A step without a post.
pub open spec fn to(
    state: LoopModel,
    phase: Phase,
    action: ActionModel,
    dropped: nat,
) -> StepModel {
    StepModel { state: LoopModel { phase, ..state }, post: None, action, dropped }
}

/// Waits for the end of all posts.
pub open spec fn ending(state: LoopModel, goal: Goal, dropped: nat) -> StepModel {
    to(LoopModel { goal, ..state }, Phase::Ending, ActionModel::CountInFlight, dropped)
}

/// Starts the oldest post of the queue.
pub open spec fn posting(state: LoopModel) -> StepModel {
    StepModel {
        state: LoopModel { pending: state.pending.skip(1), ..state },
        post: Some(state.pending[0]),
        action: ActionModel::CountInFlight,
        dropped: 0,
    }
}

/// What the loop does on an event.
pub open spec fn stepped(state: LoopModel, limits: LimitsModel, event: EventModel) -> StepModel {
    match event {
        EventModel::Woke => if state.phase == Phase::Sleeping {
            to(
                LoopModel {
                    since_flush: duration::longer_by(state.since_flush, state.check_nanos),
                    left: DRAIN_QUOTA as nat,
                    got_messages: false,
                    disconnected: false,
                    ..state
                },
                Phase::Draining,
                ActionModel::Receive,
                0,
            )
        } else {
            to(state, Phase::Ending, ActionModel::CountInFlight, 0)
        },
        EventModel::Message(data) => {
            let (more, dropped) = collected(state, limits, data);
            if state.phase == Phase::DrainingAll {
                to(more, Phase::DrainingAll, ActionModel::Receive, dropped)
            } else {
                let more = LoopModel { got_messages: true, left: (more.left - 1) as nat, ..more };
                if more.left > 0 {
                    to(more, Phase::Draining, ActionModel::Receive, dropped)
                } else {
                    to(more, Phase::Checking, ActionModel::CheckControl, dropped)
                }
            }
        },
        EventModel::Empty | EventModel::Disconnected => if state.phase == Phase::DrainingAll {
            let (flushed, dropped) = all_queued(state, limits);
            ending(flushed, state.goal, dropped)
        } else {
            to(
                LoopModel { disconnected: event is Disconnected, ..state },
                Phase::Checking,
                ActionModel::CheckControl,
                0,
            )
        },
        EventModel::Control(Some(request)) => to(
            LoopModel {
                goal: match request {
                    ControlMessage::Flush => Goal::Flush,
                    ControlMessage::Shutdown => Goal::Shutdown,
                },
                ..state
            },
            Phase::DrainingAll,
            ActionModel::Receive,
            0,
        ),
        EventModel::Control(None) => if state.disconnected {
            let (flushed, dropped) = all_queued(state, limits);
            ending(flushed, Goal::Disconnected, dropped)
        } else {
            let rested = LoopModel {
                check_nanos: ((if state.got_messages {
                    ACTIVE_CHECK_MILLIS
                } else {
                    IDLE_CHECK_MILLIS
                }) * duration::NANOS_PER_MILLI) as nat,
                ..state
            };
            if state.since_flush >= limits.flush_nanos {
                let (flushed, dropped) = all_queued(rested, limits);
                to(
                    LoopModel { since_flush: 0, ..flushed },
                    Phase::Starting,
                    ActionModel::CountInFlight,
                    dropped,
                )
            } else {
                to(rested, Phase::Starting, ActionModel::CountInFlight, 0)
            }
        },
        EventModel::InFlight(running) => if running < limits.max_running && state.pending.len()
            > 0 {
            posting(state)
        } else if state.phase == Phase::Starting {
            to(state, Phase::Sleeping, ActionModel::Sleep { nanos: state.check_nanos }, 0)
        } else if running > 0 || state.pending.len() > 0 {
            to(
                state,
                Phase::Pausing,
                ActionModel::Sleep { nanos: (POLL_MILLIS * duration::NANOS_PER_MILLI) as nat },
                0,
            )
        } else {
            match state.goal {
                Goal::Flush => to(
                    LoopModel { since_flush: 0, ..state },
                    Phase::Checking,
                    ActionModel::ReportAndCheckControl,
                    0,
                ),
                Goal::Shutdown => to(state, Phase::Stopped, ActionModel::ReportAndStop, 0),
                Goal::Disconnected => to(state, Phase::Stopped, ActionModel::Stop, 0),
            }
        },
    }
}

/// What holds of the loop at any time: the queue keeps its bound, some of the quota is left
/// while the channel is drained under it, and no batch waits while the end of all posts is
/// waited for.
pub open spec fn sound(state: LoopModel, limits: LimitsModel) -> bool {
    &&& state.pending.len() <= limits.max_pending
    &&& state.phase == Phase::Draining ==> state.left > 0
    &&& state.phase == Phase::Ending || state.phase == Phase::Pausing ==> state.batches
        == batch::no_batches()
}

/// The decisions of the exporter's background task.
pub struct ExporterLoop {
    config: BatchConfig,
    max_pending: usize,
    max_running: usize,
    flush_interval: Duration,
    batches: Batches,
    pending_posts: VecDeque<PendingPost>,
    check_interval: Duration,
    since_flush: Duration,
    left: usize,
    got_messages: bool,
    disconnected: bool,
    goal: Goal,
    phase: Phase,
}

/// What a step says, together with the state that it leaves and the drops that it counted.
pub open spec fn outcome(state: LoopModel, step: Step, dropped: nat) -> StepModel {
    StepModel { state, post: batch::post_model(step.post), action: step.action@, dropped }
}

/// Puts a post into the queue, if there is one. Where the queue is full, the oldest posts are
/// dropped and counted.
fn queue_post(
    pending: &mut VecDeque<PendingPost>,
    max_pending: usize,
    post: Option<PendingPost>,
    drops: &mut DropCounter,
)
    requires
        max_pending > 0,
    ensures
        exporter::posts_model(final(pending)@) == queued(
            exporter::posts_model(old(pending)@),
            max_pending as nat,
            batch::post_model(post),
        ).0,
        final(drops).total() == exporter::counted(
            old(drops).total(),
            queued(
                exporter::posts_model(old(pending)@),
                max_pending as nat,
                batch::post_model(post),
            ).1,
        ),
{
    let ghost before = pending@;
    let ghost total = drops.total();
    match post {
        Some(post) => {
            let ghost mut dropped: nat = 0;
            while pending.len() >= max_pending
                invariant
                    max_pending > 0,
                    dropped <= before.len(),
                    pending@ == before.skip(dropped as int),
                    pending@.len() == before.len() - dropped,
                    drops.total() == exporter::counted(total, dropped),
                    dropped > 0 ==> pending@.len() + 1 >= max_pending,
                decreases pending@.len(),
            {
                let _ = pending.pop_front();
                drops.increment_dropped_total();
                proof {
                    dropped = dropped + 1;
                    assert(pending@ =~= before.skip(dropped as int));
                }
            }
            pending.push_back(post);
            proof {
                assert(dropped == overflow(exporter::posts_model(before), max_pending as nat));
                assert(exporter::posts_model(pending@) =~= exporter::posts_model(before).skip(
                    dropped as int,
                ).push(post@));
            }
        },
        None => {},
    }
}

impl ExporterLoop {
    /// The limits that the loop works under.
    pub closed spec fn limits(&self) -> LimitsModel {
        LimitsModel {
            config: self.config@,
            max_pending: self.max_pending as nat,
            max_running: self.max_running as nat,
            flush_nanos: self.flush_interval.nanos(),
        }
    }

    /// The state of the loop.
    pub closed spec fn state(&self) -> LoopModel {
        LoopModel {
            batches: self.batches@,
            pending: exporter::posts_model(self.pending_posts@),
            check_nanos: self.check_interval.nanos(),
            since_flush: self.since_flush.nanos(),
            left: self.left as nat,
            got_messages: self.got_messages,
            disconnected: self.disconnected,
            goal: self.goal,
            phase: self.phase,
        }
    }

    /// What every step keeps.
    pub open spec fn wf(&self) -> bool {
        &&& self.limits().max_pending > 0
        &&& self.limits().max_running > 0
        &&& sound(self.state(), self.limits())
    }

    /// A loop that has just gone to sleep. At least one post can wait and one can run, whatever
    /// the configuration says.
    pub fn new(
        config: BatchConfig,
        flush_interval: Duration,
        max_concurrent_exports: usize,
        max_pending_batches: usize,
    ) -> (exporter: ExporterLoop)
        ensures
            exporter.wf(),
            exporter.state() == start(),
            exporter.limits() == (LimitsModel {
                config: config@,
                max_pending: if max_pending_batches == 0 {
                    1
                } else {
                    max_pending_batches as nat
                },
                max_running: if max_concurrent_exports == 0 {
                    1
                } else {
                    max_concurrent_exports as nat
                },
                flush_nanos: flush_interval.nanos(),
            }),
    {
        let exporter = ExporterLoop {
            config,
            max_pending: if max_pending_batches == 0 {
                1
            } else {
                max_pending_batches
            },
            max_running: if max_concurrent_exports == 0 {
                1
            } else {
                max_concurrent_exports
            },
            flush_interval,
            batches: Batches::new(),
            pending_posts: VecDeque::new(),
            check_interval: Duration::from_millis(IDLE_CHECK_MILLIS),
            since_flush: Duration::zero(),
            left: 0,
            got_messages: false,
            disconnected: false,
            goal: Goal::Flush,
            phase: Phase::Sleeping,
        };
        assert(exporter.state() =~= start());
        exporter
    }

    /// What the loop is waiting for.
    pub fn phase(&self) -> (phase: Phase)
        ensures
            phase == self.state().phase,
    {
        self.phase
    }

    /// What the task does first: it sleeps.
    pub fn first_action(&self) -> (action: Action)
        ensures
            action@ == (ActionModel::Sleep { nanos: self.state().check_nanos }),
    {
        Action::Sleep(self.check_interval)
    }

    /// Moves the batch of a signal into the queue.
    fn queue_batch(&mut self, signal: Signal, drops: &mut DropCounter)
        requires
            old(self).limits().max_pending > 0,
        ensures
            final(self).limits() == old(self).limits(),
            final(self).state() == batch_queued(old(self).state(), old(self).limits(), signal).0,
            final(drops).total() == exporter::counted(
                old(drops).total(),
                batch_queued(old(self).state(), old(self).limits(), signal).1,
            ),
    {
        let post = self.batches.take(&self.config, signal);
        queue_post(&mut self.pending_posts, self.max_pending, post, drops);
    }

    /// Adds a message to its batch; a batch that is full joins the queue.
    fn collect(&mut self, message: ExportMessage, drops: &mut DropCounter)
        requires
            old(self).limits().max_pending > 0,
        ensures
            final(self).limits() == old(self).limits(),
            final(self).state() == collected(old(self).state(), old(self).limits(), message@).0,
            final(drops).total() == exporter::counted(
                old(drops).total(),
                collected(old(self).state(), old(self).limits(), message@).1,
            ),
    {
        let (signal, data) = match message {
            ExportMessage::Traces(data) => (Signal::Traces, data),
            ExportMessage::Logs(data) => (Signal::Logs, data),
            ExportMessage::Metrics(data) => (Signal::Metrics, data),
        };
        self.batches.push(signal, data);
        if self.batches.is_full(&self.config, signal) {
            self.queue_batch(signal, drops);
        }
    }

    /// Moves every batch into the queue.
    fn flush_all(&mut self, drops: &mut DropCounter)
        requires
            old(self).limits().max_pending > 0,
        ensures
            final(self).limits() == old(self).limits(),
            final(self).state() == all_queued(old(self).state(), old(self).limits()).0,
            final(drops).total() == exporter::counted(
                old(drops).total(),
                all_queued(old(self).state(), old(self).limits()).1,
            ),
    {
        self.queue_batch(Signal::Traces, drops);
        self.queue_batch(Signal::Logs, drops);
        self.queue_batch(Signal::Metrics, drops);
    }

    /// Takes a message of the data channel.
    fn take_message(&mut self, message: ExportMessage, drops: &mut DropCounter) -> (step: Step)
        requires
            old(self).wf(),
            expected(old(self).state().phase, EventModel::Message(message@)),
        ensures
            final(self).limits() == old(self).limits(),
            ({
                let step_model = stepped(
                    old(self).state(),
                    old(self).limits(),
                    EventModel::Message(message@),
                );
                &&& final(drops).total() == exporter::counted(
                    old(drops).total(),
                    step_model.dropped,
                )
                &&& outcome(final(self).state(), step, step_model.dropped) == step_model
            }),
    {
        self.collect(message, drops);
        if self.phase == Phase::DrainingAll {
            return Step { post: None, action: Action::Receive };
        }
        self.got_messages = true;
        self.left = self.left - 1;
        if self.left > 0 {
            Step { post: None, action: Action::Receive }
        } else {
            self.phase = Phase::Checking;
            Step { post: None, action: Action::CheckControl }
        }
    }

    /// Takes the news that the data channel holds nothing at the moment, or never will again.
    fn take_nothing(&mut self, gone: bool, drops: &mut DropCounter) -> (step: Step)
        requires
            old(self).wf(),
            expected(old(self).state().phase, EventModel::Empty),
        ensures
            final(self).limits() == old(self).limits(),
            ({
                let step_model = stepped(
                    old(self).state(),
                    old(self).limits(),
                    if gone {
                        EventModel::Disconnected
                    } else {
                        EventModel::Empty
                    },
                );
                &&& final(drops).total() == exporter::counted(
                    old(drops).total(),
                    step_model.dropped,
                )
                &&& outcome(final(self).state(), step, step_model.dropped) == step_model
            }),
    {
        if self.phase == Phase::DrainingAll {
            self.flush_all(drops);
            self.phase = Phase::Ending;
            Step { post: None, action: Action::CountInFlight }
        } else {
            self.disconnected = gone;
            self.phase = Phase::Checking;
            Step { post: None, action: Action::CheckControl }
        }
    }

    /// Takes a request, or the news that there is none: a round then ends with a flush if one is
    /// due.
    fn take_control(
        &mut self,
        request: Option<ControlMessage>,
        drops: &mut DropCounter,
    ) -> (step: Step)
        requires
            old(self).wf(),
            expected(old(self).state().phase, EventModel::Control(request)),
        ensures
            final(self).limits() == old(self).limits(),
            ({
                let step_model = stepped(
                    old(self).state(),
                    old(self).limits(),
                    EventModel::Control(request),
                );
                &&& final(drops).total() == exporter::counted(
                    old(drops).total(),
                    step_model.dropped,
                )
                &&& outcome(final(self).state(), step, step_model.dropped) == step_model
            }),
    {
        if let Some(request) = request {
            self.goal = match request {
                ControlMessage::Flush => Goal::Flush,
                ControlMessage::Shutdown => Goal::Shutdown,
            };
            self.phase = Phase::DrainingAll;
            return Step { post: None, action: Action::Receive };
        }
        if self.disconnected {
            self.flush_all(drops);
            self.goal = Goal::Disconnected;
            self.phase = Phase::Ending;
            return Step { post: None, action: Action::CountInFlight };
        }
        self.check_interval = Duration::from_millis(
            if self.got_messages {
                ACTIVE_CHECK_MILLIS
            } else {
                IDLE_CHECK_MILLIS
            },
        );
        if self.since_flush.at_least(&self.flush_interval) {
            self.since_flush = Duration::zero();
            self.flush_all(drops);
        }
        self.phase = Phase::Starting;
        Step { post: None, action: Action::CountInFlight }
    }

    /// Takes the number of running posts: as long as there is room, the oldest post of the queue
    /// is started.
    fn take_count(&mut self, running: usize) -> (step: Step)
        requires
            old(self).wf(),
            expected(old(self).state().phase, EventModel::InFlight(running as nat)),
        ensures
            final(self).limits() == old(self).limits(),
            outcome(final(self).state(), step, 0) == stepped(
                old(self).state(),
                old(self).limits(),
                EventModel::InFlight(running as nat),
            ),
    {
        let ghost before = self.pending_posts@;
        if running < self.max_running {
            if let Some(post) = self.pending_posts.pop_front() {
                assert(exporter::posts_model(self.pending_posts@) =~= exporter::posts_model(
                    before,
                ).skip(1));
                return Step { post: Some(post), action: Action::CountInFlight };
            }
        }
        if self.phase == Phase::Starting {
            self.phase = Phase::Sleeping;
            return Step { post: None, action: Action::Sleep(self.check_interval) };
        }
        if running > 0 || self.pending_posts.len() > 0 {
            self.phase = Phase::Pausing;
            return Step { post: None, action: Action::Sleep(Duration::from_millis(POLL_MILLIS)) };
        }
        match self.goal {
            Goal::Flush => {
                self.since_flush = Duration::zero();
                self.phase = Phase::Checking;
                Step { post: None, action: Action::ReportAndCheckControl }
            },
            Goal::Shutdown => {
                self.phase = Phase::Stopped;
                Step { post: None, action: Action::ReportAndStop }
            },
            Goal::Disconnected => {
                self.phase = Phase::Stopped;
                Step { post: None, action: Action::Stop }
            },
        }
    }

    /// Takes the end of a sleep.
    fn take_wake(&mut self) -> (step: Step)
        requires
            old(self).wf(),
            expected(old(self).state().phase, EventModel::Woke),
        ensures
            final(self).limits() == old(self).limits(),
            outcome(final(self).state(), step, 0) == stepped(
                old(self).state(),
                old(self).limits(),
                EventModel::Woke,
            ),
    {
        if self.phase == Phase::Sleeping {
            self.since_flush = self.since_flush.saturating_add(&self.check_interval);
            self.left = DRAIN_QUOTA;
            self.got_messages = false;
            self.disconnected = false;
            self.phase = Phase::Draining;
            Step { post: None, action: Action::Receive }
        } else {
            self.phase = Phase::Ending;
            Step { post: None, action: Action::CountInFlight }
        }
    }

    /// Takes an event that the loop is waiting for. Posts that are dropped from the queue are
    /// counted in `drops`.
    pub fn step(&mut self, event: Event, drops: &mut DropCounter) -> (step: Step)
        requires
            old(self).wf(),
            expected(old(self).state().phase, event@),
        ensures
            final(self).limits() == old(self).limits(),
            final(self).wf(),
            ({
                let step_model = stepped(old(self).state(), old(self).limits(), event@);
                &&& final(drops).total() == exporter::counted(
                    old(drops).total(),
                    step_model.dropped,
                )
                &&& outcome(final(self).state(), step, step_model.dropped) == step_model
            }),
    {
        proof {
            lemma_step_sound(self.state(), self.limits(), event@);
        }
        match event {
            Event::Woke => self.take_wake(),
            Event::Received(Received::Message(message)) => self.take_message(message, drops),
            Event::Received(Received::Empty) => self.take_nothing(false, drops),
            Event::Received(Received::Disconnected) => self.take_nothing(true, drops),
            Event::Control(request) => self.take_control(request, drops),
            Event::InFlight(running) => self.take_count(running),
        }
    }
}

/// Every step keeps the loop sound: the queue never holds more posts than its bound.
pub proof fn lemma_step_sound(state: LoopModel, limits: LimitsModel, event: EventModel)
    requires
        limits.max_pending > 0,
        sound(state, limits),
        expected(state.phase, event),
    ensures
        sound(stepped(state, limits, event).state, limits),
{
    assert(all_queued(state, limits).0.batches =~= batch::no_batches());
}

} // verus!
