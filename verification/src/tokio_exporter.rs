//! The exporter that runs on tokio: every post holds one of a limited number of permits, and a
//! batch for which no permit is free stays until the next flush.
//!
//! [`ExporterLoop`] holds the decisions of the background task. The task does what the last
//! [`Action`] says, and hands what came of it to [`ExporterLoop::step`].
use vstd::prelude::*;

use crate::batch;
use crate::batch::{BatchConfig, Batches, BatchesModel, ConfigModel, PendingPost, PostModel, Signal};
use crate::duration;
use crate::duration::Duration;
use crate::exporter::{BackpressureStrategy, MessageModel};

pub use crate::exporter::ExportMessage;

verus! {

/// Configuration for the exporter.
///
/// Use `Default` for standard values (1024 channel, 512 batch, 1s flush).
pub struct ExporterConfig {
    pub traces_url: Option<String>,
    pub logs_url: Option<String>,
    pub metrics_url: Option<String>,
    pub channel_capacity: usize,
    pub batch_size: usize,
    pub flush_interval: Duration,
    pub max_concurrent_exports: usize,
    pub backpressure_strategy: BackpressureStrategy,
}

impl Default for ExporterConfig {
    fn default() -> (config: ExporterConfig)
        ensures
            config.traces_url is None,
            config.logs_url is None,
            config.metrics_url is None,
            config.channel_capacity == 1024,
            config.batch_size == 512,
            config.flush_interval.nanos() == duration::NANOS_PER_SEC,
            config.max_concurrent_exports == 4,
            config.backpressure_strategy == BackpressureStrategy::Drop,
    {
        ExporterConfig {
            traces_url: None,
            logs_url: None,
            metrics_url: None,
            channel_capacity: 1024,
            batch_size: 512,
            flush_interval: Duration::from_secs(1),
            max_concurrent_exports: 4,
            backpressure_strategy: BackpressureStrategy::Drop,
        }
    }
}

/// How many rounds of flushing and draining a flush takes at most.
pub const MAX_FLUSH_ROUNDS: usize = 64;

/// What the task reports to the loop.
pub enum Event {
    /// A message came out of the channel.
    Message(ExportMessage),
    /// Every sender is gone and the channel is empty.
    Closed,
    /// The flush interval has passed.
    Tick,
    /// A permit was asked for, and was granted or not.
    Permit(bool),
    /// Every post that was started is done.
    Drained,
    /// Other tasks have had their turn.
    Yielded,
}

/// What an [`Event`] says.
pub enum EventModel {
    Message(MessageModel),
    Closed,
    Tick,
    Permit(bool),
    Drained,
    Yielded,
}

impl View for Event {
    type V = EventModel;

    open spec fn view(&self) -> EventModel {
        match *self {
            Event::Message(message) => EventModel::Message(message@),
            Event::Closed => EventModel::Closed,
            Event::Tick => EventModel::Tick,
            Event::Permit(granted) => EventModel::Permit(granted),
            Event::Drained => EventModel::Drained,
            Event::Yielded => EventModel::Yielded,
        }
    }
}

/// What the task does next.
#[derive(Debug, Clone, Copy, PartialEq, Eq, Structural)]
pub enum Action {
    /// Wait for a message or the flush interval; a message goes first.
    Wait,
    /// Ask for a permit, without waiting for one.
    TryPermit,
    /// Wait until every post that was started is done.
    Drain,
    /// Let other tasks have their turn.
    Yield,
    /// Report that the flush is done, then wait as before.
    ReportAndWait,
    /// Report that the flush is done, and stop.
    ReportAndStop,
    /// Stop.
    Stop,
}

/// Why batches are being flushed.
#[derive(Debug, Clone, Copy, PartialEq, Eq, Structural)]
pub enum Goal {
    /// A full batch or the flush interval: the posts are not waited for.
    Resume,
    /// A request to flush.
    ReportAndWait,
    /// A request to shut down.
    ReportAndStop,
    /// The end of the channel.
    Stop,
}

/// What the loop is waiting for.
#[derive(Debug, Clone, Copy, PartialEq, Eq, Structural)]
pub enum Phase {
    /// A message, the end of the channel or a tick.
    Waiting,
    /// A permit for the first batch that is left to flush.
    Acquiring,
    /// The end of all posts.
    Draining,
    /// Its next turn.
    Yielding,
    /// Nothing any more.
    Stopped,
}

/// The post to start, if any, and what comes after it.
pub struct Step {
    pub post: Option<PendingPost>,
    pub action: Action,
}

/// The state of the loop.
#[verifier::ext_equal]
pub struct LoopModel {
    /// The messages that wait for their batch to leave.
    pub batches: BatchesModel,
    /// The signals whose batches are left to flush, in order.
    pub todo: Seq<Signal>,
    /// Why they are flushed.
    pub goal: Goal,
    /// How many rounds the flush may still take, the present one among them.
    pub rounds: nat,
    /// What the loop is waiting for.
    pub phase: Phase,
}

/// The outcome of a step.
pub struct StepModel {
    pub state: LoopModel,
    pub post: Option<PostModel>,
    pub action: Action,
}

/// The loop before its first event.
pub open spec fn start() -> LoopModel {
    LoopModel {
        batches: batch::no_batches(),
        todo: seq![],
        goal: Goal::Resume,
        rounds: 0,
        phase: Phase::Waiting,
    }
}

/// Every signal, in the order in which batches are flushed.
pub open spec fn every_signal() -> Seq<Signal> {
    seq![Signal::Traces, Signal::Logs, Signal::Metrics]
}

/// Whether an event is one that the loop is waiting for.
pub open spec fn expected(phase: Phase, event: EventModel) -> bool {
    match event {
        EventModel::Message(_) | EventModel::Closed | EventModel::Tick => phase == Phase::Waiting,
        EventModel::Permit(_) => phase == Phase::Acquiring,
        EventModel::Drained => phase == Phase::Draining,
        EventModel::Yielded => phase == Phase::Yielding,
    }
}

/// The batches and the signals left to flush once those that need no permit are dealt with, up
/// to the first that does: an empty batch is passed over, one without a URL is discarded.
pub open spec fn settled(
    batches: BatchesModel,
    config: ConfigModel,
    todo: Seq<Signal>,
) -> (BatchesModel, Seq<Signal>)
    decreases todo.len(),
{
    if todo.len() == 0 || batch::postable(batches, config, todo[0]) {
        (batches, todo)
    } else {
        settled(batch::emptied(batches, todo[0]), config, todo.skip(1))
    }
}

/// Goes on with a flush until it needs a permit or is through with its signals.
pub open spec fn flushed(
    state: LoopModel,
    config: ConfigModel,
    post: Option<PostModel>,
) -> StepModel {
    let (batches, todo) = settled(state.batches, config, state.todo);
    let state = LoopModel { batches, todo, ..state };
    if todo.len() > 0 {
        StepModel {
            state: LoopModel { phase: Phase::Acquiring, ..state },
            post,
            action: Action::TryPermit,
        }
    } else if state.goal == Goal::Resume {
        StepModel {
            state: LoopModel { phase: Phase::Waiting, ..state },
            post,
            action: Action::Wait,
        }
    } else {
        StepModel {
            state: LoopModel { phase: Phase::Draining, ..state },
            post,
            action: Action::Drain,
        }
    }
}

/// Ends a flush.
pub open spec fn finished(state: LoopModel) -> StepModel {
    match state.goal {
        Goal::Resume => StepModel {
            state: LoopModel { phase: Phase::Waiting, ..state },
            post: None,
            action: Action::Wait,
        },
        Goal::ReportAndWait => StepModel {
            state: LoopModel { phase: Phase::Waiting, ..state },
            post: None,
            action: Action::ReportAndWait,
        },
        Goal::ReportAndStop => StepModel {
            state: LoopModel { phase: Phase::Stopped, ..state },
            post: None,
            action: Action::ReportAndStop,
        },
        Goal::Stop => StepModel {
            state: LoopModel { phase: Phase::Stopped, ..state },
            post: None,
            action: Action::Stop,
        },
    }
}

/// A flush of every signal.
pub open spec fn flush_every(state: LoopModel, config: ConfigModel, goal: Goal) -> StepModel {
    flushed(
        LoopModel { todo: every_signal(), goal, rounds: MAX_FLUSH_ROUNDS as nat, ..state },
        config,
        None,
    )
}

/// What the loop does on an event.
pub open spec fn stepped(state: LoopModel, config: ConfigModel, event: EventModel) -> StepModel {
    match event {
        EventModel::Message(MessageModel::Data { signal, bytes }) => {
            let batches = batch::pushed(state.batches, signal, bytes);
            if batch::full(batches, config, signal) {
                flushed(
                    LoopModel { batches, todo: seq![signal], goal: Goal::Resume, ..state },
                    config,
                    None,
                )
            } else {
                StepModel {
                    state: LoopModel { batches, ..state },
                    post: None,
                    action: Action::Wait,
                }
            }
        },
        EventModel::Message(MessageModel::Flush) => flush_every(
            state,
            config,
            Goal::ReportAndWait,
        ),
        EventModel::Message(MessageModel::Shutdown) => flush_every(
            state,
            config,
            Goal::ReportAndStop,
        ),
        EventModel::Closed => flush_every(state, config, Goal::Stop),
        EventModel::Tick => flush_every(state, config, Goal::Resume),
        EventModel::Permit(granted) => {
            let signal = state.todo[0];
            let rest = LoopModel { todo: state.todo.skip(1), ..state };
            if granted {
                flushed(
                    LoopModel { batches: batch::emptied(state.batches, signal), ..rest },
                    config,
                    batch::post(state.batches, config, signal),
                )
            } else {
                flushed(rest, config, None)
            }
        },
        EventModel::Drained => if state.batches == batch::no_batches() {
            finished(state)
        } else {
            StepModel {
                state: LoopModel { phase: Phase::Yielding, ..state },
                post: None,
                action: Action::Yield,
            }
        },
        EventModel::Yielded => {
            let state = LoopModel { rounds: (state.rounds - 1) as nat, ..state };
            if state.rounds > 0 {
                flushed(LoopModel { todo: every_signal(), ..state }, config, None)
            } else {
                finished(state)
            }
        },
    }
}

/// What holds of the loop at any time: while it asks for a permit there is a batch to post, and
/// while it drains or yields it is in a round of a flush that is to be reported or to end it.
pub open spec fn sound(state: LoopModel, config: ConfigModel) -> bool {
    &&& state.phase == Phase::Acquiring ==> state.todo.len() > 0 && batch::postable(
        state.batches,
        config,
        state.todo[0],
    )
    &&& state.phase == Phase::Acquiring && state.goal != Goal::Resume ==> state.rounds > 0
    &&& state.phase == Phase::Draining || state.phase == Phase::Yielding ==> state.rounds > 0
        && state.goal != Goal::Resume
}

/// The decisions of the exporter's background task.
pub struct ExporterLoop {
    config: BatchConfig,
    batches: Batches,
    todo: Vec<Signal>,
    goal: Goal,
    rounds: usize,
    phase: Phase,
}

/// What an optional post and an action say, together with the state they leave.
pub open spec fn outcome(state: LoopModel, step: Step) -> StepModel {
    StepModel { state, post: batch::post_model(step.post), action: step.action }
}

impl ExporterLoop {
    /// Where the batches go and when they are full.
    pub closed spec fn config(&self) -> ConfigModel {
        self.config@
    }

    /// The state of the loop.
    pub closed spec fn state(&self) -> LoopModel {
        LoopModel {
            batches: self.batches@,
            todo: self.todo@,
            goal: self.goal,
            rounds: self.rounds as nat,
            phase: self.phase,
        }
    }

    /// What every step keeps.
    pub open spec fn wf(&self) -> bool {
        sound(self.state(), self.config())
    }

    /// A loop that waits for its first event.
    pub fn new(config: BatchConfig) -> (exporter: ExporterLoop)
        ensures
            exporter.wf(),
            exporter.config() == config@,
            exporter.state() == start(),
    {
        let exporter = ExporterLoop {
            config,
            batches: Batches::new(),
            todo: Vec::new(),
            goal: Goal::Resume,
            rounds: 0,
            phase: Phase::Waiting,
        };
        assert(exporter.state() =~= start());
        exporter
    }

    /// What the loop is waiting for.
    pub fn phase(&self) -> (phase: Phase)
        ensures
            phase == self.state().phase,
    {
        self.phase
    }

    /// Goes on with a flush until it needs a permit or is through with its signals.
    fn flush(&mut self, post: Option<PendingPost>) -> (step: Step)
        requires
            old(self).state().goal != Goal::Resume ==> old(self).state().rounds > 0,
        ensures
            final(self).config() == old(self).config(),
            final(self).wf(),
            outcome(final(self).state(), step) == flushed(
                old(self).state(),
                old(self).config(),
                batch::post_model(post),
            ),
    {
        let ghost before = self.state();
        let ghost config = self.config();
        while self.todo.len() > 0 && !self.batches.is_postable(&self.config, self.todo[0])
            invariant
                self.config() == config,
                settled(self.state().batches, config, self.state().todo) == settled(
                    before.batches,
                    config,
                    before.todo,
                ),
                self.state().goal == before.goal,
                self.state().rounds == before.rounds,
            decreases self.todo@.len(),
        {
            let ghost todo = self.todo@;
            let signal = self.todo.remove(0);
            assert(self.todo@ =~= todo.skip(1));
            let _ = self.batches.take(&self.config, signal);
        }
        if self.todo.len() > 0 {
            self.phase = Phase::Acquiring;
            Step { post, action: Action::TryPermit }
        } else if self.goal == Goal::Resume {
            self.phase = Phase::Waiting;
            Step { post, action: Action::Wait }
        } else {
            self.phase = Phase::Draining;
            Step { post, action: Action::Drain }
        }
    }

    /// Starts a flush of every signal.
    fn flush_all(&mut self, goal: Goal) -> (step: Step)
        ensures
            final(self).config() == old(self).config(),
            final(self).wf(),
            outcome(final(self).state(), step) == flush_every(
                old(self).state(),
                old(self).config(),
                goal,
            ),
    {
        let ghost before = self.state();
        self.todo = vec![Signal::Traces, Signal::Logs, Signal::Metrics];
        self.goal = goal;
        self.rounds = MAX_FLUSH_ROUNDS;
        assert(self.todo@ =~= every_signal());
        assert(self.state() =~= (LoopModel {
            todo: every_signal(),
            goal,
            rounds: MAX_FLUSH_ROUNDS as nat,
            ..before
        }));
        self.flush(None)
    }

    /// Ends a flush.
    fn finish(&mut self) -> (step: Step)
        ensures
            final(self).config() == old(self).config(),
            final(self).wf(),
            outcome(final(self).state(), step) == finished(old(self).state()),
    {
        match self.goal {
            Goal::Resume => {
                self.phase = Phase::Waiting;
                Step { post: None, action: Action::Wait }
            },
            Goal::ReportAndWait => {
                self.phase = Phase::Waiting;
                Step { post: None, action: Action::ReportAndWait }
            },
            Goal::ReportAndStop => {
                self.phase = Phase::Stopped;
                Step { post: None, action: Action::ReportAndStop }
            },
            Goal::Stop => {
                self.phase = Phase::Stopped;
                Step { post: None, action: Action::Stop }
            },
        }
    }

    /// Adds a message to its batch; a batch that is full is flushed.
    fn collect(&mut self, signal: Signal, data: bytes::Bytes) -> (step: Step)
        requires
            old(self).state().phase == Phase::Waiting,
        ensures
            final(self).config() == old(self).config(),
            final(self).wf(),
            outcome(final(self).state(), step) == stepped(
                old(self).state(),
                old(self).config(),
                EventModel::Message(
                    MessageModel::Data { signal, bytes: crate::payload::contents(data) },
                ),
            ),
    {
        let ghost before = self.state();
        self.batches.push(signal, data);
        if self.batches.is_full(&self.config, signal) {
            self.todo = vec![signal];
            self.goal = Goal::Resume;
            assert(self.todo@ =~= seq![signal]);
            self.flush(None)
        } else {
            Step { post: None, action: Action::Wait }
        }
    }

    /// Takes the answer to a request for a permit.
    fn permit(&mut self, granted: bool) -> (step: Step)
        requires
            old(self).wf(),
            old(self).state().phase == Phase::Acquiring,
        ensures
            final(self).config() == old(self).config(),
            final(self).wf(),
            outcome(final(self).state(), step) == stepped(
                old(self).state(),
                old(self).config(),
                EventModel::Permit(granted),
            ),
    {
        let ghost todo = self.todo@;
        let signal = self.todo.remove(0);
        assert(self.todo@ =~= todo.skip(1));
        let post = if granted {
            self.batches.take(&self.config, signal)
        } else {
            None
        };
        self.flush(post)
    }

    /// Takes an event that the loop is waiting for.
    pub fn step(&mut self, event: Event) -> (step: Step)
        requires
            old(self).wf(),
            expected(old(self).state().phase, event@),
        ensures
            final(self).config() == old(self).config(),
            final(self).wf(),
            outcome(final(self).state(), step) == stepped(
                old(self).state(),
                old(self).config(),
                event@,
            ),
    {
        match event {
            Event::Message(ExportMessage::Traces(data)) => self.collect(Signal::Traces, data),
            Event::Message(ExportMessage::Logs(data)) => self.collect(Signal::Logs, data),
            Event::Message(ExportMessage::Metrics(data)) => self.collect(Signal::Metrics, data),
            Event::Message(ExportMessage::Flush) => self.flush_all(Goal::ReportAndWait),
            Event::Message(ExportMessage::Shutdown) => self.flush_all(Goal::ReportAndStop),
            Event::Closed => self.flush_all(Goal::Stop),
            Event::Tick => self.flush_all(Goal::Resume),
            Event::Permit(granted) => self.permit(granted),
            Event::Drained => {
                if self.batches.batches_empty() {
                    self.finish()
                } else {
                    self.phase = Phase::Yielding;
                    Step { post: None, action: Action::Yield }
                }
            },
            Event::Yielded => {
                self.rounds = self.rounds - 1;
                if self.rounds > 0 {
                    self.todo = vec![Signal::Traces, Signal::Logs, Signal::Metrics];
                    assert(self.todo@ =~= every_signal());
                    self.flush(None)
                } else {
                    self.finish()
                }
            },
        }
    }
}

} // verus!
