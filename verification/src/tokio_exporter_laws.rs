//! What holds of the exporter on tokio over any run of events.
use vstd::prelude::*;

use crate::batch;
use crate::batch::{BatchesModel, ConfigModel, PostModel, Signal};
use crate::exporter;
use crate::exporter::MessageModel;
use crate::monoio_exporter_laws;
use crate::payload;
use crate::runs;
use crate::runs::Happening;
use crate::tokio_exporter;
use crate::tokio_exporter::{Action, EventModel, Goal, LoopModel, Phase, MAX_FLUSH_ROUNDS};

verus! {

/// The signal whose batch leaves on an event.
pub open spec fn leaver(state: LoopModel, event: EventModel) -> Option<Signal> {
    if event == EventModel::Permit(true) {
        Some(state.todo[0])
    } else {
        None
    }
}

/// The bytes of a signal that are posted on an event.
pub open spec fn leaving(
    state: LoopModel,
    config: ConfigModel,
    event: EventModel,
    signal: Signal,
) -> Seq<u8> {
    match tokio_exporter::stepped(state, config, event).post {
        Some(post) => if leaver(state, event) == Some(signal) {
            post.payload
        } else {
            seq![]
        },
        None => seq![],
    }
}

/// The state after a run of events.
pub open spec fn state_after(config: ConfigModel, events: Seq<EventModel>) -> LoopModel
    decreases events.len(),
{
    if events.len() == 0 {
        tokio_exporter::start()
    } else {
        tokio_exporter::stepped(
            state_after(config, events.drop_last()),
            config,
            events.last(),
        ).state
    }
}

/// Whether every event of a run is one that the loop was waiting for.
pub open spec fn run(config: ConfigModel, events: Seq<EventModel>) -> bool
    decreases events.len(),
{
    events.len() > 0 ==> {
        &&& run(config, events.drop_last())
        &&& tokio_exporter::expected(
            state_after(config, events.drop_last()).phase,
            events.last(),
        )
    }
}

/// All bytes of a signal that are posted during a run of events, post after post.
pub open spec fn posted(config: ConfigModel, events: Seq<EventModel>, signal: Signal) -> Seq<u8>
    decreases events.len(),
{
    if events.len() == 0 {
        seq![]
    } else {
        posted(config, events.drop_last(), signal) + leaving(
            state_after(config, events.drop_last()),
            config,
            events.last(),
            signal,
        )
    }
}

/// Passing over batches that need no permit leaves those of a signal with a URL as they are.
proof fn lemma_settling_keeps(
    batches: BatchesModel,
    config: ConfigModel,
    todo: Seq<Signal>,
    signal: Signal,
)
    requires
        batch::url(config, signal) is Some,
    ensures
        batch::batch(tokio_exporter::settled(batches, config, todo).0, signal) == batch::batch(
            batches,
            signal,
        ),
    decreases todo.len(),
{
    if todo.len() > 0 && !batch::postable(batches, config, todo[0]) {
        lemma_settling_keeps(batch::emptied(batches, todo[0]), config, todo.skip(1), signal);
        assert(batch::batch(batch::emptied(batches, todo[0]), signal) =~= batch::batch(
            batches,
            signal,
        ));
    }
}

/// What settling leaves to flush is nothing, or begins with a batch to post.
proof fn lemma_settled(batches: BatchesModel, config: ConfigModel, todo: Seq<Signal>)
    ensures
        ({
            let (after, left) = tokio_exporter::settled(batches, config, todo);
            left.len() <= todo.len() && (left.len() > 0 ==> batch::postable(
                after,
                config,
                left[0],
            ))
        }),
    decreases todo.len(),
{
    if todo.len() > 0 && !batch::postable(batches, config, todo[0]) {
        lemma_settled(batch::emptied(batches, todo[0]), config, todo.skip(1));
    }
}

/// Every state that a run reaches is sound.
pub proof fn lemma_run_sound(config: ConfigModel, events: Seq<EventModel>)
    requires
        run(config, events),
    ensures
        tokio_exporter::sound(state_after(config, events), config),
    decreases events.len(),
{
    if events.len() > 0 {
        let before = state_after(config, events.drop_last());
        lemma_run_sound(config, events.drop_last());
        match events.last() {
            EventModel::Message(MessageModel::Data { signal, bytes }) => {
                lemma_settled(
                    batch::pushed(before.batches, signal, bytes),
                    config,
                    seq![signal],
                );
            },
            EventModel::Permit(granted) => {
                let signal = before.todo[0];
                lemma_settled(before.batches, config, before.todo.skip(1));
                lemma_settled(
                    batch::emptied(before.batches, signal),
                    config,
                    before.todo.skip(1),
                );
            },
            _ => {
                lemma_settled(before.batches, config, tokio_exporter::every_signal());
            },
        }
    }
}

/// One event neither loses nor reorders a byte of a signal that has a URL.
proof fn lemma_step_keeps_bytes(
    state: LoopModel,
    config: ConfigModel,
    event: EventModel,
    signal: Signal,
)
    requires
        batch::url(config, signal) is Some,
        tokio_exporter::sound(state, config),
        tokio_exporter::expected(state.phase, event),
    ensures
        leaving(state, config, event, signal) + payload::joined(
            batch::batch(tokio_exporter::stepped(state, config, event).state.batches, signal),
        ) == payload::joined(batch::batch(state.batches, signal)) + runs::arriving(event, signal),
{
    let here = batch::batch(state.batches, signal);
    let after = batch::batch(
        tokio_exporter::stepped(state, config, event).state.batches,
        signal,
    );
    match event {
        EventModel::Message(MessageModel::Data { signal: from, bytes }) => {
            let more = batch::pushed(state.batches, from, bytes);
            lemma_settling_keeps(more, config, seq![from], signal);
            if from == signal {
                assert(after == here.push(bytes));
                assert(here.push(bytes).drop_last() =~= here);
            } else {
                assert(after == here);
            }
        },
        EventModel::Permit(granted) => {
            let first = state.todo[0];
            lemma_settling_keeps(state.batches, config, state.todo.skip(1), signal);
            lemma_settling_keeps(
                batch::emptied(state.batches, first),
                config,
                state.todo.skip(1),
                signal,
            );
        },
        _ => {
            lemma_settling_keeps(
                state.batches,
                config,
                tokio_exporter::every_signal(),
                signal,
            );
        },
    }
    assert(leaving(state, config, event, signal) + payload::joined(after) =~= payload::joined(here)
        + runs::arriving(event, signal));
}

/// A signal that has a URL loses nothing and keeps its order, whether or not permits are
/// granted: over any run of events, the bytes that are posted and then those that still wait
/// are the bytes that came.
pub proof fn lemma_posts_what_came(config: ConfigModel, events: Seq<EventModel>, signal: Signal)
    requires
        batch::url(config, signal) is Some,
        run(config, events),
    ensures
        posted(config, events, signal) + payload::joined(
            batch::batch(state_after(config, events).batches, signal),
        ) == runs::received(events, signal),
    decreases events.len(),
{
    if events.len() == 0 {
        assert(posted(config, events, signal) + payload::joined(
            batch::batch(state_after(config, events).batches, signal),
        ) =~= seq![]);
    } else {
        let init = events.drop_last();
        let before = state_after(config, init);
        lemma_posts_what_came(config, init, signal);
        lemma_run_sound(config, init);
        lemma_step_keeps_bytes(before, config, events.last(), signal);
        let waited = payload::joined(batch::batch(before.batches, signal));
        let waits = payload::joined(batch::batch(state_after(config, events).batches, signal));
        let sent = posted(config, init, signal);
        let now = leaving(before, config, events.last(), signal);
        let came = runs::arriving(events.last(), signal);
        assert((sent + now) + waits =~= sent + (now + waits));
        assert(sent + (waited + came) =~= (sent + waited) + came);
    }
}

/// A batch for which no permit is free stays as it is.
pub proof fn lemma_refused_batch_stays(state: LoopModel, config: ConfigModel)
    requires
        tokio_exporter::sound(state, config),
        state.phase == Phase::Acquiring,
    ensures
        batch::batch(
            tokio_exporter::stepped(state, config, EventModel::Permit(false)).state.batches,
            state.todo[0],
        ) == batch::batch(state.batches, state.todo[0]),
{
    lemma_settling_keeps(state.batches, config, state.todo.skip(1), state.todo[0]);
}

/// Whether an action reports a flush or ends the loop.
pub open spec fn reports(action: Action) -> bool {
    action == Action::ReportAndWait || action == Action::ReportAndStop || action == Action::Stop
}

/// A flush is reported when nothing waits any more, or when its rounds are used up,
/// as they can be where there is no permit at all.
pub proof fn lemma_report_means_done(state: LoopModel, config: ConfigModel, event: EventModel)
    requires
        tokio_exporter::sound(state, config),
        tokio_exporter::expected(state.phase, event),
        reports(tokio_exporter::stepped(state, config, event).action),
    ensures
        ({
            let after = tokio_exporter::stepped(state, config, event).state;
            after.batches == batch::no_batches() || after.rounds == 0
        }),
{
}

/// How far a flush is from its end: what comes first in the order counts most.
pub open spec fn distance(state: LoopModel) -> (nat, nat) {
    let place: nat = match state.phase {
        Phase::Acquiring => 3 + state.todo.len(),
        Phase::Draining => 2,
        Phase::Yielding => 1,
        _ => 0,
    };
    (
        if state.goal == Goal::Resume {
            0
        } else {
            state.rounds
        },
        place,
    )
}

/// Whether one distance is smaller than another.
pub open spec fn nearer(a: (nat, nat), b: (nat, nat)) -> bool {
    a.0 < b.0 || (a.0 == b.0 && a.1 < b.1)
}

/// A flush ends: every event on the way brings it nearer to its end.
pub proof fn lemma_flush_ends(state: LoopModel, config: ConfigModel, event: EventModel)
    requires
        tokio_exporter::sound(state, config),
        tokio_exporter::expected(state.phase, event),
        state.phase != Phase::Waiting,
    ensures
        nearer(distance(tokio_exporter::stepped(state, config, event).state), distance(state)),
{
    match event {
        EventModel::Permit(granted) => {
            lemma_settled(state.batches, config, state.todo.skip(1));
            lemma_settled(
                batch::emptied(state.batches, state.todo[0]),
                config,
                state.todo.skip(1),
            );
        },
        _ => {},
    }
}

/// A post is started only on a permit, and goes to the URL of the signal whose batch it holds.
pub proof fn lemma_post_goes_to_its_url(state: LoopModel, config: ConfigModel, event: EventModel)
    requires
        tokio_exporter::sound(state, config),
        tokio_exporter::expected(state.phase, event),
    ensures
        tokio_exporter::stepped(state, config, event).post matches Some(post) ==> {
            &&& event == EventModel::Permit(true)
            &&& leaver(state, event) matches Some(signal) && batch::url(config, signal) == Some(
                post.url,
            )
        },
        event == EventModel::Permit(true) ==> tokio_exporter::stepped(
            state,
            config,
            event,
        ).post is Some,
{
}

/// Nothing is posted of a signal without a URL.
pub proof fn lemma_no_url_no_post(config: ConfigModel, events: Seq<EventModel>, signal: Signal)
    requires
        batch::url(config, signal) is None,
        run(config, events),
    ensures
        posted(config, events, signal) == Seq::<u8>::empty(),
    decreases events.len(),
{
    if events.len() > 0 {
        let before = state_after(config, events.drop_last());
        lemma_no_url_no_post(config, events.drop_last(), signal);
        lemma_run_sound(config, events.drop_last());
        lemma_post_goes_to_its_url(before, config, events.last());
        assert(posted(config, events, signal) =~= Seq::<u8>::empty());
    }
}

/// How many posts are started during a run of events.
pub open spec fn started(config: ConfigModel, events: Seq<EventModel>) -> nat
    decreases events.len(),
{
    if events.len() == 0 {
        0
    } else {
        let before = state_after(config, events.drop_last());
        let post = tokio_exporter::stepped(before, config, events.last()).post;
        started(config, events.drop_last()) + exporter::at_most_one(post).len()
    }
}

/// How many posts have been started and have not ended.
pub open spec fn running(config: ConfigModel, happenings: Seq<Happening<EventModel>>) -> int {
    started(config, runs::events_of(happenings)) - runs::ended(happenings)
}

/// Whether things happen as they do where every post holds one of so many permits until it ends:
/// every event is one that the loop was waiting for, a permit is granted if and only if one is
/// free, and the posts are drained when none is running.
pub open spec fn served(
    config: ConfigModel,
    permits: nat,
    happenings: Seq<Happening<EventModel>>,
) -> bool
    decreases happenings.len(),
{
    happenings.len() > 0 ==> {
        let before = happenings.drop_last();
        &&& served(config, permits, before)
        &&& match happenings.last() {
            Happening::Event(event) => {
                &&& tokio_exporter::expected(
                    state_after(config, runs::events_of(before)).phase,
                    event,
                )
                &&& event matches EventModel::Permit(granted) ==> granted == (running(
                    config,
                    before,
                ) < permits)
                &&& event == EventModel::Drained ==> running(config, before) == 0
            },
            Happening::Ended => running(config, before) > 0,
        }
    }
}

/// The events of what happens are a run.
proof fn lemma_served_is_run(
    config: ConfigModel,
    permits: nat,
    happenings: Seq<Happening<EventModel>>,
)
    requires
        served(config, permits, happenings),
    ensures
        run(config, runs::events_of(happenings)),
    decreases happenings.len(),
{
    if happenings.len() > 0 {
        lemma_served_is_run(config, permits, happenings.drop_last());
        if happenings.last() is Event {
            runs::lemma_last_event(happenings);
        }
    }
}

/// At every moment at most as many posts are running as there are permits.
pub proof fn lemma_running_bounded(
    config: ConfigModel,
    permits: nat,
    happenings: Seq<Happening<EventModel>>,
)
    requires
        served(config, permits, happenings),
    ensures
        0 <= running(config, happenings) <= permits,
    decreases happenings.len(),
{
    if happenings.len() > 0 {
        let before = happenings.drop_last();
        lemma_running_bounded(config, permits, before);
        match happenings.last() {
            Happening::Event(event) => {
                runs::lemma_last_event(happenings);
                lemma_served_is_run(config, permits, before);
                lemma_run_sound(config, runs::events_of(before));
                lemma_post_goes_to_its_url(
                    state_after(config, runs::events_of(before)),
                    config,
                    event,
                );
            },
            Happening::Ended => {},
        }
    }
}

/// How many signals have messages that wait.
pub open spec fn waiting(batches: BatchesModel) -> nat {
    (if batches.traces.len() > 0 {
        1nat
    } else {
        0
    }) + (if batches.logs.len() > 0 {
        1nat
    } else {
        0
    }) + (if batches.metrics.len() > 0 {
        1nat
    } else {
        0
    })
}

/// Settling adds no message.
proof fn lemma_settling_adds_none(batches: BatchesModel, config: ConfigModel, todo: Seq<Signal>)
    ensures
        waiting(tokio_exporter::settled(batches, config, todo).0) <= waiting(batches),
    decreases todo.len(),
{
    if todo.len() > 0 && !batch::postable(batches, config, todo[0]) {
        lemma_settling_adds_none(batch::emptied(batches, todo[0]), config, todo.skip(1));
    }
}

/// Where settling is through with every signal, no message waits.
proof fn lemma_settled_every(batches: BatchesModel, config: ConfigModel)
    ensures
        ({
            let (after, left) = tokio_exporter::settled(
                batches,
                config,
                tokio_exporter::every_signal(),
            );
            left.len() == 0 ==> after == batch::no_batches()
        }),
{
    reveal_with_fuel(tokio_exporter::settled, 4);
    let every = tokio_exporter::every_signal();
    assert(every.skip(1) =~= seq![Signal::Logs, Signal::Metrics]);
    assert(every.skip(1).skip(1) =~= seq![Signal::Metrics]);
    assert(every.skip(1).skip(1).skip(1) =~= seq![]);
    let (after, left) = tokio_exporter::settled(batches, config, every);
    if left.len() == 0 {
        assert(after =~= batch::no_batches());
    }
}

/// How a flush that is reported or ends the loop gets on where there is a permit: from its second
/// round on, which begins while no post is running, each round leaves one signal fewer waiting.
spec fn progress(state: LoopModel, running: int) -> bool {
    let used = MAX_FLUSH_ROUNDS - state.rounds;
    state.goal != Goal::Resume ==> {
        &&& state.phase == Phase::Acquiring ==> 0 <= used && (waiting(state.batches) + used <= 3
            || (running == 0 && waiting(state.batches) + used <= 4))
        &&& state.phase == Phase::Draining ==> 0 <= used && (waiting(state.batches) == 0
            || waiting(state.batches) + used <= 3)
        &&& state.phase == Phase::Yielding ==> 0 <= used && waiting(state.batches) > 0
            && waiting(state.batches) + used <= 3 && running == 0
    }
}

/// One event keeps up the progress of a flush.
proof fn lemma_step_makes_progress(
    state: LoopModel,
    config: ConfigModel,
    permits: nat,
    running: int,
    event: EventModel,
)
    requires
        permits > 0,
        0 <= running,
        tokio_exporter::sound(state, config),
        tokio_exporter::expected(state.phase, event),
        event matches EventModel::Permit(granted) ==> granted == (running < permits),
        event == EventModel::Drained ==> running == 0,
        progress(state, running),
    ensures
        ({
            let step = tokio_exporter::stepped(state, config, event);
            progress(step.state, running + exporter::at_most_one(step.post).len())
        }),
{
    match event {
        EventModel::Permit(granted) => {
            let first = state.todo[0];
            let rest = state.todo.skip(1);
            lemma_settling_adds_none(state.batches, config, rest);
            lemma_settling_adds_none(batch::emptied(state.batches, first), config, rest);
            assert(waiting(batch::emptied(state.batches, first)) == waiting(state.batches) - 1);
        },
        EventModel::Drained => {
            if waiting(state.batches) == 0 {
                assert(state.batches =~= batch::no_batches());
            }
        },
        _ => {
            lemma_settling_adds_none(state.batches, config, tokio_exporter::every_signal());
            lemma_settled_every(state.batches, config);
        },
    }
}

/// Every flush makes progress.
proof fn lemma_progress(
    config: ConfigModel,
    permits: nat,
    happenings: Seq<Happening<EventModel>>,
)
    requires
        permits > 0,
        served(config, permits, happenings),
    ensures
        progress(
            state_after(config, runs::events_of(happenings)),
            running(config, happenings),
        ),
    decreases happenings.len(),
{
    if happenings.len() > 0 {
        let before = happenings.drop_last();
        let state = state_after(config, runs::events_of(before));
        lemma_progress(config, permits, before);
        lemma_running_bounded(config, permits, before);
        lemma_served_is_run(config, permits, before);
        lemma_run_sound(config, runs::events_of(before));
        match happenings.last() {
            Happening::Event(event) => {
                runs::lemma_last_event(happenings);
                lemma_step_makes_progress(
                    state,
                    config,
                    permits,
                    running(config, before),
                    event,
                );
            },
            Happening::Ended => {},
        }
    }
}

/// A flush delivers everything: where there is a permit at all, then by the time that a flush or
/// a shutdown is reported, or that the loop ends because the channel did, no message waits, every
/// post has ended, and what was posted of a signal that has a URL is what came.
pub proof fn lemma_report_means_delivered(
    config: ConfigModel,
    permits: nat,
    happenings: Seq<Happening<EventModel>>,
    event: EventModel,
    signal: Signal,
)
    requires
        permits > 0,
        served(config, permits, happenings),
        happenings.len() > 0,
        happenings.last() == Happening::Event(event),
        reports(
            tokio_exporter::stepped(
                state_after(config, runs::events_of(happenings.drop_last())),
                config,
                event,
            ).action,
        ),
    ensures
        state_after(config, runs::events_of(happenings)).batches == batch::no_batches(),
        running(config, happenings) == 0,
        batch::url(config, signal) is Some ==> posted(
            config,
            runs::events_of(happenings),
            signal,
        ) == runs::received(runs::events_of(happenings), signal),
{
    let before = happenings.drop_last();
    let events = runs::events_of(happenings);
    runs::lemma_last_event(happenings);
    lemma_progress(config, permits, before);
    lemma_served_is_run(config, permits, before);
    lemma_served_is_run(config, permits, happenings);
    lemma_run_sound(config, runs::events_of(before));
    if batch::url(config, signal) is Some {
        lemma_posts_what_came(config, events, signal);
        assert(posted(config, events, signal) + payload::joined(
            batch::batch(state_after(config, events).batches, signal),
        ) =~= posted(config, events, signal));
    }
}

/// Whether the loop is on its way to its end.
pub open spec fn stopping(state: LoopModel) -> bool {
    &&& state.phase != Phase::Waiting
    &&& state.goal == Goal::ReportAndStop || state.goal == Goal::Stop
    &&& state.todo.len() <= 3
}

/// How many events the loop takes at most before it has stopped: in each round three requests for
/// a permit, the end of all posts and a turn of others.
pub open spec fn steps_left(state: LoopModel) -> nat {
    if state.phase == Phase::Stopped {
        0
    } else {
        state.rounds * 7 + distance(state).1
    }
}

/// A shutdown and the end of the channel end the loop: from then on it takes only so many more
/// events, none of them from the channel, before it has stopped.
pub proof fn lemma_shutdown_stops(config: ConfigModel, events: Seq<EventModel>, at: int)
    requires
        run(config, events),
        0 <= at < events.len(),
        events[at] == EventModel::Message(MessageModel::Shutdown) || events[at]
            == EventModel::Closed,
    ensures
        stopping(state_after(config, events)),
        events.len() - 1 - at + steps_left(state_after(config, events)) <= MAX_FLUSH_ROUNDS * 7
            + 6,
    decreases events.len(),
{
    let before = state_after(config, events.drop_last());
    lemma_run_sound(config, events.drop_last());
    if at < events.len() - 1 {
        lemma_shutdown_stops(config, events.drop_last(), at);
        lemma_settled(before.batches, config, before.todo.skip(1));
        lemma_settled(
            batch::emptied(before.batches, before.todo[0]),
            config,
            before.todo.skip(1),
        );
    }
    lemma_settled(before.batches, config, tokio_exporter::every_signal());
}

/// A message that does not fill its batch waits in it, and the loop waits on.
pub proof fn lemma_message_waits(
    state: LoopModel,
    config: ConfigModel,
    signal: Signal,
    bytes: Seq<u8>,
)
    requires
        state.phase == Phase::Waiting,
        batch::batch(state.batches, signal).len() + 1 < config.batch_size,
    ensures
        ({
            let event = EventModel::Message(MessageModel::Data { signal, bytes });
            let step = tokio_exporter::stepped(state, config, event);
            &&& step.post is None
            &&& step.action == Action::Wait
            &&& step.state.phase == Phase::Waiting
            &&& batch::batch(step.state.batches, signal) == batch::batch(
                state.batches,
                signal,
            ).push(bytes)
            &&& forall|other: Signal|
                other != signal ==> #[trigger] batch::batch(step.state.batches, other)
                    == batch::batch(state.batches, other)
        }),
{
}

/// A message that fills its batch makes the loop ask for a permit, and with the permit the batch
/// leaves with all its messages; other batches stay, and the loop waits on.
pub proof fn lemma_full_batch_is_posted(
    state: LoopModel,
    config: ConfigModel,
    signal: Signal,
    bytes: Seq<u8>,
    url: Seq<char>,
)
    requires
        state.phase == Phase::Waiting,
        batch::batch(state.batches, signal).len() + 1 >= config.batch_size,
        batch::url(config, signal) == Some(url),
    ensures
        ({
            let event = EventModel::Message(MessageModel::Data { signal, bytes });
            let asked = tokio_exporter::stepped(state, config, event);
            let granted = tokio_exporter::stepped(asked.state, config, EventModel::Permit(true));
            &&& asked.post is None
            &&& asked.action == Action::TryPermit
            &&& asked.state.phase == Phase::Acquiring
            &&& granted.post matches Some(post)
            &&& post.url == url
            &&& post.payload == payload::joined(batch::batch(state.batches, signal)) + bytes
            &&& granted.action == Action::Wait
            &&& granted.state.phase == Phase::Waiting
            &&& batch::batch(granted.state.batches, signal).len() == 0
            &&& forall|other: Signal|
                other != signal ==> #[trigger] batch::batch(granted.state.batches, other)
                    == batch::batch(state.batches, other)
        }),
{
    payload::lemma_joined(batch::batch(state.batches, signal), bytes);
    assert(seq![signal].skip(1) =~= seq![]);
}

/// A batch of a signal without a URL is discarded when it is full.
pub proof fn lemma_full_batch_without_url(
    state: LoopModel,
    config: ConfigModel,
    signal: Signal,
    bytes: Seq<u8>,
)
    requires
        state.phase == Phase::Waiting,
        batch::batch(state.batches, signal).len() + 1 >= config.batch_size,
        batch::url(config, signal) is None,
    ensures
        ({
            let event = EventModel::Message(MessageModel::Data { signal, bytes });
            let step = tokio_exporter::stepped(state, config, event);
            &&& step.post is None
            &&& step.action == Action::Wait
            &&& step.state.phase == Phase::Waiting
            &&& batch::batch(step.state.batches, signal).len() == 0
        }),
{
    reveal_with_fuel(tokio_exporter::settled, 2);
    assert(seq![signal].skip(1) =~= seq![]);
}

/// A granted permit posts the first batch that is left to flush, with all its messages.
pub proof fn lemma_permit_posts_batch(state: LoopModel, config: ConfigModel)
    requires
        tokio_exporter::sound(state, config),
        state.phase == Phase::Acquiring,
    ensures
        ({
            let step = tokio_exporter::stepped(state, config, EventModel::Permit(true));
            &&& step.post matches Some(post)
            &&& batch::url(config, state.todo[0]) == Some(post.url)
            &&& post.payload == payload::joined(batch::batch(state.batches, state.todo[0]))
            &&& batch::batch(step.state.batches, state.todo[0]).len() == 0
        }),
{
    lemma_emptied_stays_empty(
        batch::emptied(state.batches, state.todo[0]),
        config,
        state.todo.skip(1),
        state.todo[0],
    );
}

/// Settling leaves an empty batch empty.
proof fn lemma_emptied_stays_empty(
    batches: BatchesModel,
    config: ConfigModel,
    todo: Seq<Signal>,
    signal: Signal,
)
    requires
        batch::batch(batches, signal).len() == 0,
    ensures
        batch::batch(tokio_exporter::settled(batches, config, todo).0, signal).len() == 0,
    decreases todo.len(),
{
    if todo.len() > 0 && !batch::postable(batches, config, todo[0]) {
        lemma_emptied_stays_empty(
            batch::emptied(batches, todo[0]),
            config,
            todo.skip(1),
            signal,
        );
    }
}

/// Whether every message that waits is one of a signal that is left to flush.
pub open spec fn all_left_to_flush(state: LoopModel) -> bool {
    forall|signal: Signal|
        (#[trigger] batch::batch(state.batches, signal)).len() > 0 ==> state.todo.contains(signal)
}

/// Settling passes over batches only once they are empty.
proof fn lemma_settling_leaves_none_behind(
    batches: BatchesModel,
    config: ConfigModel,
    todo: Seq<Signal>,
)
    requires
        forall|signal: Signal|
            (#[trigger] batch::batch(batches, signal)).len() > 0 ==> todo.contains(signal),
    ensures
        ({
            let (after, left) = tokio_exporter::settled(batches, config, todo);
            forall|signal: Signal|
                (#[trigger] batch::batch(after, signal)).len() > 0 ==> left.contains(signal)
        }),
    decreases todo.len(),
{
    if todo.len() > 0 && !batch::postable(batches, config, todo[0]) {
        let rest = batch::emptied(batches, todo[0]);
        assert forall|signal: Signal| (#[trigger] batch::batch(rest, signal)).len()
            > 0 implies todo.skip(1).contains(signal) by {
            assert(batch::batch(batches, signal).len() > 0);
            let i = choose|i: int| 0 <= i < todo.len() && todo[i] == signal;
            assert(todo.skip(1)[i - 1] == signal);
        }
        lemma_settling_leaves_none_behind(rest, config, todo.skip(1));
        assert(tokio_exporter::settled(batches, config, todo) == tokio_exporter::settled(
            rest,
            config,
            todo.skip(1),
        ));
    } else {
        assert(tokio_exporter::settled(batches, config, todo) == (batches, todo));
    }
}

/// A tick of the flush interval, a request and the end of the channel each flush every signal: no
/// message waits that is not left to flush, and none of what is left goes missing while permits
/// are granted.
pub proof fn lemma_flush_takes_every_signal(
    state: LoopModel,
    config: ConfigModel,
    event: EventModel,
)
    requires
        tokio_exporter::expected(state.phase, event),
        tokio_exporter::sound(state, config),
        event == EventModel::Tick || event == EventModel::Closed || event == EventModel::Message(
            MessageModel::Flush,
        ) || event == EventModel::Message(MessageModel::Shutdown) || (event == EventModel::Permit(
            true,
        ) && all_left_to_flush(state)),
    ensures
        all_left_to_flush(tokio_exporter::stepped(state, config, event).state),
{
    if event == EventModel::Permit(true) {
        let first = state.todo[0];
        let rest = batch::emptied(state.batches, first);
        assert forall|signal: Signal| (#[trigger] batch::batch(rest, signal)).len()
            > 0 implies state.todo.skip(1).contains(signal) by {
            assert(batch::batch(state.batches, signal).len() > 0);
            let i = choose|i: int| 0 <= i < state.todo.len() && state.todo[i] == signal;
            assert(state.todo.skip(1)[i - 1] == signal);
        }
        lemma_settling_leaves_none_behind(rest, config, state.todo.skip(1));
    } else {
        let every = tokio_exporter::every_signal();
        assert(every[0] == Signal::Traces && every[1] == Signal::Logs && every[2]
            == Signal::Metrics);
        lemma_settling_leaves_none_behind(state.batches, config, every);
    }
}

/// When a flush of every signal is through with its signals, no message waits; a flush for a tick
/// then goes back to waiting, any other waits for the end of all posts.
pub proof fn lemma_flush_through_means_none_waits(
    state: LoopModel,
    config: ConfigModel,
    event: EventModel,
)
    requires
        tokio_exporter::expected(state.phase, event),
        tokio_exporter::sound(state, config),
        event == EventModel::Tick || event == EventModel::Closed || event == EventModel::Message(
            MessageModel::Flush,
        ) || event == EventModel::Message(MessageModel::Shutdown) || (event == EventModel::Permit(
            true,
        ) && all_left_to_flush(state)),
    ensures
        ({
            let step = tokio_exporter::stepped(state, config, event);
            &&& step.state.phase == Phase::Acquiring || step.state.phase == Phase::Waiting
                || step.state.phase == Phase::Draining
            &&& step.state.phase == Phase::Acquiring ==> step.action == Action::TryPermit
            &&& step.state.phase == Phase::Waiting ==> step.action == Action::Wait
            &&& step.state.phase == Phase::Draining ==> step.action == Action::Drain
            &&& step.state.phase != Phase::Acquiring ==> step.state.batches == batch::no_batches()
            &&& event == EventModel::Tick ==> step.state.phase != Phase::Draining
                && step.state.goal == Goal::Resume
            &&& event == EventModel::Message(MessageModel::Flush) ==> step.state.phase
                != Phase::Waiting && step.state.goal == Goal::ReportAndWait
            &&& event == EventModel::Message(MessageModel::Shutdown) ==> step.state.phase
                != Phase::Waiting && step.state.goal == Goal::ReportAndStop
            &&& event == EventModel::Closed ==> step.state.phase != Phase::Waiting
                && step.state.goal == Goal::Stop
        }),
{
    lemma_flush_takes_every_signal(state, config, event);
    let after = tokio_exporter::stepped(state, config, event).state;
    if after.phase != Phase::Acquiring {
        assert(after.todo.len() == 0);
        assert(batch::batch(after.batches, Signal::Traces).len() == 0);
        assert(batch::batch(after.batches, Signal::Logs).len() == 0);
        assert(batch::batch(after.batches, Signal::Metrics).len() == 0);
        assert(after.batches =~= batch::no_batches());
    }
}

/// Once all posts are done and no message waits, a request is reported, and the loop stops after
/// a shutdown or the end of the channel.
pub proof fn lemma_drained_flush_is_reported(state: LoopModel, config: ConfigModel)
    requires
        state.phase == Phase::Draining,
        state.batches == batch::no_batches(),
    ensures
        ({
            let step = tokio_exporter::stepped(state, config, EventModel::Drained);
            &&& step.post is None
            &&& state.goal == Goal::ReportAndWait ==> step.action == Action::ReportAndWait
                && step.state.phase == Phase::Waiting
            &&& state.goal == Goal::ReportAndStop ==> step.action == Action::ReportAndStop
                && step.state.phase == Phase::Stopped
            &&& state.goal == Goal::Stop ==> step.action == Action::Stop && step.state.phase
                == Phase::Stopped
        }),
{
}

/// All posts that are started during a run of events, in order.
pub open spec fn all_posts(config: ConfigModel, events: Seq<EventModel>) -> Seq<PostModel>
    decreases events.len(),
{
    if events.len() == 0 {
        seq![]
    } else {
        all_posts(config, events.drop_last()) + exporter::at_most_one(
            tokio_exporter::stepped(
                state_after(config, events.drop_last()),
                config,
                events.last(),
            ).post,
        )
    }
}

/// Where a signal shares its URL with no other, what was posted to it and then what still waits
/// is what came of the signal, over any run of events.
pub proof fn lemma_url_gets_what_came(
    config: ConfigModel,
    events: Seq<EventModel>,
    signal: Signal,
    url: Seq<char>,
)
    requires
        forall|other: Signal|
            (#[trigger] batch::url(config, other) == Some(url)) == (other == signal),
        run(config, events),
    ensures
        monoio_exporter_laws::payloads_to(all_posts(config, events), url) + payload::joined(
            batch::batch(state_after(config, events).batches, signal),
        ) == runs::received(events, signal),
{
    assert((batch::url(config, signal) == Some(url)) == (signal == signal));
    lemma_posts_what_came(config, events, signal);
    lemma_posted_by_url(config, events, signal, url);
}

proof fn lemma_posted_by_url(
    config: ConfigModel,
    events: Seq<EventModel>,
    signal: Signal,
    url: Seq<char>,
)
    requires
        forall|other: Signal|
            (#[trigger] batch::url(config, other) == Some(url)) == (other == signal),
        run(config, events),
    ensures
        monoio_exporter_laws::payloads_to(all_posts(config, events), url) == posted(
            config,
            events,
            signal,
        ),
    decreases events.len(),
{
    if events.len() > 0 {
        let init = events.drop_last();
        let before = state_after(config, init);
        let event = events.last();
        let post = tokio_exporter::stepped(before, config, event).post;
        lemma_posted_by_url(config, init, signal, url);
        lemma_run_sound(config, init);
        lemma_post_goes_to_its_url(before, config, event);
        monoio_exporter_laws::lemma_payloads_to_concat(
            all_posts(config, init),
            exporter::at_most_one(post),
            url,
        );
        monoio_exporter_laws::lemma_payload_to_one(post, url);
        if post is Some {
            let from = leaver(before, event)->0;
            assert((batch::url(config, from) == Some(url)) == (from == signal));
        }
    }
}

/// A signal whose batch can be posted is not passed over.
proof fn lemma_settling_stops(
    batches: BatchesModel,
    config: ConfigModel,
    todo: Seq<Signal>,
    signal: Signal,
)
    requires
        todo.contains(signal),
        batch::postable(batches, config, signal),
    ensures
        tokio_exporter::settled(batches, config, todo).1.len() > 0,
    decreases todo.len(),
{
    if todo.len() > 0 && !batch::postable(batches, config, todo[0]) {
        let i = choose|i: int| 0 <= i < todo.len() && todo[i] == signal;
        assert(todo.skip(1)[i - 1] == signal);
        let rest = batch::emptied(batches, todo[0]);
        assert(batch::batch(rest, signal) == batch::batch(batches, signal));
        lemma_settling_stops(rest, config, todo.skip(1), signal);
        assert(tokio_exporter::settled(batches, config, todo) == tokio_exporter::settled(
            rest,
            config,
            todo.skip(1),
        ));
    }
}

/// A flush gets 64 rounds, which permits do not use up.
pub proof fn lemma_rounds_of_a_flush(state: LoopModel, config: ConfigModel, granted: bool)
    ensures
        tokio_exporter::stepped(state, config, EventModel::Message(MessageModel::Flush)).state.rounds
            == 64,
        tokio_exporter::stepped(
            state,
            config,
            EventModel::Message(MessageModel::Shutdown),
        ).state.rounds == 64,
        tokio_exporter::stepped(state, config, EventModel::Closed).state.rounds == 64,
        tokio_exporter::stepped(state, config, EventModel::Permit(granted)).state.rounds
            == state.rounds,
        tokio_exporter::stepped(state, config, EventModel::Drained).state.rounds == state.rounds,
{
}

/// A flush whose posts are done but that leaves a message waiting gives way to other tasks, and
/// keeps the message.
pub proof fn lemma_waiting_message_begins_another_round(
    state: LoopModel,
    config: ConfigModel,
    signal: Signal,
)
    requires
        batch::batch(state.batches, signal).len() > 0,
    ensures
        ({
            let step = tokio_exporter::stepped(state, config, EventModel::Drained);
            &&& step.action == Action::Yield
            &&& step.state.phase == Phase::Yielding
            &&& step.state.batches == state.batches
            &&& step.state.goal == state.goal
            &&& step.post is None
        }),
{
    assert(batch::batch(batch::no_batches(), signal).len() == 0);
}

/// After giving way a flush tries again for whatever still waits and has a URL, in one round less;
/// with its last round used up it ends as it was to end.
pub proof fn lemma_another_round(state: LoopModel, config: ConfigModel, signal: Signal)
    requires
        state.rounds > 0,
    ensures
        ({
            let step = tokio_exporter::stepped(state, config, EventModel::Yielded);
            &&& step.post is None
            &&& step.state.rounds == state.rounds - 1
            &&& step.state.goal == state.goal
            &&& state.rounds > 1 && batch::batch(state.batches, signal).len() > 0 && batch::url(
                config,
                signal,
            ) is Some ==> step.action == Action::TryPermit && step.state.phase == Phase::Acquiring
            &&& state.rounds == 1 ==> step.state.batches == state.batches
            &&& state.rounds == 1 && state.goal == Goal::ReportAndWait ==> step.action
                == Action::ReportAndWait && step.state.phase == Phase::Waiting
            &&& state.rounds == 1 && state.goal == Goal::ReportAndStop ==> step.action
                == Action::ReportAndStop && step.state.phase == Phase::Stopped
            &&& state.rounds == 1 && state.goal == Goal::Stop ==> step.action == Action::Stop
                && step.state.phase == Phase::Stopped
        }),
{
    if batch::batch(state.batches, signal).len() > 0 && batch::url(config, signal) is Some {
        let todo = tokio_exporter::every_signal();
        assert(todo[0] == Signal::Traces && todo[1] == Signal::Logs && todo[2] == Signal::Metrics);
        assert(todo.contains(signal));
        assert(batch::postable(state.batches, config, signal));
        lemma_settling_stops(state.batches, config, todo, signal);
    }
}

/// A batch that has a URL is left alone between its posts, however often the flush tries.
pub proof fn lemma_another_round_keeps_batches(state: LoopModel, config: ConfigModel, signal: Signal)
    requires
        state.rounds > 0,
        batch::url(config, signal) is Some,
    ensures
        batch::batch(
            tokio_exporter::stepped(state, config, EventModel::Yielded).state.batches,
            signal,
        ) == batch::batch(state.batches, signal),
{
    lemma_settling_keeps_posted(state.batches, config, tokio_exporter::every_signal(), signal);
}

/// Settling empties a batch with a URL only where it is empty already.
proof fn lemma_settling_keeps_posted(
    batches: BatchesModel,
    config: ConfigModel,
    todo: Seq<Signal>,
    signal: Signal,
)
    requires
        batch::url(config, signal) is Some,
    ensures
        batch::batch(tokio_exporter::settled(batches, config, todo).0, signal) == batch::batch(
            batches,
            signal,
        ),
    decreases todo.len(),
{
    if todo.len() > 0 && !batch::postable(batches, config, todo[0]) {
        let rest = batch::emptied(batches, todo[0]);
        assert(batch::batch(rest, signal) =~= batch::batch(batches, signal));
        lemma_settling_keeps_posted(rest, config, todo.skip(1), signal);
        assert(tokio_exporter::settled(batches, config, todo) == tokio_exporter::settled(
            rest,
            config,
            todo.skip(1),
        ));
    }
}

} // verus!
