//! What holds of the exporter on monoio over any run of events.
use vstd::prelude::*;

use crate::batch;
use crate::batch::{ConfigModel, PostModel, Signal};
use crate::exporter;
use crate::exporter_laws;
use crate::monoio_exporter;
use crate::monoio_exporter::{
    ActionModel, ControlMessage, DataModel, EventModel, Goal, LimitsModel, LoopModel, Phase,
};
use crate::payload;
use crate::runs;
use crate::runs::Happening;

verus! {

/// Whether an event flushes every batch: a request for which the channel has been drained, the
/// end of the channel, or a round that ends after the flush interval.
pub open spec fn flushes(state: LoopModel, limits: LimitsModel, event: EventModel) -> bool {
    match event {
        EventModel::Empty | EventModel::Disconnected => state.phase == Phase::DrainingAll,
        EventModel::Control(None) => state.disconnected || state.since_flush
            >= limits.flush_nanos,
        _ => false,
    }
}

/// The post in which the batch of a signal joins the queue on an event.
pub open spec fn joining(
    state: LoopModel,
    limits: LimitsModel,
    event: EventModel,
    signal: Signal,
) -> Option<PostModel> {
    match event {
        EventModel::Message(data) => {
            let more = batch::pushed(state.batches, data.signal, data.bytes);
            if data.signal == signal && batch::full(more, limits.config, signal) {
                batch::post(more, limits.config, signal)
            } else {
                None
            }
        },
        _ => if flushes(state, limits, event) {
            batch::post(state.batches, limits.config, signal)
        } else {
            None
        },
    }
}

/// The posts that join the queue on an event, in order.
pub open spec fn all_joining(
    state: LoopModel,
    limits: LimitsModel,
    event: EventModel,
) -> Seq<PostModel> {
    exporter::at_most_one(joining(state, limits, event, Signal::Traces)) + exporter::at_most_one(
        joining(state, limits, event, Signal::Logs),
    ) + exporter::at_most_one(joining(state, limits, event, Signal::Metrics))
}

/// Joining the queue keeps its order and drops from its front.
proof fn lemma_queued(pending: Seq<PostModel>, max_pending: nat, post: Option<PostModel>)
    requires
        max_pending > 0,
    ensures
        ({
            let (after, dropped) = monoio_exporter::queued(pending, max_pending, post);
            &&& dropped <= pending.len()
            &&& after == (pending + exporter::at_most_one(post)).skip(dropped as int)
        }),
{
    let (after, dropped) = monoio_exporter::queued(pending, max_pending, post);
    assert(after =~= (pending + exporter::at_most_one(post)).skip(dropped as int));
}

/// Joining twice is joining with both.
proof fn lemma_skip_twice(
    pending: Seq<PostModel>,
    a: Seq<PostModel>,
    b: Seq<PostModel>,
    first: nat,
    second: nat,
)
    requires
        first <= pending.len() + a.len(),
        second <= pending.len() + a.len() - first,
    ensures
        ((pending + a).skip(first as int) + b).skip(second as int) == (pending + (a + b)).skip(
            (first + second) as int,
        ),
{
    assert(((pending + a).skip(first as int) + b).skip(second as int) =~= (pending + (a
        + b)).skip((first + second) as int));
}

/// Three posts that join one after the other.
proof fn lemma_three_queued(
    pending: Seq<PostModel>,
    max_pending: nat,
    traces: Option<PostModel>,
    logs: Option<PostModel>,
    metrics: Option<PostModel>,
)
    requires
        max_pending > 0,
    ensures
        ({
            let (one, a) = monoio_exporter::queued(pending, max_pending, traces);
            let (two, b) = monoio_exporter::queued(one, max_pending, logs);
            let (three, c) = monoio_exporter::queued(two, max_pending, metrics);
            let joined = exporter::at_most_one(traces) + exporter::at_most_one(logs)
                + exporter::at_most_one(metrics);
            &&& a + b + c <= pending.len() + joined.len()
            &&& three == (pending + joined).skip((a + b + c) as int)
        }),
{
    let (one, a) = monoio_exporter::queued(pending, max_pending, traces);
    let (two, b) = monoio_exporter::queued(one, max_pending, logs);
    let t = exporter::at_most_one(traces);
    let l = exporter::at_most_one(logs);
    let m = exporter::at_most_one(metrics);
    let c = monoio_exporter::queued(two, max_pending, metrics).1;
    lemma_queued(pending, max_pending, traces);
    lemma_queued(one, max_pending, logs);
    lemma_queued(two, max_pending, metrics);
    lemma_skip_twice(pending, t, l, a, b);
    lemma_skip_twice(pending, t + l, m, a + b, c);
}

/// Posts leave the queue oldest first, by being started or by being dropped, and join it at its
/// end: the post that an event starts and then the queue that it leaves are the queue that was
/// there and then the posts that joined, without the dropped ones at the front.
pub proof fn lemma_queue_keeps_order(state: LoopModel, limits: LimitsModel, event: EventModel)
    requires
        limits.max_pending > 0,
        monoio_exporter::expected(state.phase, event),
    ensures
        ({
            let step = monoio_exporter::stepped(state, limits, event);
            &&& step.dropped <= state.pending.len() + all_joining(state, limits, event).len()
            &&& exporter::at_most_one(step.post) + step.state.pending == (state.pending
                + all_joining(state, limits, event)).skip(step.dropped as int)
        }),
{
    let step = monoio_exporter::stepped(state, limits, event);
    let joined = all_joining(state, limits, event);
    assert(exporter::at_most_one(None) + step.state.pending =~= step.state.pending);
    if event is Message {
        let data = event->Message_0;
        let more = batch::pushed(state.batches, data.signal, data.bytes);
        let post = if batch::full(more, limits.config, data.signal) {
            batch::post(more, limits.config, data.signal)
        } else {
            None
        };
        lemma_queued(state.pending, limits.max_pending, post);
        assert(joined =~= exporter::at_most_one(post));
    } else if flushes(state, limits, event) {
        lemma_three_queued(
            state.pending,
            limits.max_pending,
            batch::post(state.batches, limits.config, Signal::Traces),
            batch::post(state.batches, limits.config, Signal::Logs),
            batch::post(state.batches, limits.config, Signal::Metrics),
        );
    } else {
        assert(joined =~= seq![]);
        assert((state.pending + joined).skip(0) =~= state.pending);
        if step.post is Some {
            assert(seq![state.pending[0]] + state.pending.skip(1) =~= state.pending);
        }
    }
}

/// One event neither loses nor reorders a byte on the way from a batch with a URL to the queue:
/// the payload that joins the queue and then what stays are what was there and then what came.
pub proof fn lemma_batches_keep_bytes(
    state: LoopModel,
    limits: LimitsModel,
    event: EventModel,
    signal: Signal,
)
    requires
        batch::url(limits.config, signal) is Some,
        monoio_exporter::expected(state.phase, event),
    ensures
        (match joining(state, limits, event, signal) {
            Some(post) => post.payload,
            None => seq![],
        }) + payload::joined(
            batch::batch(monoio_exporter::stepped(state, limits, event).state.batches, signal),
        ) == payload::joined(batch::batch(state.batches, signal)) + runs::arriving(event, signal),
{
    let here = batch::batch(state.batches, signal);
    let after = batch::batch(
        monoio_exporter::stepped(state, limits, event).state.batches,
        signal,
    );
    let left: Seq<u8> = match joining(state, limits, event, signal) {
        Some(post) => post.payload,
        None => seq![],
    };
    match event {
        EventModel::Message(data) => {
            if data.signal == signal {
                assert(here.push(data.bytes).drop_last() =~= here);
            }
        },
        _ => {},
    }
    assert(left + payload::joined(after) =~= payload::joined(here) + runs::arriving(event, signal));
}

/// The state after a run of events.
pub open spec fn state_after(limits: LimitsModel, events: Seq<EventModel>) -> LoopModel
    decreases events.len(),
{
    if events.len() == 0 {
        monoio_exporter::start()
    } else {
        monoio_exporter::stepped(
            state_after(limits, events.drop_last()),
            limits,
            events.last(),
        ).state
    }
}

/// Whether every event of a run is one that the loop was waiting for.
pub open spec fn run(limits: LimitsModel, events: Seq<EventModel>) -> bool
    decreases events.len(),
{
    events.len() > 0 ==> {
        &&& run(limits, events.drop_last())
        &&& monoio_exporter::expected(
            state_after(limits, events.drop_last()).phase,
            events.last(),
        )
    }
}

/// How many posts joined the queue, were started and were dropped during a run of events.
pub open spec fn tally(limits: LimitsModel, events: Seq<EventModel>) -> (nat, nat, nat)
    decreases events.len(),
{
    if events.len() == 0 {
        (0, 0, 0)
    } else {
        let before = state_after(limits, events.drop_last());
        let step = monoio_exporter::stepped(before, limits, events.last());
        let (joined, started, dropped) = tally(limits, events.drop_last());
        (
            joined + all_joining(before, limits, events.last()).len(),
            started + exporter::at_most_one(step.post).len(),
            dropped + step.dropped,
        )
    }
}

/// Every state that a run reaches is sound; in particular the queue never holds more posts than
/// its bound.
pub proof fn lemma_run_sound(limits: LimitsModel, events: Seq<EventModel>)
    requires
        limits.max_pending > 0,
        run(limits, events),
    ensures
        monoio_exporter::sound(state_after(limits, events), limits),
    decreases events.len(),
{
    if events.len() > 0 {
        lemma_run_sound(limits, events.drop_last());
        monoio_exporter::lemma_step_sound(
            state_after(limits, events.drop_last()),
            limits,
            events.last(),
        );
    }
}

/// Every post that ever joined the queue has been started, or has been dropped and counted, or
/// is still waiting.
pub proof fn lemma_every_post_accounted_for(limits: LimitsModel, events: Seq<EventModel>)
    requires
        limits.max_pending > 0,
        run(limits, events),
    ensures
        ({
            let (joined, started, dropped) = tally(limits, events);
            joined == started + dropped + state_after(limits, events).pending.len()
        }),
    decreases events.len(),
{
    if events.len() > 0 {
        let before = state_after(limits, events.drop_last());
        lemma_every_post_accounted_for(limits, events.drop_last());
        lemma_queue_keeps_order(before, limits, events.last());
        let step = monoio_exporter::stepped(before, limits, events.last());
        assert((exporter::at_most_one(step.post) + step.state.pending).len()
            == exporter::at_most_one(step.post).len() + step.state.pending.len());
        assert((before.pending + all_joining(before, limits, events.last())).skip(
            step.dropped as int,
        ).len() == before.pending.len() + all_joining(before, limits, events.last()).len()
            - step.dropped);
    }
}

/// Whether an action reports a request or ends the loop.
pub open spec fn reports(action: ActionModel) -> bool {
    action is ReportAndCheckControl || action is ReportAndStop || action is Stop
}

/// A request is reported, and the loop stops, only when nothing waits and nothing runs.
pub proof fn lemma_report_means_done(state: LoopModel, limits: LimitsModel, event: EventModel)
    requires
        monoio_exporter::sound(state, limits),
        monoio_exporter::expected(state.phase, event),
        limits.max_running > 0,
        reports(monoio_exporter::stepped(state, limits, event).action),
    ensures
        event == EventModel::InFlight(0),
        state.pending.len() == 0,
        state.batches == batch::no_batches(),
{
}

/// Requests are never starved: between two looks for one, at most as many messages are taken as
/// the quota allows, unless a request is being served.
pub proof fn lemma_quota(state: LoopModel, limits: LimitsModel, data: DataModel)
    requires
        monoio_exporter::sound(state, limits),
        state.phase == Phase::Draining,
    ensures
        ({
            let step = monoio_exporter::stepped(state, limits, EventModel::Message(data));
            &&& step.state.left == state.left - 1
            &&& step.state.left > 0 ==> step.state.phase == Phase::Draining
            &&& step.state.left == 0 ==> step.action == ActionModel::CheckControl
        }),
{
}

/// A post in the queue, with the signal whose batch it holds.
pub struct Parcel {
    pub signal: Signal,
    pub post: PostModel,
}

/// A sequence of the parcel, if there is a post.
pub open spec fn parcel(signal: Signal, post: Option<PostModel>) -> Seq<Parcel> {
    match post {
        Some(post) => seq![Parcel { signal, post }],
        None => seq![],
    }
}

/// The parcels that join the queue on an event, in order.
pub open spec fn joining_parcels(
    state: LoopModel,
    limits: LimitsModel,
    event: EventModel,
) -> Seq<Parcel> {
    parcel(Signal::Traces, joining(state, limits, event, Signal::Traces)) + parcel(
        Signal::Logs,
        joining(state, limits, event, Signal::Logs),
    ) + parcel(Signal::Metrics, joining(state, limits, event, Signal::Metrics))
}

/// All parcels that ever joined the queue during a run of events, in order.
pub open spec fn parcels(limits: LimitsModel, events: Seq<EventModel>) -> Seq<Parcel>
    decreases events.len(),
{
    if events.len() == 0 {
        seq![]
    } else {
        parcels(limits, events.drop_last()) + joining_parcels(
            state_after(limits, events.drop_last()),
            limits,
            events.last(),
        )
    }
}

/// The posts of parcels.
pub open spec fn posts_of(parcels: Seq<Parcel>) -> Seq<PostModel> {
    parcels.map_values(|parcel: Parcel| parcel.post)
}

/// The payloads of the parcels of a signal, laid end to end.
pub open spec fn payloads(parcels: Seq<Parcel>, signal: Signal) -> Seq<u8>
    decreases parcels.len(),
{
    if parcels.len() == 0 {
        seq![]
    } else {
        payloads(parcels.drop_last(), signal) + (if parcels.last().signal == signal {
            parcels.last().post.payload
        } else {
            seq![]
        })
    }
}

/// The payloads of the posts to a URL, laid end to end.
pub open spec fn payloads_to(posts: Seq<PostModel>, url: Seq<char>) -> Seq<u8>
    decreases posts.len(),
{
    if posts.len() == 0 {
        seq![]
    } else {
        payloads_to(posts.drop_last(), url) + (if posts.last().url == url {
            posts.last().payload
        } else {
            seq![]
        })
    }
}

/// The posts that are started during a run of events, in order.
pub open spec fn started(limits: LimitsModel, events: Seq<EventModel>) -> Seq<PostModel>
    decreases events.len(),
{
    if events.len() == 0 {
        seq![]
    } else {
        let before = state_after(limits, events.drop_last());
        started(limits, events.drop_last()) + exporter::at_most_one(
            monoio_exporter::stepped(before, limits, events.last()).post,
        )
    }
}

/// How many posts are dropped from the queue during a run of events.
pub open spec fn dropped(limits: LimitsModel, events: Seq<EventModel>) -> nat {
    tally(limits, events).2
}

/// The payloads of parcels and then of others are those of all of them.
proof fn lemma_payloads_concat(a: Seq<Parcel>, b: Seq<Parcel>, signal: Signal)
    ensures
        payloads(a + b, signal) == payloads(a, signal) + payloads(b, signal),
    decreases b.len(),
{
    if b.len() == 0 {
        assert(a + b =~= a);
        assert(payloads(a, signal) + payloads(b, signal) =~= payloads(a, signal));
    } else {
        lemma_payloads_concat(a, b.drop_last(), signal);
        assert((a + b).drop_last() =~= a + b.drop_last());
        assert(payloads(a + b, signal) =~= payloads(a, signal) + payloads(b, signal));
    }
}

/// The payloads of at most one parcel.
proof fn lemma_payload_of_one(from: Signal, post: Option<PostModel>, signal: Signal)
    ensures
        payloads(parcel(from, post), signal) == (match post {
            Some(post) => if from == signal {
                post.payload
            } else {
                seq![]
            },
            None => seq![],
        }),
{
    if post is Some {
        let one = parcel(from, post);
        assert(payloads(one.drop_last(), signal) =~= seq![]);
        assert(payloads(one, signal) =~= (if from == signal {
            post->0.payload
        } else {
            seq![]
        }));
    }
}

/// The payload of a signal that joins the queue on an event.
proof fn lemma_joining_payload(
    state: LoopModel,
    limits: LimitsModel,
    event: EventModel,
    signal: Signal,
)
    ensures
        payloads(joining_parcels(state, limits, event), signal) == (match joining(
            state,
            limits,
            event,
            signal,
        ) {
            Some(post) => post.payload,
            None => seq![],
        }),
{
    let traces = joining(state, limits, event, Signal::Traces);
    let logs = joining(state, limits, event, Signal::Logs);
    let metrics = joining(state, limits, event, Signal::Metrics);
    let a = parcel(Signal::Traces, traces);
    let b = parcel(Signal::Logs, logs);
    let c = parcel(Signal::Metrics, metrics);
    lemma_payload_of_one(Signal::Traces, traces, signal);
    lemma_payload_of_one(Signal::Logs, logs, signal);
    lemma_payload_of_one(Signal::Metrics, metrics, signal);
    lemma_payloads_concat(a, b, signal);
    lemma_payloads_concat(a + b, c, signal);
    let here: Seq<u8> = match joining(state, limits, event, signal) {
        Some(post) => post.payload,
        None => seq![],
    };
    assert(payloads(a, signal) + payloads(b, signal) + payloads(c, signal) =~= here);
}

/// What moves on from what waits to what has left keeps its place.
proof fn lemma_moves_on<T>(
    left: Seq<T>,
    leaving: Seq<T>,
    waits: Seq<T>,
    waited: Seq<T>,
    came: Seq<T>,
)
    requires
        leaving + waits == waited + came,
    ensures
        (left + leaving) + waits == (left + waited) + came,
{
    assert((left + leaving) + waits =~= left + (leaving + waits));
    assert(left + (waited + came) =~= (left + waited) + came);
}

/// A signal that has a URL loses nothing and keeps its order on the way to the queue: over any
/// run of events, the payloads that joined it and then the messages that wait for their batch to
/// leave are what came.
pub proof fn lemma_queues_what_came(
    limits: LimitsModel,
    events: Seq<EventModel>,
    signal: Signal,
)
    requires
        batch::url(limits.config, signal) is Some,
        run(limits, events),
    ensures
        payloads(parcels(limits, events), signal) + payload::joined(
            batch::batch(state_after(limits, events).batches, signal),
        ) == runs::received(events, signal),
    decreases events.len(),
{
    if events.len() == 0 {
        assert(payloads(parcels(limits, events), signal) + payload::joined(
            batch::batch(state_after(limits, events).batches, signal),
        ) =~= seq![]);
    } else {
        let init = events.drop_last();
        let before = state_after(limits, init);
        let event = events.last();
        lemma_queues_what_came(limits, init, signal);
        lemma_batches_keep_bytes(before, limits, event, signal);
        lemma_joining_payload(before, limits, event, signal);
        lemma_payloads_concat(
            parcels(limits, init),
            joining_parcels(before, limits, event),
            signal,
        );
        lemma_moves_on(
            payloads(parcels(limits, init), signal),
            payloads(joining_parcels(before, limits, event), signal),
            payload::joined(batch::batch(state_after(limits, events).batches, signal)),
            payload::joined(batch::batch(before.batches, signal)),
            runs::arriving(event, signal),
        );
    }
}

/// The posts of the parcels that join are the posts that join.
proof fn lemma_joining_posts(state: LoopModel, limits: LimitsModel, event: EventModel)
    ensures
        posts_of(joining_parcels(state, limits, event)) == all_joining(state, limits, event),
{
    assert(posts_of(joining_parcels(state, limits, event)) =~= all_joining(state, limits, event));
}

/// The posts of parcels and then of others are those of all of them.
proof fn lemma_posts_concat(a: Seq<Parcel>, b: Seq<Parcel>)
    ensures
        posts_of(a + b) == posts_of(a) + posts_of(b),
{
    assert(posts_of(a + b) =~= posts_of(a) + posts_of(b));
}

/// Where none is dropped, posts are started in the order in which they joined the queue: those
/// that were started and then those that wait are all that ever joined.
pub proof fn lemma_starts_what_joined(limits: LimitsModel, events: Seq<EventModel>)
    requires
        limits.max_pending > 0,
        run(limits, events),
        dropped(limits, events) == 0,
    ensures
        started(limits, events) + state_after(limits, events).pending == posts_of(
            parcels(limits, events),
        ),
    decreases events.len(),
{
    if events.len() == 0 {
        assert(started(limits, events) + state_after(limits, events).pending =~= posts_of(
            parcels(limits, events),
        ));
    } else {
        let init = events.drop_last();
        let before = state_after(limits, init);
        let event = events.last();
        let step = monoio_exporter::stepped(before, limits, event);
        let joined = all_joining(before, limits, event);
        lemma_starts_what_joined(limits, init);
        lemma_queue_keeps_order(before, limits, event);
        lemma_joining_posts(before, limits, event);
        lemma_posts_concat(parcels(limits, init), joining_parcels(before, limits, event));
        assert((before.pending + joined).skip(0) =~= before.pending + joined);
        lemma_moves_on(
            started(limits, init),
            exporter::at_most_one(step.post),
            step.state.pending,
            before.pending,
            joined,
        );
    }
}

/// Every post that joins the queue goes to the URL of the signal whose batch it holds; a signal
/// without one has none.
pub proof fn lemma_posts_go_to_their_urls(limits: LimitsModel, events: Seq<EventModel>)
    ensures
        forall|i: int|
            0 <= i < parcels(limits, events).len() ==> batch::url(
                limits.config,
                (#[trigger] parcels(limits, events)[i]).signal,
            ) == Some(parcels(limits, events)[i].post.url),
    decreases events.len(),
{
    if events.len() > 0 {
        lemma_posts_go_to_their_urls(limits, events.drop_last());
    }
}

/// Where only one signal has a URL, the posts to it are those of the signal.
proof fn lemma_payloads_by_url(
    config: ConfigModel,
    parcels: Seq<Parcel>,
    signal: Signal,
    url: Seq<char>,
)
    requires
        forall|other: Signal|
            (#[trigger] batch::url(config, other) == Some(url)) == (other == signal),
        forall|i: int|
            0 <= i < parcels.len() ==> batch::url(config, (#[trigger] parcels[i]).signal) == Some(
                parcels[i].post.url,
            ),
    ensures
        payloads(parcels, signal) == payloads_to(posts_of(parcels), url),
    decreases parcels.len(),
{
    if parcels.len() > 0 {
        lemma_payloads_by_url(config, parcels.drop_last(), signal, url);
        assert(posts_of(parcels).drop_last() =~= posts_of(parcels.drop_last()));
        let last = parcels[parcels.len() - 1];
        assert(batch::url(config, last.signal) == Some(last.post.url));
        assert((batch::url(config, last.signal) == Some(url)) == (last.signal == signal));
    }
}

/// A signal that has a URL loses nothing and keeps its order, where no post is dropped: over any
/// run of events, the payloads of its posts that were started, then of those that are pending,
/// and then the messages that wait for their batch to leave are what came.
pub proof fn lemma_posts_what_came(limits: LimitsModel, events: Seq<EventModel>, signal: Signal)
    requires
        limits.max_pending > 0,
        batch::url(limits.config, signal) is Some,
        run(limits, events),
        dropped(limits, events) == 0,
    ensures
        ({
            let all = parcels(limits, events);
            let out = started(limits, events).len() as int;
            let state = state_after(limits, events);
            &&& 0 <= out <= all.len()
            &&& started(limits, events) == posts_of(all.take(out))
            &&& state.pending == posts_of(all.skip(out))
            &&& payloads(all.take(out), signal) + payloads(all.skip(out), signal)
                + payload::joined(batch::batch(state.batches, signal)) == runs::received(
                events,
                signal,
            )
        }),
{
    let all = parcels(limits, events);
    let out = started(limits, events).len() as int;
    lemma_starts_what_joined(limits, events);
    lemma_queues_what_came(limits, events, signal);
    let both = started(limits, events) + state_after(limits, events).pending;
    assert(both.len() == all.len());
    assert(started(limits, events) =~= both.take(out));
    assert(state_after(limits, events).pending =~= both.skip(out));
    assert(posts_of(all.take(out)) =~= posts_of(all).take(out));
    assert(posts_of(all.skip(out)) =~= posts_of(all).skip(out));
    assert(all.take(out) + all.skip(out) =~= all);
    lemma_payloads_concat(all.take(out), all.skip(out), signal);
}

/// The same by URL, where the signal shares its URL with no other: what was posted to it, then
/// what is pending for it, and then the messages that wait are what came.
pub proof fn lemma_url_gets_what_came(
    limits: LimitsModel,
    events: Seq<EventModel>,
    signal: Signal,
    url: Seq<char>,
)
    requires
        limits.max_pending > 0,
        forall|other: Signal|
            (#[trigger] batch::url(limits.config, other) == Some(url)) == (other == signal),
        run(limits, events),
        dropped(limits, events) == 0,
    ensures
        payloads_to(started(limits, events), url) + payloads_to(
            state_after(limits, events).pending,
            url,
        ) + payload::joined(batch::batch(state_after(limits, events).batches, signal))
            == runs::received(events, signal),
{
    assert((batch::url(limits.config, signal) == Some(url)) == (signal == signal));
    lemma_posts_what_came(limits, events, signal);
    lemma_posts_go_to_their_urls(limits, events);
    let all = parcels(limits, events);
    let out = started(limits, events).len() as int;
    lemma_payloads_by_url(limits.config, all.take(out), signal, url);
    lemma_payloads_by_url(limits.config, all.skip(out), signal, url);
}

/// How many posts have been started and have not ended.
pub open spec fn running(limits: LimitsModel, happenings: Seq<Happening<EventModel>>) -> int {
    started(limits, runs::events_of(happenings)).len() - runs::ended(happenings)
}

/// Whether things happen as they do where running posts are counted right: every event is one
/// that the loop was waiting for, and a count of running posts is the number of those that have
/// been started and have not ended.
pub open spec fn served(limits: LimitsModel, happenings: Seq<Happening<EventModel>>) -> bool
    decreases happenings.len(),
{
    happenings.len() > 0 ==> {
        let before = happenings.drop_last();
        &&& served(limits, before)
        &&& match happenings.last() {
            Happening::Event(event) => {
                &&& monoio_exporter::expected(
                    state_after(limits, runs::events_of(before)).phase,
                    event,
                )
                &&& event matches EventModel::InFlight(count) ==> count == running(limits, before)
            },
            Happening::Ended => running(limits, before) > 0,
        }
    }
}

/// The events of what happens are a run.
proof fn lemma_served_is_run(limits: LimitsModel, happenings: Seq<Happening<EventModel>>)
    requires
        served(limits, happenings),
    ensures
        run(limits, runs::events_of(happenings)),
    decreases happenings.len(),
{
    if happenings.len() > 0 {
        lemma_served_is_run(limits, happenings.drop_last());
        if happenings.last() is Event {
            runs::lemma_last_event(happenings);
        }
    }
}

/// At every moment at most as many posts are running as the limit allows.
pub proof fn lemma_running_bounded(limits: LimitsModel, happenings: Seq<Happening<EventModel>>)
    requires
        served(limits, happenings),
    ensures
        0 <= running(limits, happenings) <= limits.max_running,
    decreases happenings.len(),
{
    if happenings.len() > 0 {
        lemma_running_bounded(limits, happenings.drop_last());
        if happenings.last() is Event {
            runs::lemma_last_event(happenings);
        }
    }
}

/// A request delivers everything, where no post is dropped: by the time that a flush or a
/// shutdown is reported, or that the loop ends because the channel did, nothing waits, every post
/// that ever joined the queue has been started and has ended, and the payloads of a signal that
/// has a URL are what came.
pub proof fn lemma_report_means_delivered(
    limits: LimitsModel,
    happenings: Seq<Happening<EventModel>>,
    event: EventModel,
    signal: Signal,
)
    requires
        limits.max_pending > 0,
        limits.max_running > 0,
        served(limits, happenings),
        happenings.len() > 0,
        happenings.last() == Happening::Event(event),
        reports(
            monoio_exporter::stepped(
                state_after(limits, runs::events_of(happenings.drop_last())),
                limits,
                event,
            ).action,
        ),
        dropped(limits, runs::events_of(happenings)) == 0,
    ensures
        ({
            let events = runs::events_of(happenings);
            let state = state_after(limits, events);
            &&& running(limits, happenings) == 0
            &&& state.batches == batch::no_batches()
            &&& state.pending.len() == 0
            &&& started(limits, events) == posts_of(parcels(limits, events))
            &&& batch::url(limits.config, signal) is Some ==> payloads(
                parcels(limits, events),
                signal,
            ) == runs::received(events, signal)
        }),
{
    let before = runs::events_of(happenings.drop_last());
    let events = runs::events_of(happenings);
    runs::lemma_last_event(happenings);
    lemma_served_is_run(limits, happenings.drop_last());
    lemma_served_is_run(limits, happenings);
    lemma_run_sound(limits, before);
    lemma_report_means_done(state_after(limits, before), limits, event);
    lemma_starts_what_joined(limits, events);
    assert(started(limits, events) + state_after(limits, events).pending =~= started(
        limits,
        events,
    ));
    if batch::url(limits.config, signal) is Some {
        lemma_queues_what_came(limits, events, signal);
        assert(payloads(parcels(limits, events), signal) + payload::joined(
            batch::batch(state_after(limits, events).batches, signal),
        ) =~= payloads(parcels(limits, events), signal));
    }
}

/// Whether the loop is on its way to its end.
pub open spec fn stopping(state: LoopModel) -> bool {
    match state.phase {
        Phase::DrainingAll => state.goal == Goal::Shutdown,
        Phase::Ending | Phase::Pausing => state.goal != Goal::Flush,
        Phase::Stopped => true,
        _ => false,
    }
}

/// A request to shut down and the end of the channel end the loop: from then on it only takes
/// what is left in the channel, if it was asked to, and waits for the end of all posts.
pub proof fn lemma_shutdown_stops(limits: LimitsModel, events: Seq<EventModel>, at: int)
    requires
        run(limits, events),
        0 <= at < events.len(),
        events[at] == EventModel::Control(Some(ControlMessage::Shutdown)) || (events[at]
            == EventModel::Control(None) && state_after(limits, events.take(at)).disconnected),
    ensures
        stopping(state_after(limits, events)),
    decreases events.len(),
{
    let init = events.drop_last();
    if at < events.len() - 1 {
        assert(init.take(at) =~= events.take(at));
        lemma_shutdown_stops(limits, init, at);
    } else {
        assert(init =~= events.take(at));
    }
}

/// A loop that is on its way to its end stops as soon as no post is pending or running.
pub proof fn lemma_stops_when_done(state: LoopModel, limits: LimitsModel)
    requires
        stopping(state),
        state.phase == Phase::Ending,
        state.pending.len() == 0,
    ensures
        ({
            let step = monoio_exporter::stepped(state, limits, EventModel::InFlight(0));
            &&& step.state.phase == Phase::Stopped
            &&& step.action == (if state.goal == Goal::Shutdown {
                ActionModel::ReportAndStop
            } else {
                ActionModel::Stop
            })
        }),
{
}

/// The payloads of posts and then of others are those of all of them.
pub proof fn lemma_payloads_to_concat(a: Seq<PostModel>, b: Seq<PostModel>, url: Seq<char>)
    ensures
        payloads_to(a + b, url) == payloads_to(a, url) + payloads_to(b, url),
    decreases b.len(),
{
    if b.len() == 0 {
        assert(a + b =~= a);
        assert(payloads_to(a, url) + payloads_to(b, url) =~= payloads_to(a, url));
    } else {
        lemma_payloads_to_concat(a, b.drop_last(), url);
        assert((a + b).drop_last() =~= a + b.drop_last());
        assert(payloads_to(a + b, url) =~= payloads_to(a, url) + payloads_to(b, url));
    }
}

/// The payload of at most one post.
pub proof fn lemma_payload_to_one(post: Option<PostModel>, url: Seq<char>)
    ensures
        payloads_to(exporter::at_most_one(post), url) == (match post {
            Some(post) => if post.url == url {
                post.payload
            } else {
                seq![]
            },
            None => seq![],
        }),
{
    if post is Some {
        let one = exporter::at_most_one(post);
        assert(payloads_to(one.drop_last(), url) =~= seq![]);
        assert(payloads_to(one, url) =~= (if post->0.url == url {
            post->0.payload
        } else {
            seq![]
        }));
    }
}

/// A post joins the queue behind the others. Where the queue holds as many as it may, the oldest
/// makes room; else none is dropped.
pub proof fn lemma_queue_drops_oldest(
    pending: Seq<PostModel>,
    max_pending: nat,
    post: PostModel,
)
    requires
        0 < max_pending,
        pending.len() <= max_pending,
    ensures
        ({
            let (after, dropped) = monoio_exporter::queued(pending, max_pending, Some(post));
            &&& pending.len() < max_pending ==> dropped == 0 && after == pending.push(post)
            &&& pending.len() == max_pending ==> dropped == 1 && after == pending.skip(1).push(post)
        }),
        monoio_exporter::queued(pending, max_pending, None) == (pending, 0nat),
{
    let (after, dropped) = monoio_exporter::queued(pending, max_pending, Some(post));
    if pending.len() < max_pending {
        assert(after =~= pending.push(post));
    }
}

/// A message that does not fill its batch waits in it, and the queue stays.
pub proof fn lemma_message_waits(state: LoopModel, limits: LimitsModel, data: DataModel)
    requires
        state.phase == Phase::Draining || state.phase == Phase::DrainingAll,
        batch::batch(state.batches, data.signal).len() + 1 < limits.config.batch_size,
    ensures
        ({
            let step = monoio_exporter::stepped(state, limits, EventModel::Message(data));
            &&& step.post is None
            &&& step.dropped == 0
            &&& step.state.pending == state.pending
            &&& batch::batch(step.state.batches, data.signal) == batch::batch(
                state.batches,
                data.signal,
            ).push(data.bytes)
            &&& forall|other: Signal|
                other != data.signal ==> #[trigger] batch::batch(step.state.batches, other)
                    == batch::batch(state.batches, other)
            &&& step.state.since_flush == state.since_flush
        }),
{
}

/// A message that fills its batch sends it to the end of the queue with all its messages, and
/// with it alone; other batches stay.
pub proof fn lemma_full_batch_is_queued(
    state: LoopModel,
    limits: LimitsModel,
    data: DataModel,
    url: Seq<char>,
)
    requires
        state.phase == Phase::Draining || state.phase == Phase::DrainingAll,
        monoio_exporter::sound(state, limits),
        0 < limits.max_pending,
        batch::batch(state.batches, data.signal).len() + 1 >= limits.config.batch_size,
        batch::url(limits.config, data.signal) == Some(url),
    ensures
        ({
            let step = monoio_exporter::stepped(state, limits, EventModel::Message(data));
            let post = PostModel {
                url,
                payload: payload::joined(batch::batch(state.batches, data.signal)) + data.bytes,
            };
            &&& step.post is None
            &&& state.pending.len() < limits.max_pending ==> step.dropped == 0
                && step.state.pending == state.pending.push(post)
            &&& state.pending.len() == limits.max_pending ==> step.dropped == 1
                && step.state.pending == state.pending.skip(1).push(post)
            &&& batch::batch(step.state.batches, data.signal).len() == 0
            &&& forall|other: Signal|
                other != data.signal ==> #[trigger] batch::batch(step.state.batches, other)
                    == batch::batch(state.batches, other)
        }),
{
    let here = batch::batch(state.batches, data.signal);
    let post = PostModel { url, payload: payload::joined(here) + data.bytes };
    payload::lemma_joined(here, data.bytes);
    lemma_queue_drops_oldest(state.pending, limits.max_pending, post);
}

/// The posts that the messages that wait make, traces before logs before metrics.
pub open spec fn waiting_posts(state: LoopModel, limits: LimitsModel) -> Seq<PostModel> {
    exporter_laws::waiting_post(state.batches.traces, limits.config.traces_url)
        + exporter_laws::waiting_post(state.batches.logs, limits.config.logs_url)
        + exporter_laws::waiting_post(state.batches.metrics, limits.config.metrics_url)
}

/// A round that ends without a request once the flush interval is over, or after every sender is
/// gone, sends every batch to the end of the queue, whatever came in the round: no message waits
/// any more. The oldest posts are dropped only where the queue has no room.
pub proof fn lemma_interval_flushes(state: LoopModel, limits: LimitsModel)
    requires
        state.phase == Phase::Checking,
        monoio_exporter::sound(state, limits),
        0 < limits.max_pending,
        state.since_flush >= limits.flush_nanos || state.disconnected,
    ensures
        ({
            let step = monoio_exporter::stepped(state, limits, EventModel::Control(None));
            let all = state.pending + waiting_posts(state, limits);
            &&& step.state.batches.traces.len() == 0
            &&& step.state.batches.logs.len() == 0
            &&& step.state.batches.metrics.len() == 0
            &&& step.post is None
            &&& step.action is CountInFlight
            &&& step.dropped <= all.len()
            &&& step.state.pending == all.skip(step.dropped as int)
            &&& all.len() <= limits.max_pending ==> step.dropped == 0
            &&& all.len() > limits.max_pending ==> step.state.pending.len() == limits.max_pending
            &&& !state.disconnected ==> step.state.since_flush == 0 && step.state.phase
                == Phase::Starting
            &&& state.disconnected ==> step.state.goal == Goal::Disconnected && step.state.phase
                == Phase::Ending
        }),
{
    lemma_everything_queued(state, limits);
}

/// A request to flush or to shut down is served once the channel is empty: every batch goes to
/// the end of the queue, and the end of all posts is waited for.
pub proof fn lemma_request_flushes(state: LoopModel, limits: LimitsModel, gone: bool)
    requires
        state.phase == Phase::DrainingAll,
        monoio_exporter::sound(state, limits),
        0 < limits.max_pending,
    ensures
        ({
            let event = if gone {
                EventModel::Disconnected
            } else {
                EventModel::Empty
            };
            let step = monoio_exporter::stepped(state, limits, event);
            let all = state.pending + waiting_posts(state, limits);
            &&& step.state.batches.traces.len() == 0
            &&& step.state.batches.logs.len() == 0
            &&& step.state.batches.metrics.len() == 0
            &&& step.post is None
            &&& step.action is CountInFlight
            &&& step.state.phase == Phase::Ending
            &&& step.state.goal == state.goal
            &&& step.dropped <= all.len()
            &&& step.state.pending == all.skip(step.dropped as int)
            &&& all.len() <= limits.max_pending ==> step.dropped == 0
            &&& all.len() > limits.max_pending ==> step.state.pending.len() == limits.max_pending
        }),
{
    lemma_everything_queued(state, limits);
}

/// What sending every batch to the queue does.
proof fn lemma_everything_queued(state: LoopModel, limits: LimitsModel)
    requires
        state.pending.len() <= limits.max_pending,
        0 < limits.max_pending,
    ensures
        ({
            let (after, dropped) = monoio_exporter::all_queued(state, limits);
            let all = state.pending + waiting_posts(state, limits);
            &&& after.batches.traces.len() == 0
            &&& after.batches.logs.len() == 0
            &&& after.batches.metrics.len() == 0
            &&& dropped <= all.len()
            &&& after.pending == all.skip(dropped as int)
            &&& all.len() <= limits.max_pending ==> dropped == 0
            &&& all.len() > limits.max_pending ==> after.pending.len() == limits.max_pending
        }),
{
    let traces = batch::post(state.batches, limits.config, Signal::Traces);
    let logs = batch::post(state.batches, limits.config, Signal::Logs);
    let metrics = batch::post(state.batches, limits.config, Signal::Metrics);
    lemma_three_queued(state.pending, limits.max_pending, traces, logs, metrics);
    assert(waiting_posts(state, limits) =~= exporter::at_most_one(traces) + exporter::at_most_one(
        logs,
    ) + exporter::at_most_one(metrics));
}

/// A round that ends without a request before the flush interval is over leaves batches and queue
/// as they are. The next sleep is ten milliseconds where messages came in the round, and else a
/// hundred.
pub proof fn lemma_round_before_interval(state: LoopModel, limits: LimitsModel)
    requires
        state.phase == Phase::Checking,
        state.since_flush < limits.flush_nanos,
        !state.disconnected,
    ensures
        ({
            let step = monoio_exporter::stepped(state, limits, EventModel::Control(None));
            &&& step.state.batches == state.batches
            &&& step.state.pending == state.pending
            &&& step.state.since_flush == state.since_flush
            &&& step.dropped == 0
            &&& step.post is None
            &&& step.state.phase == Phase::Starting
            &&& step.action is CountInFlight
            &&& step.state.check_nanos == (if state.got_messages {
                10_000_000nat
            } else {
                100_000_000
            })
        }),
{
}

/// As long as fewer posts are running than may, the oldest of the queue is started; else none is.
/// When no more can be started the loop goes to sleep, for as long as it settled on or, on the
/// way to the end of all posts, for a millisecond.
pub proof fn lemma_posts_start_while_there_is_room(
    state: LoopModel,
    limits: LimitsModel,
    running: nat,
)
    requires
        state.phase == Phase::Starting || state.phase == Phase::Ending,
    ensures
        ({
            let step = monoio_exporter::stepped(state, limits, EventModel::InFlight(running));
            &&& step.state.batches == state.batches
            &&& step.dropped == 0
            &&& running < limits.max_running && state.pending.len() > 0 ==> {
                &&& step.post == Some(state.pending[0])
                &&& step.state.pending == state.pending.skip(1)
                &&& step.state.phase == state.phase
                &&& step.action is CountInFlight
            }
            &&& running >= limits.max_running || state.pending.len() == 0 ==> {
                &&& step.post is None
                &&& step.state.pending == state.pending
                &&& state.phase == Phase::Starting ==> step.state.phase == Phase::Sleeping
                    && step.action == (ActionModel::Sleep { nanos: state.check_nanos })
                &&& state.phase == Phase::Ending && (running > 0 || state.pending.len() > 0)
                    ==> step.state.phase == Phase::Pausing && step.action == (ActionModel::Sleep {
                    nanos: 1_000_000,
                })
            }
        }),
{
}

/// A request that is done is reported: after a flush the loop looks for the next request and
/// counts the flush interval anew, after a shutdown it stops.
pub proof fn lemma_done_request_is_reported(state: LoopModel, limits: LimitsModel)
    requires
        state.phase == Phase::Ending,
        state.pending.len() == 0,
    ensures
        ({
            let step = monoio_exporter::stepped(state, limits, EventModel::InFlight(0));
            &&& state.goal == Goal::Flush ==> step.action is ReportAndCheckControl
                && step.state.phase == Phase::Checking && step.state.since_flush == 0
            &&& state.goal == Goal::Shutdown ==> step.action is ReportAndStop && step.state.phase
                == Phase::Stopped
            &&& state.goal == Goal::Disconnected ==> step.action is Stop && step.state.phase
                == Phase::Stopped
        }),
{
}

/// A request is taken up at once: the channel is drained for it, message by message.
pub proof fn lemma_request_is_taken_up(
    state: LoopModel,
    limits: LimitsModel,
    request: ControlMessage,
)
    requires
        state.phase == Phase::Checking,
    ensures
        ({
            let step = monoio_exporter::stepped(state, limits, EventModel::Control(Some(request)));
            &&& step.state.phase == Phase::DrainingAll
            &&& step.action is Receive
            &&& step.post is None
            &&& step.dropped == 0
            &&& step.state.batches == state.batches
            &&& step.state.pending == state.pending
            &&& request == ControlMessage::Flush ==> step.state.goal == Goal::Flush
            &&& request == ControlMessage::Shutdown ==> step.state.goal == Goal::Shutdown
        }),
{
}

/// A round begins when a sleep is over: the sleep counts as time since the last flush, and up to
/// 1024 messages are taken before the next look for a request.
pub proof fn lemma_round_begins(state: LoopModel, limits: LimitsModel)
    requires
        state.phase == Phase::Sleeping,
    ensures
        ({
            let step = monoio_exporter::stepped(state, limits, EventModel::Woke);
            &&& step.state.since_flush == (if state.since_flush + state.check_nanos
                < 18_446_744_073_709_551_616_000_000_000 {
                (state.since_flush + state.check_nanos) as nat
            } else {
                18_446_744_073_709_551_615_999_999_999nat
            })
            &&& step.state.left == 1024
            &&& !step.state.got_messages
            &&& !step.state.disconnected
            &&& step.state.phase == Phase::Draining
            &&& step.action is Receive
            &&& step.state.batches == state.batches
            &&& step.state.pending == state.pending
        }),
{
}

/// A round goes on with a look for a request when the channel holds nothing, and remembers whether
/// its senders are gone and whether messages came.
pub proof fn lemma_round_goes_on(state: LoopModel, limits: LimitsModel, data: DataModel)
    requires
        state.phase == Phase::Draining,
    ensures
        ({
            let empty = monoio_exporter::stepped(state, limits, EventModel::Empty);
            let gone = monoio_exporter::stepped(state, limits, EventModel::Disconnected);
            &&& empty.state == (LoopModel {
                disconnected: false,
                phase: Phase::Checking,
                ..state
            })
            &&& gone.state == (LoopModel { disconnected: true, phase: Phase::Checking, ..state })
            &&& empty.action is CheckControl
            &&& gone.action is CheckControl
            &&& monoio_exporter::stepped(
                state,
                limits,
                EventModel::Message(data),
            ).state.got_messages
        }),
{
}

/// The time slept since the last flush goes on as long as a message waits: it grows with every
/// sleep between rounds, and is set back only when no message waits.
pub proof fn lemma_time_is_set_back_by_a_flush_only(
    state: LoopModel,
    limits: LimitsModel,
    event: EventModel,
)
    requires
        monoio_exporter::sound(state, limits),
        monoio_exporter::expected(state.phase, event),
        state.since_flush < 18_446_744_073_709_551_616_000_000_000,
    ensures
        ({
            let after = monoio_exporter::stepped(state, limits, event).state;
            ||| after.since_flush == state.since_flush
            ||| state.phase == Phase::Sleeping && after.since_flush >= state.since_flush
            ||| after.since_flush == 0 && after.batches.traces.len() == 0 && after.batches.logs.len()
                == 0 && after.batches.metrics.len() == 0
        }),
{
}

/// Whether any message waits.
pub open spec fn any_waits(state: LoopModel) -> bool {
    state.batches.traces.len() > 0 || state.batches.logs.len() > 0 || state.batches.metrics.len()
        > 0
}

/// How long, in nanoseconds of sleep between rounds, there has been a message that waits.
pub open spec fn waited(limits: LimitsModel, events: Seq<EventModel>) -> nat
    decreases events.len(),
{
    if events.len() == 0 || !any_waits(state_after(limits, events)) {
        0
    } else {
        let before = state_after(limits, events.drop_last());
        waited(limits, events.drop_last()) + (if before.phase == Phase::Sleeping {
            before.check_nanos
        } else {
            0
        })
    }
}

/// No message waits for long: over any run of events, messages never wait in batches for more
/// than the flush interval and one further sleep, of at most a hundred milliseconds.
pub proof fn lemma_no_message_waits_long(limits: LimitsModel, events: Seq<EventModel>)
    requires
        0 < limits.max_pending,
        limits.flush_nanos < 18_446_744_073_709_551_616_000_000_000,
        run(limits, events),
    ensures
        waited(limits, events) <= limits.flush_nanos + 100_000_000,
{
    lemma_waiting_is_timed(limits, events);
}

/// How waiting and the time since the last flush go together.
proof fn lemma_waiting_is_timed(limits: LimitsModel, events: Seq<EventModel>)
    requires
        0 < limits.max_pending,
        limits.flush_nanos < 18_446_744_073_709_551_616_000_000_000,
        run(limits, events),
    ensures
        ({
            let state = state_after(limits, events);
            let time = waited(limits, events);
            &&& state.check_nanos <= 100_000_000
            &&& time <= limits.flush_nanos + 100_000_000
            &&& state.phase == Phase::Sleeping || state.phase == Phase::Starting ==> (
            !any_waits(state) || (time <= state.since_flush && state.since_flush
                < limits.flush_nanos))
            &&& state.phase == Phase::Draining || state.phase == Phase::Checking ==> time
                <= state.since_flush || state.since_flush >= limits.flush_nanos
        }),
    decreases events.len(),
{
    if events.len() > 0 {
        let before = state_after(limits, events.drop_last());
        lemma_waiting_is_timed(limits, events.drop_last());
        lemma_run_sound(limits, events.drop_last());
        lemma_everything_queued(before, limits);
    }
}

} // verus!
