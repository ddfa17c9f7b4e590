//! What holds of the exporter over any run of events.
use vstd::prelude::*;

use crate::batch;
use crate::batch::{BatchesModel, ConfigModel, PostModel, Signal};
use crate::exporter;
use crate::exporter::{EventModel, MessageModel, Next};
use crate::monoio_exporter_laws;
use crate::payload;
use crate::runs;
use crate::wire;
use crate::wire::WireField;

verus! {

/// The bytes of a signal that are posted on an event.
pub open spec fn leaving(
    batches: BatchesModel,
    config: ConfigModel,
    event: EventModel,
    signal: Signal,
) -> Seq<u8> {
    match exporter::sent(batches, config, event, signal) {
        Some(post) => post.payload,
        None => seq![],
    }
}

/// The batches after a run of events.
pub open spec fn batches_after(
    start: BatchesModel,
    config: ConfigModel,
    events: Seq<EventModel>,
) -> BatchesModel
    decreases events.len(),
{
    if events.len() == 0 {
        start
    } else {
        exporter::after(
            batches_after(start, config, events.drop_last()),
            config,
            events.last(),
        )
    }
}

/// All bytes of a signal that are posted during a run of events, post after post.
pub open spec fn posted(
    start: BatchesModel,
    config: ConfigModel,
    events: Seq<EventModel>,
    signal: Signal,
) -> Seq<u8>
    decreases events.len(),
{
    if events.len() == 0 {
        seq![]
    } else {
        posted(start, config, events.drop_last(), signal) + leaving(
            batches_after(start, config, events.drop_last()),
            config,
            events.last(),
            signal,
        )
    }
}

/// One event neither loses nor reorders a byte of a signal that has a URL: what is posted and
/// then what stays is what was there and then what came.
proof fn lemma_step_keeps_bytes(
    batches: BatchesModel,
    config: ConfigModel,
    event: EventModel,
    signal: Signal,
)
    requires
        batch::url(config, signal) is Some,
    ensures
        leaving(batches, config, event, signal) + payload::joined(
            batch::batch(exporter::after(batches, config, event), signal),
        ) == payload::joined(batch::batch(batches, signal)) + runs::arriving(event, signal),
{
    let here = batch::batch(batches, signal);
    let more = batch::batch(exporter::arrived(batches, event), signal);
    assert(payload::joined(more) =~= payload::joined(here) + runs::arriving(event, signal)) by {
        match event {
            EventModel::Message(MessageModel::Data { signal: from, bytes }) => {
                if from == signal {
                    assert(more == here.push(bytes));
                    assert(here.push(bytes).drop_last() =~= here);
                } else {
                    assert(more == here);
                }
            },
            _ => {},
        }
    }
    assert(leaving(batches, config, event, signal) + payload::joined(
        batch::batch(exporter::after(batches, config, event), signal),
    ) =~= payload::joined(more));
}

/// A signal that has a URL loses nothing and keeps its order: over any run of events, the bytes
/// that are posted and then those that still wait are the bytes that came.
pub proof fn lemma_posts_what_came(
    config: ConfigModel,
    events: Seq<EventModel>,
    signal: Signal,
)
    requires
        batch::url(config, signal) is Some,
    ensures
        posted(batch::no_batches(), config, events, signal) + payload::joined(
            batch::batch(batches_after(batch::no_batches(), config, events), signal),
        ) == runs::received(events, signal),
    decreases events.len(),
{
    let start = batch::no_batches();
    if events.len() == 0 {
        assert(posted(start, config, events, signal) + payload::joined(
            batch::batch(start, signal),
        ) =~= seq![]);
    } else {
        let init = events.drop_last();
        lemma_posts_what_came(config, init, signal);
        lemma_step_keeps_bytes(
            batches_after(start, config, init),
            config,
            events.last(),
            signal,
        );
        assert(posted(start, config, events, signal) + payload::joined(
            batch::batch(batches_after(start, config, events), signal),
        ) =~= posted(start, config, init, signal) + (payload::joined(
            batch::batch(batches_after(start, config, init), signal),
        ) + runs::arriving(events.last(), signal)));
        assert(posted(start, config, init, signal) + (payload::joined(
            batch::batch(batches_after(start, config, init), signal),
        ) + runs::arriving(events.last(), signal)) =~= runs::received(events, signal));
    }
}

/// Nothing waits after an event that carries no data: a flush, a shutdown, a tick of the flush
/// interval or the end of the channel posts every batch that has a URL and discards the others.
pub proof fn lemma_flush_empties(batches: BatchesModel, config: ConfigModel, event: EventModel)
    requires
        !(event matches EventModel::Message(MessageModel::Data { .. })),
    ensures
        exporter::after(batches, config, event) == batch::no_batches(),
{
    assert(exporter::after(batches, config, event) =~= batch::no_batches());
}

/// Once everything has been flushed, exactly what came has been posted.
pub proof fn lemma_flush_posts_everything(
    config: ConfigModel,
    events: Seq<EventModel>,
    signal: Signal,
)
    requires
        batch::url(config, signal) is Some,
        events.len() > 0,
        !(events.last() matches EventModel::Message(MessageModel::Data { .. })),
    ensures
        posted(batch::no_batches(), config, events, signal) == runs::received(events, signal),
{
    let start = batch::no_batches();
    lemma_posts_what_came(config, events, signal);
    lemma_flush_empties(
        batches_after(start, config, events.drop_last()),
        config,
        events.last(),
    );
    assert(batch::batch(batches_after(start, config, events), signal) == Seq::<Seq<u8>>::empty());
    assert(posted(start, config, events, signal) + payload::joined(
        batch::batch(batches_after(start, config, events), signal),
    ) =~= posted(start, config, events, signal));
}

/// No batch ever waits with its full size or more: fewer than `batch_size` messages of a signal
/// wait at any time, and none where `batch_size` is zero.
pub proof fn lemma_batches_stay_small(
    config: ConfigModel,
    events: Seq<EventModel>,
    signal: Signal,
)
    ensures
        ({
            let waiting = batch::batch(
                batches_after(batch::no_batches(), config, events),
                signal,
            ).len();
            waiting == 0 || waiting < config.batch_size
        }),
    decreases events.len(),
{
    if events.len() > 0 {
        lemma_batches_stay_small(config, events.drop_last(), signal);
    }
}

/// A signal without a URL is never posted.
pub proof fn lemma_no_url_no_post(
    batches: BatchesModel,
    config: ConfigModel,
    event: EventModel,
    signal: Signal,
)
    requires
        batch::url(config, signal) is None,
    ensures
        exporter::sent(batches, config, event, signal) is None,
{
}

/// The fields of several messages, message after message.
pub open spec fn all_fields(messages: Seq<Seq<WireField>>) -> Seq<WireField>
    decreases messages.len(),
{
    if messages.len() == 0 {
        seq![]
    } else {
        all_fields(messages.drop_last()) + messages.last()
    }
}

/// A batch of encoded messages leaves as one message: its payload reads as the fields of all of
/// them, in the order in which they came.
pub proof fn lemma_batch_is_one_message(messages: Seq<Seq<WireField>>)
    ensures
        wire::read_message(
            payload::joined(messages.map_values(|fields: Seq<WireField>| wire::message(fields))),
        ) == Some(all_fields(messages)),
{
    lemma_joined_messages(messages);
    wire::lemma_message_reads_back(all_fields(messages));
}

/// Encoded messages laid end to end are the encoding of all their fields.
proof fn lemma_joined_messages(messages: Seq<Seq<WireField>>)
    ensures
        payload::joined(messages.map_values(|fields: Seq<WireField>| wire::message(fields)))
            == wire::message(all_fields(messages)),
    decreases messages.len(),
{
    let encoded = messages.map_values(|fields: Seq<WireField>| wire::message(fields));
    if messages.len() > 0 {
        let init = messages.drop_last();
        lemma_joined_messages(init);
        assert(encoded.drop_last() =~= init.map_values(
            |fields: Seq<WireField>| wire::message(fields),
        ));
        wire::lemma_message_concat(all_fields(init), messages.last());
    }
}

/// A message that does not fill its batch waits in it, and nothing is posted.
pub proof fn lemma_message_waits(
    batches: BatchesModel,
    config: ConfigModel,
    signal: Signal,
    bytes: Seq<u8>,
)
    requires
        batch::batch(batches, signal).len() + 1 < config.batch_size,
    ensures
        ({
            let event = EventModel::Message(MessageModel::Data { signal, bytes });
            let after = exporter::after(batches, config, event);
            &&& exporter::posts(batches, config, event).len() == 0
            &&& exporter::next(event) == Next::Wait
            &&& batch::batch(after, signal) == batch::batch(batches, signal).push(bytes)
            &&& forall|other: Signal|
                other != signal ==> #[trigger] batch::batch(after, other) == batch::batch(
                    batches,
                    other,
                )
        }),
{
}

/// A message that fills its batch sends it off with all its messages, and with it alone; other
/// batches stay.
pub proof fn lemma_full_batch_is_posted(
    batches: BatchesModel,
    config: ConfigModel,
    signal: Signal,
    bytes: Seq<u8>,
)
    requires
        batch::batch(batches, signal).len() + 1 >= config.batch_size,
    ensures
        ({
            let event = EventModel::Message(MessageModel::Data { signal, bytes });
            let after = exporter::after(batches, config, event);
            let posts = exporter::posts(batches, config, event);
            &&& exporter::next(event) == Next::Wait
            &&& batch::batch(after, signal).len() == 0
            &&& forall|other: Signal|
                other != signal ==> #[trigger] batch::batch(after, other) == batch::batch(
                    batches,
                    other,
                )
            &&& batch::url(config, signal) is None ==> posts.len() == 0
            &&& batch::url(config, signal) matches Some(url) ==> {
                &&& posts.len() == 1
                &&& posts[0].url == url
                &&& posts[0].payload == payload::joined(batch::batch(batches, signal)) + bytes
            }
        }),
{
    let event = EventModel::Message(MessageModel::Data { signal, bytes });
    payload::lemma_joined(batch::batch(batches, signal), bytes);
    let posts = exporter::posts(batches, config, event);
    assert(posts =~= exporter::at_most_one(exporter::sent(batches, config, event, signal)));
}

/// A tick of the flush interval, a request to flush or to shut down and the end of the channel
/// each send off every batch that holds something and has a URL, traces before logs before
/// metrics. A request to flush is reported, a shutdown and the end of the channel end the loop,
/// and after a tick it waits on.
pub proof fn lemma_flush_posts_each_signal(
    batches: BatchesModel,
    config: ConfigModel,
    event: EventModel,
)
    requires
        !(event matches EventModel::Message(MessageModel::Data { .. })),
    ensures
        exporter::posts(batches, config, event) == waiting_post(
            batches.traces,
            config.traces_url,
        ) + waiting_post(batches.logs, config.logs_url) + waiting_post(
            batches.metrics,
            config.metrics_url,
        ),
        exporter::after(batches, config, event).traces.len() == 0,
        exporter::after(batches, config, event).logs.len() == 0,
        exporter::after(batches, config, event).metrics.len() == 0,
        event == EventModel::Tick ==> exporter::next(event) == Next::Wait,
        event == EventModel::Message(MessageModel::Flush) ==> exporter::next(event)
            == Next::DrainAndReport,
        event == EventModel::Message(MessageModel::Shutdown) || event == EventModel::Closed
            ==> exporter::next(event) == Next::DrainAndStop,
{
}

/// The post that waiting messages of a signal with this URL make, if any.
pub open spec fn waiting_post(messages: Seq<Seq<u8>>, url: Option<Seq<char>>) -> Seq<PostModel> {
    match url {
        Some(url) => if messages.len() > 0 {
            seq![PostModel { url, payload: payload::joined(messages) }]
        } else {
            seq![]
        },
        None => seq![],
    }
}

/// All posts during a run of events, in order.
pub open spec fn all_posts(config: ConfigModel, events: Seq<EventModel>) -> Seq<PostModel>
    decreases events.len(),
{
    if events.len() == 0 {
        seq![]
    } else {
        all_posts(config, events.drop_last()) + exporter::posts(
            batches_after(batch::no_batches(), config, events.drop_last()),
            config,
            events.last(),
        )
    }
}

/// Where a signal shares its URL with no other, what was posted to it and then what still waits
/// is what came of the signal, over any run of events.
pub proof fn lemma_url_gets_what_came(
    config: ConfigModel,
    events: Seq<EventModel>,
    signal: Signal,
    url: Seq<char>,
)
    requires
        forall|other: Signal|
            (#[trigger] batch::url(config, other) == Some(url)) == (other == signal),
    ensures
        monoio_exporter_laws::payloads_to(all_posts(config, events), url) + payload::joined(
            batch::batch(batches_after(batch::no_batches(), config, events), signal),
        ) == runs::received(events, signal),
{
    assert((batch::url(config, signal) == Some(url)) == (signal == signal));
    lemma_posts_what_came(config, events, signal);
    lemma_posted_by_url(config, events, signal, url);
}

proof fn lemma_posted_by_url(
    config: ConfigModel,
    events: Seq<EventModel>,
    signal: Signal,
    url: Seq<char>,
)
    requires
        forall|other: Signal|
            (#[trigger] batch::url(config, other) == Some(url)) == (other == signal),
    ensures
        monoio_exporter_laws::payloads_to(all_posts(config, events), url) == posted(
            batch::no_batches(),
            config,
            events,
            signal,
        ),
    decreases events.len(),
{
    if events.len() > 0 {
        let init = events.drop_last();
        let before = batches_after(batch::no_batches(), config, init);
        let event = events.last();
        lemma_posted_by_url(config, init, signal, url);
        monoio_exporter_laws::lemma_payloads_to_concat(
            all_posts(config, init),
            exporter::posts(before, config, event),
            url,
        );
        lemma_sent_by_url(before, config, event, signal, url);
    }
}

proof fn lemma_sent_by_url(
    batches: BatchesModel,
    config: ConfigModel,
    event: EventModel,
    signal: Signal,
    url: Seq<char>,
)
    requires
        forall|other: Signal|
            (#[trigger] batch::url(config, other) == Some(url)) == (other == signal),
    ensures
        monoio_exporter_laws::payloads_to(exporter::posts(batches, config, event), url) == leaving(
            batches,
            config,
            event,
            signal,
        ),
{
    let traces = exporter::sent(batches, config, event, Signal::Traces);
    let logs = exporter::sent(batches, config, event, Signal::Logs);
    let metrics = exporter::sent(batches, config, event, Signal::Metrics);
    let t = exporter::at_most_one(traces);
    let l = exporter::at_most_one(logs);
    let m = exporter::at_most_one(metrics);
    monoio_exporter_laws::lemma_payloads_to_concat(t, l, url);
    monoio_exporter_laws::lemma_payloads_to_concat(t + l, m, url);
    monoio_exporter_laws::lemma_payload_to_one(traces, url);
    monoio_exporter_laws::lemma_payload_to_one(logs, url);
    monoio_exporter_laws::lemma_payload_to_one(metrics, url);
    assert((batch::url(config, Signal::Traces) == Some(url)) == (Signal::Traces == signal));
    assert((batch::url(config, Signal::Logs) == Some(url)) == (Signal::Logs == signal));
    assert((batch::url(config, Signal::Metrics) == Some(url)) == (Signal::Metrics == signal));
    assert(monoio_exporter_laws::payloads_to(t, url) + monoio_exporter_laws::payloads_to(l, url)
        + monoio_exporter_laws::payloads_to(m, url) =~= leaving(batches, config, event, signal));
}

} // verus!
