//! What the laws on the exporters have in common: the bytes that come with a run of events, and
//! the posts that end while it goes on.
use vstd::prelude::*;

use crate::batch::Signal;
use crate::exporter;
use crate::exporter::MessageModel;
use crate::monoio_exporter;
use crate::tokio_exporter;

verus! {

/// Events that data can come with.
pub trait Carrier: Sized {
    /// The signal and the bytes of the data that comes with the event.
    spec fn data(self) -> Option<(Signal, Seq<u8>)>;
}

impl Carrier for exporter::EventModel {
    open spec fn data(self) -> Option<(Signal, Seq<u8>)> {
        match self {
            exporter::EventModel::Message(MessageModel::Data { signal, bytes }) => Some(
                (signal, bytes),
            ),
            _ => None,
        }
    }
}

impl Carrier for tokio_exporter::EventModel {
    open spec fn data(self) -> Option<(Signal, Seq<u8>)> {
        match self {
            tokio_exporter::EventModel::Message(MessageModel::Data { signal, bytes }) => Some(
                (signal, bytes),
            ),
            _ => None,
        }
    }
}

impl Carrier for monoio_exporter::EventModel {
    open spec fn data(self) -> Option<(Signal, Seq<u8>)> {
        match self {
            monoio_exporter::EventModel::Message(data) => Some((data.signal, data.bytes)),
            _ => None,
        }
    }
}

/// The bytes of a signal that come with an event.
pub open spec fn arriving<E: Carrier>(event: E, signal: Signal) -> Seq<u8> {
    match event.data() {
        Some((from, bytes)) => if from == signal {
            bytes
        } else {
            seq![]
        },
        None => seq![],
    }
}

/// All bytes of a signal that come with a run of events.
pub open spec fn received<E: Carrier>(events: Seq<E>, signal: Signal) -> Seq<u8>
    decreases events.len(),
{
    if events.len() == 0 {
        seq![]
    } else {
        received(events.drop_last(), signal) + arriving(events.last(), signal)
    }
}

/// What happens while a loop runs: it takes an event, or a post that it started ends. A post
/// ends with its last attempt, whether that was answered well or not.
pub enum Happening<E> {
    Event(E),
    Ended,
}

/// The events among what happens.
pub open spec fn events_of<E>(happenings: Seq<Happening<E>>) -> Seq<E>
    decreases happenings.len(),
{
    if happenings.len() == 0 {
        seq![]
    } else {
        match happenings.last() {
            Happening::Event(event) => events_of(happenings.drop_last()).push(event),
            Happening::Ended => events_of(happenings.drop_last()),
        }
    }
}

/// How many posts end.
pub open spec fn ended<E>(happenings: Seq<Happening<E>>) -> nat
    decreases happenings.len(),
{
    if happenings.len() == 0 {
        0
    } else {
        match happenings.last() {
            Happening::Event(_) => ended(happenings.drop_last()),
            Happening::Ended => ended(happenings.drop_last()) + 1,
        }
    }
}

/// The last event among what happens comes after the earlier ones.
pub proof fn lemma_last_event<E>(happenings: Seq<Happening<E>>)
    requires
        happenings.len() > 0,
        happenings.last() is Event,
    ensures
        events_of(happenings).len() > 0,
        events_of(happenings).last() == happenings.last()->Event_0,
        events_of(happenings).drop_last() == events_of(happenings.drop_last()),
{
    assert(events_of(happenings).drop_last() =~= events_of(happenings.drop_last()));
}

} // verus!
