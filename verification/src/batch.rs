//! Batches of encoded telemetry that wait to be posted to a collector.
//!
//! Messages of each signal are gathered in the order in which they came. A batch leaves as one
//! post, whose payload is its messages laid end to end: since protobuf's repeated fields merge
//! on concatenation, that is again one message of the same kind.
use bytes::Bytes;
use vstd::prelude::*;

use crate::payload;

verus! {

/// The kinds of telemetry that are exported, each to a URL of its own.
#[derive(Clone, Copy, Debug, PartialEq, Eq, Structural)]
pub enum Signal {
    Traces,
    Logs,
    Metrics,
}

/// Where batches go, and how many messages make a full one.
pub struct BatchConfig {
    pub traces_url: Option<String>,
    pub logs_url: Option<String>,
    pub metrics_url: Option<String>,
    pub batch_size: usize,
}

/// What a [`BatchConfig`] says.
pub struct ConfigModel {
    pub traces_url: Option<Seq<char>>,
    pub logs_url: Option<Seq<char>>,
    pub metrics_url: Option<Seq<char>>,
    pub batch_size: nat,
}

/// The text of a URL that may be missing.
pub open spec fn url_model(url: Option<String>) -> Option<Seq<char>> {
    match url {
        Some(text) => Some(text@),
        None => None,
    }
}

impl View for BatchConfig {
    type V = ConfigModel;

    open spec fn view(&self) -> ConfigModel {
        ConfigModel {
            traces_url: url_model(self.traces_url),
            logs_url: url_model(self.logs_url),
            metrics_url: url_model(self.metrics_url),
            batch_size: self.batch_size as nat,
        }
    }
}

/// The URL to which a signal is posted.
pub open spec fn url(config: ConfigModel, signal: Signal) -> Option<Seq<char>> {
    match signal {
        Signal::Traces => config.traces_url,
        Signal::Logs => config.logs_url,
        Signal::Metrics => config.metrics_url,
    }
}

/// A payload on its way to a URL.
pub struct PendingPost {
    pub url: String,
    pub payload: Vec<u8>,
}

/// What a [`PendingPost`] holds.
pub struct PostModel {
    pub url: Seq<char>,
    pub payload: Seq<u8>,
}

impl View for PendingPost {
    type V = PostModel;

    open spec fn view(&self) -> PostModel {
        PostModel { url: self.url@, payload: self.payload@ }
    }
}

/// What an optional post holds.
pub open spec fn post_model(post: Option<PendingPost>) -> Option<PostModel> {
    match post {
        Some(post) => Some(post@),
        None => None,
    }
}

/// The messages of each signal that wait for their batch to leave.
pub struct Batches {
    traces: Vec<Bytes>,
    logs: Vec<Bytes>,
    metrics: Vec<Bytes>,
}

/// The bytes of the messages that [`Batches`] holds, oldest first.
#[verifier::ext_equal]
pub struct BatchesModel {
    pub traces: Seq<Seq<u8>>,
    pub logs: Seq<Seq<u8>>,
    pub metrics: Seq<Seq<u8>>,
}

impl View for Batches {
    type V = BatchesModel;

    closed spec fn view(&self) -> BatchesModel {
        BatchesModel {
            traces: payload::all_contents(self.traces@),
            logs: payload::all_contents(self.logs@),
            metrics: payload::all_contents(self.metrics@),
        }
    }
}

/// The messages of one signal.
pub open spec fn batch(batches: BatchesModel, signal: Signal) -> Seq<Seq<u8>> {
    match signal {
        Signal::Traces => batches.traces,
        Signal::Logs => batches.logs,
        Signal::Metrics => batches.metrics,
    }
}

/// The batches with one of them replaced.
pub open spec fn with_batch(
    batches: BatchesModel,
    signal: Signal,
    messages: Seq<Seq<u8>>,
) -> BatchesModel {
    match signal {
        Signal::Traces => BatchesModel { traces: messages, ..batches },
        Signal::Logs => BatchesModel { logs: messages, ..batches },
        Signal::Metrics => BatchesModel { metrics: messages, ..batches },
    }
}

/// No message of any signal.
pub open spec fn no_batches() -> BatchesModel {
    BatchesModel { traces: seq![], logs: seq![], metrics: seq![] }
}

/// The batches after one more message of a signal.
pub open spec fn pushed(batches: BatchesModel, signal: Signal, message: Seq<u8>) -> BatchesModel {
    with_batch(batches, signal, batch(batches, signal).push(message))
}

/// The batches after the batch of one signal has left.
pub open spec fn emptied(batches: BatchesModel, signal: Signal) -> BatchesModel {
    with_batch(batches, signal, seq![])
}

/// Whether the batch of a signal has reached its full size.
pub open spec fn full(batches: BatchesModel, config: ConfigModel, signal: Signal) -> bool {
    batch(batches, signal).len() >= config.batch_size
}

/// Whether the batch of a signal holds something and there is a URL to post it to.
pub open spec fn postable(batches: BatchesModel, config: ConfigModel, signal: Signal) -> bool {
    batch(batches, signal).len() > 0 && url(config, signal) is Some
}

/// The post that the batch of a signal leaves as: none where it is empty or has no URL.
pub open spec fn post(
    batches: BatchesModel,
    config: ConfigModel,
    signal: Signal,
) -> Option<PostModel> {
    if postable(batches, config, signal) {
        Some(
            PostModel {
                url: url(config, signal)->0,
                payload: payload::joined(batch(batches, signal)),
            },
        )
    } else {
        None
    }
}

/// The URL of a signal.
fn url_of(config: &BatchConfig, signal: Signal) -> (found: &Option<String>)
    ensures
        url_model(*found) == url(config@, signal),
{
    match signal {
        Signal::Traces => &config.traces_url,
        Signal::Logs => &config.logs_url,
        Signal::Metrics => &config.metrics_url,
    }
}

/// Empties a batch into the post that it leaves as. A batch without a URL is discarded.
pub fn flush_batch(messages: &mut Vec<Bytes>, url: &Option<String>) -> (sent: Option<PendingPost>)
    ensures
        final(messages)@ == Seq::<Bytes>::empty(),
        post_model(sent) == (if old(messages)@.len() > 0 && url is Some {
            Some(
                PostModel {
                    url: url->0@,
                    payload: payload::joined(payload::all_contents(old(messages)@)),
                },
            )
        } else {
            None
        }),
{
    if messages.len() == 0 {
        return None;
    }
    match url {
        Some(url) => {
            let payload = payload::concatenate(messages);
            messages.clear();
            Some(PendingPost { url: url.clone(), payload })
        },
        None => {
            messages.clear();
            None
        },
    }
}

impl Batches {
    /// Batches that hold nothing.
    pub fn new() -> (batches: Batches)
        ensures
            batches@ == no_batches(),
    {
        let batches = Batches { traces: Vec::new(), logs: Vec::new(), metrics: Vec::new() };
        assert(batches@ =~= no_batches());
        batches
    }

    /// Adds a message to the batch of its signal.
    pub fn push(&mut self, signal: Signal, message: Bytes)
        ensures
            final(self)@ == pushed(old(self)@, signal, payload::contents(message)),
    {
        match signal {
            Signal::Traces => self.traces.push(message),
            Signal::Logs => self.logs.push(message),
            Signal::Metrics => self.metrics.push(message),
        }
        assert(self@ =~= pushed(old(self)@, signal, payload::contents(message)));
    }

    /// How many messages of a signal are waiting.
    pub fn len(&self, signal: Signal) -> (count: usize)
        ensures
            count == batch(self@, signal).len(),
    {
        match signal {
            Signal::Traces => self.traces.len(),
            Signal::Logs => self.logs.len(),
            Signal::Metrics => self.metrics.len(),
        }
    }

    /// Whether no message of any signal is waiting.
    pub fn batches_empty(&self) -> (empty: bool)
        ensures
            empty == (self@ == no_batches()),
    {
        let empty = self.traces.len() == 0 && self.logs.len() == 0 && self.metrics.len() == 0;
        proof {
            assert(empty ==> self@ =~= no_batches());
            assert(self@.traces.len() == self.traces@.len());
            assert(self@.logs.len() == self.logs@.len());
            assert(self@.metrics.len() == self.metrics@.len());
        }
        empty
    }

    /// Whether the batch of a signal has reached its full size.
    pub fn is_full(&self, config: &BatchConfig, signal: Signal) -> (full: bool)
        ensures
            full == self::full(self@, config@, signal),
    {
        self.len(signal) >= config.batch_size
    }

    /// Whether the batch of a signal holds something and there is a URL to post it to.
    pub fn is_postable(&self, config: &BatchConfig, signal: Signal) -> (ready: bool)
        ensures
            ready == postable(self@, config@, signal),
    {
        self.len(signal) > 0 && url_of(config, signal).is_some()
    }

    /// Empties the batch of a signal into the post that it leaves as.
    pub fn take(&mut self, config: &BatchConfig, signal: Signal) -> (sent: Option<PendingPost>)
        ensures
            final(self)@ == emptied(old(self)@, signal),
            post_model(sent) == post(old(self)@, config@, signal),
    {
        let url = url_of(config, signal);
        let sent = match signal {
            Signal::Traces => flush_batch(&mut self.traces, url),
            Signal::Logs => flush_batch(&mut self.logs, url),
            Signal::Metrics => flush_batch(&mut self.metrics, url),
        };
        assert(self@ =~= emptied(old(self)@, signal));
        sent
    }
}

/// A configuration says of each signal what is in the field with its name.
pub proof fn lemma_config_says(config: BatchConfig)
    ensures
        config.traces_url is None ==> config@.traces_url is None,
        config.traces_url matches Some(text) ==> config@.traces_url == Some(text@),
        config.logs_url is None ==> config@.logs_url is None,
        config.logs_url matches Some(text) ==> config@.logs_url == Some(text@),
        config.metrics_url is None ==> config@.metrics_url is None,
        config.metrics_url matches Some(text) ==> config@.metrics_url == Some(text@),
        config@.batch_size == config.batch_size,
{
}

/// Each signal has a batch and a URL of its own.
pub proof fn lemma_each_signal_has_its_own(batches: BatchesModel, config: ConfigModel)
    ensures
        batch(batches, Signal::Traces) == batches.traces,
        batch(batches, Signal::Logs) == batches.logs,
        batch(batches, Signal::Metrics) == batches.metrics,
        url(config, Signal::Traces) == config.traces_url,
        url(config, Signal::Logs) == config.logs_url,
        url(config, Signal::Metrics) == config.metrics_url,
        no_batches().traces.len() == 0,
        no_batches().logs.len() == 0,
        no_batches().metrics.len() == 0,
{
}

/// A message joins the batch of its signal behind those that wait there, and a batch that leaves
/// is empty; the batches of other signals stay.
pub proof fn lemma_other_signals_stay(
    batches: BatchesModel,
    signal: Signal,
    other: Signal,
    message: Seq<u8>,
)
    requires
        other != signal,
    ensures
        batch(pushed(batches, signal, message), signal).len() == batch(batches, signal).len() + 1,
        batch(pushed(batches, signal, message), signal).last() == message,
        batch(pushed(batches, signal, message), signal).drop_last() == batch(batches, signal),
        batch(pushed(batches, signal, message), other) == batch(batches, other),
        batch(emptied(batches, signal), signal).len() == 0,
        batch(emptied(batches, signal), other) == batch(batches, other),
{
    assert(batch(pushed(batches, signal, message), signal).drop_last() =~= batch(
        batches,
        signal,
    ));
}

/// A batch is full once it has as many messages as the configuration says. It leaves as a post to
/// the URL of its signal, with its messages laid end to end, unless it is empty or there is none.
pub proof fn lemma_batch_leaves_as_post(
    batches: BatchesModel,
    config: ConfigModel,
    signal: Signal,
)
    ensures
        full(batches, config, signal) <==> batch(batches, signal).len() >= config.batch_size,
        postable(batches, config, signal) <==> batch(batches, signal).len() > 0 && url(
            config,
            signal,
        ) is Some,
        post(batches, config, signal) is Some <==> batch(batches, signal).len() > 0 && url(
            config,
            signal,
        ) is Some,
        post(batches, config, signal) matches Some(post) ==> url(config, signal) == Some(post.url)
            && post.payload == payload::joined(batch(batches, signal)),
{
}

} // verus!
