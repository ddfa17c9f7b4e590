//! What is recorded of an HTTP request: the CloudFront request id and the trace id that follows
//! from it when the request comes in, the RED metrics (rate, errors, duration) when it is done.
use vstd::prelude::*;

use crate::constants::metrics;
use crate::hex;
use crate::trace_id;
use crate::trace_id::{generate_span_id, generate_trace_id, hex_encode};

verus! {

/// The header that carries the CloudFront request id.
pub const REQUEST_ID_HEADER: &'static str = "x-amz-cf-id";

/// What is shown for a request without an id.
pub const NO_REQUEST_ID: &'static str = "-";

/// The lowest HTTP status that counts as an error.
pub const FIRST_ERROR_STATUS: u16 = 400;

/// Layer that extracts `x-amz-cf-id` and wraps requests in a tracing span.
#[derive(Clone, Debug)]
pub struct CfRequestIdLayer;

/// The service that [`CfRequestIdLayer`] puts around another one.
#[derive(Clone, Debug)]
pub struct CfRequestIdService<S> {
    inner: S,
}

impl CfRequestIdLayer {
    /// Puts the service around another one.
    pub fn layer<S>(&self, inner: S) -> (service: CfRequestIdService<S>)
        ensures
            service.wrapped() == inner,
    {
        CfRequestIdService { inner }
    }
}

impl<S> CfRequestIdService<S> {
    /// The service that requests are passed on to.
    pub closed spec fn wrapped(&self) -> S {
        self.inner
    }

    /// The service that requests are passed on to.
    pub fn inner(&mut self) -> (inner: &mut S)
        ensures
            *inner == old(self).wrapped(),
            final(self).wrapped() == *final(inner),
    {
        &mut self.inner
    }
}

/// Whether a byte is visible ASCII or a tab.
pub open spec fn visible(b: u8) -> bool {
    32 <= b < 127 || b == 9
}

/// The text of a header value: none where a byte of it is not visible ASCII.
pub open spec fn header_text_of(value: Seq<u8>) -> Option<Seq<char>> {
    if forall|i: int| 0 <= i < value.len() ==> visible(#[trigger] value[i]) {
        Some(value.map_values(|b: u8| b as char))
    } else {
        None
    }
}

/// What an optional text says.
pub open spec fn text_model(text: Option<String>) -> Option<Seq<char>> {
    match text {
        Some(text) => Some(text@),
        None => None,
    }
}

/// `http::HeaderValue::from_bytes` and then `HeaderValue::to_str`: the bytes of a header value
/// as text, character by character, if each of them is visible ASCII or a tab, and nothing
/// otherwise.
#[verifier::external_body]
fn header_text(value: &[u8]) -> (text: Option<String>)
    ensures
        text_model(text) == header_text_of(value@),
{
    let value = http::HeaderValue::from_bytes(value).ok()?;
    value.to_str().ok().map(str::to_owned)
}

/// The request id that the bytes of the `x-amz-cf-id` header give.
pub fn request_id(header: Option<&[u8]>) -> (id: Option<String>)
    ensures
        text_model(id) == (match header {
            Some(value) => header_text_of(value@),
            None => None,
        }),
{
    match header {
        Some(value) => header_text(value),
        None => None,
    }
}

/// The fields of the span that a request runs in.
pub struct RequestSpan {
    pub method: String,
    pub uri: String,
    /// The request id, or `-`.
    pub request_id: String,
    /// The trace id in hexadecimal.
    pub trace_id: String,
    /// The span id in hexadecimal.
    pub span_id: String,
}

/// Whether a request id decides the trace id.
pub open spec fn decides_trace(id: Option<Seq<char>>) -> bool {
    match id {
        Some(id) => id.len() > 0 && id != "-"@,
        None => false,
    }
}

/// The text of sixteen random bytes that are marked as a random UUID.
pub open spec fn random_trace_text(text: Seq<char>) -> bool {
    exists|bytes: Seq<u8>|
        bytes.len() == 16 && bytes[6] / 16 == 4 && bytes[8] / 64 == 2 && text
            == #[trigger] hex::hex_text(bytes)
}

/// The text of eight bytes.
pub open spec fn span_text(text: Seq<char>) -> bool {
    exists|bytes: Seq<u8>| bytes.len() == 8 && text == #[trigger] hex::hex_text(bytes)
}

impl RequestSpan {
    /// The fields of the span of a request. The trace id follows from the request id, where
    /// there is one; the span id is random.
    pub fn new(method: String, uri: String, request_id: Option<String>) -> (span: RequestSpan)
        ensures
            span.method == method,
            span.uri == uri,
            span.request_id@ == (match request_id {
                Some(id) => id@,
                None => NO_REQUEST_ID@,
            }),
            decides_trace(text_model(request_id)) ==> span.trace_id@ == hex::hex_text(
                trace_id::blake3_digest(vstd::utf8::encode_utf8(request_id->0@)).take(16),
            ),
            !decides_trace(text_model(request_id)) ==> random_trace_text(span.trace_id@),
            request_id matches Some(id) && id@.len() > 0 && id@ != "-"@ ==> span.trace_id@
                == hex::hex_text(
                trace_id::blake3_digest(vstd::utf8::encode_utf8(request_id->0@)).take(16),
            ),
            request_id is None ==> random_trace_text(span.trace_id@) && span.request_id@ == "-"@,
            request_id is None || request_id->0@.len() == 0 || request_id->0@ == "-"@ ==> exists|
                bytes: Seq<u8>,
            |
                bytes.len() == 16 && bytes[6] / 16 == 4 && bytes[8] / 64 == 2 && span.trace_id@
                    == #[trigger] hex::hex_text(bytes),
            span_text(span.span_id@),
    {
        let trace_id: [u8; 16] = match &request_id {
            Some(id) => generate_trace_id(Some(id.as_str())),
            None => generate_trace_id(None),
        };
        let span_id: [u8; 8] = generate_span_id();
        let trace_text = hex_encode(&trace_id);
        let span_text = hex_encode(&span_id);
        assert(trace_text@ == hex::hex_text(trace_id@));
        assert(span_text@ == hex::hex_text(span_id@));
        RequestSpan {
            method,
            uri,
            request_id: match request_id {
                Some(id) => id,
                None => NO_REQUEST_ID.to_owned(),
            },
            trace_id: trace_text,
            span_id: span_text,
        }
    }
}

/// What kind of metric an event reports, with its value.
#[derive(Clone, Copy, Debug, PartialEq, Eq, Structural)]
pub enum MetricValue {
    /// A value of a histogram, by the bits of the double.
    Histogram(u64),
    /// An amount of a counter.
    Counter(u64),
}

/// A metric event of a request.
#[derive(Clone, Copy, Debug)]
pub struct RequestMetric {
    pub name: &'static str,
    pub value: MetricValue,
}

/// What a [`RequestMetric`] says.
pub struct RequestMetricModel {
    pub name: Seq<char>,
    pub value: MetricValue,
}

impl View for RequestMetric {
    type V = RequestMetricModel;

    open spec fn view(&self) -> RequestMetricModel {
        RequestMetricModel { name: self.name@, value: self.value }
    }
}

/// What several metric events say.
pub open spec fn metrics_model(events: Seq<RequestMetric>) -> Seq<RequestMetricModel> {
    Seq::new(events.len(), |i: int| events[i]@)
}

/// The metric events of a request: its duration and its count, and an error where its status is
/// one. A request that failed without a response has none.
pub open spec fn red_metrics(status: Option<u16>, latency_ms: u64) -> Seq<RequestMetricModel> {
    match status {
        Some(status) => {
            let done = seq![
                RequestMetricModel {
                    name: metrics::REQUEST_DURATION@,
                    value: MetricValue::Histogram(latency_ms),
                },
                RequestMetricModel {
                    name: metrics::REQUEST_COUNT@,
                    value: MetricValue::Counter(1),
                },
            ];
            if status >= FIRST_ERROR_STATUS {
                done.push(
                    RequestMetricModel {
                        name: metrics::ERROR_COUNT@,
                        value: MetricValue::Counter(1),
                    },
                )
            } else {
                done
            }
        },
        None => seq![],
    }
}

/// The metric events of a request that is done, in order. `status` is that of the response, and
/// missing where there was none; `latency_ms` is the time that it took, in milliseconds, by the
/// bits of the double.
pub fn finish_request(status: Option<u16>, latency_ms: u64) -> (events: Vec<RequestMetric>)
    ensures
        metrics_model(events@) == red_metrics(status, latency_ms),
        status is None ==> events@.len() == 0,
        status matches Some(s) ==> {
            &&& events@.len() == (if s >= 400 {
                3nat
            } else {
                2
            })
            &&& events@[0].name@ == "http.server.request.duration"@
            &&& events@[0].value == MetricValue::Histogram(latency_ms)
            &&& events@[1].name@ == "http.server.request.count"@
            &&& events@[1].value == MetricValue::Counter(1)
            &&& s >= 400 ==> events@[2].name@ == "http.server.error.count"@ && events@[2].value
                == MetricValue::Counter(1)
        },
{
    let mut events: Vec<RequestMetric> = Vec::new();
    if let Some(status) = status {
        events.push(
            RequestMetric {
                name: metrics::REQUEST_DURATION,
                value: MetricValue::Histogram(latency_ms),
            },
        );
        events.push(
            RequestMetric { name: metrics::REQUEST_COUNT, value: MetricValue::Counter(1) },
        );
        if status >= FIRST_ERROR_STATUS {
            events.push(
                RequestMetric { name: metrics::ERROR_COUNT, value: MetricValue::Counter(1) },
            );
        }
    }
    assert(metrics_model(events@) =~= red_metrics(status, latency_ms));
    events
}

/// How many events report this value of the metric with this name.
pub open spec fn reports(
    events: Seq<RequestMetricModel>,
    name: Seq<char>,
    value: MetricValue,
) -> nat {
    events.filter(|event: RequestMetricModel| event.name == name && event.value == value).len()
}

/// How many events report any value of the metric with this name.
pub open spec fn reports_named(events: Seq<RequestMetricModel>, name: Seq<char>) -> nat {
    events.filter(|event: RequestMetricModel| event.name == name).len()
}

/// Every answered request is counted once and its duration is observed once; it counts once as an
/// error if its status is 400 or more, and else not at all. A request without an answer reports
/// nothing.
pub proof fn lemma_request_is_reported(status: u16, latency_ms: u64)
    ensures
        ({
            let events = red_metrics(Some(status), latency_ms);
            let errors: nat = if status >= 400 {
                1
            } else {
                0
            };
            &&& reports(events, "http.server.request.duration"@, MetricValue::Histogram(latency_ms)) == 1
            &&& reports_named(events, "http.server.request.duration"@) == 1
            &&& reports(events, "http.server.request.count"@, MetricValue::Counter(1)) == 1
            &&& reports_named(events, "http.server.request.count"@) == 1
            &&& reports(events, "http.server.error.count"@, MetricValue::Counter(1)) == errors
            &&& reports_named(events, "http.server.error.count"@) == errors
            &&& events.len() == 2 + errors
        }),
        red_metrics(None, latency_ms).len() == 0,
{
    reveal(Seq::filter);
    reveal_with_fuel(Seq::filter, 4);
    reveal_strlit("http.server.request.duration");
    reveal_strlit("http.server.request.count");
    reveal_strlit("http.server.error.count");
    assert("http.server.request.duration"@.len() == 28);
    assert("http.server.request.count"@.len() == 25);
    assert("http.server.error.count"@.len() == 23);
    let events = red_metrics(Some(status), latency_ms);
    let done = red_metrics(Some(0), latency_ms);
    assert(done.drop_last() =~= seq![done[0]]);
    assert(done.drop_last().drop_last() =~= seq![]);
    if status >= 400 {
        assert(events.drop_last() =~= done);
    } else {
        assert(events =~= done);
    }
}

/// A longer or shorter request is reported alike but for its duration.
pub proof fn lemma_only_duration_differs(status: u16, a: u64, b: u64)
    ensures
        red_metrics(Some(status), a).skip(1) == red_metrics(Some(status), b).skip(1),
        red_metrics(Some(status), a)[0].name == red_metrics(Some(status), b)[0].name,
{
    assert(red_metrics(Some(status), a).skip(1) =~= red_metrics(Some(status), b).skip(1));
}

} // verus!
