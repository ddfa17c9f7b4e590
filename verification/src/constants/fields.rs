//! Names of span fields.
//!
//! A span field named `TRACE_ID` whose value is 32 hexadecimal digits is taken as the
//! trace id of the span.

use vstd::prelude::*;

verus! {

pub const TRACE_ID: &'static str = "trace_id";

pub const SPAN_ID: &'static str = "span_id";

pub const HTTP_METHOD: &'static str = "http.method";

pub const HTTP_URI: &'static str = "http.uri";

pub const HTTP_STATUS_CODE: &'static str = "http.status_code";

pub const HTTP_LATENCY_MS: &'static str = "http.latency_ms";

pub const CF_REQUEST_ID: &'static str = "cf.request_id";

/// The kind of a span; not an attribute.
pub const OTEL_KIND: &'static str = "otel.kind";

/// The status code of a span; not an attribute.
pub const OTEL_STATUS_CODE: &'static str = "otel.status_code";

/// The status message of a span; not an attribute.
pub const OTEL_STATUS_MESSAGE: &'static str = "otel.status_message";

} // verus!
