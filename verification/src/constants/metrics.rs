//! Names of the metric events that the request middleware emits.

use vstd::prelude::*;

verus! {

pub const REQUEST_DURATION: &'static str = "http.server.request.duration";

pub const REQUEST_COUNT: &'static str = "http.server.request.count";

pub const ERROR_COUNT: &'static str = "http.server.error.count";

} // verus!
