//! How the web endpoint answers a request.

use vstd::prelude::*;
use vstd::string::*;
use crate::text::text_eq;

verus! {

/// The path under which the metrics are served.
pub open spec fn metrics_path() -> Seq<char> {
    "/metrics"@
}

/// The answer to a request: serve the metrics with status 200, or redirect
/// to the metrics path with status 301 and an empty body.
pub struct ResponsePlan {
    pub status: u16,
    pub serve_metrics: bool,
    pub location: Option<String>,
}

/// Answers a request for `target`: a request for exactly `/metrics` gets the
/// metrics; any other is sent there.
pub fn plan_response(target: &str) -> (r: ResponsePlan)
    ensures
        target@ == metrics_path() ==> r.status == 200 && r.serve_metrics && r.location is None,
        target@ != metrics_path() ==> r.status == 301 && !r.serve_metrics && (r.location matches Some(
            l,
        ) && l@ == metrics_path()),
{
    if text_eq(target, "/metrics") {
        ResponsePlan { status: 200, serve_metrics: true, location: None }
    } else {
        ResponsePlan { status: 301, serve_metrics: false, location: Some(String::from_str("/metrics")) }
    }
}

} // verus!
