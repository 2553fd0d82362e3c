//! What the metrics port answers to which request.
use vstd::prelude::*;

use crate::text;

verus! {

/// What is asked for on the metrics port.
#[derive(Debug, PartialEq, Eq, Structural, Copy, Clone)]
pub enum Route {
    /// The metrics.
    Metrics,
    /// Whether the server is there.
    Health,
    /// Nothing that there is.
    NotFound,
}

/// What a path asks for.
pub open spec fn route_of(path: Seq<char>) -> Route {
    if path == "/metrics"@ {
        Route::Metrics
    } else if path == "/healthz"@ || path == "/health"@ {
        Route::Health
    } else {
        Route::NotFound
    }
}

/// What a path asks for.
pub fn route(path: &str) -> (r: Route)
    ensures
        r == route_of(path@),
{
    if text::same_text(path, "/metrics") {
        Route::Metrics
    } else if text::same_text(path, "/healthz") || text::same_text(path, "/health") {
        Route::Health
    } else {
        Route::NotFound
    }
}

/// An answer of the metrics port.
#[derive(Debug)]
pub struct HttpAnswer {
    /// The HTTP status.
    pub status: u16,
    /// What the body is, where the answer tells.
    pub content_type: Option<String>,
    pub body: String,
}

/// Whether the answer is the one to a request for the path, where these are the metrics.
pub open spec fn is_answer(a: HttpAnswer, path: Seq<char>, metrics: Seq<char>) -> bool {
    match route_of(path) {
        Route::Metrics => {
            &&& a.status == 200
            &&& a.content_type matches Some(t) && t@ == "text/plain; version=0.0.4; charset=utf-8"@
            &&& a.body@ == metrics
        },
        Route::Health => {
            &&& a.status == 200
            &&& a.content_type matches Some(t) && t@ == "text/plain; charset=utf-8"@
            &&& a.body@ == "ok"@
        },
        Route::NotFound => {
            &&& a.status == 404
            &&& a.content_type is None
            &&& a.body@ == "not found"@
        },
    }
}

/// The answer to a request for the path, where these are the metrics.
pub fn answer(path: &str, metrics: String) -> (a: HttpAnswer)
    ensures
        is_answer(a, path@, metrics@),
{
    match route(path) {
        Route::Metrics => HttpAnswer {
            status: 200,
            content_type: Some("text/plain; version=0.0.4; charset=utf-8".to_owned()),
            body: metrics,
        },
        Route::Health => HttpAnswer {
            status: 200,
            content_type: Some("text/plain; charset=utf-8".to_owned()),
            body: "ok".to_owned(),
        },
        Route::NotFound => HttpAnswer {
            status: 404,
            content_type: None,
            body: "not found".to_owned(),
        },
    }
}

/// The metrics are found under one path, whether the server is there under two, and nothing under any
/// other.
pub proof fn law_each_page_has_its_path(a: HttpAnswer, path: Seq<char>, metrics: Seq<char>)
    requires
        is_answer(a, path, metrics),
    ensures
        path == "/metrics"@ ==> a.status == 200 && a.body@ == metrics,
        path == "/healthz"@ || path == "/health"@ ==> a.status == 200 && a.body@ == "ok"@,
        path != "/metrics"@ && path != "/healthz"@ && path != "/health"@ ==> a.status == 404,
{
    reveal_strlit("/metrics");
    reveal_strlit("/healthz");
    reveal_strlit("/health");
    assert("/metrics"@[1] == 'm' && "/healthz"@[1] == 'h');
}

} // verus!
