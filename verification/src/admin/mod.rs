//! The admin server: health, metrics, and the Model Context Protocol, over HTTP.
//!
//! - `GET /health` tells that the broker is alive;
//! - `GET /metrics` gives the metrics as Prometheus text;
//! - `POST /mcp` answers JSON-RPC requests.
use vstd::prelude::*;
use crate::admin::http::{bytes_of, Request, RequestView, Response, ResponseView};
use crate::admin::mcp::{answers_body, handle_mcp_http};
use crate::broker::{Broker, BrokerView};
use crate::config::Secret;
use crate::json::{content, json_text, value_text, JsonView};
use crate::metrics::snapshot::{build_info, lines_of};
use crate::metrics::Snapshot;
use crate::text;
use crate::text::str_eq;

pub mod http;
pub mod mcp;

verus! {

broadcast use text::group_views;

/// Whether two tokens are equal. Every byte of both is looked at, whatever they
/// are, so that the time it takes says nothing of where they differ.
pub fn tokens_match(a: &str, b: &str) -> (r: bool)
    ensures
        r == (a@ == b@),
{
    let x: &[u8] = a.as_bytes();
    let y: &[u8] = b.as_bytes();
    let longest: usize = if x.len() > y.len() {
        x.len()
    } else {
        y.len()
    };
    let mut diff: u8 = if x.len() != y.len() {
        1
    } else {
        0
    };
    let mut i: usize = 0;
    while i < longest
        invariant
            i <= longest,
            longest >= x@.len(),
            longest >= y@.len(),
            x@.len() == y@.len() ==> longest == x@.len(),
            (diff == 0) == (x@.len() == y@.len() && forall|j: int| 0 <= j < i ==> x@[j] == y@[j]),
        decreases longest - i,
    {
        let p: u8 = if i < x.len() {
            x[i]
        } else {
            0
        };
        let q: u8 = if i < y.len() {
            y[i]
        } else {
            0
        };
        assert(((diff | (p ^ q)) == 0) == (diff == 0 && p == q)) by (bit_vector);
        diff = diff | (p ^ q);
        i = i + 1;
    }
    proof {
        text::lemma_encode_utf8_injective(a@, b@);
        if diff == 0 {
            assert(x@ =~= y@);
        }
    }
    diff == 0
}

/// Whether a request may pass where a token is asked for.
pub open spec fn lets_pass(expected: Option<Seq<char>>, got: Option<Seq<char>>) -> bool {
    match expected {
        None => true,
        Some(e) => got == Some(e),
    }
}

/// Whether a request may pass where a token is asked for.
pub fn authorized(expected: &Option<Secret>, bearer: &Option<String>) -> (r: bool)
    ensures
        r == lets_pass(text::opt_view(*expected), text::opt_view(*bearer)),
{
    match expected {
        None => true,
        Some(e) => match bearer {
            Some(got) => tokens_match(got.as_str(), e.expose()),
            None => false,
        },
    }
}

/// Whether a request is answered without a token: the preflight of a browser,
/// and what tells that the broker is alive.
pub open spec fn is_open(method: Seq<char>, path: Seq<char>) -> bool {
    ||| method == "OPTIONS"@
    ||| method == "GET"@ && (path == "/health"@ || path == "/healthz"@ || path == "/"@)
}

/// An answer with a text.
pub open spec fn answer(
    status: Seq<char>,
    content_type: Seq<char>,
    body: Seq<char>,
) -> ResponseView {
    ResponseView { status, content_type, body: vstd::utf8::encode_utf8(body) }
}

/// An answer without a body.
pub open spec fn bare(status: Seq<char>, content_type: Seq<char>) -> ResponseView {
    ResponseView { status, content_type, body: Seq::empty() }
}

/// The answer to a request without the token that is asked for.
pub open spec fn unauthorized() -> ResponseView {
    answer(
        "401 Unauthorized"@,
        "application/json"@,
        "{\"error\":\"missing or invalid bearer token\"}"@,
    )
}

/// Whether an answer is that to a request which may pass, and what it makes of
/// the broker.
pub open spec fn serves(
    b: BrokerView,
    req: RequestView,
    now: u64,
    uptime: u64,
    after: BrokerView,
    r: ResponseView,
) -> bool {
    if req.method == "OPTIONS"@ {
        after == b && r == bare("204 No Content"@, "text/plain"@)
    } else if req.method == "GET"@ && (req.path == "/health"@ || req.path == "/healthz"@) {
        after == b && r == answer("200 OK"@, "application/json"@, "{\"status\":\"ok\"}"@)
    } else if req.method == "GET"@ && req.path == "/metrics"@ {
        after == b.purged(now) && r == answer(
            "200 OK"@,
            "text/plain; version=0.0.4"@,
            metrics_text(after.statistics(uptime)),
        )
    } else if req.method == "POST"@ && req.path == "/mcp"@ {
        exists|v: Option<JsonView>| #[trigger]
            answers_body(b, req.body, now, uptime, after, v) && r == match v {
                Some(j) => answer("200 OK"@, "application/json"@, json_text(j)),
                None => bare("202 Accepted"@, "application/json"@),
            }
    } else if req.method == "GET"@ && req.path == "/mcp"@ {
        after == b && r == answer(
            "405 Method Not Allowed"@,
            "application/json"@,
            "{\"error\":\"use POST for JSON-RPC; SSE streaming is not supported\"}"@,
        )
    } else if req.method == "GET"@ && req.path == "/"@ {
        after == b && r == answer(
            "200 OK"@,
            "text/plain"@,
            "mqtt-broker admin: GET /health, GET /metrics, POST /mcp\n"@,
        )
    } else {
        after == b && r == answer(
            "404 Not Found"@,
            "application/json"@,
            "{\"error\":\"not found\"}"@,
        )
    }
}

/// The metrics of a snapshot as text.
pub open spec fn metrics_text(s: Snapshot) -> Seq<char> {
    lines_of(s.all_series()) + build_info(s.version@)
}

/// Whether an answer is that to a request, and what it makes of the broker.
pub open spec fn routes(
    b: BrokerView,
    req: RequestView,
    now: u64,
    uptime: u64,
    after: BrokerView,
    r: ResponseView,
) -> bool {
    if !is_open(req.method, req.path) && !lets_pass(b.config.admin_token, req.bearer) {
        after == b && r == unauthorized()
    } else {
        serves(b, req, now, uptime, after, r)
    }
}

fn text_answer(status: &'static str, content_type: &'static str, body: &str) -> (r: Response)
    ensures
        r@ == answer(status@, content_type@, body@),
{
    Response { status, content_type, body: bytes_of(body) }
}

fn serve_get(broker: &mut Broker, path: &str, now: u64, uptime: u64) -> (r: Response)
    requires
        old(broker).wf(),
    ensures
        final(broker).wf(),
        forall|req: RequestView| #[trigger]
            is_get(req, path@) ==> serves(old(broker)@, req, now, uptime, final(broker)@, r@),
{
    proof {
        lemma_methods();
    }
    if str_eq(path, "/health") || str_eq(path, "/healthz") {
        text_answer("200 OK", "application/json", "{\"status\":\"ok\"}")
    } else if str_eq(path, "/metrics") {
        let s: Snapshot = broker.snapshot(now, uptime);
        let body: String = s.to_prometheus();
        text_answer("200 OK", "text/plain; version=0.0.4", body.as_str())
    } else if str_eq(path, "/mcp") {
        text_answer(
            "405 Method Not Allowed",
            "application/json",
            "{\"error\":\"use POST for JSON-RPC; SSE streaming is not supported\"}",
        )
    } else if str_eq(path, "/") {
        text_answer(
            "200 OK",
            "text/plain",
            "mqtt-broker admin: GET /health, GET /metrics, POST /mcp\n",
        )
    } else {
        text_answer("404 Not Found", "application/json", "{\"error\":\"not found\"}")
    }
}

spec fn is_get(req: RequestView, path: Seq<char>) -> bool {
    req.method == "GET"@ && req.path == path
}

proof fn lemma_methods()
    ensures
        "GET"@ != "OPTIONS"@,
        "GET"@ != "POST"@,
        "POST"@ != "OPTIONS"@,
{
    reveal_strlit("GET");
    reveal_strlit("OPTIONS");
    reveal_strlit("POST");
    assert("GET"@.len() != "OPTIONS"@.len());
    assert("GET"@.len() != "POST"@.len());
    assert("POST"@.len() != "OPTIONS"@.len());
}

/// Answers a request at `now`, `uptime` seconds after the start.
pub fn route(broker: &mut Broker, req: &Request, now: u64, uptime: u64) -> (r: Response)
    requires
        old(broker).wf(),
    ensures
        final(broker).wf(),
        routes(old(broker)@, req@, now, uptime, final(broker)@, r@),
{
    let method: &str = req.method.as_str();
    let path: &str = req.path.as_str();
    let open: bool = str_eq(method, "OPTIONS") || (str_eq(method, "GET") && (str_eq(path, "/health")
        || str_eq(path, "/healthz") || str_eq(path, "/")));
    if !open && !authorized(&broker.config().admin_token, &req.bearer) {
        return text_answer(
            "401 Unauthorized",
            "application/json",
            "{\"error\":\"missing or invalid bearer token\"}",
        );
    }
    proof {
        lemma_methods();
    }
    let ghost before = broker@;
    if str_eq(method, "OPTIONS") {
        let body: Vec<u8> = Vec::new();
        let r: Response = Response { status: "204 No Content", content_type: "text/plain", body };
        assert(r@ == bare("204 No Content"@, "text/plain"@));
        r
    } else if str_eq(method, "GET") {
        assert(is_get(req@, path@));
        serve_get(broker, path, now, uptime)
    } else if str_eq(method, "POST") && str_eq(path, "/mcp") {
        match handle_mcp_http(broker, req.body.as_slice(), now, uptime) {
            Some(v) => {
                assert(answers_body(before, req@.body, now, uptime, broker@, Some(content(v))));
                text_answer("200 OK", "application/json", value_text(&v).as_str())
            },
            None => {
                assert(answers_body(before, req@.body, now, uptime, broker@, None));
                let body: Vec<u8> = Vec::new();
                let r: Response = Response {
                    status: "202 Accepted",
                    content_type: "application/json",
                    body,
                };
                assert(r@ == bare("202 Accepted"@, "application/json"@));
                r
            },
        }
    } else {
        text_answer("404 Not Found", "application/json", "{\"error\":\"not found\"}")
    }
}

/// Where a token is asked for, a request without it is told nothing of the
/// broker and changes nothing, unless it is one that everyone may make.
pub proof fn a_token_guards_the_rest(
    b: BrokerView,
    req: RequestView,
    now: u64,
    uptime: u64,
    after: BrokerView,
    r: ResponseView,
)
    requires
        b.config.admin_token is Some,
        req.bearer != b.config.admin_token,
        !is_open(req.method, req.path),
        routes(b, req, now, uptime, after, r),
    ensures
        r == unauthorized(),
        after == b,
{
}

/// Whether the broker is alive is told to everyone.
pub proof fn health_needs_no_token(
    b: BrokerView,
    req: RequestView,
    now: u64,
    uptime: u64,
    after: BrokerView,
    r: ResponseView,
)
    requires
        req.method == "GET"@,
        req.path == "/health"@,
        routes(b, req, now, uptime, after, r),
    ensures
        r == answer("200 OK"@, "application/json"@, "{\"status\":\"ok\"}"@),
        after == b,
{
    lemma_methods();
}

/// A request with the token that is asked for is never refused for want of it,
/// and where none is asked for no request is.
pub proof fn the_token_opens(
    b: BrokerView,
    req: RequestView,
    now: u64,
    uptime: u64,
    after: BrokerView,
    r: ResponseView,
)
    requires
        b.config.admin_token is None || req.bearer == b.config.admin_token,
        routes(b, req, now, uptime, after, r),
    ensures
        r.status != "401 Unauthorized"@,
{
    reveal_strlit("401 Unauthorized");
    reveal_strlit("204 No Content");
    reveal_strlit("200 OK");
    reveal_strlit("202 Accepted");
    reveal_strlit("405 Method Not Allowed");
    reveal_strlit("404 Not Found");
    assert("401 Unauthorized"@[0] == '4' && "401 Unauthorized"@[2] == '1');
    assert("204 No Content"@[0] == '2');
    assert("200 OK"@[0] == '2');
    assert("202 Accepted"@[0] == '2');
    assert("405 Method Not Allowed"@[2] == '5');
    assert("404 Not Found"@[2] == '4');
}

/// The metrics are told to whoever may ask: those of the broker at that time,
/// without the retained messages that have expired by then.
pub proof fn metrics_are_those_of_the_broker(
    b: BrokerView,
    req: RequestView,
    now: u64,
    uptime: u64,
    after: BrokerView,
    r: ResponseView,
)
    requires
        b.config.admin_token is None || req.bearer == b.config.admin_token,
        req.method == "GET"@,
        req.path == "/metrics"@,
        routes(b, req, now, uptime, after, r),
    ensures
        r.status == "200 OK"@,
        r.body == vstd::utf8::encode_utf8(metrics_text(b.purged(now).statistics(uptime))),
        after == b.purged(now),
{
    lemma_methods();
    reveal_strlit("/metrics");
    reveal_strlit("/health");
    reveal_strlit("/healthz");
    assert("/metrics"@[1] == 'm');
    assert("/health"@[1] == 'h');
    assert("/healthz"@[1] == 'h');
}

/// A request for anything else is answered that it is not found, and changes
/// nothing.
pub proof fn other_paths_are_not_found(
    b: BrokerView,
    req: RequestView,
    now: u64,
    uptime: u64,
    after: BrokerView,
    r: ResponseView,
)
    requires
        b.config.admin_token is None || req.bearer == b.config.admin_token,
        req.method != "OPTIONS"@,
        req.path != "/health"@,
        req.path != "/healthz"@,
        req.path != "/metrics"@,
        req.path != "/mcp"@,
        req.path != "/"@,
        routes(b, req, now, uptime, after, r),
    ensures
        r.status == "404 Not Found"@,
        after == b,
{
}

} // verus!
