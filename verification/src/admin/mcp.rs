//! The Model Context Protocol: JSON-RPC requests, alone or in a batch, that ask
//! the broker about itself. Nothing here changes what clients see.
use vstd::prelude::*;
use crate::broker::stats::{
    clients_sorted, retained_sorted, ClientInfo, ClientInfoView, RetainedInfo, RetainedInfoView,
};
use crate::broker::{Broker, BrokerView};
use crate::config::VERSION;
use crate::json;
use crate::json::{
    array_value, bool_value, content, int_value, is_array, json_of_value, null_value, number_value,
    number_view, object_value, open_value, parse_slice, push_member, str_value, value_items,
    value_members, value_pretty, Json, JsonView, Opened,
};
use crate::metrics::Snapshot;
use crate::text;
use crate::text::{concat, str_eq};
use serde_json::Value;

verus! {

/// Revision of the protocol that is spoken where a client names none.
pub const MCP_PROTOCOL_VERSION: &'static str = "2024-11-05";

/// Name under which the broker presents itself.
pub const SERVER_NAME: &'static str = "mqtt-broker";

/// Error code: the body is no JSON.
pub const PARSE_ERROR: i64 = -32700;

/// Error code: there is no such method.
pub const METHOD_NOT_FOUND: i64 = -32601;

/// Error code: the parameters are wrong.
pub const INVALID_PARAMS: i64 = -32602;

/// An object with the given members.
pub open spec fn obj(members: Map<Seq<char>, JsonView>) -> JsonView {
    JsonView::Object(members)
}

/// An object without members.
pub open spec fn none() -> Map<Seq<char>, JsonView> {
    Map::empty()
}

/// The answer to a request that was met.
pub open spec fn ok_reply(id: JsonView, value: JsonView) -> JsonView {
    obj(
        none().insert("jsonrpc"@, JsonView::Str("2.0"@)).insert("id"@, id).insert(
            "result"@,
            value,
        ),
    )
}

/// The answer to a request that failed.
pub open spec fn error_reply(id: JsonView, code: i64, message: Seq<char>) -> JsonView {
    obj(
        none().insert("jsonrpc"@, JsonView::Str("2.0"@)).insert("id"@, id).insert(
            "error"@,
            obj(
                none().insert("code"@, JsonView::Int(code)).insert(
                    "message"@,
                    JsonView::Str(message),
                ),
            ),
        ),
    )
}

fn ok_value(id: Value, value: Value) -> (r: Value)
    ensures
        content(r) == ok_reply(content(id), content(value)),
{
    let mut m: Vec<(String, Value)> = Vec::new();
    push_member(&mut m, "jsonrpc", str_value("2.0"));
    push_member(&mut m, "id", id);
    push_member(&mut m, "result", value);
    object_value(m)
}

fn error_value(id: Value, code: i64, message: &str) -> (r: Value)
    ensures
        content(r) == error_reply(content(id), code, message@),
{
    let mut e: Vec<(String, Value)> = Vec::new();
    push_member(&mut e, "code", int_value(code));
    push_member(&mut e, "message", str_value(message));
    let mut m: Vec<(String, Value)> = Vec::new();
    push_member(&mut m, "jsonrpc", str_value("2.0"));
    push_member(&mut m, "id", id);
    push_member(&mut m, "error", object_value(e));
    object_value(m)
}

/// The schema of a tool that takes no arguments.
pub open spec fn empty_schema() -> JsonView {
    obj(
        none().insert("type"@, JsonView::Str("object"@)).insert("properties"@, obj(none())).insert(
            "additionalProperties"@,
            JsonView::Bool(false),
        ),
    )
}

/// How a tool is described.
pub open spec fn tool(name: Seq<char>, description: Seq<char>) -> JsonView {
    obj(
        none().insert("name"@, JsonView::Str(name)).insert(
            "description"@,
            JsonView::Str(description),
        ).insert("inputSchema"@, empty_schema()),
    )
}

/// What the tool for statistics does.
pub const STATS_HELP: &'static str = "Return broker counters and gauges (connections, packets, bytes, publishes, current clients/sessions/retained/subscriptions).";

/// What the tool for clients does.
pub const CLIENTS_HELP: &'static str = "List all sessions with online status, subscription/inflight/queued counts and session expiry.";

/// What the tool for retained messages does.
pub const RETAINED_HELP: &'static str = "List retained messages with their topic, payload size in bytes and QoS.";

/// The tools that are offered.
pub open spec fn tools() -> Seq<JsonView> {
    seq![
        tool("broker_stats"@, STATS_HELP@),
        tool("list_clients"@, CLIENTS_HELP@),
        tool("list_retained"@, RETAINED_HELP@),
    ]
}

fn tool_value(name: &str, description: &str) -> (r: Value)
    ensures
        content(r) == tool(name@, description@),
{
    let mut schema: Vec<(String, Value)> = Vec::new();
    push_member(&mut schema, "type", str_value("object"));
    push_member(&mut schema, "properties", object_value(Vec::new()));
    push_member(&mut schema, "additionalProperties", bool_value(false));
    let mut m: Vec<(String, Value)> = Vec::new();
    push_member(&mut m, "name", str_value(name));
    push_member(&mut m, "description", str_value(description));
    push_member(&mut m, "inputSchema", object_value(schema));
    object_value(m)
}

/// The tools that are offered.
pub fn tool_definitions() -> (r: Value)
    ensures
        content(r) == JsonView::Array(tools()),
{
    let mut v: Vec<Value> = Vec::new();
    v.push(tool_value("broker_stats", STATS_HELP));
    v.push(tool_value("list_clients", CLIENTS_HELP));
    v.push(tool_value("list_retained", RETAINED_HELP));
    assert(value_items(v@) =~= tools());
    array_value(v)
}

/// What the tool for statistics tells.
pub open spec fn stats_payload(s: Snapshot) -> JsonView {
    obj(
        none().insert("connections_total"@, number_view(s.connections_total)).insert("packets_received"@, number_view(s.packets_received)).insert("packets_sent"@, number_view(s.packets_sent)).insert("bytes_received"@, number_view(s.bytes_received)).insert("bytes_sent"@, number_view(s.bytes_sent)).insert("publish_received"@, number_view(s.publish_received)).insert("publish_delivered"@, number_view(s.publish_delivered)).insert("publish_dropped"@, number_view(s.publish_dropped)).insert("bridge_forwarded_out"@, number_view(s.bridge_forwarded_out)).insert("bridge_forwarded_in"@, number_view(s.bridge_forwarded_in)).insert("clients_connected"@, number_view(s.clients_connected)).insert("sessions_total"@, number_view(s.sessions_total)).insert("retained_messages"@, number_view(s.retained_messages)).insert("subscriptions_total"@, number_view(s.subscriptions_total)).insert("bridges_connected"@, number_view(s.bridges_connected)).insert("publish_bytes_received"@, number_view(s.publish_bytes_received)).insert("publish_bytes_sent"@, number_view(s.publish_bytes_sent)).insert("socket_connections"@, number_view(s.socket_connections)).insert("clients_disconnected"@, number_view(s.clients_disconnected)).insert("clients_total"@, number_view(s.clients_total)).insert("clients_maximum"@, number_view(s.clients_maximum)).insert("clients_expired"@, number_view(s.clients_expired)).insert("retained_bytes"@, number_view(s.retained_bytes)).insert("shared_subscriptions_count"@, number_view(s.shared_subscriptions_count)).insert("store_messages_count"@, number_view(s.store_messages_count)).insert("store_messages_bytes"@, number_view(s.store_messages_bytes)).insert("packet_out_count"@, number_view(s.packet_out_count)).insert("packet_out_bytes"@, number_view(s.packet_out_bytes)).insert("uptime_seconds"@, number_view(s.uptime_seconds)).insert(
            "version"@,
            JsonView::Str(s.version@),
        ),
    )
}

fn stats_value(s: &Snapshot) -> (r: Value)
    ensures
        content(r) == stats_payload(*s),
{
    let mut m: Vec<(String, Value)> = Vec::new();
    push_member(&mut m, "connections_total", number_value(s.connections_total));
    push_member(&mut m, "packets_received", number_value(s.packets_received));
    push_member(&mut m, "packets_sent", number_value(s.packets_sent));
    push_member(&mut m, "bytes_received", number_value(s.bytes_received));
    push_member(&mut m, "bytes_sent", number_value(s.bytes_sent));
    push_member(&mut m, "publish_received", number_value(s.publish_received));
    push_member(&mut m, "publish_delivered", number_value(s.publish_delivered));
    push_member(&mut m, "publish_dropped", number_value(s.publish_dropped));
    push_member(&mut m, "bridge_forwarded_out", number_value(s.bridge_forwarded_out));
    push_member(&mut m, "bridge_forwarded_in", number_value(s.bridge_forwarded_in));
    push_member(&mut m, "clients_connected", number_value(s.clients_connected));
    push_member(&mut m, "sessions_total", number_value(s.sessions_total));
    push_member(&mut m, "retained_messages", number_value(s.retained_messages));
    push_member(&mut m, "subscriptions_total", number_value(s.subscriptions_total));
    push_member(&mut m, "bridges_connected", number_value(s.bridges_connected));
    push_member(&mut m, "publish_bytes_received", number_value(s.publish_bytes_received));
    push_member(&mut m, "publish_bytes_sent", number_value(s.publish_bytes_sent));
    push_member(&mut m, "socket_connections", number_value(s.socket_connections));
    push_member(&mut m, "clients_disconnected", number_value(s.clients_disconnected));
    push_member(&mut m, "clients_total", number_value(s.clients_total));
    push_member(&mut m, "clients_maximum", number_value(s.clients_maximum));
    push_member(&mut m, "clients_expired", number_value(s.clients_expired));
    push_member(&mut m, "retained_bytes", number_value(s.retained_bytes));
    push_member(&mut m, "shared_subscriptions_count", number_value(s.shared_subscriptions_count));
    push_member(&mut m, "store_messages_count", number_value(s.store_messages_count));
    push_member(&mut m, "store_messages_bytes", number_value(s.store_messages_bytes));
    push_member(&mut m, "packet_out_count", number_value(s.packet_out_count));
    push_member(&mut m, "packet_out_bytes", number_value(s.packet_out_bytes));
    push_member(&mut m, "uptime_seconds", number_value(s.uptime_seconds));
    push_member(&mut m, "version", str_value(s.version));
    object_value(m)
}

/// How a client is told of.
pub open spec fn client_entry(c: ClientInfoView) -> JsonView {
    obj(
        none().insert("client_id"@, JsonView::Str(c.client_id)).insert(
            "online"@,
            JsonView::Bool(c.online),
        ).insert("subscriptions"@, number_view(c.subscriptions as u64)).insert(
            "inflight"@,
            number_view(c.inflight as u64),
        ).insert("queued"@, number_view(c.queued as u64)).insert(
            "session_expiry"@,
            number_view(c.session_expiry as u64),
        ).insert("persistent"@, JsonView::Bool(c.persistent)),
    )
}

/// What the tool for clients tells of a list.
pub open spec fn clients_payload(l: Seq<ClientInfoView>) -> JsonView {
    obj(
        none().insert(
            "clients"@,
            JsonView::Array(Seq::new(l.len(), |i: int| client_entry(l[i]))),
        ).insert("count"@, number_view(l.len() as u64)),
    )
}

/// How a retained message is told of.
pub open spec fn retained_entry(r: RetainedInfoView) -> JsonView {
    obj(
        none().insert("topic"@, JsonView::Str(r.topic)).insert(
            "payload_size"@,
            number_view(r.payload_size as u64),
        ).insert("qos"@, number_view(r.qos as u64)),
    )
}

/// What the tool for retained messages tells of a list.
pub open spec fn retained_payload(l: Seq<RetainedInfoView>) -> JsonView {
    obj(
        none().insert(
            "retained"@,
            JsonView::Array(Seq::new(l.len(), |i: int| retained_entry(l[i]))),
        ).insert("count"@, number_view(l.len() as u64)),
    )
}

/// Whether a list is the clients of a broker, in the order of their
/// identifiers.
pub open spec fn lists_clients(b: BrokerView, l: Seq<ClientInfoView>) -> bool {
    clients_sorted(l) && l.to_multiset() == b.client_infos().to_multiset()
}

/// Whether a list is the retained messages of a broker, in the order of their
/// topics.
pub open spec fn lists_retained(b: BrokerView, now: u64, l: Seq<RetainedInfoView>) -> bool {
    retained_sorted(l) && l.to_multiset() == b.retained_infos(now).to_multiset()
}

/// Whether there is a tool with a name.
pub open spec fn is_tool(name: Seq<char>) -> bool {
    name == "broker_stats"@ || name == "list_clients"@ || name == "list_retained"@
}

/// Whether a value is what a tool tells.
pub open spec fn tells(
    b: BrokerView,
    name: Seq<char>,
    now: u64,
    uptime: u64,
    payload: JsonView,
) -> bool {
    if name == "broker_stats"@ {
        payload == stats_payload(b.purged(now).statistics(uptime))
    } else if name == "list_clients"@ {
        exists|l: Seq<ClientInfoView>| #[trigger]
            lists_clients(b, l) && payload == clients_payload(l)
    } else {
        exists|l: Seq<RetainedInfoView>| #[trigger]
            lists_retained(b, now, l) && payload == retained_payload(l)
    }
}

/// How a tool's answer is wrapped: as text over several lines.
pub open spec fn tool_result(payload: JsonView) -> JsonView {
    obj(
        none().insert(
            "content"@,
            JsonView::Array(
                seq![
                    obj(
                        none().insert("type"@, JsonView::Str("text"@)).insert(
                            "text"@,
                            JsonView::Str(json::json_pretty_text(payload)),
                        ),
                    ),
                ],
            ),
        ).insert("isError"@, JsonView::Bool(false)),
    )
}

/// The name of the tool that is called.
pub open spec fn tool_name(req: JsonView) -> Option<Seq<char>> {
    match req.get("params"@) {
        Some(p) => match p.get("name"@) {
            Some(n) => n.as_str(),
            None => None,
        },
        None => None,
    }
}

/// The broker after a tool was called.
pub open spec fn after_tool(b: BrokerView, name: Seq<char>, now: u64) -> BrokerView {
    if name == "broker_stats"@ {
        b.purged(now)
    } else {
        b
    }
}

/// Whether a value is the outcome of a call of a tool: a result, or an error
/// with its code and its words.
pub open spec fn tool_outcome(
    b: BrokerView,
    req: JsonView,
    now: u64,
    uptime: u64,
    r: core::result::Result<JsonView, (i64, Seq<char>)>,
) -> bool {
    match tool_name(req) {
        None => r == Err::<JsonView, (i64, Seq<char>)>((INVALID_PARAMS, "missing tool name"@)),
        Some(name) => if is_tool(name) {
            exists|p: JsonView| #[trigger]
                tells(b, name, now, uptime, p) && r == Ok::<JsonView, (i64, Seq<char>)>(
                    tool_result(p),
                )
        } else {
            r == Err::<JsonView, (i64, Seq<char>)>((INVALID_PARAMS, "unknown tool: "@ + name))
        },
    }
}

fn client_value(c: &ClientInfo) -> (r: Value)
    ensures
        content(r) == client_entry(c@),
{
    let mut m: Vec<(String, Value)> = Vec::new();
    push_member(&mut m, "client_id", str_value(c.client_id.as_str()));
    push_member(&mut m, "online", bool_value(c.online));
    push_member(&mut m, "subscriptions", number_value(c.subscriptions as u64));
    push_member(&mut m, "inflight", number_value(c.inflight as u64));
    push_member(&mut m, "queued", number_value(c.queued as u64));
    push_member(&mut m, "session_expiry", number_value(c.session_expiry as u64));
    push_member(&mut m, "persistent", bool_value(c.persistent));
    object_value(m)
}

fn clients_value(l: &Vec<ClientInfo>) -> (r: Value)
    ensures
        content(r) == clients_payload(text::views(l@)),
{
    let ghost all = text::views(l@);
    let mut out: Vec<Value> = Vec::new();
    let mut i: usize = 0;
    while i < l.len()
        invariant
            i <= l.len(),
            out@.len() == i,
            all == text::views(l@),
            forall|j: int| 0 <= j < i ==> content(#[trigger] out@[j]) == client_entry(l@[j]@),
        decreases l.len() - i,
    {
        out.push(client_value(&l[i]));
        i = i + 1;
    }
    assert(all.len() == l@.len());
    assert(value_items(out@) =~= Seq::new(all.len(), |i: int| client_entry(all[i])));
    let mut m: Vec<(String, Value)> = Vec::new();
    push_member(&mut m, "clients", array_value(out));
    push_member(&mut m, "count", number_value(l.len() as u64));
    object_value(m)
}

fn retained_value(r: &RetainedInfo) -> (v: Value)
    ensures
        content(v) == retained_entry(r@),
{
    let mut m: Vec<(String, Value)> = Vec::new();
    push_member(&mut m, "topic", str_value(r.topic.as_str()));
    push_member(&mut m, "payload_size", number_value(r.payload_size as u64));
    push_member(&mut m, "qos", number_value(r.qos as u64));
    object_value(m)
}

fn retained_values(l: &Vec<RetainedInfo>) -> (r: Value)
    ensures
        content(r) == retained_payload(text::views(l@)),
{
    let ghost all = text::views(l@);
    let mut out: Vec<Value> = Vec::new();
    let mut i: usize = 0;
    while i < l.len()
        invariant
            i <= l.len(),
            out@.len() == i,
            all == text::views(l@),
            forall|j: int| 0 <= j < i ==> content(#[trigger] out@[j]) == retained_entry(l@[j]@),
        decreases l.len() - i,
    {
        out.push(retained_value(&l[i]));
        i = i + 1;
    }
    assert(all.len() == l@.len());
    assert(value_items(out@) =~= Seq::new(all.len(), |i: int| retained_entry(all[i])));
    let mut m: Vec<(String, Value)> = Vec::new();
    push_member(&mut m, "retained", array_value(out));
    push_member(&mut m, "count", number_value(l.len() as u64));
    object_value(m)
}

fn wrap_tool(payload: &Value) -> (r: Value)
    ensures
        content(r) == tool_result(content(*payload)),
{
    let mut item: Vec<(String, Value)> = Vec::new();
    push_member(&mut item, "type", str_value("text"));
    let shown: String = value_pretty(payload);
    push_member(&mut item, "text", str_value(shown.as_str()));
    let mut items: Vec<Value> = Vec::new();
    items.push(object_value(item));
    let mut m: Vec<(String, Value)> = Vec::new();
    let ghost expected = seq![
        obj(
            none().insert("type"@, JsonView::Str("text"@)).insert(
                "text"@,
                JsonView::Str(json::json_pretty_text(content(*payload))),
            ),
        ),
    ];
    assert(value_items(items@) =~= expected);
    push_member(&mut m, "content", array_value(items));
    push_member(&mut m, "isError", bool_value(false));
    object_value(m)
}

fn name_of_tool(req: &Json) -> (r: Option<&str>)
    ensures
        match r {
            Some(n) => tool_name(req@) == Some(n@),
            None => tool_name(req@) is None,
        },
{
    match req.get("params") {
        Some(p) => match p.get("name") {
            Some(n) => n.as_str(),
            None => None,
        },
        None => None,
    }
}

/// Calls a tool.
pub fn call_tool(broker: &mut Broker, req: &Json, now: u64, uptime: u64) -> (r: core::result::Result<
    Value,
    (i64, String),
>)
    requires
        old(broker).wf(),
    ensures
        final(broker).wf(),
        final(broker)@ == (match tool_name(req@) {
            Some(n) => after_tool(old(broker)@, n, now),
            None => old(broker)@,
        }),
        match r {
            Ok(v) => tool_outcome(old(broker)@, req@, now, uptime, Ok(content(v))),
            Err(e) => tool_outcome(old(broker)@, req@, now, uptime, Err((e.0, e.1@))),
        },
{
    let ghost before = broker@;
    let name: &str = match name_of_tool(req) {
        Some(n) => n,
        None => {
            return Err((INVALID_PARAMS, "missing tool name".to_owned()));
        },
    };
    proof {
        reveal_strlit("broker_stats");
        reveal_strlit("list_clients");
        reveal_strlit("list_retained");
    }
    let payload: Value = if str_eq(name, "broker_stats") {
        let s: Snapshot = broker.snapshot(now, uptime);
        stats_value(&s)
    } else if str_eq(name, "list_clients") {
        let l: Vec<ClientInfo> = broker.clients();
        assert(lists_clients(before, text::views(l@)));
        clients_value(&l)
    } else if str_eq(name, "list_retained") {
        let l: Vec<RetainedInfo> = broker.retained(now);
        assert(lists_retained(before, now, text::views(l@)));
        retained_values(&l)
    } else {
        return Err((INVALID_PARAMS, concat("unknown tool: ", name)));
    };
    assert(tells(before, name@, now, uptime, content(payload)));
    Ok(wrap_tool(&payload))
}

/// The method that a request asks for.
pub open spec fn method_of(req: JsonView) -> Seq<char> {
    match req.get("method"@) {
        Some(m) => match m.as_str() {
            Some(s) => s,
            None => ""@,
        },
        None => ""@,
    }
}

/// The revision of the protocol that is spoken with a client.
pub open spec fn revision(req: JsonView) -> Seq<char> {
    match req.get("params"@) {
        Some(p) => match p.get("protocolVersion"@) {
            Some(v) => match v.as_str() {
                Some(s) => s,
                None => MCP_PROTOCOL_VERSION@,
            },
            None => MCP_PROTOCOL_VERSION@,
        },
        None => MCP_PROTOCOL_VERSION@,
    }
}

/// What the broker says of itself at the start.
pub open spec fn introduction(req: JsonView) -> JsonView {
    obj(
        none().insert("protocolVersion"@, JsonView::Str(revision(req))).insert(
            "capabilities"@,
            obj(
                none().insert(
                    "tools"@,
                    obj(none().insert("listChanged"@, JsonView::Bool(false))),
                ),
            ),
        ).insert(
            "serverInfo"@,
            obj(
                none().insert("name"@, JsonView::Str(SERVER_NAME@)).insert(
                    "version"@,
                    JsonView::Str(VERSION@),
                ),
            ),
        ),
    )
}

/// The answer to an outcome.
pub open spec fn reply(
    id: JsonView,
    r: core::result::Result<JsonView, (i64, Seq<char>)>,
) -> JsonView {
    match r {
        Ok(v) => ok_reply(id, v),
        Err(e) => error_reply(id, e.0, e.1),
    }
}

/// Whether an outcome is that of a request.
pub open spec fn request_outcome(
    b: BrokerView,
    req: JsonView,
    now: u64,
    uptime: u64,
    r: core::result::Result<JsonView, (i64, Seq<char>)>,
) -> bool {
    let m = method_of(req);
    if m == "initialize"@ {
        r == Ok::<JsonView, (i64, Seq<char>)>(introduction(req))
    } else if m == "ping"@ {
        r == Ok::<JsonView, (i64, Seq<char>)>(obj(none()))
    } else if m == "tools/list"@ {
        r == Ok::<JsonView, (i64, Seq<char>)>(
            obj(none().insert("tools"@, JsonView::Array(tools()))),
        )
    } else if m == "tools/call"@ {
        tool_outcome(b, req, now, uptime, r)
    } else {
        r == Err::<JsonView, (i64, Seq<char>)>((METHOD_NOT_FOUND, "method not found: "@ + m))
    }
}

/// Whether a value answers a request. One without an identifier is a
/// notification, which has no answer.
pub open spec fn answers(
    b: BrokerView,
    req: JsonView,
    now: u64,
    uptime: u64,
    answer: Option<JsonView>,
) -> bool {
    match req.get("id"@) {
        None => answer is None,
        Some(id) => exists|r: core::result::Result<JsonView, (i64, Seq<char>)>| #[trigger]
            request_outcome(b, req, now, uptime, r) && answer == Some(reply(id, r)),
    }
}

/// The broker after a request.
pub open spec fn after_request(b: BrokerView, req: JsonView, now: u64) -> BrokerView {
    if req.get("id"@) is Some && method_of(req) == "tools/call"@ && tool_name(req) is Some {
        after_tool(b, tool_name(req)->0, now)
    } else {
        b
    }
}

/// A request with its identifier apart, or `None` where it has none.
fn take_request(req: Value) -> (r: Option<(Value, Json)>)
    ensures
        match r {
            None => content(req).get("id"@) is None,
            Some((id, rest)) => content(req).get("id"@) == Some(content(id)) && forall|
                k: Seq<char>,
            |
                k != "id"@ ==> #[trigger] rest@.get(k) == content(req).get(k),
        },
{
    let mut left: Vec<(String, Value)> = match open_value(req) {
        Opened::Object(members) => members,
        _ => {
            return None;
        },
    };
    let ghost all = left@;
    let ghost whole = value_members(all);
    let mut id: Option<Value> = None;
    let mut rest: Vec<(String, Json)> = Vec::new();
    let ghost mut done: int = 0;
    assert(all.take(0) =~= Seq::empty());
    assert(json::members_view(rest@) =~= value_members(all.take(0)).remove("id"@));
    while left.len() > 0
        invariant
            0 <= done,
            done + left@.len() == all.len(),
            left@ == all.skip(done),
            json::members_view(rest@) == value_members(all.take(done)).remove("id"@),
            match id {
                Some(v) => value_members(all.take(done)).contains_key("id"@)
                    && value_members(all.take(done))["id"@] == content(v),
                None => !value_members(all.take(done)).contains_key("id"@),
            },
        decreases left@.len(),
    {
        let ghost before = rest@;
        let (name, v): (String, Value) = left.remove(0);
        assert(name == all[done].0 && v == all[done].1);
        assert(all.take(done + 1).drop_last() =~= all.take(done));
        assert(all.take(done + 1).last() == all[done]);
        let ghost now_members = value_members(all.take(done + 1));
        assert(now_members == value_members(all.take(done)).insert(name@, content(v)));
        if str_eq(name.as_str(), "id") {
            id = Some(v);
            assert(now_members.remove("id"@) =~= value_members(all.take(done)).remove(
                "id"@,
            ));
        } else {
            let ghost n = name@;
            let j: Json = json_of_value(v);
            rest.push((name, j));
            assert(rest@.drop_last() =~= before);
            assert(json::members_view(rest@) == json::members_view(before).insert(n, j@));
            assert(now_members.remove("id"@) =~= value_members(all.take(done)).remove(
                "id"@,
            ).insert(n, j@));
        }
        proof {
            assert(left@ =~= all.skip(done + 1));
            done = done + 1;
        }
    }
    assert(all.take(all.len() as int) =~= all);
    match id {
        Some(v) => Some((v, Json::Object(rest))),
        None => None,
    }
}

fn introduction_value(req: &Json) -> (r: Value)
    ensures
        content(r) == introduction(req@),
{
    let version: &str = match req.get("params") {
        Some(p) => match p.get("protocolVersion") {
            Some(v) => match v.as_str() {
                Some(s) => s,
                None => MCP_PROTOCOL_VERSION,
            },
            None => MCP_PROTOCOL_VERSION,
        },
        None => MCP_PROTOCOL_VERSION,
    };
    let mut tools: Vec<(String, Value)> = Vec::new();
    push_member(&mut tools, "listChanged", bool_value(false));
    let mut capabilities: Vec<(String, Value)> = Vec::new();
    push_member(&mut capabilities, "tools", object_value(tools));
    let mut info: Vec<(String, Value)> = Vec::new();
    push_member(&mut info, "name", str_value(SERVER_NAME));
    push_member(&mut info, "version", str_value(VERSION));
    let mut m: Vec<(String, Value)> = Vec::new();
    push_member(&mut m, "protocolVersion", str_value(version));
    push_member(&mut m, "capabilities", object_value(capabilities));
    push_member(&mut m, "serverInfo", object_value(info));
    object_value(m)
}

/// Answers what a request asks for.
fn run_method(broker: &mut Broker, req: &Json, now: u64, uptime: u64) -> (r: core::result::Result<
    Value,
    (i64, String),
>)
    requires
        old(broker).wf(),
    ensures
        final(broker).wf(),
        final(broker)@ == (if method_of(req@) == "tools/call"@ && tool_name(req@) is Some {
            after_tool(old(broker)@, tool_name(req@)->0, now)
        } else {
            old(broker)@
        }),
        match r {
            Ok(v) => request_outcome(old(broker)@, req@, now, uptime, Ok(content(v))),
            Err(e) => request_outcome(old(broker)@, req@, now, uptime, Err((e.0, e.1@))),
        },
{
    let method: &str = match req.get("method") {
        Some(m) => match m.as_str() {
            Some(s) => s,
            None => "",
        },
        None => "",
    };
    proof {
        reveal_strlit("initialize");
        reveal_strlit("ping");
        reveal_strlit("tools/list");
        reveal_strlit("tools/call");
    }
    if str_eq(method, "initialize") {
        assert("initialize"@[0] != "tools/call"@[0]);
        Ok(introduction_value(req))
    } else if str_eq(method, "ping") {
        assert("ping"@.len() != "tools/call"@.len());
        let v: Vec<(String, Value)> = Vec::new();
        Ok(object_value(v))
    } else if str_eq(method, "tools/list") {
        assert("tools/list"@[6] != "tools/call"@[6]);
        let mut m: Vec<(String, Value)> = Vec::new();
        push_member(&mut m, "tools", tool_definitions());
        Ok(object_value(m))
    } else if str_eq(method, "tools/call") {
        assert("initialize"@[0] != "tools/call"@[0]);
        assert("ping"@.len() != "tools/call"@.len());
        assert("tools/list"@[6] != "tools/call"@[6]);
        call_tool(broker, req, now, uptime)
    } else {
        Err((METHOD_NOT_FOUND, concat("method not found: ", method)))
    }
}

/// Whether two requests differ at most in their identifiers.
spec fn same_but_id(a: JsonView, b: JsonView) -> bool {
    forall|k: Seq<char>| k != "id"@ ==> #[trigger] a.get(k) == b.get(k)
}

proof fn lemma_same_but_id(a: JsonView, b: JsonView)
    requires
        same_but_id(a, b),
    ensures
        method_of(a) == method_of(b),
        tool_name(a) == tool_name(b),
        revision(a) == revision(b),
{
    reveal_strlit("id");
    reveal_strlit("method");
    reveal_strlit("params");
    assert("id"@.len() != "method"@.len());
    assert("id"@.len() != "params"@.len());
    assert(a.get("method"@) == b.get("method"@));
    assert(a.get("params"@) == b.get("params"@));
}

/// Answers a request.
pub fn handle_rpc(broker: &mut Broker, req: Value, now: u64, uptime: u64) -> (r: Option<Value>)
    requires
        old(broker).wf(),
    ensures
        final(broker).wf(),
        final(broker)@ == after_request(old(broker)@, content(req), now),
        match r {
            Some(v) => answers(old(broker)@, content(req), now, uptime, Some(content(v))),
            None => answers(old(broker)@, content(req), now, uptime, None),
        },
{
    let ghost whole = content(req);
    let ghost before = broker@;
    match take_request(req) {
        None => None,
        Some((id, rest)) => {
            proof {
                assert(same_but_id(rest@, whole));
                lemma_same_but_id(rest@, whole);
            }
            match run_method(broker, &rest, now, uptime) {
                Ok(v) => {
                    let ghost o: core::result::Result<JsonView, (i64, Seq<char>)> = Ok(content(v));
                    assert(request_outcome(before, whole, now, uptime, o));
                    Some(ok_value(id, v))
                },
                Err((code, message)) => {
                    let ghost o: core::result::Result<JsonView, (i64, Seq<char>)> = Err(
                        (code, message@),
                    );
                    assert(request_outcome(before, whole, now, uptime, o));
                    Some(error_value(id, code, message.as_str()))
                },
            }
        },
    }
}

/// The broker after the requests of a batch.
pub open spec fn after_batch(b: BrokerView, items: Seq<JsonView>, now: u64) -> BrokerView
    decreases items.len(),
{
    if items.len() == 0 {
        b
    } else {
        after_request(after_batch(b, items.drop_last(), now), items.last(), now)
    }
}

/// The answers that there are.
pub open spec fn given(s: Seq<Option<JsonView>>) -> Seq<JsonView>
    decreases s.len(),
{
    if s.len() == 0 {
        Seq::empty()
    } else {
        match s.last() {
            Some(v) => given(s.drop_last()).push(v),
            None => given(s.drop_last()),
        }
    }
}

/// Whether answers are those to the requests of a batch, in their order.
pub open spec fn answers_batch(
    b: BrokerView,
    items: Seq<JsonView>,
    now: u64,
    uptime: u64,
    all: Seq<Option<JsonView>>,
) -> bool {
    all.len() == items.len() && forall|i: int|
        0 <= i < items.len() ==> answers(
            after_batch(b, items.take(i), now),
            items[i],
            now,
            uptime,
            #[trigger] all[i],
        )
}

/// Whether a value answers the body of a request: one request, or a batch. A
/// body that is no JSON is answered with an error; where nothing in it asks for
/// an answer there is none.
pub open spec fn answers_body(
    b: BrokerView,
    body: Seq<u8>,
    now: u64,
    uptime: u64,
    after: BrokerView,
    answer: Option<JsonView>,
) -> bool {
    match json::json_of_bytes(body) {
        Err(e) => after == b && answer == Some(
            error_reply(JsonView::Null, PARSE_ERROR, "parse error: "@ + e),
        ),
        Ok(JsonView::Array(items)) => after == after_batch(b, items, now) && exists|
            all: Seq<Option<JsonView>>,
        | #[trigger]
            answers_batch(b, items, now, uptime, all) && answer == if given(all).len() == 0 {
                None
            } else {
                Some(JsonView::Array(given(all)))
            },
        Ok(req) => after == after_request(b, req, now) && answers(b, req, now, uptime, answer),
    }
}

fn handle_batch(broker: &mut Broker, items: Vec<Value>, now: u64, uptime: u64) -> (r: Vec<Value>)
    requires
        old(broker).wf(),
    ensures
        final(broker).wf(),
        final(broker)@ == after_batch(old(broker)@, value_items(items@), now),
        exists|all: Seq<Option<JsonView>>| #[trigger]
            answers_batch(old(broker)@, value_items(items@), now, uptime, all) && given(all)
                == value_items(r@),
{
    let ghost before = broker@;
    let ghost s = value_items(items@);
    let ghost whole = items@;
    let ghost mut all: Seq<Option<JsonView>> = Seq::empty();
    let mut left: Vec<Value> = items;
    let mut out: Vec<Value> = Vec::new();
    assert(value_items(out@) =~= given(all));
    assert(s.take(0) =~= Seq::empty());
    while left.len() > 0
        invariant
            broker.wf(),
            s == value_items(whole),
            all.len() + left@.len() == whole.len(),
            left@ == whole.skip(all.len() as int),
            broker@ == after_batch(before, s.take(all.len() as int), now),
            forall|i: int|
                0 <= i < all.len() ==> answers(
                    after_batch(before, s.take(i), now),
                    s[i],
                    now,
                    uptime,
                    #[trigger] all[i],
                ),
            value_items(out@) == given(all),
        decreases left@.len(),
    {
        let ghost k = all.len() as int;
        let ghost out_before = out@;
        let ghost all_before = all;
        let item: Value = left.remove(0);
        assert(item == whole[k]);
        assert(s[k] == content(item));
        assert(left@ =~= whole.skip(k + 1));
        assert(s.take(k + 1).drop_last() =~= s.take(k));
        match handle_rpc(broker, item, now, uptime) {
            Some(v) => {
                out.push(v);
                proof {
                    all = all.push(Some(content(v)));
                    assert(all.drop_last() =~= all_before);
                    assert(value_items(out@) =~= value_items(out_before).push(content(v)));
                }
            },
            None => {
                proof {
                    all = all.push(None);
                    assert(all.drop_last() =~= all_before);
                }
            },
        }
    }
    assert(s.take(s.len() as int) =~= s);
    assert(answers_batch(before, s, now, uptime, all));
    out
}

/// Answers the body of a request.
pub fn handle_mcp_http(broker: &mut Broker, body: &[u8], now: u64, uptime: u64) -> (r: Option<Value>)
    requires
        old(broker).wf(),
    ensures
        final(broker).wf(),
        match r {
            Some(v) => answers_body(
                old(broker)@,
                body@,
                now,
                uptime,
                final(broker)@,
                Some(content(v)),
            ),
            None => answers_body(old(broker)@, body@, now, uptime, final(broker)@, None),
        },
{
    let parsed: Value = match parse_slice(body) {
        Ok(v) => v,
        Err(e) => {
            return Some(
                error_value(null_value(), PARSE_ERROR, concat("parse error: ", e.as_str()).as_str()),
            );
        },
    };
    if is_array(&parsed) {
        match open_value(parsed) {
            Opened::Array(items) => {
                let out: Vec<Value> = handle_batch(broker, items, now, uptime);
                if out.len() == 0 {
                    None
                } else {
                    Some(array_value(out))
                }
            },
            _ => None,
        }
    } else {
        handle_rpc(broker, parsed, now, uptime)
    }
}

/// Without an identifier a request is a notification: it is never answered and
/// changes nothing.
pub proof fn notifications_have_no_answer(
    b: BrokerView,
    req: JsonView,
    now: u64,
    uptime: u64,
    answer: Option<JsonView>,
)
    requires
        req.get("id"@) is None,
        answers(b, req, now, uptime, answer),
    ensures
        answer is None,
        after_request(b, req, now) == b,
{
}

/// An answer repeats the identifier of its request.
pub proof fn answers_repeat_the_identifier(
    b: BrokerView,
    req: JsonView,
    now: u64,
    uptime: u64,
    answer: Option<JsonView>,
)
    requires
        req.get("id"@) is Some,
        answers(b, req, now, uptime, answer),
    ensures
        answer is Some,
        (answer->0).get("id"@) == req.get("id"@),
{
    reveal_strlit("id");
    reveal_strlit("result");
    reveal_strlit("error");
    assert("id"@.len() != "result"@.len());
    assert("id"@.len() != "error"@.len());
}

/// A request whose method is not known is answered with the error for that, and
/// a call without the name of a tool, or of one that is not known, with the
/// error of its parameters. None of them changes the broker.
pub proof fn unknown_requests_are_errors(
    b: BrokerView,
    req: JsonView,
    now: u64,
    uptime: u64,
    r: core::result::Result<JsonView, (i64, Seq<char>)>,
)
    requires
        request_outcome(b, req, now, uptime, r),
    ensures
        method_of(req) != "initialize"@ && method_of(req) != "ping"@ && method_of(req)
            != "tools/list"@ && method_of(req) != "tools/call"@ ==> r is Err && r->Err_0.0 == -32601
            && after_request(b, req, now) == b,
        method_of(req) == "tools/call"@ && tool_name(req) is None ==> r is Err && r->Err_0.0
            == -32602 && after_request(b, req, now) == b,
{
    reveal_strlit("initialize");
    reveal_strlit("ping");
    reveal_strlit("tools/list");
    reveal_strlit("tools/call");
    assert("tools/call"@[6] == 'c');
    assert("tools/list"@[6] == 'l');
    assert("initialize"@[0] == 'i');
    assert("ping"@[0] == 'p');
    assert("tools/call"@[0] == 't');
}

} // verus!
