use wispmq::acl::Acl;
use wispmq::admin::http::{find_crlf_crlf, read_request, respond, Reading, Request, Response};
use wispmq::admin::mcp::{call_tool, tool_definitions};
use wispmq::admin::{authorized, route, tokens_match};
use wispmq::broker::Broker;
use wispmq::config::{Config, Secret, VERSION};
use wispmq::json::parse_json;
use wispmq::message::Message;
use wispmq::storage::{LoadedState, Storage};
use wispmq::types::QoS;

fn broker(token: Option<&str>) -> Broker {
    let message = Message {
        topic: "kept".to_string(),
        payload: b"hello".to_vec(),
        qos: QoS::AtLeastOnce,
        retain: true,
        payload_format_indicator: None,
        content_type: None,
        response_topic: None,
        correlation_data: None,
        user_properties: Vec::new(),
        expires_at: None,
    };
    Broker::new(
        Config {
            admin_token: token.map(|t| Secret::new(t.to_string())),
            ..Config::default()
        },
        Storage::null(),
        LoadedState {
            retained: vec![("kept".to_string(), message)],
            sessions: Vec::new(),
        },
        Acl::permit_all(),
        None,
    )
}

fn request(method: &str, path: &str, body: &str, bearer: Option<&str>) -> Request {
    Request {
        method: method.to_string(),
        path: path.to_string(),
        body: body.as_bytes().to_vec(),
        bearer: bearer.map(str::to_string),
    }
}

fn rpc(b: &mut Broker, body: &str) -> Response {
    route(b, &request("POST", "/mcp", body, None), 100, 7)
}

fn json(r: &Response) -> serde_json::Value {
    serde_json::from_slice(&r.body).unwrap()
}

#[test]
fn tokens_match_correctness() {
    assert!(tokens_match("secret", "secret"));
    assert!(!tokens_match("secret", "different"));
    assert!(!tokens_match("short", "much-longer-token"));
    assert!(!tokens_match("much-longer-token", "short"));
    assert!(!tokens_match("", "nonempty"));
    assert!(tokens_match("", ""));
}

#[test]
fn a_token_is_asked_for_where_it_is_set() {
    let secret = Some(Secret::new("t".to_string()));
    assert!(authorized(&None, &None));
    assert!(authorized(&secret, &Some("t".to_string())));
    assert!(!authorized(&secret, &Some("x".to_string())));
    assert!(!authorized(&secret, &None));
}

#[test]
fn requests_are_read_byte_by_byte() {
    let raw = b"POST /mcp HTTP/1.1\r\nHost: x\r\nCONTENT-LENGTH: 5\r\nAuthorization: bearer  abc \r\n\r\nhello more";
    let end = find_crlf_crlf(raw).unwrap();
    assert_eq!(&raw[end..end + 4], b"\r\n\r\n");
    for n in 0..end + 4 + 5 {
        assert!(matches!(read_request(&raw[..n], false), Reading::More), "{n}");
    }
    for n in [end + 4 + 5, raw.len()] {
        match read_request(&raw[..n], false) {
            Reading::Whole(r) => {
                assert_eq!(r.method, "POST");
                assert_eq!(r.path, "/mcp");
                assert_eq!(r.body, b"hello");
                assert_eq!(r.bearer.as_deref(), Some("abc"));
            }
            _ => panic!("expected a request"),
        }
    }
}

#[test]
fn requests_that_end_early_or_grow_too_long_are_dropped() {
    assert!(matches!(read_request(b"GET / HTTP/1.1\r\n", true), Reading::Drop));
    let long = vec![b'a'; 1_048_577];
    assert!(matches!(read_request(&long, false), Reading::Drop));
    // A body that ends early is what there is.
    match read_request(b"POST / HTTP/1.1\r\nContent-Length: 9\r\n\r\nabc", true) {
        Reading::Whole(r) => assert_eq!(r.body, b"abc"),
        _ => panic!("expected a request"),
    }
    // A length that is no number is 0.
    match read_request(b"GET /x HTTP/1.1\r\nContent-Length: many\r\n\r\nabc", false) {
        Reading::Whole(r) => {
            assert!(r.body.is_empty());
            assert_eq!(r.path, "/x");
            assert_eq!(r.bearer, None);
        }
        _ => panic!("expected a request"),
    }
    // Bytes that are no UTF-8 are replaced, not refused.
    match read_request(b"GET /\xff HTTP/1.1\r\n\r\n", false) {
        Reading::Whole(r) => assert_eq!(r.path, "/\u{fffd}"),
        _ => panic!("expected a request"),
    }
}

#[test]
fn paths_are_routed() {
    let mut b = broker(None);
    let mut get = |method: &str, path: &str| {
        let r = route(&mut b, &request(method, path, "", None), 100, 7);
        (r.status, String::from_utf8(r.body).unwrap())
    };
    assert_eq!(get("GET", "/health"), ("200 OK", r#"{"status":"ok"}"#.to_string()));
    assert_eq!(get("GET", "/healthz").0, "200 OK");
    assert_eq!(get("OPTIONS", "/anything"), ("204 No Content", String::new()));
    assert_eq!(get("GET", "/mcp").0, "405 Method Not Allowed");
    assert_eq!(get("GET", "/nowhere").0, "404 Not Found");
    assert_eq!(get("DELETE", "/metrics").0, "404 Not Found");
    assert!(get("GET", "/").1.contains("GET /health"));
    let (status, body) = get("GET", "/metrics");
    assert_eq!(status, "200 OK");
    assert!(body.contains("mqtt_retained_messages 1\n"), "{body}");
}

#[test]
fn a_token_guards_metrics_and_mcp() {
    let mut b = broker(Some("t"));
    for (method, path) in [("GET", "/metrics"), ("POST", "/mcp"), ("GET", "/nowhere")] {
        let r = route(&mut b, &request(method, path, "", Some("wrong")), 0, 0);
        assert_eq!(r.status, "401 Unauthorized");
        let text = String::from_utf8(respond(&r)).unwrap();
        assert!(text.contains("WWW-Authenticate: Bearer\r\n"), "{text}");
    }
    let r = route(&mut b, &request("GET", "/metrics", "", Some("t")), 0, 0);
    assert_eq!(r.status, "200 OK");
    let r = route(&mut b, &request("GET", "/health", "", None), 0, 0);
    assert_eq!(r.status, "200 OK");
}

#[test]
fn answers_are_written_out() {
    let r = Response {
        status: "200 OK",
        content_type: "text/plain",
        body: b"hi".to_vec(),
    };
    let text = String::from_utf8(respond(&r)).unwrap();
    assert_eq!(
        text,
        "HTTP/1.1 200 OK\r\nContent-Type: text/plain\r\nContent-Length: 2\r\nAccess-Control-Allow-Origin: *\r\nAccess-Control-Allow-Methods: GET, POST, OPTIONS\r\nAccess-Control-Allow-Headers: Authorization, Content-Type\r\nConnection: close\r\n\r\nhi"
    );
}

#[test]
fn clients_introduce_themselves() {
    let mut b = broker(None);
    let v = json(&rpc(
        &mut b,
        r#"{"jsonrpc":"2.0","id":1,"method":"initialize","params":{"protocolVersion":"2025-01-01"}}"#,
    ));
    assert_eq!(v["id"], 1);
    assert_eq!(v["result"]["protocolVersion"], "2025-01-01");
    assert_eq!(v["result"]["serverInfo"]["name"], "mqtt-broker");
    assert_eq!(v["result"]["serverInfo"]["version"], VERSION);
    let v = json(&rpc(&mut b, r#"{"id":"x","method":"initialize"}"#));
    assert_eq!(v["id"], "x");
    assert_eq!(v["result"]["protocolVersion"], "2024-11-05");
}

#[test]
fn tools_are_listed() {
    let mut b = broker(None);
    let v = json(&rpc(&mut b, r#"{"id":2.5,"method":"tools/list"}"#));
    assert_eq!(v["id"], 2.5);
    let names: Vec<&str> = v["result"]["tools"]
        .as_array()
        .unwrap()
        .iter()
        .map(|t| t["name"].as_str().unwrap())
        .collect();
    assert_eq!(names, ["broker_stats", "list_clients", "list_retained"]);
    assert_eq!(v["result"]["tools"], tool_definitions());
    assert_eq!(
        v["result"]["tools"][0]["inputSchema"]["additionalProperties"],
        false
    );
}

#[test]
fn tools_tell_of_the_broker() {
    let mut b = broker(None);
    let mut call = |name: &str| -> serde_json::Value {
        let body = format!(
            r#"{{"id":1,"method":"tools/call","params":{{"name":"{name}"}}}}"#
        );
        let v = json(&rpc(&mut b, &body));
        assert_eq!(v["result"]["isError"], false);
        let text = v["result"]["content"][0]["text"].as_str().unwrap();
        assert!(text.contains('\n'), "the text spans several lines");
        serde_json::from_str(text).unwrap()
    };
    let stats = call("broker_stats");
    assert_eq!(stats["retained_messages"], 1);
    assert_eq!(stats["retained_bytes"], 5);
    assert_eq!(stats["uptime_seconds"], 7);
    assert_eq!(stats["version"], VERSION);
    let clients = call("list_clients");
    assert_eq!(clients["count"], 0);
    let retained = call("list_retained");
    assert_eq!(retained["count"], 1);
    assert_eq!(retained["retained"][0]["topic"], "kept");
    assert_eq!(retained["retained"][0]["payload_size"], 5);
    assert_eq!(retained["retained"][0]["qos"], 1);
}

#[test]
fn wrong_requests_are_answered_with_errors() {
    let mut b = broker(None);
    let code = |b: &mut Broker, body: &str| {
        let v = json(&rpc(b, body));
        (
            v["error"]["code"].as_i64().unwrap(),
            v["error"]["message"].as_str().unwrap().to_string(),
        )
    };
    let (c, m) = code(&mut b, "{not json");
    assert_eq!(c, -32700);
    assert!(m.starts_with("parse error: "), "{m}");
    assert_eq!(
        code(&mut b, r#"{"id":1,"method":"fly"}"#),
        (-32601, "method not found: fly".to_string())
    );
    assert_eq!(
        code(&mut b, r#"{"id":1}"#),
        (-32601, "method not found: ".to_string())
    );
    assert_eq!(
        code(&mut b, r#"{"id":1,"method":"tools/call"}"#),
        (-32602, "missing tool name".to_string())
    );
    assert_eq!(
        code(&mut b, r#"{"id":1,"method":"tools/call","params":{"name":"x"}}"#),
        (-32602, "unknown tool: x".to_string())
    );
    let req = parse_json(r#"{"params":{"name":"x"}}"#).unwrap();
    assert_eq!(
        call_tool(&mut b, &req, 0, 0).unwrap_err(),
        (-32602, "unknown tool: x".to_string())
    );
}

#[test]
fn notifications_and_batches() {
    let mut b = broker(None);
    let r = rpc(&mut b, r#"{"method":"notifications/initialized"}"#);
    assert_eq!(r.status, "202 Accepted");
    assert!(r.body.is_empty());

    let r = rpc(&mut b, r#"[{"method":"a"},{"method":"b"}]"#);
    assert_eq!(r.status, "202 Accepted");

    let v = json(&rpc(
        &mut b,
        r#"[{"id":1,"method":"ping"},{"method":"n"},{"id":null,"method":"ping"}]"#,
    ));
    let answers = v.as_array().unwrap();
    assert_eq!(answers.len(), 2);
    assert_eq!(answers[0]["id"], 1);
    assert!(answers[0]["result"].as_object().unwrap().is_empty());
    assert!(answers[1]["id"].is_null());
}
