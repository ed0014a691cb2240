use wispmq::config::{
    check_otlp_protocol, header_flag, parse_bool_value, parse_qos_value, Config, OtlpHeaders,
    Secret, Setting,
};
use wispmq::error::MqttError;
use wispmq::types::QoS;

fn pairs(h: &OtlpHeaders) -> Vec<(String, String)> {
    h.iter()
}

fn owned(v: &[(&str, &str)]) -> Vec<(String, String)> {
    v.iter().map(|(a, b)| (a.to_string(), b.to_string())).collect()
}

#[test]
fn json_config_applies_all_field_kinds() {
    let json = r#"{
  "listen_addr": "127.0.0.1:1884",
  "ws_listen_addr": "0.0.0.0:8080",
  "tls_cert": "server.pem",
  "admin_token": "sekret",
  "acl_path": "acl.json",
  "db_path": "/data/broker.db",
  "max_packet_size": 2097152,
  "receive_maximum": 100,
  "max_session_expiry": 600,
  "max_queued_messages": 42
}"#;
    let mut cfg = Config::default();
    cfg.apply_json_str(json, "test.json").unwrap();
    assert_eq!(cfg.listen_addr, "127.0.0.1:1884");
    assert_eq!(cfg.ws_listen_addr.as_deref(), Some("0.0.0.0:8080"));
    assert_eq!(cfg.tls_cert.as_deref(), Some("server.pem"));
    assert_eq!(cfg.admin_token.as_ref().map(Secret::expose), Some("sekret"));
    assert_eq!(cfg.acl_path.as_deref(), Some("acl.json"));
    assert_eq!(cfg.db_path, "/data/broker.db");
    assert_eq!(cfg.max_packet_size, 2_097_152);
    assert_eq!(cfg.receive_maximum, 100);
    assert_eq!(cfg.max_session_expiry, 600);
    assert_eq!(cfg.max_queued_messages, 42);
}

#[test]
fn queue_bound_defaults_on() {
    assert_eq!(Config::default().max_queued_messages, 1000);

    let mut cfg = Config::default();
    cfg.apply_json_str(r#"{"max_queued_messages": 5}"#, "t.json")
        .unwrap();
    assert_eq!(cfg.max_queued_messages, 5);

    let mut cfg = Config::default();
    cfg.apply_json_str(r#"{"max_queued_messages": 0}"#, "t.json")
        .unwrap();
    assert_eq!(cfg.max_queued_messages, 0);
}

#[test]
fn json_rejects_unknown_key_and_bad_type() {
    let mut cfg = Config::default();
    assert!(cfg
        .apply_json_str(r#"{"listen_port": 1883}"#, "t.json")
        .is_err());
    let mut cfg = Config::default();
    assert!(cfg
        .apply_json_str(r#"{"receive_maximum": "lots"}"#, "t.json")
        .is_err());
    let mut cfg = Config::default();
    assert!(cfg.apply_json_str("[1, 2]", "t.json").is_err());
    assert!(cfg.apply_json_str("{not json", "t.json").is_err());
    assert!(cfg
        .apply_json_str(r#"{"receive_maximum": 5.5}"#, "t.json")
        .is_err());
}

#[test]
fn json_protocol_capabilities() {
    let json = r#"{"maximum_qos": 1, "retain_available": false,
                       "topic_alias_maximum": 5, "server_keep_alive": 30}"#;
    let mut cfg = Config::default();
    cfg.apply_json_str(json, "t.json").unwrap();
    assert_eq!(cfg.maximum_qos, QoS::AtLeastOnce);
    assert!(!cfg.retain_available);
    assert_eq!(cfg.topic_alias_maximum, 5);
    assert_eq!(cfg.server_keep_alive, Some(30));

    let mut bad = Config::default();
    assert!(bad
        .apply_json_str(r#"{"maximum_qos": 3}"#, "t.json")
        .is_err());
    let mut bad = Config::default();
    assert!(bad
        .apply_json_str(r#"{"retain_available": "yes"}"#, "t.json")
        .is_err());
}

#[test]
fn empty_config_file_is_ok() {
    let mut cfg = Config::default();
    assert!(cfg.apply_json_str("", "t.json").is_ok());
    assert!(cfg.apply_json_str("   \n\t\n", "t.json").is_ok());
    assert!(cfg.apply_json_str("{}", "t.json").is_ok());
    assert!(cfg.apply_json_str("null", "t.json").is_ok());
}

#[test]
fn otlp_options_default_to_disabled() {
    let cfg = Config::default();
    assert!(cfg.otlp_endpoint.is_none());
    assert!(cfg.otlp_headers.is_empty());
    assert_eq!(cfg.otlp_protocol, "http");
    assert_eq!(cfg.otlp_interval, 60);
    assert_eq!(cfg.service_name, "pulsemq");
    assert!(cfg.otlp_metrics && cfg.otlp_logs);
}

#[test]
fn json_otlp_options() {
    let json = r#"{
  "otlp_endpoint": "http://127.0.0.1:4318",
  "otlp_protocol": "http",
  "otlp_headers": { "DD-API-KEY": "abc123" },
  "otlp_interval": 5,
  "otlp_metrics": true,
  "otlp_logs": false,
  "service_name": "edge-1"
}"#;
    let mut cfg = Config::default();
    cfg.apply_json_str(json, "t.json").unwrap();
    assert_eq!(cfg.otlp_endpoint.as_deref(), Some("http://127.0.0.1:4318"));
    assert_eq!(cfg.otlp_interval, 5);
    assert!(cfg.otlp_metrics);
    assert!(!cfg.otlp_logs);
    assert_eq!(cfg.service_name, "edge-1");
    assert_eq!(pairs(&cfg.otlp_headers), owned(&[("DD-API-KEY", "abc123")]));

    let mut bad = Config::default();
    assert!(bad
        .apply_json_str(r#"{"otlp_headers": ["DD-API-KEY=x"]}"#, "t.json")
        .is_err());
    let mut bad = Config::default();
    assert!(bad
        .apply_json_str(r#"{"otlp_headers": {"DD-API-KEY": 5}}"#, "t.json")
        .is_err());
}

#[test]
fn otlp_header_values_never_reach_debug_output() {
    let mut cfg = Config::default();
    cfg.apply_json_str(r#"{"otlp_headers": {"DD-API-KEY": "s3cret"}}"#, "t.json")
        .unwrap();
    let rendered = cfg.otlp_headers.shown();
    assert!(!rendered.contains("s3cret"), "{rendered}");
    assert!(rendered.contains("DD-API-KEY"), "{rendered}");
}

#[test]
fn secrets_are_not_shown() {
    let s = Secret::new("sekret".to_string());
    assert_eq!(s.expose(), "sekret");
    assert!(!s.shown().contains("sekret"));
}

#[test]
fn otlp_protocol_is_validated_once_for_every_layer() {
    assert!(check_otlp_protocol("http").is_ok());
    assert!(check_otlp_protocol("HTTP/protobuf").is_ok());

    let err = check_otlp_protocol("grpc").unwrap_err().message();
    assert!(err.contains("HTTP/protobuf only"), "{err}");
    assert!(err.contains("4318"), "{err}");

    assert!(check_otlp_protocol("carrier-pigeon").is_err());
}

#[test]
fn otlp_header_pairs_reject_malformed_input() {
    assert!(OtlpHeaders::parse_pairs(&["no-equals-sign"]).is_err());
    assert!(OtlpHeaders::parse_pairs(&["=value"]).is_err());
    assert_eq!(
        OtlpHeaders::parse_pairs(&["a=b", "", "  "])
            .unwrap()
            .iter()
            .len(),
        1
    );
    assert_eq!(
        pairs(&OtlpHeaders::parse_pairs(&["Authorization=Basic dXNlcg=="]).unwrap()),
        owned(&[("Authorization", "Basic dXNlcg==")])
    );
}

#[test]
fn comments_are_rejected_as_invalid_json() {
    let mut cfg = Config::default();
    assert!(cfg.apply_json_str("# just a comment\n", "t.json").is_err());
    assert!(cfg
        .apply_json_str(
            "{\n  // listener\n  \"listen_addr\": \"0.0.0.0:1\"\n}",
            "t.json"
        )
        .is_err());
}

#[test]
fn errors_of_a_file_name_the_file_and_the_key() {
    let mut cfg = Config::default();
    let e = cfg
        .apply_json_str(r#"{"listen_port": 1883}"#, "t.json")
        .unwrap_err();
    assert!(matches!(e, MqttError::Config(_)));
    let m = e.message();
    assert!(m.contains("t.json") && m.contains("listen_port"), "{m}");
}

#[test]
fn a_file_is_remembered() {
    let mut cfg = Config::default();
    cfg.apply_json_file("here.json", r#"{"sys_interval": 3}"#).unwrap();
    assert_eq!(cfg.config_file.as_deref(), Some("here.json"));
    assert_eq!(cfg.sys_interval, 3);
}

#[test]
fn bridges_come_from_the_file() {
    let mut cfg = Config::default();
    cfg.apply_json_str(
        r#"{"bridges": [{"name": "up", "address": "tcp://remote:1883",
            "topics": [{"pattern": "a/#", "direction": "out", "qos": 1}]}]}"#,
        "t.json",
    )
    .unwrap();
    assert_eq!(cfg.bridges.len(), 1);
    assert_eq!(cfg.bridges[0].name, "up");
    assert_eq!(cfg.bridges[0].topics[0].pattern, "a/#");
}

#[test]
fn environment_values_that_cannot_be_used_are_passed_over() {
    let vars = owned(&[
        ("MQTT_RECEIVE_MAXIMUM", "70000"),
        ("MQTT_MAXIMUM_QOS", "high"),
        ("MQTT_DB_PATH", "  "),
        ("MQTT_SYS_INTERVAL", " 7 "),
        ("MQTT_RETAIN_AVAILABLE", "off"),
        ("MQTT_OTLP_HEADERS", "a=b, c=d,"),
    ]);
    let cfg = Config::from_env(&vars);
    let d = Config::default();
    assert_eq!(cfg.receive_maximum, d.receive_maximum);
    assert_eq!(cfg.maximum_qos, d.maximum_qos);
    assert_eq!(cfg.db_path, d.db_path);
    assert_eq!(cfg.sys_interval, 7);
    assert!(!cfg.retain_available);
    assert_eq!(pairs(&cfg.otlp_headers), owned(&[("a", "b"), ("c", "d")]));
}

#[test]
fn wrong_headers_in_the_environment_are_told_of() {
    let mut cfg = Config::default();
    let vars = owned(&[("MQTT_OTLP_HEADERS", "a=b,nonsense")]);
    assert!(cfg.apply_env(&vars).is_some());
    assert!(cfg.otlp_headers.is_empty());
}

#[test]
fn values_are_parsed_in_their_spellings() {
    assert_eq!(parse_qos_value(" 2 "), Some(QoS::ExactlyOnce));
    assert_eq!(parse_qos_value("3"), None);
    assert_eq!(parse_bool_value("YES"), Some(true));
    assert_eq!(parse_bool_value("off"), Some(false));
    assert_eq!(parse_bool_value("maybe"), None);
    assert_eq!(
        header_flag("a = b=c").unwrap(),
        ("a".to_string(), "b=c".to_string())
    );
}

#[test]
fn an_address_is_one_or_is_refused() {
    // A file with an address that is none is wrong, and what came before it
    // stays.
    for (key, value) in [
        ("listen_addr", "nowhere"),
        ("listen_addr", "127.0.0.1"),
        ("listen_addr", "127.0.0.1:65536"),
        ("admin_addr", "localhost:9001"),
        ("ws_listen_addr", "1.2.3:80"),
    ] {
        let mut cfg = Config::default();
        let doc = format!("{{\"{key}\": \"{value}\"}}");
        match cfg.apply_json_str(&doc, "t.json") {
            Err(MqttError::Config(m)) => assert!(m.contains(key) && m.contains(value), "{m}"),
            _ => panic!("{key} {value}"),
        }
        assert_eq!(cfg.listen_addr, "0.0.0.0:1883");
        assert_eq!(cfg.admin_addr, "127.0.0.1:9001");
        assert_eq!(cfg.ws_listen_addr, None);
    }
    let mut cfg = Config::default();
    let doc = r#"{"listen_addr": "[::1]:7", "admin_addr": "x"}"#;
    assert!(cfg.apply_json_str(doc, "t.json").is_err());
    assert_eq!(cfg.listen_addr, "[::1]:7");

    // One in the environment is passed over.
    let vars = owned(&[
        ("MQTT_LISTEN_ADDR", "nowhere"),
        ("MQTT_ADMIN_ADDR", " 10.0.0.1:9 "),
        ("MQTT_WS_LISTEN_ADDR", "also nowhere"),
    ]);
    let cfg = Config::from_env(&vars);
    assert_eq!(cfg.listen_addr, "0.0.0.0:1883");
    assert_eq!(cfg.admin_addr, "10.0.0.1:9");
    assert_eq!(cfg.ws_listen_addr, None);
}

#[test]
fn an_address_is_set_where_it_is_valid() {
    let mut cfg = Config::default();
    assert!(cfg.set_address(Setting::WsListenAddr, "h".to_string(), true));
    assert_eq!(cfg.ws_listen_addr.as_deref(), Some("h"));
    assert!(!cfg.set_address(Setting::WsListenAddr, "i".to_string(), false));
    assert_eq!(cfg.ws_listen_addr.as_deref(), Some("h"));
}

fn refusal(doc: &str) -> String {
    match Config::default().apply_json_str(doc, "t.json") {
        Err(MqttError::Config(m)) => m,
        _ => panic!("{doc}"),
    }
}

#[test]
fn what_is_wrong_with_a_file_is_said_in_words() {
    for (doc, words) in [
        ("[1]", "t.json: top level must be a JSON object of \"option\": value pairs"),
        (r#"{"zz": 1, "aa": 1}"#, "t.json: unknown key 'aa'"),
        (r#"{"db_path": 1}"#, "t.json: key 'db_path' must be a string"),
        (r#"{"listen_addr": 1}"#, "t.json: key 'listen_addr' must be a string"),
        (
            r#"{"listen_addr": "a\"b\\c"}"#,
            r#"listen_addr: invalid socket address "a\"b\\c""#,
        ),
        (
            r#"{"retain_available": 1}"#,
            "t.json: key 'retain_available' must be a boolean (true/false)",
        ),
        (r#"{"max_packet_size": 1.5}"#, "t.json: key 'max_packet_size' must be an integer"),
        (
            r#"{"max_packet_size": -1}"#,
            "t.json: key 'max_packet_size' out of range (0-4294967295)",
        ),
        (
            r#"{"max_packet_size": 4294967296}"#,
            "t.json: key 'max_packet_size' out of range (0-4294967295)",
        ),
        (r#"{"receive_maximum": "5"}"#, "t.json: key 'receive_maximum' must be an integer"),
        (r#"{"receive_maximum": 65536}"#, "t.json: receive_maximum out of range (0-65535)"),
        (r#"{"server_keep_alive": -1}"#, "t.json: server_keep_alive out of range (0-65535)"),
        (r#"{"maximum_qos": 3}"#, "t.json: maximum_qos must be 0, 1, or 2"),
        (r#"{"maximum_qos": "1"}"#, "t.json: key 'maximum_qos' must be an integer"),
        (
            r#"{"otlp_headers": []}"#,
            "t.json: 'otlp_headers' must be an object of \"Name\": \"value\" pairs",
        ),
        // Types come before names, and both in the order of the names.
        (
            r#"{"otlp_headers": {" ": "x", "c": 1, "b": 2}}"#,
            "t.json: otlp_headers['b'] must be a string",
        ),
        (
            r#"{"otlp_headers": {" ": "x"}}"#,
            "t.json: config error: otlp header: the header name is empty",
        ),
        (r#"{"bridges": 1}"#, "t.json: 'bridges' must be an array"),
    ] {
        assert_eq!(refusal(doc), words, "{doc}");
    }
    assert!(refusal("{not json").starts_with("t.json: invalid JSON: key must be a string"));
}

#[test]
fn headers_of_a_file_stand_in_the_order_of_their_names() {
    let mut cfg = Config::default();
    cfg.apply_json_str(r#"{"otlp_headers": {"b": "2", "B": "1", "a b": "0", "ab": "3"}}"#, "t")
        .unwrap();
    let expected = owned(&[("B", "1"), ("a b", "0"), ("ab", "3"), ("b", "2")]);
    assert_eq!(pairs(&cfg.otlp_headers), expected);
}

#[test]
fn an_unknown_transport_is_quoted() {
    match check_otlp_protocol(" Pigeon\"s ") {
        Err(MqttError::Config(m)) => {
            assert_eq!(
                m,
                "otlp_protocol: unknown protocol \"pigeon\\\"s\" (expected \"http\")"
            );
        }
        _ => panic!("expected an error"),
    }
}
