use wispmq::acl::Acl;
use wispmq::bridge::{
    build_connect, build_subscribe, count_link_sent, greeted, greeting, out_qos, parse_bridges,
    ping_period, ping_step, retry_delay, BridgeConfig, BridgeLink, Endpoint, Greeting, LinkAction,
    LinkEvent, Ping, Transport,
};
use wispmq::broker::{Broker, Outgoing};
use wispmq::codec::Properties;
use wispmq::config::Config;
use wispmq::error::MqttError;
use wispmq::json::parse_json;
use wispmq::metrics::Metrics;
use wispmq::packet::{Connack, Packet, PubAck, Publish};
use wispmq::storage::{LoadedState, Storage};
use wispmq::message::Message;
use wispmq::types::{PacketType, ProtocolVersion, QoS, ReasonCode};

fn config() -> BridgeConfig {
    let doc = parse_json(
        r#"{"bridges": [{
            "name": "up", "address": "tcp://remote", "client_id": "me",
            "username": "u", "password": "p", "keepalive": 30,
            "topics": [
                {"pattern": "out/#", "direction": "out", "qos": 1},
                {"pattern": "in/#", "direction": "in", "qos": 2},
                {"pattern": "two/#", "direction": "both"}
            ]}]}"#,
    )
    .unwrap();
    parse_bridges(&doc, "t.json").unwrap().remove(0)
}

fn broker() -> Broker {
    Broker::new(
        Config::default(),
        Storage::null(),
        LoadedState { retained: Vec::new(), sessions: Vec::new() },
        Acl::permit_all(),
        None,
    )
}

fn publish(topic: &str, qos: QoS, id: Option<u16>) -> Publish {
    Publish {
        dup: true,
        qos,
        retain: false,
        topic: topic.into(),
        packet_id: id,
        properties: Properties::new(),
        payload: b"x".to_vec(),
    }
}

#[test]
fn bridges_are_read_from_a_file() {
    let b = config();
    assert_eq!(b.name, "up");
    assert_eq!(b.client_id, "me");
    assert_eq!(b.keepalive, 30);
    assert_eq!(b.topics.len(), 3);
    assert!(b.topics[0].direction.forwards_out() && !b.topics[0].direction.forwards_in());
    assert!(!b.topics[1].direction.forwards_out() && b.topics[1].direction.forwards_in());
    assert!(b.topics[2].direction.forwards_out() && b.topics[2].direction.forwards_in());
    for wrong in [
        r#"{"bridges": 5}"#,
        r#"{"bridges": [{"address": "tcp://x"}]}"#,
        r#"{"bridges": [{"name": "a", "address": "tcp://x", "topics": [{"pattern": "a", "direction": "up"}]}]}"#,
    ] {
        assert!(parse_bridges(&parse_json(wrong).unwrap(), "t.json").is_err(), "{wrong}");
    }
    assert!(parse_bridges(&parse_json("{}").unwrap(), "t.json").unwrap().is_empty());
}

#[test]
fn addresses_have_default_ports() {
    for (address, transport, host, port) in [
        ("tcp://h", Transport::Tcp, "h", 1883),
        ("mqtts://h", Transport::Tls, "h", 8883),
        ("ws://h", Transport::Ws, "h", 8080),
        ("wss://h", Transport::Wss, "h", 8443),
        ("tcp://h:99", Transport::Tcp, "h", 99),
    ] {
        let e = Endpoint::parse(address).unwrap();
        assert_eq!((e.transport, e.host.as_str(), e.port), (transport, host, port));
        assert_eq!(e.is_tls(), matches!(transport, Transport::Tls | Transport::Wss));
    }
    assert!(Endpoint::parse("ftp://h").is_err());
    assert!(Endpoint::parse("h").is_err());
    assert!(Endpoint::parse("tcp://h:port").is_err());
}

#[test]
fn a_bridge_introduces_itself_and_subscribes_to_what_comes_in() {
    let cfg = config();
    let c = build_connect(&cfg);
    assert_eq!(c.client_id, "me");
    assert_eq!(c.username.as_deref(), Some("u"));
    assert_eq!(c.password.as_deref(), Some(&b"p"[..]));
    assert_eq!(c.keep_alive, 30);
    assert_eq!(cfg.protocol_version, ProtocolVersion::V5);
    let s = build_subscribe(&cfg).unwrap();
    let filters: Vec<(&str, QoS)> = s.filters.iter().map(|f| (f.filter.as_str(), f.qos)).collect();
    assert_eq!(filters.len(), 2);
    assert_eq!(filters[0], ("in/#", QoS::ExactlyOnce));
    assert_eq!(filters[1].0, "two/#");
    assert_eq!(
        greeting(&Packet::Connack(Connack::new(false, ReasonCode::Success))),
        Greeting::Accepted
    );
    assert_eq!(
        greeting(&Packet::Connack(Connack::new(false, ReasonCode::NotAuthorized))),
        Greeting::Refused
    );
    assert_eq!(greeting(&Packet::Pingresp), Greeting::Unexpected);
}

#[test]
fn bridge_forwards_both_directions() {
    let cfg = config();
    let mut b = broker();
    let mut link = BridgeLink::new();

    // Out: with the QoS of the mapping, and identifiers of the link's own.
    assert_eq!(out_qos(&cfg, "out/a"), QoS::AtLeastOnce);
    for id in [2u16, 3] {
        match link.handle_outgoing(
            &cfg,
            Outgoing::Send(Box::new(publish("out/a", QoS::AtMostOnce, None))),
        ) {
            LinkAction::Send(Packet::Publish(p)) => {
                assert_eq!((p.qos, p.packet_id, p.dup), (QoS::AtLeastOnce, Some(id), false));
            }
            _ => panic!("expected a PUBLISH"),
        }
    }
    assert!(matches!(
        link.handle_outgoing(&cfg, Outgoing::Control(Box::new(Packet::Pingresp))),
        LinkAction::Wait
    ));
    assert!(matches!(
        link.handle_outgoing(&cfg, Outgoing::Shutdown(ReasonCode::SessionTakenOver)),
        LinkAction::Close
    ));

    // In: published here once, however often it is sent.
    for _ in 0..2 {
        match link.handle_remote(
            &mut b,
            "bridge:up",
            Packet::Publish(publish("in/a", QoS::ExactlyOnce, Some(9))),
            0,
        ) {
            LinkAction::Send(Packet::Pubrec(a)) => assert_eq!(a.packet_id, 9),
            _ => panic!("expected a PUBREC"),
        }
    }
    assert_eq!(b.metrics().bridge_forwarded_in, 1);
    match link.handle_remote(
        &mut b,
        "bridge:up",
        Packet::Pubrel(PubAck::new(9, ReasonCode::Success)),
        0,
    ) {
        LinkAction::Send(Packet::Pubcomp(a)) => assert_eq!(a.packet_id, 9),
        _ => panic!("expected a PUBCOMP"),
    }
    link.handle_remote(
        &mut b,
        "bridge:up",
        Packet::Publish(publish("in/a", QoS::ExactlyOnce, Some(9))),
        0,
    );
    assert_eq!(b.metrics().bridge_forwarded_in, 2);
}

#[test]
fn a_bridge_does_not_hear_itself() {
    let mut b = broker();
    assert!(b.can_accept());
    let epoch = b.register_bridge("bridge:up".to_string());
    b.bridge_add_subscription("bridge:up", "in/#", true);
    let mut link = BridgeLink::new();
    link.handle_remote(
        &mut b,
        "bridge:up",
        Packet::Publish(publish("in/a", QoS::AtMostOnce, None)),
        0,
    );
    assert!(b.drain_outgoing().iter().all(|d| d.items.is_empty()));
    b.deregister_bridge("bridge:up", epoch);
    assert!(b.clients().is_empty());
}

#[test]
fn attempts_come_less_and_less_often_but_never_stop() {
    let mut delays = Vec::new();
    let mut d = 1;
    for _ in 0..8 {
        d = retry_delay(d, false);
        delays.push(d);
    }
    assert_eq!(delays, vec![2, 4, 8, 16, 32, 60, 60, 60]);
    assert_eq!(retry_delay(60, true), 1);
}

#[test]
fn a_silent_remote_is_given_up() {
    assert_eq!(ping_period(30), 30);
    assert_eq!(ping_period(0), 3600);
    assert_eq!(ping_step(0, 1_000_000), Ping::Nothing);
    assert_eq!(ping_step(30, 60_000), Ping::Send);
    assert_eq!(ping_step(30, 60_001), Ping::Silent);
}

#[test]
fn a_shown_bridge_hides_its_password() {
    let mut b = config();
    b.password = Some("hunter2".to_string());
    assert_eq!(b.shown(), "up to tcp://remote as me, user u, password <redacted>");
    b.username = None;
    b.password = None;
    assert_eq!(b.shown(), "up to tcp://remote as me");
}

#[test]
fn the_answer_of_the_remote_broker_is_counted_and_decides() {
    let mut m = Metrics::new();
    let yes = Packet::Connack(Connack::new(false, ReasonCode::Success));
    assert!(greeted(&mut m, "up", &yes, 5).unwrap());
    let no = Packet::Connack(Connack::new(false, ReasonCode::NotAuthorized));
    assert!(!greeted(&mut m, "up", &no, 5).unwrap());
    match greeted(&mut m, "up", &Packet::Pingresp, 2) {
        Err(MqttError::Protocol(text)) => assert!(text.contains("expected CONNACK"), "{text}"),
        _ => panic!("expected an error"),
    }
    assert_eq!((m.packets_received, m.bytes_received), (3, 12));
}

#[test]
fn only_forwarded_messages_count_as_forwarded() {
    let mut m = Metrics::new();
    count_link_sent(&mut m, &Packet::Pingreq, 2);
    assert_eq!((m.packets_sent, m.bytes_sent, m.bridge_forwarded_out), (1, 2, 0));
    let p = Packet::Publish(publish("out/a", QoS::AtMostOnce, None));
    count_link_sent(&mut m, &p, 10);
    assert_eq!((m.packets_sent, m.bytes_sent, m.bridge_forwarded_out), (2, 12, 1));
    assert_eq!(m.publish_bytes_sent, 1);
}

#[test]
fn a_link_acts_on_what_happens() {
    let cfg = config();
    let mut b = broker();
    let mut link = BridgeLink::new();
    let from = "$bridge/up";
    b.register_bridge(from.to_string());
    b.bridge_add_subscription(from, "out/#", true);

    // What the broker has goes out at the QoS of its mapping.
    let out = publish("out/a", QoS::AtMostOnce, None);
    let event = LinkEvent::Outgoing(Outgoing::Send(Box::new(out)));
    match link.on_event(&mut b, &cfg, from, event, 5) {
        Ok(LinkAction::Send(Packet::Publish(p))) => {
            assert_eq!((p.qos, p.packet_id, p.dup), (QoS::AtLeastOnce, Some(2), false))
        }
        _ => panic!("expected PUBLISH"),
    }

    // What comes in is counted, published and acknowledged.
    let remote = Packet::Publish(publish("in/a", QoS::ExactlyOnce, Some(7)));
    match link.on_event(&mut b, &cfg, from, LinkEvent::Received(remote, 9), 5) {
        Ok(LinkAction::Send(Packet::Pubrec(a))) => assert_eq!(a.packet_id, 7),
        _ => panic!("expected PUBREC"),
    }
    assert_eq!(b.metrics().bytes_received, 9);
    assert_eq!(b.metrics().bridge_forwarded_in, 1);

    // The keep alive is 30 seconds.
    match link.on_event(&mut b, &cfg, from, LinkEvent::PingDue(60_000), 5) {
        Ok(LinkAction::Send(Packet::Pingreq)) => {}
        _ => panic!("expected PINGREQ"),
    }
    match link.on_event(&mut b, &cfg, from, LinkEvent::PingDue(60_001), 5) {
        Err(MqttError::Protocol(_)) => {}
        _ => panic!("expected an error"),
    }
    for event in [LinkEvent::Released, LinkEvent::Ended] {
        match link.on_event(&mut b, &cfg, from, event, 5) {
            Ok(LinkAction::Close) => {}
            _ => panic!("expected the end"),
        }
    }
}

#[test]
fn bridge_traffic_is_counted_in_the_packet_metrics() {
    let doc = parse_json(
        r#"{"bridges": [{"name": "metrics", "address": "tcp://remote", "topics": [
            {"pattern": "a2b/#", "direction": "out", "qos": 1},
            {"pattern": "b2a/#", "direction": "in", "qos": 1}]}]}"#,
    )
    .unwrap();
    let cfg = parse_bridges(&doc, "t.json").unwrap().remove(0);
    let mut b = broker();
    let from = "$bridge/metrics";
    let epoch = b.register_bridge(from.to_string());
    b.bridge_add_subscription(from, "a2b/#", true);
    let version = cfg.protocol_version;

    // Nothing has happened yet.
    let before = b.snapshot(5, 0);
    assert_eq!(before.packet_sent[PacketType::Connect.as_u8() as usize], 0);
    assert_eq!(before.packet_received[PacketType::Connack.as_u8() as usize], 0);

    let connect = Packet::Connect(build_connect(&cfg));
    let n = connect.encode(version).unwrap().len();
    count_link_sent(b.metrics_mut(), &connect, n);
    let connack = Packet::Connack(Connack::new(false, ReasonCode::Success));
    let n = connack.encode(version).unwrap().len();
    assert!(greeted(b.metrics_mut(), "metrics", &connack, n).unwrap());
    let subscribe = Packet::Subscribe(build_subscribe(&cfg).unwrap());
    let n = subscribe.encode(version).unwrap().len();
    count_link_sent(b.metrics_mut(), &subscribe, n);

    // A message of another origin is forwarded.
    b.inject_publish(
        "test-origin",
        Message {
            topic: "a2b/counted".into(),
            payload: b"bridge-payload".to_vec(),
            qos: QoS::AtMostOnce,
            retain: false,
            payload_format_indicator: None,
            content_type: None,
            response_topic: None,
            correlation_data: None,
            user_properties: Vec::new(),
            expires_at: None,
        },
        5,
    );
    let mut link = BridgeLink::new();
    for delivery in b.drain_outgoing() {
        assert_eq!(delivery.epoch, epoch);
        for item in delivery.items {
            let event = LinkEvent::Outgoing(item);
            if let Ok(LinkAction::Send(p)) = link.on_event(&mut b, &cfg, from, event, 5) {
                let n = p.encode(version).unwrap().len();
                count_link_sent(b.metrics_mut(), &p, n);
            }
        }
    }

    let after = b.snapshot(5, 0);
    assert!(
        after.packet_sent[PacketType::Connect.as_u8() as usize] >= 1,
        "the bridge's CONNECT to the remote was not counted"
    );
    assert!(
        after.packet_received[PacketType::Connack.as_u8() as usize] >= 1,
        "the remote's CONNACK was not counted"
    );
    assert!(
        after.packet_sent[PacketType::Subscribe.as_u8() as usize] >= 1,
        "the bridge's SUBSCRIBE to the remote was not counted"
    );
    assert!(
        after.packet_sent[PacketType::Publish.as_u8() as usize] >= 1,
        "the forwarded PUBLISH was not counted"
    );
    assert!(
        after.packets_sent >= 3 && after.bytes_sent > 0,
        "aggregate sent counters did not move: {} packets, {} bytes",
        after.packets_sent,
        after.bytes_sent
    );
    assert!(
        after.packets_received >= 1 && after.bytes_received > 0,
        "aggregate received counters did not move"
    );
    assert_eq!(
        after.publish_bytes_sent,
        b"bridge-payload".len() as u64,
        "forwarded payload bytes should be counted exactly once"
    );
    assert!(after.bridge_forwarded_out >= 1);
}

fn read(bridge: &str) -> Result<Vec<BridgeConfig>, MqttError> {
    parse_bridges(&parse_json(&format!("{{\"bridges\": [{bridge}]}}")).unwrap(), "t.json")
}

fn with_option(option: &str) -> Result<Vec<BridgeConfig>, MqttError> {
    read(&format!(
        r#"{{"name": "a", "address": "tcp://h", {option},
            "topics": [{{"pattern": "a", "direction": "out"}}]}}"#
    ))
}

#[test]
fn a_bridge_takes_no_member_of_another_type() {
    for option in [
        r#""keepalive": "30""#,
        r#""keepalive": 1.5"#,
        r#""keepalive": true"#,
        r#""keepalive": 65536"#,
        r#""protocol_version": "5""#,
        r#""protocol_version": 6"#,
        r#""client_id": 5"#,
        r#""username": 5"#,
        r#""password": false"#,
        r#""tls_ca": []"#,
        r#""tls_cert": {}"#,
        r#""tls_key": 1"#,
        r#""tls_insecure": "true""#,
        r#""tls_insecure": 1"#,
    ] {
        assert!(matches!(with_option(option), Err(MqttError::Config(_))), "{option}");
    }
    // What is null is as what is missing.
    let b = with_option(
        r#""keepalive": null, "protocol_version": null, "client_id": null, "username": null,
            "password": null, "tls_ca": null, "tls_cert": null, "tls_key": null,
            "tls_insecure": null"#,
    )
    .unwrap()
    .remove(0);
    assert_eq!((b.keepalive, b.protocol_version), (60, ProtocolVersion::V5));
    assert_eq!(b.client_id, "pulsemq-bridge-a");
    assert_eq!((b.username, b.password), (None, None));
    assert_eq!((b.tls_ca, b.tls_cert, b.tls_key, b.tls_insecure), (None, None, None, false));
    // And what is of its type is taken.
    let b = with_option(
        r#""keepalive": 30, "protocol_version": 4, "username": "u", "tls_key": "k",
            "tls_insecure": true"#,
    )
    .unwrap()
    .remove(0);
    assert_eq!((b.keepalive, b.protocol_version), (30, ProtocolVersion::V3_1_1));
    assert_eq!((b.username.as_deref(), b.tls_key.as_deref()), (Some("u"), Some("k")));
    assert!(b.tls_insecure);
}

#[test]
fn a_bridge_takes_no_unknown_key() {
    assert!(matches!(with_option(r#""keep_alive": 30"#), Err(MqttError::Config(_))));
    for mapping in [
        r#"{"pattern": "a", "direction": "out", "retain": true}"#,
        r#"{"pattern": "a", "direction": "out", "qos": "1"}"#,
        r#"{"pattern": "a", "direction": "out", "qos": 3}"#,
        r#"{"pattern": "a", "direction": 1}"#,
    ] {
        let b = format!(r#"{{"name": "a", "address": "tcp://h", "topics": [{mapping}]}}"#);
        assert!(matches!(read(&b), Err(MqttError::Config(_))), "{mapping}");
    }
    let b = read(
        r#"{"name": "a", "address": "tcp://h",
            "topics": [{"pattern": "a", "direction": "out", "qos": null}]}"#,
    )
    .unwrap()
    .remove(0);
    assert_eq!(b.topics[0].qos, QoS::AtMostOnce);
}

#[test]
fn what_is_wrong_with_a_bridge_is_said_in_words() {
    let topic = r#"{"pattern": "a", "direction": "out"}"#;
    for (bridge, words) in [
        ("{}".to_string(), "t.json: bridges[0]: missing string 'name'"),
        (r#"{"name": "a"}"#.to_string(), "t.json: bridges[0]: missing string 'address'"),
        (
            r#"{"name": "a", "address": "x"}"#.to_string(),
            "t.json: bridges[0]: 'topics' must be an array",
        ),
        (
            r#"{"name": "a", "address": "x", "topics": []}"#.to_string(),
            "t.json: bridges[0]: at least one topic mapping is required",
        ),
        (
            r#"{"name": "a", "address": "x", "keepalive": -1}"#.to_string(),
            "t.json: bridges[0]: keepalive out of range (0-65535)",
        ),
        (
            r#"{"name": "a", "address": "x", "protocol_version": -9223372036854775808}"#.to_string(),
            "t.json: bridges[0]: protocol_version must be 3, 4 or 5 (got -9223372036854775808)",
        ),
        (
            format!(r#"{{"name": "a", "address": "x", "topics": [{topic}, {{"pattern": "a#"}}]}}"#),
            r##"t.json: bridges[0].topics[1]: invalid topic filter "a#""##,
        ),
        (
            r#"{"name": "a", "address": "x", "topics": [{"pattern": "a"}]}"#.to_string(),
            "t.json: bridges[0].topics[0]: direction must be in|out|both",
        ),
        (
            r#"{"name": "a", "address": "x", "topics": [{"pattern": "a", "direction": "in", "qos": 3}]}"#
                .to_string(),
            "t.json: bridges[0].topics[0]: qos must be 0, 1 or 2 (got 3)",
        ),
        (
            format!(r#"{{"name": "a", "address": "x", "topics": [{topic}], "keepalive": "5"}}"#),
            "t.json: bridges[0]: keepalive must be an integer",
        ),
        (
            format!(r#"{{"name": "a", "address": "x", "topics": [{topic}], "z": 0, "y": 0}}"#),
            "t.json: bridges[0]: unknown key 'y'",
        ),
    ] {
        match read(&bridge) {
            Err(MqttError::Config(m)) => assert_eq!(m, words, "{bridge}"),
            _ => panic!("{bridge}"),
        }
    }
    for (address, words) in [
        ("a\"b", "bridge address \"a\\\"b\" must be scheme://host[:port]"),
        ("FTP://h", "bridge address: unknown scheme \"ftp\""),
        ("tcp://h:1x", "bridge address: invalid port \"1x\""),
        ("tcp://:1", "bridge address: empty host"),
    ] {
        match Endpoint::parse(address) {
            Err(MqttError::Config(m)) => assert_eq!(m, words, "{address}"),
            _ => panic!("{address}"),
        }
    }
    match greeted(&mut Metrics::new(), "u\"p", &Packet::Pingresp, 2) {
        Err(MqttError::Protocol(m)) => {
            assert_eq!(m, "bridge \"u\\\"p\": expected CONNACK, got PINGRESP");
        }
        _ => panic!("expected an error"),
    }
}
