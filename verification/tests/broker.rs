use std::collections::HashMap;
use wispmq::acl::Acl;
use wispmq::auth::{format_entry, Credentials};
use wispmq::broker::{Action, Broker, Outgoing};
use wispmq::codec::Properties;
use wispmq::config::Config;
use wispmq::error::MqttError;
use wispmq::json::parse_json;
use wispmq::packet::{
    Connect, Disconnect, Packet, PubAck, Publish, RetainHandling, Subscribe, TopicFilter,
    Unsubscribe, Will,
};
use wispmq::server::{count_sent, greet, read_timeout, Connection, Event, Greeting, Step};
use wispmq::storage::{Command, LoadedState, Storage};
use wispmq::sysinfo::{publish_first, publish_once};
use wispmq::types::{PacketType, ProtocolVersion, QoS, ReasonCode};

const V5: ProtocolVersion = ProtocolVersion::V5;

/// A broker, and what is on its way to each connection.
struct World {
    broker: Broker,
    mail: Vec<(u64, Outgoing)>,
    closed: Vec<u64>,
    now: u64,
}

fn world(config: Config) -> World {
    world_with(config, Storage::null(), Acl::permit_all(), None)
}

fn world_with(config: Config, storage: Storage, acl: Acl, auth: Option<Credentials>) -> World {
    World {
        broker: Broker::new(
            config,
            storage,
            LoadedState { retained: Vec::new(), sessions: Vec::new() },
            acl,
            auth,
        ),
        mail: Vec::new(),
        closed: Vec::new(),
        now: 1_000,
    }
}

fn connect_packet(client_id: &str) -> Connect {
    Connect {
        protocol_name: "MQTT".into(),
        protocol_version: 5,
        clean_start: true,
        keep_alive: 0,
        properties: Properties::new(),
        client_id: client_id.into(),
        will: None,
        username: None,
        password: None,
    }
}

fn persistent_packet(client_id: &str) -> Connect {
    let mut c = connect_packet(client_id);
    c.clean_start = false;
    c.properties.session_expiry_interval = Some(300);
    c
}

fn publish_packet(topic: &str, qos: QoS, id: Option<u16>, retain: bool, payload: &[u8]) -> Packet {
    Packet::Publish(Publish {
        dup: false,
        qos,
        retain,
        topic: topic.into(),
        packet_id: id,
        properties: Properties::new(),
        payload: payload.to_vec(),
    })
}

fn subscribe_packet(filter: &str, qos: QoS, no_local: bool) -> Packet {
    Packet::Subscribe(Subscribe {
        packet_id: 1,
        properties: Properties::new(),
        filters: vec![TopicFilter {
            filter: filter.into(),
            qos,
            no_local,
            retain_as_published: false,
            retain_handling: RetainHandling::SendAtSubscribe,
        }],
    })
}

impl World {
    fn greet(&mut self, c: Connect, identity: Option<String>) -> Greeting {
        let bytes = Packet::Connect(c).encode(V5).unwrap();
        let packet = Packet::decode(&bytes, V5).unwrap();
        greet(&mut self.broker, packet, bytes.len(), identity, self.now).unwrap()
    }

    fn connect_with(&mut self, c: Connect) -> Connection {
        match self.greet(c, None) {
            Greeting::Welcome { connection, connack, .. } => {
                assert_eq!(connack.reason_code, ReasonCode::Success);
                connection
            }
            Greeting::Refused { connack, .. } => panic!("refused: {:?}", connack.reason_code),
        }
    }

    fn connect(&mut self, client_id: &str) -> Connection {
        self.connect_with(connect_packet(client_id))
    }

    fn send(&mut self, c: &mut Connection, p: Packet) -> Step {
        let bytes = p.encode(c.version).unwrap();
        let packet = Packet::decode(&bytes, c.version).unwrap();
        c.on_event(&mut self.broker, Event::Received(packet, bytes.len()), self.now)
    }

    /// What has come for a connection.
    fn inbox(&mut self, c: &mut Connection) -> Vec<Packet> {
        for d in self.broker.drain_outgoing() {
            for item in d.items {
                self.mail.push((d.epoch, item));
            }
            if d.closed {
                self.closed.push(d.epoch);
            }
        }
        let mut out = Vec::new();
        let mut rest = Vec::new();
        for (epoch, item) in self.mail.drain(..) {
            if epoch == c.epoch {
                match c.on_event(&mut self.broker, Event::Outgoing(item), self.now) {
                    Step::Send(p) => out.push(p),
                    Step::Close(Some(p)) => out.push(p),
                    _ => {}
                }
            } else {
                rest.push((epoch, item));
            }
        }
        self.mail = rest;
        out
    }

    fn payloads(&mut self, c: &mut Connection) -> Vec<String> {
        self.inbox(c)
            .into_iter()
            .filter_map(|p| match p {
                Packet::Publish(p) => Some(String::from_utf8(p.payload).unwrap()),
                _ => None,
            })
            .collect()
    }

    fn subscribe(&mut self, c: &mut Connection, filter: &str, qos: QoS, no_local: bool) {
        self.send(c, subscribe_packet(filter, qos, no_local));
    }

    fn close(&mut self, c: Connection) -> wispmq::broker::FollowUp {
        self.broker
            .handle_connection_closed(&c.client_id, c.epoch, c.publish_will)
    }
}

#[test]
fn qos1_publish_is_routed_to_subscriber() {
    let mut w = world(Config::default());
    let mut sub = w.connect("sub");
    w.subscribe(&mut sub, "sensors/#", QoS::AtLeastOnce, false);
    match &w.inbox(&mut sub)[..] {
        [Packet::Suback(s)] => assert_eq!(s.reason_codes, vec![ReasonCode::GrantedQoS1]),
        other => panic!("expected SUBACK, got {other:?}"),
    }

    let mut pubr = w.connect("pub");
    w.send(
        &mut pubr,
        publish_packet("sensors/temp", QoS::AtLeastOnce, Some(10), false, b"22.4C"),
    );
    match &w.inbox(&mut pubr)[..] {
        [Packet::Puback(a)] => assert_eq!(a.packet_id, 10),
        other => panic!("expected PUBACK, got {other:?}"),
    }
    match &w.inbox(&mut sub)[..] {
        [Packet::Publish(p)] => {
            assert_eq!(p.topic, "sensors/temp");
            assert_eq!(p.payload, b"22.4C");
            assert_eq!(p.qos, QoS::AtLeastOnce);
        }
        other => panic!("expected forwarded PUBLISH, got {other:?}"),
    }
}

#[test]
fn retained_message_delivered_on_subscribe() {
    let mut w = world(Config::default());
    let mut pubr = w.connect("retpub");
    w.send(
        &mut pubr,
        publish_packet("state/lamp", QoS::AtMostOnce, None, true, b"on"),
    );

    let mut sub = w.connect("retsub");
    w.subscribe(&mut sub, "state/lamp", QoS::AtMostOnce, false);
    let mut saw_publish = false;
    for p in w.inbox(&mut sub) {
        if let Packet::Publish(p) = p {
            assert_eq!(p.topic, "state/lamp");
            assert_eq!(p.payload, b"on");
            assert!(p.retain, "retained delivery must set the RETAIN flag");
            saw_publish = true;
        }
    }
    assert!(saw_publish, "did not receive retained message");
}

#[test]
fn an_empty_retained_publication_clears_the_topic() {
    let mut w = world(Config::default());
    let mut c = w.connect("c");
    w.send(&mut c, publish_packet("t", QoS::AtMostOnce, None, true, b"x"));
    assert_eq!(w.broker.retained(w.now).len(), 1);
    w.send(&mut c, publish_packet("t", QoS::AtMostOnce, None, true, b""));
    assert!(w.broker.retained(w.now).is_empty());
}

fn flood(max_queued: u32, count: u32) -> u64 {
    let mut w = world(Config {
        max_queued_messages: max_queued,
        ..Config::default()
    });
    let mut sub = w.connect_with(persistent_packet("durable"));
    w.subscribe(&mut sub, "load/#", QoS::AtLeastOnce, false);
    w.close(sub);

    let mut pubr = w.connect("flooder");
    for i in 0..count {
        w.send(
            &mut pubr,
            publish_packet(
                "load/x",
                QoS::AtLeastOnce,
                Some((i % 65535 + 1) as u16),
                false,
                format!("msg-{i}").as_bytes(),
            ),
        );
    }
    let now = w.now;
    w.broker.snapshot(now, 0).publish_dropped
}

#[test]
fn offline_session_queue_is_bounded() {
    // Ten stay in the queue; the other ninety are dropped.
    assert_eq!(flood(10, 100), 90);
}

#[test]
fn zero_means_unlimited() {
    assert_eq!(
        flood(0, 50),
        0,
        "max_queued_messages=0 must not drop anything"
    );
}

#[test]
fn connection_rate_limit_rejects_beyond_the_cap() {
    let mut w = world(Config {
        max_connections_per_ip: 2,
        connection_rate_window_secs: 60,
        ..Config::default()
    });
    assert!(w.broker.accept_source("127.0.0.1", 0));
    assert!(w.broker.accept_source("127.0.0.1", 10));
    assert!(!w.broker.accept_source("127.0.0.1", 20));
    let now = w.now;
    let snap = w.broker.snapshot(now, 0);
    assert_eq!(snap.connections_rate_limited, 1);
    assert_eq!(snap.socket_connections, 3);
    w.broker.sweep_sources(1_000_000);
    assert!(w.broker.accept_source("127.0.0.1", 1_000_000));
}

#[test]
fn connection_rate_limit_zero_means_unlimited() {
    let mut w = world(Config {
        max_connections_per_ip: 0,
        connection_rate_window_secs: 60,
        ..Config::default()
    });
    for _ in 0..10 {
        assert!(w.broker.accept_source("127.0.0.1", 0));
    }
    let now = w.now;
    assert_eq!(
        w.broker.snapshot(now, 0).connections_rate_limited,
        0,
        "max_connections_per_ip=0 must not reject anything"
    );
}

#[test]
fn shared_group_delivers_each_message_to_exactly_one_member() {
    let mut w = world(Config::default());
    let mut a = w.connect("member-a");
    let mut b = w.connect("member-b");
    w.subscribe(&mut a, "$share/g1/sensors/temp", QoS::AtMostOnce, false);
    w.subscribe(&mut b, "$share/g1/sensors/temp", QoS::AtMostOnce, false);

    let mut pubr = w.connect("publisher");
    for i in 0..10 {
        w.send(
            &mut pubr,
            publish_packet(
                "sensors/temp",
                QoS::AtMostOnce,
                None,
                false,
                format!("m{i}").as_bytes(),
            ),
        );
    }
    let got_a = w.payloads(&mut a);
    let got_b = w.payloads(&mut b);

    let mut all: Vec<String> = got_a.iter().chain(got_b.iter()).cloned().collect();
    all.sort();
    let mut expected: Vec<String> = (0..10).map(|i| format!("m{i}")).collect();
    expected.sort();
    assert_eq!(all, expected, "a={got_a:?} b={got_b:?}");
    assert_eq!(got_a.len(), 5, "members take turns: a={got_a:?} b={got_b:?}");
}

#[test]
fn each_group_and_ordinary_subscribers_get_their_own_copy() {
    let mut w = world(Config::default());
    let mut g1 = w.connect("g1-only");
    let mut g2 = w.connect("g2-only");
    let mut plain = w.connect("plain");
    w.subscribe(&mut g1, "$share/groupone/sensors/temp", QoS::AtMostOnce, false);
    w.subscribe(&mut g2, "$share/grouptwo/sensors/temp", QoS::AtMostOnce, false);
    w.subscribe(&mut plain, "sensors/temp", QoS::AtMostOnce, false);

    let mut pubr = w.connect("publisher");
    w.send(
        &mut pubr,
        publish_packet("sensors/temp", QoS::AtMostOnce, None, false, b"only-once"),
    );
    assert_eq!(w.payloads(&mut g1), vec!["only-once".to_string()]);
    assert_eq!(w.payloads(&mut g2), vec!["only-once".to_string()]);
    assert_eq!(w.payloads(&mut plain), vec!["only-once".to_string()]);
}

#[test]
fn no_local_excludes_the_publisher_from_its_shared_group() {
    let mut w = world(Config::default());
    let mut selfsub = w.connect("self-publisher");
    let mut other = w.connect("other-member");
    w.subscribe(&mut selfsub, "$share/g1/loop/test", QoS::AtMostOnce, true);
    w.subscribe(&mut other, "$share/g1/loop/test", QoS::AtMostOnce, false);

    w.send(
        &mut selfsub,
        publish_packet("loop/test", QoS::AtMostOnce, None, false, b"mine"),
    );
    assert!(
        w.payloads(&mut selfsub).is_empty(),
        "no_local must suppress the echo to the publisher"
    );
    assert_eq!(
        w.payloads(&mut other),
        vec!["mine".to_string()],
        "the message should still reach the other group member"
    );
}

#[test]
fn overlapping_subscriptions_deliver_once_at_the_highest_qos() {
    let mut w = world(Config::default());
    let mut sub = w.connect("sub");
    w.subscribe(&mut sub, "a/#", QoS::AtMostOnce, false);
    w.subscribe(&mut sub, "a/+", QoS::ExactlyOnce, false);
    w.inbox(&mut sub);
    let mut pubr = w.connect("pub");
    w.send(
        &mut pubr,
        publish_packet("a/b", QoS::AtLeastOnce, Some(1), false, b"x"),
    );
    match &w.inbox(&mut sub)[..] {
        [Packet::Publish(p)] => assert_eq!(p.qos, QoS::AtLeastOnce),
        other => panic!("expected one PUBLISH, got {other:?}"),
    }
}

fn sys_world(ha: bool, interval: u32) -> World {
    let mut w = world(Config {
        sys_interval: interval,
        ha_discovery: ha,
        service_name: "edge-1".to_string(),
        ..Config::default()
    });
    let now = w.now;
    let period = publish_first(&mut w.broker, now, 0);
    assert_eq!(period, if interval == 0 { None } else { Some(interval) });
    w
}

fn topics_of(w: &mut World, c: &mut Connection) -> HashMap<String, String> {
    w.inbox(c)
        .into_iter()
        .filter_map(|p| match p {
            Packet::Publish(p) => Some((p.topic, String::from_utf8(p.payload).unwrap())),
            _ => None,
        })
        .collect()
}

#[test]
fn sys_topics_are_published_and_retained() {
    let mut w = sys_world(false, 1);
    let mut c = w.connect("sys-reader");
    w.subscribe(&mut c, "$SYS/#", QoS::AtMostOnce, false);
    let retained_now = topics_of(&mut w, &mut c);
    assert!(retained_now.contains_key("$SYS/broker/version"));

    let now = w.now;
    publish_once(&mut w.broker, now, 7);
    let topics = topics_of(&mut w, &mut c);
    assert!(topics["$SYS/broker/version"].starts_with("WispMQ "));
    assert!(topics.contains_key("$SYS/broker/messages/received"));
    assert!(topics.contains_key("$SYS/broker/mqtt/publish/received"));
    assert_eq!(topics["$SYS/broker/uptime"], "7 seconds");
    assert_eq!(topics["$SYS/broker/clients/connected"], "1");
}

#[test]
fn sys_interval_zero_disables_publishing() {
    let mut w = sys_world(true, 0);
    let mut c = w.connect("sys-off");
    w.subscribe(&mut c, "$SYS/#", QoS::AtMostOnce, false);
    assert!(topics_of(&mut w, &mut c).is_empty());
}

#[test]
fn wildcard_subscribers_do_not_receive_sys_topics() {
    let mut w = sys_world(false, 1);
    let mut c = w.connect("hash-sub");
    w.subscribe(&mut c, "#", QoS::AtMostOnce, false);
    let now = w.now;
    publish_once(&mut w.broker, now, 1);
    let topics = topics_of(&mut w, &mut c);
    assert!(topics.keys().all(|t| !t.starts_with("$SYS")));
}

#[test]
fn clients_cannot_publish_to_sys() {
    let mut w = world(Config::default());
    let mut c = w.connect("forger");
    let step = w.send(
        &mut c,
        publish_packet(
            "$SYS/broker/clients/connected",
            QoS::AtMostOnce,
            None,
            true,
            b"99999",
        ),
    );
    match step {
        Step::Close(Some(Packet::Disconnect(d))) => {
            assert_eq!(d.reason_code, ReasonCode::TopicNameInvalid)
        }
        _ => panic!("expected refusal of a $SYS publish"),
    }
    assert!(w.broker.retained(w.now).is_empty());
}

fn one_real_retained_message(mut w: World) {
    let now = w.now;
    let snap = w.broker.snapshot(now, 0);
    assert!(!snap.to_sys_topics().is_empty());
    assert_eq!(snap.retained_messages, 0);
    assert_eq!(snap.retained_bytes, 0);
    assert!(w.broker.retained(now).is_empty());

    let mut c = w.connect("retainer");
    w.send(
        &mut c,
        publish_packet("user/keep", QoS::AtMostOnce, None, true, b"hello"),
    );
    let snap = w.broker.snapshot(now, 0);
    assert_eq!(snap.retained_messages, 1);
    assert_eq!(snap.retained_bytes, 5);
    assert_eq!(w.broker.retained(now).len(), 1);
}

#[test]
fn sys_topics_do_not_inflate_the_retained_gauge() {
    one_real_retained_message(sys_world(false, 1));
}

#[test]
fn ha_discovery_topics_do_not_inflate_the_retained_gauge() {
    let mut w = sys_world(true, 1);
    let now = w.now;
    let snap = w.broker.snapshot(now, 0);
    assert!(!snap.to_ha_discovery("homeassistant", "edge-1").is_empty());
    one_real_retained_message(w);
}

#[test]
fn expired_retained_messages_are_excluded_and_purged() {
    let mut w = world(Config::default());
    let mut c = w.connect("expiring-retainer");
    let mut props = Properties::new();
    props.message_expiry_interval = Some(3);
    w.send(
        &mut c,
        Packet::Publish(Publish {
            dup: false,
            qos: QoS::AtMostOnce,
            retain: true,
            topic: "user/soon-gone".into(),
            packet_id: None,
            properties: props,
            payload: b"bye".to_vec(),
        }),
    );
    let now = w.now;
    let snap = w.broker.snapshot(now, 0);
    assert_eq!(snap.retained_messages, 1);
    assert_eq!(snap.retained_bytes, 3);
    assert_eq!(w.broker.retained(now).len(), 1);

    let snap = w.broker.snapshot(now + 4, 0);
    assert_eq!(
        snap.retained_messages, 0,
        "expired retained message must not be counted"
    );
    assert_eq!(snap.retained_bytes, 0);
    assert!(w.broker.retained(now).is_empty(), "it must be purged, not just hidden");
}

#[test]
fn sys_and_prometheus_report_the_same_values() {
    let mut w = world(Config::default());
    assert!(w.broker.accept_source("127.0.0.1", 0));
    let mut c = w.connect("traffic");
    w.subscribe(&mut c, "load/#", QoS::AtMostOnce, false);
    for i in 0..5 {
        w.send(
            &mut c,
            publish_packet(
                "load/x",
                QoS::AtMostOnce,
                None,
                false,
                format!("payload-{i}").as_bytes(),
            ),
        );
    }

    let now = w.now;
    let snap = w.broker.snapshot(now, 0);
    let prom = snap.to_prometheus();
    let sys: HashMap<String, String> = snap.to_sys_topics().into_iter().collect();

    let prom_value = |name: &str| -> u64 {
        for line in prom.lines() {
            if let Some(rest) = line.strip_prefix(name) {
                if let Some(v) = rest.strip_prefix(' ') {
                    return v.trim().parse().unwrap();
                }
            }
        }
        panic!("{name} missing from /metrics output");
    };

    for (prom_name, sys_topic) in [
        ("mqtt_bytes_received_total", "$SYS/broker/bytes/received"),
        (
            "mqtt_messages_received_total",
            "$SYS/broker/messages/received",
        ),
        (
            "mqtt_publish_received_total",
            "$SYS/broker/publish/messages/received",
        ),
        (
            "mqtt_publish_bytes_received_total",
            "$SYS/broker/publish/bytes/received",
        ),
        ("mqtt_clients_connected", "$SYS/broker/clients/connected"),
        (
            "mqtt_subscriptions_total",
            "$SYS/broker/subscriptions/count",
        ),
        (
            "mqtt_socket_connections_total",
            "$SYS/broker/connections/socket/count",
        ),
        (
            "mqtt_packet_publish_received_total",
            "$SYS/broker/mqtt/publish/received",
        ),
        (
            "mqtt_packet_connect_received_total",
            "$SYS/broker/mqtt/connect/received",
        ),
    ] {
        let from_sys: u64 = sys[sys_topic]
            .parse()
            .unwrap_or_else(|_| panic!("{sys_topic} was not numeric: {:?}", sys[sys_topic]));
        assert_eq!(
            prom_value(prom_name),
            from_sys,
            "{prom_name} and {sys_topic} disagree"
        );
    }

    assert_eq!(snap.publish_received, 5);
    assert_eq!(
        snap.publish_bytes_received,
        5 * "payload-0".len() as u64
    );
    assert_eq!(
        snap.packet_received[PacketType::Publish.as_u8() as usize],
        snap.publish_received
    );
    assert_eq!(snap.packet_received[PacketType::Connect.as_u8() as usize], 1);
    assert_eq!(snap.socket_connections, 1);
    assert_eq!(snap.clients_maximum, 1);
}

#[test]
fn no_duplicate_metric_names() {
    let mut w = world(Config::default());
    let now = w.now;
    let prom = w.broker.snapshot(now, 0).to_prometheus();

    let help_name = |line: &str| -> Option<String> {
        line.strip_prefix("# HELP ")
            .and_then(|r| r.split_whitespace().next())
            .map(str::to_string)
    };
    let sample_name = |line: &str| -> Option<String> {
        if line.starts_with('#') || line.trim().is_empty() {
            return None;
        }
        line.split_whitespace()
            .next()
            .map(|n| n.split('{').next().unwrap_or(n).to_string())
    };

    let mut declared: Vec<String> = prom.lines().filter_map(help_name).collect();
    let mut emitted: Vec<String> = prom.lines().filter_map(sample_name).collect();
    assert!(declared.len() > 40, "suspiciously few metrics parsed");

    for (what, names) in [("HELP", &mut declared), ("sample", &mut emitted)] {
        names.sort();
        let dupes: Vec<&String> = names
            .windows(2)
            .filter(|w| w[0] == w[1])
            .map(|w| &w[0])
            .collect();
        assert!(
            dupes.is_empty(),
            "duplicate {what} lines in /metrics for: {dupes:?}"
        );
    }
    assert_eq!(declared, emitted, "HELP blocks and samples disagree");
}

#[test]
fn a_takeover_sends_the_old_connection_away() {
    let mut w = world(Config::default());
    let mut old = w.connect_with(persistent_packet("same"));
    w.subscribe(&mut old, "a", QoS::AtLeastOnce, false);
    w.inbox(&mut old);
    let mut new = match w.greet(persistent_packet("same"), None) {
        Greeting::Welcome { connection, connack, .. } => {
            assert!(connack.session_present);
            connection
        }
        _ => panic!("expected a welcome"),
    };
    match &w.inbox(&mut old)[..] {
        [Packet::Disconnect(d)] => assert_eq!(d.reason_code, ReasonCode::SessionTakenOver),
        other => panic!("expected DISCONNECT, got {other:?}"),
    }
    assert!(!old.publish_will, "a client that is sent away leaves no will");
    assert_eq!(w.closed, vec![old.epoch]);
    // The old connection's end touches nothing.
    let follow = w.close(old);
    assert!(follow.will.is_none() && follow.expire_after.is_none());
    assert_eq!(w.broker.clients().len(), 1);

    // The subscription was kept.
    let mut pubr = w.connect("p");
    w.send(&mut pubr, publish_packet("a", QoS::AtLeastOnce, Some(1), false, b"x"));
    assert_eq!(w.payloads(&mut new), vec!["x".to_string()]);
}

#[test]
fn a_resumed_session_gets_what_it_missed_and_duplicates_of_the_rest() {
    let mut w = world(Config::default());
    let mut sub = w.connect_with(persistent_packet("s"));
    w.subscribe(&mut sub, "a", QoS::AtLeastOnce, false);
    let mut pubr = w.connect("p");
    w.send(&mut pubr, publish_packet("a", QoS::AtLeastOnce, Some(1), false, b"one"));
    // Delivered, but not acknowledged.
    assert_eq!(w.payloads(&mut sub), vec!["one".to_string()]);
    w.close(sub);
    w.send(&mut pubr, publish_packet("a", QoS::AtLeastOnce, Some(2), false, b"two"));

    let mut sub = w.connect_with(persistent_packet("s"));
    let got: Vec<(String, bool)> = w
        .inbox(&mut sub)
        .into_iter()
        .filter_map(|p| match p {
            Packet::Publish(p) => Some((String::from_utf8(p.payload).unwrap(), p.dup)),
            _ => None,
        })
        .collect();
    assert_eq!(
        got,
        vec![("one".to_string(), true), ("two".to_string(), false)]
    );
}

#[test]
fn a_qos2_publication_is_routed_once() {
    let mut w = world(Config::default());
    let mut sub = w.connect("s");
    w.subscribe(&mut sub, "a", QoS::AtMostOnce, false);
    w.inbox(&mut sub);
    let mut pubr = w.connect("p");
    for _ in 0..3 {
        w.send(&mut pubr, publish_packet("a", QoS::ExactlyOnce, Some(5), false, b"x"));
    }
    assert_eq!(w.payloads(&mut sub).len(), 1);
    let acks = w.inbox(&mut pubr);
    assert_eq!(acks.len(), 3);
    assert!(acks.iter().all(|p| matches!(p, Packet::Pubrec(_))));

    w.send(
        &mut pubr,
        Packet::Pubrel(PubAck {
            packet_id: 5,
            reason_code: ReasonCode::Success,
            properties: Properties::new(),
        }),
    );
    assert!(matches!(&w.inbox(&mut pubr)[..], [Packet::Pubcomp(a)] if a.packet_id == 5));
    // The identifier is free again.
    w.send(&mut pubr, publish_packet("a", QoS::ExactlyOnce, Some(5), false, b"y"));
    assert_eq!(w.payloads(&mut sub), vec!["y".to_string()]);
}

#[test]
fn a_will_is_published_after_an_abnormal_end_only() {
    let mut w = world(Config::default());
    let mut sub = w.connect("watcher");
    w.subscribe(&mut sub, "last", QoS::AtMostOnce, false);
    w.inbox(&mut sub);

    let with_will = |delay: Option<u32>| {
        let mut c = connect_packet("mortal");
        c.properties.session_expiry_interval = Some(100);
        let mut properties = Properties::new();
        properties.will_delay_interval = delay;
        c.will = Some(Will {
            qos: QoS::AtMostOnce,
            retain: false,
            properties,
            topic: "last".into(),
            payload: b"gone".to_vec(),
        });
        c
    };

    // Abnormal end: the will goes out.
    let mut c = w.connect_with(with_will(None));
    assert!(matches!(
        c.on_event(&mut w.broker, Event::Ended, w.now),
        Step::Close(None)
    ));
    let (id, epoch) = (c.client_id.clone(), c.epoch);
    let follow = w.close(c);
    let task = follow.will.expect("a will");
    w.broker.fire_will(&id, epoch, task, w.now);
    assert_eq!(w.payloads(&mut sub), vec!["gone".to_string()]);

    // A normal DISCONNECT discards it.
    let mut c = w.connect_with(with_will(None));
    let step = w.send(&mut c, Packet::Disconnect(Disconnect::new(ReasonCode::Success)));
    assert!(matches!(step, Step::Close(None)));
    assert!(w.close(c).will.is_none());

    // A delayed one is called off when the client comes back.
    let c = w.connect_with(with_will(Some(10)));
    let (id, epoch) = (c.client_id.clone(), c.epoch);
    let task = w.close(c).will.expect("a will");
    assert_eq!(task.delay, 10);
    let _back = w.connect_with(with_will(Some(10)));
    w.broker.fire_will(&id, epoch, task, w.now);
    assert!(w.payloads(&mut sub).is_empty());
}

#[test]
fn a_session_expires_unless_its_client_comes_back() {
    let mut w = world(Config::default());
    let c = w.connect_with(persistent_packet("s"));
    let epoch = c.epoch;
    assert_eq!(w.close(c).expire_after, Some(300));
    assert_eq!(w.broker.clients().len(), 1);
    w.broker.expire_session("s", epoch);
    assert!(w.broker.clients().is_empty());
    let now = w.now;
    assert_eq!(w.broker.snapshot(now, 0).clients_expired, 1);

    let c = w.connect_with(persistent_packet("s"));
    let epoch = c.epoch;
    w.close(c);
    let _back = w.connect_with(persistent_packet("s"));
    w.broker.expire_session("s", epoch);
    assert_eq!(w.broker.clients().len(), 1);
}

#[test]
fn policy_and_credentials_are_enforced() {
    let acl = Acl::from_value(
        &parse_json(
            r#"{"default": "deny", "rules": [
                {"identity": "alice", "publish": ["a/#"], "subscribe": ["a/#"]}]}"#,
        )
        .unwrap(),
    )
    .unwrap();
    let users = Credentials::parse("users", &format_entry("alice", b"pw").unwrap()).unwrap();
    let mut w = world_with(Config::default(), Storage::null(), acl, Some(users));

    let mut wrong = connect_packet("x");
    wrong.username = Some("alice".into());
    wrong.password = Some(b"nope".to_vec());
    match w.greet(wrong, None) {
        Greeting::Refused { connack, .. } => {
            assert_eq!(connack.reason_code, ReasonCode::BadUserNameOrPassword)
        }
        _ => panic!("expected a refusal"),
    }
    match w.greet(connect_packet("y"), None) {
        Greeting::Refused { .. } => {}
        _ => panic!("anonymous clients are not let in"),
    }

    let mut right = connect_packet("z");
    right.username = Some("alice".into());
    right.password = Some(b"pw".to_vec());
    let mut c = w.connect_with(right);
    w.subscribe(&mut c, "b", QoS::AtMostOnce, false);
    w.subscribe(&mut c, "a/b", QoS::AtMostOnce, false);
    let codes: Vec<ReasonCode> = w
        .inbox(&mut c)
        .into_iter()
        .filter_map(|p| match p {
            Packet::Suback(s) => Some(s.reason_codes[0]),
            _ => None,
        })
        .collect();
    assert_eq!(codes, vec![ReasonCode::NotAuthorized, ReasonCode::Success]);
    w.send(&mut c, publish_packet("b", QoS::AtLeastOnce, Some(1), true, b"x"));
    assert!(w.broker.retained(w.now).is_empty());
    match &w.inbox(&mut c)[..] {
        [Packet::Puback(a)] => assert_eq!(a.reason_code, ReasonCode::NotAuthorized),
        other => panic!("expected PUBACK, got {other:?}"),
    }
}

#[test]
fn a_new_policy_takes_subscriptions_away() {
    let mut w = world(Config {
        acl_path: Some("acl.json".to_string()),
        ..Config::default()
    });
    let mut c = w.connect("c");
    w.subscribe(&mut c, "a", QoS::AtMostOnce, false);
    let now = w.now;
    assert_eq!(w.broker.snapshot(now, 0).subscriptions_total, 1);
    assert!(w.broker.reload_acl("{not json").is_err());
    assert_eq!(w.broker.snapshot(now, 0).subscriptions_total, 1);
    assert!(w.broker.reload_acl(r#"{"default": "deny", "rules": []}"#).unwrap());
    assert_eq!(w.broker.snapshot(now, 0).subscriptions_total, 0);
}

#[test]
fn durable_state_goes_to_the_storage() {
    let mut w = world_with(Config::default(), Storage::new(), Acl::permit_all(), None);
    let mut c = w.connect_with(persistent_packet("s"));
    w.subscribe(&mut c, "a", QoS::AtLeastOnce, false);
    w.send(&mut c, publish_packet("t", QoS::AtMostOnce, None, true, b"x"));
    w.send(
        &mut c,
        Packet::Unsubscribe(Unsubscribe {
            packet_id: 3,
            properties: Properties::new(),
            filters: vec!["a".to_string()],
        }),
    );
    let commands = w.broker.take_commands();
    assert!(commands
        .iter()
        .any(|c| matches!(c, Command::UpsertSession { client_id, .. } if client_id == "s")));
    assert!(commands
        .iter()
        .any(|c| matches!(c, Command::UpsertSubscription { sub, .. } if sub.filter == "a")));
    assert!(commands
        .iter()
        .any(|c| matches!(c, Command::UpsertRetained { topic, .. } if topic == "t")));
    assert!(commands
        .iter()
        .any(|c| matches!(c, Command::DeleteSubscription { filter, .. } if filter == "a")));
}

#[test]
fn the_receive_maximum_of_a_client_is_kept() {
    let mut w = world(Config::default());
    let mut c = connect_packet("slow");
    c.properties.receive_maximum = Some(2);
    let mut slow = w.connect_with(c);
    w.subscribe(&mut slow, "a", QoS::AtLeastOnce, false);
    w.inbox(&mut slow);
    let mut pubr = w.connect("p");
    for i in 1..=4u16 {
        w.send(
            &mut pubr,
            publish_packet("a", QoS::AtLeastOnce, Some(i), false, format!("m{i}").as_bytes()),
        );
    }
    let first: Vec<Packet> = w.inbox(&mut slow);
    assert_eq!(first.len(), 2);
    let id = match &first[0] {
        Packet::Publish(p) => p.packet_id.unwrap(),
        _ => panic!("expected PUBLISH"),
    };
    w.send(
        &mut slow,
        Packet::Puback(PubAck {
            packet_id: id,
            reason_code: ReasonCode::Success,
            properties: Properties::new(),
        }),
    );
    assert_eq!(w.payloads(&mut slow), vec!["m3".to_string()]);
}

#[test]
fn the_first_packet_must_be_a_connect() {
    let mut w = world(Config::default());
    let r = greet(&mut w.broker, Packet::Pingreq, 2, None, 0);
    match r {
        Err(e) => assert_eq!(
            e.message(),
            "protocol error: first packet was PINGREQ not CONNECT"
        ),
        Ok(_) => panic!("expected an error"),
    }
    assert_eq!(w.broker.metrics().packets_received, 1);
}

#[test]
fn an_unknown_protocol_level_is_refused_in_version_3_1_1() {
    let mut w = world(Config::default());
    let mut c = connect_packet("c");
    c.protocol_version = 9;
    let r = greet(&mut w.broker, Packet::Connect(c), 10, None, 0).unwrap();
    match r {
        Greeting::Refused { connack, version } => {
            assert_eq!(version, ProtocolVersion::V3_1_1);
            assert_eq!(connack.reason_code, ReasonCode::UnsupportedProtocolVersion);
        }
        _ => panic!("expected a refusal"),
    }
}

#[test]
fn connections_end_with_a_reason_for_v5_and_without_for_older_clients() {
    let mut w = world(Config::default());
    let mut c = w.connect("new");
    match c.on_event(&mut w.broker, Event::Silent, 0) {
        Step::Close(Some(Packet::Disconnect(d))) => {
            assert_eq!(d.reason_code, ReasonCode::KeepAliveTimeout)
        }
        _ => panic!("expected a DISCONNECT"),
    }
    match c.on_event(
        &mut w.broker,
        Event::Faulty(wispmq::error::malformed("bad")),
        0,
    ) {
        Step::Close(Some(Packet::Disconnect(d))) => {
            assert_eq!(d.reason_code, ReasonCode::MalformedPacket)
        }
        _ => panic!("expected a DISCONNECT"),
    }
    // A second CONNECT is a protocol error.
    match c.on_event(
        &mut w.broker,
        Event::Received(Packet::Connect(connect_packet("new")), 10),
        0,
    ) {
        Step::Close(Some(Packet::Disconnect(d))) => {
            assert_eq!(d.reason_code, ReasonCode::ProtocolError)
        }
        _ => panic!("expected a DISCONNECT"),
    }
    assert!(matches!(
        c.on_event(&mut w.broker, Event::Released, 0),
        Step::Close(None)
    ));

    let mut old = connect_packet("old");
    old.protocol_version = 4;
    let mut old = w.connect_with(old);
    assert_eq!(old.version, ProtocolVersion::V3_1_1);
    assert!(matches!(
        old.on_event(&mut w.broker, Event::Silent, 0),
        Step::Close(None)
    ));
    assert!(old.publish_will);
}

#[test]
fn pings_are_answered_and_packets_counted() {
    let mut w = world(Config::default());
    let mut c = w.connect("c");
    assert!(matches!(w.send(&mut c, Packet::Pingreq), Step::Wait));
    let out = w.inbox(&mut c);
    assert!(matches!(&out[..], [Packet::Pingresp]));
    count_sent(w.broker.metrics_mut(), &out[0], 2);
    let p = publish_packet("a", QoS::AtMostOnce, None, false, b"12345");
    count_sent(w.broker.metrics_mut(), &p, 10);
    let m = w.broker.metrics();
    assert_eq!(m.packets_sent, 2);
    assert_eq!(m.bytes_sent, 12);
    assert_eq!(m.publish_bytes_sent, 5);
    assert_eq!(m.packets_received, 2);
}

#[test]
fn keep_alive_is_one_and_a_half_times() {
    assert_eq!(read_timeout(0), 31_536_000);
    assert_eq!(read_timeout(60), 91);
    assert_eq!(read_timeout(1), 2);
    assert_eq!(read_timeout(65535), 98_303);
}

#[test]
fn packets_that_only_a_server_sends_end_the_connection() {
    let mut w = world(Config::default());
    let c = w.connect("c");
    let a = w
        .broker
        .handle_packet(&c.client_id, c.epoch, Packet::Pingresp, 0);
    assert_eq!(a, Action::ServerDisconnect(ReasonCode::ProtocolError));
}

#[test]
fn a_client_without_an_identifier_gets_one() {
    let mut w = world(Config::default());
    match w.greet(connect_packet(""), None) {
        Greeting::Welcome { connection, connack, .. } => {
            assert!(!connection.client_id.is_empty());
            assert_eq!(
                connack.properties.assigned_client_identifier,
                Some(connection.client_id)
            );
        }
        _ => panic!("expected a welcome"),
    }
}

#[test]
fn clients_are_listed_by_name() {
    let mut w = world(Config::default());
    let _b = w.connect("b");
    let _a = w.connect("a");
    let names: Vec<String> = w.broker.clients().into_iter().map(|c| c.client_id).collect();
    assert_eq!(names, vec!["a".to_string(), "b".to_string()]);
}

#[test]
fn topic_aliases_are_those_of_one_connection() {
    let mut w = world(Config::default());
    let aliased = |topic: &str| {
        let mut properties = Properties::new();
        properties.topic_alias = Some(1);
        Packet::Publish(Publish {
            dup: false,
            qos: QoS::AtMostOnce,
            retain: false,
            topic: topic.into(),
            packet_id: None,
            properties,
            payload: b"x".to_vec(),
        })
    };
    let mut first = w.connect_with(persistent_packet("c"));
    w.send(&mut first, aliased("a"));
    assert!(matches!(w.send(&mut first, aliased("")), Step::Wait));
    // Another connection takes the session over.
    let mut second = w.connect_with(persistent_packet("c"));
    match w.send(&mut second, aliased("")) {
        Step::Close(Some(Packet::Disconnect(d))) => {
            assert_eq!(d.reason_code, ReasonCode::TopicAliasInvalid)
        }
        _ => panic!("expected DISCONNECT"),
    }
}

#[test]
fn only_lasting_sessions_of_named_clients_are_stored() {
    for (client_id, expiry, stored) in [("a", 60, true), ("a", 0, false), ("", 60, false)] {
        let mut w = world_with(Config::default(), Storage::new(), Acl::permit_all(), None);
        let mut c = connect_packet(client_id);
        c.properties.session_expiry_interval = Some(expiry);
        w.connect_with(c);
        let commands = w.broker.take_commands();
        let found = commands.iter().any(|c| matches!(c, Command::UpsertSession { .. }));
        assert_eq!(found, stored, "{client_id:?} {expiry}");
    }
}

#[test]
fn the_loss_of_the_writer_is_reported_once() {
    let mut w = world_with(Config::default(), Storage::new(), Acl::permit_all(), None);
    w.connect_with(persistent_packet("a"));
    assert!(w.broker.record_writer_loss());
    assert!(!w.broker.record_writer_loss());
    w.connect_with(persistent_packet("b"));
    assert!(w.broker.take_commands().is_empty());
}

#[test]
fn a_refused_first_packet_is_counted_without_its_payload() {
    let mut w = world(Config::default());
    let p = Publish {
        dup: false,
        qos: QoS::AtMostOnce,
        retain: false,
        topic: "t".into(),
        packet_id: None,
        properties: Properties::new(),
        payload: b"abc".to_vec(),
    };
    match greet(&mut w.broker, Packet::Publish(p), 8, None, 0) {
        Err(MqttError::Protocol(m)) => assert_eq!(m, "first packet was PUBLISH not CONNECT"),
        _ => panic!("expected an error"),
    }
    let m = w.broker.metrics();
    assert_eq!((m.packets_received, m.bytes_received, m.packet_received[3]), (1, 8, 1));
    assert_eq!(m.publish_bytes_received, 0);
}
