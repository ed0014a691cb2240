use std::collections::HashSet;
use wispmq::metrics::{Metrics, SeriesKind, Snapshot, PACKET_KINDS};
use wispmq::types::PacketType;

/// A snapshot whose every field holds a distinct value.
fn distinct() -> Snapshot {
    let mut n = 0u64;
    let mut next = || {
        n += 1;
        n
    };
    let mut packet_received = [0u64; PACKET_KINDS];
    let mut packet_sent = [0u64; PACKET_KINDS];
    for slot in packet_received.iter_mut().chain(packet_sent.iter_mut()) {
        *slot = next();
    }
    Snapshot {
        connections_total: next(),
        packets_received: next(),
        packets_sent: next(),
        bytes_received: next(),
        bytes_sent: next(),
        publish_received: next(),
        publish_delivered: next(),
        publish_dropped: next(),
        bridge_forwarded_out: next(),
        bridge_forwarded_in: next(),
        publish_bytes_received: next(),
        publish_bytes_sent: next(),
        socket_connections: next(),
        clients_expired: next(),
        connections_rate_limited: next(),
        packet_received,
        packet_sent,
        clients_connected: next(),
        clients_disconnected: next(),
        clients_total: next(),
        clients_maximum: next(),
        sessions_total: next(),
        retained_messages: next(),
        retained_bytes: next(),
        subscriptions_total: next(),
        shared_subscriptions_count: next(),
        bridges_connected: next(),
        store_messages_count: next(),
        store_messages_bytes: next(),
        packet_out_count: next(),
        packet_out_bytes: next(),
        uptime_seconds: next(),
        version: "test",
    }
}

#[test]
fn series_names_are_unique() {
    let series = distinct().series();
    let mut names: Vec<&str> = series.iter().map(|s| s.name.as_ref()).collect();
    names.sort_unstable();
    let before = names.len();
    names.dedup();
    assert_eq!(before, names.len(), "duplicate series name");
}

#[test]
fn every_series_reaches_the_prometheus_text() {
    let snap = distinct();
    let text = snap.to_prometheus();
    for s in snap.series() {
        let ty = match s.kind {
            SeriesKind::Counter => "counter",
            SeriesKind::Gauge => "gauge",
        };
        assert!(
            text.contains(&format!("# TYPE {} {ty}\n{} {}\n", s.name, s.name, s.value)),
            "missing or mistyped series {}",
            s.name
        );
    }
    assert!(text.contains("mqtt_build_info{version=\"test\"} 1\n"), "{text}");
}

#[test]
fn otel_names_strip_total_from_counters_only() {
    let series = distinct().series();
    let find = |name: &str| {
        series
            .iter()
            .find(|s| s.name == name)
            .unwrap_or_else(|| panic!("no series {name}"))
    };

    assert_eq!(
        find("mqtt_packets_received_total").otel_name(),
        "mqtt_packets_received"
    );
    assert_eq!(
        find("mqtt_packet_publish_sent_total").otel_name(),
        "mqtt_packet_publish_sent"
    );

    for name in ["mqtt_sessions_total", "mqtt_subscriptions_total"] {
        let s = find(name);
        assert_eq!(s.kind, SeriesKind::Gauge, "{name}");
        assert_eq!(s.otel_name(), name);
    }

    assert_eq!(
        find("mqtt_clients_connected").otel_name(),
        "mqtt_clients_connected"
    );
}

#[test]
fn ha_discovery_state_topics_match_ha_states_topics() {
    let snap = distinct();
    let discovery = snap.to_ha_discovery("homeassistant", "wispmq");
    let states = snap.to_ha_states("wispmq");
    assert_eq!(discovery.len(), states.len());
    assert_eq!(discovery.len(), snap.series().len());

    let state_topics: HashSet<&str> = states.iter().map(|(t, _)| t.as_str()).collect();
    for (config_topic, payload) in &discovery {
        assert!(
            config_topic.starts_with("homeassistant/sensor/wispmq/"),
            "{config_topic}"
        );
        assert!(config_topic.ends_with("/config"), "{config_topic}");
        let v: serde_json::Value = serde_json::from_str(payload).unwrap();
        let state_topic = v["state_topic"].as_str().unwrap();
        assert!(
            state_topics.contains(state_topic),
            "discovery config points at a topic to_ha_states never publishes: {state_topic}"
        );
        assert!(v["unique_id"].as_str().unwrap().starts_with("wispmq_"));
        assert_eq!(v["device"]["identifiers"][0], "wispmq_wispmq");
    }
}

#[test]
fn ha_discovery_state_class_matches_series_kind() {
    let snap = distinct();
    let series = snap.series();
    let discovery = snap.to_ha_discovery("homeassistant", "wispmq");
    for (s, (_, payload)) in series.iter().zip(discovery.iter()) {
        let v: serde_json::Value = serde_json::from_str(payload).unwrap();
        let expected = match s.kind {
            SeriesKind::Counter => "total_increasing",
            SeriesKind::Gauge => "measurement",
        };
        assert_eq!(v["state_class"], expected, "{}", s.name);
    }
}

#[test]
fn ha_discovery_node_id_scopes_device_and_avoids_default_name_suffix() {
    let snap = distinct();
    let default_node = snap.to_ha_discovery("homeassistant", "wispmq");
    let v: serde_json::Value = serde_json::from_str(&default_node[0].1).unwrap();
    assert_eq!(v["device"]["name"], "WispMQ");

    let scoped = snap.to_ha_discovery("homeassistant", "edge-1");
    let v: serde_json::Value = serde_json::from_str(&scoped[0].1).unwrap();
    assert_eq!(v["device"]["name"], "WispMQ (edge-1)");
    assert_eq!(v["device"]["identifiers"][0], "wispmq_edge-1");
    assert!(scoped[0].0.starts_with("homeassistant/sensor/edge-1/"));
}

#[test]
fn counters_count_by_packet_type() {
    let mut m = Metrics::new();
    m.record_received(PacketType::Publish, 12);
    m.record_received(PacketType::Pingreq, 2);
    m.record_sent(PacketType::Puback, 4);
    assert_eq!(m.packets_received, 2);
    assert_eq!(m.bytes_received, 14);
    assert_eq!(m.packet_received[3], 1);
    assert_eq!(m.packet_received[12], 1);
    assert_eq!(m.packets_sent, 1);
    assert_eq!(m.bytes_sent, 4);
    assert_eq!(m.packet_sent[4], 1);
    m.observe_clients_connected(5);
    m.observe_clients_connected(3);
    assert_eq!(m.clients_maximum, 5);
    let mut c = 0u64;
    Metrics::inc(&mut c);
    Metrics::add(&mut c, 4);
    Metrics::dec(&mut c);
    assert_eq!(Metrics::get(&c), 4);
}

#[test]
fn status_topics_are_distinct_and_share_their_root() {
    let topics: Vec<String> = distinct().to_sys_topics().into_iter().map(|(t, _)| t).collect();
    assert_eq!(topics.len(), 54);
    assert!(topics.iter().all(|t| t.starts_with("$SYS/broker/")), "{topics:?}");
    assert_eq!(topics.iter().collect::<HashSet<_>>().len(), topics.len());
    assert_eq!(topics[0], "$SYS/broker/version");
    assert_eq!(topics[53], "$SYS/broker/mqtt/auth/sent");
}
