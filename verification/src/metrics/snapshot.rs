//! A snapshot of the statistics of the broker, and its renderings.

use vstd::prelude::*;
use vstd::string::StringExecFns;
use crate::json;
use crate::json::JsonView;
use crate::text;
use crate::text::{chars_of, decimal, decimal_string, push_decimal, starts_with, str_eq, string_of};

verus! {

broadcast use text::group_views;

/// Counters and gauges at one time.
#[derive(Debug)]
pub struct Snapshot {
    pub connections_total: u64,
    pub packets_received: u64,
    pub packets_sent: u64,
    pub bytes_received: u64,
    pub bytes_sent: u64,
    pub publish_received: u64,
    pub publish_delivered: u64,
    pub publish_dropped: u64,
    pub bridge_forwarded_out: u64,
    pub bridge_forwarded_in: u64,
    pub publish_bytes_received: u64,
    pub publish_bytes_sent: u64,
    pub socket_connections: u64,
    pub clients_expired: u64,
    pub connections_rate_limited: u64,
    /// Counters per control packet, by packet type.
    pub packet_received: [u64; 16],
    pub packet_sent: [u64; 16],
    pub clients_connected: u64,
    pub clients_disconnected: u64,
    pub clients_total: u64,
    pub clients_maximum: u64,
    pub sessions_total: u64,
    pub retained_messages: u64,
    pub retained_bytes: u64,
    pub subscriptions_total: u64,
    pub shared_subscriptions_count: u64,
    pub bridges_connected: u64,
    /// Messages held in memory: queued and retained.
    pub store_messages_count: u64,
    pub store_messages_bytes: u64,
    /// Messages that sessions still wait for.
    pub packet_out_count: u64,
    /// Payload bytes of messages in queues.
    pub packet_out_bytes: u64,
    /// Seconds since the broker started.
    pub uptime_seconds: u64,
    /// Version of the broker.
    pub version: &'static str,
}

/// Whether a series accumulates or reports a current value.
#[derive(Debug, Clone, Copy, PartialEq, Eq, Structural)]
pub enum SeriesKind {
    Counter,
    Gauge,
}

/// One statistic. The Prometheus text, the exported metrics and the Home
/// Assistant topics are all made from [`Snapshot::series`].
#[derive(Debug)]
pub struct Series {
    /// The Prometheus name, with the suffix `_total` where it has one.
    pub name: String,
    pub kind: SeriesKind,
    pub help: String,
    pub value: u64,
}

/// What a statistic says.
pub struct SeriesView {
    pub name: Seq<char>,
    pub kind: SeriesKind,
    pub help: Seq<char>,
    pub value: u64,
}

impl View for Series {
    type V = SeriesView;

    open spec fn view(&self) -> SeriesView {
        SeriesView { name: self.name@, kind: self.kind, help: self.help@, value: self.value }
    }
}

/// The name of a control packet by its type.
pub open spec fn packet_name(kind: int) -> Seq<char> {
    if kind == 1 {
        "connect"@
    } else if kind == 2 {
        "connack"@
    } else if kind == 3 {
        "publish"@
    } else if kind == 4 {
        "puback"@
    } else if kind == 5 {
        "pubrec"@
    } else if kind == 6 {
        "pubrel"@
    } else if kind == 7 {
        "pubcomp"@
    } else if kind == 8 {
        "subscribe"@
    } else if kind == 9 {
        "suback"@
    } else if kind == 10 {
        "unsubscribe"@
    } else if kind == 11 {
        "unsuback"@
    } else if kind == 12 {
        "pingreq"@
    } else if kind == 13 {
        "pingresp"@
    } else if kind == 14 {
        "disconnect"@
    } else if kind == 15 {
        "auth"@
    } else {
        "reserved"@
    }
}

/// The name of a control packet by its type, in capitals.
pub open spec fn packet_title(kind: int) -> Seq<char> {
    if kind == 1 {
        "CONNECT"@
    } else if kind == 2 {
        "CONNACK"@
    } else if kind == 3 {
        "PUBLISH"@
    } else if kind == 4 {
        "PUBACK"@
    } else if kind == 5 {
        "PUBREC"@
    } else if kind == 6 {
        "PUBREL"@
    } else if kind == 7 {
        "PUBCOMP"@
    } else if kind == 8 {
        "SUBSCRIBE"@
    } else if kind == 9 {
        "SUBACK"@
    } else if kind == 10 {
        "UNSUBSCRIBE"@
    } else if kind == 11 {
        "UNSUBACK"@
    } else if kind == 12 {
        "PINGREQ"@
    } else if kind == 13 {
        "PINGRESP"@
    } else if kind == 14 {
        "DISCONNECT"@
    } else if kind == 15 {
        "AUTH"@
    } else {
        "RESERVED"@
    }
}

/// The name of a control packet by its type.
pub fn packet_name_of(kind: usize) -> (r: &'static str)
    ensures
        r@ == packet_name(kind as int),
{
    match kind {
        1 => "connect",
        2 => "connack",
        3 => "publish",
        4 => "puback",
        5 => "pubrec",
        6 => "pubrel",
        7 => "pubcomp",
        8 => "subscribe",
        9 => "suback",
        10 => "unsubscribe",
        11 => "unsuback",
        12 => "pingreq",
        13 => "pingresp",
        14 => "disconnect",
        15 => "auth",
        _ => "reserved",
    }
}

/// The name of a control packet by its type, in capitals.
pub fn packet_title_of(kind: usize) -> (r: &'static str)
    ensures
        r@ == packet_title(kind as int),
{
    match kind {
        1 => "CONNECT",
        2 => "CONNACK",
        3 => "PUBLISH",
        4 => "PUBACK",
        5 => "PUBREC",
        6 => "PUBREL",
        7 => "PUBCOMP",
        8 => "SUBSCRIBE",
        9 => "SUBACK",
        10 => "UNSUBSCRIBE",
        11 => "UNSUBACK",
        12 => "PINGREQ",
        13 => "PINGRESP",
        14 => "DISCONNECT",
        15 => "AUTH",
        _ => "RESERVED",
    }
}

/// A counter.
pub open spec fn counter(name: Seq<char>, help: Seq<char>, value: u64) -> SeriesView {
    SeriesView { name, kind: SeriesKind::Counter, help, value }
}

/// A gauge.
pub open spec fn gauge(name: Seq<char>, help: Seq<char>, value: u64) -> SeriesView {
    SeriesView { name, kind: SeriesKind::Gauge, help, value }
}

/// `received` or `sent`.
pub open spec fn verb(received: bool) -> Seq<char> {
    if received {
        "received"@
    } else {
        "sent"@
    }
}

impl Snapshot {
    /// The counters.
    pub open spec fn counters(self) -> Seq<SeriesView> {
        seq![
            counter("mqtt_connections_total"@, "Total accepted client connections."@, self.connections_total),
            counter("mqtt_packets_received_total"@, "Total MQTT control packets received."@, self.packets_received),
            counter("mqtt_packets_sent_total"@, "Total MQTT control packets sent."@, self.packets_sent),
            counter("mqtt_bytes_received_total"@, "Total bytes received from clients and bridge remotes."@, self.bytes_received),
            counter("mqtt_bytes_sent_total"@, "Total bytes sent to clients and bridge remotes."@, self.bytes_sent),
            counter("mqtt_publish_received_total"@, "Total PUBLISH packets received from clients and bridge remotes."@, self.publish_received),
            counter("mqtt_publish_delivered_total"@, "Total PUBLISH deliveries to subscribers."@, self.publish_delivered),
            counter("mqtt_publish_dropped_total"@, "Total messages dropped because an offline session's queue was full."@, self.publish_dropped),
            counter("mqtt_bridge_forwarded_out_total"@, "Total messages forwarded out to bridged remote brokers."@, self.bridge_forwarded_out),
            counter("mqtt_bridge_forwarded_in_total"@, "Total messages received from bridged remotes and injected locally."@, self.bridge_forwarded_in),
            counter("mqtt_messages_received_total"@, "Total MQTT messages (all control packets) received."@, self.packets_received),
            counter("mqtt_messages_sent_total"@, "Total MQTT messages (all control packets) sent."@, self.packets_sent),
            counter("mqtt_publish_sent_total"@, "Total PUBLISH packets sent to clients and bridge remotes."@, self.packet_sent@[3]),
            counter("mqtt_publish_bytes_received_total"@, "Total PUBLISH payload bytes received."@, self.publish_bytes_received),
            counter("mqtt_publish_bytes_sent_total"@, "Total PUBLISH payload bytes sent."@, self.publish_bytes_sent),
            counter("mqtt_socket_connections_total"@, "Total sockets accepted (including those that never sent CONNECT)."@, self.socket_connections),
            counter("mqtt_clients_expired_total"@, "Total persistent sessions discarded after Session Expiry elapsed."@, self.clients_expired),
            counter("mqtt_connections_rate_limited_total"@, "Total connections refused by the per-source-IP rate limiter."@, self.connections_rate_limited),
        ]
    }

    /// The counter of one control packet.
    pub open spec fn packet_counter(self, kind: int, received: bool) -> SeriesView {
        counter(
            "mqtt_packet_"@ + packet_name(kind) + seq!['_'] + verb(received) + "_total"@,
            "Total "@ + packet_title(kind) + " packets "@ + verb(received) + seq!['.'],
            if received {
                self.packet_received@[kind]
            } else {
                self.packet_sent@[kind]
            },
        )
    }

    /// The counters per control packet: received and sent, by packet type.
    pub open spec fn packet_counters(self) -> Seq<SeriesView> {
        Seq::new(30, |i: int| self.packet_counter(1 + i / 2, i % 2 == 0))
    }

    /// The gauges.
    pub open spec fn gauges(self) -> Seq<SeriesView> {
        seq![
            gauge("mqtt_clients_connected"@, "Currently connected clients."@, self.clients_connected),
            gauge("mqtt_sessions_total"@, "Sessions currently held (online and offline)."@, self.sessions_total),
            gauge("mqtt_retained_messages"@, "Retained messages currently stored."@, self.retained_messages),
            gauge("mqtt_subscriptions_total"@, "Active subscriptions across all sessions."@, self.subscriptions_total),
            gauge("mqtt_bridges_connected"@, "Currently-connected broker-to-broker bridges."@, self.bridges_connected),
            gauge("mqtt_clients_disconnected"@, "Persistent sessions currently offline."@, self.clients_disconnected),
            gauge("mqtt_clients_total"@, "Clients known to the broker (connected plus offline persistent)."@, self.clients_total),
            gauge("mqtt_clients_maximum"@, "High-water mark of concurrently connected clients."@, self.clients_maximum),
            gauge("mqtt_retained_bytes"@, "Payload bytes held in retained messages."@, self.retained_bytes),
            gauge("mqtt_shared_subscriptions_count"@, "Active shared subscriptions ($share/...) across all sessions."@, self.shared_subscriptions_count),
            gauge("mqtt_store_messages_count"@, "Messages held in memory (queued for offline sessions plus retained)."@, self.store_messages_count),
            gauge("mqtt_store_messages_bytes"@, "Payload bytes of messages held in memory."@, self.store_messages_bytes),
            gauge("mqtt_packet_out_count"@, "Messages queued for delivery across all sessions."@, self.packet_out_count),
            gauge("mqtt_packet_out_bytes"@, "Payload bytes queued for delivery across all sessions."@, self.packet_out_bytes),
            gauge("mqtt_uptime_seconds"@, "Seconds since the broker started."@, self.uptime_seconds),
        ]
    }

    /// Every statistic.
    pub open spec fn all_series(self) -> Seq<SeriesView> {
        self.counters() + self.packet_counters() + self.gauges()
    }
}

/// The number of a series, told from a few characters of its name.
#[verifier::opaque]
spec fn mark(name: Seq<char>) -> int {
    let n = name.len();
    let a = name[6];
    let b = name[12];
    let c = name[16];
    let d = name[17];
    let e = name[n - 1];
    if n == 22 && a == 'o' && b == 'i' && c == '_' && d == 't' && e == 'l' {
        0
    } else if n == 27 && a == 'a' && b == '_' && c == 'e' && d == 'i' && e == 'l' {
        1
    } else if n == 23 && a == 'a' && b == '_' && c == 't' && d == '_' && e == 'l' {
        2
    } else if n == 25 && a == 'y' && b == 'e' && c == 'v' && d == 'e' && e == 'l' {
        3
    } else if n == 21 && a == 'y' && b == 'e' && c == 't' && d == 'o' && e == 'l' {
        4
    } else if n == 27 && a == 'u' && b == '_' && c == 'e' && d == 'i' && e == 'l' {
        5
    } else if n == 28 && a == 'u' && b == '_' && c == 'i' && d == 'v' && e == 'l' {
        6
    } else if n == 26 && a == 'u' && b == '_' && c == 'p' && d == 'p' && e == 'l' {
        7
    } else if n == 31 && a == 'r' && b == 'f' && c == 'a' && d == 'r' && e == 'l' {
        8
    } else if n == 30 && a == 'r' && b == 'f' && c == 'a' && d == 'r' && e == 'l' {
        9
    } else if n == 28 && a == 'e' && b == 's' && c == 'c' && d == 'e' && e == 'l' {
        10
    } else if n == 24 && a == 'e' && b == 's' && c == 'n' && d == 't' && e == 'l' {
        11
    } else if n == 23 && a == 'u' && b == '_' && c == 't' && d == '_' && e == 'l' {
        12
    } else if n == 33 && a == 'u' && b == '_' && c == 'e' && d == 's' && e == 'l' {
        13
    } else if n == 29 && a == 'u' && b == '_' && c == 'e' && d == 's' && e == 'l' {
        14
    } else if n == 29 && a == 'o' && b == 'c' && c == 'e' && d == 'c' && e == 'l' {
        15
    } else if n == 26 && a == 'l' && b == '_' && c == 'i' && d == 'r' && e == 'l' {
        16
    } else if n == 35 && a == 'o' && b == 'i' && c == '_' && d == 'r' && e == 'l' {
        17
    } else if n == 34 && a == 'a' && b == 'c' && c == 'e' && d == 'c' && e == 'l' {
        18
    } else if n == 30 && a == 'a' && b == 'c' && c == 'e' && d == 'c' && e == 'l' {
        19
    } else if n == 34 && a == 'a' && b == 'c' && c == 'a' && d == 'c' && e == 'l' {
        20
    } else if n == 30 && a == 'a' && b == 'c' && c == 'a' && d == 'c' && e == 'l' {
        21
    } else if n == 34 && a == 'a' && b == 'p' && c == 'i' && d == 's' && e == 'l' {
        22
    } else if n == 30 && a == 'a' && b == 'p' && c == 'i' && d == 's' && e == 'l' {
        23
    } else if n == 33 && a == 'a' && b == 'p' && c == 'c' && d == 'k' && e == 'l' {
        24
    } else if n == 29 && a == 'a' && b == 'p' && c == 'c' && d == 'k' && e == 'l' {
        25
    } else if n == 33 && a == 'a' && b == 'p' && c == 'e' && d == 'c' && e == 'l' {
        26
    } else if n == 29 && a == 'a' && b == 'p' && c == 'e' && d == 'c' && e == 'l' {
        27
    } else if n == 33 && a == 'a' && b == 'p' && c == 'e' && d == 'l' && e == 'l' {
        28
    } else if n == 29 && a == 'a' && b == 'p' && c == 'e' && d == 'l' && e == 'l' {
        29
    } else if n == 34 && a == 'a' && b == 'p' && c == 'o' && d == 'm' && e == 'l' {
        30
    } else if n == 30 && a == 'a' && b == 'p' && c == 'o' && d == 'm' && e == 'l' {
        31
    } else if n == 36 && a == 'a' && b == 's' && c == 'c' && d == 'r' && e == 'l' {
        32
    } else if n == 32 && a == 'a' && b == 's' && c == 'c' && d == 'r' && e == 'l' {
        33
    } else if n == 33 && a == 'a' && b == 's' && c == 'c' && d == 'k' && e == 'l' {
        34
    } else if n == 29 && a == 'a' && b == 's' && c == 'c' && d == 'k' && e == 'l' {
        35
    } else if n == 38 && a == 'a' && b == 'u' && c == 'b' && d == 's' && e == 'l' {
        36
    } else if n == 34 && a == 'a' && b == 'u' && c == 'b' && d == 's' && e == 'l' {
        37
    } else if n == 35 && a == 'a' && b == 'u' && c == 'b' && d == 'a' && e == 'l' {
        38
    } else if n == 31 && a == 'a' && b == 'u' && c == 'b' && d == 'a' && e == 'l' {
        39
    } else if n == 34 && a == 'a' && b == 'p' && c == 'r' && d == 'e' && e == 'l' {
        40
    } else if n == 30 && a == 'a' && b == 'p' && c == 'r' && d == 'e' && e == 'l' {
        41
    } else if n == 35 && a == 'a' && b == 'p' && c == 'r' && d == 'e' && e == 'l' {
        42
    } else if n == 31 && a == 'a' && b == 'p' && c == 'r' && d == 'e' && e == 'l' {
        43
    } else if n == 37 && a == 'a' && b == 'd' && c == 'o' && d == 'n' && e == 'l' {
        44
    } else if n == 33 && a == 'a' && b == 'd' && c == 'o' && d == 'n' && e == 'l' {
        45
    } else if n == 31 && a == 'a' && b == 'a' && c == '_' && d == 'r' && e == 'l' {
        46
    } else if n == 27 && a == 'a' && b == 'a' && c == '_' && d == 's' && e == 'l' {
        47
    } else if n == 22 && a == 'l' && b == '_' && c == 'n' && d == 'e' && e == 'd' {
        48
    } else if n == 19 && a == 'e' && b == 's' && c == 't' && d == 'a' && e == 'l' {
        49
    } else if n == 22 && a == 'e' && b == 'd' && c == 's' && d == 's' && e == 's' {
        50
    } else if n == 24 && a == 'u' && b == 'p' && c == 'n' && d == 's' && e == 'l' {
        51
    } else if n == 22 && a == 'r' && b == '_' && c == 'n' && d == 'e' && e == 'd' {
        52
    } else if n == 25 && a == 'l' && b == '_' && c == 'c' && d == 'o' && e == 'd' {
        53
    } else if n == 18 && a == 'l' && b == '_' && c == 'a' && d == 'l' && e == 'l' {
        54
    } else if n == 20 && a == 'l' && b == '_' && c == 'i' && d == 'm' && e == 'm' {
        55
    } else if n == 19 && a == 'e' && b == 'd' && c == 't' && d == 'e' && e == 's' {
        56
    } else if n == 31 && a == 'h' && b == 's' && c == 'c' && d == 'r' && e == 't' {
        57
    } else if n == 25 && a == 't' && b == 'e' && c == 'g' && d == 'e' && e == 't' {
        58
    } else if n == 25 && a == 't' && b == 'e' && c == 'g' && d == 'e' && e == 's' {
        59
    } else if n == 21 && a == 'a' && b == 'o' && c == 'c' && d == 'o' && e == 't' {
        60
    } else if n == 21 && a == 'a' && b == 'o' && c == 'b' && d == 'y' && e == 's' {
        61
    } else if n == 19 && a == 'p' && b == 's' && c == 'n' && d == 'd' && e == 's' {
        62
    } else {
        -1
    }
}

proof fn lemma_counter_marks(snap: Snapshot)
    ensures
        forall|i: int| 0 <= i < 18 ==> mark((#[trigger] snap.counters()[i]).name) == 0 + i,
{
    reveal(mark);
    reveal_strlit("mqtt_connections_total");
    assert(mark("mqtt_connections_total"@) == 0);
    reveal_strlit("mqtt_packets_received_total");
    assert(mark("mqtt_packets_received_total"@) == 1);
    reveal_strlit("mqtt_packets_sent_total");
    assert(mark("mqtt_packets_sent_total"@) == 2);
    reveal_strlit("mqtt_bytes_received_total");
    assert(mark("mqtt_bytes_received_total"@) == 3);
    reveal_strlit("mqtt_bytes_sent_total");
    assert(mark("mqtt_bytes_sent_total"@) == 4);
    reveal_strlit("mqtt_publish_received_total");
    assert(mark("mqtt_publish_received_total"@) == 5);
    reveal_strlit("mqtt_publish_delivered_total");
    assert(mark("mqtt_publish_delivered_total"@) == 6);
    reveal_strlit("mqtt_publish_dropped_total");
    assert(mark("mqtt_publish_dropped_total"@) == 7);
    reveal_strlit("mqtt_bridge_forwarded_out_total");
    assert(mark("mqtt_bridge_forwarded_out_total"@) == 8);
    reveal_strlit("mqtt_bridge_forwarded_in_total");
    assert(mark("mqtt_bridge_forwarded_in_total"@) == 9);
    reveal_strlit("mqtt_messages_received_total");
    assert(mark("mqtt_messages_received_total"@) == 10);
    reveal_strlit("mqtt_messages_sent_total");
    assert(mark("mqtt_messages_sent_total"@) == 11);
    reveal_strlit("mqtt_publish_sent_total");
    assert(mark("mqtt_publish_sent_total"@) == 12);
    reveal_strlit("mqtt_publish_bytes_received_total");
    assert(mark("mqtt_publish_bytes_received_total"@) == 13);
    reveal_strlit("mqtt_publish_bytes_sent_total");
    assert(mark("mqtt_publish_bytes_sent_total"@) == 14);
    reveal_strlit("mqtt_socket_connections_total");
    assert(mark("mqtt_socket_connections_total"@) == 15);
    reveal_strlit("mqtt_clients_expired_total");
    assert(mark("mqtt_clients_expired_total"@) == 16);
    reveal_strlit("mqtt_connections_rate_limited_total");
    assert(mark("mqtt_connections_rate_limited_total"@) == 17);
    let s = snap.counters();
    assert(s.len() == 18);
    assert forall|i: int| 0 <= i < 18 implies mark((#[trigger] s[i]).name) == 0 + i by {
        if i == 0 {
            assert(s[0].name == "mqtt_connections_total"@);
        }
        if i == 1 {
            assert(s[1].name == "mqtt_packets_received_total"@);
        }
        if i == 2 {
            assert(s[2].name == "mqtt_packets_sent_total"@);
        }
        if i == 3 {
            assert(s[3].name == "mqtt_bytes_received_total"@);
        }
        if i == 4 {
            assert(s[4].name == "mqtt_bytes_sent_total"@);
        }
        if i == 5 {
            assert(s[5].name == "mqtt_publish_received_total"@);
        }
        if i == 6 {
            assert(s[6].name == "mqtt_publish_delivered_total"@);
        }
        if i == 7 {
            assert(s[7].name == "mqtt_publish_dropped_total"@);
        }
        if i == 8 {
            assert(s[8].name == "mqtt_bridge_forwarded_out_total"@);
        }
        if i == 9 {
            assert(s[9].name == "mqtt_bridge_forwarded_in_total"@);
        }
        if i == 10 {
            assert(s[10].name == "mqtt_messages_received_total"@);
        }
        if i == 11 {
            assert(s[11].name == "mqtt_messages_sent_total"@);
        }
        if i == 12 {
            assert(s[12].name == "mqtt_publish_sent_total"@);
        }
        if i == 13 {
            assert(s[13].name == "mqtt_publish_bytes_received_total"@);
        }
        if i == 14 {
            assert(s[14].name == "mqtt_publish_bytes_sent_total"@);
        }
        if i == 15 {
            assert(s[15].name == "mqtt_socket_connections_total"@);
        }
        if i == 16 {
            assert(s[16].name == "mqtt_clients_expired_total"@);
        }
        if i == 17 {
            assert(s[17].name == "mqtt_connections_rate_limited_total"@);
        }
    }
}

proof fn lemma_gauge_marks(snap: Snapshot)
    ensures
        forall|i: int| 0 <= i < 15 ==> mark((#[trigger] snap.gauges()[i]).name) == 48 + i,
{
    reveal(mark);
    reveal_strlit("mqtt_clients_connected");
    assert(mark("mqtt_clients_connected"@) == 48);
    reveal_strlit("mqtt_sessions_total");
    assert(mark("mqtt_sessions_total"@) == 49);
    reveal_strlit("mqtt_retained_messages");
    assert(mark("mqtt_retained_messages"@) == 50);
    reveal_strlit("mqtt_subscriptions_total");
    assert(mark("mqtt_subscriptions_total"@) == 51);
    reveal_strlit("mqtt_bridges_connected");
    assert(mark("mqtt_bridges_connected"@) == 52);
    reveal_strlit("mqtt_clients_disconnected");
    assert(mark("mqtt_clients_disconnected"@) == 53);
    reveal_strlit("mqtt_clients_total");
    assert(mark("mqtt_clients_total"@) == 54);
    reveal_strlit("mqtt_clients_maximum");
    assert(mark("mqtt_clients_maximum"@) == 55);
    reveal_strlit("mqtt_retained_bytes");
    assert(mark("mqtt_retained_bytes"@) == 56);
    reveal_strlit("mqtt_shared_subscriptions_count");
    assert(mark("mqtt_shared_subscriptions_count"@) == 57);
    reveal_strlit("mqtt_store_messages_count");
    assert(mark("mqtt_store_messages_count"@) == 58);
    reveal_strlit("mqtt_store_messages_bytes");
    assert(mark("mqtt_store_messages_bytes"@) == 59);
    reveal_strlit("mqtt_packet_out_count");
    assert(mark("mqtt_packet_out_count"@) == 60);
    reveal_strlit("mqtt_packet_out_bytes");
    assert(mark("mqtt_packet_out_bytes"@) == 61);
    reveal_strlit("mqtt_uptime_seconds");
    assert(mark("mqtt_uptime_seconds"@) == 62);
    let s = snap.gauges();
    assert(s.len() == 15);
    assert forall|i: int| 0 <= i < 15 implies mark((#[trigger] s[i]).name) == 48 + i by {
        if i == 0 {
            assert(s[0].name == "mqtt_clients_connected"@);
        }
        if i == 1 {
            assert(s[1].name == "mqtt_sessions_total"@);
        }
        if i == 2 {
            assert(s[2].name == "mqtt_retained_messages"@);
        }
        if i == 3 {
            assert(s[3].name == "mqtt_subscriptions_total"@);
        }
        if i == 4 {
            assert(s[4].name == "mqtt_bridges_connected"@);
        }
        if i == 5 {
            assert(s[5].name == "mqtt_clients_disconnected"@);
        }
        if i == 6 {
            assert(s[6].name == "mqtt_clients_total"@);
        }
        if i == 7 {
            assert(s[7].name == "mqtt_clients_maximum"@);
        }
        if i == 8 {
            assert(s[8].name == "mqtt_retained_bytes"@);
        }
        if i == 9 {
            assert(s[9].name == "mqtt_shared_subscriptions_count"@);
        }
        if i == 10 {
            assert(s[10].name == "mqtt_store_messages_count"@);
        }
        if i == 11 {
            assert(s[11].name == "mqtt_store_messages_bytes"@);
        }
        if i == 12 {
            assert(s[12].name == "mqtt_packet_out_count"@);
        }
        if i == 13 {
            assert(s[13].name == "mqtt_packet_out_bytes"@);
        }
        if i == 14 {
            assert(s[14].name == "mqtt_uptime_seconds"@);
        }
    }
}

proof fn lemma_packet_mark_connect()
    ensures
        mark("mqtt_packet_"@ + "connect"@ + seq!['_'] + "received"@ + "_total"@) == 18,
        mark("mqtt_packet_"@ + "connect"@ + seq!['_'] + "sent"@ + "_total"@) == 19,
{
    reveal(mark);
    reveal_strlit("mqtt_packet_");
    reveal_strlit("connect");
    reveal_strlit("received");
    reveal_strlit("sent");
    reveal_strlit("_total");
}

proof fn lemma_packet_mark_connack()
    ensures
        mark("mqtt_packet_"@ + "connack"@ + seq!['_'] + "received"@ + "_total"@) == 20,
        mark("mqtt_packet_"@ + "connack"@ + seq!['_'] + "sent"@ + "_total"@) == 21,
{
    reveal(mark);
    reveal_strlit("mqtt_packet_");
    reveal_strlit("connack");
    reveal_strlit("received");
    reveal_strlit("sent");
    reveal_strlit("_total");
}

proof fn lemma_packet_mark_publish()
    ensures
        mark("mqtt_packet_"@ + "publish"@ + seq!['_'] + "received"@ + "_total"@) == 22,
        mark("mqtt_packet_"@ + "publish"@ + seq!['_'] + "sent"@ + "_total"@) == 23,
{
    reveal(mark);
    reveal_strlit("mqtt_packet_");
    reveal_strlit("publish");
    reveal_strlit("received");
    reveal_strlit("sent");
    reveal_strlit("_total");
}

proof fn lemma_packet_mark_puback()
    ensures
        mark("mqtt_packet_"@ + "puback"@ + seq!['_'] + "received"@ + "_total"@) == 24,
        mark("mqtt_packet_"@ + "puback"@ + seq!['_'] + "sent"@ + "_total"@) == 25,
{
    reveal(mark);
    reveal_strlit("mqtt_packet_");
    reveal_strlit("puback");
    reveal_strlit("received");
    reveal_strlit("sent");
    reveal_strlit("_total");
}

proof fn lemma_packet_mark_pubrec()
    ensures
        mark("mqtt_packet_"@ + "pubrec"@ + seq!['_'] + "received"@ + "_total"@) == 26,
        mark("mqtt_packet_"@ + "pubrec"@ + seq!['_'] + "sent"@ + "_total"@) == 27,
{
    reveal(mark);
    reveal_strlit("mqtt_packet_");
    reveal_strlit("pubrec");
    reveal_strlit("received");
    reveal_strlit("sent");
    reveal_strlit("_total");
}

proof fn lemma_packet_mark_pubrel()
    ensures
        mark("mqtt_packet_"@ + "pubrel"@ + seq!['_'] + "received"@ + "_total"@) == 28,
        mark("mqtt_packet_"@ + "pubrel"@ + seq!['_'] + "sent"@ + "_total"@) == 29,
{
    reveal(mark);
    reveal_strlit("mqtt_packet_");
    reveal_strlit("pubrel");
    reveal_strlit("received");
    reveal_strlit("sent");
    reveal_strlit("_total");
}

proof fn lemma_packet_mark_pubcomp()
    ensures
        mark("mqtt_packet_"@ + "pubcomp"@ + seq!['_'] + "received"@ + "_total"@) == 30,
        mark("mqtt_packet_"@ + "pubcomp"@ + seq!['_'] + "sent"@ + "_total"@) == 31,
{
    reveal(mark);
    reveal_strlit("mqtt_packet_");
    reveal_strlit("pubcomp");
    reveal_strlit("received");
    reveal_strlit("sent");
    reveal_strlit("_total");
}

proof fn lemma_packet_mark_subscribe()
    ensures
        mark("mqtt_packet_"@ + "subscribe"@ + seq!['_'] + "received"@ + "_total"@) == 32,
        mark("mqtt_packet_"@ + "subscribe"@ + seq!['_'] + "sent"@ + "_total"@) == 33,
{
    reveal(mark);
    reveal_strlit("mqtt_packet_");
    reveal_strlit("subscribe");
    reveal_strlit("received");
    reveal_strlit("sent");
    reveal_strlit("_total");
}

proof fn lemma_packet_mark_suback()
    ensures
        mark("mqtt_packet_"@ + "suback"@ + seq!['_'] + "received"@ + "_total"@) == 34,
        mark("mqtt_packet_"@ + "suback"@ + seq!['_'] + "sent"@ + "_total"@) == 35,
{
    reveal(mark);
    reveal_strlit("mqtt_packet_");
    reveal_strlit("suback");
    reveal_strlit("received");
    reveal_strlit("sent");
    reveal_strlit("_total");
}

proof fn lemma_packet_mark_unsubscribe()
    ensures
        mark("mqtt_packet_"@ + "unsubscribe"@ + seq!['_'] + "received"@ + "_total"@) == 36,
        mark("mqtt_packet_"@ + "unsubscribe"@ + seq!['_'] + "sent"@ + "_total"@) == 37,
{
    reveal(mark);
    reveal_strlit("mqtt_packet_");
    reveal_strlit("unsubscribe");
    reveal_strlit("received");
    reveal_strlit("sent");
    reveal_strlit("_total");
}

proof fn lemma_packet_mark_unsuback()
    ensures
        mark("mqtt_packet_"@ + "unsuback"@ + seq!['_'] + "received"@ + "_total"@) == 38,
        mark("mqtt_packet_"@ + "unsuback"@ + seq!['_'] + "sent"@ + "_total"@) == 39,
{
    reveal(mark);
    reveal_strlit("mqtt_packet_");
    reveal_strlit("unsuback");
    reveal_strlit("received");
    reveal_strlit("sent");
    reveal_strlit("_total");
}

proof fn lemma_packet_mark_pingreq()
    ensures
        mark("mqtt_packet_"@ + "pingreq"@ + seq!['_'] + "received"@ + "_total"@) == 40,
        mark("mqtt_packet_"@ + "pingreq"@ + seq!['_'] + "sent"@ + "_total"@) == 41,
{
    reveal(mark);
    reveal_strlit("mqtt_packet_");
    reveal_strlit("pingreq");
    reveal_strlit("received");
    reveal_strlit("sent");
    reveal_strlit("_total");
}

proof fn lemma_packet_mark_pingresp()
    ensures
        mark("mqtt_packet_"@ + "pingresp"@ + seq!['_'] + "received"@ + "_total"@) == 42,
        mark("mqtt_packet_"@ + "pingresp"@ + seq!['_'] + "sent"@ + "_total"@) == 43,
{
    reveal(mark);
    reveal_strlit("mqtt_packet_");
    reveal_strlit("pingresp");
    reveal_strlit("received");
    reveal_strlit("sent");
    reveal_strlit("_total");
}

proof fn lemma_packet_mark_disconnect()
    ensures
        mark("mqtt_packet_"@ + "disconnect"@ + seq!['_'] + "received"@ + "_total"@) == 44,
        mark("mqtt_packet_"@ + "disconnect"@ + seq!['_'] + "sent"@ + "_total"@) == 45,
{
    reveal(mark);
    reveal_strlit("mqtt_packet_");
    reveal_strlit("disconnect");
    reveal_strlit("received");
    reveal_strlit("sent");
    reveal_strlit("_total");
}

proof fn lemma_packet_mark_auth()
    ensures
        mark("mqtt_packet_"@ + "auth"@ + seq!['_'] + "received"@ + "_total"@) == 46,
        mark("mqtt_packet_"@ + "auth"@ + seq!['_'] + "sent"@ + "_total"@) == 47,
{
    reveal(mark);
    reveal_strlit("mqtt_packet_");
    reveal_strlit("auth");
    reveal_strlit("received");
    reveal_strlit("sent");
    reveal_strlit("_total");
}

proof fn lemma_packet_marks(snap: Snapshot)
    ensures
        forall|i: int|
            0 <= i < 30 ==> mark((#[trigger] snap.packet_counters()[i]).name) == 18 + i,
{
    lemma_packet_mark_connect();
    lemma_packet_mark_connack();
    lemma_packet_mark_publish();
    lemma_packet_mark_puback();
    lemma_packet_mark_pubrec();
    lemma_packet_mark_pubrel();
    lemma_packet_mark_pubcomp();
    lemma_packet_mark_subscribe();
    lemma_packet_mark_suback();
    lemma_packet_mark_unsubscribe();
    lemma_packet_mark_unsuback();
    lemma_packet_mark_pingreq();
    lemma_packet_mark_pingresp();
    lemma_packet_mark_disconnect();
    lemma_packet_mark_auth();
    assert forall|i: int| 0 <= i < 30 implies mark((#[trigger] snap.packet_counters()[i]).name)
        == 18 + i by {
        let kind = 1 + i / 2;
        assert(snap.packet_counters()[i] == snap.packet_counter(kind, i % 2 == 0));
    }
}

/// No two statistics have one name.
pub proof fn series_names_differ(snap: Snapshot, i: int, j: int)
    requires
        0 <= i < j < snap.all_series().len(),
    ensures
        snap.all_series()[i].name != snap.all_series()[j].name,
{
    lemma_counter_marks(snap);
    lemma_gauge_marks(snap);
    lemma_packet_marks(snap);
    let a = snap.counters();
    let b = snap.packet_counters();
    let c = snap.gauges();
    let s = snap.all_series();
    assert(a.len() == 18 && b.len() == 30 && c.len() == 15);
    assert forall|k: int| 0 <= k < 63 implies mark((#[trigger] s[k]).name) == k by {
        if k < 18 {
            assert(s[k] == a[k]);
        } else if k < 48 {
            assert(s[k] == b[k - 18]);
        } else {
            assert(s[k] == c[k - 48]);
        }
    }
}

/// The text of a kind.
pub open spec fn kind_text(kind: SeriesKind) -> Seq<char> {
    match kind {
        SeriesKind::Counter => "counter"@,
        SeriesKind::Gauge => "gauge"@,
    }
}

/// The type and value lines of a series.
pub open spec fn sample_text(s: SeriesView) -> Seq<char> {
    "# TYPE "@ + s.name + seq![' '] + kind_text(s.kind) + seq!['\n'] + s.name + seq![' '] + decimal(
        s.value as nat,
    ) + seq!['\n']
}

/// The lines of a series.
pub open spec fn series_text(s: SeriesView) -> Seq<char> {
    "# HELP "@ + s.name + seq![' '] + s.help + seq!['\n'] + sample_text(s)
}

/// The lines of a list of series.
pub open spec fn lines_of(s: Seq<SeriesView>) -> Seq<char>
    decreases s.len(),
{
    if s.len() == 0 {
        Seq::empty()
    } else {
        lines_of(s.drop_last()) + series_text(s.last())
    }
}

/// The lines that tell the version.
pub open spec fn build_info(version: Seq<char>) -> Seq<char> {
    "# HELP mqtt_build_info Broker build information.\n# TYPE mqtt_build_info gauge\n"@
        + "mqtt_build_info{version=\""@ + version + "\"} 1\n"@
}

/// A text within another.
pub open spec fn occurs(part: Seq<char>, whole: Seq<char>) -> bool {
    exists|before: Seq<char>, after: Seq<char>| whole == #[trigger] (before + part + after)
}

proof fn lemma_lines(s: Seq<SeriesView>, i: int) -> (r: (Seq<char>, Seq<char>))
    requires
        0 <= i < s.len(),
    ensures
        lines_of(s) == r.0 + sample_text(s[i]) + r.1,
    decreases s.len(),
{
    let head = lines_of(s.drop_last());
    let last = s.last();
    if i == s.len() - 1 {
        let help = "# HELP "@ + last.name + seq![' '] + last.help + seq!['\n'];
        assert(lines_of(s) =~= (head + help) + sample_text(last) + Seq::<char>::empty());
        (head + help, Seq::empty())
    } else {
        let (a, b) = lemma_lines(s.drop_last(), i);
        assert(lines_of(s) =~= a + sample_text(s[i]) + (b + series_text(last)));
        (a, b + series_text(last))
    }
}

/// Every statistic is in the Prometheus text, with its type and its value.
pub proof fn every_series_is_in_the_text(snap: Snapshot, version: Seq<char>, i: int)
    requires
        0 <= i < snap.all_series().len(),
    ensures
        occurs(
            sample_text(snap.all_series()[i]),
            lines_of(snap.all_series()) + build_info(version),
        ),
{
    let (a, b) = lemma_lines(snap.all_series(), i);
    let part = sample_text(snap.all_series()[i]);
    let rest = b + build_info(version);
    assert(lines_of(snap.all_series()) + build_info(version) =~= a + part + rest);
}

/// Whether a text ends with another.
pub open spec fn has_suffix(s: Seq<char>, t: Seq<char>) -> bool {
    s.len() >= t.len() && s.skip(s.len() - t.len()) == t
}

impl SeriesView {
    /// The name of the instrument that the series is exported as. A counter has
    /// no suffix `_total` there, because the receiver puts one on; a gauge keeps
    /// its name.
    pub open spec fn instrument(self) -> Seq<char> {
        if self.kind is Counter && has_suffix(self.name, "_total"@) {
            self.name.take(self.name.len() - 6)
        } else {
            self.name
        }
    }
}

impl Series {
    /// The name of the instrument that the series is exported as.
    pub fn otel_name(&self) -> (r: String)
        ensures
            r@ == self@.instrument(),
    {
        proof {
            reveal_strlit("_total");
        }
        match self.kind {
            SeriesKind::Gauge => self.name.clone(),
            SeriesKind::Counter => {
                let c: Vec<char> = chars_of(self.name.as_str());
                if c.len() < 6 {
                    return self.name.clone();
                }
                let tail: &[char] = vstd::slice::slice_subrange(
                    c.as_slice(),
                    c.len() - 6,
                    c.len(),
                );
                assert(tail@ =~= self.name@.skip(self.name@.len() - 6));
                if text::chars_are(tail, "_total") {
                    let head: &[char] = vstd::slice::slice_subrange(c.as_slice(), 0, c.len() - 6);
                    assert(head@ =~= self.name@.take(self.name@.len() - 6));
                    string_of(head)
                } else {
                    self.name.clone()
                }
            },
        }
    }
}

fn push_series(v: &mut Vec<Series>, kind: SeriesKind, name: &str, help: &str, value: u64)
    ensures
        text::views(final(v)@) == text::views(old(v)@).push(
            SeriesView { name: name@, kind, help: help@, value },
        ),
{
    let s: Series = Series { name: name.to_owned(), kind, help: help.to_owned(), value };
    v.push(s);
}

fn push_pair(v: &mut Vec<(String, String)>, topic: String, value: String)
    ensures
        text::pair_views(final(v)@) == text::pair_views(old(v)@).push((topic@, value@)),
{
    let ghost before = v@;
    v.push((topic, value));
    assert(text::pair_views(v@) =~= text::pair_views(before).push((topic@, value@)));
}

fn push_number(v: &mut Vec<(String, String)>, topic: &str, n: u64)
    ensures
        text::pair_views(final(v)@) == text::pair_views(old(v)@).push(
            (sys_topic(topic@), decimal(n as nat)),
        ),
{
    push_pair(v, text::concat("$SYS/broker/", topic), decimal_string(n));
}

/// A status topic.
pub open spec fn sys_topic(topic: Seq<char>) -> Seq<char> {
    "$SYS/broker/"@ + topic
}

impl Snapshot {
    /// The status topics with their values.
    pub open spec fn sys_pairs(self) -> Seq<(Seq<char>, Seq<char>)> {
        seq![
            (sys_topic("version"@), "WispMQ "@ + self.version@),
            (sys_topic("uptime"@), decimal(self.uptime_seconds as nat) + " seconds"@),
            (sys_topic("clients/connected"@), decimal(self.clients_connected as nat)),
            (sys_topic("clients/disconnected"@), decimal(self.clients_disconnected as nat)),
            (sys_topic("clients/total"@), decimal(self.clients_total as nat)),
            (sys_topic("clients/maximum"@), decimal(self.clients_maximum as nat)),
            (sys_topic("clients/expired"@), decimal(self.clients_expired as nat)),
            (sys_topic("bytes/received"@), decimal(self.bytes_received as nat)),
            (sys_topic("bytes/sent"@), decimal(self.bytes_sent as nat)),
            (sys_topic("messages/received"@), decimal(self.packets_received as nat)),
            (sys_topic("messages/sent"@), decimal(self.packets_sent as nat)),
            (sys_topic("publish/messages/received"@), decimal(self.publish_received as nat)),
            (sys_topic("publish/messages/sent"@), decimal(self.packet_sent@[3] as nat)),
            (sys_topic("publish/messages/dropped"@), decimal(self.publish_dropped as nat)),
            (sys_topic("publish/bytes/received"@), decimal(self.publish_bytes_received as nat)),
            (sys_topic("publish/bytes/sent"@), decimal(self.publish_bytes_sent as nat)),
            (sys_topic("subscriptions/count"@), decimal(self.subscriptions_total as nat)),
            (sys_topic("shared_subscriptions/count"@), decimal(self.shared_subscriptions_count as nat)),
            (sys_topic("retained messages/count"@), decimal(self.retained_messages as nat)),
            (sys_topic("store/messages/count"@), decimal(self.store_messages_count as nat)),
            (sys_topic("store/messages/bytes"@), decimal(self.store_messages_bytes as nat)),
            (sys_topic("connections/socket/count"@), decimal(self.socket_connections as nat)),
            (sys_topic("connections/rate_limited"@), decimal(self.connections_rate_limited as nat)),
            (sys_topic("bridges/connected"@), decimal(self.bridges_connected as nat)),
        ]
    }

    /// The status topic of one control packet.
    pub open spec fn packet_pair(self, kind: int, received: bool) -> (Seq<char>, Seq<char>) {
        (
            "$SYS/broker/mqtt/"@ + packet_name(kind) + seq!['/'] + verb(received),
            decimal(
                (if received {
                    self.packet_received@[kind]
                } else {
                    self.packet_sent@[kind]
                }) as nat,
            ),
        )
    }

    /// The status topics per control packet.
    pub open spec fn packet_pairs(self) -> Seq<(Seq<char>, Seq<char>)> {
        Seq::new(30, |i: int| self.packet_pair(1 + i / 2, i % 2 == 0))
    }

    /// Every statistic.
    pub fn series(&self) -> (r: Vec<Series>)
        ensures
            text::views(r@) == self.all_series(),
    {
        let mut v: Vec<Series> = Vec::new();
        self.add_counters(&mut v);
        self.add_packet_counters(&mut v);
        self.add_gauges(&mut v);
        assert(text::views(v@) =~= self.all_series());
        v
    }

    fn add_counters(&self, v: &mut Vec<Series>)
        requires
            old(v)@.len() == 0,
        ensures
            text::views(final(v)@) == self.counters(),
    {
        let k: SeriesKind = SeriesKind::Counter;
        push_series(v, k, "mqtt_connections_total", "Total accepted client connections.", self.connections_total);
        push_series(v, k, "mqtt_packets_received_total", "Total MQTT control packets received.", self.packets_received);
        push_series(v, k, "mqtt_packets_sent_total", "Total MQTT control packets sent.", self.packets_sent);
        push_series(v, k, "mqtt_bytes_received_total", "Total bytes received from clients and bridge remotes.", self.bytes_received);
        push_series(v, k, "mqtt_bytes_sent_total", "Total bytes sent to clients and bridge remotes.", self.bytes_sent);
        push_series(v, k, "mqtt_publish_received_total", "Total PUBLISH packets received from clients and bridge remotes.", self.publish_received);
        push_series(v, k, "mqtt_publish_delivered_total", "Total PUBLISH deliveries to subscribers.", self.publish_delivered);
        push_series(v, k, "mqtt_publish_dropped_total", "Total messages dropped because an offline session's queue was full.", self.publish_dropped);
        push_series(v, k, "mqtt_bridge_forwarded_out_total", "Total messages forwarded out to bridged remote brokers.", self.bridge_forwarded_out);
        push_series(v, k, "mqtt_bridge_forwarded_in_total", "Total messages received from bridged remotes and injected locally.", self.bridge_forwarded_in);
        push_series(v, k, "mqtt_messages_received_total", "Total MQTT messages (all control packets) received.", self.packets_received);
        push_series(v, k, "mqtt_messages_sent_total", "Total MQTT messages (all control packets) sent.", self.packets_sent);
        push_series(v, k, "mqtt_publish_sent_total", "Total PUBLISH packets sent to clients and bridge remotes.", self.packet_sent[3]);
        push_series(v, k, "mqtt_publish_bytes_received_total", "Total PUBLISH payload bytes received.", self.publish_bytes_received);
        push_series(v, k, "mqtt_publish_bytes_sent_total", "Total PUBLISH payload bytes sent.", self.publish_bytes_sent);
        push_series(v, k, "mqtt_socket_connections_total", "Total sockets accepted (including those that never sent CONNECT).", self.socket_connections);
        push_series(v, k, "mqtt_clients_expired_total", "Total persistent sessions discarded after Session Expiry elapsed.", self.clients_expired);
        push_series(v, k, "mqtt_connections_rate_limited_total", "Total connections refused by the per-source-IP rate limiter.", self.connections_rate_limited);
        assert(text::views(v@) =~= self.counters());
    }

    fn add_gauges(&self, v: &mut Vec<Series>)
        ensures
            text::views(final(v)@) == text::views(old(v)@) + self.gauges(),
    {
        let ghost before = text::views(v@);
        let k: SeriesKind = SeriesKind::Gauge;
        push_series(v, k, "mqtt_clients_connected", "Currently connected clients.", self.clients_connected);
        push_series(v, k, "mqtt_sessions_total", "Sessions currently held (online and offline).", self.sessions_total);
        push_series(v, k, "mqtt_retained_messages", "Retained messages currently stored.", self.retained_messages);
        push_series(v, k, "mqtt_subscriptions_total", "Active subscriptions across all sessions.", self.subscriptions_total);
        push_series(v, k, "mqtt_bridges_connected", "Currently-connected broker-to-broker bridges.", self.bridges_connected);
        push_series(v, k, "mqtt_clients_disconnected", "Persistent sessions currently offline.", self.clients_disconnected);
        push_series(v, k, "mqtt_clients_total", "Clients known to the broker (connected plus offline persistent).", self.clients_total);
        push_series(v, k, "mqtt_clients_maximum", "High-water mark of concurrently connected clients.", self.clients_maximum);
        push_series(v, k, "mqtt_retained_bytes", "Payload bytes held in retained messages.", self.retained_bytes);
        push_series(v, k, "mqtt_shared_subscriptions_count", "Active shared subscriptions ($share/...) across all sessions.", self.shared_subscriptions_count);
        push_series(v, k, "mqtt_store_messages_count", "Messages held in memory (queued for offline sessions plus retained).", self.store_messages_count);
        push_series(v, k, "mqtt_store_messages_bytes", "Payload bytes of messages held in memory.", self.store_messages_bytes);
        push_series(v, k, "mqtt_packet_out_count", "Messages queued for delivery across all sessions.", self.packet_out_count);
        push_series(v, k, "mqtt_packet_out_bytes", "Payload bytes queued for delivery across all sessions.", self.packet_out_bytes);
        push_series(v, k, "mqtt_uptime_seconds", "Seconds since the broker started.", self.uptime_seconds);
        assert(text::views(v@) =~= before + self.gauges());
    }

    fn add_packet_counter(&self, v: &mut Vec<Series>, kind: usize, received: bool)
        requires
            kind < 16,
        ensures
            text::views(final(v)@) == text::views(old(v)@).push(
                self.packet_counter(kind as int, received),
            ),
    {
        let verb: &str = if received {
            "received"
        } else {
            "sent"
        };
        let value: u64 = if received {
            self.packet_received[kind]
        } else {
            self.packet_sent[kind]
        };
        let mut name: String = String::from_str("mqtt_packet_");
        name.append(packet_name_of(kind));
        name.push('_');
        name.append(verb);
        name.append("_total");
        let mut help: String = String::from_str("Total ");
        help.append(packet_title_of(kind));
        help.append(" packets ");
        help.append(verb);
        help.push('.');
        let ghost want = self.packet_counter(kind as int, received);
        assert(name@ =~= want.name);
        assert(help@ =~= want.help);
        push_series(v, SeriesKind::Counter, name.as_str(), help.as_str(), value);
    }

    fn add_packet_counters(&self, v: &mut Vec<Series>)
        ensures
            text::views(final(v)@) == text::views(old(v)@) + self.packet_counters(),
    {
        let ghost before = text::views(v@);
        let ghost all = self.packet_counters();
        let mut kind: usize = 1;
        assert(before + all.take(0) =~= before);
        while kind < 16
            invariant
                1 <= kind <= 16,
                all == self.packet_counters(),
                text::views(v@) == before + all.take(2 * (kind - 1)),
            decreases 16 - kind,
        {
            let ghost n = 2 * (kind - 1);
            self.add_packet_counter(v, kind, true);
            assert(all[n] == self.packet_counter(kind as int, true));
            assert(text::views(v@) =~= before + all.take(n + 1));
            self.add_packet_counter(v, kind, false);
            assert(all[n + 1] == self.packet_counter(kind as int, false));
            assert(text::views(v@) =~= before + all.take(n + 2));
            kind = kind + 1;
        }
        assert(all.take(30) =~= all);
    }

    /// The Prometheus text.
    pub fn to_prometheus(&self) -> (r: String)
        ensures
            r@ == lines_of(self.all_series()) + build_info(self.version@),
    {
        let series: Vec<Series> = self.series();
        let ghost all = self.all_series();
        let mut o: String = String::new();
        let mut i: usize = 0;
        assert(all.take(0) =~= Seq::empty());
        assert(o@ =~= lines_of(all.take(0)));
        while i < series.len()
            invariant
                i <= series.len(),
                all == text::views(series@),
                o@ == lines_of(all.take(i as int)),
            decreases series.len() - i,
        {
            assert(all.take(i + 1).drop_last() =~= all.take(i as int));
            assert(all.take(i + 1).last() == series@[i as int]@);
            push_sample(&mut o, &series[i]);
            i = i + 1;
        }
        assert(all.take(all.len() as int) =~= all);
        let ghost lines = o@;
        o.append("# HELP mqtt_build_info Broker build information.\n# TYPE mqtt_build_info gauge\n");
        o.append("mqtt_build_info{version=\"");
        o.append(self.version);
        o.append("\"} 1\n");
        assert(o@ =~= lines + build_info(self.version@));
        o
    }

    /// The status topics with their values.
    pub fn to_sys_topics(&self) -> (r: Vec<(String, String)>)
        ensures
            text::pair_views(r@) == self.sys_pairs() + self.packet_pairs(),
    {
        let mut t: Vec<(String, String)> = Vec::new();
        self.add_sys_pairs(&mut t);
        let ghost before = text::pair_views(t@);
        let ghost all = self.packet_pairs();
        let mut kind: usize = 1;
        assert(before + all.take(0) =~= before);
        while kind < 16
            invariant
                1 <= kind <= 16,
                all == self.packet_pairs(),
                text::pair_views(t@) == before + all.take(2 * (kind - 1)),
            decreases 16 - kind,
        {
            let ghost n = 2 * (kind - 1);
            self.add_packet_pair(&mut t, kind, true);
            assert(all[n] == self.packet_pair(kind as int, true));
            assert(text::pair_views(t@) =~= before + all.take(n + 1));
            self.add_packet_pair(&mut t, kind, false);
            assert(all[n + 1] == self.packet_pair(kind as int, false));
            assert(text::pair_views(t@) =~= before + all.take(n + 2));
            kind = kind + 1;
        }
        assert(all.take(30) =~= all);
        t
    }

    fn add_packet_pair(&self, t: &mut Vec<(String, String)>, kind: usize, received: bool)
        requires
            kind < 16,
        ensures
            text::pair_views(final(t)@) == text::pair_views(old(t)@).push(
                self.packet_pair(kind as int, received),
            ),
    {
        let mut topic: String = String::from_str("$SYS/broker/mqtt/");
        topic.append(packet_name_of(kind));
        topic.push('/');
        topic.append(
            if received {
                "received"
            } else {
                "sent"
            },
        );
        let value: u64 = if received {
            self.packet_received[kind]
        } else {
            self.packet_sent[kind]
        };
        assert(topic@ =~= self.packet_pair(kind as int, received).0);
        push_pair(t, topic, decimal_string(value));
    }

    fn add_sys_pairs(&self, t: &mut Vec<(String, String)>)
        requires
            old(t)@.len() == 0,
        ensures
            text::pair_views(final(t)@) == self.sys_pairs(),
    {
        let version: String = text::concat("WispMQ ", self.version);
        let uptime: String = text::concat(decimal_string(self.uptime_seconds).as_str(), " seconds");
        push_pair(t, text::concat("$SYS/broker/", "version"), version);
        push_pair(t, text::concat("$SYS/broker/", "uptime"), uptime);
        push_number(t, "clients/connected", self.clients_connected);
        push_number(t, "clients/disconnected", self.clients_disconnected);
        push_number(t, "clients/total", self.clients_total);
        push_number(t, "clients/maximum", self.clients_maximum);
        push_number(t, "clients/expired", self.clients_expired);
        push_number(t, "bytes/received", self.bytes_received);
        push_number(t, "bytes/sent", self.bytes_sent);
        push_number(t, "messages/received", self.packets_received);
        push_number(t, "messages/sent", self.packets_sent);
        push_number(t, "publish/messages/received", self.publish_received);
        push_number(t, "publish/messages/sent", self.packet_sent[3]);
        push_number(t, "publish/messages/dropped", self.publish_dropped);
        push_number(t, "publish/bytes/received", self.publish_bytes_received);
        push_number(t, "publish/bytes/sent", self.publish_bytes_sent);
        push_number(t, "subscriptions/count", self.subscriptions_total);
        push_number(t, "shared_subscriptions/count", self.shared_subscriptions_count);
        push_number(t, "retained messages/count", self.retained_messages);
        push_number(t, "store/messages/count", self.store_messages_count);
        push_number(t, "store/messages/bytes", self.store_messages_bytes);
        push_number(t, "connections/socket/count", self.socket_connections);
        push_number(t, "connections/rate_limited", self.connections_rate_limited);
        push_number(t, "bridges/connected", self.bridges_connected);
        assert(text::pair_views(t@) =~= self.sys_pairs());
    }
}

/// Writes the lines of a series.
fn push_sample(o: &mut String, s: &Series)
    ensures
        final(o)@ == old(o)@ + series_text(s@),
{
    let ghost before = o@;
    o.append("# HELP ");
    o.append(s.name.as_str());
    o.push(' ');
    o.append(s.help.as_str());
    o.push('\n');
    let ghost mid = o@;
    o.append("# TYPE ");
    o.append(s.name.as_str());
    o.push(' ');
    o.append(
        match s.kind {
            SeriesKind::Counter => "counter",
            SeriesKind::Gauge => "gauge",
        },
    );
    o.push('\n');
    o.append(s.name.as_str());
    o.push(' ');
    push_decimal(o, s.value);
    o.push('\n');
    assert(o@ =~= mid + sample_text(s@));
    assert(o@ =~= before + series_text(s@));
}

/// The topic that the value of a series is published under for Home Assistant.
pub open spec fn state_topic(node_id: Seq<char>, name: Seq<char>) -> Seq<char> {
    "wispmq/"@ + node_id + seq!['/'] + name
}

/// The topic that a series is announced under to Home Assistant.
pub open spec fn config_topic(prefix: Seq<char>, node_id: Seq<char>, name: Seq<char>) -> Seq<char> {
    prefix + "/sensor/"@ + node_id + seq!['/'] + name + "/config"@
}

/// A name with spaces for its underscores.
pub open spec fn spaced(s: Seq<char>) -> Seq<char> {
    s.map_values(
        |c: char|
            if c == '_' {
                ' '
            } else {
                c
            },
    )
}

/// The name of a series for people: without `mqtt_`, with spaces.
pub open spec fn friendly_name(name: Seq<char>) -> Seq<char> {
    if text::has_prefix(name, "mqtt_"@) {
        spaced(name.skip(5))
    } else {
        spaced(name)
    }
}

/// The name of the device that the series belong to.
pub open spec fn device_name(node_id: Seq<char>) -> Seq<char> {
    if node_id == "wispmq"@ {
        "WispMQ"@
    } else {
        "WispMQ ("@ + node_id + seq![')']
    }
}

/// How Home Assistant takes the values of a series.
pub open spec fn state_class(kind: SeriesKind) -> Seq<char> {
    match kind {
        SeriesKind::Counter => "total_increasing"@,
        SeriesKind::Gauge => "measurement"@,
    }
}

/// The device that the series belong to.
pub open spec fn ha_device(node_id: Seq<char>, version: Seq<char>) -> JsonView {
    JsonView::Object(
        Map::empty().insert(
            "identifiers"@,
            JsonView::Array(seq![JsonView::Str("wispmq_"@ + node_id)]),
        ).insert("name"@, JsonView::Str(device_name(node_id))).insert(
            "manufacturer"@,
            JsonView::Str("elpapimango"@),
        ).insert("model"@, JsonView::Str("wispmq"@)).insert(
            "sw_version"@,
            JsonView::Str(version),
        ),
    )
}

/// The announcement of a series to Home Assistant.
pub open spec fn ha_config(s: SeriesView, node_id: Seq<char>, version: Seq<char>) -> JsonView {
    JsonView::Object(
        Map::empty().insert("name"@, JsonView::Str(friendly_name(s.name))).insert(
            "unique_id"@,
            JsonView::Str("wispmq_"@ + node_id + seq!['_'] + s.name),
        ).insert("state_topic"@, JsonView::Str(state_topic(node_id, s.name))).insert(
            "state_class"@,
            JsonView::Str(state_class(s.kind)),
        ).insert("device"@, ha_device(node_id, version)),
    )
}

impl Snapshot {
    /// The announcements of all series.
    pub open spec fn ha_configs(self, prefix: Seq<char>, node_id: Seq<char>) -> Seq<
        (Seq<char>, Seq<char>),
    > {
        let all = self.all_series();
        Seq::new(
            all.len(),
            |i: int|
                (
                    config_topic(prefix, node_id, all[i].name),
                    json::json_text(ha_config(all[i], node_id, self.version@)),
                ),
        )
    }

    /// The values of all series.
    pub open spec fn ha_values(self, node_id: Seq<char>) -> Seq<(Seq<char>, Seq<char>)> {
        let all = self.all_series();
        Seq::new(
            all.len(),
            |i: int| (state_topic(node_id, all[i].name), decimal(all[i].value as nat)),
        )
    }
}

/// The topic that an announcement points at is the one that the value of the
/// series is published under.
pub proof fn announcements_point_at_values(snap: Snapshot, prefix: Seq<char>, node_id: Seq<char>, i: int)
    requires
        0 <= i < snap.all_series().len(),
    ensures
        snap.ha_configs(prefix, node_id).len() == snap.ha_values(node_id).len(),
        ha_config(snap.all_series()[i], node_id, snap.version@).get("state_topic"@) == Some(
            JsonView::Str(snap.ha_values(node_id)[i].0),
        ),
{
    reveal_strlit("state_topic");
    reveal_strlit("state_class");
    reveal_strlit("device");
    assert("state_topic"@[6] != "state_class"@[6]);
    assert("state_topic"@.len() != "device"@.len());
}

fn state_topic_of(node_id: &str, name: &str) -> (r: String)
    ensures
        r@ == state_topic(node_id@, name@),
{
    let mut t: String = String::from_str("wispmq/");
    t.append(node_id);
    t.push('/');
    t.append(name);
    assert(t@ =~= state_topic(node_id@, name@));
    t
}

/// The name of a series for people.
pub fn friendly_series_name(name: &str) -> (r: String)
    ensures
        r@ == friendly_name(name@),
{
    proof {
        reveal_strlit("mqtt_");
    }
    let mut c: Vec<char> = chars_of(name);
    let from: usize = if starts_with(name, "mqtt_") {
        5
    } else {
        0
    };
    let ghost want = friendly_name(name@);
    let ghost base = name@.skip(from as int);
    assert(base =~= (if text::has_prefix(name@, "mqtt_"@) {
        name@.skip(5)
    } else {
        name@
    }));
    let mut s: String = String::new();
    let mut i: usize = from;
    assert(s@ =~= spaced(base).take(0));
    while i < c.len()
        invariant
            from <= i <= c.len(),
            c@ == name@,
            base == name@.skip(from as int),
            s@ == spaced(base).take(i - from),
        decreases c.len() - i,
    {
        let x: char = c[i];
        assert(base[i - from] == x);
        s.push(
            if x == '_' {
                ' '
            } else {
                x
            },
        );
        assert(s@ =~= spaced(base).take(i + 1 - from));
        i = i + 1;
    }
    assert(s@ =~= spaced(base));
    s
}

fn ha_device_value(node_id: &str, version: &str) -> (r: serde_json::Value)
    ensures
        json::content(r) == ha_device(node_id@, version@),
{
    let mut identifiers: Vec<serde_json::Value> = Vec::new();
    identifiers.push(json::str_value(text::concat("wispmq_", node_id).as_str()));
    assert(json::value_items(identifiers@) =~= seq![JsonView::Str("wispmq_"@ + node_id@)]);
    let name: String = if str_eq(node_id, "wispmq") {
        "WispMQ".to_owned()
    } else {
        let mut s: String = text::concat("WispMQ (", node_id);
        s.push(')');
        assert(s@ =~= "WispMQ ("@ + node_id@ + seq![')']);
        s
    };
    let mut m: Vec<(String, serde_json::Value)> = Vec::new();
    json::push_member(&mut m, "identifiers", json::array_value(identifiers));
    json::push_member(&mut m, "name", json::str_value(name.as_str()));
    json::push_member(&mut m, "manufacturer", json::str_value("elpapimango"));
    json::push_member(&mut m, "model", json::str_value("wispmq"));
    json::push_member(&mut m, "sw_version", json::str_value(version));
    json::object_value(m)
}

fn ha_config_text(s: &Series, node_id: &str, version: &str) -> (r: String)
    ensures
        r@ == json::json_text(ha_config(s@, node_id@, version@)),
{
    let mut unique: String = text::concat("wispmq_", node_id);
    unique.push('_');
    unique.append(s.name.as_str());
    assert(unique@ =~= "wispmq_"@ + node_id@ + seq!['_'] + s.name@);
    let class: &str = match s.kind {
        SeriesKind::Counter => "total_increasing",
        SeriesKind::Gauge => "measurement",
    };
    let mut m: Vec<(String, serde_json::Value)> = Vec::new();
    json::push_member(
        &mut m,
        "name",
        json::str_value(friendly_series_name(s.name.as_str()).as_str()),
    );
    json::push_member(&mut m, "unique_id", json::str_value(unique.as_str()));
    json::push_member(
        &mut m,
        "state_topic",
        json::str_value(state_topic_of(node_id, s.name.as_str()).as_str()),
    );
    json::push_member(&mut m, "state_class", json::str_value(class));
    json::push_member(&mut m, "device", ha_device_value(node_id, version));
    json::value_text(&json::object_value(m))
}

impl Snapshot {
    /// The announcements of all series to Home Assistant, one topic each. The
    /// node tells brokers apart that announce to one Home Assistant.
    pub fn to_ha_discovery(&self, prefix: &str, node_id: &str) -> (r: Vec<(String, String)>)
        ensures
            text::pair_views(r@) == self.ha_configs(prefix@, node_id@),
    {
        let series: Vec<Series> = self.series();
        let ghost all = self.ha_configs(prefix@, node_id@);
        let mut out: Vec<(String, String)> = Vec::new();
        let mut i: usize = 0;
        assert(text::pair_views(out@) =~= all.take(0));
        while i < series.len()
            invariant
                i <= series.len(),
                text::views(series@) == self.all_series(),
                all == self.ha_configs(prefix@, node_id@),
                text::pair_views(out@) == all.take(i as int),
            decreases series.len() - i,
        {
            let s: &Series = &series[i];
            assert(s@ == self.all_series()[i as int]);
            let mut topic: String = text::concat3(prefix, "/sensor/", node_id);
            topic.push('/');
            topic.append(s.name.as_str());
            topic.append("/config");
            assert(topic@ =~= config_topic(prefix@, node_id@, s@.name));
            push_pair(&mut out, topic, ha_config_text(s, node_id, self.version));
            assert(all.take(i + 1) =~= all.take(i as int).push(all[i as int]));
            i = i + 1;
        }
        assert(all.take(all.len() as int) =~= all);
        out
    }

    /// The values of all series for Home Assistant.
    pub fn to_ha_states(&self, node_id: &str) -> (r: Vec<(String, String)>)
        ensures
            text::pair_views(r@) == self.ha_values(node_id@),
    {
        let series: Vec<Series> = self.series();
        let ghost all = self.ha_values(node_id@);
        let mut out: Vec<(String, String)> = Vec::new();
        let mut i: usize = 0;
        assert(text::pair_views(out@) =~= all.take(0));
        while i < series.len()
            invariant
                i <= series.len(),
                text::views(series@) == self.all_series(),
                all == self.ha_values(node_id@),
                text::pair_views(out@) == all.take(i as int),
            decreases series.len() - i,
        {
            let s: &Series = &series[i];
            assert(s@ == self.all_series()[i as int]);
            push_pair(
                &mut out,
                state_topic_of(node_id, s.name.as_str()),
                decimal_string(s.value),
            );
            assert(all.take(i + 1) =~= all.take(i as int).push(all[i as int]));
            i = i + 1;
        }
        assert(all.take(all.len() as int) =~= all);
        out
    }
}

/// The names of the series whose values the status topics show, one for each
/// topic after those of the version and the uptime.
pub open spec fn status_series() -> Seq<Seq<char>> {
    seq![
        "mqtt_clients_connected"@,
        "mqtt_clients_disconnected"@,
        "mqtt_clients_total"@,
        "mqtt_clients_maximum"@,
        "mqtt_clients_expired_total"@,
        "mqtt_bytes_received_total"@,
        "mqtt_bytes_sent_total"@,
        "mqtt_messages_received_total"@,
        "mqtt_messages_sent_total"@,
        "mqtt_publish_received_total"@,
        "mqtt_publish_sent_total"@,
        "mqtt_publish_dropped_total"@,
        "mqtt_publish_bytes_received_total"@,
        "mqtt_publish_bytes_sent_total"@,
        "mqtt_subscriptions_total"@,
        "mqtt_shared_subscriptions_count"@,
        "mqtt_retained_messages"@,
        "mqtt_store_messages_count"@,
        "mqtt_store_messages_bytes"@,
        "mqtt_socket_connections_total"@,
        "mqtt_connections_rate_limited_total"@,
        "mqtt_bridges_connected"@,
    ]
}

/// The places of those series among all of them.
spec fn status_places() -> Seq<int> {
    seq![48int, 53, 54, 55, 16, 3, 4, 10, 11, 5, 12, 7, 13, 14, 51, 57, 50, 58, 59, 15, 17, 52]
}

/// The status topics show what the series show: both come from one snapshot, so
/// that they always agree.
pub proof fn status_topics_agree_with_series(s: Snapshot, i: int)
    ensures
        s.sys_pairs().len() == status_series().len() + 2,
        s.packet_pairs().len() == s.packet_counters().len(),
        0 <= i < status_series().len() ==> exists|k: int|
            0 <= k < s.all_series().len() && (#[trigger] s.all_series()[k]).name
                == status_series()[i] && s.sys_pairs()[i + 2].1 == decimal(
                s.all_series()[k].value as nat,
            ),
        0 <= i < s.packet_pairs().len() ==> s.packet_pairs()[i].1 == decimal(
            s.packet_counters()[i].value as nat,
        ),
{
    if 0 <= i < status_series().len() {
        let k = status_places()[i];
        let x = s.all_series()[k];
        assert(x == if k < 18 {
            s.counters()[k]
        } else {
            s.gauges()[k - 48]
        });
        assert(x.name == status_series()[i]);
    }
}

} // verus!
