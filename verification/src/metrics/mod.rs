//! Broker metrics: cumulative counters, and the snapshot that combines them
//! with gauges computed from the broker state.
//!
//! Statistics are collected once into a [`Snapshot`] and rendered in several
//! ways: as Prometheus text, as `$SYS/broker/...` topics, and as Home Assistant
//! discovery and state topics. All of them read the same snapshot.

use vstd::prelude::*;
use crate::types::PacketType;

pub mod snapshot;
pub mod status;

pub use snapshot::{Series, SeriesKind, Snapshot};

verus! {

/// Number of slots in the arrays per control packet. Packet types are 1 to 15;
/// slot 0 is unused, so that a packet type is its own slot.
pub const PACKET_KINDS: usize = 16;

/// A counter after it has counted `n` more; it starts again after its largest
/// value.
pub open spec fn counted(counter: u64, n: nat) -> u64 {
    ((counter + n) % 0x1_0000_0000_0000_0000) as u64
}

pub proof fn lemma_counted(counter: u64, m: nat, n: nat)
    ensures
        counted(counted(counter, m), n) == counted(counter, m + n),
        counted(counter, 0) == counter,
{
}

/// Process-wide counters.
#[derive(Debug)]
pub struct Metrics {
    /// Accepted connections since start (successful CONNECT).
    pub connections_total: u64,
    /// Control packets received from clients and from bridge remotes.
    pub packets_received: u64,
    /// Control packets sent to clients and to bridge remotes.
    pub packets_sent: u64,
    /// Bytes read off client sockets (whole frames).
    pub bytes_received: u64,
    /// Bytes written to client sockets (whole frames).
    pub bytes_sent: u64,
    /// PUBLISH packets received from clients and from bridge remotes.
    pub publish_received: u64,
    /// PUBLISH deliveries fanned out to subscribers.
    pub publish_delivered: u64,
    /// Messages dropped instead of queued because an offline session's queue
    /// was at `max_queued_messages`.
    pub publish_dropped: u64,
    /// Messages forwarded out to a bridged remote broker.
    pub bridge_forwarded_out: u64,
    /// Messages received from a bridged remote and injected locally.
    pub bridge_forwarded_in: u64,
    /// Currently-connected bridges (gauge: inc on connect, dec on disconnect).
    pub bridges_connected: u64,
    /// PUBLISH payload bytes received (distinct from whole-frame `bytes_*`).
    pub publish_bytes_received: u64,
    /// PUBLISH payload bytes sent to subscribers.
    pub publish_bytes_sent: u64,
    /// TCP/TLS/WebSocket sockets accepted, whether or not a CONNECT followed.
    /// Higher than `connections_total` when clients disconnect during the
    /// handshake or fail authentication.
    pub socket_connections: u64,
    /// High-water mark of concurrently connected clients.
    pub clients_maximum: u64,
    /// Connections refused by the per-source-IP rate limiter
    /// (`max_connections_per_ip`), before any packet was read.
    pub connections_rate_limited: u64,
    /// Persistent sessions discarded because their Session Expiry elapsed.
    pub clients_expired: u64,
    /// Counters per control packet, by packet type (1 to 15).
    pub packet_received: [u64; 16],
    pub packet_sent: [u64; 16],
}

impl Metrics {
    /// Counters that have counted nothing.
    pub open spec fn zero(self) -> bool {
        &&& self.connections_total == 0
        &&& self.packets_received == 0
        &&& self.packets_sent == 0
        &&& self.bytes_received == 0
        &&& self.bytes_sent == 0
        &&& self.publish_received == 0
        &&& self.publish_delivered == 0
        &&& self.publish_dropped == 0
        &&& self.bridge_forwarded_out == 0
        &&& self.bridge_forwarded_in == 0
        &&& self.bridges_connected == 0
        &&& self.publish_bytes_received == 0
        &&& self.publish_bytes_sent == 0
        &&& self.socket_connections == 0
        &&& self.clients_maximum == 0
        &&& self.connections_rate_limited == 0
        &&& self.clients_expired == 0
        &&& forall|i: int| 0 <= i < 16 ==> #[trigger] self.packet_received@[i] == 0
        &&& forall|i: int| 0 <= i < 16 ==> #[trigger] self.packet_sent@[i] == 0
    }

    /// Counters that start at 0.
    pub fn new() -> (r: Self)
        ensures
            r.zero(),
    {
        Metrics {
            connections_total: 0,
            packets_received: 0,
            packets_sent: 0,
            bytes_received: 0,
            bytes_sent: 0,
            publish_received: 0,
            publish_delivered: 0,
            publish_dropped: 0,
            bridge_forwarded_out: 0,
            bridge_forwarded_in: 0,
            bridges_connected: 0,
            publish_bytes_received: 0,
            publish_bytes_sent: 0,
            socket_connections: 0,
            clients_maximum: 0,
            connections_rate_limited: 0,
            clients_expired: 0,
            packet_received: [0; 16],
            packet_sent: [0; 16],
        }
    }

    /// Counts one.
    pub fn inc(counter: &mut u64)
        ensures
            *final(counter) == counted(*old(counter), 1),
    {
        *counter = counter.wrapping_add(1);
    }

    /// Counts `n`.
    pub fn add(counter: &mut u64, n: u64)
        ensures
            *final(counter) == counted(*old(counter), n as nat),
    {
        *counter = counter.wrapping_add(n);
    }

    /// The value of a counter.
    pub fn get(counter: &u64) -> (r: u64)
        ensures
            r == *counter,
    {
        *counter
    }

    /// Counts one back.
    pub fn dec(counter: &mut u64)
        ensures
            *old(counter) > 0 ==> *final(counter) == *old(counter) - 1,
            *old(counter) == 0 ==> *final(counter) == u64::MAX,
    {
        *counter = counter.wrapping_sub(1);
    }

    /// Records a received control packet: the counter of its type and the
    /// totals.
    pub fn record_received(&mut self, kind: PacketType, frame_bytes: usize)
        ensures
            final(self).packets_received == counted(old(self).packets_received, 1),
            final(self).bytes_received == counted(old(self).bytes_received, frame_bytes as nat),
            final(self).packet_received@ == old(self).packet_received@.update(
                kind.code() as int,
                counted(old(self).packet_received@[kind.code() as int], 1),
            ),
            *final(self) == (Metrics {
                packets_received: final(self).packets_received,
                bytes_received: final(self).bytes_received,
                packet_received: final(self).packet_received,
                ..*old(self)
            }),
    {
        Self::inc(&mut self.packets_received);
        Self::add(&mut self.bytes_received, frame_bytes as u64);
        let slot: usize = kind.as_u8() as usize;
        let n: u64 = self.packet_received[slot].wrapping_add(1);
        self.packet_received[slot] = n;
    }

    /// Records a sent control packet: the counter of its type and the totals.
    pub fn record_sent(&mut self, kind: PacketType, frame_bytes: usize)
        ensures
            final(self).packets_sent == counted(old(self).packets_sent, 1),
            final(self).bytes_sent == counted(old(self).bytes_sent, frame_bytes as nat),
            final(self).packet_sent@ == old(self).packet_sent@.update(
                kind.code() as int,
                counted(old(self).packet_sent@[kind.code() as int], 1),
            ),
            *final(self) == (Metrics {
                packets_sent: final(self).packets_sent,
                bytes_sent: final(self).bytes_sent,
                packet_sent: final(self).packet_sent,
                ..*old(self)
            }),
    {
        Self::inc(&mut self.packets_sent);
        Self::add(&mut self.bytes_sent, frame_bytes as u64);
        let slot: usize = kind.as_u8() as usize;
        let n: u64 = self.packet_sent[slot].wrapping_add(1);
        self.packet_sent[slot] = n;
    }

    /// Raises the high-water mark of connected clients to at least `current`.
    pub fn observe_clients_connected(&mut self, current: u64)
        ensures
            *final(self) == (Metrics {
                clients_maximum: if current > old(self).clients_maximum {
                    current
                } else {
                    old(self).clients_maximum
                },
                ..*old(self)
            }),
    {
        if current > self.clients_maximum {
            self.clients_maximum = current;
        }
    }
}

impl Default for Metrics {
    fn default() -> (r: Self)
        ensures
            r.zero(),
    {
        Metrics::new()
    }
}

} // verus!
