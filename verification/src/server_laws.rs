//! Laws of a connection: what its client is sent, how it ends, and whether its
//! will is published.

use vstd::prelude::*;
use crate::broker::{Action, OutgoingView};
use crate::codec::PropertiesView;
use crate::metrics::Metrics;
use crate::packet::{DisconnectView, PacketView};
use crate::server::{
    farewell, has_received, has_sent, silence_limit, ConnectionView, StepView,
};
use crate::types::{ProtocolVersion, ReasonCode};

verus! {

/// A client is given up after one and a half times its keep alive and up to a
/// second more, and one without keep alive after a year.
pub proof fn silence_is_one_and_a_half_times_keep_alive(keep_alive: u16)
    ensures
        keep_alive > 0 ==> 3 * keep_alive < 2 * silence_limit(keep_alive) <= 3 * keep_alive + 2,
        keep_alive == 0 ==> silence_limit(keep_alive) == 365 * 24 * 60 * 60,
{
}

/// A v5 client that the server disconnects is told the reason before the
/// connection closes; an older one finds it closed.
pub proof fn newer_clients_are_told_the_reason(version: ProtocolVersion, reason_code: ReasonCode)
    ensures
        version.code() == 5 ==> farewell(version, reason_code) == StepView::Close(
            Some(
                PacketView::Disconnect(
                    DisconnectView { reason_code, properties: PropertiesView::empty() },
                ),
            ),
        ),
        version.code() != 5 ==> farewell(version, reason_code) == StepView::Close(None),
{
}

/// A packet that the broker has taken lets the connection wait for the next;
/// one for which it disconnects ends the connection and keeps the will; and a
/// client that disconnects itself says whether its will is published. Whose
/// connection it is never changes.
pub proof fn outcome_decides_the_next_step(c: ConnectionView, a: Action)
    ensures
        ({
            let (d, step) = c.after_action(a);
            &&& d == (ConnectionView { publish_will: d.publish_will, ..c })
            &&& a is Continue ==> step is Wait && d.publish_will == c.publish_will
            &&& a matches Action::ServerDisconnect(rc) ==> step == farewell(c.version, rc)
                && d.publish_will == c.publish_will
            &&& a matches Action::ClientDisconnect { publish_will } ==> step == StepView::Close(
                None,
            ) && d.publish_will == publish_will
        }),
{
}

/// What the broker has for a client is written to it as it is; only being sent
/// away ends the connection.
pub proof fn what_the_broker_has_is_written(c: ConnectionView, o: OutgoingView)
    ensures
        ({
            let (d, step) = c.after_outgoing(o);
            &&& d == (ConnectionView { publish_will: d.publish_will, ..c })
            &&& o matches OutgoingView::Send(p) ==> step == StepView::Send(PacketView::Publish(p))
                && d == c
            &&& o matches OutgoingView::Control(p) ==> step == StepView::Send(p) && d == c
            &&& o matches OutgoingView::Shutdown(rc) ==> step == farewell(c.version, rc)
                && !d.publish_will
        }),
{
}

/// A packet that was received counts once among the packets, once for its type
/// and for no other, and with all its bytes; its payload counts only where it is
/// a publication. No other counter moves.
pub proof fn received_packet_counts_once(
    before: Metrics,
    p: PacketView,
    n: usize,
    after: Metrics,
    kind: int,
)
    requires
        has_received(before, p, n, after),
        0 <= kind < 16,
        before.packets_received < u64::MAX,
        before.bytes_received + n <= u64::MAX,
        before.packet_received@[kind] < u64::MAX,
        p.packet_type().code() < 16,
    ensures
        after.packets_received == before.packets_received + 1,
        after.bytes_received == before.bytes_received + n,
        after.packet_received@[kind] == before.packet_received@[kind] + (if kind
            == p.packet_type().code() {
            1int
        } else {
            0int
        }),
        p matches PacketView::Publish(x) ==> (before.publish_bytes_received + x.payload.len()
            <= u64::MAX ==> after.publish_bytes_received == before.publish_bytes_received
            + x.payload.len()),
        !(p is Publish) ==> after.publish_bytes_received == before.publish_bytes_received,
        after.packets_sent == before.packets_sent,
        after.bytes_sent == before.bytes_sent,
        after.publish_received == before.publish_received,
        after.connections_total == before.connections_total,
{
}

/// A packet that was sent counts once among the packets, once for its type and
/// for no other, and with all its bytes; its payload counts only where it is a
/// publication. No other counter moves.
pub proof fn sent_packet_counts_once(
    before: Metrics,
    p: PacketView,
    n: usize,
    after: Metrics,
    kind: int,
)
    requires
        has_sent(before, p, n, after),
        0 <= kind < 16,
        before.packets_sent < u64::MAX,
        before.bytes_sent + n <= u64::MAX,
        before.packet_sent@[kind] < u64::MAX,
        p.packet_type().code() < 16,
    ensures
        after.packets_sent == before.packets_sent + 1,
        after.bytes_sent == before.bytes_sent + n,
        after.packet_sent@[kind] == before.packet_sent@[kind] + (if kind == p.packet_type().code() {
            1int
        } else {
            0int
        }),
        p matches PacketView::Publish(x) ==> (before.publish_bytes_sent + x.payload.len()
            <= u64::MAX ==> after.publish_bytes_sent == before.publish_bytes_sent
            + x.payload.len()),
        !(p is Publish) ==> after.publish_bytes_sent == before.publish_bytes_sent,
        after.packets_received == before.packets_received,
        after.bytes_received == before.bytes_received,
        after.publish_delivered == before.publish_delivered,
        after.connections_total == before.connections_total,
{
}

} // verus!
