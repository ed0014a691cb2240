//! What a connection does, event by event: the first packet, the packets after
//! it, what the broker has for the client, and how the connection ends.
use vstd::prelude::*;
use crate::broker::{AcceptedView, Action, Broker, BrokerView, Outgoing, OutgoingView};
use crate::error::{MqttError, Result};
use crate::metrics::{counted, Metrics};
use crate::packet::{Connack, ConnackView, Disconnect, DisconnectView, Packet, PacketView};
use crate::codec::PropertiesView;
use crate::text;
use crate::types::{ProtocolVersion, ReasonCode};

verus! {

/// Seconds that a client has for its first packet.
pub const CONNECT_TIMEOUT: u64 = 15;

/// Seconds in a year, after which a client without keep alive is given up.
pub const IDLE_LIMIT: u64 = 31_536_000;

/// Seconds without a packet after which a client is given up: one and a half
/// times its keep alive and one.
pub open spec fn silence_limit(keep_alive: u16) -> u64 {
    if keep_alive == 0 {
        IDLE_LIMIT
    } else {
        (keep_alive * 3 / 2 + 1) as u64
    }
}

/// Seconds without a packet after which a client is given up.
pub fn read_timeout(keep_alive: u16) -> (r: u64)
    ensures
        r == silence_limit(keep_alive),
{
    if keep_alive == 0 {
        IDLE_LIMIT
    } else {
        (keep_alive as u64 * 3) / 2 + 1
    }
}

/// The payload bytes that a packet adds to those of publications.
pub open spec fn payload_bytes(p: PacketView) -> nat {
    match p {
        PacketView::Publish(p) => p.payload.len(),
        _ => 0,
    }
}

/// Whether counters are what a packet makes of others that was received in a
/// frame of `n` bytes.
pub open spec fn has_received(before: Metrics, p: PacketView, n: usize, after: Metrics) -> bool {
    let slot = p.packet_type().code() as int;
    &&& after.packets_received == counted(before.packets_received, 1)
    &&& after.bytes_received == counted(before.bytes_received, n as nat)
    &&& after.packet_received@ == before.packet_received@.update(
        slot,
        counted(before.packet_received@[slot], 1),
    )
    &&& after.publish_bytes_received == if p is Publish {
        counted(before.publish_bytes_received, payload_bytes(p))
    } else {
        before.publish_bytes_received
    }
    &&& after == Metrics {
        packets_received: after.packets_received,
        bytes_received: after.bytes_received,
        packet_received: after.packet_received,
        publish_bytes_received: after.publish_bytes_received,
        ..before
    }
}

/// Whether counters are what a packet makes of others that was received in a
/// frame of `n` bytes and whose payload does not count.
pub open spec fn has_recorded(before: Metrics, p: PacketView, n: usize, after: Metrics) -> bool {
    let slot = p.packet_type().code() as int;
    &&& after.packets_received == counted(before.packets_received, 1)
    &&& after.bytes_received == counted(before.bytes_received, n as nat)
    &&& after.packet_received@ == before.packet_received@.update(
        slot,
        counted(before.packet_received@[slot], 1),
    )
    &&& after == Metrics {
        packets_received: after.packets_received,
        bytes_received: after.bytes_received,
        packet_received: after.packet_received,
        ..before
    }
}

/// Whether counters are what a packet makes of others that was sent in a frame
/// of `n` bytes.
pub open spec fn has_sent(before: Metrics, p: PacketView, n: usize, after: Metrics) -> bool {
    let slot = p.packet_type().code() as int;
    &&& after.packets_sent == counted(before.packets_sent, 1)
    &&& after.bytes_sent == counted(before.bytes_sent, n as nat)
    &&& after.packet_sent@ == before.packet_sent@.update(
        slot,
        counted(before.packet_sent@[slot], 1),
    )
    &&& after.publish_bytes_sent == if p is Publish {
        counted(before.publish_bytes_sent, payload_bytes(p))
    } else {
        before.publish_bytes_sent
    }
    &&& after == Metrics {
        packets_sent: after.packets_sent,
        bytes_sent: after.bytes_sent,
        packet_sent: after.packet_sent,
        publish_bytes_sent: after.publish_bytes_sent,
        ..before
    }
}

/// Counts a packet that was received in a frame of `n` bytes.
pub fn count_received(metrics: &mut Metrics, packet: &Packet, n: usize)
    ensures
        has_received(*old(metrics), packet@, n, *final(metrics)),
{
    metrics.record_received(packet.packet_type(), n);
    if let Packet::Publish(p) = packet {
        Metrics::add(&mut metrics.publish_bytes_received, p.payload.len() as u64);
    }
}

/// Counts a packet that was sent in a frame of `n` bytes.
pub fn count_sent(metrics: &mut Metrics, packet: &Packet, n: usize)
    ensures
        has_sent(*old(metrics), packet@, n, *final(metrics)),
{
    metrics.record_sent(packet.packet_type(), n);
    if let Packet::Publish(p) = packet {
        Metrics::add(&mut metrics.publish_bytes_sent, p.payload.len() as u64);
    }
}

/// The protocol version in which a client is answered: the one it asked for, or
/// 3.1.1 where there is no such version.
pub open spec fn answer_version(level: u8) -> ProtocolVersion {
    match ProtocolVersion::of_code(level) {
        Some(v) => v,
        None => ProtocolVersion::V3_1_1,
    }
}

/// A connection whose client was accepted.
pub struct Connection {
    pub client_id: String,
    pub epoch: u64,
    pub version: ProtocolVersion,
    /// Whether the client's will is published when the connection ends.
    pub publish_will: bool,
}

/// A connection whose client was accepted.
pub struct ConnectionView {
    pub client_id: Seq<char>,
    pub epoch: u64,
    pub version: ProtocolVersion,
    pub publish_will: bool,
}

impl View for Connection {
    type V = ConnectionView;

    open spec fn view(&self) -> ConnectionView {
        ConnectionView {
            client_id: self.client_id@,
            epoch: self.epoch,
            version: self.version,
            publish_will: self.publish_will,
        }
    }
}

/// The answer to the first packet.
pub enum Greeting {
    /// The client is in: the answer, who it is, and seconds without a packet
    /// after which it is given up.
    Welcome { connection: Connection, connack: Connack, identity: Option<String>, silence: u64 },
    /// The client is refused: the answer, and the version to write it in.
    Refused { connack: Connack, version: ProtocolVersion },
}

/// Answers the first packet of a connection, which came in a frame of `n` bytes.
/// Anything but a CONNECT is an error; its payload, if it has one, is not counted.
pub fn greet(
    broker: &mut Broker,
    first: Packet,
    n: usize,
    identity: Option<String>,
    now: u64,
) -> (r: Result<Greeting>)
    requires
        old(broker).wf(),
        old(broker)@.next_epoch < u64::MAX,
    ensures
        final(broker).wf(),
        exists|m: Metrics| #[trigger]
            has_recorded(old(broker)@.metrics, first@, n, m) && ({
                let b = BrokerView { metrics: m, ..old(broker)@ };
                match first@ {
                    PacketView::Connect(c) => {
                        let (after, outcome) = b.on_connect(
                            c,
                            text::opt_view(identity),
                            b.verifies(c),
                            now,
                        );
                        &&& final(broker)@ == after
                        &&& match r {
                            Ok(
                                Greeting::Welcome { connection, connack, identity: who, silence },
                            ) => outcome is Ok && ({
                                let a = outcome->Ok_0;
                                &&& connection@ == (ConnectionView {
                                    client_id: a.client_id,
                                    epoch: a.epoch,
                                    version: answer_version(c.protocol_version),
                                    publish_will: true,
                                })
                                &&& connack@ == a.connack
                                &&& text::opt_view(who) == a.identity
                                &&& silence == silence_limit(a.keep_alive)
                            }),
                            Ok(Greeting::Refused { connack, version }) => outcome == Err::<
                                AcceptedView,
                                ConnackView,
                            >(connack@) && version == answer_version(c.protocol_version),
                            Err(_) => false,
                        }
                    },
                    _ => final(broker)@ == b && (r matches Err(MqttError::Protocol(m)) && m@
                        == "first packet was "@ + first@.name() + " not CONNECT"@),
                }
            }),
{
    let ghost before = broker@;
    broker.metrics_mut().record_received(first.packet_type(), n);
    let ghost m = broker@.metrics;
    assert(has_recorded(before.metrics, first@, n, m));
    assert(broker@ == (BrokerView { metrics: m, ..before }));
    let connect = match first {
        Packet::Connect(c) => c,
        other => {
            return Err(
                MqttError::Protocol(
                    text::concat3("first packet was ", other.name(), " not CONNECT"),
                ),
            );
        },
    };
    let version: ProtocolVersion = match ProtocolVersion::from_level(connect.protocol_version) {
        Some(v) => v,
        None => ProtocolVersion::V3_1_1,
    };
    match broker.handle_connect(connect, identity, now) {
        Ok(a) => {
            let silence: u64 = read_timeout(a.keep_alive);
            Ok(
                Greeting::Welcome {
                    connection: Connection {
                        client_id: a.client_id,
                        epoch: a.epoch,
                        version,
                        publish_will: true,
                    },
                    connack: a.connack,
                    identity: a.identity,
                    silence,
                },
            )
        },
        Err(connack) => Ok(Greeting::Refused { connack, version }),
    }
}

/// What a connection does next.
pub enum Step {
    /// Wait for the next event.
    Wait,
    /// Write a packet, then wait.
    Send(Packet),
    /// Write a packet if there is one, whether or not that works, then close.
    Close(Option<Packet>),
}

/// What a connection does next.
pub enum StepView {
    Wait,
    Send(PacketView),
    Close(Option<PacketView>),
}

impl View for Step {
    type V = StepView;

    open spec fn view(&self) -> StepView {
        match self {
            Step::Wait => StepView::Wait,
            Step::Send(p) => StepView::Send(p@),
            Step::Close(p) => StepView::Close(text::opt_view(*p)),
        }
    }
}

/// How a server ends a connection with a reason: a v5 client is told, an older
/// one has no packet for it.
pub open spec fn farewell(version: ProtocolVersion, reason_code: ReasonCode) -> StepView {
    StepView::Close(
        if version is V5 {
            Some(
                PacketView::Disconnect(
                    DisconnectView { reason_code, properties: PropertiesView::empty() },
                ),
            )
        } else {
            None
        },
    )
}

fn close_with(version: ProtocolVersion, rc: ReasonCode) -> (r: Step)
    ensures
        r@ == farewell(version, rc),
{
    if version.is_v5() {
        Step::Close(Some(Packet::Disconnect(Disconnect::new(rc))))
    } else {
        Step::Close(None)
    }
}

/// Something that happens on a connection.
pub enum Event {
    /// The broker has something for the client.
    Outgoing(Outgoing),
    /// The broker let go of the connection.
    Released,
    /// A packet came in a frame of as many bytes.
    Received(Packet, usize),
    /// The client closed its side.
    Ended,
    /// What came cannot be read.
    Faulty(MqttError),
    /// Nothing came for too long.
    Silent,
}

impl ConnectionView {
    /// What the outcome of a packet makes of the connection, and what it does
    /// next.
    pub open spec fn after_action(self, a: Action) -> (ConnectionView, StepView) {
        match a {
            Action::Continue => (self, StepView::Wait),
            Action::ServerDisconnect(rc) => (self, farewell(self.version, rc)),
            Action::ClientDisconnect { publish_will } => (
                ConnectionView { publish_will, ..self },
                StepView::Close(None),
            ),
        }
    }

    /// What something from the broker makes of the connection, and what it does
    /// next. A client that the broker sends away leaves no will.
    pub open spec fn after_outgoing(self, o: OutgoingView) -> (ConnectionView, StepView) {
        match o {
            OutgoingView::Send(p) => (self, StepView::Send(PacketView::Publish(p))),
            OutgoingView::Control(p) => (self, StepView::Send(p)),
            OutgoingView::Shutdown(rc) => (
                ConnectionView { publish_will: false, ..self },
                farewell(self.version, rc),
            ),
        }
    }
}

impl Connection {
    /// Handles an event. Only a packet of the client reaches the broker.
    pub fn on_event(&mut self, broker: &mut Broker, event: Event, now: u64) -> (r: Step)
        requires
            old(broker).wf(),
        ensures
            final(broker).wf(),
            match event {
                Event::Received(p, n) => exists|m: Metrics| #[trigger]
                    has_received(old(broker)@.metrics, p@, n, m) && ({
                        let b = BrokerView { metrics: m, ..old(broker)@ };
                        let (after, action) = b.on_packet(old(self)@.client_id, p@, now);
                        &&& final(broker)@ == after
                        &&& (final(self)@, r@) == old(self)@.after_action(action)
                    }),
                Event::Outgoing(o) => final(broker)@ == old(broker)@ && (final(self)@, r@) == old(
                    self,
                )@.after_outgoing(o@),
                Event::Released => final(broker)@ == old(broker)@ && final(self)@ == old(self)@
                    && r@ == StepView::Close(None),
                Event::Ended => final(broker)@ == old(broker)@ && final(self)@ == old(self)@ && r@
                    == StepView::Close(None),
                Event::Faulty(e) => final(broker)@ == old(broker)@ && final(self)@ == old(self)@
                    && r@ == farewell(old(self)@.version, e.reason()),
                Event::Silent => final(broker)@ == old(broker)@ && final(self)@ == old(self)@ && r@
                    == farewell(old(self)@.version, ReasonCode::KeepAliveTimeout),
            },
    {
        match event {
            Event::Outgoing(o) => match o {
                Outgoing::Send(p) => Step::Send(Packet::Publish(*p)),
                Outgoing::Control(p) => Step::Send(*p),
                Outgoing::Shutdown(rc) => {
                    self.publish_will = false;
                    close_with(self.version, rc)
                },
            },
            Event::Released => Step::Close(None),
            Event::Received(packet, n) => {
                let ghost before = broker@;
                count_received(broker.metrics_mut(), &packet, n);
                let ghost m = broker@.metrics;
                assert(has_received(before.metrics, packet@, n, m));
                assert(broker@ == (BrokerView { metrics: m, ..before }));
                match broker.handle_packet(self.client_id.as_str(), self.epoch, packet, now) {
                    Action::Continue => Step::Wait,
                    Action::ServerDisconnect(rc) => close_with(self.version, rc),
                    Action::ClientDisconnect { publish_will } => {
                        self.publish_will = publish_will;
                        Step::Close(None)
                    },
                }
            },
            Event::Ended => Step::Close(None),
            Event::Faulty(e) => close_with(self.version, e.reason_code()),
            Event::Silent => close_with(self.version, ReasonCode::KeepAliveTimeout),
        }
    }
}

/// A client that the broker sends away, for another that took its place or by
/// a policy, leaves no will.
pub proof fn sent_away_leaves_no_will(c: ConnectionView, rc: ReasonCode)
    ensures
        !c.after_outgoing(OutgoingView::Shutdown(rc)).0.publish_will,
        c.after_outgoing(OutgoingView::Shutdown(rc)).1 is Close,
{
}

/// An older client is never sent a DISCONNECT.
pub proof fn older_clients_are_only_closed(version: ProtocolVersion, rc: ReasonCode)
    requires
        !(version is V5),
    ensures
        farewell(version, rc) == StepView::Close(None),
{
}

} // verus!
