//! Laws of CONNECT: how long a session lasts, which session serves a client, and
//! what the client is told.

use vstd::prelude::*;
use crate::broker::connect::is_reserved;
use crate::broker::publish::flush_keeps_the_rest;
use crate::broker::session;
use crate::broker::session::{OutgoingView, SessionView};
use crate::broker::{lemma_session, lemma_with, lemma_with_other, BrokerView};
use crate::message::{
    byte_property, four_property, text_property, two_property,
};
use crate::packet::{ConnackView, ConnectView};
use crate::storage::CommandView;
use crate::types::{PropertyId, ProtocolVersion, ReasonCode};

verus! {

/// Whether a session expiry is the one that a CONNECT gets. With protocol level
/// 5 it is what was asked for (0 where nothing was) but no more than the server
/// allows; with an earlier one it is 0 for a clean session and what the server
/// allows for any other.
pub open spec fn is_expiry_for(expiry: u32, c: ConnectView, limit: u32) -> bool {
    if c.protocol_version == 5 {
        match four_property(c.properties, PropertyId::SessionExpiryInterval) {
            None => expiry == 0,
            Some(asked) => expiry <= asked && expiry <= limit && (expiry == asked || expiry
                == limit),
        }
    } else {
        &&& c.clean_start ==> expiry == 0
        &&& !c.clean_start ==> expiry == limit
    }
}

/// What accepting a CONNECT leaves in the broker: the session of the client is
/// the one that serves it, and the sessions of the others are as they were.
proof fn lemma_accepted(
    b: BrokerView,
    c: ConnectView,
    identity: Option<Seq<char>>,
    verified: bool,
    now: u64,
)
    requires
        b.wf(),
        b.on_connect(c, identity, verified, now).1 is Ok,
    ensures
        ({
            let (t, r) = b.on_connect(c, identity, verified, now);
            let who = b.admitted(c, identity, verified)->Ok_0;
            let id = r->Ok_0.client_id;
            let s = b.connect_session(c, who, now);
            &&& t.session(id) == Some(s)
            &&& s.client_id == id
            &&& s.wf()
            &&& forall|other: Seq<char>|
                other != id ==> #[trigger] t.session(other) == b.session(other)
        }),
{
    let (t, r) = b.on_connect(c, identity, verified, now);
    let who = b.admitted(c, identity, verified)->Ok_0;
    let id = r->Ok_0.client_id;
    let s = b.connect_session(c, who, now);
    lemma_served(b, c, who, now);
    lemma_session(b, id);
    lemma_with(b, s);
    assert(t.sessions == b.with(s).sessions);
    assert(t.session(id) == b.with(s).session(id));
    assert forall|other: Seq<char>| other != id implies #[trigger] t.session(other) == b.session(
        other,
    ) by {
        lemma_with_other(b, s, other);
        assert(t.session(other) == b.with(s).session(other));
    }
}

/// What the session that serves a CONNECT has from it, and what it keeps of the
/// one that was there.
proof fn lemma_served(b: BrokerView, c: ConnectView, who: Option<Seq<char>>, now: u64)
    requires
        b.wf(),
    ensures
        ({
            let s = b.connect_session(c, who, now);
            let old = b.session(b.connect_id(c, now));
            let expiry = crate::broker::connect::granted_expiry(b.config, c);
            &&& s.client_id == b.connect_id(c, now)
            &&& s.wf()
            &&& s.online()
            &&& s.epoch == b.next_epoch
            &&& s.identity == who
            &&& s.session_expiry_interval == expiry
            &&& s.persistent == (expiry > 0 && c.client_id.len() > 0)
            &&& s.inbound_aliases.len() == 0
            &&& s.will == crate::broker::connect::will_of(c, now)
            &&& s.client_max_packet_size == four_property(
                c.properties,
                PropertyId::MaximumPacketSize,
            )
            &&& s.client_receive_maximum == (match two_property(
                c.properties,
                PropertyId::ReceiveMaximum,
            ) {
                Some(n) => n,
                None => 65535u16,
            })
            &&& (old is None || c.clean_start) ==> s == (SessionView {
                epoch: s.epoch,
                identity: who,
                session_expiry_interval: expiry,
                persistent: s.persistent,
                out: Some(Seq::empty()),
                client_receive_maximum: s.client_receive_maximum,
                client_max_packet_size: s.client_max_packet_size,
                will: s.will,
                ..SessionView::fresh(s.client_id, expiry)
            })
            &&& old is Some && !c.clean_start ==> s.subscriptions == (old->0).subscriptions
                && s.inbound_qos2 == (old->0).inbound_qos2
        }),
{
    let id = b.connect_id(c, now);
    lemma_session(b, id);
    let expiry = crate::broker::connect::granted_expiry(b.config, c);
    let persistent = expiry > 0 && c.client_id.len() > 0;
    match b.session(id) {
        Some(s) => if !c.clean_start {
            let t = s.bound(c, who, b.next_epoch, expiry, persistent, now);
            assert(t.wf());
            session::resume_keeps_session_wf(t, now);
            let u = SessionView { out: Some(t.out->0 + t.redeliveries()), ..t };
            flush_keeps_the_rest(u, now);
            lemma_flush_keeps_limits(u, now);
        },
        None => {},
    }
}

proof fn lemma_flush_keeps_limits(s: SessionView, now: u64)
    ensures
        s.flushed(now).client_receive_maximum == s.client_receive_maximum,
        s.flushed(now).client_max_packet_size == s.client_max_packet_size,
        s.flushed(now).awaiting_pubcomp == s.awaiting_pubcomp,
        s.out is Some ==> s.flushed(now).out is Some && (s.out->0).is_prefix_of(
            s.flushed(now).out->0,
        ),
    decreases s.queue.len(),
{
    if s.can_start() && s.queue.len() > 0 {
        let p = s.queue[0];
        let rest = SessionView { queue: s.queue.skip(1), ..s };
        if p.message.expired(now) {
            lemma_flush_keeps_limits(rest, now);
        } else if s.allocation().0 is Some {
            lemma_flush_keeps_limits(
                rest.started(
                    p.message,
                    p.qos,
                    p.retain,
                    p.subscription_ids,
                    s.allocation().0->0,
                    now,
                ),
                now,
            );
        }
    }
}

/// The session that serves a CONNECT lasts as long as its protocol level, its
/// clean start and the limit of the server say; it is stored exactly where it
/// outlives its connection and the client has a name of its own; and what is
/// stored of it says the same.
pub proof fn session_lasts_as_granted(
    b: BrokerView,
    c: ConnectView,
    identity: Option<Seq<char>>,
    verified: bool,
    now: u64,
)
    requires
        b.wf(),
        b.on_connect(c, identity, verified, now).1 is Ok,
    ensures
        ({
            let (t, r) = b.on_connect(c, identity, verified, now);
            let s = t.session(r->Ok_0.client_id)->0;
            &&& t.session(r->Ok_0.client_id) is Some
            &&& is_expiry_for(s.session_expiry_interval, c, b.config.max_session_expiry)
            &&& s.persistent <==> s.session_expiry_interval > 0 && c.client_id.len() > 0
            &&& b.storage.mode is Writer && s.persistent ==> t.storage.commands.len() > 0
                && t.storage.commands.last() == (CommandView::UpsertSession {
                client_id: r->Ok_0.client_id,
                session_expiry: s.session_expiry_interval,
                owner_identity: r->Ok_0.identity,
            })
            &&& b.storage.mode is Writer && c.clean_start ==> t.storage.commands.len()
                > b.storage.commands.len() && t.storage.commands[b.storage.commands.len() as int]
                == (CommandView::DeleteSession { client_id: r->Ok_0.client_id })
            &&& !c.clean_start && !s.persistent ==> t.storage == b.storage
        }),
{
    let (t, r) = b.on_connect(c, identity, verified, now);
    let who = b.admitted(c, identity, verified)->Ok_0;
    lemma_accepted(b, c, identity, verified, now);
    lemma_served(b, c, who, now);
    assert(c.version() is Some);
}

/// Where the session lasts otherwise than the client asked for, the CONNACK
/// tells how long; where it lasts as asked, the CONNACK is silent on it.
pub proof fn connack_tells_another_expiry(
    b: BrokerView,
    c: ConnectView,
    identity: Option<Seq<char>>,
    verified: bool,
    now: u64,
)
    requires
        b.wf(),
        b.on_connect(c, identity, verified, now).1 is Ok,
    ensures
        ({
            let (t, r) = b.on_connect(c, identity, verified, now);
            let lasts = (t.session(r->Ok_0.client_id)->0).session_expiry_interval;
            let asked = match four_property(c.properties, PropertyId::SessionExpiryInterval) {
                Some(n) => n,
                None => 0u32,
            };
            four_property(
                r->Ok_0.connack.properties,
                PropertyId::SessionExpiryInterval,
            ) == (if lasts == asked {
                None
            } else {
                Some(lasts)
            })
        }),
{
    let who = b.admitted(c, identity, verified)->Ok_0;
    lemma_accepted(b, c, identity, verified, now);
    lemma_served(b, c, who, now);
    reveal(crate::broker::connect::capabilities);
}

/// The CONNACK of an accepted client says what the server is configured to
/// support, and gives the client identifier exactly where it was assigned.
pub proof fn connack_tells_what_is_supported(
    b: BrokerView,
    c: ConnectView,
    identity: Option<Seq<char>>,
    verified: bool,
    now: u64,
)
    requires
        b.on_connect(c, identity, verified, now).1 is Ok,
    ensures
        ({
            let a = b.on_connect(c, identity, verified, now).1->Ok_0;
            let p = a.connack.properties;
            &&& a.connack.reason_code == ReasonCode::Success
            &&& two_property(p, PropertyId::ReceiveMaximum) == Some(b.config.receive_maximum)
            &&& byte_property(p, PropertyId::MaximumQoS) == (if b.config.maximum_qos.code() == 2 {
                None
            } else {
                Some(b.config.maximum_qos.code())
            })
            &&& byte_property(p, PropertyId::RetainAvailable) == Some(
                if b.config.retain_available {
                    1u8
                } else {
                    0u8
                },
            )
            &&& four_property(p, PropertyId::MaximumPacketSize) == Some(b.config.max_packet_size)
            &&& two_property(p, PropertyId::TopicAliasMaximum) == Some(
                b.config.topic_alias_maximum,
            )
            &&& byte_property(p, PropertyId::WildcardSubscriptionAvailable) == Some(1u8)
            &&& byte_property(p, PropertyId::SubscriptionIdentifierAvailable) == Some(1u8)
            &&& byte_property(p, PropertyId::SharedSubscriptionAvailable) == Some(1u8)
            &&& text_property(p, PropertyId::AssignedClientIdentifier) == (if c.client_id.len()
                == 0 {
                Some(a.client_id)
            } else {
                None
            })
            &&& two_property(p, PropertyId::ServerKeepAlive) == b.config.server_keep_alive
            &&& p.user_properties.len() == 0
            &&& p.subscription_identifiers.len() == 0
            &&& c.client_id.len() > 0 ==> a.client_id == c.client_id
            &&& c.client_id.len() == 0 ==> a.client_id.len() > 0
        }),
{
    reveal(crate::broker::connect::capabilities);
    reveal_strlit("auto-");
}

/// The keep alive of a connection is the client's own, but for a client of
/// protocol level 5 where the server has one.
pub proof fn keep_alive_is_the_clients_or_the_servers(
    b: BrokerView,
    c: ConnectView,
    identity: Option<Seq<char>>,
    verified: bool,
    now: u64,
)
    requires
        b.on_connect(c, identity, verified, now).1 is Ok,
    ensures
        ({
            let k = b.on_connect(c, identity, verified, now).1->Ok_0.keep_alive;
            &&& c.protocol_version != 5 || b.config.server_keep_alive is None ==> k == c.keep_alive
            &&& c.protocol_version == 5 ==> (b.config.server_keep_alive matches Some(own) ==> k
                == own)
        }),
{
}

/// Session present is told exactly where a client without a clean start comes
/// back to a session. What it subscribed to and what it published and did not
/// release is there again; a client that comes to no session, or with a clean
/// start, begins with nothing.
pub proof fn session_is_present_when_it_is_resumed(
    b: BrokerView,
    c: ConnectView,
    identity: Option<Seq<char>>,
    verified: bool,
    now: u64,
)
    requires
        b.wf(),
        b.on_connect(c, identity, verified, now).1 is Ok,
    ensures
        ({
            let (t, r) = b.on_connect(c, identity, verified, now);
            let id = r->Ok_0.client_id;
            let s = t.session(id)->0;
            &&& r->Ok_0.connack.session_present <==> b.session(id) is Some && !c.clean_start
            &&& t.session(id) is Some
            &&& r->Ok_0.connack.session_present ==> s.subscriptions == (b.session(
                id,
            )->0).subscriptions && s.inbound_qos2 == (b.session(id)->0).inbound_qos2
            &&& !r->Ok_0.connack.session_present ==> s.subscriptions.len() == 0 && s.queue.len()
                == 0 && s.awaiting_puback.len() == 0 && s.awaiting_pubrec.len() == 0
                && s.awaiting_pubcomp.len() == 0 && s.inbound_qos2.len() == 0 && s.out == Some(
                Seq::<OutgoingView>::empty(),
            )
            &&& s.inbound_aliases.len() == 0
            &&& s.epoch == r->Ok_0.epoch
            &&& s.identity == r->Ok_0.identity
            &&& forall|other: Seq<char>|
                other != id ==> #[trigger] t.session(other) == b.session(other)
        }),
{
    let who = b.admitted(c, identity, verified)->Ok_0;
    lemma_accepted(b, c, identity, verified, now);
    lemma_served(b, c, who, now);
}

/// A client that comes back is first sent again what it has not acknowledged, as
/// duplicates, and PUBREL for what waits for PUBCOMP, each under the packet
/// identifier that it had; the deliveries still wait.
pub proof fn unacknowledged_deliveries_are_sent_again(
    b: BrokerView,
    c: ConnectView,
    identity: Option<Seq<char>>,
    verified: bool,
    now: u64,
    i: int,
)
    requires
        b.wf(),
        b.on_connect(c, identity, verified, now).1 is Ok,
        b.session(b.connect_id(c, now)) matches Some(s) && 0 <= i < s.awaiting_puback.len()
            + s.awaiting_pubrec.len() + s.awaiting_pubcomp.len(),
        !c.clean_start,
    ensures
        ({
            let (t, r) = b.on_connect(c, identity, verified, now);
            let id = r->Ok_0.client_id;
            let old = b.session(id)->0;
            let s = t.session(id)->0;
            let one = old.awaiting_puback.len() as int;
            let two = one + old.awaiting_pubrec.len();
            &&& s.out is Some
            &&& s.out->0.len() >= two + old.awaiting_pubcomp.len()
            &&& i < one ==> sent_again(s.out->0[i], old.awaiting_puback[i].1)
            &&& one <= i < two ==> sent_again(s.out->0[i], old.awaiting_pubrec[i - one].1)
            &&& two <= i ==> is_pubrel(s.out->0[i], old.awaiting_pubcomp[i - two])
            &&& s.awaiting_pubcomp == old.awaiting_pubcomp
        }),
{
    let (t, r) = b.on_connect(c, identity, verified, now);
    let who = b.admitted(c, identity, verified)->Ok_0;
    let id = r->Ok_0.client_id;
    lemma_accepted(b, c, identity, verified, now);
    let old = b.session(id)->0;
    let expiry = crate::broker::connect::granted_expiry(b.config, c);
    let persistent = expiry > 0 && c.client_id.len() > 0;
    let u = old.bound(c, who, b.next_epoch, expiry, persistent, now);
    let v = SessionView { out: Some(u.out->0 + u.redeliveries()), ..u };
    lemma_flush_keeps_limits(v, now);
    assert(v.out->0 =~= u.redeliveries());
    assert(v.out->0[i] == (v.flushed(now).out->0)[i]);
}

/// Whether an item is a PUBLISH sent again: the same but for the mark of a
/// duplicate.
pub open spec fn sent_again(item: OutgoingView, p: crate::packet::PublishView) -> bool {
    item matches OutgoingView::Send(x) && x.dup && x == (crate::packet::PublishView {
        dup: true,
        ..p
    })
}

/// Whether an item is PUBREL of a packet identifier, without an error.
pub open spec fn is_pubrel(item: OutgoingView, id: u16) -> bool {
    item matches OutgoingView::Control(crate::packet::PacketView::Pubrel(a)) && a.packet_id == id
        && a.reason_code == ReasonCode::Success
}

/// The will of a session is that of the CONNECT that it serves, whole, with its
/// delay (0 where it gives none); without one there is none.
pub proof fn will_is_that_of_the_connect(
    b: BrokerView,
    c: ConnectView,
    identity: Option<Seq<char>>,
    verified: bool,
    now: u64,
)
    requires
        b.wf(),
        b.on_connect(c, identity, verified, now).1 is Ok,
    ensures
        ({
            let (t, r) = b.on_connect(c, identity, verified, now);
            let s = t.session(r->Ok_0.client_id)->0;
            &&& c.will is Some <==> s.will is Some
            &&& c.will is Some ==> {
                let w = c.will->0;
                let (m, delay) = s.will->0;
                &&& m.topic == w.topic
                &&& m.payload == w.payload
                &&& m.qos == w.qos
                &&& m.retain == w.retain
                &&& m.user_properties == w.properties.user_properties
                &&& m.content_type == text_property(w.properties, PropertyId::ContentType)
                &&& m.response_topic == text_property(w.properties, PropertyId::ResponseTopic)
                &&& delay == (match four_property(w.properties, PropertyId::WillDelayInterval) {
                    Some(d) => d,
                    None => 0u32,
                })
                &&& b.acl.may_publish(
                    match r->Ok_0.identity {
                        Some(who) => who,
                        None => "anonymous"@,
                    },
                    w.topic,
                )
            }
        }),
{
    let who = b.admitted(c, identity, verified)->Ok_0;
    lemma_accepted(b, c, identity, verified, now);
    lemma_served(b, c, who, now);
}

/// A client takes as many deliveries at a time as its CONNECT says, or 65535
/// where it says nothing.
pub proof fn client_limits_are_those_of_the_connect(
    b: BrokerView,
    c: ConnectView,
    identity: Option<Seq<char>>,
    verified: bool,
    now: u64,
)
    requires
        b.wf(),
        b.on_connect(c, identity, verified, now).1 is Ok,
    ensures
        ({
            let (t, r) = b.on_connect(c, identity, verified, now);
            let s = t.session(r->Ok_0.client_id)->0;
            &&& two_property(c.properties, PropertyId::ReceiveMaximum) is None
                ==> s.client_receive_maximum == 65535
            &&& two_property(c.properties, PropertyId::ReceiveMaximum) matches Some(n)
                ==> s.client_receive_maximum == n
            &&& s.client_max_packet_size == four_property(
                c.properties,
                PropertyId::MaximumPacketSize,
            )
        }),
{
    let who = b.admitted(c, identity, verified)->Ok_0;
    lemma_accepted(b, c, identity, verified, now);
    lemma_served(b, c, who, now);
}

/// A client whose protocol is one of those supported, that needs no credentials
/// and has neither a will nor a reserved identifier is let in, under the
/// identity of its connection.
pub proof fn plain_client_is_let_in(
    b: BrokerView,
    c: ConnectView,
    identity: Option<Seq<char>>,
    verified: bool,
    now: u64,
)
    requires
        b.auth is None,
        c.protocol_name == "MQTT"@,
        c.protocol_version == 4 || c.protocol_version == 5,
        c.will is None,
        c.client_id.len() == 0 || c.client_id[0] != '$',
    ensures
        b.on_connect(c, identity, verified, now).1 matches Ok(a) && a.identity == identity,
{
    reveal_strlit("$bridge/");
    reveal_strlit("$SYS/");
    if c.client_id.len() > 0 && is_reserved(c.client_id) {
        if crate::text::has_prefix(c.client_id, "$bridge/"@) {
            assert(c.client_id.take(8)[0] == c.client_id[0]);
        } else {
            assert(c.client_id.take(5)[0] == c.client_id[0]);
        }
        assert(false);
    }
}

/// A client with a username and password that the credentials accept comes in
/// under that username; one whose password they do not accept, or that gives
/// none, does not come in.
pub proof fn username_needs_its_password(
    b: BrokerView,
    c: ConnectView,
    identity: Option<Seq<char>>,
    verified: bool,
    now: u64,
)
    requires
        b.auth is Some,
        c.username is Some,
    ensures
        b.on_connect(c, identity, verified, now).1 is Ok ==> verified && c.password is Some,
        b.on_connect(c, identity, verified, now).1 matches Ok(a) ==> a.identity == c.username,
        (!verified || c.password is None) && c.version() is Some ==> b.on_connect(
            c,
            identity,
            verified,
            now,
        ).1 == Err::<crate::broker::AcceptedView, ConnackView>(
            ConnackView {
                session_present: false,
                reason_code: ReasonCode::BadUserNameOrPassword,
                properties: crate::codec::PropertiesView::empty(),
            },
        ),
{
}

/// A client that takes a session over leaves the old connection what was on its
/// way to it, and the word that the session was taken over, last; one that does
/// not displaces nobody.
pub proof fn displaced_connection_keeps_what_was_on_its_way(
    b: BrokerView,
    c: ConnectView,
    identity: Option<Seq<char>>,
    verified: bool,
    now: u64,
)
    requires
        b.on_connect(c, identity, verified, now).1 is Ok,
    ensures
        ({
            let (t, r) = b.on_connect(c, identity, verified, now);
            match b.session(r->Ok_0.client_id) {
                Some(old) => match old.out {
                    Some(items) => t.closing == b.closing.push(
                        crate::broker::ClosingView {
                            epoch: old.epoch,
                            items: items.push(OutgoingView::Shutdown(ReasonCode::SessionTakenOver)),
                        },
                    ),
                    None => t.closing == b.closing,
                },
                None => t.closing == b.closing,
            }
        }),
{
}

proof fn lemma_online_count(s: Seq<SessionView>, i: int, x: SessionView)
    requires
        0 <= i < s.len(),
        x.online(),
    ensures
        crate::broker::connect::online_count(s.update(i, x)) == crate::broker::connect::online_count(
            s,
        ) + (if s[i].online() {
            0nat
        } else {
            1nat
        }),
    decreases s.len(),
{
    let u = s.update(i, x);
    if i < s.len() - 1 {
        assert(u.drop_last() =~= s.drop_last().update(i, x));
        lemma_online_count(s.drop_last(), i, x);
    } else {
        assert(u.drop_last() =~= s.drop_last());
    }
}

proof fn lemma_online_bound(s: Seq<SessionView>)
    ensures
        crate::broker::connect::online_count(s) <= s.len(),
    decreases s.len(),
{
    if s.len() > 0 {
        lemma_online_bound(s.drop_last());
    }
}

/// An accepted client counts as one more connection, and the highest number of
/// clients at a time is raised to how many there are now where that is more.
/// Each connection has a number of its own.
pub proof fn accepted_connections_are_counted(
    b: BrokerView,
    c: ConnectView,
    identity: Option<Seq<char>>,
    verified: bool,
    now: u64,
)
    requires
        b.wf(),
        b.on_connect(c, identity, verified, now).1 is Ok,
        b.next_epoch < u64::MAX,
        b.metrics.connections_total < u64::MAX,
        b.sessions.len() < u64::MAX,
    ensures
        ({
            let (t, r) = b.on_connect(c, identity, verified, now);
            let before = crate::broker::connect::online_count(b.sessions);
            let id = r->Ok_0.client_id;
            let there = b.session(id) matches Some(s) && s.out is Some;
            let count = before + (if there {
                0nat
            } else {
                1nat
            });
            &&& t.metrics.connections_total == b.metrics.connections_total + 1
            &&& t.metrics.clients_maximum >= b.metrics.clients_maximum
            &&& t.metrics.clients_maximum >= count
            &&& t.metrics.clients_maximum == b.metrics.clients_maximum || t.metrics.clients_maximum
                == count
            &&& r->Ok_0.epoch == b.next_epoch
            &&& t.next_epoch == b.next_epoch + 1
            &&& c.client_id.len() == 0 ==> t.auto_id_counter == b.auto_id_counter + 1
            &&& c.client_id.len() > 0 ==> t.auto_id_counter == b.auto_id_counter
        }),
{
    let (t, r) = b.on_connect(c, identity, verified, now);
    let who = b.admitted(c, identity, verified)->Ok_0;
    let id = r->Ok_0.client_id;
    lemma_served(b, c, who, now);
    lemma_session(b, id);
    let s = b.connect_session(c, who, now);
    let i = crate::broker::routing::place(b.sessions, id);
    lemma_online_bound(t.sessions);
    if i < b.sessions.len() {
        lemma_online_count(b.sessions, i, s);
        assert(t.sessions == b.sessions.update(i, s));
    } else {
        assert(t.sessions == b.sessions.push(s));
        assert(b.sessions.push(s).drop_last() =~= b.sessions);
    }
}

/// A client that is refused is told why: that its protocol is not supported,
/// where its name goes with its level, or an error of the protocol otherwise;
/// that its credentials are wrong; that it may not connect without them, or may
/// not publish its will; or that its identifier is not for clients. In that
/// order the first counts.
pub proof fn refusals_say_why(
    b: BrokerView,
    c: ConnectView,
    identity: Option<Seq<char>>,
    verified: bool,
    now: u64,
)
    requires
        b.on_connect(c, identity, verified, now).1 is Err,
    ensures
        ({
            let reason = (b.on_connect(c, identity, verified, now).1->Err_0).reason_code;
            let named = c.protocol_name == (if c.protocol_version == 3 {
                "MQIsdp"@
            } else {
                "MQTT"@
            });
            let level = c.protocol_version == 3 || c.protocol_version == 4 || c.protocol_version
                == 5;
            let wrong = b.auth is Some && c.username is Some && !(verified && c.password is Some);
            let nobody = b.auth is Some && c.username is None && !b.config.allow_anonymous;
            &&& !(b.on_connect(c, identity, verified, now).1->Err_0).session_present
            &&& !named ==> reason == ReasonCode::ProtocolError
            &&& named && !level ==> reason == ReasonCode::UnsupportedProtocolVersion
            &&& named && level && wrong ==> reason == ReasonCode::BadUserNameOrPassword
            &&& named && level && nobody ==> reason == ReasonCode::NotAuthorized
            &&& named && level && !wrong && !nobody ==> reason == ReasonCode::NotAuthorized
                && c.will is Some || reason == ReasonCode::ClientIdentifierNotValid && is_reserved(
                c.client_id,
            )
        }),
{
    crate::types::protocol_levels(ProtocolVersion::V5, c.protocol_version);
    crate::types::protocol_levels(ProtocolVersion::V3_1, c.protocol_version);
    crate::types::protocol_levels(ProtocolVersion::V3_1_1, c.protocol_version);
}

/// A client is verified exactly where there are credentials, it gives a username
/// and a password, and the credentials accept them.
pub proof fn verified_by_the_credentials(b: BrokerView, c: ConnectView)
    ensures
        b.verifies(c) <==> b.auth is Some && c.username is Some && c.password is Some
            && crate::auth::accepts(b.auth->0, c.username->0, c.password->0),
{
}

/// A client that comes back has its deliveries, its queue and its packet
/// identifiers as they were, and goes on from there: after what is sent again,
/// the queue goes out as far as there is room. The result is the session before
/// that.
pub proof fn resumed_session_goes_on_with_its_queue(
    b: BrokerView,
    c: ConnectView,
    identity: Option<Seq<char>>,
    verified: bool,
    now: u64,
) -> (v: SessionView)
    requires
        b.wf(),
        b.on_connect(c, identity, verified, now).1 is Ok,
        !c.clean_start,
        b.session(b.connect_id(c, now)) is Some,
    ensures
        ({
            let (t, r) = b.on_connect(c, identity, verified, now);
            let id = r->Ok_0.client_id;
            let old = b.session(id)->0;
            &&& b.session(id) is Some
            &&& t.session(id) == Some(v.flushed(now))
            &&& v.queue == old.queue
            &&& v.awaiting_puback == old.awaiting_puback
            &&& v.awaiting_pubrec == old.awaiting_pubrec
            &&& v.awaiting_pubcomp == old.awaiting_pubcomp
            &&& v.next_packet_id == old.next_packet_id
            &&& v.subscriptions == old.subscriptions
            &&& v.inbound_qos2 == old.inbound_qos2
            &&& v.out is Some
            &&& v.out->0.len() == old.awaiting_puback.len() + old.awaiting_pubrec.len()
                + old.awaiting_pubcomp.len()
        }),
{
    let (t, r) = b.on_connect(c, identity, verified, now);
    let who = b.admitted(c, identity, verified)->Ok_0;
    let id = r->Ok_0.client_id;
    lemma_accepted(b, c, identity, verified, now);
    let old = b.session(id)->0;
    let expiry = crate::broker::connect::granted_expiry(b.config, c);
    let persistent = expiry > 0 && c.client_id.len() > 0;
    let u = old.bound(c, who, b.next_epoch, expiry, persistent, now);
    SessionView { out: Some(u.out->0 + u.redeliveries()), ..u }
}

} // verus!
