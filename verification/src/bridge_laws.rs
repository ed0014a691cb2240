//! Laws of bridges: which messages go to the remote broker and how, which come
//! from it, and what it is answered.

use vstd::prelude::*;
use crate::bridge::{
    first_qos, in_filters, BridgeConfigView, BridgeLinkView, BridgeTopicView, Direction,
    LinkActionView,
};
use crate::broker::ack_laws::plain_ack;
use crate::broker::delivery_laws::goes_up;
use crate::broker::routing;
use crate::broker::routing::{chosen, groups_of, offer};
use crate::broker::routing_laws::{routing_serves_each_session, served};
use crate::broker::session::OutgoingView;
use crate::broker::BrokerView;
use crate::codec::PropertiesView;
use crate::message::MessageView;
use crate::packet::{PacketView, PublishView, RetainHandling, TopicFilterView};
use crate::text;
use crate::topic;
use crate::types::{QoS, ReasonCode};

verus! {

/// Whether a mapping forwards a topic to the remote broker.
pub open spec fn forwards(t: BridgeTopicView, topic: Seq<char>) -> bool {
    (t.direction == Direction::Out || t.direction == Direction::Both) && topic::is_match(
        t.pattern,
        topic,
    )
}

/// Whether a QoS is that of the first mapping that forwards a topic; 0 where
/// none does.
pub open spec fn is_forwarding_qos(
    qos: QoS,
    topics: Seq<BridgeTopicView>,
    topic: Seq<char>,
) -> bool {
    ||| exists|k: int|
        0 <= k < topics.len() && forwards(#[trigger] topics[k], topic) && qos == topics[k].qos
            && forall|j: int| 0 <= j < k ==> !forwards(#[trigger] topics[j], topic)
    ||| qos.code() == 0 && forall|j: int|
        0 <= j < topics.len() ==> !forwards(#[trigger] topics[j], topic)
}

proof fn lemma_first_qos(topics: Seq<BridgeTopicView>, topic: Seq<char>)
    ensures
        is_forwarding_qos(first_qos(topics, topic), topics, topic),
    decreases topics.len(),
{
    if topics.len() > 0 {
        if forwards(topics[0], topic) {
            assert(forall|j: int| 0 <= j < 0 ==> !forwards(#[trigger] topics[j], topic));
        } else {
            let rest = topics.skip(1);
            let q = first_qos(rest, topic);
            lemma_first_qos(rest, topic);
            if exists|k: int|
                0 <= k < rest.len() && forwards(#[trigger] rest[k], topic) && q == rest[k].qos
                    && forall|j: int| 0 <= j < k ==> !forwards(#[trigger] rest[j], topic) {
                let k = choose|k: int|
                    0 <= k < rest.len() && forwards(#[trigger] rest[k], topic) && q == rest[k].qos
                        && forall|j: int| 0 <= j < k ==> !forwards(#[trigger] rest[j], topic);
                assert(topics[k + 1] == rest[k]);
                assert forall|j: int| 0 <= j < k + 1 implies !forwards(
                    #[trigger] topics[j],
                    topic,
                ) by {
                    if j > 0 {
                        assert(rest[j - 1] == topics[j]);
                    }
                }
            } else {
                assert forall|j: int| 0 <= j < topics.len() implies !forwards(
                    #[trigger] topics[j],
                    topic,
                ) by {
                    if j > 0 {
                        assert(rest[j - 1] == topics[j]);
                    }
                }
            }
        }
    }
}

/// A message for the remote broker is forwarded as it is, at the QoS of the
/// first mapping that forwards its topic, and not as a duplicate. Above QoS 0 it
/// has the next packet identifier, and the one after that is another.
pub proof fn message_is_forwarded_whole(
    link: BridgeLinkView,
    cfg: BridgeConfigView,
    p: PublishView,
) -> (q: PublishView)
    ensures
        ({
            let (after, action) = link.on_outgoing(cfg, OutgoingView::Send(p));
            &&& action == LinkActionView::Send(PacketView::Publish(q))
            &&& q.topic == p.topic
            &&& q.payload == p.payload
            &&& q.retain == p.retain
            &&& q.properties == p.properties
            &&& !q.dup
            &&& is_forwarding_qos(q.qos, cfg.topics, p.topic)
            &&& q.qos.code() == 0 ==> q.packet_id is None && after == link
            &&& q.qos.code() > 0 ==> q.packet_id == Some(link.next_id) && after.next_id
                != link.next_id && after.next_id != 0
            &&& after.inbound_qos2 == link.inbound_qos2
        }),
{
    lemma_first_qos(cfg.topics, p.topic);
    let qos = first_qos(cfg.topics, p.topic);
    PublishView {
        dup: false,
        qos,
        packet_id: if qos.code() == 0 {
            None
        } else {
            Some(link.next_id)
        },
        ..p
    }
}

/// Control packets are not for the remote broker; a bridge that is sent away
/// closes its connection.
pub proof fn only_messages_are_forwarded(
    link: BridgeLinkView,
    cfg: BridgeConfigView,
    item: OutgoingView,
)
    requires
        !(item is Send),
    ensures
        item is Control ==> link.on_outgoing(cfg, item) == (link, LinkActionView::Wait),
        item is Shutdown ==> link.on_outgoing(cfg, item) == (link, LinkActionView::Close),
{
}

/// A bridge acknowledges what the remote broker publishes, as its QoS asks:
/// nothing, PUBACK or PUBREC, with its packet identifier. A QoS 2 publication is
/// remembered until PUBREL.
pub proof fn remote_publication_is_acknowledged(link: BridgeLinkView, p: PublishView)
    ensures
        ({
            let (after, action) = link.on_packet(PacketView::Publish(p));
            let id = match p.packet_id {
                Some(id) => id,
                None => 0u16,
            };
            &&& p.qos.code() == 0 ==> action == LinkActionView::Wait && after == link
            &&& p.qos.code() == 1 ==> action == LinkActionView::Send(
                PacketView::Puback(plain_ack(id, ReasonCode::Success)),
            ) && after == link
            &&& p.qos.code() == 2 ==> action == LinkActionView::Send(
                PacketView::Pubrec(plain_ack(id, ReasonCode::Success)),
            ) && after.inbound_qos2.contains(id)
            &&& forall|x: u16|
                x != id ==> (#[trigger] after.inbound_qos2.contains(x)
                    <==> link.inbound_qos2.contains(x))
            &&& after.next_id == link.next_id
        }),
{
    assert(PropertiesView::empty().single =~= Map::empty());
    let (after, action) = link.on_packet(PacketView::Publish(p));
    let id = match p.packet_id {
        Some(id) => id,
        None => 0u16,
    };
    if after.inbound_qos2 != link.inbound_qos2 {
        let s = link.inbound_qos2;
        let t = after.inbound_qos2;
        assert(t[s.len() as int] == id);
        assert forall|x: u16| x != id implies (#[trigger] t.contains(x) <==> s.contains(x)) by {
            if s.contains(x) {
                let k = choose|k: int| 0 <= k < s.len() && s[k] == x;
                assert(t[k] == x);
            }
            if t.contains(x) {
                let k = choose|k: int| 0 <= k < t.len() && t[k] == x;
                assert(s[k] == x);
            }
        }
    }
}

/// A bridge takes the handshakes of QoS 2 on: PUBREC is answered with PUBREL, and
/// PUBREL with PUBCOMP. A DISCONNECT ends the connection, and anything else is
/// only received.
pub proof fn handshakes_are_taken_on(link: BridgeLinkView, p: PacketView)
    ensures
        p matches PacketView::Pubrec(a) ==> link.on_packet(p) == (
            link,
            LinkActionView::Send(PacketView::Pubrel(plain_ack(a.packet_id, ReasonCode::Success))),
        ),
        p matches PacketView::Pubrel(a) ==> link.on_packet(p).1 == LinkActionView::Send(
            PacketView::Pubcomp(plain_ack(a.packet_id, ReasonCode::Success)),
        ) && link.on_packet(p).0.next_id == link.next_id && link.on_packet(
            p,
        ).0.inbound_qos2.len() + (if link.inbound_qos2.contains(a.packet_id) {
            1int
        } else {
            0int
        }) == link.inbound_qos2.len(),
        p is Disconnect ==> link.on_packet(p) == (link, LinkActionView::Close),
        !(p is Publish || p is Pubrec || p is Pubrel || p is Disconnect) ==> link.on_packet(p) == (
            link,
            LinkActionView::Wait,
        ),
{
    assert(PropertiesView::empty().single =~= Map::empty());
    if let PacketView::Pubrel(a) = p {
        text::lemma_first_place_is(link.inbound_qos2, a.packet_id);
    }
}

/// What the remote broker publishes and the bridge has not seen is published
/// here for the bridge: every session gets it as routing says, the bridge's own
/// subscriptions without their own messages aside; it is retained where it says
/// so; and it counts as forwarded. What was seen changes nothing.
pub proof fn remote_publication_is_published_here(
    b: BrokerView,
    link: BridgeLinkView,
    from: Seq<char>,
    p: PublishView,
    now: u64,
    i: int,
)
    requires
        b.wf(),
        0 <= i < b.sessions.len(),
        !(MessageView::of_publish(p, now).expires_at matches Some(end) && end <= now),
    ensures
        ({
            let m = MessageView::of_publish(p, now);
            let t = b.on_remote(link, from, PacketView::Publish(p), now);
            let seen = p.qos.code() == 2 && link.inbound_qos2.contains(
                match p.packet_id {
                    Some(id) => id,
                    None => 0u16,
                },
            );
            let s = b.sessions[i];
            let o = offer(s.subscriptions, s.client_id, Some(from), m);
            let max = b.config.max_queued_messages as nat;
            let first = match o.qos {
                Some(qos) => s.delivered(m, qos, o.retain && m.retain, o.ids, max, now),
                None => s,
            };
            let groups = groups_of(b.sessions, Some(from), m);
            &&& seen ==> t == b
            &&& !seen ==> t.sessions.len() == b.sessions.len() && t.sessions[i] == served(
                first,
                chosen(b.turns, groups),
                m,
                max,
                now,
            ) && t.turns == routing::turned(b.turns, groups) && t.retained == b.keeping(m).retained
                && t.storage == b.keeping(m).storage && (b.metrics.bridge_forwarded_in < u64::MAX
                ==> t.metrics.bridge_forwarded_in == b.metrics.bridge_forwarded_in + 1)
        }),
{
    let m = MessageView::of_publish(p, now);
    assert(b.keeping(m).sessions == b.sessions);
    routing_serves_each_session(
        b.sessions,
        b.turns,
        Some(from),
        m,
        b.config.max_queued_messages as nat,
        now,
        i,
    );
}

/// Whether a filter asks the remote broker for the topics of a mapping.
pub open spec fn asks_for(f: TopicFilterView, t: BridgeTopicView) -> bool {
    &&& t.direction == Direction::In || t.direction == Direction::Both
    &&& f.filter == t.pattern
    &&& f.qos == t.qos
    &&& !f.no_local
    &&& !f.retain_as_published
    &&& f.retain_handling == RetainHandling::SendAtSubscribe
}

/// A bridge subscribes at the remote broker to the patterns of exactly the
/// mappings that forward from it, each once and in order, at the QoS of the
/// mapping. The result names them.
pub proof fn bridge_subscribes_to_what_comes_in(topics: Seq<BridgeTopicView>) -> (ks: Seq<int>)
    ensures
        in_filters(topics).len() == ks.len(),
        goes_up(ks, topics.len() as int),
        forall|i: int|
            0 <= i < ks.len() ==> asks_for(#[trigger] in_filters(topics)[i], topics[ks[i]]),
        forall|k: int|
            0 <= k < topics.len() && (#[trigger] topics[k]).direction != Direction::Out
                ==> ks.contains(k),
    decreases topics.len(),
{
    if topics.len() == 0 {
        Seq::empty()
    } else {
        let d = topics.drop_last();
        let js = bridge_subscribes_to_what_comes_in(d);
        let before = in_filters(d);
        let all = in_filters(topics);
        let last = topics.len() - 1;
        let ks = if topics.last().direction != Direction::Out {
            js.push(last)
        } else {
            js
        };
        assert(goes_up(ks, topics.len() as int)) by {
            assert forall|i: int, j: int| 0 <= i < j < ks.len() implies #[trigger] ks[i]
                < #[trigger] ks[j] by {
                if j < js.len() {
                    assert(js[i] < js[j]);
                } else {
                    assert(js[i] < d.len());
                }
            }
        }
        assert forall|i: int| 0 <= i < ks.len() implies asks_for(
            #[trigger] all[i],
            topics[ks[i]],
        ) by {
            if i < js.len() {
                assert(all[i] == before[i]);
                assert(0 <= js[i] < d.len());
                assert(d[js[i]] == topics[ks[i]]);
            }
        }
        assert forall|k: int|
            0 <= k < topics.len() && (#[trigger] topics[k]).direction
                != Direction::Out implies ks.contains(k) by {
            if k < last {
                assert(d[k] == topics[k]);
                assert(js.contains(k));
                let i = choose|i: int| 0 <= i < js.len() && js[i] == k;
                assert(ks[i] == k);
            } else {
                assert(ks[js.len() as int] == k);
            }
        }
        ks
    }
}

/// A bridge connects with a clean start, under its own identifier and with its
/// credentials, without a will, and with its keep alive.
pub proof fn bridge_connects_as_configured(cfg: BridgeConfigView)
    ensures
        ({
            let c = cfg.connect();
            &&& c.clean_start
            &&& c.will is None
            &&& c.client_id == cfg.client_id
            &&& c.username == cfg.username
            &&& c.password is Some <==> cfg.password is Some
            &&& c.password matches Some(p) ==> p == vstd::utf8::encode_utf8(cfg.password->0)
            &&& c.keep_alive == cfg.keepalive
            &&& c.protocol_version == cfg.protocol_version.code()
        }),
{
}

/// The delay before another attempt doubles while attempts fail, up to the
/// longest, and is the shortest again after a connection that was served.
pub proof fn delays_double_until_served(delay: u64)
    requires
        1 <= delay <= 60,
    ensures
        crate::bridge::retry_after(delay, true) == 1,
        2 * delay <= 60 ==> crate::bridge::retry_after(delay, false) == 2 * delay,
        2 * delay > 60 ==> crate::bridge::retry_after(delay, false) == 60,
{
}

} // verus!
