//! Laws of PUBLISH: which publications are refused and why, what the publisher
//! is answered, and what becomes of the message.

use vstd::prelude::*;
use crate::broker::ack_laws::{lemma_differs, plain_ack};
use crate::broker::acks;
use crate::broker::routing;
use crate::broker::routing::{
    chosen, groups_of, ids, offer, place, sessions_wf,
};
use crate::broker::routing_laws::{
    is_place, message_reaches_whoever_takes_it, routing_serves_each_session, served,
    somebody_takes, takes,
};
use crate::broker::session;
use crate::broker::session::{OutgoingView, SessionView};
use crate::broker::{
    lemma_session, lemma_with, retained_topics, Action, BrokerView, RetainedView,
};
use crate::codec::PropertiesView;
use crate::message::{
    byte_property, data_property, four_property, text_property, two_property, MessageView,
};
use crate::packet::{PacketView, PublishView};
use crate::storage::CommandView;
use crate::text;
use crate::text::has_prefix;
use crate::topic;
use crate::types::{PropertyId, QoS, ReasonCode};

verus! {

/// A message says what its PUBLISH says, and expires when the interval that the
/// PUBLISH gives has passed.
pub proof fn message_is_that_of_its_publish(p: PublishView, now: u64)
    ensures
        ({
            let m = MessageView::of_publish(p, now);
            &&& m.topic == p.topic
            &&& m.payload == p.payload
            &&& m.qos == p.qos
            &&& m.retain == p.retain
            &&& m.user_properties == p.properties.user_properties
            &&& m.payload_format_indicator == byte_property(
                p.properties,
                PropertyId::PayloadFormatIndicator,
            )
            &&& m.content_type == text_property(p.properties, PropertyId::ContentType)
            &&& m.response_topic == text_property(p.properties, PropertyId::ResponseTopic)
            &&& m.correlation_data == data_property(p.properties, PropertyId::CorrelationData)
            &&& m.expires_at is Some <==> four_property(
                p.properties,
                PropertyId::MessageExpiryInterval,
            ) is Some
            &&& four_property(p.properties, PropertyId::MessageExpiryInterval) matches Some(secs)
                ==> (now + secs <= u64::MAX ==> m.expires_at == Some((now + secs) as u64))
        }),
{
}

/// Whether a broker has counted one more publication and is otherwise as it was.
pub open spec fn only_counted(t: BrokerView, b: BrokerView) -> bool {
    &&& t == (BrokerView { metrics: t.metrics, ..b })
    &&& t.metrics == (crate::metrics::Metrics {
        publish_received: t.metrics.publish_received,
        ..b.metrics
    })
    &&& b.metrics.publish_received < u64::MAX ==> t.metrics.publish_received
        == b.metrics.publish_received + 1
}

/// A publication above the QoS that the server supports, one to be retained
/// where it does not retain, and one to a topic that is none or that is one of
/// the broker's own end the connection, each for its reason, and change
/// nothing.
pub proof fn unusable_publication_is_refused(
    b: BrokerView,
    client_id: Seq<char>,
    p: PublishView,
    now: u64,
)
    requires
        two_property(p.properties, PropertyId::TopicAlias) is None,
        p.qos.code() > b.config.maximum_qos.code() || (p.retain && !b.config.retain_available)
            || !topic::is_topic_name(p.topic) || has_prefix(p.topic, "$SYS/"@),
    ensures
        ({
            let (t, action) = b.on_packet(client_id, PacketView::Publish(p), now);
            &&& only_counted(t, b)
            &&& action == Action::ServerDisconnect(
                if p.qos.code() > b.config.maximum_qos.code() {
                    ReasonCode::QoSNotSupported
                } else if p.retain && !b.config.retain_available {
                    ReasonCode::RetainNotSupported
                } else {
                    ReasonCode::TopicNameInvalid
                },
            )
        }),
{
}

/// Whether a publication without an alias can be taken.
pub open spec fn is_usable(b: BrokerView, p: PublishView) -> bool {
    &&& two_property(p.properties, PropertyId::TopicAlias) is None
    &&& p.qos.code() <= b.config.maximum_qos.code()
    &&& p.retain ==> b.config.retain_available
    &&& topic::is_topic_name(p.topic)
    &&& !has_prefix(p.topic, "$SYS/"@)
}

/// Whether a client may publish to a topic: as who it was authenticated, or as
/// anonymous.
pub open spec fn may_publish(b: BrokerView, client_id: Seq<char>, topic: Seq<char>) -> bool {
    b.acl.may_publish(
        match b.session(client_id) {
            Some(s) => match s.identity {
                Some(who) => who,
                None => "anonymous"@,
            },
            None => "anonymous"@,
        },
        topic,
    )
}

/// Whether items end with the acknowledgement of a publication.
pub open spec fn ends_with_answer(
    out: Option<Seq<OutgoingView>>,
    p: PublishView,
    reason: ReasonCode,
) -> bool {
    let id = match p.packet_id {
        Some(id) => id,
        None => 0u16,
    };
    &&& out is Some
    &&& (out->0).len() > 0
    &&& p.qos.code() == 1 ==> (out->0).last() == OutgoingView::Control(
        PacketView::Puback(plain_ack(id, reason)),
    )
    &&& p.qos.code() == 2 ==> (out->0).last() == OutgoingView::Control(
        PacketView::Pubrec(plain_ack(id, reason)),
    )
}

proof fn lemma_same_groups(
    s: Seq<SessionView>,
    t: Seq<SessionView>,
    publisher: Option<Seq<char>>,
    m: MessageView,
)
    requires
        s.len() == t.len(),
        forall|i: int|
            0 <= i < s.len() ==> (#[trigger] s[i]).subscriptions == t[i].subscriptions
                && s[i].client_id == t[i].client_id,
    ensures
        groups_of(s, publisher, m) == groups_of(t, publisher, m),
        somebody_takes(s, publisher, m) == somebody_takes(t, publisher, m),
    decreases s.len(),
{
    if s.len() > 0 {
        let a = s.drop_last();
        let b = t.drop_last();
        assert forall|i: int| 0 <= i < a.len() implies (#[trigger] a[i]).subscriptions
            == b[i].subscriptions && a[i].client_id == b[i].client_id by {
            assert(s[i].subscriptions == t[i].subscriptions);
        }
        lemma_same_groups(a, b, publisher, m);
        assert(s[s.len() - 1].subscriptions == t[t.len() - 1].subscriptions);
    }
    if somebody_takes(s, publisher, m) {
        let (i, j) = choose|i: int, j: int|
            is_place(s, (i, j)) && takes(
                #[trigger] s[i].subscriptions[j],
                s[i].client_id,
                publisher,
                m,
            );
        assert(is_place(t, (i, j)) && takes(
            t[i].subscriptions[j],
            t[i].client_id,
            publisher,
            m,
        ));
    }
    if somebody_takes(t, publisher, m) {
        let (i, j) = choose|i: int, j: int|
            is_place(t, (i, j)) && takes(
                #[trigger] t[i].subscriptions[j],
                t[i].client_id,
                publisher,
                m,
            );
        assert(s[i].subscriptions == t[i].subscriptions);
        assert(is_place(s, (i, j)) && takes(
            s[i].subscriptions[j],
            s[i].client_id,
            publisher,
            m,
        ));
    }
}

/// A publication that the policy does not permit is answered with that reason
/// where its QoS has an answer, and changes nothing else.
pub proof fn unpermitted_publication_is_answered(
    b: BrokerView,
    client_id: Seq<char>,
    p: PublishView,
    now: u64,
)
    requires
        b.wf(),
        is_usable(b, p),
        !may_publish(b, client_id, p.topic),
        b.session(client_id) matches Some(s) && s.online(),
    ensures
        ({
            let s = b.session(client_id)->0;
            let (t, action) = b.on_packet(client_id, PacketView::Publish(p), now);
            let w = t.session(client_id)->0;
            &&& action == Action::Continue
            &&& t.session(client_id) is Some
            &&& w == (SessionView { out: w.out, ..s })
            &&& p.qos.code() == 0 ==> w.out == s.out
            &&& p.qos.code() > 0 ==> ends_with_answer(w.out, p, ReasonCode::NotAuthorized)
                && w.out->0.drop_last() == s.out->0
            &&& t.retained == b.retained
            &&& t.storage == b.storage
            &&& t.turns == b.turns
            &&& forall|other: Seq<char>|
                other != client_id ==> #[trigger] t.session(other) == b.session(other)
        }),
{
    let s = b.session(client_id)->0;
    let (t, action) = b.on_packet(client_id, PacketView::Publish(p), now);
    lemma_session(b, client_id);
    let c = BrokerView {
        metrics: crate::metrics::Metrics {
            publish_received: crate::metrics::counted(b.metrics.publish_received, 1),
            ..b.metrics
        },
        ..b
    };
    assert(c.session(client_id) == b.session(client_id));
    assert(PropertiesView::empty().single =~= Map::empty());
    if p.qos.code() > 0 {
        let item = crate::broker::publish::publish_answer(p, ReasonCode::NotAuthorized)->0;
        let v = s.sent(item);
        assert(v.wf());
        lemma_differs(c, v);
        assert(t == c.with(v));
        assert(v.out->0.drop_last() =~= s.out->0);
    }
    assert forall|other: Seq<char>| other != client_id implies #[trigger] t.session(other)
        == b.session(other) by {
        assert(c.session(other) == b.session(other));
    }
}

/// Whether a QoS 2 publication is one that is remembered: it was taken before
/// and not released since.
pub open spec fn is_repeat(s: SessionView, p: PublishView) -> bool {
    p.qos.code() == 2 && s.inbound_qos2.contains(
        match p.packet_id {
            Some(id) => id,
            None => 0u16,
        },
    )
}

/// The broker that routes a publication of a client: one that has counted and
/// kept it, and that remembers a QoS 2 publication.
spec fn ready(b: BrokerView, client_id: Seq<char>, p: PublishView, now: u64) -> BrokerView {
    let c = BrokerView {
        metrics: crate::metrics::Metrics {
            publish_received: crate::metrics::counted(b.metrics.publish_received, 1),
            ..b.metrics
        },
        ..b
    };
    let kept = c.keeping(MessageView::of_publish(p, now));
    if p.qos.code() == 2 {
        kept.with(
            (kept.session(client_id)->0).with_qos2(crate::broker::publish::publish_id(p)),
        )
    } else {
        kept
    }
}

proof fn lemma_ready(b: BrokerView, client_id: Seq<char>, p: PublishView, now: u64)
    requires
        b.wf(),
        is_usable(b, p),
        may_publish(b, client_id, p.topic),
        b.session(client_id) matches Some(s) && s.online() && !is_repeat(s, p),
    ensures
        ({
            let m = MessageView::of_publish(p, now);
            let r = ready(b, client_id, p, now);
            let (t, action) = b.on_packet(client_id, PacketView::Publish(p), now);
            &&& action == Action::Continue
            &&& t == r.routing(Some(client_id), m, now).answered(
                client_id,
                p,
                if r.reaches(Some(client_id), m, now) {
                    ReasonCode::Success
                } else {
                    ReasonCode::NoMatchingSubscribers
                },
            )
            &&& sessions_wf(r.sessions)
            &&& r.sessions.len() == b.sessions.len()
            &&& r.turns == b.turns
            &&& r.config == b.config
            &&& ids(r.sessions) == ids(b.sessions)
            &&& forall|i: int|
                0 <= i < b.sessions.len() ==> (#[trigger] r.sessions[i]) == (SessionView {
                    inbound_qos2: r.sessions[i].inbound_qos2,
                    ..b.sessions[i]
                })
            &&& forall|i: int|
                0 <= i < b.sessions.len() && b.sessions[i].client_id != client_id ==> (
                #[trigger] r.sessions[i]) == b.sessions[i]
            &&& p.qos.code() == 2 ==> r.sessions[place(
                b.sessions,
                client_id,
            )].inbound_qos2.contains(crate::broker::publish::publish_id(p))
            &&& p.qos.code() != 2 ==> r.sessions == b.sessions
        }),
{
    let s = b.session(client_id)->0;
    lemma_session(b, client_id);
    let c = BrokerView {
        metrics: crate::metrics::Metrics {
            publish_received: crate::metrics::counted(b.metrics.publish_received, 1),
            ..b.metrics
        },
        ..b
    };
    assert(c.session(client_id) == b.session(client_id));
    let m = MessageView::of_publish(p, now);
    let kept = c.keeping(m);
    assert(kept.sessions == b.sessions);
    assert(kept.session(client_id) == b.session(client_id));
    let i = place(b.sessions, client_id);
    let x = s.with_qos2(crate::broker::publish::publish_id(p));
    acks::released_publication_is_forgotten(s, crate::broker::publish::publish_id(p));
    routing::lemma_sessions_update(b.sessions, i, x);
    assert(PublishView { topic: p.topic, ..p } == p);
    assert(b.sessions[i].client_id == client_id);
}

proof fn lemma_answered(b: BrokerView, client_id: Seq<char>, p: PublishView, reason: ReasonCode)
    requires
        sessions_wf(b.sessions),
        b.session(client_id) matches Some(s) && s.online(),
    ensures
        ({
            let t = b.answered(client_id, p, reason);
            let i = place(b.sessions, client_id);
            &&& t == (BrokerView { sessions: t.sessions, ..b })
            &&& t.sessions.len() == b.sessions.len()
            &&& ids(t.sessions) == ids(b.sessions)
            &&& place(t.sessions, client_id) == i
            &&& t.sessions[i] == (SessionView { out: t.sessions[i].out, ..b.sessions[i] })
            &&& p.qos.code() > 0 ==> ends_with_answer(t.sessions[i].out, p, reason)
                && t.sessions[i].out->0.drop_last() == b.sessions[i].out->0
            &&& p.qos.code() == 0 ==> t.sessions == b.sessions
            &&& forall|j: int|
                0 <= j < b.sessions.len() && j != i ==> #[trigger] t.sessions[j] == b.sessions[j]
        }),
{
    let i = place(b.sessions, client_id);
    text::lemma_first_place_is(ids(b.sessions), client_id);
    assert(PropertiesView::empty().single =~= Map::empty());
    if p.qos.code() > 0 {
        let item = crate::broker::publish::publish_answer(p, reason)->0;
        let s = b.sessions[i];
        assert(ids(b.sessions)[i] == client_id);
        let v = s.sent(item);
        assert(v.out->0.drop_last() =~= s.out->0);
        let t = b.answered(client_id, p, reason);
        assert(t.sessions == b.sessions.update(i, v));
        assert(ids(t.sessions) =~= ids(b.sessions));
    }
}

/// A publication that is taken is answered where its QoS has an answer: the last
/// item on its way to the publisher is PUBACK (QoS 1) or PUBREC (QoS 2) with its
/// packet identifier. The reason is Success exactly where the message has not
/// expired and a subscription takes it. A QoS 2 publication is remembered.
pub proof fn taken_publication_is_answered(
    b: BrokerView,
    client_id: Seq<char>,
    p: PublishView,
    now: u64,
)
    requires
        b.wf(),
        is_usable(b, p),
        may_publish(b, client_id, p.topic),
        b.session(client_id) matches Some(s) && s.online() && !is_repeat(s, p),
    ensures
        ({
            let m = MessageView::of_publish(p, now);
            let (t, action) = b.on_packet(client_id, PacketView::Publish(p), now);
            let w = t.session(client_id)->0;
            &&& action == Action::Continue
            &&& t.session(client_id) is Some
            &&& p.qos.code() > 0 ==> ends_with_answer(
                w.out,
                p,
                if somebody_takes(b.sessions, Some(client_id), m) && !(
                m.expires_at matches Some(end) && end <= now) {
                    ReasonCode::Success
                } else {
                    ReasonCode::NoMatchingSubscribers
                },
            )
            &&& p.qos.code() == 2 ==> is_repeat(w, p)
        }),
{
    let m = MessageView::of_publish(p, now);
    let r = ready(b, client_id, p, now);
    lemma_ready(b, client_id, p, now);
    lemma_session(b, client_id);
    let max = b.config.max_queued_messages as nat;
    message_reaches_whoever_takes_it(r.sessions, r.turns, Some(client_id), m, max, now);
    assert forall|i: int| 0 <= i < r.sessions.len() implies (#[trigger] r.sessions[i]).subscriptions
        == b.sessions[i].subscriptions && r.sessions[i].client_id == b.sessions[i].client_id by {}
    lemma_same_groups(r.sessions, b.sessions, Some(client_id), m);
    let i = place(b.sessions, client_id);
    assert(place(r.sessions, client_id) == i);
    let q = r.routing(Some(client_id), m, now);
    crate::broker::routing_keeps_all_sessions(r, Some(client_id), m, now);
    lemma_routed_wf(r, Some(client_id), m, now);
    assert(place(q.sessions, client_id) == i);
    assert(ids(q.sessions).len() == q.sessions.len());
    assert(q.session(client_id) == Some(q.sessions[i]));
    lemma_routing_keeps(r, Some(client_id), m, now, i);
    let reason = if r.reaches(Some(client_id), m, now) {
        ReasonCode::Success
    } else {
        ReasonCode::NoMatchingSubscribers
    };
    lemma_answered(q, client_id, p, reason);
}

proof fn lemma_routed_wf(b: BrokerView, publisher: Option<Seq<char>>, m: MessageView, now: u64)
    requires
        sessions_wf(b.sessions),
    ensures
        sessions_wf(b.routing(publisher, m, now).sessions),
        b.routing(publisher, m, now).sessions.len() == b.sessions.len(),
{
    let t = b.routing(publisher, m, now).sessions;
    crate::broker::routing_keeps_all_sessions(b, publisher, m, now);
    assert(ids(t).len() == ids(b.sessions).len());
    assert forall|i: int| 0 <= i < t.len() implies (#[trigger] t[i]).wf() by {
        lemma_routing_keeps(b, publisher, m, now, i);
    }
    assert forall|i: int, j: int| 0 <= i < j < t.len() implies (#[trigger] t[i]).client_id != (
    #[trigger] t[j]).client_id by {
        assert(ids(t)[i] == ids(b.sessions)[i]);
        assert(ids(t)[j] == ids(b.sessions)[j]);
        assert(b.sessions[i].client_id != b.sessions[j].client_id);
    }
}

/// What routing leaves of a session.
proof fn lemma_routing_keeps(
    b: BrokerView,
    publisher: Option<Seq<char>>,
    m: MessageView,
    now: u64,
    i: int,
)
    requires
        sessions_wf(b.sessions),
        0 <= i < b.sessions.len(),
    ensures
        ({
            let s = b.sessions[i];
            let t = b.routing(publisher, m, now).sessions[i];
            &&& t.wf()
            &&& t.client_id == s.client_id
            &&& t.identity == s.identity
            &&& t.epoch == s.epoch
            &&& t.online() == s.online()
            &&& t.subscriptions == s.subscriptions
            &&& t.inbound_qos2 == s.inbound_qos2
        }),
{
    let max = b.config.max_queued_messages as nat;
    let s = b.sessions[i];
    routing_serves_each_session(b.sessions, b.turns, publisher, m, max, now, i);
    let o = offer(s.subscriptions, s.client_id, publisher, m);
    if o.qos is Some {
        routing::delivery_keeps_the_rest(s, m, o.qos->0, o.retain && m.retain, o.ids, max, now);
        session::delivery_keeps_session_wf(s, m, o.qos->0, o.retain && m.retain, o.ids, max, now);
    }
    let first = match o.qos {
        Some(qos) => s.delivered(m, qos, o.retain && m.retain, o.ids, max, now),
        None => s,
    };
    lemma_served_keeps(first, chosen(b.turns, groups_of(b.sessions, publisher, m)), m, max, now);
}

proof fn lemma_served_keeps(
    s: SessionView,
    to: Seq<routing::CandidateView>,
    m: MessageView,
    max: nat,
    now: u64,
)
    requires
        s.wf(),
    ensures
        ({
            let t = served(s, to, m, max, now);
            &&& t.wf()
            &&& t.client_id == s.client_id
            &&& t.identity == s.identity
            &&& t.epoch == s.epoch
            &&& t.online() == s.online()
            &&& t.subscriptions == s.subscriptions
            &&& t.inbound_qos2 == s.inbound_qos2
        }),
    decreases to.len(),
{
    if to.len() > 0 {
        lemma_served_keeps(s, to.drop_last(), m, max, now);
        let t = served(s, to.drop_last(), m, max, now);
        let c = to.last();
        routing::delivery_keeps_the_rest(t, m, c.qos, c.retain, c.ids, max, now);
        session::delivery_keeps_session_wf(t, m, c.qos, c.retain, c.ids, max, now);
    }
}

/// What taking a publication does elsewhere is what routing does.
proof fn lemma_taken_elsewhere(
    b: BrokerView,
    client_id: Seq<char>,
    p: PublishView,
    now: u64,
    i: int,
)
    requires
        b.wf(),
        is_usable(b, p),
        may_publish(b, client_id, p.topic),
        b.session(client_id) matches Some(s) && s.online() && !is_repeat(s, p),
        0 <= i < b.sessions.len(),
        b.sessions[i].client_id != client_id,
    ensures
        ({
            let m = MessageView::of_publish(p, now);
            let t = b.on_packet(client_id, PacketView::Publish(p), now).0;
            let r = ready(b, client_id, p, now);
            let q = r.routing(Some(client_id), m, now);
            &&& t.sessions.len() == b.sessions.len()
            &&& t.sessions[i] == q.sessions[i]
            &&& t.turns == q.turns
            &&& t.retained == b.keeping(m).retained
            &&& t.storage == b.keeping(m).storage
            &&& groups_of(r.sessions, Some(client_id), m) == groups_of(
                b.sessions,
                Some(client_id),
                m,
            )
        }),
{
    let m = MessageView::of_publish(p, now);
    let r = ready(b, client_id, p, now);
    lemma_ready(b, client_id, p, now);
    lemma_session(b, client_id);
    assert forall|j: int| 0 <= j < r.sessions.len() implies (#[trigger] r.sessions[j]).subscriptions
        == b.sessions[j].subscriptions && r.sessions[j].client_id == b.sessions[j].client_id by {}
    lemma_same_groups(r.sessions, b.sessions, Some(client_id), m);
    let at = place(b.sessions, client_id);
    let q = r.routing(Some(client_id), m, now);
    crate::broker::routing_keeps_all_sessions(r, Some(client_id), m, now);
    lemma_routed_wf(r, Some(client_id), m, now);
    assert(place(r.sessions, client_id) == at);
    assert(place(q.sessions, client_id) == at);
    assert(q.session(client_id) == Some(q.sessions[at]));
    lemma_routing_keeps(r, Some(client_id), m, now, at);
    let reason = if r.reaches(Some(client_id), m, now) {
        ReasonCode::Success
    } else {
        ReasonCode::NoMatchingSubscribers
    };
    lemma_answered(q, client_id, p, reason);
    assert(b.sessions[at].client_id == client_id);
}

/// A publication that is taken reaches the sessions of the other clients as
/// routing says, and no other way; it moves the turns of the shared
/// subscriptions on, and it is kept as retained exactly where it says so.
pub proof fn taken_publication_is_routed(
    b: BrokerView,
    client_id: Seq<char>,
    p: PublishView,
    now: u64,
    i: int,
)
    requires
        b.wf(),
        is_usable(b, p),
        may_publish(b, client_id, p.topic),
        b.session(client_id) matches Some(s) && s.online() && !is_repeat(s, p),
        0 <= i < b.sessions.len(),
        b.sessions[i].client_id != client_id,
        !(MessageView::of_publish(p, now).expires_at matches Some(end) && end <= now),
    ensures
        ({
            let m = MessageView::of_publish(p, now);
            let t = b.on_packet(client_id, PacketView::Publish(p), now).0;
            let s = b.sessions[i];
            let o = offer(s.subscriptions, s.client_id, Some(client_id), m);
            let max = b.config.max_queued_messages as nat;
            let first = match o.qos {
                Some(qos) => s.delivered(m, qos, o.retain && m.retain, o.ids, max, now),
                None => s,
            };
            let groups = groups_of(b.sessions, Some(client_id), m);
            &&& t.sessions.len() == b.sessions.len()
            &&& t.sessions[i] == served(first, chosen(b.turns, groups), m, max, now)
            &&& t.turns == routing::turned(b.turns, groups)
            &&& !p.retain ==> t.retained == b.retained && t.storage == b.storage
            &&& p.retain ==> is_kept(t, b, m)
        }),
{
    let m = MessageView::of_publish(p, now);
    let r = ready(b, client_id, p, now);
    lemma_taken_elsewhere(b, client_id, p, now, i);
    lemma_ready(b, client_id, p, now);
    let max = b.config.max_queued_messages as nat;
    routing_serves_each_session(r.sessions, r.turns, Some(client_id), m, max, now, i);
    assert(r.sessions[i] == b.sessions[i]);
    if p.retain {
        lemma_kept(b, m);
    }
}

/// Whether a broker keeps a message as the retained one of its topic, or, for
/// one without a payload, has none for it; the others stay, and the storage is
/// told.
pub open spec fn is_kept(t: BrokerView, b: BrokerView, m: MessageView) -> bool {
    &&& m.payload.len() > 0 ==> exists|k: int|
        0 <= k < t.retained.len() && (#[trigger] t.retained[k]).topic == m.topic
            && t.retained[k].message == m
    &&& m.payload.len() == 0 ==> forall|k: int|
        0 <= k < t.retained.len() ==> (#[trigger] t.retained[k]).topic != m.topic
    &&& forall|x: RetainedView|
        x.topic != m.topic ==> (#[trigger] t.retained.contains(x) <==> b.retained.contains(x))
    &&& b.storage.mode is Writer ==> t.storage.commands == b.storage.commands.push(
        if m.payload.len() > 0 {
            CommandView::UpsertRetained { topic: m.topic, message: m }
        } else {
            CommandView::DeleteRetained { topic: m.topic }
        },
    )
}

proof fn lemma_kept(b: BrokerView, m: MessageView)
    requires
        b.wf(),
        m.retain,
    ensures
        is_kept(b.keeping(m), b, m),
{
    let t = b.keeping(m);
    let s = b.retained;
    let k = retained_topics(s);
    let i = text::first_place(k, m.topic);
    text::lemma_first_place_is(k, m.topic);
    if i < s.len() {
        assert(k[i] == m.topic);
    }
    if m.payload.len() > 0 {
        let at = if i < s.len() {
            i
        } else {
            s.len() as int
        };
        assert(t.retained[at].topic == m.topic && t.retained[at].message == m);
    } else {
        assert forall|j: int| 0 <= j < t.retained.len() implies (#[trigger] t.retained[j]).topic
            != m.topic by {
            if i < s.len() {
                if j < i {
                    assert(s[j].topic != s[i].topic);
                } else {
                    assert(s[i].topic != s[j + 1].topic);
                }
            } else {
                assert(k[j] != m.topic);
            }
        }
    }
    assert forall|x: RetainedView| x.topic != m.topic implies (#[trigger] t.retained.contains(x)
        <==> b.retained.contains(x)) by {
        if b.retained.contains(x) {
            crate::broker::other_retained_messages_stay(b, m, x);
        }
        if t.retained.contains(x) {
            let j = choose|j: int| 0 <= j < t.retained.len() && t.retained[j] == x;
            if m.payload.len() > 0 {
                assert(s[j] == x);
            } else if i < s.len() && j >= i {
                assert(s[j + 1] == x);
            } else {
                assert(s[j] == x);
            }
        }
    }
}

/// A publication by a topic alias that stands for a topic is a publication to
/// that topic; an alias above the server's limit, or that stands for none, ends
/// the connection.
pub proof fn alias_stands_for_its_topic(b: BrokerView, client_id: Seq<char>, p: PublishView)
    requires
        b.session(client_id) is Some,
        two_property(p.properties, PropertyId::TopicAlias) is Some,
    ensures
        ({
            let alias = two_property(p.properties, PropertyId::TopicAlias)->0;
            let s = b.session(client_id)->0;
            let known = exists|k: int|
                0 <= k < s.inbound_aliases.len() && (#[trigger] s.inbound_aliases[k]).0 == alias;
            let r = b.resolved(client_id, p);
            &&& alias > b.config.topic_alias_maximum ==> r == Err::<
                (BrokerView, Seq<char>),
                ReasonCode,
            >(ReasonCode::TopicAliasInvalid)
            &&& alias <= b.config.topic_alias_maximum && p.topic.len() > 0 ==> r is Ok
                && r->Ok_0.1 == p.topic
            &&& alias <= b.config.topic_alias_maximum && p.topic.len() == 0 && !known ==> r
                == Err::<(BrokerView, Seq<char>), ReasonCode>(ReasonCode::TopicAliasInvalid)
            &&& alias <= b.config.topic_alias_maximum && p.topic.len() == 0 && known ==> r is Ok
                && r->Ok_0.0 == b && exists|k: int|
                0 <= k < s.inbound_aliases.len() && (#[trigger] s.inbound_aliases[k]).0 == alias
                    && s.inbound_aliases[k].1 == r->Ok_0.1
        }),
{
    let alias = two_property(p.properties, PropertyId::TopicAlias)->0;
    let s = b.session(client_id)->0;
    let ks = session::keys(s.inbound_aliases);
    text::lemma_first_place_is(ks, alias);
    let i = text::first_place(ks, alias);
    if i < ks.len() {
        assert(s.inbound_aliases[i].0 == alias);
    }
    if exists|k: int|
        0 <= k < s.inbound_aliases.len() && (#[trigger] s.inbound_aliases[k]).0 == alias {
        let k = choose|k: int|
            0 <= k < s.inbound_aliases.len() && (#[trigger] s.inbound_aliases[k]).0 == alias;
        assert(ks[k] == alias);
    }
}

/// An alias that a publication gives to its topic stands for it in a later one
/// without a topic.
pub proof fn given_alias_is_understood(
    b: BrokerView,
    client_id: Seq<char>,
    p: PublishView,
    later: PublishView,
)
    requires
        b.wf(),
        b.session(client_id) is Some,
        two_property(p.properties, PropertyId::TopicAlias) is Some,
        two_property(p.properties, PropertyId::TopicAlias)->0 <= b.config.topic_alias_maximum,
        two_property(later.properties, PropertyId::TopicAlias) == two_property(
            p.properties,
            PropertyId::TopicAlias,
        ),
        p.topic.len() > 0,
        later.topic.len() == 0,
    ensures
        b.resolved(client_id, p) is Ok,
        (b.resolved(client_id, p)->Ok_0.0).resolved(client_id, later) matches Ok((_, topic))
            && topic == p.topic,
{
    let alias = two_property(p.properties, PropertyId::TopicAlias)->0;
    let s = b.session(client_id)->0;
    lemma_session(b, client_id);
    acks::alias_stands_for_its_last_topic(s.inbound_aliases, alias, p.topic, alias);
    let w = s.with_alias(alias, p.topic);
    lemma_with(b, w);
}

/// A ping is answered, and changes nothing else; AUTH changes nothing; a packet
/// that only a server sends, or a second CONNECT, ends the connection.
pub proof fn other_packets(b: BrokerView, client_id: Seq<char>, p: PacketView, now: u64)
    requires
        b.wf(),
    ensures
        p is Pingreq ==> b.on_packet(client_id, p, now).1 == Action::Continue && (b.session(
            client_id,
        ) matches Some(s) ==> b.on_packet(client_id, p, now).0.session(client_id) == Some(
            SessionView {
                out: match s.out {
                    Some(items) => Some(items.push(OutgoingView::Control(PacketView::Pingresp))),
                    None => None,
                },
                ..s
            },
        )),
        p is Auth ==> b.on_packet(client_id, p, now) == (b, Action::Continue),
        p is Connect || p is Connack || p is Suback || p is Unsuback || p is Pingresp
            ==> b.on_packet(client_id, p, now) == (
            b,
            Action::ServerDisconnect(ReasonCode::ProtocolError),
        ),
{
    lemma_session(b, client_id);
    if let Some(s) = b.session(client_id) {
        let v = s.sent(OutgoingView::Control(PacketView::Pingresp));
        assert(v.wf());
        lemma_differs(b, v);
    }
}

/// A QoS 2 publication that is sent again before it is released is answered with
/// PUBREC and reason Success, and otherwise not taken a second time: nobody gets
/// it, and no turn moves on.
pub proof fn repeated_publication_is_only_answered(
    b: BrokerView,
    client_id: Seq<char>,
    p: PublishView,
    now: u64,
)
    requires
        b.wf(),
        is_usable(b, p),
        may_publish(b, client_id, p.topic),
        !p.retain,
        b.session(client_id) matches Some(s) && s.online() && is_repeat(s, p),
    ensures
        ({
            let s = b.session(client_id)->0;
            let (t, action) = b.on_packet(client_id, PacketView::Publish(p), now);
            let w = t.session(client_id)->0;
            &&& action == Action::Continue
            &&& t.session(client_id) is Some
            &&& w == (SessionView { out: w.out, ..s })
            &&& ends_with_answer(w.out, p, ReasonCode::Success)
            &&& w.out->0.drop_last() == s.out->0
            &&& t.turns == b.turns
            &&& t.retained == b.retained
            &&& t.storage == b.storage
            &&& t.metrics.publish_delivered == b.metrics.publish_delivered
            &&& forall|other: Seq<char>|
                other != client_id ==> #[trigger] t.session(other) == b.session(other)
        }),
{
    let s = b.session(client_id)->0;
    let (t, action) = b.on_packet(client_id, PacketView::Publish(p), now);
    lemma_session(b, client_id);
    let c = BrokerView {
        metrics: crate::metrics::Metrics {
            publish_received: crate::metrics::counted(b.metrics.publish_received, 1),
            ..b.metrics
        },
        ..b
    };
    assert(c.session(client_id) == b.session(client_id));
    assert(c.keeping(MessageView::of_publish(p, now)) == c);
    assert(PublishView { topic: p.topic, ..p } == p);
    assert(PropertiesView::empty().single =~= Map::empty());
    let item = crate::broker::publish::publish_answer(p, ReasonCode::Success)->0;
    let v = s.sent(item);
    assert(v.wf());
    lemma_differs(c, v);
    assert(t == c.with(v));
    assert(v.out->0.drop_last() =~= s.out->0);
    assert forall|other: Seq<char>| other != client_id implies #[trigger] t.session(other)
        == b.session(other) by {
        assert(c.session(other) == b.session(other));
    }
}

} // verus!
