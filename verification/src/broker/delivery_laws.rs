//! Laws of delivery: what a PUBLISH carries, what becomes of a message that is
//! delivered to a session, and what a session sends from its queue.

use vstd::prelude::*;
use crate::broker::session;
use crate::broker::session::{keys, OutgoingView, PendingView, SessionView};
use crate::message::{
    byte_property, data_property, four_property, text_property, MessageView,
};
use crate::packet::PublishView;
use crate::types::{PropertyId, QoS};

verus! {

/// Whether a PUBLISH says what a message says, at a QoS, with a RETAIN flag and
/// subscription identifiers.
pub open spec fn carries(
    p: PublishView,
    m: MessageView,
    qos: QoS,
    retain: bool,
    ids: Seq<u32>,
    now: u64,
) -> bool {
    &&& !p.dup
    &&& p.qos == qos
    &&& p.retain == retain
    &&& p.topic == m.topic
    &&& p.payload == m.payload
    &&& p.properties.subscription_identifiers == ids
    &&& p.properties.user_properties == m.user_properties
    &&& byte_property(p.properties, PropertyId::PayloadFormatIndicator)
        == m.payload_format_indicator
    &&& text_property(p.properties, PropertyId::ContentType) == m.content_type
    &&& text_property(p.properties, PropertyId::ResponseTopic) == m.response_topic
    &&& data_property(p.properties, PropertyId::CorrelationData) == m.correlation_data
    &&& has_no_other(p)
    &&& match (four_property(p.properties, PropertyId::MessageExpiryInterval), m.expires_at) {
        (None, None) => true,
        (Some(left), Some(end)) => now <= end && end - now <= u32::MAX ==> now + left == end,
        _ => false,
    }
}

/// Whether a PUBLISH has no property but those that are forwarded with a
/// message.
pub open spec fn has_no_other(p: PublishView) -> bool {
    forall|id: PropertyId| #[trigger]
        p.properties.single.contains_key(id) ==> id is PayloadFormatIndicator
            || id is MessageExpiryInterval || id is ContentType || id is ResponseTopic
            || id is CorrelationData
}

/// A PUBLISH carries its message whole, with what is left of its expiry
/// interval, and has a packet identifier exactly where its QoS needs one.
pub proof fn publication_carries_its_message(
    m: MessageView,
    qos: QoS,
    id: Option<u16>,
    retain: bool,
    ids: Seq<u32>,
    now: u64,
)
    ensures
        carries(m.publish(qos, id, retain, ids, now), m, qos, retain, ids, now),
        m.publish(qos, id, retain, ids, now).packet_id == (if qos.code() == 0 {
            None
        } else {
            id
        }),
{
}

/// Whether a delivery of a session that is not done has a packet identifier.
pub open spec fn is_taken(s: SessionView, id: u16) -> bool {
    ||| exists|k: int| 0 <= k < s.awaiting_puback.len() && (#[trigger] s.awaiting_puback[k]).0 == id
    ||| exists|k: int| 0 <= k < s.awaiting_pubrec.len() && (#[trigger] s.awaiting_pubrec[k]).0 == id
    ||| exists|k: int| 0 <= k < s.awaiting_pubcomp.len() && #[trigger] s.awaiting_pubcomp[k] == id
}

proof fn lemma_keys_hold(s: Seq<(u16, PublishView)>, id: u16)
    ensures
        keys(s).contains(id) <==> exists|k: int|
            0 <= k < s.len() && (#[trigger] s[k]).0 == id,
{
    if keys(s).contains(id) {
        let k = choose|k: int| 0 <= k < keys(s).len() && keys(s)[k] == id;
        assert(s[k].0 == id);
    }
    if exists|k: int| 0 <= k < s.len() && (#[trigger] s[k]).0 == id {
        let k = choose|k: int| 0 <= k < s.len() && (#[trigger] s[k]).0 == id;
        assert(keys(s)[k] == id);
    }
}

pub(crate) proof fn lemma_taken(s: SessionView, id: u16)
    ensures
        is_taken(s, id) <==> s.id_in_use(id),
{
    lemma_keys_hold(s.awaiting_puback, id);
    lemma_keys_hold(s.awaiting_pubrec, id);
    if s.awaiting_pubcomp.contains(id) {
        let k = choose|k: int| 0 <= k < s.awaiting_pubcomp.len() && s.awaiting_pubcomp[k] == id;
        assert(s.awaiting_pubcomp[k] == id);
    }
}

/// Nothing of an expired message is delivered.
pub proof fn expired_message_is_not_delivered(
    s: SessionView,
    m: MessageView,
    qos: QoS,
    retain: bool,
    ids: Seq<u32>,
    max_queued: nat,
    now: u64,
)
    requires
        m.expires_at matches Some(end) && end <= now,
    ensures
        s.delivered(m, qos, retain, ids, max_queued, now) == s,
{
}

/// A QoS 0 delivery goes out last on the connection, without a packet
/// identifier, and leaves no trace in the session; without a connection it is
/// lost.
pub proof fn qos0_is_sent_once(
    s: SessionView,
    m: MessageView,
    retain: bool,
    ids: Seq<u32>,
    max_queued: nat,
    now: u64,
) -> (p: PublishView)
    requires
        m.expires_at matches Some(end) ==> now < end,
    ensures
        s.out is None ==> s.delivered(m, QoS::AtMostOnce, retain, ids, max_queued, now) == s,
        s.out is Some ==> s.delivered(m, QoS::AtMostOnce, retain, ids, max_queued, now) == (
        SessionView { out: Some((s.out->0).push(OutgoingView::Send(p))), ..s }),
        p.packet_id is None,
        carries(p, m, QoS::AtMostOnce, retain, ids, now),
{
    publication_carries_its_message(m, QoS::AtMostOnce, None, retain, ids, now);
    m.publish(QoS::AtMostOnce, None, retain, ids, now)
}

/// A QoS 1 or 2 delivery on a connection with room goes out last on it, under a
/// packet identifier that was free, and waits for its acknowledgement.
pub proof fn room_starts_a_delivery(
    s: SessionView,
    m: MessageView,
    qos: QoS,
    retain: bool,
    ids: Seq<u32>,
    max_queued: nat,
    now: u64,
    free: u16,
) -> (p: PublishView)
    requires
        s.wf(),
        m.expires_at matches Some(end) ==> now < end,
        qos.code() > 0,
        s.out is Some,
        s.awaiting_puback.len() + s.awaiting_pubrec.len() + s.awaiting_pubcomp.len()
            < s.client_receive_maximum,
        free != 0,
        !is_taken(s, free),
    ensures
        ({
            let t = s.delivered(m, qos, retain, ids, max_queued, now);
            let id = p.packet_id->0;
            &&& p.packet_id is Some
            &&& id != 0
            &&& !is_taken(s, id)
            &&& is_taken(t, id)
            &&& carries(p, m, qos, retain, ids, now)
            &&& t == (SessionView {
                out: Some((s.out->0).push(OutgoingView::Send(p))),
                next_packet_id: t.next_packet_id,
                awaiting_puback: if qos.code() == 1 {
                    s.awaiting_puback.push((id, p))
                } else {
                    s.awaiting_puback
                },
                awaiting_pubrec: if qos.code() == 2 {
                    s.awaiting_pubrec.push((id, p))
                } else {
                    s.awaiting_pubrec
                },
                ..s
            })
        }),
{
    lemma_taken(s, free);
    if s.allocation().0 is None {
        session::exhausted_only_when_all_in_use(s, free);
    }
    let id = s.allocation().0->0;
    session::allocated_id_is_free(s, s.next_packet_id, 65536);
    lemma_taken(s, id);
    let p = m.publish(qos, Some(id), retain, ids, now);
    publication_carries_its_message(m, qos, Some(id), retain, ids, now);
    let t = s.delivered(m, qos, retain, ids, max_queued, now);
    if qos.code() == 1 {
        assert(t.awaiting_puback[s.awaiting_puback.len() as int].0 == id);
    } else {
        assert(t.awaiting_pubrec[s.awaiting_pubrec.len() as int].0 == id);
    }
    p
}

/// A QoS 1 or 2 delivery without a connection, or without room on it, is the
/// last in the queue; a full queue gives up its oldest message for it, and
/// nothing is sent.
pub proof fn no_room_queues_a_delivery(
    s: SessionView,
    m: MessageView,
    qos: QoS,
    retain: bool,
    ids: Seq<u32>,
    max_queued: nat,
    now: u64,
)
    requires
        m.expires_at matches Some(end) ==> now < end,
        qos.code() > 0,
        s.out is None || s.awaiting_puback.len() + s.awaiting_pubrec.len()
            + s.awaiting_pubcomp.len() >= s.client_receive_maximum,
    ensures
        ({
            let t = s.delivered(m, qos, retain, ids, max_queued, now);
            &&& t == (SessionView { queue: t.queue, ..s })
            &&& t.queue.len() > 0
            &&& t.queue.last() == (PendingView { message: m, qos, retain, subscription_ids: ids })
            &&& t.queue.drop_last() == (if max_queued == 0 || s.queue.len() < max_queued {
                s.queue
            } else {
                s.queue.skip(1)
            })
        }),
{
    let t = s.delivered(m, qos, retain, ids, max_queued, now);
    let x = PendingView { message: m, qos, retain, subscription_ids: ids };
    assert(s.queue.push(x).drop_last() =~= s.queue);
    assert(s.queue.skip(1).push(x).drop_last() =~= s.queue.skip(1));
}

/// Whether an item on its way out is the delivery of a waiting message that has
/// not expired.
pub open spec fn delivers(item: OutgoingView, p: PendingView, now: u64) -> bool {
    &&& !p.message.expired(now)
    &&& item matches OutgoingView::Send(x) && x.packet_id is Some && carries(
        x,
        p.message,
        p.qos,
        p.retain,
        p.subscription_ids,
        now,
    )
}

/// Whether numbers go up and stay between 0 and `n`.
pub open spec fn goes_up(ks: Seq<int>, n: int) -> bool {
    &&& forall|i: int| 0 <= i < ks.len() ==> 0 <= #[trigger] ks[i] < n
    &&& forall|i: int, j: int| 0 <= i < j < ks.len() ==> #[trigger] ks[i] < #[trigger] ks[j]
}

/// Whether none of the first messages of a queue that has not expired is left
/// out.
pub open spec fn none_left_out(q: Seq<PendingView>, n: int, ks: Seq<int>, now: u64) -> bool {
    forall|k: int|
        0 <= k < n && !(#[trigger] q[k]).message.expired(now) ==> ks.contains(k)
}

/// Whether items are deliveries of messages of a queue.
pub open spec fn sent_from(
    items: Seq<OutgoingView>,
    q: Seq<PendingView>,
    ks: Seq<int>,
    now: u64,
) -> bool {
    &&& items.len() == ks.len()
    &&& forall|i: int|
        0 <= i < ks.len() ==> delivers(
            #[trigger] items[i],
            q[ks[i]],
            now,
        )
}

/// What a session sends from its queue is the queue from its oldest message on,
/// in order, without what has expired. It goes on until the queue is empty, the
/// client takes no more, or no packet identifier is free; without a connection
/// nothing goes. The result names the messages that were sent.
pub proof fn queue_goes_out_in_order(s: SessionView, now: u64) -> (ks: Seq<int>)
    requires
        s.wf(),
        forall|k: int| 0 <= k < s.queue.len() ==> (#[trigger] s.queue[k]).qos.code() > 0,
    ensures
        s.out is None ==> s.flushed(now) == s,
        s.out is Some ==> ({
            let t = s.flushed(now);
            let items = s.out->0;
            let n = s.queue.len() - t.queue.len();
            &&& t.out is Some
            &&& 0 <= n
            &&& t.queue == s.queue.skip(n)
            &&& items.len() <= t.out->0.len()
            &&& t.out->0.take(items.len() as int) == items
            &&& goes_up(ks, n)
            &&& none_left_out(s.queue, n, ks, now)
            &&& sent_from(t.out->0.skip(items.len() as int), s.queue, ks, now)
            &&& t.queue.len() == 0 || t.inflight() >= t.client_receive_maximum || forall|x: u16|
                x != 0 ==> #[trigger] is_taken(t, x)
            &&& t.client_receive_maximum == s.client_receive_maximum
            &&& t.awaiting_pubcomp == s.awaiting_pubcomp
            &&& t.inflight() == s.inflight() + ks.len()
        }),
    decreases s.queue.len(),
{
    let t = s.flushed(now);
    if s.out is None {
        Seq::empty()
    } else if !s.can_start() || s.queue.len() == 0 {
        assert(t.queue =~= s.queue.skip(0));
        assert(t.out->0.take((s.out->0).len() as int) =~= s.out->0);
        Seq::empty()
    } else {
        let items = s.out->0;
        let p = s.queue[0];
        let rest = SessionView { queue: s.queue.skip(1), ..s };
        session::lemma_alloc_ignores_queue(s, rest, s.next_packet_id, 65536);
        session::allocated_id_is_free(s, s.next_packet_id, 65536);
        assert forall|k: int| 0 <= k < rest.queue.len() implies (#[trigger] rest.queue[k]).qos.code()
            > 0 by {
            assert(rest.queue[k] == s.queue[k + 1]);
        }
        if p.message.expired(now) {
            let js = queue_goes_out_in_order(rest, now);
            let ks = Seq::new(js.len(), |i: int| js[i] + 1);
            let n = s.queue.len() - t.queue.len();
            assert(s.queue.skip(1).skip(n - 1) =~= s.queue.skip(n));
            assert(goes_up(ks, n)) by {
                assert forall|i: int, j: int| 0 <= i < j < ks.len() implies #[trigger] ks[i]
                    < #[trigger] ks[j] by {
                    assert(js[i] < js[j]);
                }
            }
            assert forall|k: int| 0 <= k < n && !(#[trigger] s.queue[k]).message.expired(
                now,
            ) implies ks.contains(k) by {
                assert(rest.queue[k - 1] == s.queue[k]);
                assert(js.contains(k - 1));
                let i = choose|i: int| 0 <= i < js.len() && js[i] == k - 1;
                assert(ks[i] == k);
            }
            let new = t.out->0.skip(items.len() as int);
            assert forall|i: int| 0 <= i < ks.len() implies delivers(
                #[trigger] new[i],
                s.queue[ks[i]],
                now,
            ) by {
                assert(sent_from(new, rest.queue, js, now));
                assert(0 <= js[i]);
                assert(rest.queue[js[i]] == s.queue[ks[i]]);
                assert(delivers(new[i], rest.queue[js[i]], now));
            }
            assert(sent_from(new, s.queue, ks, now));
            ks
        } else if s.allocation().0 is None {
            assert(t.queue =~= s.queue.skip(0));
            assert(t.out->0.take(items.len() as int) =~= items);
            assert forall|x: u16| x != 0 implies #[trigger] is_taken(t, x) by {
                session::exhausted_only_when_all_in_use(s, x);
                lemma_taken(s, x);
                lemma_taken(t, x);
            }
            Seq::empty()
        } else {
            let id = s.allocation().0->0;
            session::lemma_started_wf(
                rest,
                p.message,
                p.qos,
                p.retain,
                p.subscription_ids,
                id,
                now,
            );
            let u = rest.started(p.message, p.qos, p.retain, p.subscription_ids, id, now);
            let x = p.message.publish(p.qos, Some(id), p.retain, p.subscription_ids, now);
            publication_carries_its_message(
                p.message,
                p.qos,
                Some(id),
                p.retain,
                p.subscription_ids,
                now,
            );
            let js = queue_goes_out_in_order(u, now);
            let more = Seq::new(js.len(), |i: int| js[i] + 1);
            let ks = seq![0int] + more;
            let n = s.queue.len() - t.queue.len();
            assert(s.queue.skip(1).skip(n - 1) =~= s.queue.skip(n));
            let sent = u.out->0;
            assert(sent == items.push(OutgoingView::Send(x)));
            assert(t.out->0.take(items.len() as int) =~= items) by {
                assert(t.out->0.take(sent.len() as int) == sent);
                assert forall|i: int| 0 <= i < items.len() implies t.out->0[i] == items[i] by {
                    assert(t.out->0.take(sent.len() as int)[i] == sent[i]);
                }
            }
            assert(goes_up(ks, n)) by {
                assert forall|i: int, j: int| 0 <= i < j < ks.len() implies #[trigger] ks[i]
                    < #[trigger] ks[j] by {
                    if i > 0 {
                        assert(js[i - 1] < js[j - 1]);
                    }
                }
            }
            assert forall|k: int| 0 <= k < n && !(#[trigger] s.queue[k]).message.expired(
                now,
            ) implies ks.contains(k) by {
                if k == 0 {
                    assert(ks[0] == 0);
                } else {
                    assert(rest.queue[k - 1] == s.queue[k]);
                    assert(js.contains(k - 1));
                    let i = choose|i: int| 0 <= i < js.len() && js[i] == k - 1;
                    assert(ks[i + 1] == k);
                }
            }
            let new = t.out->0.skip(items.len() as int);
            let later = t.out->0.skip(sent.len() as int);
            assert forall|i: int| 0 <= i < ks.len() implies delivers(
                #[trigger] new[i],
                s.queue[ks[i]],
                now,
            ) by {
                if i == 0 {
                    assert(t.out->0.take(sent.len() as int)[items.len() as int]
                        == sent[items.len() as int]);
                } else {
                    assert(sent_from(later, rest.queue, js, now));
                    assert(0 <= js[i - 1]);
                    assert(rest.queue[js[i - 1]] == s.queue[ks[i]]);
                    assert(later[i - 1] == new[i]);
                    assert(delivers(later[i - 1], rest.queue[js[i - 1]], now));
                }
            }
            assert(sent_from(new, s.queue, ks, now));
            ks
        }
    }
}

} // verus!
