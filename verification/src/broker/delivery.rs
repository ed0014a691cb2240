//! Delivery of a message to one session, sending from the queue of a session,
//! and resuming a session.

use vstd::prelude::*;
use crate::broker::session::{
    inflight_views, pubrels, redelivered, Outgoing, OutgoingView, Pending, Session, SessionView,
};
use crate::broker::session;
use crate::message::Message;
use crate::packet::{Packet, PubAck, Publish, PublishView};
use crate::text;
use crate::types::{QoS, ReasonCode};

verus! {

broadcast use text::group_views;

/// Gives a packet identifier to the delivery of a message and sends it.
fn start_delivery(
    session: &mut Session,
    message: &Message,
    qos: QoS,
    retain: bool,
    sub_ids: &[u32],
    id: u16,
    now: u64,
    Ghost(before): Ghost<SessionView>,
)
    requires
        before.wf(),
        before.window_open(),
        before.allocation().0 == Some(id),
        old(session)@ == (SessionView { next_packet_id: before.allocation().1, ..before }),
    ensures
        final(session)@ == before.started(message@, qos, retain, sub_ids@, id, now),
        final(session)@.wf(),
{
    proof {
        session::lemma_started_wf(before, message@, qos, retain, sub_ids@, id, now);
    }
    let publish: Publish = message.to_publish_at(qos, Some(id), retain, sub_ids, now);
    let ghost pv = publish@;
    let ghost start = session@;
    match qos {
        QoS::AtLeastOnce => {
            session.awaiting_puback.push((id, publish.clone()));
            assert(inflight_views(session.awaiting_puback@) =~= start.awaiting_puback.push(
                (id, pv),
            ));
        },
        QoS::ExactlyOnce => {
            session.awaiting_pubrec.push((id, publish.clone()));
            assert(inflight_views(session.awaiting_pubrec@) =~= start.awaiting_pubrec.push(
                (id, pv),
            ));
        },
        QoS::AtMostOnce => {},
    }
    session.send(Outgoing::Send(Box::new(publish)));
    assert(session@ =~= before.started(message@, qos, retain, sub_ids@, id, now));
}

/// Delivers a message to one session.
///
/// `max_queued` bounds the queue (0: no bound). Returns whether the oldest
/// message of the queue was dropped to stay within that bound.
pub fn deliver_to_session(
    session: &mut Session,
    message: &Message,
    qos: QoS,
    retain: bool,
    sub_ids: &[u32],
    max_queued: usize,
    now: u64,
) -> (dropped: bool)
    requires
        old(session)@.wf(),
    ensures
        final(session)@ == old(session)@.delivered(
            message@,
            qos,
            retain,
            sub_ids@,
            max_queued as nat,
            now,
        ),
        dropped == old(session)@.delivery_drops(message@, qos, max_queued as nat, now),
        final(session)@.wf(),
{
    let ghost before = session@;
    proof {
        session::delivery_keeps_session_wf(
            before,
            message@,
            qos,
            retain,
            sub_ids@,
            max_queued as nat,
            now,
        );
    }
    if message.is_expired_at(now) {
        return false;
    }
    if qos == QoS::AtMostOnce {
        let publish: Publish = message.to_publish_at(
            QoS::AtMostOnce,
            None,
            retain,
            sub_ids,
            now,
        );
        session.send(Outgoing::Send(Box::new(publish)));
        return false;
    }
    if session.is_online() && session.window_open() {
        if let Some(id) = session.next_id() {
            start_delivery(session, message, qos, retain, sub_ids, id, now, Ghost(before));
            return false;
        }
    }
    let mut dropped: bool = false;
    let ghost mid = session@;
    if max_queued > 0 && session.queue.len() >= max_queued {
        let oldest: Option<Pending> = session.queue.pop_front();
        dropped = true;
        assert(text::views(session.queue@) =~= mid.queue.skip(1));
    }
    let ghost kept = text::views(session.queue@);
    let pending: Pending = Pending {
        message: message.clone(),
        qos,
        retain,
        subscription_ids: vstd::slice::slice_to_vec(sub_ids),
    };
    session.queue.push_back(pending);
    assert(text::views(session.queue@) =~= kept.push(pending@));
    assert(session@ =~= mid.queued(message@, qos, retain, sub_ids@, max_queued as nat));
    dropped
}

/// Sends from the queue while the session has a connection with room.
pub fn flush_queue(session: &mut Session, now: u64)
    requires
        old(session)@.wf(),
    ensures
        final(session)@ == old(session)@.flushed(now),
        final(session)@.wf(),
{
    let ghost start = session@;
    proof {
        session::flush_keeps_session_wf(start, now);
    }
    while session.is_online() && session.window_open() && session.queue.len() > 0
        invariant_except_break
            session@.wf(),
            session@.flushed(now) == start.flushed(now),
        ensures
            session@ == start.flushed(now),
        decreases session@.queue.len(),
    {
        let ghost before = session@;
        let popped: Option<Pending> = session.queue.pop_front();
        if let Some(pending) = popped {
            let ghost rest = session@;
            assert(text::views(session.queue@) =~= before.queue.skip(1));
            assert(pending@ == before.queue[0]);
            assert(rest =~= (SessionView { queue: before.queue.skip(1), ..before }));
            proof {
                session::lemma_alloc_ignores_queue(before, rest, before.next_packet_id, 65536);
            }
            if !pending.message.is_expired_at(now) {
                let id: Option<u16> = session.next_id();
                match id {
                    Some(id) => {
                        start_delivery(
                            session,
                            &pending.message,
                            pending.qos,
                            pending.retain,
                            pending.subscription_ids.as_slice(),
                            id,
                            now,
                            Ghost(rest),
                        );
                        assert(session@.queue == rest.queue);
                    },
                    None => {
                        let ghost behind = session.queue@;
                        assert(text::views(behind) == rest.queue);
                        session.queue.push_front(pending);
                        assert forall|k: int| 0 <= k < before.queue.len() implies text::views(
                            session.queue@,
                        )[k] == before.queue[k] by {
                            if k > 0 {
                                assert(text::views(behind)[k - 1] == before.queue[k]);
                            }
                        }
                        assert(text::views(session.queue@) =~= before.queue);
                        assert(session@ =~= (SessionView {
                            next_packet_id: before.allocation().1,
                            ..before
                        }));
                        break;
                    },
                }
            }
        }
    }
}

/// On resume, sends again what was not acknowledged, then from the queue.
pub fn resume_delivery(session: &mut Session, now: u64)
    requires
        old(session)@.wf(),
    ensures
        final(session)@ == old(session)@.resumed(now),
        final(session)@.wf(),
{
    let ghost start = session@;
    if !session.is_online() {
        return;
    }
    let ghost items = start.out->0;
    let mut i: usize = 0;
    assert(items + redelivered(start.awaiting_puback.take(0)) =~= items);
    while i < session.awaiting_puback.len()
        invariant
            i <= session.awaiting_puback.len(),
            session.awaiting_puback@.len() == start.awaiting_puback.len(),
            start.out == Some(items),
            session@ == (SessionView {
                out: Some(items + redelivered(start.awaiting_puback.take(i as int))),
                ..start
            }),
        decreases session.awaiting_puback.len() - i,
    {
        let mut p: Publish = session.awaiting_puback[i].1.clone();
        p.dup = true;
        assert(p@ == (PublishView { dup: true, ..start.awaiting_puback[i as int].1 }));
        session.send(Outgoing::Send(Box::new(p)));
        assert(redelivered(start.awaiting_puback.take(i + 1)) =~= redelivered(
            start.awaiting_puback.take(i as int),
        ).push(OutgoingView::Send(p@)));
        assert(session@.out->0 =~= items + redelivered(start.awaiting_puback.take(i + 1)));
        assert(session@.awaiting_puback.len() == session.awaiting_puback@.len());
        i = i + 1;
    }
    assert(start.awaiting_puback.take(i as int) =~= start.awaiting_puback);
    let ghost first = items + redelivered(start.awaiting_puback);
    i = 0;
    assert(first + redelivered(start.awaiting_pubrec.take(0)) =~= first);
    while i < session.awaiting_pubrec.len()
        invariant
            i <= session.awaiting_pubrec.len(),
            session.awaiting_pubrec@.len() == start.awaiting_pubrec.len(),
            session@ == (SessionView {
                out: Some(first + redelivered(start.awaiting_pubrec.take(i as int))),
                ..start
            }),
        decreases session.awaiting_pubrec.len() - i,
    {
        let mut p: Publish = session.awaiting_pubrec[i].1.clone();
        p.dup = true;
        assert(p@ == (PublishView { dup: true, ..start.awaiting_pubrec[i as int].1 }));
        session.send(Outgoing::Send(Box::new(p)));
        assert(redelivered(start.awaiting_pubrec.take(i + 1)) =~= redelivered(
            start.awaiting_pubrec.take(i as int),
        ).push(OutgoingView::Send(p@)));
        assert(session@.out->0 =~= first + redelivered(start.awaiting_pubrec.take(i + 1)));
        assert(session@.awaiting_pubrec.len() == session.awaiting_pubrec@.len());
        i = i + 1;
    }
    assert(start.awaiting_pubrec.take(i as int) =~= start.awaiting_pubrec);
    let ghost second = first + redelivered(start.awaiting_pubrec);
    i = 0;
    assert(second + pubrels(start.awaiting_pubcomp.take(0)) =~= second);
    while i < session.awaiting_pubcomp.len()
        invariant
            i <= session.awaiting_pubcomp.len(),
            session@ == (SessionView {
                out: Some(second + pubrels(start.awaiting_pubcomp.take(i as int))),
                ..start
            }),
        decreases session.awaiting_pubcomp.len() - i,
    {
        let id: u16 = session.awaiting_pubcomp[i];
        let item: Outgoing = Outgoing::Control(
            Box::new(Packet::Pubrel(PubAck::new(id, ReasonCode::Success))),
        );
        let ghost iv = item@;
        session.send(item);
        assert(pubrels(start.awaiting_pubcomp.take(i + 1)) =~= pubrels(
            start.awaiting_pubcomp.take(i as int),
        ).push(iv));
        assert(session@.out->0 =~= second + pubrels(start.awaiting_pubcomp.take(i + 1)));
        i = i + 1;
    }
    assert(start.awaiting_pubcomp.take(i as int) =~= start.awaiting_pubcomp);
    assert(second + pubrels(start.awaiting_pubcomp) =~= items + start.redeliveries());
    flush_queue(session, now);
}

} // verus!
