//! Laws of connections and sessions as they end, of wills, of a policy that is
//! replaced, of bridges, and of what is loaded and handed out.

use vstd::prelude::*;
use crate::acl::AclView;
use crate::broker::ack_laws::lemma_differs;
use crate::broker::authz::{permitted_subs, storage_revoked};
use crate::broker::delivery_laws::goes_up;
use crate::broker::lifecycle::WillTaskView;
use crate::broker::routing;
use crate::broker::routing::{chosen, groups_of, ids, offer, place};
use crate::broker::routing_laws::{routing_serves_each_session, served};
use crate::broker::session::{OutgoingView, SessionView, SubscriptionView};
use crate::broker::stats::unexpired;
use crate::broker::{
    closing_deliveries, lemma_session, lemma_with, lemma_with_other, session_deliveries,
    session_of_record, Action, BrokerView, ClosingView, DeliveryView, RetainedView,
};
use crate::message::{four_property, MessageView};
use crate::packet::{DisconnectView, PacketView};
use crate::storage::{CommandView, SessionRecordView, SubRecordView};
use crate::text;
use crate::topic;
use crate::types::{PropertyId, QoS, ReasonCode};

verus! {

/// Who a session is for the policy.
pub open spec fn who_is(s: SessionView) -> Seq<char> {
    match s.identity {
        Some(who) => who,
        None => "anonymous"@,
    }
}

pub(crate) proof fn lemma_without(b: BrokerView, client_id: Seq<char>)
    requires
        b.wf(),
    ensures
        b.without(client_id).session(client_id) is None,
        b.without(client_id).wf(),
        forall|other: Seq<char>|
            other != client_id ==> #[trigger] b.without(client_id).session(other) == b.session(
                other,
            ),
{
    let i = place(b.sessions, client_id);
    let all = ids(b.sessions);
    text::lemma_first_place_is(all, client_id);
    let t = b.without(client_id).sessions;
    let rest = ids(t);
    if i < b.sessions.len() {
        crate::broker::lemma_sessions_remove(b.sessions, i);
        assert(all[i] == client_id);
        assert forall|j: int| 0 <= j < rest.len() implies #[trigger] rest[j] != client_id by {
            if j < i {
                assert(rest[j] == all[j]);
            } else {
                assert(rest[j] == b.sessions[j + 1].client_id);
                assert(b.sessions[i].client_id != b.sessions[j + 1].client_id);
            }
        }
        text::lemma_first_place(rest, client_id, rest.len() as int);
    }
    assert forall|other: Seq<char>| other != client_id implies #[trigger] b.without(
        client_id,
    ).session(other) == b.session(other) by {
        let k = place(b.sessions, other);
        text::lemma_first_place_is(all, other);
        if i < b.sessions.len() {
            if k < b.sessions.len() {
                assert(all[k] == other);
                let j = if k < i {
                    k
                } else {
                    k - 1
                };
                assert forall|x: int| 0 <= x < j implies #[trigger] rest[x] != other by {
                    if x < i {
                        assert(rest[x] == all[x]);
                    } else {
                        assert(rest[x] == all[x + 1]);
                    }
                }
                assert(rest[j] == all[k]);
                text::lemma_first_place(rest, other, j);
            } else {
                assert forall|x: int| 0 <= x < rest.len() implies #[trigger] rest[x] != other by {
                    if x < i {
                        assert(rest[x] == all[x]);
                    } else {
                        assert(rest[x] == all[x + 1]);
                    }
                }
                text::lemma_first_place(rest, other, rest.len() as int);
            }
        }
    }
}

/// A DISCONNECT closes the connection, with the will exactly where its reason
/// asks for it. The expiry that it gives holds from then on, up to the server's
/// limit, and a stored session is stored with it; without one nothing changes.
pub proof fn disconnect_may_change_the_expiry(
    b: BrokerView,
    client_id: Seq<char>,
    d: DisconnectView,
    now: u64,
)
    requires
        b.wf(),
        b.session(client_id) is Some,
    ensures
        ({
            let s = b.session(client_id)->0;
            let (t, action) = b.on_packet(client_id, PacketView::Disconnect(d), now);
            let w = t.session(client_id)->0;
            let limit = b.config.max_session_expiry;
            let lasts = w.session_expiry_interval;
            &&& action == Action::ClientDisconnect { publish_will: d.reason_code.code() == 4 }
            &&& t.session(client_id) is Some
            &&& w == (SessionView { session_expiry_interval: lasts, ..s })
            &&& four_property(d.properties, PropertyId::SessionExpiryInterval) is None ==> t == b
            &&& four_property(d.properties, PropertyId::SessionExpiryInterval) matches Some(asked)
                ==> lasts <= asked && lasts <= limit && (lasts == asked || lasts == limit) && (
            s.persistent && b.storage.mode is Writer ==> t.storage.commands
                == b.storage.commands.push(
                CommandView::UpsertSession {
                    client_id,
                    session_expiry: lasts,
                    owner_identity: s.identity,
                },
            )) && (!s.persistent ==> t.storage == b.storage)
            &&& forall|other: Seq<char>|
                other != client_id ==> #[trigger] t.session(other) == b.session(other)
        }),
{
    let s = b.session(client_id)->0;
    lemma_session(b, client_id);
    let (t, action) = b.on_packet(client_id, PacketView::Disconnect(d), now);
    if let Some(secs) = four_property(d.properties, PropertyId::SessionExpiryInterval) {
        let lasts = crate::broker::connect::at_most(secs, b.config.max_session_expiry);
        let v = SessionView { session_expiry_interval: lasts, ..s };
        assert(v.wf());
        lemma_differs(b, v);
        assert(t.session(client_id) == b.with(v).session(client_id));
        assert forall|other: Seq<char>| other != client_id implies #[trigger] t.session(other)
            == b.session(other) by {
            assert(t.session(other) == b.with(v).session(other));
        }
    }
}

/// When a connection closes that still has its session, its will is to be
/// published exactly where there is one and it was not given up: the same
/// message, after its delay, for the one who set it. A session with an expiry
/// goes on without a connection, without its will and without aliases, and is
/// to end after its expiry; any other ends at once, and the storage is told.
pub proof fn closed_connection_leaves_its_will(
    b: BrokerView,
    client_id: Seq<char>,
    epoch: u64,
    publish_will: bool,
)
    requires
        b.wf(),
        b.session(client_id) matches Some(s) && s.epoch == epoch,
    ensures
        ({
            let s = b.session(client_id)->0;
            let (t, f) = b.on_closed(client_id, epoch, publish_will);
            &&& f.will is Some <==> publish_will && s.will is Some
            &&& f.will matches Some(w) ==> s.will == Some((w.message, w.delay)) && w.owner
                == who_is(s)
            &&& s.session_expiry_interval > 0 ==> f.expire_after == Some(
                s.session_expiry_interval,
            ) && t.session(client_id) == Some(
                SessionView { out: None, will: None, inbound_aliases: Seq::empty(), ..s },
            ) && t.storage == b.storage
            &&& s.session_expiry_interval == 0 ==> f.expire_after is None && t.session(
                client_id,
            ) is None && (b.storage.mode is Writer ==> t.storage.commands
                == b.storage.commands.push(CommandView::DeleteSession { client_id }))
            &&& t.retained == b.retained
            &&& forall|other: Seq<char>|
                other != client_id ==> #[trigger] t.session(other) == b.session(other)
        }),
{
    let s = b.session(client_id)->0;
    lemma_session(b, client_id);
    let (t, f) = b.on_closed(client_id, epoch, publish_will);
    assert(s.closed().wf());
    lemma_differs(b, s.closed());
    let m = b.with(s.closed());
    if s.session_expiry_interval == 0 {
        lemma_without(m, client_id);
        assert(t.sessions == m.without(client_id).sessions);
        assert(t.session(client_id) == m.without(client_id).session(client_id));
        assert forall|other: Seq<char>| other != client_id implies #[trigger] t.session(other)
            == b.session(other) by {
            assert(t.session(other) == m.without(client_id).session(other));
            assert(m.session(other) == b.session(other));
        }
    }
}

/// When its time is over, a session ends exactly where it still has the number
/// of the connection that closed and has no other; the storage is told, and a
/// stored session is counted as expired. Nothing else changes.
pub proof fn expiry_ends_a_session_left_alone(b: BrokerView, client_id: Seq<char>, epoch: u64)
    requires
        b.wf(),
    ensures
        ({
            let t = b.on_expiry(client_id, epoch);
            let due = b.session(client_id) matches Some(s) && s.epoch == epoch && s.out is None;
            &&& !due ==> t == b
            &&& due ==> t.session(client_id) is None && (b.storage.mode is Writer
                ==> t.storage.commands == b.storage.commands.push(
                CommandView::DeleteSession { client_id },
            )) && (b.metrics.clients_expired < u64::MAX ==> t.metrics.clients_expired
                == b.metrics.clients_expired + (if (b.session(client_id)->0).persistent {
                1int
            } else {
                0int
            }))
            &&& t.retained == b.retained
            &&& forall|other: Seq<char>|
                other != client_id ==> #[trigger] t.session(other) == b.session(other)
        }),
{
    let t = b.on_expiry(client_id, epoch);
    lemma_without(b, client_id);
    if t != b {
        assert(t.sessions == b.without(client_id).sessions);
        assert(t.session(client_id) == b.without(client_id).session(client_id));
        assert forall|other: Seq<char>| other != client_id implies #[trigger] t.session(other)
            == b.session(other) by {
            assert(t.session(other) == b.without(client_id).session(other));
        }
    }
}

/// A will that is not called off and that its owner may publish is routed to
/// every session as a message of nobody is, the client's own among them.
pub proof fn will_is_routed(
    b: BrokerView,
    client_id: Seq<char>,
    epoch: u64,
    w: WillTaskView,
    now: u64,
    i: int,
)
    requires
        b.wf(),
        b.acl.may_publish(w.owner, w.message.topic),
        w.delay > 0 ==> (b.session(client_id) matches Some(s) ==> s.epoch == epoch && s.out is None),
        !(w.message.expires_at matches Some(end) && end <= now),
        0 <= i < b.sessions.len(),
    ensures
        ({
            let t = b.on_will(client_id, epoch, w, now);
            let m = w.message;
            let s = b.sessions[i];
            let o = offer(s.subscriptions, s.client_id, None, m);
            let max = b.config.max_queued_messages as nat;
            let first = match o.qos {
                Some(qos) => s.delivered(m, qos, o.retain && m.retain, o.ids, max, now),
                None => s,
            };
            let groups = groups_of(b.sessions, None, m);
            &&& t.sessions.len() == b.sessions.len()
            &&& t.sessions[i] == served(first, chosen(b.turns, groups), m, max, now)
            &&& t.turns == routing::turned(b.turns, groups)
            &&& t.retained == b.keeping(m).retained
            &&& t.storage == b.keeping(m).storage
        }),
{
    let m = w.message;
    let k = b.keeping(m);
    assert(k.sessions == b.sessions);
    routing_serves_each_session(
        b.sessions,
        b.turns,
        None,
        m,
        b.config.max_queued_messages as nat,
        now,
        i,
    );
}

proof fn lemma_permitted_is_filter(acl: AclView, who: Seq<char>, subs: Seq<SubscriptionView>)
    ensures
        permitted_subs(acl, who, subs) == subs.filter(
            |x: SubscriptionView| acl.may_subscribe(who, x.filter),
        ),
    decreases subs.len(),
{
    reveal(Seq::filter);
    if subs.len() > 0 {
        lemma_permitted_is_filter(acl, who, subs.drop_last());
    }
}

proof fn lemma_filter_all(
    subs: Seq<SubscriptionView>,
    p: spec_fn(SubscriptionView) -> bool,
)
    ensures
        subs.filter(p).len() <= subs.len(),
        subs.filter(p).len() == subs.len() <==> forall|k: int|
            0 <= k < subs.len() ==> p(#[trigger] subs[k]),
        subs.filter(p).len() == subs.len() ==> subs.filter(p) == subs,
    decreases subs.len(),
{
    reveal(Seq::filter);
    if subs.len() > 0 {
        let d = subs.drop_last();
        lemma_filter_all(d, p);
        assert forall|k: int| 0 <= k < d.len() implies #[trigger] d[k] == subs[k] by {}
        assert(subs[subs.len() - 1] == subs.last());
        if subs.filter(p).len() == subs.len() {
            assert(subs =~= d.push(subs.last()));
            assert forall|k: int| 0 <= k < subs.len() implies p(#[trigger] subs[k]) by {
                if k < d.len() {
                    assert(p(d[k]));
                }
            }
        }
        if forall|k: int| 0 <= k < subs.len() ==> p(#[trigger] subs[k]) {
            assert forall|k: int| 0 <= k < d.len() implies p(#[trigger] d[k]) by {
                assert(p(subs[k]));
            }
            assert(p(subs[subs.len() - 1]));
        }
    }
}

/// A policy that is put in place leaves each session exactly those of its
/// subscriptions that it permits, in order. A client that loses one is
/// disconnected for that reason; one that loses none notices nothing. A policy
/// that is not enforced touches no session.
pub proof fn policy_leaves_what_it_permits(b: BrokerView, acl: AclView, i: int)
    requires
        0 <= i < b.sessions.len(),
    ensures
        ({
            let t = b.on_policy(acl);
            let s = b.sessions[i];
            let w = t.sessions[i];
            let all = forall|k: int|
                0 <= k < s.subscriptions.len() ==> acl.may_subscribe(
                    who_is(s),
                    (#[trigger] s.subscriptions[k]).filter,
                );
            &&& t.acl == acl
            &&& t.sessions.len() == b.sessions.len()
            &&& t.retained == b.retained
            &&& !acl.enforced ==> t == (BrokerView { acl, ..b })
            &&& acl.enforced && all ==> w == s
            &&& acl.enforced && !all ==> w == (SessionView {
                subscriptions: s.subscriptions.filter(
                    |x: SubscriptionView| acl.may_subscribe(who_is(s), x.filter),
                ),
                out: match s.out {
                    Some(items) => Some(
                        items.push(OutgoingView::Shutdown(ReasonCode::NotAuthorized)),
                    ),
                    None => None,
                },
                ..s
            })
        }),
{
    let s = b.sessions[i];
    let p = |x: SubscriptionView| acl.may_subscribe(who_is(s), x.filter);
    lemma_permitted_is_filter(acl, who_is(s), s.subscriptions);
    lemma_filter_all(s.subscriptions, p);
    if acl.enforced {
        let all = forall|k: int|
            0 <= k < s.subscriptions.len() ==> acl.may_subscribe(
                who_is(s),
                (#[trigger] s.subscriptions[k]).filter,
            );
        if all {
            assert forall|k: int| 0 <= k < s.subscriptions.len() implies p(
                #[trigger] s.subscriptions[k],
            ) by {}
        } else {
            let k = choose|k: int|
                0 <= k < s.subscriptions.len() && !acl.may_subscribe(
                    who_is(s),
                    (#[trigger] s.subscriptions[k]).filter,
                );
            assert(!p(s.subscriptions[k]));
        }
    }
}

/// Purging keeps exactly the retained messages whose time has not come, in
/// order.
pub proof fn purge_keeps_what_has_not_expired(b: BrokerView, now: u64)
    ensures
        b.purged(now) == (BrokerView {
            retained: b.retained.filter(
                |r: RetainedView| !(r.message.expires_at matches Some(end) && end <= now),
            ),
            ..b
        }),
{
    lemma_unexpired_is_filter(b.retained, now);
}

proof fn lemma_unexpired_is_filter(s: Seq<RetainedView>, now: u64)
    ensures
        unexpired(s, now) == s.filter(
            |r: RetainedView| !(r.message.expires_at matches Some(end) && end <= now),
        ),
    decreases s.len(),
{
    reveal(Seq::filter);
    if s.len() > 0 {
        lemma_unexpired_is_filter(s.drop_last(), now);
    }
}

/// Whether a subscription is the one that a stored one says.
pub open spec fn is_loaded(sub: SubscriptionView, r: SubRecordView) -> bool {
    &&& match topic::parsed(r.filter) {
        Some((share, bare)) => sub.share_name == share && sub.filter == bare,
        None => sub.share_name is None && sub.filter == r.filter,
    }
    &&& sub.qos == r.qos
    &&& sub.no_local == r.no_local
    &&& sub.retain_as_published == r.retain_as_published
    &&& sub.retain_handling == r.retain_handling
    &&& sub.subscription_identifier == r.subscription_identifier
}

/// A stored session is there again after a start, with its expiry and each of
/// its subscriptions, without a connection and with nothing to deliver; of two
/// of one client the later counts.
pub proof fn stored_sessions_are_loaded(b: BrokerView, records: Seq<SessionRecordView>, i: int)
    requires
        b.wf(),
        0 <= i < records.len(),
        forall|j: int|
            i < j < records.len() ==> (#[trigger] records[j]).client_id != records[i].client_id,
    ensures
        ({
            let t = b.with_records(records);
            let r = records[i];
            let s = t.session(r.client_id)->0;
            &&& t.wf()
            &&& t.session(r.client_id) is Some
            &&& s.client_id == r.client_id
            &&& s.session_expiry_interval == r.session_expiry_interval
            &&& s.persistent
            &&& s.out is None
            &&& s.identity is None
            &&& s.will is None
            &&& s.queue.len() == 0
            &&& s.inflight() == 0
            &&& s.inbound_qos2.len() == 0
            &&& s.subscriptions.len() == r.subscriptions.len()
            &&& forall|k: int|
                0 <= k < r.subscriptions.len() ==> is_loaded(
                    #[trigger] s.subscriptions[k],
                    r.subscriptions[k],
                )
            &&& t.retained == b.retained
        }),
    decreases records.len(),
{
    let d = records.drop_last();
    let last = records.last();
    lemma_records_wf(b, d);
    let m = b.with_records(d);
    let s = session_of_record(last);
    assert(s.wf());
    lemma_with(m, s);
    if i < d.len() {
        assert forall|j: int| i < j < d.len() implies (#[trigger] d[j]).client_id != d[i].client_id by {
            assert(records[j].client_id != records[i].client_id);
        }
        stored_sessions_are_loaded(b, d, i);
        assert(records[records.len() - 1].client_id != records[i].client_id);
        lemma_with_other(m, s, records[i].client_id);
    }
}

proof fn lemma_records_wf(b: BrokerView, records: Seq<SessionRecordView>)
    requires
        b.wf(),
    ensures
        b.with_records(records).wf(),
        b.with_records(records).retained == b.retained,
    decreases records.len(),
{
    if records.len() > 0 {
        lemma_records_wf(b, records.drop_last());
        let s = session_of_record(records.last());
        assert(s.wf());
        lemma_with(b.with_records(records.drop_last()), s);
    }
}

/// Whether a delivery is what waits for the connection of a session.
pub open spec fn is_delivery_of(d: DeliveryView, s: SessionView) -> bool {
    &&& s.out == Some(d.items)
    &&& d.items.len() > 0
    &&& d.epoch == s.epoch
    &&& !d.closed
}

/// What is handed out to connections is all that waits for them: one delivery
/// for each session with something on its way, in order, whole, and to its own
/// connection; and then one, after which it is closed, for each connection that
/// lost its session. Nothing waits after that, and no session is otherwise
/// changed. The result names the sessions.
pub proof fn everything_is_handed_out(b: BrokerView) -> (ks: Seq<int>)
    ensures
        ({
            let first = session_deliveries(b.sessions);
            let rest = closing_deliveries(b.closing);
            let t = b.drained();
            &&& first.len() == ks.len()
            &&& goes_up(ks, b.sessions.len() as int)
            &&& forall|i: int|
                0 <= i < ks.len() ==> is_delivery_of(#[trigger] first[i], b.sessions[ks[i]])
            &&& forall|k: int|
                0 <= k < b.sessions.len() && has_items(#[trigger] b.sessions[k]) ==> ks.contains(k)
            &&& rest.len() == b.closing.len()
            &&& forall|k: int|
                0 <= k < rest.len() ==> #[trigger] rest[k] == (DeliveryView {
                    epoch: b.closing[k].epoch,
                    items: b.closing[k].items,
                    closed: true,
                })
            &&& t.closing.len() == 0
            &&& t.sessions.len() == b.sessions.len()
            &&& forall|k: int|
                0 <= k < b.sessions.len() ==> !has_items(#[trigger] t.sessions[k])
            &&& forall|k: int|
                0 <= k < b.sessions.len() ==> (#[trigger] t.sessions[k]) == (SessionView {
                    out: t.sessions[k].out,
                    ..b.sessions[k]
                })
            &&& forall|k: int|
                0 <= k < b.sessions.len() ==> (#[trigger] t.sessions[k]).online()
                    == b.sessions[k].online()
        }),
{
    lemma_handed_out(b.sessions)
}

/// Whether something waits for the connection of a session.
pub open spec fn has_items(s: SessionView) -> bool {
    s.out matches Some(items) && items.len() > 0
}

proof fn lemma_handed_out(s: Seq<SessionView>) -> (ks: Seq<int>)
    ensures
        session_deliveries(s).len() == ks.len(),
        goes_up(ks, s.len() as int),
        forall|i: int|
            0 <= i < ks.len() ==> is_delivery_of(#[trigger] session_deliveries(s)[i], s[ks[i]]),
        forall|k: int| 0 <= k < s.len() && has_items(#[trigger] s[k]) ==> ks.contains(k),
    decreases s.len(),
{
    if s.len() == 0 {
        Seq::empty()
    } else {
        let d = s.drop_last();
        let js = lemma_handed_out(d);
        let last = s.len() - 1;
        let before = session_deliveries(d);
        let all = session_deliveries(s);
        let ks = if has_items(s.last()) {
            js.push(last)
        } else {
            js
        };
        assert(goes_up(ks, s.len() as int)) by {
            assert forall|i: int, j: int| 0 <= i < j < ks.len() implies #[trigger] ks[i]
                < #[trigger] ks[j] by {
                if j < js.len() {
                    assert(js[i] < js[j]);
                } else {
                    assert(js[i] < d.len());
                }
            }
        }
        assert forall|i: int| 0 <= i < ks.len() implies is_delivery_of(
            #[trigger] all[i],
            s[ks[i]],
        ) by {
            if i < js.len() {
                assert(all[i] == before[i]);
                assert(0 <= js[i] < d.len());
                assert(d[js[i]] == s[ks[i]]);
            }
        }
        assert forall|k: int| 0 <= k < s.len() && has_items(#[trigger] s[k]) implies ks.contains(
            k,
        ) by {
            if k < last {
                assert(d[k] == s[k]);
                assert(js.contains(k));
                let i = choose|i: int| 0 <= i < js.len() && js[i] == k;
                assert(ks[i] == k);
            } else {
                assert(ks[js.len() as int] == k);
            }
        }
        ks
    }
}

/// A bridge has a session of its own on a new connection, in place of any of its
/// name, with nothing in it; a connection that had it is handed what waits for
/// it and closed.
pub proof fn bridge_has_a_session(b: BrokerView, client_id: Seq<char>)
    requires
        b.wf(),
        b.next_epoch < u64::MAX,
    ensures
        ({
            let t = b.with_bridge(client_id);
            let s = t.session(client_id)->0;
            &&& t.session(client_id) is Some
            &&& s.client_id == client_id
            &&& s.epoch == b.next_epoch
            &&& t.next_epoch == b.next_epoch + 1
            &&& s.identity == Some("$bridge"@)
            &&& s.out == Some(Seq::<OutgoingView>::empty())
            &&& s.subscriptions.len() == 0
            &&& s.queue.len() == 0
            &&& s.inflight() == 0
            &&& !s.persistent
            &&& s.session_expiry_interval == 0
            &&& s.will is None
            &&& t.storage == b.storage
            &&& t.retained == b.retained
            &&& b.session(client_id) matches Some(old) ==> (old.out matches Some(items)
                ==> t.closing == b.closing.push(ClosingView { epoch: old.epoch, items }))
            &&& forall|other: Seq<char>|
                other != client_id ==> #[trigger] t.session(other) == b.session(other)
        }),
{
    let s = crate::broker::bridges::bridge_session(client_id, b.next_epoch);
    assert(s.wf());
    lemma_differs(b, s);
    let t = b.with_bridge(client_id);
    assert(t.session(client_id) == b.with(s).session(client_id));
    assert forall|other: Seq<char>| other != client_id implies #[trigger] t.session(other)
        == b.session(other) by {
        assert(t.session(other) == b.with(s).session(other));
    }
}

/// A bridge that subscribes has one subscription more, ordinary, for its filter,
/// at QoS 0, with RETAIN as published and, where it asks so, without its own
/// messages.
pub proof fn bridge_subscribes(
    b: BrokerView,
    client_id: Seq<char>,
    filter: Seq<char>,
    no_local: bool,
)
    requires
        b.wf(),
        b.session(client_id) is Some,
    ensures
        ({
            let s = b.session(client_id)->0;
            let t = b.with_bridge_subscription(client_id, filter, no_local);
            let w = t.session(client_id)->0;
            let sub = w.subscriptions.last();
            &&& t.session(client_id) is Some
            &&& w == (SessionView { subscriptions: w.subscriptions, ..s })
            &&& w.subscriptions.len() == s.subscriptions.len() + 1
            &&& w.subscriptions.drop_last() == s.subscriptions
            &&& sub.filter == filter
            &&& sub.share_name is None
            &&& sub.qos.code() == 0
            &&& sub.no_local == no_local
            &&& sub.retain_as_published
            &&& sub.subscription_identifier is None
            &&& t.storage == b.storage
            &&& forall|other: Seq<char>|
                other != client_id ==> #[trigger] t.session(other) == b.session(other)
        }),
{
    let s = b.session(client_id)->0;
    lemma_session(b, client_id);
    let sub = crate::broker::bridges::bridge_subscription(filter, no_local);
    let w = SessionView { subscriptions: s.subscriptions.push(sub), ..s };
    assert(w.wf());
    assert(w.subscriptions.drop_last() =~= s.subscriptions);
    lemma_differs(b, w);
}

/// A bridge that ends has no session after that, where the session is still its
/// own; the connection is handed what waits for it and closed. Otherwise nothing
/// changes.
pub proof fn bridge_ends(b: BrokerView, client_id: Seq<char>, epoch: u64)
    requires
        b.wf(),
    ensures
        ({
            let t = b.without_bridge(client_id, epoch);
            let own = b.session(client_id) matches Some(s) && s.epoch == epoch;
            &&& !own ==> t == b
            &&& own ==> t.session(client_id) is None
            &&& own && (b.session(client_id)->0).out is Some ==> t.closing == b.closing.push(
                ClosingView { epoch, items: (b.session(client_id)->0).out->0 },
            )
            &&& t.storage == b.storage
            &&& t.retained == b.retained
            &&& forall|other: Seq<char>|
                other != client_id ==> #[trigger] t.session(other) == b.session(other)
        }),
{
    let t = b.without_bridge(client_id, epoch);
    lemma_without(b, client_id);
    if b.session(client_id) matches Some(s) && s.epoch == epoch {
        assert(t.session(client_id) == b.without(client_id).session(client_id));
        assert forall|other: Seq<char>| other != client_id implies #[trigger] t.session(other)
            == b.session(other) by {
            assert(t.session(other) == b.without(client_id).session(other));
        }
    }
}

/// Whether there is one retained message for a topic and it is this one.
pub open spec fn is_the_retained(s: Seq<RetainedView>, r: RetainedView) -> bool {
    &&& s.contains(r)
    &&& forall|k: int| 0 <= k < s.len() && (#[trigger] s[k]).topic == r.topic ==> s[k] == r
}

proof fn lemma_retained_with(s: Seq<RetainedView>, r: RetainedView)
    requires
        crate::broker::retained_wf(s),
    ensures
        crate::broker::retained_wf(crate::broker::retained_with(s, r)),
        is_the_retained(crate::broker::retained_with(s, r), r),
        forall|x: RetainedView|
            x.topic != r.topic ==> (#[trigger] crate::broker::retained_with(s, r).contains(x)
                <==> s.contains(x)),
{
    let k = crate::broker::retained_topics(s);
    let i = text::first_place(k, r.topic);
    text::lemma_first_place_is(k, r.topic);
    let t = crate::broker::retained_with(s, r);
    let at = if i < s.len() {
        i
    } else {
        s.len() as int
    };
    assert(t[at] == r);
    if i < s.len() {
        assert(k[i] == r.topic);
    }
    assert forall|a: int, b: int| 0 <= a < b < t.len() implies (#[trigger] t[a]).topic != (
    #[trigger] t[b]).topic by {
        if i < s.len() {
            assert(s[a].topic != s[b].topic);
        } else if b < s.len() {
            assert(s[a].topic != s[b].topic);
        } else {
            assert(k[a] != r.topic);
        }
    }
    assert forall|j: int| 0 <= j < t.len() && (#[trigger] t[j]).topic == r.topic implies t[j] == r by {
        if j < at {
            assert(t[j].topic != t[at].topic);
        } else if at < j {
            assert(t[at].topic != t[j].topic);
        }
    }
    assert forall|x: RetainedView| x.topic != r.topic implies (#[trigger] t.contains(x)
        <==> s.contains(x)) by {
        if s.contains(x) {
            let j = choose|j: int| 0 <= j < s.len() && s[j] == x;
            assert(t[j] == x);
        }
        if t.contains(x) {
            let j = choose|j: int| 0 <= j < t.len() && t[j] == x;
            assert(s[j] == x);
        }
    }
}

/// A stored retained message is there again after a start; of two of one topic
/// the later counts.
pub proof fn stored_messages_are_loaded(
    b: BrokerView,
    messages: Seq<(Seq<char>, MessageView)>,
    i: int,
)
    requires
        b.wf(),
        0 <= i < messages.len(),
        forall|j: int| i < j < messages.len() ==> (#[trigger] messages[j]).0 != messages[i].0,
    ensures
        is_the_retained(
            b.with_retained(messages).retained,
            RetainedView { topic: messages[i].0, message: messages[i].1, own: false },
        ),
        b.with_retained(messages).sessions == b.sessions,
    decreases messages.len(),
{
    let d = messages.drop_last();
    let last = messages.last();
    lemma_loaded_wf(b, d);
    let m = b.with_retained(d);
    let r = RetainedView { topic: last.0, message: last.1, own: false };
    lemma_retained_with(m.retained, r);
    if i < d.len() {
        assert forall|j: int| i < j < d.len() implies (#[trigger] d[j]).0 != d[i].0 by {
            assert(messages[j].0 != messages[i].0);
        }
        stored_messages_are_loaded(b, d, i);
        assert(messages[messages.len() - 1].0 != messages[i].0);
        let x = RetainedView { topic: messages[i].0, message: messages[i].1, own: false };
        let t = b.with_retained(messages).retained;
        assert(t.contains(x));
        assert forall|k: int| 0 <= k < t.len() && (#[trigger] t[k]).topic == x.topic implies t[k]
            == x by {
            assert(t.contains(t[k]));
            assert(m.retained.contains(t[k]));
            let j = choose|j: int| 0 <= j < m.retained.len() && m.retained[j] == t[k];
            assert(m.retained[j] == x);
        }
    }
}

proof fn lemma_loaded_wf(b: BrokerView, messages: Seq<(Seq<char>, MessageView)>)
    requires
        b.wf(),
    ensures
        crate::broker::retained_wf(b.with_retained(messages).retained),
        b.with_retained(messages).sessions == b.sessions,
    decreases messages.len(),
{
    if messages.len() > 0 {
        lemma_loaded_wf(b, messages.drop_last());
        let last = messages.last();
        lemma_retained_with(
            b.with_retained(messages.drop_last()).retained,
            RetainedView { topic: last.0, message: last.1, own: false },
        );
    }
}

/// A status message is the retained one of its topic, as UTF-8 text, at QoS 0
/// and without an expiry, and known as the broker's own; the retained messages
/// of other topics stay, and whoever subscribes to it gets it as a message of
/// nobody.
pub proof fn status_message_is_retained(
    b: BrokerView,
    topic: Seq<char>,
    payload: Seq<char>,
    now: u64,
    i: int,
) -> (m: MessageView)
    requires
        b.wf(),
        0 <= i < b.sessions.len(),
    ensures
        ({
            let t = b.reporting(topic, payload, now);
            let s = b.sessions[i];
            let o = offer(s.subscriptions, s.client_id, None, m);
            let max = b.config.max_queued_messages as nat;
            let first = match o.qos {
                Some(qos) => s.delivered(m, qos, o.retain, o.ids, max, now),
                None => s,
            };
            &&& m.topic == topic
            &&& m.payload == vstd::utf8::encode_utf8(payload)
            &&& m.qos.code() == 0
            &&& m.retain
            &&& m.expires_at is None
            &&& is_the_retained(t.retained, RetainedView { topic, message: m, own: true })
            &&& forall|x: RetainedView|
                x.topic != topic ==> (#[trigger] t.retained.contains(x) <==> b.retained.contains(x))
            &&& t.storage == b.storage
            &&& t.sessions.len() == b.sessions.len()
            &&& t.sessions[i] == served(
                first,
                chosen(b.turns, groups_of(b.sessions, None, m)),
                m,
                max,
                now,
            )
        }),
{
    let m = crate::broker::bridges::status_message(topic, payload);
    lemma_retained_with(b.retained, RetainedView { topic, message: m, own: true });
    routing_serves_each_session(
        b.sessions,
        b.turns,
        None,
        m,
        b.config.max_queued_messages as nat,
        now,
        i,
    );
    m
}

/// A policy takes a subscription out of the storage exactly where its session is
/// stored and the policy does not permit it, under the filter that the client
/// gave: the share in front of it, where it is shared.
pub proof fn revoked_subscriptions_leave_the_storage(
    st: crate::storage::StorageView,
    acl: AclView,
    who: Seq<char>,
    client_id: Seq<char>,
    subs: Seq<SubscriptionView>,
    x: SubscriptionView,
)
    ensures
        ({
            let before = crate::broker::authz::storage_revoking(st, acl, who, client_id, subs);
            crate::broker::authz::storage_revoking(st, acl, who, client_id, subs.push(x)) == (
            if acl.may_subscribe(who, x.filter) {
                before
            } else {
                before.sent(
                    CommandView::DeleteSubscription {
                        client_id,
                        filter: match x.share_name {
                            Some(name) => "$share/"@ + name + seq!['/'] + x.filter,
                            None => x.filter,
                        },
                    },
                )
            })
        }),
        crate::broker::authz::storage_revoking(st, acl, who, client_id, Seq::empty()) == st,
{
    assert(subs.push(x).drop_last() =~= subs);
}

/// A policy goes through the sessions one after another; one that is not stored
/// leaves the storage as it is.
pub proof fn policy_goes_through_the_sessions(
    st: crate::storage::StorageView,
    acl: AclView,
    sessions: Seq<SessionView>,
    s: SessionView,
)
    ensures
        storage_revoked(st, acl, sessions.push(s)) == (if s.persistent {
            crate::broker::authz::storage_revoking(
                storage_revoked(st, acl, sessions),
                acl,
                who_is(s),
                s.client_id,
                s.subscriptions,
            )
        } else {
            storage_revoked(st, acl, sessions)
        }),
        storage_revoked(st, acl, Seq::empty()) == st,
{
    assert(sessions.push(s).drop_last() =~= sessions);
}

} // verus!
