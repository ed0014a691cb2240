//! Laws of what the broker tells of itself, and of what it counts.

use vstd::prelude::*;
use crate::broker::delivery_laws::goes_up;
use crate::broker::session::{PendingView, SessionView, SubscriptionView};
use crate::broker::stats::{
    clients_are_online_or_offline, info_of, infos_of, queue_bytes, shared_count, totals,
    users_bytes, users_count, RetainedInfoView,
};
use crate::broker::{BrokerView, RetainedView};
use crate::text::has_prefix;

verus! {

/// Whether a retained message is one that users made: not by the broker itself,
/// and not on a topic of its own.
pub open spec fn is_of_users(r: RetainedView) -> bool {
    !r.own && !has_prefix(r.topic, "$SYS/"@)
}

/// Another session adds itself to what sessions add up to: to those with or
/// without a connection, all its subscriptions, the shared among them, all that
/// waits in its queue or for an acknowledgement, and the bytes in its queue.
pub proof fn session_adds_itself(s: Seq<SessionView>, x: SessionView)
    ensures
        ({
            let a = totals(s);
            let b = totals(s.push(x));
            &&& b.online == a.online + (if x.out is Some {
                1nat
            } else {
                0nat
            })
            &&& b.offline == a.offline + (if x.out is None {
                1nat
            } else {
                0nat
            })
            &&& b.subscriptions == a.subscriptions + x.subscriptions.len()
            &&& b.shared == a.shared + x.subscriptions.filter(
                |y: SubscriptionView| y.share_name is Some,
            ).len()
            &&& b.waiting == a.waiting + x.queue.len() + x.awaiting_puback.len()
                + x.awaiting_pubrec.len() + x.awaiting_pubcomp.len()
            &&& b.waiting_bytes == a.waiting_bytes + queue_bytes(x.queue)
        }),
{
    assert(s.push(x).drop_last() =~= s);
    lemma_shared_is_filter(x.subscriptions);
}

proof fn lemma_shared_is_filter(s: Seq<SubscriptionView>)
    ensures
        shared_count(s) == s.filter(|y: SubscriptionView| y.share_name is Some).len(),
    decreases s.len(),
{
    reveal(Seq::filter);
    if s.len() > 0 {
        lemma_shared_is_filter(s.drop_last());
    }
}

/// Another message adds its payload to the bytes of a queue; an empty queue has
/// none, and no sessions add up to nothing.
pub proof fn queued_message_adds_its_payload(q: Seq<PendingView>, p: PendingView)
    ensures
        queue_bytes(q.push(p)) == queue_bytes(q) + p.message.payload.len(),
        queue_bytes(Seq::empty()) == 0,
        totals(Seq::empty()).subscriptions == 0,
        totals(Seq::empty()).waiting == 0,
        totals(Seq::empty()).waiting_bytes == 0,
        totals(Seq::empty()).shared == 0,
{
    assert(q.push(p).drop_last() =~= q);
}

/// The retained messages that count are those of users.
pub proof fn users_messages_count(s: Seq<RetainedView>, r: RetainedView)
    ensures
        users_count(s) == s.filter(|x: RetainedView| is_of_users(x)).len(),
        users_bytes(s.push(r)) == users_bytes(s) + (if is_of_users(r) {
            r.message.payload.len()
        } else {
            0nat
        }),
    decreases s.len(),
{
    reveal(Seq::filter);
    assert(s.push(r).drop_last() =~= s);
    if s.len() > 0 {
        users_messages_count(s.drop_last(), r);
    }
}

/// The gauges tell what there is: sessions with and without a connection, which
/// are all of them, their subscriptions, the retained messages of users, and
/// what waits to be delivered.
pub proof fn gauges_tell_what_there_is(b: BrokerView, uptime: u64)
    requires
        b.sessions.len() <= u64::MAX,
        totals(b.sessions).subscriptions <= u64::MAX,
        totals(b.sessions).shared <= u64::MAX,
        users_count(b.retained) + totals(b.sessions).waiting <= u64::MAX,
        users_bytes(b.retained) + totals(b.sessions).waiting_bytes <= u64::MAX,
    ensures
        ({
            let s = b.statistics(uptime);
            let t = totals(b.sessions);
            let kept = b.retained.filter(|x: RetainedView| is_of_users(x)).len();
            &&& s.clients_total == b.sessions.len()
            &&& s.sessions_total == b.sessions.len()
            &&& s.clients_connected + s.clients_disconnected == s.clients_total
            &&& s.clients_connected == t.online
            &&& s.subscriptions_total == t.subscriptions
            &&& s.shared_subscriptions_count == t.shared
            &&& s.retained_messages == kept
            &&& s.retained_bytes == users_bytes(b.retained)
            &&& s.packet_out_count == t.waiting
            &&& s.packet_out_bytes == t.waiting_bytes
            &&& s.store_messages_count == kept + t.waiting
            &&& s.store_messages_bytes == s.retained_bytes + s.packet_out_bytes
            &&& s.uptime_seconds == uptime
        }),
{
    clients_are_online_or_offline(b.sessions);
    if b.retained.len() > 0 {
        users_messages_count(b.retained, b.retained[0]);
    } else {
        reveal(Seq::filter);
    }
}

/// The counters of a snapshot are those of the broker.
pub proof fn counters_are_told_as_they_are(b: BrokerView, uptime: u64)
    ensures
        ({
            let s = b.statistics(uptime);
            let m = b.metrics;
            &&& s.connections_total == m.connections_total
            &&& s.packets_received == m.packets_received
            &&& s.packets_sent == m.packets_sent
            &&& s.bytes_received == m.bytes_received
            &&& s.bytes_sent == m.bytes_sent
            &&& s.publish_received == m.publish_received
            &&& s.publish_delivered == m.publish_delivered
            &&& s.publish_dropped == m.publish_dropped
            &&& s.bridge_forwarded_out == m.bridge_forwarded_out
            &&& s.bridge_forwarded_in == m.bridge_forwarded_in
            &&& s.bridges_connected == m.bridges_connected
            &&& s.publish_bytes_received == m.publish_bytes_received
            &&& s.publish_bytes_sent == m.publish_bytes_sent
            &&& s.socket_connections == m.socket_connections
            &&& s.clients_expired == m.clients_expired
            &&& s.connections_rate_limited == m.connections_rate_limited
            &&& s.clients_maximum == m.clients_maximum
            &&& s.packet_received == m.packet_received
            &&& s.packet_sent == m.packet_sent
        }),
{
}

/// A session is listed as it is.
pub proof fn listed_session_is_as_it_is(s: SessionView)
    ensures
        ({
            let i = info_of(s);
            &&& i.client_id == s.client_id
            &&& i.online <==> s.out is Some
            &&& i.subscriptions == s.subscriptions.len()
            &&& i.inflight == s.awaiting_puback.len() + s.awaiting_pubrec.len()
                + s.awaiting_pubcomp.len()
            &&& i.queued == s.queue.len()
            &&& i.session_expiry == s.session_expiry_interval
            &&& i.persistent == s.persistent
        }),
{
}

/// Whether an entry lists a retained message of a user whose time has not come.
pub open spec fn lists(i: RetainedInfoView, r: RetainedView, now: u64) -> bool {
    &&& is_of_users(r)
    &&& !(r.message.expires_at matches Some(end) && end <= now)
    &&& i.topic == r.topic
    &&& i.payload_size == r.message.payload.len()
    &&& i.qos == r.message.qos.code()
}

/// The retained messages that are listed are exactly those of users whose time
/// has not come, each once. The result names them.
pub proof fn users_messages_are_listed(s: Seq<RetainedView>, now: u64) -> (ks: Seq<int>)
    ensures
        infos_of(s, now).len() == ks.len(),
        goes_up(ks, s.len() as int),
        forall|i: int| 0 <= i < ks.len() ==> lists(#[trigger] infos_of(s, now)[i], s[ks[i]], now),
        forall|k: int|
            0 <= k < s.len() && is_of_users(#[trigger] s[k]) && !(
            s[k].message.expires_at matches Some(end) && end <= now) ==> ks.contains(k),
    decreases s.len(),
{
    if s.len() == 0 {
        Seq::empty()
    } else {
        let d = s.drop_last();
        let js = users_messages_are_listed(d, now);
        let before = infos_of(d, now);
        let all = infos_of(s, now);
        let last = s.len() - 1;
        let x = s.last();
        let ks = if is_of_users(x) && !x.message.expired(now) {
            js.push(last)
        } else {
            js
        };
        assert(goes_up(ks, s.len() as int)) by {
            assert forall|i: int, j: int| 0 <= i < j < ks.len() implies #[trigger] ks[i]
                < #[trigger] ks[j] by {
                if j < js.len() {
                    assert(js[i] < js[j]);
                } else {
                    assert(js[i] < d.len());
                }
            }
        }
        assert forall|i: int| 0 <= i < ks.len() implies lists(#[trigger] all[i], s[ks[i]], now) by {
            if i < js.len() {
                assert(all[i] == before[i]);
                assert(0 <= js[i] < d.len());
                assert(d[js[i]] == s[ks[i]]);
                assert(lists(before[i], d[js[i]], now));
            }
        }
        assert forall|k: int|
            0 <= k < s.len() && is_of_users(#[trigger] s[k]) && !(
            s[k].message.expires_at matches Some(end) && end <= now) implies ks.contains(k) by {
            if k < last {
                assert(d[k] == s[k]);
                assert(js.contains(k));
                let i = choose|i: int| 0 <= i < js.len() && js[i] == k;
                assert(ks[i] == k);
            } else {
                assert(ks[js.len() as int] == k);
            }
        }
        ks
    }
}

/// A connection from a source counts as a socket, and as refused exactly where
/// the rate limiter does not let it in; nothing but the counters and the rate
/// limiter changes.
pub proof fn refused_sources_are_counted(b: BrokerView, source: Seq<char>, now: u64)
    requires
        b.metrics.socket_connections < u64::MAX,
        b.metrics.connections_rate_limited < u64::MAX,
    ensures
        ({
            let t = b.on_source(source, now);
            &&& t.metrics.socket_connections == b.metrics.socket_connections + 1
            &&& t.metrics.connections_rate_limited == b.metrics.connections_rate_limited + (
            if b.rate_limiter.allows(source, now) {
                0int
            } else {
                1int
            })
            &&& t == (BrokerView { metrics: t.metrics, rate_limiter: t.rate_limiter, ..b })
        }),
{
}

} // verus!
