//! What the broker tells of itself: statistics, clients and retained messages.

use vstd::prelude::*;
use crate::broker::connect::online_count;
use crate::broker::session::{Session, SessionView, SubscriptionView, PendingView};
use crate::broker::{Broker, BrokerView, Retained, RetainedView, SYS_PREFIX};
use crate::config::VERSION;
use crate::metrics::{counted, Metrics, Snapshot};
use crate::text;
use crate::text::{has_prefix, starts_with, text_less, text_precedes};

verus! {

broadcast use text::group_views;

/// A session, as it is listed.
#[derive(Debug)]
pub struct ClientInfo {
    pub client_id: String,
    pub online: bool,
    pub subscriptions: usize,
    pub inflight: usize,
    pub queued: usize,
    pub session_expiry: u32,
    pub persistent: bool,
}

/// What a listed session says.
pub struct ClientInfoView {
    pub client_id: Seq<char>,
    pub online: bool,
    pub subscriptions: nat,
    pub inflight: nat,
    pub queued: nat,
    pub session_expiry: u32,
    pub persistent: bool,
}

impl View for ClientInfo {
    type V = ClientInfoView;

    open spec fn view(&self) -> ClientInfoView {
        ClientInfoView {
            client_id: self.client_id@,
            online: self.online,
            subscriptions: self.subscriptions as nat,
            inflight: self.inflight as nat,
            queued: self.queued as nat,
            session_expiry: self.session_expiry,
            persistent: self.persistent,
        }
    }
}

/// A retained message, as it is listed.
#[derive(Debug)]
pub struct RetainedInfo {
    pub topic: String,
    pub payload_size: usize,
    pub qos: u8,
}

/// What a listed retained message says.
pub struct RetainedInfoView {
    pub topic: Seq<char>,
    pub payload_size: nat,
    pub qos: u8,
}

impl View for RetainedInfo {
    type V = RetainedInfoView;

    open spec fn view(&self) -> RetainedInfoView {
        RetainedInfoView {
            topic: self.topic@,
            payload_size: self.payload_size as nat,
            qos: self.qos,
        }
    }
}

/// How a session is listed.
pub open spec fn info_of(s: SessionView) -> ClientInfoView {
    ClientInfoView {
        client_id: s.client_id,
        online: s.online(),
        subscriptions: s.subscriptions.len(),
        inflight: s.inflight(),
        queued: s.queue.len(),
        session_expiry: s.session_expiry_interval,
        persistent: s.persistent,
    }
}

/// How a retained message is listed.
pub open spec fn retained_info(r: RetainedView) -> RetainedInfoView {
    RetainedInfoView {
        topic: r.topic,
        payload_size: r.message.payload.len(),
        qos: r.message.qos.code(),
    }
}

/// Whether clients are listed in the order of their identifiers.
pub open spec fn clients_sorted(s: Seq<ClientInfoView>) -> bool {
    forall|i: int, j: int|
        0 <= i < j < s.len() ==> text_precedes(
            (#[trigger] s[i]).client_id,
            (#[trigger] s[j]).client_id,
        )
}

/// Whether retained messages are listed in the order of their topics.
pub open spec fn retained_sorted(s: Seq<RetainedInfoView>) -> bool {
    forall|i: int, j: int|
        0 <= i < j < s.len() ==> text_precedes((#[trigger] s[i]).topic, (#[trigger] s[j]).topic)
}

/// Whether a retained message is one that users made: the broker did not make
/// it, and it is no status topic.
pub open spec fn is_users(r: RetainedView) -> bool {
    !r.own && !has_prefix(r.topic, SYS_PREFIX@)
}

/// The retained messages that have not expired.
pub open spec fn unexpired(s: Seq<RetainedView>, now: u64) -> Seq<RetainedView>
    decreases s.len(),
{
    if s.len() == 0 {
        s
    } else if s.last().message.expired(now) {
        unexpired(s.drop_last(), now)
    } else {
        unexpired(s.drop_last(), now).push(s.last())
    }
}

/// How many retained messages users made.
pub open spec fn users_count(s: Seq<RetainedView>) -> nat
    decreases s.len(),
{
    if s.len() == 0 {
        0
    } else {
        users_count(s.drop_last()) + (if is_users(s.last()) {
            1nat
        } else {
            0nat
        })
    }
}

/// How many payload bytes they hold.
pub open spec fn users_bytes(s: Seq<RetainedView>) -> nat
    decreases s.len(),
{
    if s.len() == 0 {
        0
    } else {
        users_bytes(s.drop_last()) + (if is_users(s.last()) {
            s.last().message.payload.len()
        } else {
            0nat
        })
    }
}

/// How many subscriptions are shared.
pub open spec fn shared_count(s: Seq<SubscriptionView>) -> nat
    decreases s.len(),
{
    if s.len() == 0 {
        0
    } else {
        shared_count(s.drop_last()) + (if s.last().share_name is Some {
            1nat
        } else {
            0nat
        })
    }
}

/// How many payload bytes a queue holds.
pub open spec fn queue_bytes(s: Seq<PendingView>) -> nat
    decreases s.len(),
{
    if s.len() == 0 {
        0
    } else {
        queue_bytes(s.drop_last()) + s.last().message.payload.len()
    }
}

/// What sessions add up to.
pub struct Totals {
    pub online: nat,
    pub offline: nat,
    pub subscriptions: nat,
    pub shared: nat,
    /// Messages in queues and deliveries that are not done.
    pub waiting: nat,
    /// Payload bytes in queues.
    pub waiting_bytes: nat,
}

pub open spec fn totals(s: Seq<SessionView>) -> Totals
    decreases s.len(),
{
    if s.len() == 0 {
        Totals {
            online: 0,
            offline: 0,
            subscriptions: 0,
            shared: 0,
            waiting: 0,
            waiting_bytes: 0,
        }
    } else {
        let t = totals(s.drop_last());
        let x = s.last();
        Totals {
            online: t.online + (if x.online() {
                1nat
            } else {
                0nat
            }),
            offline: t.offline + (if x.online() {
                0nat
            } else {
                1nat
            }),
            subscriptions: t.subscriptions + x.subscriptions.len(),
            shared: t.shared + shared_count(x.subscriptions),
            waiting: t.waiting + x.queue.len() + x.inflight(),
            waiting_bytes: t.waiting_bytes + queue_bytes(x.queue),
        }
    }
}

/// A number as a gauge shows it.
pub open spec fn shown(n: nat) -> u64 {
    counted(0, n)
}

impl BrokerView {
    /// The broker without retained messages that have expired.
    pub open spec fn purged(self, now: u64) -> BrokerView {
        BrokerView { retained: unexpired(self.retained, now), ..self }
    }

    /// The statistics of the broker.
    pub open spec fn statistics(self, uptime: u64) -> Snapshot {
        let t = totals(self.sessions);
        let kept = users_count(self.retained);
        let kept_bytes = users_bytes(self.retained);
        let m = self.metrics;
        Snapshot {
            connections_total: m.connections_total,
            packets_received: m.packets_received,
            packets_sent: m.packets_sent,
            bytes_received: m.bytes_received,
            bytes_sent: m.bytes_sent,
            publish_received: m.publish_received,
            publish_delivered: m.publish_delivered,
            publish_dropped: m.publish_dropped,
            bridge_forwarded_out: m.bridge_forwarded_out,
            bridge_forwarded_in: m.bridge_forwarded_in,
            publish_bytes_received: m.publish_bytes_received,
            publish_bytes_sent: m.publish_bytes_sent,
            socket_connections: m.socket_connections,
            clients_expired: m.clients_expired,
            connections_rate_limited: m.connections_rate_limited,
            packet_received: m.packet_received,
            packet_sent: m.packet_sent,
            clients_connected: shown(t.online),
            clients_disconnected: shown(t.offline),
            clients_total: shown(self.sessions.len()),
            clients_maximum: m.clients_maximum,
            sessions_total: shown(self.sessions.len()),
            retained_messages: shown(kept),
            retained_bytes: shown(kept_bytes),
            subscriptions_total: shown(t.subscriptions),
            shared_subscriptions_count: shown(t.shared),
            bridges_connected: m.bridges_connected,
            store_messages_count: shown(kept + t.waiting),
            store_messages_bytes: shown(kept_bytes + t.waiting_bytes),
            packet_out_count: shown(t.waiting),
            packet_out_bytes: shown(t.waiting_bytes),
            uptime_seconds: uptime,
            version: VERSION,
        }
    }

    /// The sessions, as they are listed.
    pub open spec fn client_infos(self) -> Seq<ClientInfoView> {
        Seq::new(self.sessions.len(), |i: int| info_of(self.sessions[i]))
    }

    /// The retained messages of users that have not expired, as they are
    /// listed.
    pub open spec fn retained_infos(self, now: u64) -> Seq<RetainedInfoView> {
        infos_of(self.retained, now)
    }
}

/// The retained messages of users that have not expired, as they are listed.
pub open spec fn infos_of(s: Seq<RetainedView>, now: u64) -> Seq<RetainedInfoView>
    decreases s.len(),
{
    if s.len() == 0 {
        Seq::empty()
    } else if is_users(s.last()) && !s.last().message.expired(now) {
        infos_of(s.drop_last(), now).push(retained_info(s.last()))
    } else {
        infos_of(s.drop_last(), now)
    }
}

/// Status messages do not count as retained messages of users.
pub proof fn own_messages_do_not_count(s: Seq<RetainedView>, now: u64)
    requires
        forall|i: int| 0 <= i < s.len() ==> !is_users(#[trigger] s[i]),
    ensures
        users_count(s) == 0,
        users_bytes(s) == 0,
        infos_of(s, now).len() == 0,
    decreases s.len(),
{
    if s.len() > 0 {
        let d = s.drop_last();
        assert forall|i: int| 0 <= i < d.len() implies !is_users(#[trigger] d[i]) by {
            assert(s[i] == d[i]);
        }
        assert(!is_users(s[s.len() - 1]));
        own_messages_do_not_count(d, now);
    }
}

/// Every session is either connected or not.
pub proof fn clients_are_online_or_offline(s: Seq<SessionView>)
    ensures
        totals(s).online + totals(s).offline == s.len(),
        totals(s).online == online_count(s),
    decreases s.len(),
{
    if s.len() > 0 {
        clients_are_online_or_offline(s.drop_last());
    }
}

proof fn lemma_shown(a: nat, b: nat)
    ensures
        counted(shown(a), b) == shown(a + b),
        shown(0) == 0,
{
    crate::metrics::lemma_counted(0, a, b);
}

proof fn lemma_unexpired(s: Seq<RetainedView>, now: u64)
    requires
        crate::broker::retained_wf(s),
    ensures
        crate::broker::retained_wf(unexpired(s, now)),
        forall|k: int|
            0 <= k < unexpired(s, now).len() ==> exists|i: int|
                0 <= i < s.len() && s[i] == #[trigger] unexpired(s, now)[k],
    decreases s.len(),
{
    if s.len() > 0 {
        let d = s.drop_last();
        assert(crate::broker::retained_wf(d)) by {
            assert forall|i: int, j: int| 0 <= i < j < d.len() implies (#[trigger] d[i]).topic != (
            #[trigger] d[j]).topic by {
                assert(s[i].topic != s[j].topic);
            }
        }
        lemma_unexpired(d, now);
        let u = unexpired(s, now);
        let v = unexpired(d, now);
        assert forall|k: int| 0 <= k < u.len() implies exists|i: int|
            0 <= i < s.len() && s[i] == #[trigger] u[k] by {
            if k < v.len() {
                assert(u[k] == v[k]);
                let i = choose|i: int| 0 <= i < d.len() && d[i] == v[k];
                assert(s[i] == u[k]);
            } else {
                assert(s[s.len() - 1] == u[k]);
            }
        }
        assert forall|a: int, b: int| 0 <= a < b < u.len() implies (#[trigger] u[a]).topic != (
        #[trigger] u[b]).topic by {
            assert(u[a] == v[a]);
            if b < v.len() {
                assert(v[a].topic != v[b].topic);
            } else {
                let i = choose|i: int| 0 <= i < d.len() && d[i] == v[a];
                assert(s[i].topic != s[s.len() - 1].topic);
            }
        }
    }
}

fn count_shared(s: &Session) -> (r: u64)
    ensures
        r == shown(shared_count(s@.subscriptions)),
{
    let ghost all = s@.subscriptions;
    let mut n: u64 = 0;
    let mut i: usize = 0;
    assert(all.take(0) =~= Seq::empty());
    while i < s.subscriptions.len()
        invariant
            i <= s.subscriptions.len(),
            all == text::views(s.subscriptions@),
            n == shown(shared_count(all.take(i as int))),
        decreases s.subscriptions.len() - i,
    {
        assert(all.take(i + 1).drop_last() =~= all.take(i as int));
        assert(all.take(i + 1).last() == s.subscriptions@[i as int]@);
        proof {
            lemma_shown(shared_count(all.take(i as int)), 1);
        }
        if s.subscriptions[i].share_name.is_some() {
            Metrics::inc(&mut n);
        }
        i = i + 1;
    }
    assert(all.take(all.len() as int) =~= all);
    n
}

fn count_queue_bytes(s: &Session) -> (r: u64)
    ensures
        r == shown(queue_bytes(s@.queue)),
{
    let ghost all = s@.queue;
    let mut n: u64 = 0;
    let mut i: usize = 0;
    assert(all.take(0) =~= Seq::empty());
    while i < s.queue.len()
        invariant
            i <= s.queue@.len(),
            all == text::views(s.queue@),
            n == shown(queue_bytes(all.take(i as int))),
        decreases s.queue@.len() - i,
    {
        assert(all.take(i + 1).drop_last() =~= all.take(i as int));
        assert(all.take(i + 1).last() == s.queue@[i as int]@);
        let len: usize = s.queue[i].message.payload.len();
        proof {
            lemma_shown(queue_bytes(all.take(i as int)), len as nat);
        }
        Metrics::add(&mut n, len as u64);
        i = i + 1;
    }
    assert(all.take(all.len() as int) =~= all);
    n
}

/// What sessions add up to, as gauges show it.
struct Gauges {
    online: u64,
    offline: u64,
    subscriptions: u64,
    shared: u64,
    waiting: u64,
    waiting_bytes: u64,
}

spec fn gauges_are(g: Gauges, t: Totals) -> bool {
    &&& g.online == shown(t.online)
    &&& g.offline == shown(t.offline)
    &&& g.subscriptions == shown(t.subscriptions)
    &&& g.shared == shown(t.shared)
    &&& g.waiting == shown(t.waiting)
    &&& g.waiting_bytes == shown(t.waiting_bytes)
}

fn add_session(g: &mut Gauges, s: &Session, Ghost(before): Ghost<Seq<SessionView>>)
    requires
        s@.wf(),
        gauges_are(*old(g), totals(before)),
    ensures
        gauges_are(*final(g), totals(before.push(s@))),
{
    let ghost t = totals(before);
    assert(before.push(s@).drop_last() =~= before);
    let shared: u64 = count_shared(s);
    let bytes: u64 = count_queue_bytes(s);
    proof {
        lemma_shown(t.online, 1);
        lemma_shown(t.offline, 1);
        lemma_shown(t.subscriptions, s@.subscriptions.len());
        lemma_shown(t.shared, shared_count(s@.subscriptions));
        lemma_shown(t.waiting, s@.queue.len());
        lemma_shown((t.waiting + s@.queue.len()) as nat, s@.inflight());
        lemma_shown(t.waiting_bytes, queue_bytes(s@.queue));
        lemma_counted_shown(shown(t.shared), shared_count(s@.subscriptions));
        lemma_counted_shown(shown(t.waiting_bytes), queue_bytes(s@.queue));
    }
    if s.is_online() {
        Metrics::inc(&mut g.online);
    } else {
        Metrics::inc(&mut g.offline);
    }
    Metrics::add(&mut g.subscriptions, s.subscriptions.len() as u64);
    Metrics::add(&mut g.shared, shared);
    Metrics::add(&mut g.waiting, s.queue.len() as u64);
    Metrics::add(&mut g.waiting, s.inflight_count() as u64);
    Metrics::add(&mut g.waiting_bytes, bytes);
}

/// Counting what a gauge shows of a number is counting the number.
proof fn lemma_counted_shown(c: u64, n: nat)
    ensures
        counted(c, shown(n) as nat) == counted(c, n),
{
    let k = 0x1_0000_0000_0000_0000nat;
    vstd::arithmetic::div_mod::lemma_add_mod_noop_right(c as int, n as int, k as int);
}

impl Broker {
    /// Takes out the retained messages that have expired.
    fn purge(&mut self, now: u64)
        requires
            old(self).wf(),
        ensures
            final(self)@ == old(self)@.purged(now),
            final(self).wf(),
    {
        let ghost before = self@;
        let ghost all = before.retained;
        proof {
            lemma_unexpired(all, now);
        }
        let n: usize = self.retained.len();
        let mut left: Vec<Retained> = Vec::new();
        std::mem::swap(&mut left, &mut self.retained);
        let mut kept: Vec<Retained> = Vec::new();
        let mut i: usize = 0;
        assert(all.take(0) =~= Seq::empty());
        assert(all.skip(0) =~= all);
        assert(text::views(kept@) =~= Seq::empty());
        while i < n
            invariant
                i <= n,
                n == all.len(),
                n == left@.len() + i,
                text::views(left@) == all.skip(i as int),
                text::views(kept@) == unexpired(all.take(i as int), now),
            decreases n - i,
        {
            assert(all.take(i + 1).drop_last() =~= all.take(i as int));
            let r: Retained = left.remove(0);
            assert(r@ == all.skip(i as int)[0]);
            assert(text::views(left@) =~= all.skip(i + 1));
            if !r.message.is_expired_at(now) {
                kept.push(r);
            }
            i = i + 1;
        }
        assert(all.take(n as int) =~= all);
        self.retained = kept;
        assert(self@ =~= before.purged(now));
    }

    /// What the sessions add up to.
    fn add_up(&self) -> (g: Gauges)
        requires
            self.wf(),
        ensures
            gauges_are(g, totals(self@.sessions)),
    {
        let ghost all = self@.sessions;
        let mut g: Gauges = Gauges {
            online: 0,
            offline: 0,
            subscriptions: 0,
            shared: 0,
            waiting: 0,
            waiting_bytes: 0,
        };
        let mut i: usize = 0;
        assert(all.take(0) =~= Seq::empty());
        while i < self.sessions.len()
            invariant
                i <= self.sessions.len(),
                self.wf(),
                all == self@.sessions,
                gauges_are(g, totals(all.take(i as int))),
            decreases self.sessions.len() - i,
        {
            assert(self.sessions@[i as int]@ == all[i as int]);
            assert(all.take(i + 1) =~= all.take(i as int).push(all[i as int]));
            add_session(&mut g, &self.sessions[i], Ghost(all.take(i as int)));
            i = i + 1;
        }
        assert(all.take(all.len() as int) =~= all);
        g
    }

    /// How many retained messages users made, and how many bytes they hold.
    fn add_up_retained(&self) -> (r: (u64, u64))
        ensures
            r.0 == shown(users_count(self@.retained)),
            r.1 == shown(users_bytes(self@.retained)),
    {
        let ghost all = self@.retained;
        let mut n: u64 = 0;
        let mut bytes: u64 = 0;
        let mut i: usize = 0;
        assert(all.take(0) =~= Seq::empty());
        while i < self.retained.len()
            invariant
                i <= self.retained.len(),
                all == text::views(self.retained@),
                n == shown(users_count(all.take(i as int))),
                bytes == shown(users_bytes(all.take(i as int))),
            decreases self.retained.len() - i,
        {
            let r: &Retained = &self.retained[i];
            assert(r@ == all[i as int]);
            assert(all.take(i + 1).drop_last() =~= all.take(i as int));
            proof {
                lemma_shown(users_count(all.take(i as int)), 1);
                lemma_shown(users_bytes(all.take(i as int)), r@.message.payload.len());
            }
            if !r.own && !starts_with(r.topic.as_str(), SYS_PREFIX) {
                Metrics::inc(&mut n);
                Metrics::add(&mut bytes, r.message.payload.len() as u64);
            }
            i = i + 1;
        }
        assert(all.take(all.len() as int) =~= all);
        (n, bytes)
    }

    /// The statistics of the broker. Retained messages that have expired are
    /// taken out.
    pub fn snapshot(&mut self, now: u64, uptime_seconds: u64) -> (r: Snapshot)
        requires
            old(self).wf(),
        ensures
            final(self)@ == old(self)@.purged(now),
            r == final(self)@.statistics(uptime_seconds),
            final(self).wf(),
    {
        self.purge(now);
        let g: Gauges = self.add_up();
        let (kept, kept_bytes): (u64, u64) = self.add_up_retained();
        let mut count: u64 = kept;
        Metrics::add(&mut count, g.waiting);
        let mut bytes: u64 = kept_bytes;
        Metrics::add(&mut bytes, g.waiting_bytes);
        let held: usize = self.sessions.len();
        proof {
            let t = totals(self@.sessions);
            lemma_counted_shown(kept, t.waiting);
            lemma_counted_shown(kept_bytes, t.waiting_bytes);
            lemma_shown(users_count(self@.retained), t.waiting);
            lemma_shown(users_bytes(self@.retained), t.waiting_bytes);
            assert(held as u64 == shown(self@.sessions.len()));
        }
        let m: &Metrics = &self.metrics;
        Snapshot {
            connections_total: m.connections_total,
            packets_received: m.packets_received,
            packets_sent: m.packets_sent,
            bytes_received: m.bytes_received,
            bytes_sent: m.bytes_sent,
            publish_received: m.publish_received,
            publish_delivered: m.publish_delivered,
            publish_dropped: m.publish_dropped,
            bridge_forwarded_out: m.bridge_forwarded_out,
            bridge_forwarded_in: m.bridge_forwarded_in,
            publish_bytes_received: m.publish_bytes_received,
            publish_bytes_sent: m.publish_bytes_sent,
            socket_connections: m.socket_connections,
            clients_expired: m.clients_expired,
            connections_rate_limited: m.connections_rate_limited,
            packet_received: m.packet_received,
            packet_sent: m.packet_sent,
            clients_connected: g.online,
            clients_disconnected: g.offline,
            clients_total: held as u64,
            clients_maximum: m.clients_maximum,
            sessions_total: held as u64,
            retained_messages: kept,
            retained_bytes: kept_bytes,
            subscriptions_total: g.subscriptions,
            shared_subscriptions_count: g.shared,
            bridges_connected: m.bridges_connected,
            store_messages_count: count,
            store_messages_bytes: bytes,
            packet_out_count: g.waiting,
            packet_out_bytes: g.waiting_bytes,
            uptime_seconds,
            version: VERSION,
        }
    }

    /// The sessions, in the order of their client identifiers.
    pub fn clients(&self) -> (r: Vec<ClientInfo>)
        requires
            self.wf(),
        ensures
            clients_sorted(text::views(r@)),
            text::views(r@).to_multiset() == self@.client_infos().to_multiset(),
    {
        let ghost all = self@.client_infos();
        let mut out: Vec<ClientInfo> = Vec::new();
        let mut i: usize = 0;
        assert(text::views(out@) =~= all.take(0));
        while i < self.sessions.len()
            invariant
                i <= self.sessions.len(),
                self.wf(),
                all == self@.client_infos(),
                clients_sorted(text::views(out@)),
                text::views(out@).to_multiset() == all.take(i as int).to_multiset(),
            decreases self.sessions.len() - i,
        {
            let s: &Session = &self.sessions[i];
            assert(s@ == self@.sessions[i as int]);
            let info: ClientInfo = ClientInfo {
                client_id: s.client_id.clone(),
                online: s.is_online(),
                subscriptions: s.subscriptions.len(),
                inflight: s.inflight_count(),
                queued: s.queue.len(),
                session_expiry: s.session_expiry_interval,
                persistent: s.persistent,
            };
            assert(info@ == all[i as int]);
            insert_client(&mut out, info);
            proof {
                assert(all.take(i + 1) =~= all.take(i as int).push(all[i as int]));
                vstd::seq_lib::to_multiset_build(all.take(i as int), all[i as int]);
            }
            i = i + 1;
        }
        assert(all.take(all.len() as int) =~= all);
        out
    }

    /// The retained messages of users, in the order of their topics.
    pub fn retained(&self, now: u64) -> (r: Vec<RetainedInfo>)
        ensures
            retained_sorted(text::views(r@)),
            text::views(r@).to_multiset() == self@.retained_infos(now).to_multiset(),
    {
        let ghost all = self@.retained;
        let mut out: Vec<RetainedInfo> = Vec::new();
        let mut i: usize = 0;
        assert(all.take(0) =~= Seq::empty());
        assert(text::views(out@) =~= infos_of(all.take(0), now));
        while i < self.retained.len()
            invariant
                i <= self.retained.len(),
                all == text::views(self.retained@),
                retained_sorted(text::views(out@)),
                text::views(out@).to_multiset() == infos_of(all.take(i as int), now).to_multiset(),
            decreases self.retained.len() - i,
        {
            let r: &Retained = &self.retained[i];
            assert(r@ == all[i as int]);
            assert(all.take(i + 1).drop_last() =~= all.take(i as int));
            if !r.own && !starts_with(r.topic.as_str(), SYS_PREFIX) && !r.message.is_expired_at(
                now,
            ) {
                let info: RetainedInfo = RetainedInfo {
                    topic: r.topic.clone(),
                    payload_size: r.message.payload.len(),
                    qos: r.message.qos.as_u8(),
                };
                assert(info@ == retained_info(all[i as int]));
                insert_retained(&mut out, info);
                proof {
                    vstd::seq_lib::to_multiset_build(
                        infos_of(all.take(i as int), now),
                        retained_info(all[i as int]),
                    );
                }
            }
            i = i + 1;
        }
        assert(all.take(all.len() as int) =~= all);
        out
    }
}

proof fn lemma_insert_multiset<T>(s: Seq<T>, i: int, x: T)
    requires
        0 <= i <= s.len(),
    ensures
        s.insert(i, x).to_multiset() == s.to_multiset().insert(x),
{
    broadcast use vstd::seq_lib::group_to_multiset_ensures;

    let t = s.insert(i, x);
    assert(t.remove(i) =~= s);
    assert(t[i] == x);
    assert(t.contains(x));
    vstd::seq_lib::to_multiset_remove(t, i);
    assert(t.to_multiset().count(x) > 0);
    assert(s.to_multiset().insert(x) =~= t.to_multiset());
}

/// Puts a client in its place in a sorted list.
fn insert_client(out: &mut Vec<ClientInfo>, info: ClientInfo)
    requires
        clients_sorted(text::views(old(out)@)),
    ensures
        clients_sorted(text::views(final(out)@)),
        text::views(final(out)@).to_multiset() == text::views(old(out)@).to_multiset().insert(
            info@,
        ),
{
    let ghost before = text::views(out@);
    let ghost x = info@;
    let mut i: usize = 0;
    while i < out.len() && text_less(out[i].client_id.as_str(), info.client_id.as_str())
        invariant
            i <= out.len(),
            before == text::views(out@),
            x == info@,
            clients_sorted(before),
            forall|j: int|
                0 <= j < i ==> text_precedes((#[trigger] before[j]).client_id, x.client_id),
        decreases out.len() - i,
    {
        assert(before[i as int] == out@[i as int]@);
        proof {
            text::lemma_less_precedes(before[i as int].client_id, x.client_id);
        }
        i = i + 1;
    }
    proof {
        lemma_insert_multiset(before, i as int, x);
        let t = before.insert(i as int, x);
        assert forall|a: int, b: int| 0 <= a < b < t.len() implies text_precedes(
            (#[trigger] t[a]).client_id,
            (#[trigger] t[b]).client_id,
        ) by {
            if a < i {
                if b < i {
                    assert(t[a] == before[a] && t[b] == before[b]);
                } else if b == i {
                    assert(t[a] == before[a]);
                } else {
                    assert(t[a] == before[a] && t[b] == before[b - 1]);
                }
            } else if a == i {
                assert(t[b] == before[b - 1]);
                assert(before[i as int] == out@[i as int]@);
                text::lemma_order(before[i as int].client_id, x.client_id);
                if b - 1 > i {
                    assert(text_precedes(before[i as int].client_id, before[b - 1].client_id));
                    text::lemma_precedes_transitive(
                        x.client_id,
                        before[i as int].client_id,
                        before[b - 1].client_id,
                    );
                }
            } else {
                assert(t[a] == before[a - 1] && t[b] == before[b - 1]);
            }
        }
    }
    let ghost held = out@;
    out.insert(i, info);
    assert(text::views(out@) =~= before.insert(i as int, x));
}

/// Puts a retained message in its place in a sorted list.
fn insert_retained(out: &mut Vec<RetainedInfo>, info: RetainedInfo)
    requires
        retained_sorted(text::views(old(out)@)),
    ensures
        retained_sorted(text::views(final(out)@)),
        text::views(final(out)@).to_multiset() == text::views(old(out)@).to_multiset().insert(
            info@,
        ),
{
    let ghost before = text::views(out@);
    let ghost x = info@;
    let mut i: usize = 0;
    while i < out.len() && text_less(out[i].topic.as_str(), info.topic.as_str())
        invariant
            i <= out.len(),
            before == text::views(out@),
            x == info@,
            retained_sorted(before),
            forall|j: int| 0 <= j < i ==> text_precedes((#[trigger] before[j]).topic, x.topic),
        decreases out.len() - i,
    {
        assert(before[i as int] == out@[i as int]@);
        proof {
            text::lemma_less_precedes(before[i as int].topic, x.topic);
        }
        i = i + 1;
    }
    proof {
        lemma_insert_multiset(before, i as int, x);
        let t = before.insert(i as int, x);
        assert forall|a: int, b: int| 0 <= a < b < t.len() implies text_precedes(
            (#[trigger] t[a]).topic,
            (#[trigger] t[b]).topic,
        ) by {
            if a < i {
                if b < i {
                    assert(t[a] == before[a] && t[b] == before[b]);
                } else if b == i {
                    assert(t[a] == before[a]);
                } else {
                    assert(t[a] == before[a] && t[b] == before[b - 1]);
                }
            } else if a == i {
                assert(t[b] == before[b - 1]);
                assert(before[i as int] == out@[i as int]@);
                text::lemma_order(before[i as int].topic, x.topic);
                if b - 1 > i {
                    assert(text_precedes(before[i as int].topic, before[b - 1].topic));
                    text::lemma_precedes_transitive(
                        x.topic,
                        before[i as int].topic,
                        before[b - 1].topic,
                    );
                }
            } else {
                assert(t[a] == before[a - 1] && t[b] == before[b - 1]);
            }
        }
    }
    out.insert(i, info);
    assert(text::views(out@) =~= before.insert(i as int, x));
}

} // verus!
