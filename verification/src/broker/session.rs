//! Session state of a client: its subscriptions, the QoS 1 and QoS 2 delivery
//! state machines, the offline message queue, and packet identifiers.

use std::collections::VecDeque;
use vstd::prelude::*;
use crate::message::{Message, MessageView};
use crate::packet::{Packet, PacketView, PubAckView, Publish, PublishView, RetainHandling};
use crate::codec::PropertiesView;
use crate::text;
use crate::text::{opt_str_eq, str_eq};
use crate::types::{QoS, ReasonCode};

verus! {

broadcast use text::group_views;

/// A message waiting in the queue of a session.
#[derive(Debug)]
pub struct Pending {
    pub message: Message,
    pub qos: QoS,
    pub retain: bool,
    pub subscription_ids: Vec<u32>,
}

/// What a waiting message says.
pub struct PendingView {
    pub message: MessageView,
    pub qos: QoS,
    pub retain: bool,
    pub subscription_ids: Seq<u32>,
}

impl View for Pending {
    type V = PendingView;

    open spec fn view(&self) -> PendingView {
        PendingView {
            message: self.message@,
            qos: self.qos,
            retain: self.retain,
            subscription_ids: self.subscription_ids@,
        }
    }
}

/// A subscription of a session.
#[derive(Debug)]
pub struct Subscription {
    /// Filter for matching, without a `$share/{name}/` prefix.
    pub filter: String,
    /// Share name of a shared subscription.
    pub share_name: Option<String>,
    pub qos: QoS,
    pub no_local: bool,
    pub retain_as_published: bool,
    pub retain_handling: RetainHandling,
    pub subscription_identifier: Option<u32>,
}

/// What a subscription says.
pub struct SubscriptionView {
    pub filter: Seq<char>,
    pub share_name: Option<Seq<char>>,
    pub qos: QoS,
    pub no_local: bool,
    pub retain_as_published: bool,
    pub retain_handling: RetainHandling,
    pub subscription_identifier: Option<u32>,
}

impl View for Subscription {
    type V = SubscriptionView;

    open spec fn view(&self) -> SubscriptionView {
        SubscriptionView {
            filter: self.filter@,
            share_name: text::opt_view(self.share_name),
            qos: self.qos,
            no_local: self.no_local,
            retain_as_published: self.retain_as_published,
            retain_handling: self.retain_handling,
            subscription_identifier: self.subscription_identifier,
        }
    }
}

impl SubscriptionView {
    /// What tells subscriptions of a session apart: share name and filter.
    pub open spec fn key(self) -> (Option<Seq<char>>, Seq<char>) {
        (self.share_name, self.filter)
    }
}

/// The keys of a list of subscriptions.
pub open spec fn sub_keys(s: Seq<SubscriptionView>) -> Seq<(Option<Seq<char>>, Seq<char>)> {
    Seq::new(s.len(), |i: int| s[i].key())
}

/// An item on its way to the writer of a connection.
#[derive(Debug)]
pub enum Outgoing {
    Send(Box<Publish>),
    /// Any control packet (acknowledgements and so on).
    Control(Box<Packet>),
    /// Ask the connection to send a DISCONNECT with this reason and close.
    Shutdown(ReasonCode),
}

/// What an item on its way out says.
pub enum OutgoingView {
    Send(PublishView),
    Control(PacketView),
    Shutdown(ReasonCode),
}

impl View for Outgoing {
    type V = OutgoingView;

    open spec fn view(&self) -> OutgoingView {
        match self {
            Outgoing::Send(p) => OutgoingView::Send((**p)@),
            Outgoing::Control(p) => OutgoingView::Control((**p)@),
            Outgoing::Shutdown(rc) => OutgoingView::Shutdown(*rc),
        }
    }
}

/// The keys of a list of pairs.
pub open spec fn keys<T>(s: Seq<(u16, T)>) -> Seq<u16> {
    Seq::new(s.len(), |i: int| s[i].0)
}

/// A list without the item of a key, if it is there.
pub open spec fn without<T>(s: Seq<(u16, T)>, id: u16) -> Seq<(u16, T)> {
    let i = text::first_place(keys(s), id);
    if i < s.len() {
        s.remove(i)
    } else {
        s
    }
}

/// A list of numbers without a number, if it is there.
pub open spec fn without_id(s: Seq<u16>, id: u16) -> Seq<u16> {
    let i = text::first_place(s, id);
    if i < s.len() {
        s.remove(i)
    } else {
        s
    }
}

/// The views of deliveries by their packet identifiers.
pub open spec fn inflight_views(s: Seq<(u16, Publish)>) -> Seq<(u16, PublishView)> {
    Seq::new(s.len(), |i: int| (s[i].0, s[i].1@))
}

/// The views of topic names by their aliases.
pub open spec fn alias_views(s: Seq<(u16, String)>) -> Seq<(u16, Seq<char>)> {
    Seq::new(s.len(), |i: int| (s[i].0, s[i].1@))
}

/// The items waiting on a connection.
pub open spec fn out_view(out: Option<Vec<Outgoing>>) -> Option<Seq<OutgoingView>> {
    match out {
        Some(v) => Some(text::views(v@)),
        None => None,
    }
}

pub struct Session {
    pub client_id: String,
    /// Authenticated identity, if there is one. Drives authorization.
    pub identity: Option<String>,
    /// Number of the network connection that this session is bound to; tells
    /// timers and connections of an earlier one apart.
    pub epoch: u64,
    /// What is on its way to the current connection, or `None` while there is
    /// no connection.
    pub out: Option<Vec<Outgoing>>,
    pub subscriptions: Vec<Subscription>,
    /// Whether this session is stored.
    pub persistent: bool,
    /// Session expiry interval in seconds (0: the session ends with its
    /// connection).
    pub session_expiry_interval: u32,
    /// Will message to publish on abnormal disconnection, and its delay.
    pub will: Option<(Message, u32)>,
    /// How many QoS 1 and 2 deliveries the client takes at a time.
    pub client_receive_maximum: u16,
    /// The largest packet that the client takes, if it says so.
    pub client_max_packet_size: Option<u32>,
    pub next_packet_id: u16,
    /// QoS 1 deliveries that wait for PUBACK.
    pub awaiting_puback: Vec<(u16, Publish)>,
    /// QoS 2 deliveries that wait for PUBREC.
    pub awaiting_pubrec: Vec<(u16, Publish)>,
    /// QoS 2 deliveries for which PUBREL was sent and that wait for PUBCOMP.
    pub awaiting_pubcomp: Vec<u16>,
    /// Messages to be delivered later, the oldest first.
    pub queue: VecDeque<Pending>,
    /// Packet identifiers of QoS 2 publications that wait for PUBREL.
    pub inbound_qos2: Vec<u16>,
    /// Topic names by the aliases that the client gave them.
    pub inbound_aliases: Vec<(u16, String)>,
}

/// The state of a session.
#[verifier::ext_equal]
pub struct SessionView {
    pub client_id: Seq<char>,
    pub identity: Option<Seq<char>>,
    pub epoch: u64,
    pub out: Option<Seq<OutgoingView>>,
    pub subscriptions: Seq<SubscriptionView>,
    pub persistent: bool,
    pub session_expiry_interval: u32,
    pub will: Option<(MessageView, u32)>,
    pub client_receive_maximum: u16,
    pub client_max_packet_size: Option<u32>,
    pub next_packet_id: u16,
    pub awaiting_puback: Seq<(u16, PublishView)>,
    pub awaiting_pubrec: Seq<(u16, PublishView)>,
    pub awaiting_pubcomp: Seq<u16>,
    pub queue: Seq<PendingView>,
    pub inbound_qos2: Seq<u16>,
    pub inbound_aliases: Seq<(u16, Seq<char>)>,
}

/// The will message and its delay.
pub open spec fn will_view(w: Option<(Message, u32)>) -> Option<(MessageView, u32)> {
    match w {
        Some(x) => Some((x.0@, x.1)),
        None => None,
    }
}

impl View for Session {
    type V = SessionView;

    open spec fn view(&self) -> SessionView {
        SessionView {
            client_id: self.client_id@,
            identity: text::opt_view(self.identity),
            epoch: self.epoch,
            out: out_view(self.out),
            subscriptions: text::views(self.subscriptions@),
            persistent: self.persistent,
            session_expiry_interval: self.session_expiry_interval,
            will: will_view(self.will),
            client_receive_maximum: self.client_receive_maximum,
            client_max_packet_size: self.client_max_packet_size,
            next_packet_id: self.next_packet_id,
            awaiting_puback: inflight_views(self.awaiting_puback@),
            awaiting_pubrec: inflight_views(self.awaiting_pubrec@),
            awaiting_pubcomp: self.awaiting_pubcomp@,
            queue: text::views(self.queue@),
            inbound_qos2: self.inbound_qos2@,
            inbound_aliases: alias_views(self.inbound_aliases@),
        }
    }
}

/// The packet identifier after another; identifiers go from 1 to 65535 and
/// round again.
pub open spec fn next_after(id: u16) -> u16 {
    if id == u16::MAX {
        1
    } else {
        (id + 1) as u16
    }
}

/// Whether no number occurs twice.
pub open spec fn distinct(s: Seq<u16>) -> bool {
    forall|i: int, j: int| 0 <= i < j < s.len() ==> #[trigger] s[i] != #[trigger] s[j]
}

/// Whether two lists share no number.
pub open spec fn disjoint(s: Seq<u16>, t: Seq<u16>) -> bool {
    forall|i: int, j: int|
        0 <= i < s.len() && 0 <= j < t.len() ==> #[trigger] s[i] != #[trigger] t[j]
}

impl SessionView {
    /// The state of a new session.
    pub open spec fn fresh(client_id: Seq<char>, expiry: u32) -> SessionView {
        SessionView {
            client_id,
            identity: None,
            epoch: 0,
            out: None,
            subscriptions: Seq::empty(),
            persistent: false,
            session_expiry_interval: expiry,
            will: None,
            client_receive_maximum: 65535,
            client_max_packet_size: None,
            next_packet_id: 1,
            awaiting_puback: Seq::empty(),
            awaiting_pubrec: Seq::empty(),
            awaiting_pubcomp: Seq::empty(),
            queue: Seq::empty(),
            inbound_qos2: Seq::empty(),
            inbound_aliases: Seq::empty(),
        }
    }

    /// Whether there is a connection.
    pub open spec fn online(self) -> bool {
        self.out is Some
    }

    /// The number of QoS 1 and 2 deliveries that are not done.
    pub open spec fn inflight(self) -> nat {
        self.awaiting_puback.len() + self.awaiting_pubrec.len() + self.awaiting_pubcomp.len()
    }

    /// Whether the client takes another QoS 1 or 2 delivery.
    pub open spec fn window_open(self) -> bool {
        self.inflight() < self.client_receive_maximum
    }

    /// Whether a delivery that is not done has this packet identifier.
    pub open spec fn id_in_use(self, id: u16) -> bool {
        ||| keys(self.awaiting_puback).contains(id)
        ||| keys(self.awaiting_pubrec).contains(id)
        ||| self.awaiting_pubcomp.contains(id)
    }

    /// The first unused packet identifier among the `n` from `id` on, and the
    /// identifier to go on with.
    pub open spec fn allocation_from(self, id: u16, n: nat) -> (Option<u16>, u16)
        decreases n,
    {
        if n == 0 {
            (None, id)
        } else if !self.id_in_use(id) {
            (Some(id), next_after(id))
        } else {
            self.allocation_from(next_after(id), (n - 1) as nat)
        }
    }

    /// The next unused packet identifier, and the one to go on with.
    pub open spec fn allocation(self) -> (Option<u16>, u16) {
        self.allocation_from(self.next_packet_id, 65536)
    }

    /// The session with one more item on its way to the connection; without a
    /// connection the item is lost.
    pub open spec fn sent(self, item: OutgoingView) -> SessionView {
        match self.out {
            Some(items) => SessionView { out: Some(items.push(item)), ..self },
            None => self,
        }
    }

    /// The invariant of a session: packet identifiers are never 0, no two
    /// deliveries share one, there are no more deliveries than identifiers, and
    /// no publication and no topic alias is remembered twice.
    pub open spec fn wf(self) -> bool {
        &&& self.next_packet_id != 0
        &&& self.inflight() <= 65535
        &&& distinct(keys(self.awaiting_puback))
        &&& distinct(keys(self.awaiting_pubrec))
        &&& distinct(self.awaiting_pubcomp)
        &&& disjoint(keys(self.awaiting_puback), keys(self.awaiting_pubrec))
        &&& disjoint(keys(self.awaiting_puback), self.awaiting_pubcomp)
        &&& disjoint(keys(self.awaiting_pubrec), self.awaiting_pubcomp)
        &&& !self.id_in_use(0)
        &&& distinct(self.inbound_qos2)
        &&& distinct(keys(self.inbound_aliases))
    }

    /// The session after it gives packet identifier `id` to the delivery of a
    /// message and sends it.
    pub open spec fn started(
        self,
        m: MessageView,
        qos: QoS,
        retain: bool,
        ids: Seq<u32>,
        id: u16,
        now: u64,
    ) -> SessionView {
        let p = m.publish(qos, Some(id), retain, ids, now);
        let s = match qos {
            QoS::AtMostOnce => self,
            QoS::AtLeastOnce => SessionView {
                awaiting_puback: self.awaiting_puback.push((id, p)),
                ..self
            },
            QoS::ExactlyOnce => SessionView {
                awaiting_pubrec: self.awaiting_pubrec.push((id, p)),
                ..self
            },
        };
        SessionView { next_packet_id: self.allocation().1, ..s }.sent(OutgoingView::Send(p))
    }

    /// Whether the delivery of a QoS 1 or 2 message can start now.
    pub open spec fn can_start(self) -> bool {
        self.online() && self.window_open()
    }

    /// The session with a message at the end of its queue. A full queue gives
    /// up its oldest message (`max_queued` of 0: never full).
    pub open spec fn queued(
        self,
        m: MessageView,
        qos: QoS,
        retain: bool,
        ids: Seq<u32>,
        max_queued: nat,
    ) -> SessionView {
        let kept = if self.queue_full(max_queued) {
            self.queue.skip(1)
        } else {
            self.queue
        };
        SessionView {
            queue: kept.push(PendingView { message: m, qos, retain, subscription_ids: ids }),
            ..self
        }
    }

    /// Whether the queue has no room for another message.
    pub open spec fn queue_full(self, max_queued: nat) -> bool {
        max_queued > 0 && self.queue.len() >= max_queued
    }

    /// The session after a message is delivered to it. An expired message is
    /// not. QoS 0 is sent at once or lost; QoS 1 and 2 are sent while there is
    /// a connection with room and a packet identifier, and queued otherwise.
    pub open spec fn delivered(
        self,
        m: MessageView,
        qos: QoS,
        retain: bool,
        ids: Seq<u32>,
        max_queued: nat,
        now: u64,
    ) -> SessionView {
        if m.expired(now) {
            self
        } else if qos is AtMostOnce {
            self.sent(OutgoingView::Send(m.publish(qos, None, retain, ids, now)))
        } else if self.can_start() {
            match self.allocation() {
                (Some(id), next) => self.started(m, qos, retain, ids, id, now),
                (None, next) => SessionView { next_packet_id: next, ..self }.queued(
                    m,
                    qos,
                    retain,
                    ids,
                    max_queued,
                ),
            }
        } else {
            self.queued(m, qos, retain, ids, max_queued)
        }
    }

    /// Whether that delivery costs the queue its oldest message.
    pub open spec fn delivery_drops(self, m: MessageView, qos: QoS, max_queued: nat, now: u64) -> bool {
        &&& !m.expired(now)
        &&& !(qos is AtMostOnce)
        &&& !(self.can_start() && self.allocation().0 is Some)
        &&& self.queue_full(max_queued)
    }

    /// The session after it sends from its queue while there is a connection
    /// with room; expired messages are left out.
    pub open spec fn flushed(self, now: u64) -> SessionView
        decreases self.queue.len(),
    {
        if !self.can_start() || self.queue.len() == 0 {
            self
        } else {
            let p = self.queue[0];
            let rest = SessionView { queue: self.queue.skip(1), ..self };
            if p.message.expired(now) {
                rest.flushed(now)
            } else {
                match self.allocation() {
                    (Some(id), next) => rest.started(
                        p.message,
                        p.qos,
                        p.retain,
                        p.subscription_ids,
                        id,
                        now,
                    ).flushed(now),
                    (None, next) => SessionView { next_packet_id: next, ..self },
                }
            }
        }
    }

    /// What is sent again when a session is resumed: deliveries that wait for
    /// PUBACK and PUBREC as duplicates, and PUBREL for those that wait for
    /// PUBCOMP.
    pub open spec fn redeliveries(self) -> Seq<OutgoingView> {
        redelivered(self.awaiting_puback) + redelivered(self.awaiting_pubrec) + pubrels(
            self.awaiting_pubcomp,
        )
    }

    /// The session after it is resumed: what was not acknowledged is sent
    /// again, then the queue.
    pub open spec fn resumed(self, now: u64) -> SessionView {
        match self.out {
            Some(items) => SessionView {
                out: Some(items + self.redeliveries()),
                ..self
            }.flushed(now),
            None => self,
        }
    }

    /// The session with a subscription, in place of one with the same key or
    /// at the end.
    pub open spec fn subscribed(self, sub: SubscriptionView) -> SessionView {
        let i = text::first_place(sub_keys(self.subscriptions), sub.key());
        SessionView {
            subscriptions: if i < self.subscriptions.len() {
                self.subscriptions.update(i, sub)
            } else {
                self.subscriptions.push(sub)
            },
            ..self
        }
    }

    /// Whether there is a subscription with the key.
    pub open spec fn has_subscription(self, key: (Option<Seq<char>>, Seq<char>)) -> bool {
        sub_keys(self.subscriptions).contains(key)
    }

    /// The session without the subscriptions that have the key.
    pub open spec fn unsubscribed(self, key: (Option<Seq<char>>, Seq<char>)) -> SessionView {
        SessionView { subscriptions: without_key(self.subscriptions, key), ..self }
    }
}

/// The subscriptions that do not have a key.
pub open spec fn without_key(
    s: Seq<SubscriptionView>,
    key: (Option<Seq<char>>, Seq<char>),
) -> Seq<SubscriptionView>
    decreases s.len(),
{
    if s.len() == 0 {
        s
    } else if s.last().key() == key {
        without_key(s.drop_last(), key)
    } else {
        without_key(s.drop_last(), key).push(s.last())
    }
}

/// Deliveries sent again, marked as duplicates.
pub open spec fn redelivered(s: Seq<(u16, PublishView)>) -> Seq<OutgoingView> {
    Seq::new(s.len(), |i: int| OutgoingView::Send(PublishView { dup: true, ..s[i].1 }))
}

/// A successful acknowledgement of a packet identifier.
pub open spec fn ack_view(packet_id: u16, reason_code: ReasonCode) -> PubAckView {
    PubAckView { packet_id, reason_code, properties: PropertiesView::empty() }
}

/// PUBREL for each packet identifier.
pub open spec fn pubrels(s: Seq<u16>) -> Seq<OutgoingView> {
    Seq::new(
        s.len(),
        |i: int| OutgoingView::Control(PacketView::Pubrel(ack_view(s[i], ReasonCode::Success))),
    )
}

/// An allocated packet identifier is not 0 and not in use.
pub proof fn allocated_id_is_free(s: SessionView, id: u16, n: nat)
    requires
        id != 0,
    ensures
        s.allocation_from(id, n).1 != 0,
        s.allocation_from(id, n).0 matches Some(x) ==> x != 0 && !s.id_in_use(x),
    decreases n,
{
    if n > 0 && s.id_in_use(id) {
        allocated_id_is_free(s, next_after(id), (n - 1) as nat);
    }
}

/// The identifier that is `k` steps after `id`.
spec fn steps_after(id: u16, k: nat) -> u16
    decreases k,
{
    if k == 0 {
        id
    } else {
        steps_after(next_after(id), (k - 1) as nat)
    }
}

proof fn lemma_steps(id: u16, k: nat)
    requires
        id != 0,
        k <= 65535,
    ensures
        steps_after(id, k) == (if id + k <= 65535 {
            (id + k) as u16
        } else {
            (id + k - 65535) as u16
        }),
    decreases k,
{
    if k > 0 {
        lemma_steps(next_after(id), (k - 1) as nat);
        if id == u16::MAX {
            assert(next_after(id) == 1);
        }
    }
}

proof fn lemma_none_means_used(s: SessionView, id: u16, n: nat, k: nat)
    requires
        s.allocation_from(id, n).0 is None,
        k < n,
    ensures
        s.id_in_use(steps_after(id, k)),
    decreases n,
{
    if k > 0 {
        lemma_none_means_used(s, next_after(id), (n - 1) as nat, (k - 1) as nat);
    }
}

/// Packet identifiers are exhausted only when every one of them is in use.
pub proof fn exhausted_only_when_all_in_use(s: SessionView, x: u16)
    requires
        s.next_packet_id != 0,
        s.allocation().0 is None,
        x != 0,
    ensures
        s.id_in_use(x),
{
    let id = s.next_packet_id;
    let k: nat = if x >= id {
        (x - id) as nat
    } else {
        (x + 65535 - id) as nat
    };
    lemma_steps(id, k);
    lemma_none_means_used(s, id, 65536, k);
}

proof fn lemma_push_keys<T>(s: Seq<(u16, T)>, id: u16, x: T)
    ensures
        keys(s.push((id, x))) == keys(s).push(id),
{
    assert(keys(s.push((id, x))) =~= keys(s).push(id));
}

proof fn lemma_contains_push(s: Seq<u16>, id: u16, x: u16)
    ensures
        s.push(id).contains(x) <==> s.contains(x) || x == id,
{
    assert(s.push(id)[s.len() as int] == id);
    if s.contains(x) {
        let k = choose|k: int| 0 <= k < s.len() && s[k] == x;
        assert(s.push(id)[k] == x);
    }
}

proof fn lemma_distinct_push(s: Seq<u16>, id: u16)
    requires
        distinct(s),
        !s.contains(id),
    ensures
        distinct(s.push(id)),
{
    assert forall|i: int, j: int| 0 <= i < j < s.push(id).len() implies #[trigger] s.push(id)[i]
        != #[trigger] s.push(id)[j] by {
        if j == s.len() {
            assert(s[i] != id);
        }
    }
}

proof fn lemma_disjoint_push(s: Seq<u16>, t: Seq<u16>, id: u16)
    requires
        disjoint(s, t),
        !t.contains(id),
    ensures
        disjoint(s.push(id), t),
        disjoint(t, s) ==> disjoint(t, s.push(id)),
{
}

/// A started delivery keeps the invariant.
pub proof fn lemma_started_wf(
    s: SessionView,
    m: MessageView,
    qos: QoS,
    retain: bool,
    ids: Seq<u32>,
    id: u16,
    now: u64,
)
    requires
        s.wf(),
        s.window_open(),
        s.allocation().0 == Some(id),
    ensures
        s.started(m, qos, retain, ids, id, now).wf(),
{
    allocated_id_is_free(s, s.next_packet_id, 65536);
    let p = m.publish(qos, Some(id), retain, ids, now);
    let pa = keys(s.awaiting_puback);
    let pr = keys(s.awaiting_pubrec);
    let pc = s.awaiting_pubcomp;
    lemma_push_keys(s.awaiting_puback, id, p);
    lemma_push_keys(s.awaiting_pubrec, id, p);
    lemma_contains_push(pa, id, 0);
    lemma_contains_push(pr, id, 0);
    lemma_distinct_push(pa, id);
    lemma_distinct_push(pr, id);
    lemma_disjoint_push(pa, pr, id);
    lemma_disjoint_push(pa, pc, id);
    lemma_disjoint_push(pr, pc, id);
    assert forall|i: int, j: int| 0 <= i < pa.len() && 0 <= j < pr.push(id).len() implies
        #[trigger] pa[i] != #[trigger] pr.push(id)[j] by {
        if j == pr.len() {
            assert(pa.contains(pa[i]));
        }
    }
}

/// Delivering a message keeps the invariant of the session.
pub proof fn delivery_keeps_session_wf(
    s: SessionView,
    m: MessageView,
    qos: QoS,
    retain: bool,
    ids: Seq<u32>,
    max_queued: nat,
    now: u64,
)
    requires
        s.wf(),
    ensures
        s.delivered(m, qos, retain, ids, max_queued, now).wf(),
{
    allocated_id_is_free(s, s.next_packet_id, 65536);
    if !m.expired(now) && !(qos is AtMostOnce) && s.can_start() {
        if let (Some(id), next) = s.allocation() {
            lemma_started_wf(s, m, qos, retain, ids, id, now);
        }
    }
}

/// A delivery never makes the queue longer than its bound, unless it was
/// longer before.
pub proof fn delivery_keeps_queue_bound(
    s: SessionView,
    m: MessageView,
    qos: QoS,
    retain: bool,
    ids: Seq<u32>,
    max_queued: nat,
    now: u64,
)
    requires
        max_queued > 0,
        s.queue.len() <= max_queued,
    ensures
        s.delivered(m, qos, retain, ids, max_queued, now).queue.len() <= max_queued,
{
}

/// With a bound of 0 a delivery never costs the queue a message.
pub proof fn unbounded_queue_never_drops(s: SessionView, m: MessageView, qos: QoS, now: u64)
    ensures
        !s.delivery_drops(m, qos, 0, now),
{
}

/// A delivery never starts beyond the number of deliveries that the client
/// takes at a time.
pub proof fn delivery_keeps_receive_maximum(
    s: SessionView,
    m: MessageView,
    qos: QoS,
    retain: bool,
    ids: Seq<u32>,
    max_queued: nat,
    now: u64,
)
    requires
        s.inflight() <= s.client_receive_maximum,
    ensures
        s.delivered(m, qos, retain, ids, max_queued, now).inflight() <= s.client_receive_maximum,
{
}

/// Sending from the queue keeps the invariant of the session and the number of
/// deliveries that the client takes at a time.
pub proof fn flush_keeps_session_wf(s: SessionView, now: u64)
    requires
        s.wf(),
    ensures
        s.flushed(now).wf(),
        s.flushed(now).client_id == s.client_id,
        s.flushed(now).epoch == s.epoch,
        s.flushed(now).queue.len() <= s.queue.len(),
        s.inflight() <= s.client_receive_maximum ==> s.flushed(now).inflight()
            <= s.client_receive_maximum,
    decreases s.queue.len(),
{
    if s.can_start() && s.queue.len() > 0 {
        let p = s.queue[0];
        let rest = SessionView { queue: s.queue.skip(1), ..s };
        lemma_alloc_ignores_queue(s, rest, s.next_packet_id, 65536);
        allocated_id_is_free(s, s.next_packet_id, 65536);
        if p.message.expired(now) {
            flush_keeps_session_wf(rest, now);
        } else if let (Some(id), next) = s.allocation() {
            lemma_started_wf(rest, p.message, p.qos, p.retain, p.subscription_ids, id, now);
            flush_keeps_session_wf(
                rest.started(p.message, p.qos, p.retain, p.subscription_ids, id, now),
                now,
            );
        }
    }
}

/// Resuming keeps the invariant of the session.
pub proof fn resume_keeps_session_wf(s: SessionView, now: u64)
    requires
        s.wf(),
    ensures
        s.resumed(now).wf(),
        s.resumed(now).client_id == s.client_id,
        s.resumed(now).epoch == s.epoch,
{
    if let Some(items) = s.out {
        flush_keeps_session_wf(
            SessionView { out: Some(items + s.redeliveries()), ..s },
            now,
        );
    }
}

/// Allocation depends on the deliveries that are not done alone.
pub proof fn lemma_alloc_ignores_queue(s: SessionView, t: SessionView, id: u16, n: nat)
    requires
        s.awaiting_puback == t.awaiting_puback,
        s.awaiting_pubrec == t.awaiting_pubrec,
        s.awaiting_pubcomp == t.awaiting_pubcomp,
    ensures
        s.allocation_from(id, n) == t.allocation_from(id, n),
    decreases n,
{
    if n > 0 {
        lemma_alloc_ignores_queue(s, t, next_after(id), (n - 1) as nat);
    }
}

/// After a subscription is set it is there, and the others are as they were.
pub proof fn subscribing_sets_one_subscription(s: SessionView, sub: SubscriptionView)
    ensures
        s.subscribed(sub).subscriptions.contains(sub),
        s.has_subscription(sub.key()) ==> s.subscribed(sub).subscriptions.len()
            == s.subscriptions.len(),
        forall|x: SubscriptionView|
            x.key() != sub.key() ==> (s.subscriptions.contains(x) <==> #[trigger] s.subscribed(
                sub,
            ).subscriptions.contains(x)),
{
    let ks = sub_keys(s.subscriptions);
    let i = text::first_place(ks, sub.key());
    text::lemma_first_place_is(ks, sub.key());
    let after = s.subscribed(sub).subscriptions;
    if i < s.subscriptions.len() {
        assert(after[i] == sub);
    } else {
        assert(after[s.subscriptions.len() as int] == sub);
    }
    assert forall|x: SubscriptionView| x.key() != sub.key() implies (s.subscriptions.contains(x)
        <==> #[trigger] after.contains(x)) by {
        if s.subscriptions.contains(x) {
            let k = choose|k: int| 0 <= k < s.subscriptions.len() && s.subscriptions[k] == x;
            if i < s.subscriptions.len() {
                assert(ks[i] == s.subscriptions[i].key());
            }
            assert(after[k] == x);
        }
        if after.contains(x) {
            let k = choose|k: int| 0 <= k < after.len() && after[k] == x;
            assert(k < s.subscriptions.len() && k != i);
            assert(s.subscriptions[k] == x);
        }
    }
}

proof fn lemma_without_key(s: Seq<SubscriptionView>, key: (Option<Seq<char>>, Seq<char>))
    ensures
        without_key(s, key).len() <= s.len(),
        without_key(s, key).len() == s.len() <==> !sub_keys(s).contains(key),
        !sub_keys(without_key(s, key)).contains(key),
        forall|x: SubscriptionView|
            x.key() != key ==> (s.contains(x) <==> #[trigger] without_key(s, key).contains(x)),
    decreases s.len(),
{
    if s.len() > 0 {
        let d = s.drop_last();
        let w = without_key(d, key);
        lemma_without_key(d, key);
        assert(sub_keys(s) =~= sub_keys(d).push(s.last().key()));
        assert(sub_keys(s)[s.len() - 1] == s.last().key());
        if sub_keys(d).contains(key) {
            let k = choose|k: int| 0 <= k < d.len() && sub_keys(d)[k] == key;
            assert(sub_keys(s)[k] == key);
        }
        if sub_keys(s).contains(key) {
            let k = choose|k: int| 0 <= k < s.len() && sub_keys(s)[k] == key;
            if k < d.len() {
                assert(sub_keys(d)[k] == key);
            }
        }
        let after = without_key(s, key);
        if s.last().key() != key {
            assert(sub_keys(after) =~= sub_keys(w).push(s.last().key()));
            if sub_keys(after).contains(key) {
                let k = choose|k: int| 0 <= k < after.len() && sub_keys(after)[k] == key;
                assert(k < w.len());
                assert(sub_keys(w)[k] == key);
            }
        }
        assert forall|x: SubscriptionView| x.key() != key implies (s.contains(x)
            <==> #[trigger] after.contains(x)) by {
            if s.contains(x) {
                let k = choose|k: int| 0 <= k < s.len() && s[k] == x;
                if k < d.len() {
                    assert(d[k] == x);
                    assert(d.contains(x));
                    assert(w.contains(x));
                    let j = choose|j: int| 0 <= j < w.len() && w[j] == x;
                    assert(after[j] == x);
                } else {
                    assert(after[after.len() - 1] == x);
                }
            }
            if after.contains(x) {
                let k = choose|k: int| 0 <= k < after.len() && after[k] == x;
                if k < w.len() {
                    assert(w[k] == x);
                    assert(w.contains(x));
                    let j = choose|j: int| 0 <= j < d.len() && d[j] == x;
                    assert(s[j] == x);
                } else {
                    assert(s[s.len() - 1] == x);
                }
            }
        }
    }
}

/// After a subscription is removed it is gone, and the others are as they
/// were.
pub proof fn unsubscribing_removes_one_subscription(
    s: SessionView,
    key: (Option<Seq<char>>, Seq<char>),
)
    ensures
        !s.unsubscribed(key).has_subscription(key),
        !s.has_subscription(key) ==> s.unsubscribed(key).subscriptions.len()
            == s.subscriptions.len(),
        forall|x: SubscriptionView|
            x.key() != key ==> (s.subscriptions.contains(x) <==> #[trigger] s.unsubscribed(
                key,
            ).subscriptions.contains(x)),
{
    lemma_without_key(s.subscriptions, key);
}

/// The place of a packet identifier.
pub(crate) fn find_id(s: &Vec<u16>, id: u16) -> (r: usize)
    ensures
        r == text::first_place(s@, id),
        r <= s@.len(),
{
    let mut i: usize = 0;
    while i < s.len()
        invariant
            i <= s.len(),
            forall|j: int| 0 <= j < i ==> #[trigger] s@[j] != id,
        decreases s.len() - i,
    {
        if s[i] == id {
            proof {
                text::lemma_first_place(s@, id, i as int);
            }
            return i;
        }
        i = i + 1;
    }
    proof {
        text::lemma_first_place(s@, id, i as int);
    }
    i
}

/// The place of a packet identifier in a list of pairs.
pub(crate) fn find_key<T>(s: &Vec<(u16, T)>, id: u16) -> (r: usize)
    ensures
        r == text::first_place(keys(s@), id),
        r <= s@.len(),
{
    let mut i: usize = 0;
    while i < s.len()
        invariant
            i <= s.len(),
            forall|j: int| 0 <= j < i ==> #[trigger] keys(s@)[j] != id,
        decreases s.len() - i,
    {
        if s[i].0 == id {
            proof {
                text::lemma_first_place(keys(s@), id, i as int);
            }
            return i;
        }
        i = i + 1;
    }
    proof {
        text::lemma_first_place(keys(s@), id, i as int);
    }
    i
}

pub(crate) proof fn lemma_inflight_keys(s: Seq<(u16, Publish)>)
    ensures
        keys(inflight_views(s)) == keys(s),
{
    assert(keys(inflight_views(s)) =~= keys(s));
}

pub(crate) proof fn lemma_alias_keys(s: Seq<(u16, String)>)
    ensures
        keys(alias_views(s)) == keys(s),
{
    assert(keys(alias_views(s)) =~= keys(s));
}

impl Session {
    pub fn new(client_id: String, session_expiry_interval: u32) -> (r: Self)
        ensures
            r@ == SessionView::fresh(client_id@, session_expiry_interval),
            r@.wf(),
    {
        let s: Session = Session {
            client_id,
            identity: None,
            epoch: 0,
            out: None,
            subscriptions: Vec::new(),
            persistent: false,
            session_expiry_interval,
            will: None,
            client_receive_maximum: 65_535,
            client_max_packet_size: None,
            next_packet_id: 1,
            awaiting_puback: Vec::new(),
            awaiting_pubrec: Vec::new(),
            awaiting_pubcomp: Vec::new(),
            queue: VecDeque::new(),
            inbound_qos2: Vec::new(),
            inbound_aliases: Vec::new(),
        };
        assert(s@ =~= SessionView::fresh(client_id@, session_expiry_interval));
        s
    }

    /// Whether the session has a connection.
    pub fn is_online(&self) -> (r: bool)
        ensures
            r == self@.online(),
    {
        self.out.is_some()
    }

    /// Number of QoS 1 and 2 deliveries that are not done.
    pub fn inflight_count(&self) -> (r: usize)
        requires
            self@.wf(),
        ensures
            r == self@.inflight(),
    {
        self.awaiting_puback.len() + self.awaiting_pubrec.len() + self.awaiting_pubcomp.len()
    }

    /// Whether the client takes another QoS 1 or 2 delivery.
    pub fn window_open(&self) -> (r: bool)
        requires
            self@.wf(),
        ensures
            r == self@.window_open(),
    {
        self.inflight_count() < self.client_receive_maximum as usize
    }

    fn id_in_use(&self, id: u16) -> (r: bool)
        ensures
            r == self@.id_in_use(id),
    {
        proof {
            lemma_inflight_keys(self.awaiting_puback@);
            lemma_inflight_keys(self.awaiting_pubrec@);
            text::lemma_first_place_is(keys(self.awaiting_puback@), id);
            text::lemma_first_place_is(keys(self.awaiting_pubrec@), id);
            text::lemma_first_place_is(self.awaiting_pubcomp@, id);
        }
        find_key(&self.awaiting_puback, id) < self.awaiting_puback.len() || find_key(
            &self.awaiting_pubrec,
            id,
        ) < self.awaiting_pubrec.len() || find_id(&self.awaiting_pubcomp, id)
            < self.awaiting_pubcomp.len()
    }

    /// Allocates the next unused packet identifier, or `None` if there is none.
    pub fn next_id(&mut self) -> (r: Option<u16>)
        requires
            old(self)@.wf(),
        ensures
            r == old(self)@.allocation().0,
            final(self)@ == (SessionView { next_packet_id: old(self)@.allocation().1, ..old(self)@ }),
            r matches Some(id) ==> id != 0 && !old(self)@.id_in_use(id),
    {
        let ghost start = self@;
        proof {
            allocated_id_is_free(start, start.next_packet_id, 65536);
        }
        let mut left: u32 = 65536;
        while left > 0
            invariant
                left <= 65536,
                start == old(self)@,
                self@ == (SessionView { next_packet_id: self.next_packet_id, ..start }),
                start.allocation() == start.allocation_from(self.next_packet_id, left as nat),
                start.allocation().0 matches Some(id) ==> id != 0 && !start.id_in_use(id),
            decreases left,
        {
            let id: u16 = self.next_packet_id;
            let used: bool = self.id_in_use(id);
            assert(used == start.id_in_use(id));
            self.next_packet_id = if id == u16::MAX {
                1
            } else {
                id + 1
            };
            if !used {
                return Some(id);
            }
            left = left - 1;
        }
        None
    }

    /// Puts an item on its way to the connection; without one it is lost.
    pub fn send(&mut self, item: Outgoing)
        ensures
            final(self)@ == old(self)@.sent(item@),
    {
        if let Some(out) = &mut self.out {
            out.push(item);
        }
        assert(self@ =~= old(self)@.sent(item@));
    }

    /// Replaces the subscription with the same key, or adds a new one. Returns
    /// whether there was one.
    pub fn upsert_subscription(&mut self, sub: Subscription) -> (r: bool)
        ensures
            final(self)@ == old(self)@.subscribed(sub@),
            r == old(self)@.has_subscription(sub@.key()),
    {
        let ghost ks = sub_keys(self@.subscriptions);
        let ghost key = sub@.key();
        proof {
            text::lemma_first_place_is(ks, key);
        }
        let mut i: usize = 0;
        while i < self.subscriptions.len()
            invariant
                i <= self.subscriptions.len(),
                self == old(self),
                ks == sub_keys(self@.subscriptions),
                key == sub@.key(),
                forall|j: int| 0 <= j < i ==> #[trigger] ks[j] != key,
                ks.contains(key) <==> text::first_place(ks, key) < ks.len(),
            decreases self.subscriptions.len() - i,
        {
            let s: &Subscription = &self.subscriptions[i];
            assert(s@ == self@.subscriptions[i as int]);
            if str_eq(s.filter.as_str(), sub.filter.as_str()) && opt_str_eq(
                &s.share_name,
                &sub.share_name,
            ) {
                proof {
                    assert(ks[i as int] == key);
                    text::lemma_first_place(ks, key, i as int);
                }
                self.subscriptions.set(i, sub);
                assert(self@ =~= old(self)@.subscribed(sub@));
                return true;
            }
            assert(ks[i as int] != key);
            i = i + 1;
        }
        proof {
            text::lemma_first_place(ks, key, i as int);
        }
        self.subscriptions.push(sub);
        assert(self@ =~= old(self)@.subscribed(sub@));
        false
    }

    /// Removes the subscriptions with a filter and share name. Returns whether
    /// there was one.
    pub fn remove_subscription(&mut self, filter: &str, share_name: &Option<String>) -> (r: bool)
        ensures
            final(self)@ == old(self)@.unsubscribed((text::opt_view(*share_name), filter@)),
            r == old(self)@.has_subscription((text::opt_view(*share_name), filter@)),
    {
        let ghost key = (text::opt_view(*share_name), filter@);
        let ghost all = self@.subscriptions;
        proof {
            lemma_without_key(all, key);
        }
        let before: usize = self.subscriptions.len();
        let mut old_subs: Vec<Subscription> = Vec::new();
        std::mem::swap(&mut old_subs, &mut self.subscriptions);
        let mut kept: Vec<Subscription> = Vec::new();
        let mut i: usize = 0;
        assert(without_key(all.take(0), key) =~= Seq::empty());
        assert(all.take(0) =~= Seq::empty());
        while i < before
            invariant
                i <= before,
                before == old_subs@.len() + i,
                before == all.len(),
                text::views(old_subs@) == all.skip(i as int),
                text::views(kept@) == without_key(all.take(i as int), key),
                key == (text::opt_view(*share_name), filter@),
            decreases before - i,
        {
            let ghost t = all.take(i + 1);
            assert(t.drop_last() =~= all.take(i as int));
            let s: Subscription = old_subs.remove(0);
            assert(s@ == all.skip(i as int)[0]);
            assert(text::views(old_subs@) =~= all.skip(i + 1));
            if !(str_eq(s.filter.as_str(), filter) && opt_str_eq(&s.share_name, share_name)) {
                kept.push(s);
            }
            assert(text::views(kept@) =~= without_key(t, key));
            i = i + 1;
        }
        assert(all.take(before as int) =~= all);
        let after: usize = kept.len();
        self.subscriptions = kept;
        assert(self@ =~= old(self)@.unsubscribed(key));
        after != before
    }

    /// Forgets the connection; subscriptions and deliveries stay.
    pub fn go_offline(&mut self)
        ensures
            final(self)@ == (SessionView { out: None, ..old(self)@ }),
    {
        self.out = None;
    }
}

/// What a resumed session sends again is marked as a duplicate, and nothing
/// that waits for an acknowledgement is left out.
pub proof fn resumed_deliveries_are_duplicates(s: SessionView, i: int)
    requires
        0 <= i < s.awaiting_puback.len() + s.awaiting_pubrec.len(),
    ensures
        s.redeliveries()[i] == OutgoingView::Send(
            PublishView {
                dup: true,
                ..(s.awaiting_puback + s.awaiting_pubrec)[i].1
            },
        ),
{
}

/// Packet identifiers go round: the one to go on with comes next after the one
/// that was given, and 1 comes after 65535.
pub proof fn identifiers_go_round(s: SessionView, id: u16, n: nat)
    ensures
        s.allocation_from(id, n).0 matches Some(x) ==> s.allocation_from(id, n).1 == (if x == 65535 {
            1
        } else {
            x + 1
        }),
    decreases n,
{
    if n > 0 && s.id_in_use(id) {
        identifiers_go_round(s, next_after(id), (n - 1) as nat);
    }
}

/// The identifier that is given is the next one where that is free.
pub proof fn free_identifier_is_given(s: SessionView)
    requires
        !s.id_in_use(s.next_packet_id),
    ensures
        s.allocation().0 == Some(s.next_packet_id),
{
}

} // verus!
