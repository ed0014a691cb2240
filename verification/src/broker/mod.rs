//! The broker: sessions, message routing, the store of retained messages, and
//! the handlers of control packets.
//!
//! A handler changes the state of the broker and leaves what is to be sent to a
//! client in its session; [`Broker::drain_outgoing`] hands it out to the
//! connections. Nothing here waits: what is to happen later comes back as a
//! value.

use vstd::prelude::*;
use crate::acl::{Acl, AclView};
use crate::auth::{Credentials, StoredView};
use crate::broker::routing::{
    find_session, ids, lemma_sessions_update, place, sessions_wf, turns_distinct, turns_map,
};
use crate::config::{Config, ConfigView};
use crate::message::{Message, MessageView};
use crate::metrics::{counted, Metrics};
use crate::packet::{Packet, PacketView};
use crate::ratelimit::{RateLimiter, RateLimiterView};
use crate::storage::{
    Command, CommandView, LoadedState, SessionRecord, SessionRecordView, Storage, StorageMode,
    StorageView, SubRecord, SubRecordView,
};
use crate::text;
use crate::text::str_eq;
use crate::topic;
use crate::types::ReasonCode;

pub mod ack_laws;
pub mod acks;
pub mod authz;
pub mod bridges;
pub mod connect;
pub mod connect_laws;
pub mod delivery;
pub mod delivery_laws;
pub mod lifecycle;
pub mod lifecycle_laws;
pub mod publish;
pub mod publish_laws;
pub mod routing;
pub mod routing_laws;
pub mod session;
pub mod stats;
pub mod stats_laws;
pub mod subscribe;
pub mod subscribe_laws;

pub use connect::{Accepted, AcceptedView};
pub use lifecycle::{FollowUp, WillTask};
pub use session::{Outgoing, OutgoingView, Session, SessionView, Subscription, SubscriptionView};
pub use stats::{ClientInfo, RetainedInfo};

verus! {

broadcast use text::group_views;

/// Identity for authorization where a connection has none.
pub const ANONYMOUS: &'static str = "anonymous";

/// Root of the status topics. Clients may subscribe here but never publish.
pub const SYS_PREFIX: &'static str = "$SYS/";

/// How many items wait for the writer of one connection at most. An item that
/// finds no room is dropped and counted.
pub const OUTBOUND_CHANNEL_CAPACITY: usize = 10_000;

/// What the connection is to do after a packet.
#[derive(Debug, Clone, Copy, PartialEq, Eq, Structural)]
pub enum Action {
    /// Go on serving the connection.
    Continue,
    /// Send DISCONNECT with this reason, then close. The will is published.
    ServerDisconnect(ReasonCode),
    /// The client disconnects. Close without a reply.
    ClientDisconnect { publish_will: bool },
}

/// A retained message.
pub struct Retained {
    pub topic: String,
    pub message: Message,
    /// Whether the broker made it itself, to publish its status.
    pub own: bool,
}

/// What a retained message is.
pub struct RetainedView {
    pub topic: Seq<char>,
    pub message: MessageView,
    pub own: bool,
}

impl View for Retained {
    type V = RetainedView;

    open spec fn view(&self) -> RetainedView {
        RetainedView { topic: self.topic@, message: self.message@, own: self.own }
    }
}

/// The topics of retained messages.
pub open spec fn retained_topics(s: Seq<RetainedView>) -> Seq<Seq<char>> {
    Seq::new(s.len(), |i: int| s[i].topic)
}

/// Whether no topic has two retained messages.
pub open spec fn retained_wf(s: Seq<RetainedView>) -> bool {
    forall|i: int, j: int|
        0 <= i < j < s.len() ==> (#[trigger] s[i]).topic != (#[trigger] s[j]).topic
}

/// The retained messages with one for a topic, in place of the one before.
pub open spec fn retained_with(s: Seq<RetainedView>, r: RetainedView) -> Seq<RetainedView> {
    let i = text::first_place(retained_topics(s), r.topic);
    if i < s.len() {
        s.update(i, r)
    } else {
        s.push(r)
    }
}

/// The retained messages without the one for a topic.
pub open spec fn retained_without(s: Seq<RetainedView>, topic: Seq<char>) -> Seq<RetainedView> {
    let i = text::first_place(retained_topics(s), topic);
    if i < s.len() {
        s.remove(i)
    } else {
        s
    }
}

/// What is still to go to a connection that lost its session, before it is
/// closed.
pub struct Closing {
    pub epoch: u64,
    pub items: Vec<Outgoing>,
}

/// What is still to go to a connection that lost its session.
pub struct ClosingView {
    pub epoch: u64,
    pub items: Seq<OutgoingView>,
}

impl View for Closing {
    type V = ClosingView;

    open spec fn view(&self) -> ClosingView {
        ClosingView { epoch: self.epoch, items: text::views(self.items@) }
    }
}

/// The broker.
pub struct Broker {
    pub(crate) config: Config,
    pub(crate) storage: Storage,
    pub(crate) metrics: Metrics,
    pub(crate) acl: Acl,
    /// Credentials; without them no password is asked for.
    pub(crate) auth: Option<Credentials>,
    pub(crate) rate_limiter: RateLimiter,
    pub(crate) sessions: Vec<Session>,
    pub(crate) retained: Vec<Retained>,
    /// Whose turn it is in each shared subscription.
    pub(crate) turns: Vec<(String, String, u64)>,
    pub(crate) next_epoch: u64,
    pub(crate) auto_id_counter: u64,
    pub(crate) closing: Vec<Closing>,
}

/// The state of the broker.
#[verifier::ext_equal]
pub struct BrokerView {
    pub config: ConfigView,
    pub storage: StorageView,
    pub metrics: Metrics,
    pub acl: AclView,
    pub auth: Option<Map<Seq<char>, StoredView>>,
    pub rate_limiter: RateLimiterView,
    pub sessions: Seq<SessionView>,
    pub retained: Seq<RetainedView>,
    pub turns: Map<(Seq<char>, Seq<char>), u64>,
    pub next_epoch: u64,
    pub auto_id_counter: u64,
    pub closing: Seq<ClosingView>,
}

impl View for Broker {
    type V = BrokerView;

    open(crate) spec fn view(&self) -> BrokerView {
        BrokerView {
            config: self.config@,
            storage: self.storage@,
            metrics: self.metrics,
            acl: self.acl@,
            auth: text::opt_view(self.auth),
            rate_limiter: self.rate_limiter@,
            sessions: text::views(self.sessions@),
            retained: text::views(self.retained@),
            turns: turns_map(self.turns@),
            next_epoch: self.next_epoch,
            auto_id_counter: self.auto_id_counter,
            closing: text::views(self.closing@),
        }
    }
}

impl BrokerView {
    /// The invariant of the broker: sessions keep theirs and are of different
    /// clients, no topic has two retained messages, and no more identifiers
    /// were assigned than connections accepted.
    pub open spec fn wf(self) -> bool {
        &&& sessions_wf(self.sessions)
        &&& retained_wf(self.retained)
        &&& self.auto_id_counter <= self.next_epoch
    }

    /// The session of a client.
    pub open spec fn session(self, client_id: Seq<char>) -> Option<SessionView> {
        let i = place(self.sessions, client_id);
        if i < self.sessions.len() {
            Some(self.sessions[i])
        } else {
            None
        }
    }

    /// The broker with a session, in place of the one of the same client.
    pub open spec fn with(self, s: SessionView) -> BrokerView {
        let i = place(self.sessions, s.client_id);
        BrokerView {
            sessions: if i < self.sessions.len() {
                self.sessions.update(i, s)
            } else {
                self.sessions.push(s)
            },
            ..self
        }
    }

    /// The broker without the session of a client.
    pub open spec fn without(self, client_id: Seq<char>) -> BrokerView {
        let i = place(self.sessions, client_id);
        BrokerView {
            sessions: if i < self.sessions.len() {
                self.sessions.remove(i)
            } else {
                self.sessions
            },
            ..self
        }
    }

    /// The broker with an item on its way to a client.
    pub open spec fn sent_to(self, client_id: Seq<char>, item: OutgoingView) -> BrokerView {
        match self.session(client_id) {
            Some(s) => self.with(s.sent(item)),
            None => self,
        }
    }

    /// The broker with a command on its way to the storage.
    pub open spec fn stored(self, c: CommandView) -> BrokerView {
        BrokerView { storage: self.storage.sent(c), ..self }
    }

    /// The broker after it keeps a message as the retained one of its topic, if
    /// it is to be retained. One without a payload clears the topic.
    pub open spec fn keeping(self, m: MessageView) -> BrokerView {
        if !m.retain {
            self
        } else if m.payload.len() == 0 {
            BrokerView { retained: retained_without(self.retained, m.topic), ..self }.stored(
                CommandView::DeleteRetained { topic: m.topic },
            )
        } else {
            BrokerView {
                retained: retained_with(
                    self.retained,
                    RetainedView { topic: m.topic, message: m, own: false },
                ),
                ..self
            }.stored(CommandView::UpsertRetained { topic: m.topic, message: m })
        }
    }

    /// What routing a message does.
    pub open spec fn routed(self, publisher: Option<Seq<char>>, m: MessageView, now: u64)
        -> routing::Routed {
        routing::routed(
            self.sessions,
            self.turns,
            publisher,
            m,
            self.config.max_queued_messages as nat,
            now,
        )
    }

    /// The broker after it routes a message.
    pub open spec fn routing(
        self,
        publisher: Option<Seq<char>>,
        m: MessageView,
        now: u64,
    ) -> BrokerView {
        let r = self.routed(publisher, m, now);
        BrokerView {
            sessions: r.sessions,
            turns: r.turns,
            metrics: Metrics {
                publish_delivered: counted(self.metrics.publish_delivered, r.delivered),
                publish_dropped: counted(self.metrics.publish_dropped, r.dropped),
                ..self.metrics
            },
            ..self
        }
    }

    /// Whether a message reaches a subscription.
    pub open spec fn reaches(
        self,
        publisher: Option<Seq<char>>,
        m: MessageView,
        now: u64,
    ) -> bool {
        self.routed(publisher, m, now).delivered > 0
    }

    /// Who a client is for authorization.
    pub open spec fn who(self, client_id: Seq<char>) -> Seq<char> {
        match self.session(client_id) {
            Some(s) => name_of(s.identity),
            None => ANONYMOUS@,
        }
    }
}

/// The subscription of a stored one.
pub open spec fn subscription_of_record(r: SubRecordView) -> SubscriptionView {
    SubscriptionView {
        filter: match topic::parsed(r.filter) {
            Some((_, f)) => f,
            None => r.filter,
        },
        share_name: match topic::parsed(r.filter) {
            Some((share, _)) => share,
            None => None,
        },
        qos: r.qos,
        no_local: r.no_local,
        retain_as_published: r.retain_as_published,
        retain_handling: r.retain_handling,
        subscription_identifier: r.subscription_identifier,
    }
}

/// The session of a stored one.
pub open spec fn session_of_record(r: SessionRecordView) -> SessionView {
    SessionView {
        persistent: true,
        subscriptions: Seq::new(
            r.subscriptions.len(),
            |i: int| subscription_of_record(r.subscriptions[i]),
        ),
        ..SessionView::fresh(r.client_id, r.session_expiry_interval)
    }
}

impl BrokerView {
    /// A broker that has just started.
    pub open spec fn started(
        config: ConfigView,
        storage: StorageView,
        metrics: Metrics,
        acl: AclView,
        auth: Option<Map<Seq<char>, StoredView>>,
    ) -> BrokerView {
        BrokerView {
            config,
            storage,
            metrics,
            acl,
            auth,
            rate_limiter: RateLimiterView {
                limit: config.max_connections_per_ip,
                window: (1000 * config.connection_rate_window_secs) as u64,
                entries: Map::empty(),
            },
            sessions: Seq::empty(),
            retained: Seq::empty(),
            turns: Map::empty(),
            next_epoch: 1,
            auto_id_counter: 1,
            closing: Seq::empty(),
        }
    }

    /// The broker with stored sessions; of two of one client the later counts.
    pub open spec fn with_records(self, records: Seq<SessionRecordView>) -> BrokerView
        decreases records.len(),
    {
        if records.len() == 0 {
            self
        } else {
            self.with_records(records.drop_last()).with(session_of_record(records.last()))
        }
    }

    /// The broker with stored retained messages; of two of one topic the later
    /// counts.
    pub open spec fn with_retained(self, messages: Seq<(Seq<char>, MessageView)>) -> BrokerView
        decreases messages.len(),
    {
        if messages.len() == 0 {
            self
        } else {
            let b = self.with_retained(messages.drop_last());
            BrokerView {
                retained: retained_with(
                    b.retained,
                    RetainedView {
                        topic: messages.last().0,
                        message: messages.last().1,
                        own: false,
                    },
                ),
                ..b
            }
        }
    }

    /// What a packet from a client does.
    pub open spec fn on_packet(self, client_id: Seq<char>, p: PacketView, now: u64) -> (
        BrokerView,
        Action,
    ) {
        match p {
            PacketView::Publish(p) => self.on_publish(client_id, p, now),
            PacketView::Puback(a) => (
                self.on_puback(client_id, a.packet_id, now),
                Action::Continue,
            ),
            PacketView::Pubrec(a) => (self.on_pubrec(client_id, a), Action::Continue),
            PacketView::Pubrel(a) => (self.on_pubrel(client_id, a.packet_id), Action::Continue),
            PacketView::Pubcomp(a) => (
                self.on_pubcomp(client_id, a.packet_id, now),
                Action::Continue,
            ),
            PacketView::Subscribe(s) => self.on_subscribe(client_id, s, now),
            PacketView::Unsubscribe(u) => (self.on_unsubscribe(client_id, u), Action::Continue),
            PacketView::Pingreq => (
                self.sent_to(client_id, OutgoingView::Control(PacketView::Pingresp)),
                Action::Continue,
            ),
            PacketView::Disconnect(d) => self.on_disconnect(client_id, d),
            PacketView::Auth(_) => (self, Action::Continue),
            PacketView::Connect(_)
            | PacketView::Connack(_)
            | PacketView::Suback(_)
            | PacketView::Unsuback(_)
            | PacketView::Pingresp => (
                self,
                Action::ServerDisconnect(ReasonCode::ProtocolError),
            ),
        }
    }

    /// What a connection from a source does. One that is refused is counted.
    pub open spec fn on_source(self, source: Seq<char>, now: u64) -> BrokerView {
        BrokerView {
            metrics: Metrics {
                socket_connections: counted(self.metrics.socket_connections, 1),
                connections_rate_limited: counted(
                    self.metrics.connections_rate_limited,
                    if self.rate_limiter.allows(source, now) {
                        0
                    } else {
                        1
                    },
                ),
                ..self.metrics
            },
            rate_limiter: self.rate_limiter.checked(source, now),
            ..self
        }
    }

    /// The broker after what waits for connections was handed out.
    pub open spec fn drained(self) -> BrokerView {
        BrokerView {
            sessions: Seq::new(self.sessions.len(), |i: int| handed_out(self.sessions[i])),
            closing: Seq::empty(),
            ..self
        }
    }
}

/// A session with nothing on its way to its connection.
pub open spec fn handed_out(s: SessionView) -> SessionView {
    match s.out {
        Some(_) => SessionView { out: Some(Seq::empty()), ..s },
        None => s,
    }
}

/// What goes to one connection. One that lost its session is closed after it.
pub struct Delivery {
    pub epoch: u64,
    pub items: Vec<Outgoing>,
    pub closed: bool,
}

/// What goes to one connection.
pub struct DeliveryView {
    pub epoch: u64,
    pub items: Seq<OutgoingView>,
    pub closed: bool,
}

impl View for Delivery {
    type V = DeliveryView;

    open spec fn view(&self) -> DeliveryView {
        DeliveryView { epoch: self.epoch, items: text::views(self.items@), closed: self.closed }
    }
}

/// What goes to the connections of sessions.
pub open spec fn session_deliveries(s: Seq<SessionView>) -> Seq<DeliveryView>
    decreases s.len(),
{
    if s.len() == 0 {
        Seq::empty()
    } else {
        let d = session_deliveries(s.drop_last());
        match s.last().out {
            Some(items) => if items.len() > 0 {
                d.push(DeliveryView { epoch: s.last().epoch, items, closed: false })
            } else {
                d
            },
            None => d,
        }
    }
}

/// What goes to connections that lost their sessions.
pub open spec fn closing_deliveries(s: Seq<ClosingView>) -> Seq<DeliveryView> {
    Seq::new(
        s.len(),
        |i: int| DeliveryView { epoch: s[i].epoch, items: s[i].items, closed: true },
    )
}

/// The name of an identity for authorization.
pub open spec fn name_of(identity: Option<Seq<char>>) -> Seq<char> {
    match identity {
        Some(i) => i,
        None => ANONYMOUS@,
    }
}

pub proof fn lemma_sessions_push(s: Seq<SessionView>, t: SessionView)
    requires
        sessions_wf(s),
        place(s, t.client_id) == s.len(),
        t.wf(),
    ensures
        sessions_wf(s.push(t)),
{
    text::lemma_first_place_is(ids(s), t.client_id);
    let u = s.push(t);
    assert forall|a: int, b: int| 0 <= a < b < u.len() implies (#[trigger] u[a]).client_id != (
    #[trigger] u[b]).client_id by {
        if b < s.len() {
            assert(s[a].client_id != s[b].client_id);
        } else {
            assert(ids(s)[a] != t.client_id);
        }
    }
}

pub proof fn lemma_sessions_remove(s: Seq<SessionView>, i: int)
    requires
        sessions_wf(s),
        0 <= i < s.len(),
    ensures
        sessions_wf(s.remove(i)),
{
    let u = s.remove(i);
    assert forall|a: int| 0 <= a < u.len() implies (#[trigger] u[a]).wf() by {
        let x = if a < i {
            a
        } else {
            a + 1
        };
        assert(u[a] == s[x]);
        assert(s[x].wf());
    }
    assert forall|a: int, b: int| 0 <= a < b < u.len() implies (#[trigger] u[a]).client_id != (
    #[trigger] u[b]).client_id by {
        let x = if a < i {
            a
        } else {
            a + 1
        };
        let y = if b < i {
            b
        } else {
            b + 1
        };
        assert(s[x].client_id != s[y].client_id);
    }
}

/// The session of a client is of that client and keeps its invariant.
pub proof fn lemma_session(b: BrokerView, client_id: Seq<char>)
    requires
        b.wf(),
    ensures
        b.session(client_id) matches Some(s) ==> s.client_id == client_id && s.wf(),
        0 <= place(b.sessions, client_id) <= b.sessions.len(),
{
    text::lemma_first_place_is(ids(b.sessions), client_id);
    let i = place(b.sessions, client_id);
    if i < b.sessions.len() {
        assert(ids(b.sessions)[i] == client_id);
    }
}

/// Setting a session that keeps its invariant keeps that of the broker, and
/// finding the session again gives it.
pub proof fn lemma_with(b: BrokerView, s: SessionView)
    requires
        b.wf(),
        s.wf(),
    ensures
        b.with(s).wf(),
        b.with(s).session(s.client_id) == Some(s),
{
    let i = place(b.sessions, s.client_id);
    lemma_session(b, s.client_id);
    if i < b.sessions.len() {
        lemma_sessions_update(b.sessions, i, s);
    } else {
        lemma_sessions_push(b.sessions, s);
        let t = b.sessions.push(s);
        text::lemma_first_place_is(ids(b.sessions), s.client_id);
        assert forall|j: int| 0 <= j < i implies #[trigger] ids(t)[j] != s.client_id by {
            assert(ids(b.sessions)[j] != s.client_id);
        }
        text::lemma_first_place(ids(t), s.client_id, i);
    }
}

/// Sessions of other clients stay where they are.
pub proof fn lemma_with_other(b: BrokerView, s: SessionView, client_id: Seq<char>)
    requires
        b.wf(),
        s.wf(),
        s.client_id != client_id,
    ensures
        b.with(s).session(client_id) == b.session(client_id),
{
    let i = place(b.sessions, s.client_id);
    lemma_session(b, s.client_id);
    lemma_session(b, client_id);
    let k = place(b.sessions, client_id);
    text::lemma_first_place_is(ids(b.sessions), client_id);
    let t = b.with(s).sessions;
    if i < b.sessions.len() {
        assert(ids(t) =~= ids(b.sessions));
    } else {
        assert forall|j: int| 0 <= j < k implies #[trigger] ids(t)[j] != client_id by {
            assert(ids(b.sessions)[j] != client_id);
        }
        if k < b.sessions.len() {
            assert(ids(t)[k] == ids(b.sessions)[k]);
            text::lemma_first_place(ids(t), client_id, k);
        } else {
            assert forall|j: int| 0 <= j < t.len() implies #[trigger] ids(t)[j] != client_id by {
                if j < k {
                    assert(ids(b.sessions)[j] != client_id);
                }
            }
            text::lemma_first_place(ids(t), client_id, t.len() as int);
        }
    }
}

proof fn lemma_retained_with(s: Seq<RetainedView>, r: RetainedView)
    requires
        retained_wf(s),
    ensures
        retained_wf(retained_with(s, r)),
{
    let i = text::first_place(retained_topics(s), r.topic);
    text::lemma_first_place_is(retained_topics(s), r.topic);
    let u = retained_with(s, r);
    if i < s.len() {
        assert(retained_topics(s)[i] == r.topic);
    }
    assert forall|a: int, b: int| 0 <= a < b < u.len() implies (#[trigger] u[a]).topic != (
    #[trigger] u[b]).topic by {
        if b < s.len() {
            assert(s[a].topic != s[b].topic);
        } else {
            assert(retained_topics(s)[a] != r.topic);
        }
    }
}

proof fn lemma_retained_without(s: Seq<RetainedView>, topic: Seq<char>)
    requires
        retained_wf(s),
    ensures
        retained_wf(retained_without(s, topic)),
{
    let i = text::first_place(retained_topics(s), topic);
    text::lemma_first_place_is(retained_topics(s), topic);
    if i < s.len() {
        let u = s.remove(i);
        assert forall|a: int, b: int| 0 <= a < b < u.len() implies (#[trigger] u[a]).topic != (
        #[trigger] u[b]).topic by {
            let x = if a < i {
                a
            } else {
                a + 1
            };
            let y = if b < i {
                b
            } else {
                b + 1
            };
            assert(s[x].topic != s[y].topic);
        }
    }
}

/// Routing a message adds no session and removes none.
pub proof fn routing_keeps_all_sessions(b: BrokerView, publisher: Option<Seq<char>>, m: MessageView, now: u64)
    ensures
        ids(b.routing(publisher, m, now).sessions) == ids(b.sessions),
{
    if !m.expired(now) {
        let max = b.config.max_queued_messages as nat;
        let mid = routing::all_offered(b.sessions, publisher, m, max, now);
        assert forall|i: int| 0 <= i < mid.len() implies #[trigger] ids(mid)[i] == ids(b.sessions)[i] by {
            let o = routing::session_offer(b.sessions[i], publisher, m);
            if o.qos is Some {
                routing::delivery_keeps_the_rest(
                    b.sessions[i],
                    m,
                    o.qos->0,
                    o.retain && m.retain,
                    o.ids,
                    max,
                    now,
                );
            }
        }
        assert(ids(mid) =~= ids(b.sessions));
        lemma_given_ids(
            mid,
            routing::chosen(b.turns, routing::groups_of(b.sessions, publisher, m)),
            m,
            max,
            now,
        );
    }
}

proof fn lemma_given_ids(
    s: Seq<SessionView>,
    c: Seq<routing::CandidateView>,
    m: MessageView,
    max: nat,
    now: u64,
)
    ensures
        ids(routing::all_given(s, c, m, max, now)) == ids(s),
    decreases c.len(),
{
    if c.len() > 0 {
        lemma_given_ids(s, c.drop_last(), m, max, now);
        let t = routing::all_given(s, c.drop_last(), m, max, now);
        let i = place(t, c.last().client_id);
        text::lemma_first_place_is(ids(t), c.last().client_id);
        if i < t.len() {
            let x = c.last();
            routing::delivery_keeps_the_rest(t[i], m, x.qos, x.retain, x.ids, max, now);
            assert(ids(routing::given(t, x, m, max, now)) =~= ids(t));
        }
    }
}

impl Broker {
    /// The invariant of the broker.
    pub open(crate) spec fn wf(&self) -> bool {
        &&& self@.wf()
        &&& turns_distinct(self.turns@)
        &&& self.rate_limiter.wf()
    }

    pub fn config(&self) -> (r: &Config)
        ensures
            r@ == self@.config,
    {
        &self.config
    }

    pub fn metrics(&self) -> (r: &Metrics)
        ensures
            *r == self@.metrics,
    {
        &self.metrics
    }

    /// Puts an item on its way to a client.
    pub(crate) fn send_to(&mut self, client_id: &str, item: Outgoing)
        requires
            old(self).wf(),
        ensures
            final(self)@ == old(self)@.sent_to(client_id@, item@),
            final(self).wf(),
    {
        let ghost before = self@;
        let ghost iv = item@;
        proof {
            lemma_session(before, client_id@);
        }
        let i: usize = find_session(&self.sessions, client_id);
        if i < self.sessions.len() {
            assert(self.sessions@[i as int]@ == before.sessions[i as int]);
            let s: &mut Session = &mut self.sessions[i];
            s.send(item);
            proof {
                let t = before.sessions[i as int].sent(iv);
                lemma_with(before, t);
                assert(self@ =~= before.with(t));
            }
        }
    }

    /// The name of a client for authorization.
    pub(crate) fn who(&self, client_id: &str) -> (r: String)
        ensures
            r@ == self@.who(client_id@),
    {
        let i: usize = find_session(&self.sessions, client_id);
        if i < self.sessions.len() {
            assert(self.sessions@[i as int]@ == self@.sessions[i as int]);
            match &self.sessions[i].identity {
                Some(name) => name.clone(),
                None => ANONYMOUS.to_owned(),
            }
        } else {
            ANONYMOUS.to_owned()
        }
    }

    /// The place of the retained message of a topic.
    fn find_retained(&self, topic: &str) -> (r: usize)
        ensures
            r == text::first_place(retained_topics(self@.retained), topic@),
            r <= self.retained@.len(),
    {
        let ghost vs = self@.retained;
        let mut i: usize = 0;
        while i < self.retained.len()
            invariant
                i <= self.retained.len(),
                vs == text::views(self.retained@),
                forall|j: int| 0 <= j < i ==> #[trigger] retained_topics(vs)[j] != topic@,
            decreases self.retained.len() - i,
        {
            assert(retained_topics(vs)[i as int] == self.retained@[i as int]@.topic);
            if str_eq(self.retained[i].topic.as_str(), topic) {
                proof {
                    text::lemma_first_place(retained_topics(vs), topic@, i as int);
                }
                return i;
            }
            i = i + 1;
        }
        proof {
            text::lemma_first_place(retained_topics(vs), topic@, i as int);
        }
        i
    }

    /// Sets the retained message of a topic.
    pub(crate) fn set_retained(&mut self, r: Retained)
        requires
            old(self).wf(),
        ensures
            final(self)@ == (BrokerView {
                retained: retained_with(old(self)@.retained, r@),
                ..old(self)@
            }),
            final(self).wf(),
    {
        let ghost before = self@;
        proof {
            lemma_retained_with(before.retained, r@);
        }
        let i: usize = self.find_retained(r.topic.as_str());
        if i < self.retained.len() {
            self.retained.set(i, r);
        } else {
            self.retained.push(r);
        }
        assert(self@ =~= (BrokerView {
            retained: retained_with(before.retained, r@),
            ..before
        }));
    }

    /// Keeps a message as the retained one of its topic, if it is to be
    /// retained.
    pub(crate) fn keep_retained(&mut self, message: &Message)
        requires
            old(self).wf(),
        ensures
            final(self)@ == old(self)@.keeping(message@),
            final(self).wf(),
    {
        if !message.retain {
            return;
        }
        let ghost before = self@;
        if message.payload.len() == 0 {
            proof {
                lemma_retained_without(before.retained, message@.topic);
            }
            let i: usize = self.find_retained(message.topic.as_str());
            if i < self.retained.len() {
                let gone: Retained = self.retained.remove(i);
            }
            self.storage.delete_retained(message.topic.clone());
        } else {
            let r: Retained = Retained {
                topic: message.topic.clone(),
                message: message.clone(),
                own: false,
            };
            self.set_retained(r);
            self.storage.upsert_retained(message.topic.clone(), message.clone());
        }
        assert(self@ =~= before.keeping(message@));
    }

    /// Routes a message. Returns whether it reached a subscription.
    pub(crate) fn route(&mut self, publisher: Option<&str>, message: &Message, now: u64) -> (r:
        bool)
        requires
            old(self).wf(),
        ensures
            final(self)@ == old(self)@.routing(text::opt_view(publisher), message@, now),
            r == old(self)@.reaches(text::opt_view(publisher), message@, now),
            final(self).wf(),
    {
        let max_queued: usize = self.config.max_queued_messages as usize;
        let r: bool = routing::route(
            &mut self.sessions,
            &mut self.turns,
            &mut self.metrics,
            publisher,
            message,
            max_queued,
            now,
        );
        assert(self@ =~= old(self)@.routing(text::opt_view(publisher), message@, now));
        r
    }
}

/// The session of a stored one.
fn session_from_record(rec: &SessionRecord) -> (r: Session)
    ensures
        r@ == session_of_record(rec@),
        r@.wf(),
{
    let mut s: Session = Session::new(rec.client_id.clone(), rec.session_expiry_interval);
    s.persistent = true;
    let ghost want = session_of_record(rec@);
    let ghost fresh = s@;
    let mut i: usize = 0;
    assert(s@.subscriptions =~= want.subscriptions.take(0));
    while i < rec.subscriptions.len()
        invariant
            i <= rec.subscriptions.len(),
            want == session_of_record(rec@),
            s@ == (SessionView { subscriptions: want.subscriptions.take(i as int), ..fresh }),
        decreases rec.subscriptions.len() - i,
    {
        let sub: &SubRecord = &rec.subscriptions[i];
        assert(sub@ == rec@.subscriptions[i as int]);
        let (share_name, filter): (Option<String>, String) = match topic::parse_filter(
            sub.filter.as_str(),
        ) {
            Some(p) => (
                match p.share_name {
                    Some(n) => Some(n.to_owned()),
                    None => None,
                },
                p.filter.to_owned(),
            ),
            None => (None, sub.filter.clone()),
        };
        let x: Subscription = Subscription {
            filter,
            share_name,
            qos: sub.qos,
            no_local: sub.no_local,
            retain_as_published: sub.retain_as_published,
            retain_handling: sub.retain_handling,
            subscription_identifier: sub.subscription_identifier,
        };
        assert(x@ == want.subscriptions[i as int]);
        s.subscriptions.push(x);
        assert(s@.subscriptions =~= want.subscriptions.take(i + 1));
        i = i + 1;
    }
    assert(s@.subscriptions =~= want.subscriptions);
    assert(s@ =~= want);
    s
}

impl Broker {
    /// A broker with what was stored.
    pub fn new(
        config: Config,
        storage: Storage,
        loaded: LoadedState,
        acl: Acl,
        auth: Option<Credentials>,
    ) -> (r: Broker)
        ensures
            r@.metrics.zero(),
            r@ == BrokerView::started(
                config@,
                storage@,
                r@.metrics,
                acl@,
                text::opt_view(auth),
            ).with_records(text::views(loaded.sessions@)).with_retained(
                crate::storage::retained_views(loaded.retained@),
            ),
            r.wf(),
    {
        let rate_limiter: RateLimiter = RateLimiter::new(
            config.max_connections_per_ip,
            config.connection_rate_window_secs,
        );
        let mut b: Broker = Broker {
            config,
            storage,
            metrics: Metrics::new(),
            acl,
            auth,
            rate_limiter,
            sessions: Vec::new(),
            retained: Vec::new(),
            turns: Vec::new(),
            next_epoch: 1,
            auto_id_counter: 1,
            closing: Vec::new(),
        };
        let ghost start = b@;
        assert(start =~= BrokerView::started(
            config@,
            storage@,
            start.metrics,
            acl@,
            text::opt_view(auth),
        ));
        let ghost records = text::views(loaded.sessions@);
        let mut i: usize = 0;
        assert(records.take(0) =~= Seq::empty());
        while i < loaded.sessions.len()
            invariant
                i <= loaded.sessions.len(),
                records == text::views(loaded.sessions@),
                b.wf(),
                b@ == start.with_records(records.take(i as int)),
                b@.metrics == start.metrics,
            decreases loaded.sessions.len() - i,
        {
            assert(records.take(i + 1).drop_last() =~= records.take(i as int));
            assert(records.take(i + 1).last() == loaded.sessions@[i as int]@);
            b.set_session(session_from_record(&loaded.sessions[i]));
            i = i + 1;
        }
        assert(records.take(records.len() as int) =~= records);
        let ghost mid = b@;
        let ghost messages = crate::storage::retained_views(loaded.retained@);
        let mut k: usize = 0;
        assert(messages.take(0) =~= Seq::empty());
        while k < loaded.retained.len()
            invariant
                k <= loaded.retained.len(),
                messages == crate::storage::retained_views(loaded.retained@),
                b.wf(),
                b@ == mid.with_retained(messages.take(k as int)),
                b@.metrics == mid.metrics,
            decreases loaded.retained.len() - k,
        {
            assert(messages.take(k + 1).drop_last() =~= messages.take(k as int));
            let r: Retained = Retained {
                topic: loaded.retained[k].0.clone(),
                message: loaded.retained[k].1.clone(),
                own: false,
            };
            b.set_retained(r);
            k = k + 1;
        }
        assert(messages.take(messages.len() as int) =~= messages);
        b
    }

    /// Sets the session of a client.
    fn set_session(&mut self, s: Session)
        requires
            old(self).wf(),
            s@.wf(),
        ensures
            final(self)@ == old(self)@.with(s@),
            final(self).wf(),
    {
        let ghost before = self@;
        proof {
            lemma_session(before, s@.client_id);
            lemma_with(before, s@);
        }
        let i: usize = find_session(&self.sessions, s.client_id.as_str());
        if i < self.sessions.len() {
            self.sessions.set(i, s);
        } else {
            self.sessions.push(s);
        }
        assert(self@ =~= before.with(s@));
    }

    /// Handles a packet from a client that is connected. Which of its
    /// connections the packet came on makes no difference.
    pub fn handle_packet(
        &mut self,
        client_id: &str,
        _epoch: u64,
        packet: Packet,
        now: u64,
    ) -> (r: Action)
        requires
            old(self).wf(),
        ensures
            (final(self)@, r) == old(self)@.on_packet(client_id@, packet@, now),
            final(self).wf(),
    {
        match packet {
            Packet::Publish(p) => self.handle_publish(client_id, p, now),
            Packet::Puback(a) => self.handle_puback(client_id, a, now),
            Packet::Pubrec(a) => self.handle_pubrec(client_id, a),
            Packet::Pubrel(a) => self.handle_pubrel(client_id, a),
            Packet::Pubcomp(a) => self.handle_pubcomp(client_id, a, now),
            Packet::Subscribe(s) => self.handle_subscribe(client_id, s, now),
            Packet::Unsubscribe(u) => self.handle_unsubscribe(client_id, u),
            Packet::Pingreq => {
                self.send_to(client_id, Outgoing::Control(Box::new(Packet::Pingresp)));
                Action::Continue
            },
            Packet::Disconnect(d) => self.handle_client_disconnect(client_id, d),
            Packet::Auth(_) => Action::Continue,
            Packet::Connect(_)
            | Packet::Connack(_)
            | Packet::Suback(_)
            | Packet::Unsuback(_)
            | Packet::Pingresp => Action::ServerDisconnect(ReasonCode::ProtocolError),
        }
    }

    /// Counts a connection from a source at `now` (in milliseconds). Returns
    /// whether it may go on.
    pub fn accept_source(&mut self, source: &str, now: u64) -> (allowed: bool)
        requires
            old(self).wf(),
        ensures
            allowed == old(self)@.rate_limiter.allows(source@, now),
            final(self)@ == old(self)@.on_source(source@, now),
            final(self).wf(),
    {
        proof {
            crate::metrics::lemma_counted(self.metrics.connections_rate_limited, 0, 0);
        }
        Metrics::inc(&mut self.metrics.socket_connections);
        let allowed: bool = self.rate_limiter.check(source, now);
        if !allowed {
            Metrics::inc(&mut self.metrics.connections_rate_limited);
        }
        allowed
    }

    /// Forgets sources whose time has passed at `now` (in milliseconds).
    pub fn sweep_sources(&mut self, now: u64)
        requires
            old(self).wf(),
        ensures
            final(self)@ == (BrokerView {
                rate_limiter: old(self)@.rate_limiter.swept(now),
                ..old(self)@
            }),
            final(self).wf(),
    {
        self.rate_limiter.sweep(now);
    }

    /// The counters, to count what happens on connections.
    pub fn metrics_mut(&mut self) -> (r: &mut Metrics)
        requires
            old(self).wf(),
        ensures
            *r == old(self)@.metrics,
            final(self)@ == (BrokerView { metrics: *final(r), ..old(self)@ }),
            final(self).wf(),
    {
        &mut self.metrics
    }

    /// Notes that the writer of the storage is gone, after which nothing is
    /// stored any more. Returns whether that is new.
    pub fn record_writer_loss(&mut self) -> (first: bool)
        requires
            old(self).wf(),
        ensures
            final(self)@ == (BrokerView {
                storage: StorageView {
                    mode: StorageMode::WriterLost,
                    commands: Seq::empty(),
                },
                ..old(self)@
            }),
            first == !(old(self)@.storage.mode is WriterLost),
            final(self).wf(),
    {
        self.storage.record_writer_loss()
    }

    /// Takes the commands that wait for the storage.
    pub fn take_commands(&mut self) -> (r: Vec<Command>)
        requires
            old(self).wf(),
        ensures
            text::views(r@) == old(self)@.storage.commands,
            final(self)@ == (BrokerView {
                storage: StorageView { commands: Seq::empty(), ..old(self)@.storage },
                ..old(self)@
            }),
            final(self).wf(),
    {
        self.storage.take_commands()
    }

    /// Takes what waits for the connection of the session at a place.
    fn take_items(&mut self, i: usize) -> (r: Vec<Outgoing>)
        requires
            old(self).wf(),
            i < old(self).sessions@.len(),
        ensures
            final(self).wf(),
            final(self)@ == (BrokerView {
                sessions: old(self)@.sessions.update(
                    i as int,
                    handed_out(old(self)@.sessions[i as int]),
                ),
                ..old(self)@
            }),
            match old(self)@.sessions[i as int].out {
                Some(items) => text::views(r@) == items,
                None => r@.len() == 0,
            },
    {
        let ghost before = self@;
        assert(self.sessions@[i as int]@ == before.sessions[i as int]);
        let ghost sv = handed_out(before.sessions[i as int]);
        proof {
            assert(sv.wf());
            lemma_sessions_update(before.sessions, i as int, sv);
        }
        let s: &mut Session = &mut self.sessions[i];
        let taken: Option<Vec<Outgoing>> = s.out.take();
        let items: Vec<Outgoing> = match taken {
            Some(items) => {
                s.out = Some(Vec::new());
                items
            },
            None => Vec::new(),
        };
        assert(s@ =~= sv);
        assert(self@.sessions =~= before.sessions.update(i as int, sv));
        items
    }

    /// Takes what waits for connections, to be handed out to them.
    pub fn drain_outgoing(&mut self) -> (r: Vec<Delivery>)
        requires
            old(self).wf(),
        ensures
            text::views(r@) == session_deliveries(old(self)@.sessions) + closing_deliveries(
                old(self)@.closing,
            ),
            final(self)@ == old(self)@.drained(),
            final(self).wf(),
    {
        let ghost before = self@;
        let ghost all = before.sessions;
        let ghost goal = before.drained().sessions;
        let mut out: Vec<Delivery> = Vec::new();
        let mut i: usize = 0;
        assert(all.take(0) =~= Seq::empty());
        assert(text::views(out@) =~= Seq::empty());
        while i < self.sessions.len()
            invariant
                i <= self.sessions.len(),
                self.wf(),
                all == before.sessions,
                goal == before.drained().sessions,
                self@ == (BrokerView { sessions: self@.sessions, ..before }),
                self@.sessions.len() == all.len(),
                self.sessions@.len() == all.len(),
                forall|j: int| 0 <= j < i ==> #[trigger] self@.sessions[j] == goal[j],
                forall|j: int| i <= j < all.len() ==> #[trigger] self@.sessions[j] == all[j],
                text::views(out@) == session_deliveries(all.take(i as int)),
            decreases self.sessions.len() - i,
        {
            assert(all.take(i + 1).drop_last() =~= all.take(i as int));
            assert(all.take(i + 1).last() == self@.sessions[i as int]);
            assert(self.sessions@[i as int]@ == self@.sessions[i as int]);
            let epoch: u64 = self.sessions[i].epoch;
            let items: Vec<Outgoing> = self.take_items(i);
            assert(text::views(self.sessions@).len() == self.sessions@.len());
            if items.len() > 0 {
                out.push(Delivery { epoch, items, closed: false });
            }
            i = i + 1;
        }
        assert(all.take(all.len() as int) =~= all);
        assert(self@.sessions =~= goal);
        let mut closing: Vec<Closing> = Vec::new();
        std::mem::swap(&mut closing, &mut self.closing);
        let ghost left = before.closing;
        let ghost first = text::views(out@);
        let n: usize = closing.len();
        let mut k: usize = 0;
        assert(left.skip(0) =~= left);
        assert(first + closing_deliveries(left.take(0)) =~= first);
        while k < n
            invariant
                k <= n,
                n == left.len(),
                n == closing@.len() + k,
                text::views(closing@) == left.skip(k as int),
                text::views(out@) == first + closing_deliveries(left.take(k as int)),
            decreases n - k,
        {
            let c: Closing = closing.remove(0);
            assert(c@ == left.skip(k as int)[0]);
            assert(text::views(closing@) =~= left.skip(k + 1));
            let d: Delivery = Delivery { epoch: c.epoch, items: c.items, closed: true };
            out.push(d);
            assert(closing_deliveries(left.take(k + 1)) =~= closing_deliveries(
                left.take(k as int),
            ).push(d@));
            assert(text::views(out@) =~= first + closing_deliveries(left.take(k + 1)));
            k = k + 1;
        }
        assert(left.take(n as int) =~= left);
        assert(self@ =~= before.drained());
        out
    }
}

/// The retained message of a topic.
pub open spec fn retained_for(s: Seq<RetainedView>, topic: Seq<char>) -> Option<RetainedView> {
    let i = text::first_place(retained_topics(s), topic);
    if i < s.len() {
        Some(s[i])
    } else {
        None
    }
}

/// A retained publication is kept as the one of its topic; one without a
/// payload clears the topic.
pub proof fn retained_publication_is_kept_or_clears(b: BrokerView, m: MessageView)
    requires
        b.wf(),
        m.retain,
    ensures
        retained_for(b.keeping(m).retained, m.topic) == (if m.payload.len() == 0 {
            None
        } else {
            Some(RetainedView { topic: m.topic, message: m, own: false })
        }),
{
    let s = b.retained;
    let i = text::first_place(retained_topics(s), m.topic);
    text::lemma_first_place_is(retained_topics(s), m.topic);
    let t = b.keeping(m).retained;
    let j = text::first_place(retained_topics(t), m.topic);
    text::lemma_first_place_is(retained_topics(t), m.topic);
    if m.payload.len() == 0 {
        if j < t.len() {
            assert(retained_topics(t)[j] == m.topic);
            if i < s.len() {
                let k = if j < i {
                    j
                } else {
                    j + 1
                };
                assert(s[k].topic == m.topic && s[i].topic == m.topic);
            }
        }
    } else {
        let at = if i < s.len() {
            i
        } else {
            s.len() as int
        };
        assert(t[at].topic == m.topic);
        assert forall|k: int| 0 <= k < at implies #[trigger] retained_topics(t)[k] != m.topic by {
            assert(retained_topics(s)[k] != m.topic);
        }
        text::lemma_first_place(retained_topics(t), m.topic, at);
    }
}

/// The retained messages of other topics are left as they are.
pub proof fn other_retained_messages_stay(b: BrokerView, m: MessageView, r: RetainedView)
    requires
        b.wf(),
        r.topic != m.topic,
        b.retained.contains(r),
    ensures
        b.keeping(m).retained.contains(r),
{
    let s = b.retained;
    let i = text::first_place(retained_topics(s), m.topic);
    text::lemma_first_place_is(retained_topics(s), m.topic);
    let k = choose|k: int| 0 <= k < s.len() && s[k] == r;
    let t = b.keeping(m).retained;
    if m.retain {
        if i < s.len() {
            assert(retained_topics(s)[i] == m.topic);
            assert(k != i);
            if m.payload.len() == 0 {
                let at = if k < i {
                    k
                } else {
                    k - 1
                };
                assert(t[at] == r);
            } else {
                assert(t[k] == r);
            }
        } else {
            assert(t[k] == r);
        }
    }
}

} // verus!
