//! CONNECT: authentication, taking over and creating sessions, and the CONNACK
//! that tells what the server supports.

use vstd::prelude::*;
use vstd::string::StringExecFns;
use crate::auth;
use crate::broker::delivery::resume_delivery;
use crate::broker::publish::flush_keeps_the_rest;
use crate::broker::routing::{find_session, place};
use crate::broker::session;
use crate::broker::session::{Outgoing, OutgoingView, Session, SessionView};
use crate::broker::{
    lemma_session, lemma_with, name_of, Broker, BrokerView, Closing, ClosingView, ANONYMOUS,
};
use crate::codec::{Properties, PropertiesView};
use crate::config::{Config, ConfigView};
use crate::message;
use crate::message::{
    byte_value, four_property, four_value, text_value, two_property, two_value, with_property,
    Message, MessageView,
};
use crate::metrics::{counted, Metrics};
use crate::packet::{Connack, ConnackView, Connect, ConnectView};
use crate::storage::CommandView;
use crate::text;
use crate::text::{clone_opt_string, has_prefix, push_decimal, starts_with};
use crate::types::{PropertyId, ProtocolVersion, QoS, ReasonCode};

verus! {

broadcast use text::group_views;

/// A CONNECT that was accepted.
pub struct Accepted {
    pub client_id: String,
    pub epoch: u64,
    /// Keep alive in seconds that holds for the connection.
    pub keep_alive: u16,
    /// Who the client is: its username, or the name in its certificate.
    pub identity: Option<String>,
    pub connack: Connack,
}

/// What is known of a CONNECT that was accepted.
pub struct AcceptedView {
    pub client_id: Seq<char>,
    pub epoch: u64,
    pub keep_alive: u16,
    pub identity: Option<Seq<char>>,
    pub connack: ConnackView,
}

impl View for Accepted {
    type V = AcceptedView;

    open spec fn view(&self) -> AcceptedView {
        AcceptedView {
            client_id: self.client_id@,
            epoch: self.epoch,
            keep_alive: self.keep_alive,
            identity: text::opt_view(self.identity),
            connack: self.connack@,
        }
    }
}

/// The views of an outcome.
pub open spec fn outcome_view(r: core::result::Result<Accepted, Connack>) -> core::result::Result<
    AcceptedView,
    ConnackView,
> {
    match r {
        Ok(a) => Ok(a@),
        Err(c) => Err(c@),
    }
}

/// A CONNACK that refuses a connection.
pub open spec fn refusal(reason: ReasonCode) -> ConnackView {
    ConnackView { session_present: false, reason_code: reason, properties: PropertiesView::empty() }
}

/// Why the protocol of a CONNECT is refused.
pub open spec fn protocol_reason(c: ConnectView) -> ReasonCode {
    if c.name_matches_level() {
        ReasonCode::UnsupportedProtocolVersion
    } else {
        ReasonCode::ProtocolError
    }
}

/// Whether a client identifier is reserved for the broker itself.
pub open spec fn is_reserved(client_id: Seq<char>) -> bool {
    has_prefix(client_id, "$bridge/"@) || has_prefix(client_id, "$SYS/"@)
}

/// The client identifier that is assigned to a client without one.
pub open spec fn assigned_id(n: u64, now: u64) -> Seq<char> {
    "auto-"@ + text::decimal(n as nat) + seq!['-'] + text::decimal(now as nat)
}

/// The lower of two numbers.
pub open spec fn at_most(n: u32, max: u32) -> u32 {
    if n <= max {
        n
    } else {
        max
    }
}

/// The session expiry that a client asks for (0 where it does not).
pub open spec fn asked_expiry(c: ConnectView) -> u32 {
    match four_property(c.properties, PropertyId::SessionExpiryInterval) {
        Some(n) => n,
        None => 0,
    }
}

/// The session expiry that holds, at most what the server allows. Before v5 a
/// session that is not clean is kept as long as the server allows.
pub open spec fn granted_expiry(cfg: ConfigView, c: ConnectView) -> u32 {
    if c.version() == Some(ProtocolVersion::V5) {
        at_most(asked_expiry(c), cfg.max_session_expiry)
    } else if c.clean_start {
        0
    } else {
        cfg.max_session_expiry
    }
}

/// The keep alive that holds. From v5 on the server's goes before the client's.
pub open spec fn granted_keep_alive(cfg: ConfigView, c: ConnectView) -> u16 {
    match cfg.server_keep_alive {
        Some(k) => if c.version() == Some(ProtocolVersion::V5) {
            k
        } else {
            c.keep_alive
        },
        None => c.keep_alive,
    }
}

/// What the server supports, as a CONNACK tells it.
#[verifier::opaque]
pub open spec fn capabilities(
    cfg: ConfigView,
    c: ConnectView,
    client_id: Seq<char>,
    assigned: bool,
) -> PropertiesView {
    let m0 = with_property(
        Map::empty(),
        PropertyId::ReceiveMaximum,
        two_value(Some(cfg.receive_maximum)),
    );
    let m1 = with_property(
        m0,
        PropertyId::MaximumQoS,
        byte_value(
            if cfg.maximum_qos is ExactlyOnce {
                None
            } else {
                Some(cfg.maximum_qos.code())
            },
        ),
    );
    let m2 = with_property(
        m1,
        PropertyId::RetainAvailable,
        byte_value(
            Some(
                if cfg.retain_available {
                    1u8
                } else {
                    0u8
                },
            ),
        ),
    );
    let m3 = with_property(
        m2,
        PropertyId::MaximumPacketSize,
        four_value(Some(cfg.max_packet_size)),
    );
    let m4 = with_property(
        m3,
        PropertyId::TopicAliasMaximum,
        two_value(Some(cfg.topic_alias_maximum)),
    );
    let m5 = with_property(m4, PropertyId::WildcardSubscriptionAvailable, byte_value(Some(1)));
    let m6 = with_property(m5, PropertyId::SubscriptionIdentifierAvailable, byte_value(Some(1)));
    let m7 = with_property(m6, PropertyId::SharedSubscriptionAvailable, byte_value(Some(1)));
    let m8 = with_property(
        m7,
        PropertyId::AssignedClientIdentifier,
        text_value(
            if assigned {
                Some(client_id)
            } else {
                None
            },
        ),
    );
    let m9 = with_property(m8, PropertyId::ServerKeepAlive, two_value(cfg.server_keep_alive));
    let m10 = with_property(
        m9,
        PropertyId::SessionExpiryInterval,
        four_value(
            if granted_expiry(cfg, c) != asked_expiry(c) {
                Some(granted_expiry(cfg, c))
            } else {
                None
            },
        ),
    );
    PropertiesView {
        single: m10,
        subscription_identifiers: Seq::empty(),
        user_properties: Seq::empty(),
    }
}

/// How many sessions have a connection.
pub open spec fn online_count(s: Seq<SessionView>) -> nat
    decreases s.len(),
{
    if s.len() == 0 {
        0
    } else {
        online_count(s.drop_last()) + (if s.last().online() {
            1nat
        } else {
            0nat
        })
    }
}

/// The larger of a high-water mark and a count.
pub open spec fn high_water(mark: u64, count: nat) -> u64 {
    if count > mark {
        count as u64
    } else {
        mark
    }
}

/// The will of a CONNECT as a message, and its delay.
pub open spec fn will_of(c: ConnectView, now: u64) -> Option<(MessageView, u32)> {
    match c.will {
        Some(w) => Some(
            (
                MessageView::of_will(w, now),
                match four_property(w.properties, PropertyId::WillDelayInterval) {
                    Some(d) => d,
                    None => 0,
                },
            ),
        ),
        None => None,
    }
}

impl SessionView {
    /// A session bound to the connection of a CONNECT. Topic aliases are those
    /// of one connection.
    pub open spec fn bound(
        self,
        c: ConnectView,
        identity: Option<Seq<char>>,
        epoch: u64,
        expiry: u32,
        persistent: bool,
        now: u64,
    ) -> SessionView {
        SessionView {
            epoch,
            identity,
            session_expiry_interval: expiry,
            persistent,
            out: Some(Seq::empty()),
            client_receive_maximum: match two_property(
                c.properties,
                PropertyId::ReceiveMaximum,
            ) {
                Some(n) => n,
                None => 65535,
            },
            client_max_packet_size: four_property(c.properties, PropertyId::MaximumPacketSize),
            will: will_of(c, now),
            inbound_aliases: Seq::empty(),
            ..self
        }
    }
}

impl BrokerView {
    /// What the credentials say of the username and password of a CONNECT.
    pub open spec fn verifies(self, c: ConnectView) -> bool {
        match (self.auth, c.username, c.password) {
            (Some(users), Some(user), Some(password)) => auth::accepts(users, user, password),
            _ => false,
        }
    }

    /// Who the client is, given what the credentials say of it; or the reason
    /// why it is refused. A username that is verified goes before the identity
    /// of the connection.
    pub open spec fn authenticated(
        self,
        c: ConnectView,
        identity: Option<Seq<char>>,
        verified: bool,
    ) -> core::result::Result<Option<Seq<char>>, ReasonCode> {
        if self.auth is None {
            Ok(identity)
        } else {
            match (c.username, c.password) {
                (Some(user), Some(_)) => if verified {
                    Ok(Some(user))
                } else {
                    Err(ReasonCode::BadUserNameOrPassword)
                },
                (Some(_), None) => Err(ReasonCode::BadUserNameOrPassword),
                (None, _) => if self.config.allow_anonymous {
                    Ok(identity)
                } else {
                    Err(ReasonCode::NotAuthorized)
                },
            }
        }
    }

    /// Who the client is, if it is let in; or the reason why it is refused.
    pub open spec fn admitted(
        self,
        c: ConnectView,
        identity: Option<Seq<char>>,
        verified: bool,
    ) -> core::result::Result<Option<Seq<char>>, ReasonCode> {
        if c.version() is None {
            Err(protocol_reason(c))
        } else {
            match self.authenticated(c, identity, verified) {
                Err(reason) => Err(reason),
                Ok(who) => if c.will matches Some(w) && !self.acl.may_publish(
                    name_of(who),
                    w.topic,
                ) {
                    Err(ReasonCode::NotAuthorized)
                } else if c.client_id.len() > 0 && is_reserved(c.client_id) {
                    Err(ReasonCode::ClientIdentifierNotValid)
                } else {
                    Ok(who)
                },
            }
        }
    }

    /// The client identifier that a CONNECT is for.
    pub open spec fn connect_id(self, c: ConnectView, now: u64) -> Seq<char> {
        if c.client_id.len() == 0 {
            assigned_id(self.auto_id_counter, now)
        } else {
            c.client_id
        }
    }

    /// What is still to go to the connection that a CONNECT takes the session
    /// from.
    pub open spec fn displaced(self, client_id: Seq<char>) -> Seq<ClosingView> {
        match self.session(client_id) {
            Some(s) => match s.out {
                Some(items) => self.closing.push(
                    ClosingView {
                        epoch: s.epoch,
                        items: items.push(OutgoingView::Shutdown(ReasonCode::SessionTakenOver)),
                    },
                ),
                None => self.closing,
            },
            None => self.closing,
        }
    }

    /// The session that serves a CONNECT for a client: the one that is there,
    /// resumed, or a new one.
    pub open spec fn seated(
        self,
        c: ConnectView,
        who: Option<Seq<char>>,
        id: Seq<char>,
        epoch: u64,
        expiry: u32,
        persistent: bool,
        now: u64,
    ) -> SessionView {
        match self.session(id) {
            Some(s) => if c.clean_start {
                SessionView::fresh(id, expiry).bound(c, who, epoch, expiry, persistent, now)
            } else {
                s.bound(c, who, epoch, expiry, persistent, now).resumed(now)
            },
            None => SessionView::fresh(id, expiry).bound(c, who, epoch, expiry, persistent, now),
        }
    }

    /// The session that serves a CONNECT.
    pub open spec fn connect_session(self, c: ConnectView, who: Option<Seq<char>>, now: u64)
        -> SessionView {
        let expiry = granted_expiry(self.config, c);
        self.seated(
            c,
            who,
            self.connect_id(c, now),
            self.next_epoch,
            expiry,
            expiry > 0 && c.client_id.len() > 0,
            now,
        )
    }

    /// The storage after a CONNECT: a clean start forgets what is stored, and a
    /// session that outlives its connection is stored.
    pub open spec fn connect_storage(self, c: ConnectView, who: Option<Seq<char>>, now: u64)
        -> BrokerView {
        let id = self.connect_id(c, now);
        let expiry = granted_expiry(self.config, c);
        let b = if c.clean_start {
            self.stored(CommandView::DeleteSession { client_id: id })
        } else {
            self
        };
        if expiry > 0 && c.client_id.len() > 0 {
            b.stored(
                CommandView::UpsertSession {
                    client_id: id,
                    session_expiry: expiry,
                    owner_identity: who,
                },
            )
        } else {
            b
        }
    }

    /// The broker after it has numbered a connection.
    pub open spec fn numbered(self, c: ConnectView) -> BrokerView {
        BrokerView {
            next_epoch: (self.next_epoch + 1) as u64,
            auto_id_counter: if c.client_id.len() == 0 {
                (self.auto_id_counter + 1) as u64
            } else {
                self.auto_id_counter
            },
            ..self
        }
    }

    /// What accepting the CONNECT of a client does.
    pub open spec fn accepting(self, c: ConnectView, who: Option<Seq<char>>, now: u64) -> (
        BrokerView,
        AcceptedView,
    ) {
        let id = self.connect_id(c, now);
        let b = BrokerView {
            closing: self.displaced(id),
            ..self.connect_storage(c, who, now).numbered(c)
        }.with(self.connect_session(c, who, now));
        (
            BrokerView {
                metrics: Metrics {
                    connections_total: counted(self.metrics.connections_total, 1),
                    clients_maximum: high_water(
                        self.metrics.clients_maximum,
                        online_count(b.sessions),
                    ),
                    ..self.metrics
                },
                ..b
            },
            AcceptedView {
                client_id: id,
                epoch: self.next_epoch,
                keep_alive: granted_keep_alive(self.config, c),
                identity: who,
                connack: ConnackView {
                    session_present: !c.clean_start && self.session(id) is Some,
                    reason_code: ReasonCode::Success,
                    properties: capabilities(self.config, c, id, c.client_id.len() == 0),
                },
            },
        )
    }

    /// What a CONNECT does, given what the credentials say of it.
    pub open spec fn on_connect(
        self,
        c: ConnectView,
        identity: Option<Seq<char>>,
        verified: bool,
        now: u64,
    ) -> (BrokerView, core::result::Result<AcceptedView, ConnackView>) {
        match self.admitted(c, identity, verified) {
            Err(reason) => (self, Err(refusal(reason))),
            Ok(who) => {
                let (b, a) = self.accepting(c, who, now);
                (b, Ok(a))
            },
        }
    }
}

/// A refused CONNECT changes nothing.
pub proof fn refused_connect_changes_nothing(
    b: BrokerView,
    c: ConnectView,
    identity: Option<Seq<char>>,
    verified: bool,
    now: u64,
)
    ensures
        b.on_connect(c, identity, verified, now).1 is Err ==> b.on_connect(
            c,
            identity,
            verified,
            now,
        ).0 == b,
{
}

/// Where credentials are configured, a client that is let in was verified, or
/// presented no username and anonymous clients are allowed.
pub proof fn credentials_are_asked_for(
    b: BrokerView,
    c: ConnectView,
    identity: Option<Seq<char>>,
    verified: bool,
    now: u64,
)
    requires
        b.auth is Some,
        b.on_connect(c, identity, verified, now).1 is Ok,
    ensures
        verified || (c.username is None && b.config.allow_anonymous),
        c.username is Some ==> b.on_connect(c, identity, verified, now).1->Ok_0.identity
            == c.username,
{
}

/// A session that is taken over goes to the new connection, and the old one is
/// told.
pub proof fn takeover_tells_the_old_connection(
    b: BrokerView,
    c: ConnectView,
    identity: Option<Seq<char>>,
    verified: bool,
    now: u64,
)
    requires
        b.wf(),
        b.on_connect(c, identity, verified, now).1 is Ok,
        b.session(b.connect_id(c, now)) matches Some(s) && s.online(),
    ensures
        ({
            let id = b.connect_id(c, now);
            let (t, r) = b.on_connect(c, identity, verified, now);
            let old = b.session(id)->0;
            &&& t.closing.len() == b.closing.len() + 1
            &&& t.closing.last().epoch == old.epoch
            &&& t.closing.last().items.last() == OutgoingView::Shutdown(
                ReasonCode::SessionTakenOver,
            )
            &&& t.session(id) matches Some(s) && s.epoch == r->Ok_0.epoch && s.online()
        }),
{
    let id = b.connect_id(c, now);
    let who = b.admitted(c, identity, verified)->Ok_0;
    lemma_session(b, id);
    lemma_connect_session(b, c, who, now);
    let s = b.connect_session(c, who, now);
    let i = place(b.sessions, id);
    crate::broker::routing::lemma_sessions_update(b.sessions, i, s);
}

/// A clean start begins with an empty session.
pub proof fn clean_start_forgets(b: BrokerView, c: ConnectView, who: Option<Seq<char>>, now: u64)
    requires
        c.clean_start,
    ensures
        ({
            let s = b.connect_session(c, who, now);
            &&& s.subscriptions.len() == 0
            &&& s.queue.len() == 0
            &&& s.inflight() == 0
            &&& s.inbound_qos2.len() == 0
        }),
{
}

/// A resumed session keeps its subscriptions.
pub proof fn resumed_session_keeps_subscriptions(
    b: BrokerView,
    c: ConnectView,
    who: Option<Seq<char>>,
    now: u64,
)
    requires
        !c.clean_start,
    ensures
        b.session(b.connect_id(c, now)) matches Some(s) ==> b.connect_session(
            c,
            who,
            now,
        ).subscriptions == s.subscriptions,
{
    if let Some(s) = b.session(b.connect_id(c, now)) {
        let expiry = granted_expiry(b.config, c);
        let persistent = expiry > 0 && c.client_id.len() > 0;
        let t = s.bound(c, who, b.next_epoch, expiry, persistent, now);
        flush_keeps_the_rest(
            SessionView { out: Some(t.out->0 + t.redeliveries()), ..t },
            now,
        );
    }
}

/// A new connection begins without topic aliases.
pub proof fn new_connection_has_no_aliases(
    b: BrokerView,
    c: ConnectView,
    who: Option<Seq<char>>,
    now: u64,
)
    ensures
        b.connect_session(c, who, now).inbound_aliases.len() == 0,
{
    let expiry = granted_expiry(b.config, c);
    let persistent = expiry > 0 && c.client_id.len() > 0;
    if let Some(s) = b.session(b.connect_id(c, now)) {
        let t = s.bound(c, who, b.next_epoch, expiry, persistent, now);
        flush_keeps_the_rest(
            SessionView { out: Some(t.out->0 + t.redeliveries()), ..t },
            now,
        );
    }
}

/// Only the session of a named client that outlives its connection is stored.
pub proof fn only_lasting_sessions_are_stored(
    b: BrokerView,
    c: ConnectView,
    who: Option<Seq<char>>,
    now: u64,
)
    ensures
        ({
            let t = b.accepting(c, who, now).0;
            let s = b.connect_session(c, who, now);
            &&& s.persistent == (c.client_id.len() > 0 && granted_expiry(b.config, c) > 0)
            &&& b.storage.commands.is_prefix_of(t.storage.commands)
            &&& forall|i: int|
                b.storage.commands.len() <= i < t.storage.commands.len()
                    && #[trigger] t.storage.commands[i] is UpsertSession ==> s.persistent
        }),
{
    let expiry = granted_expiry(b.config, c);
    let persistent = expiry > 0 && c.client_id.len() > 0;
    if let Some(s) = b.session(b.connect_id(c, now)) {
        let t = s.bound(c, who, b.next_epoch, expiry, persistent, now);
        flush_keeps_the_rest(
            SessionView { out: Some(t.out->0 + t.redeliveries()), ..t },
            now,
        );
    }
}

/// No client gets one of the identifiers that the broker uses itself.
pub proof fn reserved_identifiers_are_refused(
    b: BrokerView,
    c: ConnectView,
    identity: Option<Seq<char>>,
    verified: bool,
    now: u64,
)
    ensures
        b.on_connect(c, identity, verified, now).1 matches Ok(a) ==> !is_reserved(a.client_id),
{
    if c.client_id.len() == 0 {
        reveal_strlit("auto-");
        reveal_strlit("$bridge/");
        reveal_strlit("$SYS/");
        let id = assigned_id(b.auto_id_counter, now);
        assert(id[0] == 'a');
        if has_prefix(id, "$bridge/"@) {
            assert(id.take("$bridge/"@.len() as int)[0] == id[0]);
        }
        if has_prefix(id, "$SYS/"@) {
            assert(id.take("$SYS/"@.len() as int)[0] == id[0]);
        }
    }
}

/// The session that serves a CONNECT is that of its client, has the connection
/// and keeps its invariant.
proof fn lemma_seated(
    b: BrokerView,
    c: ConnectView,
    who: Option<Seq<char>>,
    id: Seq<char>,
    epoch: u64,
    expiry: u32,
    persistent: bool,
    now: u64,
)
    requires
        b.wf(),
    ensures
        ({
            let s = b.seated(c, who, id, epoch, expiry, persistent, now);
            &&& s.client_id == id
            &&& s.epoch == epoch
            &&& s.online()
            &&& s.wf()
        }),
{
    lemma_session(b, id);
    match b.session(id) {
        Some(s) => if !c.clean_start {
            let t = s.bound(c, who, epoch, expiry, persistent, now);
            assert(t.wf());
            session::resume_keeps_session_wf(t, now);
            flush_keeps_the_rest(
                SessionView { out: Some(t.out->0 + t.redeliveries()), ..t },
                now,
            );
        },
        None => {},
    }
}

/// That of a CONNECT.
proof fn lemma_connect_session(b: BrokerView, c: ConnectView, who: Option<Seq<char>>, now: u64)
    requires
        b.wf(),
    ensures
        ({
            let s = b.connect_session(c, who, now);
            &&& s.client_id == b.connect_id(c, now)
            &&& s.epoch == b.next_epoch
            &&& s.online()
            &&& s.wf()
        }),
{
    let expiry = granted_expiry(b.config, c);
    lemma_seated(
        b,
        c,
        who,
        b.connect_id(c, now),
        b.next_epoch,
        expiry,
        expiry > 0 && c.client_id.len() > 0,
        now,
    );
}

/// Counts the sessions with a connection.
pub(crate) fn count_online(sessions: &Vec<Session>) -> (r: u64)
    ensures
        r == online_count(text::views(sessions@)),
        r <= sessions@.len(),
{
    let ghost vs = text::views(sessions@);
    let mut n: u64 = 0;
    let mut i: usize = 0;
    assert(vs.take(0) =~= Seq::empty());
    while i < sessions.len()
        invariant
            i <= sessions.len(),
            vs == text::views(sessions@),
            n <= i,
            n == online_count(vs.take(i as int)),
        decreases sessions.len() - i,
    {
        assert(vs.take(i + 1).drop_last() =~= vs.take(i as int));
        assert(vs.take(i + 1).last() == sessions@[i as int]@);
        if sessions[i].is_online() {
            n = n + 1;
        }
        i = i + 1;
    }
    assert(vs.take(vs.len() as int) =~= vs);
    n
}

/// The session expiry that holds for a CONNECT.
fn expiry_for(cfg: &Config, connect: &Connect, version: ProtocolVersion) -> (r: u32)
    requires
        connect@.version() == Some(version),
    ensures
        r == granted_expiry(cfg@, connect@),
{
    proof {
        message::lemma_fields(connect.properties);
    }
    if version.is_v5() {
        let asked: u32 = match connect.properties.session_expiry_interval {
            Some(n) => n,
            None => 0,
        };
        if asked <= cfg.max_session_expiry {
            asked
        } else {
            cfg.max_session_expiry
        }
    } else if connect.clean_start {
        0
    } else {
        cfg.max_session_expiry
    }
}

/// The CONNACK that accepts a connection.
fn accepting_connack(
    cfg: &Config,
    connect: &Connect,
    client_id: &String,
    assigned: bool,
    expiry: u32,
    session_present: bool,
) -> (r: Connack)
    requires
        expiry == granted_expiry(cfg@, connect@),
    ensures
        r@ == (ConnackView {
            session_present,
            reason_code: ReasonCode::Success,
            properties: capabilities(cfg@, connect@, client_id@, assigned),
        }),
{
    let mut p: Properties = Properties::new();
    proof {
        reveal(capabilities);
        message::lemma_no_fields(p);
        message::lemma_fields(connect.properties);
    }
    let ghost empty = p;
    p.receive_maximum = Some(cfg.receive_maximum);
    if cfg.maximum_qos != QoS::ExactlyOnce {
        p.maximum_qos = Some(cfg.maximum_qos.as_u8());
    }
    p.retain_available = Some(
        if cfg.retain_available {
            1u8
        } else {
            0u8
        },
    );
    p.maximum_packet_size = Some(cfg.max_packet_size);
    p.topic_alias_maximum = Some(cfg.topic_alias_maximum);
    p.wildcard_subscription_available = Some(1);
    p.subscription_identifier_available = Some(1);
    p.shared_subscription_available = Some(1);
    if assigned {
        p.assigned_client_identifier = Some(client_id.clone());
    }
    p.server_keep_alive = cfg.server_keep_alive;
    let asked: u32 = match connect.properties.session_expiry_interval {
        Some(n) => n,
        None => 0,
    };
    if expiry != asked {
        p.session_expiry_interval = Some(expiry);
    }
    proof {
        let want = capabilities(cfg@, connect@, client_id@, assigned);
        assert forall|id: PropertyId|
            id != PropertyId::ReceiveMaximum && id != PropertyId::MaximumQoS && id
                != PropertyId::RetainAvailable && id != PropertyId::MaximumPacketSize && id
                != PropertyId::TopicAliasMaximum && id != PropertyId::WildcardSubscriptionAvailable
                && id != PropertyId::SubscriptionIdentifierAvailable && id
                != PropertyId::SharedSubscriptionAvailable && id
                != PropertyId::AssignedClientIdentifier && id != PropertyId::ServerKeepAlive && id
                != PropertyId::SessionExpiryInterval implies #[trigger] p.field(id) == empty.field(
            id,
        ) by {}
        assert(p@.single =~= want.single);
        assert(p@.user_properties =~= want.user_properties);
    }
    Connack { session_present, reason_code: ReasonCode::Success, properties: p }
}

/// The will of a CONNECT as a message, and its delay.
fn will_message(connect: &Connect, now: u64) -> (r: Option<(Message, u32)>)
    ensures
        session::will_view(r) == will_of(connect@, now),
{
    match &connect.will {
        Some(w) => {
            proof {
                message::lemma_fields(w.properties);
            }
            let delay: u32 = match w.properties.will_delay_interval {
                Some(d) => d,
                None => 0,
            };
            Some((Message::from_will(w, now), delay))
        },
        None => None,
    }
}

/// Binds a session to the connection of a CONNECT.
fn bind(
    s: &mut Session,
    connect: &Connect,
    identity: &Option<String>,
    epoch: u64,
    expiry: u32,
    persistent: bool,
    now: u64,
)
    requires
        old(s)@.wf(),
    ensures
        final(s)@ == old(s)@.bound(
            connect@,
            text::opt_view(*identity),
            epoch,
            expiry,
            persistent,
            now,
        ),
        final(s)@.wf(),
{
    proof {
        message::lemma_fields(connect.properties);
    }
    let ghost before = s@;
    s.epoch = epoch;
    s.identity = clone_opt_string(identity);
    s.session_expiry_interval = expiry;
    s.persistent = persistent;
    s.out = Some(Vec::new());
    s.client_receive_maximum = match connect.properties.receive_maximum {
        Some(n) => n,
        None => 65535,
    };
    s.client_max_packet_size = connect.properties.maximum_packet_size;
    s.will = will_message(connect, now);
    s.inbound_aliases = Vec::new();
    let ghost after = before.bound(
        connect@,
        text::opt_view(*identity),
        epoch,
        expiry,
        persistent,
        now,
    );
    assert(s@.out->0 =~= Seq::empty());
    assert(s@.inbound_aliases =~= Seq::empty());
    assert(s@ =~= after);
    assert(after.wf());
}

impl Broker {
    /// Whether a connection can still be given a number.
    pub fn can_accept(&self) -> (r: bool)
        ensures
            r == (self@.next_epoch < u64::MAX),
    {
        self.next_epoch < u64::MAX
    }

    /// Who the client is, if it is let in; or the reason why it is refused.
    fn let_in(&self, connect: &Connect, identity: Option<String>, verified: bool) -> (r:
        core::result::Result<Option<String>, ReasonCode>)
        ensures
            match r {
                Ok(who) => self@.admitted(connect@, text::opt_view(identity), verified) == Ok::<
                    _,
                    ReasonCode,
                >(text::opt_view(who)),
                Err(reason) => self@.admitted(connect@, text::opt_view(identity), verified) == Err::<
                    Option<Seq<char>>,
                    ReasonCode,
                >(reason),
            },
    {
        if let Err(e) = connect.validate_protocol() {
            return Err(e.reason_code());
        }
        let who: Option<String> = match &self.auth {
            None => identity,
            Some(_) => match (&connect.username, &connect.password) {
                (Some(user), Some(_)) => {
                    if !verified {
                        return Err(ReasonCode::BadUserNameOrPassword);
                    }
                    Some(user.clone())
                },
                (Some(_), None) => {
                    return Err(ReasonCode::BadUserNameOrPassword);
                },
                (None, _) => {
                    if !self.config.allow_anonymous {
                        return Err(ReasonCode::NotAuthorized);
                    }
                    identity
                },
            },
        };
        if let Some(will) = &connect.will {
            let allowed: bool = match &who {
                Some(name) => self.acl.can_publish(name.as_str(), will.topic.as_str()),
                None => self.acl.can_publish(ANONYMOUS, will.topic.as_str()),
            };
            if !allowed {
                return Err(ReasonCode::NotAuthorized);
            }
        }
        if connect.client_id.as_str().unicode_len() > 0 && (starts_with(
            connect.client_id.as_str(),
            "$bridge/",
        ) || starts_with(connect.client_id.as_str(), "$SYS/")) {
            return Err(ReasonCode::ClientIdentifierNotValid);
        }
        Ok(who)
    }

    /// Takes the session of a client from its connection, which is told. Returns
    /// whether there is a session.
    fn displace(&mut self, client_id: &str) -> (exists: bool)
        requires
            old(self).wf(),
        ensures
            exists == (old(self)@.session(client_id@) is Some),
            final(self)@ == (match old(self)@.session(client_id@) {
                Some(s) => BrokerView {
                    closing: old(self)@.displaced(client_id@),
                    ..old(self)@.with((SessionView { out: None, ..s }))
                },
                None => old(self)@,
            }),
            final(self).wf(),
    {
        let ghost before = self@;
        proof {
            lemma_session(before, client_id@);
        }
        let i: usize = find_session(&self.sessions, client_id);
        if i >= self.sessions.len() {
            return false;
        }
        assert(self.sessions@[i as int]@ == before.sessions[i as int]);
        let ghost sv = SessionView { out: None, ..before.sessions[i as int] };
        proof {
            assert(sv.wf());
            lemma_with(before, sv);
        }
        let taken: Option<Vec<Outgoing>> = self.sessions[i].out.take();
        assert(self@ =~= before.with(sv));
        if let Some(items) = taken {
            let mut items: Vec<Outgoing> = items;
            items.push(Outgoing::Shutdown(ReasonCode::SessionTakenOver));
            let old_epoch: u64 = self.sessions[i].epoch;
            assert(self.sessions@[i as int]@ == sv);
            self.closing.push(Closing { epoch: old_epoch, items });
        }
        assert(self@.closing =~= before.displaced(client_id@));
        true
    }

    /// Tells the storage of a CONNECT.
    fn record_connect(
        &mut self,
        connect: &Connect,
        who: &Option<String>,
        client_id: &String,
        expiry: u32,
        persistent: bool,
    )
        ensures
            ({
                let b = if connect@.clean_start {
                    old(self)@.stored(CommandView::DeleteSession { client_id: client_id@ })
                } else {
                    old(self)@
                };
                final(self)@ == (if persistent {
                    b.stored(
                        CommandView::UpsertSession {
                            client_id: client_id@,
                            session_expiry: expiry,
                            owner_identity: text::opt_view(*who),
                        },
                    )
                } else {
                    b
                })
            }),
            old(self).wf() ==> final(self).wf(),
    {
        if connect.clean_start {
            self.storage.delete_session(client_id.clone());
        }
        if persistent {
            self.storage.upsert_session(client_id.clone(), expiry, clone_opt_string(who));
        }
    }

    /// Binds the session of a client to the connection of a CONNECT: the one
    /// that is there, or a new one.
    fn install(
        &mut self,
        connect: &Connect,
        who: &Option<String>,
        client_id: &String,
        epoch: u64,
        expiry: u32,
        persistent: bool,
        keep: bool,
        now: u64,
    )
        requires
            old(self).wf(),
            keep ==> old(self)@.session(client_id@) is Some,
        ensures
            ({
                let whov = text::opt_view(*who);
                let s = if keep {
                    old(self)@.session(client_id@)->0.bound(
                        connect@,
                        whov,
                        epoch,
                        expiry,
                        persistent,
                        now,
                    ).resumed(now)
                } else {
                    SessionView::fresh(client_id@, expiry).bound(
                        connect@,
                        whov,
                        epoch,
                        expiry,
                        persistent,
                        now,
                    )
                };
                final(self)@ == old(self)@.with(s)
            }),
            final(self).wf(),
    {
        let ghost before = self@;
        proof {
            lemma_session(before, client_id@);
        }
        let i: usize = find_session(&self.sessions, client_id.as_str());
        if keep {
            assert(self.sessions@[i as int]@ == before.sessions[i as int]);
            let s: &mut Session = &mut self.sessions[i];
            bind(s, connect, who, epoch, expiry, persistent, now);
            let ghost bv = s@;
            resume_delivery(s, now);
            proof {
                flush_keeps_the_rest(
                    SessionView { out: Some(bv.out->0 + bv.redeliveries()), ..bv },
                    now,
                );
                let sv = self.sessions@[i as int]@;
                lemma_with(before, sv);
                assert(self@ =~= before.with(sv));
            }
        } else {
            let mut s: Session = Session::new(client_id.clone(), expiry);
            bind(&mut s, connect, who, epoch, expiry, persistent, now);
            let ghost sv = s@;
            proof {
                lemma_with(before, sv);
            }
            if i < self.sessions.len() {
                self.sessions.set(i, s);
            } else {
                self.sessions.push(s);
            }
            assert(self@ =~= before.with(sv));
        }
    }

    /// Seats a client: its session goes from the connection that it has to that
    /// of a CONNECT. Returns whether the session was there before.
    fn seat(
        &mut self,
        connect: &Connect,
        who: &Option<String>,
        client_id: &String,
        epoch: u64,
        expiry: u32,
        persistent: bool,
        now: u64,
    ) -> (session_present: bool)
        requires
            old(self).wf(),
        ensures
            session_present == (!connect@.clean_start && old(self)@.session(client_id@) is Some),
            ({
                let b = BrokerView { closing: old(self)@.displaced(client_id@), ..old(self)@ };
                let b1 = if connect@.clean_start {
                    b.stored(CommandView::DeleteSession { client_id: client_id@ })
                } else {
                    b
                };
                let b2 = if persistent {
                    b1.stored(
                        CommandView::UpsertSession {
                            client_id: client_id@,
                            session_expiry: expiry,
                            owner_identity: text::opt_view(*who),
                        },
                    )
                } else {
                    b1
                };
                final(self)@ == b2.with(
                    old(self)@.seated(
                        connect@,
                        text::opt_view(*who),
                        client_id@,
                        epoch,
                        expiry,
                        persistent,
                        now,
                    ),
                )
            }),
            final(self).wf(),
    {
        let ghost before = self@;
        let ghost id = client_id@;
        proof {
            lemma_session(before, id);
        }
        let exists: bool = self.displace(client_id.as_str());
        let session_present: bool = exists && !connect.clean_start;
        proof {
            if exists {
                let s1 = SessionView { out: None, ..before.session(id)->0 };
                assert(s1.wf());
                lemma_with(before, s1);
                crate::broker::routing::lemma_sessions_update(
                    before.sessions,
                    place(before.sessions, id),
                    s1,
                );
                assert(self@.session(id) == Some(s1));
                assert(place(self@.sessions, id) == place(before.sessions, id));
            }
        }
        let ghost detached = self@;
        self.record_connect(connect, who, client_id, expiry, persistent);
        assert(self@.session(id) == detached.session(id));
        self.install(connect, who, client_id, epoch, expiry, persistent, session_present, now);
        let ghost served = before.seated(
            connect@,
            text::opt_view(*who),
            id,
            epoch,
            expiry,
            persistent,
            now,
        );
        proof {
            lemma_seated(
                before,
                connect@,
                text::opt_view(*who),
                id,
                epoch,
                expiry,
                persistent,
                now,
            );
            assert(self@.sessions =~= before.with(served).sessions);
        }
        session_present
    }

    /// Numbers the connection of a CONNECT. Returns the client identifier.
    fn number(&mut self, connect: &Connect, now: u64) -> (client_id: String)
        requires
            old(self).wf(),
            old(self)@.next_epoch < u64::MAX,
        ensures
            client_id@ == old(self)@.connect_id(connect@, now),
            final(self)@ == old(self)@.numbered(connect@),
            final(self).wf(),
    {
        let ghost before = self@;
        let client_id: String = if connect.client_id.as_str().unicode_len() == 0 {
            let mut id: String = String::from_str("auto-");
            push_decimal(&mut id, self.auto_id_counter);
            id.push('-');
            push_decimal(&mut id, now);
            self.auto_id_counter = self.auto_id_counter + 1;
            assert(id@ =~= assigned_id(before.auto_id_counter, now));
            id
        } else {
            connect.client_id.clone()
        };
        self.next_epoch = self.next_epoch + 1;
        client_id
    }

    /// Accepts the CONNECT of a client.
    fn accept(&mut self, connect: &Connect, version: ProtocolVersion, who: Option<String>, now: u64)
        -> (r: Accepted)
        requires
            old(self).wf(),
            old(self)@.next_epoch < u64::MAX,
            connect@.version() == Some(version),
        ensures
            (final(self)@, r@) == old(self)@.accepting(connect@, text::opt_view(who), now),
            final(self).wf(),
    {
        let ghost before = self@;
        let ghost c = connect@;
        let ghost whov = text::opt_view(who);
        let epoch: u64 = self.next_epoch;
        let assigned: bool = connect.client_id.as_str().unicode_len() == 0;
        let client_id: String = self.number(connect, now);
        let ghost id = client_id@;
        let expiry: u32 = expiry_for(&self.config, connect, version);
        let keep_alive: u16 = if version.is_v5() {
            match self.config.server_keep_alive {
                Some(k) => k,
                None => connect.keep_alive,
            }
        } else {
            connect.keep_alive
        };
        let persistent: bool = expiry > 0 && !assigned;
        let ghost numbered = self@;
        assert(numbered.session(id) == before.session(id));
        assert(numbered.seated(c, whov, id, epoch, expiry, persistent, now)
            == before.connect_session(c, whov, now));
        let session_present: bool = self.seat(
            connect,
            &who,
            &client_id,
            epoch,
            expiry,
            persistent,
            now,
        );
        let connack: Connack = accepting_connack(
            &self.config,
            connect,
            &client_id,
            assigned,
            expiry,
            session_present,
        );
        Metrics::inc(&mut self.metrics.connections_total);
        let online: u64 = count_online(&self.sessions);
        self.metrics.observe_clients_connected(online);
        Accepted { client_id, epoch, keep_alive, identity: who, connack }
    }

    /// Handles a CONNECT, given what the credentials say of it. Returns what
    /// was accepted, or the CONNACK that refuses it.
    pub fn connect_verified(
        &mut self,
        connect: Connect,
        identity: Option<String>,
        verified: bool,
        now: u64,
    ) -> (r: core::result::Result<Accepted, Connack>)
        requires
            old(self).wf(),
            old(self)@.next_epoch < u64::MAX,
        ensures
            (final(self)@, outcome_view(r)) == old(self)@.on_connect(
                connect@,
                text::opt_view(identity),
                verified,
                now,
            ),
            final(self).wf(),
    {
        let version: ProtocolVersion = match connect.validate_protocol() {
            Ok(v) => v,
            Err(e) => {
                return Err(Connack::new(false, e.reason_code()));
            },
        };
        match self.let_in(&connect, identity, verified) {
            Ok(who) => Ok(self.accept(&connect, version, who, now)),
            Err(reason) => Err(Connack::new(false, reason)),
        }
    }

    /// Handles a CONNECT. Returns what was accepted, or the CONNACK that
    /// refuses it.
    pub fn handle_connect(&mut self, connect: Connect, identity: Option<String>, now: u64) -> (r:
        core::result::Result<Accepted, Connack>)
        requires
            old(self).wf(),
            old(self)@.next_epoch < u64::MAX,
        ensures
            (final(self)@, outcome_view(r)) == old(self)@.on_connect(
                connect@,
                text::opt_view(identity),
                old(self)@.verifies(connect@),
                now,
            ),
            final(self).wf(),
    {
        if let Err(e) = connect.validate_protocol() {
            return Err(Connack::new(false, e.reason_code()));
        }
        let verified: bool = match (&self.auth, &connect.username, &connect.password) {
            (Some(users), Some(user), Some(password)) => users.verify(
                user.as_str(),
                password.as_slice(),
            ),
            _ => false,
        };
        self.connect_verified(connect, identity, verified, now)
    }
}

} // verus!
