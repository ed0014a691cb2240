//! The end of connections and sessions: DISCONNECT, closed connections, will
//! messages and session expiry.

use vstd::prelude::*;
use crate::broker::connect::at_most;
use crate::broker::routing::find_session;
use crate::broker::session::{will_view, Session, SessionView};
use crate::broker::{
    lemma_session, lemma_sessions_remove, lemma_with, name_of, Action, Broker, BrokerView,
    ANONYMOUS,
};
use crate::message;
use crate::message::{four_property, Message, MessageView};
use crate::metrics::{counted, Metrics};
use crate::packet::{Disconnect, DisconnectView};
use crate::storage::CommandView;
use crate::text;
use crate::text::clone_opt_string;
use crate::types::{PropertyId, ReasonCode};

verus! {

broadcast use text::group_views;

/// A will message to be published after its delay (in seconds), for the one who
/// set it.
pub struct WillTask {
    pub message: Message,
    pub delay: u32,
    pub owner: String,
}

/// What a will message to be published says.
pub struct WillTaskView {
    pub message: MessageView,
    pub delay: u32,
    pub owner: Seq<char>,
}

impl View for WillTask {
    type V = WillTaskView;

    open spec fn view(&self) -> WillTaskView {
        WillTaskView { message: self.message@, delay: self.delay, owner: self.owner@ }
    }
}

/// What is to happen after a connection has closed: a will message to publish,
/// and a session to expire after some seconds.
pub struct FollowUp {
    pub will: Option<WillTask>,
    pub expire_after: Option<u32>,
}

/// What is to happen after a connection has closed.
pub struct FollowUpView {
    pub will: Option<WillTaskView>,
    pub expire_after: Option<u32>,
}

impl View for FollowUp {
    type V = FollowUpView;

    open spec fn view(&self) -> FollowUpView {
        FollowUpView { will: text::opt_view(self.will), expire_after: self.expire_after }
    }
}

impl SessionView {
    /// The session after its connection has closed. Its will is spent.
    pub open spec fn closed(self) -> SessionView {
        SessionView { out: None, inbound_aliases: Seq::empty(), will: None, ..self }
    }
}

impl BrokerView {
    /// What a DISCONNECT does. A client may change how long its session lasts,
    /// up to what the server allows.
    pub open spec fn on_disconnect(self, client_id: Seq<char>, d: DisconnectView) -> (
        BrokerView,
        Action,
    ) {
        let action = Action::ClientDisconnect {
            publish_will: d.reason_code == ReasonCode::DisconnectWithWillMessage,
        };
        match (
            four_property(d.properties, PropertyId::SessionExpiryInterval),
            self.session(client_id),
        ) {
            (Some(secs), Some(s)) => {
                let expiry = at_most(secs, self.config.max_session_expiry);
                let b = self.with(SessionView { session_expiry_interval: expiry, ..s });
                (
                    if s.persistent {
                        b.stored(
                            CommandView::UpsertSession {
                                client_id,
                                session_expiry: expiry,
                                owner_identity: s.identity,
                            },
                        )
                    } else {
                        b
                    },
                    action,
                )
            },
            _ => (self, action),
        }
    }

    /// The broker after the session of a client ends. Only a session that was
    /// stored counts as expired.
    pub open spec fn ended(self, client_id: Seq<char>) -> BrokerView {
        match self.session(client_id) {
            None => self,
            Some(s) => {
                let b = self.without(client_id).stored(CommandView::DeleteSession { client_id });
                if s.persistent {
                    BrokerView {
                        metrics: Metrics {
                            clients_expired: counted(b.metrics.clients_expired, 1),
                            ..b.metrics
                        },
                        ..b
                    }
                } else {
                    b
                }
            },
        }
    }

    /// What the expiry of a session does, unless the client has come back.
    pub open spec fn on_expiry(self, client_id: Seq<char>, epoch: u64) -> BrokerView {
        match self.session(client_id) {
            Some(s) => if s.epoch == epoch && !s.online() {
                self.ended(client_id)
            } else {
                self
            },
            None => self,
        }
    }

    /// What a closed connection does, unless its session went to another one.
    pub open spec fn on_closed(self, client_id: Seq<char>, epoch: u64, publish_will: bool) -> (
        BrokerView,
        FollowUpView,
    ) {
        let nothing = FollowUpView { will: None, expire_after: None };
        match self.session(client_id) {
            None => (self, nothing),
            Some(s) => if s.epoch != epoch {
                (self, nothing)
            } else {
                let will = match s.will {
                    Some((message, delay)) => if publish_will {
                        Some(WillTaskView { message, delay, owner: name_of(s.identity) })
                    } else {
                        None
                    },
                    None => None,
                };
                let b = self.with(s.closed());
                if s.session_expiry_interval == 0 {
                    (b.ended(client_id), FollowUpView { will, expire_after: None })
                } else {
                    (b, FollowUpView { will, expire_after: Some(s.session_expiry_interval) })
                }
            },
        }
    }

    /// Whether a delayed will is called off: the client has come back.
    pub open spec fn will_called_off(self, client_id: Seq<char>, epoch: u64, delay: u32) -> bool {
        delay > 0 && match self.session(client_id) {
            Some(s) => s.epoch != epoch || s.online(),
            None => false,
        }
    }

    /// What publishing a will message does, if its owner may still publish it.
    pub open spec fn on_will(self, client_id: Seq<char>, epoch: u64, w: WillTaskView, now: u64)
        -> BrokerView {
        if self.will_called_off(client_id, epoch, w.delay) {
            self
        } else if !self.acl.may_publish(w.owner, w.message.topic) {
            self
        } else {
            self.keeping(w.message).routing(None, w.message, now)
        }
    }
}

/// A connection that lost its session to another one does nothing when it
/// closes.
pub proof fn superseded_connection_does_nothing(
    b: BrokerView,
    client_id: Seq<char>,
    epoch: u64,
    publish_will: bool,
)
    requires
        b.session(client_id) matches Some(s) && s.epoch != epoch,
    ensures
        b.on_closed(client_id, epoch, publish_will) == (
            b,
            FollowUpView { will: None, expire_after: None },
        ),
        b.on_expiry(client_id, epoch) == b,
{
}

/// A session whose expiry is 0 ends with its connection.
pub proof fn session_without_expiry_ends(
    b: BrokerView,
    client_id: Seq<char>,
    epoch: u64,
    publish_will: bool,
)
    requires
        b.wf(),
        b.session(client_id) matches Some(s) && s.epoch == epoch && s.session_expiry_interval == 0,
    ensures
        b.on_closed(client_id, epoch, publish_will).0.session(client_id) is None,
        b.on_closed(client_id, epoch, publish_will).1.expire_after is None,
{
    let s = b.session(client_id)->0;
    lemma_session(b, client_id);
    assert(s.closed().wf());
    lemma_with(b, s.closed());
    let c = b.with(s.closed());
    lemma_gone(c, client_id);
}

/// A session that outlives its connection keeps its subscriptions and its
/// queue.
pub proof fn offline_session_is_kept(
    b: BrokerView,
    client_id: Seq<char>,
    epoch: u64,
    publish_will: bool,
)
    requires
        b.wf(),
        b.session(client_id) matches Some(s) && s.epoch == epoch && s.session_expiry_interval > 0,
    ensures
        ({
            let s = b.session(client_id)->0;
            b.on_closed(client_id, epoch, publish_will).0.session(client_id) matches Some(t)
                && t.subscriptions == s.subscriptions && t.queue == s.queue && t.awaiting_puback
                == s.awaiting_puback && t.awaiting_pubrec == s.awaiting_pubrec
                && t.awaiting_pubcomp == s.awaiting_pubcomp && !t.online()
        }),
{
    let s = b.session(client_id)->0;
    lemma_session(b, client_id);
    assert(s.closed().wf());
    lemma_with(b, s.closed());
}

/// A normal DISCONNECT discards the will.
pub proof fn normal_disconnect_discards_the_will(b: BrokerView, client_id: Seq<char>, epoch: u64)
    ensures
        b.on_closed(client_id, epoch, false).1.will is None,
{
}

/// A will that its owner may no longer publish is dropped.
pub proof fn revoked_will_is_dropped(
    b: BrokerView,
    client_id: Seq<char>,
    epoch: u64,
    w: WillTaskView,
    now: u64,
)
    requires
        !b.acl.may_publish(w.owner, w.message.topic),
    ensures
        b.on_will(client_id, epoch, w, now) == b,
{
}

proof fn lemma_gone(b: BrokerView, client_id: Seq<char>)
    requires
        b.wf(),
    ensures
        b.without(client_id).session(client_id) is None,
        b.ended(client_id).session(client_id) is None,
{
    let i = crate::broker::routing::place(b.sessions, client_id);
    let all = crate::broker::routing::ids(b.sessions);
    text::lemma_first_place_is(all, client_id);
    if i < b.sessions.len() {
        let t = b.sessions.remove(i);
        let rest = crate::broker::routing::ids(t);
        assert forall|j: int| 0 <= j < rest.len() implies #[trigger] rest[j] != client_id by {
            assert(all[i] == client_id);
            if j < i {
                assert(all[j] != client_id);
                assert(rest[j] == all[j]);
            } else {
                assert(rest[j] == b.sessions[j + 1].client_id);
                assert(b.sessions[i].client_id != b.sessions[j + 1].client_id);
            }
        }
        text::lemma_first_place(rest, client_id, rest.len() as int);
    }
}

impl Broker {
    /// Handles a DISCONNECT.
    pub fn handle_client_disconnect(&mut self, client_id: &str, d: Disconnect) -> (r: Action)
        requires
            old(self).wf(),
        ensures
            (final(self)@, r) == old(self)@.on_disconnect(client_id@, d@),
            final(self).wf(),
    {
        let ghost before = self@;
        proof {
            message::lemma_fields(d.properties);
            lemma_session(before, client_id@);
        }
        let publish_will: bool = d.reason_code == ReasonCode::DisconnectWithWillMessage;
        if let Some(secs) = d.properties.session_expiry_interval {
            let i: usize = find_session(&self.sessions, client_id);
            if i < self.sessions.len() {
                assert(self.sessions@[i as int]@ == before.sessions[i as int]);
                let max: u32 = self.config.max_session_expiry;
                let expiry: u32 = if secs <= max {
                    secs
                } else {
                    max
                };
                let s: &mut Session = &mut self.sessions[i];
                s.session_expiry_interval = expiry;
                proof {
                    let sv = SessionView {
                        session_expiry_interval: expiry,
                        ..before.sessions[i as int]
                    };
                    assert(sv.wf());
                    lemma_with(before, sv);
                    assert(self@ =~= before.with(sv));
                    assert(self.sessions@[i as int]@ == sv);
                }
                if self.sessions[i].persistent {
                    let owner: Option<String> = clone_opt_string(&self.sessions[i].identity);
                    self.storage.upsert_session(client_id.to_owned(), expiry, owner);
                }
            }
        }
        Action::ClientDisconnect { publish_will }
    }

    /// Ends the session at a place.
    fn end_session(&mut self, i: usize, client_id: &str)
        requires
            old(self).wf(),
            i < old(self).sessions@.len(),
            i == crate::broker::routing::place(old(self)@.sessions, client_id@),
        ensures
            final(self)@ == old(self)@.ended(client_id@),
            final(self).wf(),
    {
        let ghost before = self@;
        proof {
            lemma_sessions_remove(before.sessions, i as int);
        }
        assert(self.sessions@[i as int]@ == before.sessions[i as int]);
        let persistent: bool = self.sessions[i].persistent;
        let gone: Session = self.sessions.remove(i);
        self.storage.delete_session(client_id.to_owned());
        if persistent {
            Metrics::inc(&mut self.metrics.clients_expired);
        }
        assert(self@ =~= before.ended(client_id@));
    }

    /// Ends a session whose time has passed, unless the client has come back.
    pub fn expire_session(&mut self, client_id: &str, epoch: u64)
        requires
            old(self).wf(),
        ensures
            final(self)@ == old(self)@.on_expiry(client_id@, epoch),
            final(self).wf(),
    {
        let i: usize = find_session(&self.sessions, client_id);
        if i < self.sessions.len() {
            assert(self.sessions@[i as int]@ == self@.sessions[i as int]);
            if self.sessions[i].epoch == epoch && !self.sessions[i].is_online() {
                self.end_session(i, client_id);
            }
        }
    }

    /// Handles the end of a connection. Returns what is to happen later.
    pub fn handle_connection_closed(&mut self, client_id: &str, epoch: u64, publish_will: bool)
        -> (r: FollowUp)
        requires
            old(self).wf(),
        ensures
            (final(self)@, r@) == old(self)@.on_closed(client_id@, epoch, publish_will),
            final(self).wf(),
    {
        let ghost before = self@;
        proof {
            lemma_session(before, client_id@);
        }
        let i: usize = find_session(&self.sessions, client_id);
        if i >= self.sessions.len() {
            return FollowUp { will: None, expire_after: None };
        }
        assert(self.sessions@[i as int]@ == before.sessions[i as int]);
        if self.sessions[i].epoch != epoch {
            return FollowUp { will: None, expire_after: None };
        }
        let ghost sv = before.sessions[i as int];
        let s: &mut Session = &mut self.sessions[i];
        s.go_offline();
        s.inbound_aliases = Vec::new();
        let spent: Option<(Message, u32)> = s.will.take();
        assert(will_view(spent) == sv.will);
        assert(crate::broker::session::alias_views(s.inbound_aliases@) =~= Seq::empty());
        let expiry: u32 = s.session_expiry_interval;
        let owner: String = match &s.identity {
            Some(name) => name.clone(),
            None => ANONYMOUS.to_owned(),
        };
        assert(s@ =~= sv.closed());
        proof {
            assert(sv.closed().wf());
            lemma_with(before, sv.closed());
            assert(self@ =~= before.with(sv.closed()));
        }
        let will: Option<WillTask> = match spent {
            Some((message, delay)) => if publish_will {
                Some(WillTask { message, delay, owner })
            } else {
                None
            },
            None => None,
        };
        if expiry == 0 {
            proof {
                crate::broker::routing::lemma_sessions_update(
                    before.sessions,
                    i as int,
                    sv.closed(),
                );
            }
            self.end_session(i, client_id);
            FollowUp { will, expire_after: None }
        } else {
            FollowUp { will, expire_after: Some(expiry) }
        }
    }

    /// Publishes a will message after its delay, unless the client has come
    /// back or its owner may no longer publish it.
    pub fn fire_will(&mut self, client_id: &str, epoch: u64, task: WillTask, now: u64)
        requires
            old(self).wf(),
        ensures
            final(self)@ == old(self)@.on_will(client_id@, epoch, task@, now),
            final(self).wf(),
    {
        if task.delay > 0 {
            let i: usize = find_session(&self.sessions, client_id);
            if i < self.sessions.len() {
                assert(self.sessions@[i as int]@ == self@.sessions[i as int]);
                if self.sessions[i].epoch != epoch || self.sessions[i].is_online() {
                    return;
                }
            }
        }
        if !self.acl.can_publish(task.owner.as_str(), task.message.topic.as_str()) {
            return;
        }
        self.keep_retained(&task.message);
        let reached: bool = self.route(None, &task.message, now);
    }
}

/// A delayed will is not published once its client has come back, under a new
/// connection or while it is connected.
pub proof fn returning_client_calls_off_the_will(
    b: BrokerView,
    client_id: Seq<char>,
    epoch: u64,
    w: WillTaskView,
    now: u64,
)
    requires
        w.delay > 0,
        b.session(client_id) matches Some(s) && (s.epoch != epoch || s.online()),
    ensures
        b.on_will(client_id, epoch, w, now) == b,
{
}

/// A session that nobody came back to is gone when its time is over.
pub proof fn expired_session_is_gone(b: BrokerView, client_id: Seq<char>, epoch: u64)
    requires
        b.wf(),
        b.session(client_id) matches Some(s) && s.epoch == epoch && !s.online(),
    ensures
        b.on_expiry(client_id, epoch).session(client_id) is None,
{
    lemma_gone(b, client_id);
}

} // verus!
