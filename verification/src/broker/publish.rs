//! Inbound PUBLISH, and the acknowledgements of outbound deliveries.

use vstd::prelude::*;
use crate::broker::acks;
use crate::broker::acks::alias_topic;
use crate::broker::routing::find_session;
use crate::broker::session;
use crate::broker::session::{ack_view, Outgoing, OutgoingView, Session, SessionView};
use crate::broker::{
    lemma_session, lemma_with, lemma_with_other, Action, Broker, BrokerView, SYS_PREFIX,
};
use crate::message;
use crate::message::{two_property, Message, MessageView};
use crate::metrics::{counted, Metrics};
use crate::packet::{Packet, PacketView, PubAck, PubAckView, Publish, PublishView};
use crate::text;
use crate::text::{has_prefix, starts_with};
use crate::topic;
use crate::types::{PropertyId, QoS, ReasonCode};

verus! {

broadcast use text::group_views;

/// The packet identifier of an acknowledgement for a publication.
pub open spec fn publish_id(p: PublishView) -> u16 {
    match p.packet_id {
        Some(id) => id,
        None => 0,
    }
}

/// The answer to a publication: nothing, PUBACK or PUBREC.
pub open spec fn publish_answer(p: PublishView, reason: ReasonCode) -> Option<OutgoingView> {
    match p.qos {
        QoS::AtMostOnce => None,
        QoS::AtLeastOnce => Some(
            OutgoingView::Control(PacketView::Puback(ack_view(publish_id(p), reason))),
        ),
        QoS::ExactlyOnce => Some(
            OutgoingView::Control(PacketView::Pubrec(ack_view(publish_id(p), reason))),
        ),
    }
}

/// The reason in the answer to a publication that was taken.
pub open spec fn taken_reason(reached: bool) -> ReasonCode {
    if reached {
        ReasonCode::Success
    } else {
        ReasonCode::NoMatchingSubscribers
    }
}

impl BrokerView {
    /// The topic that a publication is for, and the broker after it remembers
    /// a new alias; or the reason why the alias cannot be used.
    pub open spec fn resolved(self, client_id: Seq<char>, p: PublishView) -> core::result::Result<
        (BrokerView, Seq<char>),
        ReasonCode,
    > {
        match two_property(p.properties, PropertyId::TopicAlias) {
            None => Ok((self, p.topic)),
            Some(alias) => if alias > self.config.topic_alias_maximum {
                Err(ReasonCode::TopicAliasInvalid)
            } else {
                match self.session(client_id) {
                    None => Err(ReasonCode::UnspecifiedError),
                    Some(s) => if p.topic.len() == 0 {
                        match alias_topic(s.inbound_aliases, alias) {
                            Some(t) => Ok((self, t)),
                            None => Err(ReasonCode::TopicAliasInvalid),
                        }
                    } else {
                        Ok((self.with(s.with_alias(alias, p.topic)), p.topic))
                    },
                }
            },
        }
    }

    /// The broker after it answers a publication.
    pub open spec fn answered(
        self,
        client_id: Seq<char>,
        p: PublishView,
        reason: ReasonCode,
    ) -> BrokerView {
        match publish_answer(p, reason) {
            Some(item) => self.sent_to(client_id, item),
            None => self,
        }
    }

    /// What taking a publication does: it is retained if it is to be, routed
    /// (a QoS 2 publication only the first time), and answered.
    pub open spec fn taken(self, client_id: Seq<char>, p: PublishView, now: u64) -> (
        BrokerView,
        Action,
    ) {
        let m = MessageView::of_publish(p, now);
        let kept = self.keeping(m);
        if p.qos is ExactlyOnce {
            match kept.session(client_id) {
                None => (kept, Action::ServerDisconnect(ReasonCode::UnspecifiedError)),
                Some(s) => if s.inbound_qos2.contains(publish_id(p)) {
                    (kept.answered(client_id, p, ReasonCode::Success), Action::Continue)
                } else {
                    let noted = kept.with(s.with_qos2(publish_id(p)));
                    (
                        noted.routing(Some(client_id), m, now).answered(
                            client_id,
                            p,
                            taken_reason(noted.reaches(Some(client_id), m, now)),
                        ),
                        Action::Continue,
                    )
                },
            }
        } else {
            (
                kept.routing(Some(client_id), m, now).answered(
                    client_id,
                    p,
                    taken_reason(kept.reaches(Some(client_id), m, now)),
                ),
                Action::Continue,
            )
        }
    }

    /// What a PUBLISH does. The QoS and RETAIN that the server does not support,
    /// an alias or a topic that cannot be used, and a status topic end the
    /// connection. A publication that is not permitted is answered as such and
    /// goes nowhere.
    pub open spec fn on_publish(self, client_id: Seq<char>, p: PublishView, now: u64) -> (
        BrokerView,
        Action,
    ) {
        let b = BrokerView {
            metrics: Metrics {
                publish_received: counted(self.metrics.publish_received, 1),
                ..self.metrics
            },
            ..self
        };
        if p.qos.code() > b.config.maximum_qos.code() {
            (b, Action::ServerDisconnect(ReasonCode::QoSNotSupported))
        } else if p.retain && !b.config.retain_available {
            (b, Action::ServerDisconnect(ReasonCode::RetainNotSupported))
        } else {
            match b.resolved(client_id, p) {
                Err(reason) => (b, Action::ServerDisconnect(reason)),
                Ok((b1, t)) => if !topic::is_topic_name(t) || has_prefix(t, SYS_PREFIX@) {
                    (b1, Action::ServerDisconnect(ReasonCode::TopicNameInvalid))
                } else if !b1.acl.may_publish(b1.who(client_id), t) {
                    (b1.answered(client_id, p, ReasonCode::NotAuthorized), Action::Continue)
                } else {
                    b1.taken(client_id, PublishView { topic: t, ..p }, now)
                },
            }
        }
    }

    /// What a PUBACK does.
    pub open spec fn on_puback(self, client_id: Seq<char>, id: u16, now: u64) -> BrokerView {
        match self.session(client_id) {
            Some(s) => self.with(s.after_puback(id, now)),
            None => self,
        }
    }

    /// What a PUBREC does.
    pub open spec fn on_pubrec(self, client_id: Seq<char>, a: PubAckView) -> BrokerView {
        match self.session(client_id) {
            Some(s) => self.with(s.after_pubrec(a.packet_id, a.reason_code)),
            None => self,
        }
    }

    /// What a PUBREL does.
    pub open spec fn on_pubrel(self, client_id: Seq<char>, id: u16) -> BrokerView {
        match self.session(client_id) {
            Some(s) => self.with(s.after_pubrel(id)),
            None => self,
        }
    }

    /// What a PUBCOMP does.
    pub open spec fn on_pubcomp(self, client_id: Seq<char>, id: u16, now: u64) -> BrokerView {
        match self.session(client_id) {
            Some(s) => self.with(s.after_pubcomp(id, now)),
            None => self,
        }
    }
}

impl Broker {
    /// Finds the topic of a publication and puts it in; or the reason why the
    /// alias cannot be used.
    fn resolve_alias(&mut self, client_id: &str, publish: &mut Publish) -> (r: Option<ReasonCode>)
        requires
            old(self).wf(),
        ensures
            match r {
                None => old(self)@.resolved(client_id@, old(publish)@) == Ok::<_, ReasonCode>(
                    (final(self)@, final(publish)@.topic),
                ),
                Some(reason) => old(self)@.resolved(client_id@, old(publish)@) == Err::<
                    (BrokerView, Seq<char>),
                    ReasonCode,
                >(reason) && final(self)@ == old(self)@,
            },
            final(publish)@ == (PublishView { topic: final(publish)@.topic, ..old(publish)@ }),
            final(self).wf(),
    {
        let ghost before = self@;
        proof {
            message::lemma_fields(publish.properties);
            lemma_session(before, client_id@);
        }
        let alias: u16 = match publish.properties.topic_alias {
            None => {
                return None;
            },
            Some(a) => a,
        };
        if alias > self.config.topic_alias_maximum {
            return Some(ReasonCode::TopicAliasInvalid);
        }
        let i: usize = find_session(&self.sessions, client_id);
        if i >= self.sessions.len() {
            return Some(ReasonCode::UnspecifiedError);
        }
        assert(self.sessions@[i as int]@ == before.sessions[i as int]);
        if publish.topic.as_str().unicode_len() == 0 {
            match self.sessions[i].topic_of_alias(alias) {
                Some(t) => {
                    publish.topic = t;
                    None
                },
                None => Some(ReasonCode::TopicAliasInvalid),
            }
        } else {
            let t: String = publish.topic.clone();
            let s: &mut Session = &mut self.sessions[i];
            s.set_alias(alias, t);
            proof {
                let sv = before.sessions[i as int].with_alias(alias, publish@.topic);
                lemma_with(before, sv);
                assert(self@ =~= before.with(sv));
            }
            None
        }
    }

    /// Answers a publication.
    fn answer(&mut self, client_id: &str, publish: &Publish, reason: ReasonCode)
        requires
            old(self).wf(),
        ensures
            final(self)@ == old(self)@.answered(client_id@, publish@, reason),
            final(self).wf(),
    {
        let id: u16 = match publish.packet_id {
            Some(id) => id,
            None => 0,
        };
        match publish.qos {
            QoS::AtMostOnce => {},
            QoS::AtLeastOnce => {
                let item: Outgoing = Outgoing::Control(
                    Box::new(Packet::Puback(PubAck::new(id, reason))),
                );
                self.send_to(client_id, item);
            },
            QoS::ExactlyOnce => {
                let item: Outgoing = Outgoing::Control(
                    Box::new(Packet::Pubrec(PubAck::new(id, reason))),
                );
                self.send_to(client_id, item);
            },
        }
    }

    /// Retains, routes and answers a publication.
    fn take_publish(&mut self, client_id: &str, publish: &Publish, now: u64) -> (r: Action)
        requires
            old(self).wf(),
        ensures
            (final(self)@, r) == old(self)@.taken(client_id@, publish@, now),
            final(self).wf(),
    {
        let message: Message = Message::from_publish_at(publish, now);
        self.keep_retained(&message);
        if publish.qos == QoS::ExactlyOnce {
            let ghost kept = self@;
            proof {
                lemma_session(kept, client_id@);
            }
            let id: u16 = match publish.packet_id {
                Some(id) => id,
                None => 0,
            };
            let i: usize = find_session(&self.sessions, client_id);
            if i >= self.sessions.len() {
                return Action::ServerDisconnect(ReasonCode::UnspecifiedError);
            }
            assert(self.sessions@[i as int]@ == kept.sessions[i as int]);
            let s: &mut Session = &mut self.sessions[i];
            let duplicate: bool = s.note_qos2(id);
            proof {
                let sv = kept.sessions[i as int].with_qos2(id);
                lemma_with(kept, sv);
                assert(self@ =~= kept.with(sv));
                if duplicate {
                    assert(self@.sessions =~= kept.sessions);
                }
            }
            if duplicate {
                self.answer(client_id, publish, ReasonCode::Success);
                return Action::Continue;
            }
        }
        let reached: bool = self.route(Some(client_id), &message, now);
        let reason: ReasonCode = if reached {
            ReasonCode::Success
        } else {
            ReasonCode::NoMatchingSubscribers
        };
        self.answer(client_id, publish, reason);
        Action::Continue
    }

    /// Handles a PUBLISH.
    pub fn handle_publish(&mut self, client_id: &str, publish: Publish, now: u64) -> (r: Action)
        requires
            old(self).wf(),
        ensures
            (final(self)@, r) == old(self)@.on_publish(client_id@, publish@, now),
            final(self).wf(),
    {
        Metrics::inc(&mut self.metrics.publish_received);
        if publish.qos.as_u8() > self.config.maximum_qos.as_u8() {
            return Action::ServerDisconnect(ReasonCode::QoSNotSupported);
        }
        if publish.retain && !self.config.retain_available {
            return Action::ServerDisconnect(ReasonCode::RetainNotSupported);
        }
        let mut publish: Publish = publish;
        if let Some(reason) = self.resolve_alias(client_id, &mut publish) {
            return Action::ServerDisconnect(reason);
        }
        if !topic::valid_topic_name(publish.topic.as_str()) || starts_with(
            publish.topic.as_str(),
            SYS_PREFIX,
        ) {
            return Action::ServerDisconnect(ReasonCode::TopicNameInvalid);
        }
        let who: String = self.who(client_id);
        if !self.acl.can_publish(who.as_str(), publish.topic.as_str()) {
            self.answer(client_id, &publish, ReasonCode::NotAuthorized);
            return Action::Continue;
        }
        self.take_publish(client_id, &publish, now)
    }

    /// Handles a PUBACK.
    pub fn handle_puback(&mut self, client_id: &str, ack: PubAck, now: u64) -> (r: Action)
        requires
            old(self).wf(),
        ensures
            final(self)@ == old(self)@.on_puback(client_id@, ack@.packet_id, now),
            r == Action::Continue,
            final(self).wf(),
    {
        let ghost before = self@;
        proof {
            lemma_session(before, client_id@);
        }
        let i: usize = find_session(&self.sessions, client_id);
        if i < self.sessions.len() {
            assert(self.sessions@[i as int]@ == before.sessions[i as int]);
            let s: &mut Session = &mut self.sessions[i];
            s.puback(ack.packet_id, now);
            let ghost sv = self@.sessions[i as int];
            proof {
                lemma_same_client(before.sessions[i as int], ack.packet_id, now);
                lemma_with(before, sv);
                assert(self@ =~= before.with(sv));
            }
        }
        Action::Continue
    }

    /// Handles a PUBREC.
    pub fn handle_pubrec(&mut self, client_id: &str, ack: PubAck) -> (r: Action)
        requires
            old(self).wf(),
        ensures
            final(self)@ == old(self)@.on_pubrec(client_id@, ack@),
            r == Action::Continue,
            final(self).wf(),
    {
        let ghost before = self@;
        proof {
            lemma_session(before, client_id@);
        }
        let i: usize = find_session(&self.sessions, client_id);
        if i < self.sessions.len() {
            assert(self.sessions@[i as int]@ == before.sessions[i as int]);
            let s: &mut Session = &mut self.sessions[i];
            s.pubrec(ack.packet_id, ack.reason_code);
            let ghost sv = self@.sessions[i as int];
            proof {
                lemma_with(before, sv);
                assert(self@ =~= before.with(sv));
            }
        }
        Action::Continue
    }

    /// Handles a PUBREL.
    pub fn handle_pubrel(&mut self, client_id: &str, ack: PubAck) -> (r: Action)
        requires
            old(self).wf(),
        ensures
            final(self)@ == old(self)@.on_pubrel(client_id@, ack@.packet_id),
            r == Action::Continue,
            final(self).wf(),
    {
        let ghost before = self@;
        proof {
            lemma_session(before, client_id@);
        }
        let i: usize = find_session(&self.sessions, client_id);
        if i < self.sessions.len() {
            assert(self.sessions@[i as int]@ == before.sessions[i as int]);
            let s: &mut Session = &mut self.sessions[i];
            s.pubrel(ack.packet_id);
            let ghost sv = self@.sessions[i as int];
            proof {
                lemma_with(before, sv);
                assert(self@ =~= before.with(sv));
            }
        }
        Action::Continue
    }

    /// Handles a PUBCOMP.
    pub fn handle_pubcomp(&mut self, client_id: &str, ack: PubAck, now: u64) -> (r: Action)
        requires
            old(self).wf(),
        ensures
            final(self)@ == old(self)@.on_pubcomp(client_id@, ack@.packet_id, now),
            r == Action::Continue,
            final(self).wf(),
    {
        let ghost before = self@;
        proof {
            lemma_session(before, client_id@);
        }
        let i: usize = find_session(&self.sessions, client_id);
        if i < self.sessions.len() {
            assert(self.sessions@[i as int]@ == before.sessions[i as int]);
            let s: &mut Session = &mut self.sessions[i];
            s.pubcomp(ack.packet_id, now);
            let ghost sv = self@.sessions[i as int];
            proof {
                lemma_same_client(before.sessions[i as int], ack.packet_id, now);
                lemma_with(before, sv);
                assert(self@ =~= before.with(sv));
            }
        }
        Action::Continue
    }
}

/// Sending from the queue does not change whose session it is, and neither does
/// an acknowledgement.
proof fn lemma_same_client(s: SessionView, id: u16, now: u64)
    ensures
        s.after_puback(id, now).client_id == s.client_id,
        s.after_pubcomp(id, now).client_id == s.client_id,
{
    flush_keeps_the_rest(
        SessionView {
            awaiting_puback: crate::broker::session::without(s.awaiting_puback, id),
            ..s
        },
        now,
    );
    flush_keeps_the_rest(
        SessionView {
            awaiting_pubcomp: crate::broker::session::without_id(s.awaiting_pubcomp, id),
            ..s
        },
        now,
    );
}

/// An acknowledgement of one client leaves the sessions of all others as they
/// are.
pub proof fn acknowledgements_touch_one_session(
    b: BrokerView,
    client_id: Seq<char>,
    other: Seq<char>,
    a: PubAckView,
    now: u64,
)
    requires
        b.wf(),
        client_id != other,
    ensures
        b.on_puback(client_id, a.packet_id, now).session(other) == b.session(other),
        b.on_pubrec(client_id, a).session(other) == b.session(other),
        b.on_pubrel(client_id, a.packet_id).session(other) == b.session(other),
        b.on_pubcomp(client_id, a.packet_id, now).session(other) == b.session(other),
{
    lemma_session(b, client_id);
    if let Some(s) = b.session(client_id) {
        let id = a.packet_id;
        acks::puback_frees_its_identifier(s, id);
        acks::pubrec_moves_on_or_ends(s, id, a.reason_code);
        acks::released_publication_is_forgotten(s, id);
        acks::pubcomp_frees_its_identifier(s, id);
        let p = SessionView { awaiting_puback: session::without(s.awaiting_puback, id), ..s };
        let c = SessionView { awaiting_pubcomp: session::without_id(s.awaiting_pubcomp, id), ..s };
        session::flush_keeps_session_wf(p, now);
        session::flush_keeps_session_wf(c, now);
        lemma_with_other(b, s.after_puback(id, now), other);
        lemma_with_other(b, s.after_pubrec(id, a.reason_code), other);
        lemma_with_other(b, s.after_pubrel(id), other);
        lemma_with_other(b, s.after_pubcomp(id, now), other);
    }
}

/// What sending from the queue leaves as it is.
pub proof fn flush_keeps_the_rest(s: SessionView, now: u64)
    ensures
        ({
            let t = s.flushed(now);
            &&& t.client_id == s.client_id
            &&& t.identity == s.identity
            &&& t.epoch == s.epoch
            &&& t.online() == s.online()
            &&& t.subscriptions == s.subscriptions
            &&& t.persistent == s.persistent
            &&& t.session_expiry_interval == s.session_expiry_interval
            &&& t.will == s.will
            &&& t.inbound_qos2 == s.inbound_qos2
            &&& t.inbound_aliases == s.inbound_aliases
        }),
    decreases s.queue.len(),
{
    if s.can_start() && s.queue.len() > 0 {
        let p = s.queue[0];
        let rest = SessionView { queue: s.queue.skip(1), ..s };
        if p.message.expired(now) {
            flush_keeps_the_rest(rest, now);
        } else if s.allocation().0 is Some {
            flush_keeps_the_rest(
                rest.started(
                    p.message,
                    p.qos,
                    p.retain,
                    p.subscription_ids,
                    s.allocation().0->0,
                    now,
                ),
                now,
            );
        }
    }
}

/// A QoS 2 publication is routed once, however often the client sends it before
/// it releases it.
pub proof fn duplicate_publication_is_not_routed(
    b: BrokerView,
    client_id: Seq<char>,
    p: PublishView,
    now: u64,
)
    requires
        p.qos is ExactlyOnce,
        !p.retain,
        b.session(client_id) matches Some(s) && s.inbound_qos2.contains(publish_id(p)),
    ensures
        b.taken(client_id, p, now).0 == b.answered(client_id, p, ReasonCode::Success),
        b.taken(client_id, p, now).0.metrics == b.metrics,
{
}

/// A client cannot publish to a status topic, whatever the policy says: nothing
/// is retained or routed, and the connection ends.
pub proof fn status_topics_are_not_for_clients(
    b: BrokerView,
    client_id: Seq<char>,
    p: PublishView,
    now: u64,
)
    requires
        b.resolved(client_id, p) matches Ok((_, t)) && has_prefix(t, SYS_PREFIX@),
    ensures
        b.on_publish(client_id, p, now).1 is ServerDisconnect,
        b.on_publish(client_id, p, now).0.retained == b.retained,
        b.on_publish(client_id, p, now).0.storage == b.storage,
        b.on_publish(client_id, p, now).0.metrics.publish_delivered == b.metrics.publish_delivered,
{
    let b0 = BrokerView {
        metrics: Metrics {
            publish_received: counted(b.metrics.publish_received, 1),
            ..b.metrics
        },
        ..b
    };
    assert(b0.session(client_id) == b.session(client_id));
    assert(b0.resolved(client_id, p) is Ok ==> b0.resolved(client_id, p)->Ok_0.1 == b.resolved(
        client_id,
        p,
    )->Ok_0.1);
}

/// A publication that the policy does not permit is neither retained nor
/// routed.
pub proof fn unpermitted_publication_goes_nowhere(
    b: BrokerView,
    client_id: Seq<char>,
    p: PublishView,
    now: u64,
)
    requires
        two_property(p.properties, PropertyId::TopicAlias) is None,
        !b.acl.may_publish(b.who(client_id), p.topic),
    ensures
        b.on_publish(client_id, p, now).0.retained == b.retained,
        b.on_publish(client_id, p, now).0.storage == b.storage,
        b.on_publish(client_id, p, now).0.metrics.publish_delivered == b.metrics.publish_delivered,
{
}

} // verus!
