//! What bridges and the status topics use: sessions of bridges, and publishing
//! without a client.

use vstd::prelude::*;
use crate::broker::routing::find_session;
use crate::broker::session::{Outgoing, Session, SessionView, Subscription, SubscriptionView};
use crate::broker::{
    lemma_session, lemma_sessions_remove, lemma_with, retained_with, Broker, BrokerView, Closing,
    ClosingView, Retained, RetainedView,
};
use crate::message::{Message, MessageView};
use crate::packet::RetainHandling;
use crate::text;
use crate::types::QoS;

verus! {

broadcast use text::group_views;

/// The subscription of a bridge for topics that it forwards: QoS 0, with the
/// RETAIN flag as published.
pub open spec fn bridge_subscription(filter: Seq<char>, no_local: bool) -> SubscriptionView {
    SubscriptionView {
        filter,
        share_name: None,
        qos: QoS::AtMostOnce,
        no_local,
        retain_as_published: true,
        retain_handling: RetainHandling::SendAtSubscribe,
        subscription_identifier: None,
    }
}

/// The session of a bridge.
pub open spec fn bridge_session(client_id: Seq<char>, epoch: u64) -> SessionView {
    SessionView {
        epoch,
        identity: Some("$bridge"@),
        out: Some(Seq::empty()),
        ..SessionView::fresh(client_id, 0)
    }
}

/// A status message.
pub open spec fn status_message(topic: Seq<char>, payload: Seq<char>) -> MessageView {
    MessageView {
        topic,
        payload: vstd::utf8::encode_utf8(payload),
        qos: QoS::AtMostOnce,
        retain: true,
        payload_format_indicator: Some(1),
        content_type: None,
        response_topic: None,
        correlation_data: None,
        user_properties: Seq::empty(),
        expires_at: None,
    }
}

impl BrokerView {
    /// The broker with a bridge. A connection that had the session is closed.
    pub open spec fn with_bridge(self, client_id: Seq<char>) -> BrokerView {
        BrokerView {
            next_epoch: (self.next_epoch + 1) as u64,
            closing: match self.session(client_id) {
                Some(s) => match s.out {
                    Some(items) => self.closing.push(ClosingView { epoch: s.epoch, items }),
                    None => self.closing,
                },
                None => self.closing,
            },
            ..self.with(bridge_session(client_id, self.next_epoch))
        }
    }

    /// The broker after a bridge subscribes.
    pub open spec fn with_bridge_subscription(
        self,
        client_id: Seq<char>,
        filter: Seq<char>,
        no_local: bool,
    ) -> BrokerView {
        match self.session(client_id) {
            Some(s) => self.with(
                SessionView {
                    subscriptions: s.subscriptions.push(bridge_subscription(filter, no_local)),
                    ..s
                },
            ),
            None => self,
        }
    }

    /// The broker after a message is published for a bridge.
    pub open spec fn injecting(self, from: Seq<char>, m: MessageView, now: u64) -> BrokerView {
        self.keeping(m).routing(Some(from), m, now)
    }

    /// The broker after it publishes a status message. It is retained, but not
    /// stored.
    pub open spec fn reporting(self, topic: Seq<char>, payload: Seq<char>, now: u64) -> BrokerView {
        let m = status_message(topic, payload);
        BrokerView {
            retained: retained_with(self.retained, RetainedView { topic, message: m, own: true }),
            ..self
        }.routing(None, m, now)
    }

    /// The broker after it publishes status messages.
    pub open spec fn reporting_all(self, entries: Seq<(Seq<char>, Seq<char>)>, now: u64)
        -> BrokerView
        decreases entries.len(),
    {
        if entries.len() == 0 {
            self
        } else {
            self.reporting_all(entries.drop_last(), now).reporting(
                entries.last().0,
                entries.last().1,
                now,
            )
        }
    }

    /// The broker after a bridge ends, unless its session went to another one.
    pub open spec fn without_bridge(self, client_id: Seq<char>, epoch: u64) -> BrokerView {
        match self.session(client_id) {
            Some(s) => if s.epoch == epoch {
                BrokerView {
                    closing: match s.out {
                        Some(items) => self.closing.push(ClosingView { epoch: s.epoch, items }),
                        None => self.closing,
                    },
                    ..self.without(client_id)
                }
            } else {
                self
            },
            None => self,
        }
    }
}

/// What a bridge publishes does not come back to its own subscriptions, which
/// are marked *no local*.
pub proof fn bridge_does_not_hear_itself(
    from: Seq<char>,
    filters: Seq<Seq<char>>,
    m: MessageView,
)
    ensures
        crate::broker::routing::offer(
            Seq::new(filters.len(), |i: int| bridge_subscription(filters[i], true)),
            from,
            Some(from),
            m,
        ).qos is None,
    decreases filters.len(),
{
    let subs = Seq::new(filters.len(), |i: int| bridge_subscription(filters[i], true));
    if filters.len() > 0 {
        bridge_does_not_hear_itself(from, filters.drop_last(), m);
        let d = Seq::new(
            filters.drop_last().len(),
            |i: int| bridge_subscription(filters.drop_last()[i], true),
        );
        assert(subs.drop_last() =~= d);
        assert(subs.last() == bridge_subscription(filters.last(), true));
    }
}

/// Status messages are not stored.
pub proof fn status_is_not_stored(b: BrokerView, entries: Seq<(Seq<char>, Seq<char>)>, now: u64)
    ensures
        b.reporting_all(entries, now).storage == b.storage,
    decreases entries.len(),
{
    if entries.len() > 0 {
        status_is_not_stored(b, entries.drop_last(), now);
    }
}

impl Broker {
    /// Registers a bridge with a session that ends with it. Returns the number
    /// of its connection.
    pub fn register_bridge(&mut self, client_id: String) -> (epoch: u64)
        requires
            old(self).wf(),
            old(self)@.next_epoch < u64::MAX,
        ensures
            epoch == old(self)@.next_epoch,
            final(self)@ == old(self)@.with_bridge(client_id@),
            final(self).wf(),
    {
        let ghost before = self@;
        let ghost id = client_id@;
        proof {
            lemma_session(before, id);
        }
        let epoch: u64 = self.next_epoch;
        self.next_epoch = self.next_epoch + 1;
        let i: usize = find_session(&self.sessions, client_id.as_str());
        let mut s: Session = Session::new(client_id, 0);
        s.epoch = epoch;
        s.identity = Some("$bridge".to_owned());
        s.out = Some(Vec::new());
        assert(s@.out->0 =~= Seq::empty());
        let ghost sv = s@;
        assert(sv =~= bridge_session(id, epoch));
        proof {
            assert(sv.wf());
            lemma_with(before, sv);
        }
        if i < self.sessions.len() {
            assert(self.sessions@[i as int]@ == before.sessions[i as int]);
            let taken: Option<Vec<Outgoing>> = self.sessions[i].out.take();
            let old_epoch: u64 = self.sessions[i].epoch;
            if let Some(items) = taken {
                self.closing.push(Closing { epoch: old_epoch, items });
            }
            self.sessions.set(i, s);
        } else {
            self.sessions.push(s);
        }
        assert(self@ =~= before.with_bridge(id));
        epoch
    }

    /// Subscribes a bridge to topics that it forwards.
    pub fn bridge_add_subscription(&mut self, client_id: &str, filter: &str, no_local: bool)
        requires
            old(self).wf(),
        ensures
            final(self)@ == old(self)@.with_bridge_subscription(client_id@, filter@, no_local),
            final(self).wf(),
    {
        let ghost before = self@;
        proof {
            lemma_session(before, client_id@);
        }
        let i: usize = find_session(&self.sessions, client_id);
        if i < self.sessions.len() {
            assert(self.sessions@[i as int]@ == before.sessions[i as int]);
            let sub: Subscription = Subscription {
                filter: filter.to_owned(),
                share_name: None,
                qos: QoS::AtMostOnce,
                no_local,
                retain_as_published: true,
                retain_handling: RetainHandling::SendAtSubscribe,
                subscription_identifier: None,
            };
            assert(sub@ == bridge_subscription(filter@, no_local));
            let s: &mut Session = &mut self.sessions[i];
            s.subscriptions.push(sub);
            proof {
                let old_s = before.sessions[i as int];
                let sv = SessionView {
                    subscriptions: old_s.subscriptions.push(
                        bridge_subscription(filter@, no_local),
                    ),
                    ..old_s
                };
                assert(sv.wf());
                assert(self.sessions@[i as int]@ =~= sv);
                lemma_with(before, sv);
                assert(self@ =~= before.with(sv));
            }
        }
    }

    /// Publishes a message for a bridge. No policy is asked.
    pub fn inject_publish(&mut self, from: &str, message: Message, now: u64)
        requires
            old(self).wf(),
        ensures
            final(self)@ == old(self)@.injecting(from@, message@, now),
            final(self).wf(),
    {
        self.keep_retained(&message);
        let reached: bool = self.route(Some(from), &message, now);
    }

    /// Publishes one status message.
    fn publish_status(&mut self, topic: &String, payload: &String, now: u64)
        requires
            old(self).wf(),
        ensures
            final(self)@ == old(self)@.reporting(topic@, payload@, now),
            final(self).wf(),
    {
        let message: Message = Message {
            topic: topic.clone(),
            payload: vstd::slice::slice_to_vec(payload.as_str().as_bytes()),
            qos: QoS::AtMostOnce,
            retain: true,
            payload_format_indicator: Some(1),
            content_type: None,
            response_topic: None,
            correlation_data: None,
            user_properties: Vec::new(),
            expires_at: None,
        };
        assert(message@.user_properties =~= Seq::empty());
        assert(message@ == status_message(topic@, payload@));
        self.set_retained(Retained { topic: topic.clone(), message: message.clone(), own: true });
        let reached: bool = self.route(None, &message, now);
    }

    /// Publishes status messages. They are retained, but not stored.
    pub fn publish_sys(&mut self, entries: &Vec<(String, String)>, now: u64)
        requires
            old(self).wf(),
        ensures
            final(self)@ == old(self)@.reporting_all(text::pair_views(entries@), now),
            final(self).wf(),
    {
        let ghost before = self@;
        let ghost all = text::pair_views(entries@);
        let mut i: usize = 0;
        assert(all.take(0) =~= Seq::empty());
        while i < entries.len()
            invariant
                i <= entries.len(),
                all == text::pair_views(entries@),
                self.wf(),
                self@ == before.reporting_all(all.take(i as int), now),
            decreases entries.len() - i,
        {
            assert(all.take(i + 1).drop_last() =~= all.take(i as int));
            assert(all.take(i + 1).last() == (entries@[i as int].0@, entries@[i as int].1@));
            self.publish_status(&entries[i].0, &entries[i].1, now);
            i = i + 1;
        }
        assert(all.take(all.len() as int) =~= all);
    }

    /// Ends a bridge, unless its session went to another one.
    pub fn deregister_bridge(&mut self, client_id: &str, epoch: u64)
        requires
            old(self).wf(),
        ensures
            final(self)@ == old(self)@.without_bridge(client_id@, epoch),
            final(self).wf(),
    {
        let ghost before = self@;
        let i: usize = find_session(&self.sessions, client_id);
        if i < self.sessions.len() {
            assert(self.sessions@[i as int]@ == before.sessions[i as int]);
            if self.sessions[i].epoch == epoch {
                proof {
                    lemma_sessions_remove(before.sessions, i as int);
                }
                let gone: Session = self.sessions.remove(i);
                if let Some(items) = gone.out {
                    self.closing.push(Closing { epoch, items });
                }
                assert(self@ =~= before.without_bridge(client_id@, epoch));
            }
        }
    }
}

} // verus!
