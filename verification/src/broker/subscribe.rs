//! SUBSCRIBE and UNSUBSCRIBE, and the retained messages that a new subscription
//! gets.

use vstd::prelude::*;
use vstd::string::StringExecFns;
use crate::broker::delivery::deliver_to_session;
use crate::broker::routing::{delivery_keeps_the_rest, find_session};
use crate::broker::session::{
    Outgoing, OutgoingView, Session, SessionView, Subscription, SubscriptionView,
};
use crate::broker::{lemma_session, lemma_with, Action, Broker, BrokerView, RetainedView};
use crate::codec::PropertiesView;
use crate::message::{Message, MessageView};
use crate::metrics;
use crate::metrics::{counted, Metrics};
use crate::packet::{
    Packet, PacketView, RetainHandling, SubAck, SubAckView, Subscribe, SubscribeView, TopicFilter,
    TopicFilterView, Unsubscribe, UnsubscribeView,
};
use crate::storage::{CommandView, SubRecord, SubRecordView};
use crate::text;
use crate::text::{chars_of, find_char, has_prefix, starts_with, string_of};
use crate::topic;
use crate::types::{QoS, ReasonCode};

verus! {

broadcast use text::group_views;

/// A filter without its `$share/{name}/`, as its validity is looked at.
pub open spec fn strip_share(filter: Seq<char>) -> Seq<char> {
    if has_prefix(filter, topic::share_prefix()) {
        let rest = filter.skip(7);
        let slash = text::first_place(rest, '/');
        if slash < rest.len() {
            rest.skip(slash + 1)
        } else {
            filter
        }
    } else {
        filter
    }
}

/// A filter without its `$share/{name}/`, as its validity is looked at.
pub fn strip_share_for_validation(filter: &str) -> (r: String)
    ensures
        r@ == strip_share(filter@),
{
    proof {
        reveal_strlit("$share/");
    }
    if !starts_with(filter, "$share/") {
        return filter.to_owned();
    }
    let all: Vec<char> = chars_of(filter);
    let rest: &[char] = vstd::slice::slice_subrange(all.as_slice(), 7, all.len());
    assert(rest@ =~= filter@.skip(7));
    let slash: usize = find_char(rest, '/');
    if slash < rest.len() {
        let tail: &[char] = vstd::slice::slice_subrange(rest, slash + 1, rest.len());
        assert(tail@ =~= rest@.skip(slash + 1));
        string_of(tail)
    } else {
        filter.to_owned()
    }
}

/// The reason code that grants a QoS level.
pub open spec fn granted_code(qos: QoS) -> ReasonCode {
    match qos {
        QoS::AtMostOnce => ReasonCode::Success,
        QoS::AtLeastOnce => ReasonCode::GrantedQoS1,
        QoS::ExactlyOnce => ReasonCode::GrantedQoS2,
    }
}

/// The retained messages that a filter matches and that have not expired, with
/// the QoS of their delivery.
pub open spec fn retained_for(
    retained: Seq<RetainedView>,
    filter: Seq<char>,
    granted: QoS,
    now: u64,
) -> Seq<(MessageView, QoS)>
    decreases retained.len(),
{
    if retained.len() == 0 {
        Seq::empty()
    } else {
        let before = retained_for(retained.drop_last(), filter, granted, now);
        let r = retained.last();
        if !r.message.expired(now) && topic::is_match(filter, r.topic) {
            before.push((r.message, r.message.qos.lower(granted)))
        } else {
            before
        }
    }
}

/// Whether a subscription asks for retained messages now.
pub open spec fn wants_retained(
    handling: RetainHandling,
    shared: bool,
    existed: bool,
) -> bool {
    !shared && match handling {
        RetainHandling::SendAtSubscribe => true,
        RetainHandling::SendIfNewSubscription => !existed,
        RetainHandling::DoNotSend => false,
    }
}

/// How far a SUBSCRIBE has got: the reason codes so far and the retained
/// messages to send. Without a session there is nobody to subscribe.
pub struct Subscribing {
    pub broker: BrokerView,
    pub codes: Seq<ReasonCode>,
    pub sends: Seq<(MessageView, QoS)>,
    pub lost: bool,
}

impl BrokerView {
    /// Why a filter of a SUBSCRIBE is refused, if it is.
    pub open spec fn filter_refusal(self, client_id: Seq<char>, filter: Seq<char>) -> Option<
        ReasonCode,
    > {
        if !topic::is_topic_filter(strip_share(filter)) {
            Some(ReasonCode::TopicFilterInvalid)
        } else {
            match topic::parsed(filter) {
                None => Some(ReasonCode::TopicFilterInvalid),
                Some((_, f)) => if !self.acl.may_subscribe(self.who(client_id), f) {
                    Some(ReasonCode::NotAuthorized)
                } else {
                    None
                },
            }
        }
    }

    /// The subscription that a filter of a SUBSCRIBE makes.
    pub open spec fn subscription_of(self, f: TopicFilterView, id: Option<u32>) -> SubscriptionView {
        SubscriptionView {
            filter: (topic::parsed(f.filter)->0).1,
            share_name: (topic::parsed(f.filter)->0).0,
            qos: f.qos.lower(self.config.maximum_qos),
            no_local: f.no_local,
            retain_as_published: f.retain_as_published,
            retain_handling: f.retain_handling,
            subscription_identifier: id,
        }
    }

    /// How the subscription is stored.
    pub open spec fn record_of(self, f: TopicFilterView, id: Option<u32>) -> SubRecordView {
        SubRecordView {
            filter: f.filter,
            qos: f.qos.lower(self.config.maximum_qos),
            no_local: f.no_local,
            retain_as_published: f.retain_as_published,
            retain_handling: f.retain_handling,
            subscription_identifier: id,
        }
    }

    /// The broker after a session subscribes; a session that is stored has its
    /// subscriptions stored.
    pub open spec fn with_subscription(
        self,
        s: SessionView,
        f: TopicFilterView,
        id: Option<u32>,
    ) -> BrokerView {
        let b = self.with(s.subscribed(self.subscription_of(f, id)));
        if s.persistent {
            b.stored(
                CommandView::UpsertSubscription {
                    client_id: s.client_id,
                    sub: self.record_of(f, id),
                },
            )
        } else {
            b
        }
    }
}

impl Subscribing {
    /// One more filter.
    pub open spec fn step(
        self,
        client_id: Seq<char>,
        f: TopicFilterView,
        id: Option<u32>,
        now: u64,
    ) -> Subscribing {
        if self.lost {
            self
        } else {
            match self.broker.filter_refusal(client_id, f.filter) {
                Some(reason) => Subscribing { codes: self.codes.push(reason), ..self },
                None => match self.broker.session(client_id) {
                    None => Subscribing { lost: true, ..self },
                    Some(s) => {
                        let sub = self.broker.subscription_of(f, id);
                        let existed = s.has_subscription(sub.key());
                        Subscribing {
                            broker: self.broker.with_subscription(s, f, id),
                            codes: self.codes.push(granted_code(sub.qos)),
                            sends: if wants_retained(
                                f.retain_handling,
                                sub.share_name is Some,
                                existed,
                            ) {
                                self.sends + retained_for(
                                    self.broker.retained,
                                    sub.filter,
                                    sub.qos,
                                    now,
                                )
                            } else {
                                self.sends
                            },
                            lost: false,
                        }
                    },
                },
            }
        }
    }
}

impl BrokerView {
    /// All filters of a SUBSCRIBE.
    pub open spec fn subscribing(
        self,
        client_id: Seq<char>,
        filters: Seq<TopicFilterView>,
        id: Option<u32>,
        now: u64,
    ) -> Subscribing
        decreases filters.len(),
    {
        if filters.len() == 0 {
            Subscribing { broker: self, codes: Seq::empty(), sends: Seq::empty(), lost: false }
        } else {
            self.subscribing(client_id, filters.drop_last(), id, now).step(
                client_id,
                filters.last(),
                id,
                now,
            )
        }
    }

    /// The broker after a retained message goes to a client.
    pub open spec fn sending(
        self,
        client_id: Seq<char>,
        m: MessageView,
        qos: QoS,
        ids: Seq<u32>,
        now: u64,
    ) -> BrokerView {
        match self.session(client_id) {
            None => self,
            Some(s) => {
                let max = self.config.max_queued_messages as nat;
                let b = self.with(s.delivered(m, qos, true, ids, max, now));
                if s.delivery_drops(m, qos, max, now) {
                    BrokerView {
                        metrics: Metrics {
                            publish_dropped: counted(b.metrics.publish_dropped, 1),
                            ..b.metrics
                        },
                        ..b
                    }
                } else {
                    b
                }
            },
        }
    }

    /// The broker after retained messages go to a client.
    pub open spec fn sending_all(
        self,
        client_id: Seq<char>,
        sends: Seq<(MessageView, QoS)>,
        ids: Seq<u32>,
        now: u64,
    ) -> BrokerView
        decreases sends.len(),
    {
        if sends.len() == 0 {
            self
        } else {
            self.sending_all(client_id, sends.drop_last(), ids, now).sending(
                client_id,
                sends.last().0,
                sends.last().1,
                ids,
                now,
            )
        }
    }

    /// What a SUBSCRIBE does: every filter gets a reason code, the SUBACK goes
    /// first, and then the retained messages.
    pub open spec fn on_subscribe(self, client_id: Seq<char>, s: SubscribeView, now: u64) -> (
        BrokerView,
        Action,
    ) {
        let id = first_identifier(s.properties);
        let r = self.subscribing(client_id, s.filters, id, now);
        if r.lost {
            (r.broker, Action::ServerDisconnect(ReasonCode::UnspecifiedError))
        } else {
            (
                r.broker.sent_to(
                    client_id,
                    OutgoingView::Control(
                        PacketView::Suback(
                            SubAckView {
                                packet_id: s.packet_id,
                                properties: PropertiesView::empty(),
                                reason_codes: r.codes,
                            },
                        ),
                    ),
                ).sending_all(client_id, r.sends, identifiers(id), now),
                Action::Continue,
            )
        }
    }

    /// The key of a subscription that a filter of an UNSUBSCRIBE names.
    pub open spec fn unsubscribe_key(filter: Seq<char>) -> (Option<Seq<char>>, Seq<char>) {
        match topic::parsed(filter) {
            Some(p) => p,
            None => (None, filter),
        }
    }

    /// The broker after one filter of an UNSUBSCRIBE, and its reason code.
    pub open spec fn unsubscribing(self, client_id: Seq<char>, filter: Seq<char>) -> (
        BrokerView,
        ReasonCode,
    ) {
        let key = Self::unsubscribe_key(filter);
        match self.session(client_id) {
            None => (self, ReasonCode::NoSubscriptionExisted),
            Some(s) => {
                let b = self.with(s.unsubscribed(key));
                if !s.has_subscription(key) {
                    (b, ReasonCode::NoSubscriptionExisted)
                } else if s.persistent {
                    (
                        b.stored(CommandView::DeleteSubscription { client_id, filter }),
                        ReasonCode::Success,
                    )
                } else {
                    (b, ReasonCode::Success)
                }
            },
        }
    }

    /// All filters of an UNSUBSCRIBE.
    pub open spec fn unsubscribing_all(self, client_id: Seq<char>, filters: Seq<Seq<char>>) -> (
        BrokerView,
        Seq<ReasonCode>,
    )
        decreases filters.len(),
    {
        if filters.len() == 0 {
            (self, Seq::empty())
        } else {
            let (b, codes) = self.unsubscribing_all(client_id, filters.drop_last());
            let (b1, code) = b.unsubscribing(client_id, filters.last());
            (b1, codes.push(code))
        }
    }

    /// What an UNSUBSCRIBE does.
    pub open spec fn on_unsubscribe(self, client_id: Seq<char>, u: UnsubscribeView) -> BrokerView {
        let (b, codes) = self.unsubscribing_all(client_id, u.filters);
        b.sent_to(
            client_id,
            OutgoingView::Control(
                PacketView::Unsuback(
                    SubAckView {
                        packet_id: u.packet_id,
                        properties: PropertiesView::empty(),
                        reason_codes: codes,
                    },
                ),
            ),
        )
    }
}

/// The first subscription identifier of a property set.
pub open spec fn first_identifier(p: PropertiesView) -> Option<u32> {
    if p.subscription_identifiers.len() > 0 {
        Some(p.subscription_identifiers[0])
    } else {
        None
    }
}

/// The identifiers of a delivery.
pub open spec fn identifiers(id: Option<u32>) -> Seq<u32> {
    match id {
        Some(i) => seq![i],
        None => Seq::empty(),
    }
}

/// A SUBACK has one reason code for each filter, in order.
pub proof fn suback_answers_every_filter(
    b: BrokerView,
    client_id: Seq<char>,
    filters: Seq<TopicFilterView>,
    id: Option<u32>,
    now: u64,
)
    ensures
        ({
            let r = b.subscribing(client_id, filters, id, now);
            !r.lost ==> r.codes.len() == filters.len()
        }),
    decreases filters.len(),
{
    if filters.len() > 0 {
        suback_answers_every_filter(b, client_id, filters.drop_last(), id, now);
    }
}

/// An UNSUBACK has one reason code for each filter, in order.
pub proof fn unsuback_answers_every_filter(
    b: BrokerView,
    client_id: Seq<char>,
    filters: Seq<Seq<char>>,
)
    ensures
        b.unsubscribing_all(client_id, filters).1.len() == filters.len(),
    decreases filters.len(),
{
    if filters.len() > 0 {
        unsuback_answers_every_filter(b, client_id, filters.drop_last());
    }
}

/// A subscription that the policy does not permit, or that is no filter, is not
/// made, and its reason code says why.
pub proof fn refused_filter_changes_nothing(
    s: Subscribing,
    client_id: Seq<char>,
    f: TopicFilterView,
    id: Option<u32>,
    now: u64,
)
    requires
        s.broker.filter_refusal(client_id, f.filter) is Some,
    ensures
        s.step(client_id, f, id, now).broker == s.broker,
        s.step(client_id, f, id, now).sends == s.sends,
        !s.lost ==> s.step(client_id, f, id, now).codes == s.codes.push(
            s.broker.filter_refusal(client_id, f.filter)->0,
        ),
{
}

/// No subscription is granted a QoS beyond what was asked for or what the server
/// supports.
pub proof fn granted_qos_is_supported(b: BrokerView, f: TopicFilterView, id: Option<u32>)
    ensures
        b.subscription_of(f, id).qos.code() <= b.config.maximum_qos.code(),
        b.subscription_of(f, id).qos.code() <= f.qos.code(),
{
}

proof fn lemma_subscribing_storage(
    b: BrokerView,
    client_id: Seq<char>,
    filters: Seq<TopicFilterView>,
    id: Option<u32>,
    now: u64,
)
    requires
        b.wf(),
        b.session(client_id) matches Some(s) ==> !s.persistent,
    ensures
        ({
            let t = b.subscribing(client_id, filters, id, now).broker;
            &&& t.wf()
            &&& t.storage == b.storage
            &&& t.session(client_id) matches Some(s) ==> !s.persistent
        }),
    decreases filters.len(),
{
    if filters.len() > 0 {
        lemma_subscribing_storage(b, client_id, filters.drop_last(), id, now);
        let r = b.subscribing(client_id, filters.drop_last(), id, now);
        if let Some(s) = r.broker.session(client_id) {
            lemma_session(r.broker, client_id);
            let t = s.subscribed(r.broker.subscription_of(filters.last(), id));
            assert(t.wf());
            lemma_with(r.broker, t);
        }
    }
}

proof fn lemma_sending_storage(
    b: BrokerView,
    client_id: Seq<char>,
    sends: Seq<(MessageView, QoS)>,
    ids: Seq<u32>,
    now: u64,
)
    ensures
        b.sending_all(client_id, sends, ids, now).storage == b.storage,
    decreases sends.len(),
{
    if sends.len() > 0 {
        lemma_sending_storage(b, client_id, sends.drop_last(), ids, now);
    }
}

/// The subscriptions of a session that is not stored are not stored either.
pub proof fn passing_subscriptions_are_not_stored(
    b: BrokerView,
    client_id: Seq<char>,
    s: SubscribeView,
    now: u64,
)
    requires
        b.wf(),
        b.session(client_id) matches Some(x) ==> !x.persistent,
    ensures
        b.on_subscribe(client_id, s, now).0.storage == b.storage,
{
    let id = first_identifier(s.properties);
    lemma_subscribing_storage(b, client_id, s.filters, id, now);
    let r = b.subscribing(client_id, s.filters, id, now);
    let answered = r.broker.sent_to(
        client_id,
        OutgoingView::Control(
            PacketView::Suback(
                SubAckView {
                    packet_id: s.packet_id,
                    properties: PropertiesView::empty(),
                    reason_codes: r.codes,
                },
            ),
        ),
    );
    lemma_sending_storage(answered, client_id, r.sends, identifiers(id), now);
}

/// No delivery goes beyond the QoS that was granted, and nothing that has
/// expired is sent to a new subscription.
pub proof fn retained_deliveries_keep_to_the_grant(
    retained: Seq<RetainedView>,
    filter: Seq<char>,
    granted: QoS,
    now: u64,
    i: int,
)
    requires
        0 <= i < retained_for(retained, filter, granted, now).len(),
    ensures
        ({
            let (m, qos) = retained_for(retained, filter, granted, now)[i];
            qos.code() <= granted.code() && qos.code() <= m.qos.code() && !m.expired(now)
        }),
    decreases retained.len(),
{
    let before = retained_for(retained.drop_last(), filter, granted, now);
    if i < before.len() {
        retained_deliveries_keep_to_the_grant(retained.drop_last(), filter, granted, now, i);
    }
}

/// A retained message that has not expired goes to a new subscription that
/// matches its topic.
pub proof fn matching_retained_message_is_sent(
    retained: Seq<RetainedView>,
    filter: Seq<char>,
    granted: QoS,
    now: u64,
    k: int,
)
    requires
        0 <= k < retained.len(),
        !retained[k].message.expired(now),
        topic::is_match(filter, retained[k].topic),
    ensures
        retained_for(retained, filter, granted, now).contains(
            (retained[k].message, retained[k].message.qos.lower(granted)),
        ),
    decreases retained.len(),
{
    let before = retained_for(retained.drop_last(), filter, granted, now);
    let all = retained_for(retained, filter, granted, now);
    let x = (retained[k].message, retained[k].message.qos.lower(granted));
    if k == retained.len() - 1 {
        assert(all.last() == x);
    } else {
        matching_retained_message_is_sent(retained.drop_last(), filter, granted, now, k);
        let i = choose|i: int| 0 <= i < before.len() && before[i] == x;
        assert(all[i] == x);
    }
}

proof fn lemma_lost(
    b: BrokerView,
    client_id: Seq<char>,
    filters: Seq<TopicFilterView>,
    id: Option<u32>,
    now: u64,
    n: int,
)
    requires
        0 <= n <= filters.len(),
        b.subscribing(client_id, filters.take(n), id, now).lost,
    ensures
        b.subscribing(client_id, filters, id, now) == b.subscribing(
            client_id,
            filters.take(n),
            id,
            now,
        ),
    decreases filters.len() - n,
{
    if n == filters.len() {
        assert(filters.take(n) =~= filters);
    } else {
        assert(filters.take(n + 1).drop_last() =~= filters.take(n));
        lemma_lost(b, client_id, filters, id, now, n + 1);
    }
}

impl Broker {
    /// Why a filter of a SUBSCRIBE is refused, if it is.
    fn refuse_filter(&self, client_id: &str, filter: &String) -> (r: Option<ReasonCode>)
        ensures
            r == self@.filter_refusal(client_id@, filter@),
    {
        let bare: String = strip_share_for_validation(filter.as_str());
        if !topic::valid_topic_filter(bare.as_str()) {
            return Some(ReasonCode::TopicFilterInvalid);
        }
        match topic::parse_filter(filter.as_str()) {
            None => Some(ReasonCode::TopicFilterInvalid),
            Some(p) => {
                let who: String = self.who(client_id);
                if !self.acl.can_subscribe(who.as_str(), p.filter) {
                    Some(ReasonCode::NotAuthorized)
                } else {
                    None
                }
            },
        }
    }

    /// Collects the retained messages for a new subscription.
    fn collect_retained(
        &self,
        filter: &str,
        granted: QoS,
        now: u64,
        sends: &mut Vec<(Message, QoS)>,
    )
        ensures
            send_views(final(sends)@) == send_views(old(sends)@) + retained_for(
                self@.retained,
                filter@,
                granted,
                now,
            ),
    {
        let ghost before = send_views(sends@);
        let ghost all = self@.retained;
        let mut i: usize = 0;
        assert(all.take(0) =~= Seq::empty());
        assert(before + retained_for(all.take(0), filter@, granted, now) =~= before);
        while i < self.retained.len()
            invariant
                i <= self.retained.len(),
                all == text::views(self.retained@),
                send_views(sends@) == before + retained_for(
                    all.take(i as int),
                    filter@,
                    granted,
                    now,
                ),
            decreases self.retained.len() - i,
        {
            assert(all.take(i + 1).drop_last() =~= all.take(i as int));
            assert(all.take(i + 1).last() == self.retained@[i as int]@);
            let ghost sofar = sends@;
            if !self.retained[i].message.is_expired_at(now) && topic::matches(
                filter,
                self.retained[i].topic.as_str(),
            ) {
                let m: Message = self.retained[i].message.clone();
                let q: QoS = m.qos.min(granted);
                sends.push((m, q));
                assert(send_views(sends@) =~= send_views(sofar).push((m@, q)));
            }
            assert(send_views(sends@) =~= before + retained_for(
                all.take(i + 1),
                filter@,
                granted,
                now,
            ));
            i = i + 1;
        }
        assert(all.take(all.len() as int) =~= all);
    }

    /// Makes the subscription of a filter that was not refused. Returns whether
    /// it was there before, or `None` without a session.
    fn add_subscription(&mut self, client_id: &str, f: &TopicFilter, id: Option<u32>) -> (r: Option<
        bool,
    >)
        requires
            old(self).wf(),
            topic::parsed(f@.filter) is Some,
        ensures
            match old(self)@.session(client_id@) {
                None => r is None && final(self)@ == old(self)@,
                Some(s) => r == Some(
                    s.has_subscription(old(self)@.subscription_of(f@, id).key()),
                ) && final(self)@ == old(self)@.with_subscription(s, f@, id),
            },
            final(self).wf(),
    {
        let ghost before = self@;
        proof {
            lemma_session(before, client_id@);
        }
        let i: usize = find_session(&self.sessions, client_id);
        if i >= self.sessions.len() {
            return None;
        }
        assert(self.sessions@[i as int]@ == before.sessions[i as int]);
        let granted: QoS = f.qos.min(self.config.maximum_qos);
        let (share_name, filter): (Option<String>, String) = match topic::parse_filter(
            f.filter.as_str(),
        ) {
            Some(p) => (
                match p.share_name {
                    Some(n) => Some(n.to_owned()),
                    None => None,
                },
                p.filter.to_owned(),
            ),
            None => (None, f.filter.clone()),
        };
        let sub: Subscription = Subscription {
            filter,
            share_name,
            qos: granted,
            no_local: f.no_local,
            retain_as_published: f.retain_as_published,
            retain_handling: f.retain_handling,
            subscription_identifier: id,
        };
        let ghost subv = before.subscription_of(f@, id);
        assert(sub@ == subv);
        let s: &mut Session = &mut self.sessions[i];
        let existed: bool = s.upsert_subscription(sub);
        proof {
            let sv = before.sessions[i as int].subscribed(subv);
            assert(sv.wf());
            lemma_with(before, sv);
            assert(self@ =~= before.with(sv));
        }
        if self.sessions[i].persistent {
            let record: SubRecord = SubRecord {
                filter: f.filter.clone(),
                qos: granted,
                no_local: f.no_local,
                retain_as_published: f.retain_as_published,
                retain_handling: f.retain_handling,
                subscription_identifier: id,
            };
            self.storage.upsert_subscription(client_id.to_owned(), record);
        }
        Some(existed)
    }

    /// Sends a retained message to a client.
    fn send_retained(
        &mut self,
        client_id: &str,
        message: &Message,
        qos: QoS,
        ids: &Vec<u32>,
        now: u64,
    )
        requires
            old(self).wf(),
        ensures
            final(self)@ == old(self)@.sending(client_id@, message@, qos, ids@, now),
            final(self).wf(),
    {
        let ghost before = self@;
        proof {
            lemma_session(before, client_id@);
        }
        let max_queued: usize = self.config.max_queued_messages as usize;
        let i: usize = find_session(&self.sessions, client_id);
        if i < self.sessions.len() {
            assert(self.sessions@[i as int]@ == before.sessions[i as int]);
            let dropped: bool = deliver_to_session(
                &mut self.sessions[i],
                message,
                qos,
                true,
                ids.as_slice(),
                max_queued,
                now,
            );
            proof {
                let old_s = before.sessions[i as int];
                let sv = self.sessions@[i as int]@;
                delivery_keeps_the_rest(old_s, message@, qos, true, ids@, max_queued as nat, now);
                lemma_with(before, sv);
                assert(self@ =~= before.with(sv));
            }
            if dropped {
                Metrics::inc(&mut self.metrics.publish_dropped);
            }
        }
    }

    /// Handles a SUBSCRIBE.
    pub fn handle_subscribe(&mut self, client_id: &str, sub: Subscribe, now: u64) -> (r: Action)
        requires
            old(self).wf(),
        ensures
            (final(self)@, r) == old(self)@.on_subscribe(client_id@, sub@, now),
            final(self).wf(),
    {
        let ghost before = self@;
        let ghost cid = client_id@;
        let ghost filters = sub@.filters;
        let id: Option<u32> = if sub.properties.subscription_identifiers.len() > 0 {
            Some(sub.properties.subscription_identifiers[0])
        } else {
            None
        };
        assert(id == first_identifier(sub@.properties));
        let mut ids: Vec<u32> = Vec::new();
        if let Some(n) = id {
            ids.push(n);
        }
        assert(ids@ =~= identifiers(id));
        let mut codes: Vec<ReasonCode> = Vec::new();
        let mut sends: Vec<(Message, QoS)> = Vec::new();
        let mut i: usize = 0;
        assert(filters.take(0) =~= Seq::empty());
        assert(send_views(sends@) =~= Seq::empty());
        while i < sub.filters.len()
            invariant
                i <= sub.filters.len(),
                filters == text::views(sub.filters@),
                filters == sub@.filters,
                cid == client_id@,
                before == old(self)@,
                id == first_identifier(sub@.properties),
                self.wf(),
                before.subscribing(cid, filters.take(i as int), id, now) == (Subscribing {
                    broker: self@,
                    codes: codes@,
                    sends: send_views(sends@),
                    lost: false,
                }),
            decreases sub.filters.len() - i,
        {
            let ghost upto = filters.take(i + 1);
            assert(upto.drop_last() =~= filters.take(i as int));
            assert(upto.last() == sub.filters@[i as int]@);
            let f: &TopicFilter = &sub.filters[i];
            let ghost sofar = Subscribing {
                broker: self@,
                codes: codes@,
                sends: send_views(sends@),
                lost: false,
            };
            match self.refuse_filter(client_id, &f.filter) {
                Some(reason) => {
                    codes.push(reason);
                },
                None => {
                    let ghost at = self@;
                    let granted: QoS = f.qos.min(self.config.maximum_qos);
                    match self.add_subscription(client_id, f, id) {
                        None => {
                            proof {
                                assert(sofar.step(cid, f@, id, now).lost);
                                lemma_lost(before, cid, filters, id, now, i + 1);
                            }
                            return Action::ServerDisconnect(ReasonCode::UnspecifiedError);
                        },
                        Some(existed) => {
                            let ghost sv = at.subscription_of(f@, id);
                            if let Some(p) = topic::parse_filter(f.filter.as_str()) {
                                let wanted: bool = match f.retain_handling {
                                    RetainHandling::SendAtSubscribe => true,
                                    RetainHandling::SendIfNewSubscription => !existed,
                                    RetainHandling::DoNotSend => false,
                                };
                                if p.share_name.is_none() && wanted {
                                    self.collect_retained(p.filter, granted, now, &mut sends);
                                }
                            }
                            codes.push(
                                match granted {
                                    QoS::AtMostOnce => ReasonCode::Success,
                                    QoS::AtLeastOnce => ReasonCode::GrantedQoS1,
                                    QoS::ExactlyOnce => ReasonCode::GrantedQoS2,
                                },
                            );
                            assert(self@ == at.with_subscription(at.session(cid)->0, f@, id));
                            assert(self@.retained == at.retained);
                        },
                    }
                },
            }
            assert(sofar.step(cid, f@, id, now) == (Subscribing {
                broker: self@,
                codes: codes@,
                sends: send_views(sends@),
                lost: false,
            }));
            i = i + 1;
        }
        assert(filters.take(filters.len() as int) =~= filters);
        let ack: Outgoing = Outgoing::Control(
            Box::new(Packet::Suback(SubAck::new(sub.packet_id, codes))),
        );
        self.send_to(client_id, ack);
        let ghost told = self@;
        let ghost all = send_views(sends@);
        let mut k: usize = 0;
        assert(all.take(0) =~= Seq::empty());
        while k < sends.len()
            invariant
                k <= sends.len(),
                all == send_views(sends@),
                cid == client_id@,
                self.wf(),
                self@ == told.sending_all(cid, all.take(k as int), ids@, now),
            decreases sends.len() - k,
        {
            assert(all.take(k + 1).drop_last() =~= all.take(k as int));
            assert(all.take(k + 1).last() == (sends@[k as int].0@, sends@[k as int].1));
            let q: QoS = sends[k].1;
            self.send_retained(client_id, &sends[k].0, q, &ids, now);
            k = k + 1;
        }
        assert(all.take(all.len() as int) =~= all);
        Action::Continue
    }

    /// Removes the subscription of one filter. Returns its reason code.
    fn drop_subscription(&mut self, client_id: &str, filter: &String) -> (r: ReasonCode)
        requires
            old(self).wf(),
        ensures
            (final(self)@, r) == old(self)@.unsubscribing(client_id@, filter@),
            final(self).wf(),
    {
        let ghost before = self@;
        proof {
            lemma_session(before, client_id@);
        }
        let (share_name, bare): (Option<String>, String) = match topic::parse_filter(
            filter.as_str(),
        ) {
            Some(p) => (
                match p.share_name {
                    Some(n) => Some(n.to_owned()),
                    None => None,
                },
                p.filter.to_owned(),
            ),
            None => (None, filter.clone()),
        };
        let ghost key = BrokerView::unsubscribe_key(filter@);
        assert(key == (text::opt_view(share_name), bare@));
        let i: usize = find_session(&self.sessions, client_id);
        if i >= self.sessions.len() {
            return ReasonCode::NoSubscriptionExisted;
        }
        assert(self.sessions@[i as int]@ == before.sessions[i as int]);
        let s: &mut Session = &mut self.sessions[i];
        let removed: bool = s.remove_subscription(bare.as_str(), &share_name);
        proof {
            let sv = before.sessions[i as int].unsubscribed(key);
            assert(sv.wf());
            lemma_with(before, sv);
            assert(self@ =~= before.with(sv));
        }
        if !removed {
            return ReasonCode::NoSubscriptionExisted;
        }
        if self.sessions[i].persistent {
            self.storage.delete_subscription(client_id.to_owned(), filter.clone());
        }
        ReasonCode::Success
    }

    /// Handles an UNSUBSCRIBE.
    pub fn handle_unsubscribe(&mut self, client_id: &str, unsub: Unsubscribe) -> (r: Action)
        requires
            old(self).wf(),
        ensures
            final(self)@ == old(self)@.on_unsubscribe(client_id@, unsub@),
            r == Action::Continue,
            final(self).wf(),
    {
        let ghost before = self@;
        let ghost cid = client_id@;
        let ghost filters = unsub@.filters;
        let mut codes: Vec<ReasonCode> = Vec::new();
        let mut i: usize = 0;
        assert(filters.take(0) =~= Seq::empty());
        while i < unsub.filters.len()
            invariant
                i <= unsub.filters.len(),
                filters == text::views(unsub.filters@),
                cid == client_id@,
                self.wf(),
                (self@, codes@) == before.unsubscribing_all(cid, filters.take(i as int)),
            decreases unsub.filters.len() - i,
        {
            assert(filters.take(i + 1).drop_last() =~= filters.take(i as int));
            assert(filters.take(i + 1).last() == unsub.filters@[i as int]@);
            let code: ReasonCode = self.drop_subscription(client_id, &unsub.filters[i]);
            codes.push(code);
            i = i + 1;
        }
        assert(filters.take(filters.len() as int) =~= filters);
        let ack: Outgoing = Outgoing::Control(
            Box::new(Packet::Unsuback(SubAck::new(unsub.packet_id, codes))),
        );
        self.send_to(client_id, ack);
        Action::Continue
    }
}

/// Messages to send, with the QoS of their delivery.
spec fn send_views(s: Seq<(Message, QoS)>) -> Seq<(MessageView, QoS)> {
    Seq::new(s.len(), |i: int| (s[i].0@, s[i].1))
}

} // verus!
