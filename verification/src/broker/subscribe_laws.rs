//! Laws of SUBSCRIBE and UNSUBSCRIBE: which subscriptions a session has after
//! them, which retained messages a new one is sent, and what the client is
//! answered.

use vstd::prelude::*;
use crate::broker::ack_laws::{lemma_differs, with_packet};
use crate::broker::delivery_laws::goes_up;
use crate::broker::routing;
use crate::broker::session;
use crate::broker::session::{sub_keys, without_key, OutgoingView, SessionView, SubscriptionView};
use crate::broker::subscribe::{
    first_identifier, identifiers, retained_for, strip_share, wants_retained,
    Subscribing,
};
use crate::broker::{
    lemma_session, lemma_with, lemma_with_other, Action, BrokerView, RetainedView,
};
use crate::codec::PropertiesView;
use crate::message::MessageView;
use crate::packet::{
    PacketView, SubAckView, SubscribeView, TopicFilterView, UnsubscribeView,
};
use crate::storage::CommandView;
use crate::text;
use crate::topic;
use crate::types::{QoS, ReasonCode};

verus! {

/// Whether a QoS level is the lower of two.
pub open spec fn is_lower(qos: QoS, one: QoS, other: QoS) -> bool {
    &&& qos.code() <= one.code()
    &&& qos.code() <= other.code()
    &&& qos == one || qos == other
}

/// Whether what is to be sent is a retained message that a filter matches, at
/// the lower of its own QoS and the granted one, and before its expiry.
pub open spec fn is_retained_delivery(
    send: (MessageView, QoS),
    r: RetainedView,
    filter: Seq<char>,
    granted: QoS,
    now: u64,
) -> bool {
    &&& send.0 == r.message
    &&& is_lower(send.1, r.message.qos, granted)
    &&& topic::is_match(filter, r.topic)
    &&& r.message.expires_at matches Some(end) ==> now < end
}

/// Whether the retained messages that are to be sent are those at the given
/// places.
pub open spec fn are_retained_deliveries(
    sends: Seq<(MessageView, QoS)>,
    retained: Seq<RetainedView>,
    ks: Seq<int>,
    filter: Seq<char>,
    granted: QoS,
    now: u64,
) -> bool {
    &&& sends.len() == ks.len()
    &&& goes_up(ks, retained.len() as int)
    &&& forall|i: int|
        0 <= i < ks.len() ==> is_retained_delivery(
            #[trigger] sends[i],
            retained[ks[i]],
            filter,
            granted,
            now,
        )
    &&& forall|k: int|
        0 <= k < retained.len() && topic::is_match(filter, (#[trigger] retained[k]).topic) && (
        retained[k].message.expires_at matches Some(end) ==> now < end) ==> ks.contains(k)
}

/// What a new subscription is sent of the retained messages are exactly those
/// whose topics its filter matches and that have not expired, each once, in
/// order, at the lower of its own QoS and the granted one. The result names
/// them.
pub proof fn retained_deliveries_are_the_matches(
    retained: Seq<RetainedView>,
    filter: Seq<char>,
    granted: QoS,
    now: u64,
) -> (ks: Seq<int>)
    ensures
        are_retained_deliveries(
            retained_for(retained, filter, granted, now),
            retained,
            ks,
            filter,
            granted,
            now,
        ),
    decreases retained.len(),
{
    if retained.len() == 0 {
        Seq::empty()
    } else {
        let d = retained.drop_last();
        let js = retained_deliveries_are_the_matches(d, filter, granted, now);
        let before = retained_for(d, filter, granted, now);
        let sends = retained_for(retained, filter, granted, now);
        let r = retained.last();
        let last = retained.len() - 1;
        let ks = if !r.message.expired(now) && topic::is_match(filter, r.topic) {
            js.push(last)
        } else {
            js
        };
        assert(goes_up(ks, retained.len() as int)) by {
            assert forall|i: int, j: int| 0 <= i < j < ks.len() implies #[trigger] ks[i]
                < #[trigger] ks[j] by {
                if j < js.len() {
                    assert(js[i] < js[j]);
                } else {
                    assert(js[i] < d.len());
                }
            }
        }
        assert forall|i: int| 0 <= i < ks.len() implies is_retained_delivery(
            #[trigger] sends[i],
            retained[ks[i]],
            filter,
            granted,
            now,
        ) by {
            if i < js.len() {
                assert(before[i] == sends[i]);
                assert(0 <= js[i] < d.len());
                assert(d[js[i]] == retained[ks[i]]);
            }
        }
        assert forall|k: int|
            0 <= k < retained.len() && topic::is_match(filter, (#[trigger] retained[k]).topic) && (
            retained[k].message.expires_at matches Some(end) ==> now < end) implies ks.contains(
            k,
        ) by {
            if k < last {
                assert(d[k] == retained[k]);
                assert(js.contains(k));
                let i = choose|i: int| 0 <= i < js.len() && js[i] == k;
                assert(ks[i] == k);
            } else {
                assert(ks[js.len() as int] == k);
            }
        }
        ks
    }
}

/// Whether a subscription is the one that a filter names: a filter
/// `$share/{name}/{filter}` names that of the share, any other that of itself.
pub open spec fn names(filter: Seq<char>, sub: SubscriptionView) -> bool {
    match topic::parsed(filter) {
        Some((share, bare)) => sub.share_name == share && sub.filter == bare,
        None => sub.share_name is None && sub.filter == filter,
    }
}

/// Whether one of some filters names a subscription.
pub open spec fn one_names(filters: Seq<Seq<char>>, sub: SubscriptionView) -> bool {
    exists|i: int| 0 <= i < filters.len() && names(#[trigger] filters[i], sub)
}

/// The subscriptions that no filter names.
pub open spec fn unnamed(subs: Seq<SubscriptionView>, filters: Seq<Seq<char>>) -> Seq<
    SubscriptionView,
> {
    subs.filter(|x: SubscriptionView| !one_names(filters, x))
}

/// Whether there is a subscription that a filter names and no filter before it
/// does.
pub open spec fn is_there_for(
    subs: Seq<SubscriptionView>,
    filters: Seq<Seq<char>>,
    i: int,
) -> bool {
    exists|k: int|
        0 <= k < subs.len() && names(filters[i], #[trigger] subs[k]) && !one_names(
            filters.take(i),
            subs[k],
        )
}

/// Whether reason codes say of each filter whether there was a subscription for
/// it.
pub open spec fn tell_what_was_there(
    codes: Seq<ReasonCode>,
    subs: Seq<SubscriptionView>,
    filters: Seq<Seq<char>>,
) -> bool {
    &&& codes.len() == filters.len()
    &&& forall|i: int|
        0 <= i < filters.len() ==> #[trigger] codes[i] == (if is_there_for(subs, filters, i) {
            ReasonCode::Success
        } else {
            ReasonCode::NoSubscriptionExisted
        })
}

proof fn lemma_one_names(filters: Seq<Seq<char>>, x: SubscriptionView)
    requires
        filters.len() > 0,
    ensures
        one_names(filters, x) <==> one_names(filters.drop_last(), x) || names(filters.last(), x),
{
    let d = filters.drop_last();
    if one_names(filters, x) {
        let i = choose|i: int| 0 <= i < filters.len() && names(#[trigger] filters[i], x);
        if i < d.len() {
            assert(names(d[i], x));
        }
    }
    if one_names(d, x) {
        let i = choose|i: int| 0 <= i < d.len() && names(#[trigger] d[i], x);
        assert(names(filters[i], x));
    }
    if names(filters.last(), x) {
        assert(names(filters[filters.len() - 1], x));
    }
}

proof fn lemma_names_is_key(filter: Seq<char>, x: SubscriptionView)
    ensures
        names(filter, x) <==> x.key() == BrokerView::unsubscribe_key(filter),
{
}

/// Taking out a key once more keeps what no filter names.
proof fn lemma_unnamed_step(subs: Seq<SubscriptionView>, filters: Seq<Seq<char>>)
    requires
        filters.len() > 0,
    ensures
        without_key(
            unnamed(subs, filters.drop_last()),
            BrokerView::unsubscribe_key(filters.last()),
        ) == unnamed(subs, filters),
    decreases subs.len(),
{
    reveal(Seq::filter);
    let d = filters.drop_last();
    let key = BrokerView::unsubscribe_key(filters.last());
    if subs.len() > 0 {
        lemma_unnamed_step(subs.drop_last(), filters);
        let x = subs.last();
        lemma_one_names(filters, x);
        lemma_names_is_key(filters.last(), x);
        let before = unnamed(subs.drop_last(), d);
        if !one_names(d, x) {
            assert(unnamed(subs, d) == before.push(x));
            assert(before.push(x).drop_last() =~= before);
        } else {
            assert(unnamed(subs, d) == before);
        }
    }
}

proof fn lemma_in_unnamed(subs: Seq<SubscriptionView>, filters: Seq<Seq<char>>)
    ensures
        forall|j: int|
            0 <= j < unnamed(subs, filters).len() ==> !one_names(
                filters,
                #[trigger] unnamed(subs, filters)[j],
            ) && subs.contains(unnamed(subs, filters)[j]),
        forall|k: int|
            0 <= k < subs.len() && !one_names(filters, #[trigger] subs[k]) ==> unnamed(
                subs,
                filters,
            ).contains(subs[k]),
    decreases subs.len(),
{
    reveal(Seq::filter);
    if subs.len() > 0 {
        let d = subs.drop_last();
        lemma_in_unnamed(d, filters);
        let all = unnamed(subs, filters);
        let before = unnamed(d, filters);
        assert forall|j: int| 0 <= j < all.len() implies !one_names(filters, #[trigger] all[j])
            && subs.contains(all[j]) by {
            if j < before.len() {
                assert(all[j] == before[j]);
                let k = choose|k: int| 0 <= k < d.len() && d[k] == before[j];
                assert(subs[k] == all[j]);
            } else {
                assert(subs[subs.len() - 1] == all[j]);
            }
        }
        assert forall|k: int|
            0 <= k < subs.len() && !one_names(filters, #[trigger] subs[k]) implies all.contains(
            subs[k],
        ) by {
            if k < d.len() {
                assert(d[k] == subs[k]);
                let j = choose|j: int| 0 <= j < before.len() && before[j] == d[k];
                assert(all[j] == subs[k]);
            } else {
                assert(all[all.len() - 1] == subs[k]);
            }
        }
    }
}

/// Whether the storage was told of each subscription that went, and of nothing
/// else.
pub open spec fn told_of_removals(
    t: Seq<CommandView>,
    b: Seq<CommandView>,
    client_id: Seq<char>,
    subs: Seq<SubscriptionView>,
    filters: Seq<Seq<char>>,
) -> bool {
    &&& b.is_prefix_of(t)
    &&& forall|i: int|
        0 <= i < filters.len() && is_there_for(subs, filters, i) ==> exists|c: int|
            b.len() <= c < t.len() && #[trigger] t[c] == (CommandView::DeleteSubscription {
                client_id,
                filter: #[trigger] filters[i],
            })
    &&& forall|c: int|
        b.len() <= c < t.len() ==> #[trigger] t[c] is DeleteSubscription
}

/// What the filters of an UNSUBSCRIBE do one after another.
proof fn lemma_unsubscribing(b: BrokerView, client_id: Seq<char>, filters: Seq<Seq<char>>)
    requires
        b.wf(),
        b.session(client_id) is Some,
    ensures
        ({
            let s = b.session(client_id)->0;
            let (t, codes) = b.unsubscribing_all(client_id, filters);
            &&& t.wf()
            &&& t.session(client_id) == Some(
                SessionView { subscriptions: unnamed(s.subscriptions, filters), ..s },
            )
            &&& tell_what_was_there(codes, s.subscriptions, filters)
            &&& t == (BrokerView { sessions: t.sessions, storage: t.storage, ..b })
            &&& !s.persistent ==> t.storage == b.storage
            &&& t.storage.mode == b.storage.mode
            &&& s.persistent && b.storage.mode is Writer ==> told_of_removals(
                t.storage.commands,
                b.storage.commands,
                client_id,
                s.subscriptions,
                filters,
            )
            &&& forall|other: Seq<char>|
                other != client_id ==> #[trigger] t.session(other) == b.session(other)
        }),
    decreases filters.len(),
{
    let s = b.session(client_id)->0;
    lemma_session(b, client_id);
    if filters.len() == 0 {
        assert(unnamed(s.subscriptions, filters) =~= s.subscriptions) by {
            lemma_all_unnamed(s.subscriptions, filters);
        }
    } else {
        let d = filters.drop_last();
        lemma_unsubscribing(b, client_id, d);
        let (u, codes) = b.unsubscribing_all(client_id, d);
        let (t, all) = b.unsubscribing_all(client_id, filters);
        let v = u.session(client_id)->0;
        let key = BrokerView::unsubscribe_key(filters.last());
        lemma_unnamed_step(s.subscriptions, filters);
        let w = v.unsubscribed(key);
        assert(w.wf());
        lemma_with(u, w);
        assert forall|other: Seq<char>| other != client_id implies #[trigger] t.session(other)
            == b.session(other) by {
            lemma_with_other(u, w, other);
            assert(t.session(other) == u.with(w).session(other));
        }
        assert(t.session(client_id) == u.with(w).session(client_id));
        let last = filters.len() - 1;
        lemma_there_last(s.subscriptions, filters);
        assert forall|i: int| 0 <= i < filters.len() implies #[trigger] all[i] == (if is_there_for(
            s.subscriptions,
            filters,
            i,
        ) {
            ReasonCode::Success
        } else {
            ReasonCode::NoSubscriptionExisted
        }) by {
            if i < last {
                assert(all[i] == codes[i]);
                assert(filters.take(i) =~= d.take(i));
                assert(d[i] == filters[i]);
                lemma_there_same(s.subscriptions, filters, d, i);
            }
        }
        if s.persistent && b.storage.mode is Writer {
            let tc = t.storage.commands;
            let uc = u.storage.commands;
            let bc = b.storage.commands;
            assert forall|i: int|
                0 <= i < filters.len() && is_there_for(s.subscriptions, filters, i) implies exists|
                c: int,
            |
                bc.len() <= c < tc.len() && #[trigger] tc[c] == (CommandView::DeleteSubscription {
                    client_id,
                    filter: #[trigger] filters[i],
                }) by {
                if i < last {
                    assert(d[i] == filters[i]);
                    lemma_there_same(s.subscriptions, filters, d, i);
                    let c = choose|c: int|
                        bc.len() <= c < uc.len() && #[trigger] uc[c]
                            == (CommandView::DeleteSubscription { client_id, filter: d[i] });
                    assert(tc[c] == uc[c]);
                } else {
                    assert(tc[uc.len() as int] == (CommandView::DeleteSubscription {
                        client_id,
                        filter: filters[i],
                    }));
                }
            }
            assert forall|c: int| bc.len() <= c < tc.len() implies #[trigger] tc[c] is DeleteSubscription by {
                if c < uc.len() {
                    assert(tc[c] == uc[c]);
                }
            }
        }
    }
}

proof fn lemma_there_same(
    subs: Seq<SubscriptionView>,
    filters: Seq<Seq<char>>,
    d: Seq<Seq<char>>,
    i: int,
)
    requires
        filters.len() > 0,
        d == filters.drop_last(),
        0 <= i < d.len(),
    ensures
        is_there_for(subs, filters, i) == is_there_for(subs, d, i),
{
    assert(filters.take(i) =~= d.take(i));
    assert(d[i] == filters[i]);
    if is_there_for(subs, filters, i) {
        let k = choose|k: int|
            0 <= k < subs.len() && names(filters[i], #[trigger] subs[k]) && !one_names(
                filters.take(i),
                subs[k],
            );
        assert(names(d[i], subs[k]));
    }
    if is_there_for(subs, d, i) {
        let k = choose|k: int|
            0 <= k < subs.len() && names(d[i], #[trigger] subs[k]) && !one_names(
                d.take(i),
                subs[k],
            );
        assert(names(filters[i], subs[k]));
    }
}

proof fn lemma_there_last(subs: Seq<SubscriptionView>, filters: Seq<Seq<char>>)
    requires
        filters.len() > 0,
    ensures
        sub_keys(unnamed(subs, filters.drop_last())).contains(
            BrokerView::unsubscribe_key(filters.last()),
        ) == is_there_for(subs, filters, filters.len() - 1),
{
    let d = filters.drop_last();
    let last = filters.len() - 1;
    let left = unnamed(subs, d);
    let key = BrokerView::unsubscribe_key(filters.last());
    assert(filters.take(last) =~= d);
    lemma_in_unnamed(subs, d);
    if sub_keys(left).contains(key) {
        let j = choose|j: int| 0 <= j < sub_keys(left).len() && sub_keys(left)[j] == key;
        assert(subs.contains(left[j]));
        let k = choose|k: int| 0 <= k < subs.len() && subs[k] == left[j];
        lemma_names_is_key(filters.last(), subs[k]);
        assert(names(filters[last], subs[k]));
    }
    if is_there_for(subs, filters, last) {
        let k = choose|k: int|
            0 <= k < subs.len() && names(filters[last], #[trigger] subs[k]) && !one_names(
                filters.take(last),
                subs[k],
            );
        lemma_names_is_key(filters.last(), subs[k]);
        assert(left.contains(subs[k]));
        let j = choose|j: int| 0 <= j < left.len() && left[j] == subs[k];
        assert(sub_keys(left)[j] == key);
    }
}

proof fn lemma_all_unnamed(subs: Seq<SubscriptionView>, filters: Seq<Seq<char>>)
    requires
        filters.len() == 0,
    ensures
        unnamed(subs, filters) == subs,
    decreases subs.len(),
{
    reveal(Seq::filter);
    if subs.len() > 0 {
        lemma_all_unnamed(subs.drop_last(), filters);
        assert(subs =~= subs.drop_last().push(subs.last()));
    }
}

/// After an UNSUBSCRIBE the session of the client has no subscription that one
/// of its filters names, and its other subscriptions as they were, in order. The
/// UNSUBACK is the last item on its way to the client, and its reason code for a
/// filter is Success exactly where there was a subscription for it that no
/// filter before it had ended. A stored session has each of them taken out of
/// the storage. Nothing else changes.
pub proof fn unsubscribe_removes_what_it_names(
    b: BrokerView,
    client_id: Seq<char>,
    u: UnsubscribeView,
    now: u64,
) -> (codes: Seq<ReasonCode>)
    requires
        b.wf(),
        b.session(client_id) is Some,
    ensures
        ({
            let s = b.session(client_id)->0;
            let (t, action) = b.on_packet(client_id, PacketView::Unsubscribe(u), now);
            &&& action == Action::Continue
            &&& t.session(client_id) == Some(
                SessionView {
                    subscriptions: s.subscriptions.filter(
                        |x: SubscriptionView| !one_names(u.filters, x),
                    ),
                    out: with_packet(
                        s.out,
                        PacketView::Unsuback(
                            SubAckView {
                                packet_id: u.packet_id,
                                properties: PropertiesView::empty(),
                                reason_codes: codes,
                            },
                        ),
                    ),
                    ..s
                },
            )
            &&& tell_what_was_there(codes, s.subscriptions, u.filters)
            &&& !s.persistent ==> t.storage == b.storage
            &&& s.persistent && b.storage.mode is Writer ==> told_of_removals(
                t.storage.commands,
                b.storage.commands,
                client_id,
                s.subscriptions,
                u.filters,
            )
            &&& t == (BrokerView { sessions: t.sessions, storage: t.storage, ..b })
            &&& forall|other: Seq<char>|
                other != client_id ==> #[trigger] t.session(other) == b.session(other)
        }),
{
    let s = b.session(client_id)->0;
    lemma_session(b, client_id);
    lemma_unsubscribing(b, client_id, u.filters);
    let (m, codes) = b.unsubscribing_all(client_id, u.filters);
    let v = m.session(client_id)->0;
    let item = OutgoingView::Control(
        PacketView::Unsuback(
            SubAckView {
                packet_id: u.packet_id,
                properties: PropertiesView::empty(),
                reason_codes: codes,
            },
        ),
    );
    assert(v.sent(item).wf());
    lemma_differs(m, v.sent(item));
    let t = b.on_packet(client_id, PacketView::Unsubscribe(u), now).0;
    assert(t == m.with(v.sent(item)));
    codes
}

/// After an UNSUBSCRIBE no subscription of the session has a filter that was
/// given up, and every other subscription is there.
pub proof fn unsubscribed_filters_are_gone(
    b: BrokerView,
    client_id: Seq<char>,
    u: UnsubscribeView,
    now: u64,
    i: int,
    x: SubscriptionView,
)
    requires
        b.wf(),
        b.session(client_id) is Some,
        0 <= i < u.filters.len(),
    ensures
        ({
            let s = b.session(client_id)->0;
            let t = b.on_packet(client_id, PacketView::Unsubscribe(u), now).0;
            let w = t.session(client_id)->0;
            &&& t.session(client_id) is Some
            &&& names(u.filters[i], x) ==> !w.subscriptions.contains(x)
            &&& !one_names(u.filters, x) ==> (w.subscriptions.contains(x)
                <==> s.subscriptions.contains(x))
            &&& w.subscriptions.len() <= s.subscriptions.len()
        }),
{
    let s = b.session(client_id)->0;
    let codes = unsubscribe_removes_what_it_names(b, client_id, u, now);
    let left = unnamed(s.subscriptions, u.filters);
    lemma_in_unnamed(s.subscriptions, u.filters);
    s.subscriptions.lemma_filter_len(|x: SubscriptionView| !one_names(u.filters, x));
    let w = b.on_packet(client_id, PacketView::Unsubscribe(u), now).0.session(client_id)->0;
    assert(w.subscriptions == left);
    if left.contains(x) {
        let j = choose|j: int| 0 <= j < left.len() && left[j] == x;
        assert(!one_names(u.filters, left[j]) && s.subscriptions.contains(left[j]));
    }
    if s.subscriptions.contains(x) && !one_names(u.filters, x) {
        let k = choose|k: int| 0 <= k < s.subscriptions.len() && s.subscriptions[k] == x;
        assert(left.contains(s.subscriptions[k]));
    }
}

/// Whether a subscription is the one that a filter of a SUBSCRIBE asks for.
pub open spec fn is_asked_for(
    sub: SubscriptionView,
    f: TopicFilterView,
    id: Option<u32>,
    limit: QoS,
) -> bool {
    &&& names(f.filter, sub)
    &&& is_lower(sub.qos, f.qos, limit)
    &&& sub.no_local == f.no_local
    &&& sub.retain_as_published == f.retain_as_published
    &&& sub.retain_handling == f.retain_handling
    &&& sub.subscription_identifier == id
}

/// Whether a filter of a SUBSCRIBE is granted: it is well formed, and the policy
/// lets the client subscribe to it.
pub open spec fn is_grantable(b: BrokerView, client_id: Seq<char>, filter: Seq<char>) -> bool {
    &&& topic::is_topic_filter(strip_share(filter))
    &&& topic::parsed(filter) matches Some((_, bare)) && b.acl.may_subscribe(
        b.who(client_id),
        bare,
    )
}

/// A filter of a SUBSCRIBE that is granted makes one subscription, with the
/// lower of the QoS that was asked for and the server's limit, in place of the
/// one that it names; the others stay. Its reason code is the number of that
/// QoS. The retained messages that match are to be sent where the subscription
/// is not shared and asks for them, always or as a new one. A stored session has
/// it stored. The result names the subscription and the retained messages.
pub proof fn granted_filter_subscribes(
    r: Subscribing,
    client_id: Seq<char>,
    f: TopicFilterView,
    id: Option<u32>,
    now: u64,
) -> (made: (SubscriptionView, Seq<int>))
    requires
        r.broker.wf(),
        !r.lost,
        is_grantable(r.broker, client_id, f.filter),
        r.broker.session(client_id) is Some,
    ensures
        ({
            let b = r.broker;
            let s = b.session(client_id)->0;
            let t = r.step(client_id, f, id, now);
            let (sub, ks) = made;
            let had = exists|k: int|
                0 <= k < s.subscriptions.len() && names(f.filter, #[trigger] s.subscriptions[k]);
            let wanted = sub.share_name is None && (f.retain_handling is SendAtSubscribe || (
            f.retain_handling is SendIfNewSubscription && !had));
            let w = t.broker.session(client_id)->0;
            let new = t.sends.skip(r.sends.len() as int);
            &&& !t.lost
            &&& is_asked_for(sub, f, id, b.config.maximum_qos)
            &&& t.broker.session(client_id) is Some
            &&& w == (SessionView { subscriptions: w.subscriptions, ..s })
            &&& w.subscriptions.contains(sub)
            &&& forall|x: SubscriptionView| #[trigger]
                w.subscriptions.contains(x) ==> x == sub || (s.subscriptions.contains(x))
            &&& forall|x: SubscriptionView|
                !names(f.filter, x) && #[trigger] s.subscriptions.contains(x)
                    ==> w.subscriptions.contains(x)
            &&& t.codes.len() == r.codes.len() + 1
            &&& t.codes.drop_last() == r.codes
            &&& t.codes.last().code() == sub.qos.code()
            &&& r.sends.is_prefix_of(t.sends)
            &&& !wanted ==> new.len() == 0
            &&& wanted ==> are_retained_deliveries(new, b.retained, ks, sub.filter, sub.qos, now)
            &&& !s.persistent ==> t.broker.storage == b.storage
            &&& s.persistent && b.storage.mode is Writer ==> t.broker.storage.commands
                == b.storage.commands.push(
                CommandView::UpsertSubscription {
                    client_id,
                    sub: crate::storage::SubRecordView {
                        filter: f.filter,
                        qos: sub.qos,
                        no_local: f.no_local,
                        retain_as_published: f.retain_as_published,
                        retain_handling: f.retain_handling,
                        subscription_identifier: id,
                    },
                },
            )
            &&& forall|other: Seq<char>|
                other != client_id ==> #[trigger] t.broker.session(other) == b.session(other)
        }),
{
    let b = r.broker;
    let s = b.session(client_id)->0;
    lemma_session(b, client_id);
    let sub = b.subscription_of(f, id);
    let t = r.step(client_id, f, id, now);
    let w = s.subscribed(sub);
    assert(w.wf());
    lemma_with(b, w);
    session::subscribing_sets_one_subscription(s, sub);
    lemma_subscribed_from(s, sub);
    assert forall|other: Seq<char>| other != client_id implies #[trigger] t.broker.session(other)
        == b.session(other) by {
        lemma_with_other(b, w, other);
        assert(t.broker.session(other) == b.with(w).session(other));
    }
    assert(t.broker.session(client_id) == b.with(w).session(client_id));
    assert forall|x: SubscriptionView|
        !names(f.filter, x) && #[trigger] s.subscriptions.contains(x) implies w.subscriptions.contains(
        x,
    ) by {
        assert(x.key() != sub.key());
        assert(s.subscriptions.contains(x) <==> s.subscribed(sub).subscriptions.contains(x));
    }
    if s.has_subscription(sub.key()) {
        let k = choose|k: int|
            0 <= k < sub_keys(s.subscriptions).len() && sub_keys(s.subscriptions)[k] == sub.key();
        assert(names(f.filter, s.subscriptions[k]));
    }
    if exists|k: int|
        0 <= k < s.subscriptions.len() && names(f.filter, #[trigger] s.subscriptions[k]) {
        let k = choose|k: int|
            0 <= k < s.subscriptions.len() && names(f.filter, #[trigger] s.subscriptions[k]);
        assert(sub_keys(s.subscriptions)[k] == sub.key());
    }
    assert(t.codes.drop_last() =~= r.codes);
    let ks = retained_deliveries_are_the_matches(b.retained, sub.filter, sub.qos, now);
    let new = t.sends.skip(r.sends.len() as int);
    if wants_retained(
        f.retain_handling,
        sub.share_name is Some,
        s.has_subscription(sub.key()),
    ) {
        assert(new =~= retained_for(b.retained, sub.filter, sub.qos, now));
    } else {
        assert(new.len() == 0);
    }
    (sub, ks)
}

proof fn lemma_subscribed_from(s: SessionView, sub: SubscriptionView)
    ensures
        forall|x: SubscriptionView| #[trigger]
            s.subscribed(sub).subscriptions.contains(x) ==> x == sub || s.subscriptions.contains(x),
{
    let after = s.subscribed(sub).subscriptions;
    text::lemma_first_place_is(sub_keys(s.subscriptions), sub.key());
    assert forall|x: SubscriptionView| #[trigger] after.contains(x) implies x == sub
        || s.subscriptions.contains(x) by {
        let k = choose|k: int| 0 <= k < after.len() && after[k] == x;
        if k < s.subscriptions.len() && x != sub {
            assert(s.subscriptions[k] == x);
        }
    }
}

/// A filter of a SUBSCRIBE that is not granted makes no subscription and sends
/// nothing. Its reason code is an error: that the client may not, where the
/// filter is well formed, and that the filter is invalid otherwise.
pub proof fn ungranted_filter_changes_nothing(
    r: Subscribing,
    client_id: Seq<char>,
    f: TopicFilterView,
    id: Option<u32>,
    now: u64,
)
    requires
        !r.lost,
        !is_grantable(r.broker, client_id, f.filter),
    ensures
        ({
            let t = r.step(client_id, f, id, now);
            let well_formed = topic::is_topic_filter(strip_share(f.filter)) && topic::parsed(
                f.filter,
            ) is Some;
            &&& t.broker == r.broker
            &&& t.sends == r.sends
            &&& !t.lost
            &&& t.codes == r.codes.push(
                if well_formed {
                    ReasonCode::NotAuthorized
                } else {
                    ReasonCode::TopicFilterInvalid
                },
            )
        }),
{
}

proof fn lemma_sending_keeps(
    b: BrokerView,
    client_id: Seq<char>,
    sends: Seq<(MessageView, QoS)>,
    ids: Seq<u32>,
    now: u64,
)
    requires
        b.wf(),
        b.session(client_id) is Some,
    ensures
        ({
            let s = b.session(client_id)->0;
            let t = b.sending_all(client_id, sends, ids, now);
            let w = t.session(client_id)->0;
            &&& t.wf()
            &&& t.session(client_id) is Some
            &&& w.subscriptions == s.subscriptions
            &&& w.online() == s.online()
            &&& s.out is Some ==> (s.out->0).is_prefix_of(w.out->0)
            &&& forall|other: Seq<char>|
                other != client_id ==> #[trigger] t.session(other) == b.session(other)
        }),
    decreases sends.len(),
{
    if sends.len() > 0 {
        lemma_sending_keeps(b, client_id, sends.drop_last(), ids, now);
        let u = b.sending_all(client_id, sends.drop_last(), ids, now);
        let t = b.sending_all(client_id, sends, ids, now);
        lemma_session(u, client_id);
        let v = u.session(client_id)->0;
        let (m, qos) = sends.last();
        let max = u.config.max_queued_messages as nat;
        session::delivery_keeps_session_wf(v, m, qos, true, ids, max, now);
        routing::delivery_keeps_the_rest(v, m, qos, true, ids, max, now);
        let w = v.delivered(m, qos, true, ids, max, now);
        lemma_with(u, w);
        assert(t.sessions == u.with(w).sessions);
        assert(t.session(client_id) == u.with(w).session(client_id));
        assert forall|other: Seq<char>| other != client_id implies #[trigger] t.session(other)
            == b.session(other) by {
            lemma_with_other(u, w, other);
            assert(t.session(other) == u.with(w).session(other));
        }
    }
}

/// The SUBACK of a SUBSCRIBE goes out before any retained message: it is the
/// next item on its way to the client, with the packet identifier of the
/// SUBSCRIBE and a reason code for each filter. No session but that of the
/// client changes.
pub proof fn suback_goes_first(
    b: BrokerView,
    client_id: Seq<char>,
    p: SubscribeView,
    now: u64,
) -> (codes: Seq<ReasonCode>)
    requires
        b.wf(),
        b.session(client_id) matches Some(s) && s.online(),
    ensures
        ({
            let items = (b.session(client_id)->0).out->0;
            let (t, action) = b.on_packet(client_id, PacketView::Subscribe(p), now);
            let w = t.session(client_id)->0;
            &&& action == Action::Continue
            &&& codes.len() == p.filters.len()
            &&& t.session(client_id) is Some
            &&& w.out is Some
            &&& items.push(
                OutgoingView::Control(
                    PacketView::Suback(
                        SubAckView {
                            packet_id: p.packet_id,
                            properties: PropertiesView::empty(),
                            reason_codes: codes,
                        },
                    ),
                ),
            ).is_prefix_of(w.out->0)
            &&& forall|i: int|
                0 <= i < codes.len() ==> ((#[trigger] codes[i]).code() < 0x80 <==> is_grantable(
                    b,
                    client_id,
                    p.filters[i].filter,
                ))
            &&& forall|i: int|
                0 <= i < codes.len() && #[trigger] is_grantable(
                    b,
                    client_id,
                    p.filters[i].filter,
                ) ==> has_named(w.subscriptions, p.filters[i].filter)
            &&& forall|other: Seq<char>|
                other != client_id ==> #[trigger] t.session(other) == b.session(other)
        }),
{
    let id = first_identifier(p.properties);
    lemma_subscribing(b, client_id, p.filters, id, now);
    let r = b.subscribing(client_id, p.filters, id, now);
    let item = OutgoingView::Control(
        PacketView::Suback(
            SubAckView {
                packet_id: p.packet_id,
                properties: PropertiesView::empty(),
                reason_codes: r.codes,
            },
        ),
    );
    let v = r.broker.session(client_id)->0;
    lemma_session(r.broker, client_id);
    assert(v.sent(item).wf());
    lemma_differs(r.broker, v.sent(item));
    let m = r.broker.sent_to(client_id, item);
    lemma_sending_keeps(m, client_id, r.sends, identifiers(id), now);
    r.codes
}

/// Whether there is a subscription that a filter names.
pub open spec fn has_named(subs: Seq<SubscriptionView>, filter: Seq<char>) -> bool {
    exists|k: int| 0 <= k < subs.len() && names(filter, #[trigger] subs[k])
}

proof fn lemma_named_stays(s: SessionView, sub: SubscriptionView, filter: Seq<char>)
    requires
        has_named(s.subscriptions, filter) || names(filter, sub),
    ensures
        has_named(s.subscribed(sub).subscriptions, filter),
{
    let w = s.subscribed(sub).subscriptions;
    session::subscribing_sets_one_subscription(s, sub);
    if names(filter, sub) {
        let j = choose|j: int| 0 <= j < w.len() && w[j] == sub;
        assert(names(filter, w[j]));
    } else {
        let k = choose|k: int|
            0 <= k < s.subscriptions.len() && names(filter, #[trigger] s.subscriptions[k]);
        let x = s.subscriptions[k];
        lemma_names_is_key(filter, x);
        lemma_names_is_key(filter, sub);
        assert(s.subscriptions.contains(x));
        assert(w.contains(x));
        let j = choose|j: int| 0 <= j < w.len() && w[j] == x;
        assert(names(filter, w[j]));
    }
}

proof fn lemma_subscribing(
    b: BrokerView,
    client_id: Seq<char>,
    filters: Seq<TopicFilterView>,
    id: Option<u32>,
    now: u64,
)
    requires
        b.wf(),
        b.session(client_id) is Some,
    ensures
        ({
            let r = b.subscribing(client_id, filters, id, now);
            let s = b.session(client_id)->0;
            let w = r.broker.session(client_id)->0;
            &&& !r.lost
            &&& r.broker.wf()
            &&& r.broker.acl == b.acl
            &&& r.broker.session(client_id) is Some
            &&& w == (SessionView { subscriptions: w.subscriptions, ..s })
            &&& r.codes.len() == filters.len()
            &&& forall|i: int|
                0 <= i < r.codes.len() ==> ((#[trigger] r.codes[i]).code() < 0x80 <==> is_grantable(
                    b,
                    client_id,
                    filters[i].filter,
                ))
            &&& forall|i: int|
                0 <= i < r.codes.len() && #[trigger] is_grantable(
                    b,
                    client_id,
                    filters[i].filter,
                ) ==> has_named(w.subscriptions, filters[i].filter)
            &&& forall|other: Seq<char>|
                other != client_id ==> #[trigger] r.broker.session(other) == b.session(other)
        }),
    decreases filters.len(),
{
    lemma_session(b, client_id);
    if filters.len() > 0 {
        let d = filters.drop_last();
        lemma_subscribing(b, client_id, d, id, now);
        let q = b.subscribing(client_id, d, id, now);
        let r = b.subscribing(client_id, filters, id, now);
        let f = filters.last();
        lemma_session(q.broker, client_id);
        assert(q.broker.who(client_id) == b.who(client_id));
        assert(is_grantable(q.broker, client_id, f.filter) == is_grantable(b, client_id, f.filter));
        let s = q.broker.session(client_id)->0;
        let sub = q.broker.subscription_of(f, id);
        if is_grantable(b, client_id, f.filter) {
            let made = granted_filter_subscribes(q, client_id, f, id, now);
            assert(s.subscribed(sub).wf());
            lemma_with(q.broker, s.subscribed(sub));
            assert(r.broker.session(client_id) == q.broker.with(s.subscribed(sub)).session(
                client_id,
            ));
        } else {
            ungranted_filter_changes_nothing(q, client_id, f, id, now);
        }
        let w = r.broker.session(client_id)->0;
        assert forall|i: int| 0 <= i < r.codes.len() implies ((#[trigger] r.codes[i]).code() < 0x80
            <==> is_grantable(b, client_id, filters[i].filter)) by {
            if i < d.len() {
                assert(r.codes[i] == q.codes[i]);
                assert(d[i] == filters[i]);
            }
        }
        assert forall|i: int|
            0 <= i < r.codes.len() && #[trigger] is_grantable(
                b,
                client_id,
                filters[i].filter,
            ) implies has_named(w.subscriptions, filters[i].filter) by {
            if i < d.len() {
                assert(d[i] == filters[i]);
                assert(has_named(s.subscriptions, d[i].filter));
                if is_grantable(b, client_id, f.filter) {
                    lemma_named_stays(s, sub, filters[i].filter);
                }
            } else {
                assert(names(f.filter, sub));
                lemma_named_stays(s, sub, f.filter);
            }
        }
    }
}

/// A session after retained messages were delivered to it, each with RETAIN set
/// and with the identifier of the SUBSCRIBE.
pub open spec fn with_sends(
    s: SessionView,
    sends: Seq<(MessageView, QoS)>,
    ids: Seq<u32>,
    max_queued: nat,
    now: u64,
) -> SessionView
    decreases sends.len(),
{
    if sends.len() == 0 {
        s
    } else {
        with_sends(s, sends.drop_last(), ids, max_queued, now).delivered(
            sends.last().0,
            sends.last().1,
            true,
            ids,
            max_queued,
            now,
        )
    }
}

proof fn lemma_sends(
    b: BrokerView,
    client_id: Seq<char>,
    sends: Seq<(MessageView, QoS)>,
    ids: Seq<u32>,
    now: u64,
)
    requires
        b.wf(),
        b.session(client_id) is Some,
    ensures
        b.sending_all(client_id, sends, ids, now).session(client_id) == Some(
            with_sends(
                b.session(client_id)->0,
                sends,
                ids,
                b.config.max_queued_messages as nat,
                now,
            ),
        ),
        b.sending_all(client_id, sends, ids, now).config == b.config,
        b.sending_all(client_id, sends, ids, now).wf(),
    decreases sends.len(),
{
    if sends.len() > 0 {
        lemma_sends(b, client_id, sends.drop_last(), ids, now);
        let u = b.sending_all(client_id, sends.drop_last(), ids, now);
        let t = b.sending_all(client_id, sends, ids, now);
        lemma_session(u, client_id);
        let v = u.session(client_id)->0;
        let (m, qos) = sends.last();
        let max = u.config.max_queued_messages as nat;
        session::delivery_keeps_session_wf(v, m, qos, true, ids, max, now);
        routing::delivery_keeps_the_rest(v, m, qos, true, ids, max, now);
        let w = v.delivered(m, qos, true, ids, max, now);
        lemma_with(u, w);
        assert(t.session(client_id) == u.with(w).session(client_id));
    }
}

/// After its SUBACK a client is delivered the retained messages that its filters
/// asked for, one after another, each with RETAIN set and with the first
/// subscription identifier of the SUBSCRIBE, where it has one.
pub proof fn retained_messages_follow_the_suback(
    b: BrokerView,
    client_id: Seq<char>,
    p: SubscribeView,
    now: u64,
)
    requires
        b.wf(),
        b.session(client_id) is Some,
    ensures
        ({
            let found = p.properties.subscription_identifiers;
            let ids: Seq<u32> = if found.len() > 0 {
                seq![found[0]]
            } else {
                Seq::empty()
            };
            let id = if found.len() > 0 {
                Some(found[0])
            } else {
                None
            };
            let r = b.subscribing(client_id, p.filters, id, now);
            let v = r.broker.session(client_id)->0;
            let t = b.on_packet(client_id, PacketView::Subscribe(p), now).0;
            &&& r.broker.session(client_id) is Some
            &&& t.session(client_id) == Some(
                with_sends(
                    SessionView {
                        out: with_packet(
                            v.out,
                            PacketView::Suback(
                                SubAckView {
                                    packet_id: p.packet_id,
                                    properties: PropertiesView::empty(),
                                    reason_codes: r.codes,
                                },
                            ),
                        ),
                        ..v
                    },
                    r.sends,
                    ids,
                    b.config.max_queued_messages as nat,
                    now,
                ),
            )
        }),
{
    let id = first_identifier(p.properties);
    lemma_subscribing(b, client_id, p.filters, id, now);
    lemma_subscribing_config(b, client_id, p.filters, id, now);
    let r = b.subscribing(client_id, p.filters, id, now);
    let item = OutgoingView::Control(
        PacketView::Suback(
            SubAckView {
                packet_id: p.packet_id,
                properties: PropertiesView::empty(),
                reason_codes: r.codes,
            },
        ),
    );
    let v = r.broker.session(client_id)->0;
    lemma_session(r.broker, client_id);
    assert(v.sent(item).wf());
    lemma_differs(r.broker, v.sent(item));
    let m = r.broker.sent_to(client_id, item);
    lemma_sends(m, client_id, r.sends, identifiers(id), now);
}

proof fn lemma_subscribing_config(
    b: BrokerView,
    client_id: Seq<char>,
    filters: Seq<TopicFilterView>,
    id: Option<u32>,
    now: u64,
)
    ensures
        b.subscribing(client_id, filters, id, now).broker.config == b.config,
        b.subscribing(client_id, filters, id, now).broker.retained == b.retained,
    decreases filters.len(),
{
    if filters.len() > 0 {
        lemma_subscribing_config(b, client_id, filters.drop_last(), id, now);
    }
}

/// What is looked at for the validity of a filter is the filter without its
/// share, where it has one, and the whole of it otherwise.
pub proof fn share_is_left_aside(name: Seq<char>, bare: Seq<char>, filter: Seq<char>)
    requires
        !name.contains('/'),
    ensures
        strip_share("$share/"@ + name + seq!['/'] + bare) == bare,
        !text::has_prefix(filter, "$share/"@) ==> strip_share(filter) == filter,
{
    reveal_strlit("$share/");
    let input = "$share/"@ + name + seq!['/'] + bare;
    assert(input.take(7) =~= "$share/"@);
    let rest = input.skip(7);
    assert(rest =~= name + seq!['/'] + bare);
    assert forall|j: int| 0 <= j < name.len() implies #[trigger] rest[j] != '/' by {
        assert(rest[j] == name[j]);
        assert(name.contains(name[j]));
    }
    assert(rest[name.len() as int] == '/');
    text::lemma_first_place(rest, '/', name.len() as int);
    assert(rest.skip(name.len() as int + 1) =~= bare);
}

proof fn lemma_nobody_unsubscribes(b: BrokerView, client_id: Seq<char>, filters: Seq<Seq<char>>)
    requires
        b.session(client_id) is None,
    ensures
        b.unsubscribing_all(client_id, filters).0 == b,
    decreases filters.len(),
{
    if filters.len() > 0 {
        lemma_nobody_unsubscribes(b, client_id, filters.drop_last());
    }
}

/// A packet for which there is no session changes nothing: acknowledgements,
/// UNSUBSCRIBE and pings are passed over; a SUBSCRIBE that would be granted ends
/// the connection.
pub proof fn without_a_session_nothing_changes(
    b: BrokerView,
    client_id: Seq<char>,
    p: PacketView,
    now: u64,
)
    requires
        b.session(client_id) is None,
    ensures
        p is Puback || p is Pubrec || p is Pubrel || p is Pubcomp || p is Unsubscribe || p is Pingreq
            ==> b.on_packet(client_id, p, now) == (b, Action::Continue),
        p matches PacketView::Subscribe(x) ==> (x.filters.len() == 1 && is_grantable(
            b,
            client_id,
            x.filters[0].filter,
        ) ==> b.on_packet(client_id, p, now) == (
            b,
            Action::ServerDisconnect(ReasonCode::UnspecifiedError),
        )),
{
    match p {
        PacketView::Unsubscribe(u) => {
            lemma_nobody_unsubscribes(b, client_id, u.filters);
        },
        PacketView::Subscribe(x) => {
            if x.filters.len() == 1 {
                let id = first_identifier(x.properties);
                let d = x.filters.drop_last();
                assert(d.len() == 0);
                assert(b.subscribing(client_id, d, id, now).broker == b);
                assert(x.filters.last() == x.filters[0]);
            }
        },
        _ => {},
    }
}

} // verus!
