//! Laws of routing: which subscriptions a message reaches, at what QoS, with
//! which RETAIN flag and identifiers, and which sessions change.

use vstd::prelude::*;
use crate::broker::delivery_laws::goes_up;
use crate::broker::routing;
use crate::broker::routing::{
    all_given, all_offered, chosen, given, group_keys, groups_of, groups_with, ids, joined, offer,
    offer_count, offered, place, routed, session_offer, sessions_wf, CandidateView, GroupView,
};
use crate::broker::session::{SessionView, SubscriptionView};
use crate::broker::subscribe_laws::is_lower;
use crate::message::MessageView;
use crate::text;
use crate::topic;
use crate::types::QoS;

verus! {

/// Whether a subscription of a client takes a message: its filter matches the
/// topic, and it is not the client's own message where the subscription does
/// not want those.
pub open spec fn takes(
    sub: SubscriptionView,
    client_id: Seq<char>,
    publisher: Option<Seq<char>>,
    m: MessageView,
) -> bool {
    &&& topic::is_match(sub.filter, m.topic)
    &&& sub.no_local ==> publisher != Some(client_id)
}

/// Whether subscription identifiers are those of one subscription.
pub open spec fn are_ids_of(found: Seq<u32>, sub: SubscriptionView) -> bool {
    match sub.subscription_identifier {
        Some(n) => found.len() == 1 && found[0] == n,
        None => found.len() == 0,
    }
}

/// Whether a member of a group stands for a shared subscription of a client: it
/// is sent the message at the lower of its QoS and that of the subscription,
/// with RETAIN exactly where the subscription keeps it and the message has it,
/// and with the identifiers of the subscription.
pub open spec fn stands_for(
    c: CandidateView,
    sub: SubscriptionView,
    client_id: Seq<char>,
    m: MessageView,
) -> bool {
    &&& c.client_id == client_id
    &&& is_lower(c.qos, m.qos, sub.qos)
    &&& c.retain <==> sub.retain_as_published && m.retain
    &&& are_ids_of(c.ids, sub)
}

/// Whether a shared subscription is one of a group and takes a message.
pub open spec fn belongs(
    sub: SubscriptionView,
    client_id: Seq<char>,
    key: (Seq<char>, Seq<char>),
    publisher: Option<Seq<char>>,
    m: MessageView,
) -> bool {
    &&& sub.share_name == Some(key.0)
    &&& sub.filter == key.1
    &&& takes(sub, client_id, publisher, m)
}

/// The members of the group of a key; none where there is no such group.
pub open spec fn members_under(groups: Seq<GroupView>, key: (Seq<char>, Seq<char>)) -> Seq<
    CandidateView,
> {
    let i = text::first_place(group_keys(groups), key);
    if i < groups.len() {
        groups[i].members
    } else {
        Seq::empty()
    }
}

/// Whether no two groups have one key and each has a member.
pub open spec fn well_grouped(groups: Seq<GroupView>) -> bool {
    &&& forall|a: int, b: int|
        0 <= a < b < groups.len() ==> (#[trigger] groups[a]).key != (#[trigger] groups[b]).key
    &&& forall|a: int| 0 <= a < groups.len() ==> (#[trigger] groups[a]).members.len() > 0
}

proof fn lemma_joined(
    groups: Seq<GroupView>,
    key: (Seq<char>, Seq<char>),
    c: CandidateView,
    other: (Seq<char>, Seq<char>),
)
    requires
        well_grouped(groups),
    ensures
        well_grouped(joined(groups, key, c)),
        members_under(joined(groups, key, c), other) == (if other == key {
            members_under(groups, key).push(c)
        } else {
            members_under(groups, other)
        }),
{
    let k = group_keys(groups);
    let i = text::first_place(k, key);
    let j = text::first_place(k, other);
    text::lemma_first_place_is(k, key);
    text::lemma_first_place_is(k, other);
    let after = joined(groups, key, c);
    let ak = group_keys(after);
    if i < groups.len() {
        assert(ak =~= k);
        assert forall|a: int, b: int| 0 <= a < b < after.len() implies (#[trigger] after[a]).key != (
        #[trigger] after[b]).key by {
            assert(groups[a].key != groups[b].key);
            assert(ak[a] == k[a] && ak[b] == k[b]);
        }
        assert forall|a: int| 0 <= a < after.len() implies (#[trigger] after[a]).members.len() > 0 by {
            assert(groups[a].members.len() > 0);
        }
    } else {
        assert(ak =~= k.push(key));
        assert forall|a: int, b: int| 0 <= a < b < after.len() implies (#[trigger] after[a]).key != (
        #[trigger] after[b]).key by {
            if b < groups.len() {
                assert(groups[a].key != groups[b].key);
            } else {
                assert(k[a] != key);
            }
        }
        assert forall|a: int| 0 <= a < after.len() implies (#[trigger] after[a]).members.len() > 0 by {
            if a < groups.len() {
                assert(groups[a].members.len() > 0);
            }
        }
        if j < groups.len() {
            assert forall|x: int| 0 <= x < j implies #[trigger] ak[x] != other by {
                assert(k[x] != other);
            }
            assert(ak[j] == k[j]);
            text::lemma_first_place(ak, other, j);
        } else if other == key {
            assert forall|x: int| 0 <= x < i implies #[trigger] ak[x] != other by {
                assert(k[x] != key);
            }
            text::lemma_first_place(ak, other, i);
            assert(members_under(after, other) =~= Seq::<CandidateView>::empty().push(c));
        } else {
            assert forall|x: int| 0 <= x < ak.len() implies #[trigger] ak[x] != other by {
                if x < k.len() {
                    assert(k[x] != other);
                }
            }
            text::lemma_first_place(ak, other, ak.len() as int);
        }
    }
}

/// Whether a member stands for a shared subscription of a client that belongs to
/// its group.
pub open spec fn is_member_for(
    c: CandidateView,
    sub: SubscriptionView,
    client_id: Seq<char>,
    key: (Seq<char>, Seq<char>),
    publisher: Option<Seq<char>>,
    m: MessageView,
) -> bool {
    belongs(sub, client_id, key, publisher, m) && stands_for(c, sub, client_id, m)
}

/// Whether members stand for the subscriptions of a client at the given places,
/// which are those that belong to a group.
pub open spec fn stand_for_all(
    members: Seq<CandidateView>,
    subs: Seq<SubscriptionView>,
    js: Seq<int>,
    client_id: Seq<char>,
    key: (Seq<char>, Seq<char>),
    publisher: Option<Seq<char>>,
    m: MessageView,
) -> bool {
    &&& members.len() == js.len()
    &&& goes_up(js, subs.len() as int)
    &&& forall|k: int|
        0 <= k < js.len() ==> is_member_for(
            #[trigger] members[k],
            subs[js[k]],
            client_id,
            key,
            publisher,
            m,
        )
    &&& forall|j: int|
        0 <= j < subs.len() && belongs(#[trigger] subs[j], client_id, key, publisher, m)
            ==> js.contains(j)
}

/// The shared subscriptions of a client add one member each to their groups.
proof fn lemma_groups_with(
    groups: Seq<GroupView>,
    subs: Seq<SubscriptionView>,
    client_id: Seq<char>,
    publisher: Option<Seq<char>>,
    m: MessageView,
    key: (Seq<char>, Seq<char>),
) -> (r: (Seq<CandidateView>, Seq<int>))
    requires
        well_grouped(groups),
    ensures
        well_grouped(groups_with(groups, subs, client_id, publisher, m)),
        members_under(groups_with(groups, subs, client_id, publisher, m), key) == members_under(
            groups,
            key,
        ) + r.0,
        stand_for_all(r.0, subs, r.1, client_id, key, publisher, m),
    decreases subs.len(),
{
    let base = members_under(groups, key);
    if subs.len() == 0 {
        assert(base + Seq::<CandidateView>::empty() =~= base);
        (Seq::empty(), Seq::empty())
    } else {
        let d = subs.drop_last();
        let g = groups_with(groups, d, client_id, publisher, m);
        let (before, is) = lemma_groups_with(groups, d, client_id, publisher, m, key);
        let sub = subs.last();
        let last = subs.len() - 1;
        let mine = belongs(sub, client_id, key, publisher, m);
        let (new, js) = if mine {
            (before.push(routing::candidate(sub, client_id, m)), is.push(last))
        } else {
            (before, is)
        };
        if routing::hits(sub, client_id, publisher, m) && sub.share_name is Some {
            let at = (sub.share_name->0, sub.filter);
            lemma_joined(g, at, routing::candidate(sub, client_id, m), key);
            assert((base + before).push(routing::candidate(sub, client_id, m)) =~= base
                + before.push(routing::candidate(sub, client_id, m)));
        }
        assert(goes_up(js, subs.len() as int)) by {
            assert forall|a: int, b: int| 0 <= a < b < js.len() implies #[trigger] js[a]
                < #[trigger] js[b] by {
                if b < is.len() {
                    assert(is[a] < is[b]);
                } else {
                    assert(is[a] < d.len());
                }
            }
        }
        assert forall|k: int| 0 <= k < js.len() implies is_member_for(
            #[trigger] new[k],
            subs[js[k]],
            client_id,
            key,
            publisher,
            m,
        ) by {
            if k < is.len() {
                assert(before[k] == new[k]);
                assert(0 <= is[k] < d.len());
                assert(d[is[k]] == subs[js[k]]);
                assert(is_member_for(before[k], d[is[k]], client_id, key, publisher, m));
            }
        }
        assert forall|j: int|
            0 <= j < subs.len() && belongs(
                #[trigger] subs[j],
                client_id,
                key,
                publisher,
                m,
            ) implies js.contains(j) by {
            if j < last {
                assert(d[j] == subs[j]);
                assert(is.contains(j));
                let k = choose|k: int| 0 <= k < is.len() && is[k] == j;
                assert(js[k] == j);
            } else {
                assert(js[is.len() as int] == j);
            }
        }
        (new, js)
    }
}

/// Whether a place (of a session and of a subscription in it) comes before
/// another.
pub open spec fn comes_before(a: (int, int), b: (int, int)) -> bool {
    a.0 < b.0 || (a.0 == b.0 && a.1 < b.1)
}

/// Whether a place is that of a subscription of a session.
pub open spec fn is_place(s: Seq<SessionView>, at: (int, int)) -> bool {
    0 <= at.0 < s.len() && 0 <= at.1 < s[at.0].subscriptions.len()
}

/// Whether a member stands for the shared subscription at a place.
pub open spec fn is_member_at(
    c: CandidateView,
    s: Seq<SessionView>,
    at: (int, int),
    key: (Seq<char>, Seq<char>),
    publisher: Option<Seq<char>>,
    m: MessageView,
) -> bool {
    is_place(s, at) && is_member_for(
        c,
        s[at.0].subscriptions[at.1],
        s[at.0].client_id,
        key,
        publisher,
        m,
    )
}

/// Whether the members of a group are those shared subscriptions of all
/// sessions that belong to it, each once and in order.
pub open spec fn are_members(
    members: Seq<CandidateView>,
    s: Seq<SessionView>,
    at: Seq<(int, int)>,
    key: (Seq<char>, Seq<char>),
    publisher: Option<Seq<char>>,
    m: MessageView,
) -> bool {
    &&& members.len() == at.len()
    &&& forall|k: int|
        0 <= k < at.len() ==> is_member_at(#[trigger] members[k], s, at[k], key, publisher, m)
    &&& forall|a: int, b: int|
        0 <= a < b < at.len() ==> comes_before(#[trigger] at[a], #[trigger] at[b])
    &&& forall|i: int, j: int|
        is_place(s, (i, j)) && belongs(
            #[trigger] s[i].subscriptions[j],
            s[i].client_id,
            key,
            publisher,
            m,
        ) ==> at.contains((i, j))
}

/// The members of a group are exactly the shared subscriptions with its share
/// name and filter that take the message, each once, in order: for each of them
/// the member is of its client, at the lower of the QoS of the message and that
/// of the subscription, with RETAIN exactly where the subscription keeps it and
/// the message has it, and with the identifiers of the subscription. The result
/// names them.
pub proof fn members_are_the_shared_subscriptions(
    s: Seq<SessionView>,
    publisher: Option<Seq<char>>,
    m: MessageView,
    key: (Seq<char>, Seq<char>),
) -> (at: Seq<(int, int)>)
    ensures
        well_grouped(groups_of(s, publisher, m)),
        are_members(members_under(groups_of(s, publisher, m), key), s, at, key, publisher, m),
    decreases s.len(),
{
    if s.len() == 0 {
        Seq::empty()
    } else {
        let d = s.drop_last();
        let bs = members_are_the_shared_subscriptions(d, publisher, m, key);
        let before = members_under(groups_of(d, publisher, m), key);
        let x = s.last();
        let last = s.len() - 1;
        let (new, js) = lemma_groups_with(
            groups_of(d, publisher, m),
            x.subscriptions,
            x.client_id,
            publisher,
            m,
            key,
        );
        let all = members_under(groups_of(s, publisher, m), key);
        let at = bs + Seq::new(js.len(), |k: int| (last, js[k]));
        assert forall|k: int| 0 <= k < at.len() implies is_member_at(
            #[trigger] all[k],
            s,
            at[k],
            key,
            publisher,
            m,
        ) by {
            if k < bs.len() {
                assert(all[k] == before[k]);
                assert(at[k] == bs[k]);
                assert(is_member_at(before[k], d, bs[k], key, publisher, m));
                assert(d[bs[k].0] == s[at[k].0]);
            } else {
                let i = k - bs.len();
                assert(all[k] == new[i]);
                assert(0 <= js[i] < x.subscriptions.len());
                assert(is_member_for(
                    new[i],
                    x.subscriptions[js[i]],
                    x.client_id,
                    key,
                    publisher,
                    m,
                ));
            }
        }
        assert forall|a: int, b: int| 0 <= a < b < at.len() implies comes_before(
            #[trigger] at[a],
            #[trigger] at[b],
        ) by {
            if b < bs.len() {
                assert(comes_before(bs[a], bs[b]));
            } else if a < bs.len() {
                assert(is_member_at(before[a], d, bs[a], key, publisher, m));
            } else {
                assert(js[a - bs.len()] < js[b - bs.len()]);
            }
        }
        assert forall|i: int, j: int|
            is_place(s, (i, j)) && belongs(
                #[trigger] s[i].subscriptions[j],
                s[i].client_id,
                key,
                publisher,
                m,
            ) implies at.contains((i, j)) by {
            if i < last {
                assert(d[i] == s[i]);
                assert(is_place(d, (i, j)));
                assert(belongs(d[i].subscriptions[j], d[i].client_id, key, publisher, m));
                assert(bs.contains((i, j)));
                let k = choose|k: int| 0 <= k < bs.len() && bs[k] == (i, j);
                assert(at[k] == (i, j));
            } else {
                assert(belongs(x.subscriptions[j], x.client_id, key, publisher, m));
                assert(js.contains(j));
                let k = choose|k: int| 0 <= k < js.len() && js[k] == j;
                assert(at[bs.len() + k] == (i, j));
            }
        }
        at
    }
}

/// Every shared subscription that takes a message has a member in the group of
/// its share name and filter. The result is the place of the group and of the
/// member in it.
pub proof fn shared_subscription_has_its_member(
    s: Seq<SessionView>,
    publisher: Option<Seq<char>>,
    m: MessageView,
    i: int,
    j: int,
) -> (at: (int, int))
    requires
        is_place(s, (i, j)),
        s[i].subscriptions[j].share_name is Some,
        takes(s[i].subscriptions[j], s[i].client_id, publisher, m),
    ensures
        ({
            let groups = groups_of(s, publisher, m);
            let sub = s[i].subscriptions[j];
            &&& 0 <= at.0 < groups.len()
            &&& groups[at.0].key == (sub.share_name->0, sub.filter)
            &&& 0 <= at.1 < groups[at.0].members.len()
            &&& stands_for(groups[at.0].members[at.1], sub, s[i].client_id, m)
        }),
{
    let sub = s[i].subscriptions[j];
    let key = (sub.share_name->0, sub.filter);
    let groups = groups_of(s, publisher, m);
    let places = members_are_the_shared_subscriptions(s, publisher, m, key);
    assert(belongs(s[i].subscriptions[j], s[i].client_id, key, publisher, m));
    assert(places.contains((i, j)));
    let k = choose|k: int| 0 <= k < places.len() && places[k] == (i, j);
    let all = members_under(groups, key);
    assert(is_member_at(all[k], s, places[k], key, publisher, m));
    let g = text::first_place(group_keys(groups), key);
    text::lemma_first_place_is(group_keys(groups), key);
    assert(all.len() > 0);
    assert(group_keys(groups)[g] == key);
    (g, k)
}

/// Every member of a group comes from a shared subscription that takes the
/// message and has the share name and filter of the group. The result is the
/// place of its session and of the subscription in it.
pub proof fn member_comes_from_a_shared_subscription(
    s: Seq<SessionView>,
    publisher: Option<Seq<char>>,
    m: MessageView,
    g: int,
    k: int,
) -> (at: (int, int))
    requires
        0 <= g < groups_of(s, publisher, m).len(),
        0 <= k < groups_of(s, publisher, m)[g].members.len(),
    ensures
        ({
            let group = groups_of(s, publisher, m)[g];
            let sub = s[at.0].subscriptions[at.1];
            &&& is_place(s, at)
            &&& group.key == (sub.share_name->0, sub.filter)
            &&& sub.share_name is Some
            &&& takes(sub, s[at.0].client_id, publisher, m)
            &&& stands_for(group.members[k], sub, s[at.0].client_id, m)
        }),
{
    let groups = groups_of(s, publisher, m);
    let key = groups[g].key;
    let places = members_are_the_shared_subscriptions(s, publisher, m, key);
    let first = text::first_place(group_keys(groups), key);
    text::lemma_first_place_is(group_keys(groups), key);
    assert(group_keys(groups)[g] == key);
    if first < g {
        assert(groups[first].key != groups[g].key);
    } else if g < first {
        assert(groups[g].key != groups[first].key);
    }
    let all = members_under(groups, key);
    assert(all[k] == groups[g].members[k]);
    assert(is_member_at(all[k], s, places[k], key, publisher, m));
    places[k]
}

/// Each message goes to exactly one member of each shared subscription that
/// takes it, and moves the turn of that one on by one.
pub proof fn each_shared_subscription_has_one_turn(
    s: Seq<SessionView>,
    turns: Map<(Seq<char>, Seq<char>), u64>,
    publisher: Option<Seq<char>>,
    m: MessageView,
    g: int,
)
    requires
        0 <= g < groups_of(s, publisher, m).len(),
        groups_of(s, publisher, m)[g].members.len() <= u64::MAX,
    ensures
        ({
            let groups = groups_of(s, publisher, m);
            let to = chosen(turns, groups);
            let t = if turns.contains_key(groups[g].key) {
                turns[groups[g].key] as int
            } else {
                0int
            };
            let after = routing::turned(turns, groups);
            &&& to.len() == groups.len()
            &&& to[g] == groups[g].members[t % (groups[g].members.len() as int)]
            &&& after.contains_key(groups[g].key)
            &&& t < u64::MAX ==> after[groups[g].key] == t + 1
        }),
{
    let groups = groups_of(s, publisher, m);
    let at = members_are_the_shared_subscriptions(s, publisher, m, groups[g].key);
    lemma_turns(turns, groups, g);
}

proof fn lemma_turns(
    turns: Map<(Seq<char>, Seq<char>), u64>,
    groups: Seq<GroupView>,
    g: int,
)
    requires
        well_grouped(groups),
        0 <= g < groups.len(),
        groups[g].members.len() <= u64::MAX,
    ensures
        chosen(turns, groups).len() == groups.len(),
        chosen(turns, groups)[g] == groups[g].members[(routing::turn(turns, groups[g].key) as int)
            % (groups[g].members.len() as int)],
        routing::turned(turns, groups).contains_key(groups[g].key),
        routing::turned(turns, groups)[groups[g].key] == crate::metrics::counted(
            routing::turn(turns, groups[g].key),
            1,
        ),
    decreases groups.len(),
{
    let d = groups.drop_last();
    assert(well_grouped(d)) by {
        assert forall|a: int, b: int| 0 <= a < b < d.len() implies (#[trigger] d[a]).key != (
        #[trigger] d[b]).key by {
            assert(groups[a].key != groups[b].key);
        }
        assert forall|a: int| 0 <= a < d.len() implies (#[trigger] d[a]).members.len() > 0 by {
            assert(groups[a].members.len() > 0);
        }
    }
    lemma_chosen_len(turns, d);
    assert(groups[g].members.len() > 0);
    if g < d.len() {
        lemma_turns(turns, d, g);
        assert(groups[g].key != groups[groups.len() - 1].key);
        assert(d[g] == groups[g]);
    } else {
        assert forall|a: int| 0 <= a < d.len() implies (#[trigger] d[a]).key != groups[g].key by {
            assert(groups[a].key != groups[g].key);
        }
        lemma_turn_elsewhere(turns, d, groups[g].key);
    }
}

proof fn lemma_chosen_len(turns: Map<(Seq<char>, Seq<char>), u64>, groups: Seq<GroupView>)
    ensures
        chosen(turns, groups).len() == groups.len(),
    decreases groups.len(),
{
    if groups.len() > 0 {
        lemma_chosen_len(turns, groups.drop_last());
    }
}

proof fn lemma_turn_elsewhere(
    turns: Map<(Seq<char>, Seq<char>), u64>,
    groups: Seq<GroupView>,
    key: (Seq<char>, Seq<char>),
)
    requires
        forall|a: int| 0 <= a < groups.len() ==> (#[trigger] groups[a]).key != key,
    ensures
        routing::turn(routing::turned(turns, groups), key) == routing::turn(turns, key),
    decreases groups.len(),
{
    if groups.len() > 0 {
        let d = groups.drop_last();
        assert forall|a: int| 0 <= a < d.len() implies (#[trigger] d[a]).key != key by {
            assert(groups[a].key != key);
        }
        lemma_turn_elsewhere(turns, d, key);
        assert(groups[groups.len() - 1].key != key);
    }
}

/// Whether an ordinary subscription takes a message.
pub open spec fn takes_ordinary(
    sub: SubscriptionView,
    client_id: Seq<char>,
    publisher: Option<Seq<char>>,
    m: MessageView,
) -> bool {
    sub.share_name is None && takes(sub, client_id, publisher, m)
}

/// Whether an identifier is that of an ordinary subscription that takes a
/// message.
pub open spec fn is_id_of(
    n: u32,
    sub: SubscriptionView,
    client_id: Seq<char>,
    publisher: Option<Seq<char>>,
    m: MessageView,
) -> bool {
    takes_ordinary(sub, client_id, publisher, m) && sub.subscription_identifier == Some(n)
}

/// Whether identifiers are those of the subscriptions at the given places,
/// which are the ordinary ones that take a message and have an identifier.
pub open spec fn are_ids_at(
    found: Seq<u32>,
    subs: Seq<SubscriptionView>,
    ls: Seq<int>,
    client_id: Seq<char>,
    publisher: Option<Seq<char>>,
    m: MessageView,
) -> bool {
    &&& found.len() == ls.len()
    &&& goes_up(ls, subs.len() as int)
    &&& forall|k: int|
        0 <= k < ls.len() ==> is_id_of(
            #[trigger] found[k],
            subs[ls[k]],
            client_id,
            publisher,
            m,
        )
    &&& forall|j: int|
        0 <= j < subs.len() && takes_ordinary(#[trigger] subs[j], client_id, publisher, m)
            && subs[j].subscription_identifier is Some ==> ls.contains(j)
}

/// The ordinary subscriptions of a session offer it a message exactly where one
/// of them takes it: at the highest of the QoS levels that they would get it at
/// (each the lower of the QoS of the message and its own), keeping RETAIN
/// exactly where one of them does, and with the identifiers of all of them, in
/// order. The result names the subscriptions that have the identifiers.
pub proof fn offer_is_that_of_the_subscriptions(
    subs: Seq<SubscriptionView>,
    client_id: Seq<char>,
    publisher: Option<Seq<char>>,
    m: MessageView,
) -> (ls: Seq<int>)
    ensures
        ({
            let o = offer(subs, client_id, publisher, m);
            &&& o.qos is Some <==> exists|j: int|
                0 <= j < subs.len() && takes_ordinary(
                    #[trigger] subs[j],
                    client_id,
                    publisher,
                    m,
                )
            &&& o.qos is Some ==> exists|j: int|
                0 <= j < subs.len() && takes_ordinary(
                    #[trigger] subs[j],
                    client_id,
                    publisher,
                    m,
                ) && is_lower(o.qos->0, m.qos, subs[j].qos)
            &&& forall|j: int|
                0 <= j < subs.len() && takes_ordinary(
                    #[trigger] subs[j],
                    client_id,
                    publisher,
                    m,
                ) ==> m.qos.code() <= o.qos->0.code() || subs[j].qos.code() <= o.qos->0.code()
            &&& o.retain <==> exists|j: int|
                0 <= j < subs.len() && takes_ordinary(
                    #[trigger] subs[j],
                    client_id,
                    publisher,
                    m,
                ) && subs[j].retain_as_published
            &&& are_ids_at(o.ids, subs, ls, client_id, publisher, m)
        }),
    decreases subs.len(),
{
    if subs.len() == 0 {
        Seq::empty()
    } else {
        let d = subs.drop_last();
        let before = offer(d, client_id, publisher, m);
        let o = offer(subs, client_id, publisher, m);
        let is = offer_is_that_of_the_subscriptions(d, client_id, publisher, m);
        let sub = subs.last();
        let last = subs.len() - 1;
        let mine = takes_ordinary(sub, client_id, publisher, m);
        let ls = if mine && sub.subscription_identifier is Some {
            is.push(last)
        } else {
            is
        };
        assert(subs[last] == sub);
        assert forall|j: int| 0 <= j < d.len() implies #[trigger] d[j] == subs[j] by {}
        if before.qos is Some {
            let j = choose|j: int|
                0 <= j < d.len() && takes_ordinary(#[trigger] d[j], client_id, publisher, m)
                    && is_lower(before.qos->0, m.qos, d[j].qos);
            assert(takes_ordinary(subs[j], client_id, publisher, m) && is_lower(
                before.qos->0,
                m.qos,
                subs[j].qos,
            ));
        }
        if exists|j: int|
            0 <= j < subs.len() && takes_ordinary(#[trigger] subs[j], client_id, publisher, m) {
            let j = choose|j: int|
                0 <= j < subs.len() && takes_ordinary(#[trigger] subs[j], client_id, publisher, m);
            if j < last {
                assert(takes_ordinary(d[j], client_id, publisher, m));
            }
        }
        if before.retain {
            let j = choose|j: int|
                0 <= j < d.len() && takes_ordinary(#[trigger] d[j], client_id, publisher, m)
                    && d[j].retain_as_published;
            assert(takes_ordinary(subs[j], client_id, publisher, m)
                && subs[j].retain_as_published);
        }
        if exists|j: int|
            0 <= j < subs.len() && takes_ordinary(#[trigger] subs[j], client_id, publisher, m)
                && subs[j].retain_as_published {
            let j = choose|j: int|
                0 <= j < subs.len() && takes_ordinary(#[trigger] subs[j], client_id, publisher, m)
                    && subs[j].retain_as_published;
            if j < last {
                assert(takes_ordinary(d[j], client_id, publisher, m));
            }
        }
        assert forall|j: int|
            0 <= j < subs.len() && takes_ordinary(
                #[trigger] subs[j],
                client_id,
                publisher,
                m,
            ) implies m.qos.code() <= o.qos->0.code() || subs[j].qos.code() <= o.qos->0.code() by {
            if j < last {
                assert(takes_ordinary(d[j], client_id, publisher, m));
            }
        }
        assert(goes_up(ls, subs.len() as int)) by {
            assert forall|a: int, b: int| 0 <= a < b < ls.len() implies #[trigger] ls[a]
                < #[trigger] ls[b] by {
                if b < is.len() {
                    assert(is[a] < is[b]);
                } else {
                    assert(is[a] < d.len());
                }
            }
        }
        assert forall|k: int| 0 <= k < ls.len() implies is_id_of(
            #[trigger] o.ids[k],
            subs[ls[k]],
            client_id,
            publisher,
            m,
        ) by {
            if k < is.len() {
                assert(o.ids[k] == before.ids[k]);
                assert(0 <= is[k] < d.len());
                assert(d[is[k]] == subs[ls[k]]);
                assert(is_id_of(before.ids[k], d[is[k]], client_id, publisher, m));
            }
        }
        assert forall|j: int|
            0 <= j < subs.len() && takes_ordinary(#[trigger] subs[j], client_id, publisher, m)
                && subs[j].subscription_identifier is Some implies ls.contains(j) by {
            if j < last {
                assert(takes_ordinary(d[j], client_id, publisher, m));
                assert(is.contains(j));
                let k = choose|k: int| 0 <= k < is.len() && is[k] == j;
                assert(ls[k] == j);
            } else {
                assert(ls[is.len() as int] == j);
            }
        }
        ls
    }
}

/// A session after a message went to those of some members that are its own.
pub open spec fn served(
    s: SessionView,
    to: Seq<CandidateView>,
    m: MessageView,
    max_queued: nat,
    now: u64,
) -> SessionView
    decreases to.len(),
{
    if to.len() == 0 {
        s
    } else {
        let t = served(s, to.drop_last(), m, max_queued, now);
        let c = to.last();
        if c.client_id == s.client_id {
            t.delivered(m, c.qos, c.retain, c.ids, max_queued, now)
        } else {
            t
        }
    }
}

proof fn lemma_served(
    s: Seq<SessionView>,
    to: Seq<CandidateView>,
    m: MessageView,
    max_queued: nat,
    now: u64,
    i: int,
)
    requires
        forall|a: int, b: int|
            0 <= a < b < s.len() ==> (#[trigger] s[a]).client_id != (#[trigger] s[b]).client_id,
        0 <= i < s.len(),
    ensures
        all_given(s, to, m, max_queued, now).len() == s.len(),
        ids(all_given(s, to, m, max_queued, now)) == ids(s),
        all_given(s, to, m, max_queued, now)[i] == served(s[i], to, m, max_queued, now),
        served(s[i], to, m, max_queued, now).client_id == s[i].client_id,
    decreases to.len(),
{
    if to.len() > 0 {
        let d = to.drop_last();
        lemma_served(s, d, m, max_queued, now, i);
        let t = all_given(s, d, m, max_queued, now);
        let c = to.last();
        let j = place(t, c.client_id);
        text::lemma_first_place_is(ids(t), c.client_id);
        assert(ids(t)[i] == ids(s)[i]);
        if j < t.len() {
            routing::delivery_keeps_the_rest(t[j], m, c.qos, c.retain, c.ids, max_queued, now);
            let u = given(t, c, m, max_queued, now);
            assert(ids(u) =~= ids(t));
            assert(ids(s)[j] == c.client_id);
            if i < j {
                assert(s[i].client_id != s[j].client_id);
            } else if j < i {
                assert(s[j].client_id != s[i].client_id);
            }
        } else {
            if c.client_id == s[i].client_id {
                assert(ids(t)[i] == c.client_id);
                assert(ids(t).contains(c.client_id));
            }
        }
        routing::delivery_keeps_the_rest(
            served(s[i], d, m, max_queued, now),
            m,
            c.qos,
            c.retain,
            c.ids,
            max_queued,
            now,
        );
    }
}

/// Routing does to each session what its own subscriptions say and nothing
/// else: the message is delivered once for its ordinary subscriptions, where one
/// takes it, with RETAIN where it is kept and the message has it; and then once
/// for each of its shared subscriptions whose turn it is. An expired message
/// changes no session and no turn.
pub proof fn routing_serves_each_session(
    s: Seq<SessionView>,
    turns: Map<(Seq<char>, Seq<char>), u64>,
    publisher: Option<Seq<char>>,
    m: MessageView,
    max_queued: nat,
    now: u64,
    i: int,
)
    requires
        sessions_wf(s),
        0 <= i < s.len(),
    ensures
        ({
            let r = routed(s, turns, publisher, m, max_queued, now);
            let o = offer(s[i].subscriptions, s[i].client_id, publisher, m);
            let first = match o.qos {
                Some(qos) => s[i].delivered(m, qos, o.retain && m.retain, o.ids, max_queued, now),
                None => s[i],
            };
            let to = chosen(turns, groups_of(s, publisher, m));
            &&& r.sessions.len() == s.len()
            &&& (m.expires_at matches Some(end) && end <= now) ==> r.sessions == s && r.turns == turns
                && r.delivered == 0 && r.dropped == 0
            &&& (m.expires_at matches Some(end) ==> now < end) ==> r.sessions[i] == served(
                first,
                to,
                m,
                max_queued,
                now,
            )
        }),
{
    if !m.expired(now) {
        let mid = all_offered(s, publisher, m, max_queued, now);
        assert forall|a: int| 0 <= a < s.len() implies (#[trigger] mid[a]).client_id == s[a].client_id by {
            let o = session_offer(s[a], publisher, m);
            if o.qos is Some {
                routing::delivery_keeps_the_rest(
                    s[a],
                    m,
                    o.qos->0,
                    o.retain && m.retain,
                    o.ids,
                    max_queued,
                    now,
                );
            }
        }
        assert forall|a: int, b: int| 0 <= a < b < mid.len() implies (#[trigger] mid[a]).client_id
            != (#[trigger] mid[b]).client_id by {
            assert(s[a].client_id != s[b].client_id);
        }
        lemma_served(
            mid,
            chosen(turns, groups_of(s, publisher, m)),
            m,
            max_queued,
            now,
            i,
        );
        assert(mid[i] == offered(s[i], publisher, m, max_queued, now));
    }
}

proof fn lemma_offer_count(s: Seq<SessionView>, publisher: Option<Seq<char>>, m: MessageView)
    ensures
        offer_count(s, publisher, m) > 0 <==> exists|i: int, j: int|
            is_place(s, (i, j)) && takes_ordinary(
                #[trigger] s[i].subscriptions[j],
                s[i].client_id,
                publisher,
                m,
            ),
    decreases s.len(),
{
    if s.len() > 0 {
        let d = s.drop_last();
        let last = s.len() - 1;
        let x = s.last();
        lemma_offer_count(d, publisher, m);
        let ls = offer_is_that_of_the_subscriptions(x.subscriptions, x.client_id, publisher, m);
        if offer_count(d, publisher, m) > 0 {
            let (i, j) = choose|i: int, j: int|
                is_place(d, (i, j)) && takes_ordinary(
                    #[trigger] d[i].subscriptions[j],
                    d[i].client_id,
                    publisher,
                    m,
                );
            assert(s[i] == d[i]);
            assert(is_place(s, (i, j)) && takes_ordinary(
                s[i].subscriptions[j],
                s[i].client_id,
                publisher,
                m,
            ));
        }
        if session_offer(x, publisher, m).qos is Some {
            let j = choose|j: int|
                0 <= j < x.subscriptions.len() && takes_ordinary(
                    #[trigger] x.subscriptions[j],
                    x.client_id,
                    publisher,
                    m,
                );
            assert(is_place(s, (last, j)) && takes_ordinary(
                s[last].subscriptions[j],
                s[last].client_id,
                publisher,
                m,
            ));
        }
        if exists|i: int, j: int|
            is_place(s, (i, j)) && takes_ordinary(
                #[trigger] s[i].subscriptions[j],
                s[i].client_id,
                publisher,
                m,
            ) {
            let (i, j) = choose|i: int, j: int|
                is_place(s, (i, j)) && takes_ordinary(
                    #[trigger] s[i].subscriptions[j],
                    s[i].client_id,
                    publisher,
                    m,
                );
            if i < last {
                assert(d[i] == s[i]);
                assert(is_place(d, (i, j)) && takes_ordinary(
                    d[i].subscriptions[j],
                    d[i].client_id,
                    publisher,
                    m,
                ));
            } else {
                assert(takes_ordinary(x.subscriptions[j], x.client_id, publisher, m));
            }
        }
    }
}

/// A message reaches somebody exactly where it has not expired and a
/// subscription of some session takes it.
pub proof fn message_reaches_whoever_takes_it(
    s: Seq<SessionView>,
    turns: Map<(Seq<char>, Seq<char>), u64>,
    publisher: Option<Seq<char>>,
    m: MessageView,
    max_queued: nat,
    now: u64,
)
    ensures
        routed(s, turns, publisher, m, max_queued, now).delivered > 0 <==> !(
        m.expires_at matches Some(end) && end <= now) && somebody_takes(s, publisher, m),
{
    lemma_offer_count(s, publisher, m);
    let groups = groups_of(s, publisher, m);
    if groups.len() > 0 {
        let places = members_are_the_shared_subscriptions(s, publisher, m, groups[0].key);
        assert(groups[0].members.len() > 0);
        let at = member_comes_from_a_shared_subscription(s, publisher, m, 0, 0);
        assert(takes(s[at.0].subscriptions[at.1], s[at.0].client_id, publisher, m));
        assert(is_place(s, (at.0, at.1)));
        assert(somebody_takes(s, publisher, m));
    }
    if offer_count(s, publisher, m) > 0 {
        let (i, j) = choose|i: int, j: int|
            is_place(s, (i, j)) && takes_ordinary(
                #[trigger] s[i].subscriptions[j],
                s[i].client_id,
                publisher,
                m,
            );
        assert(takes(s[i].subscriptions[j], s[i].client_id, publisher, m));
    }
    if somebody_takes(s, publisher, m) {
        let (i, j) = choose|i: int, j: int|
            is_place(s, (i, j)) && takes(
                #[trigger] s[i].subscriptions[j],
                s[i].client_id,
                publisher,
                m,
            );
        if s[i].subscriptions[j].share_name is Some {
            let at = shared_subscription_has_its_member(s, publisher, m, i, j);
        } else {
            assert(takes_ordinary(s[i].subscriptions[j], s[i].client_id, publisher, m));
        }
    }
}

/// Whether a subscription of some session takes a message.
pub open spec fn somebody_takes(
    s: Seq<SessionView>,
    publisher: Option<Seq<char>>,
    m: MessageView,
) -> bool {
    exists|i: int, j: int|
        is_place(s, (i, j)) && takes(
            #[trigger] s[i].subscriptions[j],
            s[i].client_id,
            publisher,
            m,
        )
}

/// Whether one of the ordinary subscriptions of a session takes a message.
pub open spec fn session_takes(
    x: SessionView,
    publisher: Option<Seq<char>>,
    m: MessageView,
) -> bool {
    exists|j: int|
        0 <= j < x.subscriptions.len() && takes_ordinary(
            #[trigger] x.subscriptions[j],
            x.client_id,
            publisher,
            m,
        )
}

proof fn lemma_offer_count_is_filter(
    s: Seq<SessionView>,
    publisher: Option<Seq<char>>,
    m: MessageView,
)
    ensures
        offer_count(s, publisher, m) == s.filter(
            |x: SessionView| session_takes(x, publisher, m),
        ).len(),
    decreases s.len(),
{
    reveal(Seq::filter);
    if s.len() > 0 {
        let x = s.last();
        lemma_offer_count_is_filter(s.drop_last(), publisher, m);
        let ls = offer_is_that_of_the_subscriptions(x.subscriptions, x.client_id, publisher, m);
    }
}

/// A message that has not expired counts as delivered once for each session with
/// an ordinary subscription that takes it, and once for each shared
/// subscription.
pub proof fn deliveries_are_counted(
    s: Seq<SessionView>,
    turns: Map<(Seq<char>, Seq<char>), u64>,
    publisher: Option<Seq<char>>,
    m: MessageView,
    max_queued: nat,
    now: u64,
)
    requires
        !(m.expires_at matches Some(end) && end <= now),
    ensures
        routed(s, turns, publisher, m, max_queued, now).delivered == s.filter(
            |x: SessionView| session_takes(x, publisher, m),
        ).len() + groups_of(s, publisher, m).len(),
{
    lemma_offer_count_is_filter(s, publisher, m);
}

/// A delivery is told to have cost the queue its oldest message exactly where it
/// did: where it is not, all that was in the queue is there still.
pub proof fn lost_message_is_told(
    s: SessionView,
    m: MessageView,
    qos: QoS,
    retain: bool,
    found: Seq<u32>,
    max_queued: nat,
    now: u64,
)
    ensures
        ({
            let t = s.delivered(m, qos, retain, found, max_queued, now);
            let lost = s.delivery_drops(m, qos, max_queued, now);
            &&& lost ==> s.queue.len() > 0 && t.queue.len() == s.queue.len() && t.queue.drop_last()
                == s.queue.skip(1)
            &&& !lost ==> s.queue.is_prefix_of(t.queue) && t.queue.len() <= s.queue.len() + 1
        }),
{
    let t = s.delivered(m, qos, retain, found, max_queued, now);
    if s.delivery_drops(m, qos, max_queued, now) {
        assert(t.queue.drop_last() =~= s.queue.skip(1));
    }
}

/// What queues lose to a message is counted over the sessions: each that loses
/// one counts once.
pub proof fn lost_messages_add_up(
    s: Seq<SessionView>,
    x: SessionView,
    publisher: Option<Seq<char>>,
    m: MessageView,
    max_queued: nat,
    now: u64,
)
    ensures
        routing::offer_drop_count(s.push(x), publisher, m, max_queued, now)
            == routing::offer_drop_count(s, publisher, m, max_queued, now) + (if offer(
            x.subscriptions,
            x.client_id,
            publisher,
            m,
        ).qos matches Some(qos) && x.delivery_drops(m, qos, max_queued, now) {
            1nat
        } else {
            0nat
        }),
        routing::offer_drop_count(Seq::empty(), publisher, m, max_queued, now) == 0,
{
    assert(s.push(x).drop_last() =~= s);
}

} // verus!
