//! Routing: matching a publication against every subscription, choosing one
//! member of each shared subscription, and delivering to the sessions.

use vstd::prelude::*;
use crate::broker::delivery::deliver_to_session;
use crate::broker::session::{Session, SessionView, SubscriptionView};
use crate::message::{Message, MessageView};
use crate::metrics;
use crate::metrics::{counted, Metrics};
use crate::text;
use crate::text::str_eq;
use crate::topic;
use crate::types::QoS;

verus! {

broadcast use text::group_views;

/// The client identifiers of a list of sessions.
pub open spec fn ids(s: Seq<SessionView>) -> Seq<Seq<char>> {
    Seq::new(s.len(), |i: int| s[i].client_id)
}

/// The place of the session of a client, or the number of sessions.
pub open spec fn place(s: Seq<SessionView>, client_id: Seq<char>) -> int {
    text::first_place(ids(s), client_id)
}

/// The invariant of a list of sessions: each keeps its own, and no two are of
/// one client.
pub open spec fn sessions_wf(s: Seq<SessionView>) -> bool {
    &&& forall|i: int| 0 <= i < s.len() ==> (#[trigger] s[i]).wf()
    &&& forall|i: int, j: int|
        0 <= i < j < s.len() ==> (#[trigger] s[i]).client_id != (#[trigger] s[j]).client_id
}

/// Whether a subscription of a client gets a message. A client that asks for
/// *no local* does not get its own messages.
pub open spec fn hits(
    sub: SubscriptionView,
    client_id: Seq<char>,
    publisher: Option<Seq<char>>,
    m: MessageView,
) -> bool {
    topic::is_match(sub.filter, m.topic) && !(sub.no_local && publisher == Some(client_id))
}

/// The subscription identifiers of one subscription.
pub open spec fn sub_ids(sub: SubscriptionView) -> Seq<u32> {
    match sub.subscription_identifier {
        Some(i) => seq![i],
        None => Seq::empty(),
    }
}

/// What the ordinary subscriptions of a session make of a message: the highest
/// of their QoS levels (none where no subscription gets it), whether one of
/// them keeps the RETAIN flag, and their subscription identifiers.
pub struct Offer {
    pub qos: Option<QoS>,
    pub retain: bool,
    pub ids: Seq<u32>,
}

/// The higher of a QoS level, if there is one, and another.
pub open spec fn raised(best: Option<QoS>, qos: QoS) -> QoS {
    match best {
        Some(b) => if b.code() >= qos.code() {
            b
        } else {
            qos
        },
        None => qos,
    }
}

pub open spec fn offer(
    subs: Seq<SubscriptionView>,
    client_id: Seq<char>,
    publisher: Option<Seq<char>>,
    m: MessageView,
) -> Offer
    decreases subs.len(),
{
    if subs.len() == 0 {
        Offer { qos: None, retain: false, ids: Seq::empty() }
    } else {
        let o = offer(subs.drop_last(), client_id, publisher, m);
        let sub = subs.last();
        if hits(sub, client_id, publisher, m) && sub.share_name is None {
            Offer {
                qos: Some(raised(o.qos, m.qos.lower(sub.qos))),
                retain: o.retain || sub.retain_as_published,
                ids: o.ids + sub_ids(sub),
            }
        } else {
            o
        }
    }
}

/// What a member of a shared subscription would be sent.
pub struct CandidateView {
    pub client_id: Seq<char>,
    pub qos: QoS,
    pub retain: bool,
    pub ids: Seq<u32>,
}

/// The members of one shared subscription that match a message. The key is the
/// share name and the filter.
pub struct GroupView {
    pub key: (Seq<char>, Seq<char>),
    pub members: Seq<CandidateView>,
}

pub open spec fn candidate(sub: SubscriptionView, client_id: Seq<char>, m: MessageView) -> CandidateView {
    CandidateView {
        client_id,
        qos: m.qos.lower(sub.qos),
        retain: sub.retain_as_published && m.retain,
        ids: sub_ids(sub),
    }
}

pub open spec fn group_keys(s: Seq<GroupView>) -> Seq<(Seq<char>, Seq<char>)> {
    Seq::new(s.len(), |i: int| s[i].key)
}

/// Groups with one more member in the group of a key.
pub open spec fn joined(
    groups: Seq<GroupView>,
    key: (Seq<char>, Seq<char>),
    c: CandidateView,
) -> Seq<GroupView> {
    let i = text::first_place(group_keys(groups), key);
    if i < groups.len() {
        groups.update(i, GroupView { key, members: groups[i].members.push(c) })
    } else {
        groups.push(GroupView { key, members: seq![c] })
    }
}

/// Groups with the shared subscriptions of a client that match a message.
pub open spec fn groups_with(
    groups: Seq<GroupView>,
    subs: Seq<SubscriptionView>,
    client_id: Seq<char>,
    publisher: Option<Seq<char>>,
    m: MessageView,
) -> Seq<GroupView>
    decreases subs.len(),
{
    if subs.len() == 0 {
        groups
    } else {
        let g = groups_with(groups, subs.drop_last(), client_id, publisher, m);
        let sub = subs.last();
        if hits(sub, client_id, publisher, m) && sub.share_name is Some {
            joined(g, (sub.share_name->0, sub.filter), candidate(sub, client_id, m))
        } else {
            g
        }
    }
}

/// The groups of all shared subscriptions that match a message.
pub open spec fn groups_of(
    s: Seq<SessionView>,
    publisher: Option<Seq<char>>,
    m: MessageView,
) -> Seq<GroupView>
    decreases s.len(),
{
    if s.len() == 0 {
        Seq::empty()
    } else {
        groups_with(
            groups_of(s.drop_last(), publisher, m),
            s.last().subscriptions,
            s.last().client_id,
            publisher,
            m,
        )
    }
}

/// The offer of a session for a message.
pub open spec fn session_offer(
    s: SessionView,
    publisher: Option<Seq<char>>,
    m: MessageView,
) -> Offer {
    offer(s.subscriptions, s.client_id, publisher, m)
}

/// A session after its ordinary subscriptions got a message. However many of
/// them match, it is delivered once.
pub open spec fn offered(
    s: SessionView,
    publisher: Option<Seq<char>>,
    m: MessageView,
    max_queued: nat,
    now: u64,
) -> SessionView {
    let o = session_offer(s, publisher, m);
    match o.qos {
        Some(qos) => s.delivered(m, qos, o.retain && m.retain, o.ids, max_queued, now),
        None => s,
    }
}

/// Whether that costs the session the oldest message of its queue.
pub open spec fn offer_drops(
    s: SessionView,
    publisher: Option<Seq<char>>,
    m: MessageView,
    max_queued: nat,
    now: u64,
) -> bool {
    session_offer(s, publisher, m).qos matches Some(qos) && s.delivery_drops(m, qos, max_queued, now)
}

/// How many sessions get a message by ordinary subscriptions.
pub open spec fn offer_count(
    s: Seq<SessionView>,
    publisher: Option<Seq<char>>,
    m: MessageView,
) -> nat
    decreases s.len(),
{
    if s.len() == 0 {
        0
    } else {
        offer_count(s.drop_last(), publisher, m) + (if session_offer(
            s.last(),
            publisher,
            m,
        ).qos is Some {
            1nat
        } else {
            0nat
        })
    }
}

/// How many sessions that costs the oldest message of their queues.
pub open spec fn offer_drop_count(
    s: Seq<SessionView>,
    publisher: Option<Seq<char>>,
    m: MessageView,
    max_queued: nat,
    now: u64,
) -> nat
    decreases s.len(),
{
    if s.len() == 0 {
        0
    } else {
        offer_drop_count(s.drop_last(), publisher, m, max_queued, now) + (if offer_drops(
            s.last(),
            publisher,
            m,
            max_queued,
            now,
        ) {
            1nat
        } else {
            0nat
        })
    }
}

/// The sessions after their ordinary subscriptions got a message.
pub open spec fn all_offered(
    s: Seq<SessionView>,
    publisher: Option<Seq<char>>,
    m: MessageView,
    max_queued: nat,
    now: u64,
) -> Seq<SessionView> {
    Seq::new(s.len(), |i: int| offered(s[i], publisher, m, max_queued, now))
}

/// Whose turn it is in a shared subscription.
pub open spec fn turn(rr: Map<(Seq<char>, Seq<char>), u64>, key: (Seq<char>, Seq<char>)) -> u64 {
    if rr.contains_key(key) {
        rr[key]
    } else {
        0
    }
}

/// The turns after each of the groups has had one.
pub open spec fn turned(rr: Map<(Seq<char>, Seq<char>), u64>, groups: Seq<GroupView>) -> Map<
    (Seq<char>, Seq<char>),
    u64,
>
    decreases groups.len(),
{
    if groups.len() == 0 {
        rr
    } else {
        let r = turned(rr, groups.drop_last());
        r.insert(groups.last().key, counted(turn(r, groups.last().key), 1))
    }
}

/// The member of a group whose turn it is.
pub open spec fn picked(g: GroupView, turn: u64) -> CandidateView {
    g.members[(turn % (g.members.len() as u64)) as int]
}

/// The members that get a message, one of each group.
pub open spec fn chosen(rr: Map<(Seq<char>, Seq<char>), u64>, groups: Seq<GroupView>) -> Seq<
    CandidateView,
>
    decreases groups.len(),
{
    if groups.len() == 0 {
        Seq::empty()
    } else {
        chosen(rr, groups.drop_last()).push(
            picked(groups.last(), turn(turned(rr, groups.drop_last()), groups.last().key)),
        )
    }
}

/// The sessions after a message went to the session of a client.
pub open spec fn given(
    s: Seq<SessionView>,
    c: CandidateView,
    m: MessageView,
    max_queued: nat,
    now: u64,
) -> Seq<SessionView> {
    let i = place(s, c.client_id);
    if i < s.len() {
        s.update(i, s[i].delivered(m, c.qos, c.retain, c.ids, max_queued, now))
    } else {
        s
    }
}

/// Whether that costs the session the oldest message of its queue.
pub open spec fn giving_drops(
    s: Seq<SessionView>,
    c: CandidateView,
    m: MessageView,
    max_queued: nat,
    now: u64,
) -> bool {
    let i = place(s, c.client_id);
    i < s.len() && s[i].delivery_drops(m, c.qos, max_queued, now)
}

/// The sessions after a message went to the chosen members.
pub open spec fn all_given(
    s: Seq<SessionView>,
    chosen: Seq<CandidateView>,
    m: MessageView,
    max_queued: nat,
    now: u64,
) -> Seq<SessionView>
    decreases chosen.len(),
{
    if chosen.len() == 0 {
        s
    } else {
        given(
            all_given(s, chosen.drop_last(), m, max_queued, now),
            chosen.last(),
            m,
            max_queued,
            now,
        )
    }
}

/// How many sessions that costs the oldest message of their queues.
pub open spec fn giving_drop_count(
    s: Seq<SessionView>,
    chosen: Seq<CandidateView>,
    m: MessageView,
    max_queued: nat,
    now: u64,
) -> nat
    decreases chosen.len(),
{
    if chosen.len() == 0 {
        0
    } else {
        giving_drop_count(s, chosen.drop_last(), m, max_queued, now) + (if giving_drops(
            all_given(s, chosen.drop_last(), m, max_queued, now),
            chosen.last(),
            m,
            max_queued,
            now,
        ) {
            1nat
        } else {
            0nat
        })
    }
}

/// What a delivery leaves as it is.
pub proof fn delivery_keeps_the_rest(
    s: SessionView,
    m: MessageView,
    qos: QoS,
    retain: bool,
    ids: Seq<u32>,
    max_queued: nat,
    now: u64,
)
    ensures
        ({
            let t = s.delivered(m, qos, retain, ids, max_queued, now);
            &&& t.client_id == s.client_id
            &&& t.identity == s.identity
            &&& t.epoch == s.epoch
            &&& t.online() == s.online()
            &&& t.subscriptions == s.subscriptions
            &&& t.persistent == s.persistent
            &&& t.session_expiry_interval == s.session_expiry_interval
            &&& t.will == s.will
            &&& t.inbound_qos2 == s.inbound_qos2
            &&& t.inbound_aliases == s.inbound_aliases
        }),
{
}

/// Sessions that differ at one place, by a session of the same client that
/// keeps its invariant, keep theirs.
pub proof fn lemma_sessions_update(s: Seq<SessionView>, i: int, t: SessionView)
    requires
        sessions_wf(s),
        0 <= i < s.len(),
        t.client_id == s[i].client_id,
        t.wf(),
    ensures
        sessions_wf(s.update(i, t)),
        ids(s.update(i, t)) == ids(s),
{
    assert(ids(s.update(i, t)) =~= ids(s));
    let u = s.update(i, t);
    assert forall|a: int, b: int| 0 <= a < b < u.len() implies (#[trigger] u[a]).client_id != (
    #[trigger] u[b]).client_id by {
        assert(s[a].client_id != s[b].client_id);
    }
}

/// A member of a shared subscription that matches a message.
struct Candidate {
    client_id: String,
    qos: QoS,
    retain: bool,
    ids: Vec<u32>,
}

impl View for Candidate {
    type V = CandidateView;

    closed spec fn view(&self) -> CandidateView {
        CandidateView {
            client_id: self.client_id@,
            qos: self.qos,
            retain: self.retain,
            ids: self.ids@,
        }
    }
}

/// The matching members of one shared subscription.
struct Group {
    share: String,
    filter: String,
    members: Vec<Candidate>,
}

impl View for Group {
    type V = GroupView;

    closed spec fn view(&self) -> GroupView {
        GroupView { key: (self.share@, self.filter@), members: text::views(self.members@) }
    }
}

/// Whether every group has a member.
spec fn groups_filled(s: Seq<GroupView>) -> bool {
    forall|i: int| 0 <= i < s.len() ==> (#[trigger] s[i]).members.len() > 0
}

/// Adds a member to the group of a key.
fn join(groups: &mut Vec<Group>, share: &String, filter: &String, c: Candidate)
    requires
        groups_filled(text::views(old(groups)@)),
    ensures
        text::views(final(groups)@) == joined(
            text::views(old(groups)@),
            (share@, filter@),
            c@,
        ),
        groups_filled(text::views(final(groups)@)),
{
    let ghost before = text::views(groups@);
    let ghost key = (share@, filter@);
    let ghost cv = c@;
    let mut i: usize = 0;
    while i < groups.len()
        invariant
            i <= groups.len(),
            text::views(groups@) == before,
            before == text::views(old(groups)@),
            key == (share@, filter@),
            cv == c@,
            groups_filled(before),
            forall|j: int| 0 <= j < i ==> #[trigger] group_keys(before)[j] != key,
        decreases groups.len() - i,
    {
        assert(groups@[i as int]@ == before[i as int]);
        assert(group_keys(before)[i as int] == before[i as int].key);
        if str_eq(groups[i].share.as_str(), share.as_str()) && str_eq(
            groups[i].filter.as_str(),
            filter.as_str(),
        ) {
            proof {
                text::lemma_first_place(group_keys(before), key, i as int);
            }
            let g: &mut Group = &mut groups[i];
            g.members.push(c);
            assert(text::views(groups@) =~= joined(before, key, cv));
            return;
        }
        i = i + 1;
    }
    proof {
        text::lemma_first_place(group_keys(before), key, before.len() as int);
    }
    let mut members: Vec<Candidate> = Vec::new();
    members.push(c);
    let g: Group = Group { share: share.clone(), filter: filter.clone(), members };
    assert(g@.members =~= seq![cv]);
    groups.push(g);
    assert(text::views(groups@) =~= joined(before, key, cv));
}

/// Collects the offer of a session for a message, and its candidates.
fn collect(
    session: &Session,
    publisher: Option<&str>,
    message: &Message,
    groups: &mut Vec<Group>,
) -> (r: (Option<QoS>, bool, Vec<u32>))
    requires
        groups_filled(text::views(old(groups)@)),
    ensures
        session_offer(session@, text::opt_view(publisher), message@) == (Offer {
            qos: r.0,
            retain: r.1,
            ids: r.2@,
        }),
        text::views(final(groups)@) == groups_with(
            text::views(old(groups)@),
            session@.subscriptions,
            session@.client_id,
            text::opt_view(publisher),
            message@,
        ),
        groups_filled(text::views(final(groups)@)),
{
    let ghost before = text::views(groups@);
    let ghost subs = session@.subscriptions;
    let ghost cid = session@.client_id;
    let ghost from = text::opt_view(publisher);
    let ghost m = message@;
    let own: bool = match publisher {
        Some(p) => str_eq(p, session.client_id.as_str()),
        None => false,
    };
    let mut best: Option<QoS> = None;
    let mut retain: bool = false;
    let mut found: Vec<u32> = Vec::new();
    let mut i: usize = 0;
    assert(subs.take(0) =~= Seq::empty());
    while i < session.subscriptions.len()
        invariant
            i <= session.subscriptions.len(),
            subs == session@.subscriptions,
            cid == session@.client_id,
            m == message@,
            own == (from == Some(cid)),
            offer(subs.take(i as int), cid, from, m) == (Offer {
                qos: best,
                retain,
                ids: found@,
            }),
            text::views(groups@) == groups_with(before, subs.take(i as int), cid, from, m),
            groups_filled(text::views(groups@)),
        decreases session.subscriptions.len() - i,
    {
        let sub = &session.subscriptions[i];
        let ghost sv = subs[i as int];
        assert(sv == sub@);
        assert(subs.take(i + 1).drop_last() =~= subs.take(i as int));
        assert(subs.take(i + 1).last() == sv);
        let ghost ids0 = found@;
        if topic::matches(sub.filter.as_str(), message.topic.as_str()) && !(sub.no_local && own) {
            let eff: QoS = message.qos.min(sub.qos);
            match &sub.share_name {
                Some(share) => {
                    let mut ids: Vec<u32> = Vec::new();
                    if let Some(id) = sub.subscription_identifier {
                        ids.push(id);
                    }
                    assert(ids@ =~= sub_ids(sv));
                    let c: Candidate = Candidate {
                        client_id: session.client_id.clone(),
                        qos: eff,
                        retain: sub.retain_as_published && message.retain,
                        ids,
                    };
                    assert(c@ == candidate(sv, cid, m));
                    join(groups, share, &sub.filter, c);
                },
                None => {
                    best = Some(
                        match best {
                            Some(b) => if b.as_u8() >= eff.as_u8() {
                                b
                            } else {
                                eff
                            },
                            None => eff,
                        },
                    );
                    if let Some(id) = sub.subscription_identifier {
                        found.push(id);
                    }
                    assert(found@ =~= ids0 + sub_ids(sv));
                    if sub.retain_as_published {
                        retain = true;
                    }
                },
            }
        }
        i = i + 1;
    }
    assert(subs.take(subs.len() as int) =~= subs);
    (best, retain, found)
}

/// Delivers a message to the sessions with matching ordinary subscriptions, and
/// collects the groups of the shared ones. Returns whether a session got it.
fn deliver_ordinary(
    sessions: &mut Vec<Session>,
    publisher: Option<&str>,
    message: &Message,
    max_queued: usize,
    now: u64,
    groups: &mut Vec<Group>,
    metrics: &mut Metrics,
) -> (any: bool)
    requires
        sessions_wf(text::views(old(sessions)@)),
        old(groups)@.len() == 0,
    ensures
        text::views(final(sessions)@) == all_offered(
            text::views(old(sessions)@),
            text::opt_view(publisher),
            message@,
            max_queued as nat,
            now,
        ),
        sessions_wf(text::views(final(sessions)@)),
        text::views(final(groups)@) == groups_of(
            text::views(old(sessions)@),
            text::opt_view(publisher),
            message@,
        ),
        groups_filled(text::views(final(groups)@)),
        any == (offer_count(
            text::views(old(sessions)@),
            text::opt_view(publisher),
            message@,
        ) > 0),
        *final(metrics) == (Metrics {
            publish_delivered: counted(
                old(metrics).publish_delivered,
                offer_count(text::views(old(sessions)@), text::opt_view(publisher), message@),
            ),
            publish_dropped: counted(
                old(metrics).publish_dropped,
                offer_drop_count(
                    text::views(old(sessions)@),
                    text::opt_view(publisher),
                    message@,
                    max_queued as nat,
                    now,
                ),
            ),
            ..*old(metrics)
        }),
{
    let ghost before = text::views(sessions@);
    let ghost from = text::opt_view(publisher);
    let ghost m = message@;
    let ghost max = max_queued as nat;
    let ghost all = all_offered(before, from, m, max, now);
    let mut any: bool = false;
    let mut i: usize = 0;
    assert(before.take(0) =~= Seq::empty());
    assert(text::views(groups@) =~= Seq::empty());
    while i < sessions.len()
        invariant
            i <= sessions.len(),
            from == text::opt_view(publisher),
            m == message@,
            max == max_queued as nat,
            before == text::views(old(sessions)@),
            all == all_offered(before, from, m, max, now),
            sessions_wf(text::views(sessions@)),
            sessions@.len() == before.len(),
            forall|j: int| 0 <= j < i ==> #[trigger] text::views(sessions@)[j] == all[j],
            forall|j: int|
                i <= j < before.len() ==> #[trigger] text::views(sessions@)[j] == before[j],
            text::views(groups@) == groups_of(before.take(i as int), from, m),
            groups_filled(text::views(groups@)),
            any == (offer_count(before.take(i as int), from, m) > 0),
            *metrics == (Metrics {
                publish_delivered: counted(
                    old(metrics).publish_delivered,
                    offer_count(before.take(i as int), from, m),
                ),
                publish_dropped: counted(
                    old(metrics).publish_dropped,
                    offer_drop_count(before.take(i as int), from, m, max, now),
                ),
                ..*old(metrics)
            }),
        decreases sessions.len() - i,
    {
        let ghost vs = text::views(sessions@);
        assert(sessions@[i as int]@ == vs[i as int]);
        assert(vs[i as int] == before[i as int]);
        assert(before.take(i + 1).drop_last() =~= before.take(i as int));
        assert(before.take(i + 1).last() == before[i as int]);
        proof {
            metrics::lemma_counted(
                old(metrics).publish_delivered,
                offer_count(before.take(i as int), from, m),
                1,
            );
            metrics::lemma_counted(
                old(metrics).publish_dropped,
                offer_drop_count(before.take(i as int), from, m, max, now),
                1,
            );
        }
        let (best, keep, found): (Option<QoS>, bool, Vec<u32>) = collect(
            &sessions[i],
            publisher,
            message,
            groups,
        );
        if let Some(qos) = best {
            any = true;
            Metrics::inc(&mut metrics.publish_delivered);
            proof {
                delivery_keeps_the_rest(
                    before[i as int],
                    m,
                    qos,
                    keep && m.retain,
                    found@,
                    max,
                    now,
                );
            }
            let dropped: bool = deliver_to_session(
                &mut sessions[i],
                message,
                qos,
                keep && message.retain,
                found.as_slice(),
                max_queued,
                now,
            );
            if dropped {
                Metrics::inc(&mut metrics.publish_dropped);
            }
            assert(text::views(sessions@) =~= vs.update(i as int, all[i as int]));
            proof {
                lemma_sessions_update(vs, i as int, all[i as int]);
            }
        }
        i = i + 1;
    }
    assert(before.take(before.len() as int) =~= before);
    assert(text::views(sessions@) =~= all);
    any
}

/// The turns of shared subscriptions: share name, filter and turn.
pub type Turns = Vec<(String, String, u64)>;

/// The turns by share name and filter.
pub open spec fn turns_map(s: Seq<(String, String, u64)>) -> Map<(Seq<char>, Seq<char>), u64>
    decreases s.len(),
{
    if s.len() == 0 {
        Map::empty()
    } else {
        turns_map(s.drop_last()).insert((s.last().0@, s.last().1@), s.last().2)
    }
}

/// Whether no shared subscription has two turns.
pub open spec fn turns_distinct(s: Seq<(String, String, u64)>) -> bool {
    forall|i: int, j: int|
        0 <= i < j < s.len() ==> ((#[trigger] s[i]).0@, s[i].1@) != ((#[trigger] s[j]).0@, s[j].1@)
}

proof fn lemma_turns_absent(s: Seq<(String, String, u64)>, key: (Seq<char>, Seq<char>))
    requires
        forall|i: int| 0 <= i < s.len() ==> ((#[trigger] s[i]).0@, s[i].1@) != key,
    ensures
        !turns_map(s).contains_key(key),
    decreases s.len(),
{
    if s.len() > 0 {
        let d = s.drop_last();
        assert forall|i: int| 0 <= i < d.len() implies ((#[trigger] d[i]).0@, d[i].1@) != key by {
            assert(s[i] == d[i]);
        }
        assert((s[s.len() - 1].0@, s[s.len() - 1].1@) != key);
        lemma_turns_absent(d, key);
    }
}

proof fn lemma_turns_update(s: Seq<(String, String, u64)>, i: int, t: (String, String, u64))
    requires
        0 <= i < s.len(),
        turns_distinct(s),
        t.0@ == s[i].0@,
        t.1@ == s[i].1@,
    ensures
        turns_map(s).contains_key((t.0@, t.1@)),
        turns_map(s)[(t.0@, t.1@)] == s[i].2,
        turns_map(s.update(i, t)) == turns_map(s).insert((t.0@, t.1@), t.2),
    decreases s.len(),
{
    let d = s.drop_last();
    assert(turns_distinct(d)) by {
        assert forall|a: int, b: int| 0 <= a < b < d.len() implies ((#[trigger] d[a]).0@, d[a].1@)
            != ((#[trigger] d[b]).0@, d[b].1@) by {
            assert(s[a] == d[a] && s[b] == d[b]);
        }
    }
    let u = s.update(i, t);
    if i == s.len() - 1 {
        assert(u.drop_last() =~= d);
        assert(turns_map(u) =~= turns_map(s).insert((t.0@, t.1@), t.2));
    } else {
        lemma_turns_update(d, i, t);
        assert(u.drop_last() =~= d.update(i, t));
        assert((s[i].0@, s[i].1@) != (s[s.len() - 1].0@, s[s.len() - 1].1@));
        assert(turns_map(u) =~= turns_map(s).insert((t.0@, t.1@), t.2));
    }
}

/// Takes the turn of a shared subscription.
fn take_turn(turns: &mut Turns, share: &String, filter: &String) -> (r: u64)
    requires
        turns_distinct(old(turns)@),
    ensures
        turns_distinct(final(turns)@),
        r == turn(turns_map(old(turns)@), (share@, filter@)),
        turns_map(final(turns)@) == turns_map(old(turns)@).insert(
            (share@, filter@),
            counted(r, 1),
        ),
{
    let ghost before = turns@;
    let ghost key = (share@, filter@);
    let mut i: usize = 0;
    while i < turns.len()
        invariant
            i <= turns.len(),
            turns@ == before,
            before == old(turns)@,
            key == (share@, filter@),
            turns_distinct(before),
            forall|j: int| 0 <= j < i ==> ((#[trigger] before[j]).0@, before[j].1@) != key,
        decreases turns.len() - i,
    {
        if str_eq(turns[i].0.as_str(), share.as_str()) && str_eq(
            turns[i].1.as_str(),
            filter.as_str(),
        ) {
            let t: u64 = turns[i].2;
            let next: (String, String, u64) = (share.clone(), filter.clone(), t.wrapping_add(1));
            proof {
                lemma_turns_update(before, i as int, next);
                let u = before.update(i as int, next);
                assert forall|a: int, b: int| 0 <= a < b < u.len() implies ((#[trigger] u[a]).0@, u[
                    a
                ].1@) != ((#[trigger] u[b]).0@, u[b].1@) by {
                    assert((before[a].0@, before[a].1@) != (before[b].0@, before[b].1@));
                }
            }
            turns.set(i, next);
            return t;
        }
        i = i + 1;
    }
    proof {
        lemma_turns_absent(before, key);
    }
    turns.push((share.clone(), filter.clone(), 1));
    proof {
        let u = turns@;
        assert(u.drop_last() =~= before);
        assert forall|a: int, b: int| 0 <= a < b < u.len() implies ((#[trigger] u[a]).0@, u[a].1@)
            != ((#[trigger] u[b]).0@, u[b].1@) by {
            assert(u[a] == before[a]);
            if b < before.len() {
                assert((before[a].0@, before[a].1@) != (before[b].0@, before[b].1@));
            }
        }
    }
    0
}

/// The place of the session of a client, or the number of sessions.
pub fn find_session(sessions: &Vec<Session>, client_id: &str) -> (r: usize)
    ensures
        r == place(text::views(sessions@), client_id@),
        r <= sessions@.len(),
        r < sessions@.len() ==> sessions@[r as int]@.client_id == client_id@,
{
    let ghost vs = text::views(sessions@);
    let mut i: usize = 0;
    while i < sessions.len()
        invariant
            i <= sessions.len(),
            vs == text::views(sessions@),
            forall|j: int| 0 <= j < i ==> #[trigger] ids(vs)[j] != client_id@,
        decreases sessions.len() - i,
    {
        assert(ids(vs)[i as int] == sessions@[i as int]@.client_id);
        if str_eq(sessions[i].client_id.as_str(), client_id) {
            proof {
                text::lemma_first_place(ids(vs), client_id@, i as int);
            }
            return i;
        }
        i = i + 1;
    }
    proof {
        text::lemma_first_place(ids(vs), client_id@, i as int);
    }
    i
}

/// Chooses a member of each group and delivers a message to it.
fn deliver_shared(
    sessions: &mut Vec<Session>,
    groups: &Vec<Group>,
    turns: &mut Turns,
    message: &Message,
    max_queued: usize,
    now: u64,
    metrics: &mut Metrics,
)
    requires
        sessions_wf(text::views(old(sessions)@)),
        groups_filled(text::views(groups@)),
        turns_distinct(old(turns)@),
    ensures
        sessions_wf(text::views(final(sessions)@)),
        turns_distinct(final(turns)@),
        turns_map(final(turns)@) == turned(turns_map(old(turns)@), text::views(groups@)),
        text::views(final(sessions)@) == all_given(
            text::views(old(sessions)@),
            chosen(turns_map(old(turns)@), text::views(groups@)),
            message@,
            max_queued as nat,
            now,
        ),
        *final(metrics) == (Metrics {
            publish_delivered: counted(old(metrics).publish_delivered, groups@.len()),
            publish_dropped: counted(
                old(metrics).publish_dropped,
                giving_drop_count(
                    text::views(old(sessions)@),
                    chosen(turns_map(old(turns)@), text::views(groups@)),
                    message@,
                    max_queued as nat,
                    now,
                ),
            ),
            ..*old(metrics)
        }),
{
    let ghost before = text::views(sessions@);
    let ghost rr = turns_map(turns@);
    let ghost gs = text::views(groups@);
    let ghost m = message@;
    let ghost max = max_queued as nat;
    let mut i: usize = 0;
    assert(gs.take(0) =~= Seq::empty());
    while i < groups.len()
        invariant
            i <= groups.len(),
            gs == text::views(groups@),
            m == message@,
            max == max_queued as nat,
            before == text::views(old(sessions)@),
            rr == turns_map(old(turns)@),
            groups_filled(gs),
            sessions_wf(text::views(sessions@)),
            turns_distinct(turns@),
            turns_map(turns@) == turned(rr, gs.take(i as int)),
            text::views(sessions@) == all_given(
                before,
                chosen(rr, gs.take(i as int)),
                m,
                max,
                now,
            ),
            *metrics == (Metrics {
                publish_delivered: counted(old(metrics).publish_delivered, i as nat),
                publish_dropped: counted(
                    old(metrics).publish_dropped,
                    giving_drop_count(before, chosen(rr, gs.take(i as int)), m, max, now),
                ),
                ..*old(metrics)
            }),
        decreases groups.len() - i,
    {
        let ghost vs = text::views(sessions@);
        let ghost upto = gs.take(i + 1);
        assert(upto.drop_last() =~= gs.take(i as int));
        assert(upto.last() == gs[i as int]);
        assert(gs[i as int] == groups@[i as int]@);
        let ghost sofar = chosen(rr, gs.take(i as int));
        let ghost next = chosen(rr, upto);
        proof {
            metrics::lemma_counted(old(metrics).publish_delivered, i as nat, 1);
            metrics::lemma_counted(
                old(metrics).publish_dropped,
                giving_drop_count(before, sofar, m, max, now),
                1,
            );
        }
        let t: u64 = take_turn(turns, &groups[i].share, &groups[i].filter);
        let n: u64 = groups[i].members.len() as u64;
        assert(gs[i as int].members.len() == groups@[i as int].members@.len());
        let c: &Candidate = &groups[i].members[(t % n) as usize];
        let ghost cv = c@;
        assert(cv == picked(gs[i as int], t));
        assert(next =~= sofar.push(cv));
        assert(next.drop_last() =~= sofar);
        Metrics::inc(&mut metrics.publish_delivered);
        let at: usize = find_session(sessions, c.client_id.as_str());
        if at < sessions.len() {
            assert(sessions@[at as int]@ == vs[at as int]);
            proof {
                delivery_keeps_the_rest(vs[at as int], m, cv.qos, cv.retain, cv.ids, max, now);
            }
            let dropped: bool = deliver_to_session(
                &mut sessions[at],
                message,
                c.qos,
                c.retain,
                c.ids.as_slice(),
                max_queued,
                now,
            );
            if dropped {
                Metrics::inc(&mut metrics.publish_dropped);
            }
            assert(text::views(sessions@) =~= given(vs, cv, m, max, now));
            proof {
                lemma_sessions_update(
                    vs,
                    at as int,
                    vs[at as int].delivered(m, cv.qos, cv.retain, cv.ids, max, now),
                );
            }
        }
        i = i + 1;
    }
    assert(gs.take(gs.len() as int) =~= gs);
}

/// What becomes of sessions, turns and counters when a message is routed.
pub struct Routed {
    pub sessions: Seq<SessionView>,
    pub turns: Map<(Seq<char>, Seq<char>), u64>,
    /// How many deliveries were made.
    pub delivered: nat,
    /// How many messages queues gave up for it.
    pub dropped: nat,
}

/// Routes a message that has not expired: every session with a matching
/// ordinary subscription gets it once, and one member of each matching shared
/// subscription gets it, in turn.
pub open spec fn routed(
    sessions: Seq<SessionView>,
    turns: Map<(Seq<char>, Seq<char>), u64>,
    publisher: Option<Seq<char>>,
    m: MessageView,
    max_queued: nat,
    now: u64,
) -> Routed {
    if m.expired(now) {
        Routed { sessions, turns, delivered: 0, dropped: 0 }
    } else {
        let groups = groups_of(sessions, publisher, m);
        let mid = all_offered(sessions, publisher, m, max_queued, now);
        let members = chosen(turns, groups);
        Routed {
            sessions: all_given(mid, members, m, max_queued, now),
            turns: turned(turns, groups),
            delivered: offer_count(sessions, publisher, m) + groups.len(),
            dropped: offer_drop_count(sessions, publisher, m, max_queued, now) + giving_drop_count(
                mid,
                members,
                m,
                max_queued,
                now,
            ),
        }
    }
}

/// Routes a message to the sessions. Returns whether a subscription matched.
pub fn route(
    sessions: &mut Vec<Session>,
    turns: &mut Turns,
    metrics: &mut Metrics,
    publisher: Option<&str>,
    message: &Message,
    max_queued: usize,
    now: u64,
) -> (any: bool)
    requires
        sessions_wf(text::views(old(sessions)@)),
        turns_distinct(old(turns)@),
    ensures
        ({
            let r = routed(
                text::views(old(sessions)@),
                turns_map(old(turns)@),
                text::opt_view(publisher),
                message@,
                max_queued as nat,
                now,
            );
            &&& text::views(final(sessions)@) == r.sessions
            &&& turns_map(final(turns)@) == r.turns
            &&& any == (r.delivered > 0)
            &&& *final(metrics) == (Metrics {
                publish_delivered: counted(old(metrics).publish_delivered, r.delivered),
                publish_dropped: counted(old(metrics).publish_dropped, r.dropped),
                ..*old(metrics)
            })
        }),
        sessions_wf(text::views(final(sessions)@)),
        turns_distinct(final(turns)@),
{
    proof {
        metrics::lemma_counted(metrics.publish_delivered, 0, 0);
        metrics::lemma_counted(metrics.publish_dropped, 0, 0);
    }
    if message.is_expired_at(now) {
        return false;
    }
    let ghost before = text::views(sessions@);
    let ghost from = text::opt_view(publisher);
    let ghost m = message@;
    let ghost max = max_queued as nat;
    let ghost rr = turns_map(turns@);
    let mut groups: Vec<Group> = Vec::new();
    let any: bool = deliver_ordinary(
        sessions,
        publisher,
        message,
        max_queued,
        now,
        &mut groups,
        metrics,
    );
    let ghost gs = groups_of(before, from, m);
    let ghost mid = all_offered(before, from, m, max, now);
    deliver_shared(sessions, &groups, turns, message, max_queued, now, metrics);
    proof {
        assert(groups@.len() == gs.len());
        metrics::lemma_counted(
            old(metrics).publish_delivered,
            offer_count(before, from, m),
            gs.len(),
        );
        metrics::lemma_counted(
            old(metrics).publish_dropped,
            offer_drop_count(before, from, m, max, now),
            giving_drop_count(mid, chosen(rr, gs), m, max, now),
        );
    }
    any || groups.len() > 0
}

/// An ordinary subscription that matches gets the message, at its own QoS or
/// higher and never above that of the publication.
pub proof fn matching_subscription_gets_the_message(
    subs: Seq<SubscriptionView>,
    client_id: Seq<char>,
    publisher: Option<Seq<char>>,
    m: MessageView,
    i: int,
)
    requires
        0 <= i < subs.len(),
        hits(subs[i], client_id, publisher, m),
        subs[i].share_name is None,
    ensures
        offer(subs, client_id, publisher, m).qos matches Some(q) && m.qos.lower(
            subs[i].qos,
        ).code() <= q.code() <= m.qos.code(),
    decreases subs.len(),
{
    offer_is_of_a_match(subs.drop_last(), client_id, publisher, m);
    if i < subs.len() - 1 {
        matching_subscription_gets_the_message(subs.drop_last(), client_id, publisher, m, i);
    }
}

/// A session is offered a message only at the QoS of a subscription of its own
/// that matches.
pub proof fn offer_is_of_a_match(
    subs: Seq<SubscriptionView>,
    client_id: Seq<char>,
    publisher: Option<Seq<char>>,
    m: MessageView,
)
    ensures
        offer(subs, client_id, publisher, m).qos matches Some(q) ==> exists|i: int|
            0 <= i < subs.len() && hits(#[trigger] subs[i], client_id, publisher, m)
                && subs[i].share_name is None && q == m.qos.lower(subs[i].qos),
    decreases subs.len(),
{
    if subs.len() > 0 {
        let d = subs.drop_last();
        offer_is_of_a_match(d, client_id, publisher, m);
        let o = offer(subs, client_id, publisher, m);
        if o.qos is Some {
            let sub = subs.last();
            let q = o.qos->0;
            if hits(sub, client_id, publisher, m) && sub.share_name is None && q == m.qos.lower(
                sub.qos,
            ) {
                assert(subs[subs.len() - 1] == sub);
            } else {
                let i = choose|i: int|
                    0 <= i < d.len() && hits(#[trigger] d[i], client_id, publisher, m)
                        && d[i].share_name is None && q == m.qos.lower(d[i].qos);
                assert(subs[i] == d[i]);
            }
        }
    }
}

/// A session without a subscription that matches is left as it is.
pub proof fn unmatched_session_gets_nothing(
    s: SessionView,
    publisher: Option<Seq<char>>,
    m: MessageView,
    max_queued: nat,
    now: u64,
)
    requires
        forall|i: int|
            0 <= i < s.subscriptions.len() ==> !hits(
                #[trigger] s.subscriptions[i],
                s.client_id,
                publisher,
                m,
            ),
    ensures
        offered(s, publisher, m, max_queued, now) == s,
{
    offer_is_of_a_match(s.subscriptions, s.client_id, publisher, m);
}

/// One member of each shared subscription gets a message.
pub proof fn one_member_of_each_group(
    rr: Map<(Seq<char>, Seq<char>), u64>,
    groups: Seq<GroupView>,
    i: int,
)
    requires
        0 <= i < groups.len(),
        0 < groups[i].members.len() <= u64::MAX,
    ensures
        chosen(rr, groups).len() == groups.len(),
        groups[i].members.contains(chosen(rr, groups)[i]),
    decreases groups.len(),
{
    lemma_chosen_len(rr, groups);
    let d = groups.drop_last();
    lemma_chosen_len(rr, d);
    if i < d.len() {
        one_member_of_each_group(rr, d, i);
    } else {
        let g = groups.last();
        let t = turn(turned(rr, d), g.key);
        let n = g.members.len() as u64;
        assert(0 <= t % n < n);
        assert(g.members[(t % n) as int] == picked(g, t));
    }
}

proof fn lemma_chosen_len(rr: Map<(Seq<char>, Seq<char>), u64>, groups: Seq<GroupView>)
    ensures
        chosen(rr, groups).len() == groups.len(),
    decreases groups.len(),
{
    if groups.len() > 0 {
        lemma_chosen_len(rr, groups.drop_last());
    }
}

/// Every member of a shared subscription has its turn within as many messages
/// as there are members.
pub proof fn members_take_turns(g: GroupView, t: u64, j: int)
    requires
        0 <= j < g.members.len(),
        t + g.members.len() <= u64::MAX,
    ensures
        exists|k: nat|
            k < g.members.len() && #[trigger] picked(g, counted(t, k)) == g.members[j],
{
    let n = g.members.len() as int;
    let k = ((j - t) % n) as nat;
    assert(0 <= k < n) by (nonlinear_arith)
        requires
            n > 0,
            k == (j - t) % n,
    ;
    assert((t + k) % n == j) by {
        vstd::arithmetic::div_mod::lemma_add_mod_noop(t as int, j - t, n);
        vstd::arithmetic::div_mod::lemma_mod_twice(j - t, n);
        vstd::arithmetic::div_mod::lemma_add_mod_noop_right(t as int, j - t, n);
        vstd::arithmetic::div_mod::lemma_small_mod(j as nat, n as nat);
    }
    assert(counted(t, k) == t + k);
    assert(picked(g, counted(t, k)) == g.members[j]);
}

/// A message moves the turn of a shared subscription on by one.
pub proof fn each_group_moves_on(
    rr: Map<(Seq<char>, Seq<char>), u64>,
    groups: Seq<GroupView>,
    i: int,
)
    requires
        0 <= i < groups.len(),
        forall|a: int, b: int|
            0 <= a < b < groups.len() ==> (#[trigger] groups[a]).key != (#[trigger] groups[b]).key,
    ensures
        turn(turned(rr, groups), groups[i].key) == counted(turn(rr, groups[i].key), 1),
    decreases groups.len(),
{
    let d = groups.drop_last();
    assert forall|a: int, b: int| 0 <= a < b < d.len() implies (#[trigger] d[a]).key != (
    #[trigger] d[b]).key by {
        assert(groups[a].key != groups[b].key);
    }
    if i < d.len() {
        each_group_moves_on(rr, d, i);
        assert(groups[i].key != groups[groups.len() - 1].key);
    } else {
        lemma_turn_elsewhere(rr, d, groups[i].key);
    }
}

proof fn lemma_turn_elsewhere(
    rr: Map<(Seq<char>, Seq<char>), u64>,
    groups: Seq<GroupView>,
    key: (Seq<char>, Seq<char>),
)
    requires
        forall|a: int| 0 <= a < groups.len() ==> (#[trigger] groups[a]).key != key,
    ensures
        turn(turned(rr, groups), key) == turn(rr, key),
    decreases groups.len(),
{
    if groups.len() > 0 {
        lemma_turn_elsewhere(rr, groups.drop_last(), key);
        assert(groups[groups.len() - 1].key != key);
    }
}

} // verus!
