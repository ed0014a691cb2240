//! Acknowledgements: what PUBACK, PUBREC, PUBREL and PUBCOMP do to a session,
//! and the publications and topic aliases that a session remembers.

use vstd::prelude::*;
use crate::broker::delivery::flush_queue;
use crate::broker::session;
use crate::broker::session::{
    ack_view, alias_views, disjoint, distinct, find_id, find_key, inflight_views, keys, without,
    without_id, Outgoing, OutgoingView, Session, SessionView,
};
use crate::packet::{Packet, PacketView, PubAck, Publish};
use crate::text;
use crate::types::ReasonCode;

verus! {

broadcast use text::group_views;

/// The topic of an alias.
pub open spec fn alias_topic(aliases: Seq<(u16, Seq<char>)>, alias: u16) -> Option<Seq<char>> {
    let i = text::first_place(keys(aliases), alias);
    if i < aliases.len() {
        Some(aliases[i].1)
    } else {
        None
    }
}

/// The aliases with one for a topic, in place of what it stood for before.
pub open spec fn alias_set(
    aliases: Seq<(u16, Seq<char>)>,
    alias: u16,
    topic: Seq<char>,
) -> Seq<(u16, Seq<char>)> {
    let i = text::first_place(keys(aliases), alias);
    if i < aliases.len() {
        aliases.update(i, (alias, topic))
    } else {
        aliases.push((alias, topic))
    }
}

impl SessionView {
    /// The session after a PUBACK: the delivery is done, and the queue goes on.
    pub open spec fn after_puback(self, id: u16, now: u64) -> SessionView {
        SessionView { awaiting_puback: without(self.awaiting_puback, id), ..self }.flushed(now)
    }

    /// The session after a PUBREC. A refused delivery is done; a known one goes
    /// on with PUBREL; of an unknown one the client is told.
    pub open spec fn after_pubrec(self, id: u16, reason: ReasonCode) -> SessionView {
        let known = keys(self.awaiting_pubrec).contains(id);
        let s = SessionView { awaiting_pubrec: without(self.awaiting_pubrec, id), ..self };
        if reason.code() >= 0x80 {
            s
        } else if known {
            SessionView { awaiting_pubcomp: s.awaiting_pubcomp.push(id), ..s }.sent(
                OutgoingView::Control(PacketView::Pubrel(ack_view(id, ReasonCode::Success))),
            )
        } else {
            s.sent(
                OutgoingView::Control(
                    PacketView::Pubrel(ack_view(id, ReasonCode::PacketIdentifierNotFound)),
                ),
            )
        }
    }

    /// The session after a PUBREL: the publication is done, and PUBCOMP says
    /// whether it was known.
    pub open spec fn after_pubrel(self, id: u16) -> SessionView {
        let reason = if self.inbound_qos2.contains(id) {
            ReasonCode::Success
        } else {
            ReasonCode::PacketIdentifierNotFound
        };
        SessionView { inbound_qos2: without_id(self.inbound_qos2, id), ..self }.sent(
            OutgoingView::Control(PacketView::Pubcomp(ack_view(id, reason))),
        )
    }

    /// The session after a PUBCOMP: the delivery is done, and the queue goes
    /// on.
    pub open spec fn after_pubcomp(self, id: u16, now: u64) -> SessionView {
        SessionView { awaiting_pubcomp: without_id(self.awaiting_pubcomp, id), ..self }.flushed(now)
    }

    /// The session that remembers a QoS 2 publication until PUBREL.
    pub open spec fn with_qos2(self, id: u16) -> SessionView {
        SessionView {
            inbound_qos2: if self.inbound_qos2.contains(id) {
                self.inbound_qos2
            } else {
                self.inbound_qos2.push(id)
            },
            ..self
        }
    }

    /// The session that remembers a topic alias.
    pub open spec fn with_alias(self, alias: u16, topic: Seq<char>) -> SessionView {
        SessionView { inbound_aliases: alias_set(self.inbound_aliases, alias, topic), ..self }
    }
}

proof fn lemma_without_keys<T>(s: Seq<(u16, T)>, id: u16)
    ensures
        keys(without(s, id)) == without_id(keys(s), id),
{
    text::lemma_first_place_is(keys(s), id);
    assert(keys(without(s, id)) =~= without_id(keys(s), id));
}

/// A list of different numbers without one of them.
proof fn lemma_without_id(s: Seq<u16>, id: u16)
    requires
        distinct(s),
    ensures
        distinct(without_id(s, id)),
        without_id(s, id).len() <= s.len(),
        s.contains(id) ==> without_id(s, id).len() < s.len(),
        !s.contains(id) ==> without_id(s, id) == s,
        !without_id(s, id).contains(id),
        forall|x: u16| #[trigger] without_id(s, id).contains(x) ==> s.contains(x),
        forall|k: int|
            0 <= k < without_id(s, id).len() ==> s.contains(#[trigger] without_id(s, id)[k]),
{
    text::lemma_first_place_is(s, id);
    let i = text::first_place(s, id);
    let u = without_id(s, id);
    if i < s.len() {
        assert forall|a: int, b: int| 0 <= a < b < u.len() implies #[trigger] u[a] != #[trigger] u[b] by {
            let x = if a < i {
                a
            } else {
                a + 1
            };
            let y = if b < i {
                b
            } else {
                b + 1
            };
            assert(s[x] != s[y]);
        }
        assert forall|k: int| 0 <= k < u.len() implies s.contains(#[trigger] u[k]) && u[k] != id by {
            let x = if k < i {
                k
            } else {
                k + 1
            };
            assert(u[k] == s[x]);
            if x < i {
                assert(s[x] != s[i]);
            } else {
                assert(s[i] != s[x]);
            }
        }
    }
}

proof fn lemma_disjoint_subset(s: Seq<u16>, t: Seq<u16>, u: Seq<u16>)
    requires
        disjoint(s, t),
        forall|k: int| 0 <= k < u.len() ==> s.contains(#[trigger] u[k]),
    ensures
        disjoint(u, t),
        disjoint(t, u),
{
    assert forall|a: int, b: int| 0 <= a < u.len() && 0 <= b < t.len() implies #[trigger] u[a]
        != #[trigger] t[b] by {
        assert(s.contains(u[a]));
        let x = choose|x: int| 0 <= x < s.len() && s[x] == u[a];
        assert(s[x] != t[b]);
    }
}

proof fn lemma_disjoint_flip(s: Seq<u16>, t: Seq<u16>)
    requires
        disjoint(s, t),
    ensures
        disjoint(t, s),
{
    assert forall|a: int, b: int| 0 <= a < t.len() && 0 <= b < s.len() implies #[trigger] t[a]
        != #[trigger] s[b] by {
        assert(s[b] != t[a]);
    }
}

/// A PUBACK keeps the invariant of a session and frees its identifier.
pub proof fn puback_frees_its_identifier(s: SessionView, id: u16)
    requires
        s.wf(),
    ensures
        ({
            let t = SessionView { awaiting_puback: without(s.awaiting_puback, id), ..s };
            &&& t.wf()
            &&& !keys(t.awaiting_puback).contains(id)
            &&& keys(s.awaiting_puback).contains(id) ==> !t.id_in_use(id)
        }),
{
    let t = SessionView { awaiting_puback: without(s.awaiting_puback, id), ..s };
    let k = keys(s.awaiting_puback);
    lemma_without_keys(s.awaiting_puback, id);
    lemma_without_id(k, id);
    lemma_disjoint_subset(k, keys(s.awaiting_pubrec), keys(t.awaiting_puback));
    lemma_disjoint_subset(k, s.awaiting_pubcomp, keys(t.awaiting_puback));
    assert(keys(t.awaiting_puback).len() == t.awaiting_puback.len());
    if k.contains(id) {
        let x = choose|x: int| 0 <= x < k.len() && k[x] == id;
        if keys(s.awaiting_pubrec).contains(id) {
            let y = choose|y: int|
                0 <= y < keys(s.awaiting_pubrec).len() && keys(s.awaiting_pubrec)[y] == id;
            assert(k[x] != keys(s.awaiting_pubrec)[y]);
        }
        if s.awaiting_pubcomp.contains(id) {
            let y = choose|y: int| 0 <= y < s.awaiting_pubcomp.len() && s.awaiting_pubcomp[y] == id;
            assert(k[x] != s.awaiting_pubcomp[y]);
        }
    }
}

/// Taking a delivery out of those that wait for PUBREC keeps the invariant and
/// frees its identifier.
proof fn lemma_take_pubrec(s: SessionView, id: u16)
    requires
        s.wf(),
    ensures
        ({
            let t = SessionView { awaiting_pubrec: without(s.awaiting_pubrec, id), ..s };
            &&& t.wf()
            &&& keys(s.awaiting_pubrec).contains(id) ==> !t.id_in_use(id) && t.inflight() < 65535
            &&& !keys(s.awaiting_pubrec).contains(id) ==> t == s
        }),
{
    let t = SessionView { awaiting_pubrec: without(s.awaiting_pubrec, id), ..s };
    let k = keys(s.awaiting_pubrec);
    lemma_without_keys(s.awaiting_pubrec, id);
    lemma_without_id(k, id);
    text::lemma_first_place_is(k, id);
    lemma_disjoint_flip(keys(s.awaiting_puback), k);
    lemma_disjoint_subset(k, keys(s.awaiting_puback), keys(t.awaiting_pubrec));
    lemma_disjoint_subset(k, s.awaiting_pubcomp, keys(t.awaiting_pubrec));
    assert(keys(t.awaiting_pubrec).len() == t.awaiting_pubrec.len());
    assert(k.len() == s.awaiting_pubrec.len());
    if k.contains(id) {
        let x = choose|x: int| 0 <= x < k.len() && k[x] == id;
        if keys(s.awaiting_puback).contains(id) {
            let y = choose|y: int|
                0 <= y < keys(s.awaiting_puback).len() && keys(s.awaiting_puback)[y] == id;
            assert(keys(s.awaiting_puback)[y] != k[x]);
        }
        if s.awaiting_pubcomp.contains(id) {
            let y = choose|y: int| 0 <= y < s.awaiting_pubcomp.len() && s.awaiting_pubcomp[y] == id;
            assert(k[x] != s.awaiting_pubcomp[y]);
        }
    }
}

/// A PUBREC keeps the invariant of a session, moves a known delivery on to
/// PUBCOMP, and ends one that the client refuses.
pub proof fn pubrec_moves_on_or_ends(s: SessionView, id: u16, reason: ReasonCode)
    requires
        s.wf(),
    ensures
        ({
            let t = s.after_pubrec(id, reason);
            &&& t.wf()
            &&& !keys(t.awaiting_pubrec).contains(id)
            &&& keys(s.awaiting_pubrec).contains(id) ==> t.id_in_use(id) == (reason.code() < 0x80)
        }),
{
    let m = SessionView { awaiting_pubrec: without(s.awaiting_pubrec, id), ..s };
    lemma_take_pubrec(s, id);
    lemma_without_keys(s.awaiting_pubrec, id);
    lemma_without_id(keys(s.awaiting_pubrec), id);
    let t = s.after_pubrec(id, reason);
    if reason.code() < 0x80 && keys(s.awaiting_pubrec).contains(id) {
        let c = m.awaiting_pubcomp.push(id);
        assert(t.awaiting_pubcomp =~= c);
        assert(c.last() == id);
        assert(c.contains(id));
        assert(distinct(c)) by {
            assert forall|a: int, b: int| 0 <= a < b < c.len() implies #[trigger] c[a]
                != #[trigger] c[b] by {
                if b == m.awaiting_pubcomp.len() {
                    assert(m.awaiting_pubcomp.contains(m.awaiting_pubcomp[a]));
                }
            }
        }
        assert(disjoint(keys(t.awaiting_puback), c)) by {
            assert forall|a: int, b: int|
                0 <= a < keys(t.awaiting_puback).len() && 0 <= b < c.len() implies #[trigger] keys(
                t.awaiting_puback,
            )[a] != #[trigger] c[b] by {
                assert(keys(t.awaiting_puback).contains(keys(t.awaiting_puback)[a]));
                if b < m.awaiting_pubcomp.len() {
                    assert(c[b] == m.awaiting_pubcomp[b]);
                    assert(keys(m.awaiting_puback)[a] != m.awaiting_pubcomp[b]);
                }
            }
        }
        assert(disjoint(keys(t.awaiting_pubrec), c)) by {
            assert forall|a: int, b: int|
                0 <= a < keys(t.awaiting_pubrec).len() && 0 <= b < c.len() implies #[trigger] keys(
                t.awaiting_pubrec,
            )[a] != #[trigger] c[b] by {
                assert(keys(t.awaiting_pubrec).contains(keys(t.awaiting_pubrec)[a]));
                if b < m.awaiting_pubcomp.len() {
                    assert(c[b] == m.awaiting_pubcomp[b]);
                    assert(keys(m.awaiting_pubrec)[a] != m.awaiting_pubcomp[b]);
                }
            }
        }
        assert(!c.contains(0)) by {
            if c.contains(0) {
                let y = choose|y: int| 0 <= y < c.len() && c[y] == 0;
                if y < m.awaiting_pubcomp.len() {
                    assert(m.awaiting_pubcomp.contains(m.awaiting_pubcomp[y]));
                } else {
                    assert(keys(s.awaiting_pubrec).contains(0));
                }
            }
        }
    }
}

/// A PUBCOMP keeps the invariant of a session and frees its identifier.
pub proof fn pubcomp_frees_its_identifier(s: SessionView, id: u16)
    requires
        s.wf(),
    ensures
        ({
            let t = SessionView { awaiting_pubcomp: without_id(s.awaiting_pubcomp, id), ..s };
            &&& t.wf()
            &&& !t.awaiting_pubcomp.contains(id)
            &&& s.awaiting_pubcomp.contains(id) ==> !t.id_in_use(id)
        }),
{
    let t = SessionView { awaiting_pubcomp: without_id(s.awaiting_pubcomp, id), ..s };
    let k = s.awaiting_pubcomp;
    lemma_without_id(k, id);
    lemma_disjoint_flip(keys(s.awaiting_puback), k);
    lemma_disjoint_flip(keys(s.awaiting_pubrec), k);
    lemma_disjoint_subset(k, keys(s.awaiting_puback), t.awaiting_pubcomp);
    lemma_disjoint_subset(k, keys(s.awaiting_pubrec), t.awaiting_pubcomp);
    if k.contains(id) {
        let x = choose|x: int| 0 <= x < k.len() && k[x] == id;
        if keys(s.awaiting_puback).contains(id) {
            let y = choose|y: int|
                0 <= y < keys(s.awaiting_puback).len() && keys(s.awaiting_puback)[y] == id;
            assert(keys(s.awaiting_puback)[y] != k[x]);
        }
        if keys(s.awaiting_pubrec).contains(id) {
            let y = choose|y: int|
                0 <= y < keys(s.awaiting_pubrec).len() && keys(s.awaiting_pubrec)[y] == id;
            assert(keys(s.awaiting_pubrec)[y] != k[x]);
        }
    }
}

/// A publication that was released is not remembered, so the next one with its
/// identifier is not taken for a duplicate.
pub proof fn released_publication_is_forgotten(s: SessionView, id: u16)
    requires
        s.wf(),
    ensures
        !s.after_pubrel(id).inbound_qos2.contains(id),
        s.with_qos2(id).inbound_qos2.contains(id),
        s.with_qos2(id).wf(),
        s.after_pubrel(id).wf(),
{
    lemma_without_id(s.inbound_qos2, id);
    let c = s.with_qos2(id).inbound_qos2;
    if !s.inbound_qos2.contains(id) {
        assert(c.last() == id);
        assert forall|a: int, b: int| 0 <= a < b < c.len() implies #[trigger] c[a] != #[trigger] c[b] by {
            if b == s.inbound_qos2.len() {
                assert(s.inbound_qos2.contains(s.inbound_qos2[a]));
            }
        }
    }
}

/// A topic alias stands for the topic that it was last given.
pub proof fn alias_stands_for_its_last_topic(
    aliases: Seq<(u16, Seq<char>)>,
    alias: u16,
    topic: Seq<char>,
    other: u16,
)
    ensures
        alias_topic(alias_set(aliases, alias, topic), alias) == Some(topic),
        other != alias ==> alias_topic(alias_set(aliases, alias, topic), other) == alias_topic(
            aliases,
            other,
        ),
        distinct(keys(aliases)) ==> distinct(keys(alias_set(aliases, alias, topic))),
{
    let k = keys(aliases);
    let i = text::first_place(k, alias);
    text::lemma_first_place_is(k, alias);
    text::lemma_first_place_is(k, other);
    let u = alias_set(aliases, alias, topic);
    if i < aliases.len() {
        assert(keys(u) =~= k);
    } else {
        assert(keys(u) =~= k.push(alias));
        text::lemma_first_place(keys(u), alias, i);
        if other != alias {
            let p = text::first_place(k, other);
            if p < k.len() {
                assert forall|j: int| 0 <= j < p implies #[trigger] keys(u)[j] != other by {
                    assert(k[j] != other);
                }
                text::lemma_first_place(keys(u), other, p);
            } else {
                assert forall|j: int| 0 <= j < keys(u).len() implies #[trigger] keys(u)[j] != other by {
                    if j < k.len() {
                        assert(k[j] != other);
                    }
                }
                text::lemma_first_place(keys(u), other, keys(u).len() as int);
            }
        }
    }
}

impl Session {
    /// Handles a PUBACK.
    pub fn puback(&mut self, id: u16, now: u64)
        requires
            old(self)@.wf(),
        ensures
            final(self)@ == old(self)@.after_puback(id, now),
            final(self)@.wf(),
    {
        let ghost before = self@;
        proof {
            puback_frees_its_identifier(before, id);
            session::lemma_inflight_keys(self.awaiting_puback@);
        }
        let i: usize = find_key(&self.awaiting_puback, id);
        if i < self.awaiting_puback.len() {
            let ghost list = self.awaiting_puback@;
            let gone: (u16, Publish) = self.awaiting_puback.remove(i);
            assert(inflight_views(self.awaiting_puback@) =~= inflight_views(list).remove(i as int));
        }
        assert(self@ =~= (SessionView {
            awaiting_puback: without(before.awaiting_puback, id),
            ..before
        }));
        flush_queue(self, now);
    }

    /// Handles a PUBREC.
    pub fn pubrec(&mut self, id: u16, reason: ReasonCode)
        requires
            old(self)@.wf(),
        ensures
            final(self)@ == old(self)@.after_pubrec(id, reason),
            final(self)@.wf(),
    {
        let ghost before = self@;
        proof {
            pubrec_moves_on_or_ends(before, id, reason);
            session::lemma_inflight_keys(self.awaiting_pubrec@);
            text::lemma_first_place_is(keys(before.awaiting_pubrec), id);
        }
        let i: usize = find_key(&self.awaiting_pubrec, id);
        let known: bool = i < self.awaiting_pubrec.len();
        if known {
            let ghost list = self.awaiting_pubrec@;
            let gone: (u16, Publish) = self.awaiting_pubrec.remove(i);
            assert(inflight_views(self.awaiting_pubrec@) =~= inflight_views(list).remove(i as int));
        }
        let ghost mid = SessionView {
            awaiting_pubrec: without(before.awaiting_pubrec, id),
            ..before
        };
        assert(self@ =~= mid);
        if reason.is_error() {
            return;
        }
        let rc: ReasonCode = if known {
            self.awaiting_pubcomp.push(id);
            ReasonCode::Success
        } else {
            ReasonCode::PacketIdentifierNotFound
        };
        let item: Outgoing = Outgoing::Control(Box::new(Packet::Pubrel(PubAck::new(id, rc))));
        self.send(item);
        assert(self@ =~= before.after_pubrec(id, reason));
    }

    /// Handles a PUBREL.
    pub fn pubrel(&mut self, id: u16)
        requires
            old(self)@.wf(),
        ensures
            final(self)@ == old(self)@.after_pubrel(id),
            final(self)@.wf(),
    {
        let ghost before = self@;
        proof {
            text::lemma_first_place_is(before.inbound_qos2, id);
            released_publication_is_forgotten(before, id);
        }
        let i: usize = find_id(&self.inbound_qos2, id);
        let existed: bool = i < self.inbound_qos2.len();
        if existed {
            let gone: u16 = self.inbound_qos2.remove(i);
        }
        let rc: ReasonCode = if existed {
            ReasonCode::Success
        } else {
            ReasonCode::PacketIdentifierNotFound
        };
        let item: Outgoing = Outgoing::Control(Box::new(Packet::Pubcomp(PubAck::new(id, rc))));
        self.send(item);
        assert(self@ =~= before.after_pubrel(id));
    }

    /// Handles a PUBCOMP.
    pub fn pubcomp(&mut self, id: u16, now: u64)
        requires
            old(self)@.wf(),
        ensures
            final(self)@ == old(self)@.after_pubcomp(id, now),
            final(self)@.wf(),
    {
        let ghost before = self@;
        proof {
            pubcomp_frees_its_identifier(before, id);
        }
        let i: usize = find_id(&self.awaiting_pubcomp, id);
        if i < self.awaiting_pubcomp.len() {
            let gone: u16 = self.awaiting_pubcomp.remove(i);
        }
        assert(self@ =~= (SessionView {
            awaiting_pubcomp: without_id(before.awaiting_pubcomp, id),
            ..before
        }));
        flush_queue(self, now);
    }

    /// Remembers a QoS 2 publication. Returns whether it was known.
    pub fn note_qos2(&mut self, id: u16) -> (duplicate: bool)
        requires
            old(self)@.wf(),
        ensures
            duplicate == old(self)@.inbound_qos2.contains(id),
            final(self)@ == old(self)@.with_qos2(id),
            final(self)@.wf(),
    {
        let ghost before = self@;
        proof {
            text::lemma_first_place_is(before.inbound_qos2, id);
            released_publication_is_forgotten(before, id);
        }
        let i: usize = find_id(&self.inbound_qos2, id);
        if i < self.inbound_qos2.len() {
            return true;
        }
        self.inbound_qos2.push(id);
        assert(self@ =~= before.with_qos2(id));
        false
    }

    /// The topic that an alias stands for.
    pub fn topic_of_alias(&self, alias: u16) -> (r: Option<String>)
        ensures
            text::opt_view(r) == alias_topic(self@.inbound_aliases, alias),
    {
        proof {
            session::lemma_alias_keys(self.inbound_aliases@);
        }
        let i: usize = find_key(&self.inbound_aliases, alias);
        if i < self.inbound_aliases.len() {
            Some(self.inbound_aliases[i].1.clone())
        } else {
            None
        }
    }

    /// Remembers a topic alias.
    pub fn set_alias(&mut self, alias: u16, topic: String)
        requires
            old(self)@.wf(),
        ensures
            final(self)@ == old(self)@.with_alias(alias, topic@),
            final(self)@.wf(),
    {
        let ghost before = self@;
        let ghost list = self.inbound_aliases@;
        proof {
            session::lemma_alias_keys(list);
            alias_stands_for_its_last_topic(alias_views(list), alias, topic@, alias);
        }
        let i: usize = find_key(&self.inbound_aliases, alias);
        if i < self.inbound_aliases.len() {
            self.inbound_aliases.set(i, (alias, topic));
        } else {
            self.inbound_aliases.push((alias, topic));
        }
        assert(alias_views(self.inbound_aliases@) =~= alias_set(
            alias_views(list),
            alias,
            topic@,
        ));
        assert(self@ =~= before.with_alias(alias, topic@));
    }
}

} // verus!
