//! Laws of acknowledgements: what PUBACK, PUBREC, PUBREL and PUBCOMP of a client
//! do to its session, and what the client is answered.

use vstd::prelude::*;
use crate::broker::acks;
use crate::broker::delivery_laws;
use crate::broker::delivery_laws::is_taken;
use crate::broker::session;
use crate::broker::session::{keys, OutgoingView, SessionView};
use crate::broker::{lemma_session, lemma_with, lemma_with_other, Action, BrokerView};
use crate::codec::PropertiesView;
use crate::packet::{PacketView, PubAckView, PublishView};
use crate::text;
use crate::types::ReasonCode;

verus! {

/// An acknowledgement of a packet identifier without properties.
pub open spec fn plain_ack(packet_id: u16, reason_code: ReasonCode) -> PubAckView {
    PubAckView {
        packet_id,
        reason_code,
        properties: PropertiesView {
            single: Map::empty(),
            subscription_identifiers: Seq::empty(),
            user_properties: Seq::empty(),
        },
    }
}

/// A connection with one more packet on its way; without a connection there is
/// nothing.
pub open spec fn with_packet(out: Option<Seq<OutgoingView>>, p: PacketView) -> Option<
    Seq<OutgoingView>,
> {
    match out {
        Some(items) => Some(items.push(OutgoingView::Control(p))),
        None => None,
    }
}

/// Whether a broker differs from another in the session of one client alone.
pub open spec fn differs_in(t: BrokerView, b: BrokerView, client_id: Seq<char>) -> bool {
    &&& t == (BrokerView { sessions: t.sessions, ..b })
    &&& forall|other: Seq<char>|
        other != client_id ==> #[trigger] t.session(other) == b.session(other)
}

pub(crate) proof fn lemma_differs(b: BrokerView, s: SessionView)
    requires
        b.wf(),
        s.wf(),
    ensures
        differs_in(b.with(s), b, s.client_id),
        b.with(s).session(s.client_id) == Some(s),
        b.with(s).wf(),
{
    lemma_with(b, s);
    assert forall|other: Seq<char>| other != s.client_id implies #[trigger] b.with(s).session(other)
        == b.session(other) by {
        lemma_with_other(b, s, other);
    }
}

proof fn lemma_key_place(s: Seq<(u16, PublishView)>, id: u16, k: int)
    requires
        session::distinct(keys(s)),
        0 <= k < s.len(),
        s[k].0 == id,
    ensures
        keys(s).contains(id),
        session::without(s, id) == s.remove(k),
{
    text::lemma_first_place_is(keys(s), id);
    assert(keys(s)[k] == id);
    let i = text::first_place(keys(s), id);
    if i < k {
        assert(keys(s)[i] != keys(s)[k]);
    }
}

proof fn lemma_no_key(s: Seq<(u16, PublishView)>, id: u16)
    requires
        forall|k: int| 0 <= k < s.len() ==> (#[trigger] s[k]).0 != id,
    ensures
        !keys(s).contains(id),
        session::without(s, id) == s,
{
    text::lemma_first_place_is(keys(s), id);
    if keys(s).contains(id) {
        let k = choose|k: int| 0 <= k < keys(s).len() && keys(s)[k] == id;
        assert(s[k].0 == id);
    }
}

/// A PUBREC without an error, for a delivery that waits for it, is answered:
/// PUBREL with the same packet identifier and reason Success is the last item on
/// its way to the client, after what was there before. The delivery waits for
/// PUBCOMP from then on, and nothing else changes.
pub proof fn known_pubrec_is_answered_with_pubrel(
    b: BrokerView,
    client_id: Seq<char>,
    a: PubAckView,
    now: u64,
    k: int,
)
    requires
        b.wf(),
        b.session(client_id) matches Some(s) && 0 <= k < s.awaiting_pubrec.len()
            && s.awaiting_pubrec[k].0 == a.packet_id,
        a.reason_code.code() < 0x80,
    ensures
        ({
            let s = b.session(client_id)->0;
            let (t, action) = b.on_packet(client_id, PacketView::Pubrec(a), now);
            &&& action == Action::Continue
            &&& t.session(client_id) == Some(
                SessionView {
                    awaiting_pubrec: s.awaiting_pubrec.remove(k),
                    awaiting_pubcomp: s.awaiting_pubcomp.push(a.packet_id),
                    out: with_packet(
                        s.out,
                        PacketView::Pubrel(plain_ack(a.packet_id, ReasonCode::Success)),
                    ),
                    ..s
                },
            )
            &&& differs_in(t, b, client_id)
        }),
{
    let s = b.session(client_id)->0;
    lemma_session(b, client_id);
    lemma_key_place(s.awaiting_pubrec, a.packet_id, k);
    acks::pubrec_moves_on_or_ends(s, a.packet_id, a.reason_code);
    lemma_differs(b, s.after_pubrec(a.packet_id, a.reason_code));
    assert(PropertiesView::empty().single =~= Map::empty());
}

/// A PUBREC with an error ends the delivery: its identifier is free, and the
/// client is sent nothing.
pub proof fn refused_delivery_ends(
    b: BrokerView,
    client_id: Seq<char>,
    a: PubAckView,
    now: u64,
    k: int,
)
    requires
        b.wf(),
        b.session(client_id) matches Some(s) && 0 <= k < s.awaiting_pubrec.len()
            && s.awaiting_pubrec[k].0 == a.packet_id,
        a.reason_code.code() >= 0x80,
    ensures
        ({
            let s = b.session(client_id)->0;
            let (t, action) = b.on_packet(client_id, PacketView::Pubrec(a), now);
            &&& action == Action::Continue
            &&& t.session(client_id) == Some(
                SessionView { awaiting_pubrec: s.awaiting_pubrec.remove(k), ..s },
            )
            &&& !is_taken(t.session(client_id)->0, a.packet_id)
            &&& differs_in(t, b, client_id)
        }),
{
    let s = b.session(client_id)->0;
    lemma_session(b, client_id);
    lemma_key_place(s.awaiting_pubrec, a.packet_id, k);
    acks::pubrec_moves_on_or_ends(s, a.packet_id, a.reason_code);
    let t = s.after_pubrec(a.packet_id, a.reason_code);
    lemma_differs(b, t);
    delivery_laws::lemma_taken(t, a.packet_id);
}

/// A PUBREC for a delivery that does not wait for it changes no delivery. One
/// without an error is answered with PUBREL that says that the identifier is
/// not known; one with an error is not answered.
pub proof fn unknown_pubrec_changes_no_delivery(
    b: BrokerView,
    client_id: Seq<char>,
    a: PubAckView,
    now: u64,
)
    requires
        b.wf(),
        b.session(client_id) matches Some(s) && forall|k: int|
            0 <= k < s.awaiting_pubrec.len() ==> (#[trigger] s.awaiting_pubrec[k]).0 != a.packet_id,
    ensures
        ({
            let s = b.session(client_id)->0;
            let (t, action) = b.on_packet(client_id, PacketView::Pubrec(a), now);
            &&& action == Action::Continue
            &&& t.session(client_id) == Some(
                SessionView {
                    out: if a.reason_code.code() >= 0x80 {
                        s.out
                    } else {
                        with_packet(
                            s.out,
                            PacketView::Pubrel(
                                plain_ack(a.packet_id, ReasonCode::PacketIdentifierNotFound),
                            ),
                        )
                    },
                    ..s
                },
            )
            &&& differs_in(t, b, client_id)
        }),
{
    let s = b.session(client_id)->0;
    lemma_session(b, client_id);
    lemma_no_key(s.awaiting_pubrec, a.packet_id);
    acks::pubrec_moves_on_or_ends(s, a.packet_id, a.reason_code);
    lemma_differs(b, s.after_pubrec(a.packet_id, a.reason_code));
    assert(PropertiesView::empty().single =~= Map::empty());
}

/// A PUBREL is always answered: PUBCOMP with the same packet identifier is the
/// last item on its way to the client, with reason Success exactly where the
/// publication was remembered. It is not remembered after that; all others
/// are, and nothing else changes.
pub proof fn pubrel_is_answered_with_pubcomp(
    b: BrokerView,
    client_id: Seq<char>,
    a: PubAckView,
    now: u64,
)
    requires
        b.wf(),
        b.session(client_id) is Some,
    ensures
        ({
            let s = b.session(client_id)->0;
            let (t, action) = b.on_packet(client_id, PacketView::Pubrel(a), now);
            let u = t.session(client_id)->0;
            &&& action == Action::Continue
            &&& t.session(client_id) == Some(
                SessionView {
                    inbound_qos2: u.inbound_qos2,
                    out: with_packet(
                        s.out,
                        PacketView::Pubcomp(
                            plain_ack(
                                a.packet_id,
                                if s.inbound_qos2.contains(a.packet_id) {
                                    ReasonCode::Success
                                } else {
                                    ReasonCode::PacketIdentifierNotFound
                                },
                            ),
                        ),
                    ),
                    ..s
                },
            )
            &&& forall|x: u16| #[trigger]
                u.inbound_qos2.contains(x) <==> s.inbound_qos2.contains(x) && x != a.packet_id
            &&& differs_in(t, b, client_id)
        }),
{
    let s = b.session(client_id)->0;
    lemma_session(b, client_id);
    acks::released_publication_is_forgotten(s, a.packet_id);
    let u = s.after_pubrel(a.packet_id);
    lemma_differs(b, u);
    lemma_rest_stays(s.inbound_qos2, a.packet_id);
    assert(PropertiesView::empty().single =~= Map::empty());
}

proof fn lemma_rest_stays(s: Seq<u16>, id: u16)
    requires
        session::distinct(s),
    ensures
        forall|x: u16| #[trigger]
            session::without_id(s, id).contains(x) <==> s.contains(x) && x != id,
{
    let i = text::first_place(s, id);
    text::lemma_first_place_is(s, id);
    let u = session::without_id(s, id);
    assert forall|x: u16| #[trigger] u.contains(x) <==> s.contains(x) && x != id by {
        if u.contains(x) {
            let k = choose|k: int| 0 <= k < u.len() && u[k] == x;
            if i < s.len() {
                let j = if k < i {
                    k
                } else {
                    k + 1
                };
                assert(s[j] == x);
                if j < i {
                    assert(s[j] != s[i]);
                } else {
                    assert(s[i] != s[j]);
                }
            }
        }
        if s.contains(x) && x != id {
            let k = choose|k: int| 0 <= k < s.len() && s[k] == x;
            if i < s.len() {
                let j = if k < i {
                    k
                } else {
                    k - 1
                };
                assert(u[j] == x);
            }
        }
    }
}

/// A PUBACK ends the delivery that waits for it, and that one alone. While
/// nothing waits in the queue, nothing else changes and the client is sent
/// nothing.
pub proof fn puback_ends_its_delivery(
    b: BrokerView,
    client_id: Seq<char>,
    a: PubAckView,
    now: u64,
    k: int,
)
    requires
        b.wf(),
        b.session(client_id) matches Some(s) && 0 <= k < s.awaiting_puback.len()
            && s.awaiting_puback[k].0 == a.packet_id && s.queue.len() == 0,
    ensures
        ({
            let s = b.session(client_id)->0;
            let (t, action) = b.on_packet(client_id, PacketView::Puback(a), now);
            &&& action == Action::Continue
            &&& t.session(client_id) == Some(
                SessionView { awaiting_puback: s.awaiting_puback.remove(k), ..s },
            )
            &&& !is_taken(t.session(client_id)->0, a.packet_id)
            &&& differs_in(t, b, client_id)
        }),
{
    let s = b.session(client_id)->0;
    lemma_session(b, client_id);
    lemma_key_place(s.awaiting_puback, a.packet_id, k);
    acks::puback_frees_its_identifier(s, a.packet_id);
    let u = s.after_puback(a.packet_id, now);
    lemma_differs(b, u);
    delivery_laws::lemma_taken(u, a.packet_id);
}

/// A PUBCOMP ends the delivery that waits for it, and that one alone. While
/// nothing waits in the queue, nothing else changes and the client is sent
/// nothing.
pub proof fn pubcomp_ends_its_delivery(
    b: BrokerView,
    client_id: Seq<char>,
    a: PubAckView,
    now: u64,
    k: int,
)
    requires
        b.wf(),
        b.session(client_id) matches Some(s) && 0 <= k < s.awaiting_pubcomp.len()
            && s.awaiting_pubcomp[k] == a.packet_id && s.queue.len() == 0,
    ensures
        ({
            let s = b.session(client_id)->0;
            let (t, action) = b.on_packet(client_id, PacketView::Pubcomp(a), now);
            &&& action == Action::Continue
            &&& t.session(client_id) == Some(
                SessionView { awaiting_pubcomp: s.awaiting_pubcomp.remove(k), ..s },
            )
            &&& !is_taken(t.session(client_id)->0, a.packet_id)
            &&& differs_in(t, b, client_id)
        }),
{
    let s = b.session(client_id)->0;
    lemma_session(b, client_id);
    text::lemma_first_place_is(s.awaiting_pubcomp, a.packet_id);
    let i = text::first_place(s.awaiting_pubcomp, a.packet_id);
    if i < k {
        assert(s.awaiting_pubcomp[i] != s.awaiting_pubcomp[k]);
    }
    acks::pubcomp_frees_its_identifier(s, a.packet_id);
    let u = s.after_pubcomp(a.packet_id, now);
    lemma_differs(b, u);
    delivery_laws::lemma_taken(u, a.packet_id);
}

/// A PUBACK or PUBCOMP that nothing waits for ends no delivery.
pub proof fn unknown_acknowledgement_ends_nothing(
    b: BrokerView,
    client_id: Seq<char>,
    a: PubAckView,
    now: u64,
)
    requires
        b.wf(),
        b.session(client_id) matches Some(s) && !is_taken(s, a.packet_id) && s.queue.len() == 0,
    ensures
        b.on_packet(client_id, PacketView::Puback(a), now).0.session(client_id) == b.session(
            client_id,
        ),
        b.on_packet(client_id, PacketView::Pubcomp(a), now).0.session(client_id) == b.session(
            client_id,
        ),
{
    let s = b.session(client_id)->0;
    lemma_session(b, client_id);
    lemma_no_key(s.awaiting_puback, a.packet_id);
    text::lemma_first_place_is(s.awaiting_pubcomp, a.packet_id);
    if s.awaiting_pubcomp.contains(a.packet_id) {
        let k = choose|k: int|
            0 <= k < s.awaiting_pubcomp.len() && s.awaiting_pubcomp[k] == a.packet_id;
        assert(s.awaiting_pubcomp[k] == a.packet_id);
    }
    lemma_differs(b, s);
}

/// Once a delivery has ended, the queue goes on as far as there is room.
pub proof fn ended_delivery_lets_the_queue_go_on(
    b: BrokerView,
    client_id: Seq<char>,
    a: PubAckView,
    now: u64,
    k: int,
)
    requires
        b.wf(),
        b.session(client_id) matches Some(s) && 0 <= k < s.awaiting_puback.len()
            && s.awaiting_puback[k].0 == a.packet_id,
    ensures
        b.on_packet(client_id, PacketView::Puback(a), now).0.session(client_id) == Some(
            SessionView {
                awaiting_puback: b.session(client_id)->0.awaiting_puback.remove(k),
                ..b.session(client_id)->0
            }.flushed(now),
        ),
{
    let s = b.session(client_id)->0;
    lemma_session(b, client_id);
    lemma_key_place(s.awaiting_puback, a.packet_id, k);
    acks::puback_frees_its_identifier(s, a.packet_id);
    session::flush_keeps_session_wf(
        SessionView { awaiting_puback: session::without(s.awaiting_puback, a.packet_id), ..s },
        now,
    );
    lemma_differs(b, s.after_puback(a.packet_id, now));
}

/// Once the handshake of a QoS 2 delivery has ended, the queue goes on as far as
/// there is room.
pub proof fn ended_handshake_lets_the_queue_go_on(
    b: BrokerView,
    client_id: Seq<char>,
    a: PubAckView,
    now: u64,
    k: int,
)
    requires
        b.wf(),
        b.session(client_id) matches Some(s) && 0 <= k < s.awaiting_pubcomp.len()
            && s.awaiting_pubcomp[k] == a.packet_id,
    ensures
        b.on_packet(client_id, PacketView::Pubcomp(a), now).0.session(client_id) == Some(
            SessionView {
                awaiting_pubcomp: b.session(client_id)->0.awaiting_pubcomp.remove(k),
                ..b.session(client_id)->0
            }.flushed(now),
        ),
{
    let s = b.session(client_id)->0;
    lemma_session(b, client_id);
    text::lemma_first_place_is(s.awaiting_pubcomp, a.packet_id);
    let i = text::first_place(s.awaiting_pubcomp, a.packet_id);
    if i < k {
        assert(s.awaiting_pubcomp[i] != s.awaiting_pubcomp[k]);
    }
    acks::pubcomp_frees_its_identifier(s, a.packet_id);
    session::flush_keeps_session_wf(
        SessionView {
            awaiting_pubcomp: session::without_id(s.awaiting_pubcomp, a.packet_id),
            ..s
        },
        now,
    );
    lemma_differs(b, s.after_pubcomp(a.packet_id, now));
}

} // verus!
