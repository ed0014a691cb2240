//! The policy of a running broker: replacing it, and revoking subscriptions
//! that a new policy does not permit.

use vstd::prelude::*;
use crate::acl::{policy_file_fault, Acl, AclView};
use crate::broker::session::{
    Outgoing, OutgoingView, Session, SessionView, Subscription, SubscriptionView,
};
use crate::broker::{name_of, Broker, BrokerView, ANONYMOUS};
use crate::error::{MqttError, Result};
use crate::json;
use crate::storage::{CommandView, Storage, StorageView};
use crate::text;
use crate::text::concat3;
use crate::topic;
use crate::types::ReasonCode;

verus! {

broadcast use text::group_views;

/// The subscriptions that a policy permits.
pub open spec fn permitted_subs(
    acl: AclView,
    who: Seq<char>,
    subs: Seq<SubscriptionView>,
) -> Seq<SubscriptionView>
    decreases subs.len(),
{
    if subs.len() == 0 {
        Seq::empty()
    } else if acl.may_subscribe(who, subs.last().filter) {
        permitted_subs(acl, who, subs.drop_last()).push(subs.last())
    } else {
        permitted_subs(acl, who, subs.drop_last())
    }
}

/// The filter that a subscription is stored under.
pub open spec fn stored_filter(sub: SubscriptionView) -> Seq<char> {
    match sub.share_name {
        Some(name) => topic::share_prefix() + name + seq!['/'] + sub.filter,
        None => sub.filter,
    }
}

/// The storage after the subscriptions of a client that a policy does not
/// permit are deleted.
pub open spec fn storage_revoking(
    storage: StorageView,
    acl: AclView,
    who: Seq<char>,
    client_id: Seq<char>,
    subs: Seq<SubscriptionView>,
) -> StorageView
    decreases subs.len(),
{
    if subs.len() == 0 {
        storage
    } else {
        let st = storage_revoking(storage, acl, who, client_id, subs.drop_last());
        if acl.may_subscribe(who, subs.last().filter) {
            st
        } else {
            st.sent(
                CommandView::DeleteSubscription { client_id, filter: stored_filter(subs.last()) },
            )
        }
    }
}

impl SessionView {
    /// The session after a policy revokes subscriptions. A client that loses
    /// one is disconnected.
    pub open spec fn revoked(self, acl: AclView) -> SessionView {
        let kept = permitted_subs(acl, name_of(self.identity), self.subscriptions);
        if kept.len() == self.subscriptions.len() {
            self
        } else {
            SessionView { subscriptions: kept, ..self }.sent(
                OutgoingView::Shutdown(ReasonCode::NotAuthorized),
            )
        }
    }
}

/// The storage after a policy revokes subscriptions of sessions that are
/// stored.
pub open spec fn storage_revoked(
    storage: StorageView,
    acl: AclView,
    sessions: Seq<SessionView>,
) -> StorageView
    decreases sessions.len(),
{
    if sessions.len() == 0 {
        storage
    } else {
        let st = storage_revoked(storage, acl, sessions.drop_last());
        let s = sessions.last();
        if s.persistent {
            storage_revoking(st, acl, name_of(s.identity), s.client_id, s.subscriptions)
        } else {
            st
        }
    }
}

impl BrokerView {
    /// The broker after its policy is replaced.
    pub open spec fn on_policy(self, acl: AclView) -> BrokerView {
        if !acl.enforced {
            BrokerView { acl, ..self }
        } else {
            BrokerView {
                acl,
                storage: storage_revoked(self.storage, acl, self.sessions),
                sessions: Seq::new(self.sessions.len(), |i: int| self.sessions[i].revoked(acl)),
                ..self
            }
        }
    }
}

proof fn lemma_permitted(acl: AclView, who: Seq<char>, subs: Seq<SubscriptionView>)
    ensures
        permitted_subs(acl, who, subs).len() <= subs.len(),
        permitted_subs(acl, who, subs).len() == subs.len() ==> permitted_subs(acl, who, subs)
            == subs,
        forall|i: int|
            0 <= i < permitted_subs(acl, who, subs).len() ==> acl.may_subscribe(
                who,
                (#[trigger] permitted_subs(acl, who, subs)[i]).filter,
            ),
    decreases subs.len(),
{
    if subs.len() > 0 {
        lemma_permitted(acl, who, subs.drop_last());
        let k = permitted_subs(acl, who, subs);
        let d = permitted_subs(acl, who, subs.drop_last());
        assert forall|i: int| 0 <= i < k.len() implies acl.may_subscribe(
            who,
            (#[trigger] k[i]).filter,
        ) by {
            if i < d.len() {
                assert(k[i] == d[i]);
            }
        }
        if k.len() == subs.len() {
            assert(k =~= subs);
        }
    } else {
        assert(permitted_subs(acl, who, subs) =~= subs);
    }
}

/// After a policy is put in place, no session holds a subscription that it does
/// not permit.
pub proof fn policy_leaves_no_unpermitted_subscription(
    b: BrokerView,
    acl: AclView,
    k: int,
    i: int,
)
    requires
        acl.enforced,
        0 <= k < b.sessions.len(),
        0 <= i < b.on_policy(acl).sessions[k].subscriptions.len(),
    ensures
        acl.may_subscribe(
            name_of(b.sessions[k].identity),
            b.on_policy(acl).sessions[k].subscriptions[i].filter,
        ),
        b.on_policy(acl).sessions[k].identity == b.sessions[k].identity,
        b.on_policy(acl).sessions[k].client_id == b.sessions[k].client_id,
{
    let s = b.sessions[k];
    lemma_permitted(acl, name_of(s.identity), s.subscriptions);
    let kept = permitted_subs(acl, name_of(s.identity), s.subscriptions);
    assert(b.on_policy(acl).sessions[k].subscriptions == kept);
    assert(acl.may_subscribe(name_of(s.identity), kept[i].filter));
}

/// The filter that a subscription is stored under.
fn filter_to_store(sub: &Subscription) -> (r: String)
    ensures
        r@ == stored_filter(sub@),
{
    match &sub.share_name {
        Some(name) => {
            let head: String = concat3("$share/", name.as_str(), "/");
            let r: String = text::concat(head.as_str(), sub.filter.as_str());
            proof {
                reveal_strlit("/");
                assert("/"@ =~= seq!['/']);
                assert(r@ =~= stored_filter(sub@));
            }
            r
        },
        None => sub.filter.clone(),
    }
}

/// Revokes the subscriptions of a session that a policy does not permit.
fn revoke(session: &mut Session, acl: &Acl, storage: &mut Storage)
    requires
        old(session)@.wf(),
    ensures
        final(session)@ == old(session)@.revoked(acl@),
        final(session)@.wf(),
        final(storage)@ == (if old(session)@.persistent {
            storage_revoking(
                old(storage)@,
                acl@,
                name_of(old(session)@.identity),
                old(session)@.client_id,
                old(session)@.subscriptions,
            )
        } else {
            old(storage)@
        }),
{
    let ghost before = session@;
    let ghost st0 = storage@;
    let who: String = match &session.identity {
        Some(name) => name.clone(),
        None => ANONYMOUS.to_owned(),
    };
    let ghost whov = name_of(before.identity);
    let ghost all = before.subscriptions;
    let n: usize = session.subscriptions.len();
    let persistent: bool = session.persistent;
    let mut left: Vec<Subscription> = Vec::new();
    std::mem::swap(&mut left, &mut session.subscriptions);
    let mut kept: Vec<Subscription> = Vec::new();
    let mut i: usize = 0;
    assert(all.take(0) =~= Seq::empty());
    assert(all.skip(0) =~= all);
    assert(text::views(kept@) =~= Seq::empty());
    while i < n
        invariant
            i <= n,
            n == all.len(),
            n == left@.len() + i,
            who@ == whov,
            text::views(left@) == all.skip(i as int),
            text::views(kept@) == permitted_subs(acl@, whov, all.take(i as int)),
            session.client_id@ == before.client_id,
            storage@ == (if persistent {
                storage_revoking(st0, acl@, whov, before.client_id, all.take(i as int))
            } else {
                st0
            }),
        decreases n - i,
    {
        assert(all.take(i + 1).drop_last() =~= all.take(i as int));
        let sub: Subscription = left.remove(0);
        assert(sub@ == all.skip(i as int)[0]);
        assert(text::views(left@) =~= all.skip(i + 1));
        if acl.can_subscribe(who.as_str(), sub.filter.as_str()) {
            kept.push(sub);
        } else if persistent {
            let filter: String = filter_to_store(&sub);
            storage.delete_subscription(session.client_id.clone(), filter);
        }
        i = i + 1;
    }
    assert(all.take(n as int) =~= all);
    proof {
        lemma_permitted(acl@, whov, all);
    }
    let lost: bool = kept.len() < n;
    session.subscriptions = kept;
    if lost {
        session.send(Outgoing::Shutdown(ReasonCode::NotAuthorized));
    }
    assert(session@ =~= before.revoked(acl@));
}

impl Broker {
    /// Revokes the subscriptions that the policy does not permit.
    fn revoke_unauthorized_subscriptions(&mut self)
        requires
            old(self).wf(),
            old(self)@.acl.enforced,
        ensures
            final(self)@ == old(self)@.on_policy(old(self)@.acl),
            final(self).wf(),
    {
        let ghost before = self@;
        let ghost acl = self@.acl;
        let ghost goal = before.on_policy(acl);
        let mut i: usize = 0;
        assert(before.sessions.take(0) =~= Seq::empty());
        while i < self.sessions.len()
            invariant
                i <= self.sessions.len(),
                acl == before.acl,
                acl.enforced,
                goal == before.on_policy(acl),
                self.wf(),
                self@ == (BrokerView {
                    sessions: self@.sessions,
                    storage: storage_revoked(before.storage, acl, before.sessions.take(i as int)),
                    ..before
                }),
                self@.sessions.len() == before.sessions.len(),
                forall|j: int| 0 <= j < i ==> #[trigger] self@.sessions[j] == goal.sessions[j],
                forall|j: int|
                    i <= j < before.sessions.len() ==> #[trigger] self@.sessions[j]
                        == before.sessions[j],
            decreases self.sessions.len() - i,
        {
            let ghost vs = self@.sessions;
            assert(self.sessions@[i as int]@ == vs[i as int]);
            assert(before.sessions.take(i + 1).drop_last() =~= before.sessions.take(i as int));
            assert(before.sessions.take(i + 1).last() == vs[i as int]);
            revoke(&mut self.sessions[i], &self.acl, &mut self.storage);
            proof {
                let sv = self.sessions@[i as int]@;
                crate::broker::routing::lemma_sessions_update(vs, i as int, sv);
                assert(self@.sessions =~= vs.update(i as int, sv));
            }
            i = i + 1;
        }
        assert(before.sessions.take(before.sessions.len() as int) =~= before.sessions);
        assert(self@.sessions =~= goal.sessions);
    }

    /// Puts a policy in place. Subscriptions that it does not permit are
    /// revoked, and clients that lose one are disconnected.
    pub fn replace_acl(&mut self, acl: Acl)
        requires
            old(self).wf(),
        ensures
            final(self)@ == old(self)@.on_policy(acl@),
            final(self).wf(),
    {
        self.acl = acl;
        if self.acl.is_enforced() {
            self.revoke_unauthorized_subscriptions();
        }
    }

    /// Replaces the policy by the content of the policy file. Returns whether
    /// one is configured. On an error the policy stays as it is.
    pub fn reload_acl(&mut self, content: &str) -> (r: Result<bool>)
        requires
            old(self).wf(),
        ensures
            final(self).wf(),
            match old(self)@.config.acl_path {
                None => r matches Ok(done) && !done && final(self)@ == old(self)@,
                Some(path) => match policy_file_fault(path, content@) {
                    None => r matches Ok(done) && done && (json::json_of_text(content@) matches Ok(
                        v,
                    ) && (AclView::of_json(v) matches Some(acl) && final(self)@ == old(
                        self,
                    )@.on_policy(acl))),
                    Some(fault) => final(self)@ == old(self)@ && (r matches Err(
                        MqttError::Config(m),
                    ) && m@ == fault),
                },
            },
    {
        let fresh: Acl = match &self.config.acl_path {
            None => {
                return Ok(false);
            },
            Some(path) => match Acl::parse(path.as_str(), content) {
                Ok(acl) => acl,
                Err(e) => {
                    return Err(e);
                },
            },
        };
        self.replace_acl(fresh);
        Ok(true)
    }
}

} // verus!
