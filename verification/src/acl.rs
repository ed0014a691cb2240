//! Access control by identity.
//!
//! An access control list grants an authenticated identity the right to
//! publish to, and to subscribe to, sets of topic filters. The policy is a JSON
//! document:
//!
//! ```json
//! {
//!   "default": "deny",
//!   "rules": [
//!     { "identity": "sensor-01", "publish": ["sensors/01/#"], "subscribe": ["cmd/01/#"] },
//!     { "identity": "*",         "subscribe": ["public/#"] }
//!   ]
//! }
//! ```
//!
//! `identity` is the identity itself, or `"*"` for any; `default` is what holds
//! when no rule grants access. Without a policy everything is permitted.

use vstd::prelude::*;
use vstd::string::StringExecFns;
use crate::error::{MqttError, Result};
use crate::json;
use crate::json::{Json, JsonView};
use crate::text;
use crate::text::{concat, concat3, push_decimal, str_eq};
use crate::topic;

verus! {

broadcast use text::group_views;

#[derive(Debug)]
struct Rule {
    identity: String,
    publish: Vec<String>,
    subscribe: Vec<String>,
}

/// What a rule says.
pub struct RuleView {
    pub identity: Seq<char>,
    pub publish: Seq<Seq<char>>,
    pub subscribe: Seq<Seq<char>>,
}

impl View for Rule {
    type V = RuleView;

    closed spec fn view(&self) -> RuleView {
        RuleView {
            identity: self.identity@,
            publish: text::views(self.publish@),
            subscribe: text::views(self.subscribe@),
        }
    }
}

/// An access control list.
#[derive(Debug)]
pub struct Acl {
    /// Without a policy everything is permitted.
    enforced: bool,
    /// What holds when no rule grants the operation.
    default_allow: bool,
    rules: Vec<Rule>,
}

/// What an access control list says.
pub struct AclView {
    pub enforced: bool,
    pub default_allow: bool,
    pub rules: Seq<RuleView>,
}

impl View for Acl {
    type V = AclView;

    closed spec fn view(&self) -> AclView {
        AclView {
            enforced: self.enforced,
            default_allow: self.default_allow,
            rules: text::views(self.rules@),
        }
    }
}

/// Whether one of the filters matches a topic.
pub open spec fn any_matches(filters: Seq<Seq<char>>, topic: Seq<char>) -> bool {
    exists|i: int| 0 <= i < filters.len() && topic::is_match(#[trigger] filters[i], topic)
}

/// Whether one of the filters covers a request for a filter.
pub open spec fn any_covers(filters: Seq<Seq<char>>, filter: Seq<char>) -> bool {
    exists|i: int| 0 <= i < filters.len() && topic::covers(#[trigger] filters[i], filter)
}

impl RuleView {
    /// Whether the rule is about an identity.
    pub open spec fn applies(self, identity: Seq<char>) -> bool {
        self.identity == identity || self.identity == "*"@
    }
}

impl AclView {
    /// The list that permits everything.
    pub open spec fn permit_all() -> AclView {
        AclView { enforced: false, default_allow: true, rules: Seq::empty() }
    }

    /// Whether an identity may publish to a topic.
    pub open spec fn may_publish(self, identity: Seq<char>, topic: Seq<char>) -> bool {
        ||| !self.enforced
        ||| self.default_allow
        ||| exists|i: int|
            0 <= i < self.rules.len() && (#[trigger] self.rules[i]).applies(identity)
                && any_matches(self.rules[i].publish, topic)
    }

    /// Whether an identity may subscribe to a filter: a granted filter covers
    /// it, so that a request broader than every grant is denied.
    pub open spec fn may_subscribe(self, identity: Seq<char>, filter: Seq<char>) -> bool {
        ||| !self.enforced
        ||| self.default_allow
        ||| exists|i: int|
            0 <= i < self.rules.len() && (#[trigger] self.rules[i]).applies(identity)
                && any_covers(self.rules[i].subscribe, filter)
    }
}

/// The topic filters of a JSON array, or `None` where an item is none.
pub open spec fn filters_of_items(s: Seq<JsonView>) -> Option<Seq<Seq<char>>>
    decreases s.len(),
{
    if s.len() == 0 {
        Some(Seq::empty())
    } else {
        match (filters_of_items(s.drop_last()), s.last().as_str()) {
            (Some(before), Some(f)) => if topic::is_topic_filter(f) {
                Some(before.push(f))
            } else {
                None
            },
            _ => None,
        }
    }
}

/// The topic filters that a member lists; a missing member lists none.
pub open spec fn filters_of(v: Option<JsonView>) -> Option<Seq<Seq<char>>> {
    match v {
        None => Some(Seq::empty()),
        Some(JsonView::Array(s)) => filters_of_items(s),
        Some(_) => None,
    }
}

impl RuleView {
    /// The rule that a JSON value is.
    pub open spec fn of_json(v: JsonView) -> Option<RuleView> {
        match v.get("identity"@) {
            Some(JsonView::Str(identity)) => match (
                filters_of(v.get("publish"@)),
                filters_of(v.get("subscribe"@)),
            ) {
                (Some(publish), Some(subscribe)) => Some(
                    RuleView { identity, publish, subscribe },
                ),
                _ => None,
            },
            _ => None,
        }
    }
}

/// The rules of a JSON array, or `None` where an item is none.
pub open spec fn rules_of_items(s: Seq<JsonView>) -> Option<Seq<RuleView>>
    decreases s.len(),
{
    if s.len() == 0 {
        Some(Seq::empty())
    } else {
        match (rules_of_items(s.drop_last()), RuleView::of_json(s.last())) {
            (Some(before), Some(r)) => Some(before.push(r)),
            _ => None,
        }
    }
}

impl AclView {
    /// What holds by default, as a JSON value says it; nothing or something
    /// other than a string says deny.
    pub open spec fn default_of(v: JsonView) -> Option<bool> {
        match v.get("default"@) {
            Some(JsonView::Str(s)) => if s == "deny"@ {
                Some(false)
            } else if s == "allow"@ {
                Some(true)
            } else {
                None
            },
            _ => Some(false),
        }
    }

    /// The access control list that a JSON value is.
    pub open spec fn of_json(v: JsonView) -> Option<AclView> {
        let rules = match v.get("rules"@) {
            None => Some(Seq::empty()),
            Some(JsonView::Array(s)) => rules_of_items(s),
            Some(_) => None,
        };
        match (Self::default_of(v), rules) {
            (Some(default_allow), Some(rules)) => Some(
                AclView { enforced: true, default_allow, rules },
            ),
            _ => None,
        }
    }
}

/// What is said of a rule.
pub open spec fn rule_text(i: int, what: Seq<char>) -> Seq<char> {
    "rule "@ + text::decimal(i as nat) + ": "@ + what
}

/// What is wrong with the items of a list of topic filters.
pub open spec fn filter_faults(i: int, field: Seq<char>) -> spec_fn(int, JsonView) -> Option<
    Seq<char>,
> {
    |j: int, v: JsonView|
        match v.as_str() {
            None => Some(rule_text(i, field + " entries must be strings"@)),
            Some(f) => if topic::is_topic_filter(f) {
                None
            } else {
                Some(rule_text(i, "invalid topic filter "@ + text::quoted(f) + " in "@ + field))
            },
        }
}

/// What is wrong with a list of topic filters of a rule.
pub open spec fn filters_fault(v: Option<JsonView>, i: int, field: Seq<char>) -> Option<Seq<char>> {
    match v {
        None => None,
        Some(JsonView::Array(s)) => text::first_fault(s, filter_faults(i, field)),
        Some(_) => Some(rule_text(i, field + " must be an array of strings"@)),
    }
}

/// What is wrong with a rule.
pub open spec fn rule_fault(v: JsonView, i: int) -> Option<Seq<char>> {
    if !(v.get("identity"@) matches Some(JsonView::Str(_))) {
        Some(rule_text(i, "missing string \"identity\""@))
    } else {
        match filters_fault(v.get("publish"@), i, "\"publish\""@) {
            Some(m) => Some(m),
            None => filters_fault(v.get("subscribe"@), i, "\"subscribe\""@),
        }
    }
}

/// What is wrong with rules.
pub open spec fn rule_faults() -> spec_fn(int, JsonView) -> Option<Seq<char>> {
    |i: int, v: JsonView| rule_fault(v, i)
}

/// What is wrong with a policy.
pub open spec fn policy_fault(v: JsonView) -> Option<Seq<char>> {
    if AclView::default_of(v) is None {
        Some(
            "invalid \"default\": "@ + text::quoted(v.at("default"@)->Str_0)
                + " (use allow|deny)"@,
        )
    } else {
        match v.get("rules"@) {
            None => None,
            Some(JsonView::Array(s)) => text::first_fault(s, rule_faults()),
            Some(_) => Some("\"rules\" must be an array"@),
        }
    }
}

/// What is wrong with the text of a policy file, which `source` names.
pub open spec fn policy_file_fault(source: Seq<char>, content: Seq<char>) -> Option<Seq<char>> {
    match json::json_of_text(content) {
        Err(why) => Some("parse ACL file "@ + source + ": "@ + why),
        Ok(v) => match policy_fault(v) {
            Some(m) => Some("ACL file "@ + source + ": "@ + m),
            None => None,
        },
    }
}

/// Without rules that grant it and without a default that does, nothing may be
/// published or subscribed to.
pub proof fn denies_what_no_rule_grants(acl: AclView, identity: Seq<char>, topic: Seq<char>)
    requires
        acl.enforced,
        !acl.default_allow,
        forall|i: int|
            0 <= i < acl.rules.len() ==> !(#[trigger] acl.rules[i]).applies(identity) || (
            !any_matches(acl.rules[i].publish, topic) && !any_covers(
                acl.rules[i].subscribe,
                topic,
            )),
    ensures
        !acl.may_publish(identity, topic),
        !acl.may_subscribe(identity, topic),
{
}

/// The list that permits everything permits everything.
pub proof fn permit_all_permits_everything(identity: Seq<char>, topic: Seq<char>)
    ensures
        AclView::permit_all().may_publish(identity, topic),
        AclView::permit_all().may_subscribe(identity, topic),
{
}

/// Another rule takes no right away.
pub proof fn rules_only_grant(
    acl: AclView,
    rule: RuleView,
    identity: Seq<char>,
    topic: Seq<char>,
)
    ensures
        acl.may_publish(identity, topic) ==> (AclView {
            rules: acl.rules.push(rule),
            ..acl
        }).may_publish(identity, topic),
        acl.may_subscribe(identity, topic) ==> (AclView {
            rules: acl.rules.push(rule),
            ..acl
        }).may_subscribe(identity, topic),
{
    let more = AclView { rules: acl.rules.push(rule), ..acl };
    if acl.enforced && !acl.default_allow {
        if acl.may_publish(identity, topic) {
            let i = choose|i: int|
                0 <= i < acl.rules.len() && (#[trigger] acl.rules[i]).applies(identity)
                    && any_matches(acl.rules[i].publish, topic);
            assert(more.rules[i] == acl.rules[i]);
        }
        if acl.may_subscribe(identity, topic) {
            let i = choose|i: int|
                0 <= i < acl.rules.len() && (#[trigger] acl.rules[i]).applies(identity)
                    && any_covers(acl.rules[i].subscribe, topic);
            assert(more.rules[i] == acl.rules[i]);
        }
    }
}

/// A client that the rules let subscribe to a filter gets no topic through it
/// that no rule grants: a granted filter matches all that the filter matches.
pub proof fn subscriptions_stay_within_the_grants(
    acl: AclView,
    identity: Seq<char>,
    filter: Seq<char>,
    topic: Seq<char>,
)
    requires
        acl.enforced,
        !acl.default_allow,
        topic::is_topic_filter(filter),
        acl.may_subscribe(identity, filter),
        topic::is_match(filter, topic),
    ensures
        exists|i: int|
            0 <= i < acl.rules.len() && (#[trigger] acl.rules[i]).applies(identity) && any_matches(
                acl.rules[i].subscribe,
                topic,
            ),
        !topic.contains('#') ==> acl.may_subscribe(identity, topic),
{
    let i = choose|i: int|
        0 <= i < acl.rules.len() && (#[trigger] acl.rules[i]).applies(identity) && any_covers(
            acl.rules[i].subscribe,
            filter,
        );
    let granted = acl.rules[i].subscribe;
    let k = choose|k: int| 0 <= k < granted.len() && topic::covers(#[trigger] granted[k], filter);
    topic::covered_filter_is_narrower(granted[k], filter, topic);
    assert(any_matches(granted, topic));
    if !topic.contains('#') {
        topic::covering_a_topic_is_matching(granted[k], topic);
        assert(any_covers(granted, topic));
    }
}

/// What a rule grants may be subscribed to.
pub proof fn granted_filters_may_be_subscribed_to(
    acl: AclView,
    identity: Seq<char>,
    i: int,
    k: int,
)
    requires
        0 <= i < acl.rules.len(),
        acl.rules[i].applies(identity),
        0 <= k < acl.rules[i].subscribe.len(),
        topic::is_topic_filter(acl.rules[i].subscribe[k]),
    ensures
        acl.may_subscribe(identity, acl.rules[i].subscribe[k]),
{
    topic::filter_covers_itself(acl.rules[i].subscribe[k]);
    assert(any_covers(acl.rules[i].subscribe, acl.rules[i].subscribe[k]));
}

fn covered_by_any(filters: &Vec<String>, filter: &str) -> (r: bool)
    ensures
        r == any_covers(text::views(filters@), filter@),
{
    let ghost fs = text::views(filters@);
    let mut i: usize = 0;
    while i < filters.len()
        invariant
            i <= filters.len(),
            fs == text::views(filters@),
            forall|j: int| 0 <= j < i ==> !topic::covers(#[trigger] fs[j], filter@),
        decreases filters.len() - i,
    {
        assert(filters@[i as int]@ == fs[i as int]);
        if topic::covering(filters[i].as_str(), filter) {
            return true;
        }
        i = i + 1;
    }
    false
}

fn matches_any(filters: &Vec<String>, topic: &str) -> (r: bool)
    ensures
        r == any_matches(text::views(filters@), topic@),
{
    let ghost fs = text::views(filters@);
    let mut i: usize = 0;
    while i < filters.len()
        invariant
            i <= filters.len(),
            fs == text::views(filters@),
            forall|j: int| 0 <= j < i ==> !topic::is_match(#[trigger] fs[j], topic@),
        decreases filters.len() - i,
    {
        assert(filters@[i as int]@ == fs[i as int]);
        if topic::matches(filters[i].as_str(), topic) {
            return true;
        }
        i = i + 1;
    }
    false
}

fn rule_error(rule_index: usize, what: &str) -> (r: String)
    ensures
        r@ == rule_text(rule_index as int, what@),
{
    let mut m: String = String::from_str("rule ");
    push_decimal(&mut m, rule_index as u64);
    m.append(": ");
    m.append(what);
    m
}

fn parse_filters(value: Option<&Json>, rule_index: usize, field: &str) -> (r:
    core::result::Result<Vec<String>, String>)
    ensures
        match r {
            Ok(v) => filters_of(text::opt_view(value)) == Some(text::views(v@)) && filters_fault(
                text::opt_view(value),
                rule_index as int,
                field@,
            ) is None,
            Err(m) => filters_of(text::opt_view(value)) is None && filters_fault(
                text::opt_view(value),
                rule_index as int,
                field@,
            ) == Some(m@),
        },
{
    let mut out: Vec<String> = Vec::new();
    match value {
        None => {
            assert(text::views(out@) =~= Seq::empty());
            Ok(out)
        },
        Some(list) => match list.as_array() {
            None => Err(
                rule_error(rule_index, concat(field, " must be an array of strings").as_str()),
            ),
            Some(items) => {
                let ghost all = json::items_view(items@);
                let ghost faults = filter_faults(rule_index as int, field@);
                proof {
                    json::lemma_items_view(items@);
                }
                let mut i: usize = 0;
                assert(all.take(0) =~= Seq::empty());
                assert(text::views(out@) =~= Seq::empty());
                while i < items.len()
                    invariant
                        i <= items.len(),
                        all == json::items_view(items@),
                        all.len() == items@.len(),
                        forall|j: int| 0 <= j < all.len() ==> #[trigger] all[j] == items@[j]@,
                        filters_of_items(all.take(i as int)) == Some(text::views(out@)),
                        filters_of_items(all) is Some ==> filters_of_items(
                            all.take(i as int),
                        ) is Some,
                        value == Some(list),
                        list@ == JsonView::Array(all),
                        faults == filter_faults(rule_index as int, field@),
                        text::first_fault(all.take(i as int), faults) is None,
                    decreases items.len() - i,
                {
                    let ghost t = all.take(i + 1);
                    assert(t.drop_last() =~= all.take(i as int));
                    assert(t.last() == items@[i as int]@);
                    proof {
                        text::lemma_first_fault(all, faults, i as int);
                    }
                    match items[i].as_str() {
                        None => {
                            proof {
                                lemma_bad_prefix(all, i + 1);
                            }
                            return Err(
                                rule_error(
                                    rule_index,
                                    concat(field, " entries must be strings").as_str(),
                                ),
                            );
                        },
                        Some(f) => {
                            if !topic::valid_topic_filter(f) {
                                proof {
                                    lemma_bad_prefix(all, i + 1);
                                }
                                let shown: String = text::quote(f);
                                let mut m: String = concat3(
                                    "invalid topic filter ",
                                    shown.as_str(),
                                    " in ",
                                );
                                m.append(field);
                                return Err(rule_error(rule_index, m.as_str()));
                            }
                            out.push(f.to_owned());
                        },
                    }
                    i = i + 1;
                }
                assert(all.take(all.len() as int) =~= all);
                Ok(out)
            },
        },
    }
}

proof fn lemma_bad_prefix(s: Seq<JsonView>, n: int)
    requires
        0 <= n <= s.len(),
        filters_of_items(s.take(n)) is None,
    ensures
        filters_of_items(s) is None,
    decreases s.len() - n,
{
    if n == s.len() {
        assert(s.take(n) =~= s);
    } else {
        assert(s.take(n + 1).drop_last() =~= s.take(n));
        lemma_bad_prefix(s, n + 1);
    }
}

proof fn lemma_bad_rule_prefix(s: Seq<JsonView>, n: int)
    requires
        0 <= n <= s.len(),
        rules_of_items(s.take(n)) is None,
    ensures
        rules_of_items(s) is None,
    decreases s.len() - n,
{
    if n == s.len() {
        assert(s.take(n) =~= s);
    } else {
        assert(s.take(n + 1).drop_last() =~= s.take(n));
        lemma_bad_rule_prefix(s, n + 1);
    }
}

fn parse_rule(r: &Json, i: usize) -> (res: core::result::Result<Rule, String>)
    ensures
        match res {
            Ok(rule) => RuleView::of_json(r@) == Some(rule@) && rule_fault(r@, i as int) is None,
            Err(m) => RuleView::of_json(r@) is None && rule_fault(r@, i as int) == Some(m@),
        },
{
    let identity: String = match r.get("identity") {
        Some(v) => match v.as_str() {
            Some(s) => s.to_owned(),
            None => {
                return Err(rule_error(i, "missing string \"identity\""));
            },
        },
        None => {
            return Err(rule_error(i, "missing string \"identity\""));
        },
    };
    let publish: Vec<String> = match parse_filters(r.get("publish"), i, "\"publish\"") {
        Ok(v) => v,
        Err(e) => {
            return Err(e);
        },
    };
    let subscribe: Vec<String> = match parse_filters(r.get("subscribe"), i, "\"subscribe\"") {
        Ok(v) => v,
        Err(e) => {
            return Err(e);
        },
    };
    Ok(Rule { identity, publish, subscribe })
}

impl Acl {
    /// A list that authorizes every operation.
    pub fn permit_all() -> (r: Acl)
        ensures
            r@ == AclView::permit_all(),
    {
        Acl { enforced: false, default_allow: true, rules: Vec::new() }
    }

    /// Whether there is a policy.
    pub fn is_enforced(&self) -> (r: bool)
        ensures
            r == self@.enforced,
    {
        self.enforced
    }

    /// The policy that a text holds; `source` names the text for messages.
    pub fn parse(source: &str, content: &str) -> (r: Result<Acl>)
        ensures
            match r {
                Ok(acl) => policy_file_fault(source@, content@) is None && (json::json_of_text(
                    content@,
                ) matches Ok(v) && AclView::of_json(v) == Some(acl@)),
                Err(e) => (json::json_of_text(content@) matches Ok(v) ==> AclView::of_json(
                    v,
                ) is None) && (e matches MqttError::Config(m) && policy_file_fault(
                    source@,
                    content@,
                ) == Some(m@)),
            },
    {
        match json::parse_json(content) {
            Err(e) => {
                let head: String = concat3("parse ACL file ", source, ": ");
                Err(MqttError::Config(head.concat(e.as_str())))
            },
            Ok(v) => match Acl::from_value(&v) {
                Ok(acl) => Ok(acl),
                Err(e) => {
                    let head: String = concat3("ACL file ", source, ": ");
                    Err(MqttError::Config(head.concat(e.as_str())))
                },
            },
        }
    }

    /// The policy that a JSON value is.
    pub fn from_value(value: &Json) -> (r: core::result::Result<Acl, String>)
        ensures
            match r {
                Ok(acl) => AclView::of_json(value@) == Some(acl@) && policy_fault(value@) is None,
                Err(m) => AclView::of_json(value@) is None && policy_fault(value@) == Some(m@),
            },
    {
        let default_allow: bool = match value.get("default") {
            None => false,
            Some(v) => match v.as_str() {
                None => false,
                Some(s) => if str_eq(s, "deny") {
                    false
                } else if str_eq(s, "allow") {
                    true
                } else {
                    let shown: String = text::quote(s);
                    return Err(
                        concat3("invalid \"default\": ", shown.as_str(), " (use allow|deny)"),
                    );
                },
            },
        };
        proof {
            reveal_strlit("deny");
            reveal_strlit("allow");
        }
        let mut rules: Vec<Rule> = Vec::new();
        assert(text::views(rules@) =~= Seq::empty());
        if let Some(list) = value.get("rules") {
            match list.as_array() {
                None => {
                    return Err("\"rules\" must be an array".to_owned());
                },
                Some(items) => {
                    let ghost all = json::items_view(items@);
                    proof {
                        json::lemma_items_view(items@);
                    }
                    let mut i: usize = 0;
                    assert(all.take(0) =~= Seq::empty());
                    while i < items.len()
                        invariant
                            i <= items.len(),
                            all == json::items_view(items@),
                            all.len() == items@.len(),
                            forall|j: int| 0 <= j < all.len() ==> #[trigger] all[j] == items@[j]@,
                            rules_of_items(all.take(i as int)) == Some(text::views(rules@)),
                            value@.get("rules"@) == Some(JsonView::Array(all)),
                            AclView::default_of(value@) is Some,
                            text::first_fault(all.take(i as int), rule_faults()) is None,
                        decreases items.len() - i,
                    {
                        let ghost t = all.take(i + 1);
                        assert(t.drop_last() =~= all.take(i as int));
                        assert(t.last() == items@[i as int]@);
                        proof {
                            text::lemma_first_fault(all, rule_faults(), i as int);
                        }
                        match parse_rule(&items[i], i) {
                            Ok(rule) => rules.push(rule),
                            Err(e) => {
                                proof {
                                    lemma_bad_rule_prefix(all, i + 1);
                                }
                                return Err(e);
                            },
                        }
                        i = i + 1;
                    }
                    assert(all.take(all.len() as int) =~= all);
                },
            }
        }
        Ok(Acl { enforced: true, default_allow, rules })
    }

    /// May `identity` publish to the topic name `topic`?
    pub fn can_publish(&self, identity: &str, topic: &str) -> (r: bool)
        ensures
            r == self@.may_publish(identity@, topic@),
    {
        if !self.enforced {
            return true;
        }
        let ghost rs = self@.rules;
        let mut i: usize = 0;
        while i < self.rules.len()
            invariant
                i <= self.rules.len(),
                rs == self@.rules,
                forall|j: int|
                    0 <= j < i ==> !((#[trigger] rs[j]).applies(identity@) && any_matches(
                        rs[j].publish,
                        topic@,
                    )),
            decreases self.rules.len() - i,
        {
            let rule: &Rule = &self.rules[i];
            assert(rule@ == rs[i as int]);
            if (str_eq(rule.identity.as_str(), identity) || str_eq(rule.identity.as_str(), "*"))
                && matches_any(&rule.publish, topic) {
                return true;
            }
            i = i + 1;
        }
        self.default_allow
    }

    /// May `identity` subscribe to the topic filter `filter`? A request that is
    /// broader than every grant is denied.
    pub fn can_subscribe(&self, identity: &str, filter: &str) -> (r: bool)
        ensures
            r == self@.may_subscribe(identity@, filter@),
    {
        if !self.enforced {
            return true;
        }
        let ghost rs = self@.rules;
        let mut i: usize = 0;
        while i < self.rules.len()
            invariant
                i <= self.rules.len(),
                rs == self@.rules,
                forall|j: int|
                    0 <= j < i ==> !((#[trigger] rs[j]).applies(identity@) && any_covers(
                        rs[j].subscribe,
                        filter@,
                    )),
            decreases self.rules.len() - i,
        {
            let rule: &Rule = &self.rules[i];
            assert(rule@ == rs[i as int]);
            if (str_eq(rule.identity.as_str(), identity) || str_eq(rule.identity.as_str(), "*"))
                && covered_by_any(&rule.subscribe, filter) {
                return true;
            }
            i = i + 1;
        }
        self.default_allow
    }
}

/// Under a policy that denies by default, an identity may publish to a topic
/// exactly where a rule for it, or for all, has a filter for publishing that
/// matches the topic.
pub proof fn publishing_is_granted_by_a_match(acl: AclView, identity: Seq<char>, topic: Seq<char>)
    requires
        acl.enforced,
        !acl.default_allow,
    ensures
        acl.may_publish(identity, topic) <==> exists|i: int, k: int|
            0 <= i < acl.rules.len() && 0 <= k < acl.rules[i].publish.len() && (
            acl.rules[i].identity == identity || acl.rules[i].identity == seq!['*'])
                && topic::is_match(#[trigger] acl.rules[i].publish[k], topic),
{
    reveal_strlit("*");
    assert("*"@ =~= seq!['*']);
    if acl.may_publish(identity, topic) {
        let i = choose|i: int|
            0 <= i < acl.rules.len() && (#[trigger] acl.rules[i]).applies(identity)
                && any_matches(acl.rules[i].publish, topic);
        let k = choose|k: int|
            0 <= k < acl.rules[i].publish.len() && topic::is_match(
                #[trigger] acl.rules[i].publish[k],
                topic,
            );
        assert(topic::is_match(acl.rules[i].publish[k], topic));
    }
    if exists|i: int, k: int|
        0 <= i < acl.rules.len() && 0 <= k < acl.rules[i].publish.len() && (acl.rules[i].identity
            == identity || acl.rules[i].identity == seq!['*']) && topic::is_match(
            #[trigger] acl.rules[i].publish[k],
            topic,
        ) {
        let (i, k) = choose|i: int, k: int|
            0 <= i < acl.rules.len() && 0 <= k < acl.rules[i].publish.len() && (
            acl.rules[i].identity == identity || acl.rules[i].identity == seq!['*'])
                && topic::is_match(#[trigger] acl.rules[i].publish[k], topic);
        assert(any_matches(acl.rules[i].publish, topic));
        assert(acl.rules[i].applies(identity));
    }
}

/// Under a policy that denies by default, an identity may subscribe to a filter
/// exactly where a rule for it, or for all, has a filter for subscribing that
/// covers it.
pub proof fn subscribing_is_granted_by_a_cover(acl: AclView, identity: Seq<char>, filter: Seq<char>)
    requires
        acl.enforced,
        !acl.default_allow,
    ensures
        acl.may_subscribe(identity, filter) <==> exists|i: int, k: int|
            0 <= i < acl.rules.len() && 0 <= k < acl.rules[i].subscribe.len() && (
            acl.rules[i].identity == identity || acl.rules[i].identity == seq!['*'])
                && topic::covers(#[trigger] acl.rules[i].subscribe[k], filter),
{
    reveal_strlit("*");
    assert("*"@ =~= seq!['*']);
    if acl.may_subscribe(identity, filter) {
        let i = choose|i: int|
            0 <= i < acl.rules.len() && (#[trigger] acl.rules[i]).applies(identity) && any_covers(
                acl.rules[i].subscribe,
                filter,
            );
        let k = choose|k: int|
            0 <= k < acl.rules[i].subscribe.len() && topic::covers(
                #[trigger] acl.rules[i].subscribe[k],
                filter,
            );
        assert(topic::covers(acl.rules[i].subscribe[k], filter));
    }
    if exists|i: int, k: int|
        0 <= i < acl.rules.len() && 0 <= k < acl.rules[i].subscribe.len() && (acl.rules[i].identity
            == identity || acl.rules[i].identity == seq!['*']) && topic::covers(
            #[trigger] acl.rules[i].subscribe[k],
            filter,
        ) {
        let (i, k) = choose|i: int, k: int|
            0 <= i < acl.rules.len() && 0 <= k < acl.rules[i].subscribe.len() && (
            acl.rules[i].identity == identity || acl.rules[i].identity == seq!['*'])
                && topic::covers(#[trigger] acl.rules[i].subscribe[k], filter);
        assert(any_covers(acl.rules[i].subscribe, filter));
        assert(acl.rules[i].applies(identity));
    }
}

/// A policy that allows by default, or that is not enforced, permits everything.
pub proof fn open_policy_permits_everything(acl: AclView, identity: Seq<char>, topic: Seq<char>)
    requires
        acl.default_allow || !acl.enforced,
    ensures
        acl.may_publish(identity, topic),
        acl.may_subscribe(identity, topic),
{
}

} // verus!
