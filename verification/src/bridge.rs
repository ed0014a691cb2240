//! Bridges: forwarding between this broker and a remote one.
//!
//! - **out** topics: the bridge subscribes locally and publishes what it gets
//!   to the remote broker.
//! - **in** topics: the bridge subscribes at the remote broker and publishes
//!   what it gets locally.
//!
//! What a bridge publishes locally is attributed to the bridge, and its local
//! subscriptions are marked *no local*, so a message never flows straight back.

use vstd::prelude::*;
use vstd::string::StringExecFns;
use crate::broker::session::{find_id, Outgoing, OutgoingView};
use crate::broker::session::{ack_view, next_after, without_id};
use crate::broker::{Broker, BrokerView};
use crate::codec::{Properties, PropertiesView};
use crate::error::{MqttError, Result};
use crate::json;
use crate::json::{Json, JsonView};
use crate::message::{Message, MessageView};
use crate::metrics::{counted, Metrics};
use crate::packet::{
    Connect, ConnectView, Packet, PacketView, PubAck, Publish, PublishView, RetainHandling,
    Subscribe, SubscribeView, TopicFilter, TopicFilterView,
};
use crate::text;
use crate::text::{chars_are, chars_of, clone_opt_string, concat, lower_chars, push_decimal, string_of};
use crate::server::{count_received, count_sent, has_received, has_sent};
use crate::topic;
use crate::types::{ProtocolVersion, QoS, ReasonCode};

verus! {

broadcast use text::group_views;

/// Which way a topic mapping forwards.
#[derive(Debug, Clone, Copy, PartialEq, Eq, Structural)]
pub enum Direction {
    /// From local to remote.
    Out,
    /// From remote to local.
    In,
    /// In both directions.
    Both,
}

impl Direction {
    pub open spec fn is_out(self) -> bool {
        self is Out || self is Both
    }

    pub open spec fn is_in(self) -> bool {
        self is In || self is Both
    }

    /// Whether messages are forwarded to the remote broker.
    pub fn forwards_out(self) -> (r: bool)
        ensures
            r == self.is_out(),
    {
        match self {
            Direction::Out => true,
            Direction::Both => true,
            Direction::In => false,
        }
    }

    /// Whether messages are forwarded from the remote broker.
    pub fn forwards_in(self) -> (r: bool)
        ensures
            r == self.is_in(),
    {
        match self {
            Direction::In => true,
            Direction::Both => true,
            Direction::Out => false,
        }
    }
}

/// One topic mapping of a bridge.
#[derive(Debug)]
pub struct BridgeTopic {
    pub pattern: String,
    pub direction: Direction,
    pub qos: QoS,
}

/// What a topic mapping says.
pub struct BridgeTopicView {
    pub pattern: Seq<char>,
    pub direction: Direction,
    pub qos: QoS,
}

impl View for BridgeTopic {
    type V = BridgeTopicView;

    open spec fn view(&self) -> BridgeTopicView {
        BridgeTopicView { pattern: self.pattern@, direction: self.direction, qos: self.qos }
    }
}

/// Configuration of one bridge to a remote broker.
pub struct BridgeConfig {
    pub name: String,
    /// `scheme://host[:port][/path]`; the scheme is `tcp`, `tls`, `ws` or `wss`.
    pub address: String,
    pub client_id: String,
    pub username: Option<String>,
    pub password: Option<String>,
    pub keepalive: u16,
    pub protocol_version: ProtocolVersion,
    pub tls_ca: Option<String>,
    pub tls_cert: Option<String>,
    pub tls_key: Option<String>,
    pub tls_insecure: bool,
    pub topics: Vec<BridgeTopic>,
}

impl BridgeConfig {
    /// What is shown of a bridge: not its password.
    pub fn shown(&self) -> (r: String)
        ensures
            r@ == self@.shown(),
    {
        let mut s: String = String::new();
        s.append(self.name.as_str());
        s.append(" to ");
        s.append(self.address.as_str());
        s.append(" as ");
        s.append(self.client_id.as_str());
        if let Some(u) = &self.username {
            s.append(", user ");
            s.append(u.as_str());
        }
        if self.password.is_some() {
            s.append(", password <redacted>");
        }
        assert(s@ =~= self@.shown());
        s
    }
}

impl BridgeConfigView {
    /// What is shown of a bridge.
    pub open spec fn shown(self) -> Seq<char> {
        self.name + " to "@ + self.address + " as "@ + self.client_id + (match self.username {
            Some(u) => ", user "@ + u,
            None => Seq::empty(),
        }) + (match self.password {
            Some(_) => ", password <redacted>"@,
            None => Seq::empty(),
        })
    }
}

/// What is shown of a bridge does not depend on its password.
pub proof fn shown_bridge_hides_its_password(a: BridgeConfigView, password: Seq<char>)
    requires
        a.password is Some,
    ensures
        (BridgeConfigView { password: Some(password), ..a }).shown() == a.shown(),
{
}

/// What the configuration of a bridge says.
#[verifier::ext_equal]
pub struct BridgeConfigView {
    pub name: Seq<char>,
    pub address: Seq<char>,
    pub client_id: Seq<char>,
    pub username: Option<Seq<char>>,
    pub password: Option<Seq<char>>,
    pub keepalive: u16,
    pub protocol_version: ProtocolVersion,
    pub tls_ca: Option<Seq<char>>,
    pub tls_cert: Option<Seq<char>>,
    pub tls_key: Option<Seq<char>>,
    pub tls_insecure: bool,
    pub topics: Seq<BridgeTopicView>,
}

impl View for BridgeConfig {
    type V = BridgeConfigView;

    open spec fn view(&self) -> BridgeConfigView {
        BridgeConfigView {
            name: self.name@,
            address: self.address@,
            client_id: self.client_id@,
            username: text::opt_view(self.username),
            password: text::opt_view(self.password),
            keepalive: self.keepalive,
            protocol_version: self.protocol_version,
            tls_ca: text::opt_view(self.tls_ca),
            tls_cert: text::opt_view(self.tls_cert),
            tls_key: text::opt_view(self.tls_key),
            tls_insecure: self.tls_insecure,
            topics: text::views(self.topics@),
        }
    }
}

/// Whether a key can stand in a bridge.
pub open spec fn is_bridge_key(key: Seq<char>) -> bool {
    ||| key == "name"@
    ||| key == "address"@
    ||| key == "client_id"@
    ||| key == "username"@
    ||| key == "password"@
    ||| key == "keepalive"@
    ||| key == "protocol_version"@
    ||| key == "tls_ca"@
    ||| key == "tls_cert"@
    ||| key == "tls_key"@
    ||| key == "tls_insecure"@
    ||| key == "topics"@
}

/// Whether a key can stand in a topic mapping.
pub open spec fn is_mapping_key(key: Seq<char>) -> bool {
    key == "pattern"@ || key == "direction"@ || key == "qos"@
}

/// Whether a key can stand in a topic mapping, or in a bridge.
pub open spec fn is_key(key: Seq<char>, mapping: bool) -> bool {
    if mapping {
        is_mapping_key(key)
    } else {
        is_bridge_key(key)
    }
}

/// Whether every key of an object can stand in a topic mapping, or in a bridge.
pub open spec fn members_known(members: Map<Seq<char>, JsonView>, mapping: bool) -> bool {
    forall|k: Seq<char>| #[trigger] members.contains_key(k) ==> is_key(k, mapping)
}

/// Whether every key of a topic mapping, or of a bridge, can stand in it.
pub open spec fn keys_known(v: JsonView, mapping: bool) -> bool {
    v matches JsonView::Object(members) ==> members_known(members, mapping)
}

/// A text member that may be missing or null, or `None` where it is of another
/// type.
pub open spec fn text_member(v: JsonView) -> Option<Option<Seq<char>>> {
    match v {
        JsonView::Null => Some(None),
        JsonView::Str(s) => Some(Some(s)),
        _ => None,
    }
}

/// An integer member that may be missing or null, or `None` where it is of
/// another type.
pub open spec fn int_member(v: JsonView) -> Option<Option<i64>> {
    match v {
        JsonView::Null => Some(None),
        JsonView::Int(n) => Some(Some(n)),
        _ => None,
    }
}

/// A Boolean member that may be missing or null, or `None` where it is of
/// another type.
pub open spec fn flag_member(v: JsonView) -> Option<Option<bool>> {
    match v {
        JsonView::Null => Some(None),
        JsonView::Bool(b) => Some(Some(b)),
        _ => None,
    }
}

/// The direction of a topic mapping, which must be one of three texts.
pub open spec fn direction_of(v: JsonView) -> Option<Direction> {
    match v.as_str() {
        Some(s) => if s == "out"@ {
            Some(Direction::Out)
        } else if s == "in"@ {
            Some(Direction::In)
        } else if s == "both"@ {
            Some(Direction::Both)
        } else {
            None
        },
        None => None,
    }
}

/// The QoS of a topic mapping; 0 where it is missing or null.
pub open spec fn mapping_qos(v: JsonView) -> Option<QoS> {
    match int_member(v) {
        None => None,
        Some(None) => Some(QoS::AtMostOnce),
        Some(Some(n)) => if n == 0 {
            Some(QoS::AtMostOnce)
        } else if n == 1 {
            Some(QoS::AtLeastOnce)
        } else if n == 2 {
            Some(QoS::ExactlyOnce)
        } else {
            None
        },
    }
}

/// The protocol version of a bridge; 5 where it is missing or null.
pub open spec fn bridge_version(v: JsonView) -> Option<ProtocolVersion> {
    match int_member(v) {
        None => None,
        Some(None) => Some(ProtocolVersion::V5),
        Some(Some(n)) => if n == 5 {
            Some(ProtocolVersion::V5)
        } else if n == 4 {
            Some(ProtocolVersion::V3_1_1)
        } else if n == 3 {
            Some(ProtocolVersion::V3_1)
        } else {
            None
        },
    }
}

/// The keep alive of a bridge; 60 where it is missing or null.
pub open spec fn bridge_keepalive(v: JsonView) -> Option<u16> {
    match int_member(v) {
        None => None,
        Some(None) => Some(60),
        Some(Some(n)) => if 0 <= n <= 65535 {
            Some(n as u16)
        } else {
            None
        },
    }
}

impl BridgeTopicView {
    /// The topic mapping of a JSON value.
    pub open spec fn of_json(v: JsonView) -> Option<BridgeTopicView> {
        match v.at("pattern"@).as_str() {
            None => None,
            Some(pattern) => if !topic::is_topic_filter(pattern) || !keys_known(v, true) {
                None
            } else {
                match (direction_of(v.at("direction"@)), mapping_qos(v.at("qos"@))) {
                    (Some(direction), Some(qos)) => Some(
                        BridgeTopicView { pattern, direction, qos },
                    ),
                    _ => None,
                }
            },
        }
    }
}

/// The topic mappings of JSON values, or `None` where one is wrong.
pub open spec fn topics_of(items: Seq<JsonView>) -> Option<Seq<BridgeTopicView>>
    decreases items.len(),
{
    if items.len() == 0 {
        Some(Seq::empty())
    } else {
        match (topics_of(items.drop_last()), BridgeTopicView::of_json(items.last())) {
            (Some(before), Some(t)) => Some(before.push(t)),
            _ => None,
        }
    }
}

/// The topic mappings of a member, which must be an array.
pub open spec fn topics_member(v: JsonView) -> Option<Seq<BridgeTopicView>> {
    match v {
        JsonView::Array(items) => topics_of(items),
        _ => None,
    }
}

/// The texts and the flag that a bridge may have.
pub struct BridgeOptions {
    pub client_id: Option<Seq<char>>,
    pub username: Option<Seq<char>>,
    pub password: Option<Seq<char>>,
    pub tls_ca: Option<Seq<char>>,
    pub tls_cert: Option<Seq<char>>,
    pub tls_key: Option<Seq<char>>,
    pub tls_insecure: Option<bool>,
}

/// The texts and the flag that a bridge may have, or `None` where one of them
/// is of another type.
pub open spec fn bridge_options(v: JsonView) -> Option<BridgeOptions> {
    match (
        text_member(v.at("client_id"@)),
        text_member(v.at("username"@)),
        text_member(v.at("password"@)),
        text_member(v.at("tls_ca"@)),
        text_member(v.at("tls_cert"@)),
        text_member(v.at("tls_key"@)),
        flag_member(v.at("tls_insecure"@)),
    ) {
        (
            Some(client_id),
            Some(username),
            Some(password),
            Some(tls_ca),
            Some(tls_cert),
            Some(tls_key),
            Some(tls_insecure),
        ) => Some(
            BridgeOptions { client_id, username, password, tls_ca, tls_cert, tls_key, tls_insecure },
        ),
        _ => None,
    }
}

impl BridgeConfigView {
    /// The bridge of a JSON value. A name, an address and a topic mapping are
    /// required.
    pub open spec fn of_json(v: JsonView) -> Option<BridgeConfigView> {
        match (v.at("name"@).as_str(), v.at("address"@).as_str(), bridge_options(v)) {
            (Some(name), Some(address), Some(o)) => match (
                bridge_keepalive(v.at("keepalive"@)),
                bridge_version(v.at("protocol_version"@)),
                topics_member(v.at("topics"@)),
            ) {
                (Some(keepalive), Some(protocol_version), Some(topics)) => if topics.len() == 0
                    || !keys_known(v, false) {
                    None
                } else {
                    Some(
                        BridgeConfigView {
                            name,
                            address,
                            client_id: match o.client_id {
                                Some(id) => id,
                                None => "pulsemq-bridge-"@ + name,
                            },
                            username: o.username,
                            password: o.password,
                            keepalive,
                            protocol_version,
                            tls_ca: o.tls_ca,
                            tls_cert: o.tls_cert,
                            tls_key: o.tls_key,
                            tls_insecure: o.tls_insecure == Some(true),
                            topics,
                        },
                    )
                },
                _ => None,
            },
            _ => None,
        }
    }
}

/// The bridges of JSON values, or `None` where one is wrong.
pub open spec fn bridges_of(items: Seq<JsonView>) -> Option<Seq<BridgeConfigView>>
    decreases items.len(),
{
    if items.len() == 0 {
        Some(Seq::empty())
    } else {
        match (bridges_of(items.drop_last()), BridgeConfigView::of_json(items.last())) {
            (Some(before), Some(b)) => Some(before.push(b)),
            _ => None,
        }
    }
}

/// The bridges of a configuration; none where the member is missing or null.
pub open spec fn bridges_member(doc: JsonView) -> Option<Seq<BridgeConfigView>> {
    match doc.at("bridges"@) {
        JsonView::Null => Some(Seq::empty()),
        JsonView::Array(items) => bridges_of(items),
        _ => None,
    }
}

/// What is said of a place.
pub open spec fn fault_at(at: Seq<char>, what: Seq<char>) -> Seq<char> {
    at + ": "@ + what
}

/// What is said of a place where a number is none of those that can be.
pub open spec fn got_text(what: Seq<char>, n: int) -> Seq<char> {
    what + " (got "@ + text::signed_decimal(n) + ")"@
}

/// A place in a list.
pub open spec fn place(at: Seq<char>, list: Seq<char>, i: int) -> Seq<char> {
    at + list + seq!['['] + text::decimal(i as nat) + seq![']']
}

/// What is wrong with a key of a topic mapping, or of a bridge.
pub open spec fn key_faults(mapping: bool, at: Seq<char>) -> spec_fn(int, Seq<char>) -> Option<
    Seq<char>,
> {
    |i: int, k: Seq<char>|
        if is_key(k, mapping) {
            None
        } else {
            Some(fault_at(at, "unknown key '"@ + k + "'"@))
        }
}

/// What is wrong with the keys of a topic mapping, or of a bridge: the first in
/// the order of names that cannot stand in it.
pub open spec fn keys_fault(v: JsonView, mapping: bool, at: Seq<char>) -> Option<Seq<char>> {
    match v {
        JsonView::Object(members) => text::first_fault(
            json::names_of(members),
            key_faults(mapping, at),
        ),
        _ => None,
    }
}

/// What is said of a member of another type.
pub open spec fn type_text(at: Seq<char>, key: Seq<char>, what: Seq<char>) -> Seq<char> {
    fault_at(at, key + " must be "@ + what)
}

/// What is wrong with the types of the members that a bridge may have.
pub open spec fn types_fault(v: JsonView, at: Seq<char>) -> Option<Seq<char>> {
    if text_member(v.at("client_id"@)) is None {
        Some(type_text(at, "client_id"@, "a string"@))
    } else if text_member(v.at("username"@)) is None {
        Some(type_text(at, "username"@, "a string"@))
    } else if text_member(v.at("password"@)) is None {
        Some(type_text(at, "password"@, "a string"@))
    } else if int_member(v.at("keepalive"@)) is None {
        Some(type_text(at, "keepalive"@, "an integer"@))
    } else if int_member(v.at("protocol_version"@)) is None {
        Some(type_text(at, "protocol_version"@, "an integer"@))
    } else if text_member(v.at("tls_ca"@)) is None {
        Some(type_text(at, "tls_ca"@, "a string"@))
    } else if text_member(v.at("tls_cert"@)) is None {
        Some(type_text(at, "tls_cert"@, "a string"@))
    } else if text_member(v.at("tls_key"@)) is None {
        Some(type_text(at, "tls_key"@, "a string"@))
    } else if flag_member(v.at("tls_insecure"@)) is None {
        Some(type_text(at, "tls_insecure"@, "true or false"@))
    } else {
        None
    }
}

/// What is wrong with a topic mapping.
pub open spec fn topic_fault(v: JsonView, at: Seq<char>) -> Option<Seq<char>> {
    match v.at("pattern"@).as_str() {
        None => Some(fault_at(at, "missing string 'pattern'"@)),
        Some(pattern) => if !topic::is_topic_filter(pattern) {
            Some(fault_at(at, "invalid topic filter "@ + text::quoted(pattern)))
        } else if direction_of(v.at("direction"@)) is None {
            Some(fault_at(at, "direction must be in|out|both"@))
        } else if int_member(v.at("qos"@)) is None {
            Some(type_text(at, "qos"@, "an integer"@))
        } else if mapping_qos(v.at("qos"@)) is None {
            Some(fault_at(at, got_text("qos must be 0, 1 or 2"@, v.at("qos"@)->Int_0 as int)))
        } else {
            keys_fault(v, true, at)
        },
    }
}

/// What is wrong with the topic mappings of a bridge.
pub open spec fn topic_faults(at: Seq<char>) -> spec_fn(int, JsonView) -> Option<Seq<char>> {
    |i: int, v: JsonView| topic_fault(v, place(at, ".topics"@, i))
}

/// What is wrong with the topic mappings of a member, which must be an array.
pub open spec fn topics_fault(v: JsonView, at: Seq<char>) -> Option<Seq<char>> {
    match v {
        JsonView::Array(items) => text::first_fault(items, topic_faults(at)),
        _ => Some(fault_at(at, "'topics' must be an array"@)),
    }
}

/// What is wrong with a bridge.
pub open spec fn bridge_fault(v: JsonView, at: Seq<char>) -> Option<Seq<char>> {
    let keepalive = v.at("keepalive"@);
    let version = v.at("protocol_version"@);
    let topics = v.at("topics"@);
    if v.at("name"@).as_str() is None {
        Some(fault_at(at, "missing string 'name'"@))
    } else if v.at("address"@).as_str() is None {
        Some(fault_at(at, "missing string 'address'"@))
    } else if keepalive is Int && bridge_keepalive(keepalive) is None {
        Some(fault_at(at, "keepalive out of range (0-65535)"@))
    } else if version is Int && bridge_version(version) is None {
        Some(
            fault_at(at, got_text("protocol_version must be 3, 4 or 5"@, version->Int_0 as int)),
        )
    } else if topics_fault(topics, at) is Some {
        topics_fault(topics, at)
    } else if topics->Array_0.len() == 0 {
        Some(fault_at(at, "at least one topic mapping is required"@))
    } else if types_fault(v, at) is Some {
        types_fault(v, at)
    } else {
        keys_fault(v, false, at)
    }
}

/// What is wrong with the bridges of a configuration.
pub open spec fn bridge_faults(source: Seq<char>) -> spec_fn(int, JsonView) -> Option<Seq<char>> {
    |i: int, v: JsonView| bridge_fault(v, place(source, ": bridges"@, i))
}

/// What is wrong with the bridges of a configuration, which `source` names.
pub open spec fn bridges_fault(doc: JsonView, source: Seq<char>) -> Option<Seq<char>> {
    match doc.at("bridges"@) {
        JsonView::Null => None,
        JsonView::Array(items) => text::first_fault(items, bridge_faults(source)),
        _ => Some(source + ": 'bridges' must be an array"@),
    }
}

proof fn lemma_topics_prefix(items: Seq<JsonView>, n: int)
    requires
        0 <= n <= items.len(),
        topics_of(items.take(n)) is None,
    ensures
        topics_of(items) is None,
    decreases items.len() - n,
{
    if n == items.len() {
        assert(items.take(n) =~= items);
    } else {
        assert(items.take(n + 1).drop_last() =~= items.take(n));
        lemma_topics_prefix(items, n + 1);
    }
}

proof fn lemma_bridges_prefix(items: Seq<JsonView>, n: int)
    requires
        0 <= n <= items.len(),
        bridges_of(items.take(n)) is None,
    ensures
        bridges_of(items) is None,
    decreases items.len() - n,
{
    if n == items.len() {
        assert(items.take(n) =~= items);
    } else {
        assert(items.take(n + 1).drop_last() =~= items.take(n));
        lemma_bridges_prefix(items, n + 1);
    }
}

/// A text member, if it is there.
fn str_at(node: &Json, key: &str) -> (r: Option<String>)
    ensures
        text::opt_view(r) == node@.at(key@).as_str(),
{
    match node.get(key) {
        Some(v) => match v.as_str() {
            Some(s) => Some(s.to_owned()),
            None => None,
        },
        None => None,
    }
}

/// An integer member, if it is there.
fn int_at(node: &Json, key: &str) -> (r: Option<i64>)
    ensures
        r == node@.at(key@).as_i64(),
{
    match node.get(key) {
        Some(v) => v.as_i64(),
        None => None,
    }
}

/// Whether a member is missing, null or a text.
fn text_fits(node: &Json, key: &str) -> (r: bool)
    ensures
        r == (text_member(node@.at(key@)) is Some),
{
    match node.get(key) {
        Some(v) => v.is_null() || v.as_str().is_some(),
        None => true,
    }
}

/// Whether a member is missing, null or an integer.
fn int_fits(node: &Json, key: &str) -> (r: bool)
    ensures
        r == (int_member(node@.at(key@)) is Some),
{
    match node.get(key) {
        Some(v) => v.is_null() || v.as_i64().is_some(),
        None => true,
    }
}

/// Whether a member is missing, null or a truth value.
fn flag_fits(node: &Json, key: &str) -> (r: bool)
    ensures
        r == (flag_member(node@.at(key@)) is Some),
{
    match node.get(key) {
        Some(v) => v.is_null() || v.as_bool().is_some(),
        None => true,
    }
}

/// A place in a list, for messages.
fn place_text(at: &str, list: &str, i: usize) -> (r: String)
    ensures
        r@ == place(at@, list@, i as int),
{
    let mut s: String = at.to_owned();
    s.append(list);
    s.push('[');
    push_decimal(&mut s, i as u64);
    s.push(']');
    assert(s@ =~= place(at@, list@, i as int));
    s
}

fn wrong(at: &String, what: &str) -> (r: MqttError)
    ensures
        r matches MqttError::Config(m) && m@ == fault_at(at@, what@),
{
    MqttError::Config(text::concat3(at.as_str(), ": ", what))
}

/// The error of a number that is none of those that can be.
fn wrong_number(at: &String, what: &str, n: i64) -> (r: MqttError)
    ensures
        r matches MqttError::Config(m) && m@ == fault_at(at@, got_text(what@, n as int)),
{
    let mut m: String = text::concat3(what, " (got ", text::signed_string(n).as_str());
    m.append(")");
    wrong(at, m.as_str())
}

/// The error of a member of another type.
fn wrong_type(at: &String, key: &str, what: &str) -> (r: MqttError)
    ensures
        r matches MqttError::Config(m) && m@ == type_text(at@, key@, what@),
{
    wrong(at, text::concat3(key, " must be ", what).as_str())
}

/// Refuses a bridge with a member of another type.
fn check_types(b: &Json, at: &String) -> (r: Result<()>)
    ensures
        match r {
            Ok(_) => types_fault(b@, at@) is None,
            Err(e) => e matches MqttError::Config(m) && types_fault(b@, at@) == Some(m@),
        },
{
    if !text_fits(b, "client_id") {
        return Err(wrong_type(at, "client_id", "a string"));
    }
    if !text_fits(b, "username") {
        return Err(wrong_type(at, "username", "a string"));
    }
    if !text_fits(b, "password") {
        return Err(wrong_type(at, "password", "a string"));
    }
    if !int_fits(b, "keepalive") {
        return Err(wrong_type(at, "keepalive", "an integer"));
    }
    if !int_fits(b, "protocol_version") {
        return Err(wrong_type(at, "protocol_version", "an integer"));
    }
    if !text_fits(b, "tls_ca") {
        return Err(wrong_type(at, "tls_ca", "a string"));
    }
    if !text_fits(b, "tls_cert") {
        return Err(wrong_type(at, "tls_cert", "a string"));
    }
    if !text_fits(b, "tls_key") {
        return Err(wrong_type(at, "tls_key", "a string"));
    }
    if !flag_fits(b, "tls_insecure") {
        return Err(wrong_type(at, "tls_insecure", "true or false"));
    }
    Ok(())
}

fn known_key(key: &str, mapping: bool) -> (r: bool)
    ensures
        r == is_key(key@, mapping),
{
    if mapping {
        text::str_eq(key, "pattern") || text::str_eq(key, "direction") || text::str_eq(key, "qos")
    } else {
        text::str_eq(key, "name") || text::str_eq(key, "address") || text::str_eq(key, "client_id")
            || text::str_eq(key, "username") || text::str_eq(key, "password") || text::str_eq(
            key,
            "keepalive",
        ) || text::str_eq(key, "protocol_version") || text::str_eq(key, "tls_ca") || text::str_eq(
            key,
            "tls_cert",
        ) || text::str_eq(key, "tls_key") || text::str_eq(key, "tls_insecure") || text::str_eq(
            key,
            "topics",
        )
    }
}

/// Refuses a bridge, or a topic mapping, with a key that cannot stand in it.
fn check_keys(node: &Json, mapping: bool, at: &String) -> (r: Result<()>)
    ensures
        match r {
            Ok(_) => keys_known(node@, mapping) && keys_fault(node@, mapping, at@) is None,
            Err(e) => !keys_known(node@, mapping) && (e matches MqttError::Config(m) && keys_fault(
                node@,
                mapping,
                at@,
            ) == Some(m@)),
        },
{
    let members: &Vec<(String, Json)> = match node.as_object() {
        None => {
            return Ok(());
        },
        Some(m) => m,
    };
    let names: Vec<String> = json::sorted_names(members);
    let ghost m = json::members_view(members@);
    let ghost all = text::views(names@);
    let ghost faults = key_faults(mapping, at@);
    let mut i: usize = 0;
    assert(all.take(0) =~= Seq::empty());
    while i < names.len()
        invariant
            i <= names.len(),
            node@ == JsonView::Object(m),
            all == text::views(names@),
            all.len() == names@.len(),
            all == json::names_of(m),
            json::lists_names(m, all),
            faults == key_faults(mapping, at@),
            text::first_fault(all.take(i as int), faults) is None,
            forall|x: int| 0 <= x < i ==> is_key(#[trigger] all[x], mapping),
        decreases names.len() - i,
    {
        proof {
            text::lemma_first_fault(all, faults, i as int);
            assert(all[i as int] == names@[i as int]@);
        }
        if !known_key(names[i].as_str(), mapping) {
            assert(all.contains(all[i as int]));
            assert(m.contains_key(all[i as int]));
            return Err(
                wrong(at, text::concat3("unknown key '", names[i].as_str(), "'").as_str()),
            );
        }
        i = i + 1;
    }
    assert(all.take(all.len() as int) =~= all);
    assert(members_known(m, mapping)) by {
        assert forall|k: Seq<char>| #[trigger] m.contains_key(k) implies is_key(k, mapping) by {
            assert(all.contains(k));
        }
    }
    Ok(())
}

/// Reads a topic mapping.
fn parse_topic(t: &Json, at: &String) -> (r: Result<BridgeTopic>)
    ensures
        match r {
            Ok(x) => BridgeTopicView::of_json(t@) == Some(x@) && topic_fault(t@, at@) is None,
            Err(e) => BridgeTopicView::of_json(t@) is None && (e matches MqttError::Config(m)
                && topic_fault(t@, at@) == Some(m@)),
        },
{
    let pattern: String = match str_at(t, "pattern") {
        Some(s) => s,
        None => {
            return Err(wrong(at, "missing string 'pattern'"));
        },
    };
    if !topic::valid_topic_filter(pattern.as_str()) {
        let shown: String = text::quote(pattern.as_str());
        return Err(wrong(at, concat("invalid topic filter ", shown.as_str()).as_str()));
    }
    let direction: Direction = match str_at(t, "direction") {
        Some(d) => if text::str_eq(d.as_str(), "out") {
            Direction::Out
        } else if text::str_eq(d.as_str(), "in") {
            Direction::In
        } else if text::str_eq(d.as_str(), "both") {
            Direction::Both
        } else {
            return Err(wrong(at, "direction must be in|out|both"));
        },
        None => {
            return Err(wrong(at, "direction must be in|out|both"));
        },
    };
    if !int_fits(t, "qos") {
        return Err(wrong_type(at, "qos", "an integer"));
    }
    let qos: QoS = match int_at(t, "qos") {
        None => QoS::AtMostOnce,
        Some(n) => if n == 0 {
            QoS::AtMostOnce
        } else if n == 1 {
            QoS::AtLeastOnce
        } else if n == 2 {
            QoS::ExactlyOnce
        } else {
            return Err(wrong_number(at, "qos must be 0, 1 or 2", n));
        },
    };
    if let Err(e) = check_keys(t, true, at) {
        return Err(e);
    }
    Ok(BridgeTopic { pattern, direction, qos })
}

/// Reads the topic mappings of a bridge.
fn parse_topics(b: &Json, at: &String) -> (r: Result<Vec<BridgeTopic>>)
    ensures
        match r {
            Ok(x) => topics_member(b@.at("topics"@)) == Some(text::views(x@)) && topics_fault(
                b@.at("topics"@),
                at@,
            ) is None,
            Err(e) => topics_member(b@.at("topics"@)) is None && (e matches MqttError::Config(m)
                && topics_fault(b@.at("topics"@), at@) == Some(m@)),
        },
{
    let list: &Vec<Json> = match b.get("topics") {
        Some(v) => match v.as_array() {
            Some(items) => items,
            None => {
                return Err(wrong(at, "'topics' must be an array"));
            },
        },
        None => {
            return Err(wrong(at, "'topics' must be an array"));
        },
    };
    let ghost items = json::items_view(list@);
    let ghost faults = topic_faults(at@);
    proof {
        json::lemma_items_view(list@);
    }
    let mut out: Vec<BridgeTopic> = Vec::new();
    let mut i: usize = 0;
    assert(items.take(0) =~= Seq::empty());
    assert(text::views(out@) =~= Seq::empty());
    while i < list.len()
        invariant
            i <= list.len(),
            items == json::items_view(list@),
            items.len() == list@.len(),
            forall|j: int| 0 <= j < list@.len() ==> #[trigger] items[j] == list@[j]@,
            b@.at("topics"@) == JsonView::Array(items),
            topics_of(items.take(i as int)) == Some(text::views(out@)),
            faults == topic_faults(at@),
            text::first_fault(items.take(i as int), faults) is None,
        decreases list.len() - i,
    {
        proof {
            text::lemma_first_fault(items, faults, i as int);
        }
        assert(items.take(i + 1).drop_last() =~= items.take(i as int));
        assert(items.take(i + 1).last() == list@[i as int]@);
        let tat: String = place_text(at.as_str(), ".topics", i);
        match parse_topic(&list[i], &tat) {
            Ok(t) => out.push(t),
            Err(e) => {
                proof {
                    lemma_topics_prefix(items, i + 1);
                }
                return Err(e);
            },
        }
        i = i + 1;
    }
    assert(items.take(items.len() as int) =~= items);
    Ok(out)
}

/// Reads a bridge.
fn parse_bridge(b: &Json, at: &String) -> (r: Result<BridgeConfig>)
    ensures
        match r {
            Ok(x) => BridgeConfigView::of_json(b@) == Some(x@) && bridge_fault(b@, at@) is None,
            Err(e) => BridgeConfigView::of_json(b@) is None && (e matches MqttError::Config(m)
                && bridge_fault(b@, at@) == Some(m@)),
        },
{
    let name: String = match str_at(b, "name") {
        Some(s) => s,
        None => {
            return Err(wrong(at, "missing string 'name'"));
        },
    };
    let address: String = match str_at(b, "address") {
        Some(s) => s,
        None => {
            return Err(wrong(at, "missing string 'address'"));
        },
    };
    let keepalive: u16 = match int_at(b, "keepalive") {
        None => 60,
        Some(n) => if 0 <= n && n <= 65535 {
            n as u16
        } else {
            return Err(wrong(at, "keepalive out of range (0-65535)"));
        },
    };
    let protocol_version: ProtocolVersion = match int_at(b, "protocol_version") {
        None => ProtocolVersion::V5,
        Some(n) => if n == 5 {
            ProtocolVersion::V5
        } else if n == 4 {
            ProtocolVersion::V3_1_1
        } else if n == 3 {
            ProtocolVersion::V3_1
        } else {
            return Err(wrong_number(at, "protocol_version must be 3, 4 or 5", n));
        },
    };
    let topics: Vec<BridgeTopic> = match parse_topics(b, at) {
        Ok(t) => t,
        Err(e) => {
            return Err(e);
        },
    };
    proof {
        lemma_topics_count(b@.at("topics"@)->Array_0);
    }
    if topics.len() == 0 {
        return Err(wrong(at, "at least one topic mapping is required"));
    }
    if let Err(e) = check_types(b, at) {
        return Err(e);
    }
    if let Err(e) = check_keys(b, false, at) {
        return Err(e);
    }
    let client_id: String = match str_at(b, "client_id") {
        Some(s) => s,
        None => concat("pulsemq-bridge-", name.as_str()),
    };
    let tls_insecure: bool = match b.get("tls_insecure") {
        Some(v) => match v.as_bool() {
            Some(x) => x,
            None => false,
        },
        None => false,
    };
    Ok(
        BridgeConfig {
            name,
            address,
            client_id,
            username: str_at(b, "username"),
            password: str_at(b, "password"),
            keepalive,
            protocol_version,
            tls_ca: str_at(b, "tls_ca"),
            tls_cert: str_at(b, "tls_cert"),
            tls_key: str_at(b, "tls_key"),
            tls_insecure,
            topics,
        },
    )
}

proof fn lemma_topics_count(items: Seq<JsonView>)
    ensures
        topics_of(items) matches Some(t) ==> t.len() == items.len(),
    decreases items.len(),
{
    if items.len() > 0 {
        lemma_topics_count(items.drop_last());
    }
}

/// Reads the bridges of a configuration; `source` names it for messages.
pub fn parse_bridges(doc: &Json, source: &str) -> (r: Result<Vec<BridgeConfig>>)
    ensures
        match r {
            Ok(x) => bridges_member(doc@) == Some(text::views(x@)) && bridges_fault(
                doc@,
                source@,
            ) is None,
            Err(e) => bridges_member(doc@) is None && (e matches MqttError::Config(m)
                && bridges_fault(doc@, source@) == Some(m@)),
        },
{
    let mut out: Vec<BridgeConfig> = Vec::new();
    assert(text::views(out@) =~= Seq::empty());
    let list: &Vec<Json> = match doc.get("bridges") {
        None => {
            return Ok(out);
        },
        Some(v) => {
            if v.is_null() {
                return Ok(out);
            }
            match v.as_array() {
                Some(items) => items,
                None => {
                    return Err(
                        MqttError::Config(concat(source, ": 'bridges' must be an array")),
                    );
                },
            }
        },
    };
    let ghost items = json::items_view(list@);
    let ghost faults = bridge_faults(source@);
    proof {
        json::lemma_items_view(list@);
    }
    let mut i: usize = 0;
    assert(items.take(0) =~= Seq::empty());
    while i < list.len()
        invariant
            i <= list.len(),
            items == json::items_view(list@),
            items.len() == list@.len(),
            forall|j: int| 0 <= j < list@.len() ==> #[trigger] items[j] == list@[j]@,
            doc@.at("bridges"@) == JsonView::Array(items),
            bridges_of(items.take(i as int)) == Some(text::views(out@)),
            faults == bridge_faults(source@),
            text::first_fault(items.take(i as int), faults) is None,
        decreases list.len() - i,
    {
        proof {
            text::lemma_first_fault(items, faults, i as int);
        }
        assert(items.take(i + 1).drop_last() =~= items.take(i as int));
        assert(items.take(i + 1).last() == list@[i as int]@);
        let at: String = place_text(source, ": bridges", i);
        match parse_bridge(&list[i], &at) {
            Ok(b) => out.push(b),
            Err(e) => {
                proof {
                    lemma_bridges_prefix(items, i + 1);
                }
                return Err(e);
            },
        }
        i = i + 1;
    }
    assert(items.take(items.len() as int) =~= items);
    Ok(out)
}

/// How a bridge reaches its remote broker.
#[derive(Debug, Clone, Copy, PartialEq, Eq, Structural)]
pub enum Transport {
    Tcp,
    Tls,
    Ws,
    Wss,
}

impl Transport {
    /// The transport of a scheme, and its default port.
    pub open spec fn of_scheme(scheme: Seq<char>) -> Option<(Transport, u16)> {
        let s = text::lower(scheme);
        if s == "tcp"@ || s == "mqtt"@ {
            Some((Transport::Tcp, 1883))
        } else if s == "tls"@ || s == "mqtts"@ || s == "ssl"@ {
            Some((Transport::Tls, 8883))
        } else if s == "ws"@ {
            Some((Transport::Ws, 8080))
        } else if s == "wss"@ {
            Some((Transport::Wss, 8443))
        } else {
            None
        }
    }
}

/// Where a bridge finds its remote broker.
#[derive(Debug)]
pub struct Endpoint {
    pub transport: Transport,
    pub host: String,
    pub port: u16,
    /// The URL of the WebSocket handshake.
    pub ws_url: Option<String>,
}

/// What an endpoint says.
pub struct EndpointView {
    pub transport: Transport,
    pub host: Seq<char>,
    pub port: u16,
    pub ws_url: Option<Seq<char>>,
}

impl View for Endpoint {
    type V = EndpointView;

    open spec fn view(&self) -> EndpointView {
        EndpointView {
            transport: self.transport,
            host: self.host@,
            port: self.port,
            ws_url: text::opt_view(self.ws_url),
        }
    }
}

/// The host and port of `host[:port]`.
pub open spec fn host_port(s: Seq<char>, default_port: u16) -> Option<(Seq<char>, u16)> {
    match text::rsplit_once(s, ':') {
        None => Some((s, default_port)),
        Some((host, port)) => match text::parsed_number(port, 65535) {
            Some(n) => Some((host, n as u16)),
            None => None,
        },
    }
}

impl EndpointView {
    /// The endpoint of an address `scheme://host[:port][/path]`.
    pub open spec fn of(address: Seq<char>) -> Option<EndpointView> {
        match text::split_text(address, "://"@) {
            None => None,
            Some((scheme, rest)) => match Transport::of_scheme(scheme) {
                None => None,
                Some((transport, default_port)) => {
                    let slash = text::first_place(rest, '/');
                    let path = rest.skip(slash);
                    match host_port(rest.take(slash), default_port) {
                        None => None,
                        Some((host, port)) => if host.len() == 0 {
                            None
                        } else {
                            Some(
                                EndpointView {
                                    transport,
                                    host,
                                    port,
                                    ws_url: if transport is Ws || transport is Wss {
                                        Some(
                                            scheme + "://"@ + host + seq![':'] + text::decimal(
                                                port as nat,
                                            ) + (if path.len() == 0 {
                                                "/mqtt"@
                                            } else {
                                                path
                                            }),
                                        )
                                    } else {
                                        None
                                    },
                                },
                            )
                        },
                    }
                },
            },
        }
    }
}

/// What is wrong with an address.
pub open spec fn endpoint_fault(address: Seq<char>) -> Option<Seq<char>> {
    match text::split_text(address, "://"@) {
        None => Some(
            "bridge address "@ + text::quoted(address) + " must be scheme://host[:port]"@,
        ),
        Some((scheme, rest)) => match Transport::of_scheme(scheme) {
            None => Some("bridge address: unknown scheme "@ + text::quoted(text::lower(scheme))),
            Some((_, default_port)) => {
                let at = rest.take(text::first_place(rest, '/'));
                match host_port(at, default_port) {
                    None => Some(
                        "bridge address: invalid port "@ + text::quoted(
                            (text::rsplit_once(at, ':')->0).1,
                        ),
                    ),
                    Some((host, _)) => if host.len() == 0 {
                        Some("bridge address: empty host"@)
                    } else {
                        None
                    },
                }
            },
        },
    }
}

fn transport_of(scheme: &[char]) -> (r: Option<(Transport, u16)>)
    ensures
        r == Transport::of_scheme(scheme@),
{
    let s: Vec<char> = lower_chars(scheme);
    if chars_are(s.as_slice(), "tcp") || chars_are(s.as_slice(), "mqtt") {
        Some((Transport::Tcp, 1883))
    } else if chars_are(s.as_slice(), "tls") || chars_are(s.as_slice(), "mqtts") || chars_are(
        s.as_slice(),
        "ssl",
    ) {
        Some((Transport::Tls, 8883))
    } else if chars_are(s.as_slice(), "ws") {
        Some((Transport::Ws, 8080))
    } else if chars_are(s.as_slice(), "wss") {
        Some((Transport::Wss, 8443))
    } else {
        None
    }
}

impl Endpoint {
    /// Whether the endpoint speaks TLS.
    pub fn is_tls(&self) -> (r: bool)
        ensures
            r == (self@.transport is Tls || self@.transport is Wss),
    {
        match self.transport {
            Transport::Tls => true,
            Transport::Wss => true,
            _ => false,
        }
    }

    /// Parses an address `scheme://host[:port][/path]`.
    pub fn parse(address: &str) -> (r: Result<Endpoint>)
        ensures
            match r {
                Ok(e) => EndpointView::of(address@) == Some(e@) && endpoint_fault(address@) is None,
                Err(e) => EndpointView::of(address@) is None && (e matches MqttError::Config(m)
                    && endpoint_fault(address@) == Some(m@)),
            },
    {
        let all: Vec<char> = chars_of(address);
        let sep: Vec<char> = chars_of("://");
        let (scheme, rest): (Vec<char>, Vec<char>) = match text::split_text_chars(
            all.as_slice(),
            sep.as_slice(),
        ) {
            Some(p) => p,
            None => {
                let shown: String = text::quote(address);
                return Err(
                    MqttError::Config(
                        text::concat3(
                            "bridge address ",
                            shown.as_str(),
                            " must be scheme://host[:port]",
                        ),
                    ),
                );
            },
        };
        let (transport, default_port): (Transport, u16) = match transport_of(scheme.as_slice()) {
            Some(t) => t,
            None => {
                let s: String = string_of(lower_chars(scheme.as_slice()).as_slice());
                let shown: String = text::quote(s.as_str());
                return Err(
                    MqttError::Config(concat("bridge address: unknown scheme ", shown.as_str())),
                );
            },
        };
        let slash: usize = text::find_char(rest.as_slice(), '/');
        let hostport: &[char] = vstd::slice::slice_subrange(rest.as_slice(), 0, slash);
        let path: &[char] = vstd::slice::slice_subrange(rest.as_slice(), slash, rest.len());
        assert(hostport@ =~= rest@.take(slash as int));
        assert(path@ =~= rest@.skip(slash as int));
        let (host, port): (Vec<char>, u16) = match text::rsplit_once_chars(hostport, ':') {
            None => (vstd::slice::slice_to_vec(hostport), default_port),
            Some((h, p)) => match text::parse_number(p.as_slice(), 65535) {
                Some(n) => (h, n as u16),
                None => {
                    let s: String = string_of(p.as_slice());
                    let shown: String = text::quote(s.as_str());
                    return Err(
                        MqttError::Config(concat("bridge address: invalid port ", shown.as_str())),
                    );
                },
            },
        };
        if host.len() == 0 {
            return Err(MqttError::Config("bridge address: empty host".to_owned()));
        }
        let ws: bool = match transport {
            Transport::Ws => true,
            Transport::Wss => true,
            _ => false,
        };
        let host: String = string_of(host.as_slice());
        let ws_url: Option<String> = if ws {
            let mut url: String = string_of(scheme.as_slice());
            url.append("://");
            url.append(host.as_str());
            url.push(':');
            push_decimal(&mut url, port as u64);
            if path.len() == 0 {
                url.append("/mqtt");
            } else {
                url.append(string_of(path).as_str());
            }
            assert(url@ =~= scheme@ + "://"@ + host@ + seq![':'] + text::decimal(port as nat) + (
            if path@.len() == 0 {
                "/mqtt"@
            } else {
                path@
            }));
            Some(url)
        } else {
            None
        };
        Ok(Endpoint { transport, host, port, ws_url })
    }
}

impl BridgeConfigView {
    /// The CONNECT that a bridge sends.
    pub open spec fn connect(self) -> ConnectView {
        ConnectView {
            protocol_name: if self.protocol_version is V3_1 {
                "MQIsdp"@
            } else {
                "MQTT"@
            },
            protocol_version: self.protocol_version.code(),
            clean_start: true,
            keep_alive: self.keepalive,
            properties: PropertiesView::empty(),
            client_id: self.client_id,
            will: None,
            username: self.username,
            password: match self.password {
                Some(p) => Some(vstd::utf8::encode_utf8(p)),
                None => None,
            },
        }
    }

    /// The QoS that a message is forwarded with: that of the first mapping that
    /// forwards it, or 0.
    pub open spec fn out_qos(self, topic: Seq<char>) -> QoS {
        first_qos(self.topics, topic)
    }
}

/// The CONNECT of a bridge is one that a broker takes: its protocol name goes
/// with its version.
pub proof fn bridge_connect_is_valid(b: BridgeConfigView)
    ensures
        b.connect().version() == Some(b.protocol_version),
{
}

/// The QoS of the first mapping that forwards a topic out, or 0.
pub open spec fn first_qos(topics: Seq<BridgeTopicView>, topic: Seq<char>) -> QoS
    decreases topics.len(),
{
    if topics.len() == 0 {
        QoS::AtMostOnce
    } else if topics[0].direction.is_out() && topic::is_match(topics[0].pattern, topic) {
        topics[0].qos
    } else {
        first_qos(topics.skip(1), topic)
    }
}

/// The filters that a bridge subscribes to at its remote broker.
pub open spec fn in_filters(topics: Seq<BridgeTopicView>) -> Seq<TopicFilterView>
    decreases topics.len(),
{
    if topics.len() == 0 {
        Seq::empty()
    } else {
        let before = in_filters(topics.drop_last());
        let t = topics.last();
        if t.direction.is_in() {
            before.push(
                TopicFilterView {
                    filter: t.pattern,
                    qos: t.qos,
                    no_local: false,
                    retain_as_published: false,
                    retain_handling: RetainHandling::SendAtSubscribe,
                },
            )
        } else {
            before
        }
    }
}

/// The CONNECT that a bridge sends.
pub fn build_connect(cfg: &BridgeConfig) -> (r: Connect)
    ensures
        r@ == cfg@.connect(),
{
    let protocol_name: &str = if cfg.protocol_version == ProtocolVersion::V3_1 {
        "MQIsdp"
    } else {
        "MQTT"
    };
    Connect {
        protocol_name: protocol_name.to_owned(),
        protocol_version: cfg.protocol_version.level(),
        clean_start: true,
        keep_alive: cfg.keepalive,
        properties: Properties::new(),
        client_id: cfg.client_id.clone(),
        will: None,
        username: clone_opt_string(&cfg.username),
        password: match &cfg.password {
            Some(p) => Some(vstd::slice::slice_to_vec(p.as_str().as_bytes())),
            None => None,
        },
    }
}

/// The QoS that a message is forwarded with.
pub fn out_qos(cfg: &BridgeConfig, topic: &str) -> (r: QoS)
    ensures
        r == cfg@.out_qos(topic@),
{
    let ghost all = cfg@.topics;
    let mut i: usize = 0;
    assert(all.skip(0) =~= all);
    while i < cfg.topics.len()
        invariant
            i <= cfg.topics.len(),
            all == text::views(cfg.topics@),
            first_qos(all, topic@) == first_qos(all.skip(i as int), topic@),
        decreases cfg.topics.len() - i,
    {
        assert(all.skip(i as int)[0] == cfg.topics@[i as int]@);
        assert(all.skip(i as int).skip(1) =~= all.skip(i + 1));
        if cfg.topics[i].direction.forwards_out() && topic::matches(
            cfg.topics[i].pattern.as_str(),
            topic,
        ) {
            return cfg.topics[i].qos;
        }
        i = i + 1;
    }
    QoS::AtMostOnce
}

/// The SUBSCRIBE that a bridge sends, if it has something to subscribe to.
pub fn build_subscribe(cfg: &BridgeConfig) -> (r: Option<Subscribe>)
    ensures
        match r {
            Some(s) => in_filters(cfg@.topics).len() > 0 && s@ == (SubscribeView {
                packet_id: 1,
                properties: PropertiesView::empty(),
                filters: in_filters(cfg@.topics),
            }),
            None => in_filters(cfg@.topics).len() == 0,
        },
{
    let ghost all = cfg@.topics;
    let mut filters: Vec<TopicFilter> = Vec::new();
    let mut i: usize = 0;
    assert(all.take(0) =~= Seq::empty());
    assert(text::views(filters@) =~= Seq::empty());
    while i < cfg.topics.len()
        invariant
            i <= cfg.topics.len(),
            all == text::views(cfg.topics@),
            text::views(filters@) == in_filters(all.take(i as int)),
        decreases cfg.topics.len() - i,
    {
        let t: &BridgeTopic = &cfg.topics[i];
        assert(all.take(i + 1).drop_last() =~= all.take(i as int));
        assert(all.take(i + 1).last() == t@);
        if t.direction.forwards_in() {
            filters.push(
                TopicFilter {
                    filter: t.pattern.clone(),
                    qos: t.qos,
                    no_local: false,
                    retain_as_published: false,
                    retain_handling: RetainHandling::SendAtSubscribe,
                },
            );
        }
        i = i + 1;
    }
    assert(all.take(all.len() as int) =~= all);
    if filters.len() == 0 {
        None
    } else {
        Some(Subscribe { packet_id: 1, properties: Properties::new(), filters })
    }
}

/// What the answer to the CONNECT of a bridge means.
#[derive(Debug, Clone, Copy, PartialEq, Eq, Structural)]
pub enum Greeting {
    Accepted,
    Refused,
    /// It was no CONNACK.
    Unexpected,
}

/// What the answer to the CONNECT of a bridge means.
pub fn greeting(packet: &Packet) -> (r: Greeting)
    ensures
        r == (match packet@ {
            PacketView::Connack(c) => if c.reason_code.code() >= 0x80 {
                Greeting::Refused
            } else {
                Greeting::Accepted
            },
            _ => Greeting::Unexpected,
        }),
{
    match packet {
        Packet::Connack(c) => if c.reason_code.is_error() {
            Greeting::Refused
        } else {
            Greeting::Accepted
        },
        _ => Greeting::Unexpected,
    }
}

/// Whether the remote broker let a bridge in, by its answer, which came in a frame
/// of `n` bytes. An answer that is no CONNACK is an error.
pub fn greeted(metrics: &mut Metrics, name: &str, packet: &Packet, n: usize) -> (r: Result<bool>)
    ensures
        has_received(*old(metrics), packet@, n, *final(metrics)),
        match r {
            Ok(accepted) => packet@ matches PacketView::Connack(c) && accepted == (
            c.reason_code.code() < 0x80),
            Err(e) => !(packet@ is Connack) && (e matches MqttError::Protocol(m) && m@ == "bridge "@
                + text::quoted(name@) + ": expected CONNACK, got "@ + packet@.name()),
        },
{
    count_received(metrics, packet, n);
    match greeting(packet) {
        Greeting::Accepted => Ok(true),
        Greeting::Refused => Ok(false),
        Greeting::Unexpected => {
            let shown: String = text::quote(name);
            let m: String = text::concat3("bridge ", shown.as_str(), ": expected CONNACK, got ");
            Err(MqttError::Protocol(concat(m.as_str(), packet.name())))
        },
    }
}

/// Counts a packet that a bridge sent in a frame of `n` bytes. A PUBLISH is a
/// message that was forwarded.
pub fn count_link_sent(metrics: &mut Metrics, packet: &Packet, n: usize)
    ensures
        exists|m: Metrics| #[trigger]
            has_sent(*old(metrics), packet@, n, m) && *final(metrics) == (if packet@ is Publish {
                Metrics { bridge_forwarded_out: counted(m.bridge_forwarded_out, 1), ..m }
            } else {
                m
            }),
{
    count_sent(metrics, packet, n);
    let ghost m = *metrics;
    assert(has_sent(*old(metrics), packet@, n, m));
    if let Packet::Publish(_) = packet {
        Metrics::inc(&mut metrics.bridge_forwarded_out);
    }
}

/// What a bridge does next.
pub enum LinkAction {
    /// Go on.
    Wait,
    /// Send a packet to the remote broker.
    Send(Packet),
    /// End the connection.
    Close,
}

/// What a bridge does next.
pub enum LinkActionView {
    Wait,
    Send(PacketView),
    Close,
}

impl View for LinkAction {
    type V = LinkActionView;

    open spec fn view(&self) -> LinkActionView {
        match self {
            LinkAction::Wait => LinkActionView::Wait,
            LinkAction::Send(p) => LinkActionView::Send(p@),
            LinkAction::Close => LinkActionView::Close,
        }
    }
}

/// The state of the connection of a bridge.
pub struct BridgeLink {
    /// QoS 2 publications of the remote broker that wait for PUBREL.
    pub inbound_qos2: Vec<u16>,
    /// The next packet identifier.
    pub next_id: u16,
}

/// The state of the connection of a bridge.
pub struct BridgeLinkView {
    pub inbound_qos2: Seq<u16>,
    pub next_id: u16,
}

impl View for BridgeLink {
    type V = BridgeLinkView;

    open spec fn view(&self) -> BridgeLinkView {
        BridgeLinkView { inbound_qos2: self.inbound_qos2@, next_id: self.next_id }
    }
}

impl BridgeLinkView {
    /// What a bridge does with an item from the broker: a message is forwarded
    /// with the QoS of its mapping, the rest is not for the remote broker.
    pub open spec fn on_outgoing(self, cfg: BridgeConfigView, item: OutgoingView) -> (
        BridgeLinkView,
        LinkActionView,
    ) {
        match item {
            OutgoingView::Send(p) => {
                let qos = cfg.out_qos(p.topic);
                let forwarded = PublishView {
                    dup: false,
                    qos,
                    packet_id: if qos is AtMostOnce {
                        None
                    } else {
                        Some(self.next_id)
                    },
                    ..p
                };
                (
                    if qos is AtMostOnce {
                        self
                    } else {
                        BridgeLinkView { next_id: next_after(self.next_id), ..self }
                    },
                    LinkActionView::Send(PacketView::Publish(forwarded)),
                )
            },
            OutgoingView::Control(_) => (self, LinkActionView::Wait),
            OutgoingView::Shutdown(_) => (self, LinkActionView::Close),
        }
    }

    /// Whether a publication of the remote broker was seen before.
    pub open spec fn duplicate(self, p: PublishView) -> bool {
        p.qos is ExactlyOnce && self.inbound_qos2.contains(crate::broker::publish::publish_id(p))
    }

    /// What a bridge does with a packet of the remote broker.
    pub open spec fn on_packet(self, p: PacketView) -> (BridgeLinkView, LinkActionView) {
        match p {
            PacketView::Publish(p) => {
                let id = crate::broker::publish::publish_id(p);
                (
                    if p.qos is ExactlyOnce && !self.duplicate(p) {
                        BridgeLinkView { inbound_qos2: self.inbound_qos2.push(id), ..self }
                    } else {
                        self
                    },
                    match p.qos {
                        QoS::AtMostOnce => LinkActionView::Wait,
                        QoS::AtLeastOnce => LinkActionView::Send(
                            PacketView::Puback(ack_view(id, ReasonCode::Success)),
                        ),
                        QoS::ExactlyOnce => LinkActionView::Send(
                            PacketView::Pubrec(ack_view(id, ReasonCode::Success)),
                        ),
                    },
                )
            },
            PacketView::Pubrec(a) => (
                self,
                LinkActionView::Send(
                    PacketView::Pubrel(ack_view(a.packet_id, ReasonCode::Success)),
                ),
            ),
            PacketView::Pubrel(a) => (
                BridgeLinkView {
                    inbound_qos2: without_id(self.inbound_qos2, a.packet_id),
                    ..self
                },
                LinkActionView::Send(
                    PacketView::Pubcomp(ack_view(a.packet_id, ReasonCode::Success)),
                ),
            ),
            PacketView::Disconnect(_) => (self, LinkActionView::Close),
            _ => (self, LinkActionView::Wait),
        }
    }
}

impl BrokerView {
    /// The broker after a bridge gets a packet of its remote broker: a
    /// publication that was not seen before is published here.
    pub open spec fn on_remote(
        self,
        link: BridgeLinkView,
        from: Seq<char>,
        p: PacketView,
        now: u64,
    ) -> BrokerView {
        match p {
            PacketView::Publish(p) => if link.duplicate(p) {
                self
            } else {
                let b = self.injecting(from, MessageView::of_publish(p, now), now);
                BrokerView {
                    metrics: Metrics {
                        bridge_forwarded_in: counted(b.metrics.bridge_forwarded_in, 1),
                        ..b.metrics
                    },
                    ..b
                }
            },
            _ => self,
        }
    }
}

/// A QoS 2 publication of the remote broker is published here once, however
/// often it is sent before it is released.
pub proof fn remote_publication_comes_in_once(
    link: BridgeLinkView,
    b: BrokerView,
    from: Seq<char>,
    p: PublishView,
    now: u64,
)
    requires
        p.qos is ExactlyOnce,
    ensures
        link.on_packet(PacketView::Publish(p)).0.duplicate(p),
        b.on_remote(
            link.on_packet(PacketView::Publish(p)).0,
            from,
            PacketView::Publish(p),
            now,
        ) == b,
{
    let id = crate::broker::publish::publish_id(p);
    if !link.duplicate(p) {
        let after = link.inbound_qos2.push(id);
        assert(after.last() == id);
        assert(after.contains(id));
    }
}

impl BridgeLink {
    /// The state of a new connection. The first packet identifier went to
    /// SUBSCRIBE.
    pub fn new() -> (r: BridgeLink)
        ensures
            r@ == (BridgeLinkView { inbound_qos2: Seq::empty(), next_id: 2 }),
    {
        BridgeLink { inbound_qos2: Vec::new(), next_id: 2 }
    }

    /// Handles an item from the broker.
    pub fn handle_outgoing(&mut self, cfg: &BridgeConfig, item: Outgoing) -> (r: LinkAction)
        ensures
            (final(self)@, r@) == old(self)@.on_outgoing(cfg@, item@),
    {
        match item {
            Outgoing::Send(publish) => {
                let mut p: Publish = *publish;
                let qos: QoS = out_qos(cfg, p.topic.as_str());
                p.dup = false;
                p.qos = qos;
                if qos == QoS::AtMostOnce {
                    p.packet_id = None;
                } else {
                    let id: u16 = self.next_id;
                    self.next_id = if id == u16::MAX {
                        1
                    } else {
                        id + 1
                    };
                    p.packet_id = Some(id);
                }
                LinkAction::Send(Packet::Publish(p))
            },
            Outgoing::Control(_) => LinkAction::Wait,
            Outgoing::Shutdown(_) => LinkAction::Close,
        }
    }

    /// Handles a packet of the remote broker.
    pub fn handle_remote(&mut self, broker: &mut Broker, from: &str, packet: Packet, now: u64) -> (r:
        LinkAction)
        requires
            old(broker).wf(),
        ensures
            (final(self)@, r@) == old(self)@.on_packet(packet@),
            final(broker)@ == old(broker)@.on_remote(old(self)@, from@, packet@, now),
            final(broker).wf(),
    {
        match packet {
            Packet::Publish(p) => self.handle_inbound(broker, from, p, now),
            Packet::Pubrec(a) => LinkAction::Send(
                Packet::Pubrel(PubAck::new(a.packet_id, ReasonCode::Success)),
            ),
            Packet::Pubrel(a) => {
                let i: usize = find_id(&self.inbound_qos2, a.packet_id);
                if i < self.inbound_qos2.len() {
                    let gone: u16 = self.inbound_qos2.remove(i);
                }
                LinkAction::Send(Packet::Pubcomp(PubAck::new(a.packet_id, ReasonCode::Success)))
            },
            Packet::Disconnect(_) => LinkAction::Close,
            _ => LinkAction::Wait,
        }
    }

    /// Handles a PUBLISH of the remote broker.
    fn handle_inbound(&mut self, broker: &mut Broker, from: &str, p: Publish, now: u64) -> (r:
        LinkAction)
        requires
            old(broker).wf(),
        ensures
            (final(self)@, r@) == old(self)@.on_packet(PacketView::Publish(p@)),
            final(broker)@ == old(broker)@.on_remote(
                old(self)@,
                from@,
                PacketView::Publish(p@),
                now,
            ),
            final(broker).wf(),
    {
        let id: u16 = match p.packet_id {
            Some(id) => id,
            None => 0,
        };
        proof {
            text::lemma_first_place_is(self.inbound_qos2@, id);
        }
        let i: usize = find_id(&self.inbound_qos2, id);
        let duplicate: bool = p.qos == QoS::ExactlyOnce && i < self.inbound_qos2.len();
        if !duplicate {
            if p.qos == QoS::ExactlyOnce {
                self.inbound_qos2.push(id);
            }
            let m: Message = Message::from_publish_at(&p, now);
            broker.inject_publish(from, m, now);
            Metrics::inc(&mut broker.metrics.bridge_forwarded_in);
        }
        match p.qos {
            QoS::AtMostOnce => LinkAction::Wait,
            QoS::AtLeastOnce => LinkAction::Send(
                Packet::Puback(PubAck::new(id, ReasonCode::Success)),
            ),
            QoS::ExactlyOnce => LinkAction::Send(
                Packet::Pubrec(PubAck::new(id, ReasonCode::Success)),
            ),
        }
    }
}

/// Something that happens on the connection of a bridge.
pub enum LinkEvent {
    /// The broker has something for the remote broker.
    Outgoing(Outgoing),
    /// The broker let go of the bridge.
    Released,
    /// A packet came in a frame of as many bytes.
    Received(Packet, usize),
    /// The remote broker closed its side.
    Ended,
    /// It is time to ping; nothing has come for as many milliseconds.
    PingDue(u64),
}

impl BridgeLink {
    /// Handles an event. Only a packet of the remote broker reaches the broker
    /// here. A remote broker that has been silent for too long is an error.
    pub fn on_event(
        &mut self,
        broker: &mut Broker,
        cfg: &BridgeConfig,
        from: &str,
        event: LinkEvent,
        now: u64,
    ) -> (r: Result<LinkAction>)
        requires
            old(broker).wf(),
        ensures
            final(broker).wf(),
            match event {
                LinkEvent::Received(p, n) => r is Ok && (final(self)@, (r->Ok_0)@) == old(
                    self,
                )@.on_packet(p@) && exists|m: Metrics| #[trigger]
                    has_received(old(broker)@.metrics, p@, n, m) && final(broker)@ == (BrokerView {
                        metrics: m,
                        ..old(broker)@
                    }).on_remote(old(self)@, from@, p@, now),
                LinkEvent::Outgoing(o) => r is Ok && final(broker)@ == old(broker)@ && (
                    final(self)@,
                    (r->Ok_0)@,
                ) == old(self)@.on_outgoing(cfg@, o@),
                LinkEvent::PingDue(silent_ms) => final(broker)@ == old(broker)@ && final(self)@
                    == old(self)@ && (if cfg@.keepalive > 0 && silent_ms > 2000 * cfg@.keepalive {
                    r is Err && (r->Err_0).says_protocol("bridge remote keep-alive timeout"@)
                } else {
                    r is Ok && (r->Ok_0)@ == if cfg@.keepalive > 0 {
                        LinkActionView::Send(PacketView::Pingreq)
                    } else {
                        LinkActionView::Wait
                    }
                }),
                _ => r is Ok && (r->Ok_0)@ == LinkActionView::Close && final(broker)@ == old(
                    broker,
                )@ && final(self)@ == old(self)@,
            },
    {
        match event {
            LinkEvent::Outgoing(o) => Ok(self.handle_outgoing(cfg, o)),
            LinkEvent::Received(packet, n) => {
                let ghost before = broker@;
                count_received(broker.metrics_mut(), &packet, n);
                let ghost m = broker@.metrics;
                assert(has_received(before.metrics, packet@, n, m));
                assert(broker@ == (BrokerView { metrics: m, ..before }));
                Ok(self.handle_remote(broker, from, packet, now))
            },
            LinkEvent::PingDue(silent_ms) => match ping_step(cfg.keepalive, silent_ms) {
                Ping::Nothing => Ok(LinkAction::Wait),
                Ping::Send => Ok(LinkAction::Send(Packet::Pingreq)),
                Ping::Silent => Err(
                    MqttError::Protocol("bridge remote keep-alive timeout".to_owned()),
                ),
            },
            LinkEvent::Released => Ok(LinkAction::Close),
            LinkEvent::Ended => Ok(LinkAction::Close),
        }
    }
}

/// What a bridge does when it is time to ping.
#[derive(Debug, Clone, Copy, PartialEq, Eq, Structural)]
pub enum Ping {
    /// There is no keep alive.
    Nothing,
    /// Send PINGREQ.
    Send,
    /// The remote broker has been silent for too long.
    Silent,
}

/// How often in seconds a bridge looks at its keep alive.
pub fn ping_period(keepalive: u16) -> (r: u64)
    ensures
        r == (if keepalive > 0 {
            keepalive as u64
        } else {
            3600
        }),
{
    if keepalive > 0 {
        keepalive as u64
    } else {
        3600
    }
}

/// What a bridge does when it is time to ping, given for how long (in
/// milliseconds) nothing came in: twice the keep alive is too long.
pub fn ping_step(keepalive: u16, silent_ms: u64) -> (r: Ping)
    ensures
        r == (if keepalive == 0 {
            Ping::Nothing
        } else if silent_ms > 2000 * keepalive {
            Ping::Silent
        } else {
            Ping::Send
        }),
{
    if keepalive == 0 {
        Ping::Nothing
    } else if silent_ms > keepalive as u64 * 2000 {
        Ping::Silent
    } else {
        Ping::Send
    }
}

/// Seconds before the first attempt to connect again.
pub const RETRY_BASE: u64 = 1;

/// Most seconds between two attempts.
pub const RETRY_MAX: u64 = 60;

/// The seconds before the next attempt: the first after a connection that was
/// served, twice as long as before otherwise.
pub open spec fn retry_after(delay: u64, served: bool) -> u64 {
    if served {
        RETRY_BASE
    } else if 2 * delay > RETRY_MAX {
        RETRY_MAX
    } else {
        (2 * delay) as u64
    }
}

/// The seconds before the next attempt to connect.
pub fn retry_delay(delay: u64, served: bool) -> (r: u64)
    ensures
        r == retry_after(delay, served),
{
    if served {
        RETRY_BASE
    } else if delay > RETRY_MAX / 2 {
        RETRY_MAX
    } else {
        delay * 2
    }
}

/// However often an attempt fails, the next one comes within the longest delay.
pub proof fn retries_never_stop(delay: u64, served: bool)
    requires
        RETRY_BASE <= delay <= RETRY_MAX,
    ensures
        RETRY_BASE <= retry_after(delay, served) <= RETRY_MAX,
        !served && delay < RETRY_MAX ==> retry_after(delay, served) > delay,
{
}

} // verus!
