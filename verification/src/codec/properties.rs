//! MQTT properties.
//!
//! All properties are collected in one `Properties` struct; a packet writes
//! those that are set. Decoding is bounded by the property length prefix.

use vstd::prelude::*;
use crate::codec::{varint_len, varint_size, wire, Reader, Writer, MAX_VARIABLE_BYTE_INTEGER};
use crate::error::{malformed, protocol, MqttError, Result};
use crate::text::{clone_opt_bytes, clone_opt_string, clone_pairs, concat3};
use crate::types::{PropertyId, QoS};

verus! {

broadcast use wire::group_tail;

/// The value of a property that is present at most once.
pub enum PropVal {
    Byte(u8),
    Two(u16),
    Four(u32),
    Text(Seq<char>),
    Data(Seq<u8>),
}

/// A property set: the properties that are present at most once by their
/// identifier, and the two that may repeat as sequences.
pub struct PropertiesView {
    pub single: Map<PropertyId, PropVal>,
    pub subscription_identifiers: Seq<u32>,
    pub user_properties: Seq<(Seq<char>, Seq<char>)>,
}

/// All MQTT v5.0 properties. Fields are `Option` for properties that are
/// present at most once; the other two may repeat.
#[derive(Debug)]
pub struct Properties {
    pub payload_format_indicator: Option<u8>,
    pub message_expiry_interval: Option<u32>,
    pub content_type: Option<String>,
    pub response_topic: Option<String>,
    pub correlation_data: Option<Vec<u8>>,
    pub subscription_identifiers: Vec<u32>,
    pub session_expiry_interval: Option<u32>,
    pub assigned_client_identifier: Option<String>,
    pub server_keep_alive: Option<u16>,
    pub authentication_method: Option<String>,
    pub authentication_data: Option<Vec<u8>>,
    pub request_problem_information: Option<u8>,
    pub will_delay_interval: Option<u32>,
    pub request_response_information: Option<u8>,
    pub response_information: Option<String>,
    pub server_reference: Option<String>,
    pub reason_string: Option<String>,
    pub receive_maximum: Option<u16>,
    pub topic_alias_maximum: Option<u16>,
    pub topic_alias: Option<u16>,
    pub maximum_qos: Option<u8>,
    pub retain_available: Option<u8>,
    pub user_properties: Vec<(String, String)>,
    pub maximum_packet_size: Option<u32>,
    pub wildcard_subscription_available: Option<u8>,
    pub subscription_identifier_available: Option<u8>,
    pub shared_subscription_available: Option<u8>,
}

/// The bytes of a property value.
pub open spec fn value_bytes(x: PropVal) -> Seq<u8> {
    match x {
        PropVal::Byte(v) => seq![v],
        PropVal::Two(v) => wire::be16(v),
        PropVal::Four(v) => wire::be32(v),
        PropVal::Text(v) => wire::text(v),
        PropVal::Data(v) => wire::data(v),
    }
}

/// Reads the value of a property that is present at most once.
pub open spec fn parse_value(id: PropertyId, s: Seq<u8>) -> Option<(PropVal, Seq<u8>)> {
    match id {
        PropertyId::PayloadFormatIndicator
        | PropertyId::RequestProblemInformation
        | PropertyId::RequestResponseInformation
        | PropertyId::MaximumQoS
        | PropertyId::RetainAvailable
        | PropertyId::WildcardSubscriptionAvailable
        | PropertyId::SubscriptionIdentifierAvailable
        | PropertyId::SharedSubscriptionAvailable => match wire::parse_u8(s) {
            Some((v, rest)) => Some((PropVal::Byte(v), rest)),
            None => None,
        },
        PropertyId::MessageExpiryInterval
        | PropertyId::SessionExpiryInterval
        | PropertyId::WillDelayInterval
        | PropertyId::MaximumPacketSize => match wire::parse_u32(s) {
            Some((v, rest)) => Some((PropVal::Four(v), rest)),
            None => None,
        },
        PropertyId::ContentType
        | PropertyId::ResponseTopic
        | PropertyId::AssignedClientIdentifier
        | PropertyId::AuthenticationMethod
        | PropertyId::ResponseInformation
        | PropertyId::ServerReference
        | PropertyId::ReasonString => match wire::parse_text(s) {
            Some((v, rest)) => Some((PropVal::Text(v), rest)),
            None => None,
        },
        PropertyId::CorrelationData
        | PropertyId::AuthenticationData => match wire::parse_data(s) {
            Some((v, rest)) => Some((PropVal::Data(v), rest)),
            None => None,
        },
        PropertyId::ServerKeepAlive
        | PropertyId::ReceiveMaximum
        | PropertyId::TopicAliasMaximum
        | PropertyId::TopicAlias => match wire::parse_u16(s) {
            Some((v, rest)) => Some((PropVal::Two(v), rest)),
            None => None,
        },
        PropertyId::SubscriptionIdentifier | PropertyId::UserProperty => None,
    }
}

/// What is said of bytes that begin with no value of a property.
pub open spec fn value_fault(id: PropertyId, s: Seq<u8>) -> Seq<char> {
    match id {
        PropertyId::PayloadFormatIndicator
        | PropertyId::RequestProblemInformation
        | PropertyId::RequestResponseInformation
        | PropertyId::MaximumQoS
        | PropertyId::RetainAvailable
        | PropertyId::WildcardSubscriptionAvailable
        | PropertyId::SubscriptionIdentifierAvailable
        | PropertyId::SharedSubscriptionAvailable => wire::truncated_text(1, s.len()),
        PropertyId::MessageExpiryInterval
        | PropertyId::SessionExpiryInterval
        | PropertyId::WillDelayInterval
        | PropertyId::MaximumPacketSize => wire::truncated_text(4, s.len()),
        PropertyId::ContentType
        | PropertyId::ResponseTopic
        | PropertyId::AssignedClientIdentifier
        | PropertyId::AuthenticationMethod
        | PropertyId::ResponseInformation
        | PropertyId::ServerReference
        | PropertyId::ReasonString => wire::text_fault(s),
        PropertyId::CorrelationData | PropertyId::AuthenticationData => wire::data_fault(s),
        PropertyId::ServerKeepAlive
        | PropertyId::ReceiveMaximum
        | PropertyId::TopicAliasMaximum
        | PropertyId::TopicAlias => wire::truncated_text(2, s.len()),
        PropertyId::SubscriptionIdentifier => wire::varint_fault(s),
        PropertyId::UserProperty => wire::pair_fault(s),
    }
}

/// What is said of a property whose value is zero and may not be.
pub open spec fn zero_text(id: PropertyId) -> Seq<char> {
    match id {
        PropertyId::ReceiveMaximum => "Receive Maximum of 0 is a Protocol Error"@,
        PropertyId::TopicAlias => "Topic Alias of 0 is a Protocol Error"@,
        PropertyId::MaximumPacketSize => "Maximum Packet Size of 0 is a Protocol Error"@,
        _ => "Subscription Identifier of 0 is a Protocol Error"@,
    }
}

/// What is said of a property that is there twice.
pub open spec fn twice_text(id: PropertyId) -> Seq<char> {
    "property "@ + id.label() + " included more than once"@
}

/// Whether a value may stand for a property: zero is no receive maximum, topic
/// alias or maximum packet size.
pub open spec fn allowed(id: PropertyId, x: PropVal) -> bool {
    match id {
        PropertyId::ReceiveMaximum | PropertyId::TopicAlias => x != PropVal::Two(0),
        PropertyId::MaximumPacketSize => x != PropVal::Four(0),
        _ => true,
    }
}

impl PropertiesView {
    /// The property set with nothing in it.
    pub open spec fn empty() -> PropertiesView {
        PropertiesView {
            single: Map::empty(),
            subscription_identifiers: Seq::empty(),
            user_properties: Seq::empty(),
        }
    }

    /// The set with one more property off the front of the bytes: a property
    /// that may not repeat must not be there yet.
    pub open spec fn parse_one(self, s: Seq<u8>) -> Option<(PropertiesView, Seq<u8>)> {
        match wire::parse_u8(s) {
            None => None,
            Some((code, s1)) => match PropertyId::of_code(code) {
                None => None,
                Some(PropertyId::SubscriptionIdentifier) => match wire::parse_varint(s1) {
                    Some((v, rest)) => if v == 0 {
                        None
                    } else {
                        Some(
                            (
                                PropertiesView {
                                    subscription_identifiers: self.subscription_identifiers.push(
                                        v as u32,
                                    ),
                                    ..self
                                },
                                rest,
                            ),
                        )
                    },
                    None => None,
                },
                Some(PropertyId::UserProperty) => match wire::parse_pair(s1) {
                    Some((p, rest)) => Some(
                        (
                            PropertiesView {
                                user_properties: self.user_properties.push(p),
                                ..self
                            },
                            rest,
                        ),
                    ),
                    None => None,
                },
                Some(id) => match parse_value(id, s1) {
                    Some((x, rest)) => if allowed(id, x) && !self.single.contains_key(id) {
                        Some((PropertiesView { single: self.single.insert(id, x), ..self }, rest))
                    } else {
                        None
                    },
                    None => None,
                },
            },
        }
    }

    /// The set with all the properties that the bytes hold.
    pub open spec fn parse_all(self, s: Seq<u8>) -> Option<PropertiesView>
        decreases s.len(),
    {
        if s.len() == 0 {
            Some(self)
        } else {
            match self.parse_one(s) {
                Some((next, rest)) => if rest.len() < s.len() {
                    next.parse_all(rest)
                } else {
                    None
                },
                None => None,
            }
        }
    }

    /// What is said of bytes that begin with no property that can be added.
    pub open spec fn one_fault(self, s: Seq<u8>) -> Seq<char> {
        match wire::parse_u8(s) {
            None => wire::truncated_text(1, s.len()),
            Some((code, s1)) => match PropertyId::of_code(code) {
                None => "unknown property identifier 0x"@ + crate::text::hex_byte_upper(code),
                Some(PropertyId::SubscriptionIdentifier) => if wire::parse_varint(s1) is None {
                    value_fault(PropertyId::SubscriptionIdentifier, s1)
                } else {
                    zero_text(PropertyId::SubscriptionIdentifier)
                },
                Some(PropertyId::UserProperty) => value_fault(PropertyId::UserProperty, s1),
                Some(id) => match parse_value(id, s1) {
                    None => value_fault(id, s1),
                    Some((x, _)) => if !allowed(id, x) {
                        zero_text(id)
                    } else {
                        twice_text(id)
                    },
                },
            },
        }
    }

    /// What is said of bytes that are no properties that can be added.
    pub open spec fn all_fault(self, s: Seq<u8>) -> Seq<char>
        decreases s.len(),
    {
        match self.parse_one(s) {
            Some((next, rest)) => if rest.len() < s.len() {
                next.all_fault(rest)
            } else {
                self.one_fault(s)
            },
            None => self.one_fault(s),
        }
    }

    /// What is said of bytes that begin with no property set.
    #[verifier::opaque]
    pub open spec fn fault(s: Seq<u8>) -> Seq<char> {
        match wire::parse_varint(s) {
            None => wire::varint_fault(s),
            Some((n, s1)) => match wire::parse_bytes(s1, n) {
                None => wire::truncated_text(n, s1.len()),
                Some((inner, _)) => PropertiesView::empty().all_fault(inner),
            },
        }
    }

    /// Reads a property set: its length, then the properties in it.
    #[verifier::opaque]
    pub open spec fn parse(s: Seq<u8>) -> Option<(PropertiesView, Seq<u8>)> {
        match wire::parse_varint(s) {
            None => None,
            Some((n, s1)) => match wire::parse_bytes(s1, n) {
                None => None,
                Some((inner, rest)) => match PropertiesView::empty().parse_all(inner) {
                    None => None,
                    Some(p) => Some((p, rest)),
                },
            },
        }
    }

    /// The bytes of one property, nothing where it is not set.
    pub open spec fn property_bytes(self, id: PropertyId) -> Seq<u8> {
        match id {
            PropertyId::SubscriptionIdentifier => subscription_bytes(self.subscription_identifiers),
            PropertyId::UserProperty => user_bytes(self.user_properties),
            _ => if self.single.contains_key(id) {
                seq![id.code()] + value_bytes(self.single[id])
            } else {
                Seq::empty()
            },
        }
    }

    /// The bytes of the first `k` properties in the order of their identifiers.
    pub open spec fn body_upto(self, k: nat) -> Seq<u8>
        decreases k,
    {
        if k == 0 {
            Seq::empty()
        } else {
            self.body_upto((k - 1) as nat) + self.property_bytes(nth_property((k - 1) as nat))
        }
    }

    /// The bytes of the properties, in the order of their identifiers.
    pub open spec fn body(self) -> Seq<u8> {
        self.body_upto(27)
    }

    /// The length of the body and the body.
    #[verifier::opaque]
    pub open spec fn bytes(self) -> Seq<u8> {
        wire::varint(self.body().len()) + self.body()
    }

    /// Whether every subscription identifier fits a variable byte integer and
    /// the body fits its length prefix.
    #[verifier::opaque]
    pub open spec fn encodable(self) -> bool {
        &&& self.identifiers_fit()
        &&& self.body().len() <= MAX_VARIABLE_BYTE_INTEGER
    }

    /// Whether every subscription identifier fits a variable byte integer.
    pub open spec fn identifiers_fit(self) -> bool {
        all_fit(self.subscription_identifiers)
    }

    /// Whether reading back what is written gives this set: every string and
    /// byte string fits its length prefix, no string holds U+0000, nothing that
    /// may not be zero is zero, and every value has the type of its property.
    #[verifier::opaque]
    pub open spec fn sendable(self) -> bool {
        &&& self.encodable()
        &&& forall|id: PropertyId|
            #![trigger self.single.contains_key(id)]
            self.single.contains_key(id) ==> value_sendable(id, self.single[id])
        &&& forall|i: int|
            0 <= i < self.subscription_identifiers.len()
                ==> #[trigger] self.subscription_identifiers[i] > 0
        &&& forall|i: int|
            0 <= i < self.user_properties.len() ==> wire::sendable_text(
                #[trigger] self.user_properties[i].0,
            ) && wire::sendable_text(self.user_properties[i].1)
    }
}

/// Whether a value fits its property and reads back.
pub open spec fn value_sendable(id: PropertyId, x: PropVal) -> bool {
    &&& allowed(id, x)
    &&& match id {
        PropertyId::PayloadFormatIndicator
        | PropertyId::RequestProblemInformation
        | PropertyId::RequestResponseInformation
        | PropertyId::MaximumQoS
        | PropertyId::RetainAvailable
        | PropertyId::WildcardSubscriptionAvailable
        | PropertyId::SubscriptionIdentifierAvailable
        | PropertyId::SharedSubscriptionAvailable => x is Byte,
        PropertyId::MessageExpiryInterval
        | PropertyId::SessionExpiryInterval
        | PropertyId::WillDelayInterval
        | PropertyId::MaximumPacketSize => x is Four,
        PropertyId::ContentType
        | PropertyId::ResponseTopic
        | PropertyId::AssignedClientIdentifier
        | PropertyId::AuthenticationMethod
        | PropertyId::ResponseInformation
        | PropertyId::ServerReference
        | PropertyId::ReasonString => x is Text && wire::sendable_text(x->Text_0),
        PropertyId::CorrelationData
        | PropertyId::AuthenticationData => x is Data && x->Data_0.len() <= 65535,
        PropertyId::ServerKeepAlive
        | PropertyId::ReceiveMaximum
        | PropertyId::TopicAliasMaximum
        | PropertyId::TopicAlias => x is Two,
        PropertyId::SubscriptionIdentifier | PropertyId::UserProperty => false,
    }
}

/// Whether every number fits a variable byte integer.
pub open spec fn all_fit(ids: Seq<u32>) -> bool {
    forall|i: int| 0 <= i < ids.len() ==> #[trigger] ids[i] <= MAX_VARIABLE_BYTE_INTEGER
}

/// The bytes of the subscription identifiers, each a property of its own.
pub open spec fn subscription_bytes(ids: Seq<u32>) -> Seq<u8>
    decreases ids.len(),
{
    if ids.len() == 0 {
        Seq::empty()
    } else {
        subscription_bytes(ids.drop_last()) + (seq![PropertyId::SubscriptionIdentifier.code()]
            + wire::varint(ids.last() as nat))
    }
}

/// The bytes of the user properties, each a property of its own.
pub open spec fn user_bytes(pairs: Seq<(Seq<char>, Seq<char>)>) -> Seq<u8>
    decreases pairs.len(),
{
    if pairs.len() == 0 {
        Seq::empty()
    } else {
        user_bytes(pairs.drop_last()) + (seq![PropertyId::UserProperty.code()] + (wire::text(
            pairs.last().0,
        ) + wire::text(pairs.last().1)))
    }
}

/// The property at a place in the order in which properties are written.
pub open spec fn nth_property(k: nat) -> PropertyId {
    if k == 0 {
        PropertyId::PayloadFormatIndicator
    } else if k == 1 {
        PropertyId::MessageExpiryInterval
    } else if k == 2 {
        PropertyId::ContentType
    } else if k == 3 {
        PropertyId::ResponseTopic
    } else if k == 4 {
        PropertyId::CorrelationData
    } else if k == 5 {
        PropertyId::SubscriptionIdentifier
    } else if k == 6 {
        PropertyId::SessionExpiryInterval
    } else if k == 7 {
        PropertyId::AssignedClientIdentifier
    } else if k == 8 {
        PropertyId::ServerKeepAlive
    } else if k == 9 {
        PropertyId::AuthenticationMethod
    } else if k == 10 {
        PropertyId::AuthenticationData
    } else if k == 11 {
        PropertyId::RequestProblemInformation
    } else if k == 12 {
        PropertyId::WillDelayInterval
    } else if k == 13 {
        PropertyId::RequestResponseInformation
    } else if k == 14 {
        PropertyId::ResponseInformation
    } else if k == 15 {
        PropertyId::ServerReference
    } else if k == 16 {
        PropertyId::ReasonString
    } else if k == 17 {
        PropertyId::ReceiveMaximum
    } else if k == 18 {
        PropertyId::TopicAliasMaximum
    } else if k == 19 {
        PropertyId::TopicAlias
    } else if k == 20 {
        PropertyId::MaximumQoS
    } else if k == 21 {
        PropertyId::RetainAvailable
    } else if k == 22 {
        PropertyId::UserProperty
    } else if k == 23 {
        PropertyId::MaximumPacketSize
    } else if k == 24 {
        PropertyId::WildcardSubscriptionAvailable
    } else if k == 25 {
        PropertyId::SubscriptionIdentifierAvailable
    } else {
        PropertyId::SharedSubscriptionAvailable
    }
}

/// The place of a property in the order in which properties are written.
pub open spec fn property_place(id: PropertyId) -> nat {
    match id {
        PropertyId::PayloadFormatIndicator => 0,
        PropertyId::MessageExpiryInterval => 1,
        PropertyId::ContentType => 2,
        PropertyId::ResponseTopic => 3,
        PropertyId::CorrelationData => 4,
        PropertyId::SubscriptionIdentifier => 5,
        PropertyId::SessionExpiryInterval => 6,
        PropertyId::AssignedClientIdentifier => 7,
        PropertyId::ServerKeepAlive => 8,
        PropertyId::AuthenticationMethod => 9,
        PropertyId::AuthenticationData => 10,
        PropertyId::RequestProblemInformation => 11,
        PropertyId::WillDelayInterval => 12,
        PropertyId::RequestResponseInformation => 13,
        PropertyId::ResponseInformation => 14,
        PropertyId::ServerReference => 15,
        PropertyId::ReasonString => 16,
        PropertyId::ReceiveMaximum => 17,
        PropertyId::TopicAliasMaximum => 18,
        PropertyId::TopicAlias => 19,
        PropertyId::MaximumQoS => 20,
        PropertyId::RetainAvailable => 21,
        PropertyId::UserProperty => 22,
        PropertyId::MaximumPacketSize => 23,
        PropertyId::WildcardSubscriptionAvailable => 24,
        PropertyId::SubscriptionIdentifierAvailable => 25,
        PropertyId::SharedSubscriptionAvailable => 26,
    }
}

impl View for Properties {
    type V = PropertiesView;

    open spec fn view(&self) -> PropertiesView {
        PropertiesView {
            single: Map::new(|id: PropertyId| self.field(id) is Some, |id: PropertyId| self.field(id)->0),
            subscription_identifiers: self.subscription_identifiers@,
            user_properties: crate::text::pair_views(self.user_properties@),
        }
    }
}

impl Clone for Properties {
    fn clone(&self) -> (r: Self)
        ensures
            r@ == self@,
    {
        let r: Properties = Properties {
            payload_format_indicator: self.payload_format_indicator,
            message_expiry_interval: self.message_expiry_interval,
            content_type: clone_opt_string(&self.content_type),
            response_topic: clone_opt_string(&self.response_topic),
            correlation_data: clone_opt_bytes(&self.correlation_data),
            subscription_identifiers: vstd::slice::slice_to_vec(self.subscription_identifiers.as_slice()),
            session_expiry_interval: self.session_expiry_interval,
            assigned_client_identifier: clone_opt_string(&self.assigned_client_identifier),
            server_keep_alive: self.server_keep_alive,
            authentication_method: clone_opt_string(&self.authentication_method),
            authentication_data: clone_opt_bytes(&self.authentication_data),
            request_problem_information: self.request_problem_information,
            will_delay_interval: self.will_delay_interval,
            request_response_information: self.request_response_information,
            response_information: clone_opt_string(&self.response_information),
            server_reference: clone_opt_string(&self.server_reference),
            reason_string: clone_opt_string(&self.reason_string),
            receive_maximum: self.receive_maximum,
            topic_alias_maximum: self.topic_alias_maximum,
            topic_alias: self.topic_alias,
            maximum_qos: self.maximum_qos,
            retain_available: self.retain_available,
            user_properties: clone_pairs(&self.user_properties),
            maximum_packet_size: self.maximum_packet_size,
            wildcard_subscription_available: self.wildcard_subscription_available,
            subscription_identifier_available: self.subscription_identifier_available,
            shared_subscription_available: self.shared_subscription_available,
        };
        proof {
            assert forall|id: PropertyId| r.field(id) == self.field(id) by {}
            assert(r@.single =~= self@.single);
        }
        r
    }
}

impl Default for Properties {
    fn default() -> (r: Self)
        ensures
            r@ == PropertiesView::empty(),
    {
        Properties::new()
    }
}

impl Properties {
    /// The value of a property that is present at most once.
    pub open spec fn field(&self, id: PropertyId) -> Option<PropVal> {
        match id {
            PropertyId::PayloadFormatIndicator => match self.payload_format_indicator {
                Some(v) => Some(PropVal::Byte(v)),
                None => None,
            },
            PropertyId::MessageExpiryInterval => match self.message_expiry_interval {
                Some(v) => Some(PropVal::Four(v)),
                None => None,
            },
            PropertyId::ContentType => match self.content_type {
                Some(v) => Some(PropVal::Text(v@)),
                None => None,
            },
            PropertyId::ResponseTopic => match self.response_topic {
                Some(v) => Some(PropVal::Text(v@)),
                None => None,
            },
            PropertyId::CorrelationData => match self.correlation_data {
                Some(v) => Some(PropVal::Data(v@)),
                None => None,
            },
            PropertyId::SessionExpiryInterval => match self.session_expiry_interval {
                Some(v) => Some(PropVal::Four(v)),
                None => None,
            },
            PropertyId::AssignedClientIdentifier => match self.assigned_client_identifier {
                Some(v) => Some(PropVal::Text(v@)),
                None => None,
            },
            PropertyId::ServerKeepAlive => match self.server_keep_alive {
                Some(v) => Some(PropVal::Two(v)),
                None => None,
            },
            PropertyId::AuthenticationMethod => match self.authentication_method {
                Some(v) => Some(PropVal::Text(v@)),
                None => None,
            },
            PropertyId::AuthenticationData => match self.authentication_data {
                Some(v) => Some(PropVal::Data(v@)),
                None => None,
            },
            PropertyId::RequestProblemInformation => match self.request_problem_information {
                Some(v) => Some(PropVal::Byte(v)),
                None => None,
            },
            PropertyId::WillDelayInterval => match self.will_delay_interval {
                Some(v) => Some(PropVal::Four(v)),
                None => None,
            },
            PropertyId::RequestResponseInformation => match self.request_response_information {
                Some(v) => Some(PropVal::Byte(v)),
                None => None,
            },
            PropertyId::ResponseInformation => match self.response_information {
                Some(v) => Some(PropVal::Text(v@)),
                None => None,
            },
            PropertyId::ServerReference => match self.server_reference {
                Some(v) => Some(PropVal::Text(v@)),
                None => None,
            },
            PropertyId::ReasonString => match self.reason_string {
                Some(v) => Some(PropVal::Text(v@)),
                None => None,
            },
            PropertyId::ReceiveMaximum => match self.receive_maximum {
                Some(v) => Some(PropVal::Two(v)),
                None => None,
            },
            PropertyId::TopicAliasMaximum => match self.topic_alias_maximum {
                Some(v) => Some(PropVal::Two(v)),
                None => None,
            },
            PropertyId::TopicAlias => match self.topic_alias {
                Some(v) => Some(PropVal::Two(v)),
                None => None,
            },
            PropertyId::MaximumQoS => match self.maximum_qos {
                Some(v) => Some(PropVal::Byte(v)),
                None => None,
            },
            PropertyId::RetainAvailable => match self.retain_available {
                Some(v) => Some(PropVal::Byte(v)),
                None => None,
            },
            PropertyId::MaximumPacketSize => match self.maximum_packet_size {
                Some(v) => Some(PropVal::Four(v)),
                None => None,
            },
            PropertyId::WildcardSubscriptionAvailable => match self.wildcard_subscription_available {
                Some(v) => Some(PropVal::Byte(v)),
                None => None,
            },
            PropertyId::SubscriptionIdentifierAvailable => match self.subscription_identifier_available {
                Some(v) => Some(PropVal::Byte(v)),
                None => None,
            },
            PropertyId::SharedSubscriptionAvailable => match self.shared_subscription_available {
                Some(v) => Some(PropVal::Byte(v)),
                None => None,
            },
            PropertyId::SubscriptionIdentifier | PropertyId::UserProperty => None,
        }
    }

    /// The bytes of a property.
    spec fn field_bytes(&self, id: PropertyId) -> Seq<u8> {
        match id {
            PropertyId::SubscriptionIdentifier => subscription_bytes(
                self.subscription_identifiers@,
            ),
            PropertyId::UserProperty => user_bytes(crate::text::pair_views(self.user_properties@)),
            _ => match self.field(id) {
                Some(x) => seq![id.code()] + value_bytes(x),
                None => Seq::empty(),
            },
        }
    }

    /// A property set with nothing in it.
    pub fn new() -> (r: Self)
        ensures
            r@ == PropertiesView::empty(),
    {
        let p: Properties = Properties {
            payload_format_indicator: None,
            message_expiry_interval: None,
            content_type: None,
            response_topic: None,
            correlation_data: None,
            subscription_identifiers: Vec::new(),
            session_expiry_interval: None,
            assigned_client_identifier: None,
            server_keep_alive: None,
            authentication_method: None,
            authentication_data: None,
            request_problem_information: None,
            will_delay_interval: None,
            request_response_information: None,
            response_information: None,
            server_reference: None,
            reason_string: None,
            receive_maximum: None,
            topic_alias_maximum: None,
            topic_alias: None,
            maximum_qos: None,
            retain_available: None,
            user_properties: Vec::new(),
            maximum_packet_size: None,
            wildcard_subscription_available: None,
            subscription_identifier_available: None,
            shared_subscription_available: None,
        };
        assert(p@.single =~= Map::empty());
        assert(p@.user_properties =~= Seq::empty());
        p
    }

    /// Whether no property is set.
    pub fn is_empty(&self) -> (r: bool)
        ensures
            r == (self@ == PropertiesView::empty()),
    {
        proof {
            if self@.single == Map::<PropertyId, PropVal>::empty() {
                assert forall|id: PropertyId| (#[trigger] self.field(id)) is None by {
                    assert(!self@.single.contains_key(id));
                }
                assert(self.field(PropertyId::PayloadFormatIndicator) is None);
                assert(self.field(PropertyId::MessageExpiryInterval) is None);
                assert(self.field(PropertyId::ContentType) is None);
                assert(self.field(PropertyId::ResponseTopic) is None);
                assert(self.field(PropertyId::CorrelationData) is None);
                assert(self.field(PropertyId::SessionExpiryInterval) is None);
                assert(self.field(PropertyId::AssignedClientIdentifier) is None);
                assert(self.field(PropertyId::ServerKeepAlive) is None);
                assert(self.field(PropertyId::AuthenticationMethod) is None);
                assert(self.field(PropertyId::AuthenticationData) is None);
                assert(self.field(PropertyId::RequestProblemInformation) is None);
                assert(self.field(PropertyId::WillDelayInterval) is None);
                assert(self.field(PropertyId::RequestResponseInformation) is None);
                assert(self.field(PropertyId::ResponseInformation) is None);
                assert(self.field(PropertyId::ServerReference) is None);
                assert(self.field(PropertyId::ReasonString) is None);
                assert(self.field(PropertyId::ReceiveMaximum) is None);
                assert(self.field(PropertyId::TopicAliasMaximum) is None);
                assert(self.field(PropertyId::TopicAlias) is None);
                assert(self.field(PropertyId::MaximumQoS) is None);
                assert(self.field(PropertyId::RetainAvailable) is None);
                assert(self.field(PropertyId::MaximumPacketSize) is None);
                assert(self.field(PropertyId::WildcardSubscriptionAvailable) is None);
                assert(self.field(PropertyId::SubscriptionIdentifierAvailable) is None);
                assert(self.field(PropertyId::SharedSubscriptionAvailable) is None);
            }
        }
        let single: bool = self.payload_format_indicator.is_none()
            && self.message_expiry_interval.is_none()
            && self.content_type.is_none()
            && self.response_topic.is_none()
            && self.correlation_data.is_none()
            && self.session_expiry_interval.is_none()
            && self.assigned_client_identifier.is_none()
            && self.server_keep_alive.is_none()
            && self.authentication_method.is_none()
            && self.authentication_data.is_none()
            && self.request_problem_information.is_none()
            && self.will_delay_interval.is_none()
            && self.request_response_information.is_none()
            && self.response_information.is_none()
            && self.server_reference.is_none()
            && self.reason_string.is_none()
            && self.receive_maximum.is_none()
            && self.topic_alias_maximum.is_none()
            && self.topic_alias.is_none()
            && self.maximum_qos.is_none()
            && self.retain_available.is_none()
            && self.maximum_packet_size.is_none()
            && self.wildcard_subscription_available.is_none()
            && self.subscription_identifier_available.is_none()
            && self.shared_subscription_available.is_none();
        proof {
            if single {
                assert(self@.single =~= Map::empty());
            }
            assert(self@.subscription_identifiers.len() == 0 ==> self@.subscription_identifiers
                =~= Seq::empty());
            assert(self@.user_properties.len() == 0 ==> self@.user_properties =~= Seq::empty());
        }
        single && self.subscription_identifiers.len() == 0 && self.user_properties.len() == 0
    }

    /// Reads one property into the set.
    #[verifier::spinoff_prover]
    #[verifier::rlimit(60)]
    fn decode_one(&mut self, r: &mut Reader) -> (res: Result<()>)
        ensures
            match res {
                Ok(_) => old(self)@.parse_one(old(r)@) == Some((final(self)@, final(r)@)),
                Err(e) => old(self)@.parse_one(old(r)@) is None && e.says_malformed(
                    old(self)@.one_fault(old(r)@),
                ),
            },
            wire::is_tail(final(r)@, old(r)@),
    {
        let ghost before = *self;
        let id: PropertyId = PropertyId::from_u8(r.u8()?)?;
        match id {
            PropertyId::PayloadFormatIndicator => {
                let v: u8 = r.u8()?;
                set_once(&mut self.payload_format_indicator, v, id)?;
            },
            PropertyId::MessageExpiryInterval => {
                let v: u32 = r.u32()?;
                set_once(&mut self.message_expiry_interval, v, id)?;
            },
            PropertyId::ContentType => {
                let v: String = r.utf8()?;
                set_once(&mut self.content_type, v, id)?;
            },
            PropertyId::ResponseTopic => {
                let v: String = r.utf8()?;
                set_once(&mut self.response_topic, v, id)?;
            },
            PropertyId::CorrelationData => {
                let v: Vec<u8> = r.binary()?;
                set_once(&mut self.correlation_data, v, id)?;
            },
            PropertyId::SubscriptionIdentifier => {
                let v: u32 = r.varint()?;
                if v == 0 {
                    return Err(malformed("Subscription Identifier of 0 is a Protocol Error"));
                }
                self.subscription_identifiers.push(v);
                assert(self@.single =~= before@.single);
                return Ok(());
            },
            PropertyId::SessionExpiryInterval => {
                let v: u32 = r.u32()?;
                set_once(&mut self.session_expiry_interval, v, id)?;
            },
            PropertyId::AssignedClientIdentifier => {
                let v: String = r.utf8()?;
                set_once(&mut self.assigned_client_identifier, v, id)?;
            },
            PropertyId::ServerKeepAlive => {
                let v: u16 = r.u16()?;
                set_once(&mut self.server_keep_alive, v, id)?;
            },
            PropertyId::AuthenticationMethod => {
                let v: String = r.utf8()?;
                set_once(&mut self.authentication_method, v, id)?;
            },
            PropertyId::AuthenticationData => {
                let v: Vec<u8> = r.binary()?;
                set_once(&mut self.authentication_data, v, id)?;
            },
            PropertyId::RequestProblemInformation => {
                let v: u8 = r.u8()?;
                set_once(&mut self.request_problem_information, v, id)?;
            },
            PropertyId::WillDelayInterval => {
                let v: u32 = r.u32()?;
                set_once(&mut self.will_delay_interval, v, id)?;
            },
            PropertyId::RequestResponseInformation => {
                let v: u8 = r.u8()?;
                set_once(&mut self.request_response_information, v, id)?;
            },
            PropertyId::ResponseInformation => {
                let v: String = r.utf8()?;
                set_once(&mut self.response_information, v, id)?;
            },
            PropertyId::ServerReference => {
                let v: String = r.utf8()?;
                set_once(&mut self.server_reference, v, id)?;
            },
            PropertyId::ReasonString => {
                let v: String = r.utf8()?;
                set_once(&mut self.reason_string, v, id)?;
            },
            PropertyId::ReceiveMaximum => {
                let v: u16 = r.u16()?;
                if v == 0 {
                    return Err(malformed("Receive Maximum of 0 is a Protocol Error"));
                }
                set_once(&mut self.receive_maximum, v, id)?;
            },
            PropertyId::TopicAliasMaximum => {
                let v: u16 = r.u16()?;
                set_once(&mut self.topic_alias_maximum, v, id)?;
            },
            PropertyId::TopicAlias => {
                let v: u16 = r.u16()?;
                if v == 0 {
                    return Err(malformed("Topic Alias of 0 is a Protocol Error"));
                }
                set_once(&mut self.topic_alias, v, id)?;
            },
            PropertyId::MaximumQoS => {
                let v: u8 = r.u8()?;
                set_once(&mut self.maximum_qos, v, id)?;
            },
            PropertyId::RetainAvailable => {
                let v: u8 = r.u8()?;
                set_once(&mut self.retain_available, v, id)?;
            },
            PropertyId::UserProperty => {
                let p: (String, String) = r.utf8_pair()?;
                self.user_properties.push(p);
                assert(self@.single =~= before@.single);
                assert(self@.user_properties =~= before@.user_properties.push((p.0@, p.1@)));
                return Ok(());
            },
            PropertyId::MaximumPacketSize => {
                let v: u32 = r.u32()?;
                if v == 0 {
                    return Err(malformed("Maximum Packet Size of 0 is a Protocol Error"));
                }
                set_once(&mut self.maximum_packet_size, v, id)?;
            },
            PropertyId::WildcardSubscriptionAvailable => {
                let v: u8 = r.u8()?;
                set_once(&mut self.wildcard_subscription_available, v, id)?;
            },
            PropertyId::SubscriptionIdentifierAvailable => {
                let v: u8 = r.u8()?;
                set_once(&mut self.subscription_identifier_available, v, id)?;
            },
            PropertyId::SharedSubscriptionAvailable => {
                let v: u8 = r.u8()?;
                set_once(&mut self.shared_subscription_available, v, id)?;
            },
        }
        assert(self@.single =~= before@.single.insert(id, self.field(id)->0));
        Ok(())
    }

    /// Reads a property set: the property length, then the properties in it.
    pub fn decode(r: &mut Reader) -> (res: Result<Properties>)
        ensures
            match res {
                Ok(p) => PropertiesView::parse(old(r)@) == Some((p@, final(r)@)),
                Err(e) => PropertiesView::parse(old(r)@) is None && e.says_malformed(
                    PropertiesView::fault(old(r)@),
                ),
            },
            wire::is_tail(final(r)@, old(r)@),
    {
        proof {
            reveal(PropertiesView::parse);
            reveal(PropertiesView::fault);
        }
        let len: u32 = r.varint()?;
        let mut sub: Reader = r.sub(len as usize)?;
        let ghost inner = sub@;
        let mut p: Properties = Properties::new();
        while sub.has_remaining()
            invariant
                wire::is_tail(r@, old(r)@),
                PropertiesView::parse(old(r)@) == (match PropertiesView::empty().parse_all(inner) {
                    None => None,
                    Some(p) => Some((p, r@)),
                }),
                wire::parse_varint(old(r)@) matches Some((n, s1)) && wire::parse_bytes(s1, n)
                    == Some((inner, r@)),
                p@.parse_all(sub@) == PropertiesView::empty().parse_all(inner),
                p@.all_fault(sub@) == PropertiesView::empty().all_fault(inner),
                PropertiesView::fault(old(r)@) == PropertiesView::empty().all_fault(inner),
            decreases sub@.len(),
        {
            proof {
                lemma_parse_one_shrinks(p@, sub@);
            }
            p.decode_one(&mut sub)?;
        }
        Ok(p)
    }

    /// Writes the first nine properties.
    fn encode_first(&self, w: &mut Writer, Ghost(start): Ghost<Seq<u8>>) -> (res: Result<()>)
        requires
            old(w)@ == start + self@.body_upto(0),
        ensures
            match res {
                Ok(_) => self@.identifiers_fit() && final(w)@ == start + self@.body_upto(9),
                Err(e) => !self@.identifiers_fit() && e.is_overflow() && start.is_prefix_of(
                    final(w)@,
                ),
            },
    {
        put_byte(PropertyId::PayloadFormatIndicator, &self.payload_format_indicator, w);
        proof {
            lemma_body_step(*self, 0, start, w@);
        }
        put_four(PropertyId::MessageExpiryInterval, &self.message_expiry_interval, w);
        proof {
            lemma_body_step(*self, 1, start, w@);
        }
        put_text(PropertyId::ContentType, &self.content_type, w);
        proof {
            lemma_body_step(*self, 2, start, w@);
        }
        put_text(PropertyId::ResponseTopic, &self.response_topic, w);
        proof {
            lemma_body_step(*self, 3, start, w@);
        }
        put_data(PropertyId::CorrelationData, &self.correlation_data, w);
        proof {
            lemma_body_step(*self, 4, start, w@);
        }
        let ghost before = w@;
        match put_identifiers(&self.subscription_identifiers, w) {
            Ok(_) => {},
            Err(e) => {
                assert(start =~= w@.subrange(0, start.len() as int)) by {
                    assert(before =~= w@.subrange(0, before.len() as int));
                    assert forall|i: int| 0 <= i < start.len() implies start[i] == w@[i] by {
                        assert(before[i] == w@.subrange(0, before.len() as int)[i]);
                    }
                }
                return Err(e);
            },
        }
        proof {
            lemma_body_step(*self, 5, start, w@);
        }
        put_four(PropertyId::SessionExpiryInterval, &self.session_expiry_interval, w);
        proof {
            lemma_body_step(*self, 6, start, w@);
        }
        put_text(PropertyId::AssignedClientIdentifier, &self.assigned_client_identifier, w);
        proof {
            lemma_body_step(*self, 7, start, w@);
        }
        put_two(PropertyId::ServerKeepAlive, &self.server_keep_alive, w);
        proof {
            lemma_body_step(*self, 8, start, w@);
        }
        Ok(())
    }

    /// Writes the second nine properties.
    fn encode_second(&self, w: &mut Writer, Ghost(start): Ghost<Seq<u8>>)
        requires
            old(w)@ == start + self@.body_upto(9),
        ensures
            final(w)@ == start + self@.body_upto(18),
    {
        put_text(PropertyId::AuthenticationMethod, &self.authentication_method, w);
        proof {
            lemma_body_step(*self, 9, start, w@);
        }
        put_data(PropertyId::AuthenticationData, &self.authentication_data, w);
        proof {
            lemma_body_step(*self, 10, start, w@);
        }
        put_byte(PropertyId::RequestProblemInformation, &self.request_problem_information, w);
        proof {
            lemma_body_step(*self, 11, start, w@);
        }
        put_four(PropertyId::WillDelayInterval, &self.will_delay_interval, w);
        proof {
            lemma_body_step(*self, 12, start, w@);
        }
        put_byte(PropertyId::RequestResponseInformation, &self.request_response_information, w);
        proof {
            lemma_body_step(*self, 13, start, w@);
        }
        put_text(PropertyId::ResponseInformation, &self.response_information, w);
        proof {
            lemma_body_step(*self, 14, start, w@);
        }
        put_text(PropertyId::ServerReference, &self.server_reference, w);
        proof {
            lemma_body_step(*self, 15, start, w@);
        }
        put_text(PropertyId::ReasonString, &self.reason_string, w);
        proof {
            lemma_body_step(*self, 16, start, w@);
        }
        put_two(PropertyId::ReceiveMaximum, &self.receive_maximum, w);
        proof {
            lemma_body_step(*self, 17, start, w@);
        }
    }

    /// Writes the last nine properties.
    fn encode_third(&self, w: &mut Writer, Ghost(start): Ghost<Seq<u8>>)
        requires
            old(w)@ == start + self@.body_upto(18),
        ensures
            final(w)@ == start + self@.body_upto(27),
    {
        put_two(PropertyId::TopicAliasMaximum, &self.topic_alias_maximum, w);
        proof {
            lemma_body_step(*self, 18, start, w@);
        }
        put_two(PropertyId::TopicAlias, &self.topic_alias, w);
        proof {
            lemma_body_step(*self, 19, start, w@);
        }
        put_byte(PropertyId::MaximumQoS, &self.maximum_qos, w);
        proof {
            lemma_body_step(*self, 20, start, w@);
        }
        put_byte(PropertyId::RetainAvailable, &self.retain_available, w);
        proof {
            lemma_body_step(*self, 21, start, w@);
        }
        put_user(&self.user_properties, w);
        proof {
            lemma_body_step(*self, 22, start, w@);
        }
        put_four(PropertyId::MaximumPacketSize, &self.maximum_packet_size, w);
        proof {
            lemma_body_step(*self, 23, start, w@);
        }
        put_byte(PropertyId::WildcardSubscriptionAvailable, &self.wildcard_subscription_available, w);
        proof {
            lemma_body_step(*self, 24, start, w@);
        }
        put_byte(PropertyId::SubscriptionIdentifierAvailable, &self.subscription_identifier_available, w);
        proof {
            lemma_body_step(*self, 25, start, w@);
        }
        put_byte(PropertyId::SharedSubscriptionAvailable, &self.shared_subscription_available, w);
        proof {
            lemma_body_step(*self, 26, start, w@);
        }
    }

    /// Writes the properties, without the length prefix. On an error what was
    /// there before is still there, with some of the properties behind it.
    fn encode_body(&self, w: &mut Writer) -> (res: Result<()>)
        ensures
            match res {
                Ok(_) => self@.identifiers_fit() && final(w)@ == old(w)@ + self@.body(),
                Err(e) => !self@.identifiers_fit() && e.is_overflow() && old(w)@.is_prefix_of(
                    final(w)@,
                ),
            },
    {
        let ghost start = w@;
        assert(w@ =~= start + self@.body_upto(0));
        self.encode_first(w, Ghost(start))?;
        self.encode_second(w, Ghost(start));
        self.encode_third(w, Ghost(start));
        Ok(())
    }

    /// Writes the property set: the property length and the properties. On an
    /// error nothing is written.
    pub fn encode(&self, w: &mut Writer) -> (res: Result<()>)
        ensures
            match res {
                Ok(_) => self@.encodable() && final(w)@ == old(w)@ + self@.bytes(),
                Err(e) => !self@.encodable() && e.is_overflow() && final(w)@ == old(w)@,
            },
    {
        proof {
            reveal(PropertiesView::encodable);
            reveal(PropertiesView::bytes);
        }
        let mut body: Writer = Writer::new();
        self.encode_body(&mut body)?;
        assert(body@ =~= self@.body());
        if body.len() > MAX_VARIABLE_BYTE_INTEGER as usize {
            return Err(protocol("variable byte integer overflow"));
        }
        w.put_varint(body.len() as u32)?;
        w.put_bytes(body.as_slice());
        assert(w@ =~= old(w)@ + self@.bytes());
        Ok(())
    }

    /// The encoded length, with the property length prefix.
    pub fn encoded_len(&self) -> (r: usize)
        requires
            self@.identifiers_fit(),
            self@.body().len() + 4 <= usize::MAX,
        ensures
            r == varint_size(self@.body().len() as u32) + self@.body().len(),
            self@.encodable() ==> r == self@.bytes().len(),
    {
        proof {
            reveal(PropertiesView::encodable);
            reveal(PropertiesView::bytes);
        }
        let mut body: Writer = Writer::new();
        let done: Result<()> = self.encode_body(&mut body);
        assert(body@ =~= self@.body());
        varint_len(body.len() as u32) + body.len()
    }

    /// The maximum QoS that a CONNACK announces, where it is a QoS level.
    pub fn max_qos_level(&self) -> (r: Option<QoS>)
        ensures
            r == (match self.maximum_qos {
                Some(b) => QoS::of_code(b),
                None => None,
            }),
    {
        match self.maximum_qos {
            Some(b) => match QoS::from_u8(b) {
                Ok(q) => Some(q),
                Err(_) => None,
            },
            None => None,
        }
    }
}

/// Sets a property that may be there only once; a second one is malformed and
/// leaves the first in place.
fn set_once<T>(slot: &mut Option<T>, value: T, id: PropertyId) -> (r: Result<()>)
    ensures
        match r {
            Ok(_) => *old(slot) is None && *final(slot) == Some(value),
            Err(e) => *old(slot) is Some && *final(slot) == *old(slot) && e.says_malformed(
                twice_text(id),
            ),
        },
{
    if slot.is_some() {
        let m: String = concat3("property ", id.name(), " included more than once");
        return Err(MqttError::Malformed(m));
    }
    *slot = Some(value);
    Ok(())
}

fn put_byte(id: PropertyId, value: &Option<u8>, w: &mut Writer)
    ensures
        final(w)@ == old(w)@ + (match *value {
            Some(v) => seq![id.code()] + value_bytes(PropVal::Byte(v)),
            None => Seq::empty(),
        }),
{
    if let Some(v) = value {
        w.put_u8(id.as_u8());
        w.put_u8(*v);
        assert(w@ =~= old(w)@ + (seq![id.code()] + value_bytes(PropVal::Byte(*v))));
    } else {
        assert(w@ =~= old(w)@ + Seq::empty());
    }
}

fn put_two(id: PropertyId, value: &Option<u16>, w: &mut Writer)
    ensures
        final(w)@ == old(w)@ + (match *value {
            Some(v) => seq![id.code()] + value_bytes(PropVal::Two(v)),
            None => Seq::empty(),
        }),
{
    if let Some(v) = value {
        w.put_u8(id.as_u8());
        w.put_u16(*v);
        assert(w@ =~= old(w)@ + (seq![id.code()] + value_bytes(PropVal::Two(*v))));
    } else {
        assert(w@ =~= old(w)@ + Seq::empty());
    }
}

fn put_four(id: PropertyId, value: &Option<u32>, w: &mut Writer)
    ensures
        final(w)@ == old(w)@ + (match *value {
            Some(v) => seq![id.code()] + value_bytes(PropVal::Four(v)),
            None => Seq::empty(),
        }),
{
    if let Some(v) = value {
        w.put_u8(id.as_u8());
        w.put_u32(*v);
        assert(w@ =~= old(w)@ + (seq![id.code()] + value_bytes(PropVal::Four(*v))));
    } else {
        assert(w@ =~= old(w)@ + Seq::empty());
    }
}

fn put_text(id: PropertyId, value: &Option<String>, w: &mut Writer)
    ensures
        final(w)@ == old(w)@ + (match *value {
            Some(v) => seq![id.code()] + value_bytes(PropVal::Text(v@)),
            None => Seq::empty(),
        }),
{
    if let Some(v) = value {
        w.put_u8(id.as_u8());
        w.put_utf8(v.as_str());
        assert(w@ =~= old(w)@ + (seq![id.code()] + value_bytes(PropVal::Text(v@))));
    } else {
        assert(w@ =~= old(w)@ + Seq::empty());
    }
}

fn put_data(id: PropertyId, value: &Option<Vec<u8>>, w: &mut Writer)
    ensures
        final(w)@ == old(w)@ + (match *value {
            Some(v) => seq![id.code()] + value_bytes(PropVal::Data(v@)),
            None => Seq::empty(),
        }),
{
    if let Some(v) = value {
        w.put_u8(id.as_u8());
        w.put_binary(v.as_slice());
        assert(w@ =~= old(w)@ + (seq![id.code()] + value_bytes(PropVal::Data(v@))));
    } else {
        assert(w@ =~= old(w)@ + Seq::empty());
    }
}

/// Writing one more property on the first `k` gives the first `k + 1`.
proof fn lemma_body_step(p: Properties, k: nat, start: Seq<u8>, after: Seq<u8>)
    requires
        k < 27,
        after == (start + p@.body_upto(k)) + p.field_bytes(nth_property(k)),
    ensures
        after == start + p@.body_upto(k + 1),
{
    let id = nth_property(k);
    assert(p@.property_bytes(id) == p.field_bytes(id));
    assert(after =~= start + (p@.body_upto(k) + p@.property_bytes(id)));
}

fn put_identifiers(ids: &Vec<u32>, w: &mut Writer) -> (res: Result<()>)
    ensures
        match res {
            Ok(_) => all_fit(ids@) && final(w)@ == old(w)@ + subscription_bytes(ids@),
            Err(e) => !all_fit(ids@) && e.is_overflow() && old(w)@.is_prefix_of(final(w)@),
        },
{
    let mut i: usize = 0;
    assert(w@ =~= old(w)@ + subscription_bytes(ids@.take(0)));
    while i < ids.len()
        invariant
            i <= ids.len(),
            w@ == old(w)@ + subscription_bytes(ids@.take(i as int)),
            forall|j: int| 0 <= j < i ==> #[trigger] ids@[j] <= MAX_VARIABLE_BYTE_INTEGER,
        decreases ids.len() - i,
    {
        w.put_u8(0x0B);
        match w.put_varint(ids[i]) {
            Ok(_) => {},
            Err(e) => {
                assert(old(w)@ =~= w@.subrange(0, old(w)@.len() as int));
                return Err(e);
            },
        }
        proof {
            let t = ids@.take(i + 1);
            assert(t.drop_last() =~= ids@.take(i as int));
            assert(w@ =~= old(w)@ + subscription_bytes(t));
        }
        i = i + 1;
    }
    assert(ids@.take(ids@.len() as int) =~= ids@);
    Ok(())
}

fn put_user(pairs: &Vec<(String, String)>, w: &mut Writer)
    ensures
        final(w)@ == old(w)@ + user_bytes(crate::text::pair_views(pairs@)),
{
    let mut i: usize = 0;
    let ghost all = crate::text::pair_views(pairs@);
    assert(w@ =~= old(w)@ + user_bytes(all.take(0)));
    while i < pairs.len()
        invariant
            i <= pairs.len(),
            all == crate::text::pair_views(pairs@),
            w@ == old(w)@ + user_bytes(all.take(i as int)),
        decreases pairs.len() - i,
    {
        w.put_u8(0x26);
        w.put_utf8_pair(pairs[i].0.as_str(), pairs[i].1.as_str());
        proof {
            let t = all.take(i + 1);
            assert(t.drop_last() =~= all.take(i as int));
            assert(w@ =~= old(w)@ + user_bytes(t));
        }
        i = i + 1;
    }
    assert(all.take(all.len() as int) =~= all);
}

/// Reading one property leaves less than there was.
proof fn lemma_parse_one_shrinks(v: PropertiesView, s: Seq<u8>)
    ensures
        v.parse_one(s) matches Some((next, rest)) ==> rest.len() < s.len(),
{
    wire::lemma_varint_tail(s.skip(1), 4);
    wire::lemma_prefixed_shrinks(s.skip(1));
    if let Some((k, rest)) = wire::parse_text(s.skip(1)) {
        wire::lemma_prefixed_shrinks(rest);
    }
}

/// The bytes of the properties from place `k` on.
spec fn body_from(v: PropertiesView, k: nat) -> Seq<u8>
    decreases 27 - k,
{
    if k >= 27 {
        Seq::empty()
    } else {
        v.property_bytes(nth_property(k)) + body_from(v, k + 1)
    }
}

/// The properties before place `k`.
spec fn first_properties(v: PropertiesView, k: nat) -> PropertiesView {
    PropertiesView {
        single: v.single.restrict(Set::new(|id: PropertyId| property_place(id) < k)),
        subscription_identifiers: if k > property_place(PropertyId::SubscriptionIdentifier) {
            v.subscription_identifiers
        } else {
            Seq::empty()
        },
        user_properties: if k > property_place(PropertyId::UserProperty) {
            v.user_properties
        } else {
            Seq::empty()
        },
    }
}

proof fn lemma_body_split(v: PropertiesView, k: nat)
    requires
        k <= 27,
    ensures
        v.body() == v.body_upto(k) + body_from(v, k),
    decreases 27 - k,
{
    if k == 27 {
        assert(v.body() =~= v.body_upto(27) + Seq::empty());
    } else {
        lemma_body_split(v, k + 1);
        assert(v.body_upto(k + 1) + body_from(v, k + 1) =~= v.body_upto(k) + body_from(v, k));
    }
}

proof fn lemma_value_roundtrip(id: PropertyId, x: PropVal, rest: Seq<u8>)
    requires
        value_sendable(id, x),
    ensures
        parse_value(id, value_bytes(x) + rest) == Some((x, rest)),
{
    match x {
        PropVal::Byte(v) => {
            assert((seq![v] + rest).skip(1) =~= rest);
        },
        PropVal::Two(v) => wire::lemma_be16_roundtrip(v, rest),
        PropVal::Four(v) => wire::lemma_be32_roundtrip(v, rest),
        PropVal::Text(v) => wire::text_roundtrip(v, rest),
        PropVal::Data(v) => wire::data_roundtrip(v, rest),
    }
}

proof fn lemma_one_subscription(v: PropertiesView, n: u32, rest: Seq<u8>)
    requires
        0 < n <= MAX_VARIABLE_BYTE_INTEGER,
    ensures
        v.parse_one(
            seq![PropertyId::SubscriptionIdentifier.code()] + wire::varint(n as nat) + rest,
        ) == Some(
            (
                PropertiesView {
                    subscription_identifiers: v.subscription_identifiers.push(n),
                    ..v
                },
                rest,
            ),
        ),
{
    let s = seq![PropertyId::SubscriptionIdentifier.code()] + wire::varint(n as nat) + rest;
    assert(s.skip(1) =~= wire::varint(n as nat) + rest);
    wire::varint_roundtrip(n as nat, rest);
}

proof fn lemma_one_user(v: PropertiesView, k: Seq<char>, x: Seq<char>, rest: Seq<u8>)
    requires
        wire::sendable_text(k),
        wire::sendable_text(x),
    ensures
        v.parse_one(
            seq![PropertyId::UserProperty.code()] + (wire::text(k) + wire::text(x)) + rest,
        ) == Some(
            (PropertiesView { user_properties: v.user_properties.push((k, x)), ..v }, rest),
        ),
{
    let s = seq![PropertyId::UserProperty.code()] + (wire::text(k) + wire::text(x)) + rest;
    assert(s.skip(1) =~= wire::text(k) + wire::text(x) + rest);
    wire::pair_roundtrip(k, x, rest);
}

proof fn lemma_one_single(v: PropertiesView, id: PropertyId, x: PropVal, rest: Seq<u8>)
    requires
        value_sendable(id, x),
        !v.single.contains_key(id),
    ensures
        v.parse_one(seq![id.code()] + value_bytes(x) + rest) == Some(
            (PropertiesView { single: v.single.insert(id, x), ..v }, rest),
        ),
{
    let s = seq![id.code()] + value_bytes(x) + rest;
    assert(s.skip(1) =~= value_bytes(x) + rest);
    lemma_value_roundtrip(id, x, rest);
    crate::types::property_codes(id, id.code());
}

proof fn lemma_subscriptions_roundtrip(v: PropertiesView, ids: Seq<u32>, rest: Seq<u8>)
    requires
        all_fit(ids),
        forall|i: int| 0 <= i < ids.len() ==> #[trigger] ids[i] > 0,
    ensures
        v.parse_all(subscription_bytes(ids) + rest) == (PropertiesView {
            subscription_identifiers: v.subscription_identifiers + ids,
            ..v
        }).parse_all(rest),
    decreases ids.len(),
{
    if ids.len() == 0 {
        assert(subscription_bytes(ids) + rest =~= rest);
        assert(v.subscription_identifiers + ids =~= v.subscription_identifiers);
    } else {
        let code = PropertyId::SubscriptionIdentifier.code();
        let one = seq![code] + wire::varint(ids.last() as nat) + rest;
        assert(subscription_bytes(ids) + rest =~= subscription_bytes(ids.drop_last()) + one);
        assert forall|i: int| 0 <= i < ids.drop_last().len() implies #[trigger] ids.drop_last()[i]
            > 0 by {
            assert(ids[i] > 0);
        }
        lemma_subscriptions_roundtrip(v, ids.drop_last(), one);
        let mid = PropertiesView {
            subscription_identifiers: v.subscription_identifiers + ids.drop_last(),
            ..v
        };
        lemma_one_subscription(mid, ids.last(), rest);
        assert(mid.subscription_identifiers.push(ids.last()) =~= v.subscription_identifiers + ids);
        lemma_parse_one_shrinks(mid, one);
    }
}

proof fn lemma_users_roundtrip(
    v: PropertiesView,
    pairs: Seq<(Seq<char>, Seq<char>)>,
    rest: Seq<u8>,
)
    requires
        forall|i: int|
            0 <= i < pairs.len() ==> wire::sendable_text(#[trigger] pairs[i].0)
                && wire::sendable_text(pairs[i].1),
    ensures
        v.parse_all(user_bytes(pairs) + rest) == (PropertiesView {
            user_properties: v.user_properties + pairs,
            ..v
        }).parse_all(rest),
    decreases pairs.len(),
{
    if pairs.len() == 0 {
        assert(user_bytes(pairs) + rest =~= rest);
        assert(v.user_properties + pairs =~= v.user_properties);
    } else {
        let code = PropertyId::UserProperty.code();
        let last = pairs.last();
        let one = seq![code] + (wire::text(last.0) + wire::text(last.1)) + rest;
        assert(user_bytes(pairs) + rest =~= user_bytes(pairs.drop_last()) + one);
        assert forall|i: int| 0 <= i < pairs.drop_last().len() implies wire::sendable_text(
            #[trigger] pairs.drop_last()[i].0,
        ) && wire::sendable_text(pairs.drop_last()[i].1) by {
            assert(wire::sendable_text(pairs[i].0));
        }
        lemma_users_roundtrip(v, pairs.drop_last(), one);
        let mid = PropertiesView {
            user_properties: v.user_properties + pairs.drop_last(),
            ..v
        };
        assert(wire::sendable_text(pairs[pairs.len() - 1].0));
        lemma_one_user(mid, last.0, last.1, rest);
        assert(mid.user_properties.push(last) =~= v.user_properties + pairs);
        lemma_parse_one_shrinks(mid, one);
    }
}

proof fn lemma_body_roundtrip(v: PropertiesView, k: nat)
    requires
        v.sendable(),
        k <= 27,
    ensures
        first_properties(v, k).parse_all(body_from(v, k)) == Some(v),
    decreases 27 - k,
{
    reveal(PropertiesView::sendable);
    reveal(PropertiesView::encodable);
    let acc = first_properties(v, k);
    if k == 27 {
        assert(acc.single =~= v.single);
    } else {
        lemma_body_roundtrip(v, k + 1);
        let id = nth_property(k);
        let next = first_properties(v, k + 1);
        let rest = body_from(v, k + 1);
        assert(property_place(id) == k);
        assert forall|j: PropertyId| property_place(j) == k implies j == id by {}
        if id == PropertyId::SubscriptionIdentifier {
            lemma_subscriptions_roundtrip(acc, v.subscription_identifiers, rest);
            assert(Seq::<u32>::empty() + v.subscription_identifiers =~= v.subscription_identifiers);
            assert(acc.single =~= next.single);
        } else if id == PropertyId::UserProperty {
            lemma_users_roundtrip(acc, v.user_properties, rest);
            assert(Seq::<(Seq<char>, Seq<char>)>::empty() + v.user_properties
                =~= v.user_properties);
            assert(acc.single =~= next.single);
        } else if v.single.contains_key(id) {
            let x = v.single[id];
            assert(value_sendable(id, x));
            let s = v.property_bytes(id) + rest;
            lemma_one_single(acc, id, x, rest);
            assert(acc.single.insert(id, x) =~= next.single);
            lemma_parse_one_shrinks(acc, s);
        } else {
            assert(v.property_bytes(id) + rest =~= rest);
            assert(acc.single =~= next.single);
        }
    }
}

/// A property set that can be sent reads back as it was written.
pub proof fn properties_roundtrip(v: PropertiesView, rest: Seq<u8>)
    requires
        v.sendable(),
    ensures
        PropertiesView::parse(v.bytes() + rest) == Some((v, rest)),
{
    reveal(PropertiesView::sendable);
    reveal(PropertiesView::encodable);
    reveal(PropertiesView::bytes);
    reveal(PropertiesView::parse);
    let body = v.body();
    assert(v.bytes() + rest =~= wire::varint(body.len()) + (body + rest));
    wire::varint_roundtrip(body.len(), body + rest);
    assert((body + rest).take(body.len() as int) =~= body);
    assert((body + rest).skip(body.len() as int) =~= rest);
    lemma_body_split(v, 0);
    assert(body =~= body_from(v, 0));
    lemma_body_roundtrip(v, 0);
    assert(first_properties(v, 0).single =~= Map::empty());
}

} // verus!
