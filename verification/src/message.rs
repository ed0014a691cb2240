//! The application message that flows through the broker, apart from the
//! PUBLISH packet that carried it, so that it can be queued, retained and
//! stored.

use vstd::prelude::*;
use crate::codec::{Properties, PropertiesView, PropVal};
use crate::packet::{Publish, PublishView, Will, WillView};
use crate::text;
use crate::text::{clone_opt_bytes, clone_opt_string, clone_pairs};
use crate::types::{PropertyId, QoS};

verus! {

/// An application message ready to be routed to subscribers.
#[derive(Debug)]
pub struct Message {
    pub topic: String,
    pub payload: Vec<u8>,
    pub qos: QoS,
    pub retain: bool,
    /// Properties of the publication that are forwarded to subscribers.
    /// Subscription identifiers are added for each subscriber.
    pub payload_format_indicator: Option<u8>,
    pub content_type: Option<String>,
    pub response_topic: Option<String>,
    pub correlation_data: Option<Vec<u8>>,
    pub user_properties: Vec<(String, String)>,
    /// Unix time in seconds at which the message expires, if it does.
    pub expires_at: Option<u64>,
}

/// What a message says.
pub struct MessageView {
    pub topic: Seq<char>,
    pub payload: Seq<u8>,
    pub qos: QoS,
    pub retain: bool,
    pub payload_format_indicator: Option<u8>,
    pub content_type: Option<Seq<char>>,
    pub response_topic: Option<Seq<char>>,
    pub correlation_data: Option<Seq<u8>>,
    pub user_properties: Seq<(Seq<char>, Seq<char>)>,
    pub expires_at: Option<u64>,
}

impl View for Message {
    type V = MessageView;

    open spec fn view(&self) -> MessageView {
        MessageView {
            topic: self.topic@,
            payload: self.payload@,
            qos: self.qos,
            retain: self.retain,
            payload_format_indicator: self.payload_format_indicator,
            content_type: text::opt_view(self.content_type),
            response_topic: text::opt_view(self.response_topic),
            correlation_data: text::opt_view(self.correlation_data),
            user_properties: text::pair_views(self.user_properties@),
            expires_at: self.expires_at,
        }
    }
}

impl Clone for Message {
    fn clone(&self) -> (r: Self)
        ensures
            r@ == self@,
    {
        Message {
            topic: self.topic.clone(),
            payload: text::clone_bytes(&self.payload),
            qos: self.qos,
            retain: self.retain,
            payload_format_indicator: self.payload_format_indicator,
            content_type: clone_opt_string(&self.content_type),
            response_topic: clone_opt_string(&self.response_topic),
            correlation_data: clone_opt_bytes(&self.correlation_data),
            user_properties: clone_pairs(&self.user_properties),
            expires_at: self.expires_at,
        }
    }
}

/// `now` and `secs` seconds, at most the largest number of seconds.
pub open spec fn deadline(now: u64, secs: u32) -> u64 {
    if now + secs > u64::MAX {
        u64::MAX
    } else {
        (now + secs) as u64
    }
}

/// The optional byte of a property.
pub open spec fn byte_property(p: PropertiesView, id: PropertyId) -> Option<u8> {
    if p.single.contains_key(id) {
        Some(p.single[id]->Byte_0)
    } else {
        None
    }
}

/// The optional two-byte integer of a property.
pub open spec fn two_property(p: PropertiesView, id: PropertyId) -> Option<u16> {
    if p.single.contains_key(id) {
        Some(p.single[id]->Two_0)
    } else {
        None
    }
}

/// The optional four-byte integer of a property.
pub open spec fn four_property(p: PropertiesView, id: PropertyId) -> Option<u32> {
    if p.single.contains_key(id) {
        Some(p.single[id]->Four_0)
    } else {
        None
    }
}

/// The optional string of a property.
pub open spec fn text_property(p: PropertiesView, id: PropertyId) -> Option<Seq<char>> {
    if p.single.contains_key(id) {
        Some(p.single[id]->Text_0)
    } else {
        None
    }
}

/// The optional binary data of a property.
pub open spec fn data_property(p: PropertiesView, id: PropertyId) -> Option<Seq<u8>> {
    if p.single.contains_key(id) {
        Some(p.single[id]->Data_0)
    } else {
        None
    }
}

/// A property in the set when there is a value for it.
pub open spec fn with_property(
    m: Map<PropertyId, PropVal>,
    id: PropertyId,
    x: Option<PropVal>,
) -> Map<PropertyId, PropVal> {
    match x {
        Some(v) => m.insert(id, v),
        None => m,
    }
}

pub open spec fn byte_value(x: Option<u8>) -> Option<PropVal> {
    match x {
        Some(v) => Some(PropVal::Byte(v)),
        None => None,
    }
}

pub open spec fn two_value(x: Option<u16>) -> Option<PropVal> {
    match x {
        Some(v) => Some(PropVal::Two(v)),
        None => None,
    }
}

pub open spec fn four_value(x: Option<u32>) -> Option<PropVal> {
    match x {
        Some(v) => Some(PropVal::Four(v)),
        None => None,
    }
}

pub open spec fn text_value(x: Option<Seq<char>>) -> Option<PropVal> {
    match x {
        Some(v) => Some(PropVal::Text(v)),
        None => None,
    }
}

pub open spec fn data_value(x: Option<Seq<u8>>) -> Option<PropVal> {
    match x {
        Some(v) => Some(PropVal::Data(v)),
        None => None,
    }
}

impl MessageView {
    /// The message with the given content and the properties that are
    /// forwarded; its expiry counts from `now`.
    pub open spec fn of(
        topic: Seq<char>,
        payload: Seq<u8>,
        qos: QoS,
        retain: bool,
        p: PropertiesView,
        now: u64,
    ) -> MessageView {
        MessageView {
            topic,
            payload,
            qos,
            retain,
            payload_format_indicator: byte_property(p, PropertyId::PayloadFormatIndicator),
            content_type: text_property(p, PropertyId::ContentType),
            response_topic: text_property(p, PropertyId::ResponseTopic),
            correlation_data: data_property(p, PropertyId::CorrelationData),
            user_properties: p.user_properties,
            expires_at: match four_property(p, PropertyId::MessageExpiryInterval) {
                Some(secs) => Some(deadline(now, secs)),
                None => None,
            },
        }
    }

    /// The message of a PUBLISH that arrived at `now`.
    pub open spec fn of_publish(p: PublishView, now: u64) -> MessageView {
        Self::of(p.topic, p.payload, p.qos, p.retain, p.properties, now)
    }

    /// The message of a will that was set at `now`.
    pub open spec fn of_will(w: WillView, now: u64) -> MessageView {
        Self::of(w.topic, w.payload, w.qos, w.retain, w.properties, now)
    }

    /// The seconds left until expiry; 0 when the time has come.
    pub open spec fn remaining(self, now: u64) -> Option<u32> {
        match self.expires_at {
            Some(d) => Some(
                if d <= now {
                    0
                } else if d - now > u32::MAX {
                    u32::MAX
                } else {
                    (d - now) as u32
                },
            ),
            None => None,
        }
    }

    /// Whether the expiry time has come.
    pub open spec fn expired(self, now: u64) -> bool {
        self.expires_at matches Some(d) && d <= now
    }

    /// The properties of a PUBLISH that carries the message.
    pub open spec fn properties(self, ids: Seq<u32>, now: u64) -> PropertiesView {
        let m0 = with_property(
            Map::empty(),
            PropertyId::PayloadFormatIndicator,
            byte_value(self.payload_format_indicator),
        );
        let m1 = with_property(
            m0,
            PropertyId::MessageExpiryInterval,
            four_value(self.remaining(now)),
        );
        let m2 = with_property(m1, PropertyId::ContentType, text_value(self.content_type));
        let m3 = with_property(m2, PropertyId::ResponseTopic, text_value(self.response_topic));
        let m4 = with_property(m3, PropertyId::CorrelationData, data_value(self.correlation_data));
        PropertiesView {
            single: m4,
            subscription_identifiers: ids,
            user_properties: self.user_properties,
        }
    }

    /// The PUBLISH that carries the message to a subscriber.
    pub open spec fn publish(
        self,
        qos: QoS,
        packet_id: Option<u16>,
        retain: bool,
        ids: Seq<u32>,
        now: u64,
    ) -> PublishView {
        PublishView {
            dup: false,
            qos,
            retain,
            topic: self.topic,
            packet_id: if qos is AtMostOnce {
                None
            } else {
                packet_id
            },
            properties: self.properties(ids, now),
            payload: self.payload,
        }
    }
}

/// The fields of a property set are those of its view.
pub(crate) proof fn lemma_fields(p: Properties)
    ensures
        p.payload_format_indicator == byte_property(p@, PropertyId::PayloadFormatIndicator),
        p.message_expiry_interval == four_property(p@, PropertyId::MessageExpiryInterval),
        text::opt_view(p.content_type) == text_property(p@, PropertyId::ContentType),
        text::opt_view(p.response_topic) == text_property(p@, PropertyId::ResponseTopic),
        text::opt_view(p.correlation_data) == data_property(p@, PropertyId::CorrelationData),
        p.session_expiry_interval == four_property(p@, PropertyId::SessionExpiryInterval),
        p.will_delay_interval == four_property(p@, PropertyId::WillDelayInterval),
        p.receive_maximum == two_property(p@, PropertyId::ReceiveMaximum),
        p.topic_alias == two_property(p@, PropertyId::TopicAlias),
        p.maximum_packet_size == four_property(p@, PropertyId::MaximumPacketSize),
{
    assert(p.field(PropertyId::PayloadFormatIndicator) is Some
        <==> p@.single.contains_key(PropertyId::PayloadFormatIndicator));
    assert(p.field(PropertyId::MessageExpiryInterval) is Some <==> p@.single.contains_key(PropertyId::MessageExpiryInterval));
    assert(p.field(PropertyId::ContentType) is Some <==> p@.single.contains_key(PropertyId::ContentType));
    assert(p.field(PropertyId::ResponseTopic) is Some <==> p@.single.contains_key(PropertyId::ResponseTopic));
    assert(p.field(PropertyId::CorrelationData) is Some <==> p@.single.contains_key(PropertyId::CorrelationData));
    assert(p.field(PropertyId::SessionExpiryInterval) is Some <==> p@.single.contains_key(PropertyId::SessionExpiryInterval));
    assert(p.field(PropertyId::WillDelayInterval) is Some <==> p@.single.contains_key(PropertyId::WillDelayInterval));
    assert(p.field(PropertyId::ReceiveMaximum) is Some <==> p@.single.contains_key(PropertyId::ReceiveMaximum));
    assert(p.field(PropertyId::TopicAlias) is Some <==> p@.single.contains_key(PropertyId::TopicAlias));
    assert(p.field(PropertyId::MaximumPacketSize) is Some <==> p@.single.contains_key(PropertyId::MaximumPacketSize));
}

fn expiry(interval: Option<u32>, now: u64) -> (r: Option<u64>)
    ensures
        r == (match interval {
            Some(secs) => Some(deadline(now, secs)),
            None => None,
        }),
{
    match interval {
        Some(secs) => Some(now.saturating_add(secs as u64)),
        None => None,
    }
}

impl Message {
    /// The message of an inbound PUBLISH; its expiry counts from `now`.
    pub fn from_publish_at(p: &Publish, now: u64) -> (r: Self)
        ensures
            r@ == MessageView::of_publish(p@, now),
    {
        proof {
            lemma_fields(p.properties);
        }
        Message {
            topic: p.topic.clone(),
            payload: text::clone_bytes(&p.payload),
            qos: p.qos,
            retain: p.retain,
            payload_format_indicator: p.properties.payload_format_indicator,
            content_type: clone_opt_string(&p.properties.content_type),
            response_topic: clone_opt_string(&p.properties.response_topic),
            correlation_data: clone_opt_bytes(&p.properties.correlation_data),
            user_properties: clone_pairs(&p.properties.user_properties),
            expires_at: expiry(p.properties.message_expiry_interval, now),
        }
    }

    /// The message of an inbound PUBLISH; its expiry counts from the current
    /// time.
    pub fn from_publish(p: &Publish) -> (r: Self)
        ensures
            exists|now: u64| r@ == MessageView::of_publish(p@, now),
    {
        let now: u64 = now_unix();
        Message::from_publish_at(p, now)
    }

    /// The message of a will; its expiry counts from `now`.
    pub fn from_will(w: &Will, now: u64) -> (r: Self)
        ensures
            r@ == MessageView::of_will(w@, now),
    {
        proof {
            lemma_fields(w.properties);
        }
        Message {
            topic: w.topic.clone(),
            payload: text::clone_bytes(&w.payload),
            qos: w.qos,
            retain: w.retain,
            payload_format_indicator: w.properties.payload_format_indicator,
            content_type: clone_opt_string(&w.properties.content_type),
            response_topic: clone_opt_string(&w.properties.response_topic),
            correlation_data: clone_opt_bytes(&w.properties.correlation_data),
            user_properties: clone_pairs(&w.properties.user_properties),
            expires_at: expiry(w.properties.message_expiry_interval, now),
        }
    }

    /// Remaining expiry interval in seconds at `now`, 0 when already expired.
    pub fn remaining_expiry_at(&self, now: u64) -> (r: Option<u32>)
        ensures
            r == self@.remaining(now),
    {
        match self.expires_at {
            Some(d) => Some(
                if d <= now {
                    0
                } else if d - now > u32::MAX as u64 {
                    u32::MAX
                } else {
                    (d - now) as u32
                },
            ),
            None => None,
        }
    }

    /// Remaining expiry interval in seconds, 0 when already expired.
    pub fn remaining_expiry(&self) -> (r: Option<u32>)
        ensures
            exists|now: u64| r == self@.remaining(now),
    {
        let now: u64 = now_unix();
        self.remaining_expiry_at(now)
    }

    /// Whether the message has expired at `now`.
    pub fn is_expired_at(&self, now: u64) -> (r: bool)
        ensures
            r == self@.expired(now),
    {
        match self.expires_at {
            Some(d) => d <= now,
            None => false,
        }
    }

    /// Whether the message has expired.
    pub fn is_expired(&self) -> (r: bool)
        ensures
            exists|now: u64| r == self@.expired(now),
    {
        let now: u64 = now_unix();
        self.is_expired_at(now)
    }

    /// The PUBLISH that carries this message to a subscriber at `now`.
    ///
    /// `qos` is the QoS of the delivery, `packet_id` is needed above QoS 0,
    /// `retain` is the RETAIN flag that this subscriber sees, and
    /// `subscription_ids` are the matching subscription identifiers.
    pub fn to_publish_at(
        &self,
        qos: QoS,
        packet_id: Option<u16>,
        retain: bool,
        subscription_ids: &[u32],
        now: u64,
    ) -> (r: Publish)
        ensures
            r@ == self@.publish(qos, packet_id, retain, subscription_ids@, now),
    {
        let mut properties: Properties = Properties::new();
        proof {
            lemma_no_fields(properties);
        }
        let ghost empty = properties;
        properties.payload_format_indicator = self.payload_format_indicator;
        properties.content_type = clone_opt_string(&self.content_type);
        properties.response_topic = clone_opt_string(&self.response_topic);
        properties.correlation_data = clone_opt_bytes(&self.correlation_data);
        properties.user_properties = clone_pairs(&self.user_properties);
        properties.message_expiry_interval = self.remaining_expiry_at(now);
        properties.subscription_identifiers = vstd::slice::slice_to_vec(subscription_ids);
        proof {
            assert forall|id: PropertyId|
                id != PropertyId::PayloadFormatIndicator && id
                    != PropertyId::MessageExpiryInterval && id != PropertyId::ContentType && id
                    != PropertyId::ResponseTopic && id
                    != PropertyId::CorrelationData implies #[trigger] properties.field(id)
                == empty.field(id) by {}
            assert(properties@.single =~= self@.properties(subscription_ids@, now).single);
        }
        Publish {
            dup: false,
            qos,
            retain,
            topic: self.topic.clone(),
            packet_id: if qos == QoS::AtMostOnce {
                None
            } else {
                packet_id
            },
            properties,
            payload: text::clone_bytes(&self.payload),
        }
    }

    /// The PUBLISH that carries this message to a subscriber now.
    pub fn to_publish(
        &self,
        qos: QoS,
        packet_id: Option<u16>,
        retain: bool,
        subscription_ids: &[u32],
    ) -> (r: Publish)
        ensures
            exists|now: u64| r@ == self@.publish(qos, packet_id, retain, subscription_ids@, now),
    {
        let now: u64 = now_unix();
        self.to_publish_at(qos, packet_id, retain, subscription_ids, now)
    }
}

/// No property is set in an empty property set.
pub(crate) proof fn lemma_no_fields(p: Properties)
    requires
        p@ == PropertiesView::empty(),
    ensures
        forall|id: PropertyId| (#[trigger] p.field(id)) is None,
{
    assert forall|id: PropertyId| (#[trigger] p.field(id)) is None by {
        assert(!p@.single.contains_key(id));
    }
}

/// A message is expired exactly when nothing is left of its expiry interval.
pub proof fn expired_when_nothing_remains(m: MessageView, now: u64)
    ensures
        m.expired(now) <==> m.remaining(now) == Some(0u32),
{
}

/// A message with an expiry interval is not expired before the interval has
/// passed, and is from then on.
pub proof fn expires_after_its_interval(p: PublishView, arrival: u64, now: u64, secs: u32)
    requires
        four_property(p.properties, PropertyId::MessageExpiryInterval) == Some(secs),
        arrival + secs <= u64::MAX,
    ensures
        MessageView::of_publish(p, arrival).expired(now) <==> arrival + secs <= now,
{
}

/// Current Unix time in whole seconds.
///
/// Reads the clock by `std::time::SystemTime::now` and
/// `std::time::SystemTime::duration_since`; nothing is claimed of the result.
#[verifier::external_body]
pub fn now_unix() -> u64 {
    std::time::SystemTime::now().duration_since(std::time::UNIX_EPOCH).map(|d| d.as_secs()).unwrap_or(0)
}

} // verus!
