use wispmq::codec::{varint_len, Properties, Reader};
use wispmq::error::{malformed, MqttError};
use wispmq::framing::{FrameHeader, ReadOutcome};
use wispmq::message::Message;
use wispmq::packet::{
    total_len, Packet, Publish, RetainHandling, SubAck, Subscribe, Unsubscribe,
};
use wispmq::types::{ProtocolVersion, QoS, ReasonCode};

fn publish() -> Publish {
    Publish {
        dup: false,
        qos: QoS::AtLeastOnce,
        retain: true,
        topic: "a/b".into(),
        packet_id: Some(7),
        properties: Properties::new(),
        payload: b"hi".to_vec(),
    }
}

#[test]
fn a_publish_has_its_exact_bytes() {
    let p = Packet::Publish(publish());
    assert_eq!(
        p.encode(ProtocolVersion::V3_1_1).unwrap(),
        vec![0x33, 9, 0, 3, b'a', b'/', b'b', 0, 7, b'h', b'i']
    );
    assert_eq!(
        p.encode(ProtocolVersion::V5).unwrap(),
        vec![0x33, 10, 0, 3, b'a', b'/', b'b', 0, 7, 0, b'h', b'i']
    );
}

#[test]
fn acknowledgements_of_older_versions_have_no_reasons() {
    let s = Packet::Suback(SubAck {
        packet_id: 5,
        properties: Properties::new(),
        reason_codes: vec![ReasonCode::GrantedQoS1, ReasonCode::NotAuthorized],
    });
    assert_eq!(
        s.encode(ProtocolVersion::V3_1_1).unwrap(),
        vec![0x90, 4, 0, 5, 1, 0x80]
    );
    assert_eq!(
        s.encode(ProtocolVersion::V5).unwrap(),
        vec![0x90, 5, 0, 5, 0, 1, 0x87]
    );
}

#[test]
fn frames_are_read_header_first() {
    let bytes = Packet::Publish(publish()).encode(ProtocolVersion::V5).unwrap();
    let mut h = FrameHeader::new(bytes[0]);
    let n = h.push(bytes[1], 1024).unwrap().unwrap();
    assert_eq!(n, 10);
    match h.finish(&bytes[2..], ProtocolVersion::V5).unwrap() {
        ReadOutcome::Packet(Packet::Publish(p), size) => {
            assert_eq!(size, 12);
            assert_eq!(p.payload, b"hi");
            assert_eq!(p.packet_id, Some(7));
        }
        _ => panic!("expected a PUBLISH"),
    }
}

#[test]
fn frames_that_are_too_large_are_refused() {
    let mut h = FrameHeader::new(0x30);
    assert!(h.push(0xFF, 1024).unwrap().is_none());
    match h.push(0x7F, 1024) {
        Err(e) => assert_eq!(e.reason_code(), ReasonCode::PacketTooLarge),
        Ok(_) => panic!("expected an error"),
    }
}

#[test]
fn messages_expire_after_their_interval() {
    let mut p = publish();
    p.properties.message_expiry_interval = Some(10);
    let m = Message::from_publish_at(&p, 100);
    assert_eq!(m.expires_at, Some(110));
    assert!(!m.is_expired_at(109));
    assert!(m.is_expired_at(110));
    assert_eq!(m.remaining_expiry_at(104), Some(6));
    let fresh = Message::from_publish(&p);
    assert!(!fresh.is_expired());
    assert!(fresh.remaining_expiry().unwrap() >= 9);
}

#[test]
fn errors_say_what_they_are() {
    let e = malformed("short");
    assert_eq!(e.message(), "malformed packet: short");
    assert_eq!(e.reason_code(), ReasonCode::MalformedPacket);
    assert_eq!(
        MqttError::Config("x".into()).reason_code(),
        ReasonCode::UnspecifiedError
    );
}

#[test]
fn lengths_are_those_of_the_bytes() {
    for (n, bytes) in [
        (0, 1),
        (127, 1),
        (128, 2),
        (16_383, 2),
        (16_384, 3),
        (2_097_151, 3),
        (2_097_152, 4),
        (268_435_455, 4),
    ] {
        assert_eq!(varint_len(n), bytes, "{n}");
        assert_eq!(total_len(n as usize), 1 + bytes + n as usize, "{n}");
    }
    let p = Packet::Publish(publish());
    assert_eq!(p.encoded_size(ProtocolVersion::V5).unwrap(), 12);

    let mut properties = Properties::new();
    assert_eq!(properties.encoded_len(), 1);
    properties.subscription_identifiers = vec![200];
    assert_eq!(properties.encoded_len(), 4);
    properties.maximum_qos = Some(1);
    assert_eq!(properties.encoded_len(), 6);
    assert_eq!(properties.max_qos_level(), Some(QoS::AtLeastOnce));
    properties.maximum_qos = Some(3);
    assert_eq!(properties.max_qos_level(), None);
}

#[test]
fn a_message_becomes_a_publish_again() {
    let m = Message::from_publish(&publish());
    let p = m.to_publish(QoS::ExactlyOnce, Some(9), false, &[3, 4]);
    assert_eq!((p.topic.as_str(), p.payload.as_slice()), ("a/b", &b"hi"[..]));
    assert_eq!((p.qos, p.packet_id, p.retain, p.dup), (QoS::ExactlyOnce, Some(9), false, false));
    assert_eq!(p.properties.subscription_identifiers, vec![3, 4]);
}

#[test]
fn a_subscription_is_read_to_its_end() {
    let bytes = [0, 1, 0, 0, 1, 0x61, 0x2D];
    let mut r = Reader::new(&bytes);
    let s = Subscribe::decode(&mut r, ProtocolVersion::V5).unwrap();
    assert_eq!(r.remaining(), 0);
    assert_eq!(s.packet_id, 1);
    assert_eq!(s.filters.len(), 1);
    let f = &s.filters[0];
    assert_eq!((f.filter.as_str(), f.qos), ("a", QoS::AtLeastOnce));
    assert!(f.no_local && f.retain_as_published);
    assert_eq!(f.retain_handling, RetainHandling::DoNotSend);

    for last in [0x40, 0x80, 0x03, 0x30] {
        let bytes = [0, 1, 0, 0, 1, 0x61, last];
        assert!(Subscribe::decode(&mut Reader::new(&bytes), ProtocolVersion::V5).is_err());
    }
    for bytes in [&[0, 1, 0][..], &[0, 0, 0, 0, 1, 0x61, 0]] {
        assert!(Subscribe::decode(&mut Reader::new(bytes), ProtocolVersion::V5).is_err());
    }

    let mut r = Reader::new(&[0, 2, 0, 0, 1, 0x87]);
    let a = SubAck::decode(&mut r, ProtocolVersion::V5).unwrap();
    assert_eq!(r.remaining(), 0);
    assert_eq!((a.packet_id, a.reason_codes.len()), (2, 3));
    let mut r = Reader::new(&[0, 3, 0, 0, 1, 0x61, 0, 1, 0x62]);
    let u = Unsubscribe::decode(&mut r, ProtocolVersion::V5).unwrap();
    assert_eq!(r.remaining(), 0);
    assert_eq!(u.filters, vec!["a".to_string(), "b".to_string()]);
}

#[test]
fn what_is_wrong_with_a_packet_is_said_in_words() {
    for (bytes, words) in [
        (&[][..], "unexpected end of packet: need 1 bytes, have 0"),
        (&[0x00, 0], "invalid packet type 0"),
        (&[0xC0, 0x80], "unexpected end of packet: need 1 bytes, have 0"),
        (
            &[0xC0, 0x80, 0x80, 0x80, 0x80, 1],
            "malformed variable byte integer (>4 bytes)",
        ),
        (&[0xC0, 1], "remaining length 1 does not match buffer (0 bytes left)"),
        (&[0xCB, 0], "invalid fixed header flags 0xB for PINGREQ"),
        (
            &[0x10, 8, 0, 4, 77, 81, 84, 84, 5, 1],
            "CONNECT reserved flag is set",
        ),
        (
            &[0x10, 8, 0, 4, 77, 81, 84, 84, 5, 8],
            "Will QoS/Retain set but Will Flag is 0",
        ),
        (&[0x20, 1, 2], "CONNACK reserved acknowledge flags set"),
        (&[0x36, 0], "invalid QoS 3"),
        (&[0x38, 0], "DUP set on a QoS 0 PUBLISH"),
        (&[0x30, 3, 0, 2, 0x61], "unexpected end of packet: need 2 bytes, have 1"),
        (&[0x30, 3, 0, 1, 0xFF], "string is not well-formed UTF-8"),
        (&[0x30, 3, 0, 1, 0], "string contains U+0000"),
        (
            &[0x32, 5, 0, 1, 0x61, 0, 0],
            "Packet Identifier 0 on a QoS>0 PUBLISH",
        ),
        (
            &[0x30, 6, 0, 1, 0x61, 2, 0x7F, 0],
            "unknown property identifier 0x7F",
        ),
        (
            &[0x30, 8, 0, 1, 0x61, 4, 1, 0, 1, 0],
            "property PayloadFormatIndicator included more than once",
        ),
        (
            &[0x30, 7, 0, 1, 0x61, 3, 0x23, 0, 0],
            "Topic Alias of 0 is a Protocol Error",
        ),
        (
            &[0x30, 6, 0, 1, 0x61, 2, 0x0B, 0],
            "Subscription Identifier of 0 is a Protocol Error",
        ),
        (&[0x40, 3, 0, 1, 0x7F], "unknown reason code 0x7F"),
        (&[0x82, 2, 0, 0], "SUBSCRIBE with Packet Identifier 0"),
        (&[0x82, 3, 0, 1, 0], "SUBSCRIBE with no Topic Filters"),
        (
            &[0x82, 7, 0, 1, 0, 0, 1, 0x61, 0x40],
            "reserved bits set in Subscription Options",
        ),
        (
            &[0x82, 7, 0, 1, 0, 0, 1, 0x61, 0x30],
            "invalid Retain Handling value 3",
        ),
        (&[0xA2, 3, 0, 1, 0], "UNSUBSCRIBE with no Topic Filters"),
        (&[0x90, 4, 0, 1, 0, 0x7F], "unknown reason code 0x7F"),
    ] {
        match Packet::decode(bytes, ProtocolVersion::V5) {
            Err(MqttError::Malformed(m)) => assert_eq!(m, words, "{bytes:?}"),
            _ => panic!("{bytes:?}"),
        }
    }
    let mut h = FrameHeader::new(0x30);
    match h.push(100, 50) {
        Err(MqttError::Reason(ReasonCode::PacketTooLarge, m)) => {
            assert_eq!(m, "packet of 102 bytes exceeds maximum 50");
        }
        _ => panic!("expected an error"),
    }
    let mut p = publish();
    p.packet_id = None;
    match Packet::Publish(p).encode(ProtocolVersion::V5) {
        Err(MqttError::Malformed(m)) => assert_eq!(m, "QoS>0 PUBLISH missing packet id"),
        _ => panic!("expected an error"),
    }
}
