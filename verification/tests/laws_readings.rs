use std::sync::atomic::{AtomicBool, Ordering};
use std::sync::Arc;

use bytes::{Bytes, BytesMut};
use rumqttc::mqttbytes::v4;
use rumqttc::v5::mqttbytes::v5::connack::{connect_code, connect_return};
use rumqttc::v5::mqttbytes::v5::ordered::Property;
use rumqttc::v5::mqttbytes::v5::unsuback::{code, reason};
use rumqttc::v5::mqttbytes::v5::{
    Auth, AuthReasonCode, ConnAck, ConnAckProperties, ConnectReturnCode, Disconnect,
    DisconnectReasonCode, Filter, Packet, PingReq, PingResp, Publish, PublishProperties, Subscribe,
    Unsubscribe, UnsubAckReason,
};
use rumqttc::v5::mqttbytes::{Error, QoS};
use rumqttc::v5::{MqttState, Request};

fn expiring(topic: &str, seconds: u32) -> Publish {
    let properties =
        Some(PublishProperties { message_expiry_interval: Some(seconds), ..Default::default() });
    Publish::new(topic, QoS::AtLeastOnce, Bytes::from_static(b"p"), properties)
}

fn aliased(topic: &str, alias: u16) -> Publish {
    let properties =
        Some(PublishProperties { topic_alias: Some(alias), ..Default::default() });
    Publish::new(topic, QoS::AtLeastOnce, Bytes::from_static(b"p"), properties)
}

#[test]
fn a_publication_whose_flag_stays_down_is_not_replayed() {
    let mut s = MqttState::new(4, false);
    let flags: Vec<Arc<AtomicBool>> = (0..2).map(|_| Arc::new(AtomicBool::new(false))).collect();
    for flag in &flags {
        let p = Publish::new("t", QoS::AtLeastOnce, Bytes::new(), None);
        let Some(Packet::Publish(p)) = s.handle_outgoing_packet(Request::Publish(p)).unwrap() else {
            panic!()
        };
        s.track_publish_transmission(p.pkid, flag.clone());
    }
    flags[1].store(true, Ordering::Release);
    s.resume_session();
    assert!(matches!(s.next_resumed_packet(), Some(Packet::Publish(p)) if p.pkid == 2));
    assert_eq!(s.next_resumed_packet(), None);
    assert_eq!(s.inflight(), 1);
}

#[test]
fn v4_a_publication_whose_flag_stays_down_is_not_replayed() {
    let mut s = rumqttc::MqttState::new(4, false);
    let flags: Vec<Arc<AtomicBool>> = (0..2).map(|_| Arc::new(AtomicBool::new(false))).collect();
    for (i, flag) in flags.iter().enumerate() {
        let p = v4::Publish::new("t", rumqttc::mqttbytes::QoS::AtLeastOnce, b"p".to_vec());
        s.handle_outgoing_packet(rumqttc::Request::Publish(p)).unwrap();
        s.track_publish_transmission(i as u16 + 1, flag.clone());
    }
    flags[1].store(true, Ordering::Release);
    let (packets, _) = s.resume_session();
    assert_eq!(packets.len(), 1);
    assert!(matches!(&packets[0], v4::Packet::Publish(p) if p.pkid == 2));
}

#[test]
fn the_clock_counts_for_publications_that_can_expire() {
    let mut s = MqttState::new(4, false);
    s.handle_outgoing_packet(Request::Publish(expiring("t", 0))).unwrap();
    s.handle_outgoing_packet(Request::Publish(expiring("t", 1000))).unwrap();
    s.resume_session();
    // the first has expired at once, the second has nearly all of its time left
    let Some(Packet::Publish(p)) = s.next_resumed_packet() else { panic!() };
    assert_eq!(p.pkid, 2);
    let left = p.properties.unwrap().message_expiry_interval.unwrap();
    assert!(left > 900 && left <= 1000);
    assert_eq!(s.inflight(), 1);
}

#[test]
fn estimates_cover_times_of_expiry_and_topics_of_aliases() {
    let mut s = MqttState::new(2000, false);
    for _ in 0..1500 {
        let request = Request::Publish(expiring("t", 60));
        let bound = s.outgoing_memory_bound(&request);
        s.handle_outgoing_packet(request).unwrap();
        s.events.clear();
        assert!(s.retained_bytes() <= bound);
    }
    let mut s = MqttState::new(20, false);
    s.handle_incoming_packet(Packet::ConnAck(ConnAck {
        session_present: false,
        code: ConnectReturnCode::Success,
        properties: Some(ConnAckProperties { topic_alias_max: Some(5), ..Default::default() }),
    }))
    .unwrap();
    s.events.clear();
    let topic = "x".repeat(50_000);
    s.handle_outgoing_packet(Request::Publish(aliased(&topic, 1))).unwrap();
    s.events.clear();
    for _ in 0..5 {
        let request = Request::Publish(aliased("", 1));
        let bound = s.outgoing_memory_bound(&request);
        s.handle_outgoing_packet(request).unwrap();
        s.events.clear();
        assert!(s.retained_bytes() <= bound);
    }
}

#[test]
fn a_new_state_is_within_its_bound() {
    for max in [0, 1, 63, 64, 1024, 65535] {
        assert!(MqttState::new(max, true).retained_bytes() <= MqttState::initial_memory_bound(max));
    }
}

#[test]
fn interrupted_subscriptions_come_before_their_removals() {
    let mut s = MqttState::new(10, false);
    for _ in 0..3 {
        s.handle_outgoing_packet(Request::Unsubscribe(Unsubscribe::new("f", None))).unwrap();
        let filter = Filter::new("f", QoS::AtMostOnce);
        s.handle_outgoing_packet(Request::Subscribe(Subscribe::new(filter, None))).unwrap();
    }
    let ids = s.resume_session();
    let mut subscribed = ids[..3].to_vec();
    let mut removed = ids[3..].to_vec();
    subscribed.sort();
    removed.sort();
    assert_eq!(subscribed, vec![2, 4, 6]);
    assert_eq!(removed, vec![1, 3, 5]);
}

#[test]
fn a_frame_without_fields_is_one_of_four_packets() {
    for first in 0..=15u8 {
        let byte1 = first * 16 + if matches!(first, 6 | 8 | 10) { 2 } else { 0 };
        let decoded = Packet::read_with_property_order(&mut BytesMut::from(&[byte1, 0][..]), None);
        let expected = match first {
            0 => Err(Error::InvalidPacketType(0)),
            12 => Ok(Packet::PingReq(PingReq)),
            13 => Ok(Packet::PingResp(PingResp)),
            14 => Ok(Packet::Disconnect(Disconnect::new(DisconnectReasonCode::NormalDisconnection))),
            15 => Ok(Packet::Auth(Auth { code: AuthReasonCode::Success, properties: None })),
            _ => Err(Error::PayloadRequired),
        };
        match decoded {
            Ok(d) => {
                assert!(d.property_order.packet.is_empty() && d.property_order.will.is_empty());
                assert_eq!(Ok(d.packet), expected);
            }
            Err(e) => assert_eq!(Err(e), expected),
        }
    }
}

#[test]
fn numbers_stand_for_codes_of_the_lists_alone() {
    for num in 0..=255u8 {
        let known = num == 0
            || (128..=138).contains(&num)
            || [140, 144, 149, 151, 159].contains(&num)
            || (153..=157).contains(&num);
        assert_eq!(ConnectReturnCode::try_from(num).is_ok(), known);
        let known = [0x00, 0x11, 0x80, 0x83, 0x87, 0x8F, 0x91].contains(&num);
        assert_eq!(UnsubAckReason::try_from(num).is_ok(), known);
    }
}

#[test]
fn codes_and_reasons_are_read_back_from_their_numbers() {
    for num in 0..=255u8 {
        match connect_return(num) {
            Ok(c) => assert_eq!(connect_code(c), num),
            Err(e) => assert_eq!(e, Error::InvalidConnectReturnCode(num)),
        }
        match reason(num) {
            Ok(r) => assert_eq!(code(r), num),
            Err(e) => assert_eq!(e, Error::InvalidSubscribeReasonCode(num)),
        }
    }
}

#[test]
fn values_take_their_size() {
    let long = "x".repeat(65536);
    for (property, size) in [
        (Property::Byte(1), 1),
        (Property::Short(2), 2),
        (Property::Integer(3), 4),
        (Property::Variable(127), 1),
        (Property::Variable(268_435_455), 4),
        (Property::String("text"), 6),
        (Property::Binary(&[0, 1, 2]), 5),
        (Property::Pair("k", "value"), 10),
        (Property::String(&long[..65535]), 65537),
    ] {
        assert_eq!(property.size(), Ok(size));
        let mut out = BytesMut::new();
        assert_eq!(property.write(&mut out), Ok(()));
        assert_eq!(out.len(), size);
    }
    for property in [
        Property::String(&long),
        Property::String("a\0b"),
        Property::Pair("k", &long),
        Property::Pair("\0", "v"),
        Property::Binary(long.as_bytes()),
        Property::Variable(268_435_456),
    ] {
        assert_eq!(property.size(), Err(Error::MalformedPacket));
    }
    let mut out = BytesMut::new();
    assert_eq!(Property::Variable(268_435_456).write(&mut out), Err(Error::PayloadTooLong));
    assert!(out.is_empty());
}

#[test]
fn estimates_cover_what_a_packet_retains() {
    let mut s = MqttState::new(4, true);
    s.configure_receive(65535, 2000, 1 << 20, true).unwrap();
    for alias in 1..1500u16 {
        let mut p = aliased(&format!("topic/{alias}"), alias);
        p.pkid = alias;
        let packet = Packet::Publish(p);
        let bound = s.incoming_memory_bound(&packet);
        s.handle_incoming_packet(packet).unwrap();
        s.events.clear();
        assert!(s.retained_bytes() <= bound);
    }
}
