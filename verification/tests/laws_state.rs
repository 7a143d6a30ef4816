use bytes::Bytes;
use rumqttc::mqttbytes::v4;
use rumqttc::v5::mqttbytes::v5::{
    ConnAck, ConnAckProperties, ConnectReturnCode, Disconnect, DisconnectProperties,
    DisconnectReasonCode, Filter, Packet, PubAck, PubAckReason, PubComp, PubRec, PubRel, Publish,
    PublishProperties, Subscribe, Unsubscribe,
};
use rumqttc::v5::mqttbytes::{Error, QoS};
use rumqttc::v5::{Event, MqttState, Outgoing, Request, StateError};

fn v4_publish(qos: rumqttc::mqttbytes::QoS, pkid: u16) -> v4::Publish {
    let mut p = v4::Publish::new("t", qos, b"p".to_vec());
    p.pkid = pkid;
    p
}

fn publish(qos: QoS, pkid: u16) -> Publish {
    let mut p = Publish::new("t", qos, b"p".to_vec(), None);
    p.pkid = pkid;
    p
}

fn aliased(topic: &str, alias: u16) -> Publish {
    Publish::new(
        topic,
        QoS::AtMostOnce,
        Bytes::new(),
        Some(PublishProperties { topic_alias: Some(alias), ..Default::default() }),
    )
}

fn connack(topic_alias_max: Option<u16>, receive_max: Option<u16>) -> Packet {
    Packet::ConnAck(ConnAck {
        session_present: true,
        code: ConnectReturnCode::Success,
        properties: Some(ConnAckProperties { topic_alias_max, receive_max, ..Default::default() }),
    })
}

#[test]
fn v4_identifiers_go_around_and_skip_pending_requests() {
    let mut s = rumqttc::MqttState::new(3, false);
    let q1 = rumqttc::mqttbytes::QoS::AtLeastOnce;
    for id in 1..=3 {
        s.handle_outgoing_packet(rumqttc::Request::Publish(v4_publish(q1, 0))).unwrap();
        assert_eq!(s.inflight(), id);
    }
    assert_eq!(s.last_pkid, 0);
    assert!(matches!(s.next_available_packet_id(), Err(rumqttc::StateError::InvalidState)));
    s.handle_incoming_packet(v4::Packet::PubAck(v4::PubAck::new(2))).unwrap();
    assert_eq!(s.next_available_packet_id().unwrap(), 2);
}

#[test]
fn v4_collision_waits_for_its_identifier() {
    let mut s = rumqttc::MqttState::new(2, false);
    let q1 = rumqttc::mqttbytes::QoS::AtLeastOnce;
    s.handle_outgoing_packet(rumqttc::Request::Publish(v4_publish(q1, 1))).unwrap();
    assert_eq!(s.handle_outgoing_packet(rumqttc::Request::Publish(v4_publish(q1, 1))).unwrap(), None);
    assert!(s.collision.is_some());
    s.handle_outgoing_packet(rumqttc::Request::PingReq(v4::PingReq)).unwrap();
    assert!(matches!(
        s.handle_outgoing_packet(rumqttc::Request::PingReq(v4::PingReq)),
        Err(rumqttc::StateError::CollisionTimeout)
    ));
    let out = s.handle_incoming_packet(v4::Packet::PubAck(v4::PubAck::new(1))).unwrap();
    assert!(matches!(out, Some(v4::Packet::Publish(p)) if p.pkid == 1));
    assert!(s.collision.is_none());
    assert_eq!(s.inflight(), 1);
    assert_eq!(s.collision_ping_count, 0);
}

#[test]
fn v4_refusals_change_nothing() {
    let mut s = rumqttc::MqttState::new(2, true);
    let q2 = rumqttc::mqttbytes::QoS::ExactlyOnce;
    s.handle_incoming_packet(v4::Packet::Publish(v4_publish(q2, 5))).unwrap();
    s.events.clear();
    for packet in [
        v4::Packet::PubRel(v4::PubRel::new(5)),
        v4::Packet::Publish(v4_publish(q2, 5)),
        v4::Packet::Publish(v4_publish(q2, 0)),
        v4::Packet::PubComp(v4::PubComp::new(1)),
        v4::Packet::UnsubAck(v4::UnsubAck::new(1)),
        v4::Packet::PingReq,
        v4::Packet::Disconnect,
    ] {
        assert!(s.handle_incoming_packet(packet).is_err());
        assert!(s.events.is_empty());
        assert_eq!(s.incoming_inflight(), 1);
    }
    assert!(matches!(
        s.handle_outgoing_packet(rumqttc::Request::Subscribe(v4::Subscribe { pkid: 0, filters: vec![] })),
        Err(rumqttc::StateError::EmptySubscription)
    ));
    assert!(matches!(
        s.handle_outgoing_packet(rumqttc::Request::Publish(v4_publish(q2, 3))),
        Err(rumqttc::StateError::Unsolicited(3))
    ));
    assert!(matches!(s.acknowledgement(6), Err(rumqttc::StateError::Unsolicited(6))));
}

#[test]
fn v4_resumption_repeats_publications_and_releases_and_returns_lost_answers() {
    let mut s = rumqttc::MqttState::new(9, false);
    let q2 = rumqttc::mqttbytes::QoS::ExactlyOnce;
    for _ in 0..3 {
        s.handle_outgoing_packet(rumqttc::Request::Publish(v4_publish(q2, 0))).unwrap();
    }
    s.handle_incoming_packet(v4::Packet::PubRec(v4::PubRec::new(2))).unwrap();
    let filter = v4::SubscribeFilter::new("f".into(), q2);
    s.handle_outgoing_packet(rumqttc::Request::Subscribe(v4::Subscribe { pkid: 0, filters: vec![filter] }))
        .unwrap();
    s.handle_outgoing_packet(rumqttc::Request::Unsubscribe(v4::Unsubscribe {
        pkid: 0,
        topics: vec!["f".into()],
    }))
    .unwrap();
    let (packets, interrupted) = s.resume_session_without(&vec![3]);
    assert_eq!(interrupted, vec![4, 5]);
    assert_eq!(packets.len(), 2);
    assert!(matches!(&packets[0], v4::Packet::Publish(p) if p.pkid == 1 && p.dup));
    assert_eq!(packets[1], v4::Packet::PubRel(v4::PubRel::new(2)));
    assert_eq!(s.inflight(), 2);
    let requests = s.clean();
    assert_eq!(requests.len(), 2);
    assert!(matches!(&requests[1], rumqttc::Request::PubRel(p) if p.pkid == 2));
    assert!(!s.pending());
}

#[test]
fn v4_memory_is_bounded_at_the_start_and_counts_publications() {
    for max in [0, 1, 7, 8, 1024, 65535] {
        let s = rumqttc::MqttState::new(max, false);
        assert!(s.retained_bytes() <= rumqttc::MqttState::initial_memory_bound(max));
    }
    let mut s = rumqttc::MqttState::new(4, false);
    let before = s.retained_bytes();
    let mut p = v4_publish(rumqttc::mqttbytes::QoS::AtLeastOnce, 0);
    p.payload = Bytes::from(vec![0; 1000]);
    s.handle_outgoing_packet(rumqttc::Request::Publish(p)).unwrap();
    assert!(s.retained_bytes() >= before + 1000);
}

#[test]
fn identifiers_are_given_once_and_capacity_is_refused() {
    let mut s = MqttState::new(3, false);
    s.handle_outgoing_packet(Request::Publish(publish(QoS::AtLeastOnce, 0))).unwrap();
    let sub = Subscribe::new(Filter::new("f", QoS::AtMostOnce), None);
    s.handle_outgoing_packet(Request::Subscribe(sub)).unwrap();
    s.handle_outgoing_packet(Request::Unsubscribe(Unsubscribe::new("f", None))).unwrap();
    assert!(matches!(s.next_available_packet_id(), Err(StateError::OutgoingCapacity)));
    assert!(matches!(
        s.handle_outgoing_packet(Request::Publish(publish(QoS::AtLeastOnce, 3))),
        Err(StateError::InvalidState)
    ));
    assert!(matches!(
        s.handle_outgoing_packet(Request::Publish(publish(QoS::AtLeastOnce, 4))),
        Err(StateError::Unsolicited(4))
    ));
    s.handle_incoming_packet(connack(None, Some(1))).unwrap();
    assert!(matches!(
        s.handle_outgoing_packet(Request::Publish(publish(QoS::AtLeastOnce, 0))),
        Err(StateError::OutgoingCapacity)
    ));
}

#[test]
fn a_release_without_identifier_gets_the_next_one() {
    let mut s = MqttState::new(4, false);
    let out = s.handle_outgoing_packet(Request::PubRel(PubRel::new(0, None))).unwrap();
    assert!(matches!(out, Some(Packet::PubRel(p)) if p.pkid == 1));
    assert_eq!(s.inflight(), 1);
    s.handle_incoming_packet(Packet::PubComp(PubComp::new(1, None))).unwrap();
    assert!(!s.pending());
}

#[test]
fn a_negative_acknowledgement_keeps_the_collision() {
    let mut s = MqttState::new(2, false);
    s.handle_outgoing_packet(Request::Publish(publish(QoS::AtLeastOnce, 1))).unwrap();
    s.handle_outgoing_packet(Request::Publish(publish(QoS::AtLeastOnce, 1))).unwrap();
    let mut ack = PubAck::new(1, None);
    ack.reason = PubAckReason::QuotaExceeded;
    assert_eq!(s.handle_incoming_packet(Packet::PubAck(ack)).unwrap(), None);
    assert!(s.collision.is_some());
    assert_eq!(s.inflight(), 0);
}

#[test]
fn an_alias_stands_for_the_topic_sent_with_it_last() {
    let mut s = MqttState::new(2, false);
    s.configure_receive(10, 2, 10, false).unwrap();
    assert!(matches!(
        s.handle_incoming_packet(Packet::Publish(aliased("a", 3))),
        Err(StateError::InvalidAlias { alias: 3, max: 2 })
    ));
    assert!(matches!(
        s.handle_incoming_packet(Packet::Publish(aliased("", 1))),
        Err(StateError::InvalidState)
    ));
    for topic in ["one", "two"] {
        s.handle_incoming_packet(Packet::Publish(aliased(topic, 1))).unwrap();
        s.events.clear();
        s.handle_incoming_packet(Packet::Publish(aliased("", 1))).unwrap();
        assert!(matches!(&s.events[0], Event::Incoming(Packet::Publish(p)) if &p.topic[..] == topic.as_bytes()));
        s.events.clear();
    }
    // the topics of all aliases share one limit
    assert!(matches!(
        s.handle_incoming_packet(Packet::Publish(aliased("12345678", 2))),
        Err(StateError::InvalidState)
    ));
    s.handle_incoming_packet(Packet::Publish(aliased("1234567", 2))).unwrap();
    assert!(matches!(
        s.handle_incoming_packet(Packet::Publish(Publish::new("", QoS::AtMostOnce, Bytes::new(), None))),
        Err(StateError::WrongPacket)
    ));
    let mut p = publish(QoS::AtMostOnce, 0);
    p.topic = Bytes::from_static(b"\xff");
    assert!(matches!(s.handle_incoming_packet(Packet::Publish(p)), Err(StateError::WrongPacket)));
}

#[test]
fn receive_credit_returns_with_the_token_and_stale_tokens_do_nothing() {
    let mut s = MqttState::new(2, false);
    s.configure_receive(1, 0, 1, true).unwrap();
    let reply = s.handle_incoming_packet(Packet::Publish(publish(QoS::AtLeastOnce, 7))).unwrap().unwrap();
    let token = s.completion_token(&reply).unwrap();
    assert_eq!(token % 65536, 7);
    assert!(matches!(
        s.handle_incoming_packet(Packet::Publish(publish(QoS::AtLeastOnce, 8))),
        Err(StateError::InvalidState)
    ));
    s.acknowledgement_written(token + 65536);
    assert_eq!(s.incoming_inflight(), 1);
    s.acknowledgement_written(token);
    assert_eq!(s.incoming_inflight(), 0);
    let reply = s.handle_incoming_packet(Packet::Publish(publish(QoS::AtLeastOnce, 7))).unwrap().unwrap();
    let next = s.completion_token(&reply).unwrap();
    assert!(next > token);
    s.acknowledgement_written(token);
    assert_eq!(s.incoming_inflight(), 1);
    assert!(matches!(s.configure_receive(1, 0, 1, true), Err(StateError::InvalidState)));
    assert!(matches!(
        s.handle_outgoing_packet(Request::PubAck(PubAck::new(7, None))),
        Err(StateError::Unsolicited(7))
    ));
}

#[test]
fn an_unknown_release_is_confirmed_as_such() {
    let mut s = MqttState::new(2, false);
    let Some(Packet::PubComp(p)) = s.handle_incoming_packet(Packet::PubRel(PubRel::new(3, None))).unwrap() else {
        panic!()
    };
    assert_eq!(u8::from(p.reason), 146);
    assert!(matches!(s.events[1], Event::Outgoing(Outgoing::PubComp(3))));
    assert!(matches!(
        s.handle_incoming_packet(Packet::PubRel(PubRel::new(0, None))),
        Err(StateError::WrongPacket)
    ));
}

#[test]
fn the_broker_can_refuse_or_close_the_connection() {
    let mut s = MqttState::new(2, false);
    assert!(matches!(
        s.handle_incoming_packet(Packet::ConnAck(ConnAck {
            session_present: false,
            code: ConnectReturnCode::Banned,
            properties: None
        })),
        Err(StateError::ConnFail { reason: ConnectReturnCode::Banned })
    ));
    let closed = s.handle_incoming_packet(Packet::Disconnect(Disconnect {
        reason_code: DisconnectReasonCode::ServerBusy,
        properties: Some(DisconnectProperties {
            reason_string: Some("later".into()),
            ..Default::default()
        }),
    }));
    assert!(matches!(
        closed,
        Err(StateError::ServerDisconnect { reason_code: DisconnectReasonCode::ServerBusy, reason_string: Some(t) })
            if t == "later"
    ));
    let Some(Packet::Disconnect(d)) = s.handle_protocol_error().unwrap() else { panic!() };
    assert_eq!(d.reason_code, DisconnectReasonCode::ProtocolError);
}

#[test]
fn resumption_repeats_releases_first_and_shortens_the_time_of_expiry() {
    let mut s = MqttState::new(4, false);
    let properties = Some(PublishProperties { message_expiry_interval: Some(100), ..Default::default() });
    let p = Publish::new("t", QoS::AtLeastOnce, Bytes::new(), properties);
    s.handle_outgoing_packet(Request::Publish(p)).unwrap();
    s.handle_outgoing_packet(Request::Publish(publish(QoS::ExactlyOnce, 0))).unwrap();
    s.handle_incoming_packet(Packet::PubRec(PubRec::new(2, None))).unwrap();
    let sub = Subscribe::new(Filter::new("f", QoS::AtMostOnce), None);
    s.handle_outgoing_packet(Request::Subscribe(sub)).unwrap();
    assert_eq!(s.resume_session(), vec![3]);
    assert!(matches!(s.next_resumed_packet(), Some(Packet::PubRel(p)) if p.pkid == 2));
    let Some(Packet::Publish(p)) = s.resend(1, 40) else { panic!() };
    assert!(p.dup);
    assert_eq!(p.pkid, 1);
    assert_eq!(p.properties.unwrap().message_expiry_interval, Some(60));
    assert_eq!(s.resend(1, 100), None);
    assert_eq!(s.inflight(), 1);
    assert!(s.next_resumed_packet().is_none());
}

#[test]
fn unsent_publications_are_forgotten() {
    let mut s = MqttState::new(4, false);
    for _ in 0..3 {
        s.handle_outgoing_packet(Request::Publish(publish(QoS::AtLeastOnce, 0))).unwrap();
    }
    s.resume_session_without(&vec![1, 3, 9]);
    assert_eq!(s.inflight(), 1);
    assert!(matches!(s.next_resumed_packet(), Some(Packet::Publish(p)) if p.pkid == 2));
    assert_eq!(s.next_resumed_packet(), None);
    let requests = s.clean();
    assert_eq!(requests.len(), 1);
    assert!(!s.pending());
}

#[test]
fn estimates_count_what_a_publication_holds() {
    let mut p = publish(QoS::AtLeastOnce, 0);
    p.payload = Bytes::from(vec![0; 500]);
    p.properties = Some(PublishProperties {
        content_type: Some("x".repeat(300)),
        user_properties: vec![("k".repeat(10), "v".repeat(20))],
        ..Default::default()
    });
    let bound = MqttState::publication_memory_bound(&p);
    assert!(bound >= 1 + 500 + 300 + 10 + 20);
    let s = MqttState::new(4, false);
    assert!(s.outgoing_memory_bound(&Request::Publish(p)) >= s.retained_bytes() + bound);
    assert!(s.incoming_memory_bound(&Packet::PubRel(PubRel::new(1, None))) > s.retained_bytes());
}

#[test]
fn codec_errors_become_state_errors() {
    assert!(matches!(
        StateError::from(Error::OutgoingPacketTooLarge { pkt_size: 9, max: 3 }),
        StateError::OutgoingPacketTooLarge { pkt_size: 9, max: 3 }
    ));
    assert!(matches!(
        StateError::from(Error::PacketIdZero),
        StateError::Deserialization(Error::PacketIdZero)
    ));
    assert!(matches!(
        rumqttc::StateError::from(rumqttc::mqttbytes::Error::MalformedPacket),
        rumqttc::StateError::Deserialization(rumqttc::mqttbytes::Error::MalformedPacket)
    ));
}
