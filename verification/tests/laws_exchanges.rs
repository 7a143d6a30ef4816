use rumqttc::mqttbytes::v4;
use rumqttc::v5::mqttbytes::v5::{
    Packet, PingReq, PubAck, PubComp, PubCompReason, PubRec, PubRecReason, PubRel, Publish,
};
use rumqttc::v5::mqttbytes::QoS;
use rumqttc::v5::{Event, MqttState, Request, StateError};

fn v4_publish(qos: rumqttc::mqttbytes::QoS, pkid: u16, dup: bool) -> v4::Publish {
    let mut p = v4::Publish::new("t", qos, b"p".to_vec());
    p.pkid = pkid;
    p.dup = dup;
    p
}

fn publish(qos: QoS, pkid: u16, dup: bool) -> Publish {
    let mut p = Publish::new("t", qos, b"p".to_vec(), None);
    p.pkid = pkid;
    p.dup = dup;
    p
}

#[test]
fn v4_acknowledgements_have_to_fit_the_publication() {
    let mut s = rumqttc::MqttState::new(4, false);
    s.handle_outgoing_packet(rumqttc::Request::Publish(v4_publish(
        rumqttc::mqttbytes::QoS::AtLeastOnce,
        0,
        false,
    )))
    .unwrap();
    s.handle_outgoing_packet(rumqttc::Request::Publish(v4_publish(
        rumqttc::mqttbytes::QoS::ExactlyOnce,
        0,
        false,
    )))
    .unwrap();
    for packet in [
        v4::Packet::PubRec(v4::PubRec::new(1)),
        v4::Packet::PubAck(v4::PubAck::new(2)),
        v4::Packet::PubComp(v4::PubComp::new(2)),
    ] {
        assert!(matches!(
            s.handle_incoming_packet(packet),
            Err(rumqttc::StateError::Unsolicited(_))
        ));
    }
    assert!(s.outgoing_pub[1].is_some());
    assert!(s.outgoing_pub[2].is_some());
}

#[test]
fn v4_repeated_receipts_and_releases_change_no_count() {
    let mut s = rumqttc::MqttState::new(4, false);
    s.handle_outgoing_packet(rumqttc::Request::Publish(v4_publish(
        rumqttc::mqttbytes::QoS::ExactlyOnce,
        0,
        false,
    )))
    .unwrap();
    for _ in 0..2 {
        let out = s.handle_incoming_packet(v4::Packet::PubRec(v4::PubRec::new(1))).unwrap();
        assert_eq!(out, Some(v4::Packet::PubRel(v4::PubRel::new(1))));
        assert_eq!(s.inflight(), 1);
    }
    let out = s.handle_outgoing_packet(rumqttc::Request::PubRel(v4::PubRel::new(1))).unwrap();
    assert_eq!(out, Some(v4::Packet::PubRel(v4::PubRel::new(1))));
    assert_eq!(s.inflight(), 1);
    s.handle_incoming_packet(v4::Packet::PubComp(v4::PubComp::new(1))).unwrap();
    assert_eq!(s.inflight(), 0);
}

#[test]
fn v4_repetitions_are_not_delivered_and_acknowledged_once() {
    let mut s = rumqttc::MqttState::new(4, true);
    let q2 = rumqttc::mqttbytes::QoS::ExactlyOnce;
    s.handle_incoming_packet(v4::Packet::Publish(v4_publish(q2, 3, false))).unwrap();
    assert_eq!(s.events.len(), 1);
    s.handle_incoming_packet(v4::Packet::Publish(v4_publish(q2, 3, true))).unwrap();
    assert_eq!(s.events.len(), 1);
    let q1 = rumqttc::mqttbytes::QoS::AtLeastOnce;
    s.handle_incoming_packet(v4::Packet::Publish(v4_publish(q1, 4, false))).unwrap();
    let ack = rumqttc::Request::PubAck(v4::PubAck::new(4));
    assert!(s.handle_outgoing_packet(ack.clone()).is_ok());
    assert!(matches!(
        s.handle_outgoing_packet(ack),
        Err(rumqttc::StateError::Unsolicited(4))
    ));
}

#[test]
fn acknowledgements_have_to_fit_the_publication() {
    let mut s = MqttState::new(4, false);
    s.handle_outgoing_packet(Request::Publish(publish(QoS::AtLeastOnce, 0, false))).unwrap();
    s.handle_outgoing_packet(Request::Publish(publish(QoS::ExactlyOnce, 0, false))).unwrap();
    s.events.clear();
    for packet in [
        Packet::PubRec(PubRec::new(1, None)),
        Packet::PubAck(PubAck::new(2, None)),
        Packet::PubComp(PubComp::new(2, None)),
        Packet::PubAck(PubAck::new(9, None)),
    ] {
        assert!(matches!(s.handle_incoming_packet(packet), Err(StateError::Unsolicited(_))));
        assert!(s.events.is_empty());
    }
    assert!(matches!(
        s.handle_incoming_packet(Packet::PingReq(PingReq)),
        Err(StateError::WrongPacket)
    ));
    assert!(s.outgoing_pub[1].is_some());
    assert!(s.outgoing_pub[2].is_some());
}

#[test]
fn a_repeated_receipt_repeats_the_release_and_a_negative_one_ends_the_exchange() {
    let mut s = MqttState::new(4, false);
    s.handle_outgoing_packet(Request::Publish(publish(QoS::ExactlyOnce, 0, false))).unwrap();
    s.handle_outgoing_packet(Request::Publish(publish(QoS::ExactlyOnce, 0, false))).unwrap();
    for _ in 0..2 {
        let out = s.handle_incoming_packet(Packet::PubRec(PubRec::new(1, None))).unwrap();
        assert_eq!(out, Some(Packet::PubRel(PubRel::new(1, None))));
        assert_eq!(s.inflight(), 2);
    }
    let mut refused = PubRec::new(2, None);
    refused.reason = PubRecReason::NotAuthorized;
    assert_eq!(s.handle_incoming_packet(Packet::PubRec(refused)).unwrap(), None);
    assert_eq!(s.inflight(), 1);
    s.resume_session();
    assert_eq!(s.next_resumed_packet(), Some(Packet::PubRel(PubRel::new(1, None))));
    assert_eq!(s.next_resumed_packet(), None);
}

#[test]
fn a_repeated_release_keeps_its_token_and_a_repetition_is_not_delivered() {
    let mut s = MqttState::new(4, false);
    s.configure_receive(5, 0, 1, true).unwrap();
    s.handle_incoming_packet(Packet::Publish(publish(QoS::ExactlyOnce, 3, false))).unwrap();
    s.handle_incoming_packet(Packet::Publish(publish(QoS::ExactlyOnce, 3, true))).unwrap();
    let delivered =
        s.events.iter().filter(|e| matches!(e, Event::Incoming(Packet::Publish(_)))).count();
    assert_eq!(delivered, 1);
    let first = s.handle_incoming_packet(Packet::PubRel(PubRel::new(3, None))).unwrap().unwrap();
    let token = s.completion_token(&first).unwrap();
    let again = s.handle_incoming_packet(Packet::PubRel(PubRel::new(3, None))).unwrap().unwrap();
    assert_eq!(again, first);
    assert_eq!(s.completion_token(&again), Some(token));
    s.acknowledgement_written(token);
    assert_eq!(s.incoming_inflight(), 0);
}

#[test]
fn a_refused_publication_is_not_kept() {
    let mut s = MqttState::new(1, false);
    s.handle_outgoing_packet(Request::Publish(publish(QoS::AtLeastOnce, 0, false))).unwrap();
    s.events.clear();
    assert!(matches!(
        s.handle_outgoing_packet(Request::Publish(publish(QoS::AtLeastOnce, 0, false))),
        Err(StateError::OutgoingCapacity)
    ));
    assert!(s.events.is_empty());
    assert!(s.collision.is_none());
    assert_eq!(s.inflight(), 1);
    assert!(matches!(
        s.handle_outgoing_packet(Request::PubComp(PubComp::new(1, None))),
        Err(StateError::WrongPacket)
    ));
}

#[test]
fn v4_a_publication_handed_out_by_a_confirmation_is_kept() {
    let mut s = rumqttc::MqttState::new(4, false);
    let q2 = rumqttc::mqttbytes::QoS::ExactlyOnce;
    let q1 = rumqttc::mqttbytes::QoS::AtLeastOnce;
    s.handle_outgoing_packet(rumqttc::Request::Publish(v4_publish(q2, 1, false))).unwrap();
    s.handle_outgoing_packet(rumqttc::Request::Publish(v4_publish(q1, 1, false))).unwrap();
    s.handle_incoming_packet(v4::Packet::PubRec(v4::PubRec::new(1))).unwrap();
    let out = s.handle_incoming_packet(v4::Packet::PubComp(v4::PubComp::new(1))).unwrap();
    assert!(matches!(out, Some(v4::Packet::Publish(p)) if p.pkid == 1));
    assert!(s.outgoing_pub[1].is_some());
    assert_eq!(s.inflight(), 1);
    s.handle_incoming_packet(v4::Packet::PubAck(v4::PubAck::new(1))).unwrap();
    assert_eq!(s.inflight(), 0);
}

#[test]
fn a_publication_handed_out_by_a_confirmation_is_kept() {
    for reason in [PubCompReason::Success, PubCompReason::PacketIdentifierNotFound] {
        let mut s = MqttState::new(4, false);
        s.handle_outgoing_packet(Request::Publish(publish(QoS::ExactlyOnce, 1, false))).unwrap();
        s.handle_outgoing_packet(Request::Publish(publish(QoS::AtLeastOnce, 1, false))).unwrap();
        s.handle_incoming_packet(Packet::PubRec(PubRec::new(1, None))).unwrap();
        let mut comp = PubComp::new(1, None);
        comp.reason = reason;
        let out = s.handle_incoming_packet(Packet::PubComp(comp)).unwrap();
        if reason == PubCompReason::Success {
            assert!(matches!(out, Some(Packet::Publish(p)) if p.pkid == 1));
            assert!(s.outgoing_pub[1].is_some());
            assert_eq!(s.inflight(), 1);
            s.handle_incoming_packet(Packet::PubAck(PubAck::new(1, None))).unwrap();
        } else {
            assert_eq!(out, None);
            assert!(s.collision.is_some());
        }
        assert_eq!(s.inflight(), 0);
    }
}
