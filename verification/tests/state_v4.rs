use rumqttc::mqttbytes::v4::{
    Packet, PingReq, PubAck, PubComp, PubRec, PubRel, Publish, SubAck, Subscribe, SubscribeFilter,
    SubscribeReasonCode, UnsubAck, Unsubscribe,
};
use rumqttc::mqttbytes::QoS;
use rumqttc::{Event, Incoming, MqttState, Outgoing, Request, StateError};

fn build_outgoing_publish(qos: QoS) -> Publish {
    let topic = "hello/world".to_owned();
    let payload = vec![1, 2, 3];

    let mut publish = Publish::new(topic, QoS::AtLeastOnce, payload);
    publish.qos = qos;
    publish
}

fn build_incoming_publish(qos: QoS, pkid: u16) -> Publish {
    let topic = "hello/world".to_owned();
    let payload = vec![1, 2, 3];

    let mut publish = Publish::new(topic, QoS::AtLeastOnce, payload);
    publish.pkid = pkid;
    publish.qos = qos;
    publish
}

fn build_mqttstate() -> MqttState {
    MqttState::new(100, false)
}

#[test]
fn next_pkid_increments_as_expected() {
    let mut mqtt = build_mqttstate();

    for i in 1..=100 {
        let pkid = mqtt.next_pkid();

        // loops between 0-99. % 100 == 0 implies border
        let expected = i % 100;
        if expected == 0 {
            break;
        }

        assert_eq!(expected, pkid);
    }
}

#[test]
fn outgoing_publish_should_set_pkid_and_add_publish_to_queue() {
    let mut mqtt = build_mqttstate();

    // QoS0 Publish
    let publish = build_outgoing_publish(QoS::AtMostOnce);

    // QoS 0 publish shouldn't be saved in queue
    mqtt.outgoing_publish(publish).unwrap();
    assert_eq!(mqtt.last_pkid, 0);
    assert_eq!(mqtt.inflight, 0);

    // QoS1 Publish
    let publish = build_outgoing_publish(QoS::AtLeastOnce);

    // Packet id should be set and publish should be saved in queue
    mqtt.outgoing_publish(publish.clone()).unwrap();
    assert_eq!(mqtt.last_pkid, 1);
    assert_eq!(mqtt.inflight, 1);

    // Packet id should be incremented and publish should be saved in queue
    mqtt.outgoing_publish(publish).unwrap();
    assert_eq!(mqtt.last_pkid, 2);
    assert_eq!(mqtt.inflight, 2);

    // QoS1 Publish
    let publish = build_outgoing_publish(QoS::ExactlyOnce);

    // Packet id should be set and publish should be saved in queue
    mqtt.outgoing_publish(publish.clone()).unwrap();
    assert_eq!(mqtt.last_pkid, 3);
    assert_eq!(mqtt.inflight, 3);

    // Packet id should be incremented and publish should be saved in queue
    mqtt.outgoing_publish(publish).unwrap();
    assert_eq!(mqtt.last_pkid, 4);
    assert_eq!(mqtt.inflight, 4);
}

#[test]
fn incoming_publish_should_be_added_to_queue_correctly() {
    let mut mqtt = build_mqttstate();

    // QoS0, 1, 2 Publishes
    let publish1 = build_incoming_publish(QoS::AtMostOnce, 1);
    let publish2 = build_incoming_publish(QoS::AtLeastOnce, 2);
    let publish3 = build_incoming_publish(QoS::ExactlyOnce, 3);

    mqtt.handle_incoming_publish(&publish1).unwrap();
    mqtt.handle_incoming_publish(&publish2).unwrap();
    mqtt.handle_incoming_publish(&publish3).unwrap();

    // only qos2 publish should be add to queue
    assert!(mqtt.incoming_pub.contains(3));
}

#[test]
fn incoming_publish_should_be_acked() {
    let mut mqtt = build_mqttstate();

    // QoS0, 1, 2 Publishes
    let publish1 = build_incoming_publish(QoS::AtMostOnce, 1);
    let publish2 = build_incoming_publish(QoS::AtLeastOnce, 2);
    let publish3 = build_incoming_publish(QoS::ExactlyOnce, 3);

    mqtt.handle_incoming_publish(&publish1).unwrap();
    mqtt.handle_incoming_publish(&publish2).unwrap();
    mqtt.handle_incoming_publish(&publish3).unwrap();

    if let Event::Outgoing(Outgoing::PubAck(pkid)) = mqtt.events[0] {
        assert_eq!(pkid, 2);
    } else {
        panic!("missing puback");
    }

    if let Event::Outgoing(Outgoing::PubRec(pkid)) = mqtt.events[1] {
        assert_eq!(pkid, 3);
    } else {
        panic!("missing PubRec");
    }
}

#[test]
fn incoming_publish_should_not_be_acked_with_manual_acks() {
    let mut mqtt = build_mqttstate();
    mqtt.manual_acks = true;

    // QoS0, 1, 2 Publishes
    let publish1 = build_incoming_publish(QoS::AtMostOnce, 1);
    let publish2 = build_incoming_publish(QoS::AtLeastOnce, 2);
    let publish3 = build_incoming_publish(QoS::ExactlyOnce, 3);

    mqtt.handle_incoming_publish(&publish1).unwrap();
    mqtt.handle_incoming_publish(&publish2).unwrap();
    mqtt.handle_incoming_publish(&publish3).unwrap();

    assert!(mqtt.incoming_pub.contains(3));

    assert!(mqtt.events.is_empty());
}

#[test]
fn incoming_qos2_publish_should_send_rec_to_network_and_publish_to_user() {
    let mut mqtt = build_mqttstate();
    let publish = build_incoming_publish(QoS::ExactlyOnce, 1);

    let packet = mqtt.handle_incoming_publish(&publish).unwrap().unwrap();
    match packet {
        Packet::PubRec(pubrec) => assert_eq!(pubrec.pkid, 1),
        _ => panic!("Invalid network request: {:?}", packet),
    }
}

#[test]
fn incoming_puback_should_remove_correct_publish_from_queue() {
    let mut mqtt = build_mqttstate();

    let publish1 = build_outgoing_publish(QoS::AtLeastOnce);
    let publish2 = build_outgoing_publish(QoS::AtLeastOnce);

    mqtt.outgoing_publish(publish1).unwrap();
    mqtt.outgoing_publish(publish2).unwrap();
    assert_eq!(mqtt.inflight, 2);

    mqtt.handle_incoming_puback(&PubAck::new(1)).unwrap();
    assert_eq!(mqtt.inflight, 1);

    mqtt.handle_incoming_puback(&PubAck::new(2)).unwrap();
    assert_eq!(mqtt.inflight, 0);

    assert!(mqtt.outgoing_pub[1].is_none());
    assert!(mqtt.outgoing_pub[2].is_none());
}

#[test]
fn incoming_puback_with_pkid_greater_than_max_inflight_should_be_handled_gracefully() {
    let mut mqtt = build_mqttstate();

    let got = mqtt.handle_incoming_puback(&PubAck::new(101)).unwrap_err();

    match got {
        StateError::Unsolicited(pkid) => assert_eq!(pkid, 101),
        e => panic!("Unexpected error: {:?}", e),
    }
}

#[test]
fn incoming_pubrec_should_release_publish_from_queue_and_add_relid_to_rel_queue() {
    let mut mqtt = build_mqttstate();

    let publish1 = build_outgoing_publish(QoS::AtLeastOnce);
    let publish2 = build_outgoing_publish(QoS::ExactlyOnce);

    let _publish_out = mqtt.outgoing_publish(publish1);
    let _publish_out = mqtt.outgoing_publish(publish2);

    mqtt.handle_incoming_pubrec(&PubRec::new(2)).unwrap();
    assert_eq!(mqtt.inflight, 2);

    // check if the remaining element's pkid is 1
    let backup = mqtt.outgoing_pub[1].clone();
    assert_eq!(backup.unwrap().pkid, 1);

    // check if the qos2 element's release pkid is 2
    assert!(mqtt.outgoing_rel.contains(2));
}

#[test]
fn incoming_pubrec_should_send_release_to_network_and_nothing_to_user() {
    let mut mqtt = build_mqttstate();

    let publish = build_outgoing_publish(QoS::ExactlyOnce);
    let packet = mqtt.outgoing_publish(publish).unwrap().unwrap();
    match packet {
        Packet::Publish(publish) => assert_eq!(publish.pkid, 1),
        packet => panic!("Invalid network request: {:?}", packet),
    }

    let packet = mqtt
        .handle_incoming_pubrec(&PubRec::new(1))
        .unwrap()
        .unwrap();
    match packet {
        Packet::PubRel(pubrel) => assert_eq!(pubrel.pkid, 1),
        packet => panic!("Invalid network request: {:?}", packet),
    }
}

#[test]
fn incoming_pubrel_should_send_comp_to_network_and_nothing_to_user() {
    let mut mqtt = build_mqttstate();
    let publish = build_incoming_publish(QoS::ExactlyOnce, 1);

    let packet = mqtt.handle_incoming_publish(&publish).unwrap().unwrap();
    match packet {
        Packet::PubRec(pubrec) => assert_eq!(pubrec.pkid, 1),
        packet => panic!("Invalid network request: {:?}", packet),
    }

    let packet = mqtt
        .handle_incoming_pubrel(&PubRel::new(1))
        .unwrap()
        .unwrap();
    match packet {
        Packet::PubComp(pubcomp) => assert_eq!(pubcomp.pkid, 1),
        packet => panic!("Invalid network request: {:?}", packet),
    }
}

#[test]
fn incoming_pubcomp_should_release_correct_pkid_from_release_queue() {
    let mut mqtt = build_mqttstate();
    let publish = build_outgoing_publish(QoS::ExactlyOnce);

    mqtt.outgoing_publish(publish).unwrap();
    mqtt.handle_incoming_pubrec(&PubRec::new(1)).unwrap();

    mqtt.handle_incoming_pubcomp(&PubComp::new(1)).unwrap();
    assert_eq!(mqtt.inflight, 0);
}

#[test]
fn outgoing_ping_handle_should_throw_errors_for_no_pingresp() {
    let mut mqtt = build_mqttstate();
    mqtt.outgoing_ping().unwrap();

    // network activity other than pingresp
    let publish = build_outgoing_publish(QoS::AtLeastOnce);
    mqtt.handle_outgoing_packet(Request::Publish(publish))
        .unwrap();
    mqtt.handle_incoming_packet(Incoming::PubAck(PubAck::new(1)))
        .unwrap();

    // should throw error because we didn't get pingresp for previous ping
    match mqtt.outgoing_ping() {
        Ok(_) => panic!("Should throw pingresp await error"),
        Err(StateError::AwaitPingResp) => (),
        Err(e) => panic!("Should throw pingresp await error. Error = {:?}", e),
    }
}

#[test]
fn outgoing_ping_handle_should_succeed_if_pingresp_is_received() {
    let mut mqtt = build_mqttstate();

    // should ping
    mqtt.outgoing_ping().unwrap();
    mqtt.handle_incoming_packet(Incoming::PingResp).unwrap();

    // should ping
    mqtt.outgoing_ping().unwrap();
}

#[test]
fn clean_is_calculating_pending_correctly() {
    let mut mqtt = build_mqttstate();

    fn build_outgoing_pub() -> Vec<Option<Publish>> {
        vec![
            None,
            Some(Publish {
                dup: false,
                qos: QoS::AtMostOnce,
                retain: false,
                topic: "test".to_string(),
                pkid: 1,
                payload: "".into(),
            }),
            Some(Publish {
                dup: false,
                qos: QoS::AtMostOnce,
                retain: false,
                topic: "test".to_string(),
                pkid: 2,
                payload: "".into(),
            }),
            Some(Publish {
                dup: false,
                qos: QoS::AtMostOnce,
                retain: false,
                topic: "test".to_string(),
                pkid: 3,
                payload: "".into(),
            }),
            None,
            None,
            Some(Publish {
                dup: false,
                qos: QoS::AtMostOnce,
                retain: false,
                topic: "test".to_string(),
                pkid: 6,
                payload: "".into(),
            }),
        ]
    }

    mqtt.outgoing_pub = build_outgoing_pub();
    mqtt.last_puback = 3;
    let requests = mqtt.clean();
    let res = vec![6, 1, 2, 3];
    for (req, idx) in requests.iter().zip(res) {
        if let Request::Publish(publish) = req {
            assert_eq!(publish.pkid, idx);
        } else {
            unreachable!()
        }
    }

    mqtt.outgoing_pub = build_outgoing_pub();
    mqtt.last_puback = 0;
    let requests = mqtt.clean();
    let res = vec![1, 2, 3, 6];
    for (req, idx) in requests.iter().zip(res) {
        if let Request::Publish(publish) = req {
            assert_eq!(publish.pkid, idx);
        } else {
            unreachable!()
        }
    }

    mqtt.outgoing_pub = build_outgoing_pub();
    mqtt.last_puback = 6;
    let requests = mqtt.clean();
    let res = vec![1, 2, 3, 6];
    for (req, idx) in requests.iter().zip(res) {
        if let Request::Publish(publish) = req {
            assert_eq!(publish.pkid, idx);
        } else {
            unreachable!()
        }
    }
}

#[test]
fn resume_preserves_publish_ids_and_incoming_qos2_deduplication() {
    let mut state = MqttState::new(10, false);
    let original = state
        .handle_outgoing_packet(Request::Publish(Publish::new(
            "out",
            QoS::AtLeastOnce,
            "body",
        )))
        .unwrap()
        .unwrap();
    let Packet::Publish(original) = original else {
        panic!()
    };
    let mut incoming = Publish::new("in", QoS::ExactlyOnce, "body");
    incoming.pkid = 7;
    state
        .handle_incoming_packet(Packet::Publish(incoming.clone()))
        .unwrap();
    let (packets, interrupted) = state.resume_session();
    assert!(interrupted.is_empty());
    let Packet::Publish(resumed) = &packets[0] else {
        panic!()
    };
    assert_eq!(resumed.pkid, original.pkid);
    assert!(resumed.dup);
    state
        .handle_incoming_packet(Packet::PubAck(PubAck::new(original.pkid)))
        .unwrap();
    assert!(!state.pending());
    state.events.clear();
    incoming.dup = true;
    state
        .handle_incoming_packet(Packet::Publish(incoming))
        .unwrap();
    assert!(!state
        .events
        .iter()
        .any(|e| matches!(e, Event::Incoming(Packet::Publish(_)))));
}

fn publish(qos: QoS, id: u16, dup: bool) -> Publish {
    let mut p = Publish::new("fixture", qos, b"payload".to_vec());
    p.pkid = id;
    p.dup = dup;
    p
}

#[test]
fn manual_qos2_duplicates_preserve_application_ack_boundary() {
    let mut state = MqttState::new(4, true);
    assert_eq!(
        state
            .handle_incoming_packet(Packet::Publish(publish(QoS::ExactlyOnce, 42, false)))
            .unwrap(),
        None
    );
    assert!(matches!(
        state.events.pop_front(),
        Some(Event::Incoming(Packet::Publish(_)))
    ));
    assert_eq!(
        state
            .handle_incoming_packet(Packet::Publish(publish(QoS::ExactlyOnce, 42, true)))
            .unwrap(),
        None
    );
    assert!(state.events.is_empty());
    assert!(state
        .handle_incoming_packet(Packet::PubRel(PubRel::new(42)))
        .is_err());
    let ack = state.acknowledgement(42).unwrap();
    assert_eq!(
        state.handle_outgoing_packet(ack).unwrap(),
        Some(Packet::PubRec(PubRec::new(42)))
    );
    state.events.clear();
    assert_eq!(
        state
            .handle_incoming_packet(Packet::Publish(publish(QoS::ExactlyOnce, 42, true)))
            .unwrap(),
        Some(Packet::PubRec(PubRec::new(42)))
    );
    assert!(!state.events.iter().any(|e| matches!(e, Event::Incoming(_))));
    assert!(state.acknowledgement(42).is_err());
    for _ in 0..2 {
        assert_eq!(
            state
                .handle_incoming_packet(Packet::PubRel(PubRel::new(42)))
                .unwrap(),
            Some(Packet::PubComp(PubComp::new(42)))
        );
    }
    assert_eq!(state.incoming_inflight(), 0);
}

#[test]
fn manual_qos1_ack_is_correlated_and_cannot_be_repeated() {
    let mut state = MqttState::new(4, true);
    state
        .handle_incoming_packet(Packet::Publish(publish(QoS::AtLeastOnce, 42, false)))
        .unwrap();
    assert!(state
        .handle_outgoing_packet(Request::PubRec(PubRec::new(42)))
        .is_err());
    assert_eq!(state.incoming_inflight(), 1);
    let ack = state.acknowledgement(42).unwrap();
    assert_eq!(
        state.handle_outgoing_packet(ack).unwrap(),
        Some(Packet::PubAck(PubAck::new(42)))
    );
    assert!(state.acknowledgement(42).is_err());
    assert_eq!(state.incoming_inflight(), 0);
}

#[test]
fn subscribe_unsubscribe_and_qos2_release_share_identifier_space() {
    let mut state = MqttState::new(3, false);
    assert!(
        matches!(state.handle_outgoing_packet(Request::Publish(publish(QoS::ExactlyOnce, 0, false))).unwrap(), Some(Packet::Publish(p)) if p.pkid == 1)
    );
    state
        .handle_incoming_packet(Packet::PubRec(PubRec::new(1)))
        .unwrap();
    let sub = Subscribe {
        pkid: 0,
        filters: vec![SubscribeFilter::new("fixture".into(), QoS::AtMostOnce)],
    };
    assert!(
        matches!(state.handle_outgoing_packet(Request::Subscribe(sub.clone())).unwrap(), Some(Packet::Subscribe(p)) if p.pkid == 2)
    );
    assert!(
        matches!(state.handle_outgoing_packet(Request::Unsubscribe(Unsubscribe { pkid: 0, topics: vec!["fixture".into()] })).unwrap(), Some(Packet::Unsubscribe(p)) if p.pkid == 3)
    );
    assert!(state
        .handle_outgoing_packet(Request::Subscribe(sub))
        .is_err());
    assert!(state
        .handle_incoming_packet(Packet::SubAck(SubAck::new(
            1,
            vec![SubscribeReasonCode::Failure]
        )))
        .is_err());
    assert!(state
        .handle_incoming_packet(Packet::SubAck(SubAck::new(2, vec![])))
        .is_err());
    assert!(state
        .handle_incoming_packet(Packet::SubAck(SubAck::new(
            2,
            vec![SubscribeReasonCode::Success(QoS::AtLeastOnce)]
        )))
        .is_err());
    state
        .handle_incoming_packet(Packet::SubAck(SubAck::new(
            2,
            vec![SubscribeReasonCode::Failure],
        )))
        .unwrap();
    assert_eq!(state.next_available_packet_id().unwrap(), 2);
    assert!(state.pending());
    state
        .handle_incoming_packet(Packet::UnsubAck(UnsubAck::new(3)))
        .unwrap();
    state
        .handle_incoming_packet(Packet::PubComp(PubComp::new(1)))
        .unwrap();
    assert!(!state.pending());
}

#[test]
fn wrong_qos_ack_does_not_discard_pending_publish_and_pubrec_can_repeat() {
    let mut state = MqttState::new(2, false);
    state
        .handle_outgoing_packet(Request::Publish(publish(QoS::ExactlyOnce, 0, false)))
        .unwrap();
    assert!(state
        .handle_incoming_packet(Packet::PubAck(PubAck::new(1)))
        .is_err());
    assert_eq!(state.inflight(), 1);
    for _ in 0..2 {
        assert_eq!(
            state
                .handle_incoming_packet(Packet::PubRec(PubRec::new(1)))
                .unwrap(),
            Some(Packet::PubRel(PubRel::new(1)))
        );
    }
    state
        .handle_incoming_packet(Packet::PubComp(PubComp::new(1)))
        .unwrap();
    assert_eq!(state.inflight(), 0);
}

#[test]
fn unsupported_request_is_an_error_and_unsolicited_ping_is_rejected() {
    let mut state = MqttState::new(2, false);
    assert!(state
        .handle_outgoing_packet(Request::SubAck(SubAck::new(1, vec![])))
        .is_err());
    assert!(state.handle_incoming_packet(Packet::PingResp).is_err());
    assert!(state.events.is_empty());
    assert_eq!(
        state
            .handle_outgoing_packet(Request::PingReq(PingReq))
            .unwrap(),
        Some(Packet::PingReq)
    );
    state.handle_incoming_packet(Packet::PingResp).unwrap();
    assert!(!state.await_pingresp);
}

#[test]
fn explicit_release_is_bounded_and_repeating_it_does_not_inflate_state() {
    let mut state = MqttState::new(2, false);
    assert!(state
        .handle_outgoing_packet(Request::PubRel(PubRel::new(65535)))
        .is_err());
    for _ in 0..2 {
        state
            .handle_outgoing_packet(Request::PubRel(PubRel::new(2)))
            .unwrap();
        assert_eq!(state.inflight(), 1);
    }
    state
        .handle_incoming_packet(Packet::PubComp(PubComp::new(2)))
        .unwrap();
    assert!(!state.pending());
}
