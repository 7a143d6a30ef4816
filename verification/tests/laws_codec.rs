use bytes::{Bytes, BytesMut};
use rumqttc::v5::mqttbytes::v5::{
    check, Auth, AuthProperties, AuthReasonCode, ConnAck, ConnAckProperties, Connect,
    ConnectProperties, ConnectReturnCode, Disconnect, DisconnectProperties, DisconnectReasonCode,
    Filter, FixedHeader, LastWill, LastWillProperties, Login, Packet, PacketType, PingReq,
    PingResp, PropertyOrder, PubAck, PubAckProperties, PubAckReason, PubComp, PubCompReason,
    PubRec, PubRecReason, PubRel, PubRelReason, Publish, PublishProperties, RetainForwardRule,
    SubAck, Subscribe, SubscribeProperties, SubscribeReasonCode, UnsubAck, UnsubAckProperties,
    UnsubAckReason, Unsubscribe, UnsubscribeProperties,
};
use rumqttc::v5::mqttbytes::{qos, Error, QoS};

fn pair(k: &str, v: &str) -> (String, String) {
    (k.to_string(), v.to_string())
}

fn packets() -> Vec<(Packet, PropertyOrder)> {
    let none = PropertyOrder::default();
    let order = |packet: &[u8], will: &[u8]| PropertyOrder {
        packet: packet.to_vec(),
        will: will.to_vec(),
    };
    let mut publish = Publish::new(
        "a/b",
        QoS::ExactlyOnce,
        Bytes::from_static(b"payload"),
        Some(PublishProperties {
            payload_format_indicator: Some(1),
            message_expiry_interval: Some(0x01020304),
            topic_alias: Some(0x0506),
            response_topic: Some("r".into()),
            correlation_data: Some(Bytes::from_static(&[0, 255])),
            user_properties: vec![pair("k", "v"), pair("k", "w")],
            subscription_identifiers: vec![1, 128, 16384, 2097152, 268435455],
            content_type: Some("t".into()),
        }),
    );
    publish.pkid = 0x0102;
    publish.dup = true;
    publish.retain = true;
    vec![
        (
            Packet::Auth(Auth {
                code: AuthReasonCode::ReAuthenticate,
                properties: Some(AuthProperties {
                    method: Some("m".into()),
                    data: Some(Bytes::from_static(b"d")),
                    reason: Some("r".into()),
                    user_properties: vec![pair("a", "b")],
                }),
            }),
            order(&[38, 31, 22, 21], &[]),
        ),
        (
            Packet::Connect(
                Connect {
                    keep_alive: 0x1234,
                    client_id: "client".into(),
                    clean_start: true,
                    properties: Some(ConnectProperties {
                        session_expiry_interval: Some(1),
                        receive_maximum: Some(2),
                        max_packet_size: Some(3),
                        topic_alias_max: Some(4),
                        request_response_info: Some(1),
                        request_problem_info: Some(0),
                        user_properties: vec![pair("x", "y"), pair("z", "")],
                        authentication_method: Some("m".into()),
                        authentication_data: Some(Bytes::from_static(b"\0\x01")),
                    }),
                },
                Some(LastWill {
                    topic: Bytes::from_static(b"will"),
                    message: Bytes::from_static(b"bye"),
                    qos: QoS::AtLeastOnce,
                    retain: true,
                    properties: Some(LastWillProperties {
                        delay_interval: Some(7),
                        payload_format_indicator: Some(1),
                        message_expiry_interval: Some(8),
                        content_type: Some("c".into()),
                        response_topic: Some("r".into()),
                        correlation_data: Some(Bytes::from_static(b"z")),
                        user_properties: vec![pair("u", "v")],
                    }),
                }),
                Some(Login::new("user", "pass")),
            ),
            order(&[22, 38, 17, 33, 39, 34, 25, 23, 38, 21], &[38, 9, 8, 3, 2, 1, 24]),
        ),
        (
            Packet::ConnAck(ConnAck {
                session_present: true,
                code: ConnectReturnCode::Success,
                properties: Some(ConnAckProperties {
                    session_expiry_interval: Some(1),
                    receive_max: Some(2),
                    max_qos: Some(1),
                    retain_available: Some(1),
                    max_packet_size: Some(3),
                    assigned_client_identifier: Some("id".into()),
                    topic_alias_max: Some(4),
                    reason_string: Some("r".into()),
                    user_properties: vec![pair("a", "1"), pair("b", "2")],
                    wildcard_subscription_available: Some(1),
                    subscription_identifiers_available: Some(0),
                    shared_subscription_available: Some(1),
                    server_keep_alive: Some(5),
                    response_information: Some("i".into()),
                    server_reference: Some("s".into()),
                    authentication_method: Some("m".into()),
                    authentication_data: Some(Bytes::from_static(b"d")),
                }),
            }),
            order(
                &[38, 22, 21, 28, 26, 19, 42, 41, 40, 31, 34, 18, 39, 37, 36, 33, 17, 38],
                &[],
            ),
        ),
        (Packet::Publish(publish), order(&[3, 11, 11, 38, 11, 9, 8, 35, 2, 1, 11, 38, 11], &[])),
        (
            Packet::PubAck(PubAck {
                pkid: 1,
                reason: PubAckReason::QuotaExceeded,
                properties: Some(PubAckProperties {
                    reason_string: Some("full".into()),
                    user_properties: vec![pair("a", "b")],
                }),
            }),
            order(&[38, 31], &[]),
        ),
        (Packet::PubRec(PubRec { pkid: 2, reason: PubRecReason::NotAuthorized, properties: None }), none.clone()),
        (Packet::PubRel(PubRel { pkid: 3, reason: PubRelReason::PacketIdentifierNotFound, properties: None }), none.clone()),
        (Packet::PubComp(PubComp { pkid: 4, reason: PubCompReason::Success, properties: None }), none.clone()),
        (
            Packet::Subscribe(Subscribe {
                pkid: 5,
                filters: vec![
                    Filter::new("a/#", QoS::ExactlyOnce),
                    Filter {
                        path: "b".into(),
                        qos: QoS::AtLeastOnce,
                        nolocal: true,
                        preserve_retain: true,
                        retain_forward_rule: RetainForwardRule::Never,
                    },
                ],
                properties: Some(SubscribeProperties {
                    id: Some(300),
                    user_properties: vec![pair("a", "b")],
                }),
            }),
            order(&[38, 11], &[]),
        ),
        (
            Packet::SubAck(SubAck {
                pkid: 6,
                return_codes: vec![
                    SubscribeReasonCode::Success(QoS::ExactlyOnce),
                    SubscribeReasonCode::QuotaExceeded,
                ],
                properties: None,
            }),
            none.clone(),
        ),
        (
            Packet::Unsubscribe(Unsubscribe {
                pkid: 7,
                filters: vec!["a".into(), "b/c".into()],
                properties: Some(UnsubscribeProperties { user_properties: vec![pair("q", "r")] }),
            }),
            order(&[38], &[]),
        ),
        (
            Packet::UnsubAck(UnsubAck {
                pkid: 8,
                reasons: vec![UnsubAckReason::Success, UnsubAckReason::TopicFilterInvalid],
                properties: Some(UnsubAckProperties {
                    reason_string: Some("why".into()),
                    user_properties: vec![pair("a", "b")],
                }),
            }),
            order(&[38, 31], &[]),
        ),
        (
            Packet::Disconnect(Disconnect {
                reason_code: DisconnectReasonCode::ServerMoved,
                properties: Some(DisconnectProperties {
                    session_expiry_interval: Some(9),
                    reason_string: Some("moved".into()),
                    user_properties: vec![],
                    server_reference: Some("there".into()),
                }),
            }),
            order(&[28, 31, 17], &[]),
        ),
        (Packet::PingReq(PingReq), none.clone()),
        (Packet::PingResp(PingResp), none),
    ]
}

#[test]
fn every_packet_is_read_back_and_leaves_what_follows() {
    for (packet, _) in packets() {
        let mut stream = BytesMut::new();
        let n = packet.write(&mut stream, None).unwrap();
        assert_eq!(n, stream.len());
        assert_eq!(n, packet.size());
        stream.extend_from_slice(b"\xc0\x00rest");
        assert_eq!(Packet::read(&mut stream, None).unwrap(), packet);
        assert_eq!(&stream[..], b"\xc0\x00rest");
    }
}

#[test]
fn every_packet_is_read_back_in_the_order_asked_for() {
    for (packet, order) in packets() {
        let mut stream = BytesMut::new();
        let n = packet.write_with_property_order(&mut stream, Some(10_000), &order).unwrap();
        assert_eq!(n, stream.len());
        let decoded = Packet::read_with_property_order(&mut stream, None).unwrap();
        assert_eq!(decoded.packet, packet);
        assert_eq!(decoded.property_order, order);
        assert!(stream.is_empty());
    }
}

#[test]
fn an_order_that_misses_a_property_is_refused_and_appends_nothing() {
    for (packet, mut order) in packets() {
        order.packet.push(38);
        let mut stream = BytesMut::from(&b"before"[..]);
        assert_eq!(
            packet.write_with_property_order(&mut stream, None, &order),
            Err(Error::MalformedPacket)
        );
        assert_eq!(&stream[..], b"before");
    }
}

#[test]
fn two_octet_and_four_octet_numbers_stand_most_significant_first() {
    let mut stream = BytesMut::new();
    let mut publish = Publish::new(
        "t",
        QoS::AtLeastOnce,
        Bytes::new(),
        Some(PublishProperties {
            message_expiry_interval: Some(0x01020304),
            topic_alias: Some(0x0506),
            ..Default::default()
        }),
    );
    publish.pkid = 0x0708;
    Packet::Publish(publish).write(&mut stream, None).unwrap();
    assert_eq!(&stream[..], b"\x32\x0e\0\x01t\x07\x08\x08\x02\x01\x02\x03\x04\x23\x05\x06");
}

#[test]
fn variable_byte_integers_have_one_representation() {
    for (length, octets) in [
        (0usize, &[0u8][..]),
        (127, &[127][..]),
        (128, &[128, 1][..]),
        (16383, &[255, 127][..]),
        (16384, &[128, 128, 1][..]),
        (2097151, &[255, 255, 127][..]),
        (2097152, &[128, 128, 128, 1][..]),
        (268435455, &[255, 255, 255, 127][..]),
    ] {
        let mut header = vec![0x30u8];
        header.extend_from_slice(octets);
        let parsed = FixedHeader::parse(&header).unwrap();
        assert_eq!(parsed.remaining_length(), length);
        assert_eq!(parsed.header_length(), header.len());
        assert_eq!(parsed.frame_length(), header.len() + length);
        header.extend_from_slice(b"whatever follows");
        assert_eq!(FixedHeader::parse(&header).unwrap(), parsed);
    }
    for wire in [&[0x30u8, 128, 0][..], &[0x30, 128, 128, 0][..], &[0x30, 255, 255, 255, 128][..]] {
        assert_eq!(FixedHeader::parse(wire), Err(Error::MalformedRemainingLength));
    }
}

#[test]
fn fixed_headers_name_their_packet_type() {
    let header = FixedHeader::new(0x62, 1, 2);
    assert_eq!(header.packet_type(), Ok(PacketType::PubRel));
    assert_eq!(header.header_length(), 2);
    assert_eq!(header.frame_length(), 4);
    assert_eq!(FixedHeader::parse(b"\x60\x02"), Err(Error::MalformedPacket));
    assert_eq!(FixedHeader::parse(b"\x00\x00"), Err(Error::InvalidPacketType(0)));
    assert_eq!(FixedHeader::parse(b"\x36\x00"), Err(Error::MalformedPacket));
    assert_eq!(FixedHeader::parse(b"\x38\x00"), Err(Error::MalformedPacket));
    assert_eq!(FixedHeader::parse(b"\x3b\x00").unwrap().packet_type(), Ok(PacketType::Publish));
}

#[test]
fn check_waits_for_the_frame_and_refuses_large_ones() {
    assert_eq!(check(b"", None), Err(Error::InsufficientBytes(2)));
    assert_eq!(check(b"\xc0", None), Err(Error::InsufficientBytes(1)));
    assert_eq!(check(b"\x30\x80", None), Err(Error::InsufficientBytes(1)));
    assert_eq!(check(b"\x30\x05ab", None), Err(Error::InsufficientBytes(3)));
    assert_eq!(
        check(b"\x30\x05", Some(4)),
        Err(Error::PayloadSizeLimitExceeded { pkt_size: 5, max: 4 })
    );
    assert_eq!(check(b"\x30\x05abcdefg", Some(5)).unwrap().frame_length(), 7);
}

#[test]
fn a_frame_that_is_too_short_is_left_and_a_malformed_one_is_taken_out() {
    let mut stream = BytesMut::from(&b"\x40\x02\0"[..]);
    assert_eq!(Packet::read(&mut stream, None), Err(Error::InsufficientBytes(1)));
    assert_eq!(&stream[..], b"\x40\x02\0");
    let mut stream = BytesMut::from(&b"\x40\x03\0\x01\xee\xc0\x00"[..]);
    assert_eq!(Packet::read(&mut stream, None), Err(Error::InvalidReason(0xee)));
    assert_eq!(Packet::read(&mut stream, None), Ok(Packet::PingReq(PingReq)));
    assert!(Packet::read_frame_with_property_order(Bytes::from_static(b"\xc0\x00x"), None).is_err());
}

#[test]
fn each_error_of_the_reader_has_its_input() {
    for (wire, error) in [
        (&b"\x20\x03\0\x01\0"[..], Error::InvalidConnectReturnCode(1)),
        (&b"\xe0\x01\x01"[..], Error::InvalidReason(1)),
        (&b"\x10\x0d\0\x04MQTX\x05\0\0\0\0\0\0"[..], Error::InvalidProtocol),
        (&b"\x10\x0d\0\x04MQTT\x04\0\0\0\0\0\0"[..], Error::InvalidProtocolLevel(4)),
        (&b"\x10\x0d\0\x04MQTT\x05\x20\0\0\0\0\0"[..], Error::IncorrectPacketFormat),
        (&b"\x10\x12\0\x04MQTT\x05\x1c\0\0\0\0\0\0\0\0\0\0"[..], Error::InvalidQoS(3)),
        (&b"\x82\x07\0\x01\0\0\x01a\x30"[..], Error::InvalidRetainForwardRule(3)),
        (&b"\x82\x07\0\x01\0\0\x01a\x03"[..], Error::InvalidQoS(3)),
        (&b"\x82\x03\0\x01\0"[..], Error::EmptySubscription),
        (&b"\xa2\x03\0\x01\0"[..], Error::EmptySubscription),
        (&b"\x90\x04\0\x01\0\x03"[..], Error::InvalidSubscribeReasonCode(3)),
        (&b"\xb0\x04\0\x01\0\x12"[..], Error::InvalidSubscribeReasonCode(0x12)),
        (&b"\xb0\x03\0\x01\0"[..], Error::MalformedPacket),
        (&b"\x32\x06\0\x01t\0\0\0"[..], Error::PacketIdZero),
        (&b"\x30\0"[..], Error::PayloadRequired),
        (&b"\xc0\x01\0"[..], Error::MalformedPacket),
        (&b"\xf0\x06\x18\x04\x15\0\x01\xff"[..], Error::TopicNotUtf8),
        (&b"\xf0\x06\x18\x04\x15\0\x01\0"[..], Error::MalformedPacket),
        (&b"\xf0\x06\x18\x04\x15\0\x09x"[..], Error::BoundaryCrossed(9)),
        (&b"\xf0\x04\x18\x02\x40\0"[..], Error::InvalidPropertyType(0x40)),
        (&b"\xf0\x04\x18\x02\x05\0"[..], Error::InvalidPropertyType(5)),
        (&b"\xf0\x04\x18\x02\x01\0"[..], Error::InvalidPropertyType(1)),
        (&b"\xf0\x01\x17"[..], Error::MalformedPacket),
        (&b"\xf0\x03\x18\x05\0"[..], Error::MalformedPacket),
        (&b"\xf0\x04\x18\x80\0\0"[..], Error::MalformedRemainingLength),
        (&b"\xf0\x02\x18\x80"[..], Error::InsufficientBytes(1)),
    ] {
        assert_eq!(Packet::read(&mut BytesMut::from(wire), None), Err(error), "{wire:02x?}");
    }
}

#[test]
fn writers_refuse_what_does_not_fit() {
    let packet = Packet::Auth(Auth {
        code: AuthReasonCode::Continue,
        properties: Some(AuthProperties { method: Some("a\0".into()), ..Default::default() }),
    });
    let mut out = BytesMut::from(&b"x"[..]);
    assert_eq!(packet.write(&mut out, None), Err(Error::MalformedPacket));
    // what stands in front of the properties was appended
    assert_eq!(&out[..], b"x\xf0\x07\x18");
    let packet = Packet::Auth(Auth {
        code: AuthReasonCode::Continue,
        properties: Some(AuthProperties { method: Some("a".repeat(65536)), ..Default::default() }),
    });
    assert_eq!(packet.write(&mut BytesMut::new(), None), Err(Error::MalformedPacket));
    let publish = Publish::new("t", QoS::AtLeastOnce, Bytes::new(), None);
    assert_eq!(
        Packet::Publish(publish).write(&mut BytesMut::new(), None),
        Err(Error::PacketIdZero)
    );
    assert_eq!(
        Packet::PingReq(PingReq).write(&mut BytesMut::new(), Some(1)),
        Err(Error::OutgoingPacketTooLarge { pkt_size: 2, max: 1 })
    );
    let large = Publish::new("t", QoS::AtMostOnce, Bytes::from(vec![0; 268_435_455]), None);
    let mut out = BytesMut::new();
    assert_eq!(Packet::Publish(large).write(&mut out, None), Err(Error::PayloadTooLong));
    assert_eq!(&out[..], b"\x30");
}

#[test]
fn sections_are_isolated_from_what_follows() {
    // the last property is cut off by the end of the section, though the payload would complete it
    let mut stream = BytesMut::from(&b"\x30\x09\0\x01t\x02\x23\x01\x02xy"[..]);
    assert_eq!(Packet::read(&mut stream, None), Err(Error::MalformedPacket));
    let Packet::Publish(p) =
        Packet::read(&mut BytesMut::from(&b"\x30\x09\0\x01t\x03\x23\x01\x02xy"[..]), None).unwrap()
    else {
        panic!()
    };
    assert_eq!(p.properties.unwrap().topic_alias, Some(0x0102));
    assert_eq!(&p.payload[..], b"xy");
}

#[test]
fn empty_properties_are_read_as_none() {
    let packet = Packet::PubAck(PubAck {
        pkid: 9,
        reason: PubAckReason::Success,
        properties: Some(PubAckProperties::default()),
    });
    let mut out = BytesMut::new();
    packet.write(&mut out, None).unwrap();
    assert_eq!(&out[..], b"\x40\x04\0\x09\0\0");
    assert_eq!(Packet::read(&mut out, None).unwrap(), Packet::PubAck(PubAck::new(9, None)));
}

#[test]
fn codes_and_numbers_stand_for_each_other() {
    for num in 0..=255u8 {
        if let Ok(code) = ConnectReturnCode::try_from(num) {
            assert_eq!(code.code(), num);
        }
        if let Ok(reason) = UnsubAckReason::try_from(num) {
            assert_eq!(u8::from(reason), num);
        }
        if let Ok(reason) = PubRecReason::try_from(num) {
            assert_eq!(u8::from(reason), num);
        }
    }
    assert_eq!(ConnectReturnCode::try_from(1), Err(Error::InvalidConnectReturnCode(1)));
    assert_eq!(UnsubAckReason::try_from(1), Err(Error::InvalidSubscribeReasonCode(1)));
    assert_eq!(SubscribeReasonCode::try_from(2), Ok(SubscribeReasonCode::Success(QoS::ExactlyOnce)));
    assert_eq!(qos(1), Some(QoS::AtLeastOnce));
    assert_eq!(qos(3), None);
}

#[test]
fn parts_of_a_connect_packet_are_read_and_written_alone() {
    let will = LastWill::new("t", b"m".to_vec(), QoS::ExactlyOnce, false, None);
    let mut out = BytesMut::new();
    assert_eq!(will.write(&mut out), Ok(0x14));
    assert_eq!(&out[..], b"\0\0\x01t\0\x01m");
    let mut bytes = out.freeze();
    assert_eq!(LastWill::read(0x14, &mut bytes), Ok(Some(will)));
    assert!(bytes.is_empty());
    assert_eq!(LastWill::read(0, &mut bytes), Ok(None));
    let login = Login { username: None, password: Some(Bytes::from_static(b"\xff")) };
    let mut out = BytesMut::new();
    assert_eq!(login.write(&mut out), 0x40);
    assert_eq!(&out[..], b"\0\x01\xff");
    assert_eq!(Login::read(0x40, &mut out.freeze()), Ok(Some(login)));
    assert_eq!(Login::read(0x3f, &mut Bytes::new()), Ok(None));
    let mut bytes = Bytes::from_static(b"\x05\x11\0\0\0\x09rest");
    let properties = ConnectProperties::read(&mut bytes).unwrap().unwrap();
    assert_eq!(properties.session_expiry_interval, Some(9));
    assert_eq!(&bytes[..], b"rest");
    let mut out = BytesMut::new();
    properties.write(&mut out).unwrap();
    assert_eq!(&out[..], b"\x05\x11\0\0\0\x09");
}
