use bytes::BytesMut;
use rumqttc::v5::mqttbytes::v5::{
    ConnAck, ConnAckProperties, Connect, ConnectProperties, ConnectReturnCode, UnsubAck,
    UnsubAckProperties, UnsubAckReason,
};

const USER_PROP_KEY: &str = "property";
const USER_PROP_VAL: &str = "a value thats really long............................................................................................................";

#[test]
fn connack_length_calculation() {
    let mut dummy_bytes = BytesMut::new();
    // Use user_properties to pad the size to exceed ~128 bytes to make the
    // remaining_length field in the packet be 2 bytes long.
    let connack_props = ConnAckProperties {
        session_expiry_interval: None,
        receive_max: None,
        max_qos: None,
        retain_available: None,
        max_packet_size: None,
        assigned_client_identifier: None,
        topic_alias_max: None,
        reason_string: None,
        user_properties: vec![(USER_PROP_KEY.into(), USER_PROP_VAL.into())],
        wildcard_subscription_available: None,
        subscription_identifiers_available: None,
        shared_subscription_available: None,
        server_keep_alive: None,
        response_information: None,
        server_reference: None,
        authentication_method: None,
        authentication_data: None,
    };

    let connack_pkt = ConnAck {
        session_present: false,
        code: ConnectReturnCode::Success,
        properties: Some(connack_props),
    };

    let size_from_size = connack_pkt.size();
    let size_from_write = connack_pkt.write(&mut dummy_bytes).unwrap();
    let size_from_bytes = dummy_bytes.len();

    assert_eq!(size_from_write, size_from_bytes);
    assert_eq!(size_from_size, size_from_bytes);
}
#[test]
fn connect_length_calculation() {
    let mut dummy_bytes = BytesMut::new();
    let mut connect_props = ConnectProperties::new();
    // Use user_properties to pad the size to exceed ~128 bytes to make the
    // remaining_length field in the packet be 2 bytes long.
    connect_props.user_properties = vec![(USER_PROP_KEY.into(), USER_PROP_VAL.into())];
    let connect_pkt = Connect {
        keep_alive: 5,
        client_id: "client".into(),
        clean_start: true,
        properties: Some(connect_props),
    };

    let reported_size = connect_pkt.write(&None, &None, &mut dummy_bytes).unwrap();
    let size_from_bytes = dummy_bytes.len();

    assert_eq!(reported_size, size_from_bytes);
}
#[test]
fn unsuback_length_calculation() {
    let mut dummy_bytes = BytesMut::new();
    // Use user_properties to pad the size to exceed ~128 bytes to make the
    // remaining_length field in the packet be 2 bytes long.
    let unsuback_props = UnsubAckProperties {
        reason_string: None,
        user_properties: vec![(USER_PROP_KEY.into(), USER_PROP_VAL.into())],
    };

    let unsuback_pkt = UnsubAck {
        pkid: 1,
        reasons: vec![UnsubAckReason::Success],
        properties: Some(unsuback_props),
    };

    let size_from_size = unsuback_pkt.size();
    let size_from_write = unsuback_pkt.write(&mut dummy_bytes).unwrap();
    let size_from_bytes = dummy_bytes.len();

    assert_eq!(size_from_write, size_from_bytes);
    assert_eq!(size_from_size, size_from_bytes);
}