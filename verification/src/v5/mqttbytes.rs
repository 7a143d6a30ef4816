//! Types shared by all MQTT 5 packets.
use vstd::prelude::*;

pub mod v5;

verus! {

/// Error during serialization and deserialization
#[allow(inconsistent_fields)]
#[derive(Debug, Clone, Copy, PartialEq, Eq)]
pub enum Error {
    InvalidConnectReturnCode(u8),
    InvalidReason(u8),
    InvalidRemainingLength(usize),
    InvalidProtocol,
    InvalidProtocolLevel(u8),
    IncorrectPacketFormat,
    InvalidPacketType(u8),
    InvalidRetainForwardRule(u8),
    InvalidQoS(u8),
    InvalidSubscribeReasonCode(u8),
    PacketIdZero,
    EmptySubscription,
    SubscriptionIdZero,
    PayloadSizeIncorrect,
    PayloadTooLong,
    PayloadSizeLimitExceeded { pkt_size: usize, max: u32 },
    PayloadRequired,
    PayloadNotUtf8,
    TopicNotUtf8,
    BoundaryCrossed(usize),
    MalformedPacket,
    MalformedRemainingLength,
    InvalidPropertyType(u8),
    /// More bytes required to frame packet. Argument
    /// implies minimum additional bytes required to
    /// proceed further
    InsufficientBytes(usize),
    OutgoingPacketTooLarge { pkt_size: u32, max: u32 },
}

/// Quality of service
#[derive(Debug, Clone, Copy, PartialEq, Eq, PartialOrd, Structural)]
pub enum QoS {
    AtMostOnce,
    AtLeastOnce,
    ExactlyOnce,
}

/// The number that stands for a quality of service on the wire.
pub open spec fn qos_number(qos: QoS) -> u8 {
    match qos {
        QoS::AtMostOnce => 0,
        QoS::AtLeastOnce => 1,
        QoS::ExactlyOnce => 2,
    }
}

/// The quality of service that a number on the wire stands for.
pub open spec fn qos_of(num: u8) -> Option<QoS> {
    if num == 0 {
        Some(QoS::AtMostOnce)
    } else if num == 1 {
        Some(QoS::AtLeastOnce)
    } else if num == 2 {
        Some(QoS::ExactlyOnce)
    } else {
        None
    }
}

/// Maps a number to QoS
pub fn qos(num: u8) -> (r: Option<QoS>)
    ensures
        r == qos_of(num),
{
    match num {
        0 => Some(QoS::AtMostOnce),
        1 => Some(QoS::AtLeastOnce),
        2 => Some(QoS::ExactlyOnce),
        _ => None,
    }
}

/// The number that stands for a quality of service on the wire.
pub(crate) fn qos_code(qos: QoS) -> (r: u8)
    ensures
        r == qos_number(qos),
{
    match qos {
        QoS::AtMostOnce => 0,
        QoS::AtLeastOnce => 1,
        QoS::ExactlyOnce => 2,
    }
}

} // verus!
