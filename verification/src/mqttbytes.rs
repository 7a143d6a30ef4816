//! Types shared by all MQTT 3.1.1 packets.
use vstd::prelude::*;

pub mod v4;

verus! {

/// Error during serialization and deserialization
#[derive(Debug, Clone, Copy, PartialEq, Eq)]
pub enum Error {
    InvalidConnectReturnCode(u8),
    InvalidProtocol,
    InvalidProtocolLevel(u8),
    IncorrectPacketFormat,
    InvalidPacketType(u8),
    InvalidQoS(u8),
    InvalidSubscribeReasonCode(u8),
    PacketIdZero,
    EmptySubscription,
    PayloadSizeIncorrect,
    PayloadTooLong,
    PayloadSizeLimitExceeded(usize),
    PayloadRequired,
    TopicNotUtf8,
    BoundaryCrossed(usize),
    MalformedPacket,
    MalformedRemainingLength,
    /// More bytes required to frame packet. Argument
    /// implies minimum additional bytes required to
    /// proceed further
    InsufficientBytes(usize),
    OutgoingPacketTooLarge { pkt_size: usize, max: usize },
}

/// Quality of service
#[derive(Debug, Clone, Copy, PartialEq, Eq, PartialOrd, Structural)]
pub enum QoS {
    AtMostOnce,
    AtLeastOnce,
    ExactlyOnce,
}

/// The number of a quality of service.
pub open spec fn qos_number(qos: QoS) -> u8 {
    match qos {
        QoS::AtMostOnce => 0,
        QoS::AtLeastOnce => 1,
        QoS::ExactlyOnce => 2,
    }
}

/// The number of a quality of service.
pub(crate) fn qos_code(qos: QoS) -> (r: u8)
    ensures
        r == qos_number(qos),
{
    match qos {
        QoS::AtMostOnce => 0,
        QoS::AtLeastOnce => 1,
        QoS::ExactlyOnce => 2,
    }
}

} // verus!
