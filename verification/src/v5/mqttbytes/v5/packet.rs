//! Packets as a whole: framing, reading, writing.
use bytes::{Bytes, BytesMut};
use vstd::prelude::*;

use crate::octets::{buffered, has_room, octets};
use crate::v5::mqttbytes::{Error, QoS};
use super::auth::{auth_round_trip, Auth, AuthModel, AuthReasonCode};
use super::connack::{connack_round_trip, ConnAck, ConnAckModel, ConnectReturnCode};
use super::connect::{
    connect_model, connect_round_trip, readable_login, readable_will, Connect, ConnectModel,
    LastWill, Login,
};
use super::disconnect::{disconnect_round_trip, Disconnect, DisconnectModel, DisconnectReasonCode};
use super::frame::{
    check, checked_header, frame_len, frame_round_trip, header_at, header_needs_no_payload, type_of,
    FixedHeader, PacketType,
};
use super::ordered::PropertyOrder;
use super::ping::{PingReq, PingResp};
use super::property::entries_fit;
use super::puback::{puback_round_trip, PubAck, PubAckModel};
use super::pubcomp::{pubcomp_round_trip, PubComp, PubCompModel};
use super::publish::{
    publish_entries_are_faithful, publish_round_trip, Publish, PublishModel, PublishWire,
};
use super::pubrec::{pubrec_round_trip, PubRec, PubRecModel};
use super::pubrel::{pubrel_round_trip, PubRel, PubRelModel};
use super::suback::{suback_round_trip, SubAck, SubAckModel, SubscribeReasonCode};
use super::subscribe::{subscribe_round_trip, Subscribe, SubscribeModel};
use super::unsuback::{unsuback_round_trip, UnsubAck, UnsubAckModel};
use super::unsubscribe::{unsubscribe_round_trip, Unsubscribe, UnsubscribeModel};
use super::wire::{text_fits, varint, varint_is_unique, varint_len, varint_round_trip, MAX_VARINT};

verus! {

#[derive(Clone, Debug, PartialEq, Eq)]
pub enum Packet {
    Auth(Auth),
    Connect(Connect, Option<LastWill>, Option<Login>),
    ConnAck(ConnAck),
    Publish(Publish),
    PubAck(PubAck),
    PingReq(PingReq),
    PingResp(PingResp),
    Subscribe(Subscribe),
    SubAck(SubAck),
    PubRec(PubRec),
    PubRel(PubRel),
    PubComp(PubComp),
    Unsubscribe(Unsubscribe),
    UnsubAck(UnsubAck),
    Disconnect(Disconnect),
}

/// What a packet holds.
#[verifier::ext_equal]
pub enum PacketModel {
    Auth(AuthModel),
    Connect(ConnectModel),
    ConnAck(ConnAckModel),
    Publish(PublishModel),
    PubAck(PubAckModel),
    PingReq,
    PingResp,
    Subscribe(SubscribeModel),
    SubAck(SubAckModel),
    PubRec(PubRecModel),
    PubRel(PubRelModel),
    PubComp(PubCompModel),
    Unsubscribe(UnsubscribeModel),
    UnsubAck(UnsubAckModel),
    Disconnect(DisconnectModel),
}

/// A packet on the wire: what it holds, with the entries of all properties in order.
#[verifier::ext_equal]
pub enum WirePacket {
    Auth(AuthModel),
    Connect(ConnectModel),
    ConnAck(ConnAckModel),
    Publish(PublishWire),
    PubAck(PubAckModel),
    PingReq,
    PingResp,
    Subscribe(SubscribeModel),
    SubAck(SubAckModel),
    PubRec(PubRecModel),
    PubRel(PubRelModel),
    PubComp(PubCompModel),
    Unsubscribe(UnsubscribeModel),
    UnsubAck(UnsubAckModel),
    Disconnect(DisconnectModel),
}

impl View for Packet {
    type V = PacketModel;

    open spec fn view(&self) -> PacketModel {
        match *self {
            Packet::Auth(p) => PacketModel::Auth(p@),
            Packet::Connect(c, w, l) => PacketModel::Connect(connect_model(c, w, l)),
            Packet::ConnAck(p) => PacketModel::ConnAck(p@),
            Packet::Publish(p) => PacketModel::Publish(p@),
            Packet::PubAck(p) => PacketModel::PubAck(p@),
            Packet::PingReq(_) => PacketModel::PingReq,
            Packet::PingResp(_) => PacketModel::PingResp,
            Packet::Subscribe(p) => PacketModel::Subscribe(p@),
            Packet::SubAck(p) => PacketModel::SubAck(p@),
            Packet::PubRec(p) => PacketModel::PubRec(p@),
            Packet::PubRel(p) => PacketModel::PubRel(p@),
            Packet::PubComp(p) => PacketModel::PubComp(p@),
            Packet::Unsubscribe(p) => PacketModel::Unsubscribe(p@),
            Packet::UnsubAck(p) => PacketModel::UnsubAck(p@),
            Packet::Disconnect(p) => PacketModel::Disconnect(p@),
        }
    }
}

impl PacketModel {
    /// The packet with the entries of its properties in the order of the typed fields.
    pub open spec fn wire(self) -> WirePacket {
        match self {
            PacketModel::Auth(p) => WirePacket::Auth(p),
            PacketModel::Connect(p) => WirePacket::Connect(p),
            PacketModel::ConnAck(p) => WirePacket::ConnAck(p),
            PacketModel::Publish(p) => WirePacket::Publish(p.wire()),
            PacketModel::PubAck(p) => WirePacket::PubAck(p),
            PacketModel::PingReq => WirePacket::PingReq,
            PacketModel::PingResp => WirePacket::PingResp,
            PacketModel::Subscribe(p) => WirePacket::Subscribe(p),
            PacketModel::SubAck(p) => WirePacket::SubAck(p),
            PacketModel::PubRec(p) => WirePacket::PubRec(p),
            PacketModel::PubRel(p) => WirePacket::PubRel(p),
            PacketModel::PubComp(p) => WirePacket::PubComp(p),
            PacketModel::Unsubscribe(p) => WirePacket::Unsubscribe(p),
            PacketModel::UnsubAck(p) => WirePacket::UnsubAck(p),
            PacketModel::Disconnect(p) => WirePacket::Disconnect(p),
        }
    }
}

impl WirePacket {
    /// The length of the fields behind the fixed header.
    pub open spec fn len(self) -> nat {
        match self {
            WirePacket::Auth(p) => p.len(),
            WirePacket::Connect(p) => p.len(),
            WirePacket::ConnAck(p) => p.len(),
            WirePacket::Publish(p) => p.len(),
            WirePacket::PubAck(p) => p.len(),
            WirePacket::PingReq => 0,
            WirePacket::PingResp => 0,
            WirePacket::Subscribe(p) => p.len(),
            WirePacket::SubAck(p) => p.len(),
            WirePacket::PubRec(p) => p.len(),
            WirePacket::PubRel(p) => p.len(),
            WirePacket::PubComp(p) => p.len(),
            WirePacket::Unsubscribe(p) => p.len(),
            WirePacket::UnsubAck(p) => p.len(),
            WirePacket::Disconnect(p) => p.len(),
        }
    }

    /// The length of the packet.
    pub open spec fn size(self) -> nat {
        frame_len(self.len())
    }

    /// What a writer of the packet returns and appends.
    pub open spec fn encode(self, order: Option<Seq<u8>>, will_order: Option<Seq<u8>>) -> (
        Result<usize, Error>,
        Seq<u8>,
    ) {
        match self {
            WirePacket::Auth(p) => p.encode(order),
            WirePacket::Connect(p) => p.encode(order, will_order),
            WirePacket::ConnAck(p) => p.encode(order),
            WirePacket::Publish(p) => p.encode(order),
            WirePacket::PubAck(p) => p.encode(order),
            WirePacket::PingReq => (Ok(2), seq![0xC0u8, 0u8]),
            WirePacket::PingResp => (Ok(2), seq![0xD0u8, 0u8]),
            WirePacket::Subscribe(p) => p.encode(order),
            WirePacket::SubAck(p) => p.encode(order),
            WirePacket::PubRec(p) => p.encode(order),
            WirePacket::PubRel(p) => p.encode(order),
            WirePacket::PubComp(p) => p.encode(order),
            WirePacket::Unsubscribe(p) => p.encode(order),
            WirePacket::UnsubAck(p) => p.encode(order),
            WirePacket::Disconnect(p) => p.encode(order),
        }
    }

    /// Whether the packet is over a limit.
    pub open spec fn exceeds(self, max_size: Option<u32>) -> bool {
        max_size matches Some(max) && self.size() > max
    }

    /// The refusal of a packet that is over the limit `max`.
    pub open spec fn too_large(self, max: u32) -> Error {
        Error::OutgoingPacketTooLarge { pkt_size: (self.size() as usize) as u32, max }
    }

    /// What a writer with a limit returns and appends.
    pub open spec fn encode_within(self, max_size: Option<u32>) -> (Result<usize, Error>, Seq<u8>) {
        if self.exceeds(max_size) {
            (Err(self.too_large(max_size->0)), Seq::empty())
        } else {
            self.encode(None, None)
        }
    }

    /// Whether the packet has properties of its own.
    pub open spec fn has_properties(self) -> bool {
        match self {
            WirePacket::Auth(p) => p.properties is Some,
            WirePacket::Connect(p) => p.properties is Some,
            WirePacket::ConnAck(p) => p.properties is Some,
            WirePacket::Publish(p) => p.properties is Some,
            WirePacket::PubAck(p) => p.properties is Some,
            WirePacket::PingReq => false,
            WirePacket::PingResp => false,
            WirePacket::Subscribe(p) => p.properties is Some,
            WirePacket::SubAck(p) => p.properties is Some,
            WirePacket::PubRec(p) => p.properties is Some,
            WirePacket::PubRel(p) => p.properties is Some,
            WirePacket::PubComp(p) => p.properties is Some,
            WirePacket::Unsubscribe(p) => p.properties is Some,
            WirePacket::UnsubAck(p) => p.properties is Some,
            WirePacket::Disconnect(p) => p.properties is Some,
        }
    }

    /// Whether the packet has a will with properties.
    pub open spec fn has_will_properties(self) -> bool {
        self matches WirePacket::Connect(p) && p.will matches Some(w) && w.properties is Some
    }

    /// What a writer with a limit and an order of the properties returns and appends. An order
    /// that does not name each property once is refused, and a refusal appends nothing.
    pub open spec fn encode_ordered(
        self,
        max_size: Option<u32>,
        order: Seq<u8>,
        will_order: Seq<u8>,
    ) -> (Result<usize, Error>, Seq<u8>) {
        if self.exceeds(max_size) {
            (Err(self.too_large(max_size->0)), Seq::empty())
        } else if !self.has_properties() && order.len() > 0 || !self.has_will_properties()
            && will_order.len() > 0 {
            (Err(Error::MalformedPacket), Seq::empty())
        } else {
            match self.encode(Some(order), Some(will_order)) {
                (Ok(n), out) => (Ok(n), out),
                (Err(e), _) => (Err(e), Seq::empty()),
            }
        }
    }

    /// The packet that a frame spells. `header` is its fixed header.
    pub open spec fn decode(header: FixedHeader, frame: Seq<u8>) -> Result<WirePacket, Error> {
        match type_of(header.byte1) {
            Err(e) => Err(e),
            Ok(packet_type) => if header.remaining_len == 0 {
                WirePacket::decode_empty(packet_type)
            } else {
                WirePacket::decode_body(
                    packet_type,
                    header.byte1,
                    frame.skip(header.fixed_header_len as int),
                )
            },
        }
    }

    /// The packet that a fixed header alone spells.
    pub open spec fn decode_empty(packet_type: PacketType) -> Result<WirePacket, Error> {
        match packet_type {
            PacketType::PingReq => Ok(WirePacket::PingReq),
            PacketType::PingResp => Ok(WirePacket::PingResp),
            PacketType::Disconnect => Ok(
                WirePacket::Disconnect(
                    DisconnectModel {
                        reason_code: DisconnectReasonCode::NormalDisconnection,
                        properties: None,
                    },
                ),
            ),
            PacketType::Auth => Ok(
                WirePacket::Auth(AuthModel { code: AuthReasonCode::Success, properties: None }),
            ),
            _ => Err(Error::PayloadRequired),
        }
    }

    /// The packet that the octets behind a fixed header spell.
    pub open spec fn decode_body(packet_type: PacketType, byte1: u8, body: Seq<u8>) -> Result<
        WirePacket,
        Error,
    > {
        match packet_type {
            PacketType::PingReq => Err(Error::MalformedPacket),
            PacketType::PingResp => Err(Error::MalformedPacket),
            PacketType::Connect => match ConnectModel::decode(body) {
                Ok(p) => Ok(WirePacket::Connect(p)),
                Err(e) => Err(e),
            },
            PacketType::Auth => match AuthModel::decode(body) {
                Ok(p) => Ok(WirePacket::Auth(p)),
                Err(e) => Err(e),
            },
            PacketType::ConnAck => match ConnAckModel::decode(body) {
                Ok(p) => Ok(WirePacket::ConnAck(p)),
                Err(e) => Err(e),
            },
            PacketType::Publish => match PublishWire::decode(byte1, body) {
                Ok(p) => Ok(WirePacket::Publish(p)),
                Err(e) => Err(e),
            },
            PacketType::PubAck => match PubAckModel::decode(body) {
                Ok(p) => Ok(WirePacket::PubAck(p)),
                Err(e) => Err(e),
            },
            PacketType::Subscribe => match SubscribeModel::decode(body) {
                Ok(p) => Ok(WirePacket::Subscribe(p)),
                Err(e) => Err(e),
            },
            PacketType::SubAck => match SubAckModel::decode(body) {
                Ok(p) => Ok(WirePacket::SubAck(p)),
                Err(e) => Err(e),
            },
            PacketType::PubRec => match PubRecModel::decode(body) {
                Ok(p) => Ok(WirePacket::PubRec(p)),
                Err(e) => Err(e),
            },
            PacketType::PubRel => match PubRelModel::decode(body) {
                Ok(p) => Ok(WirePacket::PubRel(p)),
                Err(e) => Err(e),
            },
            PacketType::PubComp => match PubCompModel::decode(body) {
                Ok(p) => Ok(WirePacket::PubComp(p)),
                Err(e) => Err(e),
            },
            PacketType::Unsubscribe => match UnsubscribeModel::decode(body) {
                Ok(p) => Ok(WirePacket::Unsubscribe(p)),
                Err(e) => Err(e),
            },
            PacketType::UnsubAck => match UnsubAckModel::decode(body) {
                Ok(p) => Ok(WirePacket::UnsubAck(p)),
                Err(e) => Err(e),
            },
            PacketType::Disconnect => match DisconnectModel::decode(body) {
                Ok(p) => Ok(WirePacket::Disconnect(p)),
                Err(e) => Err(e),
            },
        }
    }

    /// Whether a reader looks at the octets behind a fixed header.
    pub open spec fn has_fields(header: FixedHeader) -> bool {
        &&& header.remaining_len != 0
        &&& type_of(header.byte1) matches Ok(packet_type) && packet_type != PacketType::PingReq
            && packet_type != PacketType::PingResp
    }

    /// The identifiers of properties that a reader of a frame has noted when it ends or stops.
    pub open spec fn noted(header: FixedHeader, frame: Seq<u8>) -> Seq<u8> {
        let body = frame.skip(header.fixed_header_len as int);
        if !WirePacket::has_fields(header) {
            Seq::empty()
        } else {
            match type_of(header.byte1)->Ok_0 {
                PacketType::Connect => ConnectModel::noted(body),
                PacketType::Auth => AuthModel::noted(body),
                PacketType::ConnAck => ConnAckModel::noted(body),
                PacketType::Publish => PublishWire::noted(header.byte1, body),
                PacketType::PubAck => PubAckModel::noted(body),
                PacketType::Subscribe => SubscribeModel::noted(body),
                PacketType::SubAck => SubAckModel::noted(body),
                PacketType::PubRec => PubRecModel::noted(body),
                PacketType::PubRel => PubRelModel::noted(body),
                PacketType::PubComp => PubCompModel::noted(body),
                PacketType::Unsubscribe => UnsubscribeModel::noted(body),
                PacketType::UnsubAck => UnsubAckModel::noted(body),
                PacketType::Disconnect => DisconnectModel::noted(body),
                PacketType::PingReq => Seq::empty(),
                PacketType::PingResp => Seq::empty(),
            }
        }
    }

    /// The identifiers of properties of a will that a reader of a frame has noted when it ends or
    /// stops.
    pub open spec fn noted_will(header: FixedHeader, frame: Seq<u8>) -> Seq<u8> {
        if WirePacket::has_fields(header) && type_of(header.byte1) == Ok::<PacketType, Error>(
            PacketType::Connect,
        ) {
            ConnectModel::noted_will(frame.skip(header.fixed_header_len as int))
        } else {
            Seq::empty()
        }
    }

    /// The packet with the entries in the order of the typed fields.
    pub open spec fn canonical(self) -> WirePacket {
        match self {
            WirePacket::Auth(p) => WirePacket::Auth(p.canonical()),
            WirePacket::Connect(p) => WirePacket::Connect(p.canonical()),
            WirePacket::ConnAck(p) => WirePacket::ConnAck(p.canonical()),
            WirePacket::Publish(p) => WirePacket::Publish(p.canonical()),
            WirePacket::PubAck(p) => WirePacket::PubAck(p.canonical()),
            WirePacket::PingReq => WirePacket::PingReq,
            WirePacket::PingResp => WirePacket::PingResp,
            WirePacket::Subscribe(p) => WirePacket::Subscribe(p.canonical()),
            WirePacket::SubAck(p) => WirePacket::SubAck(p.canonical()),
            WirePacket::PubRec(p) => WirePacket::PubRec(p.canonical()),
            WirePacket::PubRel(p) => WirePacket::PubRel(p.canonical()),
            WirePacket::PubComp(p) => WirePacket::PubComp(p.canonical()),
            WirePacket::Unsubscribe(p) => WirePacket::Unsubscribe(p.canonical()),
            WirePacket::UnsubAck(p) => WirePacket::UnsubAck(p.canonical()),
            WirePacket::Disconnect(p) => WirePacket::Disconnect(p.canonical()),
        }
    }

    /// The identifiers of the properties of the packet, in order.
    pub open spec fn order(self) -> Seq<u8> {
        match self {
            WirePacket::Auth(p) => p.order(),
            WirePacket::Connect(p) => p.order(),
            WirePacket::ConnAck(p) => p.order(),
            WirePacket::Publish(p) => p.order(),
            WirePacket::PubAck(p) => p.order(),
            WirePacket::PingReq => Seq::empty(),
            WirePacket::PingResp => Seq::empty(),
            WirePacket::Subscribe(p) => p.order(),
            WirePacket::SubAck(p) => p.order(),
            WirePacket::PubRec(p) => p.order(),
            WirePacket::PubRel(p) => p.order(),
            WirePacket::PubComp(p) => p.order(),
            WirePacket::Unsubscribe(p) => p.order(),
            WirePacket::UnsubAck(p) => p.order(),
            WirePacket::Disconnect(p) => p.order(),
        }
    }

    /// The identifiers of the properties of the will, in order.
    pub open spec fn will_order(self) -> Seq<u8> {
        match self {
            WirePacket::Connect(p) => p.will_order(),
            _ => Seq::empty(),
        }
    }

    /// Whether the packet has a representation: MQTT 5 lacks some return codes of MQTT 3.1.1.
    pub open spec fn has_code(self) -> bool {
        self matches WirePacket::ConnAck(p) ==> p.code.number() is Some
    }
}

#[derive(Debug, Clone, PartialEq, Eq)]
pub struct DecodedPacket {
    pub packet: Packet,
    pub property_order: PropertyOrder,
}

/// What a reader returns and leaves of the octets `s`: the packet of the first frame, which is
/// taken out even where it spells no packet. Without a whole frame nothing is taken out.
pub open spec fn read_result(s: Seq<u8>, max_size: Option<u32>) -> (
    Result<WirePacket, Error>,
    Seq<u8>,
) {
    match checked_header(s, max_size) {
        Err(e) => (Err(e), s),
        Ok(h) => {
            let n = h.fixed_header_len + h.remaining_len;
            (WirePacket::decode(h, s.take(n)), s.skip(n))
        },
    }
}

impl Packet {
    /// Reads a stream of bytes and extracts next MQTT packet out of it
    pub fn read(stream: &mut BytesMut, max_size: Option<u32>) -> (r: Result<Packet, Error>)
        ensures
            buffered(*final(stream)) == read_result(buffered(*old(stream)), max_size).1,
            match read_result(buffered(*old(stream)), max_size).0 {
                Ok(w) => r matches Ok(p) && p@.wire() == w.canonical(),
                Err(e) => r == Err::<Packet, Error>(e),
            },
    {
        let mut order = PropertyOrder::default();
        Self::read_traced(stream, max_size, &mut order)
    }

    /// Decode once while retaining property ordering alongside the typed fields.
    pub fn read_with_property_order(stream: &mut BytesMut, max_size: Option<u32>) -> (r: Result<
        DecodedPacket,
        Error,
    >)
        ensures
            buffered(*final(stream)) == read_result(buffered(*old(stream)), max_size).1,
            match read_result(buffered(*old(stream)), max_size).0 {
                Ok(w) => r matches Ok(d) && d.packet@.wire() == w.canonical()
                    && d.property_order.packet@ == w.order() && d.property_order.will@
                    == w.will_order(),
                Err(e) => r == Err::<DecodedPacket, Error>(e),
            },
    {
        let mut property_order = PropertyOrder::default();
        match Self::read_traced(stream, max_size, &mut property_order) {
            Ok(packet) => Ok(DecodedPacket { packet, property_order }),
            Err(e) => Err(e),
        }
    }

    /// Decode exactly one immutable frame. Borrowed fields share this allocation;
    /// callers may retain an owner to reclaim/erase it after dropping the packet.
    pub fn read_frame_with_property_order(frame: Bytes, max_size: Option<u32>) -> (r: Result<
        DecodedPacket,
        Error,
    >)
        ensures
            match checked_header(octets(frame), max_size) {
                Err(e) => r == Err::<DecodedPacket, Error>(e),
                Ok(h) => if h.fixed_header_len + h.remaining_len != octets(frame).len() {
                    r == Err::<DecodedPacket, Error>(Error::MalformedPacket)
                } else {
                    match WirePacket::decode(h, octets(frame)) {
                        Ok(w) => r matches Ok(d) && d.packet@.wire() == w.canonical()
                            && d.property_order.packet@ == w.order() && d.property_order.will@
                            == w.will_order(),
                        Err(e) => r == Err::<DecodedPacket, Error>(e),
                    }
                },
            },
    {
        let data: &[u8] = &frame;
        let fixed_header = match check(data, max_size) {
            Ok(header) => header,
            Err(e) => return Err(e),
        };
        if fixed_header.frame_length() != frame.len() {
            return Err(Error::MalformedPacket);
        }
        let mut property_order = PropertyOrder::default();
        match Self::decode_frame_traced(fixed_header, frame, &mut property_order) {
            Ok(packet) => Ok(DecodedPacket { packet, property_order }),
            Err(e) => Err(e),
        }
    }

    fn read_traced(stream: &mut BytesMut, max_size: Option<u32>, order: &mut PropertyOrder) -> (r:
        Result<Packet, Error>)
        ensures
            buffered(*final(stream)) == read_result(buffered(*old(stream)), max_size).1,
            match read_result(buffered(*old(stream)), max_size).0 {
                Ok(w) => r matches Ok(p) && p@.wire() == w.canonical() && final(order).packet@
                    == old(order).packet@ + w.order() && final(order).will@ == old(order).will@
                    + w.will_order(),
                Err(e) => r == Err::<Packet, Error>(e),
            },
            match checked_header(buffered(*old(stream)), max_size) {
                Ok(h) => {
                    let frame = buffered(*old(stream)).take(h.fixed_header_len + h.remaining_len);
                    &&& final(order).packet@ == old(order).packet@ + WirePacket::noted(h, frame)
                    &&& final(order).will@ == old(order).will@ + WirePacket::noted_will(h, frame)
                },
                Err(_) => *final(order) == *old(order),
            },
    {
        let data: &[u8] = &*stream;
        let fixed_header = match check(data, max_size) {
            Ok(header) => header,
            Err(e) => return Err(e),
        };
        // Test with a stream with exactly the size to check border panics
        let packet = stream.split_to(fixed_header.frame_length()).freeze();
        Self::decode_frame_traced(fixed_header, packet, order)
    }

    fn decode_frame_traced(fixed_header: FixedHeader, packet: Bytes, order: &mut PropertyOrder) -> (r:
        Result<Packet, Error>)
        requires
            WirePacket::has_fields(fixed_header) ==> fixed_header.fixed_header_len <= octets(
                packet,
            ).len(),
        ensures
            match WirePacket::decode(fixed_header, octets(packet)) {
                Ok(w) => r matches Ok(p) && p@.wire() == w.canonical() && final(order).packet@
                    == old(order).packet@ + w.order() && final(order).will@ == old(order).will@
                    + w.will_order(),
                Err(e) => r == Err::<Packet, Error>(e),
            },
            final(order).packet@ == old(order).packet@ + WirePacket::noted(
                fixed_header,
                octets(packet),
            ),
            final(order).will@ == old(order).will@ + WirePacket::noted_will(
                fixed_header,
                octets(packet),
            ),
            fixed_header.remaining_len == 0 ==> *final(order) == *old(order),
    {
        proof {
            assert(order.packet@ =~= order.packet@ + Seq::<u8>::empty());
            assert(order.will@ =~= order.will@ + Seq::<u8>::empty());
        }
        let packet_type = match fixed_header.packet_type() {
            Ok(packet_type) => packet_type,
            Err(e) => return Err(e),
        };
        if fixed_header.remaining_len == 0 {
            // no payload packets, Disconnect still has a bit more info
            return match packet_type {
                PacketType::PingReq => Ok(Packet::PingReq(PingReq)),
                PacketType::PingResp => Ok(Packet::PingResp(PingResp)),
                PacketType::Disconnect => Ok(
                    Packet::Disconnect(
                        Disconnect::new(DisconnectReasonCode::NormalDisconnection),
                    ),
                ),
                PacketType::Auth => Ok(
                    Packet::Auth(Auth { code: AuthReasonCode::Success, properties: None }),
                ),
                _ => Err(Error::PayloadRequired),
            };
        }
        match packet_type {
            PacketType::Connect => {
                match Connect::read_traced(
                    fixed_header,
                    packet,
                    &mut order.packet,
                    &mut order.will,
                ) {
                    Ok((connect, will, login)) => Ok(Packet::Connect(connect, will, login)),
                    Err(e) => Err(e),
                }
            },
            PacketType::Auth => {
                match Auth::read_traced(fixed_header, packet, &mut order.packet) {
                    Ok(p) => Ok(Packet::Auth(p)),
                    Err(e) => Err(e),
                }
            },
            PacketType::ConnAck => {
                match ConnAck::read_traced(fixed_header, packet, &mut order.packet) {
                    Ok(p) => Ok(Packet::ConnAck(p)),
                    Err(e) => Err(e),
                }
            },
            PacketType::Publish => {
                match Publish::read_traced(fixed_header, packet, &mut order.packet) {
                    Ok(p) => Ok(Packet::Publish(p)),
                    Err(e) => Err(e),
                }
            },
            PacketType::PubAck => {
                match PubAck::read_traced(fixed_header, packet, &mut order.packet) {
                    Ok(p) => Ok(Packet::PubAck(p)),
                    Err(e) => Err(e),
                }
            },
            PacketType::Subscribe => {
                match Subscribe::read_traced(fixed_header, packet, &mut order.packet) {
                    Ok(p) => Ok(Packet::Subscribe(p)),
                    Err(e) => Err(e),
                }
            },
            PacketType::SubAck => {
                match SubAck::read_traced(fixed_header, packet, &mut order.packet) {
                    Ok(p) => Ok(Packet::SubAck(p)),
                    Err(e) => Err(e),
                }
            },
            PacketType::PubRec => {
                match PubRec::read_traced(fixed_header, packet, &mut order.packet) {
                    Ok(p) => Ok(Packet::PubRec(p)),
                    Err(e) => Err(e),
                }
            },
            PacketType::PubRel => {
                match PubRel::read_traced(fixed_header, packet, &mut order.packet) {
                    Ok(p) => Ok(Packet::PubRel(p)),
                    Err(e) => Err(e),
                }
            },
            PacketType::PubComp => {
                match PubComp::read_traced(fixed_header, packet, &mut order.packet) {
                    Ok(p) => Ok(Packet::PubComp(p)),
                    Err(e) => Err(e),
                }
            },
            PacketType::Unsubscribe => {
                match Unsubscribe::read_traced(fixed_header, packet, &mut order.packet) {
                    Ok(p) => Ok(Packet::Unsubscribe(p)),
                    Err(e) => Err(e),
                }
            },
            PacketType::UnsubAck => {
                match UnsubAck::read_traced(fixed_header, packet, &mut order.packet) {
                    Ok(p) => Ok(Packet::UnsubAck(p)),
                    Err(e) => Err(e),
                }
            },
            PacketType::Disconnect => {
                match Disconnect::read_traced(fixed_header, packet, &mut order.packet) {
                    Ok(p) => Ok(Packet::Disconnect(p)),
                    Err(e) => Err(e),
                }
            },
            PacketType::PingReq => Err(Error::MalformedPacket),
            PacketType::PingResp => Err(Error::MalformedPacket),
        }
    }

    pub fn write(&self, write: &mut BytesMut, max_size: Option<u32>) -> (r: Result<usize, Error>)
        requires
            self@.wire().size() <= usize::MAX,
            !self@.wire().exceeds(max_size) ==> self@.wire().has_code() && has_room(
                *old(write),
                self@.wire().size() as int,
            ),
        ensures
            r == self@.wire().encode_within(max_size).0,
            buffered(*final(write)) == buffered(*old(write)) + self@.wire().encode_within(
                max_size,
            ).1,
    {
        assert(buffered(*write) =~= buffered(*write) + Seq::<u8>::empty());
        if let Some(max_size) = max_size {
            if self.size() > max_size as usize {
                return Err(
                    Error::OutgoingPacketTooLarge {
                        pkt_size: #[verifier::truncate] (self.size() as u32),
                        max: max_size,
                    },
                );
            }
        }
        match self {
            Packet::Auth(p) => p.write(write),
            Packet::ConnAck(p) => p.write(write),
            Packet::Publish(p) => p.write(write),
            Packet::PubAck(p) => p.write(write),
            Packet::Subscribe(p) => p.write(write),
            Packet::SubAck(p) => p.write(write),
            Packet::PubRec(p) => p.write(write),
            Packet::PubRel(p) => p.write(write),
            Packet::PubComp(p) => p.write(write),
            Packet::Unsubscribe(p) => p.write(write),
            Packet::UnsubAck(p) => p.write(write),
            Packet::Disconnect(p) => p.write(write),
            Packet::Connect(connect, will, login) => connect.write(will, login, write),
            Packet::PingReq(_) => PingReq::write(write),
            Packet::PingResp(_) => PingResp::write(write),
        }
    }

    /// Writes the packet with its properties in the order asked for. The order names each
    /// property once; anything else is refused, and a refusal leaves the output untouched.
    pub fn write_with_property_order(
        &self,
        write: &mut BytesMut,
        max_size: Option<u32>,
        order: &PropertyOrder,
    ) -> (r: Result<usize, Error>)
        requires
            self@.wire().size() <= usize::MAX,
            !self@.wire().exceeds(max_size) ==> self@.wire().has_code() && has_room(
                *old(write),
                self@.wire().size() as int,
            ),
        ensures
            r == self@.wire().encode_ordered(max_size, order.packet@, order.will@).0,
            buffered(*final(write)) == buffered(*old(write)) + self@.wire().encode_ordered(
                max_size,
                order.packet@,
                order.will@,
            ).1,
    {
        let ghost start = buffered(*write);
        assert(start =~= start + Seq::<u8>::empty());
        if let Some(max_size) = max_size {
            if self.size() > max_size as usize {
                return Err(
                    Error::OutgoingPacketTooLarge {
                        pkt_size: #[verifier::truncate] (self.size() as u32),
                        max: max_size,
                    },
                );
            }
        }
        if !self.has_properties() && order.packet.len() > 0 || !self.has_will_properties()
            && order.will.len() > 0 {
            return Err(Error::MalformedPacket);
        }
        let offset: usize = write.len();
        match self.write_ordered(write, order) {
            Ok(n) => Ok(n),
            Err(e) => {
                write.truncate(offset);
                assert(buffered(*write) =~= start);
                Err(e)
            },
        }
    }

    fn write_ordered(&self, write: &mut BytesMut, order: &PropertyOrder) -> (r: Result<
        usize,
        Error,
    >)
        requires
            self@.wire().has_code(),
            has_room(*old(write), self@.wire().size() as int),
        ensures
            r == self@.wire().encode(Some(order.packet@), Some(order.will@)).0,
            buffered(*final(write)) == buffered(*old(write)) + self@.wire().encode(
                Some(order.packet@),
                Some(order.will@),
            ).1,
    {
        let packet: Option<&[u8]> = Some(order.packet.as_slice());
        match self {
            Packet::Auth(p) => p.write_ordered(write, packet),
            Packet::ConnAck(p) => p.write_ordered(write, packet),
            Packet::Publish(p) => p.write_ordered(write, packet),
            Packet::PubAck(p) => p.write_ordered(write, packet),
            Packet::Subscribe(p) => p.write_ordered(write, packet),
            Packet::SubAck(p) => p.write_ordered(write, packet),
            Packet::PubRec(p) => p.write_ordered(write, packet),
            Packet::PubRel(p) => p.write_ordered(write, packet),
            Packet::PubComp(p) => p.write_ordered(write, packet),
            Packet::Unsubscribe(p) => p.write_ordered(write, packet),
            Packet::UnsubAck(p) => p.write_ordered(write, packet),
            Packet::Disconnect(p) => p.write_ordered(write, packet),
            Packet::Connect(connect, will, login) => connect.write_ordered(
                will,
                login,
                write,
                Some(order),
            ),
            Packet::PingReq(_) => PingReq::write(write),
            Packet::PingResp(_) => PingResp::write(write),
        }
    }

    fn has_properties(&self) -> (r: bool)
        ensures
            r == self@.wire().has_properties(),
    {
        match self {
            Packet::Auth(p) => p.properties.is_some(),
            Packet::ConnAck(p) => p.properties.is_some(),
            Packet::Publish(p) => p.properties.is_some(),
            Packet::PubAck(p) => p.properties.is_some(),
            Packet::Subscribe(p) => p.properties.is_some(),
            Packet::SubAck(p) => p.properties.is_some(),
            Packet::PubRec(p) => p.properties.is_some(),
            Packet::PubRel(p) => p.properties.is_some(),
            Packet::PubComp(p) => p.properties.is_some(),
            Packet::Unsubscribe(p) => p.properties.is_some(),
            Packet::UnsubAck(p) => p.properties.is_some(),
            Packet::Disconnect(p) => p.properties.is_some(),
            Packet::Connect(connect, _, _) => connect.properties.is_some(),
            Packet::PingReq(_) => false,
            Packet::PingResp(_) => false,
        }
    }

    fn has_will_properties(&self) -> (r: bool)
        ensures
            r == self@.wire().has_will_properties(),
    {
        match self {
            Packet::Connect(_, Some(will), _) => will.properties.is_some(),
            _ => false,
        }
    }

    pub fn size(&self) -> (r: usize)
        requires
            self@.wire().size() <= usize::MAX,
        ensures
            r == self@.wire().size(),
    {
        match self {
            Packet::Auth(p) => p.size(),
            Packet::ConnAck(p) => p.size(),
            Packet::Publish(p) => p.size(),
            Packet::PubAck(p) => p.size(),
            Packet::Subscribe(p) => p.size(),
            Packet::SubAck(p) => p.size(),
            Packet::PubRec(p) => p.size(),
            Packet::PubRel(p) => p.size(),
            Packet::PubComp(p) => p.size(),
            Packet::Unsubscribe(p) => p.size(),
            Packet::UnsubAck(p) => p.size(),
            Packet::Disconnect(p) => p.size(),
            Packet::Connect(connect, will, login) => connect.size(will, login),
            Packet::PingReq(req) => req.size(),
            Packet::PingResp(resp) => resp.size(),
        }
    }
}

/// Whether a packet can be read back from what is written for it. Left out are fields beyond the
/// two octets of their length, empty lists, properties or logins where the reader expects one
/// item at least, the return codes of MQTT 3.1.1, and flags that no reader accepts.
pub open spec fn readable_packet(packet: Packet) -> bool {
    match packet {
        Packet::Auth(p) => p.properties matches Some(v) ==> v@.len() > 0,
        Packet::Connect(p, will, login) => {
            &&& text_fits(p.client_id@)
            &&& p.properties matches Some(v) ==> v@.len() > 0
            &&& will matches Some(w) ==> readable_will(w@)
            &&& login matches Some(l) ==> readable_login(l@)
        },
        Packet::ConnAck(p) => {
            &&& p.code.number() is Some
            &&& p.session_present ==> p.code == ConnectReturnCode::Success
            &&& p.properties matches Some(v) ==> v@.len() > 0
        },
        Packet::Publish(p) => {
            &&& octets(p.topic).len() <= u16::MAX
            &&& p.qos == QoS::AtMostOnce ==> p.pkid == 0 && !p.dup
            &&& p.properties matches Some(v) ==> v@.entries().len() > 0
        },
        Packet::PubAck(p) => p.properties matches Some(v) ==> v@.len() > 0,
        Packet::PingReq(_) => true,
        Packet::PingResp(_) => true,
        Packet::Subscribe(p) => {
            &&& p.filters@.len() > 0
            &&& forall|i: int|
                0 <= i < p.filters@.len() ==> text_fits((#[trigger] p.filters@[i])@.path)
            &&& p.properties matches Some(v) ==> v@.len() > 0
        },
        Packet::SubAck(p) => {
            &&& p.return_codes@.len() > 0
            &&& forall|i: int|
                0 <= i < p.return_codes@.len() ==> p.return_codes@[i]
                    != SubscribeReasonCode::Failure
            &&& p.properties matches Some(v) ==> v@.len() > 0
        },
        Packet::PubRec(p) => p.properties matches Some(v) ==> v@.len() > 0,
        Packet::PubRel(p) => p.properties matches Some(v) ==> v@.len() > 0,
        Packet::PubComp(p) => p.properties matches Some(v) ==> v@.len() > 0,
        Packet::Unsubscribe(p) => {
            &&& p.filters@.len() > 0
            &&& forall|i: int|
                0 <= i < p.filters@.len() ==> text_fits((#[trigger] p.filters@[i])@)
            &&& p.properties matches Some(v) ==> v@.len() > 0
        },
        Packet::UnsubAck(p) => {
            &&& p.reasons@.len() > 0
            &&& p.properties matches Some(v) ==> v@.len() > 0 && entries_fit(v@)
        },
        Packet::Disconnect(p) => p.properties matches Some(v) ==> v@.len() > 0,
    }
}

/// The packet that is read from what was written for `packet`.
pub open spec fn read_back(
    packet: Packet,
    order: Option<Seq<u8>>,
    will_order: Option<Seq<u8>>,
    w: WirePacket,
) -> bool {
    &&& w.canonical() == packet@.wire()
    &&& order is Some && packet@.wire().has_properties() ==> w.order() == order->0
    &&& will_order is Some && packet@.wire().has_will_properties() ==> w.will_order()
        == will_order->0
    &&& !packet@.wire().has_properties() ==> w.order() == Seq::<u8>::empty()
    &&& !packet@.wire().has_will_properties() ==> w.will_order() == Seq::<u8>::empty()
}

/// A frame that consists of a first octet, the length and the fields is read from the front of
/// a stream.
proof fn read_frame(first: u8, len: nat, out: Seq<u8>, rest: Seq<u8>)
    requires
        len <= MAX_VARINT,
        out.len() == frame_len(len),
        out == seq![first] + varint(len) + out.skip(1 + varint_len(len as int) as int),
    ensures
        ({
            let h = FixedHeader {
                byte1: first,
                fixed_header_len: (1 + varint_len(len as int)) as usize,
                remaining_len: len as usize,
            };
            &&& checked_header(out + rest, None) == Ok::<FixedHeader, Error>(h)
            &&& read_result(out + rest, None) == (WirePacket::decode(h, out), rest)
        }),
{
    let body = out.skip(1 + varint_len(len as int) as int);
    assert(body.len() == len);
    frame_round_trip(first, body, rest);
    let n = (1 + varint_len(len as int) + len) as int;
    assert((out + rest).take(n) =~= out);
    assert((out + rest).skip(n) =~= rest);
}

/// A packet that was written is read back from the front of a stream, whatever follows it: the
/// reader gives the same packet, the order in which its properties were written, and leaves what
/// follows. The number of octets that the writer reports, the size of the packet and what was
/// appended agree.
#[verifier::spinoff_prover]
#[verifier::rlimit(40)]
pub proof fn packet_round_trip(
    packet: Packet,
    order: Option<Seq<u8>>,
    will_order: Option<Seq<u8>>,
    rest: Seq<u8>,
)
    requires
        readable_packet(packet),
        packet@.wire().encode(order, will_order).0 is Ok,
    ensures
        ({
            let (n, out) = packet@.wire().encode(order, will_order);
            let (w, left) = read_result(out + rest, None);
            &&& n == Ok::<usize, Error>(out.len() as usize)
            &&& out.len() == packet@.wire().size()
            &&& w matches Ok(w) && read_back(packet, order, will_order, w)
            &&& left == rest
        }),
{
    match packet {
        Packet::PingReq(_) => {
            let out = seq![0xC0u8, 0u8];
            assert(varint(0) =~= seq![0u8]);
            assert(out =~= seq![0xC0u8] + varint(0) + out.skip(2));
            read_frame(0xC0, 0, out, rest);
        },
        Packet::PingResp(_) => {
            let out = seq![0xD0u8, 0u8];
            assert(varint(0) =~= seq![0u8]);
            assert(out =~= seq![0xD0u8] + varint(0) + out.skip(2));
            read_frame(0xD0, 0, out, rest);
        },
        Packet::Connect(c, w, l) => connect_packet_round_trip(c, w, l, order, will_order, rest),
        Packet::Auth(p) => auth_packet_round_trip(p, order, will_order, rest),
        Packet::ConnAck(p) => connack_packet_round_trip(p, order, will_order, rest),
        Packet::Publish(p) => publish_packet_round_trip(p, order, will_order, rest),
        Packet::PubAck(p) => puback_packet_round_trip(p, order, will_order, rest),
        Packet::Subscribe(p) => subscribe_packet_round_trip(p, order, will_order, rest),
        Packet::SubAck(p) => suback_packet_round_trip(p, order, will_order, rest),
        Packet::PubRec(p) => pubrec_packet_round_trip(p, order, will_order, rest),
        Packet::PubRel(p) => pubrel_packet_round_trip(p, order, will_order, rest),
        Packet::PubComp(p) => pubcomp_packet_round_trip(p, order, will_order, rest),
        Packet::Unsubscribe(p) => unsubscribe_packet_round_trip(p, order, will_order, rest),
        Packet::UnsubAck(p) => unsuback_packet_round_trip(p, order, will_order, rest),
        Packet::Disconnect(p) => disconnect_packet_round_trip(p, order, will_order, rest),
    }
}

/// Whether a packet that was written is read back from the front of a stream.
spec fn round_trips(
    packet: Packet,
    order: Option<Seq<u8>>,
    will_order: Option<Seq<u8>>,
    rest: Seq<u8>,
) -> bool {
    let (n, out) = packet@.wire().encode(order, will_order);
    let (w, left) = read_result(out + rest, None);
    &&& n == Ok::<usize, Error>(out.len() as usize)
    &&& out.len() == packet@.wire().size()
    &&& w matches Ok(w) && read_back(packet, order, will_order, w)
    &&& left == rest
}

#[verifier::spinoff_prover]
#[verifier::rlimit(40)]
proof fn connect_packet_round_trip(
    c: Connect,
    w: Option<LastWill>,
    l: Option<Login>,
    order: Option<Seq<u8>>,
    will_order: Option<Seq<u8>>,
    rest: Seq<u8>,
)
    requires
        readable_packet(Packet::Connect(c, w, l)),
        connect_model(c, w, l).encode(order, will_order).0 is Ok,
    ensures
        round_trips(Packet::Connect(c, w, l), order, will_order, rest),
{
    connect_round_trip(c, w, l, order, will_order);
    let m = connect_model(c, w, l);
    read_frame(0x10, m.len(), m.encode(order, will_order).1, rest);
}

#[verifier::spinoff_prover]
#[verifier::rlimit(40)]
proof fn auth_packet_round_trip(
    p: Auth,
    order: Option<Seq<u8>>,
    will_order: Option<Seq<u8>>,
    rest: Seq<u8>,
)
    requires
        readable_packet(Packet::Auth(p)),
        p@.encode(order).0 is Ok,
    ensures
        round_trips(Packet::Auth(p), order, will_order, rest),
{
    auth_round_trip(p, order);
    let m = p@;
    read_frame(0xF0, m.len(), m.encode(order).1, rest);
}

#[verifier::spinoff_prover]
#[verifier::rlimit(40)]
proof fn connack_packet_round_trip(
    p: ConnAck,
    order: Option<Seq<u8>>,
    will_order: Option<Seq<u8>>,
    rest: Seq<u8>,
)
    requires
        readable_packet(Packet::ConnAck(p)),
        p@.encode(order).0 is Ok,
    ensures
        round_trips(Packet::ConnAck(p), order, will_order, rest),
{
    connack_round_trip(p, order);
    let m = p@;
    read_frame(0x20, m.len(), m.encode(order).1, rest);
}

#[verifier::spinoff_prover]
#[verifier::rlimit(40)]
proof fn publish_packet_round_trip(
    p: Publish,
    order: Option<Seq<u8>>,
    will_order: Option<Seq<u8>>,
    rest: Seq<u8>,
)
    requires
        readable_packet(Packet::Publish(p)),
        p@.wire().encode(order).0 is Ok,
    ensures
        round_trips(Packet::Publish(p), order, will_order, rest),
{
    publish_round_trip(p, order);
    let m = p@.wire();
    read_frame(m.first(), m.len(), m.encode(order).1, rest);
}

#[verifier::spinoff_prover]
#[verifier::rlimit(40)]
proof fn puback_packet_round_trip(
    p: PubAck,
    order: Option<Seq<u8>>,
    will_order: Option<Seq<u8>>,
    rest: Seq<u8>,
)
    requires
        readable_packet(Packet::PubAck(p)),
        p@.encode(order).0 is Ok,
    ensures
        round_trips(Packet::PubAck(p), order, will_order, rest),
{
    puback_round_trip(p, order);
    let m = p@;
    read_frame(0x40, m.len(), m.encode(order).1, rest);
}

#[verifier::spinoff_prover]
#[verifier::rlimit(40)]
proof fn subscribe_packet_round_trip(
    p: Subscribe,
    order: Option<Seq<u8>>,
    will_order: Option<Seq<u8>>,
    rest: Seq<u8>,
)
    requires
        readable_packet(Packet::Subscribe(p)),
        p@.encode(order).0 is Ok,
    ensures
        round_trips(Packet::Subscribe(p), order, will_order, rest),
{
    subscribe_round_trip(p, order);
    let m = p@;
    read_frame(0x82, m.len(), m.encode(order).1, rest);
}

#[verifier::spinoff_prover]
#[verifier::rlimit(40)]
proof fn suback_packet_round_trip(
    p: SubAck,
    order: Option<Seq<u8>>,
    will_order: Option<Seq<u8>>,
    rest: Seq<u8>,
)
    requires
        readable_packet(Packet::SubAck(p)),
        p@.encode(order).0 is Ok,
    ensures
        round_trips(Packet::SubAck(p), order, will_order, rest),
{
    suback_round_trip(p, order);
    let m = p@;
    read_frame(0x90, m.len(), m.encode(order).1, rest);
}

#[verifier::spinoff_prover]
#[verifier::rlimit(40)]
proof fn pubrec_packet_round_trip(
    p: PubRec,
    order: Option<Seq<u8>>,
    will_order: Option<Seq<u8>>,
    rest: Seq<u8>,
)
    requires
        readable_packet(Packet::PubRec(p)),
        p@.encode(order).0 is Ok,
    ensures
        round_trips(Packet::PubRec(p), order, will_order, rest),
{
    pubrec_round_trip(p, order);
    let m = p@;
    read_frame(0x50, m.len(), m.encode(order).1, rest);
}

#[verifier::spinoff_prover]
#[verifier::rlimit(40)]
proof fn pubrel_packet_round_trip(
    p: PubRel,
    order: Option<Seq<u8>>,
    will_order: Option<Seq<u8>>,
    rest: Seq<u8>,
)
    requires
        readable_packet(Packet::PubRel(p)),
        p@.encode(order).0 is Ok,
    ensures
        round_trips(Packet::PubRel(p), order, will_order, rest),
{
    pubrel_round_trip(p, order);
    let m = p@;
    read_frame(0x62, m.len(), m.encode(order).1, rest);
}

#[verifier::spinoff_prover]
#[verifier::rlimit(40)]
proof fn pubcomp_packet_round_trip(
    p: PubComp,
    order: Option<Seq<u8>>,
    will_order: Option<Seq<u8>>,
    rest: Seq<u8>,
)
    requires
        readable_packet(Packet::PubComp(p)),
        p@.encode(order).0 is Ok,
    ensures
        round_trips(Packet::PubComp(p), order, will_order, rest),
{
    pubcomp_round_trip(p, order);
    let m = p@;
    read_frame(0x70, m.len(), m.encode(order).1, rest);
}

#[verifier::spinoff_prover]
#[verifier::rlimit(40)]
proof fn unsubscribe_packet_round_trip(
    p: Unsubscribe,
    order: Option<Seq<u8>>,
    will_order: Option<Seq<u8>>,
    rest: Seq<u8>,
)
    requires
        readable_packet(Packet::Unsubscribe(p)),
        p@.encode(order).0 is Ok,
    ensures
        round_trips(Packet::Unsubscribe(p), order, will_order, rest),
{
    unsubscribe_round_trip(p, order);
    let m = p@;
    read_frame(0xA2, m.len(), m.encode(order).1, rest);
}

#[verifier::spinoff_prover]
#[verifier::rlimit(40)]
proof fn unsuback_packet_round_trip(
    p: UnsubAck,
    order: Option<Seq<u8>>,
    will_order: Option<Seq<u8>>,
    rest: Seq<u8>,
)
    requires
        readable_packet(Packet::UnsubAck(p)),
        p@.encode(order).0 is Ok,
    ensures
        round_trips(Packet::UnsubAck(p), order, will_order, rest),
{
    unsuback_round_trip(p, order);
    let m = p@;
    read_frame(0xB0, m.len(), m.encode(order).1, rest);
}

#[verifier::spinoff_prover]
#[verifier::rlimit(40)]
proof fn disconnect_packet_round_trip(
    p: Disconnect,
    order: Option<Seq<u8>>,
    will_order: Option<Seq<u8>>,
    rest: Seq<u8>,
)
    requires
        readable_packet(Packet::Disconnect(p)),
        p@.encode(order).0 is Ok,
    ensures
        round_trips(Packet::Disconnect(p), order, will_order, rest),
{
    disconnect_round_trip(p, order);
    let m = p@;
    read_frame(0xE0, m.len(), m.encode(order).1, rest);
}

/// Frames do not count for each other: a reader gives for the first frame of a stream what it
/// gives for that frame alone, and leaves the others.
pub proof fn frame_is_isolated(s: Seq<u8>, rest: Seq<u8>, max_size: Option<u32>)
    requires
        checked_header(s, max_size) is Ok,
    ensures
        ({
            let h = checked_header(s, max_size)->Ok_0;
            let n = (h.fixed_header_len + h.remaining_len) as int;
            &&& read_result(s + rest, max_size) == (
                read_result(s.take(n), max_size).0,
                s.skip(n) + rest,
            )
            &&& read_result(s.take(n), max_size).1 == Seq::<u8>::empty()
        }),
{
    let h = checked_header(s, max_size)->Ok_0;
    let n = (h.fixed_header_len + h.remaining_len) as int;
    header_needs_no_payload(s, rest);
    varint_is_unique(s.skip(1));
    let t = s.take(n);
    assert(header_at(t) == header_at(s)) by {
        let k = h.fixed_header_len as int;
        assert(t.skip(1).take(k - 1) =~= s.skip(1).take(k - 1));
        varint_round_trip(h.remaining_len as nat, t.skip(k));
        assert(t.skip(1) =~= varint(h.remaining_len as nat) + t.skip(k));
    }
    assert((s + rest).take(n) =~= t);
    assert((s + rest).skip(n) =~= s.skip(n) + rest);
    assert(t.take(n) =~= t);
    assert(t.skip(n) =~= Seq::<u8>::empty());
}

/// A write that is refused appends nothing where an order of the properties is asked for.
pub proof fn refused_write_appends_nothing(
    packet: Packet,
    max_size: Option<u32>,
    order: PropertyOrder,
)
    requires
        packet@.wire().encode_ordered(max_size, order.packet@, order.will@).0 is Err,
    ensures
        packet@.wire().encode_ordered(max_size, order.packet@, order.will@).1 == Seq::<u8>::empty(),
{
}

/// A packet on the wire tells what the packet holds.
pub proof fn wire_is_faithful(a: PacketModel, b: PacketModel)
    requires
        a.wire() == b.wire(),
    ensures
        a == b,
{
    if let PacketModel::Publish(p) = a {
        if let PacketModel::Publish(q) = b {
            assert(p.wire() == q.wire());
            if p.properties is Some && q.properties is Some {
                publish_entries_are_faithful(p.properties->0, q.properties->0);
            }
            assert(p =~= q);
        }
    }
}

/// A packet that was written with an order of its properties is read back with that order.
#[verifier::spinoff_prover]
#[verifier::rlimit(40)]
pub proof fn ordered_packet_round_trip(
    packet: Packet,
    max_size: Option<u32>,
    order: PropertyOrder,
    rest: Seq<u8>,
)
    requires
        readable_packet(packet),
        packet@.wire().encode_ordered(max_size, order.packet@, order.will@).0 is Ok,
    ensures
        ({
            let (n, out) = packet@.wire().encode_ordered(max_size, order.packet@, order.will@);
            let (w, left) = read_result(out + rest, None);
            &&& n == Ok::<usize, Error>(out.len() as usize)
            &&& w matches Ok(w) && w.canonical() == packet@.wire() && w.order() == order.packet@
                && w.will_order() == order.will@
            &&& left == rest
        }),
{
    packet_round_trip(packet, Some(order.packet@), Some(order.will@), rest);
    assert(order.packet@.len() == 0 ==> order.packet@ =~= Seq::<u8>::empty());
    assert(order.will@.len() == 0 ==> order.will@ =~= Seq::<u8>::empty());
}

} // verus!
