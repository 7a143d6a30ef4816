//! What a client asks of the state machine, and what the state machine reports.
use vstd::prelude::*;

use crate::event::Outgoing;
use crate::v5::mqttbytes::v5::packet::{Packet, PacketModel};
use crate::v5::mqttbytes::v5::puback::{PubAck, PubAckModel};
use crate::v5::mqttbytes::v5::pubcomp::{PubComp, PubCompModel};
use crate::v5::mqttbytes::v5::publish::{Publish, PublishModel};
use crate::v5::mqttbytes::v5::pubrec::{PubRec, PubRecModel};
use crate::v5::mqttbytes::v5::pubrel::{PubRel, PubRelModel};
use crate::v5::mqttbytes::v5::suback::{SubAck, SubAckModel};
use crate::v5::mqttbytes::v5::subscribe::{Subscribe, SubscribeModel};
use crate::v5::mqttbytes::v5::unsuback::{UnsubAck, UnsubAckModel};
use crate::v5::mqttbytes::v5::unsubscribe::{Unsubscribe, UnsubscribeModel};

verus! {

/// Packets that come from the network
pub type Incoming = Packet;

/// Requests by the client to mqtt event loop. Request are
/// handled one by one.
#[derive(Clone, Debug, PartialEq, Eq)]
pub enum Request {
    Publish(Publish),
    PubAck(PubAck),
    PubRec(PubRec),
    PubComp(PubComp),
    PubRel(PubRel),
    PingReq,
    PingResp,
    Subscribe(Subscribe),
    SubAck(SubAck),
    Unsubscribe(Unsubscribe),
    UnsubAck(UnsubAck),
    Disconnect,
}

/// What a request holds.
#[verifier::ext_equal]
pub enum RequestModel {
    Publish(PublishModel),
    PubAck(PubAckModel),
    PubRec(PubRecModel),
    PubComp(PubCompModel),
    PubRel(PubRelModel),
    PingReq,
    PingResp,
    Subscribe(SubscribeModel),
    SubAck(SubAckModel),
    Unsubscribe(UnsubscribeModel),
    UnsubAck(UnsubAckModel),
    Disconnect,
}

impl View for Request {
    type V = RequestModel;

    open spec fn view(&self) -> RequestModel {
        match *self {
            Request::Publish(p) => RequestModel::Publish(p@),
            Request::PubAck(p) => RequestModel::PubAck(p@),
            Request::PubRec(p) => RequestModel::PubRec(p@),
            Request::PubComp(p) => RequestModel::PubComp(p@),
            Request::PubRel(p) => RequestModel::PubRel(p@),
            Request::PingReq => RequestModel::PingReq,
            Request::PingResp => RequestModel::PingResp,
            Request::Subscribe(p) => RequestModel::Subscribe(p@),
            Request::SubAck(p) => RequestModel::SubAck(p@),
            Request::Unsubscribe(p) => RequestModel::Unsubscribe(p@),
            Request::UnsubAck(p) => RequestModel::UnsubAck(p@),
            Request::Disconnect => RequestModel::Disconnect,
        }
    }
}

/// Events which can be yielded by the event loop
#[derive(Debug, Clone, PartialEq, Eq)]
pub enum Event {
    Incoming(Incoming),
    Outgoing(Outgoing),
}

/// What an event holds.
#[verifier::ext_equal]
pub enum EventModel {
    Incoming(PacketModel),
    Outgoing(Outgoing),
}

impl View for Event {
    type V = EventModel;

    open spec fn view(&self) -> EventModel {
        match *self {
            Event::Incoming(p) => EventModel::Incoming(p@),
            Event::Outgoing(o) => EventModel::Outgoing(o),
        }
    }
}

} // verus!
