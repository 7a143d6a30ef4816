//! What a client asks of the state machine, and what the state machine reports.
use vstd::prelude::*;

use crate::mqttbytes::v4::{
    Disconnect, Packet, PacketModel, PingReq, PingResp, PubAck, PubComp, PubRec, PubRel, Publish,
    PublishModel, SubAck, Subscribe, UnsubAck, Unsubscribe,
};

verus! {

/// Packets that come from the network
pub type Incoming = Packet;

/// Current outgoing activity on the eventloop
#[derive(Debug, Clone, Copy, PartialEq, Eq)]
pub enum Outgoing {
    /// Publish packet with packet identifier. 0 implies QoS 0
    Publish(u16),
    /// Subscribe packet with packet identifier
    Subscribe(u16),
    /// Unsubscribe packet with packet identifier
    Unsubscribe(u16),
    /// PubAck packet
    PubAck(u16),
    /// PubRec packet
    PubRec(u16),
    /// PubRel packet
    PubRel(u16),
    /// PubComp packet
    PubComp(u16),
    /// Ping request packet
    PingReq,
    /// Ping response packet
    PingResp,
    /// Disconnect packet
    Disconnect,
    /// Await for an ack for more outgoing progress
    AwaitAck(u16),
}

/// Requests by the client to mqtt event loop. Request are
/// handled one by one.
#[derive(Clone, Debug, PartialEq, Eq)]
pub enum Request {
    Publish(Publish),
    PubAck(PubAck),
    PubRec(PubRec),
    PubComp(PubComp),
    PubRel(PubRel),
    PingReq(PingReq),
    PingResp(PingResp),
    Subscribe(Subscribe),
    SubAck(SubAck),
    Unsubscribe(Unsubscribe),
    UnsubAck(UnsubAck),
    Disconnect(Disconnect),
}

/// What a request holds.
#[verifier::ext_equal]
pub enum RequestModel {
    Publish(PublishModel),
    PubAck(PubAck),
    PubRec(PubRec),
    PubComp(PubComp),
    PubRel(PubRel),
    PingReq,
    PingResp,
    Subscribe(Subscribe),
    SubAck(SubAck),
    Unsubscribe(Unsubscribe),
    UnsubAck(UnsubAck),
    Disconnect,
}

impl View for Request {
    type V = RequestModel;

    open spec fn view(&self) -> RequestModel {
        match *self {
            Request::Publish(p) => RequestModel::Publish(p@),
            Request::PubAck(p) => RequestModel::PubAck(p),
            Request::PubRec(p) => RequestModel::PubRec(p),
            Request::PubComp(p) => RequestModel::PubComp(p),
            Request::PubRel(p) => RequestModel::PubRel(p),
            Request::PingReq(_) => RequestModel::PingReq,
            Request::PingResp(_) => RequestModel::PingResp,
            Request::Subscribe(p) => RequestModel::Subscribe(p),
            Request::SubAck(p) => RequestModel::SubAck(p),
            Request::Unsubscribe(p) => RequestModel::Unsubscribe(p),
            Request::UnsubAck(p) => RequestModel::UnsubAck(p),
            Request::Disconnect(_) => RequestModel::Disconnect,
        }
    }
}

/// Events which can be yielded by the event loop
#[derive(Debug, Clone, PartialEq, Eq)]
pub enum Event {
    Incoming(Incoming),
    Outgoing(Outgoing),
}

/// What an event holds.
#[verifier::ext_equal]
pub enum EventModel {
    Incoming(PacketModel),
    Outgoing(Outgoing),
}

impl View for Event {
    type V = EventModel;

    open spec fn view(&self) -> EventModel {
        match *self {
            Event::Incoming(p) => EventModel::Incoming(p@),
            Event::Outgoing(o) => EventModel::Outgoing(o),
        }
    }
}

} // verus!
