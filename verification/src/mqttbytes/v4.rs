//! The packets of MQTT 3.1.1.
use bytes::Bytes;
use vstd::prelude::*;

use crate::octets::octets;
use super::QoS;

verus! {

/// Return code in connack
#[derive(Debug, Clone, Copy, PartialEq, Eq, Structural)]
pub enum ConnectReturnCode {
    Success,
    RefusedProtocolVersion,
    BadClientId,
    ServiceUnavailable,
    BadUserNamePassword,
    NotAuthorized,
}

/// LastWill that broker forwards on behalf of the client
#[derive(Debug, Clone, PartialEq, Eq)]
pub struct LastWill {
    pub topic: String,
    pub message: Bytes,
    pub qos: QoS,
    pub retain: bool,
}

#[derive(Debug, Clone, PartialEq, Eq)]
pub struct Login {
    pub username: String,
    pub password: String,
}

/// Connection packet initiated by the client
#[derive(Debug, Clone, PartialEq, Eq)]
pub struct Connect {
    /// Mqtt keep alive time
    pub keep_alive: u16,
    /// Client Id
    pub client_id: String,
    /// Clean session. Asks the broker to clear previous state
    pub clean_session: bool,
    /// Will that broker needs to publish when the client disconnects
    pub last_will: Option<LastWill>,
    /// Login credentials
    pub login: Option<Login>,
}

/// Acknowledgement to connect packet
#[derive(Debug, Clone, Copy, PartialEq, Eq)]
pub struct ConnAck {
    pub session_present: bool,
    pub code: ConnectReturnCode,
}

/// Publish packet
#[derive(Debug, PartialEq, Eq)]
pub struct Publish {
    pub dup: bool,
    pub qos: QoS,
    pub retain: bool,
    pub topic: String,
    pub pkid: u16,
    pub payload: Bytes,
}

/// What a publish packet holds.
#[verifier::ext_equal]
pub struct PublishModel {
    pub dup: bool,
    pub qos: QoS,
    pub retain: bool,
    pub topic: Seq<char>,
    pub pkid: u16,
    pub payload: Seq<u8>,
}

impl View for Publish {
    type V = PublishModel;

    open spec fn view(&self) -> PublishModel {
        PublishModel {
            dup: self.dup,
            qos: self.qos,
            retain: self.retain,
            topic: self.topic@,
            pkid: self.pkid,
            payload: octets(self.payload),
        }
    }
}

impl Clone for Publish {
    fn clone(&self) -> (r: Self)
        ensures
            r@ == self@,
    {
        Publish {
            dup: self.dup,
            qos: self.qos,
            retain: self.retain,
            topic: self.topic.clone(),
            pkid: self.pkid,
            payload: self.payload.clone(),
        }
    }
}

impl Publish {
    pub fn new<S: Into<String>, P: Into<Vec<u8>>>(topic: S, qos: QoS, payload: P) -> (r: Publish)
        ensures
            call_ensures(<S as Into<String>>::into, (topic,), r.topic),
            exists|v: Vec<u8>|
                #[trigger] call_ensures(<P as Into<Vec<u8>>>::into, (payload,), v) && octets(
                    r.payload,
                ) == v@,
            r.qos == qos,
            r.pkid == 0,
            !r.dup,
            !r.retain,
    {
        let data: Vec<u8> = payload.into();
        Publish {
            dup: false,
            qos,
            retain: false,
            pkid: 0,
            topic: topic.into(),
            payload: crate::octets::bytes_from_vec(data),
        }
    }
}

/// Acknowledgement to QoS1 publish
#[derive(Debug, Clone, Copy, PartialEq, Eq)]
pub struct PubAck {
    pub pkid: u16,
}

impl PubAck {
    pub fn new(pkid: u16) -> (r: PubAck)
        ensures
            r.pkid == pkid,
    {
        PubAck { pkid }
    }
}

/// Acknowledgement to QoS2 publish
#[derive(Debug, Clone, Copy, PartialEq, Eq)]
pub struct PubRec {
    pub pkid: u16,
}

impl PubRec {
    pub fn new(pkid: u16) -> (r: PubRec)
        ensures
            r.pkid == pkid,
    {
        PubRec { pkid }
    }
}

/// Release of a QoS2 publish, the answer to its pubrec
#[derive(Debug, Clone, Copy, PartialEq, Eq)]
pub struct PubRel {
    pub pkid: u16,
}

impl PubRel {
    pub fn new(pkid: u16) -> (r: PubRel)
        ensures
            r.pkid == pkid,
    {
        PubRel { pkid }
    }
}

/// Completion of a QoS2 publish, the answer to its pubrel
#[derive(Debug, Clone, Copy, PartialEq, Eq)]
pub struct PubComp {
    pub pkid: u16,
}

impl PubComp {
    pub fn new(pkid: u16) -> (r: PubComp)
        ensures
            r.pkid == pkid,
    {
        PubComp { pkid }
    }
}

///  Subscription filter
#[derive(Debug, Clone, PartialEq, Eq)]
pub struct SubscribeFilter {
    pub path: String,
    pub qos: QoS,
}

impl SubscribeFilter {
    pub fn new(path: String, qos: QoS) -> (r: SubscribeFilter)
        ensures
            r.path == path,
            r.qos == qos,
    {
        SubscribeFilter { path, qos }
    }
}

/// Subscription packet
#[derive(Debug, Clone, PartialEq, Eq)]
pub struct Subscribe {
    pub pkid: u16,
    pub filters: Vec<SubscribeFilter>,
}

/// Answer to one filter of a subscription
#[derive(Debug, Clone, Copy, PartialEq, Eq, Structural)]
pub enum SubscribeReasonCode {
    Success(QoS),
    Failure,
}

/// Acknowledgement to subscribe
#[derive(Debug, Clone, PartialEq, Eq)]
pub struct SubAck {
    pub pkid: u16,
    pub return_codes: Vec<SubscribeReasonCode>,
}

impl SubAck {
    pub fn new(pkid: u16, return_codes: Vec<SubscribeReasonCode>) -> (r: SubAck)
        ensures
            r.pkid == pkid,
            r.return_codes == return_codes,
    {
        SubAck { pkid, return_codes }
    }
}

/// Unsubscribe packet
#[derive(Debug, Clone, PartialEq, Eq)]
pub struct Unsubscribe {
    pub pkid: u16,
    pub topics: Vec<String>,
}

/// Acknowledgement to unsubscribe
#[derive(Debug, Clone, Copy, PartialEq, Eq)]
pub struct UnsubAck {
    pub pkid: u16,
}

impl UnsubAck {
    pub fn new(pkid: u16) -> (r: UnsubAck)
        ensures
            r.pkid == pkid,
    {
        UnsubAck { pkid }
    }
}

#[derive(Debug, Clone, Copy, PartialEq, Eq)]
pub struct PingReq;

#[derive(Debug, Clone, Copy, PartialEq, Eq)]
pub struct PingResp;

#[derive(Debug, Clone, Copy, PartialEq, Eq)]
pub struct Disconnect;

/// Encapsulates all MQTT packet types
#[derive(Debug, Clone, PartialEq, Eq)]
pub enum Packet {
    Connect(Connect),
    ConnAck(ConnAck),
    Publish(Publish),
    PubAck(PubAck),
    PubRec(PubRec),
    PubRel(PubRel),
    PubComp(PubComp),
    Subscribe(Subscribe),
    SubAck(SubAck),
    Unsubscribe(Unsubscribe),
    UnsubAck(UnsubAck),
    PingReq,
    PingResp,
    Disconnect,
}

/// What a packet holds.
#[verifier::ext_equal]
pub enum PacketModel {
    Connect(Connect),
    ConnAck(ConnAck),
    Publish(PublishModel),
    PubAck(PubAck),
    PubRec(PubRec),
    PubRel(PubRel),
    PubComp(PubComp),
    Subscribe(Subscribe),
    SubAck(SubAck),
    Unsubscribe(Unsubscribe),
    UnsubAck(UnsubAck),
    PingReq,
    PingResp,
    Disconnect,
}

impl View for Packet {
    type V = PacketModel;

    open spec fn view(&self) -> PacketModel {
        match *self {
            Packet::Connect(p) => PacketModel::Connect(p),
            Packet::ConnAck(p) => PacketModel::ConnAck(p),
            Packet::Publish(p) => PacketModel::Publish(p@),
            Packet::PubAck(p) => PacketModel::PubAck(p),
            Packet::PubRec(p) => PacketModel::PubRec(p),
            Packet::PubRel(p) => PacketModel::PubRel(p),
            Packet::PubComp(p) => PacketModel::PubComp(p),
            Packet::Subscribe(p) => PacketModel::Subscribe(p),
            Packet::SubAck(p) => PacketModel::SubAck(p),
            Packet::Unsubscribe(p) => PacketModel::Unsubscribe(p),
            Packet::UnsubAck(p) => PacketModel::UnsubAck(p),
            Packet::PingReq => PacketModel::PingReq,
            Packet::PingResp => PacketModel::PingResp,
            Packet::Disconnect => PacketModel::Disconnect,
        }
    }
}

} // verus!
