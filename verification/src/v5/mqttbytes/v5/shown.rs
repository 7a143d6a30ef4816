//! What the values of packets, requests and events show of their fields.
use vstd::prelude::*;

use super::auth::{Auth, AuthModel};
use super::connack::{ConnAck, ConnAckModel};
use super::connect::{connect_model, flag, Connect, ConnectModel, LastWill, Login};
use super::disconnect::{Disconnect, DisconnectModel};
use super::format::{identifiers_are_noted, section_is_read};
use super::frame::{type_of, FixedHeader, PacketType};
use super::layout::first_octet_names_the_kind;
use super::ordered::{packet_order, will_order, PropertyOrder};
use super::packet::{Packet, PacketModel, WirePacket};
use super::property::{canonical, ids, ids_opt, section_ids, take_properties, Owner};
use super::puback::{PubAck, PubAckModel};
use super::pubcomp::{PubComp, PubCompModel};
use super::publish::{Publish, PublishModel, PublishWire};
use super::pubrec::{PubRec, PubRecModel};
use super::pubrel::{PubRel, PubRelModel};
use super::suback::{SubAck, SubAckModel};
use super::subscribe::{Filter, Subscribe, SubscribeModel};
use super::unsuback::{UnsubAck, UnsubAckModel};
use super::unsubscribe::{Unsubscribe, UnsubscribeModel};
use super::wire::{take_binary, take_section, take_text};
use crate::octets::octets;
use crate::v5::event::{Event, EventModel, Request, RequestModel};
use crate::v5::mqttbytes::Error;

verus! {

/// A value shows its fields as they are, and typing its properties changes nothing else.
pub proof fn connack_shows_its_fields(p: ConnAck, m: ConnAckModel)
    ensures
        p@.session_present == p.session_present,
        p@.code == p.code,
        p@.properties is Some <==> p.properties is Some,
        p.properties is Some ==> p@.properties->0 == p.properties->0@,
        m.canonical().session_present == m.session_present,
        m.canonical().code == m.code,
        m.canonical().properties is Some <==> m.properties is Some,
        m.properties is Some ==> m.canonical().properties->0 == canonical(
            Owner::ConnAck,
            m.properties->0,
        ),
{
}

/// A value shows its fields as they are, and typing its properties changes nothing else.
pub proof fn puback_shows_its_fields(p: PubAck, m: PubAckModel)
    ensures
        p@.pkid == p.pkid,
        p@.reason == p.reason,
        p@.properties is Some <==> p.properties is Some,
        p.properties is Some ==> p@.properties->0 == p.properties->0@,
        m.canonical().pkid == m.pkid,
        m.canonical().reason == m.reason,
        m.canonical().properties is Some <==> m.properties is Some,
        m.properties is Some ==> m.canonical().properties->0 == canonical(
            Owner::Acknowledgement,
            m.properties->0,
        ),
{
}

/// A value shows its fields as they are, and typing its properties changes nothing else.
pub proof fn pubrec_shows_its_fields(p: PubRec, m: PubRecModel)
    ensures
        p@.pkid == p.pkid,
        p@.reason == p.reason,
        p@.properties is Some <==> p.properties is Some,
        p.properties is Some ==> p@.properties->0 == p.properties->0@,
        m.canonical().pkid == m.pkid,
        m.canonical().reason == m.reason,
        m.canonical().properties is Some <==> m.properties is Some,
        m.properties is Some ==> m.canonical().properties->0 == canonical(
            Owner::Acknowledgement,
            m.properties->0,
        ),
{
}

/// A value shows its fields as they are, and typing its properties changes nothing else.
pub proof fn pubrel_shows_its_fields(p: PubRel, m: PubRelModel)
    ensures
        p@.pkid == p.pkid,
        p@.reason == p.reason,
        p@.properties is Some <==> p.properties is Some,
        p.properties is Some ==> p@.properties->0 == p.properties->0@,
        m.canonical().pkid == m.pkid,
        m.canonical().reason == m.reason,
        m.canonical().properties is Some <==> m.properties is Some,
        m.properties is Some ==> m.canonical().properties->0 == canonical(
            Owner::Acknowledgement,
            m.properties->0,
        ),
{
}

/// A value shows its fields as they are, and typing its properties changes nothing else.
pub proof fn pubcomp_shows_its_fields(p: PubComp, m: PubCompModel)
    ensures
        p@.pkid == p.pkid,
        p@.reason == p.reason,
        p@.properties is Some <==> p.properties is Some,
        p.properties is Some ==> p@.properties->0 == p.properties->0@,
        m.canonical().pkid == m.pkid,
        m.canonical().reason == m.reason,
        m.canonical().properties is Some <==> m.properties is Some,
        m.properties is Some ==> m.canonical().properties->0 == canonical(
            Owner::Acknowledgement,
            m.properties->0,
        ),
{
}

/// A value shows its fields as they are, and typing its properties changes nothing else.
pub proof fn disconnect_shows_its_fields(p: Disconnect, m: DisconnectModel)
    ensures
        p@.reason_code == p.reason_code,
        p@.properties is Some <==> p.properties is Some,
        p.properties is Some ==> p@.properties->0 == p.properties->0@,
        m.canonical().reason_code == m.reason_code,
        m.canonical().properties is Some <==> m.properties is Some,
        m.properties is Some ==> m.canonical().properties->0 == canonical(
            Owner::Disconnect,
            m.properties->0,
        ),
{
}

/// A value shows its fields as they are, and typing its properties changes nothing else.
pub proof fn auth_shows_its_fields(p: Auth, m: AuthModel)
    ensures
        p@.code == p.code,
        p@.properties is Some <==> p.properties is Some,
        p.properties is Some ==> p@.properties->0 == p.properties->0@,
        m.canonical().code == m.code,
        m.canonical().properties is Some <==> m.properties is Some,
        m.properties is Some ==> m.canonical().properties->0 == canonical(
            Owner::Auth,
            m.properties->0,
        ),
{
}

/// A value shows its fields as they are, and typing its properties changes nothing else.
pub proof fn suback_shows_its_fields(p: SubAck, m: SubAckModel)
    ensures
        p@.pkid == p.pkid,
        p@.return_codes == p.return_codes@,
        p@.properties is Some <==> p.properties is Some,
        p.properties is Some ==> p@.properties->0 == p.properties->0@,
        m.canonical().pkid == m.pkid,
        m.canonical().return_codes == m.return_codes,
        m.canonical().properties is Some <==> m.properties is Some,
        m.properties is Some ==> m.canonical().properties->0 == canonical(
            Owner::Acknowledgement,
            m.properties->0,
        ),
{
}

/// A value shows its fields as they are, and typing its properties changes nothing else.
pub proof fn unsuback_shows_its_fields(p: UnsubAck, m: UnsubAckModel)
    ensures
        p@.pkid == p.pkid,
        p@.reasons == p.reasons@,
        p@.properties is Some <==> p.properties is Some,
        p.properties is Some ==> p@.properties->0 == p.properties->0@,
        m.canonical().pkid == m.pkid,
        m.canonical().reasons == m.reasons,
        m.canonical().properties is Some <==> m.properties is Some,
        m.properties is Some ==> m.canonical().properties->0 == canonical(
            Owner::Acknowledgement,
            m.properties->0,
        ),
{
}

/// A value shows its fields as they are, and typing its properties changes nothing else.
pub proof fn subscribe_shows_its_fields(p: Subscribe, m: SubscribeModel)
    ensures
        p@.pkid == p.pkid,
        p@.filters.len() == p.filters@.len(),
        forall|i: int|
            0 <= i < p.filters@.len() ==> (#[trigger] p@.filters[i]) == p.filters@[i]@,
        p@.properties is Some <==> p.properties is Some,
        p.properties is Some ==> p@.properties->0 == p.properties->0@,
        m.canonical().pkid == m.pkid,
        m.canonical().filters == m.filters,
        m.canonical().properties is Some <==> m.properties is Some,
        m.properties is Some ==> m.canonical().properties->0 == canonical(
            Owner::Subscribe,
            m.properties->0,
        ),
{
}

/// A value shows its fields as they are, and typing its properties changes nothing else.
pub proof fn unsubscribe_shows_its_fields(p: Unsubscribe, m: UnsubscribeModel)
    ensures
        p@.pkid == p.pkid,
        p@.filters.len() == p.filters@.len(),
        forall|i: int|
            0 <= i < p.filters@.len() ==> (#[trigger] p@.filters[i]) == p.filters@[i]@,
        p@.properties is Some <==> p.properties is Some,
        p.properties is Some ==> p@.properties->0 == p.properties->0@,
        m.canonical().pkid == m.pkid,
        m.canonical().filters == m.filters,
        m.canonical().properties is Some <==> m.properties is Some,
        m.properties is Some ==> m.canonical().properties->0 == canonical(
            Owner::Unsubscribe,
            m.properties->0,
        ),
{
}

/// A filter shows its fields as they are.
pub proof fn filter_shows_its_fields(f: Filter)
    ensures
        f@.path == f.path@,
        f@.qos == f.qos,
        f@.nolocal == f.nolocal,
        f@.preserve_retain == f.preserve_retain,
        f@.retain_forward_rule == f.retain_forward_rule,
{
}

/// A publication shows its fields as they are, on the wire too, and typing its properties changes
/// nothing else.
pub proof fn publish_shows_its_fields(p: Publish, m: PublishModel, w: PublishWire)
    ensures
        p@.dup == p.dup,
        p@.qos == p.qos,
        p@.retain == p.retain,
        p@.pkid == p.pkid,
        p@.topic == octets(p.topic),
        p@.payload == octets(p.payload),
        p@.properties is Some <==> p.properties is Some,
        p.properties is Some ==> p@.properties->0 == p.properties->0@,
        m.wire().dup == m.dup,
        m.wire().qos == m.qos,
        m.wire().retain == m.retain,
        m.wire().pkid == m.pkid,
        m.wire().topic == m.topic,
        m.wire().payload == m.payload,
        m.wire().properties is Some <==> m.properties is Some,
        m.properties is Some ==> m.wire().properties->0 == m.properties->0.entries(),
        w.canonical().dup == w.dup,
        w.canonical().qos == w.qos,
        w.canonical().retain == w.retain,
        w.canonical().pkid == w.pkid,
        w.canonical().topic == w.topic,
        w.canonical().payload == w.payload,
        w.canonical().properties is Some <==> w.properties is Some,
        w.properties is Some ==> w.canonical().properties->0 == canonical(
            Owner::Publish,
            w.properties->0,
        ),
{
}

/// A will and a login show their fields as they are.
pub proof fn will_and_login_show_their_fields(w: LastWill, l: Login)
    ensures
        w@.topic == octets(w.topic),
        w@.message == octets(w.message),
        w@.qos == w.qos,
        w@.retain == w.retain,
        w@.properties is Some <==> w.properties is Some,
        w.properties is Some ==> w@.properties->0 == w.properties->0@,
        l@.username is Some <==> l.username is Some,
        l.username is Some ==> l@.username->0 == l.username->0@,
        l@.password is Some <==> l.password is Some,
        l.password is Some ==> l@.password->0 == octets(l.password->0),
{
}

/// A request for a connection shows its fields, its will and its login as they are, and typing the
/// properties changes nothing else.
pub proof fn connect_shows_its_fields(
    p: Connect,
    will: Option<LastWill>,
    login: Option<Login>,
    m: ConnectModel,
)
    ensures
        connect_model(p, will, login).keep_alive == p.keep_alive,
        connect_model(p, will, login).client_id == p.client_id@,
        connect_model(p, will, login).clean_start == p.clean_start,
        connect_model(p, will, login).properties is Some <==> p.properties is Some,
        p.properties is Some ==> connect_model(p, will, login).properties->0 == p.properties->0@,
        connect_model(p, will, login).will is Some <==> will is Some,
        will is Some ==> connect_model(p, will, login).will->0 == will->0@,
        connect_model(p, will, login).login is Some <==> login is Some,
        login is Some ==> connect_model(p, will, login).login->0 == login->0@,
        m.canonical().keep_alive == m.keep_alive,
        m.canonical().client_id == m.client_id,
        m.canonical().clean_start == m.clean_start,
        m.canonical().login == m.login,
        m.canonical().properties is Some <==> m.properties is Some,
        m.properties is Some ==> m.canonical().properties->0 == canonical(
            Owner::Connect,
            m.properties->0,
        ),
        m.canonical().will is Some <==> m.will is Some,
        m.will is Some ==> {
            let a = m.canonical().will->0;
            let b = m.will->0;
            &&& a.topic == b.topic
            &&& a.message == b.message
            &&& a.qos == b.qos
            &&& a.retain == b.retain
            &&& a.properties is Some <==> b.properties is Some
            &&& b.properties is Some ==> a.properties->0 == canonical(Owner::Will, b.properties->0)
        },
{
}

/// A packet shows the packet of its kind, on the wire too, and typing its properties does not
/// change its kind.
pub proof fn packet_shows_its_kind(packet: Packet, m: PacketModel, w: WirePacket)
    ensures
        packet matches Packet::Auth(p) ==> packet@ == PacketModel::Auth(p@),
        packet matches Packet::ConnAck(p) ==> packet@ == PacketModel::ConnAck(p@),
        packet matches Packet::Publish(p) ==> packet@ == PacketModel::Publish(p@),
        packet matches Packet::PubAck(p) ==> packet@ == PacketModel::PubAck(p@),
        packet matches Packet::Subscribe(p) ==> packet@ == PacketModel::Subscribe(p@),
        packet matches Packet::SubAck(p) ==> packet@ == PacketModel::SubAck(p@),
        packet matches Packet::PubRec(p) ==> packet@ == PacketModel::PubRec(p@),
        packet matches Packet::PubRel(p) ==> packet@ == PacketModel::PubRel(p@),
        packet matches Packet::PubComp(p) ==> packet@ == PacketModel::PubComp(p@),
        packet matches Packet::Unsubscribe(p) ==> packet@ == PacketModel::Unsubscribe(p@),
        packet matches Packet::UnsubAck(p) ==> packet@ == PacketModel::UnsubAck(p@),
        packet matches Packet::Disconnect(p) ==> packet@ == PacketModel::Disconnect(p@),
        packet matches Packet::Connect(p, will, login) ==> packet@ == PacketModel::Connect(
            connect_model(p, will, login),
        ),
        packet is PingReq <==> packet@ is PingReq,
        packet is PingResp <==> packet@ is PingResp,
        m matches PacketModel::Auth(p) ==> m.wire() == WirePacket::Auth(p),
        m matches PacketModel::ConnAck(p) ==> m.wire() == WirePacket::ConnAck(p),
        m matches PacketModel::Publish(p) ==> m.wire() == WirePacket::Publish(p.wire()),
        m matches PacketModel::PubAck(p) ==> m.wire() == WirePacket::PubAck(p),
        m matches PacketModel::Subscribe(p) ==> m.wire() == WirePacket::Subscribe(p),
        m matches PacketModel::SubAck(p) ==> m.wire() == WirePacket::SubAck(p),
        m matches PacketModel::PubRec(p) ==> m.wire() == WirePacket::PubRec(p),
        m matches PacketModel::PubRel(p) ==> m.wire() == WirePacket::PubRel(p),
        m matches PacketModel::PubComp(p) ==> m.wire() == WirePacket::PubComp(p),
        m matches PacketModel::Unsubscribe(p) ==> m.wire() == WirePacket::Unsubscribe(p),
        m matches PacketModel::UnsubAck(p) ==> m.wire() == WirePacket::UnsubAck(p),
        m matches PacketModel::Disconnect(p) ==> m.wire() == WirePacket::Disconnect(p),
        m matches PacketModel::Connect(p) ==> m.wire() == WirePacket::Connect(p),
        m is PingReq ==> m.wire() is PingReq,
        m is PingResp ==> m.wire() is PingResp,
        w matches WirePacket::Auth(p) ==> w.canonical() == WirePacket::Auth(p.canonical()),
        w matches WirePacket::ConnAck(p) ==> w.canonical() == WirePacket::ConnAck(p.canonical()),
        w matches WirePacket::Publish(p) ==> w.canonical() == WirePacket::Publish(p.canonical()),
        w matches WirePacket::PubAck(p) ==> w.canonical() == WirePacket::PubAck(p.canonical()),
        w matches WirePacket::Subscribe(p) ==> w.canonical()
            == WirePacket::Subscribe(p.canonical()),
        w matches WirePacket::SubAck(p) ==> w.canonical() == WirePacket::SubAck(p.canonical()),
        w matches WirePacket::PubRec(p) ==> w.canonical() == WirePacket::PubRec(p.canonical()),
        w matches WirePacket::PubRel(p) ==> w.canonical() == WirePacket::PubRel(p.canonical()),
        w matches WirePacket::PubComp(p) ==> w.canonical() == WirePacket::PubComp(p.canonical()),
        w matches WirePacket::Unsubscribe(p) ==> w.canonical()
            == WirePacket::Unsubscribe(p.canonical()),
        w matches WirePacket::UnsubAck(p) ==> w.canonical() == WirePacket::UnsubAck(p.canonical()),
        w matches WirePacket::Disconnect(p) ==> w.canonical()
            == WirePacket::Disconnect(p.canonical()),
        w matches WirePacket::Connect(p) ==> w.canonical() == WirePacket::Connect(p.canonical()),
        w is PingReq ==> w.canonical() is PingReq,
        w is PingResp ==> w.canonical() is PingResp,
{
}

/// A request and an event show what they hold.
pub proof fn request_shows_its_kind(request: Request, event: Event)
    ensures
        request matches Request::Publish(p) ==> request@ == RequestModel::Publish(p@),
        request matches Request::PubAck(p) ==> request@ == RequestModel::PubAck(p@),
        request matches Request::PubRec(p) ==> request@ == RequestModel::PubRec(p@),
        request matches Request::PubComp(p) ==> request@ == RequestModel::PubComp(p@),
        request matches Request::PubRel(p) ==> request@ == RequestModel::PubRel(p@),
        request matches Request::Subscribe(p) ==> request@ == RequestModel::Subscribe(p@),
        request matches Request::SubAck(p) ==> request@ == RequestModel::SubAck(p@),
        request matches Request::Unsubscribe(p) ==> request@ == RequestModel::Unsubscribe(p@),
        request matches Request::UnsubAck(p) ==> request@ == RequestModel::UnsubAck(p@),
        request is PingReq ==> request@ is PingReq,
        request is PingResp ==> request@ is PingResp,
        request is Disconnect ==> request@ is Disconnect,
        event matches Event::Incoming(p) ==> event@ == EventModel::Incoming(p@),
        event matches Event::Outgoing(o) ==> event@ == EventModel::Outgoing(o),
{
}

/// The order of a packet lists the identifiers of its properties as they stand, and that of its will
/// those of the will.
pub proof fn order_lists_the_properties(w: WirePacket, order: PropertyOrder)
    ensures
        ({
            let properties = match w {
                WirePacket::Auth(p) => p.properties,
                WirePacket::ConnAck(p) => p.properties,
                WirePacket::Publish(p) => p.properties,
                WirePacket::PubAck(p) => p.properties,
                WirePacket::Subscribe(p) => p.properties,
                WirePacket::SubAck(p) => p.properties,
                WirePacket::PubRec(p) => p.properties,
                WirePacket::PubRel(p) => p.properties,
                WirePacket::PubComp(p) => p.properties,
                WirePacket::Unsubscribe(p) => p.properties,
                WirePacket::UnsubAck(p) => p.properties,
                WirePacket::Disconnect(p) => p.properties,
                WirePacket::Connect(p) => p.properties,
                WirePacket::PingReq => None,
                WirePacket::PingResp => None,
            };
            &&& properties is Some ==> w.order() == ids(properties->0)
            &&& properties is None ==> w.order().len() == 0
        }),
        ({
            let will = w matches WirePacket::Connect(p) && p.will is Some
                && p.will->0.properties is Some;
            &&& will ==> w.will_order() == ids(w->Connect_0.will->0.properties->0)
            &&& !will ==> w.will_order().len() == 0
        }),
        packet_order(Some(&order)) == Some(order.packet@),
        will_order(Some(&order)) == Some(order.will@),
        packet_order(None) is None,
        will_order(None) is None,
{
}

/// What is noted of a packet is what is noted of the fields of the kind that its first octet names.
pub proof fn properties_are_noted_by_kind(h: FixedHeader, whole: Seq<u8>)
    ensures
        ({
            let fields = whole.skip(h.fixed_header_len as int);
            let some = h.remaining_len > 0;
            let noted = WirePacket::noted(h, whole);
            &&& !some ==> noted.len() == 0
            &&& type_of(h.byte1) == Ok::<PacketType, Error>(PacketType::Publish) && some ==> noted
                == PublishWire::noted(h.byte1, fields)
            &&& h.byte1 == 0x10 && some ==> noted == ConnectModel::noted(fields)
            &&& h.byte1 == 0x20 && some ==> noted == ConnAckModel::noted(fields)
            &&& h.byte1 == 0x40 && some ==> noted == PubAckModel::noted(fields)
            &&& h.byte1 == 0x50 && some ==> noted == PubRecModel::noted(fields)
            &&& h.byte1 == 0x62 && some ==> noted == PubRelModel::noted(fields)
            &&& h.byte1 == 0x70 && some ==> noted == PubCompModel::noted(fields)
            &&& h.byte1 == 0x82 && some ==> noted == SubscribeModel::noted(fields)
            &&& h.byte1 == 0x90 && some ==> noted == SubAckModel::noted(fields)
            &&& h.byte1 == 0xA2 && some ==> noted == UnsubscribeModel::noted(fields)
            &&& h.byte1 == 0xB0 && some ==> noted == UnsubAckModel::noted(fields)
            &&& h.byte1 == 0xE0 && some ==> noted == DisconnectModel::noted(fields)
            &&& h.byte1 == 0xF0 && some ==> noted == AuthModel::noted(fields)
            &&& h.byte1 == 0x10 && some ==> WirePacket::noted_will(h, whole)
                == ConnectModel::noted_will(fields)
            &&& h.byte1 != 0x10 ==> WirePacket::noted_will(h, whole).len() == 0
        }),
{
    first_octet_names_the_kind(h.byte1);
}

proof fn section_is_noted(owner: Owner, s: Seq<u8>)
    requires
        take_properties(owner, s).0 is Ok,
    ensures
        section_ids(owner, s) == ids_opt(take_properties(owner, s).0->Ok_0),
{
    let es = take_properties(owner, s).0->Ok_0;
    let rest = take_properties(owner, s).1;
    section_is_read(owner, s, es, rest);
    match es {
        Some(v) => identifiers_are_noted(owner, v, 0, Seq::empty(), rest),
        None => {
            reveal(super::property::noted_ids);
            assert(s[0] == 0);
            assert(take_section(s).0->Ok_0 =~= Seq::<u8>::empty());
            assert(ids(Seq::empty()) =~= Seq::<u8>::empty());
        },
    }
}

/// Of a request for a connection and of a publication that are read, the identifiers of all their
/// properties are noted, in the order in which they stand; and so are those of a will.
pub proof fn what_is_read_is_noted(first: u8, body: Seq<u8>)
    ensures
        ConnectModel::decode(body) matches Ok(m) ==> ConnectModel::noted(body) == ids_opt(
            m.properties,
        ) && ConnectModel::noted_will(body) == if m.will is Some {
            ids_opt(m.will->0.properties)
        } else {
            Seq::empty()
        },
        PublishWire::decode(first, body) matches Ok(m) ==> PublishWire::noted(first, body)
            == ids_opt(m.properties),
{
    if ConnectModel::decode(body) is Ok {
        let head = take_text(body).1;
        let flags = head[1];
        let s = head.skip(2).skip(2);
        section_is_noted(Owner::Connect, s);
        let a = take_properties(Owner::Connect, s).1;
        let b = take_text(a).1;
        if flag(flags, 4) {
            section_is_noted(Owner::Will, b);
        }
    }
    if PublishWire::decode(first, body) is Ok {
        let rest = take_binary(body).1;
        let tail = if (first / 2) % 4 == 0 {
            rest
        } else {
            rest.skip(2)
        };
        section_is_noted(Owner::Publish, tail);
    }
}

} // verus!
