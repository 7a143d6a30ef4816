//! What is wrong with a packet that is not read, told from its octets.
use vstd::prelude::*;

use super::auth::{AuthModel, AuthReasonCode};
use super::connack::{ConnAckModel, ConnectReturnCode};
use super::connect::{take_login, take_will, ConnectModel, WillModel};
use super::disconnect::{DisconnectModel, DisconnectReasonCode};
use super::format::numbers_are_highest_first;
use super::frame::{type_of, FixedHeader};
use super::layout::{
    auth_number, disconnect_number, first_octet_names_the_kind, is_current, puback_number,
    pubcomp_number, pubrec_number, pubrel_number, return_number, suback_number, unsuback_number,
};
use super::packet::WirePacket;
use super::property::{section_ids, take_properties, Owner};
use super::puback::{PubAckModel, PubAckReason};
use super::pubcomp::{PubCompModel, PubCompReason};
use super::publish::PublishWire;
use super::pubrec::{PubRecModel, PubRecReason};
use super::pubrel::{PubRelModel, PubRelReason};
use super::suback::{suback_reasons, SubAckModel, SubscribeReasonCode};
use super::subscribe::{take_subscribe_filter, FilterModel, SubscribeModel};
use super::unsuback::{unsuback_reasons, UnsubAckModel, UnsubAckReason};
use super::unsubscribe::UnsubscribeModel;
use super::wire::{take_binary, take_text};
use crate::v5::mqttbytes::Error;

verus! {

/// The answer to a connection is refused for its properties first, then for a flag that is neither
/// 0 nor 1 or tells of a session without success, then for a code that is not known, and then for
/// octets behind its end.
pub proof fn connack_is_refused(body: Seq<u8>)
    ensures
        ({
            let r = ConnAckModel::decode(body);
            let (section, rest) = take_properties(Owner::ConnAck, body.skip(2));
            if body.len() < 2 {
                r == Err::<ConnAckModel, Error>(Error::MalformedPacket)
            } else if section is Err {
                r == Err::<ConnAckModel, Error>(section->Err_0)
            } else if body[0] >= 2 || body[0] == 1 && body[1] != 0 {
                r == Err::<ConnAckModel, Error>(Error::MalformedPacket)
            } else if forall|code: ConnectReturnCode| #[trigger]
                is_current(code) ==> return_number(code) != body[1] {
                r == Err::<ConnAckModel, Error>(Error::InvalidConnectReturnCode(body[1]))
            } else if rest.len() > 0 {
                r == Err::<ConnAckModel, Error>(Error::MalformedPacket)
            } else {
                r is Ok
            }
        }),
{
    if body.len() >= 2 {
        if let Ok(code) = ConnectReturnCode::of(body[1]) {
            assert(is_current(code) && return_number(code) == body[1]);
        }
    }
}

/// An acknowledgement is refused where it has no identifier, for a reason that is not known, for
/// its properties, and for octets behind its end.
pub proof fn puback_is_refused(body: Seq<u8>)
    ensures
        ({
            let r = PubAckModel::decode(body);
            let (section, rest) = take_properties(Owner::Acknowledgement, body.skip(3));
            if body.len() < 2 {
                r == Err::<PubAckModel, Error>(Error::MalformedPacket)
            } else if body.len() > 2 && forall|reason: PubAckReason| #[trigger]
                puback_number(reason) != body[2] {
                r == Err::<PubAckModel, Error>(Error::InvalidReason(body[2]))
            } else if body.len() > 3 && section is Err {
                r == Err::<PubAckModel, Error>(section->Err_0)
            } else if body.len() > 3 && rest.len() > 0 {
                r == Err::<PubAckModel, Error>(Error::MalformedPacket)
            } else {
                r is Ok
            }
        }),
{
    numbers_are_highest_first(0, 0, body);
    if body.len() > 2 {
        assert(body.skip(2)[0] == body[2]);
        assert(body.skip(2).skip(1) =~= body.skip(3));
        if let Ok(reason) = PubAckReason::of(body[2]) {
            assert(puback_number(reason) == body[2]);
        }
    }
}

/// A receipt is refused where it has no identifier, for a reason that is not known, for its
/// properties, and for octets behind its end.
pub proof fn pubrec_is_refused(body: Seq<u8>)
    ensures
        ({
            let r = PubRecModel::decode(body);
            let (section, rest) = take_properties(Owner::Acknowledgement, body.skip(3));
            if body.len() < 2 {
                r == Err::<PubRecModel, Error>(Error::MalformedPacket)
            } else if body.len() > 2 && forall|reason: PubRecReason| #[trigger]
                pubrec_number(reason) != body[2] {
                r == Err::<PubRecModel, Error>(Error::InvalidReason(body[2]))
            } else if body.len() > 3 && section is Err {
                r == Err::<PubRecModel, Error>(section->Err_0)
            } else if body.len() > 3 && rest.len() > 0 {
                r == Err::<PubRecModel, Error>(Error::MalformedPacket)
            } else {
                r is Ok
            }
        }),
{
    numbers_are_highest_first(0, 0, body);
    if body.len() > 2 {
        assert(body.skip(2)[0] == body[2]);
        assert(body.skip(2).skip(1) =~= body.skip(3));
        if let Ok(reason) = PubRecReason::of(body[2]) {
            assert(pubrec_number(reason) == body[2]);
        }
    }
}

/// A release is refused where it has no identifier, for a reason that is not known, for its
/// properties, and for octets behind its end.
pub proof fn pubrel_is_refused(body: Seq<u8>)
    ensures
        ({
            let r = PubRelModel::decode(body);
            let (section, rest) = take_properties(Owner::Acknowledgement, body.skip(3));
            if body.len() < 2 {
                r == Err::<PubRelModel, Error>(Error::MalformedPacket)
            } else if body.len() > 2 && forall|reason: PubRelReason| #[trigger]
                pubrel_number(reason) != body[2] {
                r == Err::<PubRelModel, Error>(Error::InvalidReason(body[2]))
            } else if body.len() > 3 && section is Err {
                r == Err::<PubRelModel, Error>(section->Err_0)
            } else if body.len() > 3 && rest.len() > 0 {
                r == Err::<PubRelModel, Error>(Error::MalformedPacket)
            } else {
                r is Ok
            }
        }),
{
    numbers_are_highest_first(0, 0, body);
    if body.len() > 2 {
        assert(body.skip(2)[0] == body[2]);
        assert(body.skip(2).skip(1) =~= body.skip(3));
        if let Ok(reason) = PubRelReason::of(body[2]) {
            assert(pubrel_number(reason) == body[2]);
        }
    }
}

/// A confirmation is refused where it has no identifier, for a reason that is not known, for its
/// properties, and for octets behind its end.
pub proof fn pubcomp_is_refused(body: Seq<u8>)
    ensures
        ({
            let r = PubCompModel::decode(body);
            let (section, rest) = take_properties(Owner::Acknowledgement, body.skip(3));
            if body.len() < 2 {
                r == Err::<PubCompModel, Error>(Error::MalformedPacket)
            } else if body.len() > 2 && forall|reason: PubCompReason| #[trigger]
                pubcomp_number(reason) != body[2] {
                r == Err::<PubCompModel, Error>(Error::InvalidReason(body[2]))
            } else if body.len() > 3 && section is Err {
                r == Err::<PubCompModel, Error>(section->Err_0)
            } else if body.len() > 3 && rest.len() > 0 {
                r == Err::<PubCompModel, Error>(Error::MalformedPacket)
            } else {
                r is Ok
            }
        }),
{
    numbers_are_highest_first(0, 0, body);
    if body.len() > 2 {
        assert(body.skip(2)[0] == body[2]);
        assert(body.skip(2).skip(1) =~= body.skip(3));
        if let Ok(reason) = PubCompReason::of(body[2]) {
            assert(pubcomp_number(reason) == body[2]);
        }
    }
}

/// The end of a connection is refused for a reason that is not known, for its properties, and for
/// octets behind its end.
pub proof fn disconnect_is_refused(body: Seq<u8>)
    ensures
        ({
            let r = DisconnectModel::decode(body);
            let (section, rest) = take_properties(Owner::Disconnect, body.skip(1));
            if body.len() > 0 && forall|reason: DisconnectReasonCode| #[trigger]
                disconnect_number(reason) != body[0] {
                r == Err::<DisconnectModel, Error>(Error::InvalidReason(body[0]))
            } else if body.len() > 1 && section is Err {
                r == Err::<DisconnectModel, Error>(section->Err_0)
            } else if body.len() > 1 && rest.len() > 0 {
                r == Err::<DisconnectModel, Error>(Error::MalformedPacket)
            } else {
                r is Ok
            }
        }),
{
    if body.len() > 0 {
        if let Ok(reason) = DisconnectReasonCode::of(body[0]) {
            assert(disconnect_number(reason) == body[0]);
        }
    }
}

/// An authentication is refused for a reason that is not known, for its properties, and for octets
/// behind its end.
pub proof fn auth_is_refused(body: Seq<u8>)
    ensures
        ({
            let r = AuthModel::decode(body);
            let (section, rest) = take_properties(Owner::Auth, body.skip(1));
            if body.len() > 0 && forall|reason: AuthReasonCode| #[trigger]
                auth_number(reason) != body[0] {
                r == Err::<AuthModel, Error>(Error::MalformedPacket)
            } else if body.len() > 1 && section is Err {
                r == Err::<AuthModel, Error>(section->Err_0)
            } else if body.len() > 1 && rest.len() > 0 {
                r == Err::<AuthModel, Error>(Error::MalformedPacket)
            } else {
                r is Ok
            }
        }),
{
    if body.len() > 0 {
        if let Some(reason) = AuthReasonCode::of(body[0]) {
            assert(auth_number(reason) == body[0]);
        }
    }
}

proof fn suback_reason_is_unknown(s: Seq<u8>)
    ensures
        suback_reasons(s) matches Err(e) ==> exists|i: int|
            0 <= i < s.len() && (forall|reason: SubscribeReasonCode| #[trigger]
                suback_number(reason) != s[i]) && e == Error::InvalidSubscribeReasonCode(
                #[trigger] s[i],
            ),
    decreases s.len(),
{
    if s.len() > 0 {
        let tail = s.skip(1);
        suback_reason_is_unknown(tail);
        if SubscribeReasonCode::of(s[0]) is Err {
            assert forall|reason: SubscribeReasonCode| #[trigger] suback_number(reason) != s[0] by {}
        } else if suback_reasons(tail) is Err {
            let i = choose|i: int|
                0 <= i < tail.len() && (forall|reason: SubscribeReasonCode| #[trigger]
                    suback_number(reason) != tail[i]) && suback_reasons(tail)->Err_0
                    == Error::InvalidSubscribeReasonCode(#[trigger] tail[i]);
            assert(tail[i] == s[i + 1]);
        }
    }
}

/// The answer to a subscription is refused where it has no identifier, for its properties, where it
/// has no reasons, and for a reason that is not known.
pub proof fn suback_is_refused(body: Seq<u8>)
    ensures
        ({
            let r = SubAckModel::decode(body);
            let (section, rest) = take_properties(Owner::Acknowledgement, body.skip(2));
            if body.len() < 2 {
                r == Err::<SubAckModel, Error>(Error::MalformedPacket)
            } else if section is Err {
                r == Err::<SubAckModel, Error>(section->Err_0)
            } else if rest.len() == 0 {
                r == Err::<SubAckModel, Error>(Error::MalformedPacket)
            } else {
                r matches Err(e) ==> exists|i: int|
                    0 <= i < rest.len() && (forall|reason: SubscribeReasonCode| #[trigger]
                        suback_number(reason) != rest[i]) && e
                        == Error::InvalidSubscribeReasonCode(#[trigger] rest[i])
            }
        }),
{
    numbers_are_highest_first(0, 0, body);
    suback_reason_is_unknown(take_properties(Owner::Acknowledgement, body.skip(2)).1);
}

proof fn unsuback_reason_is_unknown(s: Seq<u8>)
    ensures
        unsuback_reasons(s) matches Err(e) ==> exists|i: int|
            0 <= i < s.len() && (forall|reason: UnsubAckReason| #[trigger]
                unsuback_number(reason) != s[i]) && e == Error::InvalidSubscribeReasonCode(
                #[trigger] s[i],
            ),
    decreases s.len(),
{
    if s.len() > 0 {
        let tail = s.skip(1);
        unsuback_reason_is_unknown(tail);
        if UnsubAckReason::of(s[0]) is Err {
            assert forall|reason: UnsubAckReason| #[trigger] unsuback_number(reason) != s[0] by {}
        } else if unsuback_reasons(tail) is Err {
            let i = choose|i: int|
                0 <= i < tail.len() && (forall|reason: UnsubAckReason| #[trigger]
                    unsuback_number(reason) != tail[i]) && unsuback_reasons(tail)->Err_0
                    == Error::InvalidSubscribeReasonCode(#[trigger] tail[i]);
            assert(tail[i] == s[i + 1]);
        }
    }
}

/// The answer to the removal of subscriptions is refused where it has no identifier, for its
/// properties, where it has no reasons, and for a reason that is not known.
pub proof fn unsuback_is_refused(body: Seq<u8>)
    ensures
        ({
            let r = UnsubAckModel::decode(body);
            let (section, rest) = take_properties(Owner::Acknowledgement, body.skip(2));
            if body.len() < 2 {
                r == Err::<UnsubAckModel, Error>(Error::MalformedPacket)
            } else if section is Err {
                r == Err::<UnsubAckModel, Error>(section->Err_0)
            } else if rest.len() == 0 {
                r == Err::<UnsubAckModel, Error>(Error::MalformedPacket)
            } else {
                r matches Err(e) ==> exists|i: int|
                    0 <= i < rest.len() && (forall|reason: UnsubAckReason| #[trigger]
                        unsuback_number(reason) != rest[i]) && e
                        == Error::InvalidSubscribeReasonCode(#[trigger] rest[i])
            }
        }),
{
    numbers_are_highest_first(0, 0, body);
    unsuback_reason_is_unknown(take_properties(Owner::Acknowledgement, body.skip(2)).1);
}

/// A filter is refused for its path, where its options are missing, and for options that are not
/// known: those on retained messages first, then the quality of service.
pub proof fn filter_is_refused(s: Seq<u8>)
    ensures
        ({
            let r = take_subscribe_filter(s).0;
            let (path, rest) = take_text(s);
            if path is Err {
                r == Err::<FilterModel, Error>(path->Err_0)
            } else if rest.len() == 0 {
                r == Err::<FilterModel, Error>(Error::MalformedPacket)
            } else if (rest[0] / 16) % 4 == 3 {
                r == Err::<FilterModel, Error>(Error::InvalidRetainForwardRule(3))
            } else if rest[0] % 4 == 3 {
                r == Err::<FilterModel, Error>(Error::InvalidQoS(3))
            } else {
                r is Ok
            }
        }),
{
}

/// A subscription, and the removal of subscriptions, are refused where they have no identifier, for
/// their properties, and where they have no filters.
pub proof fn empty_subscription_is_refused(body: Seq<u8>)
    ensures
        ({
            let r = SubscribeModel::decode(body);
            let (section, rest) = take_properties(Owner::Subscribe, body.skip(2));
            if body.len() < 2 {
                r == Err::<SubscribeModel, Error>(Error::MalformedPacket)
            } else if section is Err {
                r == Err::<SubscribeModel, Error>(section->Err_0)
            } else if rest.len() == 0 {
                r == Err::<SubscribeModel, Error>(Error::EmptySubscription)
            } else {
                take_subscribe_filter(rest).0 matches Err(e) ==> r == Err::<
                    SubscribeModel,
                    Error,
                >(e)
            }
        }),
        ({
            let r = UnsubscribeModel::decode(body);
            let (section, rest) = take_properties(Owner::Unsubscribe, body.skip(2));
            if body.len() < 2 {
                r == Err::<UnsubscribeModel, Error>(Error::MalformedPacket)
            } else if section is Err {
                r == Err::<UnsubscribeModel, Error>(section->Err_0)
            } else if rest.len() == 0 {
                r == Err::<UnsubscribeModel, Error>(Error::EmptySubscription)
            } else {
                take_text(rest).0 matches Err(e) ==> r == Err::<UnsubscribeModel, Error>(e)
            }
        }),
{
}

/// A publication is refused for a quality of service that is not known, for its topic, where an
/// identifier is missing or zero, and for its properties.
pub proof fn publish_is_refused(first: u8, body: Seq<u8>)
    ensures
        ({
            let r = PublishWire::decode(first, body);
            let (topic, rest) = take_binary(body);
            let plain = (first / 2) % 4 == 0;
            let tail = if plain {
                rest
            } else {
                rest.skip(2)
            };
            let section = take_properties(Owner::Publish, tail).0;
            if (first / 2) % 4 == 3 {
                r == Err::<PublishWire, Error>(Error::InvalidQoS(3))
            } else if topic is Err {
                r == Err::<PublishWire, Error>(topic->Err_0)
            } else if !plain && rest.len() < 2 {
                r == Err::<PublishWire, Error>(Error::MalformedPacket)
            } else if !plain && rest[0] == 0 && rest[1] == 0 {
                r == Err::<PublishWire, Error>(Error::PacketIdZero)
            } else if section is Err {
                r == Err::<PublishWire, Error>(section->Err_0)
            } else {
                r is Ok
            }
        }),
{
}

/// A will is refused for flags without a will, for its properties, its topic and its message, and
/// for a quality of service that is not known.
pub proof fn will_is_refused(flags: u8, s: Seq<u8>)
    ensures
        ({
            let r = take_will(flags, s).0;
            let (section, a) = take_properties(Owner::Will, s);
            let (topic, b) = take_binary(a);
            let message = take_binary(b).0;
            if (flags / 4) % 2 == 0 {
                if (flags / 8) % 8 != 0 {
                    r == Err::<Option<WillModel>, Error>(Error::IncorrectPacketFormat)
                } else {
                    r is Ok
                }
            } else if section is Err {
                r == Err::<Option<WillModel>, Error>(section->Err_0)
            } else if topic is Err {
                r == Err::<Option<WillModel>, Error>(topic->Err_0)
            } else if message is Err {
                r == Err::<Option<WillModel>, Error>(message->Err_0)
            } else if (flags / 8) % 4 == 3 {
                r == Err::<Option<WillModel>, Error>(Error::InvalidQoS(3))
            } else {
                r is Ok
            }
        }),
{
}

/// A request for a connection is refused for the name of the protocol, then for its level, where
/// flags or the time to keep alive are missing, and then for each of its parts in turn, and for
/// octets behind its end.
pub proof fn connect_is_refused(body: Seq<u8>)
    ensures
        ({
            let r = ConnectModel::decode(body);
            let (name, head) = take_text(body);
            let s = head.skip(4);
            let (section, a) = take_properties(Owner::Connect, s);
            let (client, b) = take_text(a);
            let (will, c) = take_will(head[1], b);
            let (login, d) = take_login(head[1], c);
            if name is Err {
                r == Err::<ConnectModel, Error>(name->Err_0)
            } else if head.len() == 0 {
                r == Err::<ConnectModel, Error>(Error::MalformedPacket)
            } else if name->Ok_0 != "MQTT"@ {
                r == Err::<ConnectModel, Error>(Error::InvalidProtocol)
            } else if head[0] != 5 {
                r == Err::<ConnectModel, Error>(Error::InvalidProtocolLevel(head[0]))
            } else if head.len() < 4 {
                r == Err::<ConnectModel, Error>(Error::MalformedPacket)
            } else if section is Err {
                r == Err::<ConnectModel, Error>(section->Err_0)
            } else if client is Err {
                r == Err::<ConnectModel, Error>(client->Err_0)
            } else if will is Err {
                r == Err::<ConnectModel, Error>(will->Err_0)
            } else if login is Err {
                r == Err::<ConnectModel, Error>(login->Err_0)
            } else if d.len() > 0 {
                r == Err::<ConnectModel, Error>(Error::MalformedPacket)
            } else {
                r is Ok
            }
        }),
{
    let head = take_text(body).1;
    if head.len() >= 4 {
        assert(head.skip(2).skip(2) =~= head.skip(4));
    }
}

/// A packet without fields is refused where its kind needs some, and a ping or its answer where it
/// has some. Other packets are refused for what is wrong with their fields.
pub proof fn packet_is_refused_by_kind(h: FixedHeader, whole: Seq<u8>)
    requires
        whole.len() == h.fixed_header_len + h.remaining_len,
        type_of(h.byte1) is Ok,
    ensures
        ({
            let fields = whole.skip(h.fixed_header_len as int);
            let some = h.remaining_len > 0;
            let r = WirePacket::decode(h, whole);
            &&& !some && h.byte1 < 0xC0 ==> r == Err::<WirePacket, Error>(Error::PayloadRequired)
            &&& some && (h.byte1 == 0xC0 || h.byte1 == 0xD0) ==> r == Err::<WirePacket, Error>(
                Error::MalformedPacket,
            )
            &&& 0x30 <= h.byte1 < 0x40 && some ==> (PublishWire::decode(
                h.byte1,
                fields,
            ) matches Err(e) ==> r == Err::<WirePacket, Error>(e))
            &&& h.byte1 == 0x10 && some ==> (ConnectModel::decode(fields) matches Err(e)
                ==> r == Err::<WirePacket, Error>(e))
            &&& h.byte1 == 0x20 && some ==> (ConnAckModel::decode(fields) matches Err(e)
                ==> r == Err::<WirePacket, Error>(e))
            &&& h.byte1 == 0x40 && some ==> (PubAckModel::decode(fields) matches Err(e)
                ==> r == Err::<WirePacket, Error>(e))
            &&& h.byte1 == 0x50 && some ==> (PubRecModel::decode(fields) matches Err(e)
                ==> r == Err::<WirePacket, Error>(e))
            &&& h.byte1 == 0x62 && some ==> (PubRelModel::decode(fields) matches Err(e)
                ==> r == Err::<WirePacket, Error>(e))
            &&& h.byte1 == 0x70 && some ==> (PubCompModel::decode(fields) matches Err(e)
                ==> r == Err::<WirePacket, Error>(e))
            &&& h.byte1 == 0x82 && some ==> (SubscribeModel::decode(fields) matches Err(e)
                ==> r == Err::<WirePacket, Error>(e))
            &&& h.byte1 == 0x90 && some ==> (SubAckModel::decode(fields) matches Err(e)
                ==> r == Err::<WirePacket, Error>(e))
            &&& h.byte1 == 0xA2 && some ==> (UnsubscribeModel::decode(fields) matches Err(e)
                ==> r == Err::<WirePacket, Error>(e))
            &&& h.byte1 == 0xB0 && some ==> (UnsubAckModel::decode(fields) matches Err(e)
                ==> r == Err::<WirePacket, Error>(e))
            &&& h.byte1 == 0xE0 && some ==> (DisconnectModel::decode(fields) matches Err(e)
                ==> r == Err::<WirePacket, Error>(e))
            &&& h.byte1 == 0xF0 && some ==> (AuthModel::decode(fields) matches Err(e)
                ==> r == Err::<WirePacket, Error>(e))
        }),
{
    first_octet_names_the_kind(h.byte1);
}

/// The properties of a packet are noted from the octets behind the fields that come first: two in
/// an answer to a connection, to a subscription or to its removal and in these themselves, three in
/// an acknowledgement, and one in the end of a connection and in an authentication.
pub proof fn properties_are_noted_behind_first_fields(body: Seq<u8>)
    ensures
        body.len() >= 2 ==> ConnAckModel::noted(body) == section_ids(Owner::ConnAck, body.skip(2)),
        body.len() >= 2 ==> SubAckModel::noted(body) == section_ids(
            Owner::Acknowledgement,
            body.skip(2),
        ),
        body.len() >= 2 ==> UnsubAckModel::noted(body) == section_ids(
            Owner::Acknowledgement,
            body.skip(2),
        ),
        body.len() >= 2 ==> SubscribeModel::noted(body) == section_ids(
            Owner::Subscribe,
            body.skip(2),
        ),
        body.len() >= 2 ==> UnsubscribeModel::noted(body) == section_ids(
            Owner::Unsubscribe,
            body.skip(2),
        ),
        PubAckModel::noted(body) == if body.len() > 3 && PubAckReason::of(body[2]) is Ok {
            section_ids(Owner::Acknowledgement, body.skip(3))
        } else {
            Seq::empty()
        },
        PubRecModel::noted(body) == if body.len() > 3 && PubRecReason::of(body[2]) is Ok {
            section_ids(Owner::Acknowledgement, body.skip(3))
        } else {
            Seq::empty()
        },
        PubRelModel::noted(body) == if body.len() > 3 && PubRelReason::of(body[2]) is Ok {
            section_ids(Owner::Acknowledgement, body.skip(3))
        } else {
            Seq::empty()
        },
        PubCompModel::noted(body) == if body.len() > 3 && PubCompReason::of(body[2]) is Ok {
            section_ids(Owner::Acknowledgement, body.skip(3))
        } else {
            Seq::empty()
        },
        DisconnectModel::noted(body) == if body.len() > 1 && DisconnectReasonCode::of(
            body[0],
        ) is Ok {
            section_ids(Owner::Disconnect, body.skip(1))
        } else {
            Seq::empty()
        },
        AuthModel::noted(body) == if body.len() > 1 && AuthReasonCode::of(body[0]) is Some {
            section_ids(Owner::Auth, body.skip(1))
        } else {
            Seq::empty()
        },
        body.len() < 2 ==> ConnAckModel::noted(body).len() == 0 && SubAckModel::noted(body).len()
            == 0 && UnsubAckModel::noted(body).len() == 0 && SubscribeModel::noted(body).len() == 0
            && UnsubscribeModel::noted(body).len() == 0,
{
    if body.len() > 2 {
        assert(body.skip(2)[0] == body[2]);
        assert(body.skip(2).skip(1) =~= body.skip(3));
    }
}

} // verus!
