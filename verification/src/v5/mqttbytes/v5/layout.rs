//! What each packet takes on the wire, octet by octet, and what is read from those octets.
use vstd::prelude::*;
use vstd::utf8::encode_utf8;

use super::auth::{AuthModel, AuthReasonCode};
use super::connack::{ConnAckModel, ConnectReturnCode};
use super::connect::{flag, take_login, take_will, ConnectModel, LoginModel, WillModel};
use super::disconnect::{DisconnectModel, DisconnectReasonCode};
use super::format::{
    counted, counted_data_is_read, fields_are_counted, lengths_are_lowest_first,
    lengths_are_read_in_shortest_form, numbers_are_highest_first, section, section_is_read,
    section_is_written, sevens, spelt, spelt_text_is_read, two,
};
use super::frame::{emitted, emitted_fields, type_of, FixedHeader, PacketType};
use super::packet::{read_result, WirePacket};
use super::property::{
    entries_fit, properties_len, take_properties, valid_entries, writable_section, written, Entry,
    Owner,
};
use super::puback::{PubAckModel, PubAckReason};
use super::pubcomp::{PubCompModel, PubCompReason};
use super::publish::PublishWire;
use super::pubrec::{PubRecModel, PubRecReason};
use super::pubrel::{PubRelModel, PubRelReason};
use super::suback::{suback_codes, suback_reasons, SubAckModel, SubscribeReasonCode};
use super::subscribe::{
    subscribe_filters, subscribe_filters_octets, take_subscribe_filter, FilterModel,
    RetainForwardRule, SubscribeModel,
};
use super::unsuback::{unsuback_codes, unsuback_reasons, UnsubAckModel, UnsubAckReason};
use super::unsubscribe::{unsubscribe_filters, unsubscribe_filters_octets, UnsubscribeModel};
use super::wire::{binary_octets, length_at, take_binary, take_text, take_u16, text_octets};
use crate::octets::{be16, u16_at};
use crate::v5::mqttbytes::{qos_number, Error, QoS};

verus! {

/// A packet: its first octet, the length of its fields, and its fields.
pub open spec fn frame(first: u8, fields: Seq<u8>) -> Seq<u8> {
    seq![first] + sevens(fields.len() as int) + fields
}

/// Whether properties may stand in a packet.
pub open spec fn proper(owner: Owner, es: Option<Seq<Entry>>) -> bool {
    es is Some ==> es->0.len() > 0 && valid_entries(owner, es->0)
}

/// Whether a text can be written in full.
pub open spec fn sound(t: Seq<char>) -> bool {
    encode_utf8(t).len() <= 65535 && !t.contains('\0')
}

/// The number of a quality of service.
pub open spec fn grade(qos: QoS) -> u8 {
    match qos {
        QoS::AtMostOnce => 0,
        QoS::AtLeastOnce => 1,
        QoS::ExactlyOnce => 2,
    }
}

/// What is written where a packet is too long or has properties that cannot be written: nothing
/// that could be taken for a packet.
pub open spec fn outcome(
    r: (Result<usize, Error>, Seq<u8>),
    first: u8,
    fields: Seq<u8>,
    len: nat,
    writable: bool,
) -> bool {
    if len > 268435455 {
        r.0 == Err::<usize, Error>(Error::PayloadTooLong)
    } else if !writable {
        r.0 == Err::<usize, Error>(Error::MalformedPacket)
    } else {
        r.1 == frame(first, fields) && r.0 == Ok::<usize, Error>(r.1.len() as usize) && fields.len()
            == len
    }
}

proof fn emitted_in_full(
    first: u8,
    head: Seq<u8>,
    es: Option<Seq<Entry>>,
    order: Option<Seq<u8>>,
    tail: Seq<u8>,
)
    ensures
        ({
            let len = head.len() + properties_len(es) + tail.len();
            outcome(
                emitted(first, len, head, writable_section(es, order), tail),
                first,
                head + section(written(es, order)) + tail,
                len,
                writable_section(es, order) is Some,
            )
        }),
{
    let len = head.len() + properties_len(es) + tail.len();
    if len <= 268435455 && writable_section(es, order) is Some {
        section_is_written(es, order);
        emitted_fields(first, len, head, writable_section(es, order)->0, tail);
        lengths_are_lowest_first(len);
    }
}

/// The number of a return code; codes of older versions have none.
pub open spec fn return_number(reason: ConnectReturnCode) -> u8 {
    match reason {
        ConnectReturnCode::Success => 0x00,
        ConnectReturnCode::UnspecifiedError => 0x80,
        ConnectReturnCode::MalformedPacket => 0x81,
        ConnectReturnCode::ProtocolError => 0x82,
        ConnectReturnCode::ImplementationSpecificError => 0x83,
        ConnectReturnCode::UnsupportedProtocolVersion => 0x84,
        ConnectReturnCode::ClientIdentifierNotValid => 0x85,
        ConnectReturnCode::BadUserNamePassword => 0x86,
        ConnectReturnCode::NotAuthorized => 0x87,
        ConnectReturnCode::ServerUnavailable => 0x88,
        ConnectReturnCode::ServerBusy => 0x89,
        ConnectReturnCode::Banned => 0x8A,
        ConnectReturnCode::BadAuthenticationMethod => 0x8C,
        ConnectReturnCode::TopicNameInvalid => 0x90,
        ConnectReturnCode::PacketTooLarge => 0x95,
        ConnectReturnCode::QuotaExceeded => 0x97,
        ConnectReturnCode::PayloadFormatInvalid => 0x99,
        ConnectReturnCode::RetainNotSupported => 0x9A,
        ConnectReturnCode::QoSNotSupported => 0x9B,
        ConnectReturnCode::UseAnotherServer => 0x9C,
        ConnectReturnCode::ServerMoved => 0x9D,
        ConnectReturnCode::ConnectionRateExceeded => 0x9F,
        _ => 0,
    }
}

/// Whether a return code has a number.
pub open spec fn is_current(code: ConnectReturnCode) -> bool {
    code != ConnectReturnCode::RefusedProtocolVersion && code != ConnectReturnCode::BadClientId
        && code != ConnectReturnCode::ServiceUnavailable
}

/// The answer to a connection: whether a session is present, the return code, and properties.
pub open spec fn connack_fields(m: ConnAckModel) -> Seq<u8> {
    seq![
        if m.session_present {
            1u8
        } else {
            0u8
        },
        return_number(m.code),
    ] + section(m.properties)
}

/// The answer to a connection is written as its fields.
pub proof fn connack_is_written(m: ConnAckModel, order: Option<Seq<u8>>)
    requires
        is_current(m.code),
    ensures
        outcome(
            m.encode(order),
            0x20,
            connack_fields(ConnAckModel { properties: written(m.properties, order), ..m }),
            2 + properties_len(m.properties),
            writable_section(m.properties, order) is Some,
        ),
{
    let head = seq![m.session_present as u8, m.code.number()->0];
    emitted_in_full(0x20, head, m.properties, order, Seq::empty());
    let out = ConnAckModel { properties: written(m.properties, order), ..m };
    assert(head + section(out.properties) + Seq::<u8>::empty() =~= connack_fields(out));
}

/// The answer to a connection is read exactly from its fields; a session is present only where the
/// connection is accepted.
#[verifier::spinoff_prover]
#[verifier::rlimit(40)]
pub proof fn connack_is_read(body: Seq<u8>, m: ConnAckModel)
    ensures
        ConnAckModel::decode(body) == Ok::<ConnAckModel, Error>(m) <==> {
            &&& body == connack_fields(m)
            &&& is_current(m.code)
            &&& m.session_present ==> m.code == ConnectReturnCode::Success
            &&& proper(Owner::ConnAck, m.properties)
        },
{
    let none = Seq::<u8>::empty();
    if ConnAckModel::decode(body) == Ok::<ConnAckModel, Error>(m) {
        section_is_read(Owner::ConnAck, body.skip(2), m.properties, none);
        assert(take_properties(Owner::ConnAck, body.skip(2)).1 =~= none);
        assert(body =~= connack_fields(m));
    }
    if body == connack_fields(m) && is_current(m.code) && (m.session_present ==> m.code
        == ConnectReturnCode::Success) && proper(Owner::ConnAck, m.properties) {
        assert(body.skip(2) =~= section(m.properties) + none);
        section_is_read(Owner::ConnAck, body.skip(2), m.properties, none);
    }
}

/// The first octet behind the fixed header of an answer to a connection tells whether a session is
/// present, whatever the code: 1 where it is, 0 where it is not, and nothing else is read.
pub proof fn session_flag_is_the_first_octet(body: Seq<u8>, m: ConnAckModel, order: Option<Seq<u8>>)
    ensures
        ConnAckModel::decode(body) matches Ok(c) ==> c.session_present == (body[0] == 1) && body[0]
            <= 1,
        body.len() >= 2 && body[0] > 1 ==> ConnAckModel::decode(body) is Err,
        is_current(m.code) && m.encode(order).0 is Ok ==> {
            let out = m.encode(order).1;
            let at = 1 + sevens((2 + properties_len(m.properties)) as int).len() as int;
            at < out.len() && out[at] == if m.session_present {
                1u8
            } else {
                0u8
            }
        },
        ConnAckModel::decode(seq![1u8, 0u8, 0u8]) == Ok::<ConnAckModel, Error>(
            ConnAckModel {
                session_present: true,
                code: ConnectReturnCode::Success,
                properties: None,
            },
        ),
        ConnAckModel::decode(seq![0u8, 0u8, 0u8]) == Ok::<ConnAckModel, Error>(
            ConnAckModel {
                session_present: false,
                code: ConnectReturnCode::Success,
                properties: None,
            },
        ),
{
    if let Ok(c) = ConnAckModel::decode(body) {
        connack_is_read(body, c);
    }
    if is_current(m.code) {
        connack_is_written(m, order);
    }
    let a = ConnAckModel {
        session_present: true,
        code: ConnectReturnCode::Success,
        properties: None,
    };
    let b = ConnAckModel { session_present: false, ..a };
    assert(connack_fields(a) =~= seq![1u8, 0u8, 0u8]);
    assert(connack_fields(b) =~= seq![0u8, 0u8, 0u8]);
    connack_is_read(seq![1u8, 0u8, 0u8], a);
    connack_is_read(seq![0u8, 0u8, 0u8], b);
}

/// The number of a reason of an acknowledgement.
pub open spec fn puback_number(reason: PubAckReason) -> u8 {
    match reason {
        PubAckReason::Success => 0x00,
        PubAckReason::NoMatchingSubscribers => 0x10,
        PubAckReason::UnspecifiedError => 0x80,
        PubAckReason::ImplementationSpecificError => 0x83,
        PubAckReason::NotAuthorized => 0x87,
        PubAckReason::TopicNameInvalid => 0x90,
        PubAckReason::PacketIdentifierInUse => 0x91,
        PubAckReason::QuotaExceeded => 0x97,
        PubAckReason::PayloadFormatInvalid => 0x99,
    }
}

/// An acknowledgement: its identifier, its reason, and properties.
pub open spec fn puback_fields(m: PubAckModel) -> Seq<u8> {
    two(m.pkid as int) + seq![puback_number(m.reason)] + section(m.properties)
}

/// An acknowledgement of success without properties is written without its reason.
pub proof fn puback_is_written(m: PubAckModel, order: Option<Seq<u8>>)
    ensures
        if m.reason == PubAckReason::Success && m.properties is None {
            m.encode(order) == (Ok::<usize, Error>(4), frame(0x40, two(m.pkid as int)))
        } else {
            outcome(
                m.encode(order),
                0x40,
                puback_fields(PubAckModel { properties: written(m.properties, order), ..m }),
                3 + properties_len(m.properties),
                writable_section(m.properties, order) is Some,
            )
        },
{
    numbers_are_highest_first(m.pkid, 0, Seq::empty());
    let head = be16(m.pkid) + seq![m.reason.number()];
    emitted_in_full(0x40, head, m.properties, order, Seq::empty());
    let out = PubAckModel { properties: written(m.properties, order), ..m };
    assert(head + section(out.properties) + Seq::<u8>::empty() =~= puback_fields(out));
    assert(seq![0x40u8, 2u8] + be16(m.pkid) =~= frame(0x40, two(m.pkid as int)));
}

/// The reason may be left out where it is success and there are no properties, and so may be the
/// section of properties where there are none.
#[verifier::spinoff_prover]
#[verifier::rlimit(40)]
pub proof fn puback_is_read(body: Seq<u8>, m: PubAckModel)
    ensures
        PubAckModel::decode(body) == Ok::<PubAckModel, Error>(m) <==> {
            ||| body == puback_fields(m) && proper(Owner::Acknowledgement, m.properties)
            ||| body == two(m.pkid as int) + seq![puback_number(m.reason)] && m.properties is None
            ||| body == two(m.pkid as int) && m.reason == PubAckReason::Success && m.properties
                is None
        },
{
    let none = Seq::<u8>::empty();
    let id = two(m.pkid as int);
    numbers_are_highest_first(m.pkid, 0, body);
    if PubAckModel::decode(body) == Ok::<PubAckModel, Error>(m) {
        let rest = take_u16(body).1;
        assert(body =~= id + rest);
        if body.len() == 2 {
            assert(body =~= id);
        } else if body.len() == 3 {
            assert(body =~= id + seq![puback_number(m.reason)]);
        } else {
            section_is_read(Owner::Acknowledgement, rest.skip(1), m.properties, none);
            assert(take_properties(Owner::Acknowledgement, rest.skip(1)).1 =~= none);
            assert(body =~= puback_fields(m));
        }
    }
    assert(u16_at(id) == m.pkid);
    if body == puback_fields(m) && proper(Owner::Acknowledgement, m.properties) {
        assert(u16_at(body) == m.pkid);
        assert(body.skip(2).skip(1) =~= section(m.properties) + none);
        section_is_read(Owner::Acknowledgement, body.skip(2).skip(1), m.properties, none);
        assert(section(m.properties).len() > 0);
        assert(body.skip(2)[0] == puback_number(m.reason));
    }
    if body == id + seq![puback_number(m.reason)] && m.properties is None {
        assert(u16_at(body) == m.pkid);
        assert(body.skip(2)[0] == puback_number(m.reason));
    }
}

/// The number of a reason of a receipt.
pub open spec fn pubrec_number(reason: PubRecReason) -> u8 {
    match reason {
        PubRecReason::Success => 0x00,
        PubRecReason::NoMatchingSubscribers => 0x10,
        PubRecReason::UnspecifiedError => 0x80,
        PubRecReason::ImplementationSpecificError => 0x83,
        PubRecReason::NotAuthorized => 0x87,
        PubRecReason::TopicNameInvalid => 0x90,
        PubRecReason::PacketIdentifierInUse => 0x91,
        PubRecReason::QuotaExceeded => 0x97,
        PubRecReason::PayloadFormatInvalid => 0x99,
    }
}

/// A receipt: its identifier, its reason, and properties.
pub open spec fn pubrec_fields(m: PubRecModel) -> Seq<u8> {
    two(m.pkid as int) + seq![pubrec_number(m.reason)] + section(m.properties)
}

/// A receipt of success without properties is written without its reason.
pub proof fn pubrec_is_written(m: PubRecModel, order: Option<Seq<u8>>)
    ensures
        if m.reason == PubRecReason::Success && m.properties is None {
            m.encode(order) == (Ok::<usize, Error>(4), frame(0x50, two(m.pkid as int)))
        } else {
            outcome(
                m.encode(order),
                0x50,
                pubrec_fields(PubRecModel { properties: written(m.properties, order), ..m }),
                3 + properties_len(m.properties),
                writable_section(m.properties, order) is Some,
            )
        },
{
    numbers_are_highest_first(m.pkid, 0, Seq::empty());
    let head = be16(m.pkid) + seq![m.reason.number()];
    emitted_in_full(0x50, head, m.properties, order, Seq::empty());
    let out = PubRecModel { properties: written(m.properties, order), ..m };
    assert(head + section(out.properties) + Seq::<u8>::empty() =~= pubrec_fields(out));
    assert(seq![0x50u8, 2u8] + be16(m.pkid) =~= frame(0x50, two(m.pkid as int)));
}

/// The reason may be left out where it is success and there are no properties, and so may be the
/// section of properties where there are none.
#[verifier::spinoff_prover]
#[verifier::rlimit(40)]
pub proof fn pubrec_is_read(body: Seq<u8>, m: PubRecModel)
    ensures
        PubRecModel::decode(body) == Ok::<PubRecModel, Error>(m) <==> {
            ||| body == pubrec_fields(m) && proper(Owner::Acknowledgement, m.properties)
            ||| body == two(m.pkid as int) + seq![pubrec_number(m.reason)] && m.properties is None
            ||| body == two(m.pkid as int) && m.reason == PubRecReason::Success && m.properties
                is None
        },
{
    let none = Seq::<u8>::empty();
    let id = two(m.pkid as int);
    numbers_are_highest_first(m.pkid, 0, body);
    if PubRecModel::decode(body) == Ok::<PubRecModel, Error>(m) {
        let rest = take_u16(body).1;
        assert(body =~= id + rest);
        if body.len() == 2 {
            assert(body =~= id);
        } else if body.len() == 3 {
            assert(body =~= id + seq![pubrec_number(m.reason)]);
        } else {
            section_is_read(Owner::Acknowledgement, rest.skip(1), m.properties, none);
            assert(take_properties(Owner::Acknowledgement, rest.skip(1)).1 =~= none);
            assert(body =~= pubrec_fields(m));
        }
    }
    assert(u16_at(id) == m.pkid);
    if body == pubrec_fields(m) && proper(Owner::Acknowledgement, m.properties) {
        assert(u16_at(body) == m.pkid);
        assert(body.skip(2).skip(1) =~= section(m.properties) + none);
        section_is_read(Owner::Acknowledgement, body.skip(2).skip(1), m.properties, none);
        assert(section(m.properties).len() > 0);
        assert(body.skip(2)[0] == pubrec_number(m.reason));
    }
    if body == id + seq![pubrec_number(m.reason)] && m.properties is None {
        assert(u16_at(body) == m.pkid);
        assert(body.skip(2)[0] == pubrec_number(m.reason));
    }
}

/// The number of a reason of a release.
pub open spec fn pubrel_number(reason: PubRelReason) -> u8 {
    match reason {
        PubRelReason::Success => 0x00,
        PubRelReason::PacketIdentifierNotFound => 0x92,
    }
}

/// A release: its identifier, its reason, and properties.
pub open spec fn pubrel_fields(m: PubRelModel) -> Seq<u8> {
    two(m.pkid as int) + seq![pubrel_number(m.reason)] + section(m.properties)
}

/// A release of success without properties is written without its reason.
pub proof fn pubrel_is_written(m: PubRelModel, order: Option<Seq<u8>>)
    ensures
        if m.reason == PubRelReason::Success && m.properties is None {
            m.encode(order) == (Ok::<usize, Error>(4), frame(0x62, two(m.pkid as int)))
        } else {
            outcome(
                m.encode(order),
                0x62,
                pubrel_fields(PubRelModel { properties: written(m.properties, order), ..m }),
                3 + properties_len(m.properties),
                writable_section(m.properties, order) is Some,
            )
        },
{
    numbers_are_highest_first(m.pkid, 0, Seq::empty());
    let head = be16(m.pkid) + seq![m.reason.number()];
    emitted_in_full(0x62, head, m.properties, order, Seq::empty());
    let out = PubRelModel { properties: written(m.properties, order), ..m };
    assert(head + section(out.properties) + Seq::<u8>::empty() =~= pubrel_fields(out));
    assert(seq![0x62u8, 2u8] + be16(m.pkid) =~= frame(0x62, two(m.pkid as int)));
}

/// The reason may be left out where it is success and there are no properties, and so may be the
/// section of properties where there are none.
#[verifier::spinoff_prover]
#[verifier::rlimit(40)]
pub proof fn pubrel_is_read(body: Seq<u8>, m: PubRelModel)
    ensures
        PubRelModel::decode(body) == Ok::<PubRelModel, Error>(m) <==> {
            ||| body == pubrel_fields(m) && proper(Owner::Acknowledgement, m.properties)
            ||| body == two(m.pkid as int) + seq![pubrel_number(m.reason)] && m.properties is None
            ||| body == two(m.pkid as int) && m.reason == PubRelReason::Success && m.properties
                is None
        },
{
    let none = Seq::<u8>::empty();
    let id = two(m.pkid as int);
    numbers_are_highest_first(m.pkid, 0, body);
    if PubRelModel::decode(body) == Ok::<PubRelModel, Error>(m) {
        let rest = take_u16(body).1;
        assert(body =~= id + rest);
        if body.len() == 2 {
            assert(body =~= id);
        } else if body.len() == 3 {
            assert(body =~= id + seq![pubrel_number(m.reason)]);
        } else {
            section_is_read(Owner::Acknowledgement, rest.skip(1), m.properties, none);
            assert(take_properties(Owner::Acknowledgement, rest.skip(1)).1 =~= none);
            assert(body =~= pubrel_fields(m));
        }
    }
    assert(u16_at(id) == m.pkid);
    if body == pubrel_fields(m) && proper(Owner::Acknowledgement, m.properties) {
        assert(u16_at(body) == m.pkid);
        assert(body.skip(2).skip(1) =~= section(m.properties) + none);
        section_is_read(Owner::Acknowledgement, body.skip(2).skip(1), m.properties, none);
        assert(section(m.properties).len() > 0);
        assert(body.skip(2)[0] == pubrel_number(m.reason));
    }
    if body == id + seq![pubrel_number(m.reason)] && m.properties is None {
        assert(u16_at(body) == m.pkid);
        assert(body.skip(2)[0] == pubrel_number(m.reason));
    }
}

/// The number of a reason of a confirmation.
pub open spec fn pubcomp_number(reason: PubCompReason) -> u8 {
    match reason {
        PubCompReason::Success => 0x00,
        PubCompReason::PacketIdentifierNotFound => 0x92,
    }
}

/// A confirmation: its identifier, its reason, and properties.
pub open spec fn pubcomp_fields(m: PubCompModel) -> Seq<u8> {
    two(m.pkid as int) + seq![pubcomp_number(m.reason)] + section(m.properties)
}

/// A confirmation of success without properties is written without its reason.
pub proof fn pubcomp_is_written(m: PubCompModel, order: Option<Seq<u8>>)
    ensures
        if m.reason == PubCompReason::Success && m.properties is None {
            m.encode(order) == (Ok::<usize, Error>(4), frame(0x70, two(m.pkid as int)))
        } else {
            outcome(
                m.encode(order),
                0x70,
                pubcomp_fields(PubCompModel { properties: written(m.properties, order), ..m }),
                3 + properties_len(m.properties),
                writable_section(m.properties, order) is Some,
            )
        },
{
    numbers_are_highest_first(m.pkid, 0, Seq::empty());
    let head = be16(m.pkid) + seq![m.reason.number()];
    emitted_in_full(0x70, head, m.properties, order, Seq::empty());
    let out = PubCompModel { properties: written(m.properties, order), ..m };
    assert(head + section(out.properties) + Seq::<u8>::empty() =~= pubcomp_fields(out));
    assert(seq![0x70u8, 2u8] + be16(m.pkid) =~= frame(0x70, two(m.pkid as int)));
}

/// The reason may be left out where it is success and there are no properties, and so may be the
/// section of properties where there are none.
#[verifier::spinoff_prover]
#[verifier::rlimit(40)]
pub proof fn pubcomp_is_read(body: Seq<u8>, m: PubCompModel)
    ensures
        PubCompModel::decode(body) == Ok::<PubCompModel, Error>(m) <==> {
            ||| body == pubcomp_fields(m) && proper(Owner::Acknowledgement, m.properties)
            ||| body == two(m.pkid as int) + seq![pubcomp_number(m.reason)] && m.properties is None
            ||| body == two(m.pkid as int) && m.reason == PubCompReason::Success && m.properties
                is None
        },
{
    let none = Seq::<u8>::empty();
    let id = two(m.pkid as int);
    numbers_are_highest_first(m.pkid, 0, body);
    if PubCompModel::decode(body) == Ok::<PubCompModel, Error>(m) {
        let rest = take_u16(body).1;
        assert(body =~= id + rest);
        if body.len() == 2 {
            assert(body =~= id);
        } else if body.len() == 3 {
            assert(body =~= id + seq![pubcomp_number(m.reason)]);
        } else {
            section_is_read(Owner::Acknowledgement, rest.skip(1), m.properties, none);
            assert(take_properties(Owner::Acknowledgement, rest.skip(1)).1 =~= none);
            assert(body =~= pubcomp_fields(m));
        }
    }
    assert(u16_at(id) == m.pkid);
    if body == pubcomp_fields(m) && proper(Owner::Acknowledgement, m.properties) {
        assert(u16_at(body) == m.pkid);
        assert(body.skip(2).skip(1) =~= section(m.properties) + none);
        section_is_read(Owner::Acknowledgement, body.skip(2).skip(1), m.properties, none);
        assert(section(m.properties).len() > 0);
        assert(body.skip(2)[0] == pubcomp_number(m.reason));
    }
    if body == id + seq![pubcomp_number(m.reason)] && m.properties is None {
        assert(u16_at(body) == m.pkid);
        assert(body.skip(2)[0] == pubcomp_number(m.reason));
    }
}

/// The number of a reason of the end of a connection.
pub open spec fn disconnect_number(reason: DisconnectReasonCode) -> u8 {
    match reason {
        DisconnectReasonCode::NormalDisconnection => 0x00,
        DisconnectReasonCode::DisconnectWithWillMessage => 0x04,
        DisconnectReasonCode::UnspecifiedError => 0x80,
        DisconnectReasonCode::MalformedPacket => 0x81,
        DisconnectReasonCode::ProtocolError => 0x82,
        DisconnectReasonCode::ImplementationSpecificError => 0x83,
        DisconnectReasonCode::NotAuthorized => 0x87,
        DisconnectReasonCode::ServerBusy => 0x89,
        DisconnectReasonCode::ServerShuttingDown => 0x8B,
        DisconnectReasonCode::KeepAliveTimeout => 0x8D,
        DisconnectReasonCode::SessionTakenOver => 0x8E,
        DisconnectReasonCode::TopicFilterInvalid => 0x8F,
        DisconnectReasonCode::TopicNameInvalid => 0x90,
        DisconnectReasonCode::ReceiveMaximumExceeded => 0x93,
        DisconnectReasonCode::TopicAliasInvalid => 0x94,
        DisconnectReasonCode::PacketTooLarge => 0x95,
        DisconnectReasonCode::MessageRateTooHigh => 0x96,
        DisconnectReasonCode::QuotaExceeded => 0x97,
        DisconnectReasonCode::AdministrativeAction => 0x98,
        DisconnectReasonCode::PayloadFormatInvalid => 0x99,
        DisconnectReasonCode::RetainNotSupported => 0x9A,
        DisconnectReasonCode::QoSNotSupported => 0x9B,
        DisconnectReasonCode::UseAnotherServer => 0x9C,
        DisconnectReasonCode::ServerMoved => 0x9D,
        DisconnectReasonCode::SharedSubscriptionNotSupported => 0x9E,
        DisconnectReasonCode::ConnectionRateExceeded => 0x9F,
        DisconnectReasonCode::MaximumConnectTime => 0xA0,
        DisconnectReasonCode::SubscriptionIdentifiersNotSupported => 0xA1,
        DisconnectReasonCode::WildcardSubscriptionsNotSupported => 0xA2,
    }
}

/// The end of a connection: its reason, and properties.
pub open spec fn disconnect_fields(m: DisconnectModel) -> Seq<u8> {
    seq![disconnect_number(m.reason_code)] + section(m.properties)
}

/// The end of a connection with the ordinary reason and without properties is written without
/// fields.
pub proof fn disconnect_is_written(m: DisconnectModel, order: Option<Seq<u8>>)
    ensures
        if m.reason_code == DisconnectReasonCode::NormalDisconnection && m.properties is None {
            m.encode(order) == (Ok::<usize, Error>(2), frame(0xE0, Seq::empty()))
        } else {
            outcome(
                m.encode(order),
                0xE0,
                disconnect_fields(DisconnectModel { properties: written(m.properties, order), ..m }),
                1 + properties_len(m.properties),
                writable_section(m.properties, order) is Some,
            )
        },
{
    let head = seq![m.reason_code.number()];
    emitted_in_full(0xE0, head, m.properties, order, Seq::empty());
    let out = DisconnectModel { properties: written(m.properties, order), ..m };
    assert(head + section(out.properties) + Seq::<u8>::empty() =~= disconnect_fields(out));
    assert(seq![0xE0u8, 0u8] =~= frame(0xE0, Seq::empty()));
}

/// The reason may be left out where it is the ordinary one and there are no properties, and so may
/// be the section of properties where there are none.
#[verifier::spinoff_prover]
#[verifier::rlimit(40)]
pub proof fn disconnect_is_read(body: Seq<u8>, m: DisconnectModel)
    ensures
        DisconnectModel::decode(body) == Ok::<DisconnectModel, Error>(m) <==> {
            ||| body == disconnect_fields(m) && proper(Owner::Disconnect, m.properties)
            ||| body == seq![disconnect_number(m.reason_code)] && m.properties is None
            ||| body.len() == 0 && m.reason_code == DisconnectReasonCode::NormalDisconnection
                && m.properties is None
        },
{
    let none = Seq::<u8>::empty();
    if DisconnectModel::decode(body) == Ok::<DisconnectModel, Error>(m) {
        if body.len() == 1 {
            assert(body =~= seq![disconnect_number(m.reason_code)]);
        } else if body.len() > 1 {
            section_is_read(Owner::Disconnect, body.skip(1), m.properties, none);
            assert(take_properties(Owner::Disconnect, body.skip(1)).1 =~= none);
            assert(body =~= disconnect_fields(m));
        }
    }
    if body == disconnect_fields(m) && proper(Owner::Disconnect, m.properties) {
        assert(body.skip(1) =~= section(m.properties) + none);
        section_is_read(Owner::Disconnect, body.skip(1), m.properties, none);
        assert(section(m.properties).len() > 0);
        assert(body[0] == disconnect_number(m.reason_code));
    }
}

/// The number of a reason of an authentication.
pub open spec fn auth_number(reason: AuthReasonCode) -> u8 {
    match reason {
        AuthReasonCode::Success => 0x00,
        AuthReasonCode::Continue => 0x18,
        AuthReasonCode::ReAuthenticate => 0x19,
    }
}

/// An authentication: its reason, and properties.
pub open spec fn auth_fields(m: AuthModel) -> Seq<u8> {
    seq![auth_number(m.code)] + section(m.properties)
}

/// An authentication with the ordinary reason and without properties is written without fields.
pub proof fn auth_is_written(m: AuthModel, order: Option<Seq<u8>>)
    ensures
        if m.code == AuthReasonCode::Success && m.properties is None {
            m.encode(order) == (Ok::<usize, Error>(2), frame(0xF0, Seq::empty()))
        } else {
            outcome(
                m.encode(order),
                0xF0,
                auth_fields(AuthModel { properties: written(m.properties, order), ..m }),
                1 + properties_len(m.properties),
                writable_section(m.properties, order) is Some,
            )
        },
{
    let head = seq![m.code.number()];
    emitted_in_full(0xF0, head, m.properties, order, Seq::empty());
    let out = AuthModel { properties: written(m.properties, order), ..m };
    assert(head + section(out.properties) + Seq::<u8>::empty() =~= auth_fields(out));
    assert(seq![0xF0u8, 0u8] =~= frame(0xF0, Seq::empty()));
}

/// The reason may be left out where it is the ordinary one and there are no properties, and so may
/// be the section of properties where there are none.
#[verifier::spinoff_prover]
#[verifier::rlimit(40)]
pub proof fn auth_is_read(body: Seq<u8>, m: AuthModel)
    ensures
        AuthModel::decode(body) == Ok::<AuthModel, Error>(m) <==> {
            ||| body == auth_fields(m) && proper(Owner::Auth, m.properties)
            ||| body == seq![auth_number(m.code)] && m.properties is None
            ||| body.len() == 0 && m.code == AuthReasonCode::Success && m.properties is None
        },
{
    let none = Seq::<u8>::empty();
    if AuthModel::decode(body) == Ok::<AuthModel, Error>(m) {
        if body.len() == 1 {
            assert(body =~= seq![auth_number(m.code)]);
        } else if body.len() > 1 {
            section_is_read(Owner::Auth, body.skip(1), m.properties, none);
            assert(take_properties(Owner::Auth, body.skip(1)).1 =~= none);
            assert(body =~= auth_fields(m));
        }
    }
    if body == auth_fields(m) && proper(Owner::Auth, m.properties) {
        assert(body.skip(1) =~= section(m.properties) + none);
        section_is_read(Owner::Auth, body.skip(1), m.properties, none);
        assert(section(m.properties).len() > 0);
        assert(body[0] == auth_number(m.code));
    }
}

/// The number of a reason in the answer to a subscription.
pub open spec fn suback_number(reason: SubscribeReasonCode) -> u8 {
    match reason {
        SubscribeReasonCode::Failure => 0x80,
        SubscribeReasonCode::Unspecified => 0x80,
        SubscribeReasonCode::ImplementationSpecific => 0x83,
        SubscribeReasonCode::NotAuthorized => 0x87,
        SubscribeReasonCode::TopicFilterInvalid => 0x8F,
        SubscribeReasonCode::PkidInUse => 0x91,
        SubscribeReasonCode::QuotaExceeded => 0x97,
        SubscribeReasonCode::SharedSubscriptionsNotSupported => 0x9E,
        SubscribeReasonCode::SubscriptionIdNotSupported => 0xA1,
        SubscribeReasonCode::WildcardSubscriptionsNotSupported => 0xA2,
        SubscribeReasonCode::Success(qos) => grade(qos),
    }
}

/// The numbers of reasons, in order.
pub open spec fn suback_numbers(reasons: Seq<SubscribeReasonCode>) -> Seq<u8> {
    Seq::new(reasons.len(), |i: int| suback_number(reasons[i]))
}

/// The answer to a subscription: its identifier, properties, and one reason for each filter.
pub open spec fn suback_fields(m: SubAckModel) -> Seq<u8> {
    two(m.pkid as int) + section(m.properties) + suback_numbers(m.return_codes)
}

/// The answer to a subscription is written as its fields.
pub proof fn suback_is_written(m: SubAckModel, order: Option<Seq<u8>>)
    ensures
        outcome(
            m.encode(order),
            0x90,
            suback_fields(SubAckModel { properties: written(m.properties, order), ..m }),
            2 + properties_len(m.properties) + m.return_codes.len(),
            writable_section(m.properties, order) is Some,
        ),
{
    numbers_are_highest_first(m.pkid, 0, Seq::empty());
    let codes = suback_codes(m.return_codes);
    assert(codes =~= suback_numbers(m.return_codes));
    emitted_in_full(0x90, be16(m.pkid), m.properties, order, codes);
}

proof fn suback_reasons_are_read(s: Seq<u8>, reasons: Seq<SubscribeReasonCode>)
    ensures
        suback_reasons(s) == Ok::<Seq<SubscribeReasonCode>, Error>(reasons) <==> (s
            == suback_numbers(reasons) && forall|i: int| 0 <= i < reasons.len()
                ==> (#[trigger] reasons[i]) != SubscribeReasonCode::Failure),
    decreases s.len(),
{
    if s.len() == 0 {
        assert(reasons.len() == 0 ==> reasons =~= Seq::empty());
        assert(s =~= suback_numbers(Seq::empty()));
    } else {
        let tail = s.skip(1);
        let others = reasons.skip(1);
        suback_reasons_are_read(tail, others);
        if suback_reasons(s) == Ok::<Seq<SubscribeReasonCode>, Error>(reasons) {
            let found = suback_reasons(tail)->Ok_0;
            suback_reasons_are_read(tail, found);
            assert(others =~= found);
            assert(reasons[0] == SubscribeReasonCode::of(s[0])->Ok_0);
            assert forall|i: int| 0 <= i < s.len() implies s[i] == suback_numbers(reasons)[i] by {
                if i > 0 {
                    assert(tail[i - 1] == suback_numbers(others)[i - 1]);
                }
            }
            assert(s =~= suback_numbers(reasons));
            assert forall|i: int| 0 <= i < reasons.len() implies (#[trigger] reasons[i])
                != SubscribeReasonCode::Failure by {
                if i > 0 {
                    assert(others[i - 1] == reasons[i]);
                }
            }
        }
        if s == suback_numbers(reasons) && forall|i: int| 0 <= i < reasons.len()
            ==> (#[trigger] reasons[i]) != SubscribeReasonCode::Failure {
            assert(tail =~= suback_numbers(others));
            assert(s[0] == suback_number(reasons[0]));
            assert(reasons =~= seq![reasons[0]] + others);
            assert forall|i: int| 0 <= i < others.len() implies (#[trigger] others[i])
                != SubscribeReasonCode::Failure by {
                assert(others[i] == reasons[i + 1]);
            }
        }
    }
}

/// The answer to a subscription is read exactly from its fields; it has at least one reason.
#[verifier::spinoff_prover]
#[verifier::rlimit(40)]
pub proof fn suback_is_read(body: Seq<u8>, m: SubAckModel)
    ensures
        SubAckModel::decode(body) == Ok::<SubAckModel, Error>(m) <==> {
            &&& body == suback_fields(m)
            &&& m.return_codes.len() > 0
            &&& proper(Owner::Acknowledgement, m.properties)
            &&& forall|i: int|
                0 <= i < m.return_codes.len()
                    ==> (#[trigger] m.return_codes[i]) != SubscribeReasonCode::Failure
        },
{
    let id = two(m.pkid as int);
    let codes = suback_numbers(m.return_codes);
    numbers_are_highest_first(m.pkid, 0, body);
    if SubAckModel::decode(body) == Ok::<SubAckModel, Error>(m) {
        let rest = take_u16(body).1;
        assert(body =~= id + rest);
        let tail = take_properties(Owner::Acknowledgement, rest).1;
        section_is_read(Owner::Acknowledgement, rest, m.properties, tail);
        suback_reasons_are_read(tail, m.return_codes);
        assert(body =~= suback_fields(m));
    }
    if body == suback_fields(m) && m.return_codes.len() > 0 && proper(
        Owner::Acknowledgement,
        m.properties,
    ) && forall|i: int| 0 <= i < m.return_codes.len()
        ==> (#[trigger] m.return_codes[i]) != SubscribeReasonCode::Failure {
        assert(u16_at(body) == m.pkid);
        assert(body.skip(2) =~= section(m.properties) + codes);
        section_is_read(Owner::Acknowledgement, body.skip(2), m.properties, codes);
        suback_reasons_are_read(codes, m.return_codes);
    }
}

/// The number of a reason in the answer to the removal of subscriptions.
pub open spec fn unsuback_number(reason: UnsubAckReason) -> u8 {
    match reason {
        UnsubAckReason::Success => 0x00,
        UnsubAckReason::NoSubscriptionExisted => 0x11,
        UnsubAckReason::UnspecifiedError => 0x80,
        UnsubAckReason::ImplementationSpecificError => 0x83,
        UnsubAckReason::NotAuthorized => 0x87,
        UnsubAckReason::TopicFilterInvalid => 0x8F,
        UnsubAckReason::PacketIdentifierInUse => 0x91,
    }
}

/// The numbers of reasons, in order.
pub open spec fn unsuback_numbers(reasons: Seq<UnsubAckReason>) -> Seq<u8> {
    Seq::new(reasons.len(), |i: int| unsuback_number(reasons[i]))
}

/// The answer to the removal of subscriptions: its identifier, properties, and one reason for each
/// filter.
pub open spec fn unsuback_fields(m: UnsubAckModel) -> Seq<u8> {
    two(m.pkid as int) + section(m.properties) + unsuback_numbers(m.reasons)
}

/// The answer to the removal of subscriptions is written as its fields. Its properties are not
/// checked unless an order is asked for.
pub proof fn unsuback_is_written(m: UnsubAckModel, order: Option<Seq<u8>>)
    requires
        m.properties is Some && order is None ==> entries_fit(m.properties->0),
    ensures
        outcome(
            m.encode(order),
            0xB0,
            unsuback_fields(UnsubAckModel { properties: written(m.properties, order), ..m }),
            2 + properties_len(m.properties) + m.reasons.len(),
            writable_section(m.properties, order) is Some,
        ),
{
    numbers_are_highest_first(m.pkid, 0, Seq::empty());
    let codes = unsuback_codes(m.reasons);
    assert(codes =~= unsuback_numbers(m.reasons));
    emitted_in_full(0xB0, be16(m.pkid), m.properties, order, codes);
}

proof fn unsuback_reasons_are_read(s: Seq<u8>, reasons: Seq<UnsubAckReason>)
    ensures
        unsuback_reasons(s) == Ok::<Seq<UnsubAckReason>, Error>(reasons) <==> (s
            == unsuback_numbers(reasons)),
    decreases s.len(),
{
    if s.len() == 0 {
        assert(reasons.len() == 0 ==> reasons =~= Seq::empty());
        assert(s =~= unsuback_numbers(Seq::empty()));
    } else {
        let tail = s.skip(1);
        let others = reasons.skip(1);
        unsuback_reasons_are_read(tail, others);
        if unsuback_reasons(s) == Ok::<Seq<UnsubAckReason>, Error>(reasons) {
            let found = unsuback_reasons(tail)->Ok_0;
            unsuback_reasons_are_read(tail, found);
            assert(others =~= found);
            assert(reasons[0] == UnsubAckReason::of(s[0])->Ok_0);
            assert forall|i: int| 0 <= i < s.len() implies s[i] == unsuback_numbers(reasons)[i] by {
                if i > 0 {
                    assert(tail[i - 1] == unsuback_numbers(others)[i - 1]);
                }
            }
            assert(s =~= unsuback_numbers(reasons));
        }
        if s == unsuback_numbers(reasons) {
            assert(tail =~= unsuback_numbers(others));
            assert(s[0] == unsuback_number(reasons[0]));
            assert(reasons =~= seq![reasons[0]] + others);
        }
    }
}

/// The answer to the removal of subscriptions is read exactly from its fields; it has at least one
/// reason.
#[verifier::spinoff_prover]
#[verifier::rlimit(40)]
pub proof fn unsuback_is_read(body: Seq<u8>, m: UnsubAckModel)
    ensures
        UnsubAckModel::decode(body) == Ok::<UnsubAckModel, Error>(m) <==> {
            &&& body == unsuback_fields(m)
            &&& m.reasons.len() > 0
            &&& proper(Owner::Acknowledgement, m.properties)
        },
{
    let id = two(m.pkid as int);
    let codes = unsuback_numbers(m.reasons);
    numbers_are_highest_first(m.pkid, 0, body);
    if UnsubAckModel::decode(body) == Ok::<UnsubAckModel, Error>(m) {
        let rest = take_u16(body).1;
        assert(body =~= id + rest);
        let tail = take_properties(Owner::Acknowledgement, rest).1;
        section_is_read(Owner::Acknowledgement, rest, m.properties, tail);
        unsuback_reasons_are_read(tail, m.reasons);
        assert(body =~= unsuback_fields(m));
    }
    if body == unsuback_fields(m) && m.reasons.len() > 0 && proper(
        Owner::Acknowledgement,
        m.properties,
    ) {
        assert(u16_at(body) == m.pkid);
        assert(body.skip(2) =~= section(m.properties) + codes);
        section_is_read(Owner::Acknowledgement, body.skip(2), m.properties, codes);
        unsuback_reasons_are_read(codes, m.reasons);
    }
}

/// The options of a filter: the quality of service in the lowest two bits, then one bit against
/// one's own publications, one for the retain flag as it was published, and two for the messages
/// that are retained already.
pub open spec fn options(f: FilterModel) -> int {
    grade(f.qos) + (if f.nolocal {
        4int
    } else {
        0
    }) + (if f.preserve_retain {
        8int
    } else {
        0
    }) + (match f.retain_forward_rule {
        RetainForwardRule::OnEverySubscribe => 0int,
        RetainForwardRule::OnNewSubscribe => 16,
        RetainForwardRule::Never => 32,
    })
}

/// Filters, one after the other: the path of each, and its options.
pub open spec fn filters(fs: Seq<FilterModel>) -> Seq<u8>
    decreases fs.len(),
{
    if fs.len() == 0 {
        Seq::empty()
    } else {
        spelt(fs[0].path) + seq![options(fs[0]) as u8] + filters(fs.skip(1))
    }
}

/// A subscription: its identifier, properties, and filters.
pub open spec fn subscribe_fields(m: SubscribeModel) -> Seq<u8> {
    two(m.pkid as int) + section(m.properties) + filters(m.filters)
}

proof fn filters_are_plain(fs: Seq<FilterModel>)
    ensures
        subscribe_filters_octets(fs) == filters(fs),
    decreases fs.len(),
{
    if fs.len() > 0 {
        super::subscribe::filters_octets_front(fs);
        fields_are_counted(Seq::empty(), fs[0].path);
        filters_are_plain(fs.skip(1));
        assert(subscribe_filters_octets(fs) =~= filters(fs));
    }
}

/// A subscription is written as its fields.
pub proof fn subscribe_is_written(m: SubscribeModel, order: Option<Seq<u8>>)
    ensures
        outcome(
            m.encode(order),
            0x82,
            subscribe_fields(SubscribeModel { properties: written(m.properties, order), ..m }),
            2 + properties_len(m.properties) + filters(m.filters).len(),
            writable_section(m.properties, order) is Some,
        ),
{
    numbers_are_highest_first(m.pkid, 0, Seq::empty());
    filters_are_plain(m.filters);
    emitted_in_full(0x82, be16(m.pkid), m.properties, order, filters(m.filters));
}

/// Whether octets spell filters. The highest two bits of the options do not count.
pub open spec fn spells_filters(s: Seq<u8>, fs: Seq<FilterModel>) -> bool
    decreases fs.len(),
{
    if fs.len() == 0 {
        s.len() == 0
    } else {
        let path = spelt(fs[0].path);
        &&& sound(fs[0].path)
        &&& s.len() > path.len()
        &&& s.take(path.len() as int) == path
        &&& s[path.len() as int] % 64 == options(fs[0])
        &&& spells_filters(s.skip(path.len() as int + 1), fs.skip(1))
    }
}

proof fn bits_of(o: int)
    requires
        0 <= o < 256,
    ensures
        o % 64 == o % 4 + 4 * ((o / 4) % 2) + 8 * ((o / 8) % 2) + 16 * ((o / 16) % 4),
{
    assert(o / 16 == (o / 8) / 2);
    assert(o / 8 == (o / 4) / 2);
    assert(o / 64 == (o / 16) / 4);
}

proof fn bits_make(o: int, q: int, n: int, p: int, r: int)
    requires
        0 <= o < 256,
        0 <= q < 4,
        0 <= n < 2,
        0 <= p < 2,
        0 <= r < 4,
        o % 64 == q + 4 * n + 8 * p + 16 * r,
    ensures
        o % 4 == q,
        (o / 4) % 2 == n,
        (o / 8) % 2 == p,
        (o / 16) % 4 == r,
{
    bits_of(o);
}

/// A filter is read exactly from its path and its options.
#[verifier::spinoff_prover]
#[verifier::rlimit(40)]
pub proof fn filter_is_read(s: Seq<u8>, f: FilterModel, rest: Seq<u8>)
    ensures
        take_subscribe_filter(s) == (Ok::<FilterModel, Error>(f), rest) <==> {
            let n = spelt(f.path).len() as int;
            &&& sound(f.path)
            &&& s.len() > n
            &&& s.take(n) == spelt(f.path)
            &&& s[n] % 64 == options(f)
            &&& s.skip(n + 1) == rest
        },
{
    let n = spelt(f.path).len() as int;
    if take_subscribe_filter(s) == (Ok::<FilterModel, Error>(f), rest) {
        let mid = take_text(s).1;
        spelt_text_is_read(s, f.path, mid);
        assert(s.take(n) =~= spelt(f.path));
        assert(s.skip(n) =~= mid);
        assert(s[n] == mid[0]);
        assert(s.skip(n + 1) =~= mid.skip(1));
        bits_of(mid[0] as int);
    }
    if sound(f.path) && s.len() > n && s.take(n) == spelt(f.path) && s[n] % 64 == options(f)
        && s.skip(n + 1) == rest {
        let mid = s.skip(n);
        assert(s =~= spelt(f.path) + mid);
        spelt_text_is_read(s, f.path, mid);
        assert(mid[0] == s[n]);
        assert(mid.skip(1) =~= rest);
        bits_make(
            mid[0] as int,
            grade(f.qos) as int,
            f.nolocal as int,
            f.preserve_retain as int,
            f.retain_forward_rule.number() as int,
        );
    }
}

proof fn filters_are_read(s: Seq<u8>, fs: Seq<FilterModel>)
    ensures
        subscribe_filters(s) == Ok::<Seq<FilterModel>, Error>(fs) <==> spells_filters(s, fs),
    decreases s.len(),
{
    broadcast use super::wire::group_take_shrinks;

    if s.len() == 0 {
        assert(fs.len() == 0 ==> fs =~= Seq::empty());
    } else {
        if subscribe_filters(s) == Ok::<Seq<FilterModel>, Error>(fs) {
            let (r, rest) = take_subscribe_filter(s);
            let f = r->Ok_0;
            filter_is_read(s, f, rest);
            let others = subscribe_filters(rest)->Ok_0;
            assert(fs =~= seq![f] + others);
            assert(fs.skip(1) =~= others);
            filters_are_read(rest, others);
        }
        if spells_filters(s, fs) {
            let f = fs[0];
            let n = spelt(f.path).len() as int;
            filter_is_read(s, f, s.skip(n + 1));
            filters_are_read(s.skip(n + 1), fs.skip(1));
            assert(fs =~= seq![f] + fs.skip(1));
        }
    }
}

/// A subscription is read exactly from its fields; it has at least one filter.
#[verifier::spinoff_prover]
#[verifier::rlimit(40)]
pub proof fn subscribe_is_read(body: Seq<u8>, m: SubscribeModel)
    ensures
        SubscribeModel::decode(body) == Ok::<SubscribeModel, Error>(m) <==> {
            let head = two(m.pkid as int) + section(m.properties);
            &&& body.len() >= head.len()
            &&& body.take(head.len() as int) == head
            &&& m.filters.len() > 0
            &&& spells_filters(body.skip(head.len() as int), m.filters)
            &&& proper(Owner::Subscribe, m.properties)
        },
{
    let id = two(m.pkid as int);
    let head = id + section(m.properties);
    let n = head.len() as int;
    numbers_are_highest_first(m.pkid, 0, body);
    if SubscribeModel::decode(body) == Ok::<SubscribeModel, Error>(m) {
        let rest = take_u16(body).1;
        assert(body =~= id + rest);
        let tail = take_properties(Owner::Subscribe, rest).1;
        section_is_read(Owner::Subscribe, rest, m.properties, tail);
        filters_are_read(tail, m.filters);
        assert(body =~= head + tail);
        assert(body.take(n) =~= head);
        assert(body.skip(n) =~= tail);
    }
    if body.len() >= n && body.take(n) == head && m.filters.len() > 0 && spells_filters(
        body.skip(n),
        m.filters,
    ) && proper(Owner::Subscribe, m.properties) {
        let tail = body.skip(n);
        assert(body =~= head + tail);
        assert(u16_at(body) == m.pkid);
        assert(body.skip(2) =~= section(m.properties) + tail);
        section_is_read(Owner::Subscribe, body.skip(2), m.properties, tail);
        filters_are_read(tail, m.filters);
    }
}

/// Texts, one after the other.
pub open spec fn texts(ts: Seq<Seq<char>>) -> Seq<u8>
    decreases ts.len(),
{
    if ts.len() == 0 {
        Seq::empty()
    } else {
        spelt(ts[0]) + texts(ts.skip(1))
    }
}

/// The removal of subscriptions: its identifier, properties, and filters.
pub open spec fn unsubscribe_fields(m: UnsubscribeModel) -> Seq<u8> {
    two(m.pkid as int) + section(m.properties) + texts(m.filters)
}

proof fn texts_are_plain(ts: Seq<Seq<char>>)
    ensures
        unsubscribe_filters_octets(ts) == texts(ts),
    decreases ts.len(),
{
    if ts.len() > 0 {
        super::unsubscribe::filters_octets_front(ts);
        fields_are_counted(Seq::empty(), ts[0]);
        texts_are_plain(ts.skip(1));
    }
}

/// The removal of subscriptions is written as its fields.
pub proof fn unsubscribe_is_written(m: UnsubscribeModel, order: Option<Seq<u8>>)
    ensures
        outcome(
            m.encode(order),
            0xA2,
            unsubscribe_fields(UnsubscribeModel { properties: written(m.properties, order), ..m }),
            2 + properties_len(m.properties) + texts(m.filters).len(),
            writable_section(m.properties, order) is Some,
        ),
{
    numbers_are_highest_first(m.pkid, 0, Seq::empty());
    texts_are_plain(m.filters);
    emitted_in_full(0xA2, be16(m.pkid), m.properties, order, texts(m.filters));
}

proof fn texts_are_read(s: Seq<u8>, ts: Seq<Seq<char>>)
    ensures
        unsubscribe_filters(s) == Ok::<Seq<Seq<char>>, Error>(ts) <==> (s == texts(ts) && forall|
            i: int,
        |
            0 <= i < ts.len() ==> sound(#[trigger] ts[i])),
    decreases s.len(),
{
    broadcast use super::wire::group_take_shrinks;

    if s.len() == 0 {
        assert(ts.len() == 0 ==> ts =~= Seq::empty());
        assert(s =~= Seq::<u8>::empty());
    } else {
        if unsubscribe_filters(s) == Ok::<Seq<Seq<char>>, Error>(ts) {
            let (r, rest) = take_text(s);
            let t = r->Ok_0;
            spelt_text_is_read(s, t, rest);
            let others = unsubscribe_filters(rest)->Ok_0;
            assert(ts =~= seq![t] + others);
            assert(ts.skip(1) =~= others);
            texts_are_read(rest, others);
            assert forall|i: int| 0 <= i < ts.len() implies sound(#[trigger] ts[i]) by {
                if i > 0 {
                    assert(others[i - 1] == ts[i]);
                }
            }
        }
        if s == texts(ts) && forall|i: int| 0 <= i < ts.len() ==> sound(#[trigger] ts[i]) {
            let rest = texts(ts.skip(1));
            assert(sound(ts[0]));
            spelt_text_is_read(s, ts[0], rest);
            assert forall|i: int| 0 <= i < ts.skip(1).len() implies sound(
                #[trigger] ts.skip(1)[i],
            ) by {
                assert(ts.skip(1)[i] == ts[i + 1]);
            }
            texts_are_read(rest, ts.skip(1));
            assert(ts =~= seq![ts[0]] + ts.skip(1));
        }
    }
}

/// The removal of subscriptions is read exactly from its fields; it has at least one filter.
#[verifier::spinoff_prover]
#[verifier::rlimit(40)]
pub proof fn unsubscribe_is_read(body: Seq<u8>, m: UnsubscribeModel)
    ensures
        UnsubscribeModel::decode(body) == Ok::<UnsubscribeModel, Error>(m) <==> {
            &&& body == unsubscribe_fields(m)
            &&& m.filters.len() > 0
            &&& forall|i: int| 0 <= i < m.filters.len() ==> sound(#[trigger] m.filters[i])
            &&& proper(Owner::Unsubscribe, m.properties)
        },
{
    let id = two(m.pkid as int);
    let tail = texts(m.filters);
    numbers_are_highest_first(m.pkid, 0, body);
    if UnsubscribeModel::decode(body) == Ok::<UnsubscribeModel, Error>(m) {
        let rest = take_u16(body).1;
        assert(body =~= id + rest);
        let left = take_properties(Owner::Unsubscribe, rest).1;
        section_is_read(Owner::Unsubscribe, rest, m.properties, left);
        texts_are_read(left, m.filters);
        assert(body =~= unsubscribe_fields(m));
    }
    if body == unsubscribe_fields(m) && m.filters.len() > 0 && (forall|i: int|
        0 <= i < m.filters.len() ==> sound(#[trigger] m.filters[i])) && proper(
        Owner::Unsubscribe,
        m.properties,
    ) {
        assert(u16_at(body) == m.pkid);
        assert(body.skip(2) =~= section(m.properties) + tail);
        section_is_read(Owner::Unsubscribe, body.skip(2), m.properties, tail);
        texts_are_read(tail, m.filters);
        assert(spelt(m.filters[0]).len() >= 2);
    }
}

/// A publication: its topic, its identifier where the quality of service needs one, properties, and
/// the payload up to the end.
pub open spec fn publish_fields(m: PublishWire) -> Seq<u8> {
    counted(m.topic) + (if m.qos == QoS::AtMostOnce {
        Seq::empty()
    } else {
        two(m.pkid as int)
    }) + section(m.properties) + m.payload
}

/// The first octet of a publication: the retain flag in the lowest bit, the quality of service in
/// the next two, and the mark of repetition in the fourth.
pub open spec fn publish_first(m: PublishWire) -> int {
    0x30 + (if m.retain {
        1int
    } else {
        0
    }) + 2 * grade(m.qos) + (if m.dup {
        8int
    } else {
        0
    })
}

/// A publication is written as its fields, and refused where it needs an identifier and has none.
pub proof fn publish_is_written(m: PublishWire, order: Option<Seq<u8>>)
    ensures
        if m.qos != QoS::AtMostOnce && m.pkid == 0 {
            m.encode(order) == (Err::<usize, Error>(Error::PacketIdZero), Seq::<u8>::empty())
        } else {
            outcome(
                m.encode(order),
                publish_first(m) as u8,
                publish_fields(PublishWire { properties: written(m.properties, order), ..m }),
                2 + m.topic.len() + (if m.qos == QoS::AtMostOnce {
                    0nat
                } else {
                    2
                }) + properties_len(m.properties) + m.payload.len(),
                writable_section(m.properties, order) is Some,
            )
        },
{
    numbers_are_highest_first(m.pkid, 0, Seq::empty());
    fields_are_counted(m.topic, Seq::empty());
    emitted_in_full(m.first(), m.head(), m.properties, order, m.payload);
    assert(m.first() == publish_first(m) as u8);
}

/// A publication is read exactly from its fields and its first octet. Its identifier is zero
/// exactly where the quality of service needs none.
#[verifier::spinoff_prover]
#[verifier::rlimit(40)]
pub proof fn publish_is_read(first: u8, body: Seq<u8>, m: PublishWire)
    ensures
        PublishWire::decode(first, body) == Ok::<PublishWire, Error>(m) <==> {
            &&& body == publish_fields(m)
            &&& first % 2 == 1 <==> m.retain
            &&& (first / 2) % 4 == grade(m.qos)
            &&& (first / 8) % 2 == 1 <==> m.dup
            &&& m.pkid == 0 <==> m.qos == QoS::AtMostOnce
            &&& m.topic.len() <= 65535
            &&& proper(Owner::Publish, m.properties)
        },
        grade_of_three(first) ==> PublishWire::decode(first, body) == Err::<PublishWire, Error>(
            Error::InvalidQoS(3),
        ),
{
    if PublishWire::decode(first, body) == Ok::<PublishWire, Error>(m) {
        let rest = take_binary(body).1;
        counted_data_is_read(body, m.topic, rest);
        numbers_are_highest_first(m.pkid, 0, rest);
        let tail = if m.qos == QoS::AtMostOnce {
            rest
        } else {
            rest.skip(2)
        };
        section_is_read(Owner::Publish, tail, m.properties, m.payload);
        assert(body =~= publish_fields(m));
    }
    if body == publish_fields(m) && (first % 2 == 1 <==> m.retain) && (first / 2) % 4 == grade(
        m.qos,
    ) && ((first / 8) % 2 == 1 <==> m.dup) && (m.pkid == 0 <==> m.qos == QoS::AtMostOnce)
        && m.topic.len() <= 65535 && proper(Owner::Publish, m.properties) {
        let tail = section(m.properties) + m.payload;
        section_is_read(Owner::Publish, tail, m.properties, m.payload);
        if m.qos == QoS::AtMostOnce {
            assert(body =~= counted(m.topic) + tail);
            counted_data_is_read(body, m.topic, tail);
        } else {
            let rest = two(m.pkid as int) + tail;
            assert(body =~= counted(m.topic) + rest);
            counted_data_is_read(body, m.topic, rest);
            assert(u16_at(rest) == m.pkid);
            assert(rest.skip(2) =~= tail);
        }
    }
}

/// Whether the two bits for the quality of service are both set, which stands for none.
pub open spec fn grade_of_three(first: u8) -> bool {
    (first / 2) % 4 == 3
}

/// A login: the name of the user where there is one, and then the password where there is one.
pub open spec fn login_fields(l: LoginModel) -> Seq<u8> {
    (if l.username is Some {
        spelt(l.username->0)
    } else {
        Seq::empty()
    }) + (if l.password is Some {
        counted(l.password->0)
    } else {
        Seq::empty()
    })
}

/// A login is written with the name of the user first and the password behind it.
pub proof fn login_is_written(l: LoginModel, user: Seq<char>, password: Seq<u8>)
    ensures
        l.octets() == login_fields(l),
        (LoginModel { username: Some(user), password: Some(password) }).octets() == spelt(user)
            + counted(password),
        (LoginModel { username: Some(user), password: Some(password) }).octets() == text_octets(
            user,
        ) + binary_octets(password),
        (LoginModel { username: Some(user), password: None }).octets() == spelt(user),
        (LoginModel { username: None, password: Some(password) }).octets() == counted(password),
{
    if l.username is Some {
        fields_are_counted(Seq::empty(), l.username->0);
    }
    if l.password is Some {
        fields_are_counted(l.password->0, Seq::empty());
    }
    fields_are_counted(password, user);
    assert(spelt(user) + Seq::<u8>::empty() =~= spelt(user));
    assert(Seq::<u8>::empty() + counted(password) =~= counted(password));
}

/// A login is read exactly where the flags of the connection announce it: the highest bit the name
/// of the user, the next one the password. The name is read first.
#[verifier::spinoff_prover]
#[verifier::rlimit(40)]
pub proof fn login_is_read(flags: u8, s: Seq<u8>, login: Option<LoginModel>, rest: Seq<u8>)
    ensures
        take_login(flags, s) == (Ok::<Option<LoginModel>, Error>(login), rest) <==> {
            &&& flags >= 128 <==> login is Some && login->0.username is Some
            &&& (flags / 64) % 2 == 1 <==> login is Some && login->0.password is Some
            &&& if login is Some {
                &&& login->0.username is Some || login->0.password is Some
                &&& login->0.username is Some ==> sound(login->0.username->0)
                &&& login->0.password is Some ==> login->0.password->0.len() <= 65535
                &&& s == login_fields(login->0) + rest
            } else {
                s == rest
            }
        },
{
    let none = Seq::<u8>::empty();
    assert(flag(flags, 128) == (flags >= 128));
    if take_login(flags, s) == (Ok::<Option<LoginModel>, Error>(login), rest) && login is Some {
        let l = login->0;
        let mid = if l.username is Some {
            take_text(s).1
        } else {
            s
        };
        if l.username is Some {
            spelt_text_is_read(s, l.username->0, mid);
        }
        if l.password is Some {
            counted_data_is_read(mid, l.password->0, rest);
        }
        assert(s =~= login_fields(l) + rest);
    }
    if login is Some && s == login_fields(login->0) + rest {
        let l = login->0;
        let mid = (if l.password is Some {
            counted(l.password->0)
        } else {
            none
        }) + rest;
        if l.username is Some {
            assert(s =~= spelt(l.username->0) + mid);
            spelt_text_is_read(s, l.username->0, mid);
        } else {
            assert(s =~= mid);
        }
        if l.password is Some {
            counted_data_is_read(mid, l.password->0, rest);
        } else {
            assert(mid =~= rest);
        }
    }
}

/// A name of a user and a password that stand in this order are read as such, whatever follows.
pub proof fn login_is_read_in_order(user: Seq<char>, password: Seq<u8>, rest: Seq<u8>, flags: u8)
    requires
        sound(user),
        password.len() <= 65535,
        flags >= 192,
    ensures
        take_login(flags, text_octets(user) + binary_octets(password) + rest) == (
            Ok::<Option<LoginModel>, Error>(
                Some(LoginModel { username: Some(user), password: Some(password) }),
            ),
            rest,
        ),
{
    let l = LoginModel { username: Some(user), password: Some(password) };
    fields_are_counted(password, user);
    assert((flags / 64) % 2 == 1);
    login_is_read(flags, text_octets(user) + binary_octets(password) + rest, Some(l), rest);
}

/// A will: properties, its topic, and its message.
pub open spec fn will_fields(w: WillModel) -> Seq<u8> {
    section(w.properties) + counted(w.topic) + counted(w.message)
}

/// A will is written as its fields.
pub proof fn will_is_written(w: WillModel, order: Option<Seq<u8>>)
    ensures
        w.octets(order) is Some <==> writable_section(w.properties, order) is Some,
        w.octets(order) is Some ==> w.octets(order)->0 == will_fields(
            WillModel { properties: written(w.properties, order), ..w },
        ),
        w.octets(order) is Some ==> w.octets(order)->0.len() == w.len(),
        w.len() == properties_len(w.properties) + 2 + w.topic.len() + 2 + w.message.len(),
{
    fields_are_counted(w.topic, Seq::empty());
    fields_are_counted(w.message, Seq::empty());
    if writable_section(w.properties, order) is Some {
        section_is_written(w.properties, order);
    }
}

/// A will is read exactly where the flags of the connection announce it: one bit that there is one,
/// two bits its quality of service, one bit whether it is retained. Without a will these bits are
/// clear.
#[verifier::spinoff_prover]
#[verifier::rlimit(40)]
pub proof fn will_is_read(flags: u8, s: Seq<u8>, will: Option<WillModel>, rest: Seq<u8>)
    ensures
        take_will(flags, s) == (Ok::<Option<WillModel>, Error>(will), rest) <==> {
            &&& (flags / 4) % 2 == 1 <==> will is Some
            &&& if will is Some {
                let w = will->0;
                &&& (flags / 8) % 4 == grade(w.qos)
                &&& (flags / 32) % 2 == 1 <==> w.retain
                &&& w.topic.len() <= 65535
                &&& w.message.len() <= 65535
                &&& proper(Owner::Will, w.properties)
                &&& s == will_fields(w) + rest
            } else {
                (flags / 8) % 8 == 0 && s == rest
            }
        },
{
    if take_will(flags, s) == (Ok::<Option<WillModel>, Error>(will), rest) && will is Some {
        let w = will->0;
        let a = take_properties(Owner::Will, s).1;
        section_is_read(Owner::Will, s, w.properties, a);
        let b = take_binary(a).1;
        counted_data_is_read(a, w.topic, b);
        counted_data_is_read(b, w.message, rest);
        assert(s =~= will_fields(w) + rest);
    }
    if will is Some && s == will_fields(will->0) + rest {
        let w = will->0;
        let b = counted(w.message) + rest;
        let a = counted(w.topic) + b;
        assert(s =~= section(w.properties) + a);
        section_is_read(Owner::Will, s, w.properties, a);
        counted_data_is_read(a, w.topic, b);
        counted_data_is_read(b, w.message, rest);
    }
}

/// The flags of a connection, from the second lowest bit up: a clean start, a will, its quality of
/// service in two bits, whether it is retained, a password, and the name of a user.
pub open spec fn connect_flags(m: ConnectModel) -> int {
    (if m.clean_start {
        0x02int
    } else {
        0
    }) + (if m.will is Some {
        0x04 + 0x08 * grade(m.will->0.qos) + if m.will->0.retain {
            0x20int
        } else {
            0
        }
    } else {
        0
    }) + (if m.login is Some && m.login->0.password is Some {
        0x40int
    } else {
        0
    }) + (if m.login is Some && m.login->0.username is Some {
        0x80int
    } else {
        0
    })
}

/// A request for a connection: the name and the level of the protocol, the flags, the time to keep
/// alive, properties, the identifier of the client, and a will and a login where there are such.
pub open spec fn connect_fields(m: ConnectModel, flags: u8) -> Seq<u8> {
    seq![0u8, 4u8, 77u8, 81u8, 84u8, 84u8, 5u8, flags] + two(m.keep_alive as int) + section(
        m.properties,
    ) + spelt(m.client_id) + (if m.will is Some {
        will_fields(m.will->0)
    } else {
        Seq::empty()
    }) + (if m.login is Some {
        login_fields(m.login->0)
    } else {
        Seq::empty()
    })
}

proof fn protocol_is_named()
    ensures
        spelt("MQTT"@) == seq![0u8, 4u8, 77u8, 81u8, 84u8, 84u8],
        sound("MQTT"@),
{
    reveal_strlit("MQTT");
    let t = "MQTT"@;
    vstd::utf8::is_ascii_chars_encode_utf8(t);
    let b = encode_utf8(t);
    assert(t[0] == 'M' && t[1] == 'Q' && t[2] == 'T' && t[3] == 'T');
    assert(b[0] == 77 && b[1] == 81 && b[2] == 84 && b[3] == 84);
    assert(spelt(t) =~= seq![0u8, 4u8, 77u8, 81u8, 84u8, 84u8]);
}

/// The connection as it is written: with its properties, and those of its will, in the order that
/// is asked for.
pub open spec fn in_order(
    m: ConnectModel,
    order: Option<Seq<u8>>,
    will_order: Option<Seq<u8>>,
) -> ConnectModel {
    ConnectModel {
        properties: written(m.properties, order),
        will: if m.will is Some {
            Some(
                WillModel {
                    properties: written(m.will->0.properties, will_order),
                    ..m.will->0
                },
            )
        } else {
            None
        },
        ..m
    }
}

/// A request for a connection is written as its fields.
#[verifier::spinoff_prover]
#[verifier::rlimit(40)]
pub proof fn connect_is_written(
    m: ConnectModel,
    order: Option<Seq<u8>>,
    will_order: Option<Seq<u8>>,
)
    ensures
        outcome(
            m.encode(order, will_order),
            0x10,
            connect_fields(in_order(m, order, will_order), connect_flags(m) as u8),
            m.len(),
            writable_section(m.properties, order) is Some && (m.will is Some ==> writable_section(
                m.will->0.properties,
                will_order,
            ) is Some),
        ),
{
    let none = Seq::<u8>::empty();
    if m.will is Some {
        will_is_written(m.will->0, will_order);
    }
    if m.len() <= 268435455 && m.encode(order, will_order).0 is Ok {
        let out = in_order(m, order, will_order);
        let f = m.flags();
        protocol_is_named();
        fields_are_counted(none, "MQTT"@);
        fields_are_counted(none, m.client_id);
        numbers_are_highest_first(m.keep_alive, 0, none);
        section_is_written(m.properties, order);
        lengths_are_lowest_first(m.len());
        assert(f == connect_flags(m) as u8) by {
            assert(qos_number(QoS::AtMostOnce) == 0);
        }
        let head = seq![0u8, 4u8, 77u8, 81u8, 84u8, 84u8, 5u8, f] + two(m.keep_alive as int);
        assert(m.head(f) =~= head);
        let will = if m.will is Some {
            will_fields(out.will->0)
        } else {
            none
        };
        let login = if m.login is Some {
            login_fields(m.login->0)
        } else {
            none
        };
        if m.login is Some {
            login_is_written(m.login->0, Seq::empty(), none);
        }
        assert(m.will_octets(will_order)->0 == will);
        assert(m.login_octets() == login);
        let fields = head + section(out.properties) + spelt(m.client_id) + will + login;
        assert(fields == connect_fields(out, f));
        assert(fields.len() == m.len());
        let start = seq![0x10u8] + sevens(m.len() as int);
        assert(start + head + section(out.properties) + spelt(m.client_id) + will + login
            =~= frame(0x10, fields));
    }
}

/// Whether the flags of a connection announce what it has. The lowest bit does not count.
pub open spec fn announces(flags: u8, m: ConnectModel) -> bool {
    &&& (flags / 2) % 2 == 1 <==> m.clean_start
    &&& (flags / 4) % 2 == 1 <==> m.will is Some
    &&& m.will is Some ==> (flags / 8) % 4 == grade(m.will->0.qos)
    &&& m.will is Some ==> ((flags / 32) % 2 == 1 <==> m.will->0.retain)
    &&& m.will is None ==> (flags / 8) % 8 == 0
    &&& (flags / 64) % 2 == 1 <==> m.login is Some && m.login->0.password is Some
    &&& flags >= 128 <==> m.login is Some && m.login->0.username is Some
}

/// Whether a connection can be read: texts and data fit their length, properties may stand where
/// they stand, and a login is not empty.
pub open spec fn can_connect(m: ConnectModel) -> bool {
    &&& sound(m.client_id)
    &&& proper(Owner::Connect, m.properties)
    &&& m.will is Some ==> {
        &&& m.will->0.topic.len() <= 65535
        &&& m.will->0.message.len() <= 65535
        &&& proper(Owner::Will, m.will->0.properties)
    }
    &&& m.login is Some ==> {
        &&& m.login->0.username is Some || m.login->0.password is Some
        &&& m.login->0.username is Some ==> sound(m.login->0.username->0)
        &&& m.login->0.password is Some ==> m.login->0.password->0.len() <= 65535
    }
}

/// A request for a connection is read exactly from its fields.
#[verifier::spinoff_prover]
#[verifier::rlimit(40)]
pub proof fn connect_is_read(body: Seq<u8>, m: ConnectModel)
    ensures
        ConnectModel::decode(body) == Ok::<ConnectModel, Error>(m) <==> {
            &&& body.len() >= 8
            &&& body == connect_fields(m, body[7])
            &&& announces(body[7], m)
            &&& can_connect(m)
        },
{
    if ConnectModel::decode(body) == Ok::<ConnectModel, Error>(m) {
        connect_is_spelt(body, m);
    }
    if body.len() >= 8 && body == connect_fields(m, body[7]) && announces(body[7], m)
        && can_connect(m) {
        connect_spells(body, m);
    }
}

#[verifier::spinoff_prover]
#[verifier::rlimit(40)]
proof fn connect_is_spelt(body: Seq<u8>, m: ConnectModel)
    requires
        ConnectModel::decode(body) == Ok::<ConnectModel, Error>(m),
    ensures
        body.len() >= 8,
        body == connect_fields(m, body[7]),
        announces(body[7], m),
        can_connect(m),
{
    let none = Seq::<u8>::empty();
    let name = take_text(body).0->Ok_0;
    let rest = take_text(body).1;
    spelt_text_is_read(body, name, rest);
    protocol_is_named();
    assert(body[7] == rest[1]);
    let f = rest[1];
    let s = rest.skip(2);
    numbers_are_highest_first(0, 0, s);
    let a = take_properties(Owner::Connect, s.skip(2)).1;
    section_is_read(Owner::Connect, s.skip(2), m.properties, a);
    let b = take_text(a).1;
    spelt_text_is_read(a, m.client_id, b);
    let c = take_will(f, b).1;
    will_is_read(f, b, m.will, c);
    let d = take_login(f, c).1;
    login_is_read(f, c, m.login, d);
    assert(d =~= none);
    let will = if m.will is Some {
        will_fields(m.will->0)
    } else {
        none
    };
    let login = if m.login is Some {
        login_fields(m.login->0)
    } else {
        none
    };
    assert(b =~= will + c);
    assert(c =~= login);
    assert(rest =~= seq![5u8, f] + s);
    assert(s =~= two(m.keep_alive as int) + (section(m.properties) + (spelt(m.client_id) + (will
        + login))));
    assert(body =~= seq![0u8, 4u8, 77u8, 81u8, 84u8, 84u8] + rest);
    assert(body =~= connect_fields(m, f));
}

#[verifier::spinoff_prover]
#[verifier::rlimit(40)]
proof fn connect_spells(body: Seq<u8>, m: ConnectModel)
    requires
        body.len() >= 8,
        body == connect_fields(m, body[7]),
        announces(body[7], m),
        can_connect(m),
    ensures
        ConnectModel::decode(body) == Ok::<ConnectModel, Error>(m),
{
    let none = Seq::<u8>::empty();
    let f = body[7];
    let will = if m.will is Some {
        will_fields(m.will->0)
    } else {
        none
    };
    let c = if m.login is Some {
        login_fields(m.login->0)
    } else {
        none
    };
    let b = will + c;
    let a = spelt(m.client_id) + b;
    let s = two(m.keep_alive as int) + (section(m.properties) + a);
    let rest = seq![5u8, f] + s;
    protocol_is_named();
    assert(body =~= spelt("MQTT"@) + rest);
    spelt_text_is_read(body, "MQTT"@, rest);
    assert(rest[0] == 5 && rest[1] == f);
    assert(rest.skip(2) =~= s);
    assert(u16_at(s) == m.keep_alive);
    assert(s.skip(2) =~= section(m.properties) + a);
    section_is_read(Owner::Connect, s.skip(2), m.properties, a);
    spelt_text_is_read(a, m.client_id, b);
    assert(m.will is None ==> b =~= c);
    will_is_read(f, b, m.will, c);
    assert(c =~= c + none);
    assert(m.login is None ==> c =~= none);
    login_is_read(f, c, m.login, none);
}

// Packets ------------------------------------------------------------------------------------

/// A ping and its answer have no fields; all other packets are written as told of each.
pub proof fn packet_is_written_by_kind(
    w: WirePacket,
    order: Option<Seq<u8>>,
    will_order: Option<Seq<u8>>,
)
    ensures
        w.encode(order, will_order) == match w {
            WirePacket::Auth(p) => p.encode(order),
            WirePacket::Connect(p) => p.encode(order, will_order),
            WirePacket::ConnAck(p) => p.encode(order),
            WirePacket::Publish(p) => p.encode(order),
            WirePacket::PubAck(p) => p.encode(order),
            WirePacket::PingReq => (Ok(2), frame(0xC0, Seq::empty())),
            WirePacket::PingResp => (Ok(2), frame(0xD0, Seq::empty())),
            WirePacket::Subscribe(p) => p.encode(order),
            WirePacket::SubAck(p) => p.encode(order),
            WirePacket::PubRec(p) => p.encode(order),
            WirePacket::PubRel(p) => p.encode(order),
            WirePacket::PubComp(p) => p.encode(order),
            WirePacket::Unsubscribe(p) => p.encode(order),
            WirePacket::UnsubAck(p) => p.encode(order),
            WirePacket::Disconnect(p) => p.encode(order),
        },
{
    assert(frame(0xC0, Seq::empty()) =~= seq![0xC0u8, 0u8]);
    assert(frame(0xD0, Seq::empty()) =~= seq![0xD0u8, 0u8]);
}

/// The first octet names the kind of a packet in its higher four bits. In the lower four a
/// publication has its flags, a release, a subscription and its removal have the second lowest bit
/// set, and all others have none.
pub proof fn first_octet_names_the_kind(first: u8)
    ensures
        type_of(first) == Ok::<PacketType, Error>(PacketType::Connect) <==> first == 0x10,
        type_of(first) == Ok::<PacketType, Error>(PacketType::ConnAck) <==> first == 0x20,
        type_of(first) == Ok::<PacketType, Error>(PacketType::Publish) <==> 0x30 <= first < 0x40
            && (first / 2) % 4 != 3 && !((first / 2) % 4 == 0 && (first / 8) % 2 == 1),
        type_of(first) == Ok::<PacketType, Error>(PacketType::PubAck) <==> first == 0x40,
        type_of(first) == Ok::<PacketType, Error>(PacketType::PubRec) <==> first == 0x50,
        type_of(first) == Ok::<PacketType, Error>(PacketType::PubRel) <==> first == 0x62,
        type_of(first) == Ok::<PacketType, Error>(PacketType::PubComp) <==> first == 0x70,
        type_of(first) == Ok::<PacketType, Error>(PacketType::Subscribe) <==> first == 0x82,
        type_of(first) == Ok::<PacketType, Error>(PacketType::SubAck) <==> first == 0x90,
        type_of(first) == Ok::<PacketType, Error>(PacketType::Unsubscribe) <==> first == 0xA2,
        type_of(first) == Ok::<PacketType, Error>(PacketType::UnsubAck) <==> first == 0xB0,
        type_of(first) == Ok::<PacketType, Error>(PacketType::PingReq) <==> first == 0xC0,
        type_of(first) == Ok::<PacketType, Error>(PacketType::PingResp) <==> first == 0xD0,
        type_of(first) == Ok::<PacketType, Error>(PacketType::Disconnect) <==> first == 0xE0,
        type_of(first) == Ok::<PacketType, Error>(PacketType::Auth) <==> first == 0xF0,
        type_of(first) matches Err(e) ==> e == if first == 0 {
            Error::InvalidPacketType(0)
        } else {
            Error::MalformedPacket
        },
{
}

/// A packet is read exactly from the fields of the kind that its first octet names. Only a ping,
/// its answer, the end of a connection and an authentication can be without fields, and the first
/// two have none.
#[verifier::spinoff_prover]
#[verifier::rlimit(40)]
pub proof fn packet_is_read_by_kind(h: FixedHeader, whole: Seq<u8>, w: WirePacket)
    requires
        whole.len() == h.fixed_header_len + h.remaining_len,
    ensures
        ({
            let fields = whole.skip(h.fixed_header_len as int);
            let some = h.remaining_len > 0;
            WirePacket::decode(h, whole) == Ok::<WirePacket, Error>(w) <==> match w {
                WirePacket::Connect(p) => h.byte1 == 0x10 && some && ConnectModel::decode(fields)
                    == Ok::<ConnectModel, Error>(p),
                WirePacket::ConnAck(p) => h.byte1 == 0x20 && some && ConnAckModel::decode(fields)
                    == Ok::<ConnAckModel, Error>(p),
                WirePacket::Publish(p) => 0x30 <= h.byte1 < 0x40 && some && PublishWire::decode(
                    h.byte1,
                    fields,
                ) == Ok::<PublishWire, Error>(p) && (p.qos == QoS::AtMostOnce ==> !p.dup),
                WirePacket::PubAck(p) => h.byte1 == 0x40 && some && PubAckModel::decode(fields)
                    == Ok::<PubAckModel, Error>(p),
                WirePacket::PubRec(p) => h.byte1 == 0x50 && some && PubRecModel::decode(fields)
                    == Ok::<PubRecModel, Error>(p),
                WirePacket::PubRel(p) => h.byte1 == 0x62 && some && PubRelModel::decode(fields)
                    == Ok::<PubRelModel, Error>(p),
                WirePacket::PubComp(p) => h.byte1 == 0x70 && some && PubCompModel::decode(fields)
                    == Ok::<PubCompModel, Error>(p),
                WirePacket::Subscribe(p) => h.byte1 == 0x82 && some && SubscribeModel::decode(
                    fields,
                ) == Ok::<SubscribeModel, Error>(p),
                WirePacket::SubAck(p) => h.byte1 == 0x90 && some && SubAckModel::decode(fields)
                    == Ok::<SubAckModel, Error>(p),
                WirePacket::Unsubscribe(p) => h.byte1 == 0xA2 && some && UnsubscribeModel::decode(
                    fields,
                ) == Ok::<UnsubscribeModel, Error>(p),
                WirePacket::UnsubAck(p) => h.byte1 == 0xB0 && some && UnsubAckModel::decode(fields)
                    == Ok::<UnsubAckModel, Error>(p),
                WirePacket::PingReq => h.byte1 == 0xC0 && !some,
                WirePacket::PingResp => h.byte1 == 0xD0 && !some,
                WirePacket::Disconnect(p) => h.byte1 == 0xE0 && DisconnectModel::decode(fields)
                    == Ok::<DisconnectModel, Error>(p),
                WirePacket::Auth(p) => h.byte1 == 0xF0 && AuthModel::decode(fields) == Ok::<
                    AuthModel,
                    Error,
                >(p),
            }
        }),
        type_of(h.byte1) matches Err(e) ==> WirePacket::decode(h, whole) == Err::<
            WirePacket,
            Error,
        >(e),
{
    first_octet_names_the_kind(h.byte1);
    if let WirePacket::Publish(p) = w {
        publish_is_read(h.byte1, whole.skip(h.fixed_header_len as int), p);
    }
}

/// A whole packet at the front is read and taken away, and what follows it is left; how it is read
/// depends on its own octets alone. One that is longer than the limit is refused and left.
pub proof fn whole_packet_is_taken(first: u8, fields: Seq<u8>, rest: Seq<u8>, max: Option<u32>)
    requires
        fields.len() <= 268435455,
    ensures
        ({
            let whole = frame(first, fields);
            let r = read_result(whole + rest, max);
            if max is Some && fields.len() > max->0 {
                &&& r.0 == Err::<WirePacket, Error>(
                    Error::PayloadSizeLimitExceeded {
                        pkt_size: fields.len() as usize,
                        max: max->0,
                    },
                )
                &&& r.1 == whole + rest
            } else {
                &&& r.0 == WirePacket::decode(
                    FixedHeader {
                        byte1: first,
                        fixed_header_len: (1 + sevens(fields.len() as int).len()) as usize,
                        remaining_len: fields.len() as usize,
                    },
                    whole,
                )
                &&& r.1 == rest
            }
        }),
{
    let whole = frame(first, fields);
    let s = whole + rest;
    let n = sevens(fields.len() as int);
    assert(s[0] == first);
    assert(s.skip(1) =~= n + (fields + rest));
    lengths_are_read_in_shortest_form(s, fields.len(), fields + rest);
    assert(s.take(whole.len() as int) =~= whole);
    assert(s.skip(whole.len() as int) =~= rest);
}

/// Of a packet that has not come in full, nothing is taken, and the reader tells how many octets it
/// needs at least: for the header up to two, then one by one, then all that are missing.
pub proof fn partial_packet_is_left(first: u8, fields: Seq<u8>, k: int, max: Option<u32>)
    requires
        fields.len() <= 268435455,
        0 <= k < frame(first, fields).len(),
        max is Some ==> fields.len() <= max->0,
    ensures
        ({
            let whole = frame(first, fields);
            let header = 1 + sevens(fields.len() as int).len();
            read_result(whole.take(k), max) == (
                Err::<WirePacket, Error>(
                    Error::InsufficientBytes(
                        (if k < 2 {
                            2 - k
                        } else if k < header {
                            1
                        } else {
                            whole.len() - k
                        }) as usize,
                    ),
                ),
                whole.take(k),
            )
        }),
{
    let whole = frame(first, fields);
    let s = whole.take(k);
    let n = sevens(fields.len() as int);
    let header = 1 + n.len();
    if k >= 2 {
        let t = s.skip(1);
        if k < header {
            assert forall|i: int| 0 <= i < t.len() implies (#[trigger] t[i]) >= 128 by {
                assert(t[i] == whole[i + 1]);
                assert(whole[i + 1] == n[i]);
            }
            assert(t.len() < 4);
            lengths_are_read_in_shortest_form(t, 0, Seq::empty());
            if length_at(t) is Ok {
                assert(t[0] >= 128);
                assert(t.len() > 1 ==> t[1] >= 128);
                assert(t.len() > 2 ==> t[2] >= 128);
            }
        } else {
            assert(t =~= n + s.skip(header as int));
            lengths_are_read_in_shortest_form(t, fields.len(), s.skip(header as int));
            assert(s[0] == first);
        }
    }
}

/// Nothing longer than the limit is written: a packet that is too long is refused with its length,
/// and any other is written as without a limit.
pub proof fn limit_is_kept(w: WirePacket, max: Option<u32>)
    requires
        w.size() <= usize::MAX,
    ensures
        ({
            let r = w.encode_within(max);
            if max is Some && w.size() > max->0 {
                &&& r.0 == Err::<usize, Error>(
                    Error::OutgoingPacketTooLarge {
                        pkt_size: (w.size() as usize) as u32,
                        max: max->0,
                    },
                )
                &&& r.1.len() == 0
            } else {
                r == w.encode(None, None)
            }
        }),
{
}

/// An order is followed or nothing is written: a packet that is longer than the limit is refused
/// with its length, an order for properties that are not there is refused, and so is what cannot be
/// written.
pub proof fn order_is_followed_or_refused(
    w: WirePacket,
    max: Option<u32>,
    order: Seq<u8>,
    will_order: Seq<u8>,
)
    ensures
        ({
            let r = w.encode_ordered(max, order, will_order);
            let plain = w.encode(Some(order), Some(will_order));
            let listed = match w {
                WirePacket::Auth(p) => p.properties is Some,
                WirePacket::Connect(p) => p.properties is Some,
                WirePacket::ConnAck(p) => p.properties is Some,
                WirePacket::Publish(p) => p.properties is Some,
                WirePacket::PubAck(p) => p.properties is Some,
                WirePacket::PingReq => false,
                WirePacket::PingResp => false,
                WirePacket::Subscribe(p) => p.properties is Some,
                WirePacket::SubAck(p) => p.properties is Some,
                WirePacket::PubRec(p) => p.properties is Some,
                WirePacket::PubRel(p) => p.properties is Some,
                WirePacket::PubComp(p) => p.properties is Some,
                WirePacket::Unsubscribe(p) => p.properties is Some,
                WirePacket::UnsubAck(p) => p.properties is Some,
                WirePacket::Disconnect(p) => p.properties is Some,
            };
            let will_listed = w matches WirePacket::Connect(p) && p.will is Some
                && p.will->0.properties is Some;
            if max is Some && w.size() > max->0 {
                &&& r.0 == Err::<usize, Error>(
                    Error::OutgoingPacketTooLarge {
                        pkt_size: (w.size() as usize) as u32,
                        max: max->0,
                    },
                )
                &&& r.1.len() == 0
            } else if order.len() > 0 && !listed || will_order.len() > 0 && !will_listed {
                r.0 == Err::<usize, Error>(Error::MalformedPacket) && r.1.len() == 0
            } else if plain.0 is Ok {
                r == plain
            } else {
                r.0 == plain.0 && r.1.len() == 0
            }
        }),
{
}

/// What is written takes as many octets as the size of the packet tells, and that number is
/// returned.
#[verifier::spinoff_prover]
#[verifier::rlimit(40)]
pub proof fn size_is_what_is_written(
    w: WirePacket,
    order: Option<Seq<u8>>,
    will_order: Option<Seq<u8>>,
)
    requires
        w matches WirePacket::ConnAck(p) ==> is_current(p.code),
        w matches WirePacket::UnsubAck(p) ==> (p.properties is Some && order is None
            ==> entries_fit(p.properties->0)),
    ensures
        w.encode(order, will_order).0 matches Ok(n) ==> n == w.encode(order, will_order).1.len()
            && n
            == w.size(),
{
    packet_is_written_by_kind(w, order, will_order);
    match w {
        WirePacket::Auth(p) => auth_is_written(p, order),
        WirePacket::Connect(p) => connect_is_written(p, order, will_order),
        WirePacket::ConnAck(p) => connack_is_written(p, order),
        WirePacket::Publish(p) => publish_is_written(p, order),
        WirePacket::PubAck(p) => puback_is_written(p, order),
        WirePacket::PingReq => {},
        WirePacket::PingResp => {},
        WirePacket::Subscribe(p) => {
            subscribe_is_written(p, order);
            filters_are_plain(p.filters);
        },
        WirePacket::SubAck(p) => suback_is_written(p, order),
        WirePacket::PubRec(p) => pubrec_is_written(p, order),
        WirePacket::PubRel(p) => pubrel_is_written(p, order),
        WirePacket::PubComp(p) => pubcomp_is_written(p, order),
        WirePacket::Unsubscribe(p) => {
            unsubscribe_is_written(p, order);
            texts_are_plain(p.filters);
        },
        WirePacket::UnsubAck(p) => unsuback_is_written(p, order),
        WirePacket::Disconnect(p) => disconnect_is_written(p, order),
    }
    let len = w.len();
    if len <= 268435455 {
        lengths_are_lowest_first(len);
    }
}

} // verus!
