use bytes::{Buf, Bytes, BytesMut};
use vstd::prelude::*;

use crate::octets::{buffered, has_room, octets, put_u8};
use crate::v5::mqttbytes::Error;
use super::frame::{emitted, emitted_fields, frame_len, FixedHeader};
use super::ordered::{
    listed, order_of, push_integer, push_pairs, push_text, write_properties, Property,
};
use super::property::{
    are_fields, canonical, canonical_opt, entries_fit, entries_len, entries_len_add,
    fields_are_valid, group_joined, ids, ids_opt, integer, integer_len, is_field, joined,
    next_property, noted_ids, pairs, pairs_len, pairs_push, parse_end, parse_entries, parse_step,
    pick, pick_empty, pick_push, picks, properties_len, property, section_ids, section_len,
    section_octets, table, take_properties, text, text_len, tracks, tracks_nothing, valid_entries,
    writable, writable_section, written, written_round_trip, Entry, Owner, PropertyType, Value,
};
use super::wire::{
    group_take_shrinks, len_len, read_mqtt_string, read_properties_section, read_u32, read_u8,
    varint, varint_len, write_remaining_length,
};

verus! {

broadcast use super::wire::group_octets_len;

/// Reason of a disconnect packet
#[derive(Debug, Clone, Copy, PartialEq, Eq, Structural)]
pub enum DisconnectReasonCode {
    NormalDisconnection,
    DisconnectWithWillMessage,
    UnspecifiedError,
    MalformedPacket,
    ProtocolError,
    ImplementationSpecificError,
    NotAuthorized,
    ServerBusy,
    ServerShuttingDown,
    KeepAliveTimeout,
    SessionTakenOver,
    TopicFilterInvalid,
    TopicNameInvalid,
    ReceiveMaximumExceeded,
    TopicAliasInvalid,
    PacketTooLarge,
    MessageRateTooHigh,
    QuotaExceeded,
    AdministrativeAction,
    PayloadFormatInvalid,
    RetainNotSupported,
    QoSNotSupported,
    UseAnotherServer,
    ServerMoved,
    SharedSubscriptionNotSupported,
    ConnectionRateExceeded,
    MaximumConnectTime,
    SubscriptionIdentifiersNotSupported,
    WildcardSubscriptionsNotSupported,
}

impl DisconnectReasonCode {
    /// The number that stands for the reason on the wire.
    pub open spec fn number(self) -> u8 {
        match self {
            DisconnectReasonCode::NormalDisconnection => 0x00,
            DisconnectReasonCode::DisconnectWithWillMessage => 0x04,
            DisconnectReasonCode::UnspecifiedError => 0x80,
            DisconnectReasonCode::MalformedPacket => 0x81,
            DisconnectReasonCode::ProtocolError => 0x82,
            DisconnectReasonCode::ImplementationSpecificError => 0x83,
            DisconnectReasonCode::NotAuthorized => 0x87,
            DisconnectReasonCode::ServerBusy => 0x89,
            DisconnectReasonCode::ServerShuttingDown => 0x8B,
            DisconnectReasonCode::KeepAliveTimeout => 0x8D,
            DisconnectReasonCode::SessionTakenOver => 0x8E,
            DisconnectReasonCode::TopicFilterInvalid => 0x8F,
            DisconnectReasonCode::TopicNameInvalid => 0x90,
            DisconnectReasonCode::ReceiveMaximumExceeded => 0x93,
            DisconnectReasonCode::TopicAliasInvalid => 0x94,
            DisconnectReasonCode::PacketTooLarge => 0x95,
            DisconnectReasonCode::MessageRateTooHigh => 0x96,
            DisconnectReasonCode::QuotaExceeded => 0x97,
            DisconnectReasonCode::AdministrativeAction => 0x98,
            DisconnectReasonCode::PayloadFormatInvalid => 0x99,
            DisconnectReasonCode::RetainNotSupported => 0x9A,
            DisconnectReasonCode::QoSNotSupported => 0x9B,
            DisconnectReasonCode::UseAnotherServer => 0x9C,
            DisconnectReasonCode::ServerMoved => 0x9D,
            DisconnectReasonCode::SharedSubscriptionNotSupported => 0x9E,
            DisconnectReasonCode::ConnectionRateExceeded => 0x9F,
            DisconnectReasonCode::MaximumConnectTime => 0xA0,
            DisconnectReasonCode::SubscriptionIdentifiersNotSupported => 0xA1,
            DisconnectReasonCode::WildcardSubscriptionsNotSupported => 0xA2,
        }
    }

    /// The reason that a number on the wire stands for.
    pub open spec fn of(num: u8) -> Result<DisconnectReasonCode, Error> {
        if num == 0x00 {
            Ok(DisconnectReasonCode::NormalDisconnection)
        } else if num == 0x04 {
            Ok(DisconnectReasonCode::DisconnectWithWillMessage)
        } else if num == 0x80 {
            Ok(DisconnectReasonCode::UnspecifiedError)
        } else if num == 0x81 {
            Ok(DisconnectReasonCode::MalformedPacket)
        } else if num == 0x82 {
            Ok(DisconnectReasonCode::ProtocolError)
        } else if num == 0x83 {
            Ok(DisconnectReasonCode::ImplementationSpecificError)
        } else if num == 0x87 {
            Ok(DisconnectReasonCode::NotAuthorized)
        } else if num == 0x89 {
            Ok(DisconnectReasonCode::ServerBusy)
        } else if num == 0x8B {
            Ok(DisconnectReasonCode::ServerShuttingDown)
        } else if num == 0x8D {
            Ok(DisconnectReasonCode::KeepAliveTimeout)
        } else if num == 0x8E {
            Ok(DisconnectReasonCode::SessionTakenOver)
        } else if num == 0x8F {
            Ok(DisconnectReasonCode::TopicFilterInvalid)
        } else if num == 0x90 {
            Ok(DisconnectReasonCode::TopicNameInvalid)
        } else if num == 0x93 {
            Ok(DisconnectReasonCode::ReceiveMaximumExceeded)
        } else if num == 0x94 {
            Ok(DisconnectReasonCode::TopicAliasInvalid)
        } else if num == 0x95 {
            Ok(DisconnectReasonCode::PacketTooLarge)
        } else if num == 0x96 {
            Ok(DisconnectReasonCode::MessageRateTooHigh)
        } else if num == 0x97 {
            Ok(DisconnectReasonCode::QuotaExceeded)
        } else if num == 0x98 {
            Ok(DisconnectReasonCode::AdministrativeAction)
        } else if num == 0x99 {
            Ok(DisconnectReasonCode::PayloadFormatInvalid)
        } else if num == 0x9A {
            Ok(DisconnectReasonCode::RetainNotSupported)
        } else if num == 0x9B {
            Ok(DisconnectReasonCode::QoSNotSupported)
        } else if num == 0x9C {
            Ok(DisconnectReasonCode::UseAnotherServer)
        } else if num == 0x9D {
            Ok(DisconnectReasonCode::ServerMoved)
        } else if num == 0x9E {
            Ok(DisconnectReasonCode::SharedSubscriptionNotSupported)
        } else if num == 0x9F {
            Ok(DisconnectReasonCode::ConnectionRateExceeded)
        } else if num == 0xA0 {
            Ok(DisconnectReasonCode::MaximumConnectTime)
        } else if num == 0xA1 {
            Ok(DisconnectReasonCode::SubscriptionIdentifiersNotSupported)
        } else if num == 0xA2 {
            Ok(DisconnectReasonCode::WildcardSubscriptionsNotSupported)
        } else {
            Err(Error::InvalidReason(num))
        }
    }
}

/// Last packet of a connection
#[derive(Debug, Clone, PartialEq, Eq)]
pub struct Disconnect {
    /// Disconnect Reason Code
    pub reason_code: DisconnectReasonCode,
    /// Disconnect Properties
    pub properties: Option<DisconnectProperties>,
}

/// What a disconnect packet holds. The entries of the properties stand in the order of the wire,
/// or in the order of the typed fields.
#[verifier::ext_equal]
pub struct DisconnectModel {
    pub reason_code: DisconnectReasonCode,
    pub properties: Option<Seq<Entry>>,
}

impl DisconnectModel {
    /// Whether the reason and the properties are left out.
    pub open spec fn is_short(self) -> bool {
        self.reason_code == DisconnectReasonCode::NormalDisconnection && self.properties is None
    }

    /// The length of the fields behind the fixed header.
    pub open spec fn len(self) -> nat {
        if self.is_short() {
            0
        } else {
            1 + properties_len(self.properties)
        }
    }

    /// The packet that the octets behind a fixed header spell. The properties may be left out,
    /// and with them the reason.
    pub open spec fn decode(body: Seq<u8>) -> Result<DisconnectModel, Error> {
        if body.len() == 0 {
            Ok(
                DisconnectModel {
                    reason_code: DisconnectReasonCode::NormalDisconnection,
                    properties: None,
                },
            )
        } else {
            match DisconnectReasonCode::of(body[0]) {
                Err(e) => Err(e),
                Ok(reason_code) => if body.len() == 1 {
                    Ok(DisconnectModel { reason_code, properties: None })
                } else {
                    match take_properties(Owner::Disconnect, body.skip(1)) {
                        (Err(e), _) => Err(e),
                        (Ok(properties), rest) => if rest.len() > 0 {
                            Err(Error::MalformedPacket)
                        } else {
                            Ok(DisconnectModel { reason_code, properties })
                        },
                    }
                },
            }
        }
    }

    /// The identifiers of properties that a reader of the octets behind the fixed header has noted
    /// when it ends or stops.
    pub open spec fn noted(body: Seq<u8>) -> Seq<u8> {
        if body.len() < 2 || DisconnectReasonCode::of(body[0]) is Err {
            Seq::empty()
        } else {
            section_ids(Owner::Disconnect, body.skip(1))
        }
    }

    /// What a writer of the packet returns and appends.
    pub open spec fn encode(self, order: Option<Seq<u8>>) -> (Result<usize, Error>, Seq<u8>) {
        if self.is_short() {
            (Ok(2), seq![0xE0u8, 0u8])
        } else {
            emitted(
                0xE0,
                self.len(),
                seq![self.reason_code.number()],
                writable_section(self.properties, order),
                Seq::empty(),
            )
        }
    }

    /// The packet with the entries in the order of the typed fields.
    pub open spec fn canonical(self) -> DisconnectModel {
        DisconnectModel { properties: canonical_opt(Owner::Disconnect, self.properties), ..self }
    }

    /// The identifiers of the properties, in order.
    pub open spec fn order(self) -> Seq<u8> {
        ids_opt(self.properties)
    }
}

impl View for Disconnect {
    type V = DisconnectModel;

    open spec fn view(&self) -> DisconnectModel {
        DisconnectModel {
            reason_code: self.reason_code,
            properties: match self.properties {
                Some(p) => Some(p@),
                None => None,
            },
        }
    }
}

impl Disconnect {
    pub fn new(reason: DisconnectReasonCode) -> (r: Self)
        ensures
            r@ == (DisconnectModel { reason_code: reason, properties: None }),
    {
        Disconnect { reason_code: reason, properties: None }
    }

    fn len(&self) -> (r: usize)
        requires
            self@.len() <= usize::MAX,
        ensures
            r == self@.len(),
    {
        if self.reason_code == DisconnectReasonCode::NormalDisconnection
            && self.properties.is_none() {
            return 0;
        }
        let mut len: usize = 1;  // reason code
        if let Some(p) = &self.properties {
            let properties_len: usize = p.len();
            let properties_len_len: usize = len_len(properties_len);
            len = len + properties_len_len + properties_len;
        } else {
            // just 1 byte representing 0 len
            len = len + 1;
        }
        len
    }

    pub fn size(&self) -> (r: usize)
        requires
            frame_len(self@.len()) <= usize::MAX,
        ensures
            r == frame_len(self@.len()),
    {
        let len: usize = self.len();
        let remaining_len_size: usize = len_len(len);
        1 + remaining_len_size + len
    }

    pub fn read(fixed_header: FixedHeader, bytes: Bytes) -> (r: Result<Disconnect, Error>)
        requires
            fixed_header.fixed_header_len <= octets(bytes).len(),
        ensures
            match DisconnectModel::decode(octets(bytes).skip(fixed_header.fixed_header_len as int)) {
                Ok(w) => r matches Ok(a) && a@ == w.canonical(),
                Err(e) => r == Err::<Disconnect, Error>(e),
            },
    {
        let mut order: Vec<u8> = Vec::new();
        Self::read_traced(fixed_header, bytes, &mut order)
    }

    pub(crate) fn read_traced(
        fixed_header: FixedHeader,
        bytes: Bytes,
        order: &mut Vec<u8>,
    ) -> (r: Result<Disconnect, Error>)
        requires
            fixed_header.fixed_header_len <= octets(bytes).len(),
        ensures
            match DisconnectModel::decode(octets(bytes).skip(fixed_header.fixed_header_len as int)) {
                Ok(w) => r matches Ok(a) && a@ == w.canonical() && final(order)@ == old(order)@
                    + w.order(),
                Err(e) => r == Err::<Disconnect, Error>(e),
            },
            final(order)@ == old(order)@ + DisconnectModel::noted(
                octets(bytes).skip(fixed_header.fixed_header_len as int),
            ),
    {
        let mut bytes = bytes;
        let variable_header_index: usize = fixed_header.fixed_header_len;
        bytes.advance(variable_header_index);
        assert(order@ =~= old(order)@ + Seq::<u8>::empty());
        if bytes.is_empty() {
            return Ok(Disconnect::new(DisconnectReasonCode::NormalDisconnection));
        }
        let num: u8 = match read_u8(&mut bytes) {
            Ok(v) => v,
            Err(e) => return Err(e),
        };
        let reason_code = match reason(num) {
            Ok(v) => v,
            Err(e) => return Err(e),
        };
        if bytes.is_empty() {
            return Ok(Disconnect { reason_code, properties: None });
        }
        let properties = match DisconnectProperties::read_traced(&mut bytes, order) {
            Ok(v) => v,
            Err(e) => return Err(e),
        };
        if !bytes.is_empty() {
            return Err(Error::MalformedPacket);
        }
        Ok(Disconnect { reason_code, properties })
    }

    pub fn write(&self, buffer: &mut BytesMut) -> (r: Result<usize, Error>)
        requires
            has_room(*old(buffer), frame_len(self@.len()) as int),
        ensures
            r == self@.encode(None).0,
            buffered(*final(buffer)) == buffered(*old(buffer)) + self@.encode(None).1,
    {
        self.write_ordered(buffer, None)
    }

    pub(crate) fn write_ordered(&self, buffer: &mut BytesMut, order: Option<&[u8]>) -> (r: Result<
        usize,
        Error,
    >)
        requires
            has_room(*old(buffer), frame_len(self@.len()) as int),
        ensures
            r == self@.encode(order_of(order)).0,
            buffered(*final(buffer)) == buffered(*old(buffer)) + self@.encode(order_of(order)).1,
    {
        let ghost start = buffered(*buffer);
        let len: usize = self.len();
        put_u8(buffer, 0xE0);
        assert(buffered(*buffer) =~= start + seq![0xE0u8]);
        let count: usize = match write_remaining_length(buffer, len) {
            Ok(count) => count,
            Err(e) => return Err(e),
        };
        if len == 0 {
            assert(varint(0) =~= seq![0u8]);
            assert(buffered(*buffer) =~= start + seq![0xE0u8, 0u8]);
            return Ok(2);
        }
        put_u8(buffer, code(self.reason_code));
        let ghost head = seq![0xE0u8] + varint(len as nat) + seq![self.reason_code.number()];
        assert(buffered(*buffer) =~= start + head);
        if let Some(p) = &self.properties {
            if let Err(e) = p.write_ordered(buffer, order) {
                return Err(e);
            }
        } else {
            if let Err(e) = write_remaining_length(buffer, 0) {
                return Err(e);
            }
            assert(varint(0) =~= seq![0u8]);
        }
        assert(buffered(*buffer) =~= start + self@.encode(order_of(order)).1);
        Ok(1 + count + len)
    }
}

#[derive(Debug, Clone, PartialEq, Eq)]
pub struct DisconnectProperties {
    /// Session Expiry Interval in seconds
    pub session_expiry_interval: Option<u32>,
    /// Human readable reason for the disconnect
    pub reason_string: Option<String>,
    /// List of user properties
    pub user_properties: Vec<(String, String)>,
    /// String which can be used by the Client to identify another Server to use.
    pub server_reference: Option<String>,
}

impl View for DisconnectProperties {
    type V = Seq<Entry>;

    /// The entries in the order in which they are written by default.
    open spec fn view(&self) -> Seq<Entry> {
        joined(self.fields())
    }
}

impl Default for DisconnectProperties {
    fn default() -> (r: Self)
        ensures
            r.session_expiry_interval is None,
            r.reason_string is None,
            r.user_properties@.len() == 0,
            r.server_reference is None,
    {
        DisconnectProperties {
            session_expiry_interval: None,
            reason_string: None,
            user_properties: Vec::new(),
            server_reference: None,
        }
    }
}

impl DisconnectProperties {
    /// The entries of each field.
    pub open spec fn fields(self) -> Seq<Seq<Entry>> {
        Seq::empty()
            .push(integer(17, self.session_expiry_interval))
            .push(text(31, self.reason_string))
            .push(pairs(self.user_properties@))
            .push(text(28, self.server_reference))
    }

    fn len(&self) -> (r: usize)
        requires
            entries_len(self@) <= usize::MAX,
        ensures
            r == entries_len(self@),
    {
        broadcast use {entries_len_add, group_joined};

        let mut len: usize = 0;
        len = len + integer_len(17, self.session_expiry_interval);
        len = len + text_len(31, &self.reason_string);
        len = len + pairs_len(&self.user_properties);
        len = len + text_len(28, &self.server_reference);
        len
    }

    pub fn read(bytes: &mut Bytes) -> (r: Result<Option<DisconnectProperties>, Error>)
        ensures
            match take_properties(Owner::Disconnect, octets(*old(bytes))) {
                (Ok(None), rest) => r matches Ok(None) && octets(*final(bytes)) == rest,
                (Ok(Some(es)), rest) => r matches Ok(Some(p)) && p@ == canonical(Owner::Disconnect, es)
                    && octets(*final(bytes)) == rest,
                (Err(e), rest) => r == Err::<Option<DisconnectProperties>, Error>(e) && octets(
                    *final(bytes),
                ) == rest,
            },
    {
        let mut order: Vec<u8> = Vec::new();
        Self::read_traced(bytes, &mut order)
    }

    pub(crate) fn read_traced(bytes: &mut Bytes, order: &mut Vec<u8>) -> (r: Result<
        Option<DisconnectProperties>,
        Error,
    >)
        ensures
            match take_properties(Owner::Disconnect, octets(*old(bytes))) {
                (Ok(None), rest) => r matches Ok(None) && octets(*final(bytes)) == rest
                    && final(order)@ == old(order)@,
                (Ok(Some(es)), rest) => r matches Ok(Some(p)) && p@ == canonical(Owner::Disconnect, es)
                    && octets(*final(bytes)) == rest && final(order)@ == old(order)@ + ids(es),
                (Err(e), rest) => r == Err::<Option<DisconnectProperties>, Error>(e) && octets(
                    *final(bytes),
                ) == rest,
            },
            final(order)@ == old(order)@ + section_ids(Owner::Disconnect, octets(*old(bytes))),
    {
        proof {
            reveal(take_properties);
        }
        let section = match read_properties_section(bytes) {
            Ok(section) => section,
            Err(e) => return Err(e),
        };
        if section.is_empty() {
            proof {
                parse_end(Owner::Disconnect, octets(section), Seq::empty());
            }
            return Ok(None);
        }
        match Self::read_section(section, order) {
            Ok(props) => Ok(Some(props)),
            Err(e) => Err(e),
        }
    }

    /// Reads the entries of a section that was isolated.
    fn read_section(section: Bytes, order: &mut Vec<u8>) -> (r: Result<DisconnectProperties, Error>)
        ensures
            match parse_entries(Owner::Disconnect, octets(section), Seq::empty()) {
                Ok(es) => r matches Ok(p) && p@ == canonical(Owner::Disconnect, es) && final(order)@
                    == old(order)@ + ids(es),
                Err(e) => r == Err::<DisconnectProperties, Error>(e),
            },
            final(order)@ == old(order)@ + noted_ids(Owner::Disconnect, octets(section), Seq::empty()),
    {
        let mut rest = section;
        let ghost mut es: Seq<Entry> = Seq::empty();
        let mut props = DisconnectProperties::default();
        let mut seen: u64 = 0;
        let mut count: usize = 0;
        proof {
            broadcast use pick_empty;

            tracks_nothing();
            assert(order@ =~= old(order)@ + ids(es));
            assert(pairs(props.user_properties@) =~= Seq::<Entry>::empty());
        }
        while !rest.is_empty()
            invariant
                parse_entries(Owner::Disconnect, octets(section), Seq::empty()) == parse_entries(
                    Owner::Disconnect,
                    octets(rest),
                    es,
                ),
                noted_ids(Owner::Disconnect, octets(section), Seq::empty()) == noted_ids(
                    Owner::Disconnect,
                    octets(rest),
                    es,
                ),
                tracks(seen, count, es),
                es.len() <= 1024,
                order@ == old(order)@ + ids(es),
                integer(17, props.session_expiry_interval) == pick(es, 17),
                text(31, props.reason_string) == pick(es, 31),
                pairs(props.user_properties@) == pick(es, 38),
                text(28, props.server_reference) == pick(es, 28),
            decreases octets(rest).len(),
        {
            broadcast use {pick_push, group_take_shrinks};

            proof {
                parse_step(Owner::Disconnect, octets(rest), es);
            }
            let prop: u8 = match next_property(
                &mut rest,
                Owner::Disconnect,
                &mut seen,
                &mut count,
                order,
                Ghost(es),
            ) {
                Ok(prop) => prop,
                Err(e) => return Err(e),
            };
            assert(order@ =~= old(order)@ + ids(es).push(prop));
            let property = match property(prop) {
                Ok(property) => property,
                Err(e) => return Err(e),
            };
            match property {
                PropertyType::SessionExpiryInterval => {
                    let value: u32 = match read_u32(&mut rest) {
                        Ok(v) => v,
                        Err(e) => return Err(e),
                    };
                    proof {
                        es = es.push((prop, Value::Integer(value)));
                    }
                    props.session_expiry_interval = Some(value);
                },
                PropertyType::ReasonString => {
                    let value = match read_mqtt_string(&mut rest) {
                        Ok(v) => v,
                        Err(e) => return Err(e),
                    };
                    proof {
                        es = es.push((prop, Value::Text(value@)));
                    }
                    props.reason_string = Some(value);
                },
                PropertyType::UserProperty => {
                    let key = match read_mqtt_string(&mut rest) {
                        Ok(v) => v,
                        Err(e) => return Err(e),
                    };
                    let value = match read_mqtt_string(&mut rest) {
                        Ok(v) => v,
                        Err(e) => return Err(e),
                    };
                    proof {
                        pairs_push(props.user_properties@, (key, value));
                        es = es.push((prop, Value::Pair(key@, value@)));
                    }
                    props.user_properties.push((key, value));
                },
                PropertyType::ServerReference => {
                    let value = match read_mqtt_string(&mut rest) {
                        Ok(v) => v,
                        Err(e) => return Err(e),
                    };
                    proof {
                        es = es.push((prop, Value::Text(value@)));
                    }
                    props.server_reference = Some(value);
                },
                _ => return Err(Error::InvalidPropertyType(prop)),
            }
            assert(order@ =~= old(order)@ + ids(es));
        }
        proof {
            parse_end(Owner::Disconnect, octets(rest), es);
            disconnect_properties_are_picked(props, es);
        }
        Ok(props)
    }

    pub fn write(&self, buffer: &mut BytesMut) -> (r: Result<(), Error>)
        requires
            has_room(*old(buffer), section_len(self@) as int),
        ensures
            match writable(self@, None) {
                Some(es) => r is Ok && buffered(*final(buffer)) == buffered(*old(buffer))
                    + section_octets(es),
                None => r == Err::<(), Error>(Error::MalformedPacket) && buffered(*final(buffer))
                    == buffered(*old(buffer)),
            },
    {
        self.write_ordered(buffer, None)
    }

    pub(crate) fn write_ordered(&self, buffer: &mut BytesMut, order: Option<&[u8]>) -> (r: Result<
        (),
        Error,
    >)
        requires
            has_room(*old(buffer), section_len(self@) as int),
        ensures
            match writable(self@, order_of(order)) {
                Some(es) => r is Ok && buffered(*final(buffer)) == buffered(*old(buffer))
                    + section_octets(es),
                None => r == Err::<(), Error>(Error::MalformedPacket) && buffered(*final(buffer))
                    == buffered(*old(buffer)),
            },
    {
        let mut values: Vec<(u8, Property<'_>)> = Vec::new();
        broadcast use group_joined;

        assert(listed(values@) =~= Seq::<Entry>::empty());
        push_integer(&mut values, 17, self.session_expiry_interval);
        push_text(&mut values, 31, &self.reason_string);
        push_pairs(&mut values, &self.user_properties);
        push_text(&mut values, 28, &self.server_reference);
        write_properties(buffer, &values, order)
    }
}

/// Typed disconnect properties whose fields hold the entries that were read, each its own.
proof fn disconnect_properties_are_picked(p: DisconnectProperties, es: Seq<Entry>)
    requires
        integer(17, p.session_expiry_interval) == pick(es, 17),
        text(31, p.reason_string) == pick(es, 31),
        pairs(p.user_properties@) == pick(es, 38),
        text(28, p.server_reference) == pick(es, 28),
    ensures
        p@ == canonical(Owner::Disconnect, es),
{
    let fields = p.fields();
    let keys = table(Owner::Disconnect);
    assert(keys.len() == 4);
    assert forall|i: int| 0 <= i < 4 implies #[trigger] fields[i] == pick(es, keys[i]) by {
        if i == 0 {
            assert(fields[0] == integer(17, p.session_expiry_interval) && keys[0] == 17);
        } else if i == 1 {
            assert(fields[1] == text(31, p.reason_string) && keys[1] == 31);
        } else if i == 2 {
            assert(fields[2] == pairs(p.user_properties@) && keys[2] == 38);
        }
    }
    assert(fields =~= picks(es, keys));
}

/// Each field of typed disconnect properties holds the entries of its own property.
pub proof fn disconnect_properties_have_fields(p: DisconnectProperties)
    ensures
        are_fields(Owner::Disconnect, p.fields()),
{
    let fields = p.fields();
    let keys = table(Owner::Disconnect);
    assert forall|i: int| 0 <= i < keys.len() implies is_field(
        Owner::Disconnect,
        #[trigger] keys[i],
        fields[i],
    ) by {
        if i == 0 {
            assert(fields[0] == integer(17, p.session_expiry_interval) && keys[0] == 17);
        } else if i == 1 {
            assert(fields[1] == text(31, p.reason_string) && keys[1] == 31);
        } else if i == 2 {
            assert(fields[2] == pairs(p.user_properties@) && keys[2] == 38);
        }
    }
}

/// The entries of typed disconnect properties may stand in a section where they can be written, and
/// they stand in the order of the typed fields.
proof fn disconnect_properties_are_valid(p: DisconnectProperties)
    requires
        entries_fit(p@),
    ensures
        valid_entries(Owner::Disconnect, p@),
        canonical(Owner::Disconnect, p@) == p@,
{
    disconnect_properties_have_fields(p);
    fields_are_valid(Owner::Disconnect, p.fields());
}

/// The reason that a number on the wire stands for.
fn reason(num: u8) -> (r: Result<DisconnectReasonCode, Error>)
    ensures
        r == DisconnectReasonCode::of(num),
{
    let code = match num {
        0x00 => DisconnectReasonCode::NormalDisconnection,
        0x04 => DisconnectReasonCode::DisconnectWithWillMessage,
        0x80 => DisconnectReasonCode::UnspecifiedError,
        0x81 => DisconnectReasonCode::MalformedPacket,
        0x82 => DisconnectReasonCode::ProtocolError,
        0x83 => DisconnectReasonCode::ImplementationSpecificError,
        0x87 => DisconnectReasonCode::NotAuthorized,
        0x89 => DisconnectReasonCode::ServerBusy,
        0x8B => DisconnectReasonCode::ServerShuttingDown,
        0x8D => DisconnectReasonCode::KeepAliveTimeout,
        0x8E => DisconnectReasonCode::SessionTakenOver,
        0x8F => DisconnectReasonCode::TopicFilterInvalid,
        0x90 => DisconnectReasonCode::TopicNameInvalid,
        0x93 => DisconnectReasonCode::ReceiveMaximumExceeded,
        0x94 => DisconnectReasonCode::TopicAliasInvalid,
        0x95 => DisconnectReasonCode::PacketTooLarge,
        0x96 => DisconnectReasonCode::MessageRateTooHigh,
        0x97 => DisconnectReasonCode::QuotaExceeded,
        0x98 => DisconnectReasonCode::AdministrativeAction,
        0x99 => DisconnectReasonCode::PayloadFormatInvalid,
        0x9A => DisconnectReasonCode::RetainNotSupported,
        0x9B => DisconnectReasonCode::QoSNotSupported,
        0x9C => DisconnectReasonCode::UseAnotherServer,
        0x9D => DisconnectReasonCode::ServerMoved,
        0x9E => DisconnectReasonCode::SharedSubscriptionNotSupported,
        0x9F => DisconnectReasonCode::ConnectionRateExceeded,
        0xA0 => DisconnectReasonCode::MaximumConnectTime,
        0xA1 => DisconnectReasonCode::SubscriptionIdentifiersNotSupported,
        0xA2 => DisconnectReasonCode::WildcardSubscriptionsNotSupported,
        num => return Err(Error::InvalidReason(num)),
    };
    Ok(code)
}

/// The number that stands for a reason on the wire.
fn code(reason: DisconnectReasonCode) -> (r: u8)
    ensures
        r == reason.number(),
{
    match reason {
        DisconnectReasonCode::NormalDisconnection => 0x00,
        DisconnectReasonCode::DisconnectWithWillMessage => 0x04,
        DisconnectReasonCode::UnspecifiedError => 0x80,
        DisconnectReasonCode::MalformedPacket => 0x81,
        DisconnectReasonCode::ProtocolError => 0x82,
        DisconnectReasonCode::ImplementationSpecificError => 0x83,
        DisconnectReasonCode::NotAuthorized => 0x87,
        DisconnectReasonCode::ServerBusy => 0x89,
        DisconnectReasonCode::ServerShuttingDown => 0x8B,
        DisconnectReasonCode::KeepAliveTimeout => 0x8D,
        DisconnectReasonCode::SessionTakenOver => 0x8E,
        DisconnectReasonCode::TopicFilterInvalid => 0x8F,
        DisconnectReasonCode::TopicNameInvalid => 0x90,
        DisconnectReasonCode::ReceiveMaximumExceeded => 0x93,
        DisconnectReasonCode::TopicAliasInvalid => 0x94,
        DisconnectReasonCode::PacketTooLarge => 0x95,
        DisconnectReasonCode::MessageRateTooHigh => 0x96,
        DisconnectReasonCode::QuotaExceeded => 0x97,
        DisconnectReasonCode::AdministrativeAction => 0x98,
        DisconnectReasonCode::PayloadFormatInvalid => 0x99,
        DisconnectReasonCode::RetainNotSupported => 0x9A,
        DisconnectReasonCode::QoSNotSupported => 0x9B,
        DisconnectReasonCode::UseAnotherServer => 0x9C,
        DisconnectReasonCode::ServerMoved => 0x9D,
        DisconnectReasonCode::SharedSubscriptionNotSupported => 0x9E,
        DisconnectReasonCode::ConnectionRateExceeded => 0x9F,
        DisconnectReasonCode::MaximumConnectTime => 0xA0,
        DisconnectReasonCode::SubscriptionIdentifiersNotSupported => 0xA1,
        DisconnectReasonCode::WildcardSubscriptionsNotSupported => 0xA2,
    }
}

impl From<DisconnectReasonCode> for u8 {
    fn from(value: DisconnectReasonCode) -> (r: u8) {
        code(value)
    }
}

impl vstd::std_specs::convert::FromSpecImpl<DisconnectReasonCode> for u8 {
    open spec fn obeys_from_spec() -> bool {
        true
    }

    open spec fn from_spec(value: DisconnectReasonCode) -> u8 {
        value.number()
    }
}

impl TryFrom<u8> for DisconnectReasonCode {
    type Error = Error;

    fn try_from(value: u8) -> (r: Result<Self, Self::Error>) {
        reason(value)
    }
}

impl vstd::std_specs::convert::TryFromSpecImpl<u8> for DisconnectReasonCode {
    open spec fn obeys_try_from_spec() -> bool {
        true
    }

    open spec fn try_from_spec(value: u8) -> Result<Self, Self::Error> {
        DisconnectReasonCode::of(value)
    }
}

/// A disconnect packet that was written is read back: the fields behind the fixed header spell the
/// same packet, with the properties in the order in which they were written.
#[verifier::spinoff_prover]
#[verifier::rlimit(40)]
pub proof fn disconnect_round_trip(disconnect: Disconnect, order: Option<Seq<u8>>)
    requires
        disconnect@.encode(order).0 is Ok,
        disconnect.properties matches Some(p) ==> p@.len() > 0,
    ensures
        ({
            let (n, out) = disconnect@.encode(order);
            let body = out.skip(1 + varint_len(disconnect@.len() as int) as int);
            let w = DisconnectModel { properties: written(disconnect@.properties, order), ..disconnect@ };
            &&& n == Ok::<usize, Error>(out.len() as usize)
            &&& out.len() == frame_len(disconnect@.len())
            &&& out == seq![0xE0u8] + varint(disconnect@.len()) + body
            &&& DisconnectModel::decode(body) == Ok::<DisconnectModel, Error>(w)
            &&& w.canonical() == disconnect@
            &&& order is Some && disconnect.properties is Some ==> w.order() == order->0
        }),
{
    let m = disconnect@;
    if m.is_short() {
        let out = m.encode(order).1;
        assert(varint(0) =~= seq![0u8]);
        assert(out =~= seq![0xE0u8] + varint(0) + out.skip(2));
    } else {
        if let Some(p) = disconnect.properties {
            disconnect_properties_are_valid(p);
        }
        let head = seq![m.reason_code.number()];
        let section = writable_section(m.properties, order)->0;
        written_round_trip(Owner::Disconnect, m.properties, order, Seq::empty());
        assert(section + Seq::<u8>::empty() =~= section);
        emitted_fields(0xE0, m.len(), head, section, Seq::empty());
        let body = head + section + Seq::<u8>::empty();
        assert(body.skip(1) =~= section);
    }
}

} // verus!
