use bytes::{Buf, Bytes, BytesMut};
use vstd::prelude::*;

use crate::octets::{buffered, has_room, octets, put_u8};
use crate::v5::mqttbytes::Error;
use super::frame::{emitted, emitted_fields, frame_len, FixedHeader};
use super::ordered::{
    listed, order_of, push_binary, push_byte, push_integer, push_pairs, push_short, push_text,
    write_properties, Property,
};
use super::property::{
    are_fields, binary, binary_len, byte, byte_len, canonical, canonical_opt, entries_fit,
    entries_len, entries_len_add, fields_are_valid, group_joined, ids, ids_opt, integer,
    integer_len, is_field, joined, next_property, noted_ids, pairs, pairs_len, pairs_push,
    parse_end, parse_entries, parse_step, pick, pick_empty, pick_push, picks, properties_len,
    property, section_ids, section_len, section_octets, short, short_len, table, take_properties,
    text, text_len, tracks, tracks_nothing, valid_entries, writable, writable_section, written,
    written_round_trip, Entry, Owner, PropertyType, Value,
};
use super::wire::{
    group_take_shrinks, len_len, read_mqtt_bytes, read_mqtt_string, read_properties_section,
    read_u16, read_u32, read_u8, varint, varint_len, write_remaining_length,
};

verus! {

/// Return code in connack
// This contains return codes for both MQTT v311 and v5
#[derive(Debug, Clone, Copy, PartialEq, Eq, Structural)]
pub enum ConnectReturnCode {
    Success,
    RefusedProtocolVersion,
    BadClientId,
    ServiceUnavailable,
    UnspecifiedError,
    MalformedPacket,
    ProtocolError,
    ImplementationSpecificError,
    UnsupportedProtocolVersion,
    ClientIdentifierNotValid,
    BadUserNamePassword,
    NotAuthorized,
    ServerUnavailable,
    ServerBusy,
    Banned,
    BadAuthenticationMethod,
    TopicNameInvalid,
    PacketTooLarge,
    QuotaExceeded,
    PayloadFormatInvalid,
    RetainNotSupported,
    QoSNotSupported,
    UseAnotherServer,
    ServerMoved,
    ConnectionRateExceeded,
}

impl ConnectReturnCode {
    /// The number of the code in MQTT 5; `None` for the codes of MQTT 3.1.1 that it lacks.
    pub open spec fn number(self) -> Option<u8> {
        match self {
            ConnectReturnCode::RefusedProtocolVersion => None,
            ConnectReturnCode::BadClientId => None,
            ConnectReturnCode::ServiceUnavailable => None,
            ConnectReturnCode::Success => Some(0),
            ConnectReturnCode::UnspecifiedError => Some(128),
            ConnectReturnCode::MalformedPacket => Some(129),
            ConnectReturnCode::ProtocolError => Some(130),
            ConnectReturnCode::ImplementationSpecificError => Some(131),
            ConnectReturnCode::UnsupportedProtocolVersion => Some(132),
            ConnectReturnCode::ClientIdentifierNotValid => Some(133),
            ConnectReturnCode::BadUserNamePassword => Some(134),
            ConnectReturnCode::NotAuthorized => Some(135),
            ConnectReturnCode::ServerUnavailable => Some(136),
            ConnectReturnCode::ServerBusy => Some(137),
            ConnectReturnCode::Banned => Some(138),
            ConnectReturnCode::BadAuthenticationMethod => Some(140),
            ConnectReturnCode::TopicNameInvalid => Some(144),
            ConnectReturnCode::PacketTooLarge => Some(149),
            ConnectReturnCode::QuotaExceeded => Some(151),
            ConnectReturnCode::PayloadFormatInvalid => Some(153),
            ConnectReturnCode::RetainNotSupported => Some(154),
            ConnectReturnCode::QoSNotSupported => Some(155),
            ConnectReturnCode::UseAnotherServer => Some(156),
            ConnectReturnCode::ServerMoved => Some(157),
            ConnectReturnCode::ConnectionRateExceeded => Some(159),
        }
    }

    /// The code that a number on the wire stands for.
    pub open spec fn of(num: u8) -> Result<ConnectReturnCode, Error> {
        if num == 0 {
            Ok(ConnectReturnCode::Success)
        } else if num == 128 {
            Ok(ConnectReturnCode::UnspecifiedError)
        } else if num == 129 {
            Ok(ConnectReturnCode::MalformedPacket)
        } else if num == 130 {
            Ok(ConnectReturnCode::ProtocolError)
        } else if num == 131 {
            Ok(ConnectReturnCode::ImplementationSpecificError)
        } else if num == 132 {
            Ok(ConnectReturnCode::UnsupportedProtocolVersion)
        } else if num == 133 {
            Ok(ConnectReturnCode::ClientIdentifierNotValid)
        } else if num == 134 {
            Ok(ConnectReturnCode::BadUserNamePassword)
        } else if num == 135 {
            Ok(ConnectReturnCode::NotAuthorized)
        } else if num == 136 {
            Ok(ConnectReturnCode::ServerUnavailable)
        } else if num == 137 {
            Ok(ConnectReturnCode::ServerBusy)
        } else if num == 138 {
            Ok(ConnectReturnCode::Banned)
        } else if num == 140 {
            Ok(ConnectReturnCode::BadAuthenticationMethod)
        } else if num == 144 {
            Ok(ConnectReturnCode::TopicNameInvalid)
        } else if num == 149 {
            Ok(ConnectReturnCode::PacketTooLarge)
        } else if num == 151 {
            Ok(ConnectReturnCode::QuotaExceeded)
        } else if num == 153 {
            Ok(ConnectReturnCode::PayloadFormatInvalid)
        } else if num == 154 {
            Ok(ConnectReturnCode::RetainNotSupported)
        } else if num == 155 {
            Ok(ConnectReturnCode::QoSNotSupported)
        } else if num == 156 {
            Ok(ConnectReturnCode::UseAnotherServer)
        } else if num == 157 {
            Ok(ConnectReturnCode::ServerMoved)
        } else if num == 159 {
            Ok(ConnectReturnCode::ConnectionRateExceeded)
        } else {
            Err(Error::InvalidConnectReturnCode(num))
        }
    }
}

/// Acknowledgement to connect packet
#[derive(Debug, Clone, PartialEq, Eq)]
pub struct ConnAck {
    pub session_present: bool,
    pub code: ConnectReturnCode,
    pub properties: Option<ConnAckProperties>,
}

/// What a connack packet holds. The entries of the properties stand in the order of the wire, or
/// in the order of the typed fields.
#[verifier::ext_equal]
pub struct ConnAckModel {
    pub session_present: bool,
    pub code: ConnectReturnCode,
    pub properties: Option<Seq<Entry>>,
}

impl ConnAckModel {
    /// The length of the fields behind the fixed header.
    pub open spec fn len(self) -> nat {
        2 + properties_len(self.properties)
    }

    /// The packet that the octets behind a fixed header spell. A session is present only where
    /// the code is 0.
    pub open spec fn decode(body: Seq<u8>) -> Result<ConnAckModel, Error> {
        if body.len() < 2 {
            Err(Error::MalformedPacket)
        } else {
            match take_properties(Owner::ConnAck, body.skip(2)) {
                (Err(e), _) => Err(e),
                (Ok(properties), rest) => if body[0] > 1 || (body[1] != 0 && body[0] != 0) {
                    Err(Error::MalformedPacket)
                } else {
                    match ConnectReturnCode::of(body[1]) {
                        Err(e) => Err(e),
                        Ok(code) => if rest.len() > 0 {
                            Err(Error::MalformedPacket)
                        } else {
                            Ok(ConnAckModel { session_present: body[0] == 1, code, properties })
                        },
                    }
                },
            }
        }
    }

    /// The identifiers of properties that a reader of the octets behind the fixed header has noted
    /// when it ends or stops.
    pub open spec fn noted(body: Seq<u8>) -> Seq<u8> {
        if body.len() < 2 {
            Seq::empty()
        } else {
            section_ids(Owner::ConnAck, body.skip(2))
        }
    }

    /// What a writer of the packet returns and appends.
    pub open spec fn encode(self, order: Option<Seq<u8>>) -> (Result<usize, Error>, Seq<u8>) {
        emitted(
            0x20,
            self.len(),
            seq![self.session_present as u8, self.code.number()->0],
            writable_section(self.properties, order),
            Seq::empty(),
        )
    }

    /// The packet with the entries in the order of the typed fields.
    pub open spec fn canonical(self) -> ConnAckModel {
        ConnAckModel { properties: canonical_opt(Owner::ConnAck, self.properties), ..self }
    }

    /// The identifiers of the properties, in order.
    pub open spec fn order(self) -> Seq<u8> {
        ids_opt(self.properties)
    }
}

impl View for ConnAck {
    type V = ConnAckModel;

    open spec fn view(&self) -> ConnAckModel {
        ConnAckModel {
            session_present: self.session_present,
            code: self.code,
            properties: match self.properties {
                Some(p) => Some(p@),
                None => None,
            },
        }
    }
}

impl ConnAck {
    fn len(&self) -> (r: usize)
        requires
            self@.len() <= usize::MAX,
        ensures
            r == self@.len(),
    {
        let mut len: usize = 1  // session present
         + 1;  // code
        if let Some(p) = &self.properties {
            let properties_len: usize = p.len();
            let properties_len_len: usize = len_len(properties_len);
            len = len + properties_len_len + properties_len;
        } else {
            len = len + 1;
        }
        len
    }

    pub fn size(&self) -> (r: usize)
        requires
            frame_len(self@.len()) <= usize::MAX,
        ensures
            r == frame_len(self@.len()),
    {
        let len: usize = self.len();
        let remaining_len_size: usize = len_len(len);
        1 + remaining_len_size + len
    }

    pub fn read(fixed_header: FixedHeader, bytes: Bytes) -> (r: Result<ConnAck, Error>)
        requires
            fixed_header.fixed_header_len <= octets(bytes).len(),
        ensures
            match ConnAckModel::decode(octets(bytes).skip(fixed_header.fixed_header_len as int)) {
                Ok(w) => r matches Ok(a) && a@ == w.canonical(),
                Err(e) => r == Err::<ConnAck, Error>(e),
            },
    {
        let mut order: Vec<u8> = Vec::new();
        Self::read_traced(fixed_header, bytes, &mut order)
    }

    pub(crate) fn read_traced(
        fixed_header: FixedHeader,
        bytes: Bytes,
        order: &mut Vec<u8>,
    ) -> (r: Result<ConnAck, Error>)
        requires
            fixed_header.fixed_header_len <= octets(bytes).len(),
        ensures
            match ConnAckModel::decode(octets(bytes).skip(fixed_header.fixed_header_len as int)) {
                Ok(w) => r matches Ok(a) && a@ == w.canonical() && final(order)@ == old(order)@
                    + w.order(),
                Err(e) => r == Err::<ConnAck, Error>(e),
            },
            final(order)@ == old(order)@ + ConnAckModel::noted(
                octets(bytes).skip(fixed_header.fixed_header_len as int),
            ),
    {
        let mut bytes = bytes;
        let variable_header_index: usize = fixed_header.fixed_header_len;
        bytes.advance(variable_header_index);
        let ghost body = octets(bytes);
        assert(order@ =~= old(order)@ + Seq::<u8>::empty());
        let flags: u8 = match read_u8(&mut bytes) {
            Ok(v) => v,
            Err(e) => return Err(e),
        };
        let return_code: u8 = match read_u8(&mut bytes) {
            Ok(v) => v,
            Err(e) => return Err(e),
        };
        assert(octets(bytes) =~= body.skip(2));
        let properties = match ConnAckProperties::read_traced(&mut bytes, order) {
            Ok(p) => p,
            Err(e) => return Err(e),
        };
        if flags > 1 || return_code != 0 && flags != 0 {
            return Err(Error::MalformedPacket);
        }
        let session_present = flags == 1;
        let code = match connect_return(return_code) {
            Ok(code) => code,
            Err(e) => return Err(e),
        };
        let connack = ConnAck { session_present, code, properties };
        if !bytes.is_empty() {
            return Err(Error::MalformedPacket);
        }
        Ok(connack)
    }

    pub fn write(&self, buffer: &mut BytesMut) -> (r: Result<usize, Error>)
        requires
            self.code.number() is Some,
            has_room(*old(buffer), frame_len(self@.len()) as int),
        ensures
            r == self@.encode(None).0,
            buffered(*final(buffer)) == buffered(*old(buffer)) + self@.encode(None).1,
    {
        self.write_ordered(buffer, None)
    }

    pub(crate) fn write_ordered(&self, buffer: &mut BytesMut, order: Option<&[u8]>) -> (r: Result<
        usize,
        Error,
    >)
        requires
            self.code.number() is Some,
            has_room(*old(buffer), frame_len(self@.len()) as int),
        ensures
            r == self@.encode(order_of(order)).0,
            buffered(*final(buffer)) == buffered(*old(buffer)) + self@.encode(order_of(order)).1,
    {
        let ghost start = buffered(*buffer);
        let len: usize = self.len();
        put_u8(buffer, 0x20);
        assert(buffered(*buffer) =~= start + seq![0x20u8]);
        let count: usize = match write_remaining_length(buffer, len) {
            Ok(count) => count,
            Err(e) => return Err(e),
        };
        put_u8(buffer, self.session_present as u8);
        put_u8(buffer, connect_code(self.code));
        let ghost head = seq![0x20u8] + varint(len as nat) + seq![
            self.session_present as u8,
            self.code.number()->0,
        ];
        assert(buffered(*buffer) =~= start + head);
        if let Some(p) = &self.properties {
            if let Err(e) = p.write_ordered(buffer, order) {
                return Err(e);
            }
        } else {
            if let Err(e) = write_remaining_length(buffer, 0) {
                return Err(e);
            }
        }
        assert(buffered(*buffer) =~= start + self@.encode(order_of(order)).1);
        Ok(1 + count + len)
    }
}

#[derive(Debug, Clone, PartialEq, Eq)]
pub struct ConnAckProperties {
    pub session_expiry_interval: Option<u32>,
    pub receive_max: Option<u16>,
    pub max_qos: Option<u8>,
    pub retain_available: Option<u8>,
    pub max_packet_size: Option<u32>,
    pub assigned_client_identifier: Option<String>,
    pub topic_alias_max: Option<u16>,
    pub reason_string: Option<String>,
    pub user_properties: Vec<(String, String)>,
    pub wildcard_subscription_available: Option<u8>,
    pub subscription_identifiers_available: Option<u8>,
    pub shared_subscription_available: Option<u8>,
    pub server_keep_alive: Option<u16>,
    pub response_information: Option<String>,
    pub server_reference: Option<String>,
    pub authentication_method: Option<String>,
    pub authentication_data: Option<Bytes>,
}

impl View for ConnAckProperties {
    type V = Seq<Entry>;

    /// The entries in the order in which they are written by default.
    open spec fn view(&self) -> Seq<Entry> {
        joined(self.fields())
    }
}

impl Default for ConnAckProperties {
    fn default() -> (r: Self)
        ensures
            r.session_expiry_interval is None,
            r.receive_max is None,
            r.max_qos is None,
            r.retain_available is None,
            r.max_packet_size is None,
            r.assigned_client_identifier is None,
            r.topic_alias_max is None,
            r.reason_string is None,
            r.user_properties@.len() == 0,
            r.wildcard_subscription_available is None,
            r.subscription_identifiers_available is None,
            r.shared_subscription_available is None,
            r.server_keep_alive is None,
            r.response_information is None,
            r.server_reference is None,
            r.authentication_method is None,
            r.authentication_data is None,
    {
        ConnAckProperties {
            session_expiry_interval: None,
            receive_max: None,
            max_qos: None,
            retain_available: None,
            max_packet_size: None,
            assigned_client_identifier: None,
            topic_alias_max: None,
            reason_string: None,
            user_properties: Vec::new(),
            wildcard_subscription_available: None,
            subscription_identifiers_available: None,
            shared_subscription_available: None,
            server_keep_alive: None,
            response_information: None,
            server_reference: None,
            authentication_method: None,
            authentication_data: None,
        }
    }
}

impl ConnAckProperties {
    /// The entries of each field.
    pub open spec fn fields(self) -> Seq<Seq<Entry>> {
        Seq::empty()
            .push(integer(17, self.session_expiry_interval))
            .push(short(33, self.receive_max))
            .push(byte(36, self.max_qos))
            .push(byte(37, self.retain_available))
            .push(integer(39, self.max_packet_size))
            .push(text(18, self.assigned_client_identifier))
            .push(short(34, self.topic_alias_max))
            .push(text(31, self.reason_string))
            .push(pairs(self.user_properties@))
            .push(byte(40, self.wildcard_subscription_available))
            .push(byte(41, self.subscription_identifiers_available))
            .push(byte(42, self.shared_subscription_available))
            .push(short(19, self.server_keep_alive))
            .push(text(26, self.response_information))
            .push(text(28, self.server_reference))
            .push(text(21, self.authentication_method))
            .push(binary(22, self.authentication_data))
    }

    fn len(&self) -> (r: usize)
        requires
            entries_len(self@) <= usize::MAX,
        ensures
            r == entries_len(self@),
    {
        broadcast use {entries_len_add, group_joined};

        let mut len: usize = 0;
        len = len + integer_len(17, self.session_expiry_interval);
        len = len + short_len(33, self.receive_max);
        len = len + byte_len(36, self.max_qos);
        len = len + byte_len(37, self.retain_available);
        len = len + integer_len(39, self.max_packet_size);
        len = len + text_len(18, &self.assigned_client_identifier);
        len = len + short_len(34, self.topic_alias_max);
        len = len + text_len(31, &self.reason_string);
        len = len + pairs_len(&self.user_properties);
        len = len + byte_len(40, self.wildcard_subscription_available);
        len = len + byte_len(41, self.subscription_identifiers_available);
        len = len + byte_len(42, self.shared_subscription_available);
        len = len + short_len(19, self.server_keep_alive);
        len = len + text_len(26, &self.response_information);
        len = len + text_len(28, &self.server_reference);
        len = len + text_len(21, &self.authentication_method);
        len = len + binary_len(22, &self.authentication_data);
        len
    }

    pub fn read(bytes: &mut Bytes) -> (r: Result<Option<ConnAckProperties>, Error>)
        ensures
            match take_properties(Owner::ConnAck, octets(*old(bytes))) {
                (Ok(None), rest) => r matches Ok(None) && octets(*final(bytes)) == rest,
                (Ok(Some(es)), rest) => r matches Ok(Some(p)) && p@ == canonical(Owner::ConnAck, es)
                    && octets(*final(bytes)) == rest,
                (Err(e), rest) => r == Err::<Option<ConnAckProperties>, Error>(e) && octets(
                    *final(bytes),
                ) == rest,
            },
    {
        let mut order: Vec<u8> = Vec::new();
        Self::read_traced(bytes, &mut order)
    }

    pub(crate) fn read_traced(bytes: &mut Bytes, order: &mut Vec<u8>) -> (r: Result<
        Option<ConnAckProperties>,
        Error,
    >)
        ensures
            match take_properties(Owner::ConnAck, octets(*old(bytes))) {
                (Ok(None), rest) => r matches Ok(None) && octets(*final(bytes)) == rest
                    && final(order)@ == old(order)@,
                (Ok(Some(es)), rest) => r matches Ok(Some(p)) && p@ == canonical(Owner::ConnAck, es)
                    && octets(*final(bytes)) == rest && final(order)@ == old(order)@ + ids(es),
                (Err(e), rest) => r == Err::<Option<ConnAckProperties>, Error>(e) && octets(
                    *final(bytes),
                ) == rest,
            },
            final(order)@ == old(order)@ + section_ids(Owner::ConnAck, octets(*old(bytes))),
    {
        proof {
            reveal(take_properties);
        }
        let section = match read_properties_section(bytes) {
            Ok(section) => section,
            Err(e) => return Err(e),
        };
        if section.is_empty() {
            proof {
                parse_end(Owner::ConnAck, octets(section), Seq::empty());
            }
            return Ok(None);
        }
        match Self::read_section(section, order) {
            Ok(props) => Ok(Some(props)),
            Err(e) => Err(e),
        }
    }

    /// Reads the entries of a section that was isolated.
    #[verifier::rlimit(40)]
    fn read_section(section: Bytes, order: &mut Vec<u8>) -> (r: Result<ConnAckProperties, Error>)
        ensures
            match parse_entries(Owner::ConnAck, octets(section), Seq::empty()) {
                Ok(es) => r matches Ok(p) && p@ == canonical(Owner::ConnAck, es) && final(order)@
                    == old(order)@ + ids(es),
                Err(e) => r == Err::<ConnAckProperties, Error>(e),
            },
            final(order)@ == old(order)@ + noted_ids(Owner::ConnAck, octets(section), Seq::empty()),
    {
        let mut rest = section;
        let ghost mut es: Seq<Entry> = Seq::empty();
        let mut props = ConnAckProperties::default();
        let mut seen: u64 = 0;
        let mut count: usize = 0;
        proof {
            broadcast use pick_empty;

            tracks_nothing();
            assert(order@ =~= old(order)@ + ids(es));
            assert(pairs(props.user_properties@) =~= Seq::<Entry>::empty());
        }
        while !rest.is_empty()
            invariant
                parse_entries(Owner::ConnAck, octets(section), Seq::empty()) == parse_entries(
                    Owner::ConnAck,
                    octets(rest),
                    es,
                ),
                noted_ids(Owner::ConnAck, octets(section), Seq::empty()) == noted_ids(
                    Owner::ConnAck,
                    octets(rest),
                    es,
                ),
                tracks(seen, count, es),
                es.len() <= 1024,
                order@ == old(order)@ + ids(es),
                integer(17, props.session_expiry_interval) == pick(es, 17),
                short(33, props.receive_max) == pick(es, 33),
                byte(36, props.max_qos) == pick(es, 36),
                byte(37, props.retain_available) == pick(es, 37),
                integer(39, props.max_packet_size) == pick(es, 39),
                text(18, props.assigned_client_identifier) == pick(es, 18),
                short(34, props.topic_alias_max) == pick(es, 34),
                text(31, props.reason_string) == pick(es, 31),
                pairs(props.user_properties@) == pick(es, 38),
                byte(40, props.wildcard_subscription_available) == pick(es, 40),
                byte(41, props.subscription_identifiers_available) == pick(es, 41),
                byte(42, props.shared_subscription_available) == pick(es, 42),
                short(19, props.server_keep_alive) == pick(es, 19),
                text(26, props.response_information) == pick(es, 26),
                text(28, props.server_reference) == pick(es, 28),
                text(21, props.authentication_method) == pick(es, 21),
                binary(22, props.authentication_data) == pick(es, 22),
            decreases octets(rest).len(),
        {
            broadcast use {pick_push, group_take_shrinks};

            proof {
                parse_step(Owner::ConnAck, octets(rest), es);
            }
            let prop: u8 = match next_property(
                &mut rest,
                Owner::ConnAck,
                &mut seen,
                &mut count,
                order,
                Ghost(es),
            ) {
                Ok(prop) => prop,
                Err(e) => return Err(e),
            };
            assert(order@ =~= old(order)@ + ids(es).push(prop));
            let property = match property(prop) {
                Ok(property) => property,
                Err(e) => return Err(e),
            };
            match property {
                PropertyType::SessionExpiryInterval => {
                    let value: u32 = match read_u32(&mut rest) {
                        Ok(v) => v,
                        Err(e) => return Err(e),
                    };
                    proof {
                        es = es.push((prop, Value::Integer(value)));
                    }
                    props.session_expiry_interval = Some(value);
                },
                PropertyType::ReceiveMaximum => {
                    let value: u16 = match read_u16(&mut rest) {
                        Ok(v) => v,
                        Err(e) => return Err(e),
                    };
                    proof {
                        es = es.push((prop, Value::Short(value)));
                    }
                    props.receive_max = Some(value);
                },
                PropertyType::MaximumQos => {
                    let value: u8 = match read_u8(&mut rest) {
                        Ok(v) => v,
                        Err(e) => return Err(e),
                    };
                    proof {
                        es = es.push((prop, Value::Byte(value)));
                    }
                    props.max_qos = Some(value);
                },
                PropertyType::RetainAvailable => {
                    let value: u8 = match read_u8(&mut rest) {
                        Ok(v) => v,
                        Err(e) => return Err(e),
                    };
                    proof {
                        es = es.push((prop, Value::Byte(value)));
                    }
                    props.retain_available = Some(value);
                },
                PropertyType::MaximumPacketSize => {
                    let value: u32 = match read_u32(&mut rest) {
                        Ok(v) => v,
                        Err(e) => return Err(e),
                    };
                    proof {
                        es = es.push((prop, Value::Integer(value)));
                    }
                    props.max_packet_size = Some(value);
                },
                PropertyType::AssignedClientIdentifier => {
                    let value = match read_mqtt_string(&mut rest) {
                        Ok(v) => v,
                        Err(e) => return Err(e),
                    };
                    proof {
                        es = es.push((prop, Value::Text(value@)));
                    }
                    props.assigned_client_identifier = Some(value);
                },
                PropertyType::TopicAliasMaximum => {
                    let value: u16 = match read_u16(&mut rest) {
                        Ok(v) => v,
                        Err(e) => return Err(e),
                    };
                    proof {
                        es = es.push((prop, Value::Short(value)));
                    }
                    props.topic_alias_max = Some(value);
                },
                PropertyType::ReasonString => {
                    let value = match read_mqtt_string(&mut rest) {
                        Ok(v) => v,
                        Err(e) => return Err(e),
                    };
                    proof {
                        es = es.push((prop, Value::Text(value@)));
                    }
                    props.reason_string = Some(value);
                },
                PropertyType::UserProperty => {
                    let key = match read_mqtt_string(&mut rest) {
                        Ok(v) => v,
                        Err(e) => return Err(e),
                    };
                    let value = match read_mqtt_string(&mut rest) {
                        Ok(v) => v,
                        Err(e) => return Err(e),
                    };
                    proof {
                        pairs_push(props.user_properties@, (key, value));
                        es = es.push((prop, Value::Pair(key@, value@)));
                    }
                    props.user_properties.push((key, value));
                },
                PropertyType::WildcardSubscriptionAvailable => {
                    let value: u8 = match read_u8(&mut rest) {
                        Ok(v) => v,
                        Err(e) => return Err(e),
                    };
                    proof {
                        es = es.push((prop, Value::Byte(value)));
                    }
                    props.wildcard_subscription_available = Some(value);
                },
                PropertyType::SubscriptionIdentifierAvailable => {
                    let value: u8 = match read_u8(&mut rest) {
                        Ok(v) => v,
                        Err(e) => return Err(e),
                    };
                    proof {
                        es = es.push((prop, Value::Byte(value)));
                    }
                    props.subscription_identifiers_available = Some(value);
                },
                PropertyType::SharedSubscriptionAvailable => {
                    let value: u8 = match read_u8(&mut rest) {
                        Ok(v) => v,
                        Err(e) => return Err(e),
                    };
                    proof {
                        es = es.push((prop, Value::Byte(value)));
                    }
                    props.shared_subscription_available = Some(value);
                },
                PropertyType::ServerKeepAlive => {
                    let value: u16 = match read_u16(&mut rest) {
                        Ok(v) => v,
                        Err(e) => return Err(e),
                    };
                    proof {
                        es = es.push((prop, Value::Short(value)));
                    }
                    props.server_keep_alive = Some(value);
                },
                PropertyType::ResponseInformation => {
                    let value = match read_mqtt_string(&mut rest) {
                        Ok(v) => v,
                        Err(e) => return Err(e),
                    };
                    proof {
                        es = es.push((prop, Value::Text(value@)));
                    }
                    props.response_information = Some(value);
                },
                PropertyType::ServerReference => {
                    let value = match read_mqtt_string(&mut rest) {
                        Ok(v) => v,
                        Err(e) => return Err(e),
                    };
                    proof {
                        es = es.push((prop, Value::Text(value@)));
                    }
                    props.server_reference = Some(value);
                },
                PropertyType::AuthenticationMethod => {
                    let value = match read_mqtt_string(&mut rest) {
                        Ok(v) => v,
                        Err(e) => return Err(e),
                    };
                    proof {
                        es = es.push((prop, Value::Text(value@)));
                    }
                    props.authentication_method = Some(value);
                },
                PropertyType::AuthenticationData => {
                    let value = match read_mqtt_bytes(&mut rest) {
                        Ok(v) => v,
                        Err(e) => return Err(e),
                    };
                    proof {
                        es = es.push((prop, Value::Binary(octets(value))));
                    }
                    props.authentication_data = Some(value);
                },
                _ => return Err(Error::InvalidPropertyType(prop)),
            }
            assert(order@ =~= old(order)@ + ids(es));
        }
        proof {
            parse_end(Owner::ConnAck, octets(rest), es);
            connack_properties_are_picked(props, es);
        }
        Ok(props)
    }

    pub fn write(&self, buffer: &mut BytesMut) -> (r: Result<(), Error>)
        requires
            has_room(*old(buffer), section_len(self@) as int),
        ensures
            match writable(self@, None) {
                Some(es) => r is Ok && buffered(*final(buffer)) == buffered(*old(buffer))
                    + section_octets(es),
                None => r == Err::<(), Error>(Error::MalformedPacket) && buffered(*final(buffer))
                    == buffered(*old(buffer)),
            },
    {
        self.write_ordered(buffer, None)
    }

    pub(crate) fn write_ordered(&self, buffer: &mut BytesMut, order: Option<&[u8]>) -> (r: Result<
        (),
        Error,
    >)
        requires
            has_room(*old(buffer), section_len(self@) as int),
        ensures
            match writable(self@, order_of(order)) {
                Some(es) => r is Ok && buffered(*final(buffer)) == buffered(*old(buffer))
                    + section_octets(es),
                None => r == Err::<(), Error>(Error::MalformedPacket) && buffered(*final(buffer))
                    == buffered(*old(buffer)),
            },
    {
        let mut values: Vec<(u8, Property<'_>)> = Vec::new();
        broadcast use group_joined;

        assert(listed(values@) =~= Seq::<Entry>::empty());
        push_integer(&mut values, 17, self.session_expiry_interval);
        push_short(&mut values, 33, self.receive_max);
        push_byte(&mut values, 36, self.max_qos);
        push_byte(&mut values, 37, self.retain_available);
        push_integer(&mut values, 39, self.max_packet_size);
        push_text(&mut values, 18, &self.assigned_client_identifier);
        push_short(&mut values, 34, self.topic_alias_max);
        push_text(&mut values, 31, &self.reason_string);
        push_pairs(&mut values, &self.user_properties);
        push_byte(&mut values, 40, self.wildcard_subscription_available);
        push_byte(&mut values, 41, self.subscription_identifiers_available);
        push_byte(&mut values, 42, self.shared_subscription_available);
        push_short(&mut values, 19, self.server_keep_alive);
        push_text(&mut values, 26, &self.response_information);
        push_text(&mut values, 28, &self.server_reference);
        push_text(&mut values, 21, &self.authentication_method);
        push_binary(&mut values, 22, &self.authentication_data);
        write_properties(buffer, &values, order)
    }
}

/// Typed connack properties whose fields hold the entries that were read, each its own.
proof fn connack_properties_are_picked(p: ConnAckProperties, es: Seq<Entry>)
    requires
        integer(17, p.session_expiry_interval) == pick(es, 17),
        short(33, p.receive_max) == pick(es, 33),
        byte(36, p.max_qos) == pick(es, 36),
        byte(37, p.retain_available) == pick(es, 37),
        integer(39, p.max_packet_size) == pick(es, 39),
        text(18, p.assigned_client_identifier) == pick(es, 18),
        short(34, p.topic_alias_max) == pick(es, 34),
        text(31, p.reason_string) == pick(es, 31),
        pairs(p.user_properties@) == pick(es, 38),
        byte(40, p.wildcard_subscription_available) == pick(es, 40),
        byte(41, p.subscription_identifiers_available) == pick(es, 41),
        byte(42, p.shared_subscription_available) == pick(es, 42),
        short(19, p.server_keep_alive) == pick(es, 19),
        text(26, p.response_information) == pick(es, 26),
        text(28, p.server_reference) == pick(es, 28),
        text(21, p.authentication_method) == pick(es, 21),
        binary(22, p.authentication_data) == pick(es, 22),
    ensures
        p@ == canonical(Owner::ConnAck, es),
{
    let fields = p.fields();
    let keys = table(Owner::ConnAck);
    assert(keys.len() == 17);
    assert forall|i: int| 0 <= i < 17 implies #[trigger] fields[i] == pick(es, keys[i]) by {
        if i == 0 {
            assert(fields[0] == integer(17, p.session_expiry_interval) && keys[0] == 17);
        } else if i == 1 {
            assert(fields[1] == short(33, p.receive_max) && keys[1] == 33);
        } else if i == 2 {
            assert(fields[2] == byte(36, p.max_qos) && keys[2] == 36);
        } else if i == 3 {
            assert(fields[3] == byte(37, p.retain_available) && keys[3] == 37);
        } else if i == 4 {
            assert(fields[4] == integer(39, p.max_packet_size) && keys[4] == 39);
        } else if i == 5 {
            assert(fields[5] == text(18, p.assigned_client_identifier) && keys[5] == 18);
        } else if i == 6 {
            assert(fields[6] == short(34, p.topic_alias_max) && keys[6] == 34);
        } else if i == 7 {
            assert(fields[7] == text(31, p.reason_string) && keys[7] == 31);
        } else if i == 8 {
            assert(fields[8] == pairs(p.user_properties@) && keys[8] == 38);
        } else if i == 9 {
            assert(fields[9] == byte(40, p.wildcard_subscription_available) && keys[9] == 40);
        } else if i == 10 {
            assert(fields[10] == byte(41, p.subscription_identifiers_available) && keys[10] == 41);
        } else if i == 11 {
            assert(fields[11] == byte(42, p.shared_subscription_available) && keys[11] == 42);
        } else if i == 12 {
            assert(fields[12] == short(19, p.server_keep_alive) && keys[12] == 19);
        } else if i == 13 {
            assert(fields[13] == text(26, p.response_information) && keys[13] == 26);
        } else if i == 14 {
            assert(fields[14] == text(28, p.server_reference) && keys[14] == 28);
        } else if i == 15 {
            assert(fields[15] == text(21, p.authentication_method) && keys[15] == 21);
        }
    }
    assert(fields =~= picks(es, keys));
}

/// Each field of typed connack properties holds the entries of its own property.
pub proof fn connack_properties_have_fields(p: ConnAckProperties)
    ensures
        are_fields(Owner::ConnAck, p.fields()),
{
    let fields = p.fields();
    let keys = table(Owner::ConnAck);
    assert forall|i: int| 0 <= i < keys.len() implies is_field(
        Owner::ConnAck,
        #[trigger] keys[i],
        fields[i],
    ) by {
        if i == 0 {
            assert(fields[0] == integer(17, p.session_expiry_interval) && keys[0] == 17);
        } else if i == 1 {
            assert(fields[1] == short(33, p.receive_max) && keys[1] == 33);
        } else if i == 2 {
            assert(fields[2] == byte(36, p.max_qos) && keys[2] == 36);
        } else if i == 3 {
            assert(fields[3] == byte(37, p.retain_available) && keys[3] == 37);
        } else if i == 4 {
            assert(fields[4] == integer(39, p.max_packet_size) && keys[4] == 39);
        } else if i == 5 {
            assert(fields[5] == text(18, p.assigned_client_identifier) && keys[5] == 18);
        } else if i == 6 {
            assert(fields[6] == short(34, p.topic_alias_max) && keys[6] == 34);
        } else if i == 7 {
            assert(fields[7] == text(31, p.reason_string) && keys[7] == 31);
        } else if i == 8 {
            assert(fields[8] == pairs(p.user_properties@) && keys[8] == 38);
        } else if i == 9 {
            assert(fields[9] == byte(40, p.wildcard_subscription_available) && keys[9] == 40);
        } else if i == 10 {
            assert(fields[10] == byte(41, p.subscription_identifiers_available) && keys[10] == 41);
        } else if i == 11 {
            assert(fields[11] == byte(42, p.shared_subscription_available) && keys[11] == 42);
        } else if i == 12 {
            assert(fields[12] == short(19, p.server_keep_alive) && keys[12] == 19);
        } else if i == 13 {
            assert(fields[13] == text(26, p.response_information) && keys[13] == 26);
        } else if i == 14 {
            assert(fields[14] == text(28, p.server_reference) && keys[14] == 28);
        } else if i == 15 {
            assert(fields[15] == text(21, p.authentication_method) && keys[15] == 21);
        }
    }
}

/// The entries of typed connack properties may stand in a section where they can be written, and
/// they stand in the order of the typed fields.
proof fn connack_properties_are_valid(p: ConnAckProperties)
    requires
        entries_fit(p@),
    ensures
        valid_entries(Owner::ConnAck, p@),
        canonical(Owner::ConnAck, p@) == p@,
{
    connack_properties_have_fields(p);
    fields_are_valid(Owner::ConnAck, p.fields());
}

/// Connection return code type
pub fn connect_return(num: u8) -> (r: Result<ConnectReturnCode, Error>)
    ensures
        r == ConnectReturnCode::of(num),
{
    let code = match num {
        0 => ConnectReturnCode::Success,
        128 => ConnectReturnCode::UnspecifiedError,
        129 => ConnectReturnCode::MalformedPacket,
        130 => ConnectReturnCode::ProtocolError,
        131 => ConnectReturnCode::ImplementationSpecificError,
        132 => ConnectReturnCode::UnsupportedProtocolVersion,
        133 => ConnectReturnCode::ClientIdentifierNotValid,
        134 => ConnectReturnCode::BadUserNamePassword,
        135 => ConnectReturnCode::NotAuthorized,
        136 => ConnectReturnCode::ServerUnavailable,
        137 => ConnectReturnCode::ServerBusy,
        138 => ConnectReturnCode::Banned,
        140 => ConnectReturnCode::BadAuthenticationMethod,
        144 => ConnectReturnCode::TopicNameInvalid,
        149 => ConnectReturnCode::PacketTooLarge,
        151 => ConnectReturnCode::QuotaExceeded,
        153 => ConnectReturnCode::PayloadFormatInvalid,
        154 => ConnectReturnCode::RetainNotSupported,
        155 => ConnectReturnCode::QoSNotSupported,
        156 => ConnectReturnCode::UseAnotherServer,
        157 => ConnectReturnCode::ServerMoved,
        159 => ConnectReturnCode::ConnectionRateExceeded,
        num => return Err(Error::InvalidConnectReturnCode(num)),
    };
    Ok(code)
}

/// The number that stands for a return code on the wire.
pub fn connect_code(return_code: ConnectReturnCode) -> (r: u8)
    requires
        return_code.number() is Some,
    ensures
        return_code.number() == Some(r),
{
    match return_code {
        ConnectReturnCode::UnspecifiedError => 128,
        ConnectReturnCode::MalformedPacket => 129,
        ConnectReturnCode::ProtocolError => 130,
        ConnectReturnCode::ImplementationSpecificError => 131,
        ConnectReturnCode::UnsupportedProtocolVersion => 132,
        ConnectReturnCode::ClientIdentifierNotValid => 133,
        ConnectReturnCode::BadUserNamePassword => 134,
        ConnectReturnCode::NotAuthorized => 135,
        ConnectReturnCode::ServerUnavailable => 136,
        ConnectReturnCode::ServerBusy => 137,
        ConnectReturnCode::Banned => 138,
        ConnectReturnCode::BadAuthenticationMethod => 140,
        ConnectReturnCode::TopicNameInvalid => 144,
        ConnectReturnCode::PacketTooLarge => 149,
        ConnectReturnCode::QuotaExceeded => 151,
        ConnectReturnCode::PayloadFormatInvalid => 153,
        ConnectReturnCode::RetainNotSupported => 154,
        ConnectReturnCode::QoSNotSupported => 155,
        ConnectReturnCode::UseAnotherServer => 156,
        ConnectReturnCode::ServerMoved => 157,
        ConnectReturnCode::ConnectionRateExceeded => 159,
        _ => 0,
    }
}

impl ConnectReturnCode {
    /// The number of the code on the wire.
    pub fn code(self) -> (r: u8)
        requires
            self.number() is Some,
        ensures
            self.number() == Some(r),
    {
        connect_code(self)
    }
}

impl TryFrom<u8> for ConnectReturnCode {
    type Error = Error;

    fn try_from(value: u8) -> (r: Result<Self, Self::Error>) {
        connect_return(value)
    }
}

impl vstd::std_specs::convert::TryFromSpecImpl<u8> for ConnectReturnCode {
    open spec fn obeys_try_from_spec() -> bool {
        true
    }

    open spec fn try_from_spec(value: u8) -> Result<Self, Self::Error> {
        ConnectReturnCode::of(value)
    }
}

/// A number stands for a return code where it is one of those of MQTT 5, and the code has that
/// number; any other is refused. A code that has a number is read back from it, and only the three
/// codes of MQTT 3.1.1 have none.
pub proof fn return_codes_round_trip(num: u8, code: ConnectReturnCode)
    ensures
        ConnectReturnCode::of(num) is Ok <==> num == 0 || 128 <= num <= 138 || num == 140 || num
            == 144 || num == 149 || num == 151 || 153 <= num <= 157 || num == 159,
        ConnectReturnCode::of(num) matches Ok(c) ==> c.number() == Some(num),
        ConnectReturnCode::of(num) is Err ==> ConnectReturnCode::of(num) == Err::<
            ConnectReturnCode,
            Error,
        >(Error::InvalidConnectReturnCode(num)),
        code.number() matches Some(n) ==> ConnectReturnCode::of(n) == Ok::<
            ConnectReturnCode,
            Error,
        >(code),
        code.number() is None <==> code == ConnectReturnCode::RefusedProtocolVersion || code
            == ConnectReturnCode::BadClientId || code == ConnectReturnCode::ServiceUnavailable,
{
}

/// A connack packet that was written is read back: the fields behind the fixed header spell the
/// same packet, with the properties in the order in which they were written. A packet that
/// announces a session and refuses the connection is written but not read.
#[verifier::spinoff_prover]
#[verifier::rlimit(40)]
pub proof fn connack_round_trip(connack: ConnAck, order: Option<Seq<u8>>)
    requires
        connack@.encode(order).0 is Ok,
        connack.code.number() is Some,
        connack.session_present ==> connack.code == ConnectReturnCode::Success,
        connack.properties matches Some(p) ==> p@.len() > 0,
    ensures
        ({
            let (n, out) = connack@.encode(order);
            let body = out.skip(1 + varint_len(connack@.len() as int) as int);
            let w = ConnAckModel { properties: written(connack@.properties, order), ..connack@ };
            &&& n == Ok::<usize, Error>(out.len() as usize)
            &&& out.len() == frame_len(connack@.len())
            &&& out == seq![0x20u8] + varint(connack@.len()) + body
            &&& ConnAckModel::decode(body) == Ok::<ConnAckModel, Error>(w)
            &&& w.canonical() == connack@
            &&& order is Some && connack.properties is Some ==> w.order() == order->0
        }),
{
    let m = connack@;
    if let Some(p) = connack.properties {
        connack_properties_are_valid(p);
    }
    return_codes_round_trip(0, m.code);
    let head = seq![m.session_present as u8, m.code.number()->0];
    let section = writable_section(m.properties, order)->0;
    written_round_trip(Owner::ConnAck, m.properties, order, Seq::empty());
    assert(section + Seq::<u8>::empty() =~= section);
    emitted_fields(0x20, m.len(), head, section, Seq::empty());
    let body = head + section + Seq::<u8>::empty();
    assert(body.skip(2) =~= section);
    assert(body[0] == m.session_present as u8 && body[1] == m.code.number()->0);
}

} // verus!
