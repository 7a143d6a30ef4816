use bytes::{Buf, Bytes, BytesMut};
use vstd::prelude::*;
use vstd::utf8::encode_utf8;

use crate::octets::{
    be16, buffered, bytes_from_string, bytes_from_vec, has_room, octets, put_u16, put_u8, set_octet,
};
use crate::v5::mqttbytes::{qos, qos_code, qos_number, qos_of, Error, QoS};
use super::frame::{frame_len, FixedHeader};
use super::ordered::{
    listed, order_of, packet_order, push_binary, push_byte, push_integer, push_pairs, push_short,
    push_text, will_order, write_properties, Property, PropertyOrder,
};
use super::property::{
    are_fields, binary, binary_len, byte, byte_len, canonical, canonical_opt, entries_fit,
    entries_len, entries_len_add, fields_are_valid, group_joined, ids, ids_opt, integer,
    integer_len, is_field, joined, next_property, noted_ids, pairs, pairs_len, pairs_push,
    parse_end, parse_entries, parse_step, pick, pick_empty, pick_push, picks, properties_len,
    property, section_ids, section_len, section_octets, short, short_len, table, take_properties,
    text, text_len, tracks, tracks_nothing, valid_entries, writable, writable_has_len,
    writable_section, written, written_round_trip, Entry, Owner, PropertyType, Value,
};
use super::wire::{
    append_assoc, binary_octets, binary_round_trip, group_take_shrinks, len_len, read_mqtt_bytes,
    read_mqtt_string, read_properties_section, read_u16, read_u32, read_u8, take_binary, take_text,
    text_fits, text_octets, text_round_trip, u16_round_trip, varint, varint_has_len, varint_len,
    write_mqtt_bytes, write_mqtt_string, write_remaining_length, MAX_VARINT,
};

verus! {

broadcast use super::wire::group_octets_len;

/// Connection packet initiated by the client
#[derive(Debug, Clone, PartialEq, Eq)]
pub struct Connect {
    /// Mqtt keep alive time
    pub keep_alive: u16,
    /// Client Id
    pub client_id: String,
    /// Clean session. Asks the broker to clear previous state
    pub clean_start: bool,
    pub properties: Option<ConnectProperties>,
}

/// What the will of a connect packet holds.
#[verifier::ext_equal]
pub struct WillModel {
    pub topic: Seq<u8>,
    pub message: Seq<u8>,
    pub qos: QoS,
    pub retain: bool,
    pub properties: Option<Seq<Entry>>,
}

/// What the login of a connect packet holds.
#[verifier::ext_equal]
pub struct LoginModel {
    pub username: Option<Seq<char>>,
    pub password: Option<Seq<u8>>,
}

/// What a connect packet holds. The entries of the properties stand in the order of the wire, or
/// in the order of the typed fields.
#[verifier::ext_equal]
pub struct ConnectModel {
    pub keep_alive: u16,
    pub client_id: Seq<char>,
    pub clean_start: bool,
    pub properties: Option<Seq<Entry>>,
    pub will: Option<WillModel>,
    pub login: Option<LoginModel>,
}

/// Whether bit `bit` (a power of two) is set in the connect flags.
pub open spec fn flag(flags: u8, bit: int) -> bool {
    (flags as int / bit) % 2 == 1
}

/// The will that connect flags announce at the front: bit 4 announces a will, bits 8 and 16 hold
/// its quality of service and bit 32 its retain flag. Without a will those bits are 0.
pub open spec fn take_will(flags: u8, s: Seq<u8>) -> (Result<Option<WillModel>, Error>, Seq<u8>) {
    if !flag(flags, 4) {
        if (flags / 8) % 8 != 0 {
            (Err(Error::IncorrectPacketFormat), s)
        } else {
            (Ok(None), s)
        }
    } else {
        match take_properties(Owner::Will, s) {
            (Err(e), rest) => (Err(e), rest),
            (Ok(properties), rest) => match take_binary(rest) {
                (Err(e), rest) => (Err(e), rest),
                (Ok(topic), rest) => match take_binary(rest) {
                    (Err(e), rest) => (Err(e), rest),
                    (Ok(message), rest) => match qos_of((flags / 8) % 4) {
                        None => (Err(Error::InvalidQoS((flags / 8) % 4)), rest),
                        Some(qos) => (
                            Ok(
                                Some(
                                    WillModel {
                                        topic,
                                        message,
                                        qos,
                                        retain: flag(flags, 32),
                                        properties,
                                    },
                                ),
                            ),
                            rest,
                        ),
                    },
                },
            },
        }
    }
}

/// The identifiers of properties of the will at the front that a reader has noted.
pub open spec fn will_ids(flags: u8, s: Seq<u8>) -> Seq<u8> {
    if flag(flags, 4) {
        section_ids(Owner::Will, s)
    } else {
        Seq::empty()
    }
}

/// The password that connect flags announce at the front, with a user name that was read before.
pub open spec fn take_password(flags: u8, username: Option<Seq<char>>, s: Seq<u8>) -> (
    Result<Option<LoginModel>, Error>,
    Seq<u8>,
) {
    if flag(flags, 64) {
        match take_binary(s) {
            (Err(e), rest) => (Err(e), rest),
            (Ok(b), rest) => (Ok(Some(LoginModel { username, password: Some(b) })), rest),
        }
    } else {
        (Ok(Some(LoginModel { username, password: None })), s)
    }
}

/// The login that connect flags announce at the front: bit 128 announces a user name and bit 64
/// a password, and with neither there is no login.
pub open spec fn take_login(flags: u8, s: Seq<u8>) -> (Result<Option<LoginModel>, Error>, Seq<u8>) {
    if !flag(flags, 128) && !flag(flags, 64) {
        (Ok(None), s)
    } else if flag(flags, 128) {
        match take_text(s) {
            (Err(e), rest) => (Err(e), rest),
            (Ok(t), rest) => take_password(flags, Some(t), rest),
        }
    } else {
        take_password(flags, None, s)
    }
}

impl WillModel {
    /// The length of the will.
    pub open spec fn len(self) -> nat {
        properties_len(self.properties) + 2 + self.topic.len() + 2 + self.message.len()
    }

    /// The connect flags that announce the will.
    pub open spec fn flags(self) -> u8 {
        (4 + 8 * qos_number(self.qos) + if self.retain {
            32int
        } else {
            0
        }) as u8
    }

    /// The octets of the will; `None` where its properties cannot be written.
    pub open spec fn octets(self, order: Option<Seq<u8>>) -> Option<Seq<u8>> {
        match writable_section(self.properties, order) {
            Some(section) => Some(
                section + binary_octets(self.topic) + binary_octets(self.message),
            ),
            None => None,
        }
    }

    /// The will with the entries in the order of the typed fields.
    pub open spec fn canonical(self) -> WillModel {
        WillModel { properties: canonical_opt(Owner::Will, self.properties), ..self }
    }
}

impl LoginModel {
    /// The length of the login.
    pub open spec fn len(self) -> nat {
        (match self.username {
            Some(t) => 2 + encode_utf8(t).len(),
            None => 0,
        }) + (match self.password {
            Some(b) => 2 + b.len(),
            None => 0,
        })
    }

    /// The connect flags that announce the login.
    pub open spec fn flags(self) -> u8 {
        (if self.username is Some {
            128int
        } else {
            0
        } + if self.password is Some {
            64int
        } else {
            0
        }) as u8
    }

    /// The octets of the login.
    pub open spec fn octets(self) -> Seq<u8> {
        (match self.username {
            Some(t) => text_octets(t),
            None => Seq::empty(),
        }) + (match self.password {
            Some(b) => binary_octets(b),
            None => Seq::empty(),
        })
    }
}

impl ConnectModel {
    /// The length of the fields behind the fixed header.
    pub open spec fn len(self) -> nat {
        10 + properties_len(self.properties) + 2 + encode_utf8(self.client_id).len() + (
        match self.will {
            Some(w) => w.len(),
            None => 0,
        }) + (match self.login {
            Some(l) => l.len(),
            None => 0,
        })
    }

    /// The connect flags of the packet alone.
    pub open spec fn own_flags(self) -> u8 {
        if self.clean_start {
            2
        } else {
            0
        }
    }

    /// The connect flags.
    pub open spec fn flags(self) -> u8 {
        (self.own_flags() + (match self.will {
            Some(w) => w.flags(),
            None => 0,
        }) + (match self.login {
            Some(l) => l.flags(),
            None => 0,
        })) as u8
    }

    /// The packet that the octets behind a fixed header spell.
    pub open spec fn decode(body: Seq<u8>) -> Result<ConnectModel, Error> {
        match take_text(body) {
            (Err(e), _) => Err(e),
            (Ok(name), rest) => if rest.len() == 0 {
                Err(Error::MalformedPacket)
            } else if name != "MQTT"@ {
                Err(Error::InvalidProtocol)
            } else if rest[0] != 5 {
                Err(Error::InvalidProtocolLevel(rest[0]))
            } else if rest.len() < 4 {
                Err(Error::MalformedPacket)
            } else {
                ConnectModel::decode_fields(rest[1], rest.skip(2))
            },
        }
    }

    /// The packet that the octets behind the connect flags spell.
    pub open spec fn decode_fields(flags: u8, s: Seq<u8>) -> Result<ConnectModel, Error> {
        match take_properties(Owner::Connect, s.skip(2)) {
            (Err(e), _) => Err(e),
            (Ok(properties), rest) => match take_text(rest) {
                (Err(e), _) => Err(e),
                (Ok(client_id), rest) => match take_will(flags, rest) {
                    (Err(e), _) => Err(e),
                    (Ok(will), rest) => match take_login(flags, rest) {
                        (Err(e), _) => Err(e),
                        (Ok(login), rest) => if rest.len() > 0 {
                            Err(Error::MalformedPacket)
                        } else {
                            Ok(
                                ConnectModel {
                                    keep_alive: crate::octets::u16_at(s),
                                    client_id,
                                    clean_start: flag(flags, 2),
                                    properties,
                                    will,
                                    login,
                                },
                            )
                        },
                    },
                },
            },
        }
    }

    /// The octets in front of the properties.
    pub open spec fn head(self, flags: u8) -> Seq<u8> {
        text_octets("MQTT"@) + seq![5u8, flags] + be16(self.keep_alive)
    }

    /// The connect flags and the octets behind them, where the name and the level of the protocol
    /// fit.
    pub open spec fn fields_at(body: Seq<u8>) -> Option<(u8, Seq<u8>)> {
        match take_text(body) {
            (Ok(name), rest) => if rest.len() < 4 || name != "MQTT"@ || rest[0] != 5 {
                None
            } else {
                Some((rest[1], rest.skip(2)))
            },
            (Err(_), _) => None,
        }
    }

    /// The identifiers of properties that a reader of the octets behind the fixed header has noted
    /// when it ends or stops.
    pub open spec fn noted(body: Seq<u8>) -> Seq<u8> {
        match ConnectModel::fields_at(body) {
            Some((_, s)) => section_ids(Owner::Connect, s.skip(2)),
            None => Seq::empty(),
        }
    }

    /// The identifiers of properties of the will that a reader has noted when it ends or stops.
    pub open spec fn noted_will(body: Seq<u8>) -> Seq<u8> {
        match ConnectModel::fields_at(body) {
            Some((flags, s)) => match take_properties(Owner::Connect, s.skip(2)) {
                (Ok(_), rest) => match take_text(rest) {
                    (Ok(_), rest) => will_ids(flags, rest),
                    (Err(_), _) => Seq::empty(),
                },
                (Err(_), _) => Seq::empty(),
            },
            None => Seq::empty(),
        }
    }

    /// What a writer of the packet returns and appends. A packet that is too long stops behind
    /// the first octet; properties that cannot be written stop the writer in front of them, with
    /// the flags of the packet alone.
    pub open spec fn encode(self, order: Option<Seq<u8>>, will_order: Option<Seq<u8>>) -> (
        Result<usize, Error>,
        Seq<u8>,
    ) {
        let start = seq![0x10u8] + varint(self.len());
        if self.len() > MAX_VARINT {
            (Err(Error::PayloadTooLong), seq![0x10u8])
        } else {
            match writable_section(self.properties, order) {
                None => (Err(Error::MalformedPacket), start + self.head(self.own_flags())),
                Some(section) => match self.will_octets(will_order) {
                    None => (
                        Err(Error::MalformedPacket),
                        start + self.head(self.own_flags()) + section + text_octets(self.client_id),
                    ),
                    Some(will) => (
                        Ok(frame_len(self.len()) as usize),
                        start + self.head(self.flags()) + section + text_octets(self.client_id)
                            + will + self.login_octets(),
                    ),
                },
            }
        }
    }

    /// The octets of the properties and of the fields behind them.
    spec fn tail(self, order: Option<Seq<u8>>, will_order: Option<Seq<u8>>) -> Seq<u8> {
        writable_section(self.properties, order)->0 + text_octets(self.client_id)
            + self.will_octets(will_order)->0 + self.login_octets()
    }

    /// The packet with the entries in the order in which they are written.
    pub open spec fn as_written(
        self,
        order: Option<Seq<u8>>,
        will_order: Option<Seq<u8>>,
    ) -> ConnectModel {
        ConnectModel {
            properties: written(self.properties, order),
            will: match self.will {
                Some(v) => Some(WillModel { properties: written(v.properties, will_order), ..v }),
                None => None,
            },
            ..self
        }
    }

    /// The octets of the will; `None` where its properties cannot be written.
    pub open spec fn will_octets(self, order: Option<Seq<u8>>) -> Option<Seq<u8>> {
        match self.will {
            Some(w) => w.octets(order),
            None => Some(Seq::empty()),
        }
    }

    /// The octets of the login.
    pub open spec fn login_octets(self) -> Seq<u8> {
        match self.login {
            Some(l) => l.octets(),
            None => Seq::empty(),
        }
    }

    /// The packet with the entries in the order of the typed fields.
    pub open spec fn canonical(self) -> ConnectModel {
        ConnectModel {
            properties: canonical_opt(Owner::Connect, self.properties),
            will: match self.will {
                Some(w) => Some(w.canonical()),
                None => None,
            },
            ..self
        }
    }

    /// The identifiers of the properties of the packet, in order.
    pub open spec fn order(self) -> Seq<u8> {
        ids_opt(self.properties)
    }

    /// The identifiers of the properties of the will, in order.
    pub open spec fn will_order(self) -> Seq<u8> {
        match self.will {
            Some(w) => ids_opt(w.properties),
            None => Seq::empty(),
        }
    }
}

/// What a connect packet holds with its will and its login.
pub open spec fn connect_model(
    connect: Connect,
    will: Option<LastWill>,
    login: Option<Login>,
) -> ConnectModel {
    ConnectModel {
        keep_alive: connect.keep_alive,
        client_id: connect.client_id@,
        clean_start: connect.clean_start,
        properties: match connect.properties {
            Some(p) => Some(p@),
            None => None,
        },
        will: will_model(will),
        login: login_model(login),
    }
}

pub open spec fn will_model(will: Option<LastWill>) -> Option<WillModel> {
    match will {
        Some(w) => Some(w@),
        None => None,
    }
}

pub open spec fn login_model(login: Option<Login>) -> Option<LoginModel> {
    match login {
        Some(l) => Some(l@),
        None => None,
    }
}

/// The protocol name takes six octets.
proof fn protocol_name_octets()
    ensures
        text_octets("MQTT"@).len() == 6,
        text_fits("MQTT"@),
{
    reveal_strlit("MQTT");
    vstd::utf8::is_ascii_chars_encode_utf8("MQTT"@);
}

proof fn update_front(front: Seq<u8>, tail: Seq<u8>, i: int, v: u8)
    requires
        0 <= i < front.len(),
    ensures
        (front + tail).update(i, v) == front.update(i, v) + tail,
{
    assert((front + tail).update(i, v) =~= front.update(i, v) + tail);
}

/// The connect flags stand eight octets behind the start of the fields.
proof fn update_flags(lead: Seq<u8>, m: ConnectModel, a: u8, b: u8)
    ensures
        (lead + m.head(a)).update((lead.len() + 7) as int, b) == lead + m.head(b),
{
    protocol_name_octets();
    assert(m.head(a).update(7, b) =~= m.head(b));
    assert((lead + m.head(a)).update((lead.len() + 7) as int, b) =~= lead + m.head(a).update(7, b));
}

/// A will takes as many octets as were computed for it.
proof fn will_has_len(w: WillModel, order: Option<Seq<u8>>)
    requires
        w.octets(order) is Some,
    ensures
        w.octets(order)->0.len() == w.len(),
{
    if let Some(es) = w.properties {
        writable_has_len(es, order);
    }
}

/// What was appended where properties cannot be written.
proof fn encode_stops(
    m: ConnectModel,
    order: Option<Seq<u8>>,
    will_order: Option<Seq<u8>>,
    start: Seq<u8>,
)
    requires
        m.len() <= MAX_VARINT,
        m.encode(order, will_order).0 is Err,
    ensures
        ({
            let front = start + (seq![0x10u8] + varint(m.len()) + m.head(m.own_flags()));
            start + m.encode(order, will_order).1 == match writable_section(m.properties, order) {
                None => front,
                Some(section) => front + (section + text_octets(m.client_id)),
            }
        }),
{
    broadcast use append_assoc;
}

/// What was appended in the end, when the connect flags are known.
proof fn encode_ends(
    m: ConnectModel,
    order: Option<Seq<u8>>,
    will_order: Option<Seq<u8>>,
    start: Seq<u8>,
    i: int,
)
    requires
        m.len() <= MAX_VARINT,
        m.encode(order, will_order).0 is Ok,
        i == start.len() + 1 + varint(m.len()).len() + 7,
    ensures
        ({
            let front = start + (seq![0x10u8] + varint(m.len()) + m.head(m.own_flags()));
            start + m.encode(order, will_order).1 == (front + m.tail(order, will_order)).update(
                i,
                m.flags(),
            )
        }),
{
    let lead = seq![0x10u8] + varint(m.len());
    let front = start + (lead + m.head(m.own_flags()));
    let tail = m.tail(order, will_order);
    protocol_name_octets();
    update_front(front, tail, i, m.flags());
    update_flags(start + lead, m, m.own_flags(), m.flags());
    broadcast use append_assoc;
}

impl Connect {
    pub fn read(fixed_header: FixedHeader, bytes: Bytes) -> (r: Result<
        (Connect, Option<LastWill>, Option<Login>),
        Error,
    >)
        requires
            fixed_header.fixed_header_len <= octets(bytes).len(),
        ensures
            match ConnectModel::decode(octets(bytes).skip(fixed_header.fixed_header_len as int)) {
                Ok(w) => r matches Ok(c) && connect_model(c.0, c.1, c.2) == w.canonical(),
                Err(e) => r == Err::<(Connect, Option<LastWill>, Option<Login>), Error>(e),
            },
    {
        let mut order: Vec<u8> = Vec::new();
        let mut will_order: Vec<u8> = Vec::new();
        Self::read_traced(fixed_header, bytes, &mut order, &mut will_order)
    }

    pub(crate) fn read_traced(
        fixed_header: FixedHeader,
        bytes: Bytes,
        order: &mut Vec<u8>,
        will_order: &mut Vec<u8>,
    ) -> (r: Result<(Connect, Option<LastWill>, Option<Login>), Error>)
        requires
            fixed_header.fixed_header_len <= octets(bytes).len(),
        ensures
            match ConnectModel::decode(octets(bytes).skip(fixed_header.fixed_header_len as int)) {
                Ok(w) => r matches Ok(c) && connect_model(c.0, c.1, c.2) == w.canonical()
                    && final(order)@ == old(order)@ + w.order() && final(will_order)@ == old(
                    will_order,
                )@ + w.will_order(),
                Err(e) => r == Err::<(Connect, Option<LastWill>, Option<Login>), Error>(e),
            },
            final(order)@ == old(order)@ + ConnectModel::noted(
                octets(bytes).skip(fixed_header.fixed_header_len as int),
            ),
            final(will_order)@ == old(will_order)@ + ConnectModel::noted_will(
                octets(bytes).skip(fixed_header.fixed_header_len as int),
            ),
    {
        let mut bytes = bytes;
        let variable_header_index: usize = fixed_header.fixed_header_len;
        bytes.advance(variable_header_index);
        assert(order@ =~= old(order)@ + Seq::<u8>::empty());
        assert(will_order@ =~= old(will_order)@ + Seq::<u8>::empty());
        // Variable header
        let protocol_name = match read_mqtt_string(&mut bytes) {
            Ok(v) => v,
            Err(e) => return Err(e),
        };
        let ghost rest = octets(bytes);
        let protocol_level: u8 = match read_u8(&mut bytes) {
            Ok(v) => v,
            Err(e) => return Err(e),
        };
        if protocol_name != "MQTT".to_owned() {
            return Err(Error::InvalidProtocol);
        }
        if protocol_level != 5 {
            return Err(Error::InvalidProtocolLevel(protocol_level));
        }
        let connect_flags: u8 = match read_u8(&mut bytes) {
            Ok(v) => v,
            Err(e) => return Err(e),
        };
        assert(octets(bytes) =~= rest.skip(2));
        let clean_start = (connect_flags / 2) % 2 == 1;
        let keep_alive: u16 = match read_u16(&mut bytes) {
            Ok(v) => v,
            Err(e) => return Err(e),
        };
        let properties = match ConnectProperties::read_traced(&mut bytes, order) {
            Ok(v) => v,
            Err(e) => return Err(e),
        };
        let client_id = match read_mqtt_string(&mut bytes) {
            Ok(v) => v,
            Err(e) => return Err(e),
        };
        let will = match LastWill::read_traced(connect_flags, &mut bytes, will_order) {
            Ok(v) => v,
            Err(e) => return Err(e),
        };
        let login = match Login::read(connect_flags, &mut bytes) {
            Ok(v) => v,
            Err(e) => return Err(e),
        };
        let connect = Connect { keep_alive, client_id, clean_start, properties };
        if !bytes.is_empty() {
            return Err(Error::MalformedPacket);
        }
        Ok((connect, will, login))
    }

    fn len(&self, will: &Option<LastWill>, l: &Option<Login>) -> (r: usize)
        requires
            connect_model(*self, *will, *l).len() <= usize::MAX,
        ensures
            r == connect_model(*self, *will, *l).len(),
    {
        let mut len: usize = 2 + 4  // protocol name
         + 1  // protocol version
         + 1  // connect flags
         + 2;  // keep alive
        if let Some(p) = &self.properties {
            let properties_len: usize = p.len();
            let properties_len_len: usize = len_len(properties_len);
            len = len + properties_len_len + properties_len;
        } else {
            // just 1 byte representing 0 len
            len = len + 1;
        }
        len = len + 2 + self.client_id.as_str().as_bytes().len();
        // last will len
        if let Some(w) = will {
            len = len + w.len();
        }
        // username and password len
        if let Some(l) = l {
            len = len + l.len();
        }
        len
    }

    pub fn write(&self, will: &Option<LastWill>, l: &Option<Login>, buffer: &mut BytesMut) -> (r:
        Result<usize, Error>)
        requires
            has_room(*old(buffer), frame_len(connect_model(*self, *will, *l).len()) as int),
        ensures
            r == connect_model(*self, *will, *l).encode(None, None).0,
            buffered(*final(buffer)) == buffered(*old(buffer)) + connect_model(
                *self,
                *will,
                *l,
            ).encode(None, None).1,
    {
        self.write_ordered(will, l, buffer, None)
    }

    pub(crate) fn write_ordered(
        &self,
        will: &Option<LastWill>,
        l: &Option<Login>,
        buffer: &mut BytesMut,
        order: Option<&PropertyOrder>,
    ) -> (r: Result<usize, Error>)
        requires
            has_room(*old(buffer), frame_len(connect_model(*self, *will, *l).len()) as int),
        ensures
            r == connect_model(*self, *will, *l).encode(packet_order(order), will_order(order)).0,
            buffered(*final(buffer)) == buffered(*old(buffer)) + connect_model(
                *self,
                *will,
                *l,
            ).encode(packet_order(order), will_order(order)).1,
    {
        let ghost m = connect_model(*self, *will, *l);
        let ghost start = buffered(*buffer);
        let offset: usize = buffer.len();
        let len: usize = self.len(will, l);
        put_u8(buffer, 0b0001_0000);
        assert(buffered(*buffer) =~= start + seq![0x10u8]);
        let count: usize = match write_remaining_length(buffer, len) {
            Ok(count) => count,
            Err(e) => return Err(e),
        };
        proof {
            protocol_name_octets();
        }
        let connect_flags: u8 = self.write_head(buffer);
        let flags_index: usize = offset + 1 + count + 2 + 4 + 1;
        let ghost lead = seq![0x10u8] + varint(len as nat);
        assert(buffered(*buffer) == start + (lead + m.head(m.own_flags()))) by {
            broadcast use append_assoc;
        }
        let more: u8 = match self.write_fields(will, l, buffer, order) {
            Ok(more) => more,
            Err(e) => {
                proof {
                    encode_stops(m, packet_order(order), will_order(order), start);
                }
                return Err(e);
            },
        };
        // update connect flags
        set_octet(buffer, flags_index, connect_flags + more);
        proof {
            encode_ends(m, packet_order(order), will_order(order), start, flags_index as int);
        }
        Ok(1 + count + len)
    }

    /// Writes the fields in front of the properties, with the connect flags of the packet alone,
    /// and returns those flags.
    fn write_head(&self, buffer: &mut BytesMut) -> (r: u8)
        requires
            has_room(*old(buffer), 10),
        ensures
            r == (if self.clean_start {
                2u8
            } else {
                0u8
            }),
            buffered(*final(buffer)) == buffered(*old(buffer)) + (text_octets("MQTT"@) + seq![
                5u8,
                r,
            ] + be16(self.keep_alive)),
    {
        proof {
            protocol_name_octets();
        }
        let ghost start = buffered(*buffer);
        write_mqtt_string(buffer, "MQTT");
        put_u8(buffer, 0x05);
        let mut connect_flags: u8 = 0;
        if self.clean_start {
            connect_flags = 0x02;
        }
        put_u8(buffer, connect_flags);
        put_u16(buffer, self.keep_alive);
        assert(buffered(*buffer) =~= start + (text_octets("MQTT"@) + seq![5u8, connect_flags]
            + be16(self.keep_alive)));
        connect_flags
    }

    /// Writes the properties and the fields behind them, and returns the connect flags of the
    /// will and the login.
    fn write_fields(
        &self,
        will: &Option<LastWill>,
        l: &Option<Login>,
        buffer: &mut BytesMut,
        order: Option<&PropertyOrder>,
    ) -> (r: Result<u8, Error>)
        requires
            has_room(*old(buffer), connect_model(*self, *will, *l).len() - 10),
        ensures
            ({
                let m = connect_model(*self, *will, *l);
                match writable_section(m.properties, packet_order(order)) {
                    None => r == Err::<u8, Error>(Error::MalformedPacket) && buffered(
                        *final(buffer),
                    ) == buffered(*old(buffer)),
                    Some(section) => match m.will_octets(will_order(order)) {
                        None => r == Err::<u8, Error>(Error::MalformedPacket) && buffered(
                            *final(buffer),
                        ) == buffered(*old(buffer)) + (section + text_octets(m.client_id)),
                        Some(will) => r == Ok::<u8, Error>((m.flags() - m.own_flags()) as u8)
                            && buffered(*final(buffer)) == buffered(*old(buffer)) + (section
                            + text_octets(m.client_id) + will + m.login_octets()),
                    },
                }
            }),
    {
        let ghost m = connect_model(*self, *will, *l);
        let ghost start = buffered(*buffer);
        let packet: Option<&[u8]> = match order {
            Some(o) => Some(o.packet.as_slice()),
            None => None,
        };
        match &self.properties {
            Some(p) => {
                if let Err(e) = p.write_ordered(buffer, packet) {
                    return Err(e);
                }
                proof {
                    writable_has_len(p@, packet_order(order));
                }
            },
            None => {
                if let Err(e) = write_remaining_length(buffer, 0) {
                    return Err(e);
                }
                assert(varint(0) =~= seq![0u8]);
            },
        }
        let ghost section = writable_section(m.properties, packet_order(order))->0;
        write_mqtt_string(buffer, self.client_id.as_str());
        let ghost front = section + text_octets(m.client_id);
        assert(buffered(*buffer) == start + front) by {
            broadcast use append_assoc;
        }
        let will_order: Option<&[u8]> = match order {
            Some(o) => Some(o.will.as_slice()),
            None => None,
        };
        let mut connect_flags: u8 = 0;
        if let Some(w) = will {
            match w.write_ordered(buffer, will_order) {
                Ok(flags) => {
                    connect_flags = flags;
                },
                Err(e) => return Err(e),
            }
        }
        let ghost will_octets = m.will_octets(order_of(will_order))->0;
        proof {
            if let Some(w) = m.will {
                will_has_len(w, order_of(will_order));
            }
        }
        let ghost mid = front + will_octets;
        assert(buffered(*buffer) == start + mid) by {
            if m.will is Some {
                broadcast use append_assoc;
            } else {
                assert(mid =~= front);
            }
        }
        if let Some(l) = l {
            let flags: u8 = l.write(buffer);
            connect_flags = connect_flags + flags;
        }
        assert(buffered(*buffer) == start + (mid + m.login_octets())) by {
            if m.login is Some {
                broadcast use append_assoc;
            } else {
                assert(mid + m.login_octets() =~= mid);
            }
        }
        Ok(connect_flags)
    }

    pub fn size(&self, will: &Option<LastWill>, login: &Option<Login>) -> (r: usize)
        requires
            frame_len(connect_model(*self, *will, *login).len()) <= usize::MAX,
        ensures
            r == frame_len(connect_model(*self, *will, *login).len()),
    {
        let len: usize = self.len(will, login);
        let remaining_len_size: usize = len_len(len);
        1 + remaining_len_size + len
    }
}

#[derive(Debug, Clone, PartialEq, Eq)]
pub struct ConnectProperties {
    /// Expiry interval property after loosing connection
    pub session_expiry_interval: Option<u32>,
    /// Maximum simultaneous packets
    pub receive_maximum: Option<u16>,
    /// Maximum packet size
    pub max_packet_size: Option<u32>,
    /// Maximum mapping integer for a topic
    pub topic_alias_max: Option<u16>,
    pub request_response_info: Option<u8>,
    pub request_problem_info: Option<u8>,
    /// List of user properties
    pub user_properties: Vec<(String, String)>,
    /// Method of authentication
    pub authentication_method: Option<String>,
    /// Authentication data
    pub authentication_data: Option<Bytes>,
}

impl View for ConnectProperties {
    type V = Seq<Entry>;

    /// The entries in the order in which they are written by default.
    open spec fn view(&self) -> Seq<Entry> {
        joined(self.fields())
    }
}

impl Default for ConnectProperties {
    fn default() -> (r: Self)
        ensures
            r.session_expiry_interval is None,
            r.receive_maximum is None,
            r.max_packet_size is None,
            r.topic_alias_max is None,
            r.request_response_info is None,
            r.request_problem_info is None,
            r.user_properties@.len() == 0,
            r.authentication_method is None,
            r.authentication_data is None,
    {
        ConnectProperties {
            session_expiry_interval: None,
            receive_maximum: None,
            max_packet_size: None,
            topic_alias_max: None,
            request_response_info: None,
            request_problem_info: None,
            user_properties: Vec::new(),
            authentication_method: None,
            authentication_data: None,
        }
    }
}

impl ConnectProperties {
    pub fn new() -> (r: ConnectProperties)
        ensures
            r.session_expiry_interval is None,
            r.receive_maximum is None,
            r.max_packet_size is None,
            r.topic_alias_max is None,
            r.request_response_info is None,
            r.request_problem_info is None,
            r.user_properties@.len() == 0,
            r.authentication_method is None,
            r.authentication_data is None,
    {
        ConnectProperties::default()
    }

    /// The entries of each field.
    pub open spec fn fields(self) -> Seq<Seq<Entry>> {
        Seq::empty()
            .push(integer(17, self.session_expiry_interval))
            .push(short(33, self.receive_maximum))
            .push(integer(39, self.max_packet_size))
            .push(short(34, self.topic_alias_max))
            .push(byte(25, self.request_response_info))
            .push(byte(23, self.request_problem_info))
            .push(pairs(self.user_properties@))
            .push(text(21, self.authentication_method))
            .push(binary(22, self.authentication_data))
    }

    fn len(&self) -> (r: usize)
        requires
            entries_len(self@) <= usize::MAX,
        ensures
            r == entries_len(self@),
    {
        broadcast use {entries_len_add, group_joined};

        let mut len: usize = 0;
        len = len + integer_len(17, self.session_expiry_interval);
        len = len + short_len(33, self.receive_maximum);
        len = len + integer_len(39, self.max_packet_size);
        len = len + short_len(34, self.topic_alias_max);
        len = len + byte_len(25, self.request_response_info);
        len = len + byte_len(23, self.request_problem_info);
        len = len + pairs_len(&self.user_properties);
        len = len + text_len(21, &self.authentication_method);
        len = len + binary_len(22, &self.authentication_data);
        len
    }

    pub fn read(bytes: &mut Bytes) -> (r: Result<Option<ConnectProperties>, Error>)
        ensures
            match take_properties(Owner::Connect, octets(*old(bytes))) {
                (Ok(None), rest) => r matches Ok(None) && octets(*final(bytes)) == rest,
                (Ok(Some(es)), rest) => r matches Ok(Some(p)) && p@ == canonical(Owner::Connect, es)
                    && octets(*final(bytes)) == rest,
                (Err(e), rest) => r == Err::<Option<ConnectProperties>, Error>(e) && octets(
                    *final(bytes),
                ) == rest,
            },
    {
        let mut order: Vec<u8> = Vec::new();
        Self::read_traced(bytes, &mut order)
    }

    pub(crate) fn read_traced(bytes: &mut Bytes, order: &mut Vec<u8>) -> (r: Result<
        Option<ConnectProperties>,
        Error,
    >)
        ensures
            match take_properties(Owner::Connect, octets(*old(bytes))) {
                (Ok(None), rest) => r matches Ok(None) && octets(*final(bytes)) == rest
                    && final(order)@ == old(order)@,
                (Ok(Some(es)), rest) => r matches Ok(Some(p)) && p@ == canonical(Owner::Connect, es)
                    && octets(*final(bytes)) == rest && final(order)@ == old(order)@ + ids(es),
                (Err(e), rest) => r == Err::<Option<ConnectProperties>, Error>(e) && octets(
                    *final(bytes),
                ) == rest,
            },
            final(order)@ == old(order)@ + section_ids(Owner::Connect, octets(*old(bytes))),
    {
        proof {
            reveal(take_properties);
        }
        let section = match read_properties_section(bytes) {
            Ok(section) => section,
            Err(e) => return Err(e),
        };
        if section.is_empty() {
            proof {
                parse_end(Owner::Connect, octets(section), Seq::empty());
            }
            return Ok(None);
        }
        match Self::read_section(section, order) {
            Ok(props) => Ok(Some(props)),
            Err(e) => Err(e),
        }
    }

    /// Reads the entries of a section that was isolated.
    #[verifier::rlimit(40)]
    fn read_section(section: Bytes, order: &mut Vec<u8>) -> (r: Result<ConnectProperties, Error>)
        ensures
            match parse_entries(Owner::Connect, octets(section), Seq::empty()) {
                Ok(es) => r matches Ok(p) && p@ == canonical(Owner::Connect, es) && final(order)@
                    == old(order)@ + ids(es),
                Err(e) => r == Err::<ConnectProperties, Error>(e),
            },
            final(order)@ == old(order)@ + noted_ids(Owner::Connect, octets(section), Seq::empty()),
    {
        let mut rest = section;
        let ghost mut es: Seq<Entry> = Seq::empty();
        let mut props = ConnectProperties::default();
        let mut seen: u64 = 0;
        let mut count: usize = 0;
        proof {
            broadcast use pick_empty;

            tracks_nothing();
            assert(order@ =~= old(order)@ + ids(es));
            assert(pairs(props.user_properties@) =~= Seq::<Entry>::empty());
        }
        while !rest.is_empty()
            invariant
                parse_entries(Owner::Connect, octets(section), Seq::empty()) == parse_entries(
                    Owner::Connect,
                    octets(rest),
                    es,
                ),
                noted_ids(Owner::Connect, octets(section), Seq::empty()) == noted_ids(
                    Owner::Connect,
                    octets(rest),
                    es,
                ),
                tracks(seen, count, es),
                es.len() <= 1024,
                order@ == old(order)@ + ids(es),
                integer(17, props.session_expiry_interval) == pick(es, 17),
                short(33, props.receive_maximum) == pick(es, 33),
                integer(39, props.max_packet_size) == pick(es, 39),
                short(34, props.topic_alias_max) == pick(es, 34),
                byte(25, props.request_response_info) == pick(es, 25),
                byte(23, props.request_problem_info) == pick(es, 23),
                pairs(props.user_properties@) == pick(es, 38),
                text(21, props.authentication_method) == pick(es, 21),
                binary(22, props.authentication_data) == pick(es, 22),
            decreases octets(rest).len(),
        {
            broadcast use {pick_push, group_take_shrinks};

            proof {
                parse_step(Owner::Connect, octets(rest), es);
            }
            let prop: u8 = match next_property(
                &mut rest,
                Owner::Connect,
                &mut seen,
                &mut count,
                order,
                Ghost(es),
            ) {
                Ok(prop) => prop,
                Err(e) => return Err(e),
            };
            assert(order@ =~= old(order)@ + ids(es).push(prop));
            let property = match property(prop) {
                Ok(property) => property,
                Err(e) => return Err(e),
            };
            match property {
                PropertyType::SessionExpiryInterval => {
                    let value: u32 = match read_u32(&mut rest) {
                        Ok(v) => v,
                        Err(e) => return Err(e),
                    };
                    proof {
                        es = es.push((prop, Value::Integer(value)));
                    }
                    props.session_expiry_interval = Some(value);
                },
                PropertyType::ReceiveMaximum => {
                    let value: u16 = match read_u16(&mut rest) {
                        Ok(v) => v,
                        Err(e) => return Err(e),
                    };
                    proof {
                        es = es.push((prop, Value::Short(value)));
                    }
                    props.receive_maximum = Some(value);
                },
                PropertyType::MaximumPacketSize => {
                    let value: u32 = match read_u32(&mut rest) {
                        Ok(v) => v,
                        Err(e) => return Err(e),
                    };
                    proof {
                        es = es.push((prop, Value::Integer(value)));
                    }
                    props.max_packet_size = Some(value);
                },
                PropertyType::TopicAliasMaximum => {
                    let value: u16 = match read_u16(&mut rest) {
                        Ok(v) => v,
                        Err(e) => return Err(e),
                    };
                    proof {
                        es = es.push((prop, Value::Short(value)));
                    }
                    props.topic_alias_max = Some(value);
                },
                PropertyType::RequestResponseInformation => {
                    let value: u8 = match read_u8(&mut rest) {
                        Ok(v) => v,
                        Err(e) => return Err(e),
                    };
                    proof {
                        es = es.push((prop, Value::Byte(value)));
                    }
                    props.request_response_info = Some(value);
                },
                PropertyType::RequestProblemInformation => {
                    let value: u8 = match read_u8(&mut rest) {
                        Ok(v) => v,
                        Err(e) => return Err(e),
                    };
                    proof {
                        es = es.push((prop, Value::Byte(value)));
                    }
                    props.request_problem_info = Some(value);
                },
                PropertyType::UserProperty => {
                    let key = match read_mqtt_string(&mut rest) {
                        Ok(v) => v,
                        Err(e) => return Err(e),
                    };
                    let value = match read_mqtt_string(&mut rest) {
                        Ok(v) => v,
                        Err(e) => return Err(e),
                    };
                    proof {
                        pairs_push(props.user_properties@, (key, value));
                        es = es.push((prop, Value::Pair(key@, value@)));
                    }
                    props.user_properties.push((key, value));
                },
                PropertyType::AuthenticationMethod => {
                    let value = match read_mqtt_string(&mut rest) {
                        Ok(v) => v,
                        Err(e) => return Err(e),
                    };
                    proof {
                        es = es.push((prop, Value::Text(value@)));
                    }
                    props.authentication_method = Some(value);
                },
                PropertyType::AuthenticationData => {
                    let value = match read_mqtt_bytes(&mut rest) {
                        Ok(v) => v,
                        Err(e) => return Err(e),
                    };
                    proof {
                        es = es.push((prop, Value::Binary(octets(value))));
                    }
                    props.authentication_data = Some(value);
                },
                _ => return Err(Error::InvalidPropertyType(prop)),
            }
            assert(order@ =~= old(order)@ + ids(es));
        }
        proof {
            parse_end(Owner::Connect, octets(rest), es);
            connect_properties_are_picked(props, es);
        }
        Ok(props)
    }

    pub fn write(&self, buffer: &mut BytesMut) -> (r: Result<(), Error>)
        requires
            has_room(*old(buffer), section_len(self@) as int),
        ensures
            match writable(self@, None) {
                Some(es) => r is Ok && buffered(*final(buffer)) == buffered(*old(buffer))
                    + section_octets(es),
                None => r == Err::<(), Error>(Error::MalformedPacket) && buffered(*final(buffer))
                    == buffered(*old(buffer)),
            },
    {
        self.write_ordered(buffer, None)
    }

    pub(crate) fn write_ordered(&self, buffer: &mut BytesMut, order: Option<&[u8]>) -> (r: Result<
        (),
        Error,
    >)
        requires
            has_room(*old(buffer), section_len(self@) as int),
        ensures
            match writable(self@, order_of(order)) {
                Some(es) => r is Ok && buffered(*final(buffer)) == buffered(*old(buffer))
                    + section_octets(es),
                None => r == Err::<(), Error>(Error::MalformedPacket) && buffered(*final(buffer))
                    == buffered(*old(buffer)),
            },
    {
        let mut values: Vec<(u8, Property<'_>)> = Vec::new();
        broadcast use group_joined;

        assert(listed(values@) =~= Seq::<Entry>::empty());
        push_integer(&mut values, 17, self.session_expiry_interval);
        push_short(&mut values, 33, self.receive_maximum);
        push_integer(&mut values, 39, self.max_packet_size);
        push_short(&mut values, 34, self.topic_alias_max);
        push_byte(&mut values, 25, self.request_response_info);
        push_byte(&mut values, 23, self.request_problem_info);
        push_pairs(&mut values, &self.user_properties);
        push_text(&mut values, 21, &self.authentication_method);
        push_binary(&mut values, 22, &self.authentication_data);
        write_properties(buffer, &values, order)
    }
}

/// Typed connect properties whose fields hold the entries that were read, each its own.
proof fn connect_properties_are_picked(p: ConnectProperties, es: Seq<Entry>)
    requires
        integer(17, p.session_expiry_interval) == pick(es, 17),
        short(33, p.receive_maximum) == pick(es, 33),
        integer(39, p.max_packet_size) == pick(es, 39),
        short(34, p.topic_alias_max) == pick(es, 34),
        byte(25, p.request_response_info) == pick(es, 25),
        byte(23, p.request_problem_info) == pick(es, 23),
        pairs(p.user_properties@) == pick(es, 38),
        text(21, p.authentication_method) == pick(es, 21),
        binary(22, p.authentication_data) == pick(es, 22),
    ensures
        p@ == canonical(Owner::Connect, es),
{
    let fields = p.fields();
    let keys = table(Owner::Connect);
    assert(keys.len() == 9);
    assert forall|i: int| 0 <= i < 9 implies #[trigger] fields[i] == pick(es, keys[i]) by {
        if i == 0 {
            assert(fields[0] == integer(17, p.session_expiry_interval) && keys[0] == 17);
        } else if i == 1 {
            assert(fields[1] == short(33, p.receive_maximum) && keys[1] == 33);
        } else if i == 2 {
            assert(fields[2] == integer(39, p.max_packet_size) && keys[2] == 39);
        } else if i == 3 {
            assert(fields[3] == short(34, p.topic_alias_max) && keys[3] == 34);
        } else if i == 4 {
            assert(fields[4] == byte(25, p.request_response_info) && keys[4] == 25);
        } else if i == 5 {
            assert(fields[5] == byte(23, p.request_problem_info) && keys[5] == 23);
        } else if i == 6 {
            assert(fields[6] == pairs(p.user_properties@) && keys[6] == 38);
        } else if i == 7 {
            assert(fields[7] == text(21, p.authentication_method) && keys[7] == 21);
        }
    }
    assert(fields =~= picks(es, keys));
}

/// Each field of typed connect properties holds the entries of its own property.
pub proof fn connect_properties_have_fields(p: ConnectProperties)
    ensures
        are_fields(Owner::Connect, p.fields()),
{
    let fields = p.fields();
    let keys = table(Owner::Connect);
    assert forall|i: int| 0 <= i < keys.len() implies is_field(
        Owner::Connect,
        #[trigger] keys[i],
        fields[i],
    ) by {
        if i == 0 {
            assert(fields[0] == integer(17, p.session_expiry_interval) && keys[0] == 17);
        } else if i == 1 {
            assert(fields[1] == short(33, p.receive_maximum) && keys[1] == 33);
        } else if i == 2 {
            assert(fields[2] == integer(39, p.max_packet_size) && keys[2] == 39);
        } else if i == 3 {
            assert(fields[3] == short(34, p.topic_alias_max) && keys[3] == 34);
        } else if i == 4 {
            assert(fields[4] == byte(25, p.request_response_info) && keys[4] == 25);
        } else if i == 5 {
            assert(fields[5] == byte(23, p.request_problem_info) && keys[5] == 23);
        } else if i == 6 {
            assert(fields[6] == pairs(p.user_properties@) && keys[6] == 38);
        } else if i == 7 {
            assert(fields[7] == text(21, p.authentication_method) && keys[7] == 21);
        }
    }
}

/// The entries of typed connect properties may stand in a section where they can be written, and
/// they stand in the order of the typed fields.
proof fn connect_properties_are_valid(p: ConnectProperties)
    requires
        entries_fit(p@),
    ensures
        valid_entries(Owner::Connect, p@),
        canonical(Owner::Connect, p@) == p@,
{
    connect_properties_have_fields(p);
    fields_are_valid(Owner::Connect, p.fields());
}

/// LastWill that broker forwards on behalf of the client
#[derive(Debug, Clone, PartialEq, Eq)]
pub struct LastWill {
    pub topic: Bytes,
    pub message: Bytes,
    pub qos: QoS,
    pub retain: bool,
    pub properties: Option<LastWillProperties>,
}

impl View for LastWill {
    type V = WillModel;

    open spec fn view(&self) -> WillModel {
        WillModel {
            topic: octets(self.topic),
            message: octets(self.message),
            qos: self.qos,
            retain: self.retain,
            properties: match self.properties {
                Some(p) => Some(p@),
                None => None,
            },
        }
    }
}

impl LastWill {
    pub fn new<T: Into<String>, P: Into<Vec<u8>>>(
        topic: T,
        payload: P,
        qos: QoS,
        retain: bool,
        properties: Option<LastWillProperties>,
    ) -> (r: LastWill)
        ensures
            exists|t: String, m: Vec<u8>|
                {
                    &&& #[trigger] call_ensures(<T as Into<String>>::into, (topic,), t)
                    &&& #[trigger] call_ensures(<P as Into<Vec<u8>>>::into, (payload,), m)
                    &&& octets(r.topic) == encode_utf8(t@)
                    &&& octets(r.message) == m@
                },
            r.qos == qos,
            r.retain == retain,
            r.properties == properties,
    {
        let topic: String = topic.into();
        let payload: Vec<u8> = payload.into();
        let topic = Bytes::copy_from_slice(topic.as_str().as_bytes());
        LastWill { topic, message: bytes_from_vec(payload), qos, retain, properties }
    }

    fn len(&self) -> (r: usize)
        requires
            self@.len() <= usize::MAX,
        ensures
            r == self@.len(),
    {
        let mut len: usize = 0;
        if let Some(p) = &self.properties {
            let properties_len: usize = p.len();
            let properties_len_len: usize = len_len(properties_len);
            len = len + properties_len_len + properties_len;
        } else {
            // just 1 byte representing 0 len
            len = len + 1;
        }
        len = len + 2 + self.topic.len() + 2 + self.message.len();
        len
    }

    pub fn read(connect_flags: u8, bytes: &mut Bytes) -> (r: Result<Option<LastWill>, Error>)
        ensures
            match take_will(connect_flags, octets(*old(bytes))) {
                (Ok(Some(w)), rest) => r matches Ok(Some(v)) && v@ == w.canonical() && octets(
                    *final(bytes),
                ) == rest,
                (Ok(None), rest) => r matches Ok(None) && octets(*final(bytes)) == rest,
                (Err(e), rest) => r == Err::<Option<LastWill>, Error>(e) && octets(*final(bytes))
                    == rest,
            },
    {
        let mut order: Vec<u8> = Vec::new();
        Self::read_traced(connect_flags, bytes, &mut order)
    }

    fn read_traced(connect_flags: u8, bytes: &mut Bytes, order: &mut Vec<u8>) -> (r: Result<
        Option<LastWill>,
        Error,
    >)
        ensures
            match take_will(connect_flags, octets(*old(bytes))) {
                (Ok(Some(w)), rest) => r matches Ok(Some(v)) && v@ == w.canonical() && octets(
                    *final(bytes),
                ) == rest && final(order)@ == old(order)@ + ids_opt(w.properties),
                (Ok(None), rest) => r matches Ok(None) && octets(*final(bytes)) == rest
                    && final(order)@ == old(order)@,
                (Err(e), rest) => r == Err::<Option<LastWill>, Error>(e) && octets(*final(bytes))
                    == rest,
            },
            final(order)@ == old(order)@ + will_ids(connect_flags, octets(*old(bytes))),
    {
        assert(order@ =~= old(order)@ + Seq::<u8>::empty());
        if (connect_flags / 4) % 2 == 0 {
            if (connect_flags / 8) % 8 != 0 {
                return Err(Error::IncorrectPacketFormat);
            }
            return Ok(None);
        }
        assert(order@ =~= old(order)@ + Seq::<u8>::empty());
        // Properties in variable header
        let properties = match LastWillProperties::read_traced(bytes, order) {
            Ok(v) => v,
            Err(e) => return Err(e),
        };
        let topic = match read_mqtt_bytes(bytes) {
            Ok(v) => v,
            Err(e) => return Err(e),
        };
        let message = match read_mqtt_bytes(bytes) {
            Ok(v) => v,
            Err(e) => return Err(e),
        };
        let qos_num: u8 = (connect_flags / 8) % 4;
        let qos = match qos(qos_num) {
            Some(qos) => qos,
            None => return Err(Error::InvalidQoS(qos_num)),
        };
        let retain = (connect_flags / 32) % 2 == 1;
        Ok(Some(LastWill { topic, message, qos, retain, properties }))
    }

    pub fn write(&self, buffer: &mut BytesMut) -> (r: Result<u8, Error>)
        requires
            has_room(*old(buffer), self@.len() as int),
        ensures
            match self@.octets(None) {
                Some(out) => r == Ok::<u8, Error>(self@.flags()) && buffered(*final(buffer))
                    == buffered(*old(buffer)) + out,
                None => r == Err::<u8, Error>(Error::MalformedPacket) && buffered(*final(buffer))
                    == buffered(*old(buffer)),
            },
    {
        self.write_ordered(buffer, None)
    }

    pub(crate) fn write_ordered(&self, buffer: &mut BytesMut, order: Option<&[u8]>) -> (r: Result<
        u8,
        Error,
    >)
        requires
            has_room(*old(buffer), self@.len() as int),
        ensures
            match self@.octets(order_of(order)) {
                Some(out) => r == Ok::<u8, Error>(self@.flags()) && buffered(*final(buffer))
                    == buffered(*old(buffer)) + out,
                None => r == Err::<u8, Error>(Error::MalformedPacket) && buffered(*final(buffer))
                    == buffered(*old(buffer)),
            },
    {
        let ghost start = buffered(*buffer);
        let mut connect_flags: u8 = 0x04 + 8 * qos_code(self.qos);
        if self.retain {
            connect_flags = connect_flags + 0x20;
        }
        if let Some(p) = &self.properties {
            if let Err(e) = p.write_ordered(buffer, order) {
                return Err(e);
            }
        } else {
            if let Err(e) = write_remaining_length(buffer, 0) {
                return Err(e);
            }
            assert(varint(0) =~= seq![0u8]);
        }
        proof {
            if let Some(es) = self@.properties {
                writable_has_len(es, order_of(order));
            }
        }
        let topic: &[u8] = &self.topic;
        let message: &[u8] = &self.message;
        write_mqtt_bytes(buffer, topic);
        write_mqtt_bytes(buffer, message);
        assert(buffered(*buffer) =~= start + self@.octets(order_of(order))->0);
        Ok(connect_flags)
    }
}

#[derive(Debug, Clone, PartialEq, Eq)]
pub struct LastWillProperties {
    pub delay_interval: Option<u32>,
    pub payload_format_indicator: Option<u8>,
    pub message_expiry_interval: Option<u32>,
    pub content_type: Option<String>,
    pub response_topic: Option<String>,
    pub correlation_data: Option<Bytes>,
    pub user_properties: Vec<(String, String)>,
}

impl View for LastWillProperties {
    type V = Seq<Entry>;

    /// The entries in the order in which they are written by default.
    open spec fn view(&self) -> Seq<Entry> {
        joined(self.fields())
    }
}

impl Default for LastWillProperties {
    fn default() -> (r: Self)
        ensures
            r.delay_interval is None,
            r.payload_format_indicator is None,
            r.message_expiry_interval is None,
            r.content_type is None,
            r.response_topic is None,
            r.correlation_data is None,
            r.user_properties@.len() == 0,
    {
        LastWillProperties {
            delay_interval: None,
            payload_format_indicator: None,
            message_expiry_interval: None,
            content_type: None,
            response_topic: None,
            correlation_data: None,
            user_properties: Vec::new(),
        }
    }
}

impl LastWillProperties {
    /// The entries of each field.
    pub open spec fn fields(self) -> Seq<Seq<Entry>> {
        Seq::empty()
            .push(integer(24, self.delay_interval))
            .push(byte(1, self.payload_format_indicator))
            .push(integer(2, self.message_expiry_interval))
            .push(text(3, self.content_type))
            .push(text(8, self.response_topic))
            .push(binary(9, self.correlation_data))
            .push(pairs(self.user_properties@))
    }

    fn len(&self) -> (r: usize)
        requires
            entries_len(self@) <= usize::MAX,
        ensures
            r == entries_len(self@),
    {
        broadcast use {entries_len_add, group_joined};

        let mut len: usize = 0;
        len = len + integer_len(24, self.delay_interval);
        len = len + byte_len(1, self.payload_format_indicator);
        len = len + integer_len(2, self.message_expiry_interval);
        len = len + text_len(3, &self.content_type);
        len = len + text_len(8, &self.response_topic);
        len = len + binary_len(9, &self.correlation_data);
        len = len + pairs_len(&self.user_properties);
        len
    }

    pub fn read(bytes: &mut Bytes) -> (r: Result<Option<LastWillProperties>, Error>)
        ensures
            match take_properties(Owner::Will, octets(*old(bytes))) {
                (Ok(None), rest) => r matches Ok(None) && octets(*final(bytes)) == rest,
                (Ok(Some(es)), rest) => r matches Ok(Some(p)) && p@ == canonical(Owner::Will, es)
                    && octets(*final(bytes)) == rest,
                (Err(e), rest) => r == Err::<Option<LastWillProperties>, Error>(e) && octets(
                    *final(bytes),
                ) == rest,
            },
    {
        let mut order: Vec<u8> = Vec::new();
        Self::read_traced(bytes, &mut order)
    }

    pub(crate) fn read_traced(bytes: &mut Bytes, order: &mut Vec<u8>) -> (r: Result<
        Option<LastWillProperties>,
        Error,
    >)
        ensures
            match take_properties(Owner::Will, octets(*old(bytes))) {
                (Ok(None), rest) => r matches Ok(None) && octets(*final(bytes)) == rest
                    && final(order)@ == old(order)@,
                (Ok(Some(es)), rest) => r matches Ok(Some(p)) && p@ == canonical(Owner::Will, es)
                    && octets(*final(bytes)) == rest && final(order)@ == old(order)@ + ids(es),
                (Err(e), rest) => r == Err::<Option<LastWillProperties>, Error>(e) && octets(
                    *final(bytes),
                ) == rest,
            },
            final(order)@ == old(order)@ + section_ids(Owner::Will, octets(*old(bytes))),
    {
        proof {
            reveal(take_properties);
        }
        let section = match read_properties_section(bytes) {
            Ok(section) => section,
            Err(e) => return Err(e),
        };
        if section.is_empty() {
            proof {
                parse_end(Owner::Will, octets(section), Seq::empty());
            }
            return Ok(None);
        }
        match Self::read_section(section, order) {
            Ok(props) => Ok(Some(props)),
            Err(e) => Err(e),
        }
    }

    /// Reads the entries of a section that was isolated.
    #[verifier::rlimit(40)]
    fn read_section(section: Bytes, order: &mut Vec<u8>) -> (r: Result<LastWillProperties, Error>)
        ensures
            match parse_entries(Owner::Will, octets(section), Seq::empty()) {
                Ok(es) => r matches Ok(p) && p@ == canonical(Owner::Will, es) && final(order)@
                    == old(order)@ + ids(es),
                Err(e) => r == Err::<LastWillProperties, Error>(e),
            },
            final(order)@ == old(order)@ + noted_ids(Owner::Will, octets(section), Seq::empty()),
    {
        let mut rest = section;
        let ghost mut es: Seq<Entry> = Seq::empty();
        let mut props = LastWillProperties::default();
        let mut seen: u64 = 0;
        let mut count: usize = 0;
        proof {
            broadcast use pick_empty;

            tracks_nothing();
            assert(order@ =~= old(order)@ + ids(es));
            assert(pairs(props.user_properties@) =~= Seq::<Entry>::empty());
        }
        while !rest.is_empty()
            invariant
                parse_entries(Owner::Will, octets(section), Seq::empty()) == parse_entries(
                    Owner::Will,
                    octets(rest),
                    es,
                ),
                noted_ids(Owner::Will, octets(section), Seq::empty()) == noted_ids(
                    Owner::Will,
                    octets(rest),
                    es,
                ),
                tracks(seen, count, es),
                es.len() <= 1024,
                order@ == old(order)@ + ids(es),
                integer(24, props.delay_interval) == pick(es, 24),
                byte(1, props.payload_format_indicator) == pick(es, 1),
                integer(2, props.message_expiry_interval) == pick(es, 2),
                text(3, props.content_type) == pick(es, 3),
                text(8, props.response_topic) == pick(es, 8),
                binary(9, props.correlation_data) == pick(es, 9),
                pairs(props.user_properties@) == pick(es, 38),
            decreases octets(rest).len(),
        {
            broadcast use {pick_push, group_take_shrinks};

            proof {
                parse_step(Owner::Will, octets(rest), es);
            }
            let prop: u8 = match next_property(
                &mut rest,
                Owner::Will,
                &mut seen,
                &mut count,
                order,
                Ghost(es),
            ) {
                Ok(prop) => prop,
                Err(e) => return Err(e),
            };
            assert(order@ =~= old(order)@ + ids(es).push(prop));
            let property = match property(prop) {
                Ok(property) => property,
                Err(e) => return Err(e),
            };
            match property {
                PropertyType::WillDelayInterval => {
                    let value: u32 = match read_u32(&mut rest) {
                        Ok(v) => v,
                        Err(e) => return Err(e),
                    };
                    proof {
                        es = es.push((prop, Value::Integer(value)));
                    }
                    props.delay_interval = Some(value);
                },
                PropertyType::PayloadFormatIndicator => {
                    let value: u8 = match read_u8(&mut rest) {
                        Ok(v) => v,
                        Err(e) => return Err(e),
                    };
                    proof {
                        es = es.push((prop, Value::Byte(value)));
                    }
                    props.payload_format_indicator = Some(value);
                },
                PropertyType::MessageExpiryInterval => {
                    let value: u32 = match read_u32(&mut rest) {
                        Ok(v) => v,
                        Err(e) => return Err(e),
                    };
                    proof {
                        es = es.push((prop, Value::Integer(value)));
                    }
                    props.message_expiry_interval = Some(value);
                },
                PropertyType::ContentType => {
                    let value = match read_mqtt_string(&mut rest) {
                        Ok(v) => v,
                        Err(e) => return Err(e),
                    };
                    proof {
                        es = es.push((prop, Value::Text(value@)));
                    }
                    props.content_type = Some(value);
                },
                PropertyType::ResponseTopic => {
                    let value = match read_mqtt_string(&mut rest) {
                        Ok(v) => v,
                        Err(e) => return Err(e),
                    };
                    proof {
                        es = es.push((prop, Value::Text(value@)));
                    }
                    props.response_topic = Some(value);
                },
                PropertyType::CorrelationData => {
                    let value = match read_mqtt_bytes(&mut rest) {
                        Ok(v) => v,
                        Err(e) => return Err(e),
                    };
                    proof {
                        es = es.push((prop, Value::Binary(octets(value))));
                    }
                    props.correlation_data = Some(value);
                },
                PropertyType::UserProperty => {
                    let key = match read_mqtt_string(&mut rest) {
                        Ok(v) => v,
                        Err(e) => return Err(e),
                    };
                    let value = match read_mqtt_string(&mut rest) {
                        Ok(v) => v,
                        Err(e) => return Err(e),
                    };
                    proof {
                        pairs_push(props.user_properties@, (key, value));
                        es = es.push((prop, Value::Pair(key@, value@)));
                    }
                    props.user_properties.push((key, value));
                },
                _ => return Err(Error::InvalidPropertyType(prop)),
            }
            assert(order@ =~= old(order)@ + ids(es));
        }
        proof {
            parse_end(Owner::Will, octets(rest), es);
            will_properties_are_picked(props, es);
        }
        Ok(props)
    }

    pub fn write(&self, buffer: &mut BytesMut) -> (r: Result<(), Error>)
        requires
            has_room(*old(buffer), section_len(self@) as int),
        ensures
            match writable(self@, None) {
                Some(es) => r is Ok && buffered(*final(buffer)) == buffered(*old(buffer))
                    + section_octets(es),
                None => r == Err::<(), Error>(Error::MalformedPacket) && buffered(*final(buffer))
                    == buffered(*old(buffer)),
            },
    {
        self.write_ordered(buffer, None)
    }

    pub(crate) fn write_ordered(&self, buffer: &mut BytesMut, order: Option<&[u8]>) -> (r: Result<
        (),
        Error,
    >)
        requires
            has_room(*old(buffer), section_len(self@) as int),
        ensures
            match writable(self@, order_of(order)) {
                Some(es) => r is Ok && buffered(*final(buffer)) == buffered(*old(buffer))
                    + section_octets(es),
                None => r == Err::<(), Error>(Error::MalformedPacket) && buffered(*final(buffer))
                    == buffered(*old(buffer)),
            },
    {
        let mut values: Vec<(u8, Property<'_>)> = Vec::new();
        broadcast use group_joined;

        assert(listed(values@) =~= Seq::<Entry>::empty());
        push_integer(&mut values, 24, self.delay_interval);
        push_byte(&mut values, 1, self.payload_format_indicator);
        push_integer(&mut values, 2, self.message_expiry_interval);
        push_text(&mut values, 3, &self.content_type);
        push_text(&mut values, 8, &self.response_topic);
        push_binary(&mut values, 9, &self.correlation_data);
        push_pairs(&mut values, &self.user_properties);
        write_properties(buffer, &values, order)
    }
}

/// Typed will properties whose fields hold the entries that were read, each its own.
proof fn will_properties_are_picked(p: LastWillProperties, es: Seq<Entry>)
    requires
        integer(24, p.delay_interval) == pick(es, 24),
        byte(1, p.payload_format_indicator) == pick(es, 1),
        integer(2, p.message_expiry_interval) == pick(es, 2),
        text(3, p.content_type) == pick(es, 3),
        text(8, p.response_topic) == pick(es, 8),
        binary(9, p.correlation_data) == pick(es, 9),
        pairs(p.user_properties@) == pick(es, 38),
    ensures
        p@ == canonical(Owner::Will, es),
{
    let fields = p.fields();
    let keys = table(Owner::Will);
    assert(keys.len() == 7);
    assert forall|i: int| 0 <= i < 7 implies #[trigger] fields[i] == pick(es, keys[i]) by {
        if i == 0 {
            assert(fields[0] == integer(24, p.delay_interval) && keys[0] == 24);
        } else if i == 1 {
            assert(fields[1] == byte(1, p.payload_format_indicator) && keys[1] == 1);
        } else if i == 2 {
            assert(fields[2] == integer(2, p.message_expiry_interval) && keys[2] == 2);
        } else if i == 3 {
            assert(fields[3] == text(3, p.content_type) && keys[3] == 3);
        } else if i == 4 {
            assert(fields[4] == text(8, p.response_topic) && keys[4] == 8);
        } else if i == 5 {
            assert(fields[5] == binary(9, p.correlation_data) && keys[5] == 9);
        }
    }
    assert(fields =~= picks(es, keys));
}

/// Each field of typed will properties holds the entries of its own property.
pub proof fn will_properties_have_fields(p: LastWillProperties)
    ensures
        are_fields(Owner::Will, p.fields()),
{
    let fields = p.fields();
    let keys = table(Owner::Will);
    assert forall|i: int| 0 <= i < keys.len() implies is_field(
        Owner::Will,
        #[trigger] keys[i],
        fields[i],
    ) by {
        if i == 0 {
            assert(fields[0] == integer(24, p.delay_interval) && keys[0] == 24);
        } else if i == 1 {
            assert(fields[1] == byte(1, p.payload_format_indicator) && keys[1] == 1);
        } else if i == 2 {
            assert(fields[2] == integer(2, p.message_expiry_interval) && keys[2] == 2);
        } else if i == 3 {
            assert(fields[3] == text(3, p.content_type) && keys[3] == 3);
        } else if i == 4 {
            assert(fields[4] == text(8, p.response_topic) && keys[4] == 8);
        } else if i == 5 {
            assert(fields[5] == binary(9, p.correlation_data) && keys[5] == 9);
        }
    }
}

/// The entries of typed will properties may stand in a section where they can be written, and
/// they stand in the order of the typed fields.
proof fn will_properties_are_valid(p: LastWillProperties)
    requires
        entries_fit(p@),
    ensures
        valid_entries(Owner::Will, p@),
        canonical(Owner::Will, p@) == p@,
{
    will_properties_have_fields(p);
    fields_are_valid(Owner::Will, p.fields());
}

#[derive(Debug, Clone, PartialEq, Eq)]
pub struct Login {
    /// Presence is independent of an empty value in MQTT 5.
    pub username: Option<String>,
    /// MQTT passwords are binary data, not UTF-8 strings.
    pub password: Option<Bytes>,
}

impl View for Login {
    type V = LoginModel;

    open spec fn view(&self) -> LoginModel {
        LoginModel {
            username: match self.username {
                Some(t) => Some(t@),
                None => None,
            },
            password: match self.password {
                Some(b) => Some(octets(b)),
                None => None,
            },
        }
    }
}

impl Login {
    pub fn new<U: Into<String>, P: Into<String>>(u: U, p: P) -> (r: Self)
        ensures
            exists|s: String, t: String|
                {
                    &&& #[trigger] call_ensures(<U as Into<String>>::into, (u,), s)
                    &&& #[trigger] call_ensures(<P as Into<String>>::into, (p,), t)
                    &&& r@ == (LoginModel { username: Some(s@), password: Some(encode_utf8(t@)) })
                },
    {
        let username: String = u.into();
        let password: String = p.into();
        Login { username: Some(username), password: Some(bytes_from_string(password)) }
    }

    pub fn read(flags: u8, bytes: &mut Bytes) -> (r: Result<Option<Self>, Error>)
        ensures
            match take_login(flags, octets(*old(bytes))) {
                (Ok(Some(w)), rest) => r matches Ok(Some(l)) && l@ == w && octets(*final(bytes))
                    == rest,
                (Ok(None), rest) => r matches Ok(None) && octets(*final(bytes)) == rest,
                (Err(e), rest) => r == Err::<Option<Self>, Error>(e) && octets(*final(bytes))
                    == rest,
            },
    {
        if (flags / 128) % 2 == 0 && (flags / 64) % 2 == 0 {
            return Ok(None);
        }
        let username = if (flags / 128) % 2 == 1 {
            match read_mqtt_string(bytes) {
                Ok(v) => Some(v),
                Err(e) => return Err(e),
            }
        } else {
            None
        };
        let password = if (flags / 64) % 2 == 1 {
            match read_mqtt_bytes(bytes) {
                Ok(v) => Some(v),
                Err(e) => return Err(e),
            }
        } else {
            None
        };
        Ok(Some(Login { username, password }))
    }

    fn len(&self) -> (r: usize)
        requires
            self@.len() <= usize::MAX,
        ensures
            r == self@.len(),
    {
        let username: usize = match &self.username {
            Some(v) => 2 + v.as_str().as_bytes().len(),
            None => 0,
        };
        let password: usize = match &self.password {
            Some(v) => 2 + v.len(),
            None => 0,
        };
        username + password
    }

    pub fn write(&self, buffer: &mut BytesMut) -> (r: u8)
        requires
            has_room(*old(buffer), self@.len() as int),
        ensures
            r == self@.flags(),
            buffered(*final(buffer)) == buffered(*old(buffer)) + self@.octets(),
    {
        let ghost start = buffered(*buffer);
        let mut flags: u8 = 0;
        if let Some(value) = &self.username {
            flags = flags + 0x80;
            write_mqtt_string(buffer, value.as_str());
        }
        if let Some(value) = &self.password {
            flags = flags + 0x40;
            let data: &[u8] = value;
            write_mqtt_bytes(buffer, data);
        }
        assert(buffered(*buffer) =~= start + self@.octets());
        flags
    }
}

/// Whether a will can be read back.
pub open spec fn readable_will(w: WillModel) -> bool {
    &&& w.topic.len() <= u16::MAX
    &&& w.message.len() <= u16::MAX
    &&& w.properties matches Some(es) ==> es.len() > 0
}

/// Whether a login can be read back: a field is there, and each fits its length.
pub open spec fn readable_login(l: LoginModel) -> bool {
    &&& l.username is Some || l.password is Some
    &&& l.username matches Some(t) ==> text_fits(t)
    &&& l.password matches Some(b) ==> b.len() <= u16::MAX
}

/// The connect flags of a packet tell which parts it has.
proof fn flags_tell_parts(m: ConnectModel)
    ensures
        ({
            let f = m.flags();
            &&& flag(f, 2) == m.clean_start
            &&& flag(f, 4) == (m.will is Some)
            &&& m.will matches Some(w) ==> (f / 8) % 4 == qos_number(w.qos) && flag(f, 32)
                == w.retain
            &&& m.will is None ==> (f / 8) % 8 == 0
            &&& flag(f, 64) == (m.login matches Some(l) && l.password is Some)
            &&& flag(f, 128) == (m.login matches Some(l) && l.username is Some)
        }),
{
}

/// A will that was written is read back, and what follows it is left.
proof fn will_round_trip(w: LastWill, flags: u8, order: Option<Seq<u8>>, rest: Seq<u8>)
    requires
        readable_will(w@),
        w@.octets(order) is Some,
        flag(flags, 4),
        (flags / 8) % 4 == qos_number(w.qos),
        flag(flags, 32) == w.retain,
    ensures
        ({
            let v = WillModel { properties: written(w@.properties, order), ..w@ };
            &&& take_will(flags, w@.octets(order)->0 + rest) == (
                Ok::<Option<WillModel>, Error>(Some(v)),
                rest,
            )
            &&& v.canonical() == w@
            &&& order is Some && w.properties is Some ==> ids_opt(v.properties) == order->0
        }),
{
    let m = w@;
    if let Some(p) = w.properties {
        will_properties_are_valid(p);
    }
    let section = writable_section(m.properties, order)->0;
    let topic = binary_octets(m.topic);
    let message = binary_octets(m.message);
    written_round_trip(Owner::Will, m.properties, order, topic + (message + rest));
    binary_round_trip(m.topic, message + rest);
    binary_round_trip(m.message, rest);
    assert(m.octets(order)->0 + rest =~= section + (topic + (message + rest)));
}

/// A login that was written is read back, and what follows it is left.
proof fn login_round_trip(l: LoginModel, flags: u8, rest: Seq<u8>)
    requires
        readable_login(l),
        flag(flags, 128) == (l.username is Some),
        flag(flags, 64) == (l.password is Some),
    ensures
        take_login(flags, l.octets() + rest) == (Ok::<Option<LoginModel>, Error>(Some(l)), rest),
{
    let password = match l.password {
        Some(b) => binary_octets(b),
        None => Seq::empty(),
    };
    let username = match l.username {
        Some(t) => text_octets(t),
        None => Seq::empty(),
    };
    assert(l.octets() + rest =~= username + (password + rest));
    if let Some(t) = l.username {
        text_round_trip(t, password + rest);
    } else {
        assert(username + (password + rest) =~= password + rest);
    }
    if let Some(b) = l.password {
        binary_round_trip(b, rest);
    } else {
        assert(password + rest =~= rest);
    }
}

/// A connect packet that was written is read back with its will and its login: the fields behind
/// the fixed header spell the same packet, with the properties in the order in which they were
/// written. Fields that do not fit the two octets of their length are written but not read back,
/// and so are empty properties and an empty login.
#[verifier::spinoff_prover]
#[verifier::rlimit(40)]
pub proof fn connect_round_trip(
    connect: Connect,
    will: Option<LastWill>,
    login: Option<Login>,
    order: Option<Seq<u8>>,
    will_order: Option<Seq<u8>>,
)
    requires
        connect_model(connect, will, login).encode(order, will_order).0 is Ok,
        text_fits(connect.client_id@),
        connect.properties matches Some(p) ==> p@.len() > 0,
        will matches Some(w) ==> readable_will(w@),
        login matches Some(l) ==> readable_login(l@),
    ensures
        ({
            let m = connect_model(connect, will, login);
            let (n, out) = m.encode(order, will_order);
            let body = out.skip(1 + varint_len(m.len() as int) as int);
            let w = m.as_written(order, will_order);
            &&& n == Ok::<usize, Error>(out.len() as usize)
            &&& out.len() == frame_len(m.len())
            &&& out == seq![0x10u8] + varint(m.len()) + body
            &&& ConnectModel::decode(body) == Ok::<ConnectModel, Error>(w)
            &&& w.canonical() == m
            &&& order is Some && connect.properties is Some ==> w.order() == order->0
            &&& will_order is Some && will is Some && will->0.properties is Some ==> w.will_order()
                == will_order->0
        }),
{
    let m = connect_model(connect, will, login);
    let flags = m.flags();
    protocol_name_octets();
    varint_has_len(m.len());
    connect_fields_round_trip(connect, will, login, order, will_order);
    let lead = seq![0x10u8] + varint(m.len());
    let fields = be16(m.keep_alive) + m.tail(order, will_order);
    let s0 = seq![5u8, flags] + fields;
    let body = text_octets("MQTT"@) + s0;
    let out = m.encode(order, will_order).1;
    assert(out == lead + body) by {
        broadcast use append_assoc;
    }
    assert(out.skip(lead.len() as int) =~= body);
    text_round_trip("MQTT"@, s0);
    assert(s0.skip(2) =~= fields);
    assert(s0[0] == 5 && s0[1] == flags);
}

/// The properties and the fields behind them are read back.
proof fn connect_fields_round_trip(
    connect: Connect,
    will: Option<LastWill>,
    login: Option<Login>,
    order: Option<Seq<u8>>,
    will_order: Option<Seq<u8>>,
)
    requires
        connect_model(connect, will, login).encode(order, will_order).0 is Ok,
        text_fits(connect.client_id@),
        connect.properties matches Some(p) ==> p@.len() > 0,
        will matches Some(w) ==> readable_will(w@),
        login matches Some(l) ==> readable_login(l@),
    ensures
        ({
            let m = connect_model(connect, will, login);
            let w = m.as_written(order, will_order);
            let tail = m.tail(order, will_order);
            &&& ConnectModel::decode_fields(m.flags(), be16(m.keep_alive) + tail) == Ok::<
                ConnectModel,
                Error,
            >(w)
            &&& w.canonical() == m
            &&& order is Some && connect.properties is Some ==> w.order() == order->0
            &&& will_order is Some && will is Some && will->0.properties is Some ==> w.will_order()
                == will_order->0
            &&& tail.len() == m.len() - 10
        }),
{
    let m = connect_model(connect, will, login);
    let flags = m.flags();
    if let Some(p) = connect.properties {
        connect_properties_are_valid(p);
    }
    flags_tell_parts(m);
    let section = writable_section(m.properties, order)->0;
    let id = text_octets(m.client_id);
    let s4 = m.login_octets();
    let s3 = m.will_octets(will_order)->0 + s4;
    let s2 = id + s3;
    let s1 = section + s2;
    assert(m.tail(order, will_order) == s1) by {
        broadcast use append_assoc;
    }
    u16_round_trip(m.keep_alive, s1);
    written_round_trip(Owner::Connect, m.properties, order, s2);
    text_round_trip(m.client_id, s3);
    if let Some(v) = will {
        will_round_trip(v, flags, will_order, s4);
        will_has_len(v@, will_order);
    } else {
        assert(s3 =~= s4);
    }
    if let Some(v) = login {
        login_round_trip(v@, flags, Seq::empty());
        assert(s4 + Seq::<u8>::empty() =~= s4);
    }
}

} // verus!
