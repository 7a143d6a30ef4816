use bytes::{Buf, Bytes, BytesMut};
use vstd::prelude::*;

use crate::octets::{be16, buffered, has_room, octets, put_u16, put_u8};
use crate::v5::mqttbytes::{qos, qos_code, qos_number, qos_of, Error, QoS};
use super::frame::{emitted, emitted_fields, frame_len, FixedHeader};
use super::ordered::{
    listed, order_of, push_binary, push_byte, push_integer, push_pairs, push_short, push_text,
    push_variables, write_properties, Property,
};
use super::property::{
    are_fields, binary, binary_len, binary_of, binary_view, byte, byte_len, canonical,
    canonical_opt, entries_fit, entries_len, entries_len_add, fields_are_valid, group_joined, ids,
    ids_opt, integer, integer_len, is_field, joined, next_property, noted_ids, pairs, pairs_len,
    pairs_of, pairs_push, pairs_view, parse_end, parse_entries, parse_step, pick, pick_empty,
    pick_field, pick_push, picks, properties_len, property, section_ids, section_len,
    section_octets, short, short_len, table, take_properties, text, text_len, text_of, text_view,
    tracks, tracks_nothing, valid_entries, variables, variables_len, variables_push, writable,
    writable_has_len, writable_section, written, written_round_trip, Entry, Owner, PropertyType,
    Value,
};
use super::wire::{
    append_assoc, binary_octets, binary_round_trip, group_take_shrinks, len_len, read_mqtt_bytes,
    read_mqtt_string, read_properties_section, read_u16, read_u32, read_u8, read_variable,
    take_binary, take_u16, u16_round_trip, varint, varint_len, write_mqtt_bytes,
    write_remaining_length,
};

verus! {

broadcast use super::wire::group_octets_len;

/// Publish packet
#[derive(Debug, PartialEq, Eq)]
pub struct Publish {
    pub dup: bool,
    pub qos: QoS,
    pub retain: bool,
    pub topic: Bytes,
    pub pkid: u16,
    pub payload: Bytes,
    pub properties: Option<PublishProperties>,
}

/// What a publish packet holds.
#[verifier::ext_equal]
pub struct PublishModel {
    pub dup: bool,
    pub qos: QoS,
    pub retain: bool,
    pub topic: Seq<u8>,
    pub pkid: u16,
    pub payload: Seq<u8>,
    pub properties: Option<PublishPropertiesModel>,
}

/// A publish packet on the wire: what it holds, with the entries of its properties in place of
/// the typed properties.
#[verifier::ext_equal]
pub struct PublishWire {
    pub dup: bool,
    pub qos: QoS,
    pub retain: bool,
    pub topic: Seq<u8>,
    pub pkid: u16,
    pub payload: Seq<u8>,
    pub properties: Option<Seq<Entry>>,
}

impl PublishModel {
    /// The packet with the entries of its properties in the order of the typed fields.
    pub open spec fn wire(self) -> PublishWire {
        PublishWire {
            dup: self.dup,
            qos: self.qos,
            retain: self.retain,
            topic: self.topic,
            pkid: self.pkid,
            payload: self.payload,
            properties: match self.properties {
                Some(p) => Some(p.entries()),
                None => None,
            },
        }
    }
}

impl PublishWire {
    /// The length of the fields behind the fixed header.
    pub open spec fn len(self) -> nat {
        2 + self.topic.len() + (if self.qos == QoS::AtMostOnce {
            0nat
        } else {
            2
        }) + properties_len(self.properties) + self.payload.len()
    }

    /// The first octet of the packet: bit 1 holds the retain flag, bits 2 and 4 the quality of
    /// service, bit 8 the duplicate flag.
    pub open spec fn first(self) -> u8 {
        (0x30 + (if self.retain {
            1int
        } else {
            0
        }) + 2 * qos_number(self.qos) + (if self.dup {
            8int
        } else {
            0
        })) as u8
    }

    /// The octets in front of the properties.
    pub open spec fn head(self) -> Seq<u8> {
        binary_octets(self.topic) + if self.qos == QoS::AtMostOnce {
            Seq::empty()
        } else {
            be16(self.pkid)
        }
    }

    /// The packet that a first octet and the octets behind the fixed header spell. Only a packet
    /// above the lowest quality of service has an identifier, which is not 0.
    pub open spec fn decode(byte1: u8, body: Seq<u8>) -> Result<PublishWire, Error> {
        match qos_of((byte1 / 2) % 4) {
            None => Err(Error::InvalidQoS((byte1 / 2) % 4)),
            Some(qos) => match take_binary(body) {
                (Err(e), _) => Err(e),
                (Ok(topic), rest) => if qos == QoS::AtMostOnce {
                    PublishWire::decode_fields(byte1, qos, topic, 0, rest)
                } else {
                    match take_u16(rest) {
                        (Err(e), _) => Err(e),
                        (Ok(pkid), rest) => if pkid == 0 {
                            Err(Error::PacketIdZero)
                        } else {
                            PublishWire::decode_fields(byte1, qos, topic, pkid, rest)
                        },
                    }
                },
            },
        }
    }

    /// The packet whose properties and payload the octets spell.
    pub open spec fn decode_fields(
        byte1: u8,
        qos: QoS,
        topic: Seq<u8>,
        pkid: u16,
        s: Seq<u8>,
    ) -> Result<PublishWire, Error> {
        match take_properties(Owner::Publish, s) {
            (Err(e), _) => Err(e),
            (Ok(properties), payload) => Ok(
                PublishWire {
                    dup: (byte1 / 8) % 2 == 1,
                    qos,
                    retain: byte1 % 2 == 1,
                    topic,
                    pkid,
                    payload,
                    properties,
                },
            ),
        }
    }

    /// The identifiers of properties that a reader of the octets behind the fixed header has noted
    /// when it ends or stops.
    pub open spec fn noted(byte1: u8, body: Seq<u8>) -> Seq<u8> {
        match (qos_of((byte1 / 2) % 4), take_binary(body)) {
            (Some(qos), (Ok(_), rest)) => if qos == QoS::AtMostOnce {
                section_ids(Owner::Publish, rest)
            } else {
                match take_u16(rest) {
                    (Ok(pkid), rest) => if pkid == 0 {
                        Seq::empty()
                    } else {
                        section_ids(Owner::Publish, rest)
                    },
                    (Err(_), _) => Seq::empty(),
                }
            },
            _ => Seq::empty(),
        }
    }

    /// What a writer of the packet returns and appends. A packet above the lowest quality of
    /// service needs an identifier.
    pub open spec fn encode(self, order: Option<Seq<u8>>) -> (Result<usize, Error>, Seq<u8>) {
        if self.qos != QoS::AtMostOnce && self.pkid == 0 {
            (Err(Error::PacketIdZero), Seq::empty())
        } else {
            emitted(
                self.first(),
                self.len(),
                self.head(),
                writable_section(self.properties, order),
                self.payload,
            )
        }
    }

    /// The packet with the entries in the order of the typed fields.
    pub open spec fn canonical(self) -> PublishWire {
        PublishWire { properties: canonical_opt(Owner::Publish, self.properties), ..self }
    }

    /// The identifiers of the properties, in order.
    pub open spec fn order(self) -> Seq<u8> {
        ids_opt(self.properties)
    }
}

impl View for Publish {
    type V = PublishModel;

    open spec fn view(&self) -> PublishModel {
        PublishModel {
            dup: self.dup,
            qos: self.qos,
            retain: self.retain,
            topic: octets(self.topic),
            pkid: self.pkid,
            payload: octets(self.payload),
            properties: match self.properties {
                Some(p) => Some(p@),
                None => None,
            },
        }
    }
}

impl Clone for Publish {
    fn clone(&self) -> (r: Self)
        ensures
            r@ == self@,
    {
        let properties = match &self.properties {
            Some(p) => Some(p.clone()),
            None => None,
        };
        Publish {
            dup: self.dup,
            qos: self.qos,
            retain: self.retain,
            topic: self.topic.clone(),
            pkid: self.pkid,
            payload: self.payload.clone(),
            properties,
        }
    }
}

impl Publish {
    pub fn new<T: Into<String>, P: Into<Bytes>>(
        topic: T,
        qos: QoS,
        payload: P,
        properties: Option<PublishProperties>,
    ) -> (r: Self)
        ensures
            exists|t: String|
                #[trigger] call_ensures(<T as Into<String>>::into, (topic,), t) && octets(r.topic)
                    == vstd::utf8::encode_utf8(t@),
            call_ensures(<P as Into<Bytes>>::into, (payload,), r.payload),
            r.qos == qos,
            r.properties == properties,
            r.pkid == 0,
            !r.dup,
            !r.retain,
    {
        let topic: String = topic.into();
        let topic = Bytes::copy_from_slice(topic.as_str().as_bytes());
        Publish { dup: false, qos, retain: false, topic, pkid: 0, payload: payload.into(), properties }
    }

    fn len(&self) -> (r: usize)
        requires
            self@.wire().len() <= usize::MAX,
        ensures
            r == self@.wire().len(),
    {
        let mut len: usize = 2 + self.topic.len();
        if self.qos != QoS::AtMostOnce {
            len = len + 2;
        }
        if let Some(p) = &self.properties {
            let properties_len: usize = p.len();
            let properties_len_len: usize = len_len(properties_len);
            len = len + properties_len_len + properties_len;
        } else {
            // just 1 byte representing 0 len
            len = len + 1;
        }
        len + self.payload.len()
    }

    pub fn size(&self) -> (r: usize)
        requires
            frame_len(self@.wire().len()) <= usize::MAX,
        ensures
            r == frame_len(self@.wire().len()),
    {
        let len: usize = self.len();
        let remaining_len_size: usize = len_len(len);
        1 + remaining_len_size + len
    }

    pub fn read(fixed_header: FixedHeader, bytes: Bytes) -> (r: Result<Publish, Error>)
        requires
            fixed_header.fixed_header_len <= octets(bytes).len(),
        ensures
            match PublishWire::decode(fixed_header.byte1, octets(bytes).skip(fixed_header.fixed_header_len as int)) {
                Ok(w) => r matches Ok(a) && a@.wire() == w.canonical(),
                Err(e) => r == Err::<Publish, Error>(e),
            },
    {
        let mut order: Vec<u8> = Vec::new();
        Self::read_traced(fixed_header, bytes, &mut order)
    }

    pub(crate) fn read_traced(
        fixed_header: FixedHeader,
        bytes: Bytes,
        order: &mut Vec<u8>,
    ) -> (r: Result<Publish, Error>)
        requires
            fixed_header.fixed_header_len <= octets(bytes).len(),
        ensures
            match PublishWire::decode(fixed_header.byte1, octets(bytes).skip(fixed_header.fixed_header_len as int)) {
                Ok(w) => r matches Ok(a) && a@.wire() == w.canonical() && final(order)@ == old(order)@
                    + w.order(),
                Err(e) => r == Err::<Publish, Error>(e),
            },
            final(order)@ == old(order)@ + PublishWire::noted(
                fixed_header.byte1,
                octets(bytes).skip(fixed_header.fixed_header_len as int),
            ),
    {
        let mut bytes = bytes;
        let byte1: u8 = fixed_header.byte1;
        let qos_num: u8 = (byte1 / 2) % 4;
        let qos = match qos(qos_num) {
            Some(qos) => qos,
            None => return Err(Error::InvalidQoS(qos_num)),
        };
        let dup = (byte1 / 8) % 2 == 1;
        let retain = byte1 % 2 == 1;
        let variable_header_index: usize = fixed_header.fixed_header_len;
        bytes.advance(variable_header_index);
        assert(order@ =~= old(order)@ + Seq::<u8>::empty());
        let topic = match read_mqtt_bytes(&mut bytes) {
            Ok(v) => v,
            Err(e) => return Err(e),
        };
        // Packet identifier exists where QoS > 0
        let mut pkid: u16 = 0;
        if qos != QoS::AtMostOnce {
            pkid =
            match read_u16(&mut bytes) {
                Ok(v) => v,
                Err(e) => return Err(e),
            };
            if pkid == 0 {
                return Err(Error::PacketIdZero);
            }
        }
        let properties = match PublishProperties::read_traced(&mut bytes, order) {
            Ok(v) => v,
            Err(e) => return Err(e),
        };
        Ok(Publish { dup, qos, retain, topic, pkid, payload: bytes, properties })
    }

    pub fn write(&self, buffer: &mut BytesMut) -> (r: Result<usize, Error>)
        requires
            has_room(*old(buffer), frame_len(self@.wire().len()) as int),
        ensures
            r == self@.wire().encode(None).0,
            buffered(*final(buffer)) == buffered(*old(buffer)) + self@.wire().encode(None).1,
    {
        self.write_ordered(buffer, None)
    }

    pub(crate) fn write_ordered(&self, buffer: &mut BytesMut, order: Option<&[u8]>) -> (r: Result<
        usize,
        Error,
    >)
        requires
            has_room(*old(buffer), frame_len(self@.wire().len()) as int),
        ensures
            r == self@.wire().encode(order_of(order)).0,
            buffered(*final(buffer)) == buffered(*old(buffer)) + self@.wire().encode(order_of(order)).1,
    {
        let ghost m = self@.wire();
        let ghost start = buffered(*buffer);
        assert(start + Seq::<u8>::empty() =~= start);
        if self.qos != QoS::AtMostOnce && self.pkid == 0 {
            return Err(Error::PacketIdZero);
        }
        let len: usize = self.len();
        let mut first: u8 = 0x30 + 2 * qos_code(self.qos);
        if self.retain {
            first = first + 1;
        }
        if self.dup {
            first = first + 8;
        }
        put_u8(buffer, first);
        assert(buffered(*buffer) =~= start + seq![first]);
        let count: usize = match write_remaining_length(buffer, len) {
            Ok(count) => count,
            Err(e) => return Err(e),
        };
        let topic: &[u8] = &self.topic;
        write_mqtt_bytes(buffer, topic);
        if self.qos != QoS::AtMostOnce {
            put_u16(buffer, self.pkid);
        }
        let ghost head = seq![first] + varint(len as nat) + m.head();
        assert(buffered(*buffer) == start + head) by {
            broadcast use append_assoc;
            if self.qos == QoS::AtMostOnce {
                assert(m.head() =~= binary_octets(m.topic));
            }
        }
        if let Some(p) = &self.properties {
            if let Err(e) = p.write_ordered(buffer, order) {
                return Err(e);
            }
        } else {
            if let Err(e) = write_remaining_length(buffer, 0) {
                return Err(e);
            }
            assert(varint(0) =~= seq![0u8]);
        }
        let ghost section = writable_section(m.properties, order_of(order))->0;
        proof {
            if let Some(es) = m.properties {
                writable_has_len(es, order_of(order));
            }
        }
        let payload: &[u8] = &self.payload;
        buffer.extend_from_slice(payload);
        assert(buffered(*buffer) == start + (head + section + m.payload)) by {
            broadcast use append_assoc;
        }
        Ok(1 + count + len)
    }
}

#[derive(Debug, PartialEq, Eq)]
pub struct PublishProperties {
    pub payload_format_indicator: Option<u8>,
    pub message_expiry_interval: Option<u32>,
    pub topic_alias: Option<u16>,
    pub response_topic: Option<String>,
    pub correlation_data: Option<Bytes>,
    pub user_properties: Vec<(String, String)>,
    pub subscription_identifiers: Vec<usize>,
    pub content_type: Option<String>,
}

/// What publish properties hold.
#[verifier::ext_equal]
pub struct PublishPropertiesModel {
    pub payload_format_indicator: Option<u8>,
    pub message_expiry_interval: Option<u32>,
    pub topic_alias: Option<u16>,
    pub response_topic: Option<Seq<char>>,
    pub correlation_data: Option<Seq<u8>>,
    pub user_properties: Seq<(Seq<char>, Seq<char>)>,
    pub subscription_identifiers: Seq<usize>,
    pub content_type: Option<Seq<char>>,
}

impl PublishPropertiesModel {
    /// The entries of each field.
    pub open spec fn fields(self) -> Seq<Seq<Entry>> {
        Seq::empty()
            .push(byte(1, self.payload_format_indicator))
            .push(integer(2, self.message_expiry_interval))
            .push(short(35, self.topic_alias))
            .push(text_of(8, self.response_topic))
            .push(binary_of(9, self.correlation_data))
            .push(pairs_of(self.user_properties))
            .push(variables(11, self.subscription_identifiers))
            .push(text_of(3, self.content_type))
    }

    /// The entries in the order in which they are written by default.
    pub open spec fn entries(self) -> Seq<Entry> {
        joined(self.fields())
    }
}

impl View for PublishProperties {
    type V = PublishPropertiesModel;

    open spec fn view(&self) -> PublishPropertiesModel {
        PublishPropertiesModel {
            payload_format_indicator: self.payload_format_indicator,
            message_expiry_interval: self.message_expiry_interval,
            topic_alias: self.topic_alias,
            response_topic: text_view(self.response_topic),
            correlation_data: binary_view(self.correlation_data),
            user_properties: pairs_view(self.user_properties@),
            subscription_identifiers: self.subscription_identifiers@,
            content_type: text_view(self.content_type),
        }
    }
}

impl Clone for PublishProperties {
    fn clone(&self) -> (r: Self)
        ensures
            r@ == self@,
    {
        let user_properties = clone_pairs(&self.user_properties);
        let subscription_identifiers = clone_numbers(&self.subscription_identifiers);
        let r = PublishProperties {
            payload_format_indicator: self.payload_format_indicator,
            message_expiry_interval: self.message_expiry_interval,
            topic_alias: self.topic_alias,
            response_topic: clone_text(&self.response_topic),
            correlation_data: clone_binary(&self.correlation_data),
            user_properties,
            subscription_identifiers,
            content_type: clone_text(&self.content_type),
        };
        assert(r@ =~= self@);
        r
    }
}

fn clone_text(v: &Option<String>) -> (r: Option<String>)
    ensures
        text_view(r) == text_view(*v),
{
    match v {
        Some(v) => Some(v.clone()),
        None => None,
    }
}

fn clone_binary(v: &Option<Bytes>) -> (r: Option<Bytes>)
    ensures
        binary_view(r) == binary_view(*v),
{
    match v {
        Some(v) => Some(v.clone()),
        None => None,
    }
}

fn clone_pairs(v: &Vec<(String, String)>) -> (r: Vec<(String, String)>)
    ensures
        pairs_view(r@) == pairs_view(v@),
{
    let mut out: Vec<(String, String)> = Vec::new();
    let mut i: usize = 0;
    while i < v.len()
        invariant
            i <= v@.len(),
            out@.len() == i,
            forall|j: int| 0 <= j < i ==> (#[trigger] out@[j]).0@ == v@[j].0@ && out@[j].1@ == v@[j].1@,
        decreases v@.len() - i,
    {
        out.push((v[i].0.clone(), v[i].1.clone()));
        i = i + 1;
    }
    assert(pairs_view(out@) =~= pairs_view(v@));
    out
}

fn clone_numbers(v: &Vec<usize>) -> (r: Vec<usize>)
    ensures
        r@ == v@,
{
    let mut out: Vec<usize> = Vec::new();
    let mut i: usize = 0;
    while i < v.len()
        invariant
            i <= v@.len(),
            out@ == v@.take(i as int),
        decreases v@.len() - i,
    {
        out.push(v[i]);
        i = i + 1;
        assert(v@.take(i as int) =~= v@.take(i - 1).push(v@[i - 1]));
    }
    assert(v@.take(i as int) =~= v@);
    out
}

impl Default for PublishProperties {
    fn default() -> (r: Self)
        ensures
            r.payload_format_indicator is None,
            r.message_expiry_interval is None,
            r.topic_alias is None,
            r.response_topic is None,
            r.correlation_data is None,
            r.user_properties@.len() == 0,
            r.subscription_identifiers@.len() == 0,
            r.content_type is None,
    {
        PublishProperties {
            payload_format_indicator: None,
            message_expiry_interval: None,
            topic_alias: None,
            response_topic: None,
            correlation_data: None,
            user_properties: Vec::new(),
            subscription_identifiers: Vec::new(),
            content_type: None,
        }
    }
}

impl PublishProperties {
    fn len(&self) -> (r: usize)
        requires
            entries_len(self@.entries()) <= usize::MAX,
        ensures
            r == entries_len(self@.entries()),
    {
        broadcast use {entries_len_add, group_joined};

        let mut len: usize = 0;
        len = len + byte_len(1, self.payload_format_indicator);
        len = len + integer_len(2, self.message_expiry_interval);
        len = len + short_len(35, self.topic_alias);
        len = len + text_len(8, &self.response_topic);
        len = len + binary_len(9, &self.correlation_data);
        len = len + pairs_len(&self.user_properties);
        len = len + variables_len(11, &self.subscription_identifiers);
        len = len + text_len(3, &self.content_type);
        len
    }

    pub fn read(bytes: &mut Bytes) -> (r: Result<Option<PublishProperties>, Error>)
        ensures
            match take_properties(Owner::Publish, octets(*old(bytes))) {
                (Ok(None), rest) => r matches Ok(None) && octets(*final(bytes)) == rest,
                (Ok(Some(es)), rest) => r matches Ok(Some(p)) && p@.entries() == canonical(Owner::Publish, es)
                    && octets(*final(bytes)) == rest,
                (Err(e), rest) => r == Err::<Option<PublishProperties>, Error>(e) && octets(
                    *final(bytes),
                ) == rest,
            },
    {
        let mut order: Vec<u8> = Vec::new();
        Self::read_traced(bytes, &mut order)
    }

    pub(crate) fn read_traced(bytes: &mut Bytes, order: &mut Vec<u8>) -> (r: Result<
        Option<PublishProperties>,
        Error,
    >)
        ensures
            match take_properties(Owner::Publish, octets(*old(bytes))) {
                (Ok(None), rest) => r matches Ok(None) && octets(*final(bytes)) == rest
                    && final(order)@ == old(order)@,
                (Ok(Some(es)), rest) => r matches Ok(Some(p)) && p@.entries() == canonical(Owner::Publish, es)
                    && octets(*final(bytes)) == rest && final(order)@ == old(order)@ + ids(es),
                (Err(e), rest) => r == Err::<Option<PublishProperties>, Error>(e) && octets(
                    *final(bytes),
                ) == rest,
            },
            final(order)@ == old(order)@ + section_ids(Owner::Publish, octets(*old(bytes))),
    {
        proof {
            reveal(take_properties);
        }
        let section = match read_properties_section(bytes) {
            Ok(section) => section,
            Err(e) => return Err(e),
        };
        if section.is_empty() {
            proof {
                parse_end(Owner::Publish, octets(section), Seq::empty());
            }
            return Ok(None);
        }
        match Self::read_section(section, order) {
            Ok(props) => Ok(Some(props)),
            Err(e) => Err(e),
        }
    }

    /// Reads the entries of a section that was isolated.
    #[verifier::rlimit(40)]
    fn read_section(section: Bytes, order: &mut Vec<u8>) -> (r: Result<PublishProperties, Error>)
        ensures
            match parse_entries(Owner::Publish, octets(section), Seq::empty()) {
                Ok(es) => r matches Ok(p) && p@.entries() == canonical(Owner::Publish, es) && final(order)@
                    == old(order)@ + ids(es),
                Err(e) => r == Err::<PublishProperties, Error>(e),
            },
            final(order)@ == old(order)@ + noted_ids(Owner::Publish, octets(section), Seq::empty()),
    {
        let mut rest = section;
        let ghost mut es: Seq<Entry> = Seq::empty();
        let mut props = PublishProperties::default();
        let mut seen: u64 = 0;
        let mut count: usize = 0;
        proof {
            broadcast use pick_empty;

            tracks_nothing();
            assert(order@ =~= old(order)@ + ids(es));
            assert(pairs(props.user_properties@) =~= Seq::<Entry>::empty());
            assert(variables(11, props.subscription_identifiers@) =~= Seq::<Entry>::empty());
        }
        while !rest.is_empty()
            invariant
                parse_entries(Owner::Publish, octets(section), Seq::empty()) == parse_entries(
                    Owner::Publish,
                    octets(rest),
                    es,
                ),
                noted_ids(Owner::Publish, octets(section), Seq::empty()) == noted_ids(
                    Owner::Publish,
                    octets(rest),
                    es,
                ),
                tracks(seen, count, es),
                es.len() <= 1024,
                order@ == old(order)@ + ids(es),
                byte(1, props.payload_format_indicator) == pick(es, 1),
                integer(2, props.message_expiry_interval) == pick(es, 2),
                short(35, props.topic_alias) == pick(es, 35),
                text(8, props.response_topic) == pick(es, 8),
                binary(9, props.correlation_data) == pick(es, 9),
                pairs(props.user_properties@) == pick(es, 38),
                variables(11, props.subscription_identifiers@) == pick(es, 11),
                text(3, props.content_type) == pick(es, 3),
            decreases octets(rest).len(),
        {
            broadcast use {pick_push, group_take_shrinks};

            proof {
                parse_step(Owner::Publish, octets(rest), es);
            }
            let prop: u8 = match next_property(
                &mut rest,
                Owner::Publish,
                &mut seen,
                &mut count,
                order,
                Ghost(es),
            ) {
                Ok(prop) => prop,
                Err(e) => return Err(e),
            };
            assert(order@ =~= old(order)@ + ids(es).push(prop));
            let property = match property(prop) {
                Ok(property) => property,
                Err(e) => return Err(e),
            };
            match property {
                PropertyType::PayloadFormatIndicator => {
                    let value: u8 = match read_u8(&mut rest) {
                        Ok(v) => v,
                        Err(e) => return Err(e),
                    };
                    proof {
                        es = es.push((prop, Value::Byte(value)));
                    }
                    props.payload_format_indicator = Some(value);
                },
                PropertyType::MessageExpiryInterval => {
                    let value: u32 = match read_u32(&mut rest) {
                        Ok(v) => v,
                        Err(e) => return Err(e),
                    };
                    proof {
                        es = es.push((prop, Value::Integer(value)));
                    }
                    props.message_expiry_interval = Some(value);
                },
                PropertyType::TopicAlias => {
                    let value: u16 = match read_u16(&mut rest) {
                        Ok(v) => v,
                        Err(e) => return Err(e),
                    };
                    proof {
                        es = es.push((prop, Value::Short(value)));
                    }
                    props.topic_alias = Some(value);
                },
                PropertyType::ResponseTopic => {
                    let value = match read_mqtt_string(&mut rest) {
                        Ok(v) => v,
                        Err(e) => return Err(e),
                    };
                    proof {
                        es = es.push((prop, Value::Text(value@)));
                    }
                    props.response_topic = Some(value);
                },
                PropertyType::CorrelationData => {
                    let value = match read_mqtt_bytes(&mut rest) {
                        Ok(v) => v,
                        Err(e) => return Err(e),
                    };
                    proof {
                        es = es.push((prop, Value::Binary(octets(value))));
                    }
                    props.correlation_data = Some(value);
                },
                PropertyType::UserProperty => {
                    let key = match read_mqtt_string(&mut rest) {
                        Ok(v) => v,
                        Err(e) => return Err(e),
                    };
                    let value = match read_mqtt_string(&mut rest) {
                        Ok(v) => v,
                        Err(e) => return Err(e),
                    };
                    proof {
                        pairs_push(props.user_properties@, (key, value));
                        es = es.push((prop, Value::Pair(key@, value@)));
                    }
                    props.user_properties.push((key, value));
                },
                PropertyType::SubscriptionIdentifier => {
                    let value: usize = match read_variable(&mut rest) {
                        Ok(v) => v,
                        Err(e) => return Err(e),
                    };
                    proof {
                        variables_push(11, props.subscription_identifiers@, value);
                        es = es.push((prop, Value::Variable(value)));
                    }
                    props.subscription_identifiers.push(value);
                },
                PropertyType::ContentType => {
                    let value = match read_mqtt_string(&mut rest) {
                        Ok(v) => v,
                        Err(e) => return Err(e),
                    };
                    proof {
                        es = es.push((prop, Value::Text(value@)));
                    }
                    props.content_type = Some(value);
                },
                _ => return Err(Error::InvalidPropertyType(prop)),
            }
            assert(order@ =~= old(order)@ + ids(es));
        }
        proof {
            parse_end(Owner::Publish, octets(rest), es);
            publish_properties_are_picked(props, es);
        }
        Ok(props)
    }

    pub fn write(&self, buffer: &mut BytesMut) -> (r: Result<(), Error>)
        requires
            has_room(*old(buffer), section_len(self@.entries()) as int),
        ensures
            match writable(self@.entries(), None) {
                Some(es) => r is Ok && buffered(*final(buffer)) == buffered(*old(buffer))
                    + section_octets(es),
                None => r == Err::<(), Error>(Error::MalformedPacket) && buffered(*final(buffer))
                    == buffered(*old(buffer)),
            },
    {
        self.write_ordered(buffer, None)
    }

    pub(crate) fn write_ordered(&self, buffer: &mut BytesMut, order: Option<&[u8]>) -> (r: Result<
        (),
        Error,
    >)
        requires
            has_room(*old(buffer), section_len(self@.entries()) as int),
        ensures
            match writable(self@.entries(), order_of(order)) {
                Some(es) => r is Ok && buffered(*final(buffer)) == buffered(*old(buffer))
                    + section_octets(es),
                None => r == Err::<(), Error>(Error::MalformedPacket) && buffered(*final(buffer))
                    == buffered(*old(buffer)),
            },
    {
        let mut values: Vec<(u8, Property<'_>)> = Vec::new();
        broadcast use group_joined;

        assert(listed(values@) =~= Seq::<Entry>::empty());
        push_byte(&mut values, 1, self.payload_format_indicator);
        push_integer(&mut values, 2, self.message_expiry_interval);
        push_short(&mut values, 35, self.topic_alias);
        push_text(&mut values, 8, &self.response_topic);
        push_binary(&mut values, 9, &self.correlation_data);
        push_pairs(&mut values, &self.user_properties);
        push_variables(&mut values, 11, &self.subscription_identifiers);
        push_text(&mut values, 3, &self.content_type);
        write_properties(buffer, &values, order)
    }
}

/// Typed publish properties whose fields hold the entries that were read, each its own.
proof fn publish_properties_are_picked(p: PublishProperties, es: Seq<Entry>)
    requires
        byte(1, p.payload_format_indicator) == pick(es, 1),
        integer(2, p.message_expiry_interval) == pick(es, 2),
        short(35, p.topic_alias) == pick(es, 35),
        text(8, p.response_topic) == pick(es, 8),
        binary(9, p.correlation_data) == pick(es, 9),
        pairs(p.user_properties@) == pick(es, 38),
        variables(11, p.subscription_identifiers@) == pick(es, 11),
        text(3, p.content_type) == pick(es, 3),
    ensures
        p@.entries() == canonical(Owner::Publish, es),
{
    let fields = p@.fields();
    let keys = table(Owner::Publish);
    assert(keys.len() == 8);
    assert forall|i: int| 0 <= i < 8 implies #[trigger] fields[i] == pick(es, keys[i]) by {
        if i == 0 {
            assert(fields[0] == byte(1, p.payload_format_indicator) && keys[0] == 1);
        } else if i == 1 {
            assert(fields[1] == integer(2, p.message_expiry_interval) && keys[1] == 2);
        } else if i == 2 {
            assert(fields[2] == short(35, p.topic_alias) && keys[2] == 35);
        } else if i == 3 {
            assert(fields[3] == text(8, p.response_topic) && keys[3] == 8);
        } else if i == 4 {
            assert(fields[4] == binary(9, p.correlation_data) && keys[4] == 9);
        } else if i == 5 {
            assert(fields[5] == pairs(p.user_properties@) && keys[5] == 38);
        } else if i == 6 {
            assert(fields[6] == variables(11, p.subscription_identifiers@) && keys[6] == 11);
        }
    }
    assert(fields =~= picks(es, keys));
}

/// Each field of typed publish properties holds the entries of its own property.
pub proof fn publish_properties_have_fields(p: PublishProperties)
    ensures
        are_fields(Owner::Publish, p@.fields()),
{
    let fields = p@.fields();
    let keys = table(Owner::Publish);
    assert forall|i: int| 0 <= i < keys.len() implies is_field(
        Owner::Publish,
        #[trigger] keys[i],
        fields[i],
    ) by {
        if i == 0 {
            assert(fields[0] == byte(1, p.payload_format_indicator) && keys[0] == 1);
        } else if i == 1 {
            assert(fields[1] == integer(2, p.message_expiry_interval) && keys[1] == 2);
        } else if i == 2 {
            assert(fields[2] == short(35, p.topic_alias) && keys[2] == 35);
        } else if i == 3 {
            assert(fields[3] == text(8, p.response_topic) && keys[3] == 8);
        } else if i == 4 {
            assert(fields[4] == binary(9, p.correlation_data) && keys[4] == 9);
        } else if i == 5 {
            assert(fields[5] == pairs(p.user_properties@) && keys[5] == 38);
        } else if i == 6 {
            assert(fields[6] == variables(11, p.subscription_identifiers@) && keys[6] == 11);
        }
    }
}

/// The entries of typed publish properties may stand in a section where they can be written, and
/// they stand in the order of the typed fields.
proof fn publish_properties_are_valid(p: PublishProperties)
    requires
        entries_fit(p@.entries()),
    ensures
        valid_entries(Owner::Publish, p@.entries()),
        canonical(Owner::Publish, p@.entries()) == p@.entries(),
{
    publish_properties_have_fields(p);
    fields_are_valid(Owner::Publish, p@.fields());
}

/// A publish packet that was written is read back: the first octet and the fields behind the
/// fixed header spell the same packet, with the properties in the order in which they were
/// written. A topic beyond the two octets of its length is written but not read back, and so are
/// empty properties. An identifier is not written at the lowest quality of service.
#[verifier::spinoff_prover]
#[verifier::rlimit(40)]
pub proof fn publish_round_trip(publish: Publish, order: Option<Seq<u8>>)
    requires
        publish@.wire().encode(order).0 is Ok,
        octets(publish.topic).len() <= u16::MAX,
        publish.qos == QoS::AtMostOnce ==> publish.pkid == 0,
        publish.properties matches Some(p) ==> p@.entries().len() > 0,
    ensures
        ({
            let m = publish@.wire();
            let (n, out) = m.encode(order);
            let body = out.skip(1 + varint_len(m.len() as int) as int);
            let w = PublishWire { properties: written(m.properties, order), ..m };
            &&& n == Ok::<usize, Error>(out.len() as usize)
            &&& out.len() == frame_len(m.len())
            &&& out == seq![m.first()] + varint(m.len()) + body
            &&& PublishWire::decode(m.first(), body) == Ok::<PublishWire, Error>(w)
            &&& w.canonical() == m
            &&& order is Some && publish.properties is Some ==> w.order() == order->0
        }),
{
    let m = publish@.wire();
    if let Some(p) = publish.properties {
        publish_properties_are_valid(p);
    }
    let section = writable_section(m.properties, order)->0;
    let rest = section + m.payload;
    written_round_trip(Owner::Publish, m.properties, order, m.payload);
    emitted_fields(m.first(), m.len(), m.head(), section, m.payload);
    assert(m.head() + section + m.payload == m.head() + rest) by {
        broadcast use append_assoc;
    }
    if m.qos == QoS::AtMostOnce {
        assert(m.head() =~= binary_octets(m.topic));
        binary_round_trip(m.topic, rest);
    } else {
        binary_round_trip(m.topic, be16(m.pkid) + rest);
        u16_round_trip(m.pkid, rest);
        assert(m.head() + rest == binary_octets(m.topic) + (be16(m.pkid) + rest)) by {
            broadcast use append_assoc;
        }
    }
}

/// Each field of what publish properties hold has the entries of its own property.
proof fn publish_model_has_fields(m: PublishPropertiesModel)
    ensures
        are_fields(Owner::Publish, m.fields()),
{
    let fields = m.fields();
    let keys = table(Owner::Publish);
    assert forall|i: int| 0 <= i < keys.len() implies is_field(
        Owner::Publish,
        #[trigger] keys[i],
        fields[i],
    ) by {
        if i == 0 {
            assert(fields[0] == byte(1, m.payload_format_indicator) && keys[0] == 1);
        } else if i == 1 {
            assert(fields[1] == integer(2, m.message_expiry_interval) && keys[1] == 2);
        } else if i == 2 {
            assert(fields[2] == short(35, m.topic_alias) && keys[2] == 35);
        } else if i == 3 {
            assert(fields[3] == text_of(8, m.response_topic) && keys[3] == 8);
        } else if i == 4 {
            assert(fields[4] == binary_of(9, m.correlation_data) && keys[4] == 9);
        } else if i == 5 {
            assert(fields[5] == pairs_of(m.user_properties) && keys[5] == 38);
        } else if i == 6 {
            assert(fields[6] == variables(11, m.subscription_identifiers) && keys[6] == 11);
        }
    }
}

/// The entries on the wire tell what publish properties hold.
pub proof fn publish_entries_are_faithful(a: PublishPropertiesModel, b: PublishPropertiesModel)
    requires
        a.entries() == b.entries(),
    ensures
        a == b,
{
    publish_model_has_fields(a);
    publish_model_has_fields(b);
    assert forall|i: int| 0 <= i < 8 implies #[trigger] a.fields()[i] == b.fields()[i] by {
        pick_field(Owner::Publish, a.fields(), i);
        pick_field(Owner::Publish, b.fields(), i);
    }
    let (x, y) = (a.fields(), b.fields());
    assert(x[0] == y[0] && x[1] == y[1] && x[2] == y[2] && x[3] == y[3]);
    assert(x[4] == y[4] && x[5] == y[5] && x[6] == y[6] && x[7] == y[7]);
    assert(a.payload_format_indicator is Some ==> x[0][0].1 == Value::Byte(
        a.payload_format_indicator->0,
    ));
    assert(b.payload_format_indicator is Some ==> y[0][0].1 == Value::Byte(
        b.payload_format_indicator->0,
    ));
    assert(a.message_expiry_interval is Some ==> x[1][0].1 == Value::Integer(
        a.message_expiry_interval->0,
    ));
    assert(b.message_expiry_interval is Some ==> y[1][0].1 == Value::Integer(
        b.message_expiry_interval->0,
    ));
    assert(a.topic_alias is Some ==> x[2][0].1 == Value::Short(a.topic_alias->0));
    assert(b.topic_alias is Some ==> y[2][0].1 == Value::Short(b.topic_alias->0));
    assert(a.response_topic is Some ==> x[3][0].1 == Value::Text(a.response_topic->0));
    assert(b.response_topic is Some ==> y[3][0].1 == Value::Text(b.response_topic->0));
    assert(a.correlation_data is Some ==> x[4][0].1 == Value::Binary(a.correlation_data->0));
    assert(b.correlation_data is Some ==> y[4][0].1 == Value::Binary(b.correlation_data->0));
    assert(a.content_type is Some ==> x[7][0].1 == Value::Text(a.content_type->0));
    assert(b.content_type is Some ==> y[7][0].1 == Value::Text(b.content_type->0));
    assert(a.user_properties =~= b.user_properties) by {
        assert(x[5].len() == a.user_properties.len());
        assert forall|i: int| 0 <= i < a.user_properties.len() implies a.user_properties[i]
            == b.user_properties[i] by {
            assert(x[5][i].1 == Value::Pair(a.user_properties[i].0, a.user_properties[i].1));
            assert(y[5][i].1 == Value::Pair(b.user_properties[i].0, b.user_properties[i].1));
        }
    }
    assert(a.subscription_identifiers =~= b.subscription_identifiers) by {
        assert(x[6].len() == a.subscription_identifiers.len());
        assert forall|i: int| 0 <= i < a.subscription_identifiers.len() implies a.subscription_identifiers[i]
            == b.subscription_identifiers[i] by {
            assert(x[6][i].1 == Value::Variable(a.subscription_identifiers[i]));
            assert(y[6][i].1 == Value::Variable(b.subscription_identifiers[i]));
        }
    }
    assert(x[0].len() == y[0].len() && x[1].len() == y[1].len() && x[2].len() == y[2].len());
    assert(x[3].len() == y[3].len() && x[4].len() == y[4].len() && x[7].len() == y[7].len());
    assert(a =~= b);
}

} // verus!
