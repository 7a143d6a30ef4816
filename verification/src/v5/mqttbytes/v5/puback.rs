use bytes::{Buf, Bytes, BytesMut};
use vstd::prelude::*;

use crate::octets::{be16, buffered, has_room, octets, put_u16, put_u8};
use crate::v5::mqttbytes::Error;
use super::frame::{emitted, emitted_fields, frame_len, FixedHeader};
use super::ordered::{listed, order_of, push_pairs, push_text, write_properties, Property};
use super::property::{
    are_fields, canonical, canonical_opt, entries_fit, entries_len, entries_len_add,
    fields_are_valid, group_joined, ids, ids_opt, is_field, joined, next_property, noted_ids, pairs,
    pairs_len, pairs_push, parse_end, parse_entries, parse_step, pick, pick_empty, pick_push, picks,
    properties_len, property, section_ids, section_len, section_octets, table, take_properties,
    text, text_len, tracks, tracks_nothing, valid_entries, writable, writable_section, written,
    written_round_trip, Entry, Owner, PropertyType, Value,
};
use super::wire::{
    group_take_shrinks, len_len, read_mqtt_string, read_properties_section, read_u16, read_u8,
    take_u16, u16_round_trip, varint, varint_len, write_remaining_length,
};

verus! {

broadcast use super::wire::group_octets_len;

/// Acknowledgement to QoS1 publish
#[derive(Debug, Clone, PartialEq, Eq)]
pub struct PubAck {
    pub pkid: u16,
    pub reason: PubAckReason,
    pub properties: Option<PubAckProperties>,
}

/// What a puback packet holds. The entries of the properties stand in the order of the wire, or
/// in the order of the typed fields.
#[verifier::ext_equal]
pub struct PubAckModel {
    pub pkid: u16,
    pub reason: PubAckReason,
    pub properties: Option<Seq<Entry>>,
}

impl PubAckModel {
    /// Whether the reason and the properties are left out.
    pub open spec fn is_short(self) -> bool {
        self.reason == PubAckReason::Success && self.properties is None
    }

    /// The length of the fields behind the fixed header.
    pub open spec fn len(self) -> nat {
        if self.is_short() {
            2
        } else {
            3 + properties_len(self.properties)
        }
    }

    /// The packet that the octets behind a fixed header spell. The properties may be left out,
    /// and with them the reason.
    pub open spec fn decode(body: Seq<u8>) -> Result<PubAckModel, Error> {
        match take_u16(body) {
            (Err(e), _) => Err(e),
            (Ok(pkid), rest) => if rest.len() == 0 {
                Ok(PubAckModel { pkid, reason: PubAckReason::Success, properties: None })
            } else {
                match PubAckReason::of(rest[0]) {
                    Err(e) => Err(e),
                    Ok(reason) => if rest.len() == 1 {
                        Ok(PubAckModel { pkid, reason, properties: None })
                    } else {
                        match take_properties(Owner::Acknowledgement, rest.skip(1)) {
                            (Err(e), _) => Err(e),
                            (Ok(properties), rest) => if rest.len() > 0 {
                                Err(Error::MalformedPacket)
                            } else {
                                Ok(PubAckModel { pkid, reason, properties })
                            },
                        }
                    },
                }
            },
        }
    }

    /// The identifiers of properties that a reader of the octets behind the fixed header has noted
    /// when it ends or stops.
    pub open spec fn noted(body: Seq<u8>) -> Seq<u8> {
        match take_u16(body) {
            (Ok(_), rest) => if rest.len() < 2 || PubAckReason::of(rest[0]) is Err {
                Seq::empty()
            } else {
                section_ids(Owner::Acknowledgement, rest.skip(1))
            },
            (Err(_), _) => Seq::empty(),
        }
    }

    /// What a writer of the packet returns and appends.
    pub open spec fn encode(self, order: Option<Seq<u8>>) -> (Result<usize, Error>, Seq<u8>) {
        if self.is_short() {
            (Ok(4), seq![0x40u8, 2u8] + be16(self.pkid))
        } else {
            emitted(
                0x40u8,
                self.len(),
                be16(self.pkid) + seq![self.reason.number()],
                writable_section(self.properties, order),
                Seq::empty(),
            )
        }
    }

    /// The packet with the entries in the order of the typed fields.
    pub open spec fn canonical(self) -> PubAckModel {
        PubAckModel { properties: canonical_opt(Owner::Acknowledgement, self.properties), ..self }
    }

    /// The identifiers of the properties, in order.
    pub open spec fn order(self) -> Seq<u8> {
        ids_opt(self.properties)
    }
}

impl View for PubAck {
    type V = PubAckModel;

    open spec fn view(&self) -> PubAckModel {
        PubAckModel {
            pkid: self.pkid,
            reason: self.reason,
            properties: match self.properties {
                Some(p) => Some(p@),
                None => None,
            },
        }
    }
}

impl PubAck {
    pub fn new(pkid: u16, properties: Option<PubAckProperties>) -> (r: PubAck)
        ensures
            r.pkid == pkid,
            r.reason == PubAckReason::Success,
            r.properties == properties,
    {
        PubAck { pkid, reason: PubAckReason::Success, properties }
    }

    fn len(&self) -> (r: usize)
        requires
            self@.len() <= usize::MAX,
        ensures
            r == self@.len(),
    {
        // The reason code and the properties can be left out of a success without properties
        if self.reason == PubAckReason::Success && self.properties.is_none() {
            return 2;
        }
        let mut len: usize = 2 + 1;  // pkid + reason
        if let Some(p) = &self.properties {
            let properties_len: usize = p.len();
            let properties_len_len: usize = len_len(properties_len);
            len = len + properties_len_len + properties_len;
        } else {
            // just 1 byte representing 0 len
            len = len + 1;
        }
        len
    }

    pub fn size(&self) -> (r: usize)
        requires
            frame_len(self@.len()) <= usize::MAX,
        ensures
            r == frame_len(self@.len()),
    {
        let len: usize = self.len();
        let remaining_len_size: usize = len_len(len);
        1 + remaining_len_size + len
    }

    pub fn read(fixed_header: FixedHeader, bytes: Bytes) -> (r: Result<PubAck, Error>)
        requires
            fixed_header.fixed_header_len <= octets(bytes).len(),
        ensures
            match PubAckModel::decode(octets(bytes).skip(fixed_header.fixed_header_len as int)) {
                Ok(w) => r matches Ok(a) && a@ == w.canonical(),
                Err(e) => r == Err::<PubAck, Error>(e),
            },
    {
        let mut order: Vec<u8> = Vec::new();
        Self::read_traced(fixed_header, bytes, &mut order)
    }

    pub(crate) fn read_traced(
        fixed_header: FixedHeader,
        bytes: Bytes,
        order: &mut Vec<u8>,
    ) -> (r: Result<PubAck, Error>)
        requires
            fixed_header.fixed_header_len <= octets(bytes).len(),
        ensures
            match PubAckModel::decode(octets(bytes).skip(fixed_header.fixed_header_len as int)) {
                Ok(w) => r matches Ok(a) && a@ == w.canonical() && final(order)@ == old(order)@
                    + w.order(),
                Err(e) => r == Err::<PubAck, Error>(e),
            },
            final(order)@ == old(order)@ + PubAckModel::noted(
                octets(bytes).skip(fixed_header.fixed_header_len as int),
            ),
    {
        let mut bytes = bytes;
        let variable_header_index: usize = fixed_header.fixed_header_len;
        bytes.advance(variable_header_index);
        assert(order@ =~= old(order)@ + Seq::<u8>::empty());
        let pkid: u16 = match read_u16(&mut bytes) {
            Ok(v) => v,
            Err(e) => return Err(e),
        };
        if bytes.is_empty() {
            return Ok(PubAck { pkid, reason: PubAckReason::Success, properties: None });
        }
        let num: u8 = match read_u8(&mut bytes) {
            Ok(v) => v,
            Err(e) => return Err(e),
        };
        let reason = match reason(num) {
            Ok(v) => v,
            Err(e) => return Err(e),
        };
        if bytes.is_empty() {
            return Ok(PubAck { pkid, reason, properties: None });
        }
        let properties = match PubAckProperties::read_traced(&mut bytes, order) {
            Ok(v) => v,
            Err(e) => return Err(e),
        };
        if !bytes.is_empty() {
            return Err(Error::MalformedPacket);
        }
        Ok(PubAck { pkid, reason, properties })
    }

    pub fn write(&self, buffer: &mut BytesMut) -> (r: Result<usize, Error>)
        requires
            has_room(*old(buffer), frame_len(self@.len()) as int),
        ensures
            r == self@.encode(None).0,
            buffered(*final(buffer)) == buffered(*old(buffer)) + self@.encode(None).1,
    {
        self.write_ordered(buffer, None)
    }

    pub(crate) fn write_ordered(&self, buffer: &mut BytesMut, order: Option<&[u8]>) -> (r: Result<
        usize,
        Error,
    >)
        requires
            has_room(*old(buffer), frame_len(self@.len()) as int),
        ensures
            r == self@.encode(order_of(order)).0,
            buffered(*final(buffer)) == buffered(*old(buffer)) + self@.encode(order_of(order)).1,
    {
        let ghost start = buffered(*buffer);
        let len: usize = self.len();
        put_u8(buffer, 0x40);
        assert(buffered(*buffer) =~= start + seq![0x40u8]);
        let count: usize = match write_remaining_length(buffer, len) {
            Ok(count) => count,
            Err(e) => return Err(e),
        };
        put_u16(buffer, self.pkid);
        if self.reason == PubAckReason::Success && self.properties.is_none() {
            assert(varint(2) =~= seq![2u8]);
            assert(buffered(*buffer) =~= start + (seq![0x40u8, 2u8] + be16(self.pkid)));
            return Ok(4);
        }
        put_u8(buffer, code(self.reason));
        let ghost head = seq![0x40u8] + varint(len as nat) + (be16(self.pkid) + seq![
            self.reason.number(),
        ]);
        assert(buffered(*buffer) =~= start + head);
        if let Some(p) = &self.properties {
            if let Err(e) = p.write_ordered(buffer, order) {
                return Err(e);
            }
        } else {
            if let Err(e) = write_remaining_length(buffer, 0) {
                return Err(e);
            }
            assert(varint(0) =~= seq![0u8]);
        }
        assert(buffered(*buffer) =~= start + self@.encode(order_of(order)).1);
        Ok(1 + count + len)
    }
}

/// Reason of a puback packet
#[derive(Debug, Clone, Copy, PartialEq, Eq, Structural)]
pub enum PubAckReason {
    Success,
    NoMatchingSubscribers,
    UnspecifiedError,
    ImplementationSpecificError,
    NotAuthorized,
    TopicNameInvalid,
    PacketIdentifierInUse,
    QuotaExceeded,
    PayloadFormatInvalid,
}

impl PubAckReason {
    /// The number that stands for the reason on the wire.
    pub open spec fn number(self) -> u8 {
        match self {
            PubAckReason::Success => 0,
            PubAckReason::NoMatchingSubscribers => 16,
            PubAckReason::UnspecifiedError => 128,
            PubAckReason::ImplementationSpecificError => 131,
            PubAckReason::NotAuthorized => 135,
            PubAckReason::TopicNameInvalid => 144,
            PubAckReason::PacketIdentifierInUse => 145,
            PubAckReason::QuotaExceeded => 151,
            PubAckReason::PayloadFormatInvalid => 153,
        }
    }

    /// The reason that a number on the wire stands for.
    pub open spec fn of(num: u8) -> Result<PubAckReason, Error> {
        if num == 0 {
            Ok(PubAckReason::Success)
        } else if num == 16 {
            Ok(PubAckReason::NoMatchingSubscribers)
        } else if num == 128 {
            Ok(PubAckReason::UnspecifiedError)
        } else if num == 131 {
            Ok(PubAckReason::ImplementationSpecificError)
        } else if num == 135 {
            Ok(PubAckReason::NotAuthorized)
        } else if num == 144 {
            Ok(PubAckReason::TopicNameInvalid)
        } else if num == 145 {
            Ok(PubAckReason::PacketIdentifierInUse)
        } else if num == 151 {
            Ok(PubAckReason::QuotaExceeded)
        } else if num == 153 {
            Ok(PubAckReason::PayloadFormatInvalid)
        } else {
            Err(Error::InvalidReason(num))
        }
    }
}

#[derive(Debug, Clone, PartialEq, Eq)]
pub struct PubAckProperties {
    pub reason_string: Option<String>,
    pub user_properties: Vec<(String, String)>,
}

impl View for PubAckProperties {
    type V = Seq<Entry>;

    /// The entries in the order in which they are written by default.
    open spec fn view(&self) -> Seq<Entry> {
        joined(self.fields())
    }
}

impl Default for PubAckProperties {
    fn default() -> (r: Self)
        ensures
            r.reason_string is None,
            r.user_properties@.len() == 0,
    {
        PubAckProperties {
            reason_string: None,
            user_properties: Vec::new(),
        }
    }
}

impl PubAckProperties {
    /// The entries of each field.
    pub open spec fn fields(self) -> Seq<Seq<Entry>> {
        Seq::empty()
            .push(text(31, self.reason_string))
            .push(pairs(self.user_properties@))
    }

    fn len(&self) -> (r: usize)
        requires
            entries_len(self@) <= usize::MAX,
        ensures
            r == entries_len(self@),
    {
        broadcast use {entries_len_add, group_joined};

        let mut len: usize = 0;
        len = len + text_len(31, &self.reason_string);
        len = len + pairs_len(&self.user_properties);
        len
    }

    pub fn read(bytes: &mut Bytes) -> (r: Result<Option<PubAckProperties>, Error>)
        ensures
            match take_properties(Owner::Acknowledgement, octets(*old(bytes))) {
                (Ok(None), rest) => r matches Ok(None) && octets(*final(bytes)) == rest,
                (Ok(Some(es)), rest) => r matches Ok(Some(p)) && p@ == canonical(Owner::Acknowledgement, es)
                    && octets(*final(bytes)) == rest,
                (Err(e), rest) => r == Err::<Option<PubAckProperties>, Error>(e) && octets(
                    *final(bytes),
                ) == rest,
            },
    {
        let mut order: Vec<u8> = Vec::new();
        Self::read_traced(bytes, &mut order)
    }

    pub(crate) fn read_traced(bytes: &mut Bytes, order: &mut Vec<u8>) -> (r: Result<
        Option<PubAckProperties>,
        Error,
    >)
        ensures
            match take_properties(Owner::Acknowledgement, octets(*old(bytes))) {
                (Ok(None), rest) => r matches Ok(None) && octets(*final(bytes)) == rest
                    && final(order)@ == old(order)@,
                (Ok(Some(es)), rest) => r matches Ok(Some(p)) && p@ == canonical(Owner::Acknowledgement, es)
                    && octets(*final(bytes)) == rest && final(order)@ == old(order)@ + ids(es),
                (Err(e), rest) => r == Err::<Option<PubAckProperties>, Error>(e) && octets(
                    *final(bytes),
                ) == rest,
            },
            final(order)@ == old(order)@ + section_ids(Owner::Acknowledgement, octets(*old(bytes))),
    {
        proof {
            reveal(take_properties);
        }
        let section = match read_properties_section(bytes) {
            Ok(section) => section,
            Err(e) => return Err(e),
        };
        if section.is_empty() {
            proof {
                parse_end(Owner::Acknowledgement, octets(section), Seq::empty());
            }
            return Ok(None);
        }
        match Self::read_section(section, order) {
            Ok(props) => Ok(Some(props)),
            Err(e) => Err(e),
        }
    }

    /// Reads the entries of a section that was isolated.
    fn read_section(section: Bytes, order: &mut Vec<u8>) -> (r: Result<PubAckProperties, Error>)
        ensures
            match parse_entries(Owner::Acknowledgement, octets(section), Seq::empty()) {
                Ok(es) => r matches Ok(p) && p@ == canonical(Owner::Acknowledgement, es) && final(order)@
                    == old(order)@ + ids(es),
                Err(e) => r == Err::<PubAckProperties, Error>(e),
            },
            final(order)@ == old(order)@ + noted_ids(Owner::Acknowledgement, octets(section), Seq::empty()),
    {
        let mut rest = section;
        let ghost mut es: Seq<Entry> = Seq::empty();
        let mut props = PubAckProperties::default();
        let mut seen: u64 = 0;
        let mut count: usize = 0;
        proof {
            broadcast use pick_empty;

            tracks_nothing();
            assert(order@ =~= old(order)@ + ids(es));
            assert(pairs(props.user_properties@) =~= Seq::<Entry>::empty());
        }
        while !rest.is_empty()
            invariant
                parse_entries(Owner::Acknowledgement, octets(section), Seq::empty()) == parse_entries(
                    Owner::Acknowledgement,
                    octets(rest),
                    es,
                ),
                noted_ids(Owner::Acknowledgement, octets(section), Seq::empty()) == noted_ids(
                    Owner::Acknowledgement,
                    octets(rest),
                    es,
                ),
                tracks(seen, count, es),
                es.len() <= 1024,
                order@ == old(order)@ + ids(es),
                text(31, props.reason_string) == pick(es, 31),
                pairs(props.user_properties@) == pick(es, 38),
            decreases octets(rest).len(),
        {
            broadcast use {pick_push, group_take_shrinks};

            proof {
                parse_step(Owner::Acknowledgement, octets(rest), es);
            }
            let prop: u8 = match next_property(
                &mut rest,
                Owner::Acknowledgement,
                &mut seen,
                &mut count,
                order,
                Ghost(es),
            ) {
                Ok(prop) => prop,
                Err(e) => return Err(e),
            };
            assert(order@ =~= old(order)@ + ids(es).push(prop));
            let property = match property(prop) {
                Ok(property) => property,
                Err(e) => return Err(e),
            };
            match property {
                PropertyType::ReasonString => {
                    let value = match read_mqtt_string(&mut rest) {
                        Ok(v) => v,
                        Err(e) => return Err(e),
                    };
                    proof {
                        es = es.push((prop, Value::Text(value@)));
                    }
                    props.reason_string = Some(value);
                },
                PropertyType::UserProperty => {
                    let key = match read_mqtt_string(&mut rest) {
                        Ok(v) => v,
                        Err(e) => return Err(e),
                    };
                    let value = match read_mqtt_string(&mut rest) {
                        Ok(v) => v,
                        Err(e) => return Err(e),
                    };
                    proof {
                        pairs_push(props.user_properties@, (key, value));
                        es = es.push((prop, Value::Pair(key@, value@)));
                    }
                    props.user_properties.push((key, value));
                },
                _ => return Err(Error::InvalidPropertyType(prop)),
            }
            assert(order@ =~= old(order)@ + ids(es));
        }
        proof {
            parse_end(Owner::Acknowledgement, octets(rest), es);
            puback_properties_are_picked(props, es);
        }
        Ok(props)
    }

    pub fn write(&self, buffer: &mut BytesMut) -> (r: Result<(), Error>)
        requires
            has_room(*old(buffer), section_len(self@) as int),
        ensures
            match writable(self@, None) {
                Some(es) => r is Ok && buffered(*final(buffer)) == buffered(*old(buffer))
                    + section_octets(es),
                None => r == Err::<(), Error>(Error::MalformedPacket) && buffered(*final(buffer))
                    == buffered(*old(buffer)),
            },
    {
        self.write_ordered(buffer, None)
    }

    pub(crate) fn write_ordered(&self, buffer: &mut BytesMut, order: Option<&[u8]>) -> (r: Result<
        (),
        Error,
    >)
        requires
            has_room(*old(buffer), section_len(self@) as int),
        ensures
            match writable(self@, order_of(order)) {
                Some(es) => r is Ok && buffered(*final(buffer)) == buffered(*old(buffer))
                    + section_octets(es),
                None => r == Err::<(), Error>(Error::MalformedPacket) && buffered(*final(buffer))
                    == buffered(*old(buffer)),
            },
    {
        let mut values: Vec<(u8, Property<'_>)> = Vec::new();
        broadcast use group_joined;

        assert(listed(values@) =~= Seq::<Entry>::empty());
        push_text(&mut values, 31, &self.reason_string);
        push_pairs(&mut values, &self.user_properties);
        write_properties(buffer, &values, order)
    }
}

/// Typed puback properties whose fields hold the entries that were read, each its own.
proof fn puback_properties_are_picked(p: PubAckProperties, es: Seq<Entry>)
    requires
        text(31, p.reason_string) == pick(es, 31),
        pairs(p.user_properties@) == pick(es, 38),
    ensures
        p@ == canonical(Owner::Acknowledgement, es),
{
    let fields = p.fields();
    let keys = table(Owner::Acknowledgement);
    assert(keys.len() == 2);
    assert forall|i: int| 0 <= i < 2 implies #[trigger] fields[i] == pick(es, keys[i]) by {
        if i == 0 {
            assert(fields[0] == text(31, p.reason_string) && keys[0] == 31);
        }
    }
    assert(fields =~= picks(es, keys));
}

/// Each field of typed puback properties holds the entries of its own property.
pub proof fn puback_properties_have_fields(p: PubAckProperties)
    ensures
        are_fields(Owner::Acknowledgement, p.fields()),
{
    let fields = p.fields();
    let keys = table(Owner::Acknowledgement);
    assert forall|i: int| 0 <= i < keys.len() implies is_field(
        Owner::Acknowledgement,
        #[trigger] keys[i],
        fields[i],
    ) by {
        if i == 0 {
            assert(fields[0] == text(31, p.reason_string) && keys[0] == 31);
        }
    }
}

/// The entries of typed puback properties may stand in a section where they can be written, and
/// they stand in the order of the typed fields.
proof fn puback_properties_are_valid(p: PubAckProperties)
    requires
        entries_fit(p@),
    ensures
        valid_entries(Owner::Acknowledgement, p@),
        canonical(Owner::Acknowledgement, p@) == p@,
{
    puback_properties_have_fields(p);
    fields_are_valid(Owner::Acknowledgement, p.fields());
}

/// The reason that a number on the wire stands for.
fn reason(num: u8) -> (r: Result<PubAckReason, Error>)
    ensures
        r == PubAckReason::of(num),
{
    let code = match num {
        0 => PubAckReason::Success,
        16 => PubAckReason::NoMatchingSubscribers,
        128 => PubAckReason::UnspecifiedError,
        131 => PubAckReason::ImplementationSpecificError,
        135 => PubAckReason::NotAuthorized,
        144 => PubAckReason::TopicNameInvalid,
        145 => PubAckReason::PacketIdentifierInUse,
        151 => PubAckReason::QuotaExceeded,
        153 => PubAckReason::PayloadFormatInvalid,
        num => return Err(Error::InvalidReason(num)),
    };
    Ok(code)
}

/// The number that stands for a reason on the wire.
fn code(reason: PubAckReason) -> (r: u8)
    ensures
        r == reason.number(),
{
    match reason {
        PubAckReason::Success => 0,
        PubAckReason::NoMatchingSubscribers => 16,
        PubAckReason::UnspecifiedError => 128,
        PubAckReason::ImplementationSpecificError => 131,
        PubAckReason::NotAuthorized => 135,
        PubAckReason::TopicNameInvalid => 144,
        PubAckReason::PacketIdentifierInUse => 145,
        PubAckReason::QuotaExceeded => 151,
        PubAckReason::PayloadFormatInvalid => 153,
    }
}

impl From<PubAckReason> for u8 {
    fn from(value: PubAckReason) -> (r: u8) {
        code(value)
    }
}

impl vstd::std_specs::convert::FromSpecImpl<PubAckReason> for u8 {
    open spec fn obeys_from_spec() -> bool {
        true
    }

    open spec fn from_spec(value: PubAckReason) -> u8 {
        value.number()
    }
}

impl TryFrom<u8> for PubAckReason {
    type Error = Error;

    fn try_from(value: u8) -> (r: Result<Self, Self::Error>) {
        reason(value)
    }
}

impl vstd::std_specs::convert::TryFromSpecImpl<u8> for PubAckReason {
    open spec fn obeys_try_from_spec() -> bool {
        true
    }

    open spec fn try_from_spec(value: u8) -> Result<Self, Self::Error> {
        PubAckReason::of(value)
    }
}

/// A puback packet that was written is read back: the fields behind the fixed header spell the
/// same packet, with the properties in the order in which they were written.
#[verifier::spinoff_prover]
#[verifier::rlimit(40)]
pub proof fn puback_round_trip(puback: PubAck, order: Option<Seq<u8>>)
    requires
        puback@.encode(order).0 is Ok,
        puback.properties matches Some(p) ==> p@.len() > 0,
    ensures
        ({
            let (n, out) = puback@.encode(order);
            let body = out.skip(1 + varint_len(puback@.len() as int) as int);
            let w = PubAckModel { properties: written(puback@.properties, order), ..puback@ };
            &&& n == Ok::<usize, Error>(out.len() as usize)
            &&& out.len() == frame_len(puback@.len())
            &&& out == seq![0x40u8] + varint(puback@.len()) + body
            &&& PubAckModel::decode(body) == Ok::<PubAckModel, Error>(w)
            &&& w.canonical() == puback@
            &&& order is Some && puback.properties is Some ==> w.order() == order->0
        }),
{
    let m = puback@;
    u16_round_trip(m.pkid, Seq::empty());
    if m.is_short() {
        let out = m.encode(order).1;
        assert(varint(2) =~= seq![2u8]);
        assert(out =~= seq![0x40u8] + varint(2) + be16(m.pkid));
        assert(out.skip(2) =~= be16(m.pkid));
        assert(be16(m.pkid) + Seq::<u8>::empty() =~= be16(m.pkid));
    } else {
        if let Some(p) = puback.properties {
            puback_properties_are_valid(p);
        }
        let rest = seq![m.reason.number()] + writable_section(m.properties, order)->0;
        let head = be16(m.pkid) + seq![m.reason.number()];
        let section = writable_section(m.properties, order)->0;
        written_round_trip(Owner::Acknowledgement, m.properties, order, Seq::empty());
        assert(section + Seq::<u8>::empty() =~= section);
        emitted_fields(0x40u8, m.len(), head, section, Seq::empty());
        u16_round_trip(m.pkid, rest);
        assert(head + section + Seq::<u8>::empty() =~= be16(m.pkid) + rest);
        assert(rest.skip(1) =~= section);
    }
}

} // verus!
