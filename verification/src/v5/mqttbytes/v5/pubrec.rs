use bytes::{Buf, Bytes, BytesMut};
use vstd::prelude::*;

use crate::octets::{be16, buffered, has_room, octets, put_u16, put_u8};
use crate::v5::mqttbytes::Error;
use super::frame::{emitted, emitted_fields, frame_len, FixedHeader};
use super::ordered::{listed, order_of, push_pairs, push_text, write_properties, Property};
use super::property::{
    are_fields, canonical, canonical_opt, entries_fit, entries_len, entries_len_add,
    fields_are_valid, group_joined, ids, ids_opt, is_field, joined, next_property, noted_ids, pairs,
    pairs_len, pairs_push, parse_end, parse_entries, parse_step, pick, pick_empty, pick_push, picks,
    properties_len, property, section_ids, section_len, section_octets, table, take_properties,
    text, text_len, tracks, tracks_nothing, valid_entries, writable, writable_section, written,
    written_round_trip, Entry, Owner, PropertyType, Value,
};
use super::wire::{
    group_take_shrinks, len_len, read_mqtt_string, read_properties_section, read_u16, read_u8,
    take_u16, u16_round_trip, varint, varint_len, write_remaining_length,
};

verus! {

broadcast use super::wire::group_octets_len;

/// Acknowledgement to QoS2 publish
#[derive(Debug, Clone, PartialEq, Eq)]
pub struct PubRec {
    pub pkid: u16,
    pub reason: PubRecReason,
    pub properties: Option<PubRecProperties>,
}

/// What a pubrec packet holds. The entries of the properties stand in the order of the wire, or
/// in the order of the typed fields.
#[verifier::ext_equal]
pub struct PubRecModel {
    pub pkid: u16,
    pub reason: PubRecReason,
    pub properties: Option<Seq<Entry>>,
}

impl PubRecModel {
    /// Whether the reason and the properties are left out.
    pub open spec fn is_short(self) -> bool {
        self.reason == PubRecReason::Success && self.properties is None
    }

    /// The length of the fields behind the fixed header.
    pub open spec fn len(self) -> nat {
        if self.is_short() {
            2
        } else {
            3 + properties_len(self.properties)
        }
    }

    /// The packet that the octets behind a fixed header spell. The properties may be left out,
    /// and with them the reason.
    pub open spec fn decode(body: Seq<u8>) -> Result<PubRecModel, Error> {
        match take_u16(body) {
            (Err(e), _) => Err(e),
            (Ok(pkid), rest) => if rest.len() == 0 {
                Ok(PubRecModel { pkid, reason: PubRecReason::Success, properties: None })
            } else {
                match PubRecReason::of(rest[0]) {
                    Err(e) => Err(e),
                    Ok(reason) => if rest.len() == 1 {
                        Ok(PubRecModel { pkid, reason, properties: None })
                    } else {
                        match take_properties(Owner::Acknowledgement, rest.skip(1)) {
                            (Err(e), _) => Err(e),
                            (Ok(properties), rest) => if rest.len() > 0 {
                                Err(Error::MalformedPacket)
                            } else {
                                Ok(PubRecModel { pkid, reason, properties })
                            },
                        }
                    },
                }
            },
        }
    }

    /// The identifiers of properties that a reader of the octets behind the fixed header has noted
    /// when it ends or stops.
    pub open spec fn noted(body: Seq<u8>) -> Seq<u8> {
        match take_u16(body) {
            (Ok(_), rest) => if rest.len() < 2 || PubRecReason::of(rest[0]) is Err {
                Seq::empty()
            } else {
                section_ids(Owner::Acknowledgement, rest.skip(1))
            },
            (Err(_), _) => Seq::empty(),
        }
    }

    /// What a writer of the packet returns and appends.
    pub open spec fn encode(self, order: Option<Seq<u8>>) -> (Result<usize, Error>, Seq<u8>) {
        if self.is_short() {
            (Ok(4), seq![0x50u8, 2u8] + be16(self.pkid))
        } else {
            emitted(
                0x50u8,
                self.len(),
                be16(self.pkid) + seq![self.reason.number()],
                writable_section(self.properties, order),
                Seq::empty(),
            )
        }
    }

    /// The packet with the entries in the order of the typed fields.
    pub open spec fn canonical(self) -> PubRecModel {
        PubRecModel { properties: canonical_opt(Owner::Acknowledgement, self.properties), ..self }
    }

    /// The identifiers of the properties, in order.
    pub open spec fn order(self) -> Seq<u8> {
        ids_opt(self.properties)
    }
}

impl View for PubRec {
    type V = PubRecModel;

    open spec fn view(&self) -> PubRecModel {
        PubRecModel {
            pkid: self.pkid,
            reason: self.reason,
            properties: match self.properties {
                Some(p) => Some(p@),
                None => None,
            },
        }
    }
}

impl PubRec {
    pub fn new(pkid: u16, properties: Option<PubRecProperties>) -> (r: PubRec)
        ensures
            r.pkid == pkid,
            r.reason == PubRecReason::Success,
            r.properties == properties,
    {
        PubRec { pkid, reason: PubRecReason::Success, properties }
    }

    fn len(&self) -> (r: usize)
        requires
            self@.len() <= usize::MAX,
        ensures
            r == self@.len(),
    {
        // The reason code and the properties can be left out of a success without properties
        if self.reason == PubRecReason::Success && self.properties.is_none() {
            return 2;
        }
        let mut len: usize = 2 + 1;  // pkid + reason
        if let Some(p) = &self.properties {
            let properties_len: usize = p.len();
            let properties_len_len: usize = len_len(properties_len);
            len = len + properties_len_len + properties_len;
        } else {
            // just 1 byte representing 0 len
            len = len + 1;
        }
        len
    }

    pub fn size(&self) -> (r: usize)
        requires
            frame_len(self@.len()) <= usize::MAX,
        ensures
            r == frame_len(self@.len()),
    {
        let len: usize = self.len();
        let remaining_len_size: usize = len_len(len);
        1 + remaining_len_size + len
    }

    pub fn read(fixed_header: FixedHeader, bytes: Bytes) -> (r: Result<PubRec, Error>)
        requires
            fixed_header.fixed_header_len <= octets(bytes).len(),
        ensures
            match PubRecModel::decode(octets(bytes).skip(fixed_header.fixed_header_len as int)) {
                Ok(w) => r matches Ok(a) && a@ == w.canonical(),
                Err(e) => r == Err::<PubRec, Error>(e),
            },
    {
        let mut order: Vec<u8> = Vec::new();
        Self::read_traced(fixed_header, bytes, &mut order)
    }

    pub(crate) fn read_traced(
        fixed_header: FixedHeader,
        bytes: Bytes,
        order: &mut Vec<u8>,
    ) -> (r: Result<PubRec, Error>)
        requires
            fixed_header.fixed_header_len <= octets(bytes).len(),
        ensures
            match PubRecModel::decode(octets(bytes).skip(fixed_header.fixed_header_len as int)) {
                Ok(w) => r matches Ok(a) && a@ == w.canonical() && final(order)@ == old(order)@
                    + w.order(),
                Err(e) => r == Err::<PubRec, Error>(e),
            },
            final(order)@ == old(order)@ + PubRecModel::noted(
                octets(bytes).skip(fixed_header.fixed_header_len as int),
            ),
    {
        let mut bytes = bytes;
        let variable_header_index: usize = fixed_header.fixed_header_len;
        bytes.advance(variable_header_index);
        assert(order@ =~= old(order)@ + Seq::<u8>::empty());
        let pkid: u16 = match read_u16(&mut bytes) {
            Ok(v) => v,
            Err(e) => return Err(e),
        };
        if bytes.is_empty() {
            return Ok(PubRec { pkid, reason: PubRecReason::Success, properties: None });
        }
        let num: u8 = match read_u8(&mut bytes) {
            Ok(v) => v,
            Err(e) => return Err(e),
        };
        let reason = match reason(num) {
            Ok(v) => v,
            Err(e) => return Err(e),
        };
        if bytes.is_empty() {
            return Ok(PubRec { pkid, reason, properties: None });
        }
        let properties = match PubRecProperties::read_traced(&mut bytes, order) {
            Ok(v) => v,
            Err(e) => return Err(e),
        };
        if !bytes.is_empty() {
            return Err(Error::MalformedPacket);
        }
        Ok(PubRec { pkid, reason, properties })
    }

    pub fn write(&self, buffer: &mut BytesMut) -> (r: Result<usize, Error>)
        requires
            has_room(*old(buffer), frame_len(self@.len()) as int),
        ensures
            r == self@.encode(None).0,
            buffered(*final(buffer)) == buffered(*old(buffer)) + self@.encode(None).1,
    {
        self.write_ordered(buffer, None)
    }

    pub(crate) fn write_ordered(&self, buffer: &mut BytesMut, order: Option<&[u8]>) -> (r: Result<
        usize,
        Error,
    >)
        requires
            has_room(*old(buffer), frame_len(self@.len()) as int),
        ensures
            r == self@.encode(order_of(order)).0,
            buffered(*final(buffer)) == buffered(*old(buffer)) + self@.encode(order_of(order)).1,
    {
        let ghost start = buffered(*buffer);
        let len: usize = self.len();
        put_u8(buffer, 0x50);
        assert(buffered(*buffer) =~= start + seq![0x50u8]);
        let count: usize = match write_remaining_length(buffer, len) {
            Ok(count) => count,
            Err(e) => return Err(e),
        };
        put_u16(buffer, self.pkid);
        if self.reason == PubRecReason::Success && self.properties.is_none() {
            assert(varint(2) =~= seq![2u8]);
            assert(buffered(*buffer) =~= start + (seq![0x50u8, 2u8] + be16(self.pkid)));
            return Ok(4);
        }
        put_u8(buffer, code(self.reason));
        let ghost head = seq![0x50u8] + varint(len as nat) + (be16(self.pkid) + seq![
            self.reason.number(),
        ]);
        assert(buffered(*buffer) =~= start + head);
        if let Some(p) = &self.properties {
            if let Err(e) = p.write_ordered(buffer, order) {
                return Err(e);
            }
        } else {
            if let Err(e) = write_remaining_length(buffer, 0) {
                return Err(e);
            }
            assert(varint(0) =~= seq![0u8]);
        }
        assert(buffered(*buffer) =~= start + self@.encode(order_of(order)).1);
        Ok(1 + count + len)
    }
}

/// Reason of a pubrec packet
#[derive(Debug, Clone, Copy, PartialEq, Eq, Structural)]
pub enum PubRecReason {
    Success,
    NoMatchingSubscribers,
    UnspecifiedError,
    ImplementationSpecificError,
    NotAuthorized,
    TopicNameInvalid,
    PacketIdentifierInUse,
    QuotaExceeded,
    PayloadFormatInvalid,
}

impl PubRecReason {
    /// The number that stands for the reason on the wire.
    pub open spec fn number(self) -> u8 {
        match self {
            PubRecReason::Success => 0,
            PubRecReason::NoMatchingSubscribers => 16,
            PubRecReason::UnspecifiedError => 128,
            PubRecReason::ImplementationSpecificError => 131,
            PubRecReason::NotAuthorized => 135,
            PubRecReason::TopicNameInvalid => 144,
            PubRecReason::PacketIdentifierInUse => 145,
            PubRecReason::QuotaExceeded => 151,
            PubRecReason::PayloadFormatInvalid => 153,
        }
    }

    /// The reason that a number on the wire stands for.
    pub open spec fn of(num: u8) -> Result<PubRecReason, Error> {
        if num == 0 {
            Ok(PubRecReason::Success)
        } else if num == 16 {
            Ok(PubRecReason::NoMatchingSubscribers)
        } else if num == 128 {
            Ok(PubRecReason::UnspecifiedError)
        } else if num == 131 {
            Ok(PubRecReason::ImplementationSpecificError)
        } else if num == 135 {
            Ok(PubRecReason::NotAuthorized)
        } else if num == 144 {
            Ok(PubRecReason::TopicNameInvalid)
        } else if num == 145 {
            Ok(PubRecReason::PacketIdentifierInUse)
        } else if num == 151 {
            Ok(PubRecReason::QuotaExceeded)
        } else if num == 153 {
            Ok(PubRecReason::PayloadFormatInvalid)
        } else {
            Err(Error::InvalidReason(num))
        }
    }
}

#[derive(Debug, Clone, PartialEq, Eq)]
pub struct PubRecProperties {
    pub reason_string: Option<String>,
    pub user_properties: Vec<(String, String)>,
}

impl View for PubRecProperties {
    type V = Seq<Entry>;

    /// The entries in the order in which they are written by default.
    open spec fn view(&self) -> Seq<Entry> {
        joined(self.fields())
    }
}

impl Default for PubRecProperties {
    fn default() -> (r: Self)
        ensures
            r.reason_string is None,
            r.user_properties@.len() == 0,
    {
        PubRecProperties {
            reason_string: None,
            user_properties: Vec::new(),
        }
    }
}

impl PubRecProperties {
    /// The entries of each field.
    pub open spec fn fields(self) -> Seq<Seq<Entry>> {
        Seq::empty()
            .push(text(31, self.reason_string))
            .push(pairs(self.user_properties@))
    }

    fn len(&self) -> (r: usize)
        requires
            entries_len(self@) <= usize::MAX,
        ensures
            r == entries_len(self@),
    {
        broadcast use {entries_len_add, group_joined};

        let mut len: usize = 0;
        len = len + text_len(31, &self.reason_string);
        len = len + pairs_len(&self.user_properties);
        len
    }

    pub fn read(bytes: &mut Bytes) -> (r: Result<Option<PubRecProperties>, Error>)
        ensures
            match take_properties(Owner::Acknowledgement, octets(*old(bytes))) {
                (Ok(None), rest) => r matches Ok(None) && octets(*final(bytes)) == rest,
                (Ok(Some(es)), rest) => r matches Ok(Some(p)) && p@ == canonical(Owner::Acknowledgement, es)
                    && octets(*final(bytes)) == rest,
                (Err(e), rest) => r == Err::<Option<PubRecProperties>, Error>(e) && octets(
                    *final(bytes),
                ) == rest,
            },
    {
        let mut order: Vec<u8> = Vec::new();
        Self::read_traced(bytes, &mut order)
    }

    pub(crate) fn read_traced(bytes: &mut Bytes, order: &mut Vec<u8>) -> (r: Result<
        Option<PubRecProperties>,
        Error,
    >)
        ensures
            match take_properties(Owner::Acknowledgement, octets(*old(bytes))) {
                (Ok(None), rest) => r matches Ok(None) && octets(*final(bytes)) == rest
                    && final(order)@ == old(order)@,
                (Ok(Some(es)), rest) => r matches Ok(Some(p)) && p@ == canonical(Owner::Acknowledgement, es)
                    && octets(*final(bytes)) == rest && final(order)@ == old(order)@ + ids(es),
                (Err(e), rest) => r == Err::<Option<PubRecProperties>, Error>(e) && octets(
                    *final(bytes),
                ) == rest,
            },
            final(order)@ == old(order)@ + section_ids(Owner::Acknowledgement, octets(*old(bytes))),
    {
        proof {
            reveal(take_properties);
        }
        let section = match read_properties_section(bytes) {
            Ok(section) => section,
            Err(e) => return Err(e),
        };
        if section.is_empty() {
            proof {
                parse_end(Owner::Acknowledgement, octets(section), Seq::empty());
            }
            return Ok(None);
        }
        match Self::read_section(section, order) {
            Ok(props) => Ok(Some(props)),
            Err(e) => Err(e),
        }
    }

    /// Reads the entries of a section that was isolated.
    fn read_section(section: Bytes, order: &mut Vec<u8>) -> (r: Result<PubRecProperties, Error>)
        ensures
            match parse_entries(Owner::Acknowledgement, octets(section), Seq::empty()) {
                Ok(es) => r matches Ok(p) && p@ == canonical(Owner::Acknowledgement, es) && final(order)@
                    == old(order)@ + ids(es),
                Err(e) => r == Err::<PubRecProperties, Error>(e),
            },
            final(order)@ == old(order)@ + noted_ids(Owner::Acknowledgement, octets(section), Seq::empty()),
    {
        let mut rest = section;
        let ghost mut es: Seq<Entry> = Seq::empty();
        let mut props = PubRecProperties::default();
        let mut seen: u64 = 0;
        let mut count: usize = 0;
        proof {
            broadcast use pick_empty;

            tracks_nothing();
            assert(order@ =~= old(order)@ + ids(es));
            assert(pairs(props.user_properties@) =~= Seq::<Entry>::empty());
        }
        while !rest.is_empty()
            invariant
                parse_entries(Owner::Acknowledgement, octets(section), Seq::empty()) == parse_entries(
                    Owner::Acknowledgement,
                    octets(rest),
                    es,
                ),
                noted_ids(Owner::Acknowledgement, octets(section), Seq::empty()) == noted_ids(
                    Owner::Acknowledgement,
                    octets(rest),
                    es,
                ),
                tracks(seen, count, es),
                es.len() <= 1024,
                order@ == old(order)@ + ids(es),
                text(31, props.reason_string) == pick(es, 31),
                pairs(props.user_properties@) == pick(es, 38),
            decreases octets(rest).len(),
        {
            broadcast use {pick_push, group_take_shrinks};

            proof {
                parse_step(Owner::Acknowledgement, octets(rest), es);
            }
            let prop: u8 = match next_property(
                &mut rest,
                Owner::Acknowledgement,
                &mut seen,
                &mut count,
                order,
                Ghost(es),
            ) {
                Ok(prop) => prop,
                Err(e) => return Err(e),
            };
            assert(order@ =~= old(order)@ + ids(es).push(prop));
            let property = match property(prop) {
                Ok(property) => property,
                Err(e) => return Err(e),
            };
            match property {
                PropertyType::ReasonString => {
                    let value = match read_mqtt_string(&mut rest) {
                        Ok(v) => v,
                        Err(e) => return Err(e),
                    };
                    proof {
                        es = es.push((prop, Value::Text(value@)));
                    }
                    props.reason_string = Some(value);
                },
                PropertyType::UserProperty => {
                    let key = match read_mqtt_string(&mut rest) {
                        Ok(v) => v,
                        Err(e) => return Err(e),
                    };
                    let value = match read_mqtt_string(&mut rest) {
                        Ok(v) => v,
                        Err(e) => return Err(e),
                    };
                    proof {
                        pairs_push(props.user_properties@, (key, value));
                        es = es.push((prop, Value::Pair(key@, value@)));
                    }
                    props.user_properties.push((key, value));
                },
                _ => return Err(Error::InvalidPropertyType(prop)),
            }
            assert(order@ =~= old(order)@ + ids(es));
        }
        proof {
            parse_end(Owner::Acknowledgement, octets(rest), es);
            pubrec_properties_are_picked(props, es);
        }
        Ok(props)
    }

    pub fn write(&self, buffer: &mut BytesMut) -> (r: Result<(), Error>)
        requires
            has_room(*old(buffer), section_len(self@) as int),
        ensures
            match writable(self@, None) {
                Some(es) => r is Ok && buffered(*final(buffer)) == buffered(*old(buffer))
                    + section_octets(es),
                None => r == Err::<(), Error>(Error::MalformedPacket) && buffered(*final(buffer))
                    == buffered(*old(buffer)),
            },
    {
        self.write_ordered(buffer, None)
    }

    pub(crate) fn write_ordered(&self, buffer: &mut BytesMut, order: Option<&[u8]>) -> (r: Result<
        (),
        Error,
    >)
        requires
            has_room(*old(buffer), section_len(self@) as int),
        ensures
            match writable(self@, order_of(order)) {
                Some(es) => r is Ok && buffered(*final(buffer)) == buffered(*old(buffer))
                    + section_octets(es),
                None => r == Err::<(), Error>(Error::MalformedPacket) && buffered(*final(buffer))
                    == buffered(*old(buffer)),
            },
    {
        let mut values: Vec<(u8, Property<'_>)> = Vec::new();
        broadcast use group_joined;

        assert(listed(values@) =~= Seq::<Entry>::empty());
        push_text(&mut values, 31, &self.reason_string);
        push_pairs(&mut values, &self.user_properties);
        write_properties(buffer, &values, order)
    }
}

/// Typed pubrec properties whose fields hold the entries that were read, each its own.
proof fn pubrec_properties_are_picked(p: PubRecProperties, es: Seq<Entry>)
    requires
        text(31, p.reason_string) == pick(es, 31),
        pairs(p.user_properties@) == pick(es, 38),
    ensures
        p@ == canonical(Owner::Acknowledgement, es),
{
    let fields = p.fields();
    let keys = table(Owner::Acknowledgement);
    assert(keys.len() == 2);
    assert forall|i: int| 0 <= i < 2 implies #[trigger] fields[i] == pick(es, keys[i]) by {
        if i == 0 {
            assert(fields[0] == text(31, p.reason_string) && keys[0] == 31);
        }
    }
    assert(fields =~= picks(es, keys));
}

/// Each field of typed pubrec properties holds the entries of its own property.
pub proof fn pubrec_properties_have_fields(p: PubRecProperties)
    ensures
        are_fields(Owner::Acknowledgement, p.fields()),
{
    let fields = p.fields();
    let keys = table(Owner::Acknowledgement);
    assert forall|i: int| 0 <= i < keys.len() implies is_field(
        Owner::Acknowledgement,
        #[trigger] keys[i],
        fields[i],
    ) by {
        if i == 0 {
            assert(fields[0] == text(31, p.reason_string) && keys[0] == 31);
        }
    }
}

/// The entries of typed pubrec properties may stand in a section where they can be written, and
/// they stand in the order of the typed fields.
proof fn pubrec_properties_are_valid(p: PubRecProperties)
    requires
        entries_fit(p@),
    ensures
        valid_entries(Owner::Acknowledgement, p@),
        canonical(Owner::Acknowledgement, p@) == p@,
{
    pubrec_properties_have_fields(p);
    fields_are_valid(Owner::Acknowledgement, p.fields());
}

/// The reason that a number on the wire stands for.
fn reason(num: u8) -> (r: Result<PubRecReason, Error>)
    ensures
        r == PubRecReason::of(num),
{
    let code = match num {
        0 => PubRecReason::Success,
        16 => PubRecReason::NoMatchingSubscribers,
        128 => PubRecReason::UnspecifiedError,
        131 => PubRecReason::ImplementationSpecificError,
        135 => PubRecReason::NotAuthorized,
        144 => PubRecReason::TopicNameInvalid,
        145 => PubRecReason::PacketIdentifierInUse,
        151 => PubRecReason::QuotaExceeded,
        153 => PubRecReason::PayloadFormatInvalid,
        num => return Err(Error::InvalidReason(num)),
    };
    Ok(code)
}

/// The number that stands for a reason on the wire.
fn code(reason: PubRecReason) -> (r: u8)
    ensures
        r == reason.number(),
{
    match reason {
        PubRecReason::Success => 0,
        PubRecReason::NoMatchingSubscribers => 16,
        PubRecReason::UnspecifiedError => 128,
        PubRecReason::ImplementationSpecificError => 131,
        PubRecReason::NotAuthorized => 135,
        PubRecReason::TopicNameInvalid => 144,
        PubRecReason::PacketIdentifierInUse => 145,
        PubRecReason::QuotaExceeded => 151,
        PubRecReason::PayloadFormatInvalid => 153,
    }
}

impl From<PubRecReason> for u8 {
    fn from(value: PubRecReason) -> (r: u8) {
        code(value)
    }
}

impl vstd::std_specs::convert::FromSpecImpl<PubRecReason> for u8 {
    open spec fn obeys_from_spec() -> bool {
        true
    }

    open spec fn from_spec(value: PubRecReason) -> u8 {
        value.number()
    }
}

impl TryFrom<u8> for PubRecReason {
    type Error = Error;

    fn try_from(value: u8) -> (r: Result<Self, Self::Error>) {
        reason(value)
    }
}

impl vstd::std_specs::convert::TryFromSpecImpl<u8> for PubRecReason {
    open spec fn obeys_try_from_spec() -> bool {
        true
    }

    open spec fn try_from_spec(value: u8) -> Result<Self, Self::Error> {
        PubRecReason::of(value)
    }
}

/// A pubrec packet that was written is read back: the fields behind the fixed header spell the
/// same packet, with the properties in the order in which they were written.
#[verifier::spinoff_prover]
#[verifier::rlimit(40)]
pub proof fn pubrec_round_trip(pubrec: PubRec, order: Option<Seq<u8>>)
    requires
        pubrec@.encode(order).0 is Ok,
        pubrec.properties matches Some(p) ==> p@.len() > 0,
    ensures
        ({
            let (n, out) = pubrec@.encode(order);
            let body = out.skip(1 + varint_len(pubrec@.len() as int) as int);
            let w = PubRecModel { properties: written(pubrec@.properties, order), ..pubrec@ };
            &&& n == Ok::<usize, Error>(out.len() as usize)
            &&& out.len() == frame_len(pubrec@.len())
            &&& out == seq![0x50u8] + varint(pubrec@.len()) + body
            &&& PubRecModel::decode(body) == Ok::<PubRecModel, Error>(w)
            &&& w.canonical() == pubrec@
            &&& order is Some && pubrec.properties is Some ==> w.order() == order->0
        }),
{
    let m = pubrec@;
    u16_round_trip(m.pkid, Seq::empty());
    if m.is_short() {
        let out = m.encode(order).1;
        assert(varint(2) =~= seq![2u8]);
        assert(out =~= seq![0x50u8] + varint(2) + be16(m.pkid));
        assert(out.skip(2) =~= be16(m.pkid));
        assert(be16(m.pkid) + Seq::<u8>::empty() =~= be16(m.pkid));
    } else {
        if let Some(p) = pubrec.properties {
            pubrec_properties_are_valid(p);
        }
        let rest = seq![m.reason.number()] + writable_section(m.properties, order)->0;
        let head = be16(m.pkid) + seq![m.reason.number()];
        let section = writable_section(m.properties, order)->0;
        written_round_trip(Owner::Acknowledgement, m.properties, order, Seq::empty());
        assert(section + Seq::<u8>::empty() =~= section);
        emitted_fields(0x50u8, m.len(), head, section, Seq::empty());
        u16_round_trip(m.pkid, rest);
        assert(head + section + Seq::<u8>::empty() =~= be16(m.pkid) + rest);
        assert(rest.skip(1) =~= section);
    }
}

} // verus!
