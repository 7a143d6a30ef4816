use bytes::{Buf, Bytes, BytesMut};
use vstd::prelude::*;

use crate::octets::{be16, buffered, fits, has_room, octets, put_u16, put_u8};
use crate::v5::mqttbytes::Error;
use super::frame::{emitted, emitted_fields, frame_len, FixedHeader};
use super::ordered::{listed, order_of, push_pairs, push_text, write_properties, Property};
use super::property::{
    are_fields, canonical, canonical_opt, entries_fit, entries_len, entries_len_add, entries_octets,
    entries_octets_add, entries_octets_len, entry_octets, entry_octets_alone, fields_are_valid,
    group_joined, ids, ids_opt, is_field, joined, next_property, noted_ids, pairs, pairs_len,
    pairs_push, parse_end, parse_entries, parse_step, pick, pick_empty, pick_push, picks,
    properties_len, property, section_ids, section_len, section_octets, table, take_properties,
    text, text_len, tracks, tracks_nothing, valid_entries, writable, writable_has_len,
    writable_section, written, written_round_trip, Entry, Owner, PropertyType, Value,
};
use super::wire::{
    append_assoc, group_take_shrinks, len_len, read_mqtt_string, read_properties_section, read_u16,
    read_u8, take_u16, u16_round_trip, varint, varint_has_len, varint_len, write_mqtt_string,
    write_remaining_length, MAX_VARINT,
};

verus! {

broadcast use super::wire::group_octets_len;

/// Acknowledgement to unsubscribe
#[derive(Debug, Clone, PartialEq, Eq)]
pub struct UnsubAck {
    pub pkid: u16,
    pub reasons: Vec<UnsubAckReason>,
    pub properties: Option<UnsubAckProperties>,
}

/// What an unsuback packet holds. The entries of the properties stand in the order of the wire, or
/// in the order of the typed fields.
#[verifier::ext_equal]
pub struct UnsubAckModel {
    pub pkid: u16,
    pub reasons: Seq<UnsubAckReason>,
    pub properties: Option<Seq<Entry>>,
}

/// The reasons that the octets `s` spell, one each; the error of the first that is none.
pub open spec fn unsuback_reasons(s: Seq<u8>) -> Result<Seq<UnsubAckReason>, Error>
    decreases s.len(),
{
    if s.len() == 0 {
        Ok(Seq::empty())
    } else {
        match UnsubAckReason::of(s[0]) {
            Err(e) => Err(e),
            Ok(r) => match unsuback_reasons(s.skip(1)) {
                Err(e) => Err(e),
                Ok(tail) => Ok(seq![r] + tail),
            },
        }
    }
}

/// The octets of reasons, one each.
pub open spec fn unsuback_codes(reasons: Seq<UnsubAckReason>) -> Seq<u8> {
    Seq::new(reasons.len(), |i: int| reasons[i].number())
}

impl UnsubAckModel {
    /// The length of the fields behind the fixed header.
    pub open spec fn len(self) -> nat {
        2 + self.reasons.len() + properties_len(self.properties)
    }

    /// The packet that the octets behind a fixed header spell. There is one reason at least.
    pub open spec fn decode(body: Seq<u8>) -> Result<UnsubAckModel, Error> {
        match take_u16(body) {
            (Err(e), _) => Err(e),
            (Ok(pkid), rest) => match take_properties(Owner::Acknowledgement, rest) {
                (Err(e), _) => Err(e),
                (Ok(properties), rest) => if rest.len() == 0 {
                    Err(Error::MalformedPacket)
                } else {
                    match unsuback_reasons(rest) {
                        Err(e) => Err(e),
                        Ok(reasons) => Ok(UnsubAckModel { pkid, reasons, properties }),
                    }
                },
            },
        }
    }

    /// The identifiers of properties that a reader of the octets behind the fixed header has noted
    /// when it ends or stops.
    pub open spec fn noted(body: Seq<u8>) -> Seq<u8> {
        match take_u16(body) {
            (Ok(_), rest) => section_ids(Owner::Acknowledgement, rest),
            (Err(_), _) => Seq::empty(),
        }
    }

    /// The property section that is written; `None` where it cannot be written. Properties
    /// whose order is not asked for are written as they are.
    pub open spec fn section(self, order: Option<Seq<u8>>) -> Option<Seq<u8>> {
        match (self.properties, order) {
            (Some(es), None) => Some(section_octets(es)),
            _ => writable_section(self.properties, order),
        }
    }

    /// What a writer of the packet returns and appends.
    pub open spec fn encode(self, order: Option<Seq<u8>>) -> (Result<usize, Error>, Seq<u8>) {
        emitted(
            0xB0u8,
            self.len(),
            be16(self.pkid),
            self.section(order),
            unsuback_codes(self.reasons),
        )
    }

    /// The packet with the entries in the order of the typed fields.
    pub open spec fn canonical(self) -> UnsubAckModel {
        UnsubAckModel { properties: canonical_opt(Owner::Acknowledgement, self.properties), ..self }
    }

    /// The identifiers of the properties, in order.
    pub open spec fn order(self) -> Seq<u8> {
        ids_opt(self.properties)
    }
}

impl View for UnsubAck {
    type V = UnsubAckModel;

    open spec fn view(&self) -> UnsubAckModel {
        UnsubAckModel {
            pkid: self.pkid,
            reasons: self.reasons@,
            properties: match self.properties {
                Some(p) => Some(p@),
                None => None,
            },
        }
    }
}

impl UnsubAck {
    fn len(&self) -> (r: usize)
        requires
            self@.len() <= usize::MAX,
        ensures
            r == self@.len(),
    {
        let mut len: usize = 2 + self.reasons.len();
        if let Some(p) = &self.properties {
            let properties_len: usize = p.len();
            let properties_len_len: usize = len_len(properties_len);
            len = len + properties_len_len + properties_len;
        } else {
            // just 1 byte representing 0 len
            len = len + 1;
        }
        len
    }

    pub fn size(&self) -> (r: usize)
        requires
            frame_len(self@.len()) <= usize::MAX,
        ensures
            r == frame_len(self@.len()),
    {
        let len: usize = self.len();
        let remaining_len_size: usize = len_len(len);
        1 + remaining_len_size + len
    }

    pub fn read(fixed_header: FixedHeader, bytes: Bytes) -> (r: Result<UnsubAck, Error>)
        requires
            fixed_header.fixed_header_len <= octets(bytes).len(),
        ensures
            match UnsubAckModel::decode(octets(bytes).skip(fixed_header.fixed_header_len as int)) {
                Ok(w) => r matches Ok(a) && a@ == w.canonical(),
                Err(e) => r == Err::<UnsubAck, Error>(e),
            },
    {
        let mut order: Vec<u8> = Vec::new();
        Self::read_traced(fixed_header, bytes, &mut order)
    }

    pub(crate) fn read_traced(
        fixed_header: FixedHeader,
        bytes: Bytes,
        order: &mut Vec<u8>,
    ) -> (r: Result<UnsubAck, Error>)
        requires
            fixed_header.fixed_header_len <= octets(bytes).len(),
        ensures
            match UnsubAckModel::decode(octets(bytes).skip(fixed_header.fixed_header_len as int)) {
                Ok(w) => r matches Ok(a) && a@ == w.canonical() && final(order)@ == old(order)@
                    + w.order(),
                Err(e) => r == Err::<UnsubAck, Error>(e),
            },
            final(order)@ == old(order)@ + UnsubAckModel::noted(
                octets(bytes).skip(fixed_header.fixed_header_len as int),
            ),
    {
        let mut bytes = bytes;
        let variable_header_index: usize = fixed_header.fixed_header_len;
        bytes.advance(variable_header_index);
        assert(order@ =~= old(order)@ + Seq::<u8>::empty());
        let pkid: u16 = match read_u16(&mut bytes) {
            Ok(v) => v,
            Err(e) => return Err(e),
        };
        let properties = match UnsubAckProperties::read_traced(&mut bytes, order) {
            Ok(v) => v,
            Err(e) => return Err(e),
        };
        if bytes.is_empty() {
            return Err(Error::MalformedPacket);
        }
        match read_reasons(bytes) {
            Ok(reasons) => Ok(UnsubAck { pkid, reasons, properties }),
            Err(e) => Err(e),
        }
    }

    pub fn write(&self, buffer: &mut BytesMut) -> (r: Result<usize, Error>)
        requires
            has_room(*old(buffer), frame_len(self@.len()) as int),
        ensures
            r == self@.encode(None).0,
            buffered(*final(buffer)) == buffered(*old(buffer)) + self@.encode(None).1,
    {
        self.write_ordered(buffer, None)
    }

    pub(crate) fn write_ordered(&self, buffer: &mut BytesMut, order: Option<&[u8]>) -> (r: Result<
        usize,
        Error,
    >)
        requires
            has_room(*old(buffer), frame_len(self@.len()) as int),
        ensures
            r == self@.encode(order_of(order)).0,
            buffered(*final(buffer)) == buffered(*old(buffer)) + self@.encode(order_of(order)).1,
    {
        let ghost start = buffered(*buffer);
        put_u8(buffer, 0xB0);
        assert(buffered(*buffer) =~= start + seq![0xB0u8]);
        let remaining_len: usize = self.len();
        let remaining_len_bytes: usize = match write_remaining_length(buffer, remaining_len) {
            Ok(count) => count,
            Err(e) => return Err(e),
        };
        put_u16(buffer, self.pkid);
        let ghost head = seq![0xB0u8] + varint(remaining_len as nat) + be16(self.pkid);
        assert(buffered(*buffer) =~= start + head);
        if let Some(p) = &self.properties {
            let written = match order {
                Some(_) => p.write_ordered(buffer, order),
                None => p.write(buffer),
            };
            if let Err(e) = written {
                return Err(e);
            }
        } else {
            if let Err(e) = write_remaining_length(buffer, 0) {
                return Err(e);
            }
            assert(varint(0) =~= seq![0u8]);
        }
        let ghost section = self@.section(order_of(order))->0;
        proof {
            if let Some(es) = self@.properties {
                section_has_len(self.properties->0, order_of(order));
            }
        }
        let codes: Vec<u8> = codes_of(&self.reasons);
        buffer.extend_from_slice(codes.as_slice());
        assert(buffered(*buffer) == start + (head + section + codes@)) by {
            broadcast use append_assoc;
        }
        Ok(1 + remaining_len_bytes + remaining_len)
    }
}

/// Reads the reasons, one each, up to the end.
#[verifier::loop_isolation(false)]
fn read_reasons(bytes: Bytes) -> (r: Result<Vec<UnsubAckReason>, Error>)
    ensures
        match unsuback_reasons(octets(bytes)) {
            Ok(reasons) => r matches Ok(v) && v@ == reasons,
            Err(e) => r == Err::<Vec<UnsubAckReason>, Error>(e),
        },
{
    let ghost total = unsuback_reasons(octets(bytes));
    let mut bytes = bytes;
    let mut reasons: Vec<UnsubAckReason> = Vec::new();
    proof {
        if let Ok(tail) = total {
            assert(Seq::<UnsubAckReason>::empty() + tail =~= tail);
        }
    }
    while !bytes.is_empty()
        invariant
            total == match unsuback_reasons(octets(bytes)) {
                Ok(tail) => Ok::<Seq<UnsubAckReason>, Error>(reasons@ + tail),
                Err(e) => Err(e),
            },
        decreases octets(bytes).len(),
    {
        let num: u8 = match read_u8(&mut bytes) {
            Ok(v) => v,
            Err(e) => return Err(e),
        };
        let reason = match reason(num) {
            Ok(v) => v,
            Err(e) => return Err(e),
        };
        proof {
            if let Ok(tail) = unsuback_reasons(octets(bytes)) {
                assert(reasons@ + (seq![reason] + tail) =~= reasons@.push(reason) + tail);
            }
        }
        reasons.push(reason);
    }
    assert(reasons@ + Seq::<UnsubAckReason>::empty() =~= reasons@);
    Ok(reasons)
}

/// The octets of the reasons, one each.
fn codes_of(reasons: &Vec<UnsubAckReason>) -> (r: Vec<u8>)
    ensures
        r@ == unsuback_codes(reasons@),
{
    let mut codes: Vec<u8> = Vec::new();
    let mut i: usize = 0;
    while i < reasons.len()
        invariant
            i <= reasons@.len(),
            codes@.len() == i,
            forall|j: int| 0 <= j < i ==> codes@[j] == reasons@[j].number(),
        decreases reasons@.len() - i,
    {
        codes.push(code(reasons[i]));
        i = i + 1;
    }
    assert(codes@ =~= unsuback_codes(reasons@));
    codes
}

/// Appends the entries of user properties.
fn write_pairs(buffer: &mut BytesMut, properties: &Vec<(String, String)>)
    requires
        has_room(*old(buffer), entries_octets(pairs(properties@)).len() as int),
    ensures
        buffered(*final(buffer)) == buffered(*old(buffer)) + entries_octets(pairs(properties@)),
{
    let ghost start = buffered(*buffer);
    let ghost all = pairs(properties@);
    let mut i: usize = 0;
    assert(all.take(0) =~= Seq::<Entry>::empty());
    assert(start + Seq::<u8>::empty() =~= start);
    while i < properties.len()
        invariant
            i <= properties@.len(),
            all == pairs(properties@),
            fits((start.len() + entries_octets(all).len()) as int),
            buffered(*buffer) == start + entries_octets(all.take(i as int)),
        decreases properties@.len() - i,
    {
        let ghost before = buffered(*buffer);
        let ghost e = all[i as int];
        proof {
            assert(all.take(i + 1).drop_last() =~= all.take(i as int));
            assert(all =~= all.take(i + 1) + all.skip(i + 1));
            entries_octets_add(all.take(i + 1), all.skip(i + 1));
        }
        put_u8(buffer, 38);
        write_mqtt_string(buffer, properties[i].0.as_str());
        write_mqtt_string(buffer, properties[i].1.as_str());
        assert(buffered(*buffer) =~= before + entry_octets(e));
        assert(before + entry_octets(e) =~= start + (entries_octets(all.take(i as int))
            + entry_octets(e)));
        i = i + 1;
    }
    assert(all.take(i as int) =~= all);
}

/// A section takes as many octets as were computed for its entries.
proof fn section_has_len(p: UnsubAckProperties, order: Option<Seq<u8>>)
    requires
        order is None ==> entries_len(p@) <= MAX_VARINT,
        order is Some ==> writable(p@, order) is Some,
    ensures
        order is None ==> section_octets(p@).len() == section_len(p@),
        order is Some ==> section_octets(writable(p@, order)->0).len() == section_len(p@),
{
    broadcast use group_joined;

    if order is None {
        assert(p@ =~= text(31, p.reason_string) + pairs(p.user_properties@));
        entries_octets_len(p@);
        varint_has_len(entries_len(p@));
    } else {
        writable_has_len(p@, order);
    }
}

/// Answer to one filter of an unsubscribe packet
#[derive(Debug, Clone, Copy, PartialEq, Eq, Structural)]
pub enum UnsubAckReason {
    Success,
    NoSubscriptionExisted,
    UnspecifiedError,
    ImplementationSpecificError,
    NotAuthorized,
    TopicFilterInvalid,
    PacketIdentifierInUse,
}

impl UnsubAckReason {
    /// The number that stands for the reason on the wire.
    pub open spec fn number(self) -> u8 {
        match self {
            UnsubAckReason::Success => 0x00,
            UnsubAckReason::NoSubscriptionExisted => 0x11,
            UnsubAckReason::UnspecifiedError => 0x80,
            UnsubAckReason::ImplementationSpecificError => 0x83,
            UnsubAckReason::NotAuthorized => 0x87,
            UnsubAckReason::TopicFilterInvalid => 0x8F,
            UnsubAckReason::PacketIdentifierInUse => 0x91,
        }
    }

    /// The reason that a number on the wire stands for.
    pub open spec fn of(num: u8) -> Result<UnsubAckReason, Error> {
        if num == 0x00 {
            Ok(UnsubAckReason::Success)
        } else if num == 0x11 {
            Ok(UnsubAckReason::NoSubscriptionExisted)
        } else if num == 0x80 {
            Ok(UnsubAckReason::UnspecifiedError)
        } else if num == 0x83 {
            Ok(UnsubAckReason::ImplementationSpecificError)
        } else if num == 0x87 {
            Ok(UnsubAckReason::NotAuthorized)
        } else if num == 0x8F {
            Ok(UnsubAckReason::TopicFilterInvalid)
        } else if num == 0x91 {
            Ok(UnsubAckReason::PacketIdentifierInUse)
        } else {
            Err(Error::InvalidSubscribeReasonCode(num))
        }
    }
}

#[derive(Debug, Clone, PartialEq, Eq)]
pub struct UnsubAckProperties {
    pub reason_string: Option<String>,
    pub user_properties: Vec<(String, String)>,
}

impl View for UnsubAckProperties {
    type V = Seq<Entry>;

    /// The entries in the order in which they are written by default.
    open spec fn view(&self) -> Seq<Entry> {
        joined(self.fields())
    }
}

impl Default for UnsubAckProperties {
    fn default() -> (r: Self)
        ensures
            r.reason_string is None,
            r.user_properties@.len() == 0,
    {
        UnsubAckProperties {
            reason_string: None,
            user_properties: Vec::new(),
        }
    }
}

impl UnsubAckProperties {
    /// The entries of each field.
    pub open spec fn fields(self) -> Seq<Seq<Entry>> {
        Seq::empty()
            .push(text(31, self.reason_string))
            .push(pairs(self.user_properties@))
    }

    fn len(&self) -> (r: usize)
        requires
            entries_len(self@) <= usize::MAX,
        ensures
            r == entries_len(self@),
    {
        broadcast use {entries_len_add, group_joined};

        let mut len: usize = 0;
        len = len + text_len(31, &self.reason_string);
        len = len + pairs_len(&self.user_properties);
        len
    }

    pub fn read(bytes: &mut Bytes) -> (r: Result<Option<UnsubAckProperties>, Error>)
        ensures
            match take_properties(Owner::Acknowledgement, octets(*old(bytes))) {
                (Ok(None), rest) => r matches Ok(None) && octets(*final(bytes)) == rest,
                (Ok(Some(es)), rest) => r matches Ok(Some(p)) && p@ == canonical(Owner::Acknowledgement, es)
                    && octets(*final(bytes)) == rest,
                (Err(e), rest) => r == Err::<Option<UnsubAckProperties>, Error>(e) && octets(
                    *final(bytes),
                ) == rest,
            },
    {
        let mut order: Vec<u8> = Vec::new();
        Self::read_traced(bytes, &mut order)
    }

    pub(crate) fn read_traced(bytes: &mut Bytes, order: &mut Vec<u8>) -> (r: Result<
        Option<UnsubAckProperties>,
        Error,
    >)
        ensures
            match take_properties(Owner::Acknowledgement, octets(*old(bytes))) {
                (Ok(None), rest) => r matches Ok(None) && octets(*final(bytes)) == rest
                    && final(order)@ == old(order)@,
                (Ok(Some(es)), rest) => r matches Ok(Some(p)) && p@ == canonical(Owner::Acknowledgement, es)
                    && octets(*final(bytes)) == rest && final(order)@ == old(order)@ + ids(es),
                (Err(e), rest) => r == Err::<Option<UnsubAckProperties>, Error>(e) && octets(
                    *final(bytes),
                ) == rest,
            },
            final(order)@ == old(order)@ + section_ids(Owner::Acknowledgement, octets(*old(bytes))),
    {
        proof {
            reveal(take_properties);
        }
        let section = match read_properties_section(bytes) {
            Ok(section) => section,
            Err(e) => return Err(e),
        };
        if section.is_empty() {
            proof {
                parse_end(Owner::Acknowledgement, octets(section), Seq::empty());
            }
            return Ok(None);
        }
        match Self::read_section(section, order) {
            Ok(props) => Ok(Some(props)),
            Err(e) => Err(e),
        }
    }

    /// Reads the entries of a section that was isolated.
    fn read_section(section: Bytes, order: &mut Vec<u8>) -> (r: Result<UnsubAckProperties, Error>)
        ensures
            match parse_entries(Owner::Acknowledgement, octets(section), Seq::empty()) {
                Ok(es) => r matches Ok(p) && p@ == canonical(Owner::Acknowledgement, es) && final(order)@
                    == old(order)@ + ids(es),
                Err(e) => r == Err::<UnsubAckProperties, Error>(e),
            },
            final(order)@ == old(order)@ + noted_ids(Owner::Acknowledgement, octets(section), Seq::empty()),
    {
        let mut rest = section;
        let ghost mut es: Seq<Entry> = Seq::empty();
        let mut props = UnsubAckProperties::default();
        let mut seen: u64 = 0;
        let mut count: usize = 0;
        proof {
            broadcast use pick_empty;

            tracks_nothing();
            assert(order@ =~= old(order)@ + ids(es));
            assert(pairs(props.user_properties@) =~= Seq::<Entry>::empty());
        }
        while !rest.is_empty()
            invariant
                parse_entries(Owner::Acknowledgement, octets(section), Seq::empty()) == parse_entries(
                    Owner::Acknowledgement,
                    octets(rest),
                    es,
                ),
                noted_ids(Owner::Acknowledgement, octets(section), Seq::empty()) == noted_ids(
                    Owner::Acknowledgement,
                    octets(rest),
                    es,
                ),
                tracks(seen, count, es),
                es.len() <= 1024,
                order@ == old(order)@ + ids(es),
                text(31, props.reason_string) == pick(es, 31),
                pairs(props.user_properties@) == pick(es, 38),
            decreases octets(rest).len(),
        {
            broadcast use {pick_push, group_take_shrinks};

            proof {
                parse_step(Owner::Acknowledgement, octets(rest), es);
            }
            let prop: u8 = match next_property(
                &mut rest,
                Owner::Acknowledgement,
                &mut seen,
                &mut count,
                order,
                Ghost(es),
            ) {
                Ok(prop) => prop,
                Err(e) => return Err(e),
            };
            assert(order@ =~= old(order)@ + ids(es).push(prop));
            let property = match property(prop) {
                Ok(property) => property,
                Err(e) => return Err(e),
            };
            match property {
                PropertyType::ReasonString => {
                    let value = match read_mqtt_string(&mut rest) {
                        Ok(v) => v,
                        Err(e) => return Err(e),
                    };
                    proof {
                        es = es.push((prop, Value::Text(value@)));
                    }
                    props.reason_string = Some(value);
                },
                PropertyType::UserProperty => {
                    let key = match read_mqtt_string(&mut rest) {
                        Ok(v) => v,
                        Err(e) => return Err(e),
                    };
                    let value = match read_mqtt_string(&mut rest) {
                        Ok(v) => v,
                        Err(e) => return Err(e),
                    };
                    proof {
                        pairs_push(props.user_properties@, (key, value));
                        es = es.push((prop, Value::Pair(key@, value@)));
                    }
                    props.user_properties.push((key, value));
                },
                _ => return Err(Error::InvalidPropertyType(prop)),
            }
            assert(order@ =~= old(order)@ + ids(es));
        }
        proof {
            parse_end(Owner::Acknowledgement, octets(rest), es);
            unsuback_properties_are_picked(props, es);
        }
        Ok(props)
    }

    pub fn write(&self, buffer: &mut BytesMut) -> (r: Result<(), Error>)
        requires
            has_room(*old(buffer), section_len(self@) as int),
        ensures
            if entries_len(self@) > MAX_VARINT {
                r == Err::<(), Error>(Error::PayloadTooLong) && buffered(*final(buffer)) == buffered(
                    *old(buffer),
                )
            } else {
                r is Ok && buffered(*final(buffer)) == buffered(*old(buffer)) + section_octets(
                    self@,
                )
            },
    {
        broadcast use {entries_len_add, group_joined};

        let ghost start = buffered(*buffer);
        let len: usize = self.len();
        if let Err(e) = write_remaining_length(buffer, len) {
            return Err(e);
        }
        let ghost head = buffered(*buffer);
        let ghost first = text(31, self.reason_string);
        let ghost second = pairs(self.user_properties@);
        assert(self@ =~= first + second);
        if let Some(reason) = &self.reason_string {
            proof {
                entry_octets_alone(first[0]);
                assert(first =~= seq![first[0]]);
                entries_octets_len(first);
            }
            put_u8(buffer, 31);
            write_mqtt_string(buffer, reason.as_str());
            assert(buffered(*buffer) =~= head + entries_octets(first));
        } else {
            assert(buffered(*buffer) =~= head + entries_octets(first));
        }
        proof {
            entries_octets_len(first);
            entries_octets_len(second);
            entries_octets_add(first, second);
        }
        write_pairs(buffer, &self.user_properties);
        assert(buffered(*buffer) =~= start + section_octets(self@));
        Ok(())
    }

    pub(crate) fn write_ordered(&self, buffer: &mut BytesMut, order: Option<&[u8]>) -> (r: Result<
        (),
        Error,
    >)
        requires
            has_room(*old(buffer), section_len(self@) as int),
        ensures
            match writable(self@, order_of(order)) {
                Some(es) => r is Ok && buffered(*final(buffer)) == buffered(*old(buffer))
                    + section_octets(es),
                None => r == Err::<(), Error>(Error::MalformedPacket) && buffered(*final(buffer))
                    == buffered(*old(buffer)),
            },
    {
        let mut values: Vec<(u8, Property<'_>)> = Vec::new();
        broadcast use group_joined;

        assert(listed(values@) =~= Seq::<Entry>::empty());
        push_text(&mut values, 31, &self.reason_string);
        push_pairs(&mut values, &self.user_properties);
        write_properties(buffer, &values, order)
    }
}

/// Typed unsuback properties whose fields hold the entries that were read, each its own.
proof fn unsuback_properties_are_picked(p: UnsubAckProperties, es: Seq<Entry>)
    requires
        text(31, p.reason_string) == pick(es, 31),
        pairs(p.user_properties@) == pick(es, 38),
    ensures
        p@ == canonical(Owner::Acknowledgement, es),
{
    let fields = p.fields();
    let keys = table(Owner::Acknowledgement);
    assert(keys.len() == 2);
    assert forall|i: int| 0 <= i < 2 implies #[trigger] fields[i] == pick(es, keys[i]) by {
        if i == 0 {
            assert(fields[0] == text(31, p.reason_string) && keys[0] == 31);
        }
    }
    assert(fields =~= picks(es, keys));
}

/// Each field of typed unsuback properties holds the entries of its own property.
pub proof fn unsuback_properties_have_fields(p: UnsubAckProperties)
    ensures
        are_fields(Owner::Acknowledgement, p.fields()),
{
    let fields = p.fields();
    let keys = table(Owner::Acknowledgement);
    assert forall|i: int| 0 <= i < keys.len() implies is_field(
        Owner::Acknowledgement,
        #[trigger] keys[i],
        fields[i],
    ) by {
        if i == 0 {
            assert(fields[0] == text(31, p.reason_string) && keys[0] == 31);
        }
    }
}

/// The entries of typed unsuback properties may stand in a section where they can be written, and
/// they stand in the order of the typed fields.
proof fn unsuback_properties_are_valid(p: UnsubAckProperties)
    requires
        entries_fit(p@),
    ensures
        valid_entries(Owner::Acknowledgement, p@),
        canonical(Owner::Acknowledgement, p@) == p@,
{
    unsuback_properties_have_fields(p);
    fields_are_valid(Owner::Acknowledgement, p.fields());
}

/// The reason that a number on the wire stands for.
pub fn reason(num: u8) -> (r: Result<UnsubAckReason, Error>)
    ensures
        r == UnsubAckReason::of(num),
{
    let code = match num {
        0x00 => UnsubAckReason::Success,
        0x11 => UnsubAckReason::NoSubscriptionExisted,
        0x80 => UnsubAckReason::UnspecifiedError,
        0x83 => UnsubAckReason::ImplementationSpecificError,
        0x87 => UnsubAckReason::NotAuthorized,
        0x8F => UnsubAckReason::TopicFilterInvalid,
        0x91 => UnsubAckReason::PacketIdentifierInUse,
        num => return Err(Error::InvalidSubscribeReasonCode(num)),
    };
    Ok(code)
}

/// The number that stands for a reason on the wire.
pub fn code(reason: UnsubAckReason) -> (r: u8)
    ensures
        r == reason.number(),
{
    match reason {
        UnsubAckReason::Success => 0x00,
        UnsubAckReason::NoSubscriptionExisted => 0x11,
        UnsubAckReason::UnspecifiedError => 0x80,
        UnsubAckReason::ImplementationSpecificError => 0x83,
        UnsubAckReason::NotAuthorized => 0x87,
        UnsubAckReason::TopicFilterInvalid => 0x8F,
        UnsubAckReason::PacketIdentifierInUse => 0x91,
    }
}

impl From<UnsubAckReason> for u8 {
    fn from(value: UnsubAckReason) -> (r: u8) {
        code(value)
    }
}

impl vstd::std_specs::convert::FromSpecImpl<UnsubAckReason> for u8 {
    open spec fn obeys_from_spec() -> bool {
        true
    }

    open spec fn from_spec(value: UnsubAckReason) -> u8 {
        value.number()
    }
}

impl TryFrom<u8> for UnsubAckReason {
    type Error = Error;

    fn try_from(value: u8) -> (r: Result<Self, Self::Error>) {
        reason(value)
    }
}

impl vstd::std_specs::convert::TryFromSpecImpl<u8> for UnsubAckReason {
    open spec fn obeys_try_from_spec() -> bool {
        true
    }

    open spec fn try_from_spec(value: u8) -> Result<Self, Self::Error> {
        UnsubAckReason::of(value)
    }
}

/// A number stands for a reason where it is one of seven, and the reason has that number; any
/// other is refused. Every reason is read back from its number.
pub proof fn reasons_round_trip(num: u8, reason: UnsubAckReason)
    ensures
        UnsubAckReason::of(num) is Ok <==> num == 0 || num == 0x11 || num == 0x80 || num == 0x83
            || num == 0x87 || num == 0x8F || num == 0x91,
        UnsubAckReason::of(num) matches Ok(r) ==> r.number() == num,
        UnsubAckReason::of(num) is Err ==> UnsubAckReason::of(num) == Err::<UnsubAckReason, Error>(
            Error::InvalidSubscribeReasonCode(num),
        ),
        UnsubAckReason::of(reason.number()) == Ok::<UnsubAckReason, Error>(reason),
{
}

/// An unsuback packet that was written is read back: the fields behind the fixed header spell the
/// same packet, with the properties in the order in which they were written.
#[verifier::spinoff_prover]
#[verifier::rlimit(40)]
pub proof fn unsuback_round_trip(unsuback: UnsubAck, order: Option<Seq<u8>>)
    requires
        unsuback@.encode(order).0 is Ok,
        unsuback.properties matches Some(p) ==> p@.len() > 0,
        unsuback.reasons@.len() > 0,
        unsuback.properties matches Some(p) ==> entries_fit(p@),
    ensures
        ({
            let (n, out) = unsuback@.encode(order);
            let body = out.skip(1 + varint_len(unsuback@.len() as int) as int);
            let w = UnsubAckModel { properties: written(unsuback@.properties, order), ..unsuback@ };
            &&& n == Ok::<usize, Error>(out.len() as usize)
            &&& out.len() == frame_len(unsuback@.len())
            &&& out == seq![0xB0u8] + varint(unsuback@.len()) + body
            &&& UnsubAckModel::decode(body) == Ok::<UnsubAckModel, Error>(w)
            &&& w.canonical() == unsuback@
            &&& order is Some && unsuback.properties is Some ==> w.order() == order->0
        }),
{
    let m = unsuback@;
    if let Some(p) = unsuback.properties {
        unsuback_properties_are_valid(p);
    }
    let section = writable_section(m.properties, order)->0;
    let codes = unsuback_codes(m.reasons);
    written_round_trip(Owner::Acknowledgement, m.properties, order, codes);
    emitted_fields(0xB0u8, m.len(), be16(m.pkid), section, codes);
    u16_round_trip(m.pkid, section + codes);
    assert(be16(m.pkid) + section + codes == be16(m.pkid) + (section + codes)) by {
        broadcast use append_assoc;
    }
    unsuback_codes_round_trip(m.reasons);
}

/// Reasons are read back from their octets.
pub proof fn unsuback_codes_round_trip(reasons: Seq<UnsubAckReason>)
    ensures
        unsuback_reasons(unsuback_codes(reasons)) == Ok::<Seq<UnsubAckReason>, Error>(reasons),
    decreases reasons.len(),
{
    let s = unsuback_codes(reasons);
    if reasons.len() == 0 {
        assert(reasons =~= Seq::<UnsubAckReason>::empty());
    } else {
        let tail = reasons.skip(1);
        unsuback_codes_round_trip(tail);
        assert(s.skip(1) =~= unsuback_codes(tail));
        assert(seq![reasons[0]] + tail =~= reasons);
        assert(s[0] == reasons[0].number());
    }
}

} // verus!
