use bytes::{Buf, Bytes, BytesMut};
use vstd::prelude::*;

use crate::octets::{be16, buffered, has_room, octets, put_u16, put_u8};
use crate::v5::mqttbytes::{qos_code, qos_number, qos_of, Error, QoS};
use super::frame::{emitted, emitted_fields, frame_len, FixedHeader};
use super::ordered::{listed, order_of, push_pairs, push_text, write_properties, Property};
use super::property::{
    are_fields, canonical, canonical_opt, entries_fit, entries_len, entries_len_add,
    fields_are_valid, group_joined, ids, ids_opt, is_field, joined, next_property, noted_ids, pairs,
    pairs_len, pairs_push, parse_end, parse_entries, parse_step, pick, pick_empty, pick_push, picks,
    properties_len, property, section_ids, section_len, section_octets, table, take_properties,
    text, text_len, tracks, tracks_nothing, valid_entries, writable, writable_has_len,
    writable_section, written, written_round_trip, Entry, Owner, PropertyType, Value,
};
use super::wire::{
    append_assoc, group_take_shrinks, len_len, read_mqtt_string, read_properties_section, read_u16,
    read_u8, take_u16, u16_round_trip, varint, varint_len, write_remaining_length,
};

verus! {

broadcast use super::wire::group_octets_len;

/// Acknowledgement to subscribe
#[derive(Debug, Clone, PartialEq, Eq)]
pub struct SubAck {
    pub pkid: u16,
    pub return_codes: Vec<SubscribeReasonCode>,
    pub properties: Option<SubAckProperties>,
}

/// What a suback packet holds. The entries of the properties stand in the order of the wire, or
/// in the order of the typed fields.
#[verifier::ext_equal]
pub struct SubAckModel {
    pub pkid: u16,
    pub return_codes: Seq<SubscribeReasonCode>,
    pub properties: Option<Seq<Entry>>,
}

/// The reasons that the octets `s` spell, one each; the error of the first that is none.
pub open spec fn suback_reasons(s: Seq<u8>) -> Result<Seq<SubscribeReasonCode>, Error>
    decreases s.len(),
{
    if s.len() == 0 {
        Ok(Seq::empty())
    } else {
        match SubscribeReasonCode::of(s[0]) {
            Err(e) => Err(e),
            Ok(r) => match suback_reasons(s.skip(1)) {
                Err(e) => Err(e),
                Ok(tail) => Ok(seq![r] + tail),
            },
        }
    }
}

/// The octets of reasons, one each.
pub open spec fn suback_codes(reasons: Seq<SubscribeReasonCode>) -> Seq<u8> {
    Seq::new(reasons.len(), |i: int| reasons[i].number())
}

impl SubAckModel {
    /// The length of the fields behind the fixed header.
    pub open spec fn len(self) -> nat {
        2 + self.return_codes.len() + properties_len(self.properties)
    }

    /// The packet that the octets behind a fixed header spell. There is one reason at least.
    pub open spec fn decode(body: Seq<u8>) -> Result<SubAckModel, Error> {
        match take_u16(body) {
            (Err(e), _) => Err(e),
            (Ok(pkid), rest) => match take_properties(Owner::Acknowledgement, rest) {
                (Err(e), _) => Err(e),
                (Ok(properties), rest) => if rest.len() == 0 {
                    Err(Error::MalformedPacket)
                } else {
                    match suback_reasons(rest) {
                        Err(e) => Err(e),
                        Ok(return_codes) => Ok(SubAckModel { pkid, return_codes, properties }),
                    }
                },
            },
        }
    }

    /// The identifiers of properties that a reader of the octets behind the fixed header has noted
    /// when it ends or stops.
    pub open spec fn noted(body: Seq<u8>) -> Seq<u8> {
        match take_u16(body) {
            (Ok(_), rest) => section_ids(Owner::Acknowledgement, rest),
            (Err(_), _) => Seq::empty(),
        }
    }

    /// What a writer of the packet returns and appends.
    pub open spec fn encode(self, order: Option<Seq<u8>>) -> (Result<usize, Error>, Seq<u8>) {
        emitted(
            0x90u8,
            self.len(),
            be16(self.pkid),
            writable_section(self.properties, order),
            suback_codes(self.return_codes),
        )
    }

    /// The packet with the entries in the order of the typed fields.
    pub open spec fn canonical(self) -> SubAckModel {
        SubAckModel { properties: canonical_opt(Owner::Acknowledgement, self.properties), ..self }
    }

    /// The identifiers of the properties, in order.
    pub open spec fn order(self) -> Seq<u8> {
        ids_opt(self.properties)
    }
}

impl View for SubAck {
    type V = SubAckModel;

    open spec fn view(&self) -> SubAckModel {
        SubAckModel {
            pkid: self.pkid,
            return_codes: self.return_codes@,
            properties: match self.properties {
                Some(p) => Some(p@),
                None => None,
            },
        }
    }
}

impl SubAck {
    fn len(&self) -> (r: usize)
        requires
            self@.len() <= usize::MAX,
        ensures
            r == self@.len(),
    {
        let mut len: usize = 2 + self.return_codes.len();
        if let Some(p) = &self.properties {
            let properties_len: usize = p.len();
            let properties_len_len: usize = len_len(properties_len);
            len = len + properties_len_len + properties_len;
        } else {
            // just 1 byte representing 0 len
            len = len + 1;
        }
        len
    }

    pub fn size(&self) -> (r: usize)
        requires
            frame_len(self@.len()) <= usize::MAX,
        ensures
            r == frame_len(self@.len()),
    {
        let len: usize = self.len();
        let remaining_len_size: usize = len_len(len);
        1 + remaining_len_size + len
    }

    pub fn read(fixed_header: FixedHeader, bytes: Bytes) -> (r: Result<SubAck, Error>)
        requires
            fixed_header.fixed_header_len <= octets(bytes).len(),
        ensures
            match SubAckModel::decode(octets(bytes).skip(fixed_header.fixed_header_len as int)) {
                Ok(w) => r matches Ok(a) && a@ == w.canonical(),
                Err(e) => r == Err::<SubAck, Error>(e),
            },
    {
        let mut order: Vec<u8> = Vec::new();
        Self::read_traced(fixed_header, bytes, &mut order)
    }

    pub(crate) fn read_traced(
        fixed_header: FixedHeader,
        bytes: Bytes,
        order: &mut Vec<u8>,
    ) -> (r: Result<SubAck, Error>)
        requires
            fixed_header.fixed_header_len <= octets(bytes).len(),
        ensures
            match SubAckModel::decode(octets(bytes).skip(fixed_header.fixed_header_len as int)) {
                Ok(w) => r matches Ok(a) && a@ == w.canonical() && final(order)@ == old(order)@
                    + w.order(),
                Err(e) => r == Err::<SubAck, Error>(e),
            },
            final(order)@ == old(order)@ + SubAckModel::noted(
                octets(bytes).skip(fixed_header.fixed_header_len as int),
            ),
    {
        let mut bytes = bytes;
        let variable_header_index: usize = fixed_header.fixed_header_len;
        bytes.advance(variable_header_index);
        assert(order@ =~= old(order)@ + Seq::<u8>::empty());
        let pkid: u16 = match read_u16(&mut bytes) {
            Ok(v) => v,
            Err(e) => return Err(e),
        };
        let properties = match SubAckProperties::read_traced(&mut bytes, order) {
            Ok(v) => v,
            Err(e) => return Err(e),
        };
        if bytes.is_empty() {
            return Err(Error::MalformedPacket);
        }
        match read_reasons(bytes) {
            Ok(return_codes) => Ok(SubAck { pkid, return_codes, properties }),
            Err(e) => Err(e),
        }
    }

    pub fn write(&self, buffer: &mut BytesMut) -> (r: Result<usize, Error>)
        requires
            has_room(*old(buffer), frame_len(self@.len()) as int),
        ensures
            r == self@.encode(None).0,
            buffered(*final(buffer)) == buffered(*old(buffer)) + self@.encode(None).1,
    {
        self.write_ordered(buffer, None)
    }

    pub(crate) fn write_ordered(&self, buffer: &mut BytesMut, order: Option<&[u8]>) -> (r: Result<
        usize,
        Error,
    >)
        requires
            has_room(*old(buffer), frame_len(self@.len()) as int),
        ensures
            r == self@.encode(order_of(order)).0,
            buffered(*final(buffer)) == buffered(*old(buffer)) + self@.encode(order_of(order)).1,
    {
        let ghost start = buffered(*buffer);
        put_u8(buffer, 0x90);
        assert(buffered(*buffer) =~= start + seq![0x90u8]);
        let remaining_len: usize = self.len();
        let remaining_len_bytes: usize = match write_remaining_length(buffer, remaining_len) {
            Ok(count) => count,
            Err(e) => return Err(e),
        };
        put_u16(buffer, self.pkid);
        let ghost head = seq![0x90u8] + varint(remaining_len as nat) + be16(self.pkid);
        assert(buffered(*buffer) =~= start + head);
        if let Some(p) = &self.properties {
            if let Err(e) = p.write_ordered(buffer, order) {
                return Err(e);
            }
        } else {
            if let Err(e) = write_remaining_length(buffer, 0) {
                return Err(e);
            }
            assert(varint(0) =~= seq![0u8]);
        }
        let ghost section = writable_section(self@.properties, order_of(order))->0;
        proof {
            if let Some(es) = self@.properties {
                writable_has_len(es, order_of(order));
            }
        }
        let codes: Vec<u8> = codes_of(&self.return_codes);
        buffer.extend_from_slice(codes.as_slice());
        assert(buffered(*buffer) == start + (head + section + codes@)) by {
            broadcast use append_assoc;
        }
        Ok(1 + remaining_len_bytes + remaining_len)
    }
}

/// Reads the reasons, one each, up to the end.
#[verifier::loop_isolation(false)]
fn read_reasons(bytes: Bytes) -> (r: Result<Vec<SubscribeReasonCode>, Error>)
    ensures
        match suback_reasons(octets(bytes)) {
            Ok(reasons) => r matches Ok(v) && v@ == reasons,
            Err(e) => r == Err::<Vec<SubscribeReasonCode>, Error>(e),
        },
{
    let ghost total = suback_reasons(octets(bytes));
    let mut bytes = bytes;
    let mut reasons: Vec<SubscribeReasonCode> = Vec::new();
    proof {
        if let Ok(tail) = total {
            assert(Seq::<SubscribeReasonCode>::empty() + tail =~= tail);
        }
    }
    while !bytes.is_empty()
        invariant
            total == match suback_reasons(octets(bytes)) {
                Ok(tail) => Ok::<Seq<SubscribeReasonCode>, Error>(reasons@ + tail),
                Err(e) => Err(e),
            },
        decreases octets(bytes).len(),
    {
        let num: u8 = match read_u8(&mut bytes) {
            Ok(v) => v,
            Err(e) => return Err(e),
        };
        let reason = match reason(num) {
            Ok(v) => v,
            Err(e) => return Err(e),
        };
        proof {
            if let Ok(tail) = suback_reasons(octets(bytes)) {
                assert(reasons@ + (seq![reason] + tail) =~= reasons@.push(reason) + tail);
            }
        }
        reasons.push(reason);
    }
    assert(reasons@ + Seq::<SubscribeReasonCode>::empty() =~= reasons@);
    Ok(reasons)
}

/// The octets of the reasons, one each.
fn codes_of(reasons: &Vec<SubscribeReasonCode>) -> (r: Vec<u8>)
    ensures
        r@ == suback_codes(reasons@),
{
    let mut codes: Vec<u8> = Vec::new();
    let mut i: usize = 0;
    while i < reasons.len()
        invariant
            i <= reasons@.len(),
            codes@.len() == i,
            forall|j: int| 0 <= j < i ==> codes@[j] == reasons@[j].number(),
        decreases reasons@.len() - i,
    {
        codes.push(code(reasons[i]));
        i = i + 1;
    }
    assert(codes@ =~= suback_codes(reasons@));
    codes
}

/// Answer to one filter of a subscription
#[derive(Debug, Clone, Copy, PartialEq, Eq, Structural)]
pub enum SubscribeReasonCode {
    Success(QoS),
    Failure,
    Unspecified,
    ImplementationSpecific,
    NotAuthorized,
    TopicFilterInvalid,
    PkidInUse,
    QuotaExceeded,
    SharedSubscriptionsNotSupported,
    SubscriptionIdNotSupported,
    WildcardSubscriptionsNotSupported,
}

impl SubscribeReasonCode {
    /// The number that stands for the reason on the wire.
    pub open spec fn number(self) -> u8 {
        match self {
            SubscribeReasonCode::Success(qos) => qos_number(qos),
            SubscribeReasonCode::Failure => 0x80,
            SubscribeReasonCode::Unspecified => 128,
            SubscribeReasonCode::ImplementationSpecific => 131,
            SubscribeReasonCode::NotAuthorized => 135,
            SubscribeReasonCode::TopicFilterInvalid => 143,
            SubscribeReasonCode::PkidInUse => 145,
            SubscribeReasonCode::QuotaExceeded => 151,
            SubscribeReasonCode::SharedSubscriptionsNotSupported => 158,
            SubscribeReasonCode::SubscriptionIdNotSupported => 161,
            SubscribeReasonCode::WildcardSubscriptionsNotSupported => 162,
        }
    }

    /// The reason that a number on the wire stands for.
    pub open spec fn of(num: u8) -> Result<SubscribeReasonCode, Error> {
        if num <= 2 {
            Ok(SubscribeReasonCode::Success(qos_of(num)->0))
        } else if num == 128 {
            Ok(SubscribeReasonCode::Unspecified)
        } else if num == 131 {
            Ok(SubscribeReasonCode::ImplementationSpecific)
        } else if num == 135 {
            Ok(SubscribeReasonCode::NotAuthorized)
        } else if num == 143 {
            Ok(SubscribeReasonCode::TopicFilterInvalid)
        } else if num == 145 {
            Ok(SubscribeReasonCode::PkidInUse)
        } else if num == 151 {
            Ok(SubscribeReasonCode::QuotaExceeded)
        } else if num == 158 {
            Ok(SubscribeReasonCode::SharedSubscriptionsNotSupported)
        } else if num == 161 {
            Ok(SubscribeReasonCode::SubscriptionIdNotSupported)
        } else if num == 162 {
            Ok(SubscribeReasonCode::WildcardSubscriptionsNotSupported)
        } else {
            Err(Error::InvalidSubscribeReasonCode(num))
        }
    }
}

#[derive(Debug, Clone, PartialEq, Eq)]
pub struct SubAckProperties {
    pub reason_string: Option<String>,
    pub user_properties: Vec<(String, String)>,
}

impl View for SubAckProperties {
    type V = Seq<Entry>;

    /// The entries in the order in which they are written by default.
    open spec fn view(&self) -> Seq<Entry> {
        joined(self.fields())
    }
}

impl Default for SubAckProperties {
    fn default() -> (r: Self)
        ensures
            r.reason_string is None,
            r.user_properties@.len() == 0,
    {
        SubAckProperties {
            reason_string: None,
            user_properties: Vec::new(),
        }
    }
}

impl SubAckProperties {
    /// The entries of each field.
    pub open spec fn fields(self) -> Seq<Seq<Entry>> {
        Seq::empty()
            .push(text(31, self.reason_string))
            .push(pairs(self.user_properties@))
    }

    fn len(&self) -> (r: usize)
        requires
            entries_len(self@) <= usize::MAX,
        ensures
            r == entries_len(self@),
    {
        broadcast use {entries_len_add, group_joined};

        let mut len: usize = 0;
        len = len + text_len(31, &self.reason_string);
        len = len + pairs_len(&self.user_properties);
        len
    }

    pub fn read(bytes: &mut Bytes) -> (r: Result<Option<SubAckProperties>, Error>)
        ensures
            match take_properties(Owner::Acknowledgement, octets(*old(bytes))) {
                (Ok(None), rest) => r matches Ok(None) && octets(*final(bytes)) == rest,
                (Ok(Some(es)), rest) => r matches Ok(Some(p)) && p@ == canonical(Owner::Acknowledgement, es)
                    && octets(*final(bytes)) == rest,
                (Err(e), rest) => r == Err::<Option<SubAckProperties>, Error>(e) && octets(
                    *final(bytes),
                ) == rest,
            },
    {
        let mut order: Vec<u8> = Vec::new();
        Self::read_traced(bytes, &mut order)
    }

    pub(crate) fn read_traced(bytes: &mut Bytes, order: &mut Vec<u8>) -> (r: Result<
        Option<SubAckProperties>,
        Error,
    >)
        ensures
            match take_properties(Owner::Acknowledgement, octets(*old(bytes))) {
                (Ok(None), rest) => r matches Ok(None) && octets(*final(bytes)) == rest
                    && final(order)@ == old(order)@,
                (Ok(Some(es)), rest) => r matches Ok(Some(p)) && p@ == canonical(Owner::Acknowledgement, es)
                    && octets(*final(bytes)) == rest && final(order)@ == old(order)@ + ids(es),
                (Err(e), rest) => r == Err::<Option<SubAckProperties>, Error>(e) && octets(
                    *final(bytes),
                ) == rest,
            },
            final(order)@ == old(order)@ + section_ids(Owner::Acknowledgement, octets(*old(bytes))),
    {
        proof {
            reveal(take_properties);
        }
        let section = match read_properties_section(bytes) {
            Ok(section) => section,
            Err(e) => return Err(e),
        };
        if section.is_empty() {
            proof {
                parse_end(Owner::Acknowledgement, octets(section), Seq::empty());
            }
            return Ok(None);
        }
        match Self::read_section(section, order) {
            Ok(props) => Ok(Some(props)),
            Err(e) => Err(e),
        }
    }

    /// Reads the entries of a section that was isolated.
    fn read_section(section: Bytes, order: &mut Vec<u8>) -> (r: Result<SubAckProperties, Error>)
        ensures
            match parse_entries(Owner::Acknowledgement, octets(section), Seq::empty()) {
                Ok(es) => r matches Ok(p) && p@ == canonical(Owner::Acknowledgement, es) && final(order)@
                    == old(order)@ + ids(es),
                Err(e) => r == Err::<SubAckProperties, Error>(e),
            },
            final(order)@ == old(order)@ + noted_ids(Owner::Acknowledgement, octets(section), Seq::empty()),
    {
        let mut rest = section;
        let ghost mut es: Seq<Entry> = Seq::empty();
        let mut props = SubAckProperties::default();
        let mut seen: u64 = 0;
        let mut count: usize = 0;
        proof {
            broadcast use pick_empty;

            tracks_nothing();
            assert(order@ =~= old(order)@ + ids(es));
            assert(pairs(props.user_properties@) =~= Seq::<Entry>::empty());
        }
        while !rest.is_empty()
            invariant
                parse_entries(Owner::Acknowledgement, octets(section), Seq::empty()) == parse_entries(
                    Owner::Acknowledgement,
                    octets(rest),
                    es,
                ),
                noted_ids(Owner::Acknowledgement, octets(section), Seq::empty()) == noted_ids(
                    Owner::Acknowledgement,
                    octets(rest),
                    es,
                ),
                tracks(seen, count, es),
                es.len() <= 1024,
                order@ == old(order)@ + ids(es),
                text(31, props.reason_string) == pick(es, 31),
                pairs(props.user_properties@) == pick(es, 38),
            decreases octets(rest).len(),
        {
            broadcast use {pick_push, group_take_shrinks};

            proof {
                parse_step(Owner::Acknowledgement, octets(rest), es);
            }
            let prop: u8 = match next_property(
                &mut rest,
                Owner::Acknowledgement,
                &mut seen,
                &mut count,
                order,
                Ghost(es),
            ) {
                Ok(prop) => prop,
                Err(e) => return Err(e),
            };
            assert(order@ =~= old(order)@ + ids(es).push(prop));
            let property = match property(prop) {
                Ok(property) => property,
                Err(e) => return Err(e),
            };
            match property {
                PropertyType::ReasonString => {
                    let value = match read_mqtt_string(&mut rest) {
                        Ok(v) => v,
                        Err(e) => return Err(e),
                    };
                    proof {
                        es = es.push((prop, Value::Text(value@)));
                    }
                    props.reason_string = Some(value);
                },
                PropertyType::UserProperty => {
                    let key = match read_mqtt_string(&mut rest) {
                        Ok(v) => v,
                        Err(e) => return Err(e),
                    };
                    let value = match read_mqtt_string(&mut rest) {
                        Ok(v) => v,
                        Err(e) => return Err(e),
                    };
                    proof {
                        pairs_push(props.user_properties@, (key, value));
                        es = es.push((prop, Value::Pair(key@, value@)));
                    }
                    props.user_properties.push((key, value));
                },
                _ => return Err(Error::InvalidPropertyType(prop)),
            }
            assert(order@ =~= old(order)@ + ids(es));
        }
        proof {
            parse_end(Owner::Acknowledgement, octets(rest), es);
            suback_properties_are_picked(props, es);
        }
        Ok(props)
    }

    pub fn write(&self, buffer: &mut BytesMut) -> (r: Result<(), Error>)
        requires
            has_room(*old(buffer), section_len(self@) as int),
        ensures
            match writable(self@, None) {
                Some(es) => r is Ok && buffered(*final(buffer)) == buffered(*old(buffer))
                    + section_octets(es),
                None => r == Err::<(), Error>(Error::MalformedPacket) && buffered(*final(buffer))
                    == buffered(*old(buffer)),
            },
    {
        self.write_ordered(buffer, None)
    }

    pub(crate) fn write_ordered(&self, buffer: &mut BytesMut, order: Option<&[u8]>) -> (r: Result<
        (),
        Error,
    >)
        requires
            has_room(*old(buffer), section_len(self@) as int),
        ensures
            match writable(self@, order_of(order)) {
                Some(es) => r is Ok && buffered(*final(buffer)) == buffered(*old(buffer))
                    + section_octets(es),
                None => r == Err::<(), Error>(Error::MalformedPacket) && buffered(*final(buffer))
                    == buffered(*old(buffer)),
            },
    {
        let mut values: Vec<(u8, Property<'_>)> = Vec::new();
        broadcast use group_joined;

        assert(listed(values@) =~= Seq::<Entry>::empty());
        push_text(&mut values, 31, &self.reason_string);
        push_pairs(&mut values, &self.user_properties);
        write_properties(buffer, &values, order)
    }
}

/// Typed suback properties whose fields hold the entries that were read, each its own.
proof fn suback_properties_are_picked(p: SubAckProperties, es: Seq<Entry>)
    requires
        text(31, p.reason_string) == pick(es, 31),
        pairs(p.user_properties@) == pick(es, 38),
    ensures
        p@ == canonical(Owner::Acknowledgement, es),
{
    let fields = p.fields();
    let keys = table(Owner::Acknowledgement);
    assert(keys.len() == 2);
    assert forall|i: int| 0 <= i < 2 implies #[trigger] fields[i] == pick(es, keys[i]) by {
        if i == 0 {
            assert(fields[0] == text(31, p.reason_string) && keys[0] == 31);
        }
    }
    assert(fields =~= picks(es, keys));
}

/// Each field of typed suback properties holds the entries of its own property.
pub proof fn suback_properties_have_fields(p: SubAckProperties)
    ensures
        are_fields(Owner::Acknowledgement, p.fields()),
{
    let fields = p.fields();
    let keys = table(Owner::Acknowledgement);
    assert forall|i: int| 0 <= i < keys.len() implies is_field(
        Owner::Acknowledgement,
        #[trigger] keys[i],
        fields[i],
    ) by {
        if i == 0 {
            assert(fields[0] == text(31, p.reason_string) && keys[0] == 31);
        }
    }
}

/// The entries of typed suback properties may stand in a section where they can be written, and
/// they stand in the order of the typed fields.
proof fn suback_properties_are_valid(p: SubAckProperties)
    requires
        entries_fit(p@),
    ensures
        valid_entries(Owner::Acknowledgement, p@),
        canonical(Owner::Acknowledgement, p@) == p@,
{
    suback_properties_have_fields(p);
    fields_are_valid(Owner::Acknowledgement, p.fields());
}

/// The reason that a number on the wire stands for.
fn reason(num: u8) -> (r: Result<SubscribeReasonCode, Error>)
    ensures
        r == SubscribeReasonCode::of(num),
{
    let v = match num {
        0 => SubscribeReasonCode::Success(QoS::AtMostOnce),
        1 => SubscribeReasonCode::Success(QoS::AtLeastOnce),
        2 => SubscribeReasonCode::Success(QoS::ExactlyOnce),
        128 => SubscribeReasonCode::Unspecified,
        131 => SubscribeReasonCode::ImplementationSpecific,
        135 => SubscribeReasonCode::NotAuthorized,
        143 => SubscribeReasonCode::TopicFilterInvalid,
        145 => SubscribeReasonCode::PkidInUse,
        151 => SubscribeReasonCode::QuotaExceeded,
        158 => SubscribeReasonCode::SharedSubscriptionsNotSupported,
        161 => SubscribeReasonCode::SubscriptionIdNotSupported,
        162 => SubscribeReasonCode::WildcardSubscriptionsNotSupported,
        num => return Err(Error::InvalidSubscribeReasonCode(num)),
    };
    Ok(v)
}

/// The number that stands for a reason on the wire.
fn code(value: SubscribeReasonCode) -> (r: u8)
    ensures
        r == value.number(),
{
    match value {
        SubscribeReasonCode::Success(qos) => qos_code(qos),
        SubscribeReasonCode::Failure => 0x80,
        SubscribeReasonCode::Unspecified => 128,
        SubscribeReasonCode::ImplementationSpecific => 131,
        SubscribeReasonCode::NotAuthorized => 135,
        SubscribeReasonCode::TopicFilterInvalid => 143,
        SubscribeReasonCode::PkidInUse => 145,
        SubscribeReasonCode::QuotaExceeded => 151,
        SubscribeReasonCode::SharedSubscriptionsNotSupported => 158,
        SubscribeReasonCode::SubscriptionIdNotSupported => 161,
        SubscribeReasonCode::WildcardSubscriptionsNotSupported => 162,
    }
}

impl TryFrom<u8> for SubscribeReasonCode {
    type Error = Error;

    fn try_from(value: u8) -> (r: Result<Self, Self::Error>) {
        reason(value)
    }
}

impl vstd::std_specs::convert::TryFromSpecImpl<u8> for SubscribeReasonCode {
    open spec fn obeys_try_from_spec() -> bool {
        true
    }

    open spec fn try_from_spec(value: u8) -> Result<Self, Self::Error> {
        SubscribeReasonCode::of(value)
    }
}

/// A suback packet without the failure code of MQTT 3.1.1 that was written is read back: the fields
/// behind the fixed header spell the same packet, with the properties in the order in which they
/// were written.
#[verifier::spinoff_prover]
#[verifier::rlimit(40)]
pub proof fn suback_round_trip(suback: SubAck, order: Option<Seq<u8>>)
    requires
        suback@.encode(order).0 is Ok,
        suback.properties matches Some(p) ==> p@.len() > 0,
        suback.return_codes@.len() > 0,
        forall|i: int|
            0 <= i < suback.return_codes@.len() ==> suback.return_codes@[i]
                != SubscribeReasonCode::Failure,
    ensures
        ({
            let (n, out) = suback@.encode(order);
            let body = out.skip(1 + varint_len(suback@.len() as int) as int);
            let w = SubAckModel { properties: written(suback@.properties, order), ..suback@ };
            &&& n == Ok::<usize, Error>(out.len() as usize)
            &&& out.len() == frame_len(suback@.len())
            &&& out == seq![0x90u8] + varint(suback@.len()) + body
            &&& SubAckModel::decode(body) == Ok::<SubAckModel, Error>(w)
            &&& w.canonical() == suback@
            &&& order is Some && suback.properties is Some ==> w.order() == order->0
        }),
{
    let m = suback@;
    if let Some(p) = suback.properties {
        suback_properties_are_valid(p);
    }
    let section = writable_section(m.properties, order)->0;
    let codes = suback_codes(m.return_codes);
    written_round_trip(Owner::Acknowledgement, m.properties, order, codes);
    emitted_fields(0x90u8, m.len(), be16(m.pkid), section, codes);
    u16_round_trip(m.pkid, section + codes);
    assert(be16(m.pkid) + section + codes == be16(m.pkid) + (section + codes)) by {
        broadcast use append_assoc;
    }
    suback_codes_round_trip(m.return_codes);
}

/// Reasons are read back from their octets.
pub proof fn suback_codes_round_trip(reasons: Seq<SubscribeReasonCode>)
    requires
        forall|i: int| 0 <= i < reasons.len() ==> reasons[i] != SubscribeReasonCode::Failure,
    ensures
        suback_reasons(suback_codes(reasons)) == Ok::<Seq<SubscribeReasonCode>, Error>(reasons),
    decreases reasons.len(),
{
    let s = suback_codes(reasons);
    if reasons.len() == 0 {
        assert(reasons =~= Seq::<SubscribeReasonCode>::empty());
    } else {
        let tail = reasons.skip(1);
        suback_codes_round_trip(tail);
        assert(s.skip(1) =~= suback_codes(tail));
        assert(seq![reasons[0]] + tail =~= reasons);
        assert(s[0] == reasons[0].number());
    }
}

} // verus!
