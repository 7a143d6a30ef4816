use bytes::{Buf, Bytes, BytesMut};
use vstd::prelude::*;
use vstd::utf8::encode_utf8;

use crate::octets::{be16, buffered, fits, has_room, octets, put_u16, put_u8};
use crate::v5::mqttbytes::Error;
use super::frame::{emitted, emitted_fields, frame_len, FixedHeader};
use super::ordered::{listed, order_of, push_pairs, write_properties, Property};
use super::property::{
    are_fields, canonical, canonical_opt, entries_fit, entries_len, entries_len_add,
    fields_are_valid, group_joined, ids, ids_opt, is_field, joined, next_property, noted_ids, pairs,
    pairs_len, pairs_push, parse_end, parse_entries, parse_step, pick, pick_empty, pick_push, picks,
    properties_len, property, section_ids, section_len, section_octets, table, take_properties,
    tracks, tracks_nothing, valid_entries, writable, writable_has_len, writable_section, written,
    written_round_trip, Entry, Owner, PropertyType, Value,
};
use super::wire::{
    append_assoc, group_take_shrinks, len_len, read_mqtt_string, read_properties_section, read_u16,
    take_binary, take_text, take_u16, text_fits, text_octets, text_octets_len, text_round_trip,
    u16_round_trip, varint, varint_len, write_mqtt_string, write_remaining_length,
};

verus! {

broadcast use super::wire::group_octets_len;

/// Unsubscribe packet
#[derive(Debug, Clone, PartialEq, Eq)]
pub struct Unsubscribe {
    pub pkid: u16,
    pub filters: Vec<String>,
    pub properties: Option<UnsubscribeProperties>,
}

/// What an unsubscribe packet holds. The entries of the properties stand in the order of the wire,
/// or in the order of the typed fields.
#[verifier::ext_equal]
pub struct UnsubscribeModel {
    pub pkid: u16,
    pub filters: Seq<Seq<char>>,
    pub properties: Option<Seq<Entry>>,
}

/// A filter at the front, and the octets after it.
pub open spec fn take_unsubscribe_filter(s: Seq<u8>) -> (Result<Seq<char>, Error>, Seq<u8>) {
    take_text(s)
}

/// The octets of a filter.
pub open spec fn unsubscribe_filter_octets(filter: Seq<char>) -> Seq<u8> {
    text_octets(filter)
}

proof fn unsubscribe_filter_len(filter: Seq<char>)
    ensures
        unsubscribe_filter_octets(filter).len() == 2 + encode_utf8(filter).len(),
{
    text_octets_len(filter);
}

proof fn unsubscribe_filter_shrinks(s: Seq<u8>)
    ensures
        take_unsubscribe_filter(s).0 is Ok ==> take_unsubscribe_filter(s).1.len() < s.len(),
{
    reveal(super::wire::take_text);
    reveal(super::wire::take_binary);
}

proof fn unsubscribe_filter_round_trip(filter: Seq<char>, rest: Seq<u8>)
    requires
        text_fits(filter),
    ensures
        take_unsubscribe_filter(unsubscribe_filter_octets(filter) + rest) == (
            Ok::<Seq<char>, Error>(filter),
            rest,
        ),
{
    text_round_trip(filter, rest);
}

/// The filters that the octets `s` spell; the error of the first that is none.
pub open spec fn unsubscribe_filters(s: Seq<u8>) -> Result<Seq<Seq<char>>, Error>
    decreases s.len(),
    via unsubscribe_filters_end
{
    if s.len() == 0 {
        Ok(Seq::empty())
    } else {
        match take_unsubscribe_filter(s) {
            (Err(e), _) => Err(e),
            (Ok(f), rest) => match unsubscribe_filters(rest) {
                Err(e) => Err(e),
                Ok(tail) => Ok(seq![f] + tail),
            },
        }
    }
}

#[via_fn]
proof fn unsubscribe_filters_end(s: Seq<u8>) {
    unsubscribe_filter_shrinks(s);
}

/// The octets of filters, one after the other.
pub open spec fn unsubscribe_filters_octets(filters: Seq<Seq<char>>) -> Seq<u8>
    decreases filters.len(),
{
    if filters.len() == 0 {
        Seq::empty()
    } else {
        unsubscribe_filters_octets(filters.drop_last()) + unsubscribe_filter_octets(filters.last())
    }
}

/// The models of filters.
pub open spec fn unsubscribe_filter_models(filters: Seq<String>) -> Seq<Seq<char>> {
    Seq::new(filters.len(), |i: int| filters[i]@)
}

impl UnsubscribeModel {
    /// The length of the fields behind the fixed header.
    pub open spec fn len(self) -> nat {
        2 + properties_len(self.properties) + unsubscribe_filters_octets(self.filters).len()
    }

    /// The packet that the octets behind a fixed header spell. There is one filter at least.
    pub open spec fn decode(body: Seq<u8>) -> Result<UnsubscribeModel, Error> {
        match take_u16(body) {
            (Err(e), _) => Err(e),
            (Ok(pkid), rest) => match take_properties(Owner::Unsubscribe, rest) {
                (Err(e), _) => Err(e),
                (Ok(properties), rest) => if rest.len() == 0 {
                    Err(Error::EmptySubscription)
                } else {
                    match unsubscribe_filters(rest) {
                        Err(e) => Err(e),
                        Ok(filters) => Ok(UnsubscribeModel { pkid, filters, properties }),
                    }
                },
            },
        }
    }

    /// The identifiers of properties that a reader of the octets behind the fixed header has noted
    /// when it ends or stops.
    pub open spec fn noted(body: Seq<u8>) -> Seq<u8> {
        match take_u16(body) {
            (Ok(_), rest) => section_ids(Owner::Unsubscribe, rest),
            (Err(_), _) => Seq::empty(),
        }
    }

    /// What a writer of the packet returns and appends.
    pub open spec fn encode(self, order: Option<Seq<u8>>) -> (Result<usize, Error>, Seq<u8>) {
        emitted(
            0xA2u8,
            self.len(),
            be16(self.pkid),
            writable_section(self.properties, order),
            unsubscribe_filters_octets(self.filters),
        )
    }

    /// The packet with the entries in the order of the typed fields.
    pub open spec fn canonical(self) -> UnsubscribeModel {
        UnsubscribeModel { properties: canonical_opt(Owner::Unsubscribe, self.properties), ..self }
    }

    /// The identifiers of the properties, in order.
    pub open spec fn order(self) -> Seq<u8> {
        ids_opt(self.properties)
    }
}

impl View for Unsubscribe {
    type V = UnsubscribeModel;

    open spec fn view(&self) -> UnsubscribeModel {
        UnsubscribeModel {
            pkid: self.pkid,
            filters: unsubscribe_filter_models(self.filters@),
            properties: match self.properties {
                Some(p) => Some(p@),
                None => None,
            },
        }
    }
}

impl Unsubscribe {
    pub fn new<S: Into<String>>(filter: S, properties: Option<UnsubscribeProperties>) -> (r: Self)
        ensures
            r.pkid == 0,
            r.filters@.len() == 1,
            call_ensures(<S as Into<String>>::into, (filter,), r.filters@[0]),
            r.properties == properties,
    {
        let mut filters: Vec<String> = Vec::new();
        filters.push(filter.into());
        Unsubscribe { pkid: 0, filters, properties }
    }

    fn len(&self) -> (r: usize)
        requires
            self@.len() <= usize::MAX,
        ensures
            r == self@.len(),
    {
        let mut len: usize = 2;
        if let Some(p) = &self.properties {
            let properties_len: usize = p.len();
            let properties_len_len: usize = len_len(properties_len);
            len = len + properties_len_len + properties_len;
        } else {
            // just 1 byte representing 0 len
            len = len + 1;
        }
        len + filters_len(&self.filters)
    }

    pub fn size(&self) -> (r: usize)
        requires
            frame_len(self@.len()) <= usize::MAX,
        ensures
            r == frame_len(self@.len()),
    {
        let len: usize = self.len();
        let remaining_len_size: usize = len_len(len);
        1 + remaining_len_size + len
    }

    pub fn read(fixed_header: FixedHeader, bytes: Bytes) -> (r: Result<Unsubscribe, Error>)
        requires
            fixed_header.fixed_header_len <= octets(bytes).len(),
        ensures
            match UnsubscribeModel::decode(octets(bytes).skip(fixed_header.fixed_header_len as int)) {
                Ok(w) => r matches Ok(a) && a@ == w.canonical(),
                Err(e) => r == Err::<Unsubscribe, Error>(e),
            },
    {
        let mut order: Vec<u8> = Vec::new();
        Self::read_traced(fixed_header, bytes, &mut order)
    }

    pub(crate) fn read_traced(
        fixed_header: FixedHeader,
        bytes: Bytes,
        order: &mut Vec<u8>,
    ) -> (r: Result<Unsubscribe, Error>)
        requires
            fixed_header.fixed_header_len <= octets(bytes).len(),
        ensures
            match UnsubscribeModel::decode(octets(bytes).skip(fixed_header.fixed_header_len as int)) {
                Ok(w) => r matches Ok(a) && a@ == w.canonical() && final(order)@ == old(order)@
                    + w.order(),
                Err(e) => r == Err::<Unsubscribe, Error>(e),
            },
            final(order)@ == old(order)@ + UnsubscribeModel::noted(
                octets(bytes).skip(fixed_header.fixed_header_len as int),
            ),
    {
        let mut bytes = bytes;
        let variable_header_index: usize = fixed_header.fixed_header_len;
        bytes.advance(variable_header_index);
        assert(order@ =~= old(order)@ + Seq::<u8>::empty());
        let pkid: u16 = match read_u16(&mut bytes) {
            Ok(v) => v,
            Err(e) => return Err(e),
        };
        let properties = match UnsubscribeProperties::read_traced(&mut bytes, order) {
            Ok(v) => v,
            Err(e) => return Err(e),
        };
        if bytes.is_empty() {
            return Err(Error::EmptySubscription);
        }
        match read_filters(bytes) {
            Ok(filters) => Ok(Unsubscribe { pkid, filters, properties }),
            Err(e) => Err(e),
        }
    }

    pub fn write(&self, buffer: &mut BytesMut) -> (r: Result<usize, Error>)
        requires
            has_room(*old(buffer), frame_len(self@.len()) as int),
        ensures
            r == self@.encode(None).0,
            buffered(*final(buffer)) == buffered(*old(buffer)) + self@.encode(None).1,
    {
        self.write_ordered(buffer, None)
    }

    pub(crate) fn write_ordered(&self, buffer: &mut BytesMut, order: Option<&[u8]>) -> (r: Result<
        usize,
        Error,
    >)
        requires
            has_room(*old(buffer), frame_len(self@.len()) as int),
        ensures
            r == self@.encode(order_of(order)).0,
            buffered(*final(buffer)) == buffered(*old(buffer)) + self@.encode(order_of(order)).1,
    {
        let ghost start = buffered(*buffer);
        put_u8(buffer, 0xA2);
        assert(buffered(*buffer) =~= start + seq![0xA2u8]);
        let remaining_len: usize = self.len();
        let remaining_len_bytes: usize = match write_remaining_length(buffer, remaining_len) {
            Ok(count) => count,
            Err(e) => return Err(e),
        };
        put_u16(buffer, self.pkid);
        let ghost head = seq![0xA2u8] + varint(remaining_len as nat) + be16(self.pkid);
        assert(buffered(*buffer) =~= start + head);
        if let Some(p) = &self.properties {
            if let Err(e) = p.write_ordered(buffer, order) {
                return Err(e);
            }
        } else {
            if let Err(e) = write_remaining_length(buffer, 0) {
                return Err(e);
            }
            assert(varint(0) =~= seq![0u8]);
        }
        let ghost section = writable_section(self@.properties, order_of(order))->0;
        proof {
            if let Some(es) = self@.properties {
                writable_has_len(es, order_of(order));
            }
        }
        write_filters(buffer, &self.filters);
        assert(buffered(*buffer) == start + (head + section + unsubscribe_filters_octets(self@.filters))) by {
            broadcast use append_assoc;
        }
        Ok(1 + remaining_len_bytes + remaining_len)
    }
}

/// The octets of the filters up to a position are no more than those of all filters.
proof fn prefix_octets(filters: Seq<Seq<char>>, i: int)
    requires
        0 <= i < filters.len(),
    ensures
        unsubscribe_filters_octets(filters.take(i + 1)) == unsubscribe_filters_octets(filters.take(i))
            + unsubscribe_filter_octets(filters[i]),
        unsubscribe_filters_octets(filters.take(i + 1)).len() <= unsubscribe_filters_octets(filters).len(),
    decreases filters.len(),
{
    assert(filters.take(i + 1).drop_last() =~= filters.take(i));
    if i == filters.len() - 1 {
        assert(filters.take(i + 1) =~= filters);
    } else {
        prefix_octets(filters.drop_last(), i);
        assert(filters.drop_last().take(i + 1) =~= filters.take(i + 1));
    }
}

fn filters_len(filters: &Vec<String>) -> (r: usize)
    requires
        unsubscribe_filters_octets(unsubscribe_filter_models(filters@)).len() <= usize::MAX,
    ensures
        r == unsubscribe_filters_octets(unsubscribe_filter_models(filters@)).len(),
{
    let ghost all = unsubscribe_filter_models(filters@);
    let mut len: usize = 0;
    let mut i: usize = 0;
    assert(all.take(0) =~= Seq::<Seq<char>>::empty());
    while i < filters.len()
        invariant
            i <= filters@.len(),
            all == unsubscribe_filter_models(filters@),
            unsubscribe_filters_octets(all).len() <= usize::MAX,
            len == unsubscribe_filters_octets(all.take(i as int)).len(),
        decreases filters@.len() - i,
    {
        proof {
            prefix_octets(all, i as int);
            unsubscribe_filter_len(all[i as int]);
        }
        len = len + 2 + filters[i].as_str().as_bytes().len();
        i = i + 1;
    }
    assert(all.take(i as int) =~= all);
    len
}

/// Reads filters up to the end.
fn read_filters(bytes: Bytes) -> (r: Result<Vec<String>, Error>)
    ensures
        match unsubscribe_filters(octets(bytes)) {
            Ok(filters) => r matches Ok(v) && unsubscribe_filter_models(v@) == filters,
            Err(e) => r == Err::<Vec<String>, Error>(e),
        },
{
    let ghost total = unsubscribe_filters(octets(bytes));
    let mut rest = bytes;
    let mut filters: Vec<String> = Vec::new();
    assert(unsubscribe_filter_models(filters@) =~= Seq::<Seq<char>>::empty());
    proof {
        if let Ok(tail) = total {
            assert(Seq::<Seq<char>>::empty() + tail =~= tail);
        }
    }
    while !rest.is_empty()
        invariant
            total == match unsubscribe_filters(octets(rest)) {
                Ok(tail) => Ok::<Seq<Seq<char>>, Error>(unsubscribe_filter_models(filters@) + tail),
                Err(e) => Err(e),
            },
            total == unsubscribe_filters(octets(bytes)),
        decreases octets(rest).len(),
    {
        proof {
            unsubscribe_filter_shrinks(octets(rest));
        }
        let filter = match read_mqtt_string(&mut rest) {
            Ok(v) => v,
            Err(e) => return Err(e),
        };
        proof {
            let done = unsubscribe_filter_models(filters@);
            assert(unsubscribe_filter_models(filters@.push(filter)) =~= done.push(filter@));
            if let Ok(tail) = unsubscribe_filters(octets(rest)) {
                assert(done + (seq![filter@] + tail) =~= done.push(filter@) + tail);
            }
        }
        filters.push(filter);
    }
    assert(unsubscribe_filter_models(filters@) + Seq::<Seq<char>>::empty() =~= unsubscribe_filter_models(
        filters@,
    ));
    Ok(filters)
}

/// Appends the filters.
fn write_filters(buffer: &mut BytesMut, filters: &Vec<String>)
    requires
        has_room(
            *old(buffer),
            unsubscribe_filters_octets(unsubscribe_filter_models(filters@)).len() as int,
        ),
    ensures
        buffered(*final(buffer)) == buffered(*old(buffer)) + unsubscribe_filters_octets(
            unsubscribe_filter_models(filters@),
        ),
{
    let ghost start = buffered(*buffer);
    let ghost all = unsubscribe_filter_models(filters@);
    let mut i: usize = 0;
    assert(all.take(0) =~= Seq::<Seq<char>>::empty());
    assert(start + Seq::<u8>::empty() =~= start);
    while i < filters.len()
        invariant
            i <= filters@.len(),
            all == unsubscribe_filter_models(filters@),
            fits((start.len() + unsubscribe_filters_octets(all).len()) as int),
            buffered(*buffer) == start + unsubscribe_filters_octets(all.take(i as int)),
        decreases filters@.len() - i,
    {
        proof {
            prefix_octets(all, i as int);
            unsubscribe_filter_len(all[i as int]);
        }
        write_mqtt_string(buffer, filters[i].as_str());
        assert(buffered(*buffer) == start + unsubscribe_filters_octets(all.take(i + 1))) by {
            broadcast use append_assoc;
        }
        i = i + 1;
    }
    assert(all.take(i as int) =~= all);
}

#[derive(Debug, Clone, PartialEq, Eq)]
pub struct UnsubscribeProperties {
    pub user_properties: Vec<(String, String)>,
}

impl View for UnsubscribeProperties {
    type V = Seq<Entry>;

    /// The entries in the order in which they are written by default.
    open spec fn view(&self) -> Seq<Entry> {
        joined(self.fields())
    }
}

impl Default for UnsubscribeProperties {
    fn default() -> (r: Self)
        ensures
            r.user_properties@.len() == 0,
    {
        UnsubscribeProperties {
            user_properties: Vec::new(),
        }
    }
}

impl UnsubscribeProperties {
    /// The entries of each field.
    pub open spec fn fields(self) -> Seq<Seq<Entry>> {
        Seq::empty()
            .push(pairs(self.user_properties@))
    }

    fn len(&self) -> (r: usize)
        requires
            entries_len(self@) <= usize::MAX,
        ensures
            r == entries_len(self@),
    {
        broadcast use {entries_len_add, group_joined};

        let mut len: usize = 0;
        len = len + pairs_len(&self.user_properties);
        len
    }

    pub fn read(bytes: &mut Bytes) -> (r: Result<Option<UnsubscribeProperties>, Error>)
        ensures
            match take_properties(Owner::Unsubscribe, octets(*old(bytes))) {
                (Ok(None), rest) => r matches Ok(None) && octets(*final(bytes)) == rest,
                (Ok(Some(es)), rest) => r matches Ok(Some(p)) && p@ == canonical(Owner::Unsubscribe, es)
                    && octets(*final(bytes)) == rest,
                (Err(e), rest) => r == Err::<Option<UnsubscribeProperties>, Error>(e) && octets(
                    *final(bytes),
                ) == rest,
            },
    {
        let mut order: Vec<u8> = Vec::new();
        Self::read_traced(bytes, &mut order)
    }

    pub(crate) fn read_traced(bytes: &mut Bytes, order: &mut Vec<u8>) -> (r: Result<
        Option<UnsubscribeProperties>,
        Error,
    >)
        ensures
            match take_properties(Owner::Unsubscribe, octets(*old(bytes))) {
                (Ok(None), rest) => r matches Ok(None) && octets(*final(bytes)) == rest
                    && final(order)@ == old(order)@,
                (Ok(Some(es)), rest) => r matches Ok(Some(p)) && p@ == canonical(Owner::Unsubscribe, es)
                    && octets(*final(bytes)) == rest && final(order)@ == old(order)@ + ids(es),
                (Err(e), rest) => r == Err::<Option<UnsubscribeProperties>, Error>(e) && octets(
                    *final(bytes),
                ) == rest,
            },
            final(order)@ == old(order)@ + section_ids(Owner::Unsubscribe, octets(*old(bytes))),
    {
        proof {
            reveal(take_properties);
        }
        let section = match read_properties_section(bytes) {
            Ok(section) => section,
            Err(e) => return Err(e),
        };
        if section.is_empty() {
            proof {
                parse_end(Owner::Unsubscribe, octets(section), Seq::empty());
            }
            return Ok(None);
        }
        match Self::read_section(section, order) {
            Ok(props) => Ok(Some(props)),
            Err(e) => Err(e),
        }
    }

    /// Reads the entries of a section that was isolated.
    fn read_section(section: Bytes, order: &mut Vec<u8>) -> (r: Result<UnsubscribeProperties, Error>)
        ensures
            match parse_entries(Owner::Unsubscribe, octets(section), Seq::empty()) {
                Ok(es) => r matches Ok(p) && p@ == canonical(Owner::Unsubscribe, es) && final(order)@
                    == old(order)@ + ids(es),
                Err(e) => r == Err::<UnsubscribeProperties, Error>(e),
            },
            final(order)@ == old(order)@ + noted_ids(Owner::Unsubscribe, octets(section), Seq::empty()),
    {
        let mut rest = section;
        let ghost mut es: Seq<Entry> = Seq::empty();
        let mut props = UnsubscribeProperties::default();
        let mut seen: u64 = 0;
        let mut count: usize = 0;
        proof {
            broadcast use pick_empty;

            tracks_nothing();
            assert(order@ =~= old(order)@ + ids(es));
            assert(pairs(props.user_properties@) =~= Seq::<Entry>::empty());
        }
        while !rest.is_empty()
            invariant
                parse_entries(Owner::Unsubscribe, octets(section), Seq::empty()) == parse_entries(
                    Owner::Unsubscribe,
                    octets(rest),
                    es,
                ),
                noted_ids(Owner::Unsubscribe, octets(section), Seq::empty()) == noted_ids(
                    Owner::Unsubscribe,
                    octets(rest),
                    es,
                ),
                tracks(seen, count, es),
                es.len() <= 1024,
                order@ == old(order)@ + ids(es),
                pairs(props.user_properties@) == pick(es, 38),
            decreases octets(rest).len(),
        {
            broadcast use {pick_push, group_take_shrinks};

            proof {
                parse_step(Owner::Unsubscribe, octets(rest), es);
            }
            let prop: u8 = match next_property(
                &mut rest,
                Owner::Unsubscribe,
                &mut seen,
                &mut count,
                order,
                Ghost(es),
            ) {
                Ok(prop) => prop,
                Err(e) => return Err(e),
            };
            assert(order@ =~= old(order)@ + ids(es).push(prop));
            let property = match property(prop) {
                Ok(property) => property,
                Err(e) => return Err(e),
            };
            match property {
                PropertyType::UserProperty => {
                    let key = match read_mqtt_string(&mut rest) {
                        Ok(v) => v,
                        Err(e) => return Err(e),
                    };
                    let value = match read_mqtt_string(&mut rest) {
                        Ok(v) => v,
                        Err(e) => return Err(e),
                    };
                    proof {
                        pairs_push(props.user_properties@, (key, value));
                        es = es.push((prop, Value::Pair(key@, value@)));
                    }
                    props.user_properties.push((key, value));
                },
                _ => return Err(Error::InvalidPropertyType(prop)),
            }
            assert(order@ =~= old(order)@ + ids(es));
        }
        proof {
            parse_end(Owner::Unsubscribe, octets(rest), es);
            unsubscribe_properties_are_picked(props, es);
        }
        Ok(props)
    }

    pub fn write(&self, buffer: &mut BytesMut) -> (r: Result<(), Error>)
        requires
            has_room(*old(buffer), section_len(self@) as int),
        ensures
            match writable(self@, None) {
                Some(es) => r is Ok && buffered(*final(buffer)) == buffered(*old(buffer))
                    + section_octets(es),
                None => r == Err::<(), Error>(Error::MalformedPacket) && buffered(*final(buffer))
                    == buffered(*old(buffer)),
            },
    {
        self.write_ordered(buffer, None)
    }

    pub(crate) fn write_ordered(&self, buffer: &mut BytesMut, order: Option<&[u8]>) -> (r: Result<
        (),
        Error,
    >)
        requires
            has_room(*old(buffer), section_len(self@) as int),
        ensures
            match writable(self@, order_of(order)) {
                Some(es) => r is Ok && buffered(*final(buffer)) == buffered(*old(buffer))
                    + section_octets(es),
                None => r == Err::<(), Error>(Error::MalformedPacket) && buffered(*final(buffer))
                    == buffered(*old(buffer)),
            },
    {
        let mut values: Vec<(u8, Property<'_>)> = Vec::new();
        broadcast use group_joined;

        assert(listed(values@) =~= Seq::<Entry>::empty());
        push_pairs(&mut values, &self.user_properties);
        write_properties(buffer, &values, order)
    }
}

/// Typed unsubscribe properties whose fields hold the entries that were read, each its own.
proof fn unsubscribe_properties_are_picked(p: UnsubscribeProperties, es: Seq<Entry>)
    requires
        pairs(p.user_properties@) == pick(es, 38),
    ensures
        p@ == canonical(Owner::Unsubscribe, es),
{
    let fields = p.fields();
    let keys = table(Owner::Unsubscribe);
    assert(keys.len() == 1);
    assert forall|i: int| 0 <= i < 1 implies #[trigger] fields[i] == pick(es, keys[i]) by {
    }
    assert(fields =~= picks(es, keys));
}

/// Each field of typed unsubscribe properties holds the entries of its own property.
pub proof fn unsubscribe_properties_have_fields(p: UnsubscribeProperties)
    ensures
        are_fields(Owner::Unsubscribe, p.fields()),
{
    let fields = p.fields();
    let keys = table(Owner::Unsubscribe);
    assert forall|i: int| 0 <= i < keys.len() implies is_field(
        Owner::Unsubscribe,
        #[trigger] keys[i],
        fields[i],
    ) by {
    }
}

/// The entries of typed unsubscribe properties may stand in a section where they can be written, and
/// they stand in the order of the typed fields.
proof fn unsubscribe_properties_are_valid(p: UnsubscribeProperties)
    requires
        entries_fit(p@),
    ensures
        valid_entries(Owner::Unsubscribe, p@),
        canonical(Owner::Unsubscribe, p@) == p@,
{
    unsubscribe_properties_have_fields(p);
    fields_are_valid(Owner::Unsubscribe, p.fields());
}

/// An unsubscribe packet that was written is read back: the fields behind the fixed header spell the
/// same packet, with the properties in the order in which they were written.
#[verifier::spinoff_prover]
#[verifier::rlimit(40)]
pub proof fn unsubscribe_round_trip(unsubscribe: Unsubscribe, order: Option<Seq<u8>>)
    requires
        unsubscribe@.encode(order).0 is Ok,
        unsubscribe.properties matches Some(p) ==> p@.len() > 0,
        unsubscribe.filters@.len() > 0,
        forall|i: int| 0 <= i < unsubscribe.filters@.len() ==> text_fits((#[trigger] unsubscribe.filters@[i])@),
    ensures
        ({
            let (n, out) = unsubscribe@.encode(order);
            let body = out.skip(1 + varint_len(unsubscribe@.len() as int) as int);
            let w = UnsubscribeModel { properties: written(unsubscribe@.properties, order), ..unsubscribe@ };
            &&& n == Ok::<usize, Error>(out.len() as usize)
            &&& out.len() == frame_len(unsubscribe@.len())
            &&& out == seq![0xA2u8] + varint(unsubscribe@.len()) + body
            &&& UnsubscribeModel::decode(body) == Ok::<UnsubscribeModel, Error>(w)
            &&& w.canonical() == unsubscribe@
            &&& order is Some && unsubscribe.properties is Some ==> w.order() == order->0
        }),
{
    let m = unsubscribe@;
    if let Some(p) = unsubscribe.properties {
        unsubscribe_properties_are_valid(p);
    }
    let section = writable_section(m.properties, order)->0;
    let tail = unsubscribe_filters_octets(m.filters);
    written_round_trip(Owner::Unsubscribe, m.properties, order, tail);
    emitted_fields(0xA2u8, m.len(), be16(m.pkid), section, tail);
    u16_round_trip(m.pkid, section + tail);
    assert(be16(m.pkid) + section + tail == be16(m.pkid) + (section + tail)) by {
        broadcast use append_assoc;
    }
    assert forall|i: int| 0 <= i < m.filters.len() implies text_fits(#[trigger] m.filters[i]) by {
        assert(text_fits(unsubscribe.filters@[i]@));
    }
    filters_round_trip(m.filters);
    filters_octets_nonempty(m.filters);
}

/// A filter takes one octet at least.
proof fn filters_octets_nonempty(filters: Seq<Seq<char>>)
    ensures
        filters.len() > 0 ==> unsubscribe_filters_octets(filters).len() > 0,
{
    if filters.len() > 0 {
        unsubscribe_filter_len(filters.last());
    }
}

/// The octets of the first filter stand in front.
pub(crate) proof fn filters_octets_front(filters: Seq<Seq<char>>)
    requires
        filters.len() > 0,
    ensures
        unsubscribe_filters_octets(filters) == unsubscribe_filter_octets(filters[0]) + unsubscribe_filters_octets(
            filters.skip(1),
        ),
    decreases filters.len(),
{
    if filters.len() == 1 {
        assert(filters.drop_last() =~= Seq::<Seq<char>>::empty());
        assert(filters.skip(1) =~= Seq::<Seq<char>>::empty());
        assert(unsubscribe_filters_octets(filters) =~= unsubscribe_filter_octets(filters[0])
            + unsubscribe_filters_octets(filters.skip(1)));
    } else {
        filters_octets_front(filters.drop_last());
        assert(filters.drop_last().skip(1) =~= filters.skip(1).drop_last());
        assert(filters.skip(1).last() == filters.last());
        broadcast use append_assoc;
    }
}

/// Filters are read back from their octets.
proof fn filters_round_trip(filters: Seq<Seq<char>>)
    requires
        forall|i: int| 0 <= i < filters.len() ==> text_fits(#[trigger] filters[i]),
    ensures
        unsubscribe_filters(unsubscribe_filters_octets(filters)) == Ok::<Seq<Seq<char>>, Error>(filters),
    decreases filters.len(),
{
    if filters.len() == 0 {
        assert(filters =~= Seq::<Seq<char>>::empty());
    } else {
        let tail = filters.skip(1);
        assert forall|i: int| 0 <= i < tail.len() implies text_fits(#[trigger] tail[i]) by {
            assert(tail[i] == filters[i + 1]);
        }
        filters_octets_front(filters);
        filters_octets_nonempty(filters);
        unsubscribe_filter_round_trip(filters[0], unsubscribe_filters_octets(tail));
        filters_round_trip(tail);
        assert(seq![filters[0]] + tail =~= filters);
    }
}

} // verus!
