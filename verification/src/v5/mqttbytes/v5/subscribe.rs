use bytes::{Buf, Bytes, BytesMut};
use vstd::prelude::*;
use vstd::utf8::encode_utf8;

use crate::octets::{be16, buffered, fits, has_room, octets, put_u16, put_u8};
use crate::v5::mqttbytes::{qos, qos_code, qos_number, qos_of, Error, QoS};
use super::frame::{emitted, emitted_fields, frame_len, FixedHeader};
use super::ordered::{listed, order_of, push_pairs, push_variable, write_properties, Property};
use super::property::{
    are_fields, canonical, canonical_opt, entries_fit, entries_len, entries_len_add,
    fields_are_valid, group_joined, ids, ids_opt, is_field, joined, next_property, noted_ids, pairs,
    pairs_len, pairs_push, parse_end, parse_entries, parse_step, pick, pick_empty, pick_push, picks,
    properties_len, property, section_ids, section_len, section_octets, table, take_properties,
    tracks, tracks_nothing, valid_entries, variable, variable_len, writable, writable_has_len,
    writable_section, written, written_round_trip, Entry, Owner, PropertyType, Value,
};
use super::wire::{
    append_assoc, group_take_shrinks, len_len, read_mqtt_string, read_properties_section, read_u16,
    read_u8, read_variable, take_text, take_text_shrinks, take_u16, take_u8, text_fits, text_octets,
    text_octets_len, text_round_trip, u16_round_trip, varint, varint_len, write_mqtt_string,
    write_remaining_length,
};

verus! {

broadcast use super::wire::group_octets_len;

/// Subscription packet
#[derive(Debug, Clone, PartialEq, Eq)]
pub struct Subscribe {
    pub pkid: u16,
    pub filters: Vec<Filter>,
    pub properties: Option<SubscribeProperties>,
}

/// What a subscribe packet holds. The entries of the properties stand in the order of the wire, or
/// in the order of the typed fields.
#[verifier::ext_equal]
pub struct SubscribeModel {
    pub pkid: u16,
    pub filters: Seq<FilterModel>,
    pub properties: Option<Seq<Entry>>,
}

/// Retain forward rule
#[derive(Debug, Clone, Copy, PartialEq, Eq, Structural)]
pub enum RetainForwardRule {
    OnEverySubscribe,
    OnNewSubscribe,
    Never,
}

impl RetainForwardRule {
    /// The number that stands for the rule on the wire.
    pub open spec fn number(self) -> u8 {
        match self {
            RetainForwardRule::OnEverySubscribe => 0,
            RetainForwardRule::OnNewSubscribe => 1,
            RetainForwardRule::Never => 2,
        }
    }

    /// The rule that a number on the wire stands for.
    pub open spec fn of(num: u8) -> Option<RetainForwardRule> {
        if num == 0 {
            Some(RetainForwardRule::OnEverySubscribe)
        } else if num == 1 {
            Some(RetainForwardRule::OnNewSubscribe)
        } else if num == 2 {
            Some(RetainForwardRule::Never)
        } else {
            None
        }
    }
}

///  Subscription filter
#[derive(Debug, Clone, PartialEq, Eq)]
pub struct Filter {
    pub path: String,
    pub qos: QoS,
    pub nolocal: bool,
    pub preserve_retain: bool,
    pub retain_forward_rule: RetainForwardRule,
}

/// What a filter of a subscription holds.
#[verifier::ext_equal]
pub struct FilterModel {
    pub path: Seq<char>,
    pub qos: QoS,
    pub nolocal: bool,
    pub preserve_retain: bool,
    pub retain_forward_rule: RetainForwardRule,
}

impl View for Filter {
    type V = FilterModel;

    open spec fn view(&self) -> FilterModel {
        FilterModel {
            path: self.path@,
            qos: self.qos,
            nolocal: self.nolocal,
            preserve_retain: self.preserve_retain,
            retain_forward_rule: self.retain_forward_rule,
        }
    }
}

impl FilterModel {
    /// The options of the filter: bits 1 and 2 hold the quality of service, bit 4 that own
    /// messages are not wanted, bit 8 that the retain flag is kept, bits 16 and 32 the rule.
    pub open spec fn options(self) -> u8 {
        (qos_number(self.qos) + (if self.nolocal {
            4int
        } else {
            0
        }) + (if self.preserve_retain {
            8int
        } else {
            0
        }) + 16 * self.retain_forward_rule.number()) as u8
    }
}

impl Filter {
    pub fn new<T: Into<String>>(path: T, qos: QoS) -> (r: Self)
        ensures
            call_ensures(<T as Into<String>>::into, (path,), r.path),
            r.qos == qos,
            !r.nolocal,
            !r.preserve_retain,
            r.retain_forward_rule == RetainForwardRule::OnEverySubscribe,
    {
        Filter {
            path: path.into(),
            qos,
            nolocal: false,
            preserve_retain: false,
            retain_forward_rule: RetainForwardRule::OnEverySubscribe,
        }
    }

    fn read(bytes: &mut Bytes) -> (r: Result<Filter, Error>)
        ensures
            match take_subscribe_filter(octets(*old(bytes))) {
                (Ok(f), rest) => r matches Ok(v) && v@ == f && octets(*final(bytes)) == rest,
                (Err(e), rest) => r == Err::<Filter, Error>(e),
            },
    {
        let path = match read_mqtt_string(bytes) {
            Ok(v) => v,
            Err(e) => return Err(e),
        };
        let options: u8 = match read_u8(bytes) {
            Ok(v) => v,
            Err(e) => return Err(e),
        };
        let rule: u8 = (options / 16) % 4;
        let retain_forward_rule = match rule {
            0 => RetainForwardRule::OnEverySubscribe,
            1 => RetainForwardRule::OnNewSubscribe,
            2 => RetainForwardRule::Never,
            rule => return Err(Error::InvalidRetainForwardRule(rule)),
        };
        let qos_num: u8 = options % 4;
        let qos = match qos(qos_num) {
            Some(qos) => qos,
            None => return Err(Error::InvalidQoS(qos_num)),
        };
        let nolocal = (options / 4) % 2 == 1;
        let preserve_retain = (options / 8) % 2 == 1;
        Ok(Filter { path, qos, nolocal, preserve_retain, retain_forward_rule })
    }

    fn write(&self, buffer: &mut BytesMut)
        requires
            has_room(*old(buffer), subscribe_filter_octets(self@).len() as int),
        ensures
            buffered(*final(buffer)) == buffered(*old(buffer)) + subscribe_filter_octets(self@),
    {
        let ghost start = buffered(*buffer);
        proof {
            subscribe_filter_len(self@);
        }
        let mut options: u8 = qos_code(self.qos);
        if self.nolocal {
            options = options + 4;
        }
        if self.preserve_retain {
            options = options + 8;
        }
        let rule: u8 = match self.retain_forward_rule {
            RetainForwardRule::OnEverySubscribe => 0,
            RetainForwardRule::OnNewSubscribe => 1,
            RetainForwardRule::Never => 2,
        };
        options = options + 16 * rule;
        write_mqtt_string(buffer, self.path.as_str());
        put_u8(buffer, options);
        assert(buffered(*buffer) =~= start + subscribe_filter_octets(self@));
    }
}

/// A filter at the front, and the octets after it.
pub open spec fn take_subscribe_filter(s: Seq<u8>) -> (Result<FilterModel, Error>, Seq<u8>) {
    match take_text(s) {
        (Err(e), rest) => (Err(e), rest),
        (Ok(path), rest) => match take_u8(rest) {
            (Err(e), rest) => (Err(e), rest),
            (Ok(options), rest) => match RetainForwardRule::of((options / 16) % 4) {
                None => (Err(Error::InvalidRetainForwardRule((options / 16) % 4)), rest),
                Some(retain_forward_rule) => match qos_of(options % 4) {
                    None => (Err(Error::InvalidQoS(options % 4)), rest),
                    Some(qos) => (
                        Ok(
                            FilterModel {
                                path,
                                qos,
                                nolocal: (options / 4) % 2 == 1,
                                preserve_retain: (options / 8) % 2 == 1,
                                retain_forward_rule,
                            },
                        ),
                        rest,
                    ),
                },
            },
        },
    }
}

/// The octets of a filter.
pub open spec fn subscribe_filter_octets(filter: FilterModel) -> Seq<u8> {
    text_octets(filter.path) + seq![filter.options()]
}

proof fn subscribe_filter_len(filter: FilterModel)
    ensures
        subscribe_filter_octets(filter).len() == 3 + encode_utf8(filter.path).len(),
{
    text_octets_len(filter.path);
}

proof fn subscribe_filter_shrinks(s: Seq<u8>)
    ensures
        take_subscribe_filter(s).0 is Ok ==> take_subscribe_filter(s).1.len() < s.len(),
{
    take_text_shrinks(s);
}

proof fn subscribe_filter_round_trip(filter: FilterModel, rest: Seq<u8>)
    requires
        text_fits(filter.path),
    ensures
        take_subscribe_filter(subscribe_filter_octets(filter) + rest) == (
            Ok::<FilterModel, Error>(filter),
            rest,
        ),
{
    let tail = seq![filter.options()] + rest;
    assert(subscribe_filter_octets(filter) + rest =~= text_octets(filter.path) + tail);
    text_round_trip(filter.path, tail);
    assert(tail.skip(1) =~= rest);
}

/// The filters that the octets `s` spell; the error of the first that is none.
pub open spec fn subscribe_filters(s: Seq<u8>) -> Result<Seq<FilterModel>, Error>
    decreases s.len(),
    via subscribe_filters_end
{
    if s.len() == 0 {
        Ok(Seq::empty())
    } else {
        match take_subscribe_filter(s) {
            (Err(e), _) => Err(e),
            (Ok(f), rest) => match subscribe_filters(rest) {
                Err(e) => Err(e),
                Ok(tail) => Ok(seq![f] + tail),
            },
        }
    }
}

#[via_fn]
proof fn subscribe_filters_end(s: Seq<u8>) {
    subscribe_filter_shrinks(s);
}

/// The octets of filters, one after the other.
pub open spec fn subscribe_filters_octets(filters: Seq<FilterModel>) -> Seq<u8>
    decreases filters.len(),
{
    if filters.len() == 0 {
        Seq::empty()
    } else {
        subscribe_filters_octets(filters.drop_last()) + subscribe_filter_octets(filters.last())
    }
}

/// The models of filters.
pub open spec fn subscribe_filter_models(filters: Seq<Filter>) -> Seq<FilterModel> {
    Seq::new(filters.len(), |i: int| filters[i]@)
}

impl SubscribeModel {
    /// The length of the fields behind the fixed header.
    pub open spec fn len(self) -> nat {
        2 + properties_len(self.properties) + subscribe_filters_octets(self.filters).len()
    }

    /// The packet that the octets behind a fixed header spell. There is one filter at least.
    pub open spec fn decode(body: Seq<u8>) -> Result<SubscribeModel, Error> {
        match take_u16(body) {
            (Err(e), _) => Err(e),
            (Ok(pkid), rest) => match take_properties(Owner::Subscribe, rest) {
                (Err(e), _) => Err(e),
                (Ok(properties), rest) => if rest.len() == 0 {
                    Err(Error::EmptySubscription)
                } else {
                    match subscribe_filters(rest) {
                        Err(e) => Err(e),
                        Ok(filters) => Ok(SubscribeModel { pkid, filters, properties }),
                    }
                },
            },
        }
    }

    /// The identifiers of properties that a reader of the octets behind the fixed header has noted
    /// when it ends or stops.
    pub open spec fn noted(body: Seq<u8>) -> Seq<u8> {
        match take_u16(body) {
            (Ok(_), rest) => section_ids(Owner::Subscribe, rest),
            (Err(_), _) => Seq::empty(),
        }
    }

    /// What a writer of the packet returns and appends.
    pub open spec fn encode(self, order: Option<Seq<u8>>) -> (Result<usize, Error>, Seq<u8>) {
        emitted(
            0x82u8,
            self.len(),
            be16(self.pkid),
            writable_section(self.properties, order),
            subscribe_filters_octets(self.filters),
        )
    }

    /// The packet with the entries in the order of the typed fields.
    pub open spec fn canonical(self) -> SubscribeModel {
        SubscribeModel { properties: canonical_opt(Owner::Subscribe, self.properties), ..self }
    }

    /// The identifiers of the properties, in order.
    pub open spec fn order(self) -> Seq<u8> {
        ids_opt(self.properties)
    }
}

impl View for Subscribe {
    type V = SubscribeModel;

    open spec fn view(&self) -> SubscribeModel {
        SubscribeModel {
            pkid: self.pkid,
            filters: subscribe_filter_models(self.filters@),
            properties: match self.properties {
                Some(p) => Some(p@),
                None => None,
            },
        }
    }
}

impl Subscribe {
    pub fn new(filter: Filter, properties: Option<SubscribeProperties>) -> (r: Self)
        ensures
            r.pkid == 0,
            r.filters@ == seq![filter],
            r.properties == properties,
    {
        let mut filters: Vec<Filter> = Vec::new();
        filters.push(filter);
        Subscribe { pkid: 0, filters, properties }
    }

    fn len(&self) -> (r: usize)
        requires
            self@.len() <= usize::MAX,
        ensures
            r == self@.len(),
    {
        let mut len: usize = 2;
        if let Some(p) = &self.properties {
            let properties_len: usize = p.len();
            let properties_len_len: usize = len_len(properties_len);
            len = len + properties_len_len + properties_len;
        } else {
            // just 1 byte representing 0 len
            len = len + 1;
        }
        len + filters_len(&self.filters)
    }

    pub fn size(&self) -> (r: usize)
        requires
            frame_len(self@.len()) <= usize::MAX,
        ensures
            r == frame_len(self@.len()),
    {
        let len: usize = self.len();
        let remaining_len_size: usize = len_len(len);
        1 + remaining_len_size + len
    }

    pub fn read(fixed_header: FixedHeader, bytes: Bytes) -> (r: Result<Subscribe, Error>)
        requires
            fixed_header.fixed_header_len <= octets(bytes).len(),
        ensures
            match SubscribeModel::decode(octets(bytes).skip(fixed_header.fixed_header_len as int)) {
                Ok(w) => r matches Ok(a) && a@ == w.canonical(),
                Err(e) => r == Err::<Subscribe, Error>(e),
            },
    {
        let mut order: Vec<u8> = Vec::new();
        Self::read_traced(fixed_header, bytes, &mut order)
    }

    pub(crate) fn read_traced(
        fixed_header: FixedHeader,
        bytes: Bytes,
        order: &mut Vec<u8>,
    ) -> (r: Result<Subscribe, Error>)
        requires
            fixed_header.fixed_header_len <= octets(bytes).len(),
        ensures
            match SubscribeModel::decode(octets(bytes).skip(fixed_header.fixed_header_len as int)) {
                Ok(w) => r matches Ok(a) && a@ == w.canonical() && final(order)@ == old(order)@
                    + w.order(),
                Err(e) => r == Err::<Subscribe, Error>(e),
            },
            final(order)@ == old(order)@ + SubscribeModel::noted(
                octets(bytes).skip(fixed_header.fixed_header_len as int),
            ),
    {
        let mut bytes = bytes;
        let variable_header_index: usize = fixed_header.fixed_header_len;
        bytes.advance(variable_header_index);
        assert(order@ =~= old(order)@ + Seq::<u8>::empty());
        let pkid: u16 = match read_u16(&mut bytes) {
            Ok(v) => v,
            Err(e) => return Err(e),
        };
        let properties = match SubscribeProperties::read_traced(&mut bytes, order) {
            Ok(v) => v,
            Err(e) => return Err(e),
        };
        if bytes.is_empty() {
            return Err(Error::EmptySubscription);
        }
        match read_filters(bytes) {
            Ok(filters) => Ok(Subscribe { pkid, filters, properties }),
            Err(e) => Err(e),
        }
    }

    pub fn write(&self, buffer: &mut BytesMut) -> (r: Result<usize, Error>)
        requires
            has_room(*old(buffer), frame_len(self@.len()) as int),
        ensures
            r == self@.encode(None).0,
            buffered(*final(buffer)) == buffered(*old(buffer)) + self@.encode(None).1,
    {
        self.write_ordered(buffer, None)
    }

    pub(crate) fn write_ordered(&self, buffer: &mut BytesMut, order: Option<&[u8]>) -> (r: Result<
        usize,
        Error,
    >)
        requires
            has_room(*old(buffer), frame_len(self@.len()) as int),
        ensures
            r == self@.encode(order_of(order)).0,
            buffered(*final(buffer)) == buffered(*old(buffer)) + self@.encode(order_of(order)).1,
    {
        let ghost start = buffered(*buffer);
        put_u8(buffer, 0x82);
        assert(buffered(*buffer) =~= start + seq![0x82u8]);
        let remaining_len: usize = self.len();
        let remaining_len_bytes: usize = match write_remaining_length(buffer, remaining_len) {
            Ok(count) => count,
            Err(e) => return Err(e),
        };
        put_u16(buffer, self.pkid);
        let ghost head = seq![0x82u8] + varint(remaining_len as nat) + be16(self.pkid);
        assert(buffered(*buffer) =~= start + head);
        if let Some(p) = &self.properties {
            if let Err(e) = p.write_ordered(buffer, order) {
                return Err(e);
            }
        } else {
            if let Err(e) = write_remaining_length(buffer, 0) {
                return Err(e);
            }
            assert(varint(0) =~= seq![0u8]);
        }
        let ghost section = writable_section(self@.properties, order_of(order))->0;
        proof {
            if let Some(es) = self@.properties {
                writable_has_len(es, order_of(order));
            }
        }
        write_filters(buffer, &self.filters);
        assert(buffered(*buffer) == start + (head + section + subscribe_filters_octets(self@.filters))) by {
            broadcast use append_assoc;
        }
        Ok(1 + remaining_len_bytes + remaining_len)
    }
}

/// The octets of the filters up to a position are no more than those of all filters.
proof fn prefix_octets(filters: Seq<FilterModel>, i: int)
    requires
        0 <= i < filters.len(),
    ensures
        subscribe_filters_octets(filters.take(i + 1)) == subscribe_filters_octets(filters.take(i))
            + subscribe_filter_octets(filters[i]),
        subscribe_filters_octets(filters.take(i + 1)).len() <= subscribe_filters_octets(filters).len(),
    decreases filters.len(),
{
    assert(filters.take(i + 1).drop_last() =~= filters.take(i));
    if i == filters.len() - 1 {
        assert(filters.take(i + 1) =~= filters);
    } else {
        prefix_octets(filters.drop_last(), i);
        assert(filters.drop_last().take(i + 1) =~= filters.take(i + 1));
    }
}

fn filters_len(filters: &Vec<Filter>) -> (r: usize)
    requires
        subscribe_filters_octets(subscribe_filter_models(filters@)).len() <= usize::MAX,
    ensures
        r == subscribe_filters_octets(subscribe_filter_models(filters@)).len(),
{
    let ghost all = subscribe_filter_models(filters@);
    let mut len: usize = 0;
    let mut i: usize = 0;
    assert(all.take(0) =~= Seq::<FilterModel>::empty());
    while i < filters.len()
        invariant
            i <= filters@.len(),
            all == subscribe_filter_models(filters@),
            subscribe_filters_octets(all).len() <= usize::MAX,
            len == subscribe_filters_octets(all.take(i as int)).len(),
        decreases filters@.len() - i,
    {
        proof {
            prefix_octets(all, i as int);
            subscribe_filter_len(all[i as int]);
        }
        len = len + 3 + filters[i].path.as_str().as_bytes().len();
        i = i + 1;
    }
    assert(all.take(i as int) =~= all);
    len
}

/// Reads filters up to the end.
fn read_filters(bytes: Bytes) -> (r: Result<Vec<Filter>, Error>)
    ensures
        match subscribe_filters(octets(bytes)) {
            Ok(filters) => r matches Ok(v) && subscribe_filter_models(v@) == filters,
            Err(e) => r == Err::<Vec<Filter>, Error>(e),
        },
{
    let ghost total = subscribe_filters(octets(bytes));
    let mut rest = bytes;
    let mut filters: Vec<Filter> = Vec::new();
    assert(subscribe_filter_models(filters@) =~= Seq::<FilterModel>::empty());
    proof {
        if let Ok(tail) = total {
            assert(Seq::<FilterModel>::empty() + tail =~= tail);
        }
    }
    while !rest.is_empty()
        invariant
            total == match subscribe_filters(octets(rest)) {
                Ok(tail) => Ok::<Seq<FilterModel>, Error>(subscribe_filter_models(filters@) + tail),
                Err(e) => Err(e),
            },
            total == subscribe_filters(octets(bytes)),
        decreases octets(rest).len(),
    {
        proof {
            subscribe_filter_shrinks(octets(rest));
        }
        let filter = match Filter::read(&mut rest) {
            Ok(v) => v,
            Err(e) => return Err(e),
        };
        proof {
            let done = subscribe_filter_models(filters@);
            assert(subscribe_filter_models(filters@.push(filter)) =~= done.push(filter@));
            if let Ok(tail) = subscribe_filters(octets(rest)) {
                assert(done + (seq![filter@] + tail) =~= done.push(filter@) + tail);
            }
        }
        filters.push(filter);
    }
    assert(subscribe_filter_models(filters@) + Seq::<FilterModel>::empty() =~= subscribe_filter_models(
        filters@,
    ));
    Ok(filters)
}

/// Appends the filters.
fn write_filters(buffer: &mut BytesMut, filters: &Vec<Filter>)
    requires
        has_room(
            *old(buffer),
            subscribe_filters_octets(subscribe_filter_models(filters@)).len() as int,
        ),
    ensures
        buffered(*final(buffer)) == buffered(*old(buffer)) + subscribe_filters_octets(
            subscribe_filter_models(filters@),
        ),
{
    let ghost start = buffered(*buffer);
    let ghost all = subscribe_filter_models(filters@);
    let mut i: usize = 0;
    assert(all.take(0) =~= Seq::<FilterModel>::empty());
    assert(start + Seq::<u8>::empty() =~= start);
    while i < filters.len()
        invariant
            i <= filters@.len(),
            all == subscribe_filter_models(filters@),
            fits((start.len() + subscribe_filters_octets(all).len()) as int),
            buffered(*buffer) == start + subscribe_filters_octets(all.take(i as int)),
        decreases filters@.len() - i,
    {
        proof {
            prefix_octets(all, i as int);
            subscribe_filter_len(all[i as int]);
        }
        filters[i].write(buffer);
        assert(buffered(*buffer) == start + subscribe_filters_octets(all.take(i + 1))) by {
            broadcast use append_assoc;
        }
        i = i + 1;
    }
    assert(all.take(i as int) =~= all);
}

#[derive(Debug, Clone, PartialEq, Eq)]
pub struct SubscribeProperties {
    pub id: Option<usize>,
    pub user_properties: Vec<(String, String)>,
}

impl View for SubscribeProperties {
    type V = Seq<Entry>;

    /// The entries in the order in which they are written by default.
    open spec fn view(&self) -> Seq<Entry> {
        joined(self.fields())
    }
}

impl Default for SubscribeProperties {
    fn default() -> (r: Self)
        ensures
            r.id is None,
            r.user_properties@.len() == 0,
    {
        SubscribeProperties {
            id: None,
            user_properties: Vec::new(),
        }
    }
}

impl SubscribeProperties {
    /// The entries of each field.
    pub open spec fn fields(self) -> Seq<Seq<Entry>> {
        Seq::empty()
            .push(variable(11, self.id))
            .push(pairs(self.user_properties@))
    }

    fn len(&self) -> (r: usize)
        requires
            entries_len(self@) <= usize::MAX,
        ensures
            r == entries_len(self@),
    {
        broadcast use {entries_len_add, group_joined};

        let mut len: usize = 0;
        len = len + variable_len(11, self.id);
        len = len + pairs_len(&self.user_properties);
        len
    }

    pub fn read(bytes: &mut Bytes) -> (r: Result<Option<SubscribeProperties>, Error>)
        ensures
            match take_properties(Owner::Subscribe, octets(*old(bytes))) {
                (Ok(None), rest) => r matches Ok(None) && octets(*final(bytes)) == rest,
                (Ok(Some(es)), rest) => r matches Ok(Some(p)) && p@ == canonical(Owner::Subscribe, es)
                    && octets(*final(bytes)) == rest,
                (Err(e), rest) => r == Err::<Option<SubscribeProperties>, Error>(e) && octets(
                    *final(bytes),
                ) == rest,
            },
    {
        let mut order: Vec<u8> = Vec::new();
        Self::read_traced(bytes, &mut order)
    }

    pub(crate) fn read_traced(bytes: &mut Bytes, order: &mut Vec<u8>) -> (r: Result<
        Option<SubscribeProperties>,
        Error,
    >)
        ensures
            match take_properties(Owner::Subscribe, octets(*old(bytes))) {
                (Ok(None), rest) => r matches Ok(None) && octets(*final(bytes)) == rest
                    && final(order)@ == old(order)@,
                (Ok(Some(es)), rest) => r matches Ok(Some(p)) && p@ == canonical(Owner::Subscribe, es)
                    && octets(*final(bytes)) == rest && final(order)@ == old(order)@ + ids(es),
                (Err(e), rest) => r == Err::<Option<SubscribeProperties>, Error>(e) && octets(
                    *final(bytes),
                ) == rest,
            },
            final(order)@ == old(order)@ + section_ids(Owner::Subscribe, octets(*old(bytes))),
    {
        proof {
            reveal(take_properties);
        }
        let section = match read_properties_section(bytes) {
            Ok(section) => section,
            Err(e) => return Err(e),
        };
        if section.is_empty() {
            proof {
                parse_end(Owner::Subscribe, octets(section), Seq::empty());
            }
            return Ok(None);
        }
        match Self::read_section(section, order) {
            Ok(props) => Ok(Some(props)),
            Err(e) => Err(e),
        }
    }

    /// Reads the entries of a section that was isolated.
    fn read_section(section: Bytes, order: &mut Vec<u8>) -> (r: Result<SubscribeProperties, Error>)
        ensures
            match parse_entries(Owner::Subscribe, octets(section), Seq::empty()) {
                Ok(es) => r matches Ok(p) && p@ == canonical(Owner::Subscribe, es) && final(order)@
                    == old(order)@ + ids(es),
                Err(e) => r == Err::<SubscribeProperties, Error>(e),
            },
            final(order)@ == old(order)@ + noted_ids(Owner::Subscribe, octets(section), Seq::empty()),
    {
        let mut rest = section;
        let ghost mut es: Seq<Entry> = Seq::empty();
        let mut props = SubscribeProperties::default();
        let mut seen: u64 = 0;
        let mut count: usize = 0;
        proof {
            broadcast use pick_empty;

            tracks_nothing();
            assert(order@ =~= old(order)@ + ids(es));
            assert(pairs(props.user_properties@) =~= Seq::<Entry>::empty());
        }
        while !rest.is_empty()
            invariant
                parse_entries(Owner::Subscribe, octets(section), Seq::empty()) == parse_entries(
                    Owner::Subscribe,
                    octets(rest),
                    es,
                ),
                noted_ids(Owner::Subscribe, octets(section), Seq::empty()) == noted_ids(
                    Owner::Subscribe,
                    octets(rest),
                    es,
                ),
                tracks(seen, count, es),
                es.len() <= 1024,
                order@ == old(order)@ + ids(es),
                variable(11, props.id) == pick(es, 11),
                pairs(props.user_properties@) == pick(es, 38),
            decreases octets(rest).len(),
        {
            broadcast use {pick_push, group_take_shrinks};

            proof {
                parse_step(Owner::Subscribe, octets(rest), es);
            }
            let prop: u8 = match next_property(
                &mut rest,
                Owner::Subscribe,
                &mut seen,
                &mut count,
                order,
                Ghost(es),
            ) {
                Ok(prop) => prop,
                Err(e) => return Err(e),
            };
            assert(order@ =~= old(order)@ + ids(es).push(prop));
            let property = match property(prop) {
                Ok(property) => property,
                Err(e) => return Err(e),
            };
            match property {
                PropertyType::SubscriptionIdentifier => {
                    let value: usize = match read_variable(&mut rest) {
                        Ok(v) => v,
                        Err(e) => return Err(e),
                    };
                    proof {
                        es = es.push((prop, Value::Variable(value)));
                    }
                    props.id = Some(value);
                },
                PropertyType::UserProperty => {
                    let key = match read_mqtt_string(&mut rest) {
                        Ok(v) => v,
                        Err(e) => return Err(e),
                    };
                    let value = match read_mqtt_string(&mut rest) {
                        Ok(v) => v,
                        Err(e) => return Err(e),
                    };
                    proof {
                        pairs_push(props.user_properties@, (key, value));
                        es = es.push((prop, Value::Pair(key@, value@)));
                    }
                    props.user_properties.push((key, value));
                },
                _ => return Err(Error::InvalidPropertyType(prop)),
            }
            assert(order@ =~= old(order)@ + ids(es));
        }
        proof {
            parse_end(Owner::Subscribe, octets(rest), es);
            subscribe_properties_are_picked(props, es);
        }
        Ok(props)
    }

    pub fn write(&self, buffer: &mut BytesMut) -> (r: Result<(), Error>)
        requires
            has_room(*old(buffer), section_len(self@) as int),
        ensures
            match writable(self@, None) {
                Some(es) => r is Ok && buffered(*final(buffer)) == buffered(*old(buffer))
                    + section_octets(es),
                None => r == Err::<(), Error>(Error::MalformedPacket) && buffered(*final(buffer))
                    == buffered(*old(buffer)),
            },
    {
        self.write_ordered(buffer, None)
    }

    pub(crate) fn write_ordered(&self, buffer: &mut BytesMut, order: Option<&[u8]>) -> (r: Result<
        (),
        Error,
    >)
        requires
            has_room(*old(buffer), section_len(self@) as int),
        ensures
            match writable(self@, order_of(order)) {
                Some(es) => r is Ok && buffered(*final(buffer)) == buffered(*old(buffer))
                    + section_octets(es),
                None => r == Err::<(), Error>(Error::MalformedPacket) && buffered(*final(buffer))
                    == buffered(*old(buffer)),
            },
    {
        let mut values: Vec<(u8, Property<'_>)> = Vec::new();
        broadcast use group_joined;

        assert(listed(values@) =~= Seq::<Entry>::empty());
        push_variable(&mut values, 11, self.id);
        push_pairs(&mut values, &self.user_properties);
        write_properties(buffer, &values, order)
    }
}

/// Typed subscribe properties whose fields hold the entries that were read, each its own.
proof fn subscribe_properties_are_picked(p: SubscribeProperties, es: Seq<Entry>)
    requires
        variable(11, p.id) == pick(es, 11),
        pairs(p.user_properties@) == pick(es, 38),
    ensures
        p@ == canonical(Owner::Subscribe, es),
{
    let fields = p.fields();
    let keys = table(Owner::Subscribe);
    assert(keys.len() == 2);
    assert forall|i: int| 0 <= i < 2 implies #[trigger] fields[i] == pick(es, keys[i]) by {
        if i == 0 {
            assert(fields[0] == variable(11, p.id) && keys[0] == 11);
        }
    }
    assert(fields =~= picks(es, keys));
}

/// Each field of typed subscribe properties holds the entries of its own property.
pub proof fn subscribe_properties_have_fields(p: SubscribeProperties)
    ensures
        are_fields(Owner::Subscribe, p.fields()),
{
    let fields = p.fields();
    let keys = table(Owner::Subscribe);
    assert forall|i: int| 0 <= i < keys.len() implies is_field(
        Owner::Subscribe,
        #[trigger] keys[i],
        fields[i],
    ) by {
        if i == 0 {
            assert(fields[0] == variable(11, p.id) && keys[0] == 11);
        }
    }
}

/// The entries of typed subscribe properties may stand in a section where they can be written, and
/// they stand in the order of the typed fields.
proof fn subscribe_properties_are_valid(p: SubscribeProperties)
    requires
        entries_fit(p@),
    ensures
        valid_entries(Owner::Subscribe, p@),
        canonical(Owner::Subscribe, p@) == p@,
{
    subscribe_properties_have_fields(p);
    fields_are_valid(Owner::Subscribe, p.fields());
}

/// A subscribe packet that was written is read back: the fields behind the fixed header spell the
/// same packet, with the properties in the order in which they were written.
#[verifier::spinoff_prover]
#[verifier::rlimit(40)]
pub proof fn subscribe_round_trip(subscribe: Subscribe, order: Option<Seq<u8>>)
    requires
        subscribe@.encode(order).0 is Ok,
        subscribe.properties matches Some(p) ==> p@.len() > 0,
        subscribe.filters@.len() > 0,
        forall|i: int| 0 <= i < subscribe.filters@.len() ==> text_fits((#[trigger] subscribe.filters@[i])@.path),
    ensures
        ({
            let (n, out) = subscribe@.encode(order);
            let body = out.skip(1 + varint_len(subscribe@.len() as int) as int);
            let w = SubscribeModel { properties: written(subscribe@.properties, order), ..subscribe@ };
            &&& n == Ok::<usize, Error>(out.len() as usize)
            &&& out.len() == frame_len(subscribe@.len())
            &&& out == seq![0x82u8] + varint(subscribe@.len()) + body
            &&& SubscribeModel::decode(body) == Ok::<SubscribeModel, Error>(w)
            &&& w.canonical() == subscribe@
            &&& order is Some && subscribe.properties is Some ==> w.order() == order->0
        }),
{
    let m = subscribe@;
    if let Some(p) = subscribe.properties {
        subscribe_properties_are_valid(p);
    }
    let section = writable_section(m.properties, order)->0;
    let tail = subscribe_filters_octets(m.filters);
    written_round_trip(Owner::Subscribe, m.properties, order, tail);
    emitted_fields(0x82u8, m.len(), be16(m.pkid), section, tail);
    u16_round_trip(m.pkid, section + tail);
    assert(be16(m.pkid) + section + tail == be16(m.pkid) + (section + tail)) by {
        broadcast use append_assoc;
    }
    assert forall|i: int| 0 <= i < m.filters.len() implies text_fits(#[trigger] m.filters[i].path) by {
        assert(text_fits(subscribe.filters@[i]@.path));
    }
    filters_round_trip(m.filters);
    filters_octets_nonempty(m.filters);
}

/// A filter takes one octet at least.
proof fn filters_octets_nonempty(filters: Seq<FilterModel>)
    ensures
        filters.len() > 0 ==> subscribe_filters_octets(filters).len() > 0,
{
    if filters.len() > 0 {
        subscribe_filter_len(filters.last());
    }
}

/// The octets of the first filter stand in front.
pub(crate) proof fn filters_octets_front(filters: Seq<FilterModel>)
    requires
        filters.len() > 0,
    ensures
        subscribe_filters_octets(filters) == subscribe_filter_octets(filters[0]) + subscribe_filters_octets(
            filters.skip(1),
        ),
    decreases filters.len(),
{
    if filters.len() == 1 {
        assert(filters.drop_last() =~= Seq::<FilterModel>::empty());
        assert(filters.skip(1) =~= Seq::<FilterModel>::empty());
        assert(subscribe_filters_octets(filters) =~= subscribe_filter_octets(filters[0])
            + subscribe_filters_octets(filters.skip(1)));
    } else {
        filters_octets_front(filters.drop_last());
        assert(filters.drop_last().skip(1) =~= filters.skip(1).drop_last());
        assert(filters.skip(1).last() == filters.last());
        broadcast use append_assoc;
    }
}

/// Filters are read back from their octets.
proof fn filters_round_trip(filters: Seq<FilterModel>)
    requires
        forall|i: int| 0 <= i < filters.len() ==> text_fits(#[trigger] filters[i].path),
    ensures
        subscribe_filters(subscribe_filters_octets(filters)) == Ok::<Seq<FilterModel>, Error>(filters),
    decreases filters.len(),
{
    if filters.len() == 0 {
        assert(filters =~= Seq::<FilterModel>::empty());
    } else {
        let tail = filters.skip(1);
        assert forall|i: int| 0 <= i < tail.len() implies text_fits(#[trigger] tail[i].path) by {
            assert(tail[i] == filters[i + 1]);
        }
        filters_octets_front(filters);
        filters_octets_nonempty(filters);
        subscribe_filter_round_trip(filters[0], subscribe_filters_octets(tail));
        filters_round_trip(tail);
        assert(seq![filters[0]] + tail =~= filters);
    }
}

} // verus!
