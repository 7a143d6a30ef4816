//! One property encoder shared by canonical and caller-ordered packet writers.
use bytes::{Bytes, BytesMut};
use vstd::prelude::*;

use crate::octets::{buffered, fits, has_room, put_u16, put_u32, put_u8};
use crate::text::contains_nul;
use crate::v5::mqttbytes::Error;
use super::property::{
    binary, byte, entries_fit, entries_have_len, entries_len, entries_octets, entry_octets, integer,
    pairs, position, position_is_first, rearrange, rearrange_keeps_entries, rearrange_needs_len,
    section_len, section_octets, short, text, value_fits, value_len, value_octets,
    value_takes_its_size, variable, variables, writable, Entry, Value,
};
use super::wire::{
    len_len, text_fits, varint_has_len, write_mqtt_bytes, write_mqtt_string, write_remaining_length,
    MAX_VARINT,
};

verus! {

broadcast use super::wire::group_octets_len;

/// Original order of decoded property identifiers. Repeated identifiers occur
/// once per occurrence. Values remain in the corresponding typed property fields.
#[derive(Debug, Clone, PartialEq, Eq)]
pub struct PropertyOrder {
    pub packet: Vec<u8>,
    pub will: Vec<u8>,
}

impl Default for PropertyOrder {
    fn default() -> (r: Self)
        ensures
            r.packet@ == Seq::<u8>::empty(),
            r.will@ == Seq::<u8>::empty(),
    {
        PropertyOrder { packet: Vec::new(), will: Vec::new() }
    }
}

/// The order that was asked for the properties of a packet, if any.
pub open spec fn packet_order(order: Option<&PropertyOrder>) -> Option<Seq<u8>> {
    match order {
        Some(o) => Some(o.packet@),
        None => None,
    }
}

/// The order that was asked for the properties of a will, if any.
pub open spec fn will_order(order: Option<&PropertyOrder>) -> Option<Seq<u8>> {
    match order {
        Some(o) => Some(o.will@),
        None => None,
    }
}

/// A property as it is written.
pub enum Property<'a> {
    Byte(u8),
    Short(u16),
    Integer(u32),
    Variable(usize),
    String(&'a str),
    Binary(&'a [u8]),
    Pair(&'a str, &'a str),
}

/// The entries that a list of properties stands for.
pub(crate) open spec fn listed(values: Seq<(u8, Property<'_>)>) -> Seq<Entry> {
    Seq::new(values.len(), |i: int| (values[i].0, values[i].1.value()))
}

/// The length of a string with its two octets in front, where it can stand in a packet.
fn text_size(s: &str) -> (r: Result<usize, Error>)
    ensures
        r == (if text_fits(s@) {
            Ok::<usize, Error>((2 + vstd::utf8::encode_utf8(s@).len()) as usize)
        } else {
            Err(Error::MalformedPacket)
        }),
{
    let len: usize = s.as_bytes().len();
    if len > 65535 || contains_nul(s) {
        return Err(Error::MalformedPacket);
    }
    Ok(2 + len)
}

impl Property<'_> {
    /// The value of a property.
    pub open spec fn value(self) -> Value {
        match self {
            Property::Byte(v) => Value::Byte(v),
            Property::Short(v) => Value::Short(v),
            Property::Integer(v) => Value::Integer(v),
            Property::Variable(v) => Value::Variable(v),
            Property::String(v) => Value::Text(v@),
            Property::Binary(v) => Value::Binary(v@),
            Property::Pair(k, v) => Value::Pair(k@, v@),
        }
    }

    /// The length of a value, where it can stand in a packet.
    pub fn size(&self) -> (r: Result<usize, Error>)
        ensures
            r == (if value_fits(self.value()) {
                Ok::<usize, Error>(value_len(self.value()) as usize)
            } else {
                Err(Error::MalformedPacket)
            }),
            r matches Ok(n) ==> n == value_len(self.value()) && n <= 131_074,
    {
        match self {
            Property::Byte(_) => Ok(1),
            Property::Short(_) => Ok(2),
            Property::Integer(_) => Ok(4),
            Property::Variable(v) => if *v <= MAX_VARINT {
                Ok(len_len(*v))
            } else {
                Err(Error::MalformedPacket)
            },
            Property::String(s) => text_size(s),
            Property::Binary(b) => if b.len() <= 65535 {
                Ok(2 + b.len())
            } else {
                Err(Error::MalformedPacket)
            },
            Property::Pair(k, v) => match text_size(k) {
                Ok(m) => match text_size(v) {
                    Ok(n) => Ok(m + n),
                    Err(e) => Err(e),
                },
                Err(e) => Err(e),
            },
        }
    }

    /// Writes a value. A number that is too large is refused; a text or data that is too long
    /// gets the lower sixteen bits of its length in front.
    pub fn write(&self, buffer: &mut BytesMut) -> (r: Result<(), Error>)
        requires
            has_room(*old(buffer), value_len(self.value()) as int),
        ensures
            if self.value() matches Value::Variable(v) && v > MAX_VARINT {
                r == Err::<(), Error>(Error::PayloadTooLong) && buffered(*final(buffer))
                    == buffered(*old(buffer))
            } else {
                r is Ok && buffered(*final(buffer)) == buffered(*old(buffer)) + value_octets(
                    self.value(),
                )
            },
            value_fits(self.value()) ==> buffered(*final(buffer)).len() == buffered(
                *old(buffer),
            ).len() + value_len(self.value()),
    {
        proof {
            value_takes_its_size(self.value());
        }
        let ghost s = buffered(*buffer);
        match self {
            Property::Byte(v) => {
                put_u8(buffer, *v);
                assert(buffered(*buffer) =~= s + seq![*v]);
            },
            Property::Short(v) => put_u16(buffer, *v),
            Property::Integer(v) => put_u32(buffer, *v),
            Property::Variable(v) => {
                return match write_remaining_length(buffer, *v) {
                    Ok(_) => Ok(()),
                    Err(e) => Err(e),
                };
            },
            Property::String(v) => write_mqtt_string(buffer, v),
            Property::Binary(v) => write_mqtt_bytes(buffer, v),
            Property::Pair(k, v) => {
                write_mqtt_string(buffer, k);
                write_mqtt_string(buffer, v);
                assert(buffered(*buffer) =~= s + value_octets(self.value()));
            },
        }
        Ok(())
    }
}

// The entries that are still to be placed ----------------------------------------------------

/// The entries whose mark is not set, in order.
spec fn unused(es: Seq<Entry>, used: Seq<bool>) -> Seq<Entry>
    decreases es.len(),
{
    if es.len() == 0 {
        Seq::empty()
    } else if used[es.len() - 1] {
        unused(es.drop_last(), used)
    } else {
        unused(es.drop_last(), used).push(es.last())
    }
}

/// Without a mark all entries are still to be placed.
proof fn unused_of_none(es: Seq<Entry>, used: Seq<bool>)
    requires
        es.len() <= used.len(),
        forall|i: int| 0 <= i < used.len() ==> !used[i],
    ensures
        unused(es, used) == es,
    decreases es.len(),
{
    if es.len() > 0 {
        unused_of_none(es.drop_last(), used);
        assert(es.drop_last().push(es.last()) =~= es);
    }
}

/// What marking one entry does to the entries that are still to be placed.
proof fn unused_split(es: Seq<Entry>, used: Seq<bool>, i: int) -> (back: Seq<Entry>)
    requires
        0 <= i < es.len() <= used.len(),
        !used[i],
    ensures
        unused(es, used) == unused(es.take(i), used) + seq![es[i]] + back,
        unused(es, used.update(i, true)) == unused(es.take(i), used) + back,
    decreases es.len(),
{
    let rest = es.drop_last();
    if i == es.len() - 1 {
        assert(es.take(i) =~= rest);
        unused_ignores(rest, used, i);
        assert(unused(es, used) =~= unused(es.take(i), used) + seq![es[i]] + Seq::<Entry>::empty());
        assert(unused(es.take(i), used) + Seq::<Entry>::empty() =~= unused(es.take(i), used));
        Seq::empty()
    } else {
        let back = unused_split(rest, used, i);
        assert(es.take(i) =~= rest.take(i));
        if used[es.len() - 1] {
            back
        } else {
            let more = back.push(es.last());
            assert((unused(es.take(i), used) + seq![es[i]] + back).push(es.last()) =~= unused(
                es.take(i),
                used,
            ) + seq![es[i]] + more);
            assert((unused(es.take(i), used) + back).push(es.last()) =~= unused(es.take(i), used)
                + more);
            more
        }
    }
}

/// A mark past the end has no effect.
proof fn unused_ignores(es: Seq<Entry>, used: Seq<bool>, i: int)
    requires
        es.len() <= i < used.len(),
    ensures
        unused(es, used.update(i, true)) == unused(es, used),
    decreases es.len(),
{
    if es.len() > 0 {
        unused_ignores(es.drop_last(), used, i);
    }
}

/// An identifier that no unmarked entry has is not among the entries to be placed.
proof fn unused_lacks(es: Seq<Entry>, used: Seq<bool>, id: u8)
    requires
        es.len() <= used.len(),
        forall|j: int| 0 <= j < es.len() ==> used[j] || (#[trigger] es[j]).0 != id,
    ensures
        forall|j: int|
            0 <= j < unused(es, used).len() ==> (#[trigger] unused(es, used)[j]).0 != id,
    decreases es.len(),
{
    if es.len() > 0 {
        let rest = es.drop_last();
        assert forall|j: int| 0 <= j < rest.len() implies used[j] || (#[trigger] rest[j]).0
            != id by {
            assert(es[j] == rest[j]);
        }
        unused_lacks(rest, used, id);
        assert(used[es.len() - 1] || es[es.len() - 1].0 != id);
        let u = unused(es, used);
        assert forall|j: int| 0 <= j < u.len() implies (#[trigger] u[j]).0 != id by {
            if j < unused(rest, used).len() {
                assert(u[j] == unused(rest, used)[j]);
            }
        }
    }
}

/// Placing the first unmarked entry of an identifier.
proof fn place_entry(es: Seq<Entry>, used: Seq<bool>, i: int)
    requires
        0 <= i < es.len() <= used.len(),
        !used[i],
        forall|j: int| 0 <= j < i ==> used[j] || (#[trigger] es[j]).0 != es[i].0,
    ensures
        ({
            let u = unused(es, used);
            let p = position(u, es[i].0) as int;
            &&& p < u.len()
            &&& u[p] == es[i]
            &&& u.remove(p) == unused(es, used.update(i, true))
        }),
{
    let id = es[i].0;
    let u = unused(es, used);
    let front = unused(es.take(i), used);
    let back = unused_split(es, used, i);
    unused_lacks(es.take(i), used, id);
    position_is_first(u, id);
    let p = position(u, id) as int;
    let n = front.len() as int;
    assert(u[n] == es[i]);
    assert(p <= n);
    if p < n {
        assert(u[p] == front[p]);
    }
    assert(u.remove(p) =~= front + back);
}

/// The values at the positions that were chosen.
spec fn chosen(es: Seq<Entry>, indices: Seq<usize>) -> Seq<Entry> {
    Seq::new(indices.len(), |i: int| es[indices[i] as int])
}

/// The positions of the values in the order asked for.
fn ordered_indices(values: &Vec<(u8, Property<'_>)>, order: &[u8]) -> (r: Result<Vec<usize>, Error>)
    ensures
        match r {
            Ok(indices) => rearrange(listed(values@), order@) == Some(
                chosen(listed(values@), indices@),
            ) && forall|j: int| 0 <= j < indices@.len() ==> (#[trigger] indices@[j]) < values@.len(),
            Err(e) => e == Error::MalformedPacket && rearrange(listed(values@), order@) is None,
        },
{
    let ghost es = listed(values@);
    if order.len() != values.len() {
        proof {
            rearrange_needs_len(es, order@);
        }
        return Err(Error::MalformedPacket);
    }
    let mut indices: Vec<usize> = Vec::new();
    let mut used: Vec<bool> = vec![false; values.len()];
    let mut k: usize = 0;
    proof {
        unused_of_none(es, used@);
        assert(order@.skip(0) =~= order@);
        assert(chosen(es, indices@) =~= Seq::<Entry>::empty());
        if let Some(t) = rearrange(es, order@) {
            assert(Seq::<Entry>::empty() + t =~= t);
        }
    }
    while k < order.len()
        invariant
            k <= order@.len(),
            order@.len() == values@.len(),
            es == listed(values@),
            used@.len() == values@.len(),
            unused(es, used@).len() == order@.len() - k,
            forall|j: int| 0 <= j < indices@.len() ==> (#[trigger] indices@[j]) < values@.len(),
            rearrange(es, order@) == match rearrange(unused(es, used@), order@.skip(k as int)) {
                Some(t) => Some(chosen(es, indices@) + t),
                None => None,
            },
        decreases order@.len() - k,
    {
        let id: u8 = order[k];
        let mut i: usize = 0;
        while i < values.len() && (used[i] || values[i].0 != id)
            invariant
                i <= values@.len(),
                used@.len() == values@.len(),
                es == listed(values@),
                forall|j: int| 0 <= j < i ==> used@[j] || (#[trigger] es[j]).0 != id,
            decreases values@.len() - i,
        {
            i = i + 1;
        }
        let ghost u = unused(es, used@);
        let ghost rest = order@.skip(k as int);
        assert(rest[0] == id);
        if i == values.len() {
            proof {
                unused_lacks(es, used@, id);
                position_is_first(u, id);
            }
            return Err(Error::MalformedPacket);
        }
        proof {
            assert(es[i as int].0 == id);
            place_entry(es, used@, i as int);
            assert(rest.skip(1) =~= order@.skip(k + 1));
            let t = rearrange(unused(es, used@.update(i as int, true)), order@.skip(k + 1));
            assert(chosen(es, indices@.push(i)) =~= chosen(es, indices@) + seq![es[i as int]]);
            if let Some(t) = t {
                assert(chosen(es, indices@) + (seq![es[i as int]] + t) =~= chosen(
                    es,
                    indices@.push(i),
                ) + t);
            }
        }
        used.set(i, true);
        indices.push(i);
        k = k + 1;
    }
    proof {
        assert(unused(es, used@) =~= Seq::<Entry>::empty());
        assert(order@.skip(k as int) =~= Seq::<u8>::empty());
        assert(chosen(es, indices@) + Seq::<Entry>::empty() =~= chosen(es, indices@));
    }
    Ok(indices)
}

/// The number of octets that the values take, where each of them can be written.
fn entries_size(values: &Vec<(u8, Property<'_>)>) -> (r: Result<usize, Error>)
    requires
        values@.len() <= 1024,
    ensures
        match r {
            Ok(n) => entries_fit(listed(values@)) && n == entries_len(listed(values@)),
            Err(e) => e == Error::MalformedPacket && !entries_fit(listed(values@)),
        },
{
    let ghost es = listed(values@);
    let mut total: usize = 0;
    let mut i: usize = 0;
    assert(es.take(0) =~= Seq::<Entry>::empty());
    while i < values.len()
        invariant
            i <= values@.len() <= 1024,
            es == listed(values@),
            total == entries_len(es.take(i as int)),
            total <= i * 131_075,
            forall|j: int| 0 <= j < i ==> value_fits((#[trigger] es[j]).1),
        decreases values@.len() - i,
    {
        assert(es.take(i + 1).drop_last() =~= es.take(i as int));
        assert(es[i as int].1 == values@[i as int].1.value());
        match values[i].1.size() {
            Ok(n) => {
                total = total + 1 + n;
            },
            Err(e) => return Err(e),
        }
        i = i + 1;
    }
    assert(es.take(i as int) =~= es);
    Ok(total)
}

/// Writes a property section: its length, and the values in the order asked for.
pub(crate) fn write_properties(
    buffer: &mut BytesMut,
    values: &Vec<(u8, Property<'_>)>,
    order: Option<&[u8]>,
) -> (r: Result<(), Error>)
    requires
        has_room(*old(buffer), section_len(listed(values@)) as int),
    ensures
        match writable(listed(values@), order_of(order)) {
            Some(out) => r is Ok && buffered(*final(buffer)) == buffered(*old(buffer))
                + section_octets(out),
            None => r == Err::<(), Error>(Error::MalformedPacket) && buffered(*final(buffer))
                == buffered(*old(buffer)),
        },
{
    let ghost es = listed(values@);
    let ghost start = buffered(*buffer);
    if values.len() > 1024 {
        return Err(Error::MalformedPacket);
    }
    let length: usize = match entries_size(values) {
        Ok(n) => n,
        Err(e) => return Err(e),
    };
    let indices: Vec<usize> = match order {
        Some(order) => match ordered_indices(values, order) {
            Ok(indices) => indices,
            Err(e) => return Err(e),
        },
        None => {
            let mut indices: Vec<usize> = Vec::new();
            let mut i: usize = 0;
            while i < values.len()
                invariant
                    i <= values@.len(),
                    indices@.len() == i,
                    forall|j: int| 0 <= j < i ==> indices@[j] == j,
                decreases values@.len() - i,
            {
                indices.push(i);
                i = i + 1;
            }
            assert(chosen(es, indices@) =~= es);
            indices
        },
    };
    let ghost out = chosen(es, indices@);
    proof {
        match order_of(order) {
            Some(o) => {
                rearrange_keeps_entries(es, o);
            },
            None => {},
        }
        assert(entries_fit(out)) by {
            assert forall|j: int| 0 <= j < out.len() implies value_fits((#[trigger] out[j]).1) by {
                assert(es[indices@[j] as int] == out[j]);
            }
        }
        entries_have_len(out);
        varint_has_len(length as nat);
    }
    if let Err(e) = write_remaining_length(buffer, length) {
        return Err(e);
    }
    let ghost head = buffered(*buffer);
    let mut i: usize = 0;
    assert(out.take(0) =~= Seq::<Entry>::empty());
    assert(head + Seq::<u8>::empty() =~= head);
    while i < indices.len()
        invariant
            i <= indices@.len(),
            out == chosen(es, indices@),
            es == listed(values@),
            forall|j: int| 0 <= j < indices@.len() ==> (#[trigger] indices@[j]) < values@.len(),
            entries_fit(out),
            fits((head.len() + entries_octets(out).len()) as int),
            buffered(*buffer) == head + entries_octets(out.take(i as int)),
        decreases indices@.len() - i,
    {
        let ghost before = buffered(*buffer);
        let ghost e = out[i as int];
        proof {
            assert(out.take(i + 1).drop_last() =~= out.take(i as int));
            assert(out.take(i + 1).last() == e);
            assert(es[indices@[i as int] as int] == e);
            assert(value_fits(e.1));
            prefix_fits(out, i as int);
            prefix_fits(out, i + 1);
        }
        let index: usize = indices[i];
        put_u8(buffer, values[index].0);
        if let Err(e) = values[index].1.write(buffer) {
            return Err(e);
        }
        assert(buffered(*buffer) =~= before + entry_octets(e));
        assert(before + entry_octets(e) =~= head + (entries_octets(out.take(i as int))
            + entry_octets(e)));
        i = i + 1;
    }
    assert(out.take(i as int) =~= out);
    assert(buffered(*buffer) =~= start + section_octets(out));
    Ok(())
}

/// The entries up to a position take no more octets than all of them.
proof fn prefix_fits(es: Seq<Entry>, i: int)
    requires
        0 <= i <= es.len(),
        entries_fit(es),
    ensures
        entries_octets(es.take(i)).len() == entries_len(es.take(i)),
        entries_len(es.take(i)) <= entries_octets(es).len(),
{
    assert(es =~= es.take(i) + es.skip(i));
    super::property::entries_octets_add(es.take(i), es.skip(i));
    assert forall|j: int| 0 <= j < i implies value_fits((#[trigger] es.take(i)[j]).1) by {
        assert(es[j] == es.take(i)[j]);
    }
    entries_have_len(es.take(i));
}

/// The order that was asked for, if any.
pub open spec fn order_of(order: Option<&[u8]>) -> Option<Seq<u8>> {
    match order {
        Some(o) => Some(o@),
        None => None,
    }
}

// Lists of typed fields ----------------------------------------------------------------------

pub(crate) fn push_byte(values: &mut Vec<(u8, Property<'_>)>, id: u8, value: Option<u8>)
    ensures
        listed(final(values)@) == listed(old(values)@) + byte(id, value),
{
    let ghost start = listed(values@);
    if let Some(v) = value {
        values.push((id, Property::Byte(v)));
    }
    assert(listed(values@) =~= start + byte(id, value));
}

pub(crate) fn push_short(values: &mut Vec<(u8, Property<'_>)>, id: u8, value: Option<u16>)
    ensures
        listed(final(values)@) == listed(old(values)@) + short(id, value),
{
    let ghost start = listed(values@);
    if let Some(v) = value {
        values.push((id, Property::Short(v)));
    }
    assert(listed(values@) =~= start + short(id, value));
}

pub(crate) fn push_integer(values: &mut Vec<(u8, Property<'_>)>, id: u8, value: Option<u32>)
    ensures
        listed(final(values)@) == listed(old(values)@) + integer(id, value),
{
    let ghost start = listed(values@);
    if let Some(v) = value {
        values.push((id, Property::Integer(v)));
    }
    assert(listed(values@) =~= start + integer(id, value));
}

pub(crate) fn push_variable(values: &mut Vec<(u8, Property<'_>)>, id: u8, value: Option<usize>)
    ensures
        listed(final(values)@) == listed(old(values)@) + variable(id, value),
{
    let ghost start = listed(values@);
    if let Some(v) = value {
        values.push((id, Property::Variable(v)));
    }
    assert(listed(values@) =~= start + variable(id, value));
}

pub(crate) fn push_text<'a>(
    values: &mut Vec<(u8, Property<'a>)>,
    id: u8,
    value: &'a Option<String>,
)
    ensures
        listed(final(values)@) == listed(old(values)@) + text(id, *value),
{
    let ghost start = listed(values@);
    if let Some(v) = value {
        values.push((id, Property::String(v.as_str())));
    }
    assert(listed(values@) =~= start + text(id, *value));
}

pub(crate) fn push_binary<'a>(
    values: &mut Vec<(u8, Property<'a>)>,
    id: u8,
    value: &'a Option<Bytes>,
)
    ensures
        listed(final(values)@) == listed(old(values)@) + binary(id, *value),
{
    let ghost start = listed(values@);
    if let Some(v) = value {
        let data: &[u8] = v;
        values.push((id, Property::Binary(data)));
    }
    assert(listed(values@) =~= start + binary(id, *value));
}

pub(crate) fn push_pairs<'a>(
    values: &mut Vec<(u8, Property<'a>)>,
    properties: &'a Vec<(String, String)>,
)
    ensures
        listed(final(values)@) == listed(old(values)@) + pairs(properties@),
{
    let ghost start = listed(values@);
    let mut i: usize = 0;
    assert(listed(values@) =~= start + pairs(properties@.take(0)));
    while i < properties.len()
        invariant
            i <= properties@.len(),
            listed(values@) == start + pairs(properties@.take(i as int)),
        decreases properties@.len() - i,
    {
        let ghost before = listed(values@);
        values.push(
            (38, Property::Pair(properties[i].0.as_str(), properties[i].1.as_str())),
        );
        proof {
            let e = (38u8, Value::Pair(properties@[i as int].0@, properties@[i as int].1@));
            assert(listed(values@) =~= before.push(e));
            assert(pairs(properties@.take(i + 1)) =~= pairs(properties@.take(i as int)).push(e));
            assert(listed(values@) =~= start + pairs(properties@.take(i + 1)));
        }
        i = i + 1;
    }
    assert(properties@.take(i as int) =~= properties@);
}

pub(crate) fn push_variables(
    values: &mut Vec<(u8, Property<'_>)>,
    id: u8,
    numbers: &Vec<usize>,
)
    ensures
        listed(final(values)@) == listed(old(values)@) + variables(id, numbers@),
{
    let ghost start = listed(values@);
    let mut i: usize = 0;
    assert(listed(values@) =~= start + variables(id, numbers@.take(0)));
    while i < numbers.len()
        invariant
            i <= numbers@.len(),
            listed(values@) == start + variables(id, numbers@.take(i as int)),
        decreases numbers@.len() - i,
    {
        let ghost before = listed(values@);
        values.push((id, Property::Variable(numbers[i])));
        proof {
            let e = (id, Value::Variable(numbers@[i as int]));
            assert(listed(values@) =~= before.push(e));
            assert(variables(id, numbers@.take(i + 1)) =~= variables(
                id,
                numbers@.take(i as int),
            ).push(e));
            assert(listed(values@) =~= start + variables(id, numbers@.take(i + 1)));
        }
        i = i + 1;
    }
    assert(numbers@.take(i as int) =~= numbers@);
}

} // verus!
