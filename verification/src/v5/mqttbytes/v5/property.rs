//! Property sections: what a section spells, and which sections a packet accepts.
//!
//! A section is a sequence of entries, each an identifier and a value. The typed properties of a
//! packet stand for the same entries in the order in which the packet writes them by default.
use bytes::Bytes;
use vstd::prelude::*;
use vstd::utf8::encode_utf8;

use crate::octets::{be16, be32, octets};
use crate::v5::mqttbytes::Error;
use super::wire::{
    binary_octets, binary_round_trip, len_len, read_u8, section_round_trip, take_binary,
    take_section, take_text, take_u16, take_u32, take_u8, take_varint, text_fits, text_octets,
    text_round_trip, u16_round_trip, u32_round_trip, varint, varint_has_len, varint_len,
    varint_round_trip, MAX_VARINT,
};

verus! {

/// The value of one property.
pub enum Value {
    Byte(u8),
    Short(u16),
    Integer(u32),
    Variable(usize),
    Text(Seq<char>),
    Binary(Seq<u8>),
    Pair(Seq<char>, Seq<char>),
}

/// A property identifier with its value.
pub type Entry = (u8, Value);

/// How a value is written.
pub enum Kind {
    Byte,
    Short,
    Integer,
    Variable,
    Text,
    Binary,
    Pair,
}

/// The packets, and the will inside a connect packet, that own a property section.
#[derive(Clone, Copy)]
pub enum Owner {
    Connect,
    Will,
    ConnAck,
    Publish,
    /// PubAck, PubRec, PubRel, PubComp, SubAck and UnsubAck
    Acknowledgement,
    Subscribe,
    Unsubscribe,
    Disconnect,
    Auth,
}

/// How the value of each property is written; `None` for a number that names no property.
pub open spec fn kind_of(id: u8) -> Option<Kind> {
    if id == 1 || id == 23 || id == 25 || id == 36 || id == 37 || id == 40 || id == 41 || id == 42 {
        Some(Kind::Byte)
    } else if id == 19 || id == 33 || id == 34 || id == 35 {
        Some(Kind::Short)
    } else if id == 2 || id == 17 || id == 24 || id == 39 {
        Some(Kind::Integer)
    } else if id == 11 {
        Some(Kind::Variable)
    } else if id == 3 || id == 8 || id == 18 || id == 21 || id == 26 || id == 28 || id == 31 {
        Some(Kind::Text)
    } else if id == 9 || id == 22 {
        Some(Kind::Binary)
    } else if id == 38 {
        Some(Kind::Pair)
    } else {
        None
    }
}

/// The properties that may stand in a section of `owner`.
pub open spec fn allowed(owner: Owner, id: u8) -> bool {
    match owner {
        Owner::Connect => id == 17 || id == 33 || id == 39 || id == 34 || id == 25 || id == 23 || id
            == 38 || id == 21 || id == 22,
        Owner::Will => id == 24 || id == 1 || id == 2 || id == 3 || id == 8 || id == 9 || id == 38,
        Owner::ConnAck => id == 17 || id == 33 || id == 36 || id == 37 || id == 39 || id == 18 || id
            == 34 || id == 31 || id == 38 || id == 40 || id == 41 || id == 42 || id == 19 || id
            == 26 || id == 28 || id == 21 || id == 22,
        Owner::Publish => id == 1 || id == 2 || id == 35 || id == 8 || id == 9 || id == 38 || id
            == 11 || id == 3,
        Owner::Acknowledgement => id == 31 || id == 38,
        Owner::Subscribe => id == 11 || id == 38,
        Owner::Unsubscribe => id == 38,
        Owner::Disconnect => id == 17 || id == 31 || id == 38 || id == 28,
        Owner::Auth => id == 21 || id == 22 || id == 31 || id == 38,
    }
}

/// The properties that may occur more than once in a section of `owner`: user properties, and
/// the subscription identifiers of a publish packet.
pub open spec fn repeats(owner: Owner, id: u8) -> bool {
    id == 38 || (owner == Owner::Publish && id == 11)
}

// Reading ------------------------------------------------------------------------------------

/// The value at the front, and the octets after it.
pub open spec fn take_value(kind: Kind, s: Seq<u8>) -> (Result<Value, Error>, Seq<u8>) {
    match kind {
        Kind::Byte => match take_u8(s) {
            (Ok(v), rest) => (Ok(Value::Byte(v)), rest),
            (Err(e), rest) => (Err(e), rest),
        },
        Kind::Short => match take_u16(s) {
            (Ok(v), rest) => (Ok(Value::Short(v)), rest),
            (Err(e), rest) => (Err(e), rest),
        },
        Kind::Integer => match take_u32(s) {
            (Ok(v), rest) => (Ok(Value::Integer(v)), rest),
            (Err(e), rest) => (Err(e), rest),
        },
        Kind::Variable => match take_varint(s) {
            (Ok(v), rest) => (Ok(Value::Variable(v)), rest),
            (Err(e), rest) => (Err(e), rest),
        },
        Kind::Text => match take_text(s) {
            (Ok(v), rest) => (Ok(Value::Text(v)), rest),
            (Err(e), rest) => (Err(e), rest),
        },
        Kind::Binary => match take_binary(s) {
            (Ok(v), rest) => (Ok(Value::Binary(v)), rest),
            (Err(e), rest) => (Err(e), rest),
        },
        Kind::Pair => match take_text(s) {
            (Ok(k), rest) => match take_text(rest) {
                (Ok(v), rest) => (Ok(Value::Pair(k, v)), rest),
                (Err(e), rest) => (Err(e), rest),
            },
            (Err(e), rest) => (Err(e), rest),
        },
    }
}

/// The identifiers of the entries, in order.
pub open spec fn ids(es: Seq<Entry>) -> Seq<u8> {
    Seq::new(es.len(), |i: int| es[i].0)
}

/// Why the identifier `id` cannot follow the entries `es`, if it cannot.
pub open spec fn occurrence_error(owner: Owner, es: Seq<Entry>, id: u8) -> Option<Error> {
    if id >= 64 {
        Some(Error::InvalidPropertyType(id))
    } else if es.len() >= 1024 || (!repeats(owner, id) && ids(es).contains(id)) {
        Some(Error::MalformedPacket)
    } else if !allowed(owner, id) {
        Some(Error::InvalidPropertyType(id))
    } else {
        None
    }
}

/// The entries that the octets `s` spell, behind the entries `es` that were read before.
#[verifier::opaque]
pub open spec fn parse_entries(owner: Owner, s: Seq<u8>, es: Seq<Entry>) -> Result<
    Seq<Entry>,
    Error,
>
    decreases s.len(),
    via parse_entries_ends
{
    if s.len() == 0 {
        Ok(es)
    } else {
        let id = s[0];
        match occurrence_error(owner, es, id) {
            Some(e) => Err(e),
            None => match take_value(kind_of(id)->0, s.skip(1)) {
                (Err(e), _) => Err(e),
                (Ok(v), rest) => parse_entries(owner, rest, es.push((id, v))),
            },
        }
    }
}

#[via_fn]
proof fn parse_entries_ends(owner: Owner, s: Seq<u8>, es: Seq<Entry>) {
    broadcast use super::wire::group_take_shrinks;
}

/// Whether a reader notes an identifier before it reads the value: it is a small number, the
/// section is not too long, and the identifier does not come again without leave.
pub open spec fn noted(owner: Owner, es: Seq<Entry>, id: u8) -> bool {
    id < 64 && es.len() < 1024 && (repeats(owner, id) || !ids(es).contains(id))
}

/// The identifiers that a reader of the octets `s` has noted when it ends or stops, behind the
/// entries `es` that were read before.
#[verifier::opaque]
pub open spec fn noted_ids(owner: Owner, s: Seq<u8>, es: Seq<Entry>) -> Seq<u8>
    decreases s.len(),
    via noted_ids_ends
{
    if s.len() == 0 || !noted(owner, es, s[0]) {
        ids(es)
    } else if !allowed(owner, s[0]) {
        ids(es).push(s[0])
    } else {
        match take_value(kind_of(s[0])->0, s.skip(1)) {
            (Err(_), _) => ids(es).push(s[0]),
            (Ok(v), rest) => noted_ids(owner, rest, es.push((s[0], v))),
        }
    }
}

#[via_fn]
proof fn noted_ids_ends(owner: Owner, s: Seq<u8>, es: Seq<Entry>) {
    broadcast use super::wire::group_take_shrinks;
}

/// The identifiers that a reader of a property section at the front has noted.
pub open spec fn section_ids(owner: Owner, s: Seq<u8>) -> Seq<u8> {
    match take_section(s).0 {
        Ok(section) => noted_ids(owner, section, Seq::empty()),
        Err(_) => Seq::empty(),
    }
}

/// A property section at the front: `None` where it is empty, else its entries; and the octets
/// after it. A section that spells no valid entries is passed over all the same.
#[verifier::opaque]
pub open spec fn take_properties(owner: Owner, s: Seq<u8>) -> (
    Result<Option<Seq<Entry>>, Error>,
    Seq<u8>,
) {
    match take_section(s) {
        (Err(e), rest) => (Err(e), rest),
        (Ok(section), rest) => if section.len() == 0 {
            (Ok(None), rest)
        } else {
            match parse_entries(owner, section, Seq::empty()) {
                Ok(es) => (Ok(Some(es)), rest),
                Err(e) => (Err(e), rest),
            }
        },
    }
}

// Writing ------------------------------------------------------------------------------------

pub open spec fn value_octets(v: Value) -> Seq<u8> {
    match v {
        Value::Byte(v) => seq![v],
        Value::Short(v) => be16(v),
        Value::Integer(v) => be32(v),
        Value::Variable(v) => varint(v as nat),
        Value::Text(t) => text_octets(t),
        Value::Binary(b) => binary_octets(b),
        Value::Pair(k, v) => text_octets(k) + text_octets(v),
    }
}

/// The octets of an entry.
pub open spec fn entry_octets(e: Entry) -> Seq<u8> {
    seq![e.0] + value_octets(e.1)
}

/// The octets of a sequence of entries.
pub open spec fn entries_octets(es: Seq<Entry>) -> Seq<u8>
    decreases es.len(),
{
    if es.len() == 0 {
        Seq::empty()
    } else {
        entries_octets(es.drop_last()) + entry_octets(es.last())
    }
}

/// The length that is computed for a value before it is written.
pub open spec fn value_len(v: Value) -> nat {
    match v {
        Value::Byte(_) => 1,
        Value::Short(_) => 2,
        Value::Integer(_) => 4,
        Value::Variable(v) => varint_len(v as int),
        Value::Text(t) => 2 + encode_utf8(t).len(),
        Value::Binary(b) => 2 + b.len(),
        Value::Pair(k, v) => 2 + encode_utf8(k).len() + 2 + encode_utf8(v).len(),
    }
}

/// The length that is computed for a sequence of entries before they are written.
pub open spec fn entries_len(es: Seq<Entry>) -> nat
    decreases es.len(),
{
    if es.len() == 0 {
        0
    } else {
        entries_len(es.drop_last()) + 1 + value_len(es.last().1)
    }
}

/// The length that is computed for a section: its entries and the length in front.
pub open spec fn section_len(es: Seq<Entry>) -> nat {
    varint_len(entries_len(es) as int) + entries_len(es)
}

/// The octets of a section.
pub open spec fn section_octets(es: Seq<Entry>) -> Seq<u8> {
    varint(entries_len(es)) + entries_octets(es)
}

/// The length of the section of optional properties. Where there are none, the section is empty.
pub open spec fn properties_len(properties: Option<Seq<Entry>>) -> nat {
    match properties {
        Some(es) => section_len(es),
        None => 1,
    }
}

/// Whether a value can be written: texts and data fit their two octets of length.
pub open spec fn value_fits(v: Value) -> bool {
    match v {
        Value::Variable(v) => v <= MAX_VARINT,
        Value::Text(t) => text_fits(t),
        Value::Binary(b) => b.len() <= u16::MAX,
        Value::Pair(k, v) => text_fits(k) && text_fits(v),
        _ => true,
    }
}

/// Whether a sequence of entries can be written: it has 1024 entries at most, and each fits.
pub open spec fn entries_fit(es: Seq<Entry>) -> bool {
    es.len() <= 1024 && forall|i: int| 0 <= i < es.len() ==> value_fits((#[trigger] es[i]).1)
}

/// Whether a value is of a kind.
pub open spec fn has_kind(v: Value, kind: Kind) -> bool {
    match v {
        Value::Byte(_) => kind is Byte,
        Value::Short(_) => kind is Short,
        Value::Integer(_) => kind is Integer,
        Value::Variable(_) => kind is Variable,
        Value::Text(_) => kind is Text,
        Value::Binary(_) => kind is Binary,
        Value::Pair(_, _) => kind is Pair,
    }
}

/// Whether a sequence of entries may stand in a section of `owner`.
pub open spec fn valid_entries(owner: Owner, es: Seq<Entry>) -> bool {
    &&& es.len() <= 1024
    &&& forall|i: int|
        0 <= i < es.len() ==> value_fits((#[trigger] es[i]).1) && allowed(owner, es[i].0)
            && has_kind(es[i].1, kind_of(es[i].0)->0)
    &&& forall|i: int, j: int|
        0 <= i < j < es.len() && (#[trigger] es[i]).0 == (#[trigger] es[j]).0 ==> repeats(
            owner,
            es[i].0,
        )
}

/// The position of the first entry of `id`; the length of `es` where there is none.
pub open spec fn position(es: Seq<Entry>, id: u8) -> nat
    decreases es.len(),
{
    if es.len() == 0 || es[0].0 == id {
        0
    } else {
        1 + position(es.skip(1), id)
    }
}

/// The entries `es` in the order of the identifiers `order`, the entries of one identifier in
/// the order in which they stand in `es`. `None` where `order` does not name each entry once.
pub open spec fn rearrange(es: Seq<Entry>, order: Seq<u8>) -> Option<Seq<Entry>>
    decreases order.len(),
{
    if order.len() == 0 {
        if es.len() == 0 {
            Some(Seq::empty())
        } else {
            None
        }
    } else {
        let i = position(es, order[0]) as int;
        if i >= es.len() {
            None
        } else {
            match rearrange(es.remove(i), order.skip(1)) {
                Some(tail) => Some(seq![es[i]] + tail),
                None => None,
            }
        }
    }
}

/// The entries in the order in which they are written, with or without an order asked for.
pub open spec fn arranged(es: Seq<Entry>, order: Option<Seq<u8>>) -> Option<Seq<Entry>> {
    match order {
        Some(order) => rearrange(es, order),
        None => Some(es),
    }
}

/// The entries that are written for `es`; `None` where they cannot be written.
pub open spec fn writable(es: Seq<Entry>, order: Option<Seq<u8>>) -> Option<Seq<Entry>> {
    if entries_fit(es) {
        arranged(es, order)
    } else {
        None
    }
}

/// The section that is written for optional properties; `None` where it cannot be written.
pub open spec fn writable_section(
    properties: Option<Seq<Entry>>,
    order: Option<Seq<u8>>,
) -> Option<Seq<u8>> {
    match properties {
        Some(es) => match writable(es, order) {
            Some(out) => Some(section_octets(out)),
            None => None,
        },
        None => Some(seq![0u8]),
    }
}

// Typed properties ---------------------------------------------------------------------------

/// The entries of `id`, in order.
#[verifier::opaque]
pub open spec fn pick(es: Seq<Entry>, id: u8) -> Seq<Entry>
    decreases es.len(),
{
    if es.len() == 0 {
        Seq::empty()
    } else if es.last().0 == id {
        pick(es.drop_last(), id).push(es.last())
    } else {
        pick(es.drop_last(), id)
    }
}

/// The properties of `owner` in the order in which its typed properties hold and write them.
pub open spec fn table(owner: Owner) -> Seq<u8> {
    match owner {
        Owner::Connect => seq![17, 33, 39, 34, 25, 23, 38, 21, 22],
        Owner::Will => seq![24, 1, 2, 3, 8, 9, 38],
        Owner::ConnAck => seq![
            17, 33, 36, 37, 39, 18, 34, 31, 38, 40, 41, 42, 19, 26, 28, 21, 22,
        ],
        Owner::Publish => seq![1, 2, 35, 8, 9, 38, 11, 3],
        Owner::Acknowledgement => seq![31, 38],
        Owner::Subscribe => seq![11, 38],
        Owner::Unsubscribe => seq![38],
        Owner::Disconnect => seq![17, 31, 38, 28],
        Owner::Auth => seq![21, 22, 31, 38],
    }
}

/// The entries of each of the identifiers `keys`.
pub open spec fn picks(es: Seq<Entry>, keys: Seq<u8>) -> Seq<Seq<Entry>> {
    Seq::new(keys.len(), |i: int| pick(es, keys[i]))
}

/// The entries of several fields, one field after the other.
#[verifier::opaque]
pub open spec fn joined(fields: Seq<Seq<Entry>>) -> Seq<Entry>
    decreases fields.len(),
{
    if fields.len() == 0 {
        Seq::empty()
    } else {
        joined(fields.drop_last()) + fields.last()
    }
}

/// The entries in the order in which the typed properties of `owner` hold them.
pub open spec fn canonical(owner: Owner, es: Seq<Entry>) -> Seq<Entry> {
    joined(picks(es, table(owner)))
}

/// Optional properties in the order in which the typed properties of `owner` hold them.
pub open spec fn canonical_opt(owner: Owner, properties: Option<Seq<Entry>>) -> Option<Seq<Entry>> {
    match properties {
        Some(es) => Some(canonical(owner, es)),
        None => None,
    }
}

/// The entry of an optional field, if it is there.
pub open spec fn byte(id: u8, v: Option<u8>) -> Seq<Entry> {
    match v {
        Some(v) => seq![(id, Value::Byte(v))],
        None => Seq::empty(),
    }
}

pub open spec fn short(id: u8, v: Option<u16>) -> Seq<Entry> {
    match v {
        Some(v) => seq![(id, Value::Short(v))],
        None => Seq::empty(),
    }
}

pub open spec fn integer(id: u8, v: Option<u32>) -> Seq<Entry> {
    match v {
        Some(v) => seq![(id, Value::Integer(v))],
        None => Seq::empty(),
    }
}

pub open spec fn variable(id: u8, v: Option<usize>) -> Seq<Entry> {
    match v {
        Some(v) => seq![(id, Value::Variable(v))],
        None => Seq::empty(),
    }
}

pub open spec fn text_of(id: u8, v: Option<Seq<char>>) -> Seq<Entry> {
    match v {
        Some(v) => seq![(id, Value::Text(v))],
        None => Seq::empty(),
    }
}

pub open spec fn binary_of(id: u8, v: Option<Seq<u8>>) -> Seq<Entry> {
    match v {
        Some(v) => seq![(id, Value::Binary(v))],
        None => Seq::empty(),
    }
}

/// The entries of user properties.
pub open spec fn pairs_of(v: Seq<(Seq<char>, Seq<char>)>) -> Seq<Entry> {
    Seq::new(v.len(), |i: int| (38u8, Value::Pair(v[i].0, v[i].1)))
}

/// The text of an optional string.
pub open spec fn text_view(v: Option<String>) -> Option<Seq<char>> {
    match v {
        Some(v) => Some(v@),
        None => None,
    }
}

/// The octets of optional binary data.
pub open spec fn binary_view(v: Option<Bytes>) -> Option<Seq<u8>> {
    match v {
        Some(v) => Some(octets(v)),
        None => None,
    }
}

/// The texts of user properties.
pub open spec fn pairs_view(v: Seq<(String, String)>) -> Seq<(Seq<char>, Seq<char>)> {
    Seq::new(v.len(), |i: int| (v[i].0@, v[i].1@))
}

pub open spec fn text(id: u8, v: Option<String>) -> Seq<Entry> {
    text_of(id, text_view(v))
}

pub open spec fn binary(id: u8, v: Option<Bytes>) -> Seq<Entry> {
    binary_of(id, binary_view(v))
}

pub open spec fn pairs(v: Seq<(String, String)>) -> Seq<Entry> {
    pairs_of(pairs_view(v))
}

/// The entries of subscription identifiers.
pub open spec fn variables(id: u8, v: Seq<usize>) -> Seq<Entry> {
    Seq::new(v.len(), |i: int| (id, Value::Variable(v[i])))
}

// Lemmas -------------------------------------------------------------------------------------

pub broadcast proof fn pick_push(es: Seq<Entry>, e: Entry, id: u8)
    ensures
        #[trigger] pick(es.push(e), id) == if e.0 == id {
            pick(es, id).push(e)
        } else {
            pick(es, id)
        },
{
    reveal(pick);
    assert(es.push(e).drop_last() =~= es);
}

pub broadcast proof fn pick_add(a: Seq<Entry>, b: Seq<Entry>, id: u8)
    ensures
        #[trigger] pick(a + b, id) == pick(a, id) + pick(b, id),
    decreases b.len(),
{
    reveal(pick);
    if b.len() == 0 {
        assert(a + b =~= a);
    } else {
        pick_add(a, b.drop_last(), id);
        assert((a + b).drop_last() =~= a + b.drop_last());
    }
}

pub broadcast proof fn ids_push(es: Seq<Entry>, e: Entry)
    ensures
        #[trigger] ids(es.push(e)) == ids(es).push(e.0),
{
    assert(ids(es.push(e)) =~= ids(es).push(e.0));
}

pub broadcast proof fn pick_empty(id: u8)
    ensures
        #[trigger] pick(Seq::empty(), id) == Seq::<Entry>::empty(),
{
    reveal(pick);
}

/// An identifier is absent exactly where no entry is picked for it.
pub proof fn pick_absent(es: Seq<Entry>, id: u8)
    ensures
        ids(es).contains(id) <==> pick(es, id).len() > 0,
    decreases es.len(),
{
    reveal(pick);
    if es.len() > 0 {
        pick_absent(es.drop_last(), id);
        assert(es =~= es.drop_last().push(es.last()));
        ids_push(es.drop_last(), es.last());
        if ids(es).contains(id) && es.last().0 != id {
            let i = ids(es).index_of(id);
            assert(ids(es.drop_last())[i] == id);
        }
        if es.last().0 == id {
            assert(ids(es)[es.len() - 1] == id);
        } else if ids(es.drop_last()).contains(id) {
            let i = ids(es.drop_last()).index_of(id);
            assert(ids(es)[i] == id);
        }
    }
}

/// Entries of one identifier only.
pub broadcast proof fn pick_uniform(es: Seq<Entry>, key: u8, id: u8)
    requires
        forall|i: int| 0 <= i < es.len() ==> (#[trigger] es[i]).0 == key,
    ensures
        #![trigger pick(es, id), pick(es, key)]
        pick(es, id) == if id == key {
            es
        } else {
            Seq::empty()
        },
    decreases es.len(),
{
    reveal(pick);
    if es.len() > 0 {
        pick_uniform(es.drop_last(), key, id);
        assert(es.drop_last().push(es.last()) =~= es);
    }
}

pub broadcast proof fn joined_empty(fields: Seq<Seq<Entry>>)
    requires
        fields.len() == 0,
    ensures
        #[trigger] joined(fields) == Seq::<Entry>::empty(),
{
    reveal(joined);
}

pub broadcast proof fn joined_push(fields: Seq<Seq<Entry>>, field: Seq<Entry>)
    ensures
        #[trigger] joined(fields.push(field)) == joined(fields) + field,
{
    reveal(joined);
    assert(fields.push(field).drop_last() =~= fields);
}

pub broadcast group group_joined {
    joined_empty,
    joined_push,
}

pub broadcast proof fn entries_len_add(a: Seq<Entry>, b: Seq<Entry>)
    ensures
        #[trigger] entries_len(a + b) == entries_len(a) + entries_len(b),
    decreases b.len(),
{
    if b.len() == 0 {
        assert(a + b =~= a);
    } else {
        entries_len_add(a, b.drop_last());
        assert((a + b).drop_last() =~= a + b.drop_last());
    }
}

pub proof fn entries_octets_add(a: Seq<Entry>, b: Seq<Entry>)
    ensures
        entries_octets(a + b) == entries_octets(a) + entries_octets(b),
    decreases b.len(),
{
    if b.len() == 0 {
        assert(a + b =~= a);
        assert(entries_octets(a) + entries_octets(b) =~= entries_octets(a));
    } else {
        entries_octets_add(a, b.drop_last());
        assert((a + b).drop_last() =~= a + b.drop_last());
        assert(entries_octets(a) + (entries_octets(b.drop_last()) + entry_octets(b.last()))
            =~= entries_octets(a) + entries_octets(b.drop_last()) + entry_octets(b.last()));
    }
}

/// There are never more entries than octets.
pub proof fn entries_len_bounds_count(es: Seq<Entry>)
    ensures
        es.len() <= entries_len(es),
    decreases es.len(),
{
    if es.len() > 0 {
        entries_len_bounds_count(es.drop_last());
    }
}

/// A value is refused where a text is too long or holds U+0000, data is too long or a number too
/// large. Any other takes on the wire what is computed for it.
pub proof fn value_takes_its_size(v: Value)
    ensures
        !value_fits(v) <==> match v {
            Value::Text(t) => encode_utf8(t).len() > 65535 || t.contains('\0'),
            Value::Pair(k, t) => encode_utf8(k).len() > 65535 || k.contains('\0') || encode_utf8(
                t,
            ).len() > 65535 || t.contains('\0'),
            Value::Binary(b) => b.len() > 65535,
            Value::Variable(n) => n > 268_435_455,
            _ => false,
        },
        value_fits(v) ==> value_octets(v).len() == value_len(v),
{
    broadcast use super::wire::group_octets_len;

    if let Value::Variable(n) = v {
        if n <= MAX_VARINT {
            varint_has_len(n as nat);
        }
    }
}

/// What a sequence of entries takes on the wire is what was computed for it.
pub proof fn entries_have_len(es: Seq<Entry>)
    requires
        entries_fit(es),
    ensures
        entries_octets(es).len() == entries_len(es),
        entries_len(es) <= es.len() * 131_075,
    decreases es.len(),
{
    broadcast use super::wire::group_octets_len;

    if es.len() > 0 {
        let rest = es.drop_last();
        assert forall|i: int| 0 <= i < rest.len() implies value_fits((#[trigger] rest[i]).1) by {
            assert(value_fits(es[i].1));
        }
        entries_have_len(rest);
        assert(value_fits(es.last().1));
        if let Value::Variable(v) = es.last().1 {
            varint_has_len(v as nat);
        }
    }
}

/// What a sequence of entries takes on the wire is what was computed for it, where no number is
/// too large to be written.
pub proof fn entries_octets_len(es: Seq<Entry>)
    requires
        forall|i: int|
            0 <= i < es.len() ==> ((#[trigger] es[i]).1 matches Value::Variable(v) ==> v
                <= MAX_VARINT),
    ensures
        entries_octets(es).len() == entries_len(es),
    decreases es.len(),
{
    broadcast use super::wire::group_octets_len;

    if es.len() > 0 {
        let rest = es.drop_last();
        assert forall|i: int| 0 <= i < rest.len() implies ((#[trigger] rest[i]).1 matches Value::Variable(
            v,
        ) ==> v <= MAX_VARINT) by {
            assert(rest[i] == es[i]);
        }
        entries_octets_len(rest);
        assert(es.last() == es[es.len() - 1]);
        if let Value::Variable(v) = es.last().1 {
            varint_has_len(v as nat);
        }
    }
}

/// A value that fits is read back, and what follows it is left.
pub proof fn value_round_trip(kind: Kind, v: Value, rest: Seq<u8>)
    requires
        value_fits(v),
        has_kind(v, kind),
    ensures
        take_value(kind, value_octets(v) + rest) == (Ok::<Value, Error>(v), rest),
{
    match v {
        Value::Byte(b) => {
            assert((seq![b] + rest).skip(1) =~= rest);
        },
        Value::Short(n) => u16_round_trip(n, rest),
        Value::Integer(n) => u32_round_trip(n, rest),
        Value::Variable(n) => varint_round_trip(n as nat, rest),
        Value::Text(t) => text_round_trip(t, rest),
        Value::Binary(b) => binary_round_trip(b, rest),
        Value::Pair(k, v) => {
            assert(text_octets(k) + text_octets(v) + rest =~= text_octets(k) + (text_octets(v)
                + rest));
            text_round_trip(k, text_octets(v) + rest);
            text_round_trip(v, rest);
        },
    }
}

pub proof fn entry_octets_alone(e: Entry)
    ensures
        entries_octets(seq![e]) == entry_octets(e),
{
    reveal_with_fuel(entries_octets, 2);
    assert(seq![e].drop_last() =~= Seq::<Entry>::empty());
    assert(Seq::<u8>::empty() + entry_octets(e) =~= entry_octets(e));
}

/// Entries of a section of `owner` are read back from what they take on the wire, behind the
/// entries that were read before them.
pub proof fn entries_round_trip(owner: Owner, before: Seq<Entry>, es: Seq<Entry>)
    requires
        valid_entries(owner, before + es),
    ensures
        parse_entries(owner, entries_octets(es), before) == Ok::<Seq<Entry>, Error>(before + es),
    decreases es.len(),
{
    reveal(parse_entries);
    let all = before + es;
    if es.len() == 0 {
        assert(all =~= before);
    } else {
        let e = es[0];
        let tail = es.skip(1);
        assert(es =~= seq![e] + tail);
        entries_octets_add(seq![e], tail);
        entry_octets_alone(e);
        let s = entries_octets(es);
        assert(all[before.len() as int] == e);
        let kind = kind_of(e.0)->0;
        value_round_trip(kind, e.1, entries_octets(tail));
        assert(s.skip(1) =~= value_octets(e.1) + entries_octets(tail));
        assert(s[0] == e.0);
        assert(!(ids(before).contains(e.0) && !repeats(owner, e.0))) by {
            if ids(before).contains(e.0) {
                let i = ids(before).index_of(e.0);
                assert(all[i].0 == all[before.len() as int].0);
            }
        }
        assert(before.push(e) + tail =~= all);
        entries_round_trip(owner, before.push(e), tail);
    }
}

/// A section of `owner` is read back from what it takes on the wire, and what follows it is
/// left.
pub proof fn properties_round_trip(owner: Owner, es: Seq<Entry>, rest: Seq<u8>)
    requires
        valid_entries(owner, es),
        es.len() > 0,
    ensures
        take_properties(owner, section_octets(es) + rest) == (
            Ok::<Option<Seq<Entry>>, Error>(Some(es)),
            rest,
        ),
        section_octets(es).len() == section_len(es),
{
    reveal(take_properties);
    entries_have_len(es);
    entries_len_bounds_count(es);
    section_round_trip(entries_octets(es), rest);
    assert(Seq::<Entry>::empty() + es =~= es);
    entries_round_trip(owner, Seq::empty(), es);
    varint_has_len(entries_len(es));
}

/// An empty section is read back as no properties, and what follows it is left.
pub proof fn no_properties_round_trip(owner: Owner, rest: Seq<u8>)
    ensures
        take_properties(owner, seq![0u8] + rest) == (
            Ok::<Option<Seq<Entry>>, Error>(None),
            rest,
        ),
{
    reveal(take_properties);
    let s = seq![0u8] + rest;
    assert(s[0] == 0);
    assert(s.skip(1) =~= rest);
}

/// A section is isolated: whatever its octets spell, the octets behind it are left, and do not
/// count for what it spells.
pub proof fn section_is_isolated(owner: Owner, section: Seq<u8>, rest: Seq<u8>)
    requires
        section.len() <= MAX_VARINT,
    ensures
        take_properties(owner, varint(section.len()) + section + rest).1 == rest,
        take_properties(owner, varint(section.len()) + section + rest).0 == take_properties(
            owner,
            varint(section.len()) + section,
        ).0,
{
    reveal(take_properties);
    section_round_trip(section, rest);
    section_round_trip(section, Seq::empty());
    let alone = varint(section.len()) + section;
    assert(alone + Seq::<u8>::empty() =~= alone);
}

/// The first position of an identifier.
pub proof fn position_is_first(es: Seq<Entry>, id: u8)
    ensures
        position(es, id) <= es.len(),
        position(es, id) < es.len() ==> es[position(es, id) as int].0 == id,
        forall|j: int| 0 <= j < position(es, id) ==> (#[trigger] es[j]).0 != id,
    decreases es.len(),
{
    if es.len() > 0 && es[0].0 != id {
        position_is_first(es.skip(1), id);
        assert forall|j: int| 0 <= j < position(es, id) implies (#[trigger] es[j]).0 != id by {
            if j > 0 {
                assert(es.skip(1)[j - 1] == es[j]);
            }
        }
    }
}

/// No entry is picked where no entry has the identifier.
pub proof fn pick_none(es: Seq<Entry>, id: u8)
    requires
        forall|j: int| 0 <= j < es.len() ==> (#[trigger] es[j]).0 != id,
    ensures
        pick(es, id) == Seq::<Entry>::empty(),
    decreases es.len(),
{
    reveal(pick);
    if es.len() > 0 {
        pick_none(es.drop_last(), id);
    }
}

/// A rearrangement has the identifiers that were asked for, and keeps the entries of each
/// identifier and their order.
pub proof fn rearrange_keeps_entries(es: Seq<Entry>, order: Seq<u8>)
    requires
        rearrange(es, order) is Some,
    ensures
        ids(rearrange(es, order)->0) == order,
        rearrange(es, order)->0.len() == es.len(),
        entries_len(rearrange(es, order)->0) == entries_len(es),
        forall|k: u8| #[trigger] pick(rearrange(es, order)->0, k) == pick(es, k),
        forall|j: int|
            0 <= j < es.len() ==> es.contains(#[trigger] (rearrange(es, order)->0)[j]),
    decreases order.len(),
{
    reveal(pick);
    let out = rearrange(es, order)->0;
    if order.len() == 0 {
        assert(ids(out) =~= order);
        assert(out =~= es);
    } else {
        let id = order[0];
        let i = position(es, id) as int;
        position_is_first(es, id);
        let e = es[i];
        let front = es.take(i);
        let back = es.skip(i + 1);
        let less = es.remove(i);
        assert(less =~= front + back);
        assert(es =~= front + seq![e] + back);
        rearrange_keeps_entries(less, order.skip(1));
        let tail = rearrange(less, order.skip(1))->0;
        assert(out == seq![e] + tail);
        assert(ids(out) =~= seq![id] + ids(tail));
        assert(order =~= seq![id] + order.skip(1));
        entries_len_add(seq![e], tail);
        entries_len_add(front, back);
        entries_len_add(front, seq![e]);
        entries_len_add(front + seq![e], back);
        assert forall|k: u8| #[trigger] pick(out, k) == pick(es, k) by {
            pick_add(seq![e], tail, k);
            pick_add(front, back, k);
            pick_add(front, seq![e], k);
            pick_add(front + seq![e], back, k);
            pick_uniform(seq![e], id, k);
            assert(pick(tail, k) == pick(less, k));
            if k == id {
                pick_none(front, id);
                assert(Seq::<Entry>::empty() + seq![e] =~= seq![e]);
                assert(Seq::<Entry>::empty() + pick(back, k) =~= pick(back, k));
            } else {
                assert(Seq::<Entry>::empty() + pick(less, k) =~= pick(less, k));
                assert(pick(front, k) + Seq::<Entry>::empty() =~= pick(front, k));
            }
        }
        assert forall|j: int| 0 <= j < es.len() implies es.contains(#[trigger] out[j]) by {
            if j == 0 {
                assert(out[0] == es[i]);
            } else {
                assert(out[j] == tail[j - 1]);
                let m = less.index_of(tail[j - 1]);
                assert(less[m] == tail[j - 1]);
                if m < i {
                    assert(es[m] == less[m]);
                } else {
                    assert(es[m + 1] == less[m]);
                }
            }
        }
    }
}

/// An order names each entry once, so it is as long as the entries.
pub proof fn rearrange_needs_len(es: Seq<Entry>, order: Seq<u8>)
    ensures
        order.len() != es.len() ==> rearrange(es, order) is None,
    decreases order.len(),
{
    if order.len() > 0 {
        let i = position(es, order[0]) as int;
        if i < es.len() {
            rearrange_needs_len(es.remove(i), order.skip(1));
        }
    }
}

/// Entries that a section of `owner` may hold stay so in any other order.
pub proof fn rearranged_is_valid(owner: Owner, es: Seq<Entry>, order: Seq<u8>)
    requires
        valid_entries(owner, es),
        rearrange(es, order) is Some,
    ensures
        valid_entries(owner, rearrange(es, order)->0),
{
    let out = rearrange(es, order)->0;
    rearrange_keeps_entries(es, order);
    assert forall|i: int| 0 <= i < out.len() implies value_fits((#[trigger] out[i]).1) && allowed(
        owner,
        out[i].0,
    ) && has_kind(out[i].1, kind_of(out[i].0)->0) by {
        assert(es.contains(out[i]));
        let j = es.index_of(out[i]);
        assert(es[j] == out[i]);
    }
    assert forall|i: int, j: int| 0 <= i < j < out.len() && (#[trigger] out[i]).0 == (
    #[trigger] out[j]).0 implies repeats(owner, out[i].0) by {
        let id = out[i].0;
        assert(pick(out, id) == pick(es, id));
        two_picked(out, i, j);
        if !repeats(owner, id) {
            at_most_one_picked(owner, es, id);
        }
    }
}

/// Entries in any other order stand for the same typed properties.
pub proof fn rearranged_is_same(owner: Owner, es: Seq<Entry>, order: Seq<u8>)
    requires
        rearrange(es, order) is Some,
    ensures
        canonical(owner, rearrange(es, order)->0) == canonical(owner, es),
{
    rearrange_keeps_entries(es, order);
    assert(picks(rearrange(es, order)->0, table(owner)) =~= picks(es, table(owner)));
}

/// Two entries of one identifier are both picked.
proof fn two_picked(es: Seq<Entry>, i: int, j: int)
    requires
        0 <= i < j < es.len(),
        es[i].0 == es[j].0,
    ensures
        pick(es, es[i].0).len() >= 2,
    decreases es.len(),
{
    reveal(pick);
    let id = es[i].0;
    if j == es.len() - 1 {
        pick_absent(es.drop_last(), id);
        assert(ids(es.drop_last())[i] == id);
    } else {
        two_picked(es.drop_last(), i, j);
    }
}

/// At most one entry is picked of an identifier that does not repeat.
proof fn at_most_one_picked(owner: Owner, es: Seq<Entry>, id: u8)
    requires
        valid_entries(owner, es),
        !repeats(owner, id),
    ensures
        pick(es, id).len() <= 1,
    decreases es.len(),
{
    reveal(pick);
    if es.len() > 0 {
        let rest = es.drop_last();
        assert(valid_entries(owner, rest)) by {
            assert forall|i: int| 0 <= i < rest.len() implies value_fits((#[trigger] rest[i]).1)
                && allowed(owner, rest[i].0) && has_kind(rest[i].1, kind_of(rest[i].0)->0) by {
                assert(es[i] == rest[i]);
            }
            assert forall|i: int, j: int| 0 <= i < j < rest.len() && (#[trigger] rest[i]).0 == (
            #[trigger] rest[j]).0 implies repeats(owner, rest[i].0) by {
                assert(es[i] == rest[i] && es[j] == rest[j]);
            }
        }
        at_most_one_picked(owner, rest, id);
        if es.last().0 == id {
            pick_absent(rest, id);
            if ids(rest).contains(id) {
                let i = ids(rest).index_of(id);
                assert(es[i].0 == es[es.len() - 1].0);
            }
        }
    }
}

// Entries of typed properties ----------------------------------------------------------------

/// Whether a field holds only entries of `id` with values of the right kind, and at most one
/// where the property must not repeat.
pub open spec fn is_field(owner: Owner, id: u8, field: Seq<Entry>) -> bool {
    &&& forall|j: int|
        0 <= j < field.len() ==> (#[trigger] field[j]).0 == id && has_kind(
            field[j].1,
            kind_of(id)->0,
        )
    &&& repeats(owner, id) || field.len() <= 1
}

/// Whether there is one field for each property of `owner`, in the order of its table.
pub open spec fn are_fields(owner: Owner, fields: Seq<Seq<Entry>>) -> bool {
    &&& fields.len() == table(owner).len()
    &&& forall|i: int|
        0 <= i < fields.len() ==> is_field(owner, #[trigger] table(owner)[i], fields[i])
}

/// The place of a property in the table of `owner`.
spec fn slot(owner: Owner, id: u8) -> int {
    table(owner).index_of(id)
}

/// A table lists a property once.
proof fn table_lists_apart(owner: Owner, i: int, j: int)
    requires
        0 <= i < table(owner).len(),
        0 <= j < table(owner).len(),
        table(owner)[i] == table(owner)[j],
    ensures
        i == j,
{
}

/// A table lists allowed properties, each once.
proof fn table_lists_once(owner: Owner, i: int)
    requires
        0 <= i < table(owner).len(),
    ensures
        allowed(owner, table(owner)[i]),
        slot(owner, table(owner)[i]) == i,
{
    assert(table(owner).contains(table(owner)[i]));
    table_lists_apart(owner, i, slot(owner, table(owner)[i]));
}

/// Picking from the first `n` fields of an owner.
proof fn pick_joined(owner: Owner, fields: Seq<Seq<Entry>>, n: int, id: u8)
    requires
        are_fields(owner, fields),
        0 <= n <= fields.len(),
    ensures
        forall|i: int|
            0 <= i < fields.len() && id == #[trigger] table(owner)[i] ==> pick(
                joined(fields.take(n)),
                id,
            ) == if i < n {
                fields[i]
            } else {
                Seq::empty()
            },
    decreases n,
{
    if n == 0 {
        joined_empty(fields.take(0));
        pick_empty(id);
    } else {
        let k = table(owner)[n - 1];
        let front = joined(fields.take(n - 1));
        pick_joined(owner, fields, n - 1, id);
        assert(fields.take(n) =~= fields.take(n - 1).push(fields[n - 1]));
        joined_push(fields.take(n - 1), fields[n - 1]);
        pick_add(front, fields[n - 1], id);
        assert(is_field(owner, k, fields[n - 1]));
        pick_uniform(fields[n - 1], k, id);
        assert forall|i: int| 0 <= i < fields.len() && id == #[trigger] table(owner)[i] implies pick(
            joined(fields.take(n)),
            id,
        ) == if i < n {
            fields[i]
        } else {
            Seq::empty()
        } by {
            table_lists_once(owner, i);
            table_lists_once(owner, n - 1);
            assert(pick(front, id) + Seq::<Entry>::empty() =~= pick(front, id));
            assert(Seq::<Entry>::empty() + fields[n - 1] =~= fields[n - 1]);
        }
    }
}

/// The entries of one identifier are those of its field.
pub proof fn pick_field(owner: Owner, fields: Seq<Seq<Entry>>, i: int)
    requires
        are_fields(owner, fields),
        0 <= i < fields.len(),
    ensures
        pick(joined(fields), table(owner)[i]) == fields[i],
{
    let n = fields.len() as int;
    assert(fields.take(n) =~= fields);
    pick_joined(owner, fields, n, table(owner)[i]);
}

/// Each entry of the first `n` fields has the identifier and the kind of its field.
proof fn joined_entries(owner: Owner, fields: Seq<Seq<Entry>>, n: int)
    requires
        are_fields(owner, fields),
        0 <= n <= fields.len(),
    ensures
        forall|j: int|
            0 <= j < joined(fields.take(n)).len() ==> allowed(
                owner,
                (#[trigger] joined(fields.take(n))[j]).0,
            ) && has_kind(
                joined(fields.take(n))[j].1,
                kind_of(joined(fields.take(n))[j].0)->0,
            ) && table(owner)[slot(owner, joined(fields.take(n))[j].0)] == joined(fields.take(n))[j].0
                && 0 <= slot(owner, joined(fields.take(n))[j].0) < fields.len(),
    decreases n,
{
    if n == 0 {
        joined_empty(fields.take(0));
    } else {
        let front = joined(fields.take(n - 1));
        let last = fields[n - 1];
        joined_entries(owner, fields, n - 1);
        assert(fields.take(n) =~= fields.take(n - 1).push(last));
        joined_push(fields.take(n - 1), last);
        table_lists_once(owner, n - 1);
        assert(is_field(owner, table(owner)[n - 1], last));
        let all = joined(fields.take(n));
        assert forall|j: int| 0 <= j < all.len() implies allowed(owner, (#[trigger] all[j]).0)
            && has_kind(all[j].1, kind_of(all[j].0)->0) && table(owner)[slot(owner, all[j].0)]
            == all[j].0 && 0 <= slot(owner, all[j].0) < fields.len() by {
            if j < front.len() {
                assert(all[j] == front[j]);
            } else {
                assert(all[j] == last[j - front.len()]);
            }
        }
    }
}

/// Entries that can be written may stand in a section of `owner` where they are those of its
/// typed fields, and they stand in the order of the fields.
pub proof fn fields_are_valid(owner: Owner, fields: Seq<Seq<Entry>>)
    requires
        are_fields(owner, fields),
        entries_fit(joined(fields)),
    ensures
        valid_entries(owner, joined(fields)),
        canonical(owner, joined(fields)) == joined(fields),
{
    let es = joined(fields);
    let n = fields.len() as int;
    assert(fields.take(n) =~= fields);
    joined_entries(owner, fields, n);
    assert forall|i: int| 0 <= i < n implies pick(es, #[trigger] table(owner)[i]) == fields[i] by {
        pick_joined(owner, fields, n, table(owner)[i]);
    }
    assert(picks(es, table(owner)) =~= fields);
    assert forall|i: int, j: int| 0 <= i < j < es.len() && (#[trigger] es[i]).0 == (
    #[trigger] es[j]).0 implies repeats(owner, es[i].0) by {
        two_picked(es, i, j);
        let k = slot(owner, es[i].0);
        assert(pick(es, table(owner)[k]) == fields[k]);
        assert(is_field(owner, table(owner)[k], fields[k]));
    }
}

/// A table lists all allowed properties.
proof fn table_lists_all(owner: Owner, id: u8)
    requires
        allowed(owner, id),
    ensures
        table(owner).contains(id),
{
    let t = table(owner);
    match owner {
        Owner::Connect => {
            assert(t[0] == 17);
            assert(t[1] == 33);
            assert(t[2] == 39);
            assert(t[3] == 34);
            assert(t[4] == 25);
            assert(t[5] == 23);
            assert(t[6] == 38);
            assert(t[7] == 21);
            assert(t[8] == 22);
        },
        Owner::Will => {
            assert(t[0] == 24);
            assert(t[1] == 1);
            assert(t[2] == 2);
            assert(t[3] == 3);
            assert(t[4] == 8);
            assert(t[5] == 9);
            assert(t[6] == 38);
        },
        Owner::ConnAck => {
            assert(t[0] == 17);
            assert(t[1] == 33);
            assert(t[2] == 36);
            assert(t[3] == 37);
            assert(t[4] == 39);
            assert(t[5] == 18);
            assert(t[6] == 34);
            assert(t[7] == 31);
            assert(t[8] == 38);
            assert(t[9] == 40);
            assert(t[10] == 41);
            assert(t[11] == 42);
            assert(t[12] == 19);
            assert(t[13] == 26);
            assert(t[14] == 28);
            assert(t[15] == 21);
            assert(t[16] == 22);
        },
        Owner::Publish => {
            assert(t[0] == 1);
            assert(t[1] == 2);
            assert(t[2] == 35);
            assert(t[3] == 8);
            assert(t[4] == 9);
            assert(t[5] == 38);
            assert(t[6] == 11);
            assert(t[7] == 3);
        },
        Owner::Acknowledgement => {
            assert(t[0] == 31);
            assert(t[1] == 38);
        },
        Owner::Subscribe => {
            assert(t[0] == 11);
            assert(t[1] == 38);
        },
        Owner::Unsubscribe => {
            assert(t[0] == 38);
        },
        Owner::Disconnect => {
            assert(t[0] == 17);
            assert(t[1] == 31);
            assert(t[2] == 38);
            assert(t[3] == 28);
        },
        Owner::Auth => {
            assert(t[0] == 21);
            assert(t[1] == 22);
            assert(t[2] == 31);
            assert(t[3] == 38);
        },
    }
}

/// The typed properties of a section hold every property of it, and no others: of each identifier
/// the same values in the same order.
pub proof fn typed_properties_keep_entries(owner: Owner, es: Seq<Entry>, id: u8)
    requires
        valid_entries(owner, es),
    ensures
        pick(canonical(owner, es), id) == pick(es, id),
{
    let keys = table(owner);
    let fields = picks(es, keys);
    assert forall|i: int| 0 <= i < fields.len() implies is_field(
        owner,
        #[trigger] keys[i],
        fields[i],
    ) by {
        let k = keys[i];
        picked_are_of(es, k);
        if !repeats(owner, k) {
            at_most_one_picked(owner, es, k);
        }
    }
    assert(are_fields(owner, fields));
    if keys.contains(id) {
        pick_field(owner, fields, keys.index_of(id));
    } else {
        let n = fields.len() as int;
        assert(fields.take(n) =~= fields);
        joined_entries(owner, fields, n);
        let all = joined(fields);
        pick_absent(all, id);
        pick_absent(es, id);
        if ids(all).contains(id) {
            let j = ids(all).index_of(id);
            assert(all[j].0 == id);
            table_lists_all(owner, id);
        }
        if ids(es).contains(id) {
            let j = ids(es).index_of(id);
            assert(es[j].0 == id);
            table_lists_all(owner, id);
        }
        assert(pick(all, id) =~= pick(es, id));
    }
}

proof fn picked_are_of(es: Seq<Entry>, id: u8)
    requires
        forall|i: int|
            0 <= i < es.len() ==> has_kind((#[trigger] es[i]).1, kind_of(es[i].0)->0),
    ensures
        forall|j: int|
            0 <= j < pick(es, id).len() ==> (#[trigger] pick(es, id)[j]).0 == id && has_kind(
                pick(es, id)[j].1,
                kind_of(id)->0,
            ),
    decreases es.len(),
{
    reveal(pick);
    if es.len() > 0 {
        let rest = es.drop_last();
        assert forall|i: int| 0 <= i < rest.len() implies has_kind(
            (#[trigger] rest[i]).1,
            kind_of(rest[i].0)->0,
        ) by {
            assert(es[i] == rest[i]);
        }
        picked_are_of(rest, id);
        assert(has_kind(es[es.len() - 1].1, kind_of(es[es.len() - 1].0)->0));
        assert forall|j: int| 0 <= j < pick(es, id).len() implies (#[trigger] pick(es, id)[j]).0
            == id && has_kind(pick(es, id)[j].1, kind_of(id)->0) by {
            if j < pick(rest, id).len() {
                assert(pick(es, id)[j] == pick(rest, id)[j]);
            }
        }
    }
}

// Steps of a reader --------------------------------------------------------------------------

/// Whether the bit of `id` is set in the mask of identifiers that were seen.
pub open spec fn marked(seen: u64, id: u8) -> bool {
    seen & (1u64 << (id as u64)) != 0
}

/// Whether the mask and the count of a reader stand for the entries that it has read.
#[verifier::opaque]
pub open spec fn tracks(seen: u64, count: usize, es: Seq<Entry>) -> bool {
    &&& count == es.len()
    &&& forall|id: u8| id < 64 ==> (#[trigger] marked(seen, id) <==> ids(es).contains(id))
}

/// A reader that has read nothing.
pub proof fn tracks_nothing()
    ensures
        tracks(0, 0, Seq::empty()),
{
    reveal(tracks);
    assert forall|id: u8| id < 64 implies (#[trigger] marked(0, id) <==> ids(
        Seq::<Entry>::empty(),
    ).contains(id)) by {
        assert(0u64 & (1u64 << (id as u64)) == 0) by (bit_vector);
    }
}

/// A reader that reads one more entry.
pub proof fn tracks_one_more(seen: u64, count: usize, es: Seq<Entry>, e: Entry)
    requires
        tracks(seen, count, es),
        e.0 < 64,
        count < usize::MAX,
    ensures
        tracks(seen | (1u64 << (e.0 as u64)), (count + 1) as usize, es.push(e)),
{
    reveal(tracks);
    let id = e.0;
    let more = seen | (1u64 << (id as u64));
    ids_push(es, e);
    assert forall|j: u8| j < 64 implies (#[trigger] marked(more, j) <==> ids(
        es.push(e),
    ).contains(j)) by {
        assert(((seen | (1u64 << (id as u64))) & (1u64 << (j as u64)) != 0) <==> (j == id || seen
            & (1u64 << (j as u64)) != 0)) by (bit_vector)
            requires
                id < 64,
                j < 64,
        ;
        assert(marked(seen, j) <==> ids(es).contains(j));
        let all = ids(es).push(id);
        if all.contains(j) && j != id {
            let i = all.index_of(j);
            assert(ids(es)[i] == j);
        }
        if ids(es).contains(j) {
            let i = ids(es).index_of(j);
            assert(all[i] == j);
        }
        assert(all[es.len() as int] == id);
    }
}

/// Counts and marks an identifier before its value is read.
pub(crate) fn validate_property_occurrence(
    id: u8,
    repeat: bool,
    seen: &mut u64,
    count: &mut usize,
) -> (r: Result<(), Error>)
    requires
        *old(count) < usize::MAX,
    ensures
        match r {
            Ok(_) => {
                &&& id < 64
                &&& *old(count) < 1024
                &&& repeat || !marked(*old(seen), id)
                &&& *final(count) == *old(count) + 1
                &&& *final(seen) == *old(seen) | (1u64 << (id as u64))
            },
            Err(e) => {
                &&& *final(seen) == *old(seen)
                &&& if id >= 64 {
                    e == Error::InvalidPropertyType(id) && *final(count) == *old(count)
                } else {
                    &&& e == Error::MalformedPacket
                    &&& *final(count) == *old(count) + 1
                    &&& *old(count) >= 1024 || (!repeat && marked(*old(seen), id))
                }
            },
        },
{
    if id >= 64 {
        return Err(Error::InvalidPropertyType(id));
    }
    *count = *count + 1;
    if *count > 1024 || (!repeat && *seen & (1u64 << (id as u64)) != 0) {
        return Err(Error::MalformedPacket);
    }
    *seen = *seen | (1u64 << (id as u64));
    Ok(())
}

/// One step of a reader: the identifier and the value at the front.
pub proof fn parse_step(owner: Owner, s: Seq<u8>, es: Seq<Entry>)
    requires
        s.len() > 0,
    ensures
        parse_entries(owner, s, es) == match occurrence_error(owner, es, s[0]) {
            Some(e) => Err(e),
            None => match take_value(kind_of(s[0])->0, s.skip(1)) {
                (Err(e), _) => Err(e),
                (Ok(v), rest) => parse_entries(owner, rest, es.push((s[0], v))),
            },
        },
        noted_ids(owner, s, es) == if !noted(owner, es, s[0]) {
            ids(es)
        } else if !allowed(owner, s[0]) {
            ids(es).push(s[0])
        } else {
            match take_value(kind_of(s[0])->0, s.skip(1)) {
                (Err(_), _) => ids(es).push(s[0]),
                (Ok(v), rest) => noted_ids(owner, rest, es.push((s[0], v))),
            }
        },
{
    reveal_with_fuel(parse_entries, 2);
    reveal_with_fuel(noted_ids, 2);
}

/// A reader that has come to the end.
pub proof fn parse_end(owner: Owner, s: Seq<u8>, es: Seq<Entry>)
    requires
        s.len() == 0,
    ensures
        parse_entries(owner, s, es) == Ok::<Seq<Entry>, Error>(es),
        noted_ids(owner, s, es) == ids(es),
{
    reveal(parse_entries);
    reveal(noted_ids);
}

/// A section takes as many octets as were computed for its entries, in any order.
pub proof fn writable_has_len(es: Seq<Entry>, order: Option<Seq<u8>>)
    requires
        writable(es, order) is Some,
    ensures
        section_octets(writable(es, order)->0).len() == section_len(es),
{
    let out = writable(es, order)->0;
    if let Some(o) = order {
        rearrange_keeps_entries(es, o);
        assert forall|i: int| 0 <= i < out.len() implies value_fits((#[trigger] out[i]).1) by {
            assert(es.contains(out[i]));
            let j = es.index_of(out[i]);
            assert(es[j] == out[i]);
        }
    }
    entries_have_len(out);
    varint_has_len(entries_len(es));
}

/// Reads the identifier at the front of a section, counts and marks it, and appends it to the
/// order of identifiers.
pub(crate) fn next_property(
    bytes: &mut Bytes,
    owner: Owner,
    seen: &mut u64,
    count: &mut usize,
    order: &mut Vec<u8>,
    Ghost(es): Ghost<Seq<Entry>>,
) -> (r: Result<u8, Error>)
    requires
        octets(*old(bytes)).len() > 0,
        tracks(*old(seen), *old(count), es),
        es.len() <= 1024,
    ensures
        match r {
            Ok(id) => {
                &&& id == octets(*old(bytes))[0]
                &&& octets(*final(bytes)) == octets(*old(bytes)).skip(1)
                &&& noted(owner, es, id)
                &&& repeats(owner, id) || pick(es, id).len() == 0
                &&& final(order)@ == old(order)@.push(id)
                &&& forall|v: Value| #[trigger]
                    tracks(*final(seen), *final(count), es.push((id, v)))
            },
            Err(e) => {
                &&& occurrence_error(owner, es, octets(*old(bytes))[0]) == Some(e)
                &&& !noted(owner, es, octets(*old(bytes))[0])
                &&& final(order)@ == old(order)@
            },
        },
{
    proof {
        reveal(tracks);
    }
    let id: u8 = match read_u8(bytes) {
        Ok(id) => id,
        Err(e) => return Err(e),
    };
    let publish = match owner {
        Owner::Publish => true,
        _ => false,
    };
    if let Err(e) = validate_property_occurrence(id, id == 38 || (publish && id == 11), seen, count) {
        return Err(e);
    }
    order.push(id);
    proof {
        reveal(tracks);
        pick_absent(es, id);
        assert forall|v: Value| #[trigger] tracks(*seen, *count, es.push((id, v))) by {
            tracks_one_more(*old(seen), *old(count), es, (id, v));
        }
    }
    Ok(id)
}

#[derive(Debug, Clone, Copy, PartialEq, Eq)]
pub(crate) enum PropertyType {
    PayloadFormatIndicator,
    MessageExpiryInterval,
    ContentType,
    ResponseTopic,
    CorrelationData,
    SubscriptionIdentifier,
    SessionExpiryInterval,
    AssignedClientIdentifier,
    ServerKeepAlive,
    AuthenticationMethod,
    AuthenticationData,
    RequestProblemInformation,
    WillDelayInterval,
    RequestResponseInformation,
    ResponseInformation,
    ServerReference,
    ReasonString,
    ReceiveMaximum,
    TopicAliasMaximum,
    TopicAlias,
    MaximumQos,
    RetainAvailable,
    UserProperty,
    MaximumPacketSize,
    WildcardSubscriptionAvailable,
    SubscriptionIdentifierAvailable,
    SharedSubscriptionAvailable,
}

/// The identifier of a property.
pub(crate) open spec fn number_of(property: PropertyType) -> u8 {
    match property {
        PropertyType::PayloadFormatIndicator => 1,
        PropertyType::MessageExpiryInterval => 2,
        PropertyType::ContentType => 3,
        PropertyType::ResponseTopic => 8,
        PropertyType::CorrelationData => 9,
        PropertyType::SubscriptionIdentifier => 11,
        PropertyType::SessionExpiryInterval => 17,
        PropertyType::AssignedClientIdentifier => 18,
        PropertyType::ServerKeepAlive => 19,
        PropertyType::AuthenticationMethod => 21,
        PropertyType::AuthenticationData => 22,
        PropertyType::RequestProblemInformation => 23,
        PropertyType::WillDelayInterval => 24,
        PropertyType::RequestResponseInformation => 25,
        PropertyType::ResponseInformation => 26,
        PropertyType::ServerReference => 28,
        PropertyType::ReasonString => 31,
        PropertyType::ReceiveMaximum => 33,
        PropertyType::TopicAliasMaximum => 34,
        PropertyType::TopicAlias => 35,
        PropertyType::MaximumQos => 36,
        PropertyType::RetainAvailable => 37,
        PropertyType::UserProperty => 38,
        PropertyType::MaximumPacketSize => 39,
        PropertyType::WildcardSubscriptionAvailable => 40,
        PropertyType::SubscriptionIdentifierAvailable => 41,
        PropertyType::SharedSubscriptionAvailable => 42,
    }
}

pub(crate) fn property(num: u8) -> (r: Result<PropertyType, Error>)
    ensures
        match r {
            Ok(property) => number_of(property) == num && kind_of(num) is Some,
            Err(e) => e == Error::InvalidPropertyType(num) && kind_of(num) is None,
        },
{
    let property = match num {
        1 => PropertyType::PayloadFormatIndicator,
        2 => PropertyType::MessageExpiryInterval,
        3 => PropertyType::ContentType,
        8 => PropertyType::ResponseTopic,
        9 => PropertyType::CorrelationData,
        11 => PropertyType::SubscriptionIdentifier,
        17 => PropertyType::SessionExpiryInterval,
        18 => PropertyType::AssignedClientIdentifier,
        19 => PropertyType::ServerKeepAlive,
        21 => PropertyType::AuthenticationMethod,
        22 => PropertyType::AuthenticationData,
        23 => PropertyType::RequestProblemInformation,
        24 => PropertyType::WillDelayInterval,
        25 => PropertyType::RequestResponseInformation,
        26 => PropertyType::ResponseInformation,
        28 => PropertyType::ServerReference,
        31 => PropertyType::ReasonString,
        33 => PropertyType::ReceiveMaximum,
        34 => PropertyType::TopicAliasMaximum,
        35 => PropertyType::TopicAlias,
        36 => PropertyType::MaximumQos,
        37 => PropertyType::RetainAvailable,
        38 => PropertyType::UserProperty,
        39 => PropertyType::MaximumPacketSize,
        40 => PropertyType::WildcardSubscriptionAvailable,
        41 => PropertyType::SubscriptionIdentifierAvailable,
        42 => PropertyType::SharedSubscriptionAvailable,
        num => return Err(Error::InvalidPropertyType(num)),
    };
    Ok(property)
}

/// The entries of user properties when one more is appended.
pub proof fn pairs_push(v: Seq<(String, String)>, p: (String, String))
    ensures
        pairs(v.push(p)) == pairs(v).push((38u8, Value::Pair(p.0@, p.1@))),
{
    assert(pairs(v.push(p)) =~= pairs(v).push((38u8, Value::Pair(p.0@, p.1@))));
}

/// The entries of numbers when one more is appended.
pub proof fn variables_push(id: u8, v: Seq<usize>, n: usize)
    ensures
        variables(id, v.push(n)) == variables(id, v).push((id, Value::Variable(n))),
{
    assert(variables(id, v.push(n)) =~= variables(id, v).push((id, Value::Variable(n))));
}

// A section in a packet ----------------------------------------------------------------------

/// Whether optional properties can be read back: what is written is valid in a section of
/// `owner`, stands in the order of the typed fields and is not an empty section.
pub open spec fn readable(owner: Owner, properties: Option<Seq<Entry>>) -> bool {
    match properties {
        Some(es) => es.len() > 0 && valid_entries(owner, es) && canonical(owner, es) == es,
        None => true,
    }
}

/// The entries of optional properties in the order in which they are written.
pub open spec fn written(properties: Option<Seq<Entry>>, order: Option<Seq<u8>>) -> Option<
    Seq<Entry>,
> {
    match properties {
        Some(es) => writable(es, order),
        None => None,
    }
}

/// The identifiers of optional properties, in order.
pub open spec fn ids_opt(properties: Option<Seq<Entry>>) -> Seq<u8> {
    match properties {
        Some(es) => ids(es),
        None => Seq::empty(),
    }
}

/// Optional properties that were written are read back in the order in which they were written,
/// what follows them is left, and they stand for the same typed properties. An order that was
/// asked for is the order that is read.
pub proof fn written_round_trip(
    owner: Owner,
    properties: Option<Seq<Entry>>,
    order: Option<Seq<u8>>,
    rest: Seq<u8>,
)
    requires
        readable(owner, properties),
        writable_section(properties, order) is Some,
    ensures
        take_properties(owner, writable_section(properties, order)->0 + rest) == (
            Ok::<Option<Seq<Entry>>, Error>(written(properties, order)),
            rest,
        ),
        canonical_opt(owner, written(properties, order)) == properties,
        writable_section(properties, order)->0.len() == properties_len(properties),
        properties is Some && order is Some ==> ids_opt(written(properties, order)) == order->0,
        properties is Some && order is None ==> written(properties, order) == properties,
{
    match properties {
        Some(es) => {
            writable_has_len(es, order);
            match order {
                Some(o) => {
                    rearrange_keeps_entries(es, o);
                    rearranged_is_valid(owner, es, o);
                    rearranged_is_same(owner, es, o);
                    properties_round_trip(owner, rearrange(es, o)->0, rest);
                },
                None => properties_round_trip(owner, es, rest),
            }
        },
        None => no_properties_round_trip(owner, rest),
    }
}

// Lengths of typed fields --------------------------------------------------------------------

proof fn entries_len_alone(e: Entry)
    ensures
        entries_len(seq![e]) == 1 + value_len(e.1),
{
    reveal_with_fuel(entries_len, 2);
    assert(seq![e].drop_last() =~= Seq::<Entry>::empty());
}

pub(crate) fn byte_len(id: u8, value: Option<u8>) -> (r: usize)
    ensures
        r == entries_len(byte(id, value)),
{
    match value {
        Some(v) => {
            proof {
                entries_len_alone((id, Value::Byte(v)));
            }
            1 + 1
        },
        None => 0,
    }
}

pub(crate) fn short_len(id: u8, value: Option<u16>) -> (r: usize)
    ensures
        r == entries_len(short(id, value)),
{
    match value {
        Some(v) => {
            proof {
                entries_len_alone((id, Value::Short(v)));
            }
            1 + 2
        },
        None => 0,
    }
}

pub(crate) fn integer_len(id: u8, value: Option<u32>) -> (r: usize)
    ensures
        r == entries_len(integer(id, value)),
{
    match value {
        Some(v) => {
            proof {
                entries_len_alone((id, Value::Integer(v)));
            }
            1 + 4
        },
        None => 0,
    }
}

pub(crate) fn variable_len(id: u8, value: Option<usize>) -> (r: usize)
    ensures
        r == entries_len(variable(id, value)),
{
    match value {
        Some(v) => {
            proof {
                entries_len_alone((id, Value::Variable(v)));
            }
            1 + len_len(v)
        },
        None => 0,
    }
}

pub(crate) fn text_len(id: u8, value: &Option<String>) -> (r: usize)
    requires
        entries_len(text(id, *value)) <= usize::MAX,
    ensures
        r == entries_len(text(id, *value)),
{
    match value {
        Some(v) => {
            proof {
                entries_len_alone((id, Value::Text(v@)));
            }
            1 + 2 + v.as_str().as_bytes().len()
        },
        None => 0,
    }
}

pub(crate) fn binary_len(id: u8, value: &Option<Bytes>) -> (r: usize)
    requires
        entries_len(binary(id, *value)) <= usize::MAX,
    ensures
        r == entries_len(binary(id, *value)),
{
    match value {
        Some(v) => {
            proof {
                entries_len_alone((id, Value::Binary(octets(*v))));
            }
            1 + 2 + v.len()
        },
        None => 0,
    }
}

pub(crate) fn pairs_len(properties: &Vec<(String, String)>) -> (r: usize)
    requires
        entries_len(pairs(properties@)) <= usize::MAX,
    ensures
        r == entries_len(pairs(properties@)),
{
    let mut len: usize = 0;
    let mut i: usize = 0;
    assert(pairs(properties@.take(0)) =~= Seq::<Entry>::empty());
    while i < properties.len()
        invariant
            i <= properties@.len(),
            len == entries_len(pairs(properties@.take(i as int))),
            entries_len(pairs(properties@)) <= usize::MAX,
        decreases properties@.len() - i,
    {
        proof {
            let more = pairs(properties@.take(i + 1));
            assert(more.drop_last() =~= pairs(properties@.take(i as int)));
            assert(pairs(properties@) =~= more + pairs(properties@.skip(i + 1)));
            entries_len_add(more, pairs(properties@.skip(i + 1)));
        }
        let p_len: usize = properties[i].0.as_str().as_bytes().len()
            + properties[i].1.as_str().as_bytes().len();
        len = len + 1 + 4 + p_len;
        i = i + 1;
    }
    assert(properties@.take(i as int) =~= properties@);
    len
}

pub(crate) fn variables_len(id: u8, numbers: &Vec<usize>) -> (r: usize)
    requires
        entries_len(variables(id, numbers@)) <= usize::MAX,
    ensures
        r == entries_len(variables(id, numbers@)),
{
    let mut len: usize = 0;
    let mut i: usize = 0;
    assert(variables(id, numbers@.take(0)) =~= Seq::<Entry>::empty());
    while i < numbers.len()
        invariant
            i <= numbers@.len(),
            len == entries_len(variables(id, numbers@.take(i as int))),
            entries_len(variables(id, numbers@)) <= usize::MAX,
        decreases numbers@.len() - i,
    {
        proof {
            let more = variables(id, numbers@.take(i + 1));
            assert(more.drop_last() =~= variables(id, numbers@.take(i as int)));
            assert(variables(id, numbers@) =~= more + variables(id, numbers@.skip(i + 1)));
            entries_len_add(more, variables(id, numbers@.skip(i + 1)));
        }
        len = len + 1 + len_len(numbers[i]);
        i = i + 1;
    }
    assert(numbers@.take(i as int) =~= numbers@);
    len
}

} // verus!
