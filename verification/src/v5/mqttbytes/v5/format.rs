//! What stands where on the wire, octet by octet: numbers, texts and property sections.
use vstd::prelude::*;
use vstd::utf8::{decode_utf8, encode_utf8, valid_utf8};

use super::property::{
    allowed, entries_fit, entries_have_len, entries_len, entries_octets, entries_octets_add,
    entry_octets, entry_octets_alone, has_kind, ids, kind_of, noted_ids, parse_entries, pick,
    position_is_first, rearrange, section_ids, properties_round_trip, rearrange_keeps_entries,
    repeats, take_properties, take_value, valid_entries, value_fits, value_octets, value_round_trip,
    writable, writable_has_len, writable_section, written, Entry, Kind, Owner, Value,
};
use super::wire::{
    binary_octets, length_at, section_round_trip, take_binary, take_section, take_text, take_u16,
    take_u32, take_u8, text_octets, varint, varint_has_len, varint_is_unique, varint_len,
    varint_round_trip,
};
use crate::octets::{be16, be32, u16_at, u32_at};
use crate::v5::mqttbytes::Error;

verus! {

// Numbers and texts --------------------------------------------------------------------------

/// A number in two octets, the higher one first.
pub open spec fn two(n: int) -> Seq<u8> {
    seq![((n / 256) % 256) as u8, (n % 256) as u8]
}

/// A number in four octets, the highest one first.
pub open spec fn four(n: int) -> Seq<u8> {
    seq![
        (n / 16777216) as u8,
        ((n / 65536) % 256) as u8,
        ((n / 256) % 256) as u8,
        (n % 256) as u8,
    ]
}

/// A number in one to four octets of seven bits each, the lowest one first. All octets but the last
/// have their highest bit set.
pub open spec fn sevens(n: int) -> Seq<u8> {
    if n < 128 {
        seq![n as u8]
    } else if n < 16384 {
        seq![(128 + n % 128) as u8, (n / 128) as u8]
    } else if n < 2097152 {
        seq![(128 + n % 128) as u8, (128 + (n / 128) % 128) as u8, (n / 16384) as u8]
    } else {
        seq![
            (128 + n % 128) as u8,
            (128 + (n / 128) % 128) as u8,
            (128 + (n / 16384) % 128) as u8,
            (n / 2097152) as u8,
        ]
    }
}

/// Data behind its length in two octets.
pub open spec fn counted(b: Seq<u8>) -> Seq<u8> {
    two(b.len() as int) + b
}

/// A text in UTF-8 behind its length in two octets.
pub open spec fn spelt(t: Seq<char>) -> Seq<u8> {
    counted(encode_utf8(t))
}

/// Numbers are written with the highest octet first, and read from octets in the same places.
pub proof fn numbers_are_highest_first(a: u16, b: u32, s: Seq<u8>)
    ensures
        be16(a) == two(a as int),
        be32(b) == four(b as int),
        s.len() >= 1 ==> take_u8(s) == (Ok::<u8, Error>(s[0]), s.skip(1)),
        s.len() >= 2 ==> take_u16(s) == (
            Ok::<u16, Error>((s[0] * 256 + s[1]) as u16),
            s.skip(2),
        ),
        s.len() >= 4 ==> take_u32(s) == (
            Ok::<u32, Error>((s[0] * 16777216 + s[1] * 65536 + s[2] * 256 + s[3]) as u32),
            s.skip(4),
        ),
        s.len() < 1 ==> take_u8(s) == (Err::<u8, Error>(Error::MalformedPacket), s),
        s.len() < 2 ==> take_u16(s) == (Err::<u16, Error>(Error::MalformedPacket), s),
        s.len() < 4 ==> take_u32(s) == (Err::<u32, Error>(Error::MalformedPacket), s),
        s.len() >= 2 ==> s == two(u16_at(s) as int) + s.skip(2),
        s.len() >= 4 ==> s == four(u32_at(s) as int) + s.skip(4),
{
    assert(be16(a) =~= two(a as int));
    if s.len() >= 2 {
        assert(s =~= two(u16_at(s) as int) + s.skip(2));
    }
    if s.len() >= 4 {
        let n = u32_at(s) as int;
        assert(n == s[0] * 16777216 + s[1] * 65536 + s[2] * 256 + s[3]);
        assert(n / 16777216 == s[0]);
        assert((n / 65536) % 256 == s[1]);
        assert((n / 256) % 256 == s[2]);
        assert(n % 256 == s[3]);
        assert(s =~= four(n) + s.skip(4));
    }
}

/// A length is written in as few groups of seven bits as it needs, the lowest group first.
pub proof fn lengths_are_lowest_first(n: nat)
    requires
        n <= 268435455,
    ensures
        varint(n) == sevens(n as int),
        varint(n).len() == varint_len(n as int),
{
    reveal_with_fuel(varint, 5);
    varint_has_len(n);
    if n >= 128 {
        assert((n / 128) / 128 == n / 16384);
        assert((n / 16384) / 128 == n / 2097152);
    }
    assert(varint(n) =~= sevens(n as int));
}

/// A length is read exactly where its shortest form stands at the front. Where the octets end
/// within it, more are asked for; any other form is refused.
pub proof fn lengths_are_read_in_shortest_form(s: Seq<u8>, n: nat, rest: Seq<u8>)
    requires
        n <= 268435455,
    ensures
        length_at(sevens(n as int) + rest) == Ok::<(usize, usize), Error>(
            (sevens(n as int).len() as usize, n as usize),
        ),
        length_at(s) matches Ok((k, v)) ==> v <= 268435455 && k == sevens(v as int).len() && k
            <= s.len() && s == sevens(v as int) + s.skip(k as int),
        length_at(s) matches Err(e) ==> e == if s.len() < 4 && forall|i: int|
            0 <= i < s.len() ==> (#[trigger] s[i]) >= 128 {
            Error::InsufficientBytes(1)
        } else {
            Error::MalformedRemainingLength
        },
{
    lengths_are_lowest_first(n);
    varint_round_trip(n, rest);
    if let Ok((k, v)) = length_at(s) {
        varint_is_unique(s);
        lengths_are_lowest_first(v as nat);
        assert(s =~= s.take(k as int) + s.skip(k as int));
    }
}

/// Data stands behind its length, and a text in UTF-8 likewise.
pub proof fn fields_are_counted(b: Seq<u8>, t: Seq<char>)
    ensures
        binary_octets(b) == counted(b),
        text_octets(t) == spelt(t),
{
    reveal(binary_octets);
    reveal(text_octets);
    assert(be16((b.len() % 65536) as u16) =~= two(b.len() as int));
    let c = encode_utf8(t);
    assert(be16((c.len() % 65536) as u16) =~= two(c.len() as int));
}

/// Data is read exactly where it stands at the front behind its length, and what follows is left.
pub proof fn counted_data_is_read(s: Seq<u8>, b: Seq<u8>, rest: Seq<u8>)
    ensures
        b.len() <= 65535 && s == counted(b) + rest ==> take_binary(s) == (
            Ok::<Seq<u8>, Error>(b),
            rest,
        ),
        take_binary(s) == (Ok::<Seq<u8>, Error>(b), rest) ==> b.len() <= 65535 && s == counted(b)
            + rest,
        s.len() < 2 ==> take_binary(s) == (Err::<Seq<u8>, Error>(Error::MalformedPacket), s),
        s.len() >= 2 && s.len() - 2 < s[0] * 256 + s[1] ==> take_binary(s) == (
            Err::<Seq<u8>, Error>(Error::BoundaryCrossed((s[0] * 256 + s[1]) as usize)),
            s.skip(2),
        ),
        s.len() >= 2 && s.len() - 2 >= s[0] * 256 + s[1] ==> take_binary(s).0 is Ok,
{
    reveal(take_binary);
    if b.len() <= 65535 && s == counted(b) + rest {
        let n = b.len() as int;
        assert(s[0] == (n / 256) % 256 && s[1] == n % 256);
        assert(s[0] * 256 + s[1] == n);
        assert(s.skip(2) =~= b + rest);
        assert((b + rest).take(n) =~= b);
        assert((b + rest).skip(n) =~= rest);
    }
    if take_binary(s) == (Ok::<Seq<u8>, Error>(b), rest) {
        numbers_are_highest_first(0, 0, s);
        let n = u16_at(s) as int;
        assert(b.len() == n);
        assert(s =~= counted(b) + rest);
    }
}

/// A text is read exactly where it stands at the front in UTF-8 behind its length and holds no null
/// character, and what follows is left.
pub proof fn spelt_text_is_read(s: Seq<u8>, t: Seq<char>, rest: Seq<u8>)
    ensures
        encode_utf8(t).len() <= 65535 && !t.contains('\0') && s == spelt(t) + rest ==> take_text(s)
            == (Ok::<Seq<char>, Error>(t), rest),
        take_text(s) == (Ok::<Seq<char>, Error>(t), rest) ==> encode_utf8(t).len() <= 65535
            && !t.contains('\0') && s == spelt(t) + rest,
        take_binary(s).0 matches Err(e) ==> take_text(s) == (
            Err::<Seq<char>, Error>(e),
            take_binary(s).1,
        ),
        take_binary(s).0 matches Ok(b) ==> if !valid_utf8(b) {
            take_text(s) == (Err::<Seq<char>, Error>(Error::TopicNotUtf8), take_binary(s).1)
        } else if decode_utf8(b).contains('\0') {
            take_text(s) == (Err::<Seq<char>, Error>(Error::MalformedPacket), take_binary(s).1)
        } else {
            take_text(s).0 is Ok
        },
{
    reveal(take_text);
    let c = encode_utf8(t);
    vstd::utf8::encode_utf8_valid_utf8(t);
    vstd::utf8::encode_utf8_decode_utf8(t);
    counted_data_is_read(s, c, rest);
    if take_text(s) == (Ok::<Seq<char>, Error>(t), rest) {
        let b = take_binary(s).0->Ok_0;
        vstd::utf8::decode_utf8_encode_utf8(b);
        counted_data_is_read(s, b, rest);
    }
}

// Property sections --------------------------------------------------------------------------

/// What the value of a property takes.
pub open spec fn value(v: Value) -> Seq<u8> {
    match v {
        Value::Byte(n) => seq![n],
        Value::Short(n) => two(n as int),
        Value::Integer(n) => four(n as int),
        Value::Variable(n) => sevens(n as int),
        Value::Text(t) => spelt(t),
        Value::Binary(b) => counted(b),
        Value::Pair(k, t) => spelt(k) + spelt(t),
    }
}

/// What properties take: each its identifier and its value, one after the other.
pub open spec fn properties(es: Seq<Entry>) -> Seq<u8>
    decreases es.len(),
{
    if es.len() == 0 {
        Seq::empty()
    } else {
        properties(es.drop_last()) + (seq![es.last().0] + value(es.last().1))
    }
}

/// What a property section takes: its properties behind their length, or a zero where there are
/// none.
pub open spec fn section(es: Option<Seq<Entry>>) -> Seq<u8> {
    match es {
        None => seq![0u8],
        Some(es) => sevens(properties(es).len() as int) + properties(es),
    }
}

proof fn value_is_plain(v: Value)
    requires
        value_fits(v),
    ensures
        value_octets(v) == value(v),
{
    match v {
        Value::Byte(n) => {},
        Value::Short(n) => numbers_are_highest_first(n, 0, Seq::empty()),
        Value::Integer(n) => numbers_are_highest_first(0, n, Seq::empty()),
        Value::Variable(n) => lengths_are_lowest_first(n as nat),
        Value::Text(t) => fields_are_counted(Seq::empty(), t),
        Value::Binary(b) => fields_are_counted(b, Seq::empty()),
        Value::Pair(k, t) => {
            fields_are_counted(Seq::empty(), k);
            fields_are_counted(Seq::empty(), t);
        },
    }
}

proof fn entries_are_plain(es: Seq<Entry>)
    requires
        forall|i: int| 0 <= i < es.len() ==> value_fits((#[trigger] es[i]).1),
    ensures
        entries_octets(es) == properties(es),
    decreases es.len(),
{
    if es.len() > 0 {
        assert(value_fits(es[es.len() - 1].1));
        value_is_plain(es.last().1);
        entries_are_plain(es.drop_last());
    }
}

/// A property section is written as its properties behind their length, in the order that is asked
/// for, and a zero where there are no properties.
pub proof fn section_is_written(es: Option<Seq<Entry>>, order: Option<Seq<u8>>)
    requires
        writable_section(es, order) is Some,
    ensures
        writable_section(es, order)->0 == section(written(es, order)),
        es is Some <==> written(es, order) is Some,
        es is Some && order is None ==> written(es, order) == es,
        es is Some && order is Some ==> ids(written(es, order)->0) == order->0,
        es is Some ==> written(es, order)->0.len() == es->0.len(),
        es is Some ==> forall|id: u8| #[trigger]
            pick(written(es, order)->0, id) == pick(es->0, id),
        section(written(es, order)).len() == super::property::properties_len(es),
{
    if let Some(v) = es {
        let out = writable(v, order)->0;
        writable_has_len(v, order);
        if let Some(o) = order {
            rearrange_keeps_entries(v, o);
            assert forall|i: int| 0 <= i < out.len() implies value_fits((#[trigger] out[i]).1) by {
                assert(v.contains(out[i]));
                let j = v.index_of(out[i]);
                assert(v[j] == out[i]);
            }
        }
        entries_have_len(out);
        entries_are_plain(out);
        lengths_are_lowest_first(entries_len(out));
    }
}

proof fn value_is_spelt(kind: Kind, s: Seq<u8>)
    requires
        take_value(kind, s).0 is Ok,
    ensures
        ({
            let v = take_value(kind, s).0->Ok_0;
            let rest = take_value(kind, s).1;
            s == value_octets(v) + rest && value_fits(v) && has_kind(v, kind)
        }),
{
    let v = take_value(kind, s).0->Ok_0;
    let rest = take_value(kind, s).1;
    numbers_are_highest_first(0, 0, s);
    match v {
        Value::Byte(n) => {
            assert(s =~= seq![n] + rest);
        },
        Value::Short(n) => numbers_are_highest_first(n, 0, s),
        Value::Integer(n) => numbers_are_highest_first(0, n, s),
        Value::Variable(n) => {
            lengths_are_read_in_shortest_form(s, 0, Seq::empty());
            lengths_are_lowest_first(n as nat);
        },
        Value::Text(t) => {
            spelt_text_is_read(s, t, rest);
            fields_are_counted(Seq::empty(), t);
        },
        Value::Binary(b) => {
            counted_data_is_read(s, b, rest);
            fields_are_counted(b, Seq::empty());
        },
        Value::Pair(k, t) => {
            let mid = take_text(s).1;
            spelt_text_is_read(s, k, mid);
            spelt_text_is_read(mid, t, rest);
            fields_are_counted(Seq::empty(), k);
            fields_are_counted(Seq::empty(), t);
            assert(s =~= text_octets(k) + text_octets(t) + rest);
        },
    }
}

proof fn entries_are_spelt(owner: Owner, s: Seq<u8>, es: Seq<Entry>)
    requires
        valid_entries(owner, es),
        parse_entries(owner, s, es) is Ok,
    ensures
        ({
            let all = parse_entries(owner, s, es)->Ok_0;
            &&& all.len() >= es.len()
            &&& all.take(es.len() as int) == es
            &&& entries_octets(all.skip(es.len() as int)) == s
            &&& valid_entries(owner, all)
        }),
    decreases s.len(),
{
    reveal(parse_entries);
    let all = parse_entries(owner, s, es)->Ok_0;
    if s.len() == 0 {
        assert(all.take(es.len() as int) =~= es);
        assert(all.skip(es.len() as int) =~= Seq::<Entry>::empty());
        assert(s =~= Seq::<u8>::empty());
    } else {
        let id = s[0];
        let kind = kind_of(id)->0;
        let (r, rest) = take_value(kind, s.skip(1));
        let e = (id, r->Ok_0);
        let more = es.push(e);
        value_is_spelt(kind, s.skip(1));
        assert forall|i: int, j: int|
            0 <= i < j < more.len() && (#[trigger] more[i]).0 == (
            #[trigger] more[j]).0 implies repeats(owner, more[i].0) by {
            if j == es.len() {
                assert(ids(es)[i] == id);
            }
        }
        assert(rest.len() < s.len()) by {
            assert(s.skip(1).len() == value_octets(e.1).len() + rest.len());
        }
        entries_are_spelt(owner, rest, more);
        assert(all.take(es.len() as int) =~= all.take(more.len() as int).take(es.len() as int));
        assert(more.take(es.len() as int) =~= es);
        let tail = all.skip(more.len() as int);
        assert(all[es.len() as int] == all.take(more.len() as int)[es.len() as int]);
        assert(all.skip(es.len() as int) =~= seq![e] + tail);
        entries_octets_add(seq![e], tail);
        entry_octets_alone(e);
        assert(s =~= seq![id] + s.skip(1));
        assert(entry_octets(e) + rest =~= s);
    }
}

/// A property section is read exactly where it stands at the front, and what follows is left. What
/// is read is what the octets spell, property by property, and may stand in a section of its owner.
pub proof fn section_is_read(owner: Owner, s: Seq<u8>, es: Option<Seq<Entry>>, rest: Seq<u8>)
    ensures
        take_properties(owner, s) == (Ok::<Option<Seq<Entry>>, Error>(es), rest) <==> (s == section(
            es,
        ) + rest && (es is Some ==> es->0.len() > 0 && valid_entries(owner, es->0))),
{
    reveal(take_properties);
    if take_properties(owner, s) == (Ok::<Option<Seq<Entry>>, Error>(es), rest) {
        let (n, size) = length_at(s)->Ok_0;
        varint_is_unique(s);
        lengths_are_lowest_first(size as nat);
        let body = take_section(s).0->Ok_0;
        assert(s =~= s.take(n as int) + body + rest);
        match es {
            None => {
                assert(size == 0);
                assert(body =~= Seq::<u8>::empty());
                assert(s =~= section(es) + rest);
            },
            Some(v) => {
                entries_are_spelt(owner, body, Seq::empty());
                assert(v.skip(0) =~= v);
                entries_are_plain(v);
                assert(s =~= section(es) + rest);
            },
        }
    }
    if s == section(es) + rest && (es is Some ==> es->0.len() > 0 && valid_entries(owner, es->0)) {
        match es {
            None => super::property::no_properties_round_trip(owner, rest),
            Some(v) => {
                entries_are_plain(v);
                entries_have_len(v);
                lengths_are_lowest_first(entries_len(v));
                properties_round_trip(owner, v, rest);
            },
        }
    }
}

proof fn entries_are_passed(owner: Owner, before: Seq<Entry>, es: Seq<Entry>, tail: Seq<u8>)
    requires
        valid_entries(owner, before + es),
    ensures
        parse_entries(owner, entries_octets(es) + tail, before) == parse_entries(
            owner,
            tail,
            before + es,
        ),
    decreases es.len(),
{
    reveal(parse_entries);
    let all = before + es;
    if es.len() == 0 {
        assert(all =~= before);
        assert(entries_octets(es) + tail =~= tail);
    } else {
        let e = es[0];
        let others = es.skip(1);
        assert(es =~= seq![e] + others);
        entries_octets_add(seq![e], others);
        entry_octets_alone(e);
        let s = entries_octets(es) + tail;
        assert(all[before.len() as int] == e);
        let kind = kind_of(e.0)->0;
        value_round_trip(kind, e.1, entries_octets(others) + tail);
        assert(s.skip(1) =~= value_octets(e.1) + (entries_octets(others) + tail));
        assert(s[0] == e.0);
        assert(!(ids(before).contains(e.0) && !repeats(owner, e.0))) by {
            if ids(before).contains(e.0) {
                let i = ids(before).index_of(e.0);
                assert(all[i].0 == all[before.len() as int].0);
            }
        }
        assert(before.push(e) + others =~= all);
        entries_are_passed(owner, before.push(e), others, tail);
    }
}

/// A property section is refused for the first property that may not stand in it: one that the
/// owner does not have, for its identifier; one that is there already and may not come again, or
/// one too many, as malformed; and one whose value cannot be read, for what is wrong with the
/// value. What follows the section is left.
pub proof fn wrong_property_is_refused(
    owner: Owner,
    es: Seq<Entry>,
    id: u8,
    more: Seq<u8>,
    rest: Seq<u8>,
)
    requires
        valid_entries(owner, es),
        (properties(es) + seq![id] + more).len() <= 268435455,
    ensures
        ({
            let body = properties(es) + seq![id] + more;
            let r = take_properties(owner, sevens(body.len() as int) + body + rest);
            let again = exists|i: int| 0 <= i < es.len() && (#[trigger] es[i]).0 == id;
            let repeatable = id == 38 || (owner is Publish && id == 11);
            &&& r.1 == rest
            &&& if id >= 64 {
                r.0 == Err::<Option<Seq<Entry>>, Error>(Error::InvalidPropertyType(id))
            } else if es.len() >= 1024 || (again && !repeatable) {
                r.0 == Err::<Option<Seq<Entry>>, Error>(Error::MalformedPacket)
            } else if !stands_in(owner, id) {
                r.0 == Err::<Option<Seq<Entry>>, Error>(Error::InvalidPropertyType(id))
            } else {
                take_value(kind_of(id)->0, more).0 matches Err(e) ==> r.0 == Err::<
                    Option<Seq<Entry>>,
                    Error,
                >(e)
            }
        }),
{
    reveal(take_properties);
    reveal(parse_entries);
    let body = properties(es) + seq![id] + more;
    lengths_are_lowest_first(body.len());
    section_round_trip(body, rest);
    entries_are_plain(es);
    let tail = seq![id] + more;
    assert(Seq::<Entry>::empty() + es =~= es);
    entries_are_passed(owner, Seq::empty(), es, tail);
    assert(body =~= entries_octets(es) + tail);
    assert(tail[0] == id);
    assert(tail.skip(1) =~= more);
    if exists|i: int| 0 <= i < es.len() && (#[trigger] es[i]).0 == id {
        let i = choose|i: int| 0 <= i < es.len() && (#[trigger] es[i]).0 == id;
        assert(ids(es)[i] == id);
    }
    if ids(es).contains(id) {
        let i = ids(es).index_of(id);
        assert(es[i].0 == id);
    }
    owners_have_their_properties(owner, id);
}

/// Whether a property may stand in a section.
pub open spec fn stands_in(owner: Owner, id: u8) -> bool {
    match owner {
        Owner::Connect => (id == 0x11 || id == 0x15 || id == 0x16 || id == 0x17 || id == 0x19
            || id == 0x21 || id == 0x22 || id == 0x26 || id == 0x27),
        Owner::Will => (id == 0x01 || id == 0x02 || id == 0x03 || id == 0x08 || id == 0x09 || id
            == 0x18 || id == 0x26),
        Owner::ConnAck => (id == 0x11 || id == 0x12 || id == 0x13 || id == 0x15 || id == 0x16
            || id == 0x1A || id == 0x1C || id == 0x1F || id == 0x21 || id == 0x22 || id == 0x24
                || id == 0x25 || id == 0x26 || id == 0x27 || id == 0x28 || id == 0x29 || id
                    == 0x2A),
        Owner::Publish => (id == 0x01 || id == 0x02 || id == 0x03 || id == 0x08 || id == 0x09
            || id == 0x0B || id == 0x23 || id == 0x26),
        Owner::Acknowledgement => (id == 0x1F || id == 0x26),
        Owner::Subscribe => (id == 0x0B || id == 0x26),
        Owner::Unsubscribe => (id == 0x26),
        Owner::Disconnect => (id == 0x11 || id == 0x1C || id == 0x1F || id == 0x26),
        Owner::Auth => (id == 0x15 || id == 0x16 || id == 0x1F || id == 0x26),
    }
}

/// Each owner of a section has its own properties; user properties may stand several times
/// everywhere, subscription identifiers in a publication. The identifier of a property tells how
/// its value is written.
pub proof fn owners_have_their_properties(owner: Owner, id: u8)
    ensures
        allowed(owner, id) <==> stands_in(owner, id),
        repeats(owner, id) <==> (id == 0x26 || (owner is Publish && id == 0x0B)),
        kind_of(id) == Some(Kind::Byte) <==> (id == 0x01 || id == 0x17 || id == 0x19 || id
            == 0x24 || id == 0x25 || id == 0x28 || id == 0x29 || id == 0x2A),
        kind_of(id) == Some(Kind::Short) <==> (id == 0x13 || id == 0x21 || id == 0x22 || id
            == 0x23),
        kind_of(id) == Some(Kind::Integer) <==> (id == 0x02 || id == 0x11 || id == 0x18 || id
            == 0x27),
        kind_of(id) == Some(Kind::Variable) <==> id == 0x0B,
        kind_of(id) == Some(Kind::Text) <==> (id == 0x03 || id == 0x08 || id == 0x12 || id
            == 0x15 || id == 0x1A || id == 0x1C || id == 0x1F),
        kind_of(id) == Some(Kind::Binary) <==> (id == 0x09 || id == 0x16),
        kind_of(id) == Some(Kind::Pair) <==> id == 0x26,
        stands_in(owner, id) ==> kind_of(id) is Some && id < 64,
{
}

/// A property section can be written exactly where it has 1024 properties at most, its texts and
/// data fit two octets of length, its texts hold no null character and its numbers fit four groups
/// of seven bits, and where the order that is asked for, if one is, lists its identifiers.
pub proof fn section_is_writable(es: Option<Seq<Entry>>, order: Option<Seq<u8>>)
    ensures
        writable_section(es, order) is Some <==> (es is Some ==> {
            &&& es->0.len() <= 1024
            &&& forall|i: int|
                0 <= i < es->0.len() ==> match (#[trigger] es->0[i]).1 {
                    Value::Variable(n) => n <= 268435455,
                    Value::Text(t) => encode_utf8(t).len() <= 65535 && !t.contains('\0'),
                    Value::Binary(b) => b.len() <= 65535,
                    Value::Pair(k, t) => encode_utf8(k).len() <= 65535 && !k.contains('\0')
                        && encode_utf8(t).len() <= 65535 && !t.contains('\0'),
                    _ => true,
                }
            &&& order is Some ==> order->0.to_multiset() == ids(es->0).to_multiset()
        }),
{
    if let Some(v) = es {
        if let Some(o) = order {
            order_lists_identifiers(v, o);
        }
        assert(entries_fit(v) <==> v.len() <= 1024 && forall|i: int|
            0 <= i < v.len() ==> value_fits((#[trigger] v[i]).1));
        if entries_fit(v) {
            assert forall|i: int| 0 <= i < es->0.len() implies value_fits(
                (#[trigger] es->0[i]).1,
            ) by {
                assert(v[i] == es->0[i]);
            }
        }
        if forall|i: int| 0 <= i < es->0.len() ==> value_fits((#[trigger] es->0[i]).1) {
            assert forall|i: int| 0 <= i < v.len() implies value_fits((#[trigger] v[i]).1) by {
                assert(v[i] == es->0[i]);
            }
        }
    }
}

/// An order can be followed exactly where it lists the identifiers of the properties, each as often
/// as it occurs.
pub proof fn order_lists_identifiers(es: Seq<Entry>, order: Seq<u8>)
    ensures
        rearrange(es, order) is Some <==> order.to_multiset() == ids(es).to_multiset(),
    decreases order.len(),
{
    broadcast use vstd::seq_lib::group_to_multiset_ensures;

    let m = ids(es).to_multiset();
    if order.len() == 0 {
        assert(order =~= Seq::<u8>::empty());
        if es.len() == 0 {
            assert(ids(es) =~= order);
        } else {
            assert(m.len() == ids(es).len());
            assert(order.to_multiset().len() == 0);
        }
    } else {
        let id = order[0];
        let tail = order.skip(1);
        position_is_first(es, id);
        let i = super::property::position(es, id) as int;
        assert(order =~= seq![id] + tail);
        assert(order.remove(0) =~= tail);
        assert(tail.to_multiset() =~= order.to_multiset().remove(id));
        if i >= es.len() {
            if order.to_multiset() == m {
                assert(order.contains(id));
                assert(m.count(id) > 0);
                assert(ids(es).contains(id));
                let j = ids(es).index_of(id);
                assert(es[j].0 == id);
            }
        } else {
            let left = es.remove(i);
            assert(ids(left) =~= ids(es).remove(i));
            assert(ids(es)[i] == id);
            assert(ids(left).to_multiset() =~= m.remove(id));
            order_lists_identifiers(left, tail);
            if tail.to_multiset() == ids(left).to_multiset() {
                assert(order.contains(id));
                assert(ids(es).contains(id));
                assert(order.to_multiset() =~= tail.to_multiset().insert(id));
                assert(m =~= ids(left).to_multiset().insert(id));
            }
        }
    }
}

proof fn entries_are_noted(owner: Owner, before: Seq<Entry>, es: Seq<Entry>, tail: Seq<u8>)
    requires
        valid_entries(owner, before + es),
    ensures
        noted_ids(owner, entries_octets(es) + tail, before) == noted_ids(owner, tail, before + es),
    decreases es.len(),
{
    reveal(noted_ids);
    let all = before + es;
    if es.len() == 0 {
        assert(all =~= before);
        assert(entries_octets(es) + tail =~= tail);
    } else {
        let e = es[0];
        let others = es.skip(1);
        assert(es =~= seq![e] + others);
        entries_octets_add(seq![e], others);
        entry_octets_alone(e);
        let s = entries_octets(es) + tail;
        assert(all[before.len() as int] == e);
        let kind = kind_of(e.0)->0;
        value_round_trip(kind, e.1, entries_octets(others) + tail);
        assert(s.skip(1) =~= value_octets(e.1) + (entries_octets(others) + tail));
        assert(s[0] == e.0);
        owners_have_their_properties(owner, e.0);
        assert(!(ids(before).contains(e.0) && !repeats(owner, e.0))) by {
            if ids(before).contains(e.0) {
                let i = ids(before).index_of(e.0);
                assert(all[i].0 == all[before.len() as int].0);
            }
        }
        assert(before.push(e) + others =~= all);
        entries_are_noted(owner, before.push(e), others, tail);
    }
}

/// The reader of a section notes the identifiers of the properties in the order in which they
/// stand: all of them where the section is in order; up to the one that is refused otherwise, and
/// that one too unless it is out of range, comes again without leave or is one too many.
pub proof fn identifiers_are_noted(
    owner: Owner,
    es: Seq<Entry>,
    id: u8,
    more: Seq<u8>,
    rest: Seq<u8>,
)
    requires
        valid_entries(owner, es),
    ensures
        section_ids(owner, section(Some(es)) + rest) == ids(es),
        ({
            let body = properties(es) + seq![id] + more;
            let again = exists|i: int| 0 <= i < es.len() && (#[trigger] es[i]).0 == id;
            let passed = id < 64 && es.len() < 1024 && (!again || id == 38 || (owner is Publish
                && id == 11));
            let refused = !passed || !stands_in(owner, id) || take_value(
                kind_of(id)->0,
                more,
            ).0 is Err;
            body.len() <= 268435455 && refused ==> section_ids(
                owner,
                sevens(body.len() as int) + body + rest,
            ) == if passed {
                ids(es).push(id)
            } else {
                ids(es)
            }
        }),
{
    reveal(noted_ids);
    entries_are_plain(es);
    entries_have_len(es);
    assert(Seq::<Entry>::empty() + es =~= es);
    lengths_are_lowest_first(entries_len(es));
    section_round_trip(properties(es), rest);
    entries_are_noted(owner, Seq::empty(), es, Seq::empty());
    assert(entries_octets(es) + Seq::<u8>::empty() =~= entries_octets(es));
    let body = properties(es) + seq![id] + more;
    if body.len() <= 268435455 {
        lengths_are_lowest_first(body.len());
        section_round_trip(body, rest);
        let tail = seq![id] + more;
        entries_are_noted(owner, Seq::empty(), es, tail);
        assert(body =~= entries_octets(es) + tail);
        assert(tail[0] == id);
        assert(tail.skip(1) =~= more);
        if exists|i: int| 0 <= i < es.len() && (#[trigger] es[i]).0 == id {
            let i = choose|i: int| 0 <= i < es.len() && (#[trigger] es[i]).0 == id;
            assert(ids(es)[i] == id);
        }
        if ids(es).contains(id) {
            let i = ids(es).index_of(id);
            assert(es[i].0 == id);
        }
        owners_have_their_properties(owner, id);
    }
}

} // verus!
