//! Primitive fields on the wire: integers, strings, binary data and variable byte integers.
//!
//! A reader is specified by a function from the octets before the call to a pair: what the call
//! returns, and the octets that it leaves. A writer is specified by the octets that it appends.
use bytes::{Buf, Bytes, BytesMut};
use vstd::prelude::*;
use vstd::slice::slice_to_vec;
use vstd::utf8::{decode_utf8, encode_utf8, valid_utf8};

use crate::octets::{
    be16, be32, buffered, fits, get_u16, get_u32, get_u8, has_room, octets, put_u16, put_u8, u16_at,
    u32_at,
};
use crate::text::contains_nul;
use crate::v5::mqttbytes::Error;

verus! {

broadcast use vstd::seq_lib::group_seq_properties;

/// The largest number that a variable byte integer can hold.
pub const MAX_VARINT: usize = 268_435_455;

// Specification of the readers ---------------------------------------------------------------

pub open spec fn take_u8(s: Seq<u8>) -> (Result<u8, Error>, Seq<u8>) {
    if s.len() < 1 {
        (Err(Error::MalformedPacket), s)
    } else {
        (Ok(s[0]), s.skip(1))
    }
}

pub open spec fn take_u16(s: Seq<u8>) -> (Result<u16, Error>, Seq<u8>) {
    if s.len() < 2 {
        (Err(Error::MalformedPacket), s)
    } else {
        (Ok(u16_at(s)), s.skip(2))
    }
}

pub open spec fn take_u32(s: Seq<u8>) -> (Result<u32, Error>, Seq<u8>) {
    if s.len() < 4 {
        (Err(Error::MalformedPacket), s)
    } else {
        (Ok(u32_at(s)), s.skip(4))
    }
}

/// Binary data: a length in two octets, then that many octets.
#[verifier::opaque]
pub open spec fn take_binary(s: Seq<u8>) -> (Result<Seq<u8>, Error>, Seq<u8>) {
    match take_u16(s) {
        (Err(e), rest) => (Err(e), rest),
        (Ok(n), rest) => if n > rest.len() {
            (Err(Error::BoundaryCrossed(n as usize)), rest)
        } else {
            (Ok(rest.take(n as int)), rest.skip(n as int))
        },
    }
}

/// A string: binary data that spells UTF-8 text without the character U+0000.
#[verifier::opaque]
pub open spec fn take_text(s: Seq<u8>) -> (Result<Seq<char>, Error>, Seq<u8>) {
    match take_binary(s) {
        (Err(e), rest) => (Err(e), rest),
        (Ok(b), rest) => if !valid_utf8(b) {
            (Err(Error::TopicNotUtf8), rest)
        } else if decode_utf8(b).contains('\0') {
            (Err(Error::MalformedPacket), rest)
        } else {
            (Ok(decode_utf8(b)), rest)
        },
    }
}

/// The variable byte integer at the front: how many octets it takes and the number it spells,
/// least significant seven bits first. It has four octets at most and no superfluous zero octet.
pub open spec fn length_at(s: Seq<u8>) -> Result<(usize, usize), Error> {
    if s.len() == 0 {
        Err(Error::InsufficientBytes(1))
    } else if s[0] < 128 {
        Ok((1, s[0] as usize))
    } else if s.len() == 1 {
        Err(Error::InsufficientBytes(1))
    } else if s[1] == 0 {
        Err(Error::MalformedRemainingLength)
    } else if s[1] < 128 {
        Ok((2, (s[0] - 128 + s[1] * 128) as usize))
    } else if s.len() == 2 {
        Err(Error::InsufficientBytes(1))
    } else if s[2] == 0 {
        Err(Error::MalformedRemainingLength)
    } else if s[2] < 128 {
        Ok((3, (s[0] - 128 + (s[1] - 128) * 128 + s[2] * 16384) as usize))
    } else if s.len() == 3 {
        Err(Error::InsufficientBytes(1))
    } else if s[3] == 0 || s[3] >= 128 {
        Err(Error::MalformedRemainingLength)
    } else {
        Ok(
            (
                4,
                (s[0] - 128 + (s[1] - 128) * 128 + (s[2] - 128) * 16384 + s[3]
                    * 2097152) as usize,
            ),
        )
    }
}

/// A variable byte integer as a field of its own.
pub open spec fn take_varint(s: Seq<u8>) -> (Result<usize, Error>, Seq<u8>) {
    match length_at(s) {
        Err(e) => (Err(e), s),
        Ok((n, v)) => (Ok(v), s.skip(n as int)),
    }
}

/// A section: its length as a variable byte integer, then that many octets.
pub open spec fn take_section(s: Seq<u8>) -> (Result<Seq<u8>, Error>, Seq<u8>) {
    match length_at(s) {
        Err(e) => (Err(e), s),
        Ok((n, size)) => if s.len() < n + size {
            (Err(Error::MalformedPacket), s)
        } else {
            (Ok(s.subrange(n as int, n + size)), s.skip(n + size))
        },
    }
}

// Specification of the writers ---------------------------------------------------------------

/// The octets of a variable byte integer, least significant seven bits first.
pub open spec fn varint(n: nat) -> Seq<u8>
    decreases n,
{
    if n < 128 {
        seq![n as u8]
    } else {
        seq![(n % 128 + 128) as u8] + varint(n / 128)
    }
}

/// How many octets the variable byte integer of `n` takes; four for a number that is too large.
pub open spec fn varint_len(n: int) -> nat {
    if n >= 2_097_152 {
        4
    } else if n >= 16_384 {
        3
    } else if n >= 128 {
        2
    } else {
        1
    }
}

/// Binary data on the wire. The two octets in front hold the length modulo 65536.
#[verifier::opaque]
pub open spec fn binary_octets(b: Seq<u8>) -> Seq<u8> {
    be16((b.len() % 65536) as u16) + b
}

/// A string on the wire.
#[verifier::opaque]
pub open spec fn text_octets(t: Seq<char>) -> Seq<u8> {
    binary_octets(encode_utf8(t))
}

/// Whether a string can stand in a packet: its length fits two octets and U+0000 is not in it.
pub open spec fn text_fits(t: Seq<char>) -> bool {
    encode_utf8(t).len() <= u16::MAX && !t.contains('\0')
}

// Laws of the primitive fields ---------------------------------------------------------------

/// What is left after binary data is no longer than what was there.
pub broadcast proof fn take_binary_shrinks(s: Seq<u8>)
    ensures
        (#[trigger] take_binary(s)).1.len() <= s.len(),
{
    reveal(take_binary);
}

/// What is left after a string is no longer than what was there.
pub broadcast proof fn take_text_shrinks(s: Seq<u8>)
    ensures
        (#[trigger] take_text(s)).1.len() <= s.len(),
{
    reveal(take_text);
    take_binary_shrinks(s);
}

pub broadcast group group_take_shrinks {
    take_binary_shrinks,
    take_text_shrinks,
}

/// The number of octets of binary data.
pub broadcast proof fn binary_octets_len(b: Seq<u8>)
    ensures
        #[trigger] binary_octets(b).len() == 2 + b.len(),
{
    reveal(binary_octets);
}

/// The number of octets of a string.
pub broadcast proof fn text_octets_len(t: Seq<char>)
    ensures
        #[trigger] text_octets(t).len() == 2 + encode_utf8(t).len(),
{
    reveal(text_octets);
    binary_octets_len(encode_utf8(t));
}

pub broadcast group group_octets_len {
    binary_octets_len,
    text_octets_len,
}

/// Appending is associative.
pub broadcast proof fn append_assoc(a: Seq<u8>, b: Seq<u8>, c: Seq<u8>)
    ensures
        #[trigger] (a + b + c) == a + (b + c),
{
    assert(a + b + c =~= a + (b + c));
}

/// A number written in two octets is read back, and what follows it is left.
pub broadcast proof fn u16_round_trip(v: u16, rest: Seq<u8>)
    ensures
        #[trigger] take_u16(be16(v) + rest) == (Ok::<u16, Error>(v), rest),
{
    let s = be16(v) + rest;
    assert(s.skip(2) =~= rest);
    assert(s[0] == v / 256 && s[1] == v % 256);
}

/// A number written in four octets is read back, and what follows it is left.
pub broadcast proof fn u32_round_trip(v: u32, rest: Seq<u8>)
    ensures
        #[trigger] take_u32(be32(v) + rest) == (Ok::<u32, Error>(v), rest),
{
    let s = be32(v) + rest;
    assert(s.skip(4) =~= rest);
    assert(s[0] == v / 16777216 && s[1] == (v / 65536) % 256 && s[2] == (v / 256) % 256 && s[3] == v
        % 256);
}

/// Binary data of at most 65535 octets is read back, and what follows it is left.
pub broadcast proof fn binary_round_trip(b: Seq<u8>, rest: Seq<u8>)
    requires
        b.len() <= u16::MAX,
    ensures
        #[trigger] take_binary(binary_octets(b) + rest) == (Ok::<Seq<u8>, Error>(b), rest),
{
    reveal(binary_octets);
    reveal(take_binary);
    let n = b.len() as u16;
    assert(binary_octets(b) + rest =~= be16(n) + (b + rest));
    u16_round_trip(n, b + rest);
    assert((b + rest).take(n as int) =~= b);
    assert((b + rest).skip(n as int) =~= rest);
}

/// A string that can stand in a packet is read back, and what follows it is left.
pub broadcast proof fn text_round_trip(t: Seq<char>, rest: Seq<u8>)
    requires
        text_fits(t),
    ensures
        #[trigger] take_text(text_octets(t) + rest) == (Ok::<Seq<char>, Error>(t), rest),
{
    reveal(text_octets);
    reveal(take_text);
    binary_round_trip(encode_utf8(t), rest);
    vstd::utf8::encode_utf8_valid_utf8(t);
    vstd::utf8::encode_utf8_decode_utf8(t);
}

/// The number of octets of a variable byte integer, for every number that it can hold.
pub proof fn varint_has_len(n: nat)
    requires
        n <= MAX_VARINT,
    ensures
        varint(n).len() == varint_len(n as int),
{
    reveal_with_fuel(varint, 4);
}

/// A variable byte integer is read back, whatever follows it.
pub proof fn varint_round_trip(n: nat, rest: Seq<u8>)
    requires
        n <= MAX_VARINT,
    ensures
        length_at(varint(n) + rest) == Ok::<(usize, usize), Error>(
            (varint_len(n as int) as usize, n as usize),
        ),
        take_varint(varint(n) + rest) == (Ok::<usize, Error>(n as usize), rest),
        varint(n).len() == varint_len(n as int),
{
    reveal_with_fuel(varint, 4);
    let s = varint(n) + rest;
    if n < 128 {
        assert(s[0] == n);
    } else if n < 16384 {
        assert(s[0] == n % 128 + 128 && s[1] == n / 128);
    } else if n < 2097152 {
        assert(s[0] == n % 128 + 128 && s[1] == (n / 128) % 128 + 128 && s[2] == (n / 128) / 128);
    } else {
        assert(s[0] == n % 128 + 128 && s[1] == (n / 128) % 128 + 128 && s[2] == ((n / 128) / 128)
            % 128 + 128 && s[3] == ((n / 128) / 128) / 128);
    }
    assert(s.skip(varint(n).len() as int) =~= rest);
}

/// Seven more bits in front of a number are one more octet in front of its octets.
proof fn varint_grows(d: nat, n: nat)
    requires
        d < 128,
        n > 0,
    ensures
        varint(d + n * 128) == seq![(d + 128) as u8] + varint(n),
{
    let whole = d + n * 128;
    assert(whole / 128 == n && whole % 128 == d);
}

/// A number has one representation: what is read as a variable byte integer is what is written
/// for the number. Superfluous octets are refused.
pub proof fn varint_is_unique(s: Seq<u8>)
    requires
        length_at(s) is Ok,
    ensures
        ({
            let (n, v) = length_at(s)->Ok_0;
            &&& n <= s.len()
            &&& v <= MAX_VARINT
            &&& s.take(n as int) == varint(v as nat)
        }),
{
    let (n, v) = length_at(s)->Ok_0;
    if n == 1 {
        assert(s.take(1) =~= varint(s[0] as nat));
    } else if n == 2 {
        varint_grows((s[0] - 128) as nat, s[1] as nat);
        assert(s.take(2) =~= seq![s[0]] + seq![s[1]]);
    } else if n == 3 {
        let high = ((s[1] - 128) + s[2] * 128) as nat;
        varint_grows((s[1] - 128) as nat, s[2] as nat);
        varint_grows((s[0] - 128) as nat, high);
        assert(s.take(3) =~= seq![s[0]] + (seq![s[1]] + seq![s[2]]));
    } else {
        let mid = ((s[2] - 128) + s[3] * 128) as nat;
        let high = ((s[1] - 128) + mid * 128) as nat;
        varint_grows((s[2] - 128) as nat, s[3] as nat);
        varint_grows((s[1] - 128) as nat, mid);
        varint_grows((s[0] - 128) as nat, high);
        assert(s.take(4) =~= seq![s[0]] + (seq![s[1]] + (seq![s[2]] + seq![s[3]])));
    }
}

/// A section is read back, and what follows it is left.
pub proof fn section_round_trip(body: Seq<u8>, rest: Seq<u8>)
    requires
        body.len() <= MAX_VARINT,
    ensures
        take_section(varint(body.len()) + body + rest) == (Ok::<Seq<u8>, Error>(body), rest),
{
    let n = body.len();
    varint_round_trip(n, body + rest);
    let s = varint(n) + body + rest;
    assert(s =~= varint(n) + (body + rest));
    assert(s.subrange(varint(n).len() as int, (varint(n).len() + n) as int) =~= body);
    assert(s.skip((varint(n).len() + n) as int) =~= rest);
}

// Readers ------------------------------------------------------------------------------------

/// After collecting enough bytes to frame a packet, it is possible that the content itself is
/// wrong, like an expected packet id not being present. This check keeps the reads in bounds.
pub(crate) fn read_u16(stream: &mut Bytes) -> (r: Result<u16, Error>)
    ensures
        (r, octets(*final(stream))) == take_u16(octets(*old(stream))),
{
    if stream.len() < 2 {
        return Err(Error::MalformedPacket);
    }
    Ok(get_u16(stream))
}

pub(crate) fn read_u8(stream: &mut Bytes) -> (r: Result<u8, Error>)
    ensures
        (r, octets(*final(stream))) == take_u8(octets(*old(stream))),
{
    if stream.is_empty() {
        return Err(Error::MalformedPacket);
    }
    Ok(get_u8(stream))
}

pub(crate) fn read_u32(stream: &mut Bytes) -> (r: Result<u32, Error>)
    ensures
        (r, octets(*final(stream))) == take_u32(octets(*old(stream))),
{
    if stream.len() < 4 {
        return Err(Error::MalformedPacket);
    }
    Ok(get_u32(stream))
}

/// Reads a series of bytes with a length from a byte stream
pub(crate) fn read_mqtt_bytes(stream: &mut Bytes) -> (r: Result<Bytes, Error>)
    ensures
        match r {
            Ok(b) => (Ok::<Seq<u8>, Error>(octets(b)), octets(*final(stream))) == take_binary(
                octets(*old(stream)),
            ),
            Err(e) => (Err::<Seq<u8>, Error>(e), octets(*final(stream))) == take_binary(
                octets(*old(stream)),
            ),
        },
{
    proof {
        reveal(take_binary);
    }
    let len: usize = match read_u16(stream) {
        Ok(n) => n as usize,
        Err(e) => return Err(e),
    };
    if len > stream.len() {
        return Err(Error::BoundaryCrossed(len));
    }
    Ok(stream.split_to(len))
}

/// Reads a string from bytes stream
pub(crate) fn read_mqtt_string(stream: &mut Bytes) -> (r: Result<String, Error>)
    ensures
        match r {
            Ok(t) => (Ok::<Seq<char>, Error>(t@), octets(*final(stream))) == take_text(
                octets(*old(stream)),
            ),
            Err(e) => (Err::<Seq<char>, Error>(e), octets(*final(stream))) == take_text(
                octets(*old(stream)),
            ),
        },
{
    proof {
        reveal(take_text);
    }
    let s = match read_mqtt_bytes(stream) {
        Ok(s) => s,
        Err(e) => return Err(e),
    };
    let data: &[u8] = &s;
    match String::from_utf8(slice_to_vec(data)) {
        Ok(v) => if !contains_nul(v.as_str()) {
            Ok(v)
        } else {
            Err(Error::MalformedPacket)
        },
        Err(_) => Err(Error::TopicNotUtf8),
    }
}

/// Parses variable byte integer in the stream and returns the length
/// and number of bytes that make it. Used for remaining length calculation
/// as well as for calculating property lengths
pub(crate) fn length(stream: &[u8]) -> (r: Result<(usize, usize), Error>)
    ensures
        r == length_at(stream@),
        r matches Ok((n, size)) ==> 1 <= n <= 4 && n <= stream@.len() && size <= MAX_VARINT && n
            == varint_len(size as int),
{
    let mut len: usize = 0;
    let mut scale: usize = 1;
    let mut i: usize = 0;
    while i < stream.len()
        invariant
            i <= 3,
            i <= stream@.len(),
            forall|j: int| 0 <= j < i ==> stream@[j] >= 128,
            i == 0 ==> scale == 1 && len == 0,
            i == 1 ==> scale == 128 && len == stream@[0] - 128,
            i == 2 ==> scale == 16384 && len == stream@[0] - 128 + (stream@[1] - 128) * 128,
            i == 3 ==> scale == 2097152 && len == stream@[0] - 128 + (stream@[1] - 128) * 128 + (
            stream@[2] - 128) * 16384,
        decreases stream@.len() - i,
    {
        let byte: usize = stream[i] as usize;
        let low: usize = byte % 128;
        assert(low * scale == if i == 0 {
            low as int
        } else if i == 1 {
            low * 128
        } else if i == 2 {
            low * 16384
        } else {
            low * 2097152
        }) by (nonlinear_arith)
            requires
                i <= 3,
                i == 0 ==> scale == 1,
                i == 1 ==> scale == 128,
                i == 2 ==> scale == 16384,
                i == 3 ==> scale == 2097152,
        ;
        len = len + low * scale;
        // stop when continue bit is 0
        if byte < 128 {
            if i > 0 && byte == 0 {
                return Err(Error::MalformedRemainingLength);
            }
            return Ok((i + 1, len));
        }
        // Only a max of 4 bytes allowed for remaining length
        if i == 3 {
            return Err(Error::MalformedRemainingLength);
        }
        i = i + 1;
        scale = if i == 1 {
            128
        } else if i == 2 {
            16384
        } else {
            2097152
        };
    }
    // Not enough bytes to frame remaining length. wait for
    // one more byte
    Err(Error::InsufficientBytes(1))
}

/// Isolate the declared property section before decoding any field. A malformed
/// field cannot consume bytes from a publish payload, client id or subscribe list.
pub(crate) fn read_properties_section(bytes: &mut Bytes) -> (r: Result<Bytes, Error>)
    ensures
        match r {
            Ok(b) => (Ok::<Seq<u8>, Error>(octets(b)), octets(*final(bytes))) == take_section(
                octets(*old(bytes)),
            ),
            Err(e) => (Err::<Seq<u8>, Error>(e), octets(*final(bytes))) == take_section(
                octets(*old(bytes)),
            ),
        },
{
    let data: &[u8] = &*bytes;
    let (prefix, size): (usize, usize) = match length(data) {
        Ok(v) => v,
        Err(e) => return Err(e),
    };
    if bytes.len() < prefix + size {
        return Err(Error::MalformedPacket);
    }
    let ghost s = octets(*bytes);
    bytes.advance(prefix);
    let section = bytes.split_to(size);
    assert(octets(section) =~= s.subrange(prefix as int, prefix + size));
    assert(octets(*bytes) =~= s.skip(prefix + size));
    Ok(section)
}

/// Reads a variable byte integer that stands as a field of its own.
pub(crate) fn read_variable(bytes: &mut Bytes) -> (r: Result<usize, Error>)
    ensures
        (r, octets(*final(bytes))) == take_varint(octets(*old(bytes))),
        r matches Ok(v) ==> v <= MAX_VARINT,
{
    let data: &[u8] = &*bytes;
    match length(data) {
        Ok((prefix, value)) => {
            bytes.advance(prefix);
            Ok(value)
        },
        Err(e) => Err(e),
    }
}

// Writers ------------------------------------------------------------------------------------

/// Serializes bytes to stream (including length)
pub(crate) fn write_mqtt_bytes(stream: &mut BytesMut, bytes: &[u8])
    requires
        has_room(*old(stream), binary_octets(bytes@).len() as int),
    ensures
        buffered(*final(stream)) == buffered(*old(stream)) + binary_octets(bytes@),
{
    proof {
        reveal(binary_octets);
    }
    let ghost s = buffered(*stream);
    let n: u16 = (bytes.len() % 65536) as u16;
    put_u16(stream, n);
    stream.extend_from_slice(bytes);
    assert(buffered(*stream) =~= s + binary_octets(bytes@));
}

/// Serializes a string to stream
pub(crate) fn write_mqtt_string(stream: &mut BytesMut, string: &str)
    requires
        has_room(*old(stream), text_octets(string@).len() as int),
    ensures
        buffered(*final(stream)) == buffered(*old(stream)) + text_octets(string@),
{
    proof {
        reveal(text_octets);
    }
    write_mqtt_bytes(stream, string.as_bytes());
}

/// Writes remaining length to stream and returns number of bytes for remaining length
pub(crate) fn write_remaining_length(stream: &mut BytesMut, len: usize) -> (r: Result<usize, Error>)
    requires
        has_room(*old(stream), varint_len(len as int) as int),
    ensures
        match r {
            Ok(count) => len <= MAX_VARINT && count == varint_len(len as int) && count == varint(
                len as nat,
            ).len() && buffered(*final(stream)) == buffered(*old(stream)) + varint(len as nat),
            Err(e) => len > MAX_VARINT && e == Error::PayloadTooLong && buffered(*final(stream))
                == buffered(*old(stream)),
        },
{
    if len > MAX_VARINT {
        return Err(Error::PayloadTooLong);
    }
    proof {
        varint_has_len(len as nat);
    }
    let ghost s = buffered(*stream);
    let mut x: usize = len;
    let mut count: usize = 0;
    let mut done = false;
    while !done
        invariant
            count + (if done { 0nat } else { varint(x as nat).len() }) == varint(len as nat).len(),
            varint(len as nat).len() == varint_len(len as int),
            fits((s.len() + varint_len(len as int)) as int),
            buffered(*stream).len() == s.len() + count,
            !done ==> buffered(*stream) + varint(x as nat) == s + varint(len as nat),
            done ==> buffered(*stream) == s + varint(len as nat),
        decreases (if done { 0int } else { x + 1 }),
    {
        let ghost before = buffered(*stream);
        let ghost y = x as nat;
        let low: u8 = (x % 128) as u8;
        x = x / 128;
        let byte: u8 = if x > 0 {
            low + 128
        } else {
            low
        };
        put_u8(stream, byte);
        count = count + 1;
        done = x == 0;
        proof {
            assert(varint(y) =~= if x > 0 {
                seq![byte] + varint(x as nat)
            } else {
                seq![byte]
            });
            if x > 0 {
                assert(buffered(*stream) + varint(x as nat) =~= before + varint(y));
            } else {
                assert(buffered(*stream) =~= before + varint(y));
            }
        }
    }
    Ok(count)
}

/// Return number of remaining length bytes required for encoding length
pub(crate) fn len_len(len: usize) -> (r: usize)
    ensures
        r == varint_len(len as int),
{
    if len >= 2_097_152 {
        4
    } else if len >= 16_384 {
        3
    } else if len >= 128 {
        2
    } else {
        1
    }
}

} // verus!
