//! The byte containers of the `bytes` crate as sequences of octets.
//!
//! `Bytes` and `BytesMut` are opaque to the verifier. The two spec functions below name the octets
//! that such a value holds, and every item in this file states what one method of the crate does to
//! them. Nothing else is said of the containers: how they share or grow their memory is left open.
use bytes::{Buf, BufMut, Bytes, BytesMut};
use vstd::prelude::*;

verus! {

#[verifier::external_type_specification]
#[verifier::external_body]
pub struct ExBytes(bytes::Bytes);

#[verifier::external_type_specification]
#[verifier::external_body]
pub struct ExBytesMut(bytes::BytesMut);

/// The octets that a `Bytes` value holds, first to last.
pub uninterp spec fn octets(b: bytes::Bytes) -> Seq<u8>;

/// The octets that a `BytesMut` buffer holds, first to last.
pub uninterp spec fn buffered(b: bytes::BytesMut) -> Seq<u8>;

/// Two octets, most significant first.
pub open spec fn be16(v: u16) -> Seq<u8> {
    seq![(v / 256) as u8, (v % 256) as u8]
}

/// Four octets, most significant first.
pub open spec fn be32(v: u32) -> Seq<u8> {
    seq![
        (v / 16777216) as u8,
        ((v / 65536) % 256) as u8,
        ((v / 256) % 256) as u8,
        (v % 256) as u8,
    ]
}

/// The number that the first two octets spell, most significant first.
pub open spec fn u16_at(s: Seq<u8>) -> u16 {
    (s[0] * 256 + s[1]) as u16
}

/// The number that the first four octets spell, most significant first.
pub open spec fn u32_at(s: Seq<u8>) -> u32 {
    (s[0] * 16777216 + s[1] * 65536 + s[2] * 256 + s[3]) as u32
}

/// Whether a buffer can hold `n` octets. An allocation has `isize::MAX` octets at most, and a
/// buffer that grows may ask for up to four times what it has to hold.
pub open spec fn fits(n: int) -> bool {
    4 * n <= isize::MAX
}

/// Whether `n` more octets can be appended.
pub open spec fn has_room(buffer: bytes::BytesMut, n: int) -> bool {
    fits(buffered(buffer).len() + n)
}

/// `Bytes::len` is the number of octets held.
pub assume_specification[ bytes::Bytes::len ](b: &bytes::Bytes) -> (r: usize)
    ensures
        r == octets(*b).len(),
;

/// `Bytes::is_empty` tells whether no octet is held.
pub assume_specification[ bytes::Bytes::is_empty ](b: &bytes::Bytes) -> (r: bool)
    ensures
        r == (octets(*b).len() == 0),
;

/// `Bytes::split_to` takes the first `at` octets out and leaves the others. It panics where
/// fewer are held.
pub assume_specification[ bytes::Bytes::split_to ](b: &mut bytes::Bytes, at: usize) -> (r:
    bytes::Bytes)
    requires
        at <= octets(*old(b)).len(),
    ensures
        octets(r) == octets(*old(b)).take(at as int),
        octets(*final(b)) == octets(*old(b)).skip(at as int),
;

/// `Bytes::copy_from_slice` holds a copy of the slice.
pub assume_specification[ bytes::Bytes::copy_from_slice ](data: &[u8]) -> (r: bytes::Bytes)
    ensures
        octets(r) == data@,
;

/// `Clone for Bytes` gives a handle on the same octets.
pub assume_specification[ <bytes::Bytes as Clone>::clone ](b: &bytes::Bytes) -> (r: bytes::Bytes)
    ensures
        octets(r) == octets(*b),
;

/// `Deref for Bytes` lends the octets as a slice.
pub assume_specification[ <bytes::Bytes as core::ops::Deref>::deref ](b: &bytes::Bytes) -> (r:
    &[u8])
    ensures
        r@ == octets(*b),
;

/// `Buf::advance` on `Bytes` drops the first `cnt` octets. It panics where fewer are held.
pub assume_specification[ <bytes::Bytes as bytes::Buf>::advance ](b: &mut bytes::Bytes, cnt: usize)
    requires
        cnt <= octets(*old(b)).len(),
    ensures
        octets(*final(b)) == octets(*old(b)).skip(cnt as int),
;

/// `From<Vec<u8>> for Bytes` holds the octets of the vector.
#[verifier::external_body]
pub(crate) fn bytes_from_vec(v: Vec<u8>) -> (r: Bytes)
    ensures
        octets(r) == v@,
{
    Bytes::from(v)
}

/// `From<String> for Bytes` holds the octets of the string in UTF-8.
#[verifier::external_body]
pub(crate) fn bytes_from_string(s: String) -> (r: Bytes)
    ensures
        octets(r) == vstd::utf8::encode_utf8(s@),
{
    Bytes::from(s)
}

/// `Buf::get_u8` takes the first octet. It panics where none is held.
#[verifier::external_body]
pub(crate) fn get_u8(b: &mut Bytes) -> (r: u8)
    requires
        octets(*old(b)).len() >= 1,
    ensures
        r == octets(*old(b))[0],
        octets(*final(b)) == octets(*old(b)).skip(1),
{
    b.get_u8()
}

/// `Buf::get_u16` takes two octets as a big-endian number. It panics where fewer are held.
#[verifier::external_body]
pub(crate) fn get_u16(b: &mut Bytes) -> (r: u16)
    requires
        octets(*old(b)).len() >= 2,
    ensures
        r == u16_at(octets(*old(b))),
        octets(*final(b)) == octets(*old(b)).skip(2),
{
    b.get_u16()
}

/// `Buf::get_u32` takes four octets as a big-endian number. It panics where fewer are held.
#[verifier::external_body]
pub(crate) fn get_u32(b: &mut Bytes) -> (r: u32)
    requires
        octets(*old(b)).len() >= 4,
    ensures
        r == u32_at(octets(*old(b))),
        octets(*final(b)) == octets(*old(b)).skip(4),
{
    b.get_u32()
}

/// `BytesMut::len` is the number of octets held.
pub assume_specification[ bytes::BytesMut::len ](b: &bytes::BytesMut) -> (r: usize)
    ensures
        r == buffered(*b).len(),
;

/// `BytesMut::extend_from_slice` appends the slice. It panics where the allocation would exceed
/// `isize::MAX`.
pub assume_specification[ bytes::BytesMut::extend_from_slice ](
    b: &mut bytes::BytesMut,
    extend: &[u8],
)
    requires
        has_room(*old(b), extend@.len() as int),
    ensures
        buffered(*final(b)) == buffered(*old(b)) + extend@,
;

/// `BytesMut::split_to` takes the first `at` octets out and leaves the others. It panics where
/// fewer are held.
pub assume_specification[ bytes::BytesMut::split_to ](b: &mut bytes::BytesMut, at: usize) -> (r:
    bytes::BytesMut)
    requires
        at <= buffered(*old(b)).len(),
    ensures
        buffered(r) == buffered(*old(b)).take(at as int),
        buffered(*final(b)) == buffered(*old(b)).skip(at as int),
;

/// `BytesMut::truncate` keeps the first `len` octets, or all where fewer are held.
pub assume_specification[ bytes::BytesMut::truncate ](b: &mut bytes::BytesMut, len: usize)
    ensures
        buffered(*final(b)) == (if len <= buffered(*old(b)).len() {
            buffered(*old(b)).take(len as int)
        } else {
            buffered(*old(b))
        }),
;

/// `BytesMut::freeze` turns the buffer into a `Bytes` value with the same octets.
pub assume_specification[ bytes::BytesMut::freeze ](b: bytes::BytesMut) -> (r: bytes::Bytes)
    ensures
        octets(r) == buffered(b),
;

/// `Deref for BytesMut` lends the octets as a slice.
pub assume_specification[ <bytes::BytesMut as core::ops::Deref>::deref ](b: &bytes::BytesMut) -> (r:
    &[u8])
    ensures
        r@ == buffered(*b),
;

/// `BufMut::put_u8` appends one octet. It panics where the allocation would exceed `isize::MAX`.
#[verifier::external_body]
pub(crate) fn put_u8(b: &mut BytesMut, v: u8)
    requires
        has_room(*old(b), 1),
    ensures
        buffered(*final(b)) == buffered(*old(b)).push(v),
{
    b.put_u8(v)
}

/// `BufMut::put_u16` appends two octets, most significant first. It panics where the allocation
/// would exceed `isize::MAX`.
#[verifier::external_body]
pub(crate) fn put_u16(b: &mut BytesMut, v: u16)
    requires
        has_room(*old(b), 2),
    ensures
        buffered(*final(b)) == buffered(*old(b)) + be16(v),
{
    b.put_u16(v)
}

/// `BufMut::put_u32` appends four octets, most significant first. It panics where the allocation
/// would exceed `isize::MAX`.
#[verifier::external_body]
pub(crate) fn put_u32(b: &mut BytesMut, v: u32)
    requires
        has_room(*old(b), 4),
    ensures
        buffered(*final(b)) == buffered(*old(b)) + be32(v),
{
    b.put_u32(v)
}

/// `IndexMut` through `DerefMut for BytesMut` replaces one octet. It panics out of bounds.
#[verifier::external_body]
pub(crate) fn set_octet(b: &mut BytesMut, i: usize, v: u8)
    requires
        i < buffered(*old(b)).len(),
    ensures
        buffered(*final(b)) == buffered(*old(b)).update(i as int, v),
{
    b[i] = v
}

} // verus!
