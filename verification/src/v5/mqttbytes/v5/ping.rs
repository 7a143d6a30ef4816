use bytes::BytesMut;
use vstd::prelude::*;

use crate::octets::{buffered, has_room, put_u8};
use crate::v5::mqttbytes::Error;

verus! {

#[derive(Debug, Clone, Copy, PartialEq, Eq)]
pub struct PingReq;

impl PingReq {
    pub fn write(payload: &mut BytesMut) -> (r: Result<usize, Error>)
        requires
            has_room(*old(payload), 2),
        ensures
            r == Ok::<usize, Error>(2),
            buffered(*final(payload)) == buffered(*old(payload)) + seq![0xC0u8, 0u8],
    {
        let ghost start = buffered(*payload);
        put_u8(payload, 0xC0);
        put_u8(payload, 0x00);
        assert(buffered(*payload) =~= start + seq![0xC0u8, 0u8]);
        Ok(2)
    }

    pub fn size(&self) -> (r: usize)
        ensures
            r == 2,
    {
        2
    }
}

#[derive(Debug, Clone, Copy, PartialEq, Eq)]
pub struct PingResp;

impl PingResp {
    pub fn write(payload: &mut BytesMut) -> (r: Result<usize, Error>)
        requires
            has_room(*old(payload), 2),
        ensures
            r == Ok::<usize, Error>(2),
            buffered(*final(payload)) == buffered(*old(payload)) + seq![0xD0u8, 0u8],
    {
        let ghost start = buffered(*payload);
        put_u8(payload, 0xD0);
        put_u8(payload, 0x00);
        assert(buffered(*payload) =~= start + seq![0xD0u8, 0u8]);
        Ok(2)
    }

    pub fn size(&self) -> (r: usize)
        ensures
            r == 2,
    {
        2
    }
}

} // verus!
