//! Fixed headers and the frame that they announce.
use vstd::prelude::*;

use crate::v5::mqttbytes::Error;
use super::wire::{length, length_at, varint, varint_len, varint_round_trip, MAX_VARINT};

verus! {

/// What a packet writer returns and appends. A packet is a first octet, the length of what
/// follows, the fields in front of the property section, the section and the fields behind it.
/// A packet that is too long stops behind the first octet; a section that cannot be written
/// (`None`) stops the writer behind the fields in front of it.
pub open spec fn emitted(
    first: u8,
    len: nat,
    head: Seq<u8>,
    section: Option<Seq<u8>>,
    tail: Seq<u8>,
) -> (Result<usize, Error>, Seq<u8>) {
    if len > MAX_VARINT {
        (Err(Error::PayloadTooLong), seq![first])
    } else {
        match section {
            Some(section) => (
                Ok((1 + varint_len(len as int) + len) as usize),
                seq![first] + varint(len) + head + section + tail,
            ),
            None => (Err(Error::MalformedPacket), seq![first] + varint(len) + head),
        }
    }
}

/// The number of octets of a packet whose fields take `len` octets.
pub open spec fn frame_len(len: nat) -> nat {
    1 + varint_len(len as int) + len
}

/// MQTT packet type
#[derive(Debug, Clone, Copy, PartialEq, Eq, Structural)]
pub enum PacketType {
    Connect,
    ConnAck,
    Publish,
    PubAck,
    PubRec,
    PubRel,
    PubComp,
    Subscribe,
    SubAck,
    Unsubscribe,
    UnsubAck,
    PingReq,
    PingResp,
    Disconnect,
    Auth,
}

/// Packet type from a byte
///
/// ```ignore
///          7                          3                          0
///          +--------------------------+--------------------------+
/// byte 1   | MQTT Control Packet Type | Flags for each type      |
///          +--------------------------+--------------------------+
///          |         Remaining Bytes Len  (1/2/3/4 bytes)        |
///          +-----------------------------------------------------+
///
/// <https://docs.oasis-open.org/mqtt/mqtt/v3.1.1/os/mqtt-v3.1.1-os.html#_Toc385349207>
/// ```
#[derive(Debug, Clone, Copy, PartialEq, Eq, PartialOrd)]
pub struct FixedHeader {
    /// First byte of the stream. Used to identify packet types and
    /// several flags
    pub byte1: u8,
    /// Length of fixed header. Byte 1 + (1..4) bytes. So fixed header
    /// len can vary from 2 bytes to 5 bytes
    /// 1..4 bytes are variable length encoded to represent remaining length
    pub fixed_header_len: usize,
    /// Remaining length of the packet. Doesn't include fixed header bytes
    /// Represents variable header + payload size
    pub remaining_len: usize,
}

/// The packet type of a first octet. The upper four bits name the type. The lower four bits of a
/// publish packet hold its quality of service, which is not 3, and a duplicate flag, which needs
/// one above 0; those of a release, a subscription or its removal are 2; all others are 0.
pub open spec fn type_of(byte1: u8) -> Result<PacketType, Error> {
    let num = byte1 / 16;
    let flags = byte1 % 16;
    let qos = (flags / 2) % 4;
    let flags_ok = if num == 3 {
        qos != 3 && (qos == 0 ==> flags / 8 == 0)
    } else if num == 6 || num == 8 || num == 10 {
        flags == 2
    } else {
        flags == 0
    };
    if !flags_ok {
        Err(Error::MalformedPacket)
    } else if num == 1 {
        Ok(PacketType::Connect)
    } else if num == 2 {
        Ok(PacketType::ConnAck)
    } else if num == 3 {
        Ok(PacketType::Publish)
    } else if num == 4 {
        Ok(PacketType::PubAck)
    } else if num == 5 {
        Ok(PacketType::PubRec)
    } else if num == 6 {
        Ok(PacketType::PubRel)
    } else if num == 7 {
        Ok(PacketType::PubComp)
    } else if num == 8 {
        Ok(PacketType::Subscribe)
    } else if num == 9 {
        Ok(PacketType::SubAck)
    } else if num == 10 {
        Ok(PacketType::Unsubscribe)
    } else if num == 11 {
        Ok(PacketType::UnsubAck)
    } else if num == 12 {
        Ok(PacketType::PingReq)
    } else if num == 13 {
        Ok(PacketType::PingResp)
    } else if num == 14 {
        Ok(PacketType::Disconnect)
    } else if num == 15 {
        Ok(PacketType::Auth)
    } else {
        Err(Error::InvalidPacketType(num))
    }
}

/// The fixed header at the front of a stream.
pub open spec fn header_at(s: Seq<u8>) -> Result<FixedHeader, Error> {
    if s.len() < 2 {
        Err(Error::InsufficientBytes((2 - s.len()) as usize))
    } else {
        match length_at(s.skip(1)) {
            Err(e) => Err(e),
            Ok((n, len)) => Ok(
                FixedHeader {
                    byte1: s[0],
                    fixed_header_len: (n + 1) as usize,
                    remaining_len: len,
                },
            ),
        }
    }
}

/// The fixed header at the front of a stream that holds the whole packet, within the limit.
pub open spec fn checked_header(s: Seq<u8>, max_packet_size: Option<u32>) -> Result<
    FixedHeader,
    Error,
> {
    match header_at(s) {
        Err(e) => Err(e),
        Ok(h) => if max_packet_size is Some && h.remaining_len > max_packet_size->0 {
            Err(
                Error::PayloadSizeLimitExceeded {
                    pkt_size: h.remaining_len,
                    max: max_packet_size->0,
                },
            )
        } else if s.len() < h.fixed_header_len + h.remaining_len {
            Err(
                Error::InsufficientBytes(
                    (h.fixed_header_len + h.remaining_len - s.len()) as usize,
                ),
            )
        } else {
            Ok(h)
        },
    }
}

impl FixedHeader {
    /// Parse and validate a fixed header without waiting for its payload.
    pub fn parse(bytes: &[u8]) -> (r: Result<Self, Error>)
        ensures
            r == match header_at(bytes@) {
                Ok(h) => match type_of(h.byte1) {
                    Ok(_) => Ok::<Self, Error>(h),
                    Err(e) => Err(e),
                },
                Err(e) => Err(e),
            },
    {
        let header = match parse_fixed_header(bytes) {
            Ok(header) => header,
            Err(e) => return Err(e),
        };
        match header.packet_type() {
            Ok(_) => Ok(header),
            Err(e) => Err(e),
        }
    }

    pub fn header_length(&self) -> (r: usize)
        ensures
            r == self.fixed_header_len,
    {
        self.fixed_header_len
    }

    pub fn remaining_length(&self) -> (r: usize)
        ensures
            r == self.remaining_len,
    {
        self.remaining_len
    }

    pub fn new(byte1: u8, remaining_len_len: usize, remaining_len: usize) -> (r: FixedHeader)
        requires
            remaining_len_len < usize::MAX,
        ensures
            r.byte1 == byte1,
            r.fixed_header_len == remaining_len_len + 1,
            r.remaining_len == remaining_len,
    {
        FixedHeader { byte1, fixed_header_len: remaining_len_len + 1, remaining_len }
    }

    pub fn packet_type(&self) -> (r: Result<PacketType, Error>)
        ensures
            r == type_of(self.byte1),
    {
        let byte1: u8 = self.byte1;
        proof {
            assert(byte1 >> 4 == byte1 / 16) by (bit_vector);
            assert(byte1 & 15 == byte1 % 16) by (bit_vector);
            assert((byte1 & 15) & 6 == 2 * (((byte1 % 16) / 2) % 4)) by (bit_vector);
            assert(((byte1 & 15) & 8 != 0) <==> ((byte1 % 16) / 8 != 0)) by (bit_vector);
        }
        let num: u8 = byte1 >> 4;
        let flags: u8 = byte1 & 15;
        if num == 3 {
            if flags & 6 == 6 || flags & 6 == 0 && flags & 8 != 0 {
                return Err(Error::MalformedPacket);
            }
        } else if flags != if matches!(num, 6 | 8 | 10) {
            2
        } else {
            0
        } {
            return Err(Error::MalformedPacket);
        }
        match num {
            1 => Ok(PacketType::Connect),
            2 => Ok(PacketType::ConnAck),
            3 => Ok(PacketType::Publish),
            4 => Ok(PacketType::PubAck),
            5 => Ok(PacketType::PubRec),
            6 => Ok(PacketType::PubRel),
            7 => Ok(PacketType::PubComp),
            8 => Ok(PacketType::Subscribe),
            9 => Ok(PacketType::SubAck),
            10 => Ok(PacketType::Unsubscribe),
            11 => Ok(PacketType::UnsubAck),
            12 => Ok(PacketType::PingReq),
            13 => Ok(PacketType::PingResp),
            14 => Ok(PacketType::Disconnect),
            15 => Ok(PacketType::Auth),
            _ => Err(Error::InvalidPacketType(num)),
        }
    }

    /// Returns the size of full packet (fixed header + variable header + payload)
    /// Fixed header is enough to get the size of a frame in the stream
    pub fn frame_length(&self) -> (r: usize)
        requires
            self.fixed_header_len + self.remaining_len <= usize::MAX,
        ensures
            r == self.fixed_header_len + self.remaining_len,
    {
        self.fixed_header_len + self.remaining_len
    }
}

/// Checks if the stream has enough bytes to frame a packet and returns fixed header
/// only if a packet can be framed with existing bytes in the `stream`.
pub fn check(stream: &[u8], max_packet_size: Option<u32>) -> (r: Result<FixedHeader, Error>)
    ensures
        r == checked_header(stream@, max_packet_size),
        r matches Ok(h) ==> 2 <= h.fixed_header_len <= 5 && h.remaining_len <= MAX_VARINT
            && h.fixed_header_len + h.remaining_len <= stream@.len(),
{
    // Create fixed header if there are enough bytes in the stream
    // to frame full packet
    let stream_len: usize = stream.len();
    let fixed_header = match parse_fixed_header(stream) {
        Ok(header) => header,
        Err(e) => return Err(e),
    };
    // Don't let rogue connections attack with huge payloads.
    // Disconnect them before reading all that data
    if let Some(max_size) = max_packet_size {
        if fixed_header.remaining_len > max_size as usize {
            return Err(
                Error::PayloadSizeLimitExceeded {
                    pkt_size: fixed_header.remaining_len,
                    max: max_size,
                },
            );
        }
    }
    // If the current call fails due to insufficient bytes in the stream,
    // after calculating remaining length, we extend the stream
    let frame_length: usize = fixed_header.frame_length();
    if stream_len < frame_length {
        return Err(Error::InsufficientBytes(frame_length - stream_len));
    }
    Ok(fixed_header)
}

/// Parses fixed header
fn parse_fixed_header(stream: &[u8]) -> (r: Result<FixedHeader, Error>)
    ensures
        r == header_at(stream@),
        r matches Ok(h) ==> 2 <= h.fixed_header_len <= 5 && h.remaining_len <= MAX_VARINT,
{
    // At least 2 bytes are necessary to frame a packet
    let stream_len: usize = stream.len();
    if stream_len < 2 {
        return Err(Error::InsufficientBytes(2 - stream_len));
    }
    let byte1: u8 = stream[0];
    let rest: &[u8] = vstd::slice::slice_subrange(stream, 1, stream_len);
    assert(rest@ =~= stream@.skip(1));
    match length(rest) {
        Ok((len_len, len)) => Ok(FixedHeader::new(byte1, len_len, len)),
        Err(e) => Err(e),
    }
}

/// A packet that was written is framed by its fixed header: the first octet and the length of
/// the fields are read back, and the frame ends where the packet ends, whatever follows it.
pub proof fn frame_round_trip(first: u8, body: Seq<u8>, rest: Seq<u8>)
    requires
        body.len() <= MAX_VARINT,
    ensures
        checked_header(seq![first] + varint(body.len()) + body + rest, None) == Ok::<
            FixedHeader,
            Error,
        >(
            FixedHeader {
                byte1: first,
                fixed_header_len: (1 + varint_len(body.len() as int)) as usize,
                remaining_len: body.len() as usize,
            },
        ),
{
    let s = seq![first] + varint(body.len()) + body + rest;
    assert(s.skip(1) =~= varint(body.len()) + (body + rest));
    varint_round_trip(body.len(), body + rest);
}

/// A fixed header is known as soon as its octets are there: what follows does not count for it.
pub proof fn header_needs_no_payload(s: Seq<u8>, rest: Seq<u8>)
    requires
        header_at(s) is Ok,
    ensures
        header_at(s + rest) == header_at(s),
{
    assert((s + rest).skip(1) =~= s.skip(1) + rest);
}

/// The fields of a packet that was written stand behind its fixed header.
pub proof fn emitted_fields(
    first: u8,
    len: nat,
    head: Seq<u8>,
    section: Seq<u8>,
    tail: Seq<u8>,
)
    requires
        len <= MAX_VARINT,
        len == head.len() + section.len() + tail.len(),
    ensures
        ({
            let out = emitted(first, len, head, Some(section), tail).1;
            &&& out.len() == frame_len(len)
            &&& out == seq![first] + varint(len) + (head + section + tail)
            &&& out.skip(1 + varint_len(len as int) as int) == head + section + tail
        }),
{
    varint_round_trip(len, Seq::empty());
    let out = emitted(first, len, head, Some(section), tail).1;
    assert(out =~= seq![first] + varint(len) + (head + section + tail));
    assert(out.skip(1 + varint_len(len as int) as int) =~= head + section + tail);
}

} // verus!
