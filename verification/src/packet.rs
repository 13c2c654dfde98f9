//! RPC packet encoding and decoding.
//!
//! A wire frame is a 4-byte big-endian length (counting itself),
//! a 24-byte header of six big-endian words — program, version,
//! procedure, message type, serial, status — and the payload bytes,
//! with no alignment between header and payload.

use vstd::prelude::*;

verus! {

use crate::codec::be_u32;
use crate::codec::spec_xdr_i32;
use crate::codec::spec_xdr_u32;
use crate::codec::XdrDeserializer;
use crate::codec::XdrSerializer;

/// Packet header size in bytes, not counting the length field.
pub const HEADER_SIZE: usize = 24;

/// Maximum permitted frame length in bytes (4 MiB).
pub const MAX_PACKET_SIZE: usize = 4 * 1024 * 1024;

/// The program identifier of the main libvirt remote protocol.
pub const REMOTE_PROGRAM: u32 = 0x20008086;

/// The version of the libvirt remote protocol.
pub const REMOTE_PROTOCOL_VERSION: u32 = 1;

/// RPC message type.
#[derive(Debug, Clone, Copy, PartialEq, Eq, Structural)]
pub enum MessageType {
    /// A request from client to daemon.
    Call,
    /// The daemon's reply to a call.
    Reply,
    /// An asynchronous event from the daemon.
    Message,
    /// Stream data.
    Stream,
}

/// RPC message status.
#[derive(Debug, Clone, Copy, PartialEq, Eq, Structural)]
pub enum Status {
    /// Success.
    Okay,
    /// Failure; the payload carries the daemon's error.
    Error,
    /// More stream data follows.
    Continue,
}

/// The wire word of a message type.
pub open spec fn spec_msg_type_code(t: MessageType) -> u32 {
    match t {
        MessageType::Call => 0,
        MessageType::Reply => 1,
        MessageType::Message => 2,
        MessageType::Stream => 3,
    }
}

/// The wire word of a status.
pub open spec fn spec_status_code(s: Status) -> u32 {
    match s {
        Status::Okay => 0,
        Status::Error => 1,
        Status::Continue => 2,
    }
}

impl MessageType {
    /// The wire word of this message type.
    pub fn to_u32(self) -> (r: u32)
        ensures
            r == spec_msg_type_code(self),
    {
        match self {
            MessageType::Call => 0,
            MessageType::Reply => 1,
            MessageType::Message => 2,
            MessageType::Stream => 3,
        }
    }

    /// The message type a wire word names, if any: exactly the words
    /// `0` through `3` are valid.
    pub fn from_u32(v: u32) -> (r: Option<MessageType>)
        ensures
            r matches Some(t) ==> spec_msg_type_code(t) == v,
            r is Some <==> v <= 3,
    {
        match v {
            0u32 => Some(MessageType::Call),
            1u32 => Some(MessageType::Reply),
            2u32 => Some(MessageType::Message),
            3u32 => Some(MessageType::Stream),
            _ => None,
        }
    }
}

impl Status {
    /// The wire word of this status.
    pub fn to_u32(self) -> (r: u32)
        ensures
            r == spec_status_code(self),
    {
        match self {
            Status::Okay => 0,
            Status::Error => 1,
            Status::Continue => 2,
        }
    }

    /// The status a wire word names, if any: exactly the words `0`
    /// through `2` are valid.
    pub fn from_u32(v: u32) -> (r: Option<Status>)
        ensures
            r matches Some(s) ==> spec_status_code(s) == v,
            r is Some <==> v <= 2,
    {
        match v {
            0u32 => Some(Status::Okay),
            1u32 => Some(Status::Error),
            2u32 => Some(Status::Continue),
            _ => None,
        }
    }
}

/// An RPC packet.
#[derive(Debug, Clone)]
pub struct Packet {
    /// Program identifier.
    pub program: u32,
    /// Protocol version.
    pub version: u32,
    /// Procedure number (unsigned on the wire).
    pub procedure: u32,
    /// Message type.
    pub msg_type: MessageType,
    /// Request serial number (signed on the wire).
    pub serial: i32,
    /// Response status.
    pub status: Status,
    /// Payload bytes, appended to the header unchanged.
    pub payload: Vec<u8>,
}

/// The 24 header bytes of a packet: six big-endian words.
pub open spec fn spec_header_bytes(p: Packet) -> Seq<u8> {
    spec_xdr_u32(p.program) + spec_xdr_u32(p.version) + spec_xdr_u32(p.procedure) + spec_xdr_u32(
        spec_msg_type_code(p.msg_type),
    ) + spec_xdr_i32(p.serial) + spec_xdr_u32(spec_status_code(p.status))
}

/// The whole frame of a packet: the length word — which counts
/// itself, the header and the payload — then header and payload.
pub open spec fn spec_frame_bytes(p: Packet) -> Seq<u8> {
    spec_xdr_u32((4 + HEADER_SIZE + p.payload@.len()) as u32) + spec_header_bytes(p) + p.payload@
}

impl Packet {
    /// Create a call packet for the main remote protocol: its status
    /// reports success and the payload travels unchanged.
    pub fn new_call(procedure: u32, serial: i32, payload: Vec<u8>) -> (r: Self)
        ensures
            r.program == REMOTE_PROGRAM,
            r.version == REMOTE_PROTOCOL_VERSION,
            r.procedure == procedure,
            r.msg_type == MessageType::Call,
            r.serial == serial,
            r.status == Status::Okay,
            r.payload@ == payload@,
    {
        Self {
            program: REMOTE_PROGRAM,
            version: REMOTE_PROTOCOL_VERSION,
            procedure,
            msg_type: MessageType::Call,
            serial,
            status: Status::Okay,
            payload,
        }
    }

    /// Encode the packet as a complete frame, length prefix included.
    pub fn encode(&self) -> (r: Vec<u8>)
        requires
            self.payload@.len() + 4 + HEADER_SIZE <= u32::MAX,
        ensures
            r@ == spec_frame_bytes(*self),
            r@.len() == 4 + HEADER_SIZE + self.payload@.len(),
    {
        let total_len: usize = 4 + HEADER_SIZE + self.payload.len();
        let mut ser = XdrSerializer::with_capacity(total_len);
        ser.serialize_u32(total_len as u32);
        ser.serialize_u32(self.program);
        ser.serialize_u32(self.version);
        ser.serialize_u32(self.procedure);
        ser.serialize_u32(self.msg_type.to_u32());
        ser.serialize_i32(self.serial);
        ser.serialize_u32(self.status.to_u32());
        let mut buf = ser.into_bytes();
        buf.extend_from_slice(self.payload.as_slice());
        proof {
            assert(buf@ =~= spec_frame_bytes(*self));
        }
        buf
    }

    /// Decode a packet from the bytes of a frame body: the header and
    /// payload, without the length prefix. Succeeds exactly when at
    /// least a whole header is present and the message-type and status
    /// words are valid; the remainder of the input becomes the payload.
    pub fn decode(data: &[u8]) -> (r: Result<Packet, PacketError>)
        ensures
            ({
                let mt = be_u32(data@.subrange(12, 16));
                let st = be_u32(data@.subrange(20, 24));
                &&& r is Ok <==> data@.len() >= HEADER_SIZE && mt <= 3 && st <= 2
                &&& r matches Ok(p) ==> {
                    &&& p.program == be_u32(data@.subrange(0, 4))
                    &&& p.version == be_u32(data@.subrange(4, 8))
                    &&& p.procedure == be_u32(data@.subrange(8, 12))
                    &&& spec_msg_type_code(p.msg_type) == mt
                    &&& p.serial == be_u32(data@.subrange(16, 20)) as i32
                    &&& spec_status_code(p.status) == st
                    &&& p.payload@ == data@.skip(HEADER_SIZE as int)
                }
                &&& data@.len() < HEADER_SIZE ==> r == Err::<Packet, PacketError>(
                    PacketError::TooShort,
                )
                &&& (data@.len() >= HEADER_SIZE && mt > 3) ==> r == Err::<Packet, PacketError>(
                    PacketError::InvalidMessageType(mt),
                )
                &&& (data@.len() >= HEADER_SIZE && mt <= 3 && st > 2) ==> r == Err::<
                    Packet,
                    PacketError,
                >(PacketError::InvalidStatus(st))
            }),
    {
        if data.len() < HEADER_SIZE {
            return Err(PacketError::TooShort);
        }
        let mut de = XdrDeserializer::new(data);
        let program = match de.read_u32() {
            Ok(v) => v,
            Err(_) => {
                return vstd::pervasive::unreached();
            },
        };
        let version = match de.read_u32() {
            Ok(v) => v,
            Err(_) => {
                return vstd::pervasive::unreached();
            },
        };
        let procedure = match de.read_u32() {
            Ok(v) => v,
            Err(_) => {
                return vstd::pervasive::unreached();
            },
        };
        let mt_word = match de.read_u32() {
            Ok(v) => v,
            Err(_) => {
                return vstd::pervasive::unreached();
            },
        };
        let serial = match de.read_i32() {
            Ok(v) => v,
            Err(_) => {
                return vstd::pervasive::unreached();
            },
        };
        let st_word = match de.read_u32() {
            Ok(v) => v,
            Err(_) => {
                return vstd::pervasive::unreached();
            },
        };
        let msg_type = match MessageType::from_u32(mt_word) {
            Some(t) => t,
            None => {
                return Err(PacketError::InvalidMessageType(mt_word));
            },
        };
        let status = match Status::from_u32(st_word) {
            Some(s) => s,
            None => {
                return Err(PacketError::InvalidStatus(st_word));
            },
        };
        let payload = de.rest();
        Ok(Packet { program, version, procedure, msg_type, serial, status, payload })
    }
}

/// Packet decoding errors.
#[derive(Debug, Clone, PartialEq, Eq, Structural)]
pub enum PacketError {
    /// Fewer bytes than a whole header.
    TooShort,
    /// A message-type word above `3`.
    InvalidMessageType(u32),
    /// A status word above `2`.
    InvalidStatus(u32),
    /// A frame length above the permitted maximum.
    TooLarge(usize),
}

/// Check a frame's length word, as read off the wire, against the
/// permitted maximum, and give the length of the frame body that
/// follows it: the word counts its own four bytes.
pub fn check_frame_len(total_len: u32) -> (r: Result<u32, PacketError>)
    ensures
        r is Ok <==> total_len <= MAX_PACKET_SIZE,
        r matches Ok(b) ==> b == if total_len >= 4 {
            (total_len - 4) as u32
        } else {
            0u32
        },
        r is Err ==> r == Err::<u32, PacketError>(PacketError::TooLarge(total_len as usize)),
{
    if total_len as usize > MAX_PACKET_SIZE {
        return Err(PacketError::TooLarge(total_len as usize));
    }
    if total_len >= 4 {
        Ok(total_len - 4)
    } else {
        Ok(0)
    }
}

/// A packet's frame decodes back to the packet: the length word reads
/// back as the whole frame's size, the header words read back as the
/// packet's fields, and the bytes after the header are the payload.
pub proof fn lemma_frame_round_trip(p: Packet)
    requires
        p.payload@.len() + 4 + HEADER_SIZE <= u32::MAX,
    ensures
        ({
            let f = spec_frame_bytes(p);
            let body = f.skip(4);
            &&& f.len() == 4 + HEADER_SIZE + p.payload@.len()
            &&& be_u32(f.subrange(0, 4)) == f.len()
            &&& body.len() >= HEADER_SIZE
            &&& be_u32(body.subrange(0, 4)) == p.program
            &&& be_u32(body.subrange(4, 8)) == p.version
            &&& be_u32(body.subrange(8, 12)) == p.procedure
            &&& be_u32(body.subrange(12, 16)) == spec_msg_type_code(p.msg_type)
            &&& be_u32(body.subrange(16, 20)) as i32 == p.serial
            &&& be_u32(body.subrange(20, 24)) == spec_status_code(p.status)
            &&& body.skip(HEADER_SIZE as int) == p.payload@
        }),
{
    let f = spec_frame_bytes(p);
    let body = f.skip(4);
    let total = (4 + HEADER_SIZE + p.payload@.len()) as u32;
    crate::codec::lemma_be_u32_round_trip(total);
    assert(f.subrange(0, 4) =~= spec_xdr_u32(total));
    crate::codec::lemma_be_u32_round_trip(p.program);
    assert(body.subrange(0, 4) =~= spec_xdr_u32(p.program));
    crate::codec::lemma_be_u32_round_trip(p.version);
    assert(body.subrange(4, 8) =~= spec_xdr_u32(p.version));
    crate::codec::lemma_be_u32_round_trip(p.procedure);
    assert(body.subrange(8, 12) =~= spec_xdr_u32(p.procedure));
    crate::codec::lemma_be_u32_round_trip(spec_msg_type_code(p.msg_type));
    assert(body.subrange(12, 16) =~= spec_xdr_u32(spec_msg_type_code(p.msg_type)));
    crate::codec::lemma_i32_round_trip(p.serial);
    assert(body.subrange(16, 20) =~= spec_xdr_i32(p.serial));
    crate::codec::lemma_be_u32_round_trip(spec_status_code(p.status));
    assert(body.subrange(20, 24) =~= spec_xdr_u32(spec_status_code(p.status)));
    assert(body.skip(HEADER_SIZE as int) =~= p.payload@);
}

} // verus!
