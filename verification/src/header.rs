//! The fixed header that every message starts with.

use crate::error::FrameError;
use crate::wire::{
    be16, be32, get_u16, get_u32, lemma_u16_at_be16, lemma_u32_at_be32, put_u16, put_u32, u16_at,
    u32_at,
};
use vstd::prelude::*;

verus! {

/// The protocol version that this implementation speaks.
pub const VERSION: u8 = 0x01;

/// Type code of a handshake message.
pub const TYPE_HANDSHAKE: u8 = 0x00;

/// Type code of a manifest message.
pub const TYPE_MANIFEST: u8 = 0x01;

/// Type code of a data message.
pub const TYPE_DATA: u8 = 0x02;

/// Type code of an acknowledgment message.
pub const TYPE_ACK: u8 = 0x03;

/// Type code of a close message.
pub const TYPE_CLOSE: u8 = 0x05;

/// Length of an encoded header in bytes.
pub const HEADER_LEN: usize = 16;

/// The five kinds of message.
#[derive(Clone, Copy, Debug, PartialEq, Eq, Structural)]
pub enum MessageType {
    Handshake,
    Manifest,
    Data,
    Ack,
    Close,
}

impl MessageType {
    /// The type code that stands for this kind in a header.
    pub open spec fn code_of(self) -> u8 {
        match self {
            MessageType::Handshake => TYPE_HANDSHAKE,
            MessageType::Manifest => TYPE_MANIFEST,
            MessageType::Data => TYPE_DATA,
            MessageType::Ack => TYPE_ACK,
            MessageType::Close => TYPE_CLOSE,
        }
    }

    /// The kind that a type code stands for, if it stands for one.
    pub open spec fn of_code(code: u8) -> Option<MessageType> {
        if code == TYPE_HANDSHAKE {
            Some(MessageType::Handshake)
        } else if code == TYPE_MANIFEST {
            Some(MessageType::Manifest)
        } else if code == TYPE_DATA {
            Some(MessageType::Data)
        } else if code == TYPE_ACK {
            Some(MessageType::Ack)
        } else if code == TYPE_CLOSE {
            Some(MessageType::Close)
        } else {
            None
        }
    }

    /// The type code that stands for this kind in a header.
    pub fn code(self) -> (c: u8)
        ensures
            c == self.code_of(),
            MessageType::of_code(c) == Some(self),
    {
        match self {
            MessageType::Handshake => TYPE_HANDSHAKE,
            MessageType::Manifest => TYPE_MANIFEST,
            MessageType::Data => TYPE_DATA,
            MessageType::Ack => TYPE_ACK,
            MessageType::Close => TYPE_CLOSE,
        }
    }

    /// The kind that a type code stands for; `None` for a code that this
    /// version of the protocol does not know.
    pub fn from_code(code: u8) -> (r: Option<MessageType>)
        ensures
            r == MessageType::of_code(code),
            r matches Some(t) ==> t.code_of() == code,
    {
        if code == TYPE_HANDSHAKE {
            Some(MessageType::Handshake)
        } else if code == TYPE_MANIFEST {
            Some(MessageType::Manifest)
        } else if code == TYPE_DATA {
            Some(MessageType::Data)
        } else if code == TYPE_ACK {
            Some(MessageType::Ack)
        } else if code == TYPE_CLOSE {
            Some(MessageType::Close)
        } else {
            None
        }
    }
}

/// The frame header. On the wire it takes sixteen bytes: version and type,
/// one byte each, then session id, sequence number and timestamp, four bytes
/// each, then the checksum, two bytes; every integer big-endian.
#[derive(Clone, Copy, Debug, PartialEq, Eq, Structural)]
pub struct Header {
    /// Protocol version.
    pub version: u8,
    /// Type code of the message; the payload's layout follows from it alone.
    pub typ: u8,
    /// Chosen by the sender, echoed by the receiver.
    pub session_id: u32,
    /// Message counter that the sender assigns.
    pub seq: u32,
    /// Milliseconds since the epoch, cut to 32 bits. Informational.
    pub timestamp: u32,
    /// Reserved. Carried as it is, neither computed nor checked.
    pub checksum: u16,
}

impl Header {
    /// The sixteen bytes that stand for this header on the wire.
    pub open spec fn encoding(self) -> Seq<u8> {
        seq![self.version, self.typ] + be32(self.session_id) + be32(self.seq) + be32(
            self.timestamp,
        ) + be16(self.checksum)
    }

    /// The header that the first sixteen bytes of `b` stand for. There is
    /// none where `b` is shorter, or where its first byte is not [`VERSION`].
    pub open spec fn decoding(b: Seq<u8>) -> Result<Header, FrameError> {
        if b.len() < HEADER_LEN {
            Err(FrameError::Truncated)
        } else if b[0] != VERSION {
            Err(FrameError::UnsupportedVersion)
        } else {
            Ok(
                Header {
                    version: b[0],
                    typ: b[1],
                    session_id: u32_at(b, 2),
                    seq: u32_at(b, 6),
                    timestamp: u32_at(b, 10),
                    checksum: u16_at(b, 14),
                },
            )
        }
    }

    /// The header of a message of this implementation: supported version,
    /// checksum zero.
    pub open spec fn outgoing(typ: MessageType, session_id: u32, seq: u32, timestamp: u32) -> Header {
        Header { version: VERSION, typ: typ.code_of(), session_id, seq, timestamp, checksum: 0 }
    }

    /// A header for a message to send: supported version, checksum zero.
    pub fn new(typ: MessageType, session_id: u32, seq: u32, timestamp: u32) -> (h: Header)
        ensures
            h == Header::outgoing(typ, session_id, seq, timestamp),
    {
        Header { version: VERSION, typ: typ.code(), session_id, seq, timestamp, checksum: 0 }
    }

    /// Appends the header's sixteen bytes to `w`.
    pub fn write_to(&self, w: &mut Vec<u8>)
        ensures
            final(w)@ == old(w)@ + self.encoding(),
            final(w)@.len() == old(w)@.len() + HEADER_LEN,
    {
        w.push(self.version);
        w.push(self.typ);
        put_u32(w, self.session_id);
        put_u32(w, self.seq);
        put_u32(w, self.timestamp);
        put_u16(w, self.checksum);
        proof {
            lemma_header_len(*self);
            assert(w@ == old(w)@ + self.encoding());
        }
    }

    /// Decodes the header at the start of `bytes`. What follows the
    /// sixteenth byte is the payload and is not looked at.
    pub fn read_from(bytes: &[u8]) -> (r: Result<Header, FrameError>)
        ensures
            r == Header::decoding(bytes@),
            bytes@.len() < HEADER_LEN ==> r == Err::<Header, FrameError>(FrameError::Truncated),
            bytes@.len() >= HEADER_LEN && bytes@[0] != VERSION ==> r == Err::<Header, FrameError>(
                FrameError::UnsupportedVersion,
            ),
            bytes@.len() >= HEADER_LEN && bytes@[0] == VERSION ==> r is Ok,
    {
        if bytes.len() < HEADER_LEN {
            return Err(FrameError::Truncated);
        }
        let version: u8 = bytes[0];
        if version != VERSION {
            return Err(FrameError::UnsupportedVersion);
        }
        let typ: u8 = bytes[1];
        let session_id: u32 = match get_u32(bytes, 2) {
            Some(n) => n,
            None => { return Err(FrameError::Truncated); },
        };
        let seq: u32 = match get_u32(bytes, 6) {
            Some(n) => n,
            None => { return Err(FrameError::Truncated); },
        };
        let timestamp: u32 = match get_u32(bytes, 10) {
            Some(n) => n,
            None => { return Err(FrameError::Truncated); },
        };
        let checksum: u16 = match get_u16(bytes, 14) {
            Some(n) => n,
            None => { return Err(FrameError::Truncated); },
        };
        Ok(Header { version, typ, session_id, seq, timestamp, checksum })
    }
}

/// An encoded header is sixteen bytes long.
pub proof fn lemma_header_len(h: Header)
    ensures
        h.encoding().len() == HEADER_LEN,
{
}

/// Decoding what a header of the supported version encodes to gives that
/// header back, whatever payload follows the sixteen bytes.
pub proof fn lemma_header_roundtrip(h: Header, payload: Seq<u8>)
    requires
        h.version == VERSION,
    ensures
        Header::decoding(h.encoding() + payload) == Ok::<Header, FrameError>(h),
        Header::decoding(h.encoding()) == Ok::<Header, FrameError>(h),
{
    let e = h.encoding();
    let b = e + payload;
    lemma_header_len(h);
    assert(b.subrange(2, 6) == be32(h.session_id));
    assert(b.subrange(6, 10) == be32(h.seq));
    assert(b.subrange(10, 14) == be32(h.timestamp));
    assert(b.subrange(14, 16) == be16(h.checksum));
    lemma_u32_at_be32(b, 2, h.session_id);
    lemma_u32_at_be32(b, 6, h.seq);
    lemma_u32_at_be32(b, 10, h.timestamp);
    lemma_u16_at_be16(b, 14, h.checksum);
    assert(b[0] == h.version && b[1] == h.typ);
    assert(e + Seq::<u8>::empty() == e);
    if payload.len() == 0 {
        assert(b == e);
    }
}

} // verus!
