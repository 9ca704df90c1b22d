//! The payloads of handshake, data, acknowledgment and close messages: what
//! follows the header, by message type.

use crate::error::FrameError;
use crate::wire::{
    be16, be32, get_u16, get_u32, lemma_u16_at_be16, lemma_u32_at_be32, put_bytes, put_u16,
    put_u32, u16_at, u32_at,
};
use vstd::prelude::*;
use vstd::slice::slice_subrange;

verus! {

/// The longest public key that a handshake can carry.
pub const MAX_KEY_LEN: usize = 255;

/// The longest run of bytes that the 16-bit length field of a data message
/// or of an acknowledgment's bitmap can say.
pub const MAX_FIELD_LEN: usize = 65535;

/// What a handshake payload says.
pub struct HandshakeView {
    /// Reserved.
    pub flags: u8,
    /// Reserved for a key exchange. At most 255 bytes.
    pub public_key: Seq<u8>,
    /// The largest message that the peer takes.
    pub max_segment: u16,
}

impl HandshakeView {
    /// The key's length fits its one-byte field.
    pub open spec fn wf(self) -> bool {
        self.public_key.len() <= MAX_KEY_LEN
    }

    /// Flags, the key's length in one byte, the key, then the segment size
    /// in two bytes.
    pub open spec fn encoding(self) -> Seq<u8> {
        seq![self.flags, self.public_key.len() as u8] + self.public_key + be16(self.max_segment)
    }

    /// The handshake that a payload stands for. Bytes behind the segment
    /// size are not looked at.
    pub open spec fn decoding(b: Seq<u8>) -> Result<HandshakeView, FrameError> {
        if b.len() < 2 || b.len() < 2 + b[1] + 2 {
            Err(FrameError::Truncated)
        } else {
            Ok(
                HandshakeView {
                    flags: b[0],
                    public_key: b.subrange(2, 2 + b[1]),
                    max_segment: u16_at(b, 2 + b[1]),
                },
            )
        }
    }
}

/// A handshake payload.
#[derive(Debug)]
pub struct Handshake {
    flags: u8,
    public_key: Vec<u8>,
    max_segment: u16,
}

impl View for Handshake {
    type V = HandshakeView;

    closed spec fn view(&self) -> HandshakeView {
        HandshakeView {
            flags: self.flags,
            public_key: self.public_key@,
            max_segment: self.max_segment,
        }
    }
}

impl Handshake {
    #[verifier::type_invariant]
    spec fn inv(self) -> bool {
        self@.wf()
    }

    /// A handshake from its parts; `None` for a key of more than 255 bytes.
    pub fn new(flags: u8, public_key: Vec<u8>, max_segment: u16) -> (r: Option<Handshake>)
        ensures
            r is Some <==> public_key@.len() <= MAX_KEY_LEN,
            r matches Some(h) ==> h@ == (HandshakeView {
                flags,
                public_key: public_key@,
                max_segment,
            }) && h@.wf(),
    {
        if public_key.len() > MAX_KEY_LEN {
            None
        } else {
            Some(Handshake { flags, public_key, max_segment })
        }
    }

    /// The handshake that this implementation sends: no flags, no key.
    pub fn plain(max_segment: u16) -> (h: Handshake)
        ensures
            h@ == (HandshakeView { flags: 0, public_key: Seq::<u8>::empty(), max_segment }),
            h@.wf(),
    {
        Handshake { flags: 0, public_key: Vec::new(), max_segment }
    }

    /// The reserved flags.
    pub fn flags(&self) -> (f: u8)
        ensures
            f == self@.flags,
    {
        self.flags
    }

    /// The reserved key.
    pub fn public_key(&self) -> (k: &[u8])
        ensures
            k@ == self@.public_key,
            self@.wf(),
    {
        proof {
            use_type_invariant(self);
        }
        self.public_key.as_slice()
    }

    /// The largest message that the peer takes.
    pub fn max_segment(&self) -> (n: u16)
        ensures
            n == self@.max_segment,
    {
        self.max_segment
    }

    /// Appends the payload to `w`.
    pub fn write_to(&self, w: &mut Vec<u8>)
        ensures
            final(w)@ == old(w)@ + self@.encoding(),
    {
        proof {
            use_type_invariant(self);
        }
        w.push(self.flags);
        w.push(self.public_key.len() as u8);
        put_bytes(w, self.public_key.as_slice());
        put_u16(w, self.max_segment);
        assert(w@ == old(w)@ + self@.encoding());
    }

    /// Decodes a handshake payload.
    pub fn read_from(payload: &[u8]) -> (r: Result<Handshake, FrameError>)
        ensures
            match r {
                Ok(h) => HandshakeView::decoding(payload@) == Ok::<HandshakeView, FrameError>(h@)
                    && h@.wf(),
                Err(e) => HandshakeView::decoding(payload@) == Err::<HandshakeView, FrameError>(
                    e,
                ),
            },
    {
        if payload.len() < 2 {
            return Err(FrameError::Truncated);
        }
        let flags: u8 = payload[0];
        let key_len: usize = payload[1] as usize;
        let max_segment: u16 = match get_u16(payload, 2 + key_len) {
            Some(n) => n,
            None => { return Err(FrameError::Truncated); },
        };
        let mut public_key: Vec<u8> = Vec::new();
        put_bytes(&mut public_key, slice_subrange(payload, 2, 2 + key_len));
        Ok(Handshake { flags, public_key, max_segment })
    }
}

/// What a data payload says.
pub struct DataView {
    /// The block that the bytes belong to, counted from zero.
    pub block_index: u32,
    /// Where in that block the bytes start.
    pub intra_offset: u32,
    /// The bytes. At most 65535.
    pub bytes: Seq<u8>,
}

impl DataView {
    /// The number of bytes fits its two-byte field.
    pub open spec fn wf(self) -> bool {
        self.bytes.len() <= MAX_FIELD_LEN
    }

    /// Block index and offset in four bytes each, the number of bytes in
    /// two, then the bytes.
    pub open spec fn encoding(self) -> Seq<u8> {
        be32(self.block_index) + be32(self.intra_offset) + be16(self.bytes.len() as u16)
            + self.bytes
    }

    /// The data that a payload stands for. Bytes behind the announced
    /// length are not looked at.
    pub open spec fn decoding(b: Seq<u8>) -> Result<DataView, FrameError> {
        if b.len() < 10 || b.len() < 10 + u16_at(b, 8) {
            Err(FrameError::Truncated)
        } else {
            Ok(
                DataView {
                    block_index: u32_at(b, 0),
                    intra_offset: u32_at(b, 4),
                    bytes: b.subrange(10, 10 + u16_at(b, 8)),
                },
            )
        }
    }
}

/// A data payload.
#[derive(Debug)]
pub struct Data {
    block_index: u32,
    intra_offset: u32,
    bytes: Vec<u8>,
}

impl View for Data {
    type V = DataView;

    closed spec fn view(&self) -> DataView {
        DataView {
            block_index: self.block_index,
            intra_offset: self.intra_offset,
            bytes: self.bytes@,
        }
    }
}

impl Data {
    #[verifier::type_invariant]
    spec fn inv(self) -> bool {
        self@.wf()
    }

    /// A data payload from its parts; `None` for more than 65535 bytes.
    pub fn new(block_index: u32, intra_offset: u32, bytes: Vec<u8>) -> (r: Option<Data>)
        ensures
            r is Some <==> bytes@.len() <= MAX_FIELD_LEN,
            r matches Some(d) ==> d@ == (DataView { block_index, intra_offset, bytes: bytes@ })
                && d@.wf(),
    {
        if bytes.len() > MAX_FIELD_LEN {
            None
        } else {
            Some(Data { block_index, intra_offset, bytes })
        }
    }

    /// The block that the bytes belong to.
    pub fn block_index(&self) -> (n: u32)
        ensures
            n == self@.block_index,
    {
        self.block_index
    }

    /// Where in the block the bytes start.
    pub fn intra_offset(&self) -> (n: u32)
        ensures
            n == self@.intra_offset,
    {
        self.intra_offset
    }

    /// The bytes.
    pub fn bytes(&self) -> (b: &[u8])
        ensures
            b@ == self@.bytes,
            self@.wf(),
    {
        proof {
            use_type_invariant(self);
        }
        self.bytes.as_slice()
    }

    /// The bytes, by value.
    pub fn into_bytes(self) -> (b: Vec<u8>)
        ensures
            b@ == self@.bytes,
            self@.wf(),
    {
        proof {
            use_type_invariant(&self);
        }
        self.bytes
    }

    /// Appends the payload to `w`.
    pub fn write_to(&self, w: &mut Vec<u8>)
        ensures
            final(w)@ == old(w)@ + self@.encoding(),
    {
        proof {
            use_type_invariant(self);
        }
        put_u32(w, self.block_index);
        put_u32(w, self.intra_offset);
        put_u16(w, self.bytes.len() as u16);
        put_bytes(w, self.bytes.as_slice());
        assert(w@ == old(w)@ + self@.encoding());
    }

    /// Decodes a data payload.
    pub fn read_from(payload: &[u8]) -> (r: Result<Data, FrameError>)
        ensures
            match r {
                Ok(d) => DataView::decoding(payload@) == Ok::<DataView, FrameError>(d@) && d@.wf(),
                Err(e) => DataView::decoding(payload@) == Err::<DataView, FrameError>(e),
            },
    {
        let block_index: u32 = match get_u32(payload, 0) {
            Some(n) => n,
            None => { return Err(FrameError::Truncated); },
        };
        let intra_offset: u32 = match get_u32(payload, 4) {
            Some(n) => n,
            None => { return Err(FrameError::Truncated); },
        };
        let len: usize = match get_u16(payload, 8) {
            Some(n) => n as usize,
            None => { return Err(FrameError::Truncated); },
        };
        if payload.len() - 10 < len {
            return Err(FrameError::Truncated);
        }
        let mut bytes: Vec<u8> = Vec::new();
        put_bytes(&mut bytes, slice_subrange(payload, 10, 10 + len));
        Ok(Data { block_index, intra_offset, bytes })
    }
}

/// What an acknowledgment payload says.
pub struct AckView {
    /// Reserved: a window size.
    pub window: u16,
    /// Reserved: a selective-acknowledgment bitmap. At most 65535 bytes.
    pub bitmap: Seq<u8>,
    /// Reserved: the block index up to which everything is acknowledged.
    pub cumulative_ack: u32,
}

impl AckView {
    /// The bitmap's length fits its two-byte field.
    pub open spec fn wf(self) -> bool {
        self.bitmap.len() <= MAX_FIELD_LEN
    }

    /// Window and bitmap length in two bytes each, the bitmap, then the
    /// cumulative acknowledgment in four bytes.
    pub open spec fn encoding(self) -> Seq<u8> {
        be16(self.window) + be16(self.bitmap.len() as u16) + self.bitmap + be32(
            self.cumulative_ack,
        )
    }

    /// The acknowledgment that a payload stands for. Bytes behind the
    /// cumulative acknowledgment are not looked at.
    pub open spec fn decoding(b: Seq<u8>) -> Result<AckView, FrameError> {
        if b.len() < 4 || b.len() < 4 + u16_at(b, 2) + 4 {
            Err(FrameError::Truncated)
        } else {
            Ok(
                AckView {
                    window: u16_at(b, 0),
                    bitmap: b.subrange(4, 4 + u16_at(b, 2)),
                    cumulative_ack: u32_at(b, 4 + u16_at(b, 2)),
                },
            )
        }
    }
}

/// An acknowledgment payload.
#[derive(Debug)]
pub struct Ack {
    window: u16,
    bitmap: Vec<u8>,
    cumulative_ack: u32,
}

impl View for Ack {
    type V = AckView;

    closed spec fn view(&self) -> AckView {
        AckView {
            window: self.window,
            bitmap: self.bitmap@,
            cumulative_ack: self.cumulative_ack,
        }
    }
}

impl Ack {
    #[verifier::type_invariant]
    spec fn inv(self) -> bool {
        self@.wf()
    }

    /// An acknowledgment from its parts; `None` for a bitmap of more than
    /// 65535 bytes.
    pub fn new(window: u16, bitmap: Vec<u8>, cumulative_ack: u32) -> (r: Option<Ack>)
        ensures
            r is Some <==> bitmap@.len() <= MAX_FIELD_LEN,
            r matches Some(a) ==> a@ == (AckView { window, bitmap: bitmap@, cumulative_ack })
                && a@.wf(),
    {
        if bitmap.len() > MAX_FIELD_LEN {
            None
        } else {
            Some(Ack { window, bitmap, cumulative_ack })
        }
    }

    /// The acknowledgment that this implementation sends: the given window,
    /// no bitmap, nothing acknowledged.
    pub fn plain(window: u16) -> (a: Ack)
        ensures
            a@ == (AckView { window, bitmap: Seq::<u8>::empty(), cumulative_ack: 0 }),
            a@.wf(),
    {
        Ack { window, bitmap: Vec::new(), cumulative_ack: 0 }
    }

    /// The reserved window size.
    pub fn window(&self) -> (n: u16)
        ensures
            n == self@.window,
    {
        self.window
    }

    /// The reserved bitmap.
    pub fn bitmap(&self) -> (b: &[u8])
        ensures
            b@ == self@.bitmap,
            self@.wf(),
    {
        proof {
            use_type_invariant(self);
        }
        self.bitmap.as_slice()
    }

    /// The reserved cumulative acknowledgment.
    pub fn cumulative_ack(&self) -> (n: u32)
        ensures
            n == self@.cumulative_ack,
    {
        self.cumulative_ack
    }

    /// Appends the payload to `w`.
    pub fn write_to(&self, w: &mut Vec<u8>)
        ensures
            final(w)@ == old(w)@ + self@.encoding(),
    {
        proof {
            use_type_invariant(self);
        }
        put_u16(w, self.window);
        put_u16(w, self.bitmap.len() as u16);
        put_bytes(w, self.bitmap.as_slice());
        put_u32(w, self.cumulative_ack);
        assert(w@ == old(w)@ + self@.encoding());
    }

    /// Decodes an acknowledgment payload.
    pub fn read_from(payload: &[u8]) -> (r: Result<Ack, FrameError>)
        ensures
            match r {
                Ok(a) => AckView::decoding(payload@) == Ok::<AckView, FrameError>(a@) && a@.wf(),
                Err(e) => AckView::decoding(payload@) == Err::<AckView, FrameError>(e),
            },
    {
        let window: u16 = match get_u16(payload, 0) {
            Some(n) => n,
            None => { return Err(FrameError::Truncated); },
        };
        let len: usize = match get_u16(payload, 2) {
            Some(n) => n as usize,
            None => { return Err(FrameError::Truncated); },
        };
        let cumulative_ack: u32 = match get_u32(payload, 4 + len) {
            Some(n) => n,
            None => { return Err(FrameError::Truncated); },
        };
        let mut bitmap: Vec<u8> = Vec::new();
        put_bytes(&mut bitmap, slice_subrange(payload, 4, 4 + len));
        Ok(Ack { window, bitmap, cumulative_ack })
    }
}

/// A close payload.
#[derive(Clone, Copy, Debug, PartialEq, Eq, Structural)]
pub struct Close {
    /// The number of blocks that the side that closes counts as sent or
    /// acknowledged.
    pub block_count: u32,
    /// Zero for success.
    pub status: u8,
}

impl Close {
    /// The block count in four bytes, then the status.
    pub open spec fn encoding(self) -> Seq<u8> {
        be32(self.block_count) + seq![self.status]
    }

    /// The close that a payload stands for. Bytes behind the status are not
    /// looked at.
    pub open spec fn decoding(b: Seq<u8>) -> Result<Close, FrameError> {
        if b.len() < 5 {
            Err(FrameError::Truncated)
        } else {
            Ok(Close { block_count: u32_at(b, 0), status: b[4] })
        }
    }

    /// Appends the payload to `w`.
    pub fn write_to(&self, w: &mut Vec<u8>)
        ensures
            final(w)@ == old(w)@ + self.encoding(),
    {
        put_u32(w, self.block_count);
        w.push(self.status);
        assert(w@ == old(w)@ + self.encoding());
    }

    /// Decodes a close payload.
    pub fn read_from(payload: &[u8]) -> (r: Result<Close, FrameError>)
        ensures
            r == Close::decoding(payload@),
    {
        let block_count: u32 = match get_u32(payload, 0) {
            Some(n) => n,
            None => { return Err(FrameError::Truncated); },
        };
        if payload.len() < 5 {
            return Err(FrameError::Truncated);
        }
        Ok(Close { block_count, status: payload[4] })
    }
}

/// Decoding what a handshake encodes to gives that handshake back, whatever
/// bytes follow.
pub proof fn lemma_handshake_roundtrip(h: HandshakeView, rest: Seq<u8>)
    requires
        h.wf(),
    ensures
        HandshakeView::decoding(h.encoding() + rest) == Ok::<HandshakeView, FrameError>(h),
{
    let b = h.encoding() + rest;
    let k = h.public_key.len() as int;
    assert(b[0] == h.flags && b[1] == k);
    assert(b.subrange(2, 2 + k) == h.public_key);
    assert(b.subrange(2 + k, 2 + k + 2) == be16(h.max_segment));
    lemma_u16_at_be16(b, 2 + k, h.max_segment);
}

/// Decoding what a data payload encodes to gives that payload back,
/// whatever bytes follow.
pub proof fn lemma_data_roundtrip(d: DataView, rest: Seq<u8>)
    requires
        d.wf(),
    ensures
        DataView::decoding(d.encoding() + rest) == Ok::<DataView, FrameError>(d),
{
    let b = d.encoding() + rest;
    let n = d.bytes.len() as int;
    assert(b.subrange(0, 4) == be32(d.block_index));
    assert(b.subrange(4, 8) == be32(d.intra_offset));
    assert(b.subrange(8, 10) == be16(n as u16));
    assert(b.subrange(10, 10 + n) == d.bytes);
    lemma_u32_at_be32(b, 0, d.block_index);
    lemma_u32_at_be32(b, 4, d.intra_offset);
    lemma_u16_at_be16(b, 8, n as u16);
}

/// Decoding what an acknowledgment encodes to gives that acknowledgment
/// back, whatever bytes follow.
pub proof fn lemma_ack_roundtrip(a: AckView, rest: Seq<u8>)
    requires
        a.wf(),
    ensures
        AckView::decoding(a.encoding() + rest) == Ok::<AckView, FrameError>(a),
{
    let b = a.encoding() + rest;
    let n = a.bitmap.len() as int;
    assert(b.subrange(0, 2) == be16(a.window));
    assert(b.subrange(2, 4) == be16(n as u16));
    assert(b.subrange(4, 4 + n) == a.bitmap);
    assert(b.subrange(4 + n, 4 + n + 4) == be32(a.cumulative_ack));
    lemma_u16_at_be16(b, 0, a.window);
    lemma_u16_at_be16(b, 2, n as u16);
    lemma_u32_at_be32(b, 4 + n, a.cumulative_ack);
}

/// Decoding what a close encodes to gives that close back, whatever bytes
/// follow.
pub proof fn lemma_close_roundtrip(c: Close, rest: Seq<u8>)
    ensures
        Close::decoding(c.encoding() + rest) == Ok::<Close, FrameError>(c),
{
    let b = c.encoding() + rest;
    assert(b.subrange(0, 4) == be32(c.block_count));
    assert(b[4] == c.status);
    lemma_u32_at_be32(b, 0, c.block_count);
}

} // verus!
