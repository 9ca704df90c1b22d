//! Whole messages: a header and the payload that its type calls for.

use crate::error::FrameError;
use crate::header::{lemma_header_len, lemma_header_roundtrip, Header, MessageType, HEADER_LEN};
use crate::manifest::{Manifest, ManifestView};
use crate::payload::{Ack, AckView, Close, Data, DataView, Handshake, HandshakeView};
use vstd::prelude::*;
use vstd::slice::slice_subrange;

verus! {

/// The largest datagram that the transport is taken to carry, header
/// included. Both sides announce it in their handshake.
pub const MAX_DATAGRAM: u16 = 1500;

/// The window size that the receiver announces in its acknowledgment.
pub const ACK_WINDOW: u16 = 32;

/// The sequence number of the manifest message.
pub const MANIFEST_SEQ: u32 = 1;

/// The sequence number of the first data message.
pub const FIRST_DATA_SEQ: u32 = 2;

/// A message of this implementation: the header for the given type, session,
/// sequence number and timestamp, then the payload.
pub open spec fn frame(
    typ: MessageType,
    session_id: u32,
    seq: u32,
    timestamp: u32,
    payload: Seq<u8>,
) -> Seq<u8> {
    Header::outgoing(typ, session_id, seq, timestamp).encoding() + payload
}

/// What follows the header in `bytes`.
pub open spec fn payload_of(bytes: Seq<u8>) -> Seq<u8> {
    bytes.subrange(HEADER_LEN as int, bytes.len() as int)
}

/// The handshake message of either side: sequence number zero, no flags, no
/// key, the largest datagram as segment size.
pub open spec fn handshake_frame(session_id: u32, timestamp: u32) -> Seq<u8> {
    frame(
        MessageType::Handshake,
        session_id,
        0,
        timestamp,
        (HandshakeView {
            flags: 0,
            public_key: Seq::<u8>::empty(),
            max_segment: MAX_DATAGRAM,
        }).encoding(),
    )
}

/// The sender's manifest message: sequence number one.
pub open spec fn manifest_frame(session_id: u32, timestamp: u32, manifest: ManifestView) -> Seq<
    u8,
> {
    frame(MessageType::Manifest, session_id, MANIFEST_SEQ, timestamp, manifest.encoding())
}

/// The receiver's acknowledgment of the manifest: sequence number zero, the
/// window, no bitmap, nothing acknowledged.
pub open spec fn ack_frame(session_id: u32, timestamp: u32) -> Seq<u8> {
    frame(
        MessageType::Ack,
        session_id,
        0,
        timestamp,
        (AckView { window: ACK_WINDOW, bitmap: Seq::<u8>::empty(), cumulative_ack: 0 }).encoding(),
    )
}

/// The sender's data message for the block `block_index`: sequence number
/// two more than the index, offset zero, the block's bytes.
pub open spec fn data_frame(session_id: u32, block_index: u32, timestamp: u32, block: Seq<u8>) -> Seq<
    u8,
> {
    frame(
        MessageType::Data,
        session_id,
        (FIRST_DATA_SEQ + block_index) as u32,
        timestamp,
        (DataView { block_index, intra_offset: 0, bytes: block }).encoding(),
    )
}

/// A close message: the given sequence number and block count, status zero.
pub open spec fn close_frame(session_id: u32, seq: u32, timestamp: u32, block_count: u32) -> Seq<
    u8,
> {
    frame(
        MessageType::Close,
        session_id,
        seq,
        timestamp,
        (Close { block_count, status: 0 }).encoding(),
    )
}

/// A message decodes to the header that it was made with, and what follows
/// its header is the payload that it was made with.
pub proof fn lemma_frame_parts(
    typ: MessageType,
    session_id: u32,
    seq: u32,
    timestamp: u32,
    payload: Seq<u8>,
)
    ensures
        Header::decoding(frame(typ, session_id, seq, timestamp, payload)) == Ok::<
            Header,
            FrameError,
        >(Header::outgoing(typ, session_id, seq, timestamp)),
        payload_of(frame(typ, session_id, seq, timestamp, payload)) == payload,
        frame(typ, session_id, seq, timestamp, payload).len() == HEADER_LEN + payload.len(),
{
    let h = Header::outgoing(typ, session_id, seq, timestamp);
    lemma_header_roundtrip(h, payload);
    lemma_header_len(h);
    assert(payload_of(h.encoding() + payload) =~= payload);
}

/// The payload of a message whose header was decoded: the bytes behind the
/// header.
pub(crate) fn payload(bytes: &[u8]) -> (p: &[u8])
    requires
        bytes@.len() >= HEADER_LEN,
    ensures
        p@ == payload_of(bytes@),
{
    slice_subrange(bytes, HEADER_LEN, bytes.len())
}

/// A new message that so far holds its header.
fn begin(typ: MessageType, session_id: u32, seq: u32, timestamp: u32) -> (w: Vec<u8>)
    ensures
        w@ == Header::outgoing(typ, session_id, seq, timestamp).encoding(),
{
    let mut w: Vec<u8> = Vec::new();
    Header::new(typ, session_id, seq, timestamp).write_to(&mut w);
    assert(Seq::<u8>::empty() + Header::outgoing(typ, session_id, seq, timestamp).encoding()
        == Header::outgoing(typ, session_id, seq, timestamp).encoding());
    w
}

/// Builds the handshake message of either side.
pub fn build_handshake(session_id: u32, timestamp: u32) -> (w: Vec<u8>)
    ensures
        w@ == handshake_frame(session_id, timestamp),
{
    let mut w = begin(MessageType::Handshake, session_id, 0, timestamp);
    Handshake::plain(MAX_DATAGRAM).write_to(&mut w);
    w
}

/// Builds the sender's manifest message.
pub fn build_manifest(session_id: u32, timestamp: u32, manifest: &Manifest) -> (w: Vec<u8>)
    ensures
        w@ == manifest_frame(session_id, timestamp, manifest@),
{
    let mut w = begin(MessageType::Manifest, session_id, MANIFEST_SEQ, timestamp);
    manifest.write_to(&mut w);
    w
}

/// Builds the receiver's acknowledgment of the manifest.
pub fn build_ack(session_id: u32, timestamp: u32) -> (w: Vec<u8>)
    ensures
        w@ == ack_frame(session_id, timestamp),
{
    let mut w = begin(MessageType::Ack, session_id, 0, timestamp);
    Ack::plain(ACK_WINDOW).write_to(&mut w);
    w
}

/// Builds a data message from its header fields and its payload.
pub fn build_data(session_id: u32, seq: u32, timestamp: u32, data: &Data) -> (w: Vec<u8>)
    ensures
        w@ == frame(MessageType::Data, session_id, seq, timestamp, data@.encoding()),
{
    let mut w = begin(MessageType::Data, session_id, seq, timestamp);
    data.write_to(&mut w);
    w
}

/// Builds a close message.
pub fn build_close(session_id: u32, seq: u32, timestamp: u32, block_count: u32) -> (w: Vec<u8>)
    ensures
        w@ == close_frame(session_id, seq, timestamp, block_count),
{
    let mut w = begin(MessageType::Close, session_id, seq, timestamp);
    (Close { block_count, status: 0 }).write_to(&mut w);
    w
}

} // verus!
