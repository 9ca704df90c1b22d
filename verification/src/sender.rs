//! The sending side of a session, as a state machine: one transition for
//! each message to send and for each datagram that arrives.
//!
//! The machine decides; the program around it owns the socket and the
//! source file, reads the blocks and sends what the machine returns.

use crate::addressing::{absolute_position, block_len, block_length, position};
use crate::error::{ProtocolError, SetupError};
use crate::frame::{
    build_close, build_data, build_handshake, build_manifest, close_frame, data_frame,
    handshake_frame, manifest_frame, FIRST_DATA_SEQ,
};
use crate::header::{Header, TYPE_ACK, TYPE_CLOSE, TYPE_HANDSHAKE};
use crate::manifest::{Manifest, ManifestView};
use crate::payload::{Data, MAX_FIELD_LEN};
use crate::wire::put_bytes;
use vstd::prelude::*;

verus! {

/// Where a sender stands in its session.
#[derive(Clone, Copy, Debug, PartialEq, Eq, Structural)]
pub enum SenderState {
    /// Made, nothing sent yet.
    Idle,
    /// Handshake sent; waiting for the receiver's handshake.
    AwaitingHandshakeResponse,
    /// Manifest sent; waiting for its acknowledgment.
    AwaitingManifestAck,
    /// Manifest acknowledged; sending the blocks, then the close.
    Transferring,
    /// Close sent; waiting for its acknowledgment.
    AwaitingCloseAck,
    /// The session is over, in order or aborted.
    Closed,
}

/// What a sender knows.
pub struct SenderView {
    pub state: SenderState,
    /// The session id, chosen when the sender was made.
    pub session_id: u32,
    /// The manifest of the file to send.
    pub manifest: ManifestView,
    /// The index of the block to send next: so many blocks were sent.
    pub next_block: u32,
}

/// What the program is to do after a datagram.
pub enum SenderActionView {
    /// Send `frame`, the manifest message.
    Send { frame: Seq<u8> },
    /// The manifest was acknowledged: send the blocks, then the close.
    Transfer,
    /// The close was acknowledged: the session is over.
    Done,
    /// Nothing: the datagram is not what the sender waits for. Wait on.
    Wait,
    /// The session is over without completion.
    Abort { reason: ProtocolError },
}

impl ManifestView {
    /// A file with this manifest can be sent: each block fits the 16-bit
    /// length field of a data message, and the sequence numbers, which run
    /// up to the block count and two, fit 32 bits.
    pub open spec fn sendable(self) -> bool {
        self.block_size <= MAX_FIELD_LEN && self.block_count + FIRST_DATA_SEQ <= u32::MAX
    }
}

impl SenderView {
    /// The manifest holds together and can be sent, and no more blocks
    /// were sent than there are.
    pub open spec fn wf(self) -> bool {
        self.manifest.wf() && self.manifest.sendable() && self.next_block
            <= self.manifest.block_count
    }

    /// A sender that has sent nothing yet.
    pub open spec fn initial(session_id: u32, manifest: ManifestView) -> SenderView {
        SenderView { state: SenderState::Idle, session_id, manifest, next_block: 0 }
    }

    /// This sender in another state.
    pub open spec fn at(self, state: SenderState) -> SenderView {
        SenderView { state, ..self }
    }

    /// The first message: an idle sender sends its handshake and then
    /// awaits the receiver's. No other sender has a first message.
    pub open spec fn start(self, now: u32) -> (SenderView, Option<Seq<u8>>) {
        if self.state == SenderState::Idle {
            (
                self.at(SenderState::AwaitingHandshakeResponse),
                Some(handshake_frame(self.session_id, now)),
            )
        } else {
            (self, None)
        }
    }

    /// The type of message that a sender in this state waits for, if it
    /// waits for one.
    pub open spec fn awaited(self) -> Option<u8> {
        match self.state {
            SenderState::AwaitingHandshakeResponse => Some(TYPE_HANDSHAKE),
            SenderState::AwaitingManifestAck => Some(TYPE_ACK),
            SenderState::AwaitingCloseAck => Some(TYPE_CLOSE),
            _ => None,
        }
    }

    /// The step that the awaited message brings: after the receiver's
    /// handshake the manifest is sent, after the acknowledgment the blocks,
    /// after the close acknowledgment nothing.
    pub open spec fn advance(self, now: u32) -> (SenderView, SenderActionView) {
        match self.state {
            SenderState::AwaitingHandshakeResponse => (
                self.at(SenderState::AwaitingManifestAck),
                SenderActionView::Send {
                    frame: manifest_frame(self.session_id, now, self.manifest),
                },
            ),
            SenderState::AwaitingManifestAck => (
                self.at(SenderState::Transferring),
                SenderActionView::Transfer,
            ),
            SenderState::AwaitingCloseAck => (self.at(SenderState::Closed), SenderActionView::Done),
            _ => (self, SenderActionView::Wait),
        }
    }

    /// The transition on a datagram. A sender that waits for a message
    /// decodes the header: the awaited type brings the next step, another
    /// type is passed over, and a header that cannot be decoded ends the
    /// session. A sender that does not wait passes every datagram over.
    pub open spec fn receive(self, bytes: Seq<u8>, now: u32) -> (SenderView, SenderActionView) {
        match self.awaited() {
            None => (self, SenderActionView::Wait),
            Some(typ) => match Header::decoding(bytes) {
                Err(e) => (
                    self.at(SenderState::Closed),
                    SenderActionView::Abort { reason: ProtocolError::Frame(e) },
                ),
                Ok(h) => if h.typ == typ {
                    self.advance(now)
                } else {
                    (self, SenderActionView::Wait)
                },
            },
        }
    }

    /// Why `block` cannot be sent now, if it cannot: the sender is not
    /// transferring, or all blocks were sent, or `block` has not the length
    /// of the next block.
    pub open spec fn refuses(self, block: Seq<u8>) -> Option<ProtocolError> {
        if self.state != SenderState::Transferring {
            Some(ProtocolError::Sequence)
        } else if self.next_block >= self.manifest.block_count || block.len() != block_len(
            self.manifest.file_size as int,
            self.manifest.block_size as int,
            self.next_block as int,
        ) {
            Some(ProtocolError::OutOfRange)
        } else {
            None
        }
    }

    /// The sender after one more block was sent.
    pub open spec fn after_block(self) -> SenderView {
        SenderView { next_block: (self.next_block + 1) as u32, ..self }
    }

    /// All blocks were sent and the close is due.
    pub open spec fn may_close(self) -> bool {
        self.state == SenderState::Transferring && self.next_block == self.manifest.block_count
    }
}

/// What the program is to do after a datagram.
#[derive(Debug)]
pub enum SenderAction {
    /// Send `frame`, the manifest message.
    Send { frame: Vec<u8> },
    /// The manifest was acknowledged: send the blocks, then the close.
    Transfer,
    /// The close was acknowledged: the session is over.
    Done,
    /// Nothing: the datagram is not what the sender waits for. Wait on.
    Wait,
    /// The session is over without completion.
    Abort { reason: ProtocolError },
}

impl View for SenderAction {
    type V = SenderActionView;

    open spec fn view(&self) -> SenderActionView {
        match *self {
            SenderAction::Send { frame } => SenderActionView::Send { frame: frame@ },
            SenderAction::Transfer => SenderActionView::Transfer,
            SenderAction::Done => SenderActionView::Done,
            SenderAction::Wait => SenderActionView::Wait,
            SenderAction::Abort { reason } => SenderActionView::Abort { reason },
        }
    }
}

/// `rand::random` at type `u32`: a number from the thread's generator.
/// Nothing is claimed of it.
#[verifier::external_body]
fn random_u32() -> u32 {
    rand::random::<u32>()
}

/// The sending side of one session.
#[derive(Debug)]
pub struct Sender {
    state: SenderState,
    session_id: u32,
    manifest: Manifest,
    next_block: u32,
}

impl View for Sender {
    type V = SenderView;

    closed spec fn view(&self) -> SenderView {
        SenderView {
            state: self.state,
            session_id: self.session_id,
            manifest: self.manifest@,
            next_block: self.next_block,
        }
    }
}

impl Sender {
    #[verifier::type_invariant]
    spec fn inv(self) -> bool {
        self@.wf()
    }

    /// An idle sender for the file that `manifest` describes, with the given
    /// session id. A manifest with blocks of more than 65535 bytes, or with
    /// more than 2^32 - 3 blocks, cannot be sent.
    pub fn new(session_id: u32, manifest: Manifest) -> (r: Result<Sender, SetupError>)
        ensures
            match r {
                Ok(s) => manifest@.sendable() && s@ == SenderView::initial(session_id, manifest@)
                    && s@.wf(),
                Err(e) => !manifest@.sendable() && e == (if manifest@.block_size > MAX_FIELD_LEN {
                    SetupError::BlockTooLong
                } else {
                    SetupError::TooManyBlocks
                }),
            },
    {
        if manifest.block_size() as usize > MAX_FIELD_LEN {
            return Err(SetupError::BlockTooLong);
        }
        if manifest.block_count() > u32::MAX - FIRST_DATA_SEQ {
            return Err(SetupError::TooManyBlocks);
        }
        Ok(Sender { state: SenderState::Idle, session_id, manifest, next_block: 0 })
    }

    /// An idle sender for the file that `manifest` describes, with a session
    /// id drawn at random.
    pub fn open(manifest: Manifest) -> (r: Result<Sender, SetupError>)
        ensures
            match r {
                Ok(s) => manifest@.sendable() && s@ == SenderView::initial(
                    s@.session_id,
                    manifest@,
                ) && s@.wf(),
                Err(e) => !manifest@.sendable() && e == (if manifest@.block_size > MAX_FIELD_LEN {
                    SetupError::BlockTooLong
                } else {
                    SetupError::TooManyBlocks
                }),
            },
    {
        Sender::new(random_u32(), manifest)
    }

    /// The state.
    pub fn state(&self) -> (s: SenderState)
        ensures
            s == self@.state,
            self@.wf(),
    {
        proof {
            use_type_invariant(self);
        }
        self.state
    }

    /// The session id.
    pub fn session_id(&self) -> (id: u32)
        ensures
            id == self@.session_id,
    {
        self.session_id
    }

    /// The manifest of the file to send.
    pub fn manifest(&self) -> (m: &Manifest)
        ensures
            m@ == self@.manifest,
            self@.wf(),
    {
        proof {
            use_type_invariant(self);
        }
        &self.manifest
    }

    /// How many blocks were sent.
    pub fn blocks_sent(&self) -> (n: u32)
        ensures
            n == self@.next_block,
            self@.wf(),
    {
        proof {
            use_type_invariant(self);
        }
        self.next_block
    }

    /// Where in the file the block to send next starts, and how long it is.
    /// `None` where the sender is not transferring or has sent all blocks.
    pub fn pending_block(&self) -> (r: Option<(u64, u32)>)
        ensures
            match r {
                Some((start, len)) => self@.state == SenderState::Transferring && self@.next_block
                    < self@.manifest.block_count && start == position(
                    self@.next_block as int,
                    0,
                    self@.manifest.block_size as int,
                ) && len == block_len(
                    self@.manifest.file_size as int,
                    self@.manifest.block_size as int,
                    self@.next_block as int,
                ),
                None => self@.state != SenderState::Transferring || self@.next_block
                    >= self@.manifest.block_count,
            },
    {
        proof {
            use_type_invariant(self);
        }
        match self.state {
            SenderState::Transferring => {
                if self.next_block < self.manifest.block_count() {
                    Some(
                        (
                            absolute_position(self.next_block, 0, self.manifest.block_size()),
                            block_length(
                                self.manifest.file_size(),
                                self.manifest.block_size(),
                                self.next_block,
                            ),
                        ),
                    )
                } else {
                    None
                }
            },
            _ => None,
        }
    }

    /// The handshake message, for an idle sender, which then awaits the
    /// receiver's handshake. `None`, and nothing changed, in any other state.
    pub fn handshake(&mut self, now: u32) -> (frame: Option<Vec<u8>>)
        ensures
            final(self)@ == old(self)@.start(now).0,
            match frame {
                Some(f) => old(self)@.start(now).1 == Some(f@),
                None => old(self)@.start(now).1 is None,
            },
            final(self)@.wf(),
    {
        proof {
            use_type_invariant(&*self);
        }
        match self.state {
            SenderState::Idle => {
                self.state = SenderState::AwaitingHandshakeResponse;
                Some(build_handshake(self.session_id, now))
            },
            _ => None,
        }
    }

    /// Takes a datagram that arrived at `now` and says what is to be done.
    ///
    /// While the sender waits for a handshake, an acknowledgment or a close,
    /// a message of that type brings the next step, a message of another
    /// type is passed over, and bytes that hold no header end the session.
    pub fn on_datagram(&mut self, bytes: &[u8], now: u32) -> (action: SenderAction)
        ensures
            (final(self)@, action@) == old(self)@.receive(bytes@, now),
            final(self)@.wf(),
    {
        proof {
            use_type_invariant(&*self);
        }
        let awaited: u8 = match self.state {
            SenderState::AwaitingHandshakeResponse => TYPE_HANDSHAKE,
            SenderState::AwaitingManifestAck => TYPE_ACK,
            SenderState::AwaitingCloseAck => TYPE_CLOSE,
            _ => { return SenderAction::Wait; },
        };
        let header = match Header::read_from(bytes) {
            Ok(h) => h,
            Err(e) => {
                self.state = SenderState::Closed;
                return SenderAction::Abort { reason: ProtocolError::Frame(e) };
            },
        };
        if header.typ != awaited {
            return SenderAction::Wait;
        }
        match self.state {
            SenderState::AwaitingHandshakeResponse => {
                self.state = SenderState::AwaitingManifestAck;
                SenderAction::Send { frame: build_manifest(self.session_id, now, &self.manifest) }
            },
            SenderState::AwaitingManifestAck => {
                self.state = SenderState::Transferring;
                SenderAction::Transfer
            },
            SenderState::AwaitingCloseAck => {
                self.state = SenderState::Closed;
                SenderAction::Done
            },
            _ => SenderAction::Wait,
        }
    }

    /// The data message for the next block, whose bytes are `block`: its
    /// sequence number is two more than the block's index, its offset zero.
    /// The blocks go out in ascending order, each as long as the manifest's
    /// sizes make it. Refused, and nothing changed, where the sender is not
    /// transferring, all blocks were sent, or `block` has another length.
    pub fn data(&mut self, block: &[u8], now: u32) -> (r: Result<Vec<u8>, ProtocolError>)
        ensures
            match r {
                Ok(f) => old(self)@.refuses(block@) is None && f@ == data_frame(
                    old(self)@.session_id,
                    old(self)@.next_block,
                    now,
                    block@,
                ) && final(self)@ == old(self)@.after_block(),
                Err(e) => old(self)@.refuses(block@) == Some(e) && final(self)@ == old(self)@,
            },
            final(self)@.wf(),
    {
        proof {
            use_type_invariant(&*self);
        }
        match self.state {
            SenderState::Transferring => {},
            _ => { return Err(ProtocolError::Sequence); },
        }
        let index: u32 = self.next_block;
        if index >= self.manifest.block_count() {
            return Err(ProtocolError::OutOfRange);
        }
        let expected: u32 = block_length(
            self.manifest.file_size(),
            self.manifest.block_size(),
            index,
        );
        if block.len() != expected as usize {
            return Err(ProtocolError::OutOfRange);
        }
        let mut bytes: Vec<u8> = Vec::new();
        put_bytes(&mut bytes, block);
        match Data::new(index, 0, bytes) {
            Some(d) => {
                let frame = build_data(self.session_id, FIRST_DATA_SEQ + index, now, &d);
                self.next_block = index + 1;
                Ok(frame)
            },
            None => Err(ProtocolError::OutOfRange),
        }
    }

    /// The close message, once all blocks were sent: its sequence number is
    /// two more than the block count, which it also carries. The sender then
    /// awaits the close acknowledgment. Refused, and nothing changed, where
    /// the sender is not transferring or blocks are left to send.
    pub fn close(&mut self, now: u32) -> (r: Result<Vec<u8>, ProtocolError>)
        ensures
            match r {
                Ok(f) => old(self)@.may_close() && f@ == close_frame(
                    old(self)@.session_id,
                    (FIRST_DATA_SEQ + old(self)@.manifest.block_count) as u32,
                    now,
                    old(self)@.manifest.block_count,
                ) && final(self)@ == old(self)@.at(SenderState::AwaitingCloseAck),
                Err(e) => !old(self)@.may_close() && e == ProtocolError::Sequence && final(self)@
                    == old(self)@,
            },
            final(self)@.wf(),
    {
        proof {
            use_type_invariant(&*self);
        }
        match self.state {
            SenderState::Transferring => {},
            _ => { return Err(ProtocolError::Sequence); },
        }
        let count: u32 = self.manifest.block_count();
        if self.next_block != count {
            return Err(ProtocolError::Sequence);
        }
        self.state = SenderState::AwaitingCloseAck;
        Ok(build_close(self.session_id, FIRST_DATA_SEQ + count, now, count))
    }
}

} // verus!
