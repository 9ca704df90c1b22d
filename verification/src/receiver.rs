//! The receiving side of a session, as a state machine: one transition for
//! each datagram that arrives.
//!
//! The machine decides; the program around it owns the socket and the
//! destination file and carries out what the machine returns.

use crate::addressing::{absolute_position, block_len, block_length, lemma_block_len, position};
use crate::error::ProtocolError;
use crate::frame::{
    ack_frame, build_ack, build_close, build_handshake, close_frame, handshake_frame, payload,
    payload_of,
};
use crate::header::{Header, TYPE_CLOSE, TYPE_DATA, TYPE_HANDSHAKE, TYPE_MANIFEST};
use crate::manifest::{Manifest, ManifestView};
use crate::payload::{Data, DataView, Handshake, HandshakeView};
use vstd::prelude::*;

verus! {

/// Where a receiver stands in its session.
#[derive(Clone, Copy, Debug, PartialEq, Eq, Structural)]
pub enum ReceiverState {
    /// Made, not yet listening.
    Idle,
    /// Waiting for the sender's handshake.
    AwaitingHandshake,
    /// Handshake answered; waiting for the manifest.
    AwaitingManifest,
    /// Manifest acknowledged; taking data until a close arrives.
    Transferring,
    /// Close received; its acknowledgment is still to be sent.
    Closing,
    /// The session is over, in order or aborted.
    Closed,
}

/// What a receiver knows.
pub struct ReceiverView {
    pub state: ReceiverState,
    /// The session id of the last handshake or manifest taken.
    pub session_id: u32,
    /// The manifest, once it was taken.
    pub manifest: Option<ManifestView>,
}

/// What the program is to do after a datagram.
pub enum ReceiverActionView {
    /// Send `frame` to the peer.
    Reply { frame: Seq<u8> },
    /// Create the destination file with `file_size` bytes, and send `frame`.
    Allocate { file_size: u64, frame: Seq<u8> },
    /// Write `bytes` at `position` of the destination file. `intact` says
    /// whether they are a whole block with the digest that the manifest
    /// holds for it.
    Write { position: u64, bytes: Seq<u8>, intact: bool },
    /// Nothing: the datagram was refused and the session goes on.
    Skip { reason: ProtocolError },
    /// The sender closed: stop receiving and send the close acknowledgment.
    Finish,
    /// The session is over without a transfer.
    Abort { reason: ProtocolError },
}

impl ManifestView {
    /// The bytes of a data message lie in a block of the manifest, and in
    /// it alone.
    pub open spec fn admits(self, d: DataView) -> bool {
        &&& d.block_index < self.block_count
        &&& d.intra_offset + d.bytes.len() <= block_len(
            self.file_size as int,
            self.block_size as int,
            d.block_index as int,
        )
    }

    /// The bytes of a data message are a whole block with the digest that
    /// the manifest holds for it.
    pub open spec fn confirms(self, d: DataView) -> bool {
        d.intra_offset == 0 && self.verifies(d.block_index as int, d.bytes)
    }
}

impl ReceiverView {
    /// The manifest, where there is one, holds together.
    pub open spec fn wf(self) -> bool {
        self.manifest matches Some(m) ==> m.wf()
    }

    /// A receiver that listens for its first handshake.
    pub open spec fn listening() -> ReceiverView {
        ReceiverView { state: ReceiverState::AwaitingHandshake, session_id: 0, manifest: None }
    }

    /// This receiver in another state.
    pub open spec fn at(self, state: ReceiverState) -> ReceiverView {
        ReceiverView { state, ..self }
    }

    /// The session given up because of `reason`.
    pub open spec fn abort(self, reason: ProtocolError) -> (ReceiverView, ReceiverActionView) {
        (self.at(ReceiverState::Closed), ReceiverActionView::Abort { reason })
    }

    /// The transition on the first datagram: a handshake is answered with a
    /// handshake that echoes its session id; anything else ends the session.
    pub open spec fn on_first(self, bytes: Seq<u8>, now: u32) -> (
        ReceiverView,
        ReceiverActionView,
    ) {
        match Header::decoding(bytes) {
            Err(e) => self.abort(ProtocolError::Frame(e)),
            Ok(h) => if h.typ != TYPE_HANDSHAKE {
                self.abort(ProtocolError::Sequence)
            } else {
                match HandshakeView::decoding(payload_of(bytes)) {
                    Err(e) => self.abort(ProtocolError::Frame(e)),
                    Ok(_) => (
                        ReceiverView {
                            state: ReceiverState::AwaitingManifest,
                            session_id: h.session_id,
                            manifest: self.manifest,
                        },
                        ReceiverActionView::Reply { frame: handshake_frame(h.session_id, now) },
                    ),
                }
            },
        }
    }

    /// The transition on the second datagram: a manifest is kept and
    /// acknowledged, and the file is to be made; anything else ends the
    /// session.
    pub open spec fn on_second(self, bytes: Seq<u8>, now: u32) -> (
        ReceiverView,
        ReceiverActionView,
    ) {
        match Header::decoding(bytes) {
            Err(e) => self.abort(ProtocolError::Frame(e)),
            Ok(h) => if h.typ != TYPE_MANIFEST {
                self.abort(ProtocolError::Sequence)
            } else {
                match ManifestView::decoding(payload_of(bytes)) {
                    Err(e) => self.abort(ProtocolError::Frame(e)),
                    Ok(m) => (
                        ReceiverView {
                            state: ReceiverState::Transferring,
                            session_id: h.session_id,
                            manifest: Some(m),
                        },
                        ReceiverActionView::Allocate {
                            file_size: m.file_size,
                            frame: ack_frame(h.session_id, now),
                        },
                    ),
                }
            },
        }
    }

    /// The transition on a datagram during the transfer: data that lies in
    /// a block of the manifest is to be written at its place in the file,
    /// other data is refused; a close ends the transfer; a message of
    /// another type is passed over; one that cannot be decoded ends the
    /// session.
    pub open spec fn on_later(self, bytes: Seq<u8>) -> (ReceiverView, ReceiverActionView) {
        match Header::decoding(bytes) {
            Err(e) => self.abort(ProtocolError::Frame(e)),
            Ok(h) => if h.typ == TYPE_DATA {
                match DataView::decoding(payload_of(bytes)) {
                    Err(e) => self.abort(ProtocolError::Frame(e)),
                    Ok(d) => if self.manifest is Some && self.manifest->0.admits(d) {
                        (
                            self,
                            ReceiverActionView::Write {
                                position: position(
                                    d.block_index as int,
                                    d.intra_offset as int,
                                    self.manifest->0.block_size as int,
                                ) as u64,
                                bytes: d.bytes,
                                intact: self.manifest->0.confirms(d),
                            },
                        )
                    } else {
                        (self, ReceiverActionView::Skip { reason: ProtocolError::OutOfRange })
                    },
                }
            } else if h.typ == TYPE_CLOSE {
                (self.at(ReceiverState::Closing), ReceiverActionView::Finish)
            } else {
                (self, ReceiverActionView::Skip { reason: ProtocolError::Sequence })
            },
        }
    }

    /// The transition on a datagram: by the state, one of the three above;
    /// a receiver that is idle, closing or closed passes every datagram
    /// over.
    pub open spec fn receive(self, bytes: Seq<u8>, now: u32) -> (ReceiverView, ReceiverActionView) {
        match self.state {
            ReceiverState::AwaitingHandshake => self.on_first(bytes, now),
            ReceiverState::AwaitingManifest => self.on_second(bytes, now),
            ReceiverState::Transferring => self.on_later(bytes),
            _ => (self, ReceiverActionView::Skip { reason: ProtocolError::Sequence }),
        }
    }

    /// The close acknowledgment of a receiver that is closing, which is
    /// closed with it: sequence number zero, block count zero, status zero.
    /// No other receiver has one.
    pub open spec fn conclude(self, now: u32) -> (ReceiverView, Option<Seq<u8>>) {
        if self.state == ReceiverState::Closing {
            (self.at(ReceiverState::Closed), Some(close_frame(self.session_id, 0, now, 0)))
        } else {
            (self, None)
        }
    }
}

/// No write reaches past the end of the file that the manifest declares:
/// data that names a block outside the manifest, or bytes outside its block,
/// is refused, not written.
pub proof fn lemma_writes_stay_inside(r: ReceiverView, bytes: Seq<u8>, now: u32)
    requires
        r.wf(),
    ensures
        r.receive(bytes, now).1 matches ReceiverActionView::Write { position, bytes: written, .. }
            ==> r.manifest matches Some(m) && position + written.len() <= m.file_size,
        r.receive(bytes, now).0.wf(),
{
    if r.state == ReceiverState::Transferring {
        if let Ok(h) = Header::decoding(bytes) {
            if h.typ == TYPE_DATA {
                if let Ok(d) = DataView::decoding(payload_of(bytes)) {
                    if r.manifest is Some && r.manifest->0.admits(d) {
                        let m = r.manifest->0;
                        lemma_admitted_position(m, d);
                    }
                }
            }
        }
    }
}

/// Admitted data ends inside the file, at a position that fits 64 bits.
pub proof fn lemma_admitted_position(m: ManifestView, d: DataView)
    requires
        m.wf(),
        m.admits(d),
    ensures
        0 <= position(d.block_index as int, d.intra_offset as int, m.block_size as int),
        position(d.block_index as int, d.intra_offset as int, m.block_size as int) + d.bytes.len()
            <= m.file_size,
{
    lemma_block_len(m.file_size as int, m.block_size as int, d.block_index as int);
    assert(position(d.block_index as int, d.intra_offset as int, m.block_size as int) == position(
        d.block_index as int,
        0,
        m.block_size as int,
    ) + d.intra_offset);
    assert(0 <= d.block_index * m.block_size) by (nonlinear_arith);
}

/// What the program is to do after a datagram.
#[derive(Debug)]
pub enum ReceiverAction {
    /// Send `frame` to the peer.
    Reply { frame: Vec<u8> },
    /// Create the destination file with `file_size` bytes, and send `frame`.
    Allocate { file_size: u64, frame: Vec<u8> },
    /// Write `bytes` at `position` of the destination file. `intact` says
    /// whether they are a whole block with the digest that the manifest
    /// holds for it.
    Write { position: u64, bytes: Vec<u8>, intact: bool },
    /// Nothing: the datagram was refused and the session goes on.
    Skip { reason: ProtocolError },
    /// The sender closed: stop receiving and send the close acknowledgment.
    Finish,
    /// The session is over without a transfer.
    Abort { reason: ProtocolError },
}

impl View for ReceiverAction {
    type V = ReceiverActionView;

    open spec fn view(&self) -> ReceiverActionView {
        match *self {
            ReceiverAction::Reply { frame } => ReceiverActionView::Reply { frame: frame@ },
            ReceiverAction::Allocate { file_size, frame } => ReceiverActionView::Allocate {
                file_size,
                frame: frame@,
            },
            ReceiverAction::Write { position, bytes, intact } => ReceiverActionView::Write {
                position,
                bytes: bytes@,
                intact,
            },
            ReceiverAction::Skip { reason } => ReceiverActionView::Skip { reason },
            ReceiverAction::Finish => ReceiverActionView::Finish,
            ReceiverAction::Abort { reason } => ReceiverActionView::Abort { reason },
        }
    }
}

/// The receiving side of one session.
#[derive(Debug)]
pub struct Receiver {
    state: ReceiverState,
    session_id: u32,
    manifest: Option<Manifest>,
}

impl View for Receiver {
    type V = ReceiverView;

    closed spec fn view(&self) -> ReceiverView {
        ReceiverView {
            state: self.state,
            session_id: self.session_id,
            manifest: match self.manifest {
                Some(m) => Some(m@),
                None => None,
            },
        }
    }
}

impl Receiver {
    /// An idle receiver.
    pub fn new() -> (r: Receiver)
        ensures
            r@ == ReceiverView::listening().at(ReceiverState::Idle),
    {
        Receiver { state: ReceiverState::Idle, session_id: 0, manifest: None }
    }

    /// Starts to listen: an idle receiver now awaits a handshake. Any other
    /// receiver stays as it is.
    pub fn listen(&mut self)
        ensures
            final(self)@ == (if old(self)@.state == ReceiverState::Idle {
                old(self)@.at(ReceiverState::AwaitingHandshake)
            } else {
                old(self)@
            }),
    {
        if let ReceiverState::Idle = self.state {
            self.state = ReceiverState::AwaitingHandshake;
        }
    }

    /// The state.
    pub fn state(&self) -> (s: ReceiverState)
        ensures
            s == self@.state,
    {
        self.state
    }

    /// The session id of the last handshake or manifest taken.
    pub fn session_id(&self) -> (id: u32)
        ensures
            id == self@.session_id,
    {
        self.session_id
    }

    /// The manifest, once it was taken.
    pub fn manifest(&self) -> (m: Option<&Manifest>)
        ensures
            match m {
                Some(m) => self@.manifest == Some(m@),
                None => self@.manifest is None,
            },
            self@.wf(),
    {
        match &self.manifest {
            Some(m) => {
                proof {
                    use_type_invariant(m);
                }
                Some(m)
            },
            None => None,
        }
    }

    /// Ends the session because of `reason`.
    fn give_up(&mut self, reason: ProtocolError) -> (action: ReceiverAction)
        ensures
            (final(self)@, action@) == old(self)@.abort(reason),
    {
        self.state = ReceiverState::Closed;
        ReceiverAction::Abort { reason }
    }

    /// Takes the first datagram.
    fn take_first(&mut self, bytes: &[u8], now: u32) -> (action: ReceiverAction)
        ensures
            (final(self)@, action@) == old(self)@.on_first(bytes@, now),
    {
        let header = match Header::read_from(bytes) {
            Ok(h) => h,
            Err(e) => { return self.give_up(ProtocolError::Frame(e)); },
        };
        if header.typ != TYPE_HANDSHAKE {
            return self.give_up(ProtocolError::Sequence);
        }
        match Handshake::read_from(payload(bytes)) {
            Err(e) => self.give_up(ProtocolError::Frame(e)),
            Ok(_) => {
                self.session_id = header.session_id;
                self.state = ReceiverState::AwaitingManifest;
                ReceiverAction::Reply { frame: build_handshake(header.session_id, now) }
            },
        }
    }

    /// Takes the second datagram.
    fn take_second(&mut self, bytes: &[u8], now: u32) -> (action: ReceiverAction)
        ensures
            (final(self)@, action@) == old(self)@.on_second(bytes@, now),
    {
        let header = match Header::read_from(bytes) {
            Ok(h) => h,
            Err(e) => { return self.give_up(ProtocolError::Frame(e)); },
        };
        if header.typ != TYPE_MANIFEST {
            return self.give_up(ProtocolError::Sequence);
        }
        match Manifest::read_from(payload(bytes)) {
            Err(e) => self.give_up(ProtocolError::Frame(e)),
            Ok(m) => {
                let file_size: u64 = m.file_size();
                self.session_id = header.session_id;
                self.manifest = Some(m);
                self.state = ReceiverState::Transferring;
                ReceiverAction::Allocate { file_size, frame: build_ack(header.session_id, now) }
            },
        }
    }

    /// Takes a datagram during the transfer.
    fn take_later(&mut self, bytes: &[u8]) -> (action: ReceiverAction)
        ensures
            (final(self)@, action@) == old(self)@.on_later(bytes@),
    {
        let header = match Header::read_from(bytes) {
            Ok(h) => h,
            Err(e) => { return self.give_up(ProtocolError::Frame(e)); },
        };
        if header.typ == TYPE_DATA {
            let data = match Data::read_from(payload(bytes)) {
                Ok(d) => d,
                Err(e) => { return self.give_up(ProtocolError::Frame(e)); },
            };
            match &self.manifest {
                Some(m) => {
                    let index: u32 = data.block_index();
                    let offset: u32 = data.intra_offset();
                    let room: u32 = block_length(m.file_size(), m.block_size(), index);
                    let len: usize = data.bytes().len();
                    if index < m.block_count() && offset as u64 + len as u64 <= room as u64 {
                        proof {
                            lemma_admitted_position(m@, data@);
                        }
                        let intact: bool = offset == 0 && m.verify_block(index, data.bytes());
                        let position: u64 = absolute_position(index, offset, m.block_size());
                        ReceiverAction::Write { position, bytes: data.into_bytes(), intact }
                    } else {
                        ReceiverAction::Skip { reason: ProtocolError::OutOfRange }
                    }
                },
                None => ReceiverAction::Skip { reason: ProtocolError::OutOfRange },
            }
        } else if header.typ == TYPE_CLOSE {
            self.state = ReceiverState::Closing;
            ReceiverAction::Finish
        } else {
            ReceiverAction::Skip { reason: ProtocolError::Sequence }
        }
    }

    /// Takes a datagram that arrived at `now` and says what is to be done.
    ///
    /// The first datagram must be a handshake and the second a manifest, or
    /// the session ends. After that, data is handed out to be written, until
    /// a close arrives. Data outside the manifest's blocks is refused: what
    /// is handed out to be written ends inside the declared file size.
    pub fn on_datagram(&mut self, bytes: &[u8], now: u32) -> (action: ReceiverAction)
        ensures
            (final(self)@, action@) == old(self)@.receive(bytes@, now),
            old(self)@.wf(),
            final(self)@.wf(),
            action matches ReceiverAction::Write { position, bytes: written, .. } ==> old(
                self,
            )@.manifest matches Some(m) && position + written@.len() <= m.file_size,
    {
        proof {
            match &self.manifest {
                Some(m) => {
                    use_type_invariant(m);
                },
                None => {},
            }
            lemma_writes_stay_inside(self@, bytes@, now);
        }
        match self.state {
            ReceiverState::AwaitingHandshake => self.take_first(bytes, now),
            ReceiverState::AwaitingManifest => self.take_second(bytes, now),
            ReceiverState::Transferring => self.take_later(bytes),
            _ => ReceiverAction::Skip { reason: ProtocolError::Sequence },
        }
    }

    /// The close acknowledgment, for a receiver that is closing; with it the
    /// session is closed. `None`, and nothing changed, in any other state.
    pub fn close_ack(&mut self, now: u32) -> (frame: Option<Vec<u8>>)
        ensures
            final(self)@ == old(self)@.conclude(now).0,
            match frame {
                Some(f) => old(self)@.conclude(now).1 == Some(f@),
                None => old(self)@.conclude(now).1 is None,
            },
    {
        if let ReceiverState::Closing = self.state {
            self.state = ReceiverState::Closed;
            Some(build_close(self.session_id, 0, now, 0))
        } else {
            None
        }
    }
}

} // verus!
