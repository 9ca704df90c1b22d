//! A whole session, end to end: what the sender emits for a file, taken by
//! a receiver whose actions are carried out on a file, gives that file.

use crate::addressing::{block_len, blocks_in, lemma_block_len, lemma_blocks_bounds, position};
use crate::frame::{
    ack_frame, close_frame, data_frame, handshake_frame, lemma_frame_parts, manifest_frame,
    ACK_WINDOW, FIRST_DATA_SEQ, MANIFEST_SEQ, MAX_DATAGRAM,
};
use crate::header::MessageType;
use crate::manifest::{
    block_bytes, buildable, lemma_manifest_of_wf, lemma_manifest_roundtrip,
    lemma_own_blocks_verify, manifest_of,
};
use crate::payload::{
    lemma_data_roundtrip, lemma_handshake_roundtrip, AckView, Close, DataView, HandshakeView,
};
use crate::receiver::{ReceiverActionView, ReceiverState, ReceiverView};
use crate::sender::{SenderState, SenderView};
use vstd::prelude::*;

verus! {

/// A file after `bytes` were written at `position`: as long as before, or
/// longer where the write ends behind the old end, with zeros where neither
/// the old file nor the write put a byte.
pub open spec fn written(file: Seq<u8>, position: int, bytes: Seq<u8>) -> Seq<u8> {
    Seq::new(
        (if position + bytes.len() > file.len() {
            position + bytes.len()
        } else {
            file.len() as int
        }) as nat,
        |i: int|
            if position <= i < position + bytes.len() {
                bytes[i - position]
            } else if i < file.len() {
                file[i]
            } else {
                0u8
            },
    )
}

/// The destination file after the program did what the receiver asked for:
/// made anew with zeros throughout, written to, or left as it is.
pub open spec fn carried_out(file: Seq<u8>, action: ReceiverActionView) -> Seq<u8> {
    match action {
        ReceiverActionView::Allocate { file_size, .. } => Seq::new(file_size as nat, |i: int| 0u8),
        ReceiverActionView::Write { position, bytes, .. } => written(file, position as int, bytes),
        _ => file,
    }
}

/// The receiver and the destination file after the datagrams were taken in
/// their order, the one at index `i` at the time `stamps[i]`, and each
/// action was carried out.
#[verifier::opaque]
pub open spec fn delivered(
    receiver: ReceiverView,
    file: Seq<u8>,
    datagrams: Seq<Seq<u8>>,
    stamps: Seq<u32>,
) -> (ReceiverView, Seq<u8>)
    decreases datagrams.len(),
{
    if datagrams.len() == 0 {
        (receiver, file)
    } else {
        let before = delivered(receiver, file, datagrams.drop_last(), stamps);
        let step = before.0.receive(datagrams.last(), stamps[datagrams.len() - 1]);
        (step.0, carried_out(before.1, step.1))
    }
}

/// Whether a content can be sent in blocks of `block_size` bytes: its length
/// fits the manifest's 64-bit field, a manifest can be built of it, and
/// that manifest can be sent.
pub open spec fn transferable(content: Seq<u8>, block_size: u32) -> bool {
    &&& content.len() <= u64::MAX
    &&& buildable(content.len() as int, block_size)
    &&& manifest_of(content, block_size).sendable()
}

/// The datagrams of a session as they reach the receiver: the handshake,
/// the manifest, then for each entry of `order` the data message of the
/// block with that index, then the close; the datagram at index `i` stamped
/// `stamps[i]`. A block may come early, late or more than once.
pub open spec fn arrival(
    content: Seq<u8>,
    block_size: u32,
    session_id: u32,
    order: Seq<int>,
    stamps: Seq<u32>,
) -> Seq<Seq<u8>> {
    let manifest = manifest_of(content, block_size);
    Seq::new(
        order.len() + 3,
        |i: int|
            if i == 0 {
                handshake_frame(session_id, stamps[i])
            } else if i == 1 {
                manifest_frame(session_id, stamps[i], manifest)
            } else if i < order.len() + 2 {
                data_frame(
                    session_id,
                    order[i - 2] as u32,
                    stamps[i],
                    block_bytes(content, block_size as int, order[i - 2]),
                )
            } else {
                close_frame(
                    session_id,
                    (FIRST_DATA_SEQ + manifest.block_count) as u32,
                    stamps[i],
                    manifest.block_count,
                )
            },
    )
}

/// What a sender emits for `content` from its handshake to its close, the
/// message at index `i` stamped `stamps[i]`: the handshake, the manifest,
/// one data message for each block in ascending order, the close.
pub open spec fn transmission(
    content: Seq<u8>,
    block_size: u32,
    session_id: u32,
    stamps: Seq<u32>,
) -> Seq<Seq<u8>> {
    arrival(
        content,
        block_size,
        session_id,
        Seq::new(blocks_in(content.len() as int, block_size as int) as nat, |i: int| i),
        stamps,
    )
}

/// Every entry of `order` is the index of one of `count` blocks, and each
/// of the blocks is among them.
pub open spec fn covers(order: Seq<int>, count: int) -> bool {
    &&& forall|i: int| 0 <= i < order.len() ==> 0 <= #[trigger] order[i] < count
    &&& forall|b: int| 0 <= b < count ==> order.contains(b)
}

/// The byte `at` of the file lies in the block `block_index`.
pub open spec fn lies_in(at: int, block_index: int, file_size: int, block_size: int) -> bool {
    position(block_index, 0, block_size) <= at < position(block_index, 0, block_size) + block_len(
        file_size,
        block_size,
        block_index,
    )
}

/// The receiver in the middle of a transfer of `content`.
pub open spec fn transferring(content: Seq<u8>, block_size: u32, session_id: u32) -> ReceiverView {
    ReceiverView {
        state: ReceiverState::Transferring,
        session_id,
        manifest: Some(manifest_of(content, block_size)),
    }
}

/// Taking one more datagram is one more transition.
proof fn lemma_delivered_step(
    receiver: ReceiverView,
    file: Seq<u8>,
    datagrams: Seq<Seq<u8>>,
    stamps: Seq<u32>,
    k: int,
)
    requires
        0 <= k < datagrams.len(),
    ensures
        delivered(receiver, file, datagrams.take(k + 1), stamps) == ({
            let before = delivered(receiver, file, datagrams.take(k), stamps);
            let step = before.0.receive(datagrams[k], stamps[k]);
            (step.0, carried_out(before.1, step.1))
        }),
{
    reveal(delivered);
    assert(datagrams.take(k + 1).drop_last() =~= datagrams.take(k));
    assert(datagrams.take(k + 1).last() == datagrams[k]);
}

/// A listening receiver that takes the sender's handshake and manifest is
/// in the transfer, with the manifest of the content, and the file was made
/// with the content's length.
proof fn lemma_opening(
    content: Seq<u8>,
    block_size: u32,
    session_id: u32,
    order: Seq<int>,
    sent: Seq<u32>,
    taken: Seq<u32>,
)
    requires
        transferable(content, block_size),
    ensures
        ({
            let d = delivered(
                ReceiverView::listening(),
                Seq::<u8>::empty(),
                arrival(content, block_size, session_id, order, sent).take(2),
                taken,
            );
            &&& d.0 == transferring(content, block_size, session_id)
            &&& d.1.len() == content.len()
        }),
{
    let all = arrival(content, block_size, session_id, order, sent);
    let manifest = manifest_of(content, block_size);
    let start = ReceiverView::listening();
    let hello = HandshakeView {
        flags: 0,
        public_key: Seq::<u8>::empty(),
        max_segment: MAX_DATAGRAM,
    };
    lemma_manifest_of_wf(content, block_size);
    assert(all.take(0) =~= Seq::<Seq<u8>>::empty());
    assert(delivered(start, Seq::<u8>::empty(), all.take(0), taken) == (
        start,
        Seq::<u8>::empty(),
    )) by {
        reveal(delivered);
    }
    lemma_delivered_step(start, Seq::<u8>::empty(), all, taken, 0);
    lemma_frame_parts(MessageType::Handshake, session_id, 0, sent[0], hello.encoding());
    lemma_handshake_roundtrip(hello, Seq::<u8>::empty());
    assert(hello.encoding() + Seq::<u8>::empty() == hello.encoding());
    let first = delivered(start, Seq::<u8>::empty(), all.take(1), taken);
    assert(first.0 == ReceiverView {
        state: ReceiverState::AwaitingManifest,
        session_id,
        manifest: None,
    });
    lemma_delivered_step(start, Seq::<u8>::empty(), all, taken, 1);
    lemma_frame_parts(
        MessageType::Manifest,
        session_id,
        MANIFEST_SEQ,
        sent[1],
        manifest.encoding(),
    );
    lemma_manifest_roundtrip(manifest, Seq::<u8>::empty());
    assert(manifest.encoding() + Seq::<u8>::empty() == manifest.encoding());
}

/// A receiver in the transfer of a content that takes the sender's data
/// message for one of the content's blocks asks for that block to be written
/// at the block's place, found intact, and stays as it is.
pub proof fn lemma_block_is_written(
    content: Seq<u8>,
    block_size: u32,
    session_id: u32,
    echoed: u32,
    block_index: int,
    sent_at: u32,
    taken_at: u32,
)
    requires
        transferable(content, block_size),
        0 <= block_index < blocks_in(content.len() as int, block_size as int),
    ensures
        transferring(content, block_size, echoed).receive(
            data_frame(
                session_id,
                block_index as u32,
                sent_at,
                block_bytes(content, block_size as int, block_index),
            ),
            taken_at,
        ) == (
            transferring(content, block_size, echoed),
            ReceiverActionView::Write {
                position: position(block_index, 0, block_size as int) as u64,
                bytes: block_bytes(content, block_size as int, block_index),
                intact: true,
            },
        ),
        position(block_index, 0, block_size as int) + block_bytes(
            content,
            block_size as int,
            block_index,
        ).len() <= content.len(),
        0 <= position(block_index, 0, block_size as int),
{
    let manifest = manifest_of(content, block_size);
    let block = block_bytes(content, block_size as int, block_index);
    let d = DataView { block_index: block_index as u32, intra_offset: 0, bytes: block };
    lemma_manifest_of_wf(content, block_size);
    lemma_block_len(content.len() as int, block_size as int, block_index);
    assert(0 <= position(block_index, 0, block_size as int)) by (nonlinear_arith)
        requires
            0 <= block_index,
            0 <= block_size,
    ;
    assert(block.len() == block_len(content.len() as int, block_size as int, block_index));
    lemma_frame_parts(
        MessageType::Data,
        session_id,
        (FIRST_DATA_SEQ + block_index as u32) as u32,
        sent_at,
        d.encoding(),
    );
    lemma_data_roundtrip(d, Seq::<u8>::empty());
    assert(d.encoding() + Seq::<u8>::empty() == d.encoding());
    lemma_own_blocks_verify(content, block_size, block_index);
    assert(manifest.admits(d));
    assert(manifest.confirms(d));
}

/// Where the receiver is in the transfer, the next data message has its
/// block written at the block's place, and the receiver stays in the
/// transfer.
proof fn lemma_next_block_arrives(
    content: Seq<u8>,
    block_size: u32,
    session_id: u32,
    order: Seq<int>,
    sent: Seq<u32>,
    taken: Seq<u32>,
    j: int,
)
    requires
        transferable(content, block_size),
        0 <= j < order.len(),
        0 <= order[j] < blocks_in(content.len() as int, block_size as int),
        delivered(
            ReceiverView::listening(),
            Seq::<u8>::empty(),
            arrival(content, block_size, session_id, order, sent).take(2 + j),
            taken,
        ).0 == transferring(content, block_size, session_id),
    ensures
        delivered(
            ReceiverView::listening(),
            Seq::<u8>::empty(),
            arrival(content, block_size, session_id, order, sent).take(3 + j),
            taken,
        ) == (
            transferring(content, block_size, session_id),
            written(
                delivered(
                    ReceiverView::listening(),
                    Seq::<u8>::empty(),
                    arrival(content, block_size, session_id, order, sent).take(2 + j),
                    taken,
                ).1,
                position(order[j], 0, block_size as int),
                block_bytes(content, block_size as int, order[j]),
            ),
        ),
{
    let all = arrival(content, block_size, session_id, order, sent);
    let b = order[j];
    lemma_delivered_step(ReceiverView::listening(), Seq::<u8>::empty(), all, taken, 2 + j);
    lemma_block_is_written(
        content,
        block_size,
        session_id,
        session_id,
        b,
        sent[2 + j],
        taken[2 + j],
    );
    assert(all[2 + j] == data_frame(
        session_id,
        b as u32,
        sent[2 + j],
        block_bytes(content, block_size as int, b),
    ));
}

/// After the handshake, the manifest and the first `k` data messages, the
/// receiver is in the transfer and the file agrees with the content in
/// every block that has come.
proof fn lemma_blocks_arrive(
    content: Seq<u8>,
    block_size: u32,
    session_id: u32,
    order: Seq<int>,
    sent: Seq<u32>,
    taken: Seq<u32>,
    k: int,
)
    requires
        transferable(content, block_size),
        forall|i: int|
            0 <= i < order.len() ==> 0 <= #[trigger] order[i] < blocks_in(
                content.len() as int,
                block_size as int,
            ),
        0 <= k <= order.len(),
    ensures
        ({
            let d = delivered(
                ReceiverView::listening(),
                Seq::<u8>::empty(),
                arrival(content, block_size, session_id, order, sent).take(2 + k),
                taken,
            );
            &&& d.0 == transferring(content, block_size, session_id)
            &&& d.1.len() == content.len()
            &&& forall|i: int, at: int|
                0 <= i < k && #[trigger] lies_in(
                    at,
                    order[i],
                    content.len() as int,
                    block_size as int,
                ) ==> d.1[at] == content[at]
        }),
    decreases k,
{
    let size = block_size as int;
    let len = content.len() as int;
    if k == 0 {
        lemma_opening(content, block_size, session_id, order, sent, taken);
    } else {
        let j = k - 1;
        let b = order[j];
        lemma_blocks_arrive(content, block_size, session_id, order, sent, taken, j);
        lemma_next_block_arrives(content, block_size, session_id, order, sent, taken, j);
        let before = delivered(
            ReceiverView::listening(),
            Seq::<u8>::empty(),
            arrival(content, block_size, session_id, order, sent).take(2 + j),
            taken,
        ).1;
        let after = delivered(
            ReceiverView::listening(),
            Seq::<u8>::empty(),
            arrival(content, block_size, session_id, order, sent).take(2 + k),
            taken,
        ).1;
        assert(after == written(
            before,
            position(b, 0, size),
            block_bytes(content, size, b),
        ));
        lemma_agreement_grows(before, after, content, size, order, j);
    }
}

/// Writing one more block at its place keeps the file in agreement with
/// the content in the blocks that came before, and brings it into
/// agreement in the block written.
proof fn lemma_agreement_grows(
    before: Seq<u8>,
    after: Seq<u8>,
    content: Seq<u8>,
    block_size: int,
    order: Seq<int>,
    j: int,
)
    requires
        0 < block_size,
        0 <= j < order.len(),
        forall|i: int|
            0 <= i < order.len() ==> 0 <= #[trigger] order[i] < blocks_in(
                content.len() as int,
                block_size,
            ),
        before.len() == content.len(),
        forall|i: int, at: int|
            0 <= i < j && #[trigger] lies_in(at, order[i], content.len() as int, block_size)
                ==> before[at] == content[at],
        after == written(
            before,
            position(order[j], 0, block_size),
            block_bytes(content, block_size, order[j]),
        ),
    ensures
        after.len() == content.len(),
        forall|i: int, at: int|
            0 <= i < j + 1 && #[trigger] lies_in(at, order[i], content.len() as int, block_size)
                ==> after[at] == content[at],
{
    let len = content.len() as int;
    let b = order[j];
    let block = block_bytes(content, block_size, b);
    let from = position(b, 0, block_size);
    lemma_block_len(len, block_size, b);
    assert(0 <= from) by (nonlinear_arith)
        requires
            from == b * block_size + 0,
            0 <= b,
            0 < block_size,
    ;
    assert(after.len() == len);
    assert forall|i: int, at: int|
        0 <= i < j + 1 && #[trigger] lies_in(at, order[i], len, block_size) implies after[at]
        == content[at] by {
        lemma_block_holds_byte(len, block_size, order[i], at);
        if i < j {
            assert(before[at] == content[at]);
        }
        lemma_written_agrees(before, content, from, block, at);
    }
}

/// A byte that lies in a block of a file lies in the file.
proof fn lemma_block_holds_byte(file_size: int, block_size: int, block_index: int, at: int)
    requires
        0 <= file_size,
        0 < block_size,
        0 <= block_index < blocks_in(file_size, block_size),
        lies_in(at, block_index, file_size, block_size),
    ensures
        0 <= at < file_size,
{
    lemma_block_len(file_size, block_size, block_index);
    assert(0 <= block_index * block_size) by (nonlinear_arith)
        requires
            0 <= block_index,
            0 < block_size,
    ;
}

/// Writing a stretch of the content at its place makes the file agree with
/// the content there, and leaves it as it was elsewhere.
proof fn lemma_written_agrees(
    file: Seq<u8>,
    content: Seq<u8>,
    from: int,
    bytes: Seq<u8>,
    at: int,
)
    requires
        file.len() == content.len(),
        0 <= from,
        from + bytes.len() <= content.len(),
        bytes == content.subrange(from, from + bytes.len()),
        0 <= at < content.len(),
        from <= at < from + bytes.len() || file[at] == content[at],
    ensures
        written(file, from, bytes).len() == file.len(),
        written(file, from, bytes)[at] == content[at],
{
}

/// Every byte of a file lies in one of its blocks.
proof fn lemma_byte_has_block(file_size: int, block_size: int, at: int)
    requires
        0 < block_size,
        0 <= at < file_size,
    ensures
        0 <= at / block_size < blocks_in(file_size, block_size),
        lies_in(at, at / block_size, file_size, block_size),
{
    let b = at / block_size;
    vstd::arithmetic::div_mod::lemma_fundamental_div_mod(at, block_size);
    lemma_blocks_bounds(file_size, block_size);
    let n = blocks_in(file_size, block_size);
    assert(0 <= b && b < n) by (nonlinear_arith)
        requires
            at == block_size * b + at % block_size,
            0 <= at % block_size < block_size,
            0 <= at < file_size,
            file_size <= n * block_size,
            0 < block_size,
    ;
    assert(position(b, 0, block_size) == block_size * b) by (nonlinear_arith);
}

/// The blocks of a file may come in any order, and any of them more than
/// once: as long as each comes, the receiver ends with the sender's file.
///
/// Let a receiver that listens take the handshake, the manifest, the data
/// messages of the blocks in the order `order` and the close, and let each of
/// its actions be carried out on the destination file. If every block of
/// `content` is in `order`, the file is then `content`, and the receiver has
/// reached the state in which it acknowledges the close.
pub proof fn lemma_any_order_delivers_file(
    content: Seq<u8>,
    block_size: u32,
    session_id: u32,
    order: Seq<int>,
    sent: Seq<u32>,
    taken: Seq<u32>,
)
    requires
        transferable(content, block_size),
        covers(order, blocks_in(content.len() as int, block_size as int)),
    ensures
        delivered(
            ReceiverView::listening(),
            Seq::<u8>::empty(),
            arrival(content, block_size, session_id, order, sent),
            taken,
        ) == (transferring(content, block_size, session_id).at(ReceiverState::Closing), content),
{
    let all = arrival(content, block_size, session_id, order, sent);
    let start = ReceiverView::listening();
    let size = block_size as int;
    let len = content.len() as int;
    let k = order.len() as int;
    let manifest = manifest_of(content, block_size);
    lemma_blocks_arrive(content, block_size, session_id, order, sent, taken, k);
    lemma_delivered_step(start, Seq::<u8>::empty(), all, taken, 2 + k);
    assert(all.take(3 + k) =~= all);
    lemma_frame_parts(
        MessageType::Close,
        session_id,
        (FIRST_DATA_SEQ + manifest.block_count) as u32,
        sent[2 + k],
        (Close { block_count: manifest.block_count, status: 0 }).encoding(),
    );
    let end = delivered(start, Seq::<u8>::empty(), all, taken);
    let before = delivered(start, Seq::<u8>::empty(), all.take(2 + k), taken);
    assert(end.1 == before.1);
    assert forall|at: int| 0 <= at < len implies end.1[at] == content[at] by {
        lemma_byte_has_block(len, size, at);
        let b = at / size;
        assert(order.contains(b));
        let i = choose|i: int| 0 <= i < order.len() && order[i] == b;
        assert(lies_in(at, order[i], len, size));
    }
    assert(end.1 =~= content);
}

/// One whole session gives the receiver the sender's file, byte for byte.
///
/// Let a receiver that listens take, in their order, the messages that a
/// sender emits for `content` (handshake, manifest, one data message for
/// each block, close) and let each of its actions be carried out on the
/// destination file. Then the file is `content`, and the receiver has
/// reached the state in which it acknowledges the close. This holds for
/// every content that can be sent, every block size, session id and
/// timestamps.
pub proof fn lemma_session_delivers_file(
    content: Seq<u8>,
    block_size: u32,
    session_id: u32,
    sent: Seq<u32>,
    taken: Seq<u32>,
)
    requires
        transferable(content, block_size),
    ensures
        delivered(
            ReceiverView::listening(),
            Seq::<u8>::empty(),
            transmission(content, block_size, session_id, sent),
            taken,
        ) == (transferring(content, block_size, session_id).at(ReceiverState::Closing), content),
{
    let n = blocks_in(content.len() as int, block_size as int);
    let order = Seq::new(n as nat, |i: int| i);
    lemma_blocks_bounds(content.len() as int, block_size as int);
    assert forall|b: int| 0 <= b < n implies order.contains(b) by {
        assert(order[b] == b);
    }
    lemma_any_order_delivers_file(content, block_size, session_id, order, sent, taken);
}

/// Each reply of the receiver is the message that the sender waits for when
/// it arrives: the handshake brings the manifest, the acknowledgment the
/// blocks, the close acknowledgment the end of the session. The session id
/// and the timestamp of the reply make no difference.
pub proof fn lemma_replies_advance_sender(s: SenderView, echoed: u32, replied_at: u32, now: u32)
    ensures
        s.state == SenderState::AwaitingHandshakeResponse ==> s.receive(
            handshake_frame(echoed, replied_at),
            now,
        ) == s.advance(now),
        s.state == SenderState::AwaitingManifestAck ==> s.receive(
            ack_frame(echoed, replied_at),
            now,
        ) == s.advance(now),
        s.state == SenderState::AwaitingCloseAck ==> s.receive(
            close_frame(echoed, 0, replied_at, 0),
            now,
        ) == s.advance(now),
{
    lemma_frame_parts(
        MessageType::Handshake,
        echoed,
        0,
        replied_at,
        (HandshakeView {
            flags: 0,
            public_key: Seq::<u8>::empty(),
            max_segment: MAX_DATAGRAM,
        }).encoding(),
    );
    lemma_frame_parts(
        MessageType::Ack,
        echoed,
        0,
        replied_at,
        (AckView { window: ACK_WINDOW, bitmap: Seq::<u8>::empty(), cumulative_ack: 0 }).encoding(),
    );
    lemma_frame_parts(
        MessageType::Close,
        echoed,
        0,
        replied_at,
        (Close { block_count: 0, status: 0 }).encoding(),
    );
}

} // verus!
