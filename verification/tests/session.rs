use pftp::frame::build_handshake;
use pftp::header::{Header, HEADER_LEN, TYPE_CLOSE, TYPE_DATA, TYPE_HANDSHAKE, TYPE_MANIFEST};
use pftp::manifest::Manifest;
use pftp::payload::{Close, Data};
use pftp::receiver::{Receiver, ReceiverAction, ReceiverState};
use pftp::sender::{Sender, SenderAction, SenderState};

/// What one session left behind.
struct Outcome {
    /// The destination file; `None` if it was never made.
    file: Option<Vec<u8>>,
    /// Type code of each message that the sender sent.
    sent: Vec<u8>,
    /// Position and length of each write.
    writes: Vec<(u64, usize)>,
    /// Whether every write was found intact.
    intact: bool,
    sender: SenderState,
    receiver: ReceiverState,
}

fn carry_out(file: &mut Option<Vec<u8>>, position: u64, bytes: &[u8]) {
    let f = file.as_mut().unwrap();
    let start = position as usize;
    if f.len() < start + bytes.len() {
        f.resize(start + bytes.len(), 0);
    }
    f[start..start + bytes.len()].copy_from_slice(bytes);
}

/// Runs a sender and a receiver against each other, with a lossless
/// transport that keeps the order, the way the two programs would.
fn run(content: &[u8], block_size: u32) -> Outcome {
    let manifest = Manifest::build(content, block_size).unwrap();
    let mut sender = Sender::new(0x1234_5678, manifest).unwrap();
    let mut receiver = Receiver::new();
    receiver.listen();
    let mut out = Outcome {
        file: None,
        sent: Vec::new(),
        writes: Vec::new(),
        intact: true,
        sender: SenderState::Idle,
        receiver: ReceiverState::Idle,
    };
    let mut clock = 0u32;
    let mut tick = || {
        clock += 1;
        clock
    };

    let hello = sender.handshake(tick()).unwrap();
    out.sent.push(hello[1]);
    let reply = match receiver.on_datagram(&hello, tick()) {
        ReceiverAction::Reply { frame } => frame,
        other => panic!("unexpected action {:?}", other),
    };
    let manifest_message = match sender.on_datagram(&reply, tick()) {
        SenderAction::Send { frame } => frame,
        other => panic!("unexpected action {:?}", other),
    };
    out.sent.push(manifest_message[1]);
    let ack = match receiver.on_datagram(&manifest_message, tick()) {
        ReceiverAction::Allocate { file_size, frame } => {
            out.file = Some(vec![0; file_size as usize]);
            frame
        }
        other => panic!("unexpected action {:?}", other),
    };
    assert!(matches!(sender.on_datagram(&ack, tick()), SenderAction::Transfer));

    while let Some((start, len)) = sender.pending_block() {
        let block = &content[start as usize..start as usize + len as usize];
        let message = sender.data(block, tick()).unwrap();
        out.sent.push(message[1]);
        match receiver.on_datagram(&message, tick()) {
            ReceiverAction::Write { position, bytes, intact } => {
                out.writes.push((position, bytes.len()));
                out.intact = out.intact && intact;
                carry_out(&mut out.file, position, &bytes);
            }
            other => panic!("unexpected action {:?}", other),
        }
    }

    let close = sender.close(tick()).unwrap();
    out.sent.push(close[1]);
    assert!(matches!(receiver.on_datagram(&close, tick()), ReceiverAction::Finish));
    let close_ack = receiver.close_ack(tick()).unwrap();
    assert!(matches!(sender.on_datagram(&close_ack, tick()), SenderAction::Done));
    out.sender = sender.state();
    out.receiver = receiver.state();
    out
}

#[test]
fn transfer_small_file() {
    let sent = b"hello world".to_vec();
    let out = run(&sent, 1024);
    assert_eq!(out.sender, SenderState::Closed);
    assert_eq!(out.receiver, ReceiverState::Closed);
    let recv = out.file.unwrap();
    assert_eq!(sent, recv);
}

#[test]
fn a_file_of_2500_bytes_goes_over_in_three_blocks() {
    let content: Vec<u8> = (0..2500).map(|i| (i * 17 % 256) as u8).collect();
    let out = run(&content, 1024);
    assert_eq!(
        out.sent,
        vec![TYPE_HANDSHAKE, TYPE_MANIFEST, TYPE_DATA, TYPE_DATA, TYPE_DATA, TYPE_CLOSE]
    );
    assert_eq!(out.writes, vec![(0, 1024), (1024, 1024), (2048, 452)]);
    assert!(out.intact);
    assert_eq!(out.file.unwrap(), content);
    assert_eq!(out.sender, SenderState::Closed);
    assert_eq!(out.receiver, ReceiverState::Closed);
}

#[test]
fn an_empty_file_goes_over_without_data() {
    let out = run(&[], 1024);
    assert_eq!(out.sent, vec![TYPE_HANDSHAKE, TYPE_MANIFEST, TYPE_CLOSE]);
    assert!(out.writes.is_empty());
    assert_eq!(out.file, Some(Vec::new()));
    assert_eq!(out.sender, SenderState::Closed);
    assert_eq!(out.receiver, ReceiverState::Closed);
}

#[test]
fn an_empty_file_has_a_manifest_without_blocks_and_a_close_with_sequence_two() {
    let manifest = Manifest::build(&[], 1024).unwrap();
    assert_eq!(manifest.block_count(), 0);
    let mut sender = Sender::new(1, manifest).unwrap();
    sender.handshake(0).unwrap();
    sender.on_datagram(&build_handshake(1, 0), 0);
    let mut ack = build_handshake(1, 0);
    ack[1] = 0x03;
    assert!(matches!(sender.on_datagram(&ack, 0), SenderAction::Transfer));
    assert_eq!(sender.pending_block(), None);
    let close = sender.close(0).unwrap();
    assert_eq!(Header::read_from(&close).unwrap().seq, 2);
    assert_eq!(
        Close::read_from(&close[HEADER_LEN..]),
        Ok(Close { block_count: 0, status: 0 })
    );
}

#[test]
fn every_content_arrives_byte_for_byte() {
    for len in [1usize, 2, 15, 16, 17, 31, 32, 33, 255, 1000, 4096, 5000] {
        for block_size in [1u32, 2, 16, 17, 1024, 65535] {
            if len > 300 && block_size < 16 {
                continue;
            }
            let content: Vec<u8> =
                (0..len).map(|i| (i * 131 + len + block_size as usize) as u8).collect();
            let out = run(&content, block_size);
            assert!(out.intact);
            assert_eq!(out.writes.len(), (len + block_size as usize - 1) / block_size as usize);
            assert_eq!(out.file.as_deref(), Some(&content[..]));
        }
    }
}

#[test]
fn blocks_that_arrive_out_of_order_still_give_the_file() {
    let content: Vec<u8> = (0..2500).map(|i| (i % 251) as u8).collect();
    let manifest = Manifest::build(&content, 1024).unwrap();
    let mut sender = Sender::new(5, manifest).unwrap();
    let mut receiver = Receiver::new();
    receiver.listen();
    let hello = sender.handshake(0).unwrap();
    let reply = match receiver.on_datagram(&hello, 0) {
        ReceiverAction::Reply { frame } => frame,
        other => panic!("unexpected action {:?}", other),
    };
    let manifest_message = match sender.on_datagram(&reply, 0) {
        SenderAction::Send { frame } => frame,
        other => panic!("unexpected action {:?}", other),
    };
    let mut file = match receiver.on_datagram(&manifest_message, 0) {
        ReceiverAction::Allocate { file_size, frame } => {
            sender.on_datagram(&frame, 0);
            Some(vec![0u8; file_size as usize])
        }
        other => panic!("unexpected action {:?}", other),
    };
    let mut messages = Vec::new();
    while let Some((start, len)) = sender.pending_block() {
        let block = &content[start as usize..start as usize + len as usize];
        messages.push(sender.data(block, 0).unwrap());
    }
    assert_eq!(messages.len(), 3);
    for i in [2usize, 0, 1, 0] {
        let d = Data::read_from(&messages[i][HEADER_LEN..]).unwrap();
        assert_eq!(d.block_index(), i as u32);
        match receiver.on_datagram(&messages[i], 0) {
            ReceiverAction::Write { position, bytes, intact } => {
                assert_eq!(position, i as u64 * 1024);
                assert!(intact);
                carry_out(&mut file, position, &bytes);
            }
            other => panic!("unexpected action {:?}", other),
        }
    }
    assert_eq!(file.unwrap(), content);
}
