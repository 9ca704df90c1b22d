use pftp::error::{FrameError, ProtocolError};
use pftp::frame::{build_close, build_data, build_handshake, build_manifest};
use pftp::header::{Header, MessageType, HEADER_LEN, TYPE_ACK, TYPE_CLOSE, TYPE_HANDSHAKE};
use pftp::manifest::Manifest;
use pftp::payload::{Ack, Close, Data, Handshake};
use pftp::receiver::{Receiver, ReceiverAction, ReceiverState};

fn sample(len: usize) -> Vec<u8> {
    (0..len).map(|i| (i * 7 % 253) as u8).collect()
}

fn data_message(index: u32, offset: u32, bytes: &[u8]) -> Vec<u8> {
    let d = Data::new(index, offset, bytes.to_vec()).unwrap();
    build_data(9, 2 + index, 0, &d)
}

fn in_transfer(content: &[u8], block_size: u32) -> Receiver {
    let mut r = Receiver::new();
    r.listen();
    assert!(matches!(
        r.on_datagram(&build_handshake(9, 0), 1),
        ReceiverAction::Reply { .. }
    ));
    let m = Manifest::build(content, block_size).unwrap();
    assert!(matches!(
        r.on_datagram(&build_manifest(9, 0, &m), 2),
        ReceiverAction::Allocate { .. }
    ));
    assert_eq!(r.state(), ReceiverState::Transferring);
    r
}

#[test]
fn a_new_receiver_is_idle_until_it_listens() {
    let mut r = Receiver::new();
    assert_eq!(r.state(), ReceiverState::Idle);
    assert!(r.manifest().is_none());
    let a = r.on_datagram(&build_handshake(1, 0), 0);
    assert!(matches!(a, ReceiverAction::Skip { reason: ProtocolError::Sequence }));
    assert_eq!(r.state(), ReceiverState::Idle);
    r.listen();
    assert_eq!(r.state(), ReceiverState::AwaitingHandshake);
    r.listen();
    assert_eq!(r.state(), ReceiverState::AwaitingHandshake);
}

#[test]
fn the_handshake_is_answered_with_the_same_session_id() {
    let mut r = Receiver::new();
    r.listen();
    let a = r.on_datagram(&build_handshake(0xdead_beef, 5), 77);
    match a {
        ReceiverAction::Reply { frame } => {
            let h = Header::read_from(&frame).unwrap();
            assert_eq!(h, Header::new(MessageType::Handshake, 0xdead_beef, 0, 77));
            assert_eq!(h.typ, TYPE_HANDSHAKE);
            let p = Handshake::read_from(&frame[HEADER_LEN..]).unwrap();
            assert_eq!(p.flags(), 0);
            assert!(p.public_key().is_empty());
            assert_eq!(p.max_segment(), 1500);
            assert_eq!(frame.len(), HEADER_LEN + 4);
        }
        other => panic!("unexpected action {:?}", other),
    }
    assert_eq!(r.state(), ReceiverState::AwaitingManifest);
    assert_eq!(r.session_id(), 0xdead_beef);
}

#[test]
fn a_first_message_that_is_no_handshake_ends_the_session() {
    let m = Manifest::build(b"abc", 4).unwrap();
    let mut r = Receiver::new();
    r.listen();
    let a = r.on_datagram(&build_manifest(1, 0, &m), 0);
    assert!(matches!(a, ReceiverAction::Abort { reason: ProtocolError::Sequence }));
    assert_eq!(r.state(), ReceiverState::Closed);
    let again = r.on_datagram(&build_handshake(1, 0), 0);
    assert!(matches!(again, ReceiverAction::Skip { reason: ProtocolError::Sequence }));
    assert_eq!(r.state(), ReceiverState::Closed);
}

#[test]
fn a_first_message_that_cannot_be_decoded_ends_the_session() {
    let mut short = Receiver::new();
    short.listen();
    let a = short.on_datagram(&[1, 0, 0], 0);
    assert!(matches!(
        a,
        ReceiverAction::Abort { reason: ProtocolError::Frame(FrameError::Truncated) }
    ));
    assert_eq!(short.state(), ReceiverState::Closed);

    let mut version = Receiver::new();
    version.listen();
    let mut f = build_handshake(1, 0);
    f[0] = 2;
    let b = version.on_datagram(&f, 0);
    assert!(matches!(
        b,
        ReceiverAction::Abort { reason: ProtocolError::Frame(FrameError::UnsupportedVersion) }
    ));

    let mut cut = Receiver::new();
    cut.listen();
    let g = build_handshake(1, 0);
    let c = cut.on_datagram(&g[..g.len() - 1], 0);
    assert!(matches!(
        c,
        ReceiverAction::Abort { reason: ProtocolError::Frame(FrameError::Truncated) }
    ));
}

#[test]
fn the_manifest_is_kept_and_acknowledged() {
    let content = sample(2500);
    let m = Manifest::build(&content, 1024).unwrap();
    let mut r = Receiver::new();
    r.listen();
    r.on_datagram(&build_handshake(3, 0), 0);
    let a = r.on_datagram(&build_manifest(4, 0, &m), 99);
    match a {
        ReceiverAction::Allocate { file_size, frame } => {
            assert_eq!(file_size, 2500);
            let h = Header::read_from(&frame).unwrap();
            assert_eq!(h, Header::new(MessageType::Ack, 4, 0, 99));
            assert_eq!(h.typ, TYPE_ACK);
            let p = Ack::read_from(&frame[HEADER_LEN..]).unwrap();
            assert_eq!(p.window(), 32);
            assert!(p.bitmap().is_empty());
            assert_eq!(p.cumulative_ack(), 0);
            assert_eq!(frame.len(), HEADER_LEN + 8);
        }
        other => panic!("unexpected action {:?}", other),
    }
    assert_eq!(r.state(), ReceiverState::Transferring);
    assert_eq!(r.session_id(), 4);
    let kept = r.manifest().unwrap();
    assert_eq!(kept.file_size(), 2500);
    assert_eq!(kept.block_size(), 1024);
    assert_eq!(kept.block_count(), 3);
    assert_eq!(kept.digests(), m.digests());
}

#[test]
fn a_second_message_that_is_no_manifest_ends_the_session() {
    let mut r = Receiver::new();
    r.listen();
    r.on_datagram(&build_handshake(3, 0), 0);
    let a = r.on_datagram(&data_message(0, 0, b"abc"), 0);
    assert!(matches!(a, ReceiverAction::Abort { reason: ProtocolError::Sequence }));
    assert_eq!(r.state(), ReceiverState::Closed);
}

#[test]
fn a_manifest_that_cannot_be_decoded_ends_the_session() {
    let m = Manifest::build(b"abcdefgh", 4).unwrap();
    let f = build_manifest(3, 0, &m);

    let mut cut = Receiver::new();
    cut.listen();
    cut.on_datagram(&build_handshake(3, 0), 0);
    let a = cut.on_datagram(&f[..f.len() - 1], 0);
    assert!(matches!(
        a,
        ReceiverAction::Abort { reason: ProtocolError::Frame(FrameError::Truncated) }
    ));
    assert_eq!(cut.state(), ReceiverState::Closed);

    let mut bad = Receiver::new();
    bad.listen();
    bad.on_datagram(&build_handshake(3, 0), 0);
    let mut g = f.clone();
    g[HEADER_LEN + 11] = 0;
    let b = bad.on_datagram(&g, 0);
    assert!(matches!(
        b,
        ReceiverAction::Abort { reason: ProtocolError::Frame(FrameError::InconsistentManifest) }
    ));
    assert_eq!(bad.state(), ReceiverState::Closed);
}

#[test]
fn data_is_written_at_the_place_of_its_block() {
    let content = sample(2500);
    let mut r = in_transfer(&content, 1024);
    for (index, range) in [(1u32, 1024..2048usize), (0, 0..1024), (2, 2048..2500)] {
        let a = r.on_datagram(&data_message(index, 0, &content[range.clone()]), 0);
        match a {
            ReceiverAction::Write { position, bytes, intact } => {
                assert_eq!(position, range.start as u64);
                assert_eq!(bytes, &content[range]);
                assert!(intact);
            }
            other => panic!("unexpected action {:?}", other),
        }
        assert_eq!(r.state(), ReceiverState::Transferring);
    }
}

#[test]
fn a_block_with_another_digest_is_written_and_marked() {
    let content = sample(2500);
    let mut r = in_transfer(&content, 1024);
    let mut wrong = content[0..1024].to_vec();
    wrong[100] ^= 0xff;
    match r.on_datagram(&data_message(0, 0, &wrong), 0) {
        ReceiverAction::Write { position, bytes, intact } => {
            assert_eq!(position, 0);
            assert_eq!(bytes, wrong);
            assert!(!intact);
        }
        other => panic!("unexpected action {:?}", other),
    }
}

#[test]
fn a_fragment_is_written_at_its_offset() {
    let content = sample(2500);
    let mut r = in_transfer(&content, 1024);
    match r.on_datagram(&data_message(1, 24, &content[1048..1148]), 0) {
        ReceiverAction::Write { position, bytes, intact } => {
            assert_eq!(position, 1048);
            assert_eq!(bytes, &content[1048..1148]);
            assert!(!intact);
        }
        other => panic!("unexpected action {:?}", other),
    }
    match r.on_datagram(&data_message(2, 451, &[7]), 0) {
        ReceiverAction::Write { position, bytes, .. } => {
            assert_eq!(position, 2499);
            assert_eq!(bytes, vec![7]);
        }
        other => panic!("unexpected action {:?}", other),
    }
}

#[test]
fn data_outside_the_manifest_is_refused() {
    let content = sample(2500);
    let mut r = in_transfer(&content, 1024);
    let outside = [
        data_message(3, 0, &content[0..10]),
        data_message(3, 0, &[]),
        data_message(u32::MAX, 0, &content[0..10]),
        data_message(2, 0, &content[0..453]),
        data_message(2, 452, &[1]),
        data_message(0, 1, &content[0..1024]),
        data_message(0, 1024, &[1]),
        data_message(1, u32::MAX, &[1]),
    ];
    for f in outside.iter() {
        let a = r.on_datagram(f, 0);
        assert!(
            matches!(a, ReceiverAction::Skip { reason: ProtocolError::OutOfRange }),
            "unexpected action {:?}",
            a
        );
        assert_eq!(r.state(), ReceiverState::Transferring);
    }
    let a = r.on_datagram(&data_message(2, 0, &content[2048..2500]), 0);
    assert!(matches!(a, ReceiverAction::Write { position: 2048, intact: true, .. }));
}

#[test]
fn no_write_reaches_past_the_file() {
    let content = sample(100);
    let mut r = in_transfer(&content, 16);
    for index in 0..9u32 {
        for offset in 0..20u32 {
            for len in 0..20usize {
                let a = r.on_datagram(&data_message(index, offset, &vec![1; len]), 0);
                if let ReceiverAction::Write { position, bytes, .. } = a {
                    assert!(position + bytes.len() as u64 <= 100);
                    assert_eq!(position, index as u64 * 16 + offset as u64);
                    assert!(offset as usize + len <= 16);
                }
            }
        }
    }
}

#[test]
fn with_no_blocks_every_data_message_is_refused() {
    let mut r = in_transfer(&[], 1024);
    let a = r.on_datagram(&data_message(0, 0, &[]), 0);
    assert!(matches!(a, ReceiverAction::Skip { reason: ProtocolError::OutOfRange }));
    let b = r.on_datagram(&data_message(0, 0, &[1]), 0);
    assert!(matches!(b, ReceiverAction::Skip { reason: ProtocolError::OutOfRange }));
}

#[test]
fn other_types_are_passed_over_during_the_transfer() {
    let content = sample(10);
    let mut r = in_transfer(&content, 4);
    let m = Manifest::build(&content, 4).unwrap();
    let mut unknown = build_handshake(9, 0);
    unknown[1] = 0x04;
    let mut later = build_handshake(9, 0);
    later[1] = 0xff;
    for f in [build_handshake(9, 0), build_manifest(9, 0, &m), unknown, later] {
        let a = r.on_datagram(&f, 0);
        assert!(matches!(a, ReceiverAction::Skip { reason: ProtocolError::Sequence }));
        assert_eq!(r.state(), ReceiverState::Transferring);
    }
}

#[test]
fn bytes_that_cannot_be_decoded_end_the_transfer() {
    let content = sample(10);
    let mut short = in_transfer(&content, 4);
    let a = short.on_datagram(&[1, 2], 0);
    assert!(matches!(
        a,
        ReceiverAction::Abort { reason: ProtocolError::Frame(FrameError::Truncated) }
    ));
    assert_eq!(short.state(), ReceiverState::Closed);

    let mut cut = in_transfer(&content, 4);
    let f = data_message(0, 0, &content[0..4]);
    let b = cut.on_datagram(&f[..f.len() - 1], 0);
    assert!(matches!(
        b,
        ReceiverAction::Abort { reason: ProtocolError::Frame(FrameError::Truncated) }
    ));
    assert_eq!(cut.state(), ReceiverState::Closed);

    let mut version = in_transfer(&content, 4);
    let mut g = data_message(0, 0, &content[0..4]);
    g[0] = 0;
    let c = version.on_datagram(&g, 0);
    assert!(matches!(
        c,
        ReceiverAction::Abort { reason: ProtocolError::Frame(FrameError::UnsupportedVersion) }
    ));
}

#[test]
fn a_close_ends_the_transfer_and_is_acknowledged() {
    let content = sample(10);
    let mut r = in_transfer(&content, 4);
    assert!(r.close_ack(5).is_none());
    assert_eq!(r.state(), ReceiverState::Transferring);
    let a = r.on_datagram(&build_close(9, 5, 0, 3), 0);
    assert!(matches!(a, ReceiverAction::Finish));
    assert_eq!(r.state(), ReceiverState::Closing);
    let late = r.on_datagram(&data_message(0, 0, &content[0..4]), 0);
    assert!(matches!(late, ReceiverAction::Skip { reason: ProtocolError::Sequence }));
    let frame = r.close_ack(123).unwrap();
    let h = Header::read_from(&frame).unwrap();
    assert_eq!(h, Header::new(MessageType::Close, 9, 0, 123));
    assert_eq!(h.typ, TYPE_CLOSE);
    assert_eq!(
        Close::read_from(&frame[HEADER_LEN..]),
        Ok(Close { block_count: 0, status: 0 })
    );
    assert_eq!(r.state(), ReceiverState::Closed);
    assert!(r.close_ack(124).is_none());
}

#[test]
fn a_close_without_payload_still_ends_the_transfer() {
    let content = sample(10);
    let mut r = in_transfer(&content, 4);
    let f = build_close(9, 5, 0, 3);
    let a = r.on_datagram(&f[..HEADER_LEN], 0);
    assert!(matches!(a, ReceiverAction::Finish));
    assert_eq!(r.state(), ReceiverState::Closing);
}
