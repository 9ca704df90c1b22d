use pftp::error::{FrameError, SetupError};
use pftp::manifest::{Manifest, ManifestBuilder, DIGEST_LEN, HASH_SHA256, MANIFEST_FIXED_LEN};
use sha2::{Digest, Sha256};

const SHA256_EMPTY: [u8; 32] = [
    0xe3, 0xb0, 0xc4, 0x42, 0x98, 0xfc, 0x1c, 0x14, 0x9a, 0xfb, 0xf4, 0xc8, 0x99, 0x6f, 0xb9, 0x24,
    0x27, 0xae, 0x41, 0xe4, 0x64, 0x9b, 0x93, 0x4c, 0xa4, 0x95, 0x99, 0x1b, 0x78, 0x52, 0xb8, 0x55,
];

const SHA256_ABC: [u8; 32] = [
    0xba, 0x78, 0x16, 0xbf, 0x8f, 0x01, 0xcf, 0xea, 0x41, 0x41, 0x40, 0xde, 0x5d, 0xae, 0x22, 0x23,
    0xb0, 0x03, 0x61, 0xa3, 0x96, 0x17, 0x7a, 0x9c, 0xb4, 0x10, 0xff, 0x61, 0xf2, 0x00, 0x15, 0xad,
];

fn sample(len: usize) -> Vec<u8> {
    (0..len).map(|i| (i * 31 % 251) as u8).collect()
}

#[test]
fn the_digest_of_a_block_is_its_sha256() {
    let m = Manifest::build(b"abc", 1024).unwrap();
    assert_eq!(m.file_size(), 3);
    assert_eq!(m.block_size(), 1024);
    assert_eq!(m.block_count(), 1);
    assert_eq!(m.hash_alg(), HASH_SHA256);
    assert_eq!(m.digests(), &SHA256_ABC[..]);
}

#[test]
fn each_block_has_its_own_digest_in_file_order() {
    let m = Manifest::build(b"abcabcab", 3).unwrap();
    assert_eq!(m.block_count(), 3);
    let d = m.digests();
    assert_eq!(d.len(), 3 * DIGEST_LEN);
    assert_eq!(&d[0..32], &SHA256_ABC[..]);
    assert_eq!(&d[32..64], &SHA256_ABC[..]);
    assert_eq!(&d[64..96], Sha256::digest(b"ab").as_slice());
}

#[test]
fn a_file_of_2500_bytes_in_blocks_of_1024_has_three_digests() {
    let content = sample(2500);
    let m = Manifest::build(&content, 1024).unwrap();
    assert_eq!(m.file_size(), 2500);
    assert_eq!(m.block_count(), 3);
    let d = m.digests();
    assert_eq!(d.len(), 96);
    assert_eq!(&d[0..32], Sha256::digest(&content[0..1024]).as_slice());
    assert_eq!(&d[32..64], Sha256::digest(&content[1024..2048]).as_slice());
    assert_eq!(&d[64..96], Sha256::digest(&content[2048..2500]).as_slice());
}

#[test]
fn an_empty_file_has_no_digests() {
    let m = Manifest::build(&[], 1024).unwrap();
    assert_eq!(m.file_size(), 0);
    assert_eq!(m.block_count(), 0);
    assert!(m.digests().is_empty());
}

#[test]
fn a_block_size_of_zero_is_refused() {
    assert_eq!(Manifest::build(b"abc", 0).unwrap_err(), SetupError::ZeroBlockSize);
    assert_eq!(Manifest::build(&[], 0).unwrap_err(), SetupError::ZeroBlockSize);
}

#[test]
fn building_twice_gives_the_same_digests() {
    let content = sample(5000);
    let a = Manifest::build(&content, 700).unwrap();
    let b = Manifest::build(&content.clone(), 700).unwrap();
    assert_eq!(a.digests(), b.digests());
    assert_eq!(a.block_count(), b.block_count());
    assert_eq!(a.file_size(), b.file_size());
}

#[test]
fn changing_one_byte_changes_the_digest_of_its_block_alone() {
    let content = sample(2500);
    let before = Manifest::build(&content, 1024).unwrap();
    let mut changed = content.clone();
    changed[1500] ^= 0x01;
    let after = Manifest::build(&changed, 1024).unwrap();
    assert_eq!(&before.digests()[0..32], &after.digests()[0..32]);
    assert_ne!(&before.digests()[32..64], &after.digests()[32..64]);
    assert_eq!(&before.digests()[64..96], &after.digests()[64..96]);
}

#[test]
fn a_block_verifies_against_its_own_entry_only() {
    let content = sample(2500);
    let m = Manifest::build(&content, 1024).unwrap();
    assert!(m.verify_block(0, &content[0..1024]));
    assert!(m.verify_block(1, &content[1024..2048]));
    assert!(m.verify_block(2, &content[2048..2500]));
    assert!(!m.verify_block(1, &content[0..1024]));
    assert!(!m.verify_block(0, &content[0..1023]));
    assert!(!m.verify_block(3, &content[2048..2500]));
    assert!(!m.verify_block(u32::MAX, &[]));
    let mut bad = content[0..1024].to_vec();
    bad[5] = bad[5].wrapping_add(1);
    assert!(!m.verify_block(0, &bad));
}

#[test]
fn a_digest_is_compared_with_the_entry_byte_for_byte() {
    let m = Manifest::build(b"abc", 1024).unwrap();
    assert!(m.matches_digest(0, &SHA256_ABC));
    assert!(!m.matches_digest(0, &SHA256_EMPTY));
    assert!(!m.matches_digest(1, &SHA256_ABC));
    let mut near = SHA256_ABC;
    near[31] ^= 0x80;
    assert!(!m.matches_digest(0, &near));
}

#[test]
fn the_empty_block_has_the_digest_of_nothing() {
    let m = Manifest::from_parts(0, 4, 0, HASH_SHA256, Vec::new()).unwrap();
    assert!(!m.verify_block(0, &[]));
    let one = Manifest::build(&[7], 4).unwrap();
    assert!(!one.matches_digest(0, &SHA256_EMPTY));
}

#[test]
fn parts_that_do_not_hold_together_make_no_manifest() {
    assert!(Manifest::from_parts(3, 1024, 1, HASH_SHA256, SHA256_ABC.to_vec()).is_some());
    assert!(Manifest::from_parts(3, 0, 1, HASH_SHA256, SHA256_ABC.to_vec()).is_none());
    assert!(Manifest::from_parts(3, 1024, 2, HASH_SHA256, SHA256_ABC.to_vec()).is_none());
    assert!(Manifest::from_parts(3, 1024, 0, HASH_SHA256, Vec::new()).is_none());
    assert!(Manifest::from_parts(3, 1024, 1, HASH_SHA256, vec![0; 31]).is_none());
    assert!(Manifest::from_parts(3, 1024, 1, HASH_SHA256, vec![0; 64]).is_none());
    assert!(Manifest::from_parts(0, 1024, 0, 9, Vec::new()).is_some());
}

#[test]
fn the_payload_is_sizes_count_algorithm_and_digests() {
    let m = Manifest::build(b"abc", 1024).unwrap();
    let mut w = Vec::new();
    m.write_to(&mut w);
    let mut expected = vec![0, 0, 0, 0, 0, 0, 0, 3, 0, 0, 4, 0, 0, 0, 0, 1, 1];
    expected.extend_from_slice(&SHA256_ABC);
    assert_eq!(w, expected);
    assert_eq!(w.len(), MANIFEST_FIXED_LEN + DIGEST_LEN);
}

#[test]
fn manifest_round_trip() {
    let content = sample(2500);
    let m = Manifest::build(&content, 1024).unwrap();
    let mut w = Vec::new();
    m.write_to(&mut w);
    let back = Manifest::read_from(&w).unwrap();
    assert_eq!(back.file_size(), 2500);
    assert_eq!(back.block_size(), 1024);
    assert_eq!(back.block_count(), 3);
    assert_eq!(back.hash_alg(), HASH_SHA256);
    assert_eq!(back.digests(), m.digests());
    w.extend_from_slice(&[9, 9, 9]);
    let again = Manifest::read_from(&w).unwrap();
    assert_eq!(again.digests(), m.digests());
}

#[test]
fn a_truncated_manifest_is_a_frame_error() {
    let m = Manifest::build(&sample(2500), 1024).unwrap();
    let mut w = Vec::new();
    m.write_to(&mut w);
    assert_eq!(Manifest::read_from(&[]).unwrap_err(), FrameError::Truncated);
    assert_eq!(Manifest::read_from(&w[..16]).unwrap_err(), FrameError::Truncated);
    assert_eq!(Manifest::read_from(&w[..17]).unwrap_err(), FrameError::Truncated);
    assert_eq!(Manifest::read_from(&w[..w.len() - 1]).unwrap_err(), FrameError::Truncated);
    assert!(Manifest::read_from(&w).is_ok());
}

#[test]
fn an_inconsistent_manifest_is_a_frame_error() {
    let m = Manifest::build(b"abc", 1024).unwrap();
    let mut w = Vec::new();
    m.write_to(&mut w);
    let mut zero_block = w.clone();
    zero_block[8..12].copy_from_slice(&[0, 0, 0, 0]);
    assert_eq!(Manifest::read_from(&zero_block).unwrap_err(), FrameError::InconsistentManifest);
    let mut small_block = w.clone();
    small_block[8..12].copy_from_slice(&[0, 0, 0, 1]);
    assert_eq!(Manifest::read_from(&small_block).unwrap_err(), FrameError::InconsistentManifest);
    let mut no_blocks = w.clone();
    no_blocks[12..16].copy_from_slice(&[0, 0, 0, 0]);
    assert_eq!(Manifest::read_from(&no_blocks).unwrap_err(), FrameError::InconsistentManifest);
    let mut many = w.clone();
    many[12..16].copy_from_slice(&[0xff, 0xff, 0xff, 0xff]);
    assert_eq!(Manifest::read_from(&many).unwrap_err(), FrameError::Truncated);
}

#[test]
fn a_manifest_built_block_by_block_is_the_manifest_of_the_file() {
    for (len, block_size) in [(2500usize, 1024u32), (2048, 1024), (1, 1), (100, 7), (96, 32)] {
        let content = sample(len);
        let whole = Manifest::build(&content, block_size).unwrap();
        let mut builder = ManifestBuilder::new(block_size).unwrap();
        for block in content.chunks(block_size as usize) {
            assert_eq!(builder.push(block), Ok(()));
        }
        let streamed = builder.finish();
        assert_eq!(streamed.file_size(), len as u64);
        assert_eq!(streamed.block_size(), block_size);
        assert_eq!(streamed.block_count(), whole.block_count());
        assert_eq!(streamed.hash_alg(), HASH_SHA256);
        assert_eq!(streamed.digests(), whole.digests());
    }
}

#[test]
fn a_builder_that_took_nothing_gives_the_manifest_of_the_empty_file() {
    let m = ManifestBuilder::new(1024).unwrap().finish();
    assert_eq!(m.file_size(), 0);
    assert_eq!(m.block_size(), 1024);
    assert_eq!(m.block_count(), 0);
    assert!(m.digests().is_empty());
}

#[test]
fn a_builder_takes_the_digest_of_each_block() {
    let mut builder = ManifestBuilder::new(3).unwrap();
    builder.push(b"abc").unwrap();
    builder.push(b"abc").unwrap();
    builder.push(b"ab").unwrap();
    let m = builder.finish();
    assert_eq!(m.file_size(), 8);
    assert_eq!(m.block_count(), 3);
    assert_eq!(&m.digests()[0..32], &SHA256_ABC[..]);
    assert_eq!(&m.digests()[32..64], &SHA256_ABC[..]);
    assert_eq!(&m.digests()[64..96], Sha256::digest(b"ab").as_slice());
}

#[test]
fn a_builder_refuses_blocks_that_do_not_tile_the_file() {
    assert!(matches!(ManifestBuilder::new(0), Err(SetupError::ZeroBlockSize)));
    let mut builder = ManifestBuilder::new(4).unwrap();
    assert_eq!(builder.push(&[]), Err(SetupError::UnevenBlock));
    assert_eq!(builder.push(&[1, 2, 3, 4, 5]), Err(SetupError::UnevenBlock));
    assert_eq!(builder.push(&[1, 2, 3, 4]), Ok(()));
    assert_eq!(builder.push(&[5, 6]), Ok(()));
    assert_eq!(builder.push(&[7, 8]), Err(SetupError::UnevenBlock));
    assert_eq!(builder.push(&[7, 8, 9, 10]), Err(SetupError::UnevenBlock));
    let m = builder.finish();
    assert_eq!(m.file_size(), 6);
    assert_eq!(m.block_count(), 2);
    let whole = Manifest::build(&[1, 2, 3, 4, 5, 6], 4).unwrap();
    assert_eq!(m.digests(), whole.digests());
}
