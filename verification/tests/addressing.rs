use pftp::addressing::{absolute_position, block_count, block_length};

#[test]
fn a_block_starts_at_its_index_times_the_block_size() {
    assert_eq!(absolute_position(0, 0, 1024), 0);
    assert_eq!(absolute_position(1, 0, 1024), 1024);
    assert_eq!(absolute_position(2, 0, 1024), 2048);
    assert_eq!(absolute_position(7, 0, 3), 21);
    for i in 0..50u32 {
        for b in 1..20u32 {
            assert_eq!(absolute_position(i, 0, b), i as u64 * b as u64);
        }
    }
}

#[test]
fn the_offset_is_added_to_the_block_start() {
    assert_eq!(absolute_position(2, 3, 1024), 2051);
    assert_eq!(absolute_position(0, 17, 1024), 17);
    assert_eq!(absolute_position(5, 9, 0), 9);
}

#[test]
fn the_largest_position_fits() {
    assert_eq!(
        absolute_position(u32::MAX, u32::MAX, u32::MAX),
        u32::MAX as u64 * u32::MAX as u64 + u32::MAX as u64
    );
}

#[test]
fn the_block_count_is_the_quotient_rounded_up() {
    assert_eq!(block_count(2500, 1024), Some(3));
    assert_eq!(block_count(2048, 1024), Some(2));
    assert_eq!(block_count(2049, 1024), Some(3));
    assert_eq!(block_count(1, 1024), Some(1));
    assert_eq!(block_count(0, 1024), Some(0));
    assert_eq!(block_count(11, 1024), Some(1));
    assert_eq!(block_count(10, 1), Some(10));
}

#[test]
fn there_is_no_block_count_for_a_block_size_of_zero() {
    assert_eq!(block_count(0, 0), None);
    assert_eq!(block_count(2500, 0), None);
}

#[test]
fn there_is_no_block_count_beyond_32_bits() {
    assert_eq!(block_count(u32::MAX as u64, 1), Some(u32::MAX));
    assert_eq!(block_count(u32::MAX as u64 + 1, 1), None);
    assert_eq!(block_count(u64::MAX, 1), None);
    assert_eq!(block_count(u64::MAX, u32::MAX), None);
    assert_eq!(block_count(u32::MAX as u64 * 2, 2), Some(u32::MAX));
    assert_eq!(block_count(u32::MAX as u64 * 2 + 1, 2), None);
}

#[test]
fn the_last_block_holds_what_is_left() {
    assert_eq!(block_length(2500, 1024, 0), 1024);
    assert_eq!(block_length(2500, 1024, 1), 1024);
    assert_eq!(block_length(2500, 1024, 2), 452);
    assert_eq!(block_length(2500, 1024, 3), 0);
    assert_eq!(block_length(2048, 1024, 1), 1024);
    assert_eq!(block_length(2048, 1024, 2), 0);
    assert_eq!(block_length(0, 1024, 0), 0);
    assert_eq!(block_length(11, 1024, 0), 11);
}

#[test]
fn the_last_block_length_is_file_size_less_the_blocks_before() {
    for size in 1..200u64 {
        for b in 1..17u32 {
            let n = block_count(size, b).unwrap();
            assert_eq!(
                block_length(size, b, n - 1) as u64,
                size - (n as u64 - 1) * b as u64
            );
            let mut total = 0u64;
            for i in 0..n {
                assert_eq!(absolute_position(i, 0, b), total);
                total += block_length(size, b, i) as u64;
            }
            assert_eq!(total, size);
        }
    }
}
