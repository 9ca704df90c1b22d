//! Block addressing: where a block lies in the file, how many blocks a file
//! has, and how long each of them is.

use vstd::prelude::*;

verus! {

/// The byte offset in the file of the byte `intra_offset` of the block
/// `block_index`, for blocks of `block_size` bytes.
pub open spec fn position(block_index: int, intra_offset: int, block_size: int) -> int {
    block_index * block_size + intra_offset
}

/// The number of blocks of `block_size` bytes that a file of `file_size`
/// bytes is cut into: the quotient, rounded up. With a block size of zero
/// there are none.
pub open spec fn blocks_in(file_size: int, block_size: int) -> int {
    if block_size > 0 {
        (file_size + block_size - 1) / block_size
    } else {
        0
    }
}

/// The length of the block `block_index`: a full block, what is left of the
/// file for the last one, nothing behind it.
pub open spec fn block_len(file_size: int, block_size: int, block_index: int) -> int {
    let start = position(block_index, 0, block_size);
    if start + block_size <= file_size {
        block_size
    } else if start < file_size {
        file_size - start
    } else {
        0
    }
}

/// The product of two numbers below bounds is below the bounds' product.
proof fn lemma_product_bound(a: int, b: int, m: int, n: int)
    by (nonlinear_arith)
    requires
        0 <= a <= m,
        0 <= b <= n,
    ensures
        0 <= a * b <= m * n,
{
}

/// The block count is the one number of blocks that covers the file with
/// the last block begun.
pub proof fn lemma_blocks_bounds(file_size: int, block_size: int)
    by (nonlinear_arith)
    requires
        0 <= file_size,
        0 < block_size,
    ensures
        0 <= blocks_in(file_size, block_size),
        file_size <= blocks_in(file_size, block_size) * block_size,
        file_size > 0 ==> (blocks_in(file_size, block_size) - 1) * block_size < file_size,
        file_size == 0 <==> blocks_in(file_size, block_size) == 0,
        blocks_in(file_size, block_size) <= file_size,
{
}

/// A number of blocks that covers the file, with the last block begun, is
/// the block count.
pub proof fn lemma_blocks_unique(file_size: int, block_size: int, n: int)
    by (nonlinear_arith)
    requires
        0 <= file_size,
        0 < block_size,
        0 <= n,
        file_size <= n * block_size,
        n > 0 ==> (n - 1) * block_size < file_size,
    ensures
        n == blocks_in(file_size, block_size),
{
}

/// Every block before the last is full, the last holds what is left and is
/// not empty, and each block ends inside the file.
pub proof fn lemma_block_len(file_size: int, block_size: int, block_index: int)
    by (nonlinear_arith)
    requires
        0 <= file_size,
        0 < block_size,
        0 <= block_index < blocks_in(file_size, block_size),
    ensures
        0 < block_len(file_size, block_size, block_index) <= block_size,
        position(block_index, 0, block_size) + block_len(file_size, block_size, block_index)
            <= file_size,
        block_index + 1 < blocks_in(file_size, block_size) ==> block_len(
            file_size,
            block_size,
            block_index,
        ) == block_size,
        block_index + 1 == blocks_in(file_size, block_size) ==> block_len(
            file_size,
            block_size,
            block_index,
        ) == file_size - (blocks_in(file_size, block_size) - 1) * block_size,
        block_index + 1 == blocks_in(file_size, block_size) ==> position(
            block_index,
            0,
            block_size,
        ) + block_len(file_size, block_size, block_index) == file_size,
{
}

/// A block starts at its index times the block size.
pub proof fn lemma_block_start(block_index: int, block_size: int)
    ensures
        position(block_index, 0, block_size) == block_index * block_size,
{
}

/// The byte offset in the file of the byte `intra_offset` of the block
/// `block_index`. Nothing here holds the result against a file's size: a
/// caller checks the block index against the block count first.
pub fn absolute_position(block_index: u32, intra_offset: u32, block_size: u32) -> (pos: u64)
    ensures
        pos == position(block_index as int, intra_offset as int, block_size as int),
        pos == block_index * block_size + intra_offset,
        intra_offset == 0 ==> pos == block_index * block_size,
{
    proof {
        lemma_product_bound(
            block_index as int,
            block_size as int,
            0xffff_ffff,
            0xffff_ffff,
        );
    }
    (block_index as u64) * (block_size as u64) + (intra_offset as u64)
}

/// The number of blocks in a file of `file_size` bytes; `None` where the
/// block size is zero or the count does not fit the manifest's 32-bit field.
pub fn block_count(file_size: u64, block_size: u32) -> (r: Option<u32>)
    ensures
        r == (if block_size > 0 && blocks_in(file_size as int, block_size as int) <= u32::MAX {
            Some(blocks_in(file_size as int, block_size as int) as u32)
        } else {
            None
        }),
{
    if block_size == 0 {
        return None;
    }
    let size: u64 = block_size as u64;
    let full: u64 = file_size / size;
    let rest: u64 = file_size % size;
    proof {
        vstd::arithmetic::div_mod::lemma_fundamental_div_mod(file_size as int, size as int);
        assert(full <= file_size) by (nonlinear_arith)
            requires
                file_size == size * full + rest,
                size >= 1,
                rest >= 0,
                full >= 0,
        ;
    }
    if rest == 0 {
        proof {
            assert(full * size == size * full && (full - 1) * size == size * full - size)
                by (nonlinear_arith);
            lemma_blocks_unique(file_size as int, size as int, full as int);
        }
        if full > u32::MAX as u64 {
            None
        } else {
            Some(full as u32)
        }
    } else {
        proof {
            assert(size >= 2);
            assert(full < u64::MAX) by (nonlinear_arith)
                requires
                    file_size == size * full + rest,
                    size >= 2,
                    rest >= 0,
                    full >= 0,
                    file_size <= u64::MAX,
            ;
            assert((full + 1) * size == size * full + size) by (nonlinear_arith);
            assert(((full + 1) - 1) * size == size * full) by (nonlinear_arith);
            lemma_blocks_unique(file_size as int, size as int, full as int + 1);
        }
        let n: u64 = full + 1;
        if n > u32::MAX as u64 {
            None
        } else {
            Some(n as u32)
        }
    }
}

/// The length of the block `block_index` of a file of `file_size` bytes:
/// `block_size` for every block but the last, the rest of the file for the
/// last, zero for an index behind the last.
pub fn block_length(file_size: u64, block_size: u32, block_index: u32) -> (len: u32)
    ensures
        len == block_len(file_size as int, block_size as int, block_index as int),
{
    let start: u64 = absolute_position(block_index, 0, block_size);
    if start >= file_size {
        0
    } else {
        let left: u64 = file_size - start;
        if left >= block_size as u64 {
            block_size
        } else {
            left as u32
        }
    }
}

} // verus!
