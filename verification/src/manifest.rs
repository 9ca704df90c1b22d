//! The manifest: the file's size, its block size and one digest for each
//! block, by which a receiver checks what it was sent.

use crate::addressing::{
    absolute_position, block_count, block_len, block_length, blocks_in, lemma_block_len,
    lemma_blocks_bounds, lemma_blocks_unique, position,
};
use crate::error::{FrameError, SetupError};
use crate::wire::{
    be32, be64, get_u32, get_u64, lemma_u32_at_be32, lemma_u64_at_be64, put_bytes, put_u32,
    put_u64, u32_at, u64_at,
};
use sha2::{Digest, Sha256};
use vstd::prelude::*;
use vstd::slice::slice_subrange;

verus! {

/// Length of one digest in bytes.
pub const DIGEST_LEN: usize = 32;

/// The hash algorithm id of SHA-256, the one algorithm implemented.
pub const HASH_SHA256: u8 = 0x01;

/// Length in bytes of a manifest payload before its digest table.
pub const MANIFEST_FIXED_LEN: usize = 17;

/// The SHA-256 digest of `data`.
pub uninterp spec fn sha256(data: Seq<u8>) -> Seq<u8>;

/// `sha2::Sha256::digest` (the `Digest` trait's one-call form: a new hasher,
/// updated with `data`, finalized), its 32-byte output moved into an array.
/// The contract names the result: it is the SHA-256 digest of `data`, a
/// function of the bytes alone.
#[verifier::external_body]
fn sha256_digest(data: &[u8]) -> (d: [u8; 32])
    ensures
        d@ == sha256(data@),
{
    Sha256::digest(data).into()
}

/// The bytes of the block `block_index` of `content`.
pub open spec fn block_bytes(content: Seq<u8>, block_size: int, block_index: int) -> Seq<u8> {
    let start = position(block_index, 0, block_size);
    content.subrange(start, start + block_len(content.len() as int, block_size, block_index))
}

/// The digest table of `content`: the digests of its blocks, one after the
/// other in the order of the blocks, 32 bytes each.
pub open spec fn digest_table(content: Seq<u8>, block_size: int) -> Seq<u8> {
    Seq::new(
        (32 * blocks_in(content.len() as int, block_size)) as nat,
        |j: int| sha256(block_bytes(content, block_size, j / 32))[j % 32],
    )
}

/// What a manifest says.
pub struct ManifestView {
    /// Length of the file in bytes.
    pub file_size: u64,
    /// Length of every block but the last.
    pub block_size: u32,
    /// Number of blocks.
    pub block_count: u32,
    /// Id of the hash algorithm.
    pub hash_alg: u8,
    /// The digests, 32 bytes for each block, in the order of the blocks.
    pub digests: Seq<u8>,
}

impl ManifestView {
    /// The block size is positive, the block count is the one that file size
    /// and block size give, and the table holds one digest for each block.
    pub open spec fn wf(self) -> bool {
        &&& self.block_size > 0
        &&& self.block_count == blocks_in(self.file_size as int, self.block_size as int)
        &&& self.digests.len() == 32 * self.block_count
    }

    /// The manifest payload: file size in eight bytes, block size and block
    /// count in four each, the algorithm id, then the digest table.
    pub open spec fn encoding(self) -> Seq<u8> {
        be64(self.file_size) + be32(self.block_size) + be32(self.block_count) + seq![
            self.hash_alg,
        ] + self.digests
    }

    /// The manifest that a payload stands for. Bytes behind the digest
    /// table are not looked at.
    pub open spec fn decoding(b: Seq<u8>) -> Result<ManifestView, FrameError> {
        if b.len() < MANIFEST_FIXED_LEN {
            Err(FrameError::Truncated)
        } else if b.len() < MANIFEST_FIXED_LEN + 32 * u32_at(b, 12) {
            Err(FrameError::Truncated)
        } else {
            let m = ManifestView {
                file_size: u64_at(b, 0),
                block_size: u32_at(b, 8),
                block_count: u32_at(b, 12),
                hash_alg: b[16],
                digests: b.subrange(
                    MANIFEST_FIXED_LEN as int,
                    MANIFEST_FIXED_LEN + 32 * u32_at(b, 12),
                ),
            };
            if m.wf() {
                Ok(m)
            } else {
                Err(FrameError::InconsistentManifest)
            }
        }
    }

    /// The table's entry for the block `block_index` is `digest`.
    pub open spec fn entry_is(self, block_index: int, digest: Seq<u8>) -> bool {
        forall|j: int| 0 <= j < 32 ==> self.digests[32 * block_index + j] == digest[j]
    }

    /// `data` is what the manifest expects as the block `block_index`: there
    /// is such a block, and its entry is the digest of `data`.
    pub open spec fn verifies(self, block_index: int, data: Seq<u8>) -> bool {
        0 <= block_index < self.block_count && self.entry_is(block_index, sha256(data))
    }
}

/// The manifest of `content` cut into blocks of `block_size` bytes.
pub open spec fn manifest_of(content: Seq<u8>, block_size: u32) -> ManifestView {
    ManifestView {
        file_size: content.len() as u64,
        block_size,
        block_count: blocks_in(content.len() as int, block_size as int) as u32,
        hash_alg: HASH_SHA256,
        digests: digest_table(content, block_size as int),
    }
}

/// Whether a manifest can be built: the block size is positive and the
/// block count fits its field.
pub open spec fn buildable(len: int, block_size: u32) -> bool {
    block_size > 0 && blocks_in(len, block_size as int) <= u32::MAX
}

/// A manifest that holds together: see [`ManifestView::wf`].
#[derive(Debug)]
pub struct Manifest {
    file_size: u64,
    block_size: u32,
    block_count: u32,
    hash_alg: u8,
    digests: Vec<u8>,
}

impl View for Manifest {
    type V = ManifestView;

    closed spec fn view(&self) -> ManifestView {
        ManifestView {
            file_size: self.file_size,
            block_size: self.block_size,
            block_count: self.block_count,
            hash_alg: self.hash_alg,
            digests: self.digests@,
        }
    }
}

impl Manifest {
    /// Every manifest holds together.
    #[verifier::type_invariant]
    pub open spec fn inv(self) -> bool {
        self@.wf()
    }

    /// A manifest from its parts; `None` unless they hold together.
    pub fn from_parts(
        file_size: u64,
        block_size: u32,
        block_count: u32,
        hash_alg: u8,
        digests: Vec<u8>,
    ) -> (r: Option<Manifest>)
        ensures
            match r {
                Some(m) => m@ == (ManifestView {
                    file_size,
                    block_size,
                    block_count,
                    hash_alg,
                    digests: digests@,
                }) && m@.wf(),
                None => !(ManifestView {
                    file_size,
                    block_size,
                    block_count,
                    hash_alg,
                    digests: digests@,
                }).wf(),
            },
    {
        if block_count as u64 * 32 != digests.len() as u64 {
            return None;
        }
        match crate::addressing::block_count(file_size, block_size) {
            Some(n) => {
                if n == block_count {
                    Some(Manifest { file_size, block_size, block_count, hash_alg, digests })
                } else {
                    None
                }
            },
            None => None,
        }
    }

    /// Builds the manifest of `content`: one SHA-256 digest for each block of
    /// `block_size` bytes, the last block as long as what is left.
    pub fn build(content: &[u8], block_size: u32) -> (r: Result<Manifest, SetupError>)
        ensures
            match r {
                Ok(m) => buildable(content@.len() as int, block_size) && m@ == manifest_of(
                    content@,
                    block_size,
                ) && m@.wf(),
                Err(e) => !buildable(content@.len() as int, block_size) && e == (if block_size
                    == 0 {
                    SetupError::ZeroBlockSize
                } else {
                    SetupError::TooManyBlocks
                }),
            },
    {
        let file_size: u64 = content.len() as u64;
        let count: u32 = match block_count(file_size, block_size) {
            Some(n) => n,
            None => {
                if block_size == 0 {
                    return Err(SetupError::ZeroBlockSize);
                } else {
                    return Err(SetupError::TooManyBlocks);
                }
            },
        };
        let mut digests: Vec<u8> = Vec::new();
        let mut i: u32 = 0;
        assert(content@.len() <= usize::MAX);
        while i < count
            invariant
                i <= count,
                block_size > 0,
                file_size == content@.len(),
                content@.len() <= usize::MAX,
                count == blocks_in(file_size as int, block_size as int),
                digests@.len() == 32 * i,
                forall|j: int|
                    0 <= j < 32 * i ==> digests@[j] == sha256(
                        block_bytes(content@, block_size as int, j / 32),
                    )[j % 32],
            decreases count - i,
        {
            proof {
                lemma_block_len(file_size as int, block_size as int, i as int);
            }
            let start: u64 = absolute_position(i, 0, block_size);
            let len: u32 = block_length(file_size, block_size, i);
            let block = slice_subrange(content, start as usize, (start + len as u64) as usize);
            let d: [u8; 32] = sha256_digest(block);
            let ghost before = digests@;
            put_bytes(&mut digests, d.as_slice());
            proof {
                assert(block@ == block_bytes(content@, block_size as int, i as int));
                assert forall|j: int| 0 <= j < 32 * (i + 1) implies digests@[j] == sha256(
                    block_bytes(content@, block_size as int, j / 32),
                )[j % 32] by {
                    if j < 32 * i {
                        assert(digests@[j] == before[j]);
                    } else {
                        assert(j / 32 == i && j % 32 == j - 32 * i);
                        assert(digests@[j] == d@[j - 32 * i]);
                    }
                }
            }
            i = i + 1;
        }
        proof {
            assert(digests@ =~= digest_table(content@, block_size as int));
        }
        Ok(Manifest { file_size, block_size, block_count: count, hash_alg: HASH_SHA256, digests })
    }

    /// Length of the file in bytes.
    pub fn file_size(&self) -> (n: u64)
        ensures
            n == self@.file_size,
            self@.wf(),
    {
        proof {
            use_type_invariant(self);
        }
        self.file_size
    }

    /// Length of every block but the last. Never zero.
    pub fn block_size(&self) -> (n: u32)
        ensures
            n == self@.block_size,
            self@.wf(),
    {
        proof {
            use_type_invariant(self);
        }
        self.block_size
    }

    /// Number of blocks.
    pub fn block_count(&self) -> (n: u32)
        ensures
            n == self@.block_count,
            self@.wf(),
    {
        proof {
            use_type_invariant(self);
        }
        self.block_count
    }

    /// Id of the hash algorithm.
    pub fn hash_alg(&self) -> (a: u8)
        ensures
            a == self@.hash_alg,
            self@.wf(),
    {
        proof {
            use_type_invariant(self);
        }
        self.hash_alg
    }

    /// The digest table: 32 bytes for each block.
    pub fn digests(&self) -> (d: &[u8])
        ensures
            d@ == self@.digests,
            self@.wf(),
    {
        proof {
            use_type_invariant(self);
        }
        self.digests.as_slice()
    }

    /// Whether the manifest's entry for the block `block_index` is `digest`.
    /// There is no entry for an index that is not below the block count.
    pub fn matches_digest(&self, block_index: u32, digest: &[u8; 32]) -> (ok: bool)
        ensures
            ok == (block_index < self@.block_count && self@.entry_is(block_index as int, digest@)),
    {
        proof {
            use_type_invariant(self);
        }
        if block_index >= self.block_count {
            return false;
        }
        let table_len: usize = self.digests.len();
        assert(32 * (block_index + 1) <= table_len) by (nonlinear_arith)
            requires
                block_index < self.block_count,
                table_len == 32 * self.block_count,
        ;
        let base: usize = block_index as usize * 32;
        let mut j: usize = 0;
        while j < 32
            invariant
                j <= 32,
                base == 32 * block_index,
                base + 32 <= self.digests@.len(),
                forall|k: int| 0 <= k < j ==> self.digests@[32 * block_index + k] == digest@[k],
            decreases 32 - j,
        {
            if self.digests[base + j] != digest[j] {
                assert(self@.digests[32 * block_index + j as int] != digest@[j as int]);
                return false;
            }
            j = j + 1;
        }
        true
    }

    /// Recomputes the digest of a received block and compares it with the
    /// manifest's entry for `block_index`: `true` for a match.
    pub fn verify_block(&self, block_index: u32, data: &[u8]) -> (ok: bool)
        ensures
            ok == self@.verifies(block_index as int, data@),
    {
        let d: [u8; 32] = sha256_digest(data);
        self.matches_digest(block_index, &d)
    }

    /// Appends the manifest payload to `w`.
    pub fn write_to(&self, w: &mut Vec<u8>)
        ensures
            final(w)@ == old(w)@ + self@.encoding(),
    {
        put_u64(w, self.file_size);
        put_u32(w, self.block_size);
        put_u32(w, self.block_count);
        w.push(self.hash_alg);
        put_bytes(w, self.digests.as_slice());
        assert(w@ == old(w)@ + self@.encoding());
    }

    /// Decodes a manifest payload, the bytes that follow the header of a
    /// manifest message.
    pub fn read_from(payload: &[u8]) -> (r: Result<Manifest, FrameError>)
        ensures
            match r {
                Ok(m) => ManifestView::decoding(payload@) == Ok::<ManifestView, FrameError>(m@)
                    && m@.wf(),
                Err(e) => ManifestView::decoding(payload@) == Err::<ManifestView, FrameError>(e),
            },
    {
        let file_size: u64 = match get_u64(payload, 0) {
            Some(n) => n,
            None => { return Err(FrameError::Truncated); },
        };
        let block_size: u32 = match get_u32(payload, 8) {
            Some(n) => n,
            None => { return Err(FrameError::Truncated); },
        };
        let block_count: u32 = match get_u32(payload, 12) {
            Some(n) => n,
            None => { return Err(FrameError::Truncated); },
        };
        if payload.len() < MANIFEST_FIXED_LEN {
            return Err(FrameError::Truncated);
        }
        let hash_alg: u8 = payload[16];
        let end: u64 = MANIFEST_FIXED_LEN as u64 + 32 * (block_count as u64);
        if (payload.len() as u64) < end {
            return Err(FrameError::Truncated);
        }
        let table = slice_subrange(payload, MANIFEST_FIXED_LEN, end as usize);
        let mut digests: Vec<u8> = Vec::new();
        put_bytes(&mut digests, table);
        match Manifest::from_parts(file_size, block_size, block_count, hash_alg, digests) {
            Some(m) => Ok(m),
            None => Err(FrameError::InconsistentManifest),
        }
    }
}

/// What a manifest builder has taken so far.
pub struct BuilderView {
    /// Length of every block but the last.
    pub block_size: u32,
    /// The blocks taken, one after the other.
    pub content: Seq<u8>,
}

impl BuilderView {
    /// Why `block` cannot be taken as the next block, if it cannot: it is
    /// empty or longer than the block size, or the last block taken was a
    /// short one, behind which none can follow; or the block count would no
    /// longer fit its field.
    pub open spec fn refuses(self, block: Seq<u8>) -> Option<SetupError> {
        if block.len() == 0 || block.len() > self.block_size || self.content.len() % (
        self.block_size as nat) != 0 {
            Some(SetupError::UnevenBlock)
        } else if blocks_in(self.content.len() as int, self.block_size as int) >= u32::MAX {
            Some(SetupError::TooManyBlocks)
        } else {
            None
        }
    }
}

/// Builds a manifest from a file that is handed over block by block, in
/// the file's order.
pub struct ManifestBuilder {
    block_size: u32,
    file_size: u64,
    block_count: u32,
    digests: Vec<u8>,
    content: Ghost<Seq<u8>>,
}

impl View for ManifestBuilder {
    type V = BuilderView;

    closed spec fn view(&self) -> BuilderView {
        BuilderView { block_size: self.block_size, content: self.content@ }
    }
}

impl ManifestBuilder {
    /// The sizes and the digests that the builder holds are those of the
    /// blocks taken. It holds of every builder that [`ManifestBuilder::new`]
    /// gave, whatever was pushed since.
    pub closed spec fn wf(&self) -> bool {
        &&& self.block_size > 0
        &&& self.file_size == self.content@.len()
        &&& self.block_count == blocks_in(self.content@.len() as int, self.block_size as int)
        &&& self.digests@ == digest_table(self.content@, self.block_size as int)
    }

    /// A builder that has taken nothing yet, for blocks of `block_size`
    /// bytes. A block size of zero is refused.
    pub fn new(block_size: u32) -> (r: Result<ManifestBuilder, SetupError>)
        ensures
            match r {
                Ok(b) => block_size > 0 && b.wf() && b@ == (BuilderView {
                    block_size,
                    content: Seq::<u8>::empty(),
                }),
                Err(e) => block_size == 0 && e == SetupError::ZeroBlockSize,
            },
    {
        if block_size == 0 {
            return Err(SetupError::ZeroBlockSize);
        }
        proof {
            lemma_blocks_bounds(0, block_size as int);
            assert(digest_table(Seq::<u8>::empty(), block_size as int) =~= Seq::<u8>::empty());
        }
        Ok(
            ManifestBuilder {
                block_size,
                file_size: 0,
                block_count: 0,
                digests: Vec::new(),
                content: Ghost(Seq::<u8>::empty()),
            },
        )
    }

    /// Takes the next block of the file and digests it. Every block is
    /// `block_size` bytes long but the last, which is shorter where the
    /// file's length asks for it, and never empty. A block that breaks this
    /// is refused, and nothing changes.
    pub fn push(&mut self, block: &[u8]) -> (r: Result<(), SetupError>)
        requires
            old(self).wf(),
        ensures
            final(self).wf(),
            match r {
                Ok(_) => old(self)@.refuses(block@) is None && final(self)@ == (BuilderView {
                    block_size: old(self)@.block_size,
                    content: old(self)@.content + block@,
                }),
                Err(e) => old(self)@.refuses(block@) == Some(e) && final(self)@ == old(self)@,
            },
    {
        proof {
            lemma_blocks_bounds(self.file_size as int, self.block_size as int);
        }
        let size: u64 = self.block_size as u64;
        if block.len() == 0 || block.len() as u64 > size || self.file_size % size != 0 {
            return Err(SetupError::UnevenBlock);
        }
        if self.block_count == u32::MAX {
            return Err(SetupError::TooManyBlocks);
        }
        let d: [u8; 32] = sha256_digest(block);
        proof {
            lemma_table_grows(self.content@, block@, self.block_size);
            assert(self.file_size + block@.len() <= u64::MAX) by (nonlinear_arith)
                requires
                    self.file_size <= self.block_count * self.block_size,
                    self.block_count < u32::MAX,
                    self.block_size <= u32::MAX,
                    block@.len() <= self.block_size,
            ;
        }
        put_bytes(&mut self.digests, d.as_slice());
        self.file_size = self.file_size + block.len() as u64;
        self.block_count = self.block_count + 1;
        proof {
            self.content = Ghost(self.content@ + block@);
            assert(self.digests@ =~= digest_table(self.content@, self.block_size as int));
        }
        Ok(())
    }

    /// The manifest of the blocks taken.
    pub fn finish(self) -> (m: Manifest)
        requires
            self.wf(),
        ensures
            buildable(self@.content.len() as int, self@.block_size),
            m@ == manifest_of(self@.content, self@.block_size),
            m@.wf(),
    {
        proof {
            lemma_blocks_bounds(self.file_size as int, self.block_size as int);
        }
        Manifest {
            file_size: self.file_size,
            block_size: self.block_size,
            block_count: self.block_count,
            hash_alg: HASH_SHA256,
            digests: self.digests,
        }
    }
}

/// A block appended to a content of full blocks adds its digest to the end
/// of the digest table and changes no other.
pub proof fn lemma_table_grows(content: Seq<u8>, block: Seq<u8>, block_size: u32)
    requires
        block_size > 0,
        content.len() % (block_size as nat) == 0,
        0 < block.len() <= block_size,
    ensures
        blocks_in((content + block).len() as int, block_size as int) == blocks_in(
            content.len() as int,
            block_size as int,
        ) + 1,
        digest_table(content + block, block_size as int).len() == digest_table(
            content,
            block_size as int,
        ).len() + 32,
        forall|j: int|
            0 <= j < digest_table(content, block_size as int).len() ==> digest_table(
                content + block,
                block_size as int,
            )[j] == digest_table(content, block_size as int)[j],
        forall|j: int|
            0 <= j < 32 ==> digest_table(content + block, block_size as int)[digest_table(
                content,
                block_size as int,
            ).len() + j] == sha256(block)[j],
{
    let size = block_size as int;
    let len = content.len() as int;
    let all = content + block;
    let k = len / size;
    vstd::arithmetic::div_mod::lemma_fundamental_div_mod(len, size);
    assert(len == size * k);
    assert(0 <= k) by (nonlinear_arith)
        requires
            len == size * k,
            size > 0,
            len >= 0,
    ;
    assert(k * size == len && (k - 1) * size == len - size && (k + 1) * size == len + size)
        by (nonlinear_arith)
        requires
            len == size * k,
    ;
    lemma_blocks_unique(len, size, k);
    lemma_blocks_unique(len + block.len(), size, k + 1);
    assert forall|j: int| 0 <= j < 32 * k implies digest_table(all, size)[j] == digest_table(
        content,
        size,
    )[j] by {
        let i = j / 32;
        assert(0 <= i < k);
        assert(position(i, 0, size) + size <= len) by (nonlinear_arith)
            requires
                0 <= i < k,
                k * size == len,
                size > 0,
        ;
        assert(0 <= position(i, 0, size)) by (nonlinear_arith)
            requires
                0 <= i,
                size > 0,
        ;
        assert(block_bytes(all, size, i) =~= block_bytes(content, size, i));
    }
    assert forall|j: int| 0 <= j < 32 implies digest_table(all, size)[32 * k + j] == sha256(
        block,
    )[j] by {
        assert((32 * k + j) / 32 == k && (32 * k + j) % 32 == j);
        assert(position(k, 0, size) == len);
        assert(block_bytes(all, size, k) =~= block);
    }
}

/// Decoding what a manifest encodes to gives that manifest back, whatever
/// bytes follow.
pub proof fn lemma_manifest_roundtrip(m: ManifestView, rest: Seq<u8>)
    requires
        m.wf(),
    ensures
        ManifestView::decoding(m.encoding() + rest) == Ok::<ManifestView, FrameError>(m),
{
    let b = m.encoding() + rest;
    let n = m.digests.len() as int;
    assert(b.subrange(0, 8) == be64(m.file_size));
    assert(b.subrange(8, 12) == be32(m.block_size));
    assert(b.subrange(12, 16) == be32(m.block_count));
    assert(b[16] == m.hash_alg);
    assert(b.subrange(17, 17 + n) == m.digests);
    lemma_u64_at_be64(b, 0, m.file_size);
    lemma_u32_at_be32(b, 8, m.block_size);
    lemma_u32_at_be32(b, 12, m.block_count);
}

/// The manifest of a content holds together.
pub proof fn lemma_manifest_of_wf(content: Seq<u8>, block_size: u32)
    requires
        content.len() <= u64::MAX,
        buildable(content.len() as int, block_size),
    ensures
        manifest_of(content, block_size).wf(),
{
    lemma_blocks_bounds(content.len() as int, block_size as int);
}

/// Every block of a content is what the content's manifest expects at that
/// block's index.
pub proof fn lemma_own_blocks_verify(content: Seq<u8>, block_size: u32, block_index: int)
    requires
        content.len() <= u64::MAX,
        buildable(content.len() as int, block_size),
        0 <= block_index < blocks_in(content.len() as int, block_size as int),
    ensures
        manifest_of(content, block_size).verifies(
            block_index,
            block_bytes(content, block_size as int, block_index),
        ),
{
    let m = manifest_of(content, block_size);
    let d = sha256(block_bytes(content, block_size as int, block_index));
    assert forall|j: int| 0 <= j < 32 implies m.digests[32 * block_index + j] == d[j] by {
        assert((32 * block_index + j) / 32 == block_index);
        assert((32 * block_index + j) % 32 == j);
    }
}

/// The manifest is a function of the content: contents that agree byte for
/// byte have one manifest.
pub proof fn lemma_manifest_deterministic(a: Seq<u8>, b: Seq<u8>, block_size: u32)
    requires
        a.len() == b.len(),
        forall|i: int| 0 <= i < a.len() ==> a[i] == b[i],
    ensures
        manifest_of(a, block_size) == manifest_of(b, block_size),
{
    assert(a =~= b);
}

/// Changing one byte of the content leaves the digest of every block but the
/// one that holds the byte as it was.
pub proof fn lemma_change_is_local(
    content: Seq<u8>,
    block_size: u32,
    at: int,
    byte: u8,
    block_index: int,
)
    requires
        block_size > 0,
        0 <= at < content.len(),
        0 <= block_index < blocks_in(content.len() as int, block_size as int),
        block_index != at / (block_size as int),
    ensures
        forall|j: int|
            32 * block_index <= j < 32 * block_index + 32 ==> digest_table(
                content.update(at, byte),
                block_size as int,
            )[j] == digest_table(content, block_size as int)[j],
        digest_table(content.update(at, byte), block_size as int).len() == digest_table(
            content,
            block_size as int,
        ).len(),
{
    let changed = content.update(at, byte);
    let size = block_size as int;
    lemma_block_len(content.len() as int, size, block_index);
    let start = position(block_index, 0, size);
    let len = block_len(content.len() as int, size, block_index);
    assert(at < start || at >= start + len) by (nonlinear_arith)
        requires
            size > 0,
            0 <= at,
            block_index != at / size,
            start == block_index * size + 0,
            0 < len <= size,
            0 <= block_index,
    ;
    assert(block_bytes(changed, size, block_index) =~= block_bytes(content, size, block_index));
    assert forall|j: int| 32 * block_index <= j < 32 * block_index + 32 implies digest_table(
        changed,
        size,
    )[j] == digest_table(content, size)[j] by {
        assert(j / 32 == block_index);
        lemma_blocks_bounds(content.len() as int, size);
        assert(j < 32 * blocks_in(content.len() as int, size));
    }
}

} // verus!
