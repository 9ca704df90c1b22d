//! What can go wrong while a session runs.

use vstd::prelude::*;

verus! {

/// Bytes off the wire that cannot be decoded.
#[derive(Clone, Copy, Debug, PartialEq, Eq, Structural)]
pub enum FrameError {
    /// The bytes end before the header or the payload does.
    Truncated,
    /// The header names a protocol version other than the supported one.
    UnsupportedVersion,
    /// A manifest whose block size is zero, or whose block count is not the
    /// number of blocks that its file size and block size give.
    InconsistentManifest,
}

/// Why a state machine refused a message or ended its session.
#[derive(Clone, Copy, Debug, PartialEq, Eq, Structural)]
pub enum ProtocolError {
    /// The message could not be decoded.
    Frame(FrameError),
    /// The message is of a type that the current state does not expect.
    Sequence,
    /// A data message that names a block outside the manifest, or bytes
    /// outside that block.
    OutOfRange,
}

/// A transfer that cannot be set up as asked.
#[derive(Clone, Copy, Debug, PartialEq, Eq, Structural)]
pub enum SetupError {
    /// The block size is zero.
    ZeroBlockSize,
    /// The file has more blocks than the 32-bit fields of the protocol can
    /// count.
    TooManyBlocks,
    /// A block is longer than the 16-bit length field of a data message
    /// can say.
    BlockTooLong,
    /// A block handed to a manifest builder that is empty or longer than the
    /// block size, or that follows a block shorter than the block size.
    UnevenBlock,
}

} // verus!
