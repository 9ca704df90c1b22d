//! A minimal file-transfer protocol over an unreliable datagram transport.
//!
//! The crate holds the protocol engine only: the frame header and payload
//! codecs, the block-addressing arithmetic, the per-block digest manifest and
//! the sender and receiver state machines. Sockets, files and the command
//! line belong to the program built around it.
//!
//! - [`wire`]: big-endian integer fields.
//! - [`header`]: the fixed header of every message.
//! - [`payload`]: the payloads of handshake, data, acknowledgment and close.
//! - [`manifest`]: the manifest, its builder and the block verifier.
//! - [`addressing`]: from block index and offset to file position.
//! - [`frame`]: whole messages.
//! - [`sender`], [`receiver`]: the two sides of a session.
//! - [`session`]: what a whole session achieves.
//! - [`clock`]: message timestamps.
//! - [`error`]: what can go wrong.

pub mod addressing;
pub mod clock;
pub mod error;
pub mod frame;
pub mod header;
pub mod manifest;
pub mod payload;
pub mod receiver;
pub mod sender;
pub mod session;
pub mod wire;
