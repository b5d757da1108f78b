//! A verified reader/rewriter for the "bgcode"-style binary container format:
//! a fixed file header followed by a sequence of blocks, each of which ends in
//! a file-level number of checksum bytes. The walker copies a container through
//! verbatim, optionally corrupting the checksum suffix of selected blocks.

pub mod block;
pub mod error;
pub mod header;
pub mod laws;
pub mod walker;
pub mod wire;
