//! The ways in which framing and synthesis fail.

use vstd::prelude::*;

verus! {

/// Why an operation on the sink, or on the compressor that feeds it, failed.
#[derive(Debug, PartialEq, Eq)]
pub enum IoError {
    /// The bytes to write would run past the sink's limit.
    SinkFull,
    /// The position to seek to lies behind the end of the sink.
    SeekPastEnd,
    /// The compressor refused its input or could not end its stream; what it
    /// said of the failure is inside.
    Compressor(String),
}

/// Why a chunk could not be framed or an image not be synthesized.
#[derive(Debug, PartialEq, Eq)]
pub enum Error {
    /// Writing to or seeking on the sink failed; the cause is inside.
    Io(IoError),
    /// A chunk of declared length was closed after another number of bytes.
    LengthMismatch { wrote: usize, expected: usize },
    /// A payload length does not fit the four bytes of the length field.
    LengthOverflow,
    /// An argument was refused before anything was written: an image whose
    /// measures cannot be encoded or counted, or blocks of no bytes.
    InvalidArgument,
}

} // verus!
