//! Streaming framing of length-prefixed, checksummed chunks onto a seekable
//! byte sink, and the synthesis of an all-black PNG image on top of it.
//!
//! A chunk is four bytes of length, four bytes of type, the payload, and a
//! CRC-32 over type and payload. [`ChunkWriter`] opens one chunk at a time on
//! a [`Sink`]: with a length declared up front, which it holds the payload
//! to, or without one, in which case it goes back at the end and writes the
//! length that the cursor has measured. [`StreamingCompressor`] stands on an
//! open chunk and turns what is written to it into a zlib stream.
//! [`ZeroReader`] yields the zero bytes of a black image without holding
//! them, and [`render`] puts the parts together.
//!
//! Every function states what it does over a model of the sink, a byte
//! string with a cursor, and the laws that relate the functions are proof
//! functions beside them.

pub mod bytes;
pub mod checksum;
pub mod chunk;
pub mod compress;
pub mod error;
pub mod image;
pub mod sink;
pub mod zero;

pub use chunk::{write_chunk, ChunkWriter};
pub use compress::StreamingCompressor;
pub use error::{Error, IoError};
pub use image::{render, BitDepth, ColorType};
pub use sink::Sink;
pub use zero::ZeroReader;
