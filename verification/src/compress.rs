//! The streaming compressor that stands between the image data and its chunk.

use vstd::prelude::*;
use crate::chunk::{ChunkState, ChunkWriter};
use crate::error::{Error, IoError};

verus! {

/// The error of std's readers and writers, opaque here.
#[verifier::external_type_specification]
#[verifier::external_body]
pub struct ExIoError(std::io::Error);

/// The compression level of every stream.
pub const LEVEL: u32 = 4;

/// A zlib stream in the making: `flate2`'s encoder over a buffer that
/// collects its output. The encoder is generic over std's `Write`, which the
/// verifier does not take as a bound, so it is held out of the verifier's
/// sight; what is known of it is said by the names below.
#[verifier::external_body]
pub struct Deflater {
    inner: flate2::write::ZlibEncoder<Vec<u8>>,
}

/// The parts of raw input that the encoder has taken, in order.
pub uninterp spec fn fed(enc: Deflater) -> Seq<Seq<u8>>;

/// The compressed bytes that have been taken out of the encoder so far.
pub uninterp spec fn emitted(enc: Deflater) -> Seq<u8>;

/// The compression level that the encoder was made with.
pub uninterp spec fn level_of(enc: Deflater) -> u32;

/// Whether an encoder of the given level takes each of `parts` in turn, as
/// `std::io::Write::write_all` on `flate2::write::ZlibEncoder` tells.
pub uninterp spec fn accepted(level: u32, parts: Seq<Seq<u8>>) -> bool;

/// The whole zlib stream that an encoder of the given level gives out once it
/// has taken `parts` and is ended with `flate2::write::ZlibEncoder::finish`;
/// `None` where it does not end.
pub uninterp spec fn zlib_stream(level: u32, parts: Seq<Seq<u8>>) -> Option<Seq<u8>>;

/// Starts a zlib stream at compression level `level` that collects its output
/// in a buffer of its own.
///
/// Calls `flate2::write::ZlibEncoder::new` on an empty `Vec` with
/// `flate2::Compression::new(level)`. Not proved: that the new encoder has
/// taken nothing, given out nothing, and has the level asked for. Levels
/// above ten are left out: the backend asserts that there are none.
#[verifier::external_body]
fn deflater(level: u32) -> (enc: Deflater)
    requires
        level <= 10,
    ensures
        fed(enc) == Seq::<Seq<u8>>::empty(),
        emitted(enc) == Seq::<u8>::empty(),
        level_of(enc) == level,
{
    Deflater { inner: flate2::write::ZlibEncoder::new(Vec::new(), flate2::Compression::new(level)) }
}

/// Hands `raw` to the encoder as the next part of the stream's input.
///
/// Calls `std::io::Write::write_all` on the encoder. Not proved: that the
/// outcome is a matter of the level and of the parts handed over so far
/// alone, which [`accepted`] names; that a part which was taken is the last
/// of the parts taken; that after a refusal no longer run of parts is taken
/// either; and that level and bytes taken out stay as they were. The source
/// shows an encoder that steps through its input with no other influence,
/// and a loop that stops at the first refusal.
#[verifier::external_body]
fn feed(enc: &mut Deflater, raw: &[u8]) -> (r: Result<(), std::io::Error>)
    ensures
        level_of(*final(enc)) == level_of(*old(enc)),
        emitted(*final(enc)) == emitted(*old(enc)),
        r is Ok <==> accepted(level_of(*old(enc)), fed(*old(enc)).push(raw@)),
        r is Ok ==> fed(*final(enc)) == fed(*old(enc)).push(raw@),
        r is Err ==> forall|more: Seq<Seq<u8>>|
            !accepted(level_of(*old(enc)), #[trigger] (fed(*old(enc)).push(raw@) + more)),
{
    std::io::Write::write_all(&mut enc.inner, raw)
}

/// Takes out the compressed bytes that the encoder has put into its buffer
/// since they were last taken, and leaves the buffer empty.
///
/// Calls `flate2::write::ZlibEncoder::get_mut` and `std::mem::take` on the
/// buffer. Not proved: that the bytes taken out grow by what is returned,
/// that they are the front of every stream that the parts taken so far may
/// yet end in, and that level and parts stay as they were. How many bytes
/// come at one time is not said.
#[verifier::external_body]
fn drain(enc: &mut Deflater) -> (out: Vec<u8>)
    ensures
        level_of(*final(enc)) == level_of(*old(enc)),
        fed(*final(enc)) == fed(*old(enc)),
        emitted(*final(enc)) == emitted(*old(enc)) + out@,
        forall|more: Seq<Seq<u8>>|
            accepted(level_of(*old(enc)), fed(*old(enc)) + more) && (#[trigger] zlib_stream(
                level_of(*old(enc)),
                fed(*old(enc)) + more,
            )) is Some ==> emitted(*final(enc)).is_prefix_of(
                zlib_stream(level_of(*old(enc)), fed(*old(enc)) + more)->0,
            ),
{
    std::mem::take(enc.inner.get_mut())
}

/// Ends the stream and returns the compressed bytes that were still to come.
///
/// Calls `flate2::write::ZlibEncoder::finish`. Not proved: that the outcome
/// is a matter of the level and the parts taken alone, and that the bytes
/// taken out before, followed by those returned, are the whole stream that
/// [`zlib_stream`] names.
#[verifier::external_body]
fn close(enc: Deflater) -> (r: Result<Vec<u8>, std::io::Error>)
    ensures
        r is Ok <==> zlib_stream(level_of(enc), fed(enc)) is Some,
        r is Ok ==> zlib_stream(level_of(enc), fed(enc)) == Some(emitted(enc) + r->Ok_0@),
{
    enc.inner.finish()
}

/// What the error says of itself.
///
/// Calls `std::string::ToString::to_string` on the error. Nothing is claimed
/// of the text.
#[verifier::external_body]
fn reason(e: &std::io::Error) -> (text: String) {
    e.to_string()
}

/// Whether the compressor takes each of `parts` in turn. It takes no parts
/// without being asked.
pub open spec fn taken(parts: Seq<Seq<u8>>) -> bool {
    parts.len() == 0 || accepted(LEVEL, parts)
}

/// The zlib stream that the compressor makes of `parts`, handed to it one
/// after the other; `None` where it refuses one of them or does not end.
pub open spec fn compressed(parts: Seq<Seq<u8>>) -> Option<Seq<u8>> {
    if taken(parts) {
        zlib_stream(LEVEL, parts)
    } else {
        None
    }
}

/// A compressor at work: the chunk underneath, the parts of raw input that
/// it has taken, and the compressed bytes that it has handed on.
pub struct CompressorState {
    pub chunk: ChunkState,
    pub fed: Seq<Seq<u8>>,
    pub emitted: Seq<u8>,
}

impl CompressorState {
    /// The compressed bytes handed on since the compressor was as in `before`.
    pub open spec fn since(self, before: CompressorState) -> Seq<u8> {
        self.emitted.skip(before.emitted.len() as int)
    }

    /// Whether the compressor has come from `before` by handing on more.
    pub open spec fn follows(self, before: CompressorState) -> bool {
        self.emitted == before.emitted + self.since(before)
    }

    /// What has been handed on is the front of every stream that the parts
    /// taken so far may yet end in.
    pub open spec fn on_course(self) -> bool {
        forall|more: Seq<Seq<u8>>|
            (#[trigger] compressed(self.fed + more)) is Some ==> self.emitted.is_prefix_of(
                compressed(self.fed + more)->0,
            )
    }

    /// The chunk is well formed, the parts were all taken, and the stream is
    /// on course.
    pub open spec fn wf(self) -> bool {
        &&& self.chunk.wf()
        &&& taken(self.fed)
        &&& self.on_course()
    }
}

/// A compressor on top of an open chunk. Raw bytes are written to it; the
/// chunk receives the compressed stream, part by part as the encoder lets go
/// of it, and the rest when the compressor is finished.
#[must_use]
pub struct StreamingCompressor {
    inner: ChunkWriter,
    enc: Deflater,
}

impl View for StreamingCompressor {
    type V = CompressorState;

    closed spec fn view(&self) -> CompressorState {
        CompressorState { chunk: self.inner@, fed: fed(self.enc), emitted: emitted(self.enc) }
    }
}

impl StreamingCompressor {
    /// The chunk writer underneath is well formed, the encoder works at the
    /// library's level, and the view is well formed.
    pub closed spec fn wf(&self) -> bool {
        &&& self.inner.wf()
        &&& level_of(self.enc) == LEVEL
        &&& self@.wf()
    }

    /// A well-formed compressor has a well-formed view.
    pub proof fn lemma_wf(&self)
        requires
            self.wf(),
        ensures
            self@.wf(),
    {
    }

    /// Starts a compressed stream that goes into `inner`.
    pub fn new(inner: ChunkWriter) -> (c: StreamingCompressor)
        requires
            inner.wf(),
        ensures
            c.wf(),
            c@ == (CompressorState { chunk: inner@, fed: Seq::empty(), emitted: Seq::empty() }),
    {
        proof {
            inner.lemma_wf();
        }
        StreamingCompressor { inner, enc: deflater(LEVEL) }
    }

    /// Compresses `raw` as the next part of the stream and writes to the
    /// chunk what the encoder hands out, which may be nothing yet. Returns the
    /// number of raw bytes taken, which is all of them. It succeeds where the
    /// encoder takes the part and the sink has room for what it hands out.
    /// Where the encoder refuses, the stream is broken; where the sink is
    /// full, what was handed out is lost. Either way the chunk is as it was.
    pub fn write(&mut self, raw: &[u8]) -> (r: Result<usize, Error>)
        requires
            old(self).wf(),
        ensures
            final(self)@.follows(old(self)@),
            r is Ok <==> taken(old(self)@.fed.push(raw@)) && old(self)@.chunk.sink.has_room(
                final(self)@.since(old(self)@).len(),
            ),
            taken(old(self)@.fed.push(raw@)) ==> final(self).wf()
                && final(self)@.fed == old(self)@.fed.push(raw@),
            match r {
                Ok(n) => n == raw@.len() && final(self)@.chunk == old(self)@.chunk.write(
                    final(self)@.since(old(self)@),
                ),
                Err(e) => final(self)@.chunk == old(self)@.chunk && e is Io && if taken(
                    old(self)@.fed.push(raw@),
                ) {
                    e->Io_0 is SinkFull
                } else {
                    e->Io_0 is Compressor && forall|more: Seq<Seq<u8>>|
                        !taken(#[trigger] (old(self)@.fed.push(raw@) + more))
                },
            },
    {
        proof {
            self.inner.lemma_wf();
        }
        match feed(&mut self.enc, raw) {
            Ok(()) => {},
            Err(e) => {
                proof {
                    let parts = old(self)@.fed.push(raw@);
                    assert(self@.since(old(self)@) =~= Seq::<u8>::empty());
                    assert(self@.emitted =~= old(self)@.emitted + self@.since(old(self)@));
                    assert(parts + Seq::<Seq<u8>>::empty() =~= parts);
                    assert forall|more: Seq<Seq<u8>>| !taken(#[trigger] (parts + more)) by {
                        assert((parts + more).len() > 0);
                    }
                }
                return Err(Error::Io(IoError::Compressor(reason(&e))));
            },
        }
        let part: Vec<u8> = drain(&mut self.enc);
        proof {
            let parts = old(self)@.fed.push(raw@);
            assert(self@.since(old(self)@) =~= part@);
            assert forall|more: Seq<Seq<u8>>|
                (#[trigger] compressed(parts + more)) is Some implies self@.emitted.is_prefix_of(
                compressed(parts + more)->0,
            ) by {
                assert((parts + more).len() > 0);
                assert(zlib_stream(LEVEL, parts + more) is Some);
            }
        }
        let written = self.inner.write(part.as_slice());
        proof {
            self.inner.lemma_wf();
        }
        match written {
            Ok(_) => Ok(raw.len()),
            Err(e) => Err(e),
        }
    }

    /// Ends the stream, writes what was still to come, and gives the chunk
    /// back. It succeeds where the encoder ends its stream and the sink has
    /// room for the rest of it.
    pub fn finish(self) -> (r: Result<ChunkWriter, Error>)
        requires
            self.wf(),
        ensures
            compressed(self@.fed) is Some ==> self@.emitted.is_prefix_of(compressed(self@.fed)->0),
            r is Ok <==> compressed(self@.fed) is Some && self@.chunk.sink.has_room(
                (compressed(self@.fed)->0.len() - self@.emitted.len()) as nat,
            ),
            match r {
                Ok(cw) => cw.wf() && cw@ == self@.chunk.write(
                    compressed(self@.fed)->0.skip(self@.emitted.len() as int),
                ),
                Err(e) => e is Io && if compressed(self@.fed) is Some {
                    e->Io_0 is SinkFull
                } else {
                    e->Io_0 is Compressor
                },
            },
    {
        let mut inner = self.inner;
        let rest: Vec<u8> = match close(self.enc) {
            Ok(v) => v,
            Err(e) => {
                return Err(Error::Io(IoError::Compressor(reason(&e))));
            },
        };
        assert((self@.emitted + rest@).skip(self@.emitted.len() as int) =~= rest@);
        match inner.write(rest.as_slice()) {
            Ok(_) => Ok(inner),
            Err(e) => Err(e),
        }
    }
}

} // verus!
