//! One chunk at a time on a sink: a four-byte length, a four-byte type, the
//! payload, and a four-byte checksum over type and payload.

use vstd::prelude::*;
use crate::bytes::{be32, be32_value, encode_be32, lemma_be32_round_trip, overwrite, window};
use crate::checksum::{crc32, fold};
use crate::error::{Error, IoError};
use crate::sink::{lemma_sink_write_split, Sink, SinkView};

verus! {

/// The bytes of a whole chunk with the given type and payload.
pub open spec fn chunk_bytes(typ: Seq<u8>, payload: Seq<u8>) -> Seq<u8> {
    be32(payload.len() as u32) + typ + payload + be32(crc32(typ + payload))
}

/// The length mode of a chunk as a number, if it is known.
pub open spec fn declared_len(len: Option<usize>) -> Option<nat> {
    match len {
        Some(n) => Some(n as nat),
        None => None,
    }
}

/// The parts of a payload, one after the other.
pub open spec fn concat(parts: Seq<Seq<u8>>) -> Seq<u8>
    decreases parts.len(),
{
    if parts.len() == 0 {
        Seq::empty()
    } else {
        concat(parts.drop_last()) + parts.last()
    }
}

/// What a reader finds in a chunk.
pub struct ChunkFields {
    pub length: nat,
    pub typ: Seq<u8>,
    pub payload: Seq<u8>,
    pub checksum: nat,
}

/// What a reader finds in the chunk of the given type and payload.
pub open spec fn fields_of(typ: Seq<u8>, payload: Seq<u8>) -> ChunkFields {
    ChunkFields { length: payload.len(), typ, payload, checksum: crc32(typ + payload) as nat }
}

/// Reads the front of `bytes` as a chunk: the length, the type, as many bytes
/// of payload as the length says, and the checksum. `None` where `bytes` ends
/// before the chunk does.
#[verifier::opaque]
pub open spec fn parse_chunk(bytes: Seq<u8>) -> Option<ChunkFields> {
    if bytes.len() < 12 {
        None
    } else {
        let length = be32_value(window(bytes, 0, 4));
        if bytes.len() < 12 + length {
            None
        } else {
            Some(
                ChunkFields {
                    length,
                    typ: window(bytes, 4, 4),
                    payload: window(bytes, 8, length),
                    checksum: be32_value(window(bytes, 8 + length, 4)),
                },
            )
        }
    }
}

/// An open chunk: the sink as it stands, where the chunk started, and the
/// payload length that was declared for it, if any.
pub struct ChunkState {
    pub sink: SinkView,
    pub start: nat,
    pub declared: Option<nat>,
}

impl ChunkState {
    /// The length field as it stands in the sink.
    pub open spec fn length_field(self) -> Seq<u8> {
        window(self.sink.bytes, self.start, 4)
    }

    /// The chunk's type.
    pub open spec fn typ(self) -> Seq<u8> {
        window(self.sink.bytes, self.start + 4, 4)
    }

    /// The payload written so far: all that lies between the type and the
    /// cursor.
    pub open spec fn payload(self) -> Seq<u8> {
        self.sink.bytes.subrange(self.start as int + 8, self.sink.cursor as int)
    }

    /// The checksum that closes the chunk. The length field has no part in it.
    pub open spec fn checksum(self) -> u32 {
        crc32(self.typ() + self.payload())
    }

    /// The cursor stands behind the two header fields, and the length field
    /// holds the declared length, or zero until the length is known.
    pub open spec fn wf(self) -> bool {
        &&& self.sink.wf()
        &&& self.start + 8 <= self.sink.cursor
        &&& match self.declared {
            Some(n) => n <= u32::MAX && self.length_field() == be32(n as u32),
            None => self.length_field() == be32(0),
        }
    }

    /// The chunk that `begin` opens on `sink`.
    pub open spec fn begun(sink: SinkView, typ: Seq<u8>, declared: Option<nat>) -> ChunkState {
        let length: u32 = match declared {
            Some(n) => n as u32,
            None => 0,
        };
        ChunkState { sink: sink.write(be32(length) + typ), start: sink.cursor, declared }
    }

    /// The chunk after `data` has been written to it.
    pub open spec fn write(self, data: Seq<u8>) -> ChunkState {
        ChunkState { sink: self.sink.write(data), start: self.start, declared: self.declared }
    }

    /// The chunk after each of `parts` has been written to it, in order.
    pub open spec fn write_each(self, parts: Seq<Seq<u8>>) -> ChunkState
        decreases parts.len(),
    {
        if parts.len() == 0 {
            self
        } else {
            self.write_each(parts.drop_last()).write(parts.last())
        }
    }

    /// Whether the chunk can be closed: a declared length must have been met
    /// exactly, and a deferred one must fit its field.
    pub open spec fn closable(self) -> bool {
        match self.declared {
            Some(n) => self.payload().len() == n,
            None => self.payload().len() <= u32::MAX,
        }
    }

    /// The sink that `finish` hands back: the length field holds the payload's
    /// length, and the checksum follows the payload.
    pub open spec fn finished(self) -> SinkView {
        SinkView {
            bytes: overwrite(
                overwrite(self.sink.bytes, self.start, be32(self.payload().len() as u32)),
                self.sink.cursor,
                be32(self.checksum()),
            ),
            cursor: self.sink.cursor + 4,
            limit: self.sink.limit,
        }
    }
}

/// A chunk that is being written. It owns the sink from `begin` to `finish`,
/// so that nothing else moves the cursor in between. Only `finish` closes the
/// chunk: one that is dropped leaves its sink behind without a checksum, and
/// without a length where that was deferred.
#[must_use]
pub struct ChunkWriter {
    w: Sink,
    len: Option<usize>,
    crc: u32,
    start: usize,
}

impl View for ChunkWriter {
    type V = ChunkState;

    closed spec fn view(&self) -> ChunkState {
        ChunkState { sink: self.w@, start: self.start as nat, declared: declared_len(self.len) }
    }
}

/// Carries the cause of a failed sink operation into the library's error.
fn lift(r: Result<(), IoError>) -> (out: Result<(), Error>)
    ensures
        out == match r {
            Ok(()) => Ok::<(), Error>(()),
            Err(e) => Err::<(), Error>(Error::Io(e)),
        },
{
    match r {
        Ok(()) => Ok(()),
        Err(e) => Err(Error::Io(e)),
    }
}

impl ChunkWriter {
    /// The chunk is well formed, and the running checksum covers the type and
    /// the payload written so far.
    pub closed spec fn wf(&self) -> bool {
        &&& self@.wf()
        &&& self.crc == self@.checksum()
    }

    /// A well-formed writer has a well-formed view.
    pub proof fn lemma_wf(&self)
        requires
            self.wf(),
        ensures
            self@.wf(),
    {
    }

    /// Opens a chunk of type `typ` at the sink's cursor: writes the length
    /// field, which holds `len` or a zero to be replaced at the end, then the
    /// type.
    pub fn begin(w: Sink, typ: [u8; 4], len: Option<usize>) -> (r: Result<ChunkWriter, Error>)
        requires
            w@.wf(),
        ensures
            match r {
                Ok(cw) => cw.wf() && cw@ == ChunkState::begun(w@, typ@, declared_len(len)),
                Err(e) => e == if len is Some && len->0 > u32::MAX {
                    Error::LengthOverflow
                } else {
                    Error::Io(IoError::SinkFull)
                },
            },
            r is Ok <==> !(len is Some && len->0 > u32::MAX) && w@.has_room(8),
    {
        let mut w = w;
        let start: usize = w.position();
        let length: u32 = match len {
            Some(n) => {
                if n > u32::MAX as usize {
                    return Err(Error::LengthOverflow);
                }
                n as u32
            },
            None => 0,
        };
        let ghost before = w@;
        let field = encode_be32(length);
        lift(w.write_all(field.as_slice()))?;
        lift(w.write_all(typ.as_slice()))?;
        let crc: u32 = fold(0, typ.as_slice());
        let cw = ChunkWriter { w, len, crc, start };
        proof {
            assert(cw@.sink.bytes =~= before.write(be32(length) + typ@).bytes);
            assert(cw@.typ() + cw@.payload() =~= typ@);
            assert(cw@.length_field() =~= be32(length));
        }
        Ok(cw)
    }

    /// Writes `data` as the next part of the payload and folds it into the
    /// checksum. Returns the number of bytes written, which is all of them;
    /// where the sink has no room for all, nothing is written.
    pub fn write(&mut self, data: &[u8]) -> (r: Result<usize, Error>)
        requires
            old(self).wf(),
        ensures
            final(self).wf(),
            r is Ok <==> old(self)@.sink.has_room(data@.len()),
            match r {
                Ok(n) => n == data@.len() && final(self)@ == old(self)@.write(data@),
                Err(e) => e == Error::Io(IoError::SinkFull) && final(self)@ == old(self)@,
            },
    {
        let ghost head = self@.typ() + self@.payload();
        match self.w.write_all(data) {
            Ok(()) => {},
            Err(e) => {
                return Err(Error::Io(e));
            },
        }
        self.crc = fold(self.crc, data);
        proof {
            assert(self@.typ() + self@.payload() =~= head + data@);
            assert(self@.length_field() =~= old(self)@.length_field());
        }
        Ok(data.len())
    }

    /// Hands on what the sink has buffered, which is nothing: every write has
    /// reached the sink's bytes already.
    pub fn flush(&mut self) -> (r: Result<(), Error>)
        requires
            old(self).wf(),
        ensures
            r is Ok,
            final(self).wf(),
            final(self)@ == old(self)@,
    {
        Ok(())
    }

    /// Closes the chunk and gives the sink back. A declared length is held
    /// against the distance that the cursor has moved; a deferred one is
    /// taken from that distance and written over the placeholder. The
    /// checksum comes last.
    pub fn finish(self) -> (r: Result<Sink, Error>)
        requires
            self.wf(),
        ensures
            r is Ok <==> self@.closable() && self@.sink.has_room(4),
            match r {
                Ok(w) => w@.wf() && w@ == self@.finished(),
                Err(e) => e == match self@.declared {
                    Some(n) if self@.payload().len() != n => Error::LengthMismatch {
                        wrote: self@.payload().len() as usize,
                        expected: n as usize,
                    },
                    None if self@.payload().len() > u32::MAX => Error::LengthOverflow,
                    _ => Error::Io(IoError::SinkFull),
                },
            },
    {
        let ghost state = self@;
        let crc: u32 = self.crc;
        let start: usize = self.start;
        let declared: Option<usize> = self.len;
        let mut w = self.w;
        let cur: usize = w.position();
        let len: usize = cur - start - 8;
        match declared {
            Some(hlen) => {
                if len != hlen {
                    return Err(Error::LengthMismatch { wrote: len, expected: hlen });
                }
            },
            None => {
                if len > u32::MAX as usize {
                    return Err(Error::LengthOverflow);
                }
                let field = encode_be32(len as u32);
                lift(w.seek(start))?;
                lift(w.write_all(field.as_slice()))?;
                lift(w.seek(cur))?;
            },
        }
        assert(w@.bytes =~= overwrite(state.sink.bytes, state.start, be32(len as u32)));
        let sum = encode_be32(crc);
        lift(w.write_all(sum.as_slice()))?;
        Ok(w)
    }
}

/// Writes a whole chunk of type `typ` with the payload `data`.
pub fn write_chunk(w: Sink, typ: [u8; 4], data: &[u8]) -> (r: Result<Sink, Error>)
    requires
        w@.wf(),
    ensures
        r is Ok <==> data@.len() <= u32::MAX && w@.has_room(12 + data@.len()),
        match r {
            Ok(out) => out@.wf() && out@ == w@.write(chunk_bytes(typ@, data@)),
            Err(e) => e == if data@.len() > u32::MAX {
                Error::LengthOverflow
            } else {
                Error::Io(IoError::SinkFull)
            },
        },
{
    let mut cw = ChunkWriter::begin(w, typ, Some(data.len()))?;
    cw.write(data)?;
    proof {
        lemma_chunk_layout(w@, typ@, Some(data@.len()), data@);
    }
    cw.finish()
}

/// Whether a payload comes in one write or in two makes no difference to the
/// chunk.
pub proof fn lemma_write_split(st: ChunkState, first: Seq<u8>, second: Seq<u8>)
    requires
        st.sink.wf(),
    ensures
        st.write(first).write(second) == st.write(first + second),
{
    lemma_sink_write_split(st.sink, first, second);
}

/// What was written to an opened chunk is its payload, and its type is the
/// one it was opened with.
pub proof fn lemma_written_payload(
    sink: SinkView,
    typ: Seq<u8>,
    declared: Option<nat>,
    payload: Seq<u8>,
)
    requires
        sink.wf(),
        typ.len() == 4,
    ensures
        ChunkState::begun(sink, typ, declared).write(payload).typ() == typ,
        ChunkState::begun(sink, typ, declared).write(payload).payload() == payload,
{
    let filled = ChunkState::begun(sink, typ, declared).write(payload);
    assert(filled.typ() =~= typ);
    assert(filled.payload() =~= payload);
}

/// A chunk that was opened, filled with `payload` and closed holds exactly
/// the bytes of that chunk where the cursor stood, whether its length was
/// declared before or found at the end.
pub proof fn lemma_chunk_layout(
    sink: SinkView,
    typ: Seq<u8>,
    declared: Option<nat>,
    payload: Seq<u8>,
)
    requires
        sink.wf(),
        sink.has_room(8 + payload.len()),
        typ.len() == 4,
        payload.len() <= u32::MAX,
        declared is Some ==> declared->0 == payload.len(),
    ensures
        ChunkState::begun(sink, typ, declared).wf(),
        ChunkState::begun(sink, typ, declared).write(payload).wf(),
        ChunkState::begun(sink, typ, declared).write(payload).typ() == typ,
        ChunkState::begun(sink, typ, declared).write(payload).payload() == payload,
        ChunkState::begun(sink, typ, declared).write(payload).closable(),
        ChunkState::begun(sink, typ, declared).write(payload).finished() == sink.write(
            chunk_bytes(typ, payload),
        ),
{
    let opened = ChunkState::begun(sink, typ, declared);
    let filled = opened.write(payload);
    assert(opened.length_field() =~= be32(
        match declared {
            Some(n) => n as u32,
            None => 0,
        },
    ));
    assert(filled.length_field() =~= opened.length_field());
    assert(filled.typ() =~= typ);
    assert(filled.payload() =~= payload);
    assert(filled.finished().bytes =~= sink.write(chunk_bytes(typ, payload)).bytes);
}

/// However a payload is cut into writes, the chunk is the one that a single
/// write of the whole payload gives.
pub proof fn lemma_writes_concat(st: ChunkState, parts: Seq<Seq<u8>>)
    requires
        st.sink.wf(),
    ensures
        st.write_each(parts) == st.write(concat(parts)),
    decreases parts.len(),
{
    if parts.len() == 0 {
        assert(st.write(concat(parts)).sink.bytes =~= st.sink.bytes);
    } else {
        lemma_writes_concat(st, parts.drop_last());
        lemma_write_split(st, concat(parts.drop_last()), parts.last());
    }
}

/// A reader of the bytes of a chunk finds the payload's length, the type,
/// the payload itself, and the checksum of type and payload, whatever
/// follows the chunk.
pub proof fn lemma_parse_chunk(typ: Seq<u8>, payload: Seq<u8>, rest: Seq<u8>)
    requires
        typ.len() == 4,
        payload.len() <= u32::MAX,
    ensures
        chunk_bytes(typ, payload).len() == 12 + payload.len(),
        parse_chunk(chunk_bytes(typ, payload) + rest) == Some(fields_of(typ, payload)),
{
    reveal(parse_chunk);
    let bytes = chunk_bytes(typ, payload) + rest;
    let n = payload.len();
    lemma_be32_round_trip(n as u32);
    lemma_be32_round_trip(crc32(typ + payload));
    assert(window(bytes, 0, 4) =~= be32(n as u32));
    assert(window(bytes, 4, 4) =~= typ);
    assert(window(bytes, 8, n) =~= payload);
    assert(window(bytes, 8 + n, 4) =~= be32(crc32(typ + payload)));
}

/// Round trip: where a chunk was written to a sink, a reader finds the
/// payload's length, the type, the payload itself, and the checksum of type
/// and payload.
pub proof fn lemma_round_trip(sink: SinkView, typ: Seq<u8>, payload: Seq<u8>)
    requires
        sink.wf(),
        typ.len() == 4,
        payload.len() <= u32::MAX,
    ensures
        parse_chunk(sink.write(chunk_bytes(typ, payload)).bytes.skip(sink.cursor as int)) == Some(
            fields_of(typ, payload),
        ),
{
    let written = sink.write(chunk_bytes(typ, payload)).bytes.skip(sink.cursor as int);
    let rest = written.skip(12 + payload.len() as int);
    lemma_parse_chunk(typ, payload, rest);
    assert(written =~= chunk_bytes(typ, payload) + rest);
}

/// Deferred length: a chunk that was opened without a length and written in
/// any number of parts is, once closed, byte for byte the chunk of the whole
/// payload, and its length field holds the number of bytes in all the parts.
pub proof fn lemma_deferred_length(sink: SinkView, typ: Seq<u8>, parts: Seq<Seq<u8>>)
    requires
        sink.wf(),
        sink.has_room(8 + concat(parts).len()),
        typ.len() == 4,
        concat(parts).len() <= u32::MAX,
    ensures
        ChunkState::begun(sink, typ, None).write_each(parts).closable(),
        ChunkState::begun(sink, typ, None).write_each(parts).finished() == sink.write(
            chunk_bytes(typ, concat(parts)),
        ),
        be32_value(
            window(
                ChunkState::begun(sink, typ, None).write_each(parts).finished().bytes,
                sink.cursor,
                4,
            ),
        ) == concat(parts).len(),
{
    let opened = ChunkState::begun(sink, typ, None);
    let payload = concat(parts);
    lemma_chunk_layout(sink, typ, None, payload);
    lemma_writes_concat(opened, parts);
    lemma_be32_round_trip(payload.len() as u32);
}

/// The checksum leaves the length field out: two open chunks of one type and
/// one payload close with the same checksum field, whatever length was
/// declared for either and wherever in its sink either stands.
pub proof fn lemma_checksum_excludes_length(a: ChunkState, b: ChunkState)
    requires
        a.wf(),
        b.wf(),
        a.typ() == b.typ(),
        a.payload() == b.payload(),
    ensures
        a.checksum() == b.checksum(),
        window(a.finished().bytes, a.sink.cursor, 4) == be32(a.checksum()),
        window(b.finished().bytes, b.sink.cursor, 4) == be32(a.checksum()),
{
}

} // verus!
