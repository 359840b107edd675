//! A seekable byte sink held in memory.

use vstd::prelude::*;
use crate::bytes::{lemma_overwrite_append, overwrite};
use crate::error::IoError;

verus! {

/// What a sink holds: its bytes, where the next write goes, and how long it
/// may grow.
pub struct SinkView {
    pub bytes: Seq<u8>,
    pub cursor: nat,
    pub limit: nat,
}

impl SinkView {
    /// The sink after `data` has been written at the cursor.
    pub open spec fn write(self, data: Seq<u8>) -> SinkView {
        SinkView {
            bytes: overwrite(self.bytes, self.cursor, data),
            cursor: self.cursor + data.len(),
            limit: self.limit,
        }
    }

    /// The sink after the cursor has been moved to `pos`.
    pub open spec fn seek(self, pos: nat) -> SinkView {
        SinkView { bytes: self.bytes, cursor: pos, limit: self.limit }
    }

    /// Whether `n` more bytes can be written at the cursor.
    pub open spec fn has_room(self, n: nat) -> bool {
        self.cursor + n <= self.limit
    }

    /// The cursor lies within the bytes, and the bytes within the limit.
    pub open spec fn wf(self) -> bool {
        self.cursor <= self.bytes.len() <= self.limit
    }
}

/// A growable byte string with a cursor. A write replaces the bytes under the
/// cursor and extends the string behind its end, as a file does; it is refused
/// as a whole where it would pass the limit.
pub struct Sink {
    data: Vec<u8>,
    pos: usize,
    limit: usize,
}

impl View for Sink {
    type V = SinkView;

    closed spec fn view(&self) -> SinkView {
        SinkView { bytes: self.data@, cursor: self.pos as nat, limit: self.limit as nat }
    }
}

impl Sink {
    /// An empty sink that may grow as far as memory allows.
    pub fn new() -> (s: Sink)
        ensures
            s@ == (SinkView { bytes: Seq::empty(), cursor: 0, limit: usize::MAX as nat }),
    {
        Sink { data: Vec::new(), pos: 0, limit: usize::MAX }
    }

    /// An empty sink that refuses to grow past `limit` bytes.
    pub fn with_limit(limit: usize) -> (s: Sink)
        ensures
            s@ == (SinkView { bytes: Seq::empty(), cursor: 0, limit: limit as nat }),
    {
        Sink { data: Vec::new(), pos: 0, limit }
    }

    /// The position of the cursor.
    pub fn position(&self) -> (pos: usize)
        ensures
            pos == self@.cursor,
    {
        self.pos
    }

    /// The bytes written so far.
    pub fn as_slice(&self) -> (s: &[u8])
        ensures
            s@ == self@.bytes,
    {
        self.data.as_slice()
    }

    /// Gives up the sink for its bytes.
    pub fn into_bytes(self) -> (v: Vec<u8>)
        ensures
            v@ == self@.bytes,
    {
        self.data
    }

    /// Moves the cursor to `pos`, which must not lie behind the end.
    pub fn seek(&mut self, pos: usize) -> (r: Result<(), IoError>)
        requires
            old(self)@.wf(),
        ensures
            r is Ok <==> pos <= old(self)@.bytes.len(),
            match r {
                Ok(()) => final(self)@ == old(self)@.seek(pos as nat),
                Err(e) => e == IoError::SeekPastEnd && final(self)@ == old(self)@,
            },
    {
        if pos > self.data.len() {
            return Err(IoError::SeekPastEnd);
        }
        self.pos = pos;
        Ok(())
    }

    /// Writes all of `data` at the cursor, or nothing where that would pass
    /// the limit.
    pub fn write_all(&mut self, data: &[u8]) -> (r: Result<(), IoError>)
        requires
            old(self)@.wf(),
        ensures
            r is Ok <==> old(self)@.has_room(data@.len()),
            match r {
                Ok(()) => final(self)@ == old(self)@.write(data@),
                Err(e) => e == IoError::SinkFull && final(self)@ == old(self)@,
            },
    {
        let n: usize = data.len();
        if n > self.limit - self.pos {
            return Err(IoError::SinkFull);
        }
        let ghost before = self.data@;
        let mut i: usize = 0;
        while i < n
            invariant
                i <= n,
                n == data@.len(),
                self.pos == old(self).pos,
                self.limit == old(self).limit,
                self.pos <= before.len(),
                self.pos + n <= self.limit,
                self.data@ == overwrite(before, self.pos as nat, data@.subrange(0, i as int)),
            decreases n - i,
        {
            let b: u8 = data[i];
            let at: usize = self.pos + i;
            if at < self.data.len() {
                self.data[at] = b;
            } else {
                self.data.push(b);
            }
            i = i + 1;
        }
        assert(data@.subrange(0, n as int) =~= data@);
        self.pos = self.pos + n;
        Ok(())
    }
}

/// Two writes in a row are one write of both.
pub proof fn lemma_sink_write_split(sink: SinkView, first: Seq<u8>, second: Seq<u8>)
    requires
        sink.wf(),
    ensures
        sink.write(first).write(second) == sink.write(first + second),
{
    lemma_overwrite_append(sink.bytes, sink.cursor, first, second);
}

} // verus!
