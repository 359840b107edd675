//! The synthesis of an all-black PNG image: signature, header chunk,
//! compressed image data, trailer chunk.

use vstd::prelude::*;
use crate::bytes::{be32, encode_be32, window};
use crate::chunk::{
    chunk_bytes, fields_of, lemma_chunk_layout, lemma_parse_chunk, lemma_write_split,
    lemma_written_payload, parse_chunk, write_chunk, ChunkWriter,
};
use crate::compress::{compressed, taken, StreamingCompressor};
use crate::error::{Error, IoError};
use crate::sink::{lemma_sink_write_split, Sink};
use crate::zero::{zeros, ZeroReader};

verus! {

/// The eight bytes that open every PNG stream.
pub const SIGNATURE: [u8; 8] = [137, 80, 78, 71, 13, 10, 26, 10];

/// The type of the header chunk.
pub const IHDR: [u8; 4] = [73, 72, 68, 82];

/// The type of the image data chunk.
pub const IDAT: [u8; 4] = [73, 68, 65, 84];

/// The type of the trailer chunk.
pub const IEND: [u8; 4] = [73, 69, 78, 68];

/// The number of raw bytes that `render` hands to the compressor at a time.
pub const BLOCK_SIZE: usize = 65536;

/// How the samples of a pixel are laid out.
#[derive(Clone, Copy, Debug, PartialEq, Eq, Structural)]
pub enum ColorType {
    Grayscale,
    RGB,
    Indexed,
    GrayscaleAlpha,
    RGBA,
}

/// The number of bits in a sample.
#[derive(Clone, Copy, Debug, PartialEq, Eq, Structural)]
pub enum BitDepth {
    One,
    Two,
    Four,
    Eight,
    Sixteen,
}

/// The number of samples in a pixel of the color type with the code `code`.
pub open spec fn samples_of(code: u8) -> u8 {
    if code == 2 {
        3
    } else if code == 4 {
        2
    } else if code == 6 {
        4
    } else {
        1
    }
}

/// The bytes of one row as they are compressed: the byte that names the
/// filter, then `width` pixels of `samples` samples of `bits` bits each,
/// packed, the last byte filled up.
pub open spec fn row_length(width: nat, bits: nat, samples: nat) -> nat {
    1 + (width * samples * bits + 7) / 8
}

impl ColorType {
    /// The byte that stands for the color type in the header.
    pub open spec fn spec_code(self) -> u8 {
        match self {
            ColorType::Grayscale => 0,
            ColorType::RGB => 2,
            ColorType::Indexed => 3,
            ColorType::GrayscaleAlpha => 4,
            ColorType::RGBA => 6,
        }
    }

    /// The byte that stands for the color type in the header.
    #[verifier::when_used_as_spec(spec_code)]
    pub fn code(self) -> (c: u8)
        ensures
            c == self.spec_code(),
    {
        match self {
            ColorType::Grayscale => 0,
            ColorType::RGB => 2,
            ColorType::Indexed => 3,
            ColorType::GrayscaleAlpha => 4,
            ColorType::RGBA => 6,
        }
    }

    /// The number of samples in a pixel.
    pub open spec fn spec_samples(self) -> u8 {
        samples_of(self.spec_code())
    }

    /// The number of samples in a pixel.
    #[verifier::when_used_as_spec(spec_samples)]
    pub fn samples(self) -> (n: u8)
        ensures
            n == self.spec_samples(),
            1 <= n <= 4,
    {
        match self {
            ColorType::Grayscale => 1,
            ColorType::RGB => 3,
            ColorType::Indexed => 1,
            ColorType::GrayscaleAlpha => 2,
            ColorType::RGBA => 4,
        }
    }
}

impl BitDepth {
    /// The number of bits, which is also the byte that stands for the depth in
    /// the header.
    pub open spec fn spec_bits(self) -> u8 {
        match self {
            BitDepth::One => 1,
            BitDepth::Two => 2,
            BitDepth::Four => 4,
            BitDepth::Eight => 8,
            BitDepth::Sixteen => 16,
        }
    }

    /// The number of bits, which is also the byte that stands for the depth in
    /// the header.
    #[verifier::when_used_as_spec(spec_bits)]
    pub fn bits(self) -> (b: u8)
        ensures
            b == self.spec_bits(),
            1 <= b <= 16,
    {
        match self {
            BitDepth::One => 1,
            BitDepth::Two => 2,
            BitDepth::Four => 4,
            BitDepth::Eight => 8,
            BitDepth::Sixteen => 16,
        }
    }
}

/// The thirteen bytes of the header chunk's payload: width, height, bit
/// depth, color type, and a zero each for the compression method, the filter
/// method and the interlace method.
pub open spec fn header_fields(width: u32, height: u32, depth: BitDepth, color: ColorType) -> Seq<
    u8,
> {
    be32(width) + be32(height) + seq![depth.spec_bits(), color.spec_code(), 0u8, 0u8, 0u8]
}

/// Whether a machine word holds the length of a row of the image.
pub open spec fn row_fits(width: u32, depth: BitDepth, color: ColorType) -> bool {
    &&& width * color.spec_samples() <= usize::MAX
    &&& row_length(width as nat, depth.spec_bits() as nat, color.spec_samples() as nat)
        <= usize::MAX
}

/// Whether an image of these measures can be synthesized: width and height
/// fit their header fields, and a machine word holds the number of bytes to
/// compress.
pub open spec fn valid_size(
    width: usize,
    height: usize,
    depth: BitDepth,
    color: ColorType,
) -> bool {
    &&& width <= u32::MAX
    &&& height <= u32::MAX
    &&& row_fits(width as u32, depth, color)
    &&& row_length(width as nat, depth.spec_bits() as nat, color.spec_samples() as nat) * height
        <= usize::MAX
}

/// The number of bytes that the image holds before it is compressed: one
/// row for each line.
pub open spec fn raw_len(width: usize, height: usize, depth: BitDepth, color: ColorType) -> nat {
    row_length(width as nat, depth.spec_bits() as nat, color.spec_samples() as nat) * (
    height as nat)
}

/// The bytes of a whole image whose compressed data is `z`.
pub open spec fn image_bytes(
    width: u32,
    height: u32,
    depth: BitDepth,
    color: ColorType,
    z: Seq<u8>,
) -> Seq<u8> {
    SIGNATURE@ + chunk_bytes(IHDR@, header_fields(width, height, depth, color)) + chunk_bytes(
        IDAT@,
        z,
    ) + chunk_bytes(IEND@, Seq::empty())
}

/// The layout of an image: the signature, then the header chunk with its
/// thirteen bytes, the image data chunk with the compressed data, and the
/// trailer chunk with no payload, each closed by the checksum of its type
/// and payload.
pub proof fn lemma_image_layout(
    width: u32,
    height: u32,
    depth: BitDepth,
    color: ColorType,
    z: Seq<u8>,
)
    requires
        z.len() <= u32::MAX,
    ensures
        image_bytes(width, height, depth, color, z).len() == 57 + z.len(),
        window(image_bytes(width, height, depth, color, z), 0, 8) == SIGNATURE@,
        header_fields(width, height, depth, color).len() == 13,
        parse_chunk(image_bytes(width, height, depth, color, z).skip(8)) == Some(
            fields_of(IHDR@, header_fields(width, height, depth, color)),
        ),
        parse_chunk(image_bytes(width, height, depth, color, z).skip(33)) == Some(
            fields_of(IDAT@, z),
        ),
        parse_chunk(image_bytes(width, height, depth, color, z).skip(45 + z.len() as int))
            == Some(fields_of(IEND@, Seq::empty())),
{
    let fields = header_fields(width, height, depth, color);
    let none = Seq::<u8>::empty();
    assert(fields.len() == 13);
    assert(SIGNATURE@.len() == 8);
    assert(IHDR@.len() == 4 && IDAT@.len() == 4 && IEND@.len() == 4);
    lemma_three_chunks(SIGNATURE@, IHDR@, fields, IDAT@, z, IEND@, none);
}

/// Three chunks that follow a preamble are found where the ones before them
/// end.
proof fn lemma_three_chunks(
    preamble: Seq<u8>,
    typ1: Seq<u8>,
    payload1: Seq<u8>,
    typ2: Seq<u8>,
    payload2: Seq<u8>,
    typ3: Seq<u8>,
    payload3: Seq<u8>,
)
    requires
        typ1.len() == 4,
        typ2.len() == 4,
        typ3.len() == 4,
        payload1.len() <= u32::MAX,
        payload2.len() <= u32::MAX,
        payload3.len() <= u32::MAX,
    ensures
        ({
            let all = preamble + chunk_bytes(typ1, payload1) + chunk_bytes(typ2, payload2)
                + chunk_bytes(typ3, payload3);
            let second = preamble.len() + 12 + payload1.len();
            let third = second + 12 + payload2.len();
            &&& all.len() == third + 12 + payload3.len()
            &&& window(all, 0, preamble.len()) == preamble
            &&& parse_chunk(all.skip(preamble.len() as int)) == Some(fields_of(typ1, payload1))
            &&& parse_chunk(all.skip(second as int)) == Some(fields_of(typ2, payload2))
            &&& parse_chunk(all.skip(third as int)) == Some(fields_of(typ3, payload3))
        }),
{
    let first = chunk_bytes(typ1, payload1);
    let second = chunk_bytes(typ2, payload2);
    let third = chunk_bytes(typ3, payload3);
    lemma_parse_chunk(typ1, payload1, second + third);
    lemma_parse_chunk(typ2, payload2, third);
    lemma_parse_chunk(typ3, payload3, Seq::empty());
    lemma_four_parts(preamble, first, second, third);
}

/// Where each of four strings starts when they follow one another.
proof fn lemma_four_parts(a: Seq<u8>, b: Seq<u8>, c: Seq<u8>, d: Seq<u8>)
    ensures
        (a + b + c + d).len() == a.len() + b.len() + c.len() + d.len(),
        window(a + b + c + d, 0, a.len()) == a,
        (a + b + c + d).skip(a.len() as int) == b + (c + d),
        (a + b + c + d).skip((a.len() + b.len()) as int) == c + d,
        (a + b + c + d).skip((a.len() + b.len() + c.len()) as int) == d + Seq::empty(),
{
    let all = a + b + c + d;
    assert(window(all, 0, a.len()) =~= a);
    assert(all.skip(a.len() as int) =~= b + (c + d));
    assert(all.skip((a.len() + b.len()) as int) =~= c + d);
    assert(all.skip((a.len() + b.len() + c.len()) as int) =~= d + Seq::empty());
}

/// The number of bytes in a row of `width` pixels as it is compressed.
///
/// Calls `png::Info::raw_row_length` on the default `Info` with the width,
/// and the bit depth and color type that `png::BitDepth::from_u8` and
/// `png::ColorType::from_u8` make of the two codes. Not proved: that the
/// result is one byte for the filter and the packed samples, rounded up to
/// whole bytes. The source counts the samples, then two bytes a sample at
/// sixteen bits, one at eight, and below that the whole bytes and one more
/// for a remainder. Left out are codes that name no depth or color type, and
/// widths whose sample count or row length pass a machine word.
#[verifier::external_body]
fn raw_row_length(width: u32, bit_depth: u8, color_type: u8) -> (len: usize)
    requires
        bit_depth == 1 || bit_depth == 2 || bit_depth == 4 || bit_depth == 8 || bit_depth == 16,
        color_type == 0 || color_type == 2 || color_type == 3 || color_type == 4 || color_type
            == 6,
        width * samples_of(color_type) <= usize::MAX,
        row_length(width as nat, bit_depth as nat, samples_of(color_type) as nat) <= usize::MAX,
    ensures
        len == row_length(width as nat, bit_depth as nat, samples_of(color_type) as nat),
{
    let mut info = png::Info::default();
    info.width = width;
    info.bit_depth = png::BitDepth::from_u8(bit_depth).unwrap();
    info.color_type = png::ColorType::from_u8(color_type).unwrap();
    info.raw_row_length()
}

/// The number of bytes that an image of these measures holds before it is
/// compressed: its height times the length of a row. `None` where a machine
/// word does not hold the number.
pub fn data_len(width: u32, height: u32, depth: BitDepth, color: ColorType) -> (r: Option<usize>)
    ensures
        r is Some <==> valid_size(width as usize, height as usize, depth, color),
        r is Some ==> r->0 == row_length(
            width as nat,
            depth.spec_bits() as nat,
            color.spec_samples() as nat,
        ) * height,
{
    let samples: u64 = color.samples() as u64;
    let bits: u64 = depth.bits() as u64;
    let ghost w: int = width as int;
    assert(w * samples <= 0x4_0000_0000 && w * samples * bits <= 0x40_0000_0000) by (
        nonlinear_arith)
        requires
            0 <= w <= 0xFFFF_FFFF,
            1 <= samples <= 4,
            1 <= bits <= 16,
    ;
    // The row is counted here in 64 bits first, to know that the machine's
    // word holds what the outside computation goes through.
    let per_row: u64 = width as u64 * samples;
    let row: u64 = 1 + (per_row * bits + 7) / 8;
    if per_row > usize::MAX as u64 || row > usize::MAX as u64 {
        return None;
    }
    let row_len: usize = raw_row_length(width, depth.bits(), color.code());
    row_len.checked_mul(height as usize)
}

/// The payload of the header chunk.
pub fn header(width: u32, height: u32, depth: BitDepth, color: ColorType) -> (hdr: [u8; 13])
    ensures
        hdr@ == header_fields(width, height, depth, color),
{
    let w = encode_be32(width);
    let h = encode_be32(height);
    let hdr: [u8; 13] = [
        w[0],
        w[1],
        w[2],
        w[3],
        h[0],
        h[1],
        h[2],
        h[3],
        depth.bits(),
        color.code(),
        0,
        0,
        0,
    ];
    hdr
}

/// Writes the signature.
pub fn write_signature(out: Sink) -> (r: Result<Sink, Error>)
    requires
        out@.wf(),
    ensures
        r is Ok <==> out@.has_room(8),
        match r {
            Ok(s) => s@.wf() && s@ == out@.write(SIGNATURE@),
            Err(e) => e == Error::Io(IoError::SinkFull),
        },
{
    let mut out = out;
    match out.write_all(SIGNATURE.as_slice()) {
        Ok(()) => Ok(out),
        Err(e) => Err(Error::Io(e)),
    }
}

/// Writes the header chunk, whose length is known before it is opened.
pub fn write_header(out: Sink, width: u32, height: u32, depth: BitDepth, color: ColorType) -> (r:
    Result<Sink, Error>)
    requires
        out@.wf(),
    ensures
        r is Ok <==> out@.has_room(25),
        match r {
            Ok(s) => s@.wf() && s@ == out@.write(
                chunk_bytes(IHDR@, header_fields(width, height, depth, color)),
            ),
            Err(e) => e == Error::Io(IoError::SinkFull),
        },
{
    let hdr = header(width, height, depth, color);
    write_chunk(out, IHDR, hdr.as_slice())
}

/// Writes the trailer chunk, which has no payload.
pub fn write_trailer(out: Sink) -> (r: Result<Sink, Error>)
    requires
        out@.wf(),
    ensures
        r is Ok <==> out@.has_room(12),
        match r {
            Ok(s) => s@.wf() && s@ == out@.write(chunk_bytes(IEND@, Seq::empty())),
            Err(e) => e == Error::Io(IoError::SinkFull),
        },
{
    let none: [u8; 0] = [];
    write_chunk(out, IEND, none.as_slice())
}

/// The parts in which `total` zero bytes go to the compressor, `block` at a
/// time: whole blocks, and a last one of what is left.
pub open spec fn zero_blocks(total: nat, block: nat) -> Seq<Seq<u8>>
    decreases total,
{
    if total == 0 || block == 0 {
        Seq::empty()
    } else if total <= block {
        seq![zeros(total)]
    } else {
        seq![zeros(block)] + zero_blocks((total - block) as nat, block)
    }
}

/// The compressed image data of `total` zero bytes that were compressed
/// `block` at a time, if the compressor makes a stream of them.
pub open spec fn image_data(total: nat, block: nat) -> Option<Seq<u8>> {
    compressed(zero_blocks(total, block))
}

/// Streams all that `source` still yields into `packer`, `block_size` bytes
/// at a time. It succeeds where the compressor takes every block and the
/// sink has room for all that the compressor hands out meanwhile.
pub fn pump(source: &mut ZeroReader, packer: &mut StreamingCompressor, block_size: usize) -> (r:
    Result<(), Error>)
    requires
        old(packer).wf(),
    ensures
        final(source).count == old(source).count,
        final(packer)@.follows(old(packer)@),
        block_size == 0 ==> r == Err::<(), Error>(Error::InvalidArgument)
            && *final(source) == *old(source) && final(packer)@ == old(packer)@,
        block_size > 0 ==> ({
            let all = old(packer)@.fed + zero_blocks(old(source).remaining(), block_size as nat);
            let handed = final(packer)@.since(old(packer)@);
            &&& r is Ok <==> taken(all) && old(packer)@.chunk.sink.has_room(handed.len())
            &&& compressed(all) is Some ==> final(packer)@.emitted.is_prefix_of(compressed(all)->0)
            &&& match r {
                Ok(()) => final(packer).wf() && final(source).remaining() == 0
                    && final(packer)@.fed == all
                    && final(packer)@.chunk == old(packer)@.chunk.write(handed),
                Err(e) => e is Io && if taken(all) {
                    e->Io_0 is SinkFull
                } else {
                    e->Io_0 is Compressor || e->Io_0 is SinkFull
                },
            }
        }),
{
    if block_size == 0 {
        assert(packer@.since(packer@) =~= Seq::<u8>::empty());
        assert(packer@.emitted =~= packer@.emitted + packer@.since(packer@));
        return Err(Error::InvalidArgument);
    }
    let ghost all = packer@.fed + zero_blocks(source.remaining(), block_size as nat);
    proof {
        packer.lemma_wf();
        assert(packer@.since(packer@) =~= Seq::<u8>::empty());
        assert(packer@.emitted =~= packer@.emitted + packer@.since(packer@));
        assert(packer@.chunk.write(packer@.since(packer@)).sink.bytes =~= packer@.chunk.sink.bytes);
    }
    let mut block: Vec<u8> = vec![0u8; block_size];
    loop
        invariant
            block@.len() == block_size,
            block_size > 0,
            source.count == old(source).count,
            old(packer)@.chunk.sink.wf(),
            packer.wf(),
            packer@.follows(old(packer)@),
            packer@.chunk == old(packer)@.chunk.write(packer@.since(old(packer)@)),
            all == old(packer)@.fed + zero_blocks(old(source).remaining(), block_size as nat),
            all == packer@.fed + zero_blocks(source.remaining(), block_size as nat),
        ensures
            source.remaining() == 0,
        decreases source.remaining(),
    {
        let ghost before = packer@;
        let ghost left = source.remaining();
        let n: usize = source.read(block.as_mut_slice());
        if n == 0 {
            break ;
        }
        let raw = vstd::slice::slice_subrange(block.as_slice(), 0, n);
        proof {
            packer.lemma_wf();
            assert(raw@ =~= zeros(n as nat));
            let rest = zero_blocks((left - n) as nat, block_size as nat);
            assert(zero_blocks(left, block_size as nat) =~= seq![zeros(n as nat)] + rest);
            assert(before.fed.push(raw@) + rest =~= all);
        }
        let r = packer.write(raw);
        proof {
            let handed = packer@.since(before);
            assert(packer@.since(old(packer)@) =~= before.since(old(packer)@) + handed);
            assert(packer@.emitted =~= old(packer)@.emitted + packer@.since(old(packer)@));
            lemma_write_split(old(packer)@.chunk, before.since(old(packer)@), handed);
            if taken(before.fed.push(raw@)) {
                packer.lemma_wf();
                let rest = zero_blocks((left - n) as nat, block_size as nat);
                assert(compressed(all) is Some ==> packer@.emitted.is_prefix_of(
                    compressed(packer@.fed + rest)->0,
                ));
            }
        }
        match r {
            Ok(_) => {},
            Err(e) => {
                return Err(e);
            },
        }
    }
    proof {
        packer.lemma_wf();
        assert(packer@.fed + Seq::<Seq<u8>>::empty() =~= packer@.fed);
        assert(compressed(all) is Some ==> packer@.emitted.is_prefix_of(
            compressed(packer@.fed + Seq::<Seq<u8>>::empty())->0,
        ));
    }
    Ok(())
}

/// Opens the image data chunk, whose length is found at its end, and streams
/// all that `source` still yields through a compressor into it, `block_size`
/// bytes at a time; then ends the compressed stream and closes the chunk.
/// It succeeds where the compressor makes a stream of the blocks, the stream
/// fits the length field, and the sink has room for the chunk.
pub fn write_image_data(out: Sink, source: &mut ZeroReader, block_size: usize) -> (r: Result<
    Sink,
    Error,
>)
    requires
        out@.wf(),
    ensures
        final(source).count == old(source).count,
        block_size == 0 ==> r == Err::<Sink, Error>(Error::InvalidArgument) && *final(source)
            == *old(source),
        block_size > 0 ==> ({
            let z = image_data(old(source).remaining(), block_size as nat);
            &&& r is Ok <==> z is Some && z->0.len() <= u32::MAX && out@.has_room(12 + z->0.len())
            &&& match r {
                Ok(s) => s@.wf() && final(source).remaining() == 0 && s@ == out@.write(
                    chunk_bytes(IDAT@, z->0),
                ),
                Err(e) => if !out@.has_room(8) {
                    e == Error::Io(IoError::SinkFull)
                } else if z is None {
                    e is Io && (e->Io_0 is Compressor || e->Io_0 is SinkFull)
                } else if out@.has_room(8 + z->0.len()) && z->0.len() > u32::MAX {
                    e == Error::LengthOverflow
                } else {
                    e == Error::Io(IoError::SinkFull)
                },
            }
        }),
{
    if block_size == 0 {
        return Err(Error::InvalidArgument);
    }
    let ghost parts = zero_blocks(source.remaining(), block_size as nat);
    let ghost z = compressed(parts);
    let idat = match ChunkWriter::begin(out, IDAT, None) {
        Ok(cw) => cw,
        Err(e) => {
            return Err(e);
        },
    };
    let ghost opened = idat@;
    let mut packer = StreamingCompressor::new(idat);
    let ghost fresh = packer@;
    proof {
        assert(fresh.fed + parts =~= parts);
    }
    let pumped = pump(source, &mut packer, block_size);
    let ghost handed = packer@.since(fresh);
    proof {
        assert(handed =~= packer@.emitted);
        if z is Some {
            assert(handed.len() <= z->0.len());
        }
    }
    match pumped {
        Ok(()) => {},
        Err(e) => {
            return Err(e);
        },
    }
    let finished = packer.finish();
    proof {
        if z is Some {
            let rest = z->0.skip(handed.len() as int);
            assert(handed + rest =~= z->0);
            lemma_write_split(opened, handed, rest);
        }
    }
    let idat = match finished {
        Ok(cw) => cw,
        Err(e) => {
            return Err(e);
        },
    };
    proof {
        idat.lemma_wf();
        lemma_written_payload(out@, IDAT@, None, z->0);
        if z->0.len() <= u32::MAX {
            lemma_chunk_layout(out@, IDAT@, None, z->0);
        }
    }
    idat.finish()
}

/// Synthesizes an image of `width` by `height` black pixels onto `out`:
/// the signature, the header chunk, the image data chunk with the compressed
/// rows, each a zero for the filter and then zeros for the pixels, and the
/// trailer chunk. Measures that cannot be encoded are refused before anything
/// is written. It succeeds where the compressor makes a stream of the rows,
/// the stream fits the length field, and the sink has room for the image.
pub fn render(
    out: Sink,
    width: usize,
    height: usize,
    color_type: ColorType,
    bit_depth: BitDepth,
) -> (r: Result<Sink, Error>)
    requires
        out@.wf(),
    ensures
        !valid_size(width, height, bit_depth, color_type) ==> r == Err::<Sink, Error>(
            Error::InvalidArgument,
        ),
        valid_size(width, height, bit_depth, color_type) ==> ({
            let z = image_data(raw_len(width, height, bit_depth, color_type), BLOCK_SIZE as nat);
            &&& r is Ok <==> z is Some && z->0.len() <= u32::MAX && out@.has_room(57 + z->0.len())
            &&& match r {
                Ok(s) => s@.wf() && s@ == out@.write(
                    image_bytes(width as u32, height as u32, bit_depth, color_type, z->0),
                ),
                Err(e) => if !out@.has_room(41) {
                    e == Error::Io(IoError::SinkFull)
                } else if z is None {
                    e is Io && (e->Io_0 is Compressor || e->Io_0 is SinkFull)
                } else if out@.has_room(41 + z->0.len()) && z->0.len() > u32::MAX {
                    e == Error::LengthOverflow
                } else {
                    e == Error::Io(IoError::SinkFull)
                },
            }
        }),
{
    if width > u32::MAX as usize || height > u32::MAX as usize {
        return Err(Error::InvalidArgument);
    }
    let w: u32 = width as u32;
    let h: u32 = height as u32;
    let total: usize = match data_len(w, h, bit_depth, color_type) {
        Some(n) => n,
        None => {
            return Err(Error::InvalidArgument);
        },
    };
    let ghost z = image_data(total as nat, BLOCK_SIZE as nat);
    let ghost hdr = chunk_bytes(IHDR@, header_fields(w, h, bit_depth, color_type));
    proof {
        lemma_parse_chunk(IHDR@, header_fields(w, h, bit_depth, color_type), Seq::empty());
        assert(hdr.len() == 25);
        if z is Some && z->0.len() <= u32::MAX {
            lemma_parse_chunk(IDAT@, z->0, Seq::empty());
        }
        lemma_parse_chunk(IEND@, Seq::empty(), Seq::empty());
    }
    let signed = write_signature(out)?;
    let headed = write_header(signed, w, h, bit_depth, color_type)?;
    let mut source = ZeroReader::new(total);
    let filled = write_image_data(headed, &mut source, BLOCK_SIZE)?;
    let done = write_trailer(filled)?;
    proof {
        lemma_sink_write_split(out@, SIGNATURE@, hdr);
        lemma_sink_write_split(out@, SIGNATURE@ + hdr, chunk_bytes(IDAT@, z->0));
        lemma_sink_write_split(
            out@,
            SIGNATURE@ + hdr + chunk_bytes(IDAT@, z->0),
            chunk_bytes(IEND@, Seq::empty()),
        );
        assert(done@ == out@.write(image_bytes(w, h, bit_depth, color_type, z->0)));
    }
    Ok(done)
}

} // verus!
