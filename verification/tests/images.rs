use pngbomb::chunk::ChunkWriter;
use pngbomb::compress::{StreamingCompressor, LEVEL};
use pngbomb::error::{Error, IoError};
use pngbomb::image::{
    data_len, header, pump, render, write_header, write_image_data, write_signature,
    write_trailer, BitDepth, ColorType, BLOCK_SIZE, IDAT, IEND, IHDR, SIGNATURE,
};
use pngbomb::sink::Sink;
use pngbomb::zero::ZeroReader;
use std::io::{Read, Write};

struct Chunk {
    typ: [u8; 4],
    payload: Vec<u8>,
}

/// Splits a stream of chunks, holding each checksum against a reference.
fn chunks(mut bytes: &[u8]) -> Vec<Chunk> {
    let mut out = Vec::new();
    while !bytes.is_empty() {
        let length = u32::from_be_bytes([bytes[0], bytes[1], bytes[2], bytes[3]]) as usize;
        let typ = [bytes[4], bytes[5], bytes[6], bytes[7]];
        let payload = bytes[8..8 + length].to_vec();
        let end = 8 + length;
        let checksum = u32::from_be_bytes([bytes[end], bytes[end + 1], bytes[end + 2], bytes[end + 3]]);
        assert_eq!(checksum, crc::crc32::checksum_ieee(&bytes[4..end]));
        out.push(Chunk { typ, payload });
        bytes = &bytes[end + 4..];
    }
    out
}

fn inflate(z: &[u8]) -> Vec<u8> {
    let mut raw = Vec::new();
    flate2::read::ZlibDecoder::new(z).read_to_end(&mut raw).unwrap();
    raw
}

/// The stream that an encoder of the library's level makes of zero bytes
/// that it is handed `block` at a time.
fn reference_stream(total: usize, block: usize) -> Vec<u8> {
    let mut enc = flate2::write::ZlibEncoder::new(Vec::new(), flate2::Compression::new(LEVEL));
    let mut left = total;
    while left > 0 {
        let n = left.min(block);
        enc.write_all(&vec![0u8; n]).unwrap();
        left -= n;
    }
    enc.finish().unwrap()
}

#[test]
fn image_data_is_the_stream_of_the_zero_blocks() {
    for (total, block) in [(0usize, 8usize), (1, 8), (4, 65536), (100, 7), (200_000, 4096), (200_000, 65536)] {
        let mut source = ZeroReader::new(total);
        let out = write_image_data(Sink::new(), &mut source, block).unwrap();
        let cs = chunks(out.as_slice());
        assert_eq!(cs[0].payload, reference_stream(total, block));
    }
}

#[test]
fn rendered_image_data_is_the_stream_of_its_rows() {
    for (width, height, row) in [(2usize, 2usize, 2usize), (1000, 1000, 126), (10000, 100, 1251)] {
        let bytes = render(Sink::new(), width, height, ColorType::Grayscale, BitDepth::One)
            .unwrap()
            .into_bytes();
        let cs = chunks(&bytes[8..]);
        assert_eq!(cs[1].payload, reference_stream(row * height, BLOCK_SIZE));
        assert_eq!(bytes.len(), 57 + cs[1].payload.len());
    }
}

#[test]
fn the_same_image_twice_is_the_same_bytes() {
    let a = render(Sink::new(), 300, 200, ColorType::RGBA, BitDepth::Sixteen).unwrap().into_bytes();
    let b = render(Sink::new(), 300, 200, ColorType::RGBA, BitDepth::Sixteen).unwrap().into_bytes();
    assert_eq!(a, b);
}

#[test]
fn compressor_hands_on_the_stream_of_its_parts() {
    let parts: Vec<Vec<u8>> = (0..300u32)
        .map(|i| (0..(i * 37 % 1000)).map(|j| (i + j * j) as u8).collect())
        .collect();
    let chunk = ChunkWriter::begin(Sink::new(), *b"IDAT", None).unwrap();
    let mut packer = StreamingCompressor::new(chunk);
    let mut enc = flate2::write::ZlibEncoder::new(Vec::new(), flate2::Compression::new(LEVEL));
    for part in &parts {
        assert_eq!(packer.write(part), Ok(part.len()));
        enc.write_all(part).unwrap();
    }
    let bytes = packer.finish().unwrap().finish().unwrap().into_bytes();
    assert_eq!(chunks(&bytes)[0].payload, enc.finish().unwrap());
}

#[test]
fn length_overflow_is_not_told_of_a_short_sink() {
    for limit in 41..57usize {
        assert_eq!(
            render(Sink::with_limit(limit), 2, 2, ColorType::Grayscale, BitDepth::One).err(),
            Some(Error::Io(IoError::SinkFull))
        );
    }
}

#[test]
fn two_by_two_one_bit_grayscale() {
    let out = render(Sink::new(), 2, 2, ColorType::Grayscale, BitDepth::One).unwrap();
    let bytes = out.into_bytes();
    assert_eq!(&bytes[..8], &[137, 80, 78, 71, 13, 10, 26, 10]);
    let cs = chunks(&bytes[8..]);
    assert_eq!(cs.len(), 3);
    assert_eq!(cs[0].typ, *b"IHDR");
    assert_eq!(cs[0].payload.len(), 13);
    assert_eq!(cs[0].payload, vec![0, 0, 0, 2, 0, 0, 0, 2, 1, 0, 0, 0, 0]);
    assert_eq!(cs[1].typ, *b"IDAT");
    assert_eq!(inflate(&cs[1].payload), vec![0, 0, 0, 0]);
    assert_eq!(cs[2].typ, *b"IEND");
    assert_eq!(cs[2].payload.len(), 0);
    assert_eq!(&bytes[bytes.len() - 12..], &[0, 0, 0, 0, b'I', b'E', b'N', b'D', 0xAE, 0x42, 0x60, 0x82]);
}

#[test]
fn header_chunk_is_exact() {
    let out = write_header(Sink::new(), 2, 2, BitDepth::One, ColorType::Grayscale).unwrap();
    let crc = crc::crc32::checksum_ieee(b"IHDR\0\0\0\x02\0\0\0\x02\x01\0\0\0\0").to_be_bytes();
    let mut expected = vec![0, 0, 0, 13, b'I', b'H', b'D', b'R', 0, 0, 0, 2, 0, 0, 0, 2, 1, 0, 0, 0, 0];
    expected.extend_from_slice(&crc);
    assert_eq!(out.as_slice(), &expected[..]);
}

#[test]
fn header_fields_in_order() {
    assert_eq!(
        header(0x0102_0304, 0x0A0B_0C0D, BitDepth::Sixteen, ColorType::RGBA),
        [1, 2, 3, 4, 0x0A, 0x0B, 0x0C, 0x0D, 16, 6, 0, 0, 0]
    );
    assert_eq!(
        header(10000, 1, BitDepth::Eight, ColorType::Indexed),
        [0, 0, 0x27, 0x10, 0, 0, 0, 1, 8, 3, 0, 0, 0]
    );
    assert_eq!(
        header(0, u32::MAX, BitDepth::Two, ColorType::GrayscaleAlpha),
        [0, 0, 0, 0, 255, 255, 255, 255, 2, 4, 0, 0, 0]
    );
    assert_eq!(header(1, 2, BitDepth::Four, ColorType::RGB), [0, 0, 0, 1, 0, 0, 0, 2, 4, 2, 0, 0, 0]);
}

#[test]
fn codes_of_color_types_and_depths() {
    assert_eq!(ColorType::Grayscale.code(), 0);
    assert_eq!(ColorType::RGB.code(), 2);
    assert_eq!(ColorType::Indexed.code(), 3);
    assert_eq!(ColorType::GrayscaleAlpha.code(), 4);
    assert_eq!(ColorType::RGBA.code(), 6);
    assert_eq!(ColorType::Grayscale.samples(), 1);
    assert_eq!(ColorType::RGB.samples(), 3);
    assert_eq!(ColorType::Indexed.samples(), 1);
    assert_eq!(ColorType::GrayscaleAlpha.samples(), 2);
    assert_eq!(ColorType::RGBA.samples(), 4);
    assert_eq!(BitDepth::One.bits(), 1);
    assert_eq!(BitDepth::Two.bits(), 2);
    assert_eq!(BitDepth::Four.bits(), 4);
    assert_eq!(BitDepth::Eight.bits(), 8);
    assert_eq!(BitDepth::Sixteen.bits(), 16);
}

#[test]
fn tags_and_signature() {
    assert_eq!(SIGNATURE, [0x89, b'P', b'N', b'G', b'\r', b'\n', 0x1A, b'\n']);
    assert_eq!(IHDR, *b"IHDR");
    assert_eq!(IDAT, *b"IDAT");
    assert_eq!(IEND, *b"IEND");
}

#[test]
fn data_length_is_rows_of_one_filter_byte_and_packed_pixels() {
    // 2 pixels of 1 bit: one byte, and the filter byte; twice.
    assert_eq!(data_len(2, 2, BitDepth::One, ColorType::Grayscale), Some(4));
    // 10000 bits are 1250 bytes.
    assert_eq!(data_len(10000, 10000, BitDepth::One, ColorType::Grayscale), Some(1251 * 10000));
    // 9 bits need two bytes.
    assert_eq!(data_len(9, 1, BitDepth::One, ColorType::Grayscale), Some(3));
    assert_eq!(data_len(8, 1, BitDepth::One, ColorType::Grayscale), Some(2));
    // 5 pixels of 2 bits: 10 bits, two bytes.
    assert_eq!(data_len(5, 3, BitDepth::Two, ColorType::Indexed), Some(9));
    // 3 pixels of 4 bits: 12 bits, two bytes.
    assert_eq!(data_len(3, 1, BitDepth::Four, ColorType::Grayscale), Some(3));
    // 3 pixels of 3 samples of 8 bits.
    assert_eq!(data_len(3, 7, BitDepth::Eight, ColorType::RGB), Some(70));
    // 5 pixels of 4 samples of 16 bits.
    assert_eq!(data_len(5, 2, BitDepth::Sixteen, ColorType::RGBA), Some(82));
    // 5 pixels of 2 samples of 8 bits.
    assert_eq!(data_len(5, 1, BitDepth::Eight, ColorType::GrayscaleAlpha), Some(11));
    assert_eq!(data_len(0, 5, BitDepth::Eight, ColorType::RGB), Some(5));
    assert_eq!(data_len(5, 0, BitDepth::Eight, ColorType::RGB), Some(0));
}

#[test]
fn row_lengths_are_those_of_the_png_crate() {
    let colors = [
        (ColorType::Grayscale, png::ColorType::Grayscale),
        (ColorType::RGB, png::ColorType::RGB),
        (ColorType::Indexed, png::ColorType::Indexed),
        (ColorType::GrayscaleAlpha, png::ColorType::GrayscaleAlpha),
        (ColorType::RGBA, png::ColorType::RGBA),
    ];
    let depths = [
        (BitDepth::One, png::BitDepth::One),
        (BitDepth::Two, png::BitDepth::Two),
        (BitDepth::Four, png::BitDepth::Four),
        (BitDepth::Eight, png::BitDepth::Eight),
        (BitDepth::Sixteen, png::BitDepth::Sixteen),
    ];
    for (color, png_color) in colors {
        assert_eq!(color.code(), png_color as u8);
        assert_eq!(color.samples() as usize, png_color.samples());
        for (depth, png_depth) in depths {
            assert_eq!(depth.bits(), png_depth as u8);
            for width in [0u32, 1, 2, 3, 7, 8, 9, 15, 16, 17, 1000, 10000, 65535, 1 << 20] {
                let mut info = png::Info::default();
                info.width = width;
                info.bit_depth = png_depth;
                info.color_type = png_color;
                let bits = width as usize * color.samples() as usize * depth.bits() as usize;
                assert_eq!(info.raw_row_length(), 1 + (bits + 7) / 8);
                assert_eq!(data_len(width, 1, depth, color), Some(1 + (bits + 7) / 8));
                assert_eq!(data_len(width, 3, depth, color), Some(3 * (1 + (bits + 7) / 8)));
            }
        }
    }
}

#[test]
fn tags_are_those_of_the_png_crate() {
    assert_eq!(IHDR, png::chunk::IHDR);
    assert_eq!(IDAT, png::chunk::IDAT);
    assert_eq!(IEND, png::chunk::IEND);
}

#[test]
fn data_length_beyond_a_machine_word_is_none() {
    if usize::BITS == 64 {
        assert_eq!(
            data_len(u32::MAX, u32::MAX, BitDepth::Sixteen, ColorType::RGBA),
            None
        );
        assert_eq!(
            data_len(u32::MAX, 1, BitDepth::Sixteen, ColorType::RGBA),
            Some(1 + 8 * (u32::MAX as usize))
        );
        assert_eq!(
            data_len(u32::MAX, u32::MAX, BitDepth::One, ColorType::Grayscale),
            Some((1 + (1usize << 29)) * (u32::MAX as usize))
        );
    }
}

#[test]
fn sizes_that_cannot_be_encoded_are_refused_before_anything_is_written() {
    if usize::BITS > 32 {
        let big = u32::MAX as usize + 1;
        assert_eq!(
            render(Sink::new(), big, 1, ColorType::Grayscale, BitDepth::One).err(),
            Some(Error::InvalidArgument)
        );
        assert_eq!(
            render(Sink::new(), 1, big, ColorType::Grayscale, BitDepth::One).err(),
            Some(Error::InvalidArgument)
        );
        assert_eq!(
            render(
                Sink::with_limit(0),
                u32::MAX as usize,
                u32::MAX as usize,
                ColorType::RGBA,
                BitDepth::Sixteen
            )
            .err(),
            Some(Error::InvalidArgument)
        );
    }
}

#[test]
fn render_into_a_sink_without_room_fails() {
    for limit in [0usize, 7, 8, 32, 33, 40, 41, 45] {
        assert_eq!(
            render(Sink::with_limit(limit), 2, 2, ColorType::Grayscale, BitDepth::One).err(),
            Some(Error::Io(IoError::SinkFull))
        );
    }
}

#[test]
fn render_fits_a_sink_of_exactly_its_size() {
    let bytes = render(Sink::new(), 2, 2, ColorType::Grayscale, BitDepth::One).unwrap().into_bytes();
    let again = render(Sink::with_limit(bytes.len()), 2, 2, ColorType::Grayscale, BitDepth::One).unwrap();
    assert_eq!(again.position(), bytes.len());
    assert_eq!(again.into_bytes(), bytes);
    assert_eq!(
        render(Sink::with_limit(bytes.len() - 1), 2, 2, ColorType::Grayscale, BitDepth::One).err(),
        Some(Error::Io(IoError::SinkFull))
    );
}

#[test]
fn render_after_other_bytes() {
    let mut sink = Sink::new();
    sink.write_all(&[1, 2, 3]).unwrap();
    let bytes = render(sink, 3, 1, ColorType::RGB, BitDepth::Eight).unwrap().into_bytes();
    assert_eq!(&bytes[..3], &[1, 2, 3]);
    assert_eq!(&bytes[3..11], &SIGNATURE);
    let cs = chunks(&bytes[11..]);
    assert_eq!(cs[0].payload, vec![0, 0, 0, 3, 0, 0, 0, 1, 8, 2, 0, 0, 0]);
    assert_eq!(inflate(&cs[1].payload), vec![0u8; 10]);
}

#[test]
fn larger_images_hold_all_their_rows() {
    let cases = [
        (1000usize, 1000usize, ColorType::Grayscale, BitDepth::One, 126usize),
        (300, 200, ColorType::RGBA, BitDepth::Sixteen, 2401),
        (77, 13, ColorType::Indexed, BitDepth::Four, 40),
        (1, 70000, ColorType::Grayscale, BitDepth::Eight, 2),
        (0, 3, ColorType::RGB, BitDepth::Eight, 1),
        (3, 0, ColorType::RGB, BitDepth::Eight, 10),
    ];
    for (width, height, color, depth, row) in cases {
        let bytes = render(Sink::new(), width, height, color, depth).unwrap().into_bytes();
        assert_eq!(&bytes[..8], &SIGNATURE);
        let cs = chunks(&bytes[8..]);
        assert_eq!(cs.len(), 3);
        assert_eq!(cs[0].typ, IHDR);
        assert_eq!(cs[0].payload, header(width as u32, height as u32, depth, color).to_vec());
        assert_eq!(cs[1].typ, IDAT);
        assert_eq!(inflate(&cs[1].payload), vec![0u8; row * height]);
        assert_eq!(cs[2].typ, IEND);
        assert!(cs[2].payload.is_empty());
    }
}

#[test]
fn stages_add_up_to_render() {
    let out = write_signature(Sink::new()).unwrap();
    assert_eq!(out.as_slice(), &SIGNATURE);
    let out = write_header(out, 5, 4, BitDepth::Two, ColorType::Grayscale).unwrap();
    assert_eq!(out.position(), 8 + 25);
    let mut source = ZeroReader::new(data_len(5, 4, BitDepth::Two, ColorType::Grayscale).unwrap());
    let out = write_image_data(out, &mut source, BLOCK_SIZE).unwrap();
    assert_eq!(source.at, 12);
    let out = write_trailer(out).unwrap();
    let whole = render(Sink::new(), 5, 4, ColorType::Grayscale, BitDepth::Two).unwrap();
    assert_eq!(out.into_bytes(), whole.into_bytes());
}

#[test]
fn signature_header_and_trailer_need_room() {
    assert_eq!(write_signature(Sink::with_limit(7)).err(), Some(Error::Io(IoError::SinkFull)));
    assert!(write_signature(Sink::with_limit(8)).is_ok());
    assert_eq!(
        write_header(Sink::with_limit(24), 1, 1, BitDepth::One, ColorType::Grayscale).err(),
        Some(Error::Io(IoError::SinkFull))
    );
    assert!(write_header(Sink::with_limit(25), 1, 1, BitDepth::One, ColorType::Grayscale).is_ok());
    assert_eq!(write_trailer(Sink::with_limit(11)).err(), Some(Error::Io(IoError::SinkFull)));
    assert!(write_trailer(Sink::with_limit(12)).is_ok());
}

#[test]
fn image_data_streams_the_whole_source_at_any_block_size() {
    for total in [0usize, 1, 5, 1000, 65536, 200_000] {
        for block in [1usize, 3, 4096, 65536, 1 << 20] {
            if total / block > 100_000 {
                continue;
            }
            let mut source = ZeroReader::new(total);
            let out = write_image_data(Sink::new(), &mut source, block).unwrap();
            assert_eq!(source.at, total);
            assert_eq!(source.count, total);
            let cs = chunks(out.as_slice());
            assert_eq!(cs.len(), 1);
            assert_eq!(cs[0].typ, IDAT);
            assert_eq!(inflate(&cs[0].payload), vec![0u8; total]);
        }
    }
}

#[test]
fn image_data_takes_up_a_source_in_the_middle() {
    let mut source = ZeroReader { count: 100, at: 60 };
    let out = write_image_data(Sink::new(), &mut source, 16).unwrap();
    assert_eq!(source.at, 100);
    assert_eq!(inflate(&chunks(out.as_slice())[0].payload), vec![0u8; 40]);
}

#[test]
fn blocks_of_no_bytes_are_refused() {
    let mut source = ZeroReader::new(10);
    assert_eq!(
        write_image_data(Sink::new(), &mut source, 0).err(),
        Some(Error::InvalidArgument)
    );
    assert_eq!(source.at, 0);
}

#[test]
fn image_data_into_a_sink_without_room_fails() {
    for limit in [0usize, 7, 8, 12] {
        let mut source = ZeroReader::new(10);
        assert_eq!(
            write_image_data(Sink::with_limit(limit), &mut source, 4).err(),
            Some(Error::Io(IoError::SinkFull))
        );
    }
}

#[test]
fn compressor_writes_a_stream_that_inflates_to_its_input() {
    let chunk = ChunkWriter::begin(Sink::new(), *b"zTXt", None).unwrap();
    let mut packer = StreamingCompressor::new(chunk);
    let mut raw = Vec::new();
    for i in 0..500u32 {
        let part: Vec<u8> = (0..(i % 17)).map(|j| (i * 7 + j) as u8).collect();
        assert_eq!(packer.write(&part), Ok(part.len()));
        raw.extend_from_slice(&part);
    }
    let chunk = packer.finish().unwrap();
    let bytes = chunk.finish().unwrap().into_bytes();
    let cs = chunks(&bytes);
    assert_eq!(cs.len(), 1);
    assert_eq!(cs[0].typ, *b"zTXt");
    assert_eq!(inflate(&cs[0].payload), raw);
}

#[test]
fn pump_drains_the_source_into_the_compressor() {
    for (total, block) in [(0usize, 8usize), (1, 8), (8, 8), (9, 8), (100_000, 4096), (5, 1)] {
        let chunk = ChunkWriter::begin(Sink::new(), *b"IDAT", None).unwrap();
        let mut packer = StreamingCompressor::new(chunk);
        assert_eq!(packer.write(&[1, 2, 3]), Ok(3));
        let mut source = ZeroReader::new(total);
        assert_eq!(pump(&mut source, &mut packer, block), Ok(()));
        assert_eq!(source.at, total);
        assert_eq!(packer.write(&[4]), Ok(1));
        let bytes = packer.finish().unwrap().finish().unwrap().into_bytes();
        let mut raw = vec![1u8, 2, 3];
        raw.extend_from_slice(&vec![0u8; total]);
        raw.push(4);
        assert_eq!(inflate(&chunks(&bytes)[0].payload), raw);
    }
}

#[test]
fn pump_refuses_blocks_of_no_bytes() {
    let chunk = ChunkWriter::begin(Sink::new(), *b"IDAT", None).unwrap();
    let mut packer = StreamingCompressor::new(chunk);
    let mut source = ZeroReader::new(10);
    assert_eq!(pump(&mut source, &mut packer, 0), Err(Error::InvalidArgument));
    assert_eq!(source.at, 0);
    let bytes = packer.finish().unwrap().finish().unwrap().into_bytes();
    assert_eq!(inflate(&chunks(&bytes)[0].payload), Vec::<u8>::new());
}

#[test]
fn compressor_of_nothing_writes_an_empty_stream() {
    let chunk = ChunkWriter::begin(Sink::new(), *b"IDAT", None).unwrap();
    let chunk = StreamingCompressor::new(chunk).finish().unwrap();
    let bytes = chunk.finish().unwrap().into_bytes();
    let cs = chunks(&bytes);
    assert!(!cs[0].payload.is_empty());
    assert_eq!(inflate(&cs[0].payload), Vec::<u8>::new());
}

#[test]
fn compressor_on_a_full_sink_fails() {
    let chunk = ChunkWriter::begin(Sink::with_limit(9), *b"IDAT", None).unwrap();
    let packer = StreamingCompressor::new(chunk);
    assert_eq!(packer.finish().err(), Some(Error::Io(IoError::SinkFull)));
}
