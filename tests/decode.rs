use pngcore::cursor::ByteCursor;
use pngcore::filter::{paeth, unfilter_row};
use pngcore::{decode, decode_with, ChannelLayout, DecodeError};

const SIG: [u8; 8] = [137, 80, 78, 71, 13, 10, 26, 10];

fn chunk(kind: &[u8; 4], data: &[u8]) -> Vec<u8> {
    let mut out = Vec::new();
    out.extend_from_slice(&(data.len() as u32).to_be_bytes());
    out.extend_from_slice(kind);
    out.extend_from_slice(data);
    let mut covered = kind.to_vec();
    covered.extend_from_slice(data);
    out.extend_from_slice(&crc32fast::hash(&covered).to_be_bytes());
    out
}

fn ihdr(width: u32, height: u32, depth: u8, color: u8, interlace: u8) -> Vec<u8> {
    let mut d = Vec::new();
    d.extend_from_slice(&width.to_be_bytes());
    d.extend_from_slice(&height.to_be_bytes());
    d.extend_from_slice(&[depth, color, 0, 0, interlace]);
    chunk(b"IHDR", &d)
}

fn adler32(data: &[u8]) -> u32 {
    let (mut a, mut b) = (1u32, 0u32);
    for &x in data {
        a = (a + x as u32) % 65521;
        b = (b + a) % 65521;
    }
    (b << 16) | a
}

/// A zlib stream made of stored (uncompressed) blocks.
fn zlib_stored(data: &[u8]) -> Vec<u8> {
    let mut out = vec![0x78, 0x01];
    let blocks: Vec<&[u8]> = if data.is_empty() { vec![&[][..]] } else { data.chunks(65535).collect() };
    for (i, b) in blocks.iter().enumerate() {
        out.push(if i + 1 == blocks.len() { 1 } else { 0 });
        let len = b.len() as u16;
        out.extend_from_slice(&len.to_le_bytes());
        out.extend_from_slice(&(!len).to_le_bytes());
        out.extend_from_slice(b);
    }
    out.extend_from_slice(&adler32(data).to_be_bytes());
    out
}

fn png_file(header: Vec<u8>, middle: Vec<Vec<u8>>) -> Vec<u8> {
    let mut out = SIG.to_vec();
    out.extend(header);
    for c in middle {
        out.extend(c);
    }
    out.extend(chunk(b"IEND", &[]));
    out
}

fn red_square() -> Vec<u8> {
    let mut raw = Vec::new();
    for _ in 0..8 {
        raw.push(0);
        for _ in 0..8 {
            raw.extend_from_slice(&[255, 0, 0]);
        }
    }
    png_file(ihdr(8, 8, 8, 2, 0), vec![chunk(b"IDAT", &zlib_stored(&raw))])
}

fn decode_err(bytes: &[u8]) -> DecodeError {
    match decode(bytes) {
        Ok(_) => panic!("decoding was expected to fail"),
        Err(e) => e,
    }
}

#[test]
fn red_square_fixture_decodes() {
    let img = decode(&red_square()).unwrap();
    assert_eq!(img.width, 8);
    assert_eq!(img.height, 8);
    assert_eq!(img.layout, ChannelLayout::Rgb);
    assert_eq!(img.bit_depth, 8);
    assert_eq!(img.pixels.len(), 192);
    for px in img.pixels.chunks(3) {
        assert_eq!(px, &[255, 0, 0]);
    }
}

#[test]
fn decoding_twice_gives_identical_buffers() {
    let bytes = red_square();
    let a = decode(&bytes).unwrap();
    let b = decode(&bytes).unwrap();
    assert_eq!(a.pixels, b.pixels);
    assert_eq!((a.width, a.height, a.layout, a.bit_depth), (b.width, b.height, b.layout, b.bit_depth));
}

#[test]
fn flipping_any_payload_bit_is_a_crc_mismatch() {
    let bytes = red_square();
    // Data of IHDR: bytes 16..29; data of IDAT: after its 8-byte header at 33.
    let idat_len = u32::from_be_bytes([bytes[33], bytes[34], bytes[35], bytes[36]]) as usize;
    let mut ranges = vec![16..29];
    ranges.push(41..41 + idat_len);
    for r in ranges {
        for i in r {
            for bit in 0..8 {
                let mut b = bytes.clone();
                b[i] ^= 1 << bit;
                assert_eq!(decode_err(&b), DecodeError::CrcMismatch, "byte {} bit {}", i, bit);
            }
        }
    }
}

#[test]
fn one_by_one_image_decodes() {
    let bytes = png_file(ihdr(1, 1, 8, 0, 0), vec![chunk(b"IDAT", &zlib_stored(&[0, 77]))]);
    let img = decode(&bytes).unwrap();
    assert_eq!((img.width, img.height), (1, 1));
    assert_eq!(img.layout, ChannelLayout::Gray);
    assert_eq!(img.pixels, vec![77]);
}

#[test]
fn zero_length_idat_is_truncated() {
    let bytes = png_file(ihdr(4, 4, 8, 2, 0), vec![chunk(b"IDAT", &[])]);
    assert_eq!(decode_err(&bytes), DecodeError::TruncatedStream);
}

#[test]
fn missing_iend_is_truncated() {
    let bytes = red_square();
    let cut = &bytes[..bytes.len() - 12];
    assert_eq!(decode_err(cut), DecodeError::TruncatedStream);
    for n in 0..bytes.len() {
        assert!(decode(&bytes[..n]).is_err());
    }
}

#[test]
fn paeth_predictor_prefers_left_then_above() {
    assert_eq!(paeth(10, 20, 25), 10);
    assert_eq!(paeth(20, 10, 15), 15);
    assert_eq!(paeth(0, 10, 0), 10);
    assert_eq!(paeth(7, 7, 7), 7);
}

#[test]
fn paeth_row_reconstructs_hand_computed_bytes() {
    assert_eq!(unfilter_row(4, &[1, 2, 3, 4], &[10, 20, 30, 40], 1), vec![11, 22, 33, 44]);
    assert_eq!(unfilter_row(4, &[5, 5, 5], &[0, 0, 0], 1), vec![5, 10, 15]);
    assert_eq!(unfilter_row(4, &[0, 0], &[100, 50], 1), vec![100, 50]);
}

#[test]
fn single_row_paeth_image() {
    // Two RGB pixels; with no row above, Paeth predicts from the left pixel.
    let raw = [4u8, 10, 20, 30, 5, 5, 5];
    let bytes = png_file(ihdr(2, 1, 8, 2, 0), vec![chunk(b"IDAT", &zlib_stored(&raw))]);
    let img = decode(&bytes).unwrap();
    assert_eq!(img.pixels, vec![10, 20, 30, 15, 25, 35]);
}

#[test]
fn other_filters_reconstruct() {
    // 2x3 grayscale rows: Sub, Up, Average.
    let raw = [1u8, 10, 5, 2, 1, 1, 3, 4, 6];
    let bytes = png_file(ihdr(2, 3, 8, 0, 0), vec![chunk(b"IDAT", &zlib_stored(&raw))]);
    let img = decode(&bytes).unwrap();
    // row0: 10, 15; row1: 11, 16; row2: 4 + 11/2 = 9, 6 + (9 + 16)/2 = 18
    assert_eq!(img.pixels, vec![10, 15, 11, 16, 9, 18]);
}

#[test]
fn idat_may_be_split_anywhere() {
    let mut raw = Vec::new();
    for y in 0..4u8 {
        raw.push(0);
        raw.extend_from_slice(&[y, y + 1, y + 2, y + 3]);
    }
    let z = zlib_stored(&raw);
    let parts: Vec<Vec<u8>> = z.chunks(3).map(|c| chunk(b"IDAT", c)).collect();
    let img = decode(&png_file(ihdr(4, 4, 8, 0, 0), parts)).unwrap();
    assert_eq!(img.pixels, vec![0, 1, 2, 3, 1, 2, 3, 4, 2, 3, 4, 5, 3, 4, 5, 6]);
}

#[test]
fn bad_signature_is_rejected() {
    let mut bytes = red_square();
    bytes[1] = b'Q';
    assert_eq!(decode_err(&bytes), DecodeError::BadSignature);
    assert_eq!(decode_err(&SIG[..5]), DecodeError::TruncatedStream);
}

#[test]
fn first_chunk_must_be_header() {
    let mut bytes = SIG.to_vec();
    bytes.extend(chunk(b"IDAT", &zlib_stored(&[0, 1])));
    bytes.extend(chunk(b"IEND", &[]));
    assert_eq!(decode_err(&bytes), DecodeError::MissingHeader);
    let short = png_file(chunk(b"IHDR", &[0, 0, 0, 1]), vec![]);
    assert_eq!(decode_err(&short), DecodeError::MissingHeader);
    let zero_width = png_file(ihdr(0, 1, 8, 0, 0), vec![]);
    assert_eq!(decode_err(&zero_width), DecodeError::MissingHeader);
}

#[test]
fn bad_color_type_and_depth_are_rejected() {
    assert_eq!(decode_err(&png_file(ihdr(1, 1, 8, 5, 0), vec![])), DecodeError::UnsupportedColorType);
    assert_eq!(decode_err(&png_file(ihdr(1, 1, 4, 2, 0), vec![])), DecodeError::UnsupportedBitDepth);
    assert_eq!(decode_err(&png_file(ihdr(1, 1, 16, 3, 0), vec![])), DecodeError::UnsupportedBitDepth);
    assert_eq!(decode_err(&png_file(ihdr(1, 1, 3, 0, 0), vec![])), DecodeError::UnsupportedBitDepth);
}

#[test]
fn unknown_chunks_critical_fail_ancillary_skip() {
    let idat = chunk(b"IDAT", &zlib_stored(&[0, 9]));
    let bad = png_file(ihdr(1, 1, 8, 0, 0), vec![chunk(b"ABCD", &[1, 2]), idat.clone()]);
    assert_eq!(decode_err(&bad), DecodeError::UnknownCriticalChunk);
    let ok = png_file(ihdr(1, 1, 8, 0, 0), vec![chunk(b"tEXt", &[1, 2]), idat]);
    assert_eq!(decode(&ok).unwrap().pixels, vec![9]);
}

#[test]
fn corrupt_zlib_stream_is_rejected() {
    let bytes = png_file(ihdr(1, 1, 8, 0, 0), vec![chunk(b"IDAT", &[0x78, 0x01, 0xff, 0xff, 0xff])]);
    assert_eq!(decode_err(&bytes), DecodeError::InvalidCompressedData);
    let mut z = zlib_stored(&[0, 9]);
    z.truncate(5);
    let cut = png_file(ihdr(1, 1, 8, 0, 0), vec![chunk(b"IDAT", &z)]);
    assert_eq!(decode_err(&cut), DecodeError::TruncatedStream);
}

#[test]
fn short_image_data_is_truncated() {
    let bytes = png_file(ihdr(2, 2, 8, 0, 0), vec![chunk(b"IDAT", &zlib_stored(&[0, 1, 2]))]);
    assert_eq!(decode_err(&bytes), DecodeError::TruncatedStream);
}

#[test]
fn bad_filter_type_is_rejected() {
    let bytes = png_file(ihdr(1, 1, 8, 0, 0), vec![chunk(b"IDAT", &zlib_stored(&[5, 1]))]);
    assert_eq!(decode_err(&bytes), DecodeError::InvalidFilterType);
}

#[test]
fn palette_index_past_end_is_rejected() {
    let plte = chunk(b"PLTE", &[1, 2, 3, 4, 5, 6]);
    let ok = png_file(ihdr(2, 1, 8, 3, 0), vec![plte.clone(), chunk(b"IDAT", &zlib_stored(&[0, 1, 0]))]);
    let img = decode(&ok).unwrap();
    assert_eq!(img.layout, ChannelLayout::Rgb);
    assert_eq!(img.pixels, vec![4, 5, 6, 1, 2, 3]);
    let bad = png_file(ihdr(1, 1, 8, 3, 0), vec![plte, chunk(b"IDAT", &zlib_stored(&[0, 2]))]);
    assert_eq!(decode_err(&bad), DecodeError::PaletteIndexOutOfRange);
}

#[test]
fn huge_dimensions_overflow() {
    let bytes = png_file(ihdr(0xffff_ffff, 0xffff_ffff, 16, 6, 0), vec![chunk(b"IDAT", &[0])]);
    assert_eq!(decode_err(&bytes), DecodeError::OutputSizeOverflow);
}

#[test]
fn interlaced_three_by_three_gray() {
    // Passes of a 3x3 image holding 10 * y + x: 1 -> (0,0); 4 -> (2,0);
    // 5 -> (0,2), (2,2); 6 -> (1,0) and (1,2); 7 -> row 1.
    let raw = [0u8, 0, 0, 2, 0, 20, 22, 0, 1, 0, 21, 0, 10, 11, 12];
    let bytes = png_file(ihdr(3, 3, 8, 0, 1), vec![chunk(b"IDAT", &zlib_stored(&raw))]);
    let img = decode(&bytes).unwrap();
    assert_eq!(img.pixels, vec![0, 1, 2, 10, 11, 12, 20, 21, 22]);
}

#[test]
fn interlaced_rgb_matches_its_passes() {
    let (w, h) = (9usize, 7usize);
    let px = |x: usize, y: usize| [(x * 20) as u8, (y * 30) as u8, (x + y) as u8];
    let passes = [(0, 0, 8, 8), (4, 0, 8, 8), (0, 4, 4, 8), (2, 0, 4, 4), (0, 2, 2, 4), (1, 0, 2, 2), (0, 1, 1, 2)];
    let mut raw = Vec::new();
    for &(x0, y0, dx, dy) in passes.iter() {
        if x0 >= w || y0 >= h {
            continue;
        }
        for y in (y0..h).step_by(dy) {
            raw.push(0);
            for x in (x0..w).step_by(dx) {
                raw.extend_from_slice(&px(x, y));
            }
        }
    }
    let bytes = png_file(ihdr(w as u32, h as u32, 8, 2, 1), vec![chunk(b"IDAT", &zlib_stored(&raw))]);
    let img = decode(&bytes).unwrap();
    let mut expected = Vec::new();
    for y in 0..h {
        for x in 0..w {
            expected.extend_from_slice(&px(x, y));
        }
    }
    assert_eq!(img.pixels, expected);
    let short = png_file(ihdr(w as u32, h as u32, 8, 2, 1), vec![chunk(b"IDAT", &zlib_stored(&raw[..raw.len() - 1]))]);
    assert_eq!(decode_err(&short), DecodeError::TruncatedStream);
}

#[test]
fn lenient_mode_passes_over_crc_mismatches() {
    let mut bytes = red_square();
    bytes[29] ^= 0xff; // first byte of the header's CRC
    assert_eq!(decode_err(&bytes), DecodeError::CrcMismatch);
    assert_eq!(decode_with(&bytes, false).unwrap().pixels, decode(&red_square()).unwrap().pixels);
}

#[test]
fn transparency_adds_alpha() {
    // Indexed with per-entry alpha; entries past the tRNS data stay opaque.
    let bytes = png_file(
        ihdr(2, 1, 8, 3, 0),
        vec![
            chunk(b"PLTE", &[1, 2, 3, 4, 5, 6]),
            chunk(b"tRNS", &[9]),
            chunk(b"IDAT", &zlib_stored(&[0, 0, 1])),
        ],
    );
    let img = decode(&bytes).unwrap();
    assert_eq!(img.layout, ChannelLayout::Rgba);
    assert_eq!(img.pixels, vec![1, 2, 3, 9, 4, 5, 6, 255]);
    // Gray key.
    let gray = png_file(
        ihdr(2, 1, 8, 0, 0),
        vec![chunk(b"tRNS", &[0, 7]), chunk(b"IDAT", &zlib_stored(&[0, 7, 8]))],
    );
    let img = decode(&gray).unwrap();
    assert_eq!(img.layout, ChannelLayout::GrayAlpha);
    assert_eq!(img.pixels, vec![7, 0, 8, 255]);
    // RGB key.
    let rgb = png_file(
        ihdr(2, 1, 8, 2, 0),
        vec![chunk(b"tRNS", &[0, 1, 0, 2, 0, 3]), chunk(b"IDAT", &zlib_stored(&[0, 1, 2, 3, 1, 2, 4]))],
    );
    let img = decode(&rgb).unwrap();
    assert_eq!(img.layout, ChannelLayout::Rgba);
    assert_eq!(img.pixels, vec![1, 2, 3, 0, 1, 2, 4, 255]);
}

#[test]
fn sub_byte_gray_unpacks_most_significant_first() {
    // 1-bit, 10 pixels: 0b1011_0010, 0b1100_0000
    let bytes = png_file(ihdr(10, 1, 1, 0, 0), vec![chunk(b"IDAT", &zlib_stored(&[0, 0b1011_0010, 0b1100_0000]))]);
    let img = decode(&bytes).unwrap();
    assert_eq!(img.pixels, vec![1, 0, 1, 1, 0, 0, 1, 0, 1, 1]);
    // 4-bit, 3 pixels.
    let bytes = png_file(ihdr(3, 1, 4, 0, 0), vec![chunk(b"IDAT", &zlib_stored(&[0, 0x3c, 0x70]))]);
    assert_eq!(decode(&bytes).unwrap().pixels, vec![3, 12, 7]);
}

#[test]
fn sixteen_bit_samples_stay_big_endian() {
    let bytes = png_file(
        ihdr(1, 1, 16, 0, 0),
        vec![chunk(b"tRNS", &[0x12, 0x34]), chunk(b"IDAT", &zlib_stored(&[0, 0x12, 0x34]))],
    );
    let img = decode(&bytes).unwrap();
    assert_eq!(img.bit_depth, 16);
    assert_eq!(img.layout, ChannelLayout::GrayAlpha);
    assert_eq!(img.pixels, vec![0x12, 0x34, 0, 0]);
}

#[test]
fn cursor_reads_big_endian_and_stops_at_end() {
    let data = [1u8, 2, 3, 4, 5, 6, 7];
    let mut c = ByteCursor::new(&data);
    assert_eq!(c.read_u8(), Ok(1));
    assert_eq!(c.read_u16(), Ok(0x0203));
    assert_eq!(c.read_u32(), Ok(0x0405_0607));
    assert_eq!(c.remaining(), 0);
    assert_eq!(c.read_u8(), Err(DecodeError::UnexpectedEof));
    c.reset();
    assert_eq!(c.read_bytes(3).unwrap(), &[1, 2, 3]);
    assert_eq!(c.skip(5), Err(DecodeError::UnexpectedEof));
    assert_eq!(c.skip(4), Ok(()));
    assert_eq!(c.position(), 7);
}
