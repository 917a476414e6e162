use pngss::{DecodeError, ImageType, PngDecoder};

fn be32(v: u32) -> [u8; 4] {
    [(v >> 24) as u8, (v >> 16) as u8, (v >> 8) as u8, v as u8]
}

fn chunk(tag: &[u8; 4], payload: &[u8]) -> Vec<u8> {
    let mut v = Vec::new();
    v.extend_from_slice(&be32(payload.len() as u32));
    v.extend_from_slice(tag);
    v.extend_from_slice(payload);
    // the checksum is parsed but never verified, so any value works
    v.extend_from_slice(&be32(0));
    v
}

fn adler32(data: &[u8]) -> u32 {
    let mut a: u32 = 1;
    let mut b: u32 = 0;
    for &x in data {
        a = (a + x as u32) % 65521;
        b = (b + a) % 65521;
    }
    (b << 16) | a
}

/// A zlib stream holding `data` in one stored (uncompressed) block.
fn zlib_stored(data: &[u8]) -> Vec<u8> {
    let mut v = vec![0x78, 0x01];
    let len = data.len() as u16;
    v.push(0x01);
    v.extend_from_slice(&len.to_le_bytes());
    v.extend_from_slice(&(!len).to_le_bytes());
    v.extend_from_slice(data);
    v.extend_from_slice(&adler32(data).to_be_bytes());
    v
}

fn ihdr(w: u32, h: u32, depth: u8, color: u8) -> Vec<u8> {
    let mut p = Vec::new();
    p.extend_from_slice(&be32(w));
    p.extend_from_slice(&be32(h));
    p.push(depth);
    p.push(color);
    p.push(0);
    p.push(0);
    p.push(0);
    chunk(b"IHDR", &p)
}

fn png(chunks: &[Vec<u8>]) -> Vec<u8> {
    let mut v = vec![0x89, 0x50, 0x4E, 0x47, 0x0D, 0x0A, 0x1A, 0x0A];
    for c in chunks {
        v.extend_from_slice(c);
    }
    v
}

fn simple_png(w: u32, h: u32, depth: u8, color: u8, raw: &[u8]) -> Vec<u8> {
    png(&[
        ihdr(w, h, depth, color),
        chunk(b"IDAT", &zlib_stored(raw)),
        chunk(b"IEND", &[]),
    ])
}

#[test]
fn it_works() {}

#[test]
fn decode_grayscale_none_filter() {
    let input = simple_png(2, 2, 8, 0, &[0, 10, 20, 0, 30, 40]);
    let decoder = PngDecoder::new(&input).unwrap();
    assert_eq!(decoder.info().width, 2);
    assert_eq!(decoder.info().height, 2);
    assert_eq!(decoder.info().image_type, ImageType::Grayscale);
    let img = decoder.decode().unwrap();
    assert_eq!(img.raw_data(), &[10, 20, 30, 40]);
    let rgba = img.to_rgba_bytes();
    assert_eq!(rgba.as_slice().len(), 2 * 2 * 4);
    assert_eq!(&rgba.as_slice()[0..4], &[10, 10, 10, 255]);
    let rgb = img.to_rgb_bytes();
    assert_eq!(rgb.as_slice().len(), 2 * 2 * 3);
    assert_eq!(&rgb.as_slice()[0..3], &[10, 10, 10]);
    assert!(img.palette().is_none());
}

#[test]
fn decode_rgb_sub_filter() {
    let input = simple_png(2, 1, 8, 2, &[1, 10, 20, 30, 5, 5, 5]);
    let img = PngDecoder::new(&input).unwrap().decode().unwrap();
    assert_eq!(img.raw_data(), &[10, 20, 30, 15, 25, 35]);
}

#[test]
fn decode_up_and_average_filters() {
    // row 1 verbatim, row 2 adds the row above, row 3 adds the floored
    // mean of left and above
    let raw = [0u8, 10, 20, 2, 1, 2, 3, 100, 50];
    let input = simple_png(2, 3, 8, 0, &raw);
    let img = PngDecoder::new(&input).unwrap().decode().unwrap();
    // row 2: [10 + 1, 20 + 2] = [11, 22]
    // row 3: [100 + (0 + 11) / 2, 50 + (105 + 22) / 2] = [105, 113]
    assert_eq!(img.raw_data(), &[10, 20, 11, 22, 105, 113]);
}

#[test]
fn decode_paeth_first_row() {
    let input = simple_png(3, 1, 8, 0, &[4, 10, 20, 30]);
    let img = PngDecoder::new(&input).unwrap().decode().unwrap();
    // first pixel is verbatim; after that the predictor picks `left`
    assert_eq!(img.raw_data(), &[10, 30, 60]);
}

#[test]
fn decode_rgba_and_gray_alpha() {
    let input = simple_png(1, 1, 8, 6, &[0, 1, 2, 3, 4]);
    let img = PngDecoder::new(&input).unwrap().decode().unwrap();
    assert_eq!(img.raw_data(), &[1, 2, 3, 4]);
    assert_eq!(img.to_rgba_bytes().as_slice(), &[1, 2, 3, 4]);

    let input = simple_png(1, 1, 8, 4, &[0, 9, 200]);
    let img = PngDecoder::new(&input).unwrap().decode().unwrap();
    assert_eq!(img.to_rgba_bytes().as_slice(), &[9, 9, 9, 200]);
    assert_eq!(img.to_rgb_bytes().as_slice(), &[9, 9, 9]);
}

#[test]
fn magic_corruption_yields_invalid_data() {
    let good = simple_png(1, 1, 8, 0, &[0, 7]);
    assert!(PngDecoder::new(&good).is_ok());
    for i in 0..8 {
        let mut bad = good.clone();
        bad[i] ^= 0xFF;
        match PngDecoder::new(&bad) {
            Err(DecodeError::InvalidData) => {},
            other => panic!("byte {} flipped: {:?}", i, other.err()),
        }
    }
}

#[test]
fn truecolor_one_bit_is_unsupported() {
    let input = simple_png(1, 1, 1, 2, &[0, 0x80]);
    assert_eq!(
        PngDecoder::new(&input).err(),
        Some(DecodeError::UnsupportedFormat)
    );
}

#[test]
fn decode_twice_is_bit_identical() {
    let input = simple_png(2, 2, 8, 0, &[4, 1, 2, 2, 3, 4]);
    let decoder = PngDecoder::new(&input).unwrap();
    let a = decoder.decode().unwrap();
    let b = decoder.decode().unwrap();
    assert_eq!(a.raw_data(), b.raw_data());
    assert_eq!(a.to_rgba_bytes().as_slice(), b.to_rgba_bytes().as_slice());
}

#[test]
fn indexed_image_with_palette() {
    let palette = [255, 0, 0, 0, 255, 0];
    let input = png(&[
        ihdr(2, 1, 8, 3),
        chunk(b"PLTE", &palette),
        chunk(b"IDAT", &zlib_stored(&[0, 1, 0])),
        chunk(b"IEND", &[]),
    ]);
    let img = PngDecoder::new(&input).unwrap().decode().unwrap();
    assert_eq!(img.raw_data(), &[1, 0]);
    assert_eq!(img.palette().unwrap().len(), 2);
    assert_eq!(img.to_rgb_bytes().as_slice(), &[0, 255, 0, 255, 0, 0]);
    assert_eq!(
        img.to_rgba_bytes().as_slice(),
        &[0, 255, 0, 255, 255, 0, 0, 255]
    );
}

#[test]
fn indexed_sample_one_past_palette_end_fails() {
    // the largest sample equals the palette length: one past the end
    let palette = [255, 0, 0, 0, 255, 0];
    let input = png(&[
        ihdr(2, 1, 8, 3),
        chunk(b"PLTE", &palette),
        chunk(b"IDAT", &zlib_stored(&[0, 2, 0])),
        chunk(b"IEND", &[]),
    ]);
    assert_eq!(
        PngDecoder::new(&input).unwrap().decode().err(),
        Some(DecodeError::InvalidData)
    );
}

#[test]
fn indexed_without_palette_fails() {
    let input = simple_png(1, 1, 8, 3, &[0, 0]);
    assert_eq!(
        PngDecoder::new(&input).unwrap().decode().err(),
        Some(DecodeError::InvalidData)
    );
}

#[test]
fn indexed_one_bit_unpacking() {
    let palette = [0, 0, 0, 255, 255, 255];
    let input = png(&[
        ihdr(5, 1, 1, 3),
        chunk(b"PLTE", &palette),
        chunk(b"IDAT", &zlib_stored(&[0, 0b1011_0000])),
        chunk(b"IEND", &[]),
    ]);
    let img = PngDecoder::new(&input).unwrap().decode().unwrap();
    assert_eq!(img.raw_data(), &[1, 0, 1, 1, 0]);
}

#[test]
fn indexed_two_and_four_bit_unpacking() {
    let palette = [0, 0, 0, 1, 1, 1, 2, 2, 2, 3, 3, 3];
    let input = png(&[
        ihdr(3, 1, 2, 3),
        chunk(b"PLTE", &palette),
        chunk(b"IDAT", &zlib_stored(&[0, 0b11_01_10_00])),
        chunk(b"IEND", &[]),
    ]);
    let img = PngDecoder::new(&input).unwrap().decode().unwrap();
    assert_eq!(img.raw_data(), &[3, 1, 2]);

    let palette16: Vec<u8> = (0..48).collect();
    let input = png(&[
        ihdr(3, 1, 4, 3),
        chunk(b"PLTE", &palette16),
        chunk(b"IDAT", &zlib_stored(&[0, 0xA7, 0x30])),
        chunk(b"IEND", &[]),
    ]);
    let img = PngDecoder::new(&input).unwrap().decode().unwrap();
    assert_eq!(img.raw_data(), &[0xA, 0x7, 0x3]);
}

#[test]
fn split_data_chunks_merge_in_order() {
    let raw = [0u8, 1, 2, 3, 0, 4, 5, 6];
    let compressed = zlib_stored(&raw);
    let whole = png(&[
        ihdr(3, 2, 8, 0),
        chunk(b"IDAT", &compressed),
        chunk(b"IEND", &[]),
    ]);
    let split = png(&[
        ihdr(3, 2, 8, 0),
        chunk(b"IDAT", &compressed[0..3]),
        chunk(b"IDAT", &compressed[3..7]),
        chunk(b"IDAT", &compressed[7..]),
        chunk(b"IEND", &[]),
    ]);
    let a = PngDecoder::new(&whole).unwrap().decode().unwrap();
    let b = PngDecoder::new(&split).unwrap().decode().unwrap();
    assert_eq!(a.raw_data(), b.raw_data());
    assert_eq!(a.raw_data(), &[1, 2, 3, 4, 5, 6]);
}

#[test]
fn unknown_ancillary_chunk_is_skipped() {
    let input = png(&[
        ihdr(1, 1, 8, 0),
        chunk(b"tEXt", &[1, 2, 3]),
        chunk(b"IDAT", &zlib_stored(&[0, 7])),
        chunk(b"IEND", &[]),
    ]);
    let img = PngDecoder::new(&input).unwrap().decode().unwrap();
    assert_eq!(img.raw_data(), &[7]);
}

#[test]
fn unknown_ancillary_chunk_mid_walk_is_skipped() {
    // inserted between the palette and the data chunks, and again
    // between two data chunks: both positions are invisible
    let palette = [255, 0, 0, 0, 255, 0];
    let compressed = zlib_stored(&[0, 1, 0]);
    let plain = png(&[
        ihdr(2, 1, 8, 3),
        chunk(b"PLTE", &palette),
        chunk(b"IDAT", &compressed[..4]),
        chunk(b"IDAT", &compressed[4..]),
        chunk(b"IEND", &[]),
    ]);
    let inserted = png(&[
        ihdr(2, 1, 8, 3),
        chunk(b"PLTE", &palette),
        chunk(b"tIME", &[9, 9]),
        chunk(b"IDAT", &compressed[..4]),
        chunk(b"zTXt", &[1]),
        chunk(b"IDAT", &compressed[4..]),
        chunk(b"IEND", &[]),
    ]);
    let a = PngDecoder::new(&plain).unwrap().decode().unwrap();
    let b = PngDecoder::new(&inserted).unwrap().decode().unwrap();
    assert_eq!(a.raw_data(), b.raw_data());
    assert_eq!(a.palette().unwrap(), b.palette().unwrap());
}

#[test]
fn unknown_critical_chunk_in_data_run_is_unsupported() {
    let compressed = zlib_stored(&[0, 7]);
    let input = png(&[
        ihdr(1, 1, 8, 0),
        chunk(b"IDAT", &compressed[..4]),
        chunk(b"TEXT", &[1]),
        chunk(b"IDAT", &compressed[4..]),
        chunk(b"IEND", &[]),
    ]);
    assert_eq!(
        PngDecoder::new(&input).unwrap().decode().err(),
        Some(DecodeError::UnsupportedFormat)
    );
}

#[test]
fn unknown_critical_chunk_is_unsupported() {
    let input = png(&[
        ihdr(1, 1, 8, 0),
        chunk(b"TEXT", &[1, 2, 3]),
        chunk(b"IDAT", &zlib_stored(&[0, 7])),
        chunk(b"IEND", &[]),
    ]);
    assert_eq!(
        PngDecoder::new(&input).unwrap().decode().err(),
        Some(DecodeError::UnsupportedFormat)
    );
}

#[test]
fn duplicate_or_ragged_palette_fails() {
    let input = png(&[
        ihdr(1, 1, 8, 3),
        chunk(b"PLTE", &[1, 2, 3]),
        chunk(b"PLTE", &[4, 5, 6]),
        chunk(b"IDAT", &zlib_stored(&[0, 0])),
        chunk(b"IEND", &[]),
    ]);
    assert_eq!(
        PngDecoder::new(&input).unwrap().decode().err(),
        Some(DecodeError::InvalidData)
    );

    let input = png(&[
        ihdr(1, 1, 8, 3),
        chunk(b"PLTE", &[1, 2]),
        chunk(b"IDAT", &zlib_stored(&[0, 0])),
        chunk(b"IEND", &[]),
    ]);
    assert_eq!(
        PngDecoder::new(&input).unwrap().decode().err(),
        Some(DecodeError::InvalidData)
    );
}

#[test]
fn missing_data_chunk_fails() {
    let input = png(&[ihdr(1, 1, 8, 0), chunk(b"IEND", &[])]);
    assert_eq!(
        PngDecoder::new(&input).unwrap().decode().err(),
        Some(DecodeError::InvalidData)
    );
}

#[test]
fn bad_filter_selector_fails() {
    let input = simple_png(1, 1, 8, 0, &[9, 7]);
    assert_eq!(
        PngDecoder::new(&input).unwrap().decode().err(),
        Some(DecodeError::InvalidData)
    );
}

#[test]
fn short_row_fails() {
    let input = simple_png(4, 2, 8, 0, &[0, 1, 2, 3, 4, 0, 5]);
    assert_eq!(
        PngDecoder::new(&input).unwrap().decode().err(),
        Some(DecodeError::InvalidData)
    );
}

#[test]
fn garbage_compressed_stream_fails() {
    let input = png(&[
        ihdr(1, 1, 8, 0),
        chunk(b"IDAT", &[0xDE, 0xAD, 0xBE, 0xEF]),
        chunk(b"IEND", &[]),
    ]);
    assert_eq!(
        PngDecoder::new(&input).unwrap().decode().err(),
        Some(DecodeError::InvalidData)
    );
}

#[test]
fn nonzero_method_bytes_are_unsupported() {
    for pos in 10..13 {
        let mut hdr = ihdr(1, 1, 8, 0);
        hdr[8 + pos] = 1;
        let input = png(&[hdr, chunk(b"IDAT", &zlib_stored(&[0, 7])), chunk(b"IEND", &[])]);
        assert_eq!(
            PngDecoder::new(&input).err(),
            Some(DecodeError::UnsupportedFormat)
        );
    }
}

#[test]
fn zero_dimension_is_invalid() {
    let input = simple_png(0, 1, 8, 0, &[0]);
    assert_eq!(PngDecoder::new(&input).err(), Some(DecodeError::InvalidData));
    let input = simple_png(1, 0, 8, 0, &[0]);
    assert_eq!(PngDecoder::new(&input).err(), Some(DecodeError::InvalidData));
}

#[test]
fn oversized_resolution_is_unsupported() {
    let input = simple_png(0x4000, 0x4000, 8, 0, &[0]);
    assert_eq!(
        PngDecoder::new(&input).err(),
        Some(DecodeError::UnsupportedFormat)
    );
}

#[test]
fn truncated_input_is_invalid() {
    assert_eq!(
        PngDecoder::new(&[0x89, 0x50]).err(),
        Some(DecodeError::InvalidData)
    );
    let input = png(&[ihdr(1, 1, 8, 0)]);
    assert_eq!(
        PngDecoder::new(&input[..20]).err(),
        Some(DecodeError::InvalidData)
    );
}
