use pngss::color::{RGB888, RGBA8888, RGBAComponents8888};
use pngss::{Be32, BitDepth, Chunks, FilterType, FourCC, ImageType};
use pngss::{average, paeth, unfilter_row, unpack_bits};

#[test]
fn unfiltered_row_is_verbatim() {
    let out = unfilter_row(FilterType::Unfiltered, &[10, 20, 30], &[0, 0, 0], 1);
    assert_eq!(out, vec![10, 20, 30]);
}

#[test]
fn sub_row_accumulates_deltas() {
    let out = unfilter_row(FilterType::Sub, &[10, 10, 10], &[0, 0, 0], 1);
    assert_eq!(out, vec![10, 20, 30]);
}

#[test]
fn sub_row_respects_channel_lanes() {
    let out = unfilter_row(FilterType::Sub, &[10, 100, 10, 100], &[0, 0, 0, 0], 2);
    assert_eq!(out, vec![10, 100, 20, 200]);
}

#[test]
fn paeth_boundary_predictor_is_zero() {
    assert_eq!(paeth(0, 0, 0), 0);
    let out = unfilter_row(FilterType::Paeth, &[42, 1], &[0, 0], 1);
    assert_eq!(out[0], 42);
}

#[test]
fn paeth_picks_nearest_with_tie_order() {
    // p = 10 + 20 - 5 = 25: distances 15, 5, 20 -> above
    assert_eq!(paeth(10, 20, 5), 20);
    // upper-left is nearest here
    assert_eq!(paeth(3, 7, 5), 5);
    // on a tie, above beats upper-left
    assert_eq!(paeth(8, 2, 6), 2);
    assert_eq!(paeth(10, 10, 10), 10);
}

#[test]
fn average_floors_the_mean() {
    assert_eq!(average(0, 11), 5);
    assert_eq!(average(255, 255), 255);
    assert_eq!(average(1, 2), 1);
}

#[test]
fn one_bit_unpacking_discards_row_padding() {
    let out = unpack_bits(&[0b1011_0000], 5, 1, 1, 1);
    assert_eq!(out, vec![1, 0, 1, 1, 0]);
}

#[test]
fn two_bit_unpacking_is_msb_first() {
    let out = unpack_bits(&[0b11_01_10_00, 0b01_00_00_00], 5, 1, 2, 2);
    assert_eq!(out, vec![3, 1, 2, 0, 1]);
}

#[test]
fn be32_round_trips() {
    let v = Be32::from_u32(0x0102_03FF);
    assert_eq!(v.as_u32(), 0x0102_03FF);
    assert_eq!(Be32::from_u32(0).as_u32(), 0);
    assert_eq!(Be32::from_u32(u32::MAX).as_u32(), u32::MAX);
    assert_eq!(Be32::from_u32(v.as_u32()), v);
}

#[test]
fn fourcc_classification_bits() {
    let ihdr = FourCC(*b"IHDR");
    assert!(ihdr.is_valid());
    assert!(ihdr.is_critical());
    assert!(!ihdr.is_ancillary());
    assert!(ihdr.is_public());
    assert!(!ihdr.is_reserved());
    assert!(ihdr.is_unsafe_to_copy());
    assert_eq!(ihdr.as_str(), "IHDR");

    let text = FourCC(*b"tEXt");
    assert!(text.is_valid());
    assert!(text.is_ancillary());
    assert!(text.is_safe_to_copy());
    assert!(!text.is_private());

    assert!(!FourCC(*b"IH1R").is_valid());
    assert!(!FourCC(*b"IHdR").is_valid());
    // any ASCII tag converts to text, letters or not
    assert_eq!(FourCC(*b"aB3x").as_str(), "aB3x");
}

#[test]
fn chunk_walker_peek_and_advance() {
    let mut stream = Vec::new();
    stream.extend_from_slice(&[0, 0, 0, 2]);
    stream.extend_from_slice(b"tEXt");
    stream.extend_from_slice(&[7, 8]);
    stream.extend_from_slice(&[0, 0, 0, 9]);
    stream.extend_from_slice(&[0, 0, 0, 0]);
    stream.extend_from_slice(b"IEND");
    stream.extend_from_slice(&[1, 2, 3, 4]);

    let mut chunks = Chunks::new(&stream);
    let peeked = chunks.peek_chunk().unwrap();
    assert_eq!(peeked.len(), 2);
    assert_eq!(peeked.data(), &[7, 8]);
    assert_eq!(peeked.crc(), 9);
    assert!(!peeked.is_iend());
    let first = chunks.next_chunk().unwrap();
    assert_eq!(first.chunk_type().as_str(), "tEXt");
    let last = chunks.next_chunk().unwrap();
    assert!(last.is_iend());
    assert_eq!(last.len(), 0);
    assert_eq!(last.crc(), 0x01020304);
}

#[test]
fn chunk_walker_rejects_truncation_and_bad_tags() {
    let mut chunks = Chunks::new(&[0, 0, 0, 1]);
    assert!(chunks.peek_chunk().is_err());

    let mut stream = Vec::new();
    stream.extend_from_slice(&[0, 0, 0, 50]);
    stream.extend_from_slice(b"IDAT");
    stream.extend_from_slice(&[0; 8]);
    let mut chunks = Chunks::new(&stream);
    assert!(chunks.next_chunk().is_err());

    let mut stream = Vec::new();
    stream.extend_from_slice(&[0, 0, 0, 0]);
    stream.extend_from_slice(&[0x49, 0x31, 0x44, 0x52]);
    stream.extend_from_slice(&[0; 4]);
    assert!(Chunks::new(&stream).peek_chunk().is_err());
}

#[test]
fn get_idat_chunks_merges_and_requires_data() {
    let mut stream = Vec::new();
    stream.extend_from_slice(&[0, 0, 0, 2]);
    stream.extend_from_slice(b"IDAT");
    stream.extend_from_slice(&[1, 2, 0, 0, 0, 0]);
    stream.extend_from_slice(&[0, 0, 0, 1]);
    stream.extend_from_slice(b"IDAT");
    stream.extend_from_slice(&[3, 0, 0, 0, 0]);
    stream.extend_from_slice(&[0, 0, 0, 0]);
    stream.extend_from_slice(b"IEND");
    stream.extend_from_slice(&[0, 0, 0, 0]);
    let merged = Chunks::new(&stream).get_idat_chunks(true).unwrap();
    assert_eq!(merged, vec![1, 2, 3]);

    let mut stream = Vec::new();
    stream.extend_from_slice(&[0, 0, 0, 0]);
    stream.extend_from_slice(b"IEND");
    stream.extend_from_slice(&[0, 0, 0, 0]);
    assert!(Chunks::new(&stream).get_idat_chunks(true).is_err());
}

#[test]
fn get_idat_chunks_can_skip_leading_chunks() {
    let mut stream = Vec::new();
    stream.extend_from_slice(&[0, 0, 0, 3]);
    stream.extend_from_slice(b"PLTE");
    stream.extend_from_slice(&[9, 9, 9, 0, 0, 0, 0]);
    stream.extend_from_slice(&[0, 0, 0, 1]);
    stream.extend_from_slice(b"IDAT");
    stream.extend_from_slice(&[5, 0, 0, 0, 0]);
    stream.extend_from_slice(&[0, 0, 0, 0]);
    stream.extend_from_slice(b"IEND");
    stream.extend_from_slice(&[0, 0, 0, 0]);
    let merged = Chunks::new(&stream).get_idat_chunks(false).unwrap();
    assert_eq!(merged, vec![5]);
}

#[test]
fn filter_type_selector_bytes() {
    assert_eq!(FilterType::new(0), Some(FilterType::Unfiltered));
    assert_eq!(FilterType::new(1), Some(FilterType::Sub));
    assert_eq!(FilterType::new(2), Some(FilterType::Up));
    assert_eq!(FilterType::new(3), Some(FilterType::Average));
    assert_eq!(FilterType::new(4), Some(FilterType::Paeth));
    assert_eq!(FilterType::new(5), None);
}

#[test]
fn bit_depth_codes() {
    assert_eq!(BitDepth::new(1), Some(BitDepth::Bpp1));
    assert_eq!(BitDepth::new(8), Some(BitDepth::Bpp8));
    assert_eq!(BitDepth::new(3), None);
    assert_eq!(BitDepth::Bpp4.bits_per_pixel(), 4);
}

#[test]
fn image_type_channel_counts() {
    assert_eq!(ImageType::Grayscale.n_channels(), 1);
    assert_eq!(ImageType::GrayscaleAlpha.n_channels(), 2);
    assert_eq!(ImageType::RGB.n_channels(), 3);
    assert_eq!(ImageType::RGBA.n_channels(), 4);
    assert_eq!(ImageType::Indexed.n_channels(), 1);
    assert!(ImageType::RGBA.has_alpha());
    assert!(!ImageType::RGB.has_alpha());
    assert!(ImageType::GrayscaleAlpha.is_gray_scale());
    assert!(ImageType::Indexed.is_color());
}

#[test]
fn image_type_iter_and_for_each() {
    let pixels = ImageType::Grayscale.iter(&[5, 6], &[]);
    assert_eq!(pixels.len(), 2);
    assert_eq!(pixels[0].components().into_array(), [5, 5, 5, 255]);

    let palette = [RGB888::new(1, 2, 3)];
    let pixels = ImageType::Indexed.iter(&[0], &palette);
    assert_eq!(pixels[0].components().into_array(), [1, 2, 3, 255]);

    let mut seen: u32 = 0;
    let counter = std::cell::Cell::new(0u32);
    let res: Result<(), ()> = ImageType::RGB.for_each(&[1, 2, 3, 4, 5, 6], &[], |_p| {
        counter.set(counter.get() + 1);
        Ok(())
    });
    assert!(res.is_ok());
    seen += counter.get();
    assert_eq!(seen, 2);

    let res: Result<(), u8> =
        ImageType::Grayscale.for_each(&[1, 2], &[], |p| if p.r() == 2 { Err(9) } else { Ok(()) });
    assert_eq!(res, Err(9));
}

#[test]
fn image_type_byte_conversions() {
    let rgba = ImageType::RGB.to_rgba_bytes(&[1, 2, 3], &[]);
    assert_eq!(rgba.as_slice(), &[1, 2, 3, 255]);
    let rgb = ImageType::RGBA.to_rgb_bytes(&[1, 2, 3, 9], &[]);
    assert_eq!(rgb.as_slice(), &[1, 2, 3]);
    let same = ImageType::RGBA.to_rgba_bytes(&[1, 2, 3, 9], &[]);
    assert_eq!(same.as_slice(), &[1, 2, 3, 9]);
}

#[test]
fn rgba_component_accessors() {
    let p = RGBA8888::from_rgba(1, 2, 3, 4);
    assert_eq!((p.r(), p.g(), p.b(), p.a()), (1, 2, 3, 4));
    assert!(!p.is_gray());
    assert!(RGBA8888::from_gray(9).is_gray());
    assert_eq!(RGBA8888::from_gray(9).a(), 255);
    assert_eq!(RGBA8888::from_gray_alpha(9, 7).a(), 7);
    assert_eq!(RGBA8888::from_rgb(1, 2, 3).a(), 255);
    assert_eq!(p.to_rgb(), RGB888::new(1, 2, 3));
}

#[test]
fn rgba_arithmetic() {
    let a = RGBA8888::from_rgba(250, 10, 128, 255);
    let b = RGBA8888::from_rgba(10, 20, 128, 1);
    assert_eq!(a.wrapping_add(b).components().into_array(), [4, 30, 0, 0]);
    assert_eq!(
        a.saturating_add(b).components().into_array(),
        [255, 30, 255, 255]
    );
    assert_eq!(
        b.wrapping_sub(a).components().into_array(),
        [16, 10, 0, 2]
    );
    assert_eq!(
        b.saturating_sub(a).components().into_array(),
        [0, 10, 0, 0]
    );
}

#[test]
fn component_arithmetic_and_arrays() {
    let c = RGBAComponents8888::new(3, 4, 5, 6);
    assert_eq!((c.r(), c.g(), c.b(), c.a()), (3, 4, 5, 6));
    assert_eq!(c.into_array(), [3, 4, 5, 6]);
    assert_eq!(RGBAComponents8888::from_array([3, 4, 5, 6]), c);
    assert_eq!(RGBAComponents8888::from_rgba(c.into_rgba()), c);
    assert_eq!(
        c.saturating_mul(100).into_array(),
        [255, 255, 255, 255]
    );
    assert_eq!(c.saturating_mul(2).into_array(), [6, 8, 10, 12]);
    assert_eq!(
        c.wrapping_add(RGBAComponents8888::new(255, 0, 0, 0)).into_array(),
        [2, 4, 5, 6]
    );
}

#[test]
fn ordering_is_lexicographic_over_abgr() {
    // alpha dominates, then blue, green, red
    let low = RGBAComponents8888::new(255, 255, 255, 1);
    let high = RGBAComponents8888::new(0, 0, 0, 2);
    assert!(low < high);
    let a = RGBA8888::from_rgba(9, 0, 0, 5);
    let b = RGBA8888::from_rgba(0, 0, 1, 5);
    assert!(a < b);
}

#[test]
fn rgb_triple_value_and_conversions() {
    let t = RGB888::new(0x12, 0x34, 0x56);
    assert_eq!(t.value(), 0x123456);
    assert_eq!(RGB888::from_gray(7), RGB888::new(7, 7, 7));
    assert_eq!(t.into_rgba().components().into_array(), [0x12, 0x34, 0x56, 255]);
    assert_eq!(RGB888::from_rgba(RGBA8888::from_rgba(1, 2, 3, 4)), RGB888::new(1, 2, 3));
}

#[test]
fn unfilter_image_walks_rows() {
    // two rows of three bytes: verbatim, then row-above deltas
    let src = [0u8, 1, 2, 3, 2, 10, 20, 30];
    let out = pngss::unfilter_image(&src, 3, 1, 2).unwrap();
    assert_eq!(out, vec![1, 2, 3, 11, 22, 33]);
    assert!(pngss::unfilter_image(&src[..6], 3, 1, 2).is_err());
    assert!(pngss::unfilter_image(&[7, 1, 2, 3], 3, 1, 1).is_err());
}

#[test]
fn decode_inflated_reconstructs_and_unpacks() {
    let info = pngss::ImageInfo {
        width: 2,
        height: 1,
        bit_depth: pngss::BitDepth::Bpp8,
        image_type: pngss::ImageType::RGB,
    };
    let out = pngss::decode_inflated(&info, &[1, 10, 20, 30, 1, 1, 1]).unwrap();
    assert_eq!(out, vec![10, 20, 30, 11, 21, 31]);

    let info = pngss::ImageInfo {
        width: 3,
        height: 1,
        bit_depth: pngss::BitDepth::Bpp4,
        image_type: pngss::ImageType::Indexed,
    };
    let out = pngss::decode_inflated(&info, &[0, 0x12, 0x30]).unwrap();
    assert_eq!(out, vec![1, 2, 3]);
}
