//! A decoder for a subset of the PNG raster-image container format.
//!
//! The input is one contiguous byte buffer: an 8-byte magic prefix followed
//! by a stream of length-prefixed, typed, checksummed chunks. Decoding
//! validates the header chunk, collects the optional palette and the
//! data-bearing chunks, inflates the assembled compressed stream, reverses
//! the per-scanline prediction filters, expands sub-byte bit depths, and
//! checks palette bounds, yielding an owned pixel buffer with
//! format-converting accessors.

use vstd::prelude::*;

mod chunk;
pub mod color;
mod filters;
mod image_data;
mod inflate;
mod unpack;

pub use chunk::{Be32, Chunks, FourCC, PngChunk};
pub use filters::{FilterType, average, paeth, unfilter_image, unfilter_row};
pub use image_data::{BitDepth, ImageData, ImageInfo, ImageType, RgbBytes, RgbaBytes};
pub use unpack::unpack_bits;

verus! {

/// The two terminal failure kinds of decoding.
#[derive(Debug, Clone, Copy, PartialEq, Eq, Structural)]
pub enum DecodeError {
    /// The byte stream violates a structural contract of the format.
    InvalidData,
    /// The stream is well-formed but uses a feature this decoder does not
    /// implement.
    UnsupportedFormat,
}

/// The 8-byte magic prefix every input must begin with.
pub open spec fn magic() -> Seq<u8> {
    seq![0x89u8, 0x50u8, 0x4Eu8, 0x47u8, 0x0Du8, 0x0Au8, 0x1Au8, 0x0Au8]
}

/// The layout a header's color-model byte denotes at the given depth;
/// only the pairings the header validator accepts denote anything.
pub open spec fn image_type_of(color_type: u8, depth: BitDepth) -> Option<ImageType> {
    if color_type == 0 && depth == BitDepth::Bpp8 {
        Option::Some(ImageType::Grayscale)
    } else if color_type == 2 && depth == BitDepth::Bpp8 {
        Option::Some(ImageType::RGB)
    } else if color_type == 3 {
        Option::Some(ImageType::Indexed)
    } else if color_type == 4 && depth == BitDepth::Bpp8 {
        Option::Some(ImageType::GrayscaleAlpha)
    } else if color_type == 6 && depth == BitDepth::Bpp8 {
        Option::Some(ImageType::RGBA)
    } else {
        Option::None
    }
}

/// What validating the leading bytes of an input yields: the magic
/// prefix, then one header chunk of exactly 13 payload bytes carrying
/// dimensions, bit depth, color model and the three method bytes.
pub open spec fn parse_header(input: Seq<u8>) -> Result<ImageInfo, DecodeError> {
    if input.len() < 8 || input.subrange(0, 8) != magic() {
        Err(DecodeError::InvalidData)
    } else if input.len() < 33 {
        Err(DecodeError::InvalidData)
    } else {
        match chunk::parse_chunk(input.subrange(8, 33)) {
            Option::None => Err(DecodeError::InvalidData),
            Option::Some(c) => {
                if c.tag != chunk::tag_ihdr() || c.len != 13 {
                    Err(DecodeError::InvalidData)
                } else {
                    let width = chunk::be32_of(c.data[0], c.data[1], c.data[2], c.data[3]);
                    let height = chunk::be32_of(c.data[4], c.data[5], c.data[6], c.data[7]);
                    if width == 0 || height == 0 {
                        Err(DecodeError::InvalidData)
                    } else if width * height >= 0x1000_0000 {
                        Err(DecodeError::UnsupportedFormat)
                    } else {
                        match image_data::depth_of(c.data[8]) {
                            Option::None => Err(DecodeError::UnsupportedFormat),
                            Option::Some(bit_depth) => match image_type_of(c.data[9], bit_depth) {
                                Option::None => Err(DecodeError::UnsupportedFormat),
                                Option::Some(image_type) => {
                                    if c.data[10] != 0 || c.data[11] != 0 || c.data[12] != 0 {
                                        Err(DecodeError::UnsupportedFormat)
                                    } else {
                                        Ok(ImageInfo { width, height, bit_depth, image_type })
                                    }
                                },
                            },
                        }
                    }
                }
            },
        }
    }
}

/// The palette a palette chunk's payload denotes: consecutive 3-byte RGB
/// triples, index equal to pixel value.
pub open spec fn palette_of(data: Seq<u8>) -> Seq<crate::color::RGB888> {
    Seq::new(
        (data.len() / 3) as nat,
        |i: int|
            crate::color::RGB888 { r: data[3 * i], g: data[3 * i + 1], b: data[3 * i + 2] },
    )
}

/// The pre-scan pass of a full decode: walk chunks until the first
/// data-bearing or terminal chunk, capturing the palette on the way. A
/// second palette chunk or one whose payload is not a multiple of 3 bytes
/// is invalid; an unknown critical chunk is unsupported.
pub open spec fn prescan(s: Seq<u8>, pal: Option<Seq<crate::color::RGB888>>) -> Result<
    (Option<Seq<crate::color::RGB888>>, Seq<u8>),
    DecodeError,
>
    decreases s.len(),
{
    match chunk::parse_chunk(s) {
        Option::None => Err(DecodeError::InvalidData),
        Option::Some(c) => {
            if c.tag == chunk::tag_idat() || c.tag == chunk::tag_iend() {
                Ok((pal, s))
            } else if c.tag == chunk::tag_plte() {
                if c.len % 3 != 0 || pal is Some {
                    Err(DecodeError::InvalidData)
                } else {
                    prescan(s.skip(12 + c.len as int), Option::Some(palette_of(c.data)))
                }
            } else if chunk::tag_critical(c.tag) {
                Err(DecodeError::UnsupportedFormat)
            } else {
                prescan(s.skip(12 + c.len as int), pal)
            }
        },
    }
}

/// The cap handed to the decompression collaborator: one filter-selector
/// byte plus one byte per channel per pixel, for every row.
pub open spec fn inflate_limit(info: ImageInfo) -> nat {
    ((1 + info.width * image_data::spec_n_channels(info.image_type)) * info.height) as nat
}

/// One row's byte length in the inflated stream: the packed, unexpanded
/// width of `width` pixels at the image's depth and channel count.
pub open spec fn stride_of(info: ImageInfo) -> int {
    (info.width * image_data::spec_n_channels(info.image_type) * info.bit_depth.spec_bits() + 7)
        / 8
}

/// The pixel bytes an inflated stream denotes: scanline reconstruction,
/// then bit-depth expansion when samples are packed below one byte.
pub open spec fn decoded_pixels(info: ImageInfo, inflated: Seq<u8>) -> Option<Seq<u8>> {
    let stride = stride_of(info);
    let bpp = image_data::spec_n_channels(info.image_type);
    match filters::recon_rows(inflated, filters::zero_row(stride), stride, bpp, info.height as int) {
        Option::None => Option::None,
        Option::Some(rec) => Option::Some(
            if info.bit_depth.spec_bits() < 8 {
                unpack::unpacked_pixels(
                    rec,
                    info.width as int,
                    info.height as int,
                    info.bit_depth.spec_bits(),
                    stride,
                )
            } else {
                rec
            },
        ),
    }
}

/// What a full decode of the chunk stream `s` under header `info` yields:
/// the palette (empty unless indexed) and the unpacked pixel bytes, or
/// the first failure. Indexed images must have captured a palette of at
/// most 256 entries that every sample indexes into.
pub open spec fn decode_result(info: ImageInfo, s: Seq<u8>) -> Result<
    (Seq<crate::color::RGB888>, Seq<u8>),
    DecodeError,
> {
    match prescan(s, Option::None) {
        Err(e) => Err(e),
        Ok((pal, rest)) => match chunk::get_idat_spec(rest, true) {
            Err(e) => Err(e),
            Ok(compressed) => match inflate::inflate_of(compressed, inflate_limit(info)) {
                Option::None => Err(DecodeError::InvalidData),
                Option::Some(inflated) => match decoded_pixels(info, inflated) {
                    Option::None => Err(DecodeError::InvalidData),
                    Option::Some(data) => {
                        if info.image_type == ImageType::Indexed {
                            match pal {
                                Option::None => Err(DecodeError::InvalidData),
                                Option::Some(p) => {
                                    if p.len() > 256 || !image_data::samples_in_palette(
                                        ImageType::Indexed,
                                        data,
                                        p,
                                    ) {
                                        Err(DecodeError::InvalidData)
                                    } else {
                                        Ok((p, data))
                                    }
                                },
                            }
                        } else {
                            Ok((Seq::empty(), data))
                        }
                    },
                },
            },
        },
    }
}

/// A decoder holding the validated header and a cursor past it; the full
/// decode is a separate, explicit operation.
pub struct PngDecoder<'a> {
    slice: &'a [u8],
    info: ImageInfo,
}

impl<'a> PngDecoder<'a> {
    /// The chunk stream after the header.
    pub closed spec fn spec_rest(&self) -> Seq<u8> {
        self.slice@
    }

    pub closed spec fn spec_info(&self) -> ImageInfo {
        self.info
    }

    /// Every decoder constructed by [`PngDecoder::new`] carries
    /// well-formed info.
    pub open spec fn wf(&self) -> bool {
        self.spec_info().wf()
    }

    /// Validates the magic prefix and the header chunk, retaining a
    /// cursor past them.
    pub fn new(input: &'a [u8]) -> (res: Result<PngDecoder<'a>, DecodeError>)
        ensures
            match res {
                Ok(d) => parse_header(input@) == Ok::<ImageInfo, DecodeError>(d.spec_info())
                    && d.spec_rest() == input@.skip(33) && d.wf(),
                Err(e) => parse_header(input@) == Err::<ImageInfo, DecodeError>(e),
            },
    {
        let n = input.len();
        if n < 8 {
            return Err(DecodeError::InvalidData);
        }
        if !(input[0] == 0x89 && input[1] == 0x50 && input[2] == 0x4E && input[3] == 0x47
            && input[4] == 0x0D && input[5] == 0x0A && input[6] == 0x1A && input[7] == 0x0A) {
            proof {
                assert(input@.subrange(0, 8) != magic()) by {
                    if input@.subrange(0, 8) == magic() {
                        assert(forall|i: int| 0 <= i < 8 ==> input@[i] == magic()[i]);
                    }
                }
            }
            return Err(DecodeError::InvalidData);
        }
        proof {
            assert(input@.subrange(0, 8) =~= magic());
        }
        if n < 33 {
            return Err(DecodeError::InvalidData);
        }
        let header = vstd::slice::slice_subrange(input, 8, 33);
        let mut hdr_chunks = Chunks::new(header);
        let ihdr = match hdr_chunks.peek_chunk() {
            Ok(c) => c,
            Err(e) => {
                return Err(e);
            },
        };
        if !ihdr.chunk_type().is_tag(0x49, 0x48, 0x44, 0x52) {
            return Err(DecodeError::InvalidData);
        }
        if ihdr.len() != 13 {
            return Err(DecodeError::InvalidData);
        }
        let d = ihdr.data();
        let width = chunk::read_be32(d, 0);
        let height = chunk::read_be32(d, 4);
        if width == 0 || height == 0 {
            return Err(DecodeError::InvalidData);
        }
        proof {
            assert((width as int) * (height as int) <= 0xFFFF_FFFFu64 * 0xFFFF_FFFFu64)
                by (nonlinear_arith)
                requires
                    width <= 0xFFFF_FFFFu64,
                    height <= 0xFFFF_FFFFu64,
            ;
        }
        if (width as u64) * (height as u64) >= 0x1000_0000 {
            return Err(DecodeError::UnsupportedFormat);
        }
        let bit_depth = match BitDepth::new(d[8]) {
            Some(b) => b,
            None => {
                return Err(DecodeError::UnsupportedFormat);
            },
        };
        let color_type = d[9];
        let image_type = match (color_type, bit_depth) {
            (0, BitDepth::Bpp8) => ImageType::Grayscale,
            (2, BitDepth::Bpp8) => ImageType::RGB,
            (3, _) => ImageType::Indexed,
            (4, BitDepth::Bpp8) => ImageType::GrayscaleAlpha,
            (6, BitDepth::Bpp8) => ImageType::RGBA,
            _ => {
                return Err(DecodeError::UnsupportedFormat);
            },
        };
        if d[10] != 0 || d[11] != 0 || d[12] != 0 {
            return Err(DecodeError::UnsupportedFormat);
        }
        let info = ImageInfo { width, height, bit_depth, image_type };
        let rest = vstd::slice::slice_subrange(input, 33, n);
        proof {
            assert(rest@ =~= input@.skip(33));
        }
        Ok(PngDecoder { slice: rest, info })
    }

    /// A cursor over the chunks after the header.
    pub fn chunks(&self) -> (res: Chunks<'a>)
        ensures
            res@ == self.spec_rest(),
    {
        Chunks::new(self.slice)
    }

    pub fn info(&self) -> (res: &ImageInfo)
        ensures
            *res == self.spec_info(),
    {
        &self.info
    }
}

/// The ghost contents of the palette captured so far during the
/// pre-scan pass.
spec fn opt_palette_view(p: &Option<Vec<crate::color::RGB888>>) -> Option<
    Seq<crate::color::RGB888>,
> {
    match p {
        Option::Some(v) => Option::Some(v@),
        Option::None => Option::None,
    }
}

/// Builds the palette a palette chunk's payload denotes.
fn build_palette(data: &[u8]) -> (res: Vec<crate::color::RGB888>)
    ensures
        res@ == palette_of(data@),
{
    let n = data.len();
    let count = n / 3;
    let mut out: Vec<crate::color::RGB888> = Vec::new();
    let mut i: usize = 0;
    while i < count
        invariant
            i <= count,
            count == data@.len() as int / 3,
            n == data@.len(),
            out@.len() == i,
            forall|j: int| 0 <= j < i ==> out@[j] == palette_of(data@)[j],
        decreases count - i,
    {
        proof {
            assert(3 * i + 2 < n) by (nonlinear_arith)
                requires
                    0 <= i < count,
                    count == n as int / 3,
            ;
        }
        out.push(
            crate::color::RGB888 { r: data[3 * i], g: data[3 * i + 1], b: data[3 * i + 2] },
        );
        i = i + 1;
    }
    proof {
        assert(out@ =~= palette_of(data@));
    }
    out
}

/// Runs scanline reconstruction and bit-depth expansion over an inflated
/// stream, yielding one byte per channel per pixel.
pub fn decode_inflated(info: &ImageInfo, inflated: &[u8]) -> (res: Result<Vec<u8>, DecodeError>)
    requires
        info.wf(),
    ensures
        match res {
            Ok(v) => decoded_pixels(*info, inflated@) == Option::Some(v@) && v@.len()
                == info.width * info.height * image_data::spec_n_channels(info.image_type),
            Err(e) => decoded_pixels(*info, inflated@) is None && e == DecodeError::InvalidData,
        },
{
    let ch = info.image_type.n_channels();
    let depth = info.bit_depth.bits_per_pixel();
    let w64 = info.width as u64;
    let h64 = info.height as u64;
    proof {
        assert(w64 * h64 < 0x1000_0000 && w64 <= w64 * h64) by (nonlinear_arith)
            requires
                w64 == info.width,
                h64 == info.height,
                1 <= w64,
                1 <= h64,
                (info.width as int) * (info.height as int) < 0x1000_0000,
        ;
        assert(w64 * (ch as u64) * (depth as u64) + 7 < 0x10_0000_0000u64) by (nonlinear_arith)
            requires
                w64 < 0x1000_0000,
                1 <= ch <= 4,
                1 <= depth <= 8,
        ;
    }
    let stride64 = (w64 * ch as u64 * depth as u64 + 7) / 8;
    proof {
        assert(stride64 < 0x2_0000_0000u64 / 8u64);
        assert(stride64 == stride_of(*info));
    }
    let stride = stride64 as usize;
    let h = info.height as usize;
    let w = info.width as usize;
    let rec = match filters::unfilter_image(inflated, stride, ch, h) {
        Ok(rec) => rec,
        Err(e) => {
            return Err(e);
        },
    };
    if depth < 8 {
        proof {
            assert(info.image_type == ImageType::Indexed && ch == 1);
            filters::lemma_recon_rows_len(
                inflated@,
                filters::zero_row(stride as int),
                stride as int,
                ch as int,
                h as int,
            );
            assert((w as int) * (h as int) < 0x1000_0000);
        }
        let fixed = unpack_bits(rec.as_slice(), w, h, depth, stride);
        Ok(fixed)
    } else {
        proof {
            filters::lemma_recon_rows_len(
                inflated@,
                filters::zero_row(stride as int),
                stride as int,
                ch as int,
                h as int,
            );
            vstd::arithmetic::div_mod::lemma_div_multiples_vanish_fancy(
                (w as int) * (ch as int),
                7,
                8,
            );
            assert(stride as int == (w as int) * (ch as int));
            assert((h as int) * (stride as int) == (w as int) * (h as int) * (ch as int))
                by (nonlinear_arith)
                requires
                    stride as int == (w as int) * (ch as int),
            ;
        }
        Ok(rec)
    }
}

impl<'a> PngDecoder<'a> {
    /// Performs the full decode: collect the palette and the data-bearing
    /// chunks, inflate, reverse the scanline filters, expand sub-byte
    /// depths, and check palette bounds. The result is determined by the
    /// input bytes alone, so decoding the same buffer twice yields
    /// bit-identical pixel buffers.
    pub fn decode(&self) -> (res: Result<ImageData, DecodeError>)
        requires
            self.wf(),
        ensures
            match res {
                Ok(img) => ({
                    &&& decode_result(self.spec_info(), self.spec_rest()) == Ok::<
                        (Seq<crate::color::RGB888>, Seq<u8>),
                        DecodeError,
                    >((img.spec_palette(), img.spec_data()))
                    &&& img.spec_info() == self.spec_info()
                    &&& img.wf()
                }),
                Err(e) => decode_result(self.spec_info(), self.spec_rest()) == Err::<
                    (Seq<crate::color::RGB888>, Seq<u8>),
                    DecodeError,
                >(e),
            },
    {
        let mut chunks = self.chunks();
        let mut palette: Option<Vec<crate::color::RGB888>> = None;
        loop
            invariant_except_break
                prescan(self.spec_rest(), Option::None) == prescan(
                    chunks@,
                    opt_palette_view(&palette),
                ),
            ensures
                prescan(self.spec_rest(), Option::None) == Ok::<
                    (Option<Seq<crate::color::RGB888>>, Seq<u8>),
                    DecodeError,
                >((opt_palette_view(&palette), chunks@)),
            decreases chunks@.len(),
        {
            let c = match chunks.peek_chunk() {
                Ok(c) => c,
                Err(e) => {
                    return Err(e);
                },
            };
            let t = c.chunk_type();
            if t.is_tag(0x49, 0x44, 0x41, 0x54) || c.is_iend() {
                break;
            }
            if t.is_tag(0x50, 0x4C, 0x54, 0x45) {
                if c.len() % 3 != 0 || palette.is_some() {
                    return Err(DecodeError::InvalidData);
                }
                palette = Some(build_palette(c.data()));
            } else if t.is_critical() {
                return Err(DecodeError::UnsupportedFormat);
            }
            let ghost before = chunks@;
            match chunks.next_chunk() {
                Ok(_) => (),
                Err(e) => {
                    return Err(e);
                },
            };
            proof {
                chunk::lemma_parse_chunk_bounds(before);
            }
        }
        let data = match chunks.get_idat_chunks(true) {
            Ok(d) => d,
            Err(e) => {
                return Err(e);
            },
        };
        let ch = self.info.image_type.n_channels();
        let w64 = self.info.width as u64;
        let h64 = self.info.height as u64;
        proof {
            assert(w64 * (ch as u64) < 0x4000_0000u64 && (1 + w64 * (ch as u64)) * h64
                < 0x8000_0000u64) by (nonlinear_arith)
                requires
                    1 <= w64,
                    1 <= h64,
                    (w64 as int) * (h64 as int) < 0x1000_0000,
                    1 <= ch <= 4,
            ;
        }
        let limit64 = (1 + w64 * ch as u64) * h64;
        let limit = limit64 as usize;
        proof {
            assert(limit as nat == inflate_limit(self.spec_info()));
        }
        let inflated = match inflate::inflate(data.as_slice(), limit) {
            Some(v) => v,
            None => {
                return Err(DecodeError::InvalidData);
            },
        };
        let pixels = match decode_inflated(&self.info, inflated.as_slice()) {
            Ok(p) => p,
            Err(e) => {
                return Err(e);
            },
        };
        let pal: Vec<crate::color::RGB888> = if self.info.image_type == ImageType::Indexed {
            let p = match palette {
                Some(p) => p,
                None => {
                    return Err(DecodeError::InvalidData);
                },
            };
            if p.len() > 256 {
                return Err(DecodeError::InvalidData);
            }
            let plen = p.len();
            let n = pixels.len();
            let mut i: usize = 0;
            while i < n
                invariant
                    i <= n,
                    n == pixels@.len(),
                    plen == p@.len(),
                    forall|j: int| 0 <= j < i ==> pixels@[j] < plen,
                    !image_data::samples_in_palette(ImageType::Indexed, pixels@, p@)
                        ==> decode_result(self.spec_info(), self.spec_rest()) == Err::<
                        (Seq<crate::color::RGB888>, Seq<u8>),
                        DecodeError,
                    >(DecodeError::InvalidData),
                decreases n - i,
            {
                if pixels[i] as usize >= plen {
                    return Err(DecodeError::InvalidData);
                }
                i = i + 1;
            }
            p
        } else {
            Vec::new()
        };
        let img = ImageData::from_parts(self.info, pal, pixels);
        Ok(img)
    }
}

/// Whether the pre-scan pass walks the whole block `x` — a complete run
/// of palette and ancillary chunks — turning the captured palette `pal`
/// into `q`, whatever follows `x`.
pub open spec fn prescan_skips(
    x: Seq<u8>,
    pal: Option<Seq<crate::color::RGB888>>,
    q: Option<Seq<crate::color::RGB888>>,
) -> bool
    decreases x.len(),
{
    if x.len() == 0 {
        pal == q
    } else {
        match chunk::parse_chunk(x) {
            Option::None => false,
            Option::Some(c) => {
                if c.tag == chunk::tag_idat() || c.tag == chunk::tag_iend() {
                    false
                } else if c.tag == chunk::tag_plte() {
                    c.len % 3 == 0 && pal is None && prescan_skips(
                        x.skip(12 + c.len as int),
                        Option::Some(palette_of(c.data)),
                        q,
                    )
                } else if chunk::tag_critical(c.tag) {
                    false
                } else {
                    prescan_skips(x.skip(12 + c.len as int), pal, q)
                }
            },
        }
    }
}

/// The pre-scan pass walks any skipped run chunk by chunk: its outcome
/// on `x + rest` is its outcome on `rest` with the palette the run
/// leaves behind.
pub proof fn lemma_prescan_skips_run(
    x: Seq<u8>,
    rest: Seq<u8>,
    pal: Option<Seq<crate::color::RGB888>>,
    q: Option<Seq<crate::color::RGB888>>,
)
    requires
        prescan_skips(x, pal, q),
    ensures
        prescan(x + rest, pal) == prescan(rest, q),
    decreases x.len(),
{
    if x.len() == 0 {
        assert(x + rest =~= rest);
    } else {
        let c = chunk::parse_chunk(x).unwrap();
        let n = 12 + c.len as int;
        chunk::lemma_parse_chunk_append(x, rest);
        if c.tag == chunk::tag_plte() {
            lemma_prescan_skips_run(x.skip(n), rest, Option::Some(palette_of(c.data)), q);
        } else {
            lemma_prescan_skips_run(x.skip(n), rest, pal, q);
        }
    }
}

/// P10 at any position of the walk: one unknown chunk inserted after any
/// run the pre-scan pass skips — in particular, anywhere before the
/// first data-bearing chunk — is invisible to the whole pass when its
/// ancillary bit is set, and fails it as unsupported when the bit is
/// clear.
pub proof fn lemma_unknown_chunk_any_position(
    x: Seq<u8>,
    rest: Seq<u8>,
    pal: Option<Seq<crate::color::RGB888>>,
    q: Option<Seq<crate::color::RGB888>>,
    tag: Seq<u8>,
    payload: Seq<u8>,
    crc: u32,
)
    requires
        prescan_skips(x, pal, q),
        chunk::tag_valid(tag),
        payload.len() < 0x1_0000_0000,
        tag != chunk::tag_idat(),
        tag != chunk::tag_iend(),
        tag != chunk::tag_plte(),
    ensures
        chunk::tag_ancillary(tag) ==> prescan(
            x + (chunk::encode_chunk(tag, payload, crc) + rest),
            pal,
        ) == prescan(x + rest, pal),
        !chunk::tag_ancillary(tag) ==> prescan(
            x + (chunk::encode_chunk(tag, payload, crc) + rest),
            pal,
        ) == Err::<(Option<Seq<crate::color::RGB888>>, Seq<u8>), DecodeError>(
            DecodeError::UnsupportedFormat,
        ),
{
    lemma_prescan_skips_run(x, chunk::encode_chunk(tag, payload, crc) + rest, pal, q);
    lemma_prescan_skips_run(x, rest, pal, q);
    lemma_unknown_chunk_prescan(tag, payload, crc, rest, q);
}

/// Flipping any single byte of the 8-byte magic prefix of a well-formed
/// input makes header validation fail with invalid data.
pub proof fn lemma_magic_corruption(input: Seq<u8>, i: int, b: u8)
    requires
        input.len() >= 8,
        input.subrange(0, 8) == magic(),
        0 <= i < 8,
        b != input[i],
    ensures
        parse_header(input.update(i, b)) == Err::<ImageInfo, DecodeError>(DecodeError::InvalidData),
{
    let cor = input.update(i, b);
    assert(cor.subrange(0, 8)[i] == b);
    assert(input.subrange(0, 8)[i] == input[i]);
    assert(cor.subrange(0, 8) != magic());
}

/// During the pre-scan pass an unknown chunk whose ancillary bit is set
/// is silently skipped, while the same chunk with the bit clear aborts
/// the walk as unsupported.
pub proof fn lemma_unknown_chunk_prescan(
    tag: Seq<u8>,
    payload: Seq<u8>,
    crc: u32,
    rest: Seq<u8>,
    pal: Option<Seq<crate::color::RGB888>>,
)
    requires
        chunk::tag_valid(tag),
        payload.len() < 0x1_0000_0000,
        tag != chunk::tag_idat(),
        tag != chunk::tag_iend(),
        tag != chunk::tag_plte(),
    ensures
        chunk::tag_ancillary(tag) ==> prescan(chunk::encode_chunk(tag, payload, crc) + rest, pal)
            == prescan(rest, pal),
        !chunk::tag_ancillary(tag) ==> prescan(chunk::encode_chunk(tag, payload, crc) + rest, pal)
            == Err::<(Option<Seq<crate::color::RGB888>>, Seq<u8>), DecodeError>(
            DecodeError::UnsupportedFormat,
        ),
{
    chunk::lemma_parse_encoded_chunk(tag, payload, crc, rest);
}

} // verus!
