//! The decoded image model: validated structural metadata, the closed set
//! of pixel layouts, the optional palette, and the owned pixel buffer with
//! its format-converting accessors.

use vstd::prelude::*;

use crate::color::{RGB888, RGBA8888, RGBAComponents8888};

verus! {

/// The closed set of pixel layouts this decoder accepts.
#[derive(Debug, Clone, Copy, PartialEq, Eq, Structural)]
pub enum ImageType {
    Grayscale,
    GrayscaleAlpha,
    RGB,
    RGBA,
    Indexed,
}

/// The bit depth of one sample; sub-byte depths occur only for indexed
/// images.
#[derive(Debug, Clone, Copy, PartialEq, Eq, Structural)]
pub enum BitDepth {
    Bpp1,
    Bpp2,
    Bpp4,
    Bpp8,
}

/// The depth a header byte denotes; anything but 1, 2, 4 or 8 denotes
/// nothing.
pub open spec fn depth_of(val: u8) -> Option<BitDepth> {
    if val == 1 {
        Option::Some(BitDepth::Bpp1)
    } else if val == 2 {
        Option::Some(BitDepth::Bpp2)
    } else if val == 4 {
        Option::Some(BitDepth::Bpp4)
    } else if val == 8 {
        Option::Some(BitDepth::Bpp8)
    } else {
        Option::None
    }
}

impl BitDepth {
    pub fn new(val: u8) -> (res: Option<Self>)
        ensures
            res == depth_of(val),
    {
        match val {
            1 => Some(Self::Bpp1),
            2 => Some(Self::Bpp2),
            4 => Some(Self::Bpp4),
            8 => Some(Self::Bpp8),
            _ => None,
        }
    }

    /// The number of bits one sample occupies.
    pub open spec fn spec_bits(self) -> u8 {
        match self {
            BitDepth::Bpp1 => 1u8,
            BitDepth::Bpp2 => 2u8,
            BitDepth::Bpp4 => 4u8,
            BitDepth::Bpp8 => 8u8,
        }
    }

    pub fn bits_per_pixel(&self) -> (res: u8)
        ensures
            res == self.spec_bits(),
    {
        match self {
            Self::Bpp1 => 1,
            Self::Bpp2 => 2,
            Self::Bpp4 => 4,
            Self::Bpp8 => 8,
        }
    }
}

/// How many channels one pixel of the layout has; indexed pixels are one
/// palette index each.
pub open spec fn spec_n_channels(ty: ImageType) -> int {
    match ty {
        ImageType::Grayscale => 1,
        ImageType::GrayscaleAlpha => 2,
        ImageType::RGB => 3,
        ImageType::RGBA => 4,
        ImageType::Indexed => 1,
    }
}

/// How many whole pixels a buffer of `len` bytes holds in the layout.
pub open spec fn pixel_count(ty: ImageType, len: int) -> int {
    len / spec_n_channels(ty)
}

/// The canonical pixel at index `i` of a buffer in the given layout:
/// gray and indexed samples widen to opaque RGBA, alpha channels carry
/// over, palette entries are looked up by sample value.
pub open spec fn pixel_at(
    ty: ImageType,
    data: Seq<u8>,
    palette: Seq<RGB888>,
    i: int,
) -> RGBAComponents8888 {
    match ty {
        ImageType::Grayscale => RGBA8888::spec_from_gray(data[i]),
        ImageType::GrayscaleAlpha => RGBA8888::spec_from_gray_alpha(data[2 * i], data[2 * i + 1]),
        ImageType::RGB => RGBA8888::spec_from_rgb(data[3 * i], data[3 * i + 1], data[3 * i + 2]),
        ImageType::RGBA => RGBAComponents8888 {
            r: data[4 * i],
            g: data[4 * i + 1],
            b: data[4 * i + 2],
            a: data[4 * i + 3],
        },
        ImageType::Indexed => {
            let entry = palette[data[i] as int];
            RGBA8888::spec_from_rgb(entry.r, entry.g, entry.b)
        },
    }
}

/// Whether every palette index a buffer holds falls inside the palette;
/// vacuously true for direct-color layouts.
pub open spec fn samples_in_palette(ty: ImageType, data: Seq<u8>, palette: Seq<RGB888>) -> bool {
    ty == ImageType::Indexed ==> forall|i: int|
        0 <= i < data.len() ==> data[i] < palette.len()
}

/// The buffer re-interleaved as 4 bytes per pixel, in pixel order.
pub open spec fn rgba_bytes_of(ty: ImageType, data: Seq<u8>, palette: Seq<RGB888>) -> Seq<u8> {
    Seq::new(
        (pixel_count(ty, data.len() as int) * 4) as nat,
        |j: int|
            {
                let p = pixel_at(ty, data, palette, j / 4);
                if j % 4 == 0 {
                    p.r
                } else if j % 4 == 1 {
                    p.g
                } else if j % 4 == 2 {
                    p.b
                } else {
                    p.a
                }
            },
    )
}

/// The buffer re-interleaved as 3 bytes per pixel, dropping alpha.
pub open spec fn rgb_bytes_of(ty: ImageType, data: Seq<u8>, palette: Seq<RGB888>) -> Seq<u8> {
    Seq::new(
        (pixel_count(ty, data.len() as int) * 3) as nat,
        |j: int|
            {
                let p = pixel_at(ty, data, palette, j / 3);
                if j % 3 == 0 {
                    p.r
                } else if j % 3 == 1 {
                    p.g
                } else {
                    p.b
                }
            },
    )
}

impl ImageType {
    pub fn n_channels(&self) -> (res: usize)
        ensures
            res == spec_n_channels(*self),
    {
        match self {
            ImageType::Grayscale => 1,
            ImageType::GrayscaleAlpha => 2,
            ImageType::RGB => 3,
            ImageType::RGBA => 4,
            ImageType::Indexed => 1,
        }
    }

    pub fn has_alpha(&self) -> (res: bool)
        ensures
            res == (*self == ImageType::GrayscaleAlpha || *self == ImageType::RGBA),
    {
        matches!(self, Self::GrayscaleAlpha | Self::RGBA)
    }

    pub fn is_gray_scale(&self) -> (res: bool)
        ensures
            res == (*self == ImageType::Grayscale || *self == ImageType::GrayscaleAlpha),
    {
        matches!(self, Self::Grayscale | Self::GrayscaleAlpha)
    }

    pub fn is_color(&self) -> (res: bool)
        ensures
            res == !(*self == ImageType::Grayscale || *self == ImageType::GrayscaleAlpha),
    {
        !self.is_gray_scale()
    }

    /// Materializes every pixel of `slice` as a canonical RGBA value, in
    /// order.
    pub fn iter(&self, slice: &[u8], palette: &[RGB888]) -> (res: Vec<RGBA8888>)
        requires
            samples_in_palette(*self, slice@, palette@),
        ensures
            res@.len() == pixel_count(*self, slice@.len() as int),
            forall|i: int|
                0 <= i < res@.len() ==> (#[trigger] res@[i])@ == pixel_at(
                    *self,
                    slice@,
                    palette@,
                    i,
                ),
    {
        let n = slice.len();
        let plen = palette.len();
        let mut out: Vec<RGBA8888> = Vec::new();
        match self {
            ImageType::Grayscale => {
                let mut i: usize = 0;
                while i < n
                    invariant
                        i <= n,
                        n == slice@.len(),
                        out@.len() == i,
                        forall|j: int|
                            0 <= j < i ==> (#[trigger] out@[j])@ == pixel_at(
                                ImageType::Grayscale,
                                slice@,
                                palette@,
                                j,
                            ),
                    decreases n - i,
                {
                    out.push(RGBA8888::from_gray(slice[i]));
                    i = i + 1;
                }
            },
            ImageType::GrayscaleAlpha => {
                let count = n / 2;
                let mut i: usize = 0;
                while i < count
                    invariant
                        i <= count,
                        count == slice@.len() as int / 2,
                        n == slice@.len(),
                        out@.len() == i,
                        forall|j: int|
                            0 <= j < i ==> (#[trigger] out@[j])@ == pixel_at(
                                ImageType::GrayscaleAlpha,
                                slice@,
                                palette@,
                                j,
                            ),
                    decreases count - i,
                {
                    proof {
                        assert(2 * i + 1 < n) by (nonlinear_arith)
                            requires
                                0 <= i < count,
                                count == n as int / 2,
                        ;
                    }
                    out.push(RGBA8888::from_gray_alpha(slice[2 * i], slice[2 * i + 1]));
                    i = i + 1;
                }
            },
            ImageType::RGB => {
                let count = n / 3;
                let mut i: usize = 0;
                while i < count
                    invariant
                        i <= count,
                        count == slice@.len() as int / 3,
                        n == slice@.len(),
                        out@.len() == i,
                        forall|j: int|
                            0 <= j < i ==> (#[trigger] out@[j])@ == pixel_at(
                                ImageType::RGB,
                                slice@,
                                palette@,
                                j,
                            ),
                    decreases count - i,
                {
                    proof {
                        assert(3 * i + 2 < n) by (nonlinear_arith)
                            requires
                                0 <= i < count,
                                count == n as int / 3,
                        ;
                    }
                    out.push(RGBA8888::from_rgb(slice[3 * i], slice[3 * i + 1], slice[3 * i + 2]));
                    i = i + 1;
                }
            },
            ImageType::RGBA => {
                let count = n / 4;
                let mut i: usize = 0;
                while i < count
                    invariant
                        i <= count,
                        count == slice@.len() as int / 4,
                        n == slice@.len(),
                        out@.len() == i,
                        forall|j: int|
                            0 <= j < i ==> (#[trigger] out@[j])@ == pixel_at(
                                ImageType::RGBA,
                                slice@,
                                palette@,
                                j,
                            ),
                    decreases count - i,
                {
                    proof {
                        assert(4 * i + 3 < n) by (nonlinear_arith)
                            requires
                                0 <= i < count,
                                count == n as int / 4,
                        ;
                    }
                    out.push(
                        RGBA8888::from_rgba(
                            slice[4 * i],
                            slice[4 * i + 1],
                            slice[4 * i + 2],
                            slice[4 * i + 3],
                        ),
                    );
                    i = i + 1;
                }
            },
            ImageType::Indexed => {
                let mut i: usize = 0;
                while i < n
                    invariant
                        i <= n,
                        n == slice@.len(),
                        samples_in_palette(ImageType::Indexed, slice@, palette@),
                        palette@.len() == plen,
                        out@.len() == i,
                        forall|j: int|
                            0 <= j < i ==> (#[trigger] out@[j])@ == pixel_at(
                                ImageType::Indexed,
                                slice@,
                                palette@,
                                j,
                            ),
                    decreases n - i,
                {
                    let entry = palette[slice[i] as usize];
                    out.push(RGBA8888::from_rgb(entry.r, entry.g, entry.b));
                    i = i + 1;
                }
            },
        }
        out
    }

    /// Applies `kernel` to every pixel in order, stopping at the first
    /// error and returning it.
    pub fn for_each<F: Fn(RGBA8888) -> Result<(), E>, E>(
        &self,
        slice: &[u8],
        palette: &[RGB888],
        kernel: F,
    ) -> (res: Result<(), E>)
        requires
            samples_in_palette(*self, slice@, palette@),
            forall|p: RGBA8888| call_requires(kernel, (p,)),
        ensures
            match res {
                Ok(_) => forall|j: int|
                    #![trigger pixel_at(*self, slice@, palette@, j)]
                    0 <= j < pixel_count(*self, slice@.len() as int) ==> call_ensures(
                        kernel,
                        (RGBA8888::of_components(pixel_at(*self, slice@, palette@, j)),),
                        Ok::<(), E>(()),
                    ),
                Err(e) => exists|j: int|
                    0 <= j < pixel_count(*self, slice@.len() as int) && #[trigger] call_ensures(
                        kernel,
                        (RGBA8888::of_components(pixel_at(*self, slice@, palette@, j)),),
                        Err(e),
                    ),
            },
    {
        let pixels = self.iter(slice, palette);
        let n = pixels.len();
        let mut i: usize = 0;
        while i < n
            invariant
                i <= n,
                n == pixels@.len(),
                n == pixel_count(*self, slice@.len() as int),
                forall|p: RGBA8888| call_requires(kernel, (p,)),
                forall|j: int|
                    0 <= j < n ==> (#[trigger] pixels@[j])@ == pixel_at(*self, slice@, palette@, j),
                forall|j: int|
                    #![trigger pixel_at(*self, slice@, palette@, j)]
                    0 <= j < i ==> call_ensures(
                        kernel,
                        (RGBA8888::of_components(pixel_at(*self, slice@, palette@, j)),),
                        Ok::<(), E>(()),
                    ),
            decreases n - i,
        {
            let pixel = pixels[i];
            proof {
                RGBA8888::lemma_of_components(pixel);
                assert(pixel == RGBA8888::of_components(pixel_at(*self, slice@, palette@, i as int)));
            }
            match kernel(pixel) {
                Ok(u) => proof {
                    assert(u == ());
                    assert(call_ensures(kernel, (pixel,), Ok::<(), E>(())));
                },
                Err(e) => {
                    return Err(e);
                },
            }
            i = i + 1;
        }
        Ok(())
    }

    /// Re-interleaves `input` as 4 bytes per pixel.
    pub fn to_rgba_bytes(&self, input: &[u8], palette: &[RGB888]) -> (res: RgbaBytes)
        requires
            samples_in_palette(*self, input@, palette@),
            input@.len() * 4 <= usize::MAX,
        ensures
            res@ == rgba_bytes_of(*self, input@, palette@),
    {
        let pixels = self.iter(input, palette);
        let n = pixels.len();
        proof {
            assert(n * 4 <= input@.len() * 4) by (nonlinear_arith)
                requires
                    n <= input@.len(),
            ;
        }
        let mut out: Vec<u8> = Vec::new();
        let mut i: usize = 0;
        while i < n
            invariant
                i <= n,
                n * 4 <= usize::MAX,
                n == pixels@.len(),
                n == pixel_count(*self, input@.len() as int),
                forall|j: int|
                    0 <= j < n ==> (#[trigger] pixels@[j])@ == pixel_at(*self, input@, palette@, j),
                out@.len() == i * 4,
                forall|j: int|
                    0 <= j < i * 4 ==> #[trigger] out@[j] == rgba_bytes_of(
                        *self,
                        input@,
                        palette@,
                    )[j],
            decreases n - i,
        {
            proof {
                assert(i * 4 + 4 <= n * 4) by (nonlinear_arith)
                    requires
                        i < n,
                ;
            }
            let p = pixels[i];
            let ghost out0 = out@;
            out.push(p.r());
            out.push(p.g());
            out.push(p.b());
            out.push(p.a());
            proof {
                assert forall|j: int| 0 <= j < (i + 1) * 4 implies #[trigger] out@[j]
                    == rgba_bytes_of(*self, input@, palette@)[j] by {
                    assert((i + 1) * 4 == i * 4 + 4);
                    if j < i * 4 {
                        assert(out@[j] == out0[j]);
                    } else {
                        assert(j / 4 == i && (j % 4 == j - i * 4)) by (nonlinear_arith)
                            requires
                                i * 4 <= j < i * 4 + 4,
                        ;
                    }
                }
                assert((i + 1) * 4 == i * 4 + 4);
            }
            i = i + 1;
        }
        proof {
            assert(out@ =~= rgba_bytes_of(*self, input@, palette@));
        }
        RgbaBytes(out)
    }

    /// Re-interleaves `input` as 3 bytes per pixel, dropping alpha.
    pub fn to_rgb_bytes(&self, input: &[u8], palette: &[RGB888]) -> (res: RgbBytes)
        requires
            samples_in_palette(*self, input@, palette@),
            input@.len() * 3 <= usize::MAX,
        ensures
            res@ == rgb_bytes_of(*self, input@, palette@),
    {
        let pixels = self.iter(input, palette);
        let n = pixels.len();
        proof {
            assert(n * 3 <= input@.len() * 3) by (nonlinear_arith)
                requires
                    n <= input@.len(),
            ;
        }
        let mut out: Vec<u8> = Vec::new();
        let mut i: usize = 0;
        while i < n
            invariant
                i <= n,
                n * 3 <= usize::MAX,
                n == pixels@.len(),
                n == pixel_count(*self, input@.len() as int),
                forall|j: int|
                    0 <= j < n ==> (#[trigger] pixels@[j])@ == pixel_at(*self, input@, palette@, j),
                out@.len() == i * 3,
                forall|j: int|
                    0 <= j < i * 3 ==> #[trigger] out@[j] == rgb_bytes_of(
                        *self,
                        input@,
                        palette@,
                    )[j],
            decreases n - i,
        {
            proof {
                assert(i * 3 + 3 <= n * 3) by (nonlinear_arith)
                    requires
                        i < n,
                ;
            }
            let p = pixels[i];
            let ghost out0 = out@;
            out.push(p.r());
            out.push(p.g());
            out.push(p.b());
            proof {
                assert forall|j: int| 0 <= j < (i + 1) * 3 implies #[trigger] out@[j]
                    == rgb_bytes_of(*self, input@, palette@)[j] by {
                    assert((i + 1) * 3 == i * 3 + 3);
                    if j < i * 3 {
                        assert(out@[j] == out0[j]);
                    } else {
                        assert(j / 3 == i && (j % 3 == j - i * 3)) by (nonlinear_arith)
                            requires
                                i * 3 <= j < i * 3 + 3,
                        ;
                    }
                }
                assert((i + 1) * 3 == i * 3 + 3);
            }
            i = i + 1;
        }
        proof {
            assert(out@ =~= rgb_bytes_of(*self, input@, palette@));
        }
        RgbBytes(out)
    }
}

/// The validated structural metadata of an image.
#[derive(Debug, Clone, Copy, PartialEq, Eq, Structural)]
pub struct ImageInfo {
    pub width: u32,
    pub height: u32,
    pub bit_depth: BitDepth,
    pub image_type: ImageType,
}

/// Whether a (layout, depth) pairing is one the header validator accepts.
pub open spec fn legal_pair(ty: ImageType, depth: BitDepth) -> bool {
    match ty {
        ImageType::Indexed => true,
        _ => depth == BitDepth::Bpp8,
    }
}

impl ImageInfo {
    /// What header validation guarantees of every accepted image: nonzero
    /// dimensions, a safe pixel count, and a legal layout/depth pairing.
    pub open spec fn wf(&self) -> bool {
        0 < self.width && 0 < self.height && self.width * self.height < 0x1000_0000
            && legal_pair(self.image_type, self.bit_depth)
    }
}

/// An owned buffer of pixels re-interleaved as 4 bytes per pixel.
pub struct RgbaBytes(pub Vec<u8>);

impl View for RgbaBytes {
    type V = Seq<u8>;

    open spec fn view(&self) -> Seq<u8> {
        self.0@
    }
}

impl RgbaBytes {
    pub fn as_slice(&self) -> (res: &[u8])
        ensures
            res@ == self@,
    {
        self.0.as_slice()
    }
}

/// An owned buffer of pixels re-interleaved as 3 bytes per pixel.
pub struct RgbBytes(pub Vec<u8>);

impl View for RgbBytes {
    type V = Seq<u8>;

    open spec fn view(&self) -> Seq<u8> {
        self.0@
    }
}

impl RgbBytes {
    pub fn as_slice(&self) -> (res: &[u8])
        ensures
            res@ == self@,
    {
        self.0.as_slice()
    }
}

/// The final owned result of a successful decode: validated info, the
/// palette (empty unless indexed), and the unpacked pixel bytes.
pub struct ImageData {
    info: ImageInfo,
    palette: Vec<RGB888>,
    data: Vec<u8>,
}

impl ImageData {
    /// Assembles a decoded image; only the decode pipeline constructs one.
    pub(crate) fn from_parts(info: ImageInfo, palette: Vec<RGB888>, data: Vec<u8>) -> (res:
        ImageData)
        ensures
            res.spec_info() == info,
            res.spec_palette() == palette@,
            res.spec_data() == data@,
    {
        ImageData { info, palette, data }
    }

    pub closed spec fn spec_info(&self) -> ImageInfo {
        self.info
    }

    pub closed spec fn spec_palette(&self) -> Seq<RGB888> {
        self.palette@
    }

    pub closed spec fn spec_data(&self) -> Seq<u8> {
        self.data@
    }

    /// What every successfully decoded image satisfies: well-formed info,
    /// one byte per channel per pixel, in-range palette indices, at most
    /// 256 palette entries, and an empty palette unless indexed.
    pub open spec fn wf(&self) -> bool {
        &&& self.spec_info().wf()
        &&& self.spec_data().len() == self.spec_info().width * self.spec_info().height
            * spec_n_channels(self.spec_info().image_type)
        &&& samples_in_palette(self.spec_info().image_type, self.spec_data(), self.spec_palette())
        &&& self.spec_palette().len() <= 256
        &&& (self.spec_info().image_type != ImageType::Indexed ==> self.spec_palette().len() == 0)
    }

    pub fn info(&self) -> (res: &ImageInfo)
        ensures
            *res == self.spec_info(),
    {
        &self.info
    }

    /// The palette of an indexed image; `None` for direct-color layouts.
    /// Pixel bytes of an indexed image are indices into this palette,
    /// whatever the source bit depth was.
    pub fn palette(&self) -> (res: Option<&[RGB888]>)
        ensures
            match res {
                Some(p) => self.spec_info().image_type == ImageType::Indexed && p@
                    == self.spec_palette(),
                None => self.spec_info().image_type != ImageType::Indexed,
            },
    {
        if self.info.image_type == ImageType::Indexed {
            Some(self.palette.as_slice())
        } else {
            None
        }
    }

    /// The pixel bytes in their stored layout.
    pub fn raw_data(&self) -> (res: &[u8])
        ensures
            res@ == self.spec_data(),
    {
        self.data.as_slice()
    }

    /// The pixels re-interleaved as 4 bytes per pixel; exactly
    /// `width * height * 4` bytes for every decoded image.
    pub fn to_rgba_bytes(&self) -> (res: RgbaBytes)
        requires
            self.wf(),
        ensures
            res@ == rgba_bytes_of(self.spec_info().image_type, self.spec_data(), self.spec_palette()),
            res@.len() == self.spec_info().width * self.spec_info().height * 4,
    {
        proof {
            lemma_channel_count_cancels(self.spec_info(), self.spec_data().len() as int);
        }
        self.info.image_type.to_rgba_bytes(self.data.as_slice(), self.palette.as_slice())
    }

    /// The pixels re-interleaved as 3 bytes per pixel; exactly
    /// `width * height * 3` bytes for every decoded image.
    pub fn to_rgb_bytes(&self) -> (res: RgbBytes)
        requires
            self.wf(),
        ensures
            res@ == rgb_bytes_of(self.spec_info().image_type, self.spec_data(), self.spec_palette()),
            res@.len() == self.spec_info().width * self.spec_info().height * 3,
    {
        proof {
            lemma_channel_count_cancels(self.spec_info(), self.spec_data().len() as int);
        }
        self.info.image_type.to_rgb_bytes(self.data.as_slice(), self.palette.as_slice())
    }
}

/// For a well-formed image the pixel count is exactly `width * height`,
/// and the byte budget of the converted buffers stays within the machine
/// limits.
proof fn lemma_channel_count_cancels(info: ImageInfo, len: int)
    requires
        info.wf(),
        len == info.width * info.height * spec_n_channels(info.image_type),
    ensures
        pixel_count(info.image_type, len) == info.width * info.height,
        len * 4 <= usize::MAX,
{
    let ch = spec_n_channels(info.image_type);
    let wh = info.width as int * info.height as int;
    assert(len == wh * ch && 1 <= ch <= 4 && wh < 0x1000_0000) by (nonlinear_arith)
        requires
            info.wf(),
            len == info.width * info.height * ch,
            ch == spec_n_channels(info.image_type),
            wh == info.width as int * info.height as int,
    ;
    assert(len * 4 <= usize::MAX) by (nonlinear_arith)
        requires
            len == wh * ch,
            1 <= ch <= 4,
            0 <= wh < 0x1000_0000,
    ;
    vstd::arithmetic::div_mod::lemma_div_multiples_vanish(wh, ch);
}

} // verus!
