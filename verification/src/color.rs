//! Packed-pixel color model: a 4-channel RGBA pixel, its component
//! decomposition, and a 3-channel RGB triple, with per-channel wrapping
//! and saturating arithmetic and gray/indexed/RGB conversions.

use vstd::prelude::*;

verus! {

/// Wrapping (modulo 256) addition of two channel bytes.
pub open spec fn byte_add_wrap(x: u8, y: u8) -> u8 {
    ((x + y) % 256) as u8
}

/// Wrapping (modulo 256) subtraction of two channel bytes.
pub open spec fn byte_sub_wrap(x: u8, y: u8) -> u8 {
    (((x - y) + 256) % 256) as u8
}

/// Saturating addition of two channel bytes.
pub open spec fn byte_add_sat(x: u8, y: u8) -> u8 {
    if x + y > 255 {
        255u8
    } else {
        (x + y) as u8
    }
}

/// Saturating subtraction of two channel bytes.
pub open spec fn byte_sub_sat(x: u8, y: u8) -> u8 {
    if x - y < 0 {
        0u8
    } else {
        (x - y) as u8
    }
}

/// Saturating multiplication of a channel byte by a scalar byte.
pub open spec fn byte_mul_sat(x: u8, y: u8) -> u8 {
    if x * y > 255 {
        255u8
    } else {
        (x * y) as u8
    }
}

/// A 4-channel pixel. The storage is kept canonical (one named field per
/// channel), so behavior is platform-independent; callers work with the
/// semantic components only.
#[derive(Debug, Clone, Copy, PartialEq, Eq, Structural)]
pub struct RGBA8888 {
    r: u8,
    g: u8,
    b: u8,
    a: u8,
}

/// The component decomposition of an [`RGBA8888`] pixel.
#[derive(Debug, Clone, Copy, PartialEq, Eq, Structural)]
pub struct RGBAComponents8888 {
    pub r: u8,
    pub g: u8,
    pub b: u8,
    pub a: u8,
}

/// A 3-channel RGB triple, also used as one palette entry.
#[derive(Debug, Clone, Copy, PartialEq, Eq, PartialOrd, Ord, Structural)]
pub struct RGB888 {
    pub r: u8,
    pub g: u8,
    pub b: u8,
}

impl View for RGBA8888 {
    type V = RGBAComponents8888;

    closed spec fn view(&self) -> RGBAComponents8888 {
        RGBAComponents8888 { r: self.r, g: self.g, b: self.b, a: self.a }
    }
}

impl RGBA8888 {
    /// The pixel whose component decomposition is `c`.
    pub closed spec fn of_components(c: RGBAComponents8888) -> RGBA8888 {
        RGBA8888 { r: c.r, g: c.g, b: c.b, a: c.a }
    }

    /// A pixel is determined by its component decomposition.
    pub proof fn lemma_of_components(p: RGBA8888)
        ensures
            RGBA8888::of_components(p@) == p,
    {
    }

    pub fn components(&self) -> (res: RGBAComponents8888)
        ensures
            res == self@,
    {
        RGBAComponents8888 { r: self.r, g: self.g, b: self.b, a: self.a }
    }

    pub fn r(&self) -> (res: u8)
        ensures
            res == self@.r,
    {
        self.r
    }

    pub fn g(&self) -> (res: u8)
        ensures
            res == self@.g,
    {
        self.g
    }

    pub fn b(&self) -> (res: u8)
        ensures
            res == self@.b,
    {
        self.b
    }

    pub fn a(&self) -> (res: u8)
        ensures
            res == self@.a,
    {
        self.a
    }

    pub fn is_gray(&self) -> (res: bool)
        ensures
            res == (self@.r == self@.g && self@.g == self@.b),
    {
        self.r == self.g && self.g == self.b
    }

    /// The pixel a gray sample denotes: all color channels equal, fully opaque.
    pub open spec fn spec_from_gray(gray: u8) -> RGBAComponents8888 {
        RGBAComponents8888 { r: gray, g: gray, b: gray, a: 255u8 }
    }

    pub fn from_gray(gray: u8) -> (res: Self)
        ensures
            res@ == Self::spec_from_gray(gray),
    {
        RGBA8888 { r: gray, g: gray, b: gray, a: 255 }
    }

    /// The pixel a gray sample with an alpha sample denotes.
    pub open spec fn spec_from_gray_alpha(w: u8, a: u8) -> RGBAComponents8888 {
        RGBAComponents8888 { r: w, g: w, b: w, a: a }
    }

    pub fn from_gray_alpha(w: u8, a: u8) -> (res: Self)
        ensures
            res@ == Self::spec_from_gray_alpha(w, a),
    {
        RGBA8888 { r: w, g: w, b: w, a: a }
    }

    /// The pixel an RGB triple denotes: fully opaque.
    pub open spec fn spec_from_rgb(r: u8, g: u8, b: u8) -> RGBAComponents8888 {
        RGBAComponents8888 { r: r, g: g, b: b, a: 255u8 }
    }

    pub fn from_rgb(r: u8, g: u8, b: u8) -> (res: Self)
        ensures
            res@ == Self::spec_from_rgb(r, g, b),
    {
        RGBA8888 { r: r, g: g, b: b, a: 255 }
    }

    pub fn from_rgba(r: u8, g: u8, b: u8, a: u8) -> (res: Self)
        ensures
            res@ == (RGBAComponents8888 { r, g, b, a }),
    {
        RGBA8888 { r: r, g: g, b: b, a: a }
    }

    pub fn to_rgb(&self) -> (res: RGB888)
        ensures
            res == (RGB888 { r: self@.r, g: self@.g, b: self@.b }),
    {
        RGB888 { r: self.r, g: self.g, b: self.b }
    }

    pub fn wrapping_add(&self, other: Self) -> (res: Self)
        ensures
            res@ == self@.spec_wrapping_add(other@),
    {
        Self::from_components(self.components().wrapping_add(other.components()))
    }

    pub fn wrapping_sub(&self, other: Self) -> (res: Self)
        ensures
            res@ == self@.spec_wrapping_sub(other@),
    {
        Self::from_components(self.components().wrapping_sub(other.components()))
    }

    pub fn saturating_add(&self, other: Self) -> (res: Self)
        ensures
            res@ == self@.spec_saturating_add(other@),
    {
        Self::from_components(self.components().saturating_add(other.components()))
    }

    pub fn saturating_sub(&self, other: Self) -> (res: Self)
        ensures
            res@ == self@.spec_saturating_sub(other@),
    {
        Self::from_components(self.components().saturating_sub(other.components()))
    }

    fn from_components(c: RGBAComponents8888) -> (res: Self)
        ensures
            res@ == c,
    {
        RGBA8888 { r: c.r, g: c.g, b: c.b, a: c.a }
    }
}

impl RGBAComponents8888 {
    pub fn new(r: u8, g: u8, b: u8, a: u8) -> (res: Self)
        ensures
            res == (RGBAComponents8888 { r, g, b, a }),
    {
        Self { r, g, b, a }
    }

    pub fn r(&self) -> (res: u8)
        ensures
            res == self.r,
    {
        self.r
    }

    pub fn g(&self) -> (res: u8)
        ensures
            res == self.g,
    {
        self.g
    }

    pub fn b(&self) -> (res: u8)
        ensures
            res == self.b,
    {
        self.b
    }

    pub fn a(&self) -> (res: u8)
        ensures
            res == self.a,
    {
        self.a
    }

    pub fn into_array(self) -> (res: [u8; 4])
        ensures
            res@ == seq![self.r, self.g, self.b, self.a],
    {
        [self.r, self.g, self.b, self.a]
    }

    pub fn from_array(arr: [u8; 4]) -> (res: Self)
        ensures
            res == (RGBAComponents8888 { r: arr[0], g: arr[1], b: arr[2], a: arr[3] }),
    {
        Self { r: arr[0], g: arr[1], b: arr[2], a: arr[3] }
    }

    pub fn from_rgba(value: RGBA8888) -> (res: Self)
        ensures
            res == value@,
    {
        value.components()
    }

    pub fn into_rgba(self) -> (res: RGBA8888)
        ensures
            res@ == self,
    {
        RGBA8888::from_rgba(self.r, self.g, self.b, self.a)
    }

    /// The canonical ordering key: the components packed as (a, b, g, r),
    /// most significant first.
    pub open spec fn spec_ordinal(&self) -> u32 {
        (self.a * 0x100_0000 + self.b * 0x1_0000 + self.g * 0x100 + self.r) as u32
    }

    fn ordinal(&self) -> (res: u32)
        ensures
            res == self.spec_ordinal(),
    {
        (self.a as u32) * 0x100_0000 + (self.b as u32) * 0x1_0000 + (self.g as u32) * 0x100
            + (self.r as u32)
    }

    pub open spec fn spec_wrapping_add(self, other: Self) -> Self {
        RGBAComponents8888 {
            r: byte_add_wrap(self.r, other.r),
            g: byte_add_wrap(self.g, other.g),
            b: byte_add_wrap(self.b, other.b),
            a: byte_add_wrap(self.a, other.a),
        }
    }

    pub fn wrapping_add(&self, other: Self) -> (res: Self)
        ensures
            res == self.spec_wrapping_add(other),
    {
        Self {
            r: self.r.wrapping_add(other.r),
            g: self.g.wrapping_add(other.g),
            b: self.b.wrapping_add(other.b),
            a: self.a.wrapping_add(other.a),
        }
    }

    pub open spec fn spec_wrapping_sub(self, other: Self) -> Self {
        RGBAComponents8888 {
            r: byte_sub_wrap(self.r, other.r),
            g: byte_sub_wrap(self.g, other.g),
            b: byte_sub_wrap(self.b, other.b),
            a: byte_sub_wrap(self.a, other.a),
        }
    }

    pub fn wrapping_sub(&self, other: Self) -> (res: Self)
        ensures
            res == self.spec_wrapping_sub(other),
    {
        Self {
            r: self.r.wrapping_sub(other.r),
            g: self.g.wrapping_sub(other.g),
            b: self.b.wrapping_sub(other.b),
            a: self.a.wrapping_sub(other.a),
        }
    }

    pub open spec fn spec_saturating_add(self, other: Self) -> Self {
        RGBAComponents8888 {
            r: byte_add_sat(self.r, other.r),
            g: byte_add_sat(self.g, other.g),
            b: byte_add_sat(self.b, other.b),
            a: byte_add_sat(self.a, other.a),
        }
    }

    pub fn saturating_add(&self, other: Self) -> (res: Self)
        ensures
            res == self.spec_saturating_add(other),
    {
        Self {
            r: self.r.saturating_add(other.r),
            g: self.g.saturating_add(other.g),
            b: self.b.saturating_add(other.b),
            a: self.a.saturating_add(other.a),
        }
    }

    pub open spec fn spec_saturating_sub(self, other: Self) -> Self {
        RGBAComponents8888 {
            r: byte_sub_sat(self.r, other.r),
            g: byte_sub_sat(self.g, other.g),
            b: byte_sub_sat(self.b, other.b),
            a: byte_sub_sat(self.a, other.a),
        }
    }

    pub fn saturating_sub(&self, other: Self) -> (res: Self)
        ensures
            res == self.spec_saturating_sub(other),
    {
        Self {
            r: self.r.saturating_sub(other.r),
            g: self.g.saturating_sub(other.g),
            b: self.b.saturating_sub(other.b),
            a: self.a.saturating_sub(other.a),
        }
    }

    pub open spec fn spec_saturating_mul(self, other: u8) -> Self {
        RGBAComponents8888 {
            r: byte_mul_sat(self.r, other),
            g: byte_mul_sat(self.g, other),
            b: byte_mul_sat(self.b, other),
            a: byte_mul_sat(self.a, other),
        }
    }

    pub fn saturating_mul(&self, other: u8) -> (res: Self)
        ensures
            res == self.spec_saturating_mul(other),
    {
        Self {
            r: sat_mul_byte(self.r, other),
            g: sat_mul_byte(self.g, other),
            b: sat_mul_byte(self.b, other),
            a: sat_mul_byte(self.a, other),
        }
    }
}

fn sat_mul_byte(x: u8, y: u8) -> (res: u8)
    ensures
        res == byte_mul_sat(x, y),
{
    assert((x as int) * (y as int) <= 255 * 255) by (nonlinear_arith)
        requires
            x <= 255,
            y <= 255,
    ;
    let p = (x as u16) * (y as u16);
    if p > 255 {
        255
    } else {
        p as u8
    }
}

impl RGB888 {
    pub fn new(r: u8, g: u8, b: u8) -> (res: Self)
        ensures
            res == (RGB888 { r, g, b }),
    {
        Self { r, g, b }
    }

    pub fn from_rgba(rgba: RGBA8888) -> (res: Self)
        ensures
            res == (RGB888 { r: rgba@.r, g: rgba@.g, b: rgba@.b }),
    {
        rgba.to_rgb()
    }

    /// Widening to 4 channels defaults the alpha channel to fully opaque.
    pub fn into_rgba(self) -> (res: RGBA8888)
        ensures
            res@ == RGBA8888::spec_from_rgb(self.r, self.g, self.b),
    {
        RGBA8888::from_rgb(self.r, self.g, self.b)
    }

    /// The triple packed as a single integer, red most significant.
    pub open spec fn spec_value(&self) -> u32 {
        (self.r * 0x1_0000 + self.g * 0x100 + self.b) as u32
    }

    pub fn value(&self) -> (res: u32)
        ensures
            res == self.spec_value(),
    {
        (self.r as u32) * 0x1_0000 + (self.g as u32) * 0x100 + (self.b as u32)
    }

    pub fn from_gray(gray: u8) -> (res: Self)
        ensures
            res == (RGB888 { r: gray, g: gray, b: gray }),
    {
        Self { r: gray, g: gray, b: gray }
    }
}

impl PartialOrd for RGBAComponents8888 {
    /// Ordering is lexicographic over the canonical (a, b, g, r) key.
    fn partial_cmp(&self, other: &Self) -> Option<core::cmp::Ordering> {
        let x = self.ordinal();
        let y = other.ordinal();
        if x < y {
            Some(core::cmp::Ordering::Less)
        } else if x > y {
            Some(core::cmp::Ordering::Greater)
        } else {
            Some(core::cmp::Ordering::Equal)
        }
    }
}

impl vstd::std_specs::cmp::PartialOrdSpecImpl for RGBAComponents8888 {
    open spec fn obeys_partial_cmp_spec() -> bool {
        true
    }

    open spec fn partial_cmp_spec(&self, other: &Self) -> Option<core::cmp::Ordering> {
        if self.spec_ordinal() < other.spec_ordinal() {
            Some(core::cmp::Ordering::Less)
        } else if self.spec_ordinal() > other.spec_ordinal() {
            Some(core::cmp::Ordering::Greater)
        } else {
            Some(core::cmp::Ordering::Equal)
        }
    }
}

impl PartialOrd for RGBA8888 {
    /// Ordering agrees with the component decomposition's ordering.
    fn partial_cmp(&self, other: &Self) -> Option<core::cmp::Ordering> {
        self.components().partial_cmp(&other.components())
    }
}

impl vstd::std_specs::cmp::PartialOrdSpecImpl for RGBA8888 {
    open spec fn obeys_partial_cmp_spec() -> bool {
        true
    }

    open spec fn partial_cmp_spec(&self, other: &Self) -> Option<core::cmp::Ordering> {
        if self@.spec_ordinal() < other@.spec_ordinal() {
            Some(core::cmp::Ordering::Less)
        } else if self@.spec_ordinal() > other@.spec_ordinal() {
            Some(core::cmp::Ordering::Greater)
        } else {
            Some(core::cmp::Ordering::Equal)
        }
    }
}

} // verus!
