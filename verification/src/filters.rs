//! The scanline reconstruction engine: the five per-row prediction filters
//! and their reversal over the inflated byte stream, one row at a time,
//! with all arithmetic performed modulo 256 per channel lane.

use vstd::prelude::*;

use crate::DecodeError;
use crate::chunk::push_all;
use crate::color::byte_add_wrap;

verus! {

/// The per-row prediction filter selected by a row's leading byte.
#[derive(Debug, Clone, Copy, PartialEq, Eq, Structural)]
pub enum FilterType {
    /// The row is stored verbatim.
    Unfiltered,
    /// Each byte is a delta from the previous pixel's same channel.
    Sub,
    /// Each byte is a delta from the previous row's same column.
    Up,
    /// Each byte is a delta from the floored mean of left and above.
    Average,
    /// Each byte is a delta from the Paeth predictor of left, above and
    /// upper-left.
    Paeth,
}

/// The filter a selector byte denotes; bytes above 4 select nothing.
pub open spec fn filter_of(value: u8) -> Option<FilterType> {
    if value == 0 {
        Option::Some(FilterType::Unfiltered)
    } else if value == 1 {
        Option::Some(FilterType::Sub)
    } else if value == 2 {
        Option::Some(FilterType::Up)
    } else if value == 3 {
        Option::Some(FilterType::Average)
    } else if value == 4 {
        Option::Some(FilterType::Paeth)
    } else {
        Option::None
    }
}

impl FilterType {
    pub fn new(value: u8) -> (res: Option<Self>)
        ensures
            res == filter_of(value),
    {
        match value {
            0 => Some(Self::Unfiltered),
            1 => Some(Self::Sub),
            2 => Some(Self::Up),
            3 => Some(Self::Average),
            4 => Some(Self::Paeth),
            _ => None,
        }
    }
}

/// The floored mean of two reconstructed bytes.
pub open spec fn spec_average(lhs: u8, rhs: u8) -> u8 {
    ((lhs + rhs) / 2) as u8
}

pub fn average(lhs: u8, rhs: u8) -> (res: u8)
    ensures
        res == spec_average(lhs, rhs),
{
    let sum = lhs as u16 + rhs as u16;
    proof {
        assert(sum >> 1u16 == sum / 2) by (bit_vector);
    }
    (sum >> 1) as u8
}

/// The Paeth predictor: whichever of left, above and upper-left is closest
/// to `left + above - upper_left`, ties broken in that order. The initial
/// estimate is computed as a signed integer; computing it with unsigned
/// wrapping arithmetic would change results.
pub open spec fn spec_paeth(left: u8, above: u8, upper_left: u8) -> u8 {
    let p = left + above - upper_left;
    let pa = if p >= left {
        p - left
    } else {
        left - p
    };
    let pb = if p >= above {
        p - above
    } else {
        above - p
    };
    let pc = if p >= upper_left {
        p - upper_left
    } else {
        upper_left - p
    };
    if pa <= pb && pa <= pc {
        left
    } else if pb <= pc {
        above
    } else {
        upper_left
    }
}

pub fn paeth(left: u8, above: u8, upper_left: u8) -> (res: u8)
    ensures
        res == spec_paeth(left, above, upper_left),
{
    let a = left as i32;
    let b = above as i32;
    let c = upper_left as i32;
    let p = a + b - c;
    let pa = if p >= a {
        p - a
    } else {
        a - p
    };
    let pb = if p >= b {
        p - b
    } else {
        b - p
    };
    let pc = if p >= c {
        p - c
    } else {
        c - p
    };
    if pa <= pb && pa <= pc {
        left
    } else if pb <= pc {
        above
    } else {
        upper_left
    }
}

/// The value a filter adds to a filtered byte at position `i` of a row:
/// `done` holds the bytes of the row reconstructed so far, `prev` the
/// reconstructed previous row, and `bpp` the byte distance between one
/// pixel's channel and the previous pixel's same channel. References
/// outside the image (first pixel, first row) read as zero.
pub open spec fn predictor(
    ft: FilterType,
    done: Seq<u8>,
    prev: Seq<u8>,
    i: int,
    bpp: int,
) -> u8 {
    let left = if i >= bpp {
        done[i - bpp]
    } else {
        0u8
    };
    let above = prev[i];
    let upper_left = if i >= bpp {
        prev[i - bpp]
    } else {
        0u8
    };
    match ft {
        FilterType::Unfiltered => 0u8,
        FilterType::Sub => left,
        FilterType::Up => above,
        FilterType::Average => spec_average(left, above),
        FilterType::Paeth => spec_paeth(left, above, upper_left),
    }
}

/// The first `n` reconstructed bytes of a row with filtered bytes `src`
/// and reconstructed previous row `prev`.
pub open spec fn recon_row_n(
    ft: FilterType,
    src: Seq<u8>,
    prev: Seq<u8>,
    bpp: int,
    n: int,
) -> Seq<u8>
    decreases n,
{
    if n <= 0 {
        Seq::empty()
    } else {
        let done = recon_row_n(ft, src, prev, bpp, n - 1);
        done.push(byte_add_wrap(src[n - 1], predictor(ft, done, prev, n - 1, bpp)))
    }
}

/// The whole reconstructed row.
pub open spec fn recon_row(ft: FilterType, src: Seq<u8>, prev: Seq<u8>, bpp: int) -> Seq<u8> {
    recon_row_n(ft, src, prev, bpp, src.len() as int)
}

pub proof fn lemma_recon_row_n_len(ft: FilterType, src: Seq<u8>, prev: Seq<u8>, bpp: int, n: int)
    requires
        n >= 0,
    ensures
        recon_row_n(ft, src, prev, bpp, n).len() == n,
    decreases n,
{
    if n > 0 {
        lemma_recon_row_n_len(ft, src, prev, bpp, n - 1);
    }
}

/// Reverses one row's filter.
pub fn unfilter_row(ft: FilterType, src: &[u8], prev: &[u8], bpp: usize) -> (res: Vec<u8>)
    requires
        prev@.len() == src@.len(),
        1 <= bpp,
    ensures
        res@ == recon_row(ft, src@, prev@, bpp as int),
{
    let n = src.len();
    let mut line: Vec<u8> = Vec::new();
    let mut i: usize = 0;
    while i < n
        invariant
            i <= n,
            n == src@.len(),
            prev@.len() == n,
            1 <= bpp,
            line@.len() == i,
            line@ == recon_row_n(ft, src@, prev@, bpp as int, i as int),
        decreases n - i,
    {
        let left = if i >= bpp {
            line[i - bpp]
        } else {
            0u8
        };
        let above = prev[i];
        let upper_left = if i >= bpp {
            prev[i - bpp]
        } else {
            0u8
        };
        let pred = match ft {
            FilterType::Unfiltered => 0u8,
            FilterType::Sub => left,
            FilterType::Up => above,
            FilterType::Average => average(left, above),
            FilterType::Paeth => paeth(left, above, upper_left),
        };
        let byte = src[i].wrapping_add(pred);
        proof {
            assert(pred == predictor(ft, line@, prev@, i as int, bpp as int));
            assert(byte == byte_add_wrap(src@[i as int], pred));
        }
        line.push(byte);
        i = i + 1;
    }
    line
}

/// The all-zero previous row that row-above references read before the
/// first row is reconstructed.
pub open spec fn zero_row(stride: int) -> Seq<u8> {
    Seq::new(stride as nat, |i: int| 0u8)
}

/// The reconstruction of `rows` rows from the head of `src`, each one a
/// filter-selector byte followed by `stride` filtered bytes, given the
/// reconstructed row `prev` above them. `None` when a selector byte is
/// invalid or fewer than `stride` filtered bytes remain for some row;
/// bytes beyond the last row are ignored.
pub open spec fn recon_rows(
    src: Seq<u8>,
    prev: Seq<u8>,
    stride: int,
    bpp: int,
    rows: int,
) -> Option<Seq<u8>>
    decreases rows,
{
    if rows <= 0 {
        Option::Some(Seq::empty())
    } else if src.len() < 1 + stride {
        Option::None
    } else {
        match filter_of(src[0]) {
            Option::None => Option::None,
            Option::Some(ft) => {
                let row = recon_row(ft, src.subrange(1, 1 + stride), prev, bpp);
                match recon_rows(src.skip(1 + stride), row, stride, bpp, rows - 1) {
                    Option::None => Option::None,
                    Option::Some(rest) => Option::Some(row + rest),
                }
            },
        }
    }
}

/// Each reconstructed byte is the filtered byte plus the predictor over
/// the bytes reconstructed before it.
pub proof fn lemma_recon_row_n_index(
    ft: FilterType,
    src: Seq<u8>,
    prev: Seq<u8>,
    bpp: int,
    n: int,
    i: int,
)
    requires
        0 <= i < n,
    ensures
        recon_row_n(ft, src, prev, bpp, n)[i] == byte_add_wrap(
            src[i],
            predictor(ft, recon_row_n(ft, src, prev, bpp, i), prev, i, bpp),
        ),
    decreases n,
{
    lemma_recon_row_n_len(ft, src, prev, bpp, n - 1);
    if i < n - 1 {
        lemma_recon_row_n_index(ft, src, prev, bpp, n - 1, i);
    }
}

/// At the first pixel of the first row every reference a filter makes
/// (left, above, upper-left) reads zero, so the predictor is zero —
/// for Paeth because the predictor of an all-zero neighborhood is zero —
/// and the reconstructed byte equals the filtered byte verbatim.
pub proof fn lemma_first_pixel_verbatim(
    ft: FilterType,
    src: Seq<u8>,
    stride: int,
    bpp: int,
    i: int,
)
    requires
        0 <= i < bpp,
        i < src.len(),
        src.len() <= stride,
    ensures
        spec_paeth(0, 0, 0) == 0,
        recon_row(ft, src, zero_row(stride), bpp)[i] == src[i],
{
    lemma_recon_row_n_index(ft, src, zero_row(stride), bpp, src.len() as int, i);
    assert(zero_row(stride)[i] == 0);
    assert(predictor(ft, recon_row_n(ft, src, zero_row(stride), bpp, i), zero_row(stride), i, bpp)
        == 0);
}

/// A successful reconstruction yields exactly `rows * stride` bytes.
pub proof fn lemma_recon_rows_len(src: Seq<u8>, prev: Seq<u8>, stride: int, bpp: int, rows: int)
    requires
        rows >= 0,
        stride >= 0,
        recon_rows(src, prev, stride, bpp, rows) is Some,
    ensures
        recon_rows(src, prev, stride, bpp, rows).unwrap().len() == rows * stride,
    decreases rows,
{
    if rows > 0 {
        let ft = filter_of(src[0]).unwrap();
        let row = recon_row(ft, src.subrange(1, 1 + stride), prev, bpp);
        assert(src.len() >= 1 + stride);
        assert(src.subrange(1, 1 + stride).len() == stride);
        lemma_recon_row_n_len(ft, src.subrange(1, 1 + stride), prev, bpp, stride);
        let rest = recon_rows(src.skip(1 + stride), row, stride, bpp, rows - 1);
        assert(rest is Some && recon_rows(src, prev, stride, bpp, rows) == Option::Some(
            row + rest.unwrap(),
        ));
        lemma_recon_rows_len(src.skip(1 + stride), row, stride, bpp, rows - 1);
        assert(stride + (rows - 1) * stride == rows * stride) by (nonlinear_arith);
    } else {
        assert(rows * stride == 0) by (nonlinear_arith)
            requires
                rows == 0,
        ;
    }
}

/// Reverses the per-row filters over the whole inflated buffer `src`:
/// `height` rows of `stride` bytes each, reconstructed against an implicit
/// all-zero row above the first.
pub fn unfilter_image(src: &[u8], stride: usize, bpp: usize, height: usize) -> (res: Result<
    Vec<u8>,
    DecodeError,
>)
    requires
        1 <= bpp,
    ensures
        match res {
            Ok(v) => recon_rows(src@, zero_row(stride as int), stride as int, bpp as int, height as int)
                == Option::Some(v@),
            Err(e) => recon_rows(src@, zero_row(stride as int), stride as int, bpp as int, height as int)
                is None && e == DecodeError::InvalidData,
        },
{
    let mut prev: Vec<u8> = Vec::new();
    let mut j: usize = 0;
    while j < stride
        invariant
            j <= stride,
            prev@.len() == j,
            forall|k: int| 0 <= k < j ==> prev@[k] == 0u8,
        decreases stride - j,
    {
        prev.push(0);
        j = j + 1;
    }
    proof {
        assert(prev@ =~= zero_row(stride as int));
    }
    let mut out: Vec<u8> = Vec::new();
    let mut offset: usize = 0;
    let mut y: usize = 0;
    proof {
        assert(src@.skip(0) =~= src@);
        if recon_rows(src@, zero_row(stride as int), stride as int, bpp as int, height as int)
            is Some {
            let whole = recon_rows(
                src@,
                zero_row(stride as int),
                stride as int,
                bpp as int,
                height as int,
            ).unwrap();
            assert(Seq::<u8>::empty() + whole =~= whole);
        }
    }
    while y < height
        invariant
            y <= height,
            1 <= bpp,
            offset <= src@.len(),
            prev@.len() == stride,
            match recon_rows(src@.skip(offset as int), prev@, stride as int, bpp as int, (height
                - y) as int) {
                Option::Some(rest) => recon_rows(
                    src@,
                    zero_row(stride as int),
                    stride as int,
                    bpp as int,
                    height as int,
                ) == Option::Some(out@ + rest),
                Option::None => recon_rows(
                    src@,
                    zero_row(stride as int),
                    stride as int,
                    bpp as int,
                    height as int,
                ) is None,
            },
        decreases height - y,
    {
        let remaining = src.len() - offset;
        if remaining < 1 || remaining - 1 < stride {
            return Err(DecodeError::InvalidData);
        }
        let ft = match FilterType::new(src[offset]) {
            Some(ft) => ft,
            None => {
                return Err(DecodeError::InvalidData);
            },
        };
        let row_src = vstd::slice::slice_subrange(src, offset + 1, offset + 1 + stride);
        proof {
            assert(row_src@ =~= src@.skip(offset as int).subrange(1, 1 + stride as int));
        }
        let line = unfilter_row(ft, row_src, prev.as_slice(), bpp);
        let ghost out0 = out@;
        push_all(&mut out, line.as_slice());
        proof {
            lemma_recon_row_n_len(ft, row_src@, prev@, bpp as int, stride as int);
            assert(src@.skip(offset as int).skip(1 + stride as int) =~= src@.skip(
                offset + 1 + stride as int,
            ));
            if recon_rows(src@.skip(offset + 1 + stride as int), line@, stride as int, bpp as int,
                (height - y - 1) as int) is Some {
                let rest = recon_rows(
                    src@.skip(offset + 1 + stride as int),
                    line@,
                    stride as int,
                    bpp as int,
                    (height - y - 1) as int,
                ).unwrap();
                assert(out0 + (line@ + rest) =~= (out0 + line@) + rest);
            }
        }
        prev = line;
        offset = offset + 1 + stride;
        y = y + 1;
    }
    proof {
        assert(out@ + Seq::<u8>::empty() =~= out@);
    }
    Ok(out)
}

} // verus!
