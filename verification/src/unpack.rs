//! The bit-depth unpacker: expands rows of sub-byte packed samples
//! (MSB-first within each byte, rows padded to a byte boundary) into one
//! byte per pixel. Samples are palette indices and are not rescaled.

use vstd::prelude::*;

verus! {

/// How many packed samples one byte holds at the given depth.
pub open spec fn samples_per_byte(depth: u8) -> int {
    if depth == 1 {
        8
    } else if depth == 2 {
        4
    } else {
        2
    }
}

/// The mask selecting one sample's bits.
pub open spec fn sample_mask(depth: u8) -> u8 {
    if depth == 1 {
        1u8
    } else if depth == 2 {
        3u8
    } else {
        15u8
    }
}

/// The `k`-th sample of a packed byte, most significant group first.
pub open spec fn extract_sample(b: u8, depth: u8, k: int) -> u8 {
    (b >> (((samples_per_byte(depth) - 1 - k) * depth) as u8)) & sample_mask(depth)
}

/// One byte per pixel, row-major: pixel (y, x) is the `x % spb`-th sample
/// of packed byte `y * stride + x / spb`. Padding bits at each row's end
/// are discarded.
pub open spec fn unpacked_pixels(
    packed: Seq<u8>,
    width: int,
    height: int,
    depth: u8,
    stride: int,
) -> Seq<u8> {
    Seq::new(
        (width * height) as nat,
        |i: int|
            extract_sample(
                packed[(i / width) * stride + (i % width) / samples_per_byte(depth)],
                depth,
                (i % width) % samples_per_byte(depth),
            ),
    )
}

/// Expands the packed reconstructed buffer into one byte per pixel.
pub fn unpack_bits(packed: &[u8], width: usize, height: usize, depth: u8, stride: usize) -> (res:
    Vec<u8>)
    requires
        depth == 1 || depth == 2 || depth == 4,
        stride == ((width * depth) + 7) / 8,
        packed@.len() == stride * height,
        1 <= width,
        width * height <= usize::MAX,
    ensures
        res@ == unpacked_pixels(packed@, width as int, height as int, depth, stride as int),
{
    let plen = packed.len();
    let total = width * height;
    let spb: usize = if depth == 1 {
        8
    } else if depth == 2 {
        4
    } else {
        2
    };
    let mask: u8 = if depth == 1 {
        1
    } else if depth == 2 {
        3
    } else {
        15
    };
    let mut out: Vec<u8> = Vec::new();
    let mut i: usize = 0;
    while i < total
        invariant
            i <= total,
            total == width * height,
            depth == 1 || depth == 2 || depth == 4,
            spb == samples_per_byte(depth),
            mask == sample_mask(depth),
            stride == ((width * depth) + 7) / 8,
            packed@.len() == stride * height,
            packed@.len() == plen,
            1 <= width,
            out@.len() == i,
            forall|j: int|
                0 <= j < i ==> out@[j] == extract_sample(
                    packed@[(j / (width as int)) * stride + (j % (width as int))
                        / samples_per_byte(depth)],
                    depth,
                    (j % (width as int)) % samples_per_byte(depth),
                ),
        decreases total - i,
    {
        let y = i / width;
        let x = i % width;
        proof {
            assert(y < height && x < width) by (nonlinear_arith)
                requires
                    i < total,
                    total == width * height,
                    1 <= width,
                    y == i as int / width as int,
                    x == i as int % width as int,
            ;
            vstd::arithmetic::div_mod::lemma_fundamental_div_mod(
                (width as int) * (depth as int) + 7,
                8,
            );
            vstd::arithmetic::div_mod::lemma_mod_division_less_than_divisor(
                (width as int) * (depth as int) + 7,
                8,
            );
            assert(8 * (stride as int) >= (width as int) * (depth as int));
            assert((depth as int) * (spb as int) == 8);
            assert(width as int <= (spb as int) * (stride as int)) by (nonlinear_arith)
                requires
                    8 * (stride as int) >= (width as int) * (depth as int),
                    (depth as int) * (spb as int) == 8,
                    1 <= depth as int,
                    0 <= stride as int,
                    0 <= width as int,
            ;
            vstd::arithmetic::div_mod::lemma_multiply_divide_lt(
                x as int,
                spb as int,
                stride as int,
            );
            assert(y * stride + x / spb < stride * height) by (nonlinear_arith)
                requires
                    0 <= y < height,
                    0 <= x / spb < stride,
                    0 <= stride,
            ;
        }
        let b = packed[y * stride + x / spb];
        let k = x % spb;
        proof {
            assert(k < spb);
        }
        let sh_units = spb - 1 - k;
        let sh: u8 = if depth == 1 {
            sh_units as u8
        } else if depth == 2 {
            (sh_units * 2) as u8
        } else {
            (sh_units * 4) as u8
        };
        proof {
            assert(sh < 8);
            assert(sh == (((samples_per_byte(depth) - 1 - k) * depth) as u8));
        }
        let sample = (b >> sh) & mask;
        proof {
            assert(sample == extract_sample(
                packed@[(i as int / width as int) * stride + (i as int % width as int)
                    / samples_per_byte(depth)],
                depth,
                (i as int % width as int) % samples_per_byte(depth),
            ));
        }
        out.push(sample);
        i = i + 1;
    }
    proof {
        assert(out@ =~= unpacked_pixels(packed@, width as int, height as int, depth, stride as int));
    }
    out
}

} // verus!
