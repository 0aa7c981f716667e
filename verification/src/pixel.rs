//! Colours and the gamma-corrected blend.

use vstd::prelude::*;
use crate::vector::IVec2;

verus! {

#[derive(Clone, Copy, PartialEq, Eq, Structural, Debug)]
pub struct ColorRGB {
    pub r: u8,
    pub g: u8,
    pub b: u8,
}

#[derive(Clone, Copy, PartialEq, Eq, Structural, Debug)]
pub struct ColorRGBA {
    pub r: u8,
    pub g: u8,
    pub b: u8,
    pub a: u8,
}

/// A colour at a position of the whole canvas.
#[derive(Clone, Copy, PartialEq, Eq, Structural, Debug)]
pub struct GlobalPixelRGBA {
    pub pos: IVec2,
    pub color: ColorRGBA,
}

/// `r` is the integer square root of `n`: the largest `r` with `r * r <= n`.
pub open spec fn is_floor_sqrt(n: int, r: int) -> bool {
    0 <= r && r * r <= n && n < (r + 1) * (r + 1)
}

/// The integer square root of `n`.
pub open spec fn floor_sqrt(n: int) -> int {
    choose|r: int| is_floor_sqrt(n, r)
}

/// One channel of the blend: the root of the mean of the two squares,
/// weighted by `alpha` out of 255.
pub open spec fn blend_channel(alpha: int, from: int, to: int) -> int {
    floor_sqrt((from * from * (255 - alpha) + to * to * alpha) / 255)
}

/// The gamma-corrected blend of two colours, channel by channel.
pub open spec fn blend_spec(alpha: u8, from: ColorRGBA, to: ColorRGBA) -> ColorRGBA {
    ColorRGBA {
        r: blend_channel(alpha as int, from.r as int, to.r as int) as u8,
        g: blend_channel(alpha as int, from.g as int, to.g as int) as u8,
        b: blend_channel(alpha as int, from.b as int, to.b as int) as u8,
        a: blend_channel(alpha as int, from.a as int, to.a as int) as u8,
    }
}

/// Two integer square roots of one number are equal.
pub proof fn lemma_floor_sqrt_unique(n: int, r1: int, r2: int)
    requires
        is_floor_sqrt(n, r1),
        is_floor_sqrt(n, r2),
    ensures
        r1 == r2,
{
    if r1 < r2 {
        assert((r1 + 1) * (r1 + 1) <= r2 * r2) by (nonlinear_arith)
            requires
                0 <= r1,
                r1 + 1 <= r2,
        ;
    } else if r2 < r1 {
        assert((r2 + 1) * (r2 + 1) <= r1 * r1) by (nonlinear_arith)
            requires
                0 <= r2,
                r2 + 1 <= r1,
        ;
    }
}

/// Whoever holds an integer square root of `n` holds `floor_sqrt(n)`.
pub proof fn lemma_floor_sqrt_is(n: int, r: int)
    requires
        is_floor_sqrt(n, r),
    ensures
        floor_sqrt(n) == r,
{
    let c = floor_sqrt(n);
    assert(is_floor_sqrt(n, c));
    lemma_floor_sqrt_unique(n, c, r);
}

/// The root of a square is the number itself.
pub proof fn lemma_floor_sqrt_square(r: int)
    requires
        0 <= r,
    ensures
        floor_sqrt(r * r) == r,
{
    assert(r * r < (r + 1) * (r + 1)) by (nonlinear_arith)
        requires
            0 <= r,
    ;
    lemma_floor_sqrt_is(r * r, r);
}

/// A blend of two channel values is a channel value.
pub proof fn lemma_blend_channel_range(alpha: int, from: int, to: int)
    requires
        0 <= alpha <= 255,
        0 <= from <= 255,
        0 <= to <= 255,
    ensures
        0 <= blend_channel(alpha, from, to) <= 255,
        is_floor_sqrt(
            (from * from * (255 - alpha) + to * to * alpha) / 255,
            blend_channel(alpha, from, to),
        ),
{
    let n = (from * from * (255 - alpha) + to * to * alpha) / 255;
    lemma_mean_square_range(alpha, from, to);
    lemma_floor_sqrt_exists(n);
    let r = floor_sqrt(n);
    assert(is_floor_sqrt(n, r));
    if r > 255 {
        assert(r * r >= 256 * 256) by (nonlinear_arith)
            requires
                r >= 256,
        ;
    }
}

/// The weighted mean of two squares of channel values lies between 0 and
/// the square of 255.
pub proof fn lemma_mean_square_range(alpha: int, from: int, to: int)
    requires
        0 <= alpha <= 255,
        0 <= from <= 255,
        0 <= to <= 255,
    ensures
        0 <= from * from * (255 - alpha) + to * to * alpha <= 65025 * 255,
        0 <= (from * from * (255 - alpha) + to * to * alpha) / 255 <= 65025,
{
    assert(0 <= from * from <= 65025) by (nonlinear_arith)
        requires
            0 <= from <= 255,
    ;
    assert(0 <= to * to <= 65025) by (nonlinear_arith)
        requires
            0 <= to <= 255,
    ;
    let f = from * from;
    let t = to * to;
    assert(0 <= f * (255 - alpha) <= 65025 * (255 - alpha)) by (nonlinear_arith)
        requires
            0 <= f <= 65025,
            0 <= 255 - alpha,
    ;
    assert(0 <= t * alpha <= 65025 * alpha) by (nonlinear_arith)
        requires
            0 <= t <= 65025,
            0 <= alpha,
    ;
}

/// Every natural number has an integer square root.
pub proof fn lemma_floor_sqrt_exists(n: int)
    requires
        0 <= n,
    ensures
        exists|r: int| is_floor_sqrt(n, r),
    decreases n,
{
    if n == 0 {
        assert(is_floor_sqrt(0, 0));
    } else {
        let m = n - 1;
        lemma_floor_sqrt_exists(m);
        let r = choose|r: int| is_floor_sqrt(m, r);
        if (r + 1) * (r + 1) <= n {
            assert(n < (r + 2) * (r + 2)) by (nonlinear_arith)
                requires
                    n - 1 < (r + 1) * (r + 1),
                    0 <= r,
            ;
            assert(is_floor_sqrt(n, r + 1));
        } else {
            assert(is_floor_sqrt(n, r));
        }
    }
}

/// A blend with weight 0 keeps `from`; with weight 255 it gives `to`.
pub proof fn lemma_blend_endpoints(from: ColorRGBA, to: ColorRGBA)
    ensures
        blend_spec(0, from, to) == from,
        blend_spec(255, from, to) == to,
{
    lemma_blend_channel_endpoints(from.r as int, to.r as int);
    lemma_blend_channel_endpoints(from.g as int, to.g as int);
    lemma_blend_channel_endpoints(from.b as int, to.b as int);
    lemma_blend_channel_endpoints(from.a as int, to.a as int);
}

/// One channel of `lemma_blend_endpoints`.
pub proof fn lemma_blend_channel_endpoints(from: int, to: int)
    requires
        0 <= from <= 255,
        0 <= to <= 255,
    ensures
        blend_channel(0, from, to) == from,
        blend_channel(255, from, to) == to,
{
    assert((from * from * 255 + to * to * 0) / 255 == from * from) by (nonlinear_arith);
    assert((from * from * 0 + to * to * 255) / 255 == to * to) by (nonlinear_arith);
    lemma_floor_sqrt_square(from);
    lemma_floor_sqrt_square(to);
}

/// The integer square root of a number below 65536.
pub fn isqrt(n: u32) -> (r: u32)
    requires
        n <= 65535,
    ensures
        r == floor_sqrt(n as int),
        is_floor_sqrt(n as int, r as int),
        r <= 255,
{
    let mut r: u32 = 0;
    let mut bit: u32 = 128;
    while bit > 0
        invariant
            n <= 65535,
            bit == 128 || bit == 64 || bit == 32 || bit == 16 || bit == 8 || bit == 4 || bit == 2
                || bit == 1 || bit == 0,
            r <= 256 - 2 * bit || (bit == 0 && r <= 255),
            r * r <= n,
            bit > 0 ==> n < (r + 2 * bit) * (r + 2 * bit),
            bit == 0 ==> n < (r + 1) * (r + 1),
        decreases bit,
    {
        let cand: u32 = r + bit;
        assert(cand <= 255);
        assert(cand * cand <= 255 * 255) by (nonlinear_arith)
            requires
                0 <= cand <= 255,
        ;
        if cand * cand <= n {
            r = cand;
        }
        bit = bit / 2;
    }
    proof {
        lemma_floor_sqrt_is(n as int, r as int);
    }
    r
}

impl ColorRGB {
    /// This colour with the given opacity.
    pub fn rgba(self, a: u8) -> (c: ColorRGBA)
        ensures
            c == (ColorRGBA { r: self.r, g: self.g, b: self.b, a }),
    {
        ColorRGBA { r: self.r, g: self.g, b: self.b, a }
    }
}

impl ColorRGBA {
    pub fn new(r: u8, g: u8, b: u8, a: u8) -> (c: Self)
        ensures
            c == (ColorRGBA { r, g, b, a }),
    {
        ColorRGBA { r, g, b, a }
    }

    /// Transparent black.
    pub fn zero() -> (c: Self)
        ensures
            c == (ColorRGBA { r: 0, g: 0, b: 0, a: 0 }),
    {
        ColorRGBA { r: 0, g: 0, b: 0, a: 0 }
    }

    /// This colour without its opacity.
    pub fn rgb(self) -> (c: ColorRGB)
        ensures
            c == (ColorRGB { r: self.r, g: self.g, b: self.b }),
    {
        ColorRGB { r: self.r, g: self.g, b: self.b }
    }

    fn blend_one(alpha: u8, from: u8, to: u8) -> (out: u8)
        ensures
            out == blend_channel(alpha as int, from as int, to as int),
    {
        proof {
            lemma_mean_square_range(alpha as int, from as int, to as int);
            lemma_blend_channel_range(alpha as int, from as int, to as int);
        }
        let alpha32: u32 = alpha as u32;
        let alpha_inv: u32 = 255 - alpha32;
        let from32: u32 = from as u32;
        let to32: u32 = to as u32;
        assert(from32 * from32 <= 65025) by (nonlinear_arith)
            requires
                from32 <= 255,
        ;
        assert(to32 * to32 <= 65025) by (nonlinear_arith)
            requires
                to32 <= 255,
        ;
        let f2: u32 = from32 * from32;
        let t2: u32 = to32 * to32;
        assert(f2 * alpha_inv <= 65025 * 255) by (nonlinear_arith)
            requires
                f2 <= 65025,
                alpha_inv <= 255,
        ;
        assert(t2 * alpha32 <= 65025 * 255) by (nonlinear_arith)
            requires
                t2 <= 65025,
                alpha32 <= 255,
        ;
        let mean: u32 = (f2 * alpha_inv + t2 * alpha32) / 255;
        let root = isqrt(mean);
        root as u8
    }

    /// Blends `to` over `from` with weight `alpha` out of 255, each of the
    /// four channels as the root of the weighted mean of the squares.
    pub fn blend_gamma_corrected(alpha: u8, from: Self, to: Self) -> (out: Self)
        ensures
            out == blend_spec(alpha, from, to),
    {
        ColorRGBA {
            r: Self::blend_one(alpha, from.r, to.r),
            g: Self::blend_one(alpha, from.g, to.g),
            b: Self::blend_one(alpha, from.b, to.b),
            a: Self::blend_one(alpha, from.a, to.a),
        }
    }
}

impl GlobalPixelRGBA {
    /// Appends the pixel `(x, y)` with `color` to `vec`.
    pub fn insert_to_vec(vec: &mut Vec<Self>, x: i32, y: i32, color: ColorRGBA)
        ensures
            final(vec)@ == old(vec)@.push(GlobalPixelRGBA { pos: IVec2 { x, y }, color }),
    {
        vec.push(GlobalPixelRGBA { pos: IVec2 { x, y }, color });
    }
}

} // verus!
