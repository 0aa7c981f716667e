//! The part of the canvas that a tool may read, and whether its chunks are
//! loaded.

use vstd::prelude::*;
use crate::chunk::system::{chunk_coord, chunk_pos_of, ChunkSystem};
use crate::tool::iter::{abs, line_len, line_point};
use crate::vector::IVec2;

verus! {

/// A rectangle of pixels, both corners included.
#[derive(Clone, Copy, PartialEq, Eq, Structural, Debug)]
pub struct Reach {
    pub lo: IVec2,
    pub hi: IVec2,
}

/// `v` kept within the pixel coordinates.
pub open spec fn clamp_coord(v: int) -> i32 {
    if v < -0x8000_0000 {
        -0x8000_0000i32
    } else if v > 0x7FFF_FFFF {
        0x7FFF_FFFFi32
    } else {
        v as i32
    }
}

/// The smaller of two numbers.
pub open spec fn least(a: int, b: int) -> int {
    if a <= b {
        a
    } else {
        b
    }
}

/// The larger of two numbers.
pub open spec fn most(a: int, b: int) -> int {
    if a >= b {
        a
    } else {
        b
    }
}

/// The rectangle around the two positions, widened by `margin` pixels on
/// every side as far as the canvas goes.
pub open spec fn reach_around(from: IVec2, to: IVec2, margin: int) -> Reach {
    Reach {
        lo: IVec2 {
            x: clamp_coord(least(from.x as int, to.x as int) - margin),
            y: clamp_coord(least(from.y as int, to.y as int) - margin),
        },
        hi: IVec2 {
            x: clamp_coord(most(from.x as int, to.x as int) + margin),
            y: clamp_coord(most(from.y as int, to.y as int) + margin),
        },
    }
}

impl Reach {
    /// The rectangle holds the position `(x, y)`.
    pub open spec fn holds(self, x: int, y: int) -> bool {
        self.lo.x <= x <= self.hi.x && self.lo.y <= y <= self.hi.y
    }

    /// The chunk at `chunk` holds pixels of the rectangle.
    pub open spec fn meets(self, chunk: IVec2) -> bool {
        chunk_coord(self.lo.x) <= chunk.x <= chunk_coord(self.hi.x) && chunk_coord(self.lo.y)
            <= chunk.y <= chunk_coord(self.hi.y)
    }

    /// Every chunk that holds pixels of the rectangle is loaded.
    pub open spec fn loaded(self, system: &ChunkSystem) -> bool {
        forall|chunk: IVec2| #[trigger] self.meets(chunk) ==> system.is_loaded(chunk)
    }

    /// The rectangle around the two positions, widened by `margin` pixels
    /// on every side.
    pub fn around(from: IVec2, to: IVec2, margin: u16) -> (reach: Reach)
        ensures
            reach == reach_around(from, to, margin as int),
    {
        let min_x: i64 = if from.x <= to.x {
            from.x as i64
        } else {
            to.x as i64
        };
        let max_x: i64 = if from.x >= to.x {
            from.x as i64
        } else {
            to.x as i64
        };
        let min_y: i64 = if from.y <= to.y {
            from.y as i64
        } else {
            to.y as i64
        };
        let max_y: i64 = if from.y >= to.y {
            from.y as i64
        } else {
            to.y as i64
        };
        Reach {
            lo: IVec2 { x: clamp(min_x - margin as i64), y: clamp(min_y - margin as i64) },
            hi: IVec2 { x: clamp(max_x + margin as i64), y: clamp(max_y + margin as i64) },
        }
    }

    /// A chunk that holds pixels of the rectangle and is not loaded, if
    /// there is one.
    pub fn missing_chunk(&self, system: &ChunkSystem) -> (missing: Option<IVec2>)
        ensures
            missing is None <==> self.loaded(system),
            missing matches Some(chunk) ==> self.meets(chunk) && !system.is_loaded(chunk),
    {
        let lo = ChunkSystem::global_pixel_pos_to_chunk_pos(self.lo);
        let hi = ChunkSystem::global_pixel_pos_to_chunk_pos(self.hi);
        let mut cy: i64 = lo.y as i64;
        while cy <= hi.y as i64
            invariant
                lo == chunk_pos_of(self.lo),
                hi == chunk_pos_of(self.hi),
                lo.y <= cy,
                cy <= hi.y + 1 || hi.y < lo.y,
                forall|chunk: IVec2| #[trigger]
                    self.meets(chunk) && chunk.y < cy ==> system.is_loaded(chunk),
            decreases hi.y + 1 - cy,
        {
            let mut cx: i64 = lo.x as i64;
            while cx <= hi.x as i64
                invariant
                    lo == chunk_pos_of(self.lo),
                    hi == chunk_pos_of(self.hi),
                    lo.y <= cy <= hi.y,
                    lo.x <= cx,
                    cx <= hi.x + 1 || hi.x < lo.x,
                    forall|chunk: IVec2| #[trigger]
                        self.meets(chunk) && (chunk.y < cy || (chunk.y == cy && chunk.x < cx))
                            ==> system.is_loaded(chunk),
                decreases hi.x + 1 - cx,
            {
                let chunk = IVec2 { x: cx as i32, y: cy as i32 };
                if system.get_chunk(chunk).is_none() {
                    assert(self.meets(chunk));
                    return Some(chunk);
                }
                cx += 1;
            }
            cy += 1;
        }
        None
    }
}

/// `v` kept within the pixel coordinates.
pub fn clamp(v: i64) -> (c: i32)
    ensures
        c == clamp_coord(v as int),
{
    if v < -0x8000_0000 {
        -0x8000_0000
    } else if v > 0x7FFF_FFFF {
        0x7FFF_FFFF
    } else {
        v as i32
    }
}

/// Where the chunks of a rectangle are loaded, so is the chunk of each of
/// its pixels.
pub proof fn lemma_reach_loaded(reach: Reach, system: &ChunkSystem, pos: IVec2)
    requires
        reach.loaded(system),
        reach.holds(pos.x as int, pos.y as int),
    ensures
        system.is_loaded(chunk_pos_of(pos)),
{
    assert(reach.meets(chunk_pos_of(pos)));
}

/// Every pixel of a line lies between its two ends.
pub proof fn lemma_line_point_between(from: IVec2, to: IVec2, i: int)
    requires
        0 <= i < line_len(from, to),
    ensures
        least(from.x as int, to.x as int) <= line_point(from, to, i).x <= most(
            from.x as int,
            to.x as int,
        ),
        least(from.y as int, to.y as int) <= line_point(from, to, i).y <= most(
            from.y as int,
            to.y as int,
        ),
{
    let ax = abs(to.x - from.x);
    let ay = abs(to.y - from.y);
    if ax >= ay {
        if ax > 0 {
            lemma_share_between(i, ax, ay);
        }
    } else {
        lemma_share_between(i, ay, ax);
    }
}

/// The share of `i` steps out of `long` is between none and all of `short`.
pub proof fn lemma_share_between(i: int, long: int, short: int)
    requires
        long > 0,
        0 <= short <= long,
        0 <= i <= long,
    ensures
        0 <= (i * short) / long <= short,
{
    let q = (i * short) / long;
    vstd::arithmetic::div_mod::lemma_fundamental_div_mod(i * short, long);
    let r = (i * short) % long;
    assert(0 <= r < long);
    assert(i * short == long * q + r);
    assert(i * short >= 0) by (nonlinear_arith)
        requires
            i >= 0,
            short >= 0,
    ;
    assert(i * short <= long * short) by (nonlinear_arith)
        requires
            0 <= i <= long,
            short >= 0,
    ;
    assert(q >= 0) by (nonlinear_arith)
        requires
            long * q + r >= 0,
            r < long,
            long > 0,
    ;
    assert(q <= short) by (nonlinear_arith)
        requires
            long * q + r <= long * short,
            r >= 0,
            long > 0,
    ;
}

/// One more step takes at most one more of the shorter extent.
pub proof fn lemma_share_step(i: int, long: int, short: int)
    requires
        long > 0,
        0 <= short <= long,
        0 <= i,
    ensures
        0 <= ((i + 1) * short) / long - (i * short) / long <= 1,
{
    let q = (i * short) / long;
    let r = (i * short) % long;
    vstd::arithmetic::div_mod::lemma_fundamental_div_mod(i * short, long);
    assert(i * short == long * q + r);
    assert((i + 1) * short == i * short + short) by (nonlinear_arith);
    if r + short < long {
        assert((i + 1) * short == q * long + (r + short)) by (nonlinear_arith)
            requires
                (i + 1) * short == i * short + short,
                i * short == long * q + r,
        ;
        vstd::arithmetic::div_mod::lemma_fundamental_div_mod_converse(
            (i + 1) * short,
            long,
            q,
            r + short,
        );
    } else {
        assert((i + 1) * short == (q + 1) * long + (r + short - long)) by (nonlinear_arith)
            requires
                (i + 1) * short == i * short + short,
                i * short == long * q + r,
        ;
        vstd::arithmetic::div_mod::lemma_fundamental_div_mod_converse(
            (i + 1) * short,
            long,
            q + 1,
            r + short - long,
        );
    }
}

/// Two pixels of a line that follow each other are neighbours.
pub proof fn lemma_line_points_adjacent(from: IVec2, to: IVec2, i: int)
    requires
        0 <= i,
        i + 1 < line_len(from, to),
    ensures
        -1 <= line_point(from, to, i).x - line_point(from, to, i + 1).x <= 1,
        -1 <= line_point(from, to, i).y - line_point(from, to, i + 1).y <= 1,
{
    let ax = abs(to.x - from.x);
    let ay = abs(to.y - from.y);
    lemma_line_point_between(from, to, i);
    lemma_line_point_between(from, to, i + 1);
    if ax >= ay {
        lemma_share_step(i, ax, ay);
        lemma_share_between(i, ax, ay);
        lemma_share_between(i + 1, ax, ay);
    } else {
        lemma_share_step(i, ay, ax);
        lemma_share_between(i, ay, ax);
        lemma_share_between(i + 1, ay, ax);
    }
}

} // verus!
