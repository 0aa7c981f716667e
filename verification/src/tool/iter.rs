//! The pixels of a straight line between two positions.

use vstd::prelude::*;
use crate::vector::IVec2;

verus! {

/// One pixel of a line.
#[derive(Clone, Copy, PartialEq, Eq, Structural, Debug)]
pub struct LineIter {
    pub pos: IVec2,
}

/// One of the eight directions in which a line can run, counted from 0.
#[derive(Clone, Copy, PartialEq, Eq, Structural, Debug)]
pub struct Octant(pub u8);

/// Walks the pixels of the line from `start` to `end`, both included.
pub struct LineMoveIter {
    pub start: IVec2,
    pub end: IVec2,
    /// The position that comes next, turned into the first octant.
    pub pos_x: i64,
    pub pos_y: i64,
    pub dx: i64,
    pub dy: i64,
    /// Where the walk began, turned into the first octant.
    pub x0: i64,
    pub y0: i64,
    pub x1: i64,
    pub diff: i64,
    pub octant: Octant,
}

pub open spec fn abs(v: int) -> int {
    if v < 0 {
        -v
    } else {
        v
    }
}

/// `steps` in the direction of `d`.
pub open spec fn toward(d: int, steps: int) -> int {
    if d < 0 {
        -steps
    } else {
        steps
    }
}

/// How many pixels the line from `start` to `end` has: one more than the
/// longer of its two extents.
pub open spec fn line_len(start: IVec2, end: IVec2) -> int {
    let ax = abs(end.x - start.x);
    let ay = abs(end.y - start.y);
    if ax >= ay {
        ax + 1
    } else {
        ay + 1
    }
}

/// Pixel number `i` of the line from `start` to `end`: `i` steps along the
/// longer extent, and along the shorter one its share of them, rounded
/// down.
pub open spec fn line_point(start: IVec2, end: IVec2, i: int) -> IVec2 {
    let dx = end.x - start.x;
    let dy = end.y - start.y;
    let ax = abs(dx);
    let ay = abs(dy);
    if ax >= ay {
        IVec2 {
            x: (start.x + toward(dx, i)) as i32,
            y: (start.y + toward(dy, if ax == 0 {
                0
            } else {
                (i * ay) / ax
            })) as i32,
        }
    } else {
        IVec2 { x: (start.x + toward(dx, (i * ax) / ay)) as i32, y: (start.y + toward(dy, i)) as i32 }
    }
}

/// The pixels of the line from `start` to `end`, in order.
pub open spec fn line_points(start: IVec2, end: IVec2) -> Seq<IVec2> {
    Seq::new(line_len(start, end) as nat, |i: int| line_point(start, end, i))
}

/// The octant in which the line from `start` to `end` runs.
pub open spec fn octant_of(start: IVec2, end: IVec2) -> int {
    let dx = end.x - start.x;
    let dy = end.y - start.y;
    if dy < 0 {
        if -dx < 0 {
            if -dy < dx {
                7
            } else {
                6
            }
        } else if -dx < -dy {
            5
        } else {
            4
        }
    } else if dx < 0 {
        if dy < -dx {
            3
        } else {
            2
        }
    } else if dx < dy {
        1
    } else {
        0
    }
}

/// The position `(x, y)` turned into the first octant.
pub open spec fn to_octant(octant: int, x: int, y: int) -> (int, int) {
    if octant == 0 {
        (x, y)
    } else if octant == 1 {
        (y, x)
    } else if octant == 2 {
        (y, -x)
    } else if octant == 3 {
        (-x, y)
    } else if octant == 4 {
        (-x, -y)
    } else if octant == 5 {
        (-y, -x)
    } else if octant == 6 {
        (-y, x)
    } else {
        (x, -y)
    }
}

/// The position `(x, y)` of the first octant turned back.
pub open spec fn from_octant(octant: int, x: int, y: int) -> (int, int) {
    if octant == 0 {
        (x, y)
    } else if octant == 1 {
        (y, x)
    } else if octant == 2 {
        (-y, x)
    } else if octant == 3 {
        (-x, y)
    } else if octant == 4 {
        (-x, -y)
    } else if octant == 5 {
        (-y, -x)
    } else if octant == 6 {
        (y, -x)
    } else {
        (x, -y)
    }
}

/// The first and the last pixel of a line are its two ends.
pub proof fn lemma_line_ends(start: IVec2, end: IVec2)
    ensures
        line_len(start, end) >= 1,
        line_point(start, end, 0) == start,
        line_point(start, end, line_len(start, end) - 1) == end,
{
    let ax = abs(end.x - start.x);
    let ay = abs(end.y - start.y);
    if ax >= ay {
        if ax > 0 {
            assert((0 * ay) / ax == 0) by (nonlinear_arith)
                requires
                    ax > 0,
            ;
            assert((ax * ay) / ax == ay) by (nonlinear_arith)
                requires
                    ax > 0,
                    ay >= 0,
            ;
        }
    } else {
        assert((0 * ax) / ay == 0) by (nonlinear_arith)
            requires
                ay > 0,
        ;
        assert((ay * ax) / ay == ax) by (nonlinear_arith)
            requires
                ay > 0,
                ax >= 0,
        ;
    }
}

/// A share of steps, rounded down, from the rest that the walk keeps.
pub proof fn lemma_share(i: int, k: int, long: int, short: int)
    requires
        long > 0,
        0 <= short <= long,
        0 <= i <= long,
        0 <= i * short - k * long < long,
    ensures
        k == (i * short) / long,
        0 <= k <= short,
{
    vstd::arithmetic::div_mod::lemma_fundamental_div_mod_converse(
        i * short,
        long,
        k,
        i * short - k * long,
    );
    assert(k >= 0) by (nonlinear_arith)
        requires
            i * short - k * long < long,
            i >= 0,
            short >= 0,
            long > 0,
    ;
    assert(k <= short) by (nonlinear_arith)
        requires
            0 <= i * short - k * long,
            i <= long,
            short >= 0,
            long > 0,
    ;
}

impl Octant {
    /// The octant in which the line from `start` to `end` runs.
    pub fn points(start: IVec2, end: IVec2) -> (octant: Octant)
        ensures
            octant.0 == octant_of(start, end),
            octant.0 < 8,
    {
        let mut dx: i64 = end.x as i64 - start.x as i64;
        let mut dy: i64 = end.y as i64 - start.y as i64;
        let mut octant: u8 = 0;
        if dy < 0 {
            dx = -dx;
            dy = -dy;
            octant += 4;
        }
        if dx < 0 {
            let tmp = dx;
            dx = dy;
            dy = -tmp;
            octant += 2
        }
        if dx < dy {
            octant += 1
        }
        Octant(octant)
    }

    /// The position `p` turned into the first octant.
    pub fn octant_to(&self, p: IVec2) -> (turned: (i64, i64))
        requires
            self.0 < 8,
        ensures
            (turned.0 as int, turned.1 as int) == to_octant(self.0 as int, p.x as int, p.y as int),
    {
        let x = p.x as i64;
        let y = p.y as i64;
        if self.0 == 0 {
            (x, y)
        } else if self.0 == 1 {
            (y, x)
        } else if self.0 == 2 {
            (y, -x)
        } else if self.0 == 3 {
            (-x, y)
        } else if self.0 == 4 {
            (-x, -y)
        } else if self.0 == 5 {
            (-y, -x)
        } else if self.0 == 6 {
            (-y, x)
        } else {
            (x, -y)
        }
    }

    /// The position `(x, y)` of the first octant turned back.
    pub fn octant_from(&self, x: i64, y: i64) -> (turned: (i64, i64))
        requires
            self.0 < 8,
            -0x1_0000_0000 < x < 0x1_0000_0000,
            -0x1_0000_0000 < y < 0x1_0000_0000,
        ensures
            (turned.0 as int, turned.1 as int) == from_octant(self.0 as int, x as int, y as int),
    {
        if self.0 == 0 {
            (x, y)
        } else if self.0 == 1 {
            (y, x)
        } else if self.0 == 2 {
            (-y, x)
        } else if self.0 == 3 {
            (-x, y)
        } else if self.0 == 4 {
            (-x, -y)
        } else if self.0 == 5 {
            (-y, -x)
        } else if self.0 == 6 {
            (y, -x)
        } else {
            (x, -y)
        }
    }
}

impl LineMoveIter {
    /// How many pixels the walk has given out.
    pub open spec fn index(&self) -> int {
        self.pos_x - self.x0
    }

    /// How far the walk has moved along the shorter extent.
    pub open spec fn rise(&self) -> int {
        self.pos_y - self.y0
    }

    /// The walk is in step with the line that it walks.
    pub open spec fn wf(&self) -> bool {
        let o = octant_of(self.start, self.end);
        let i = self.index();
        let k = self.rise();
        &&& self.octant.0 == o
        &&& (self.x0 as int, self.y0 as int) == to_octant(o, self.start.x as int, self.start.y as int)
        &&& (self.x1 as int, self.y0 + self.dy) == to_octant(o, self.end.x as int, self.end.y as int)
        &&& self.dx == self.x1 - self.x0
        &&& 0 <= self.dy <= self.dx
        &&& self.dx + 1 == line_len(self.start, self.end)
        &&& 0 <= i <= self.dx + 1
        &&& self.diff == self.dy - self.dx + (i * self.dy - k * self.dx)
        &&& self.dx > 0 ==> 0 <= i * self.dy - k * self.dx < self.dx
        &&& self.dx == 0 ==> k == i
    }

    /// The pixels still to come.
    pub open spec fn remaining(&self) -> Seq<IVec2> {
        line_points(self.start, self.end).skip(self.index())
    }

    /// A walk over the pixels of the line from `start` to `end`.
    pub fn iterate(start: IVec2, end: IVec2) -> (iter: LineMoveIter)
        ensures
            iter.wf(),
            iter.start == start,
            iter.end == end,
            iter.index() == 0,
            iter.remaining() == line_points(start, end),
    {
        let octant = Octant::points(start, end);
        let s = octant.octant_to(start);
        let e = octant.octant_to(end);
        let dx = e.0 - s.0;
        let dy = e.1 - s.1;
        let iter = LineMoveIter {
            start,
            end,
            pos_x: s.0,
            pos_y: s.1,
            dx,
            dy,
            x0: s.0,
            y0: s.1,
            x1: e.0,
            diff: dy - dx,
            octant,
        };
        proof {
            assert(0 * iter.dy - 0 * iter.dx == 0) by (nonlinear_arith);
            assert(iter.index() * iter.dy - iter.rise() * iter.dx == 0) by (nonlinear_arith)
                requires
                    iter.index() == 0,
                    iter.rise() == 0,
            ;
            assert(line_points(start, end).skip(0) =~= line_points(start, end));
        }
        iter
    }

    /// The next pixel of the line, if any is left.
    pub fn next(&mut self) -> (item: Option<LineIter>)
        requires
            old(self).wf(),
        ensures
            final(self).wf(),
            final(self).start == old(self).start,
            final(self).end == old(self).end,
            old(self).index() >= line_len(old(self).start, old(self).end) ==> item is None
                && final(self).index() == old(self).index(),
            old(self).index() < line_len(old(self).start, old(self).end) ==> item == Some(
                LineIter { pos: line_point(old(self).start, old(self).end, old(self).index()) },
            ) && final(self).index() == old(self).index() + 1,
    {
        if self.pos_x > self.x1 {
            return None;
        }
        let px = self.pos_x;
        let py = self.pos_y;
        let ghost i = self.index();
        let ghost k = self.rise();
        let ghost dx = self.dx as int;
        let ghost dy = self.dy as int;
        let ghost e = i * dy - k * dx;
        proof {
            if dx > 0 {
                lemma_share(i, k, dx, dy);
            }
        }
        if self.diff >= 0 {
            self.pos_y += 1;
            self.diff -= self.dx;
        }
        self.diff += self.dy;
        self.pos_x += 1;
        proof {
            let i2 = self.index();
            let k2 = self.rise();
            assert(i2 * dy - k2 * dx == e + dy - (k2 - k) * dx) by (nonlinear_arith)
                requires
                    i2 == i + 1,
                    e == i * dy - k * dx,
                    k2 == k || k2 == k + 1,
            ;
            if k2 == k + 1 {
                assert((k2 - k) * dx == dx) by (nonlinear_arith)
                    requires
                        k2 - k == 1,
                ;
            } else {
                assert((k2 - k) * dx == 0) by (nonlinear_arith)
                    requires
                        k2 - k == 0,
                ;
            }
        }
        let turned = self.octant.octant_from(px, py);
        proof {
            let o = octant_of(self.start, self.end);
            let sdx = self.end.x - self.start.x;
            let sdy = self.end.y - self.start.y;
            let want = line_point(self.start, self.end, i);
            let ax = abs(sdx);
            let ay = abs(sdy);
            if dx > 0 {
                assert(k == (i * dy) / dx);
                assert(0 <= k <= dy);
                if dx == dy {
                    assert(k == i) by (nonlinear_arith)
                        requires
                            0 <= i * dy - k * dx < dx,
                            dx == dy,
                            dx > 0,
                    ;
                }
                if ax >= ay {
                    assert(dx == ax && dy == ay);
                    assert((i * ay) / ax == k);
                } else {
                    assert(dx == ay && dy == ax);
                    assert((i * ax) / ay == k);
                }
            } else {
                assert(i == 0 && k == 0);
                assert(ax == 0 && ay == 0);
            }
            assert(turned.0 == want.x && turned.1 == want.y);
        }
        Some(LineIter { pos: IVec2 { x: turned.0 as i32, y: turned.1 as i32 } })
    }
}

} // verus!
