//! The pixels of a filled triangle.

use vstd::prelude::*;
use crate::vector::IVec2;

verus! {

/// One pixel of a triangle.
#[derive(Clone, Copy, PartialEq, Eq, Structural, Debug)]
pub struct TriangleRasterizerItem {
    pub pos: IVec2,
}

/// Walks the pixels of a triangle, row by row over the rectangle around
/// it. The right and the bottom edge of the rectangle are left out, unless
/// the rectangle is flat.
pub struct TriangleRasterizerIter {
    pub pt1: IVec2,
    pub pt2: IVec2,
    pub pt3: IVec2,
    /// The top left corner of the rectangle.
    pub shift: IVec2,
    pub size_x: i64,
    pub size_y: i64,
    pub cur_x: i64,
    pub cur_y: i64,
    pub ended: bool,
}

/// Whether the point `(x, y)` lies in the triangle, edges included.
pub open spec fn in_triangle(x: int, y: int, pt1: IVec2, pt2: IVec2, pt3: IVec2) -> bool {
    let d_x = x - pt3.x;
    let d_y = y - pt3.y;
    let d_x21 = pt3.x - pt2.x;
    let d_y12 = pt2.y - pt3.y;
    let d = d_y12 * (pt1.x - pt3.x) + d_x21 * (pt1.y - pt3.y);
    let s = d_y12 * d_x + d_x21 * d_y;
    let t = (pt3.y - pt1.y) * d_x + (pt1.x - pt3.x) * d_y;
    if d < 0 {
        s <= 0 && t <= 0 && s + t >= d
    } else {
        s >= 0 && t >= 0 && s + t <= d
    }
}

/// The pixels of the triangle from the cell `(x, y)` of the rectangle on,
/// row by row, where the rectangle has `w` columns and `h` rows.
pub open spec fn triangle_rest(
    pt1: IVec2,
    pt2: IVec2,
    pt3: IVec2,
    shift: IVec2,
    w: int,
    h: int,
    x: int,
    y: int,
) -> Seq<IVec2>
    decreases h - y, w - x,
{
    if x < 0 || y < 0 || x >= w || y >= h {
        Seq::empty()
    } else {
        let here = if in_triangle(shift.x + x, shift.y + y, pt1, pt2, pt3) {
            seq![IVec2 { x: (shift.x + x) as i32, y: (shift.y + y) as i32 }]
        } else {
            Seq::empty()
        };
        if x + 1 < w {
            here + triangle_rest(pt1, pt2, pt3, shift, w, h, x + 1, y)
        } else {
            here + triangle_rest(pt1, pt2, pt3, shift, w, h, 0, y + 1)
        }
    }
}

/// The least of three numbers.
pub open spec fn least3(a: int, b: int, c: int) -> int {
    if a <= b && a <= c {
        a
    } else if b <= c {
        b
    } else {
        c
    }
}

/// The largest of three numbers.
pub open spec fn most3(a: int, b: int, c: int) -> int {
    if a >= b && a >= c {
        a
    } else if b >= c {
        b
    } else {
        c
    }
}

/// `v`, but at least 1.
pub open spec fn at_least_one(v: int) -> int {
    if v < 1 {
        1
    } else {
        v
    }
}

/// The pixels of the triangle with the given corners, row by row.
pub open spec fn triangle_points(pt1: IVec2, pt2: IVec2, pt3: IVec2) -> Seq<IVec2> {
    let left = least3(pt1.x as int, pt2.x as int, pt3.x as int);
    let top = least3(pt1.y as int, pt2.y as int, pt3.y as int);
    triangle_rest(
        pt1,
        pt2,
        pt3,
        IVec2 { x: left as i32, y: top as i32 },
        at_least_one(most3(pt1.x as int, pt2.x as int, pt3.x as int) - left),
        at_least_one(most3(pt1.y as int, pt2.y as int, pt3.y as int) - top),
        0,
        0,
    )
}

/// Whether the point `(x, y)` lies in the triangle, edges included.
pub fn is_in_triangle(x: i64, y: i64, pt1: IVec2, pt2: IVec2, pt3: IVec2) -> (inside: bool)
    requires
        -0x1_0000_0000 <= x <= 0x1_0000_0000,
        -0x1_0000_0000 <= y <= 0x1_0000_0000,
    ensures
        inside == in_triangle(x as int, y as int, pt1, pt2, pt3),
{
    let d_x: i128 = x as i128 - pt3.x as i128;
    let d_y: i128 = y as i128 - pt3.y as i128;
    let d_x21: i128 = pt3.x as i128 - pt2.x as i128;
    let d_y12: i128 = pt2.y as i128 - pt3.y as i128;
    let a: i128 = pt1.x as i128 - pt3.x as i128;
    let b: i128 = pt1.y as i128 - pt3.y as i128;
    let c: i128 = pt3.y as i128 - pt1.y as i128;
    proof {
        lemma_product_bound(d_y12 as int, a as int);
        lemma_product_bound(d_x21 as int, b as int);
        lemma_product_bound(d_y12 as int, d_x as int);
        lemma_product_bound(d_x21 as int, d_y as int);
        lemma_product_bound(c as int, d_x as int);
        lemma_product_bound(a as int, d_y as int);
    }
    let d: i128 = d_y12 * a + d_x21 * b;
    let s: i128 = d_y12 * d_x + d_x21 * d_y;
    let t: i128 = c * d_x + a * d_y;
    if d < 0 {
        s <= 0 && t <= 0 && s + t >= d
    } else {
        s >= 0 && t >= 0 && s + t <= d
    }
}

/// The product of two numbers of below 35 bits has below 70 bits.
pub proof fn lemma_product_bound(a: int, b: int)
    requires
        -0x4_0000_0000 <= a <= 0x4_0000_0000,
        -0x4_0000_0000 <= b <= 0x4_0000_0000,
    ensures
        -0x10_0000_0000_0000_0000 <= a * b <= 0x10_0000_0000_0000_0000,
{
    assert(-0x10_0000_0000_0000_0000 <= a * b <= 0x10_0000_0000_0000_0000) by (nonlinear_arith)
        requires
            -0x4_0000_0000 <= a <= 0x4_0000_0000,
            -0x4_0000_0000 <= b <= 0x4_0000_0000,
    ;
}

impl TriangleRasterizerIter {
    /// The number of columns that the walk covers.
    pub open spec fn width(&self) -> int {
        at_least_one(self.size_x as int)
    }

    /// The number of rows that the walk covers.
    pub open spec fn height(&self) -> int {
        at_least_one(self.size_y as int)
    }

    /// The walk stands on a cell of its rectangle, or has ended.
    pub open spec fn wf(&self) -> bool {
        &&& self.shift.x == least3(self.pt1.x as int, self.pt2.x as int, self.pt3.x as int)
        &&& self.shift.y == least3(self.pt1.y as int, self.pt2.y as int, self.pt3.y as int)
        &&& self.size_x == most3(self.pt1.x as int, self.pt2.x as int, self.pt3.x as int)
            - self.shift.x
        &&& self.size_y == most3(self.pt1.y as int, self.pt2.y as int, self.pt3.y as int)
            - self.shift.y
        &&& 0 <= self.cur_x < self.width()
        &&& 0 <= self.cur_y <= self.height()
        &&& self.ended <==> self.cur_y >= self.height()
    }

    /// The pixels still to come.
    pub open spec fn remaining(&self) -> Seq<IVec2> {
        triangle_rest(
            self.pt1,
            self.pt2,
            self.pt3,
            self.shift,
            self.width(),
            self.height(),
            self.cur_x as int,
            self.cur_y as int,
        )
    }

    /// A walk over the pixels of the triangle with the given corners.
    pub fn iterate(pt1: IVec2, pt2: IVec2, pt3: IVec2) -> (iter: Self)
        ensures
            iter.wf(),
            iter.pt1 == pt1,
            iter.pt2 == pt2,
            iter.pt3 == pt3,
            iter.remaining() == triangle_points(pt1, pt2, pt3),
    {
        let boundary_left = min3(pt1.x, pt2.x, pt3.x);
        let boundary_right = max3(pt1.x, pt2.x, pt3.x);
        let boundary_top = min3(pt1.y, pt2.y, pt3.y);
        let boundary_bottom = max3(pt1.y, pt2.y, pt3.y);
        TriangleRasterizerIter {
            pt1,
            pt2,
            pt3,
            shift: IVec2 { x: boundary_left, y: boundary_top },
            size_x: boundary_right as i64 - boundary_left as i64,
            size_y: boundary_bottom as i64 - boundary_top as i64,
            cur_x: 0,
            cur_y: 0,
            ended: false,
        }
    }

    /// Steps to the next cell of the rectangle, row by row.
    fn step(&mut self)
        requires
            old(self).wf(),
            !old(self).ended,
        ensures
            final(self).wf(),
            final(self).pt1 == old(self).pt1,
            final(self).pt2 == old(self).pt2,
            final(self).pt3 == old(self).pt3,
            final(self).shift == old(self).shift,
            final(self).size_x == old(self).size_x,
            final(self).size_y == old(self).size_y,
            old(self).cur_x + 1 < old(self).width() ==> final(self).cur_x == old(self).cur_x + 1
                && final(self).cur_y == old(self).cur_y,
            old(self).cur_x + 1 >= old(self).width() ==> final(self).cur_x == 0 && final(self).cur_y
                == old(self).cur_y + 1,
    {
        self.cur_x += 1;
        if self.cur_x >= self.size_x {
            self.cur_x = 0;
            self.cur_y += 1;
            if self.cur_y >= self.size_y {
                self.ended = true;
            }
        }
    }

    /// The next pixel of the triangle, if any is left.
    pub fn next(&mut self) -> (item: Option<TriangleRasterizerItem>)
        requires
            old(self).wf(),
        ensures
            final(self).wf(),
            final(self).pt1 == old(self).pt1,
            final(self).pt2 == old(self).pt2,
            final(self).pt3 == old(self).pt3,
            old(self).remaining().len() == 0 ==> item is None && final(self).remaining().len() == 0,
            old(self).remaining().len() > 0 ==> item == Some(
                TriangleRasterizerItem { pos: old(self).remaining()[0] },
            ) && final(self).remaining() == old(self).remaining().skip(1),
    {
        while !self.ended
            invariant
                self.wf(),
                self.pt1 == old(self).pt1,
                self.pt2 == old(self).pt2,
                self.pt3 == old(self).pt3,
                self.remaining() == old(self).remaining(),
            decreases self.height() - self.cur_y, self.width() - self.cur_x,
        {
            let x: i64 = self.shift.x as i64 + self.cur_x;
            let y: i64 = self.shift.y as i64 + self.cur_y;
            let ghost before = self.remaining();
            if is_in_triangle(x, y, self.pt1, self.pt2, self.pt3) {
                let pos = IVec2 { x: x as i32, y: y as i32 };
                self.step();
                proof {
                    assert(before =~= seq![pos] + self.remaining());
                    assert(self.remaining() =~= before.skip(1));
                }
                return Some(TriangleRasterizerItem { pos });
            }
            self.step();
            proof {
                assert(before =~= self.remaining());
            }
        }
        None
    }
}

/// The least of three numbers.
pub fn min3(a: i32, b: i32, c: i32) -> (m: i32)
    ensures
        m == least3(a as int, b as int, c as int),
{
    if a <= b && a <= c {
        a
    } else if b <= c {
        b
    } else {
        c
    }
}

/// The largest of three numbers.
pub fn max3(a: i32, b: i32, c: i32) -> (m: i32)
    ensures
        m == most3(a as int, b as int, c as int),
{
    if a >= b && a >= c {
        a
    } else if b >= c {
        b
    } else {
        c
    }
}

} // verus!
