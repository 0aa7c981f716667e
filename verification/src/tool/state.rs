//! The state of the line tool: where the line began, where it ends now, and
//! which pixels of the overlay it covers.

use vstd::prelude::*;
use crate::chunk::compositor::LayerID;
use crate::pixel::{ColorRGB, ColorRGBA, GlobalPixelRGBA};
use crate::point_set::{first_seen, PointSet};
use crate::tool::brush::{BrushShape, BrushShapeIterCell, ShapeType};
use crate::tool::iter::{line_len, line_point, line_points, LineMoveIter};
use crate::tool::iter_triangle::{triangle_points, TriangleRasterizerIter};
use crate::tool::paint::pixel_pos;
use crate::tool::reach::{clamp, clamp_coord};
use crate::util::{distance_squared_int32, manhattan};
use crate::vector::IVec2;

verus! {

/// A line that is being drawn on an overlay.
pub struct ToolStateLine {
    pub start_pos: IVec2,
    pub target_prev: Option<IVec2>,
    pub layer_id: LayerID,
    pub affected_pixels: PointSet,
}

/// What the tool of a session holds between two movements of the cursor.
pub enum ToolState {
    Idle,
    Line(ToolStateLine),
}

/// Longest line, in Manhattan distance, that is drawn.
pub const LINE_MAX_DISTANCE: i64 = 2000;

/// The position `by` away from `pos`, kept on the canvas.
pub open spec fn moved(pos: IVec2, dx: int, dy: int) -> IVec2 {
    IVec2 { x: clamp_coord(pos.x + dx), y: clamp_coord(pos.y + dy) }
}

/// The pixels of the first `n` cells of a disk of `size`, once around
/// `start` and once around `target`, as far as they lie on the canvas.
pub open spec fn cap_points(
    start: IVec2,
    target: IVec2,
    cells: Seq<BrushShapeIterCell>,
    size: int,
    n: int,
) -> Seq<IVec2>
    decreases n,
{
    if n <= 0 {
        Seq::empty()
    } else {
        let before = cap_points(start, target, cells, size, n - 1);
        let dx = cells[n - 1].local_x - size / 2;
        let dy = cells[n - 1].local_y - size / 2;
        let first = match pixel_pos(start.x + dx, start.y + dy) {
            Some(p) => before.push(p),
            None => before,
        };
        match pixel_pos(target.x + dx, target.y + dy) {
            Some(p) => first.push(p),
            None => first,
        }
    }
}

/// The width of a thick line, made even.
pub open spec fn even_size(size: u8) -> int {
    (size / 2) * 2
}

/// The pixels that a thick line from `start` to `target` is made of, in the
/// order in which they are drawn: the two triangles of its body, the disks
/// at its two ends, and its two long edges. `side` is half the width of the
/// line, at a right angle to it.
pub open spec fn thick_line_points(start: IVec2, target: IVec2, size: u8, side: IVec2) -> Seq<IVec2> {
    let cur_left = moved(start, -side.x, -side.y);
    let cur_right = moved(start, side.x as int, side.y as int);
    let next_left = moved(target, -side.x, -side.y);
    let next_right = moved(target, side.x as int, side.y as int);
    let disk = crate::tool::brush::cells_from(
        crate::tool::brush::shape_data(ShapeType::Circle, even_size(size), true),
        even_size(size),
        0,
    );
    triangle_points(cur_left, next_left, next_right) + triangle_points(
        cur_left,
        next_right,
        cur_right,
    ) + cap_points(start, target, disk, even_size(size), disk.len() as int) + line_points(
        cur_left,
        next_left,
    ) + line_points(cur_right, next_right)
}

/// The pixels that a line of `size` from `start` to `target` is made of.
pub open spec fn line_tool_points(start: IVec2, target: IVec2, size: u8, side: IVec2) -> Seq<IVec2> {
    if size <= 1 {
        line_points(start, target)
    } else {
        thick_line_points(start, target, size, side)
    }
}

/// The pixels of `points`, all in `color`.
pub open spec fn colored(points: Seq<IVec2>, color: ColorRGBA) -> Seq<GlobalPixelRGBA> {
    points.map_values(|p: IVec2| GlobalPixelRGBA { pos: p, color })
}

/// The pixel `p` as the overlay is to show it once the line covers `now`:
/// in `color` where the line covers it, transparent else.
pub open spec fn shown_pixel(now: Seq<IVec2>, p: IVec2, color: ColorRGBA) -> GlobalPixelRGBA {
    GlobalPixelRGBA {
        pos: p,
        color: if now.contains(p) {
            color
        } else {
            ColorRGBA { r: 0, g: 0, b: 0, a: 0 }
        },
    }
}

/// The pixels `before` as the overlay is to show them once the line covers
/// `now`.
pub open spec fn reshown(before: Seq<IVec2>, now: Seq<IVec2>, color: ColorRGBA) -> Seq<
    GlobalPixelRGBA,
> {
    before.map_values(|p: IVec2| shown_pixel(now, p, color))
}

/// The pixels of `now` that `before` does not hold, in order.
pub open spec fn newly_covered(before: Seq<IVec2>, now: Seq<IVec2>) -> Seq<IVec2> {
    now.filter(|p: IVec2| !before.contains(p))
}

/// What the overlay is told when the line moves: every pixel that the line
/// covered before, transparent where the line has left it and in `color`
/// where it still covers it, and then every pixel that it covers newly, in
/// `color`.
pub open spec fn line_update(before: Seq<IVec2>, now: Seq<IVec2>, color: ColorRGBA) -> Seq<
    GlobalPixelRGBA,
> {
    reshown(before, now, color) + colored(newly_covered(before, now), color)
}

impl ToolStateLine {
    /// The set of covered pixels is in order.
    pub open spec fn wf(&self) -> bool {
        self.affected_pixels.wf()
    }

    /// The line is drawn anew when its end moves to `target`: it was not
    /// drawn yet, or the end has moved and the line is no longer than 2000
    /// pixels in Manhattan distance.
    pub open spec fn redrawn(&self, target: IVec2) -> bool {
        self.target_prev is None || (manhattan(target, self.start_pos) <= 2000 && self.target_prev
            != Some(target))
    }

    /// The pixels that the line covers once its end has moved to `target`.
    pub open spec fn cover(&self, target: IVec2, size: u8, side_step: IVec2) -> Seq<IVec2> {
        if self.redrawn(target) {
            first_seen(line_tool_points(self.start_pos, target, size, side_step))
        } else {
            self.affected_pixels.points@
        }
    }

    /// A line that begins at `start_pos` and covers nothing yet.
    pub fn new(start_pos: IVec2, layer_id: LayerID) -> (state: Self)
        ensures
            state.wf(),
            state.start_pos == start_pos,
            state.layer_id == layer_id,
            state.target_prev is None,
            state.affected_pixels.points@.len() == 0,
    {
        ToolStateLine { start_pos, layer_id, target_prev: None, affected_pixels: PointSet::new() }
    }

    /// The covered pixels, all in `color`.
    pub fn gen_global_pixel_vec_rgba(&self, color: ColorRGBA) -> (pixels: Vec<GlobalPixelRGBA>)
        ensures
            pixels@ == colored(self.affected_pixels.points@, color),
    {
        let mut pixels: Vec<GlobalPixelRGBA> = Vec::with_capacity(self.affected_pixels.points.len());
        let mut i: usize = 0;
        while i < self.affected_pixels.points.len()
            invariant
                i <= self.affected_pixels.points@.len(),
                pixels@ == colored(self.affected_pixels.points@.take(i as int), color),
            decreases self.affected_pixels.points@.len() - i,
        {
            pixels.push(GlobalPixelRGBA { pos: self.affected_pixels.points[i], color });
            assert(pixels@ =~= colored(self.affected_pixels.points@.take(i as int + 1), color));
            i += 1;
        }
        assert(self.affected_pixels.points@.take(self.affected_pixels.points@.len() as int)
            =~= self.affected_pixels.points@);
        pixels
    }

    /// Lets the line cover the pixels of the line from `from` to `to`.
    fn write_line_iter(&mut self, from: IVec2, to: IVec2, Ghost(fed): Ghost<Seq<IVec2>>)
        requires
            old(self).wf(),
            old(self).affected_pixels.points@ == first_seen(fed),
        ensures
            final(self).wf(),
            final(self).affected_pixels.points@ == first_seen(fed + line_points(from, to)),
            final(self).start_pos == old(self).start_pos,
            final(self).target_prev == old(self).target_prev,
            final(self).layer_id == old(self).layer_id,
    {
        let mut iter = LineMoveIter::iterate(from, to);
        let ghost mut n: int = 0;
        assert(fed + line_points(from, to).take(0) =~= fed);
        loop
            invariant
                self.wf(),
                iter.wf(),
                iter.start == from,
                iter.end == to,
                n == iter.index(),
                0 <= n <= line_len(from, to),
                self.affected_pixels.points@ == first_seen(fed + line_points(from, to).take(n)),
                self.start_pos == old(self).start_pos,
                self.target_prev == old(self).target_prev,
                self.layer_id == old(self).layer_id,
            decreases line_len(from, to) - n,
        {
            match iter.next() {
                Some(line) => {
                    self.affected_pixels.insert(line.pos);
                    proof {
                        let more = fed + line_points(from, to).take(n + 1);
                        assert(more.drop_last() =~= fed + line_points(from, to).take(n));
                        assert(more.last() == line.pos);
                        n = n + 1;
                    }
                },
                None => {
                    proof {
                        assert(line_points(from, to).take(n) =~= line_points(from, to));
                    }
                    return ;
                },
            }
        }
    }

    /// Lets the line cover the pixels of the triangle with the given
    /// corners.
    fn write_triangle(&mut self, pt1: IVec2, pt2: IVec2, pt3: IVec2, Ghost(fed): Ghost<Seq<IVec2>>)
        requires
            old(self).wf(),
            old(self).affected_pixels.points@ == first_seen(fed),
        ensures
            final(self).wf(),
            final(self).affected_pixels.points@ == first_seen(fed + triangle_points(pt1, pt2, pt3)),
            final(self).start_pos == old(self).start_pos,
            final(self).target_prev == old(self).target_prev,
            final(self).layer_id == old(self).layer_id,
    {
        let ghost all = triangle_points(pt1, pt2, pt3);
        let mut iter = TriangleRasterizerIter::iterate(pt1, pt2, pt3);
        let ghost mut n: int = 0;
        assert(fed + all.take(0) =~= fed);
        assert(all.skip(0) =~= all);
        loop
            invariant
                self.wf(),
                iter.wf(),
                all == triangle_points(pt1, pt2, pt3),
                0 <= n <= all.len(),
                iter.remaining() == all.skip(n),
                self.affected_pixels.points@ == first_seen(fed + all.take(n)),
                self.start_pos == old(self).start_pos,
                self.target_prev == old(self).target_prev,
                self.layer_id == old(self).layer_id,
            decreases iter.remaining().len(),
        {
            match iter.next() {
                Some(item) => {
                    self.affected_pixels.insert(item.pos);
                    proof {
                        assert(all.skip(n)[0] == all[n]);
                        assert(all.skip(n).skip(1) =~= all.skip(n + 1));
                        let more = fed + all.take(n + 1);
                        assert(more.drop_last() =~= fed + all.take(n));
                        assert(more.last() == item.pos);
                        n = n + 1;
                    }
                },
                None => {
                    proof {
                        assert(all.skip(n).len() == 0);
                        assert(all.take(n) =~= all);
                    }
                    return ;
                },
            }
        }
    }

    /// Lets the line cover a disk of `size` around each of its two ends.
    fn write_caps(&mut self, target: IVec2, size: u8, Ghost(fed): Ghost<Seq<IVec2>>)
        requires
            old(self).wf(),
            old(self).affected_pixels.points@ == first_seen(fed),
        ensures
            final(self).wf(),
            final(self).affected_pixels.points@ == first_seen(
                fed + cap_points(
                    old(self).start_pos,
                    target,
                    crate::tool::brush::cells_from(
                        crate::tool::brush::shape_data(ShapeType::Circle, size as int, true),
                        size as int,
                        0,
                    ),
                    size as int,
                    crate::tool::brush::cells_from(
                        crate::tool::brush::shape_data(ShapeType::Circle, size as int, true),
                        size as int,
                        0,
                    ).len() as int,
                ),
            ),
            final(self).start_pos == old(self).start_pos,
            final(self).target_prev == old(self).target_prev,
            final(self).layer_id == old(self).layer_id,
    {
        let shape = BrushShape::new(&ShapeType::Circle, size, true);
        let ghost cells = shape.cells();
        let start = self.start_pos;
        let half: i64 = (size / 2) as i64;
        let mut iter = shape.iterate();
        let ghost mut n: int = 0;
        assert(fed + cap_points(start, target, cells, size as int, 0) =~= fed);
        loop
            invariant
                self.wf(),
                iter.wf(),
                iter.shape == &shape,
                cells == shape.cells(),
                shape.size == size,
                shape.data@ == crate::tool::brush::shape_data(ShapeType::Circle, size as int, true),
                half == size as int / 2,
                start == old(self).start_pos,
                0 <= n <= cells.len(),
                iter@ == cells.skip(n),
                self.affected_pixels.points@ == first_seen(
                    fed + cap_points(start, target, cells, size as int, n),
                ),
                self.start_pos == old(self).start_pos,
                self.target_prev == old(self).target_prev,
                self.layer_id == old(self).layer_id,
            decreases cells.len() - n,
        {
            match iter.next() {
                Some(pt) => {
                    proof {
                        assert(cells.skip(n)[0] == cells[n]);
                        assert(cells.skip(n).skip(1) =~= cells.skip(n + 1));
                    }
                    let dx: i64 = pt.local_x as i64 - half;
                    let dy: i64 = pt.local_y as i64 - half;
                    let ghost before = cap_points(start, target, cells, size as int, n);
                    let ghost mut so_far = fed + before;
                    let ax: i64 = start.x as i64 + dx;
                    let ay: i64 = start.y as i64 + dy;
                    if crate::tool::blend::on_canvas(ax, ay) {
                        let p = IVec2 { x: ax as i32, y: ay as i32 };
                        self.affected_pixels.insert(p);
                        proof {
                            assert((so_far.push(p)).drop_last() =~= so_far);
                            assert((so_far.push(p)).last() == p);
                            so_far = so_far.push(p);
                        }
                    }
                    assert(self.affected_pixels.points@ == first_seen(so_far));
                    let bx: i64 = target.x as i64 + dx;
                    let by: i64 = target.y as i64 + dy;
                    if crate::tool::blend::on_canvas(bx, by) {
                        let p = IVec2 { x: bx as i32, y: by as i32 };
                        self.affected_pixels.insert(p);
                        proof {
                            assert((so_far.push(p)).drop_last() =~= so_far);
                            assert((so_far.push(p)).last() == p);
                            so_far = so_far.push(p);
                        }
                    }
                    assert(self.affected_pixels.points@ == first_seen(so_far));
                    proof {
                        assert(so_far =~= fed + cap_points(start, target, cells, size as int, n + 1));
                        n = n + 1;
                    }
                },
                None => {
                    proof {
                        assert(cells.skip(n).len() == 0);
                        assert(cells == crate::tool::brush::cells_from(
                            crate::tool::brush::shape_data(ShapeType::Circle, size as int, true),
                            size as int,
                            0,
                        ));
                    }
                    return ;
                },
            }
        }
    }

    /// Lets the line cover the pixels of a line one pixel wide to `target`.
    fn gen_pixels_1px(&mut self, target: IVec2)
        requires
            old(self).wf(),
            old(self).affected_pixels.points@.len() == 0,
        ensures
            final(self).wf(),
            final(self).affected_pixels.points@ == first_seen(
                line_points(old(self).start_pos, target),
            ),
            final(self).start_pos == old(self).start_pos,
            final(self).target_prev == old(self).target_prev,
            final(self).layer_id == old(self).layer_id,
    {
        let start = self.start_pos;
        assert(self.affected_pixels.points@ =~= first_seen(Seq::<IVec2>::empty()));
        self.write_line_iter(start, target, Ghost(Seq::empty()));
        assert(Seq::<IVec2>::empty() + line_points(start, target) =~= line_points(start, target));
    }

    /// Lets the line cover the pixels of a thick line to `target`.
    fn gen_pixels_thick(&mut self, target: IVec2, size: u8, side_step: IVec2)
        requires
            old(self).wf(),
            old(self).affected_pixels.points@.len() == 0,
        ensures
            final(self).wf(),
            final(self).affected_pixels.points@ == first_seen(
                thick_line_points(old(self).start_pos, target, size, side_step),
            ),
            final(self).start_pos == old(self).start_pos,
            final(self).target_prev == old(self).target_prev,
            final(self).layer_id == old(self).layer_id,
    {
        let size = (size / 2) * 2;
        let start = self.start_pos;
        let sx = side_step.x as i64;
        let sy = side_step.y as i64;
        let cur_left = IVec2 { x: clamp(start.x as i64 - sx), y: clamp(start.y as i64 - sy) };
        let cur_right = IVec2 { x: clamp(start.x as i64 + sx), y: clamp(start.y as i64 + sy) };
        let next_left = IVec2 { x: clamp(target.x as i64 - sx), y: clamp(target.y as i64 - sy) };
        let next_right = IVec2 { x: clamp(target.x as i64 + sx), y: clamp(target.y as i64 + sy) };
        let ghost f0 = Seq::<IVec2>::empty();
        assert(self.affected_pixels.points@ =~= first_seen(f0));
        self.write_triangle(cur_left, next_left, next_right, Ghost(f0));
        let ghost f1 = f0 + triangle_points(cur_left, next_left, next_right);
        self.write_triangle(cur_left, next_right, cur_right, Ghost(f1));
        let ghost f2 = f1 + triangle_points(cur_left, next_right, cur_right);
        self.write_caps(target, size, Ghost(f2));
        let ghost disk = crate::tool::brush::cells_from(
            crate::tool::brush::shape_data(ShapeType::Circle, size as int, true),
            size as int,
            0,
        );
        let ghost f3 = f2 + cap_points(start, target, disk, size as int, disk.len() as int);
        self.write_line_iter(cur_left, next_left, Ghost(f3));
        let ghost f4 = f3 + line_points(cur_left, next_left);
        self.write_line_iter(cur_right, next_right, Ghost(f4));
        proof {
            assert(f4 + line_points(cur_right, next_right) =~= thick_line_points(
                start,
                target,
                size,
                side_step,
            ));
            assert(thick_line_points(start, target, size, side_step) == thick_line_points(
                start,
                target,
                (size / 2 * 2) as u8,
                side_step,
            ));
        }
    }

    /// Lets the line cover the pixels of a line of `size` to `target`.
    fn gen_pixels(&mut self, target: IVec2, size: u8, side_step: IVec2)
        requires
            old(self).wf(),
            old(self).affected_pixels.points@.len() == 0,
        ensures
            final(self).wf(),
            final(self).affected_pixels.points@ == first_seen(
                line_tool_points(old(self).start_pos, target, size, side_step),
            ),
            final(self).start_pos == old(self).start_pos,
            final(self).target_prev == old(self).target_prev,
            final(self).layer_id == old(self).layer_id,
    {
        if size <= 1 {
            self.gen_pixels_1px(target);
        } else {
            self.gen_pixels_thick(target, size, side_step);
        }
    }

    /// Moves the end of the line to `target` and says what the overlay is to
    /// Moves the end of the line to `target` and says what the overlay is
    /// to show anew: see `line_update`. Nothing is to be shown anew where
    /// the end has not moved, or where the line would be longer than 2000
    /// pixels in Manhattan distance. `side_step` is half the width of the
    /// line, at a right angle to it.
    pub fn process(&mut self, target: IVec2, color: ColorRGB, size: u8, side_step: IVec2) -> (update:
        Option<Vec<GlobalPixelRGBA>>)
        requires
            old(self).wf(),
        ensures
            final(self).wf(),
            final(self).start_pos == old(self).start_pos,
            final(self).layer_id == old(self).layer_id,
            final(self).target_prev == Some(target),
            final(self).affected_pixels.points@ == old(self).cover(target, size, side_step),
            update is Some <==> old(self).redrawn(target),
            update matches Some(pixels) ==> pixels@ == line_update(
                old(self).affected_pixels.points@,
                old(self).cover(target, size, side_step),
                ColorRGBA { r: color.r, g: color.g, b: color.b, a: 255 },
            ),
    {
        match self.target_prev {
            Some(target_prev) => {
                if distance_squared_int32(target, self.start_pos) > LINE_MAX_DISTANCE {
                    self.target_prev = Some(target);
                    return None;
                }
                if target_prev == target {
                    return None;
                }
            },
            None => {},
        }
        self.target_prev = Some(target);
        let mut before = PointSet::new();
        std::mem::swap(&mut before, &mut self.affected_pixels);
        self.gen_pixels(target, size, side_step);
        let paint = ColorRGBA { r: color.r, g: color.g, b: color.b, a: 255 };
        let ghost now = self.affected_pixels.points@;
        let ghost want = line_update(before.points@, now, paint);
        let mut out: Vec<GlobalPixelRGBA> = Vec::new();
        let mut i: usize = 0;
        assert(out@ =~= reshown(before.points@.take(0), now, paint));
        while i < before.points.len()
            invariant
                i <= before.points@.len(),
                before.wf(),
                self.wf(),
                now == self.affected_pixels.points@,
                out@ == reshown(before.points@.take(i as int), now, paint),
            decreases before.points@.len() - i,
        {
            let p = before.points[i];
            let kept = self.affected_pixels.contains(p);
            out.push(
                GlobalPixelRGBA {
                    pos: p,
                    color: if kept {
                        paint
                    } else {
                        ColorRGBA::zero()
                    },
                },
            );
            assert(out@ =~= reshown(before.points@.take(i as int + 1), now, paint));
            i += 1;
        }
        assert(before.points@.take(before.points@.len() as int) =~= before.points@);
        let ghost cleared = out@;
        let ghost fresh = |p: IVec2| !before.points@.contains(p);
        let mut k: usize = 0;
        proof {
            crate::seq_facts::lemma_filter_none(now, fresh);
            assert(out@ =~= cleared + colored(newly_covered(before.points@, now.take(0)), paint));
        }
        while k < self.affected_pixels.points.len()
            invariant
                k <= now.len(),
                before.wf(),
                self.wf(),
                now == self.affected_pixels.points@,
                fresh == (|p: IVec2| !before.points@.contains(p)),
                out@ == cleared + colored(newly_covered(before.points@, now.take(k as int)), paint),
            decreases now.len() - k,
        {
            let p = self.affected_pixels.points[k];
            proof {
                crate::seq_facts::lemma_filter_step(now, fresh, k as int);
            }
            if !before.contains(p) {
                out.push(GlobalPixelRGBA { pos: p, color: paint });
                assert(out@ =~= cleared + colored(
                    newly_covered(before.points@, now.take(k as int + 1)),
                    paint,
                ));
            }
            k += 1;
        }
        assert(now.take(now.len() as int) =~= now);
        assert(out@ =~= want);
        Some(out)
    }
}

} // verus!
