//! The brushes that paint without reading the canvas: the round and the
//! square brush, and the spray.

use vstd::prelude::*;
use crate::pixel::{ColorRGBA, GlobalPixelRGBA};
use crate::tool::brush::{lemma_cells_from_len, BrushShape, BrushShapeIterCell};
use crate::tool::iter::{line_len, line_point, line_points, LineMoveIter};
use crate::vector::IVec2;

verus! {

/// The position `(x, y)`, where both coordinates are pixel coordinates.
pub open spec fn pixel_pos(x: int, y: int) -> Option<IVec2> {
    if -0x8000_0000 <= x <= 0x7FFF_FFFF && -0x8000_0000 <= y <= 0x7FFF_FFFF {
        Some(IVec2 { x: x as i32, y: y as i32 })
    } else {
        None
    }
}

/// `pixels` with one more pixel of `color` at `(x, y)`, where that is a
/// position of the canvas.
pub open spec fn with_pixel(pixels: Seq<GlobalPixelRGBA>, x: int, y: int, color: ColorRGBA) -> Seq<
    GlobalPixelRGBA,
> {
    match pixel_pos(x, y) {
        Some(pos) => pixels.push(GlobalPixelRGBA { pos, color }),
        None => pixels,
    }
}

/// `pixels` with the first `n` cells of a shape of `size` stamped in
/// `color`, the centre cell of the shape on `center`.
pub open spec fn stamped(
    pixels: Seq<GlobalPixelRGBA>,
    center: IVec2,
    cells: Seq<BrushShapeIterCell>,
    size: int,
    color: ColorRGBA,
    n: int,
) -> Seq<GlobalPixelRGBA>
    decreases n,
{
    if n <= 0 {
        pixels
    } else {
        with_pixel(
            stamped(pixels, center, cells, size, color, n - 1),
            center.x + cells[n - 1].local_x - size / 2,
            center.y + cells[n - 1].local_y - size / 2,
            color,
        )
    }
}

/// `pixels` with one dab of a brush at `center`: one pixel for size 1, a
/// plus of five pixels for size 2, else the cells of the shape.
pub open spec fn dabbed(
    pixels: Seq<GlobalPixelRGBA>,
    center: IVec2,
    cells: Seq<BrushShapeIterCell>,
    size: int,
    color: ColorRGBA,
) -> Seq<GlobalPixelRGBA> {
    if size == 1 {
        with_pixel(pixels, center.x as int, center.y as int, color)
    } else if size == 2 {
        with_pixel(
            with_pixel(
                with_pixel(
                    with_pixel(
                        with_pixel(pixels, center.x as int, center.y as int, color),
                        center.x - 1,
                        center.y as int,
                        color,
                    ),
                    center.x + 1,
                    center.y as int,
                    color,
                ),
                center.x as int,
                center.y - 1,
                color,
            ),
            center.x as int,
            center.y + 1,
            color,
        )
    } else {
        stamped(pixels, center, cells, size, color, cells.len() as int)
    }
}

/// The pixels that a brush paints along the first `n` pixels of the line
/// from `from` to `to`: a dab at every `step`-th pixel of the line, the
/// first with the filled shape and the others with the outline.
pub open spec fn brush_stroke(
    from: IVec2,
    to: IVec2,
    filled: Seq<BrushShapeIterCell>,
    outline: Seq<BrushShapeIterCell>,
    size: int,
    color: ColorRGBA,
    n: int,
) -> Seq<GlobalPixelRGBA>
    decreases n,
{
    if n <= 0 {
        Seq::empty()
    } else {
        let before = brush_stroke(from, to, filled, outline, size, color, n - 1);
        if (n - 1) % (1 + size / 6) != 0 {
            before
        } else {
            dabbed(
                before,
                line_point(from, to, n - 1),
                if n == 1 {
                    filled
                } else {
                    outline
                },
                size,
                color,
            )
        }
    }
}

/// Whether a roll of the dice paints a pixel of the spray: its upper 23
/// bits are at most `threshold`.
pub open spec fn spray_hit(roll: u32, threshold: u32) -> bool {
    roll / 512 <= threshold
}

/// The pixels that the spray paints on the first `n` candidates, where the
/// candidates are the cells of the disk at each pixel of the line from
/// `from` to `to` in turn, and candidate number `j` is painted where roll
/// number `j` hits.
pub open spec fn sprayed(
    from: IVec2,
    to: IVec2,
    cells: Seq<BrushShapeIterCell>,
    size: int,
    color: ColorRGBA,
    threshold: u32,
    rolls: Seq<u32>,
    n: int,
) -> Seq<GlobalPixelRGBA>
    decreases n,
{
    if n <= 0 || cells.len() == 0 {
        Seq::empty()
    } else {
        let before = sprayed(from, to, cells, size, color, threshold, rolls, n - 1);
        let center = line_point(from, to, (n - 1) / cells.len() as int);
        let cell = cells[(n - 1) % cells.len() as int];
        if spray_hit(rolls[n - 1], threshold) {
            with_pixel(
                before,
                center.x + cell.local_x - size / 2,
                center.y + cell.local_y - size / 2,
                color,
            )
        } else {
            before
        }
    }
}

/// Appends the pixel `(x, y)` in `color`, where that is a position of the
/// canvas.
pub fn push_pixel(pixels: &mut Vec<GlobalPixelRGBA>, x: i64, y: i64, color: ColorRGBA)
    ensures
        final(pixels)@ == with_pixel(old(pixels)@, x as int, y as int, color),
{
    if -0x8000_0000 <= x && x <= 0x7FFF_FFFF && -0x8000_0000 <= y && y <= 0x7FFF_FFFF {
        GlobalPixelRGBA::insert_to_vec(pixels, x as i32, y as i32, color);
    }
}

/// Stamps the cells of `shape` in `color`, the centre cell on `center`.
pub fn stamp(pixels: &mut Vec<GlobalPixelRGBA>, center: IVec2, shape: &BrushShape, color: ColorRGBA)
    requires
        shape.wf(),
    ensures
        final(pixels)@ == stamped(
            old(pixels)@,
            center,
            shape.cells(),
            shape.size as int,
            color,
            shape.cells().len() as int,
        ),
{
    let ghost cells = shape.cells();
    let mut iter = shape.iterate();
    let ghost mut n: int = 0;
    let half: i64 = (shape.size / 2) as i64;
    loop
        invariant
            iter.wf(),
            iter.shape == shape,
            cells == shape.cells(),
            half == shape.size as int / 2,
            0 <= n <= cells.len(),
            iter@ == cells.skip(n),
            pixels@ == stamped(old(pixels)@, center, cells, shape.size as int, color, n),
        decreases cells.len() - n,
    {
        match iter.next() {
            Some(s) => {
                proof {
                    assert(cells.skip(n)[0] == cells[n]);
                    assert(cells.skip(n).skip(1) =~= cells.skip(n + 1));
                }
                push_pixel(
                    pixels,
                    center.x as i64 + s.local_x as i64 - half,
                    center.y as i64 + s.local_y as i64 - half,
                    color,
                );
                proof {
                    n = n + 1;
                }
            },
            None => {
                proof {
                    assert(cells.skip(n).len() == 0);
                }
                return ;
            },
        }
    }
}

/// One dab of a brush of `size` at `center`.
pub fn dab(
    pixels: &mut Vec<GlobalPixelRGBA>,
    center: IVec2,
    shape: &BrushShape,
    size: u8,
    color: ColorRGBA,
)
    requires
        shape.wf(),
        shape.size == size,
    ensures
        final(pixels)@ == dabbed(old(pixels)@, center, shape.cells(), size as int, color),
{
    let x = center.x as i64;
    let y = center.y as i64;
    if size == 1 {
        push_pixel(pixels, x, y, color);
    } else if size == 2 {
        push_pixel(pixels, x, y, color);
        push_pixel(pixels, x - 1, y, color);
        push_pixel(pixels, x + 1, y, color);
        push_pixel(pixels, x, y - 1, color);
        push_pixel(pixels, x, y + 1, color);
    } else {
        stamp(pixels, center, shape, color);
    }
}

/// The pixels that a brush of `tool_size` paints when the cursor moves from
/// `from` to `to`: a dab at every `1 + tool_size / 6`-th pixel of the line,
/// the first with `shape_filled`, the others with `shape_outline`.
pub fn brush_pixels(
    from: IVec2,
    to: IVec2,
    tool_size: u8,
    shape_filled: &BrushShape,
    shape_outline: &BrushShape,
    color: ColorRGBA,
) -> (pixels: Vec<GlobalPixelRGBA>)
    requires
        shape_filled.wf(),
        shape_outline.wf(),
        shape_filled.size == tool_size,
        shape_outline.size == tool_size,
    ensures
        pixels@ == brush_stroke(
            from,
            to,
            shape_filled.cells(),
            shape_outline.cells(),
            tool_size as int,
            color,
            line_len(from, to),
        ),
{
    let step: u64 = 1 + (tool_size / 6) as u64;
    let mut pixels: Vec<GlobalPixelRGBA> = Vec::new();
    let mut iter = LineMoveIter::iterate(from, to);
    let mut index: u64 = 0;
    loop
        invariant
            iter.wf(),
            iter.start == from,
            iter.end == to,
            shape_filled.wf(),
            shape_outline.wf(),
            shape_filled.size == tool_size,
            shape_outline.size == tool_size,
            step == 1 + tool_size as int / 6,
            index == iter.index(),
            index <= line_len(from, to),
            line_len(from, to) <= 0x1_0000_0000,
            pixels@ == brush_stroke(
                from,
                to,
                shape_filled.cells(),
                shape_outline.cells(),
                tool_size as int,
                color,
                index as int,
            ),
        decreases line_len(from, to) - index,
    {
        match iter.next() {
            Some(line) => {
                if index % step == 0 {
                    if index == 0 {
                        dab(&mut pixels, line.pos, shape_filled, tool_size, color);
                    } else {
                        dab(&mut pixels, line.pos, shape_outline, tool_size, color);
                    }
                }
                index += 1;
            },
            None => {
                return pixels;
            },
        }
    }
}

/// The pixels that the spray paints when the cursor moves from `from` to
/// `to`: at each pixel of the line, each cell of the disk `shape` for which
/// the next of `rolls` hits.
pub fn spray_pixels(
    from: IVec2,
    to: IVec2,
    shape: &BrushShape,
    color: ColorRGBA,
    threshold: u32,
    rolls: &Vec<u32>,
) -> (pixels: Vec<GlobalPixelRGBA>)
    requires
        shape.wf(),
        rolls@.len() == line_len(from, to) * shape.cells().len(),
    ensures
        pixels@ == sprayed(
            from,
            to,
            shape.cells(),
            shape.size as int,
            color,
            threshold,
            rolls@,
            rolls@.len() as int,
        ),
{
    let ghost cells = shape.cells();
    let ghost width = cells.len() as int;
    let half: i64 = (shape.size / 2) as i64;
    let mut pixels: Vec<GlobalPixelRGBA> = Vec::new();
    let mut line_iter = LineMoveIter::iterate(from, to);
    let total: usize = rolls.len();
    let mut used: usize = 0;
    let ghost mut a: int = 0;
    proof {
        assert(0 * width == 0) by (nonlinear_arith);
    }
    loop
        invariant
            line_iter.wf(),
            line_iter.start == from,
            line_iter.end == to,
            shape.wf(),
            cells == shape.cells(),
            width == cells.len(),
            half == shape.size as int / 2,
            a == line_iter.index(),
            0 <= a <= line_len(from, to),
            used == a * width,
            total == rolls@.len(),
            rolls@.len() == line_len(from, to) * width,
            pixels@ == sprayed(
                from,
                to,
                cells,
                shape.size as int,
                color,
                threshold,
                rolls@,
                used as int,
            ),
        decreases line_len(from, to) - a,
    {
        match line_iter.next() {
            Some(line) => {
                let mut cell_iter = shape.iterate();
                let ghost mut b: int = 0;
                proof {
                    assert((a + 1) * width == a * width + width) by (nonlinear_arith);
                    assert((a + 1) * width <= line_len(from, to) * width) by (nonlinear_arith)
                        requires
                            a + 1 <= line_len(from, to),
                            width >= 0,
                    ;
                }
                loop
                    invariant
                        cell_iter.wf(),
                        cell_iter.shape == shape,
                        cells == shape.cells(),
                        width == cells.len(),
                        half == shape.size as int / 2,
                        0 <= b <= width,
                        cell_iter@ == cells.skip(b),
                        used == a * width + b,
                        total == rolls@.len(),
                        a * width + width <= rolls@.len(),
                        line.pos == line_point(from, to, a),
                        0 <= a,
                        pixels@ == sprayed(
                            from,
                            to,
                            cells,
                            shape.size as int,
                            color,
                            threshold,
                            rolls@,
                            used as int,
                        ),
                    ensures
                        b == width,
                    decreases width - b,
                {
                    match cell_iter.next() {
                        Some(s) => {
                            proof {
                                assert(cells.skip(b)[0] == cells[b]);
                                assert(cells.skip(b).skip(1) =~= cells.skip(b + 1));
                                assert((a * width + b) / width == a && (a * width + b) % width == b)
                                    by (nonlinear_arith)
                                    requires
                                        0 <= b < width,
                                        0 <= a,
                                ;
                            }
                            assert(used < total);
                            let roll = rolls[used];
                            if roll / 512 <= threshold {
                                push_pixel(
                                    &mut pixels,
                                    line.pos.x as i64 + s.local_x as i64 - half,
                                    line.pos.y as i64 + s.local_y as i64 - half,
                                    color,
                                );
                            }
                            used += 1;
                            proof {
                                b = b + 1;
                            }
                        },
                        None => {
                            proof {
                                assert(cells.skip(b).len() == 0);
                            }
                            break ;
                        },
                    }
                }
                proof {
                    a = a + 1;
                }
            },
            None => {
                proof {
                    assert(a == line_len(from, to));
                }
                return pixels;
            },
        }
    }
}

} // verus!
