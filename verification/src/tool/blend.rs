//! The tools that read the canvas and blend into it: blur, smooth brush
//! and smudge.

use vstd::prelude::*;
use crate::canvas_cache::CanvasCache;
use crate::chunk::system::{chunk_pos_of, ChunkSystem};
use crate::pixel::{blend_spec, ColorRGB, ColorRGBA, GlobalPixelRGBA};
use crate::tool::brush::{BrushShape, BrushShapeIterCell};
use crate::tool::iter::{line_len, line_point, LineMoveIter};
use crate::tool::paint::{pixel_pos, push_pixel, with_pixel};
use crate::tool::reach::{
    lemma_line_point_between, lemma_line_points_adjacent, lemma_reach_loaded, reach_around, Reach,
};
use crate::vector::IVec2;

verus! {

/// What a tool sees of the canvas: a colour at every position.
pub type Sight = spec_fn(IVec2) -> ColorRGB;

/// The colour with full opacity.
pub open spec fn opaque(color: ColorRGB) -> ColorRGBA {
    ColorRGBA { r: color.r, g: color.g, b: color.b, a: 255 }
}

/// The colour without its opacity.
pub open spec fn plain(color: ColorRGBA) -> ColorRGB {
    ColorRGB { r: color.r, g: color.g, b: color.b }
}

/// `sight` with `color` at `pos`.
pub open spec fn sight_with(sight: Sight, pos: IVec2, color: ColorRGBA) -> Sight {
    |g: IVec2|
        if g == pos {
            plain(color)
        } else {
            sight(g)
        }
}

/// The pixel `(x, y)` and its four neighbours are positions of the canvas.
pub open spec fn has_neighbours(x: int, y: int) -> bool {
    -0x8000_0000 < x < 0x7FFF_FFFF && -0x8000_0000 < y < 0x7FFF_FFFF
}

/// The pixel `(x, y)` and its four neighbours lie in loaded chunks.
pub open spec fn neighbours_loaded(system: &ChunkSystem, x: int, y: int) -> bool {
    &&& system.is_loaded(chunk_pos_of(IVec2 { x: x as i32, y: y as i32 }))
    &&& system.is_loaded(chunk_pos_of(IVec2 { x: (x - 1) as i32, y: y as i32 }))
    &&& system.is_loaded(chunk_pos_of(IVec2 { x: (x + 1) as i32, y: y as i32 }))
    &&& system.is_loaded(chunk_pos_of(IVec2 { x: x as i32, y: (y - 1) as i32 }))
    &&& system.is_loaded(chunk_pos_of(IVec2 { x: x as i32, y: (y + 1) as i32 }))
}

/// The blurred colour of the pixel `(x, y)`: the even blend of its four
/// neighbours, blended over the pixel with weight `intensity`.
pub open spec fn blur_color(sight: Sight, x: int, y: int, intensity: u8) -> ColorRGBA {
    let center = opaque(sight(IVec2 { x: x as i32, y: y as i32 }));
    let left = opaque(sight(IVec2 { x: (x - 1) as i32, y: y as i32 }));
    let right = opaque(sight(IVec2 { x: (x + 1) as i32, y: y as i32 }));
    let top = opaque(sight(IVec2 { x: x as i32, y: (y - 1) as i32 }));
    let bottom = opaque(sight(IVec2 { x: x as i32, y: (y + 1) as i32 }));
    blend_spec(
        intensity,
        center,
        blend_spec(127, blend_spec(127, left, right), blend_spec(127, top, bottom)),
    )
}

/// The first `n` cells of the disk around `center`, as far as they have
/// neighbours on the canvas, lie with their neighbours in loaded chunks.
pub open spec fn blur_loaded(
    system: &ChunkSystem,
    center: IVec2,
    cells: Seq<BrushShapeIterCell>,
    size: int,
    n: int,
) -> bool
    decreases n,
{
    if n <= 0 {
        true
    } else {
        let x = center.x + cells[n - 1].local_x - size / 2;
        let y = center.y + cells[n - 1].local_y - size / 2;
        blur_loaded(system, center, cells, size, n - 1) && (has_neighbours(x, y)
            ==> neighbours_loaded(system, x, y))
    }
}

/// The pixels that the blur paints on the first `n` cells of the disk
/// around `center`: each cell that has neighbours on the canvas, in its
/// blurred colour.
pub open spec fn blurred(
    sight: Sight,
    center: IVec2,
    cells: Seq<BrushShapeIterCell>,
    size: int,
    intensity: u8,
    n: int,
) -> Seq<GlobalPixelRGBA>
    decreases n,
{
    if n <= 0 {
        Seq::empty()
    } else {
        let x = center.x + cells[n - 1].local_x - size / 2;
        let y = center.y + cells[n - 1].local_y - size / 2;
        let before = blurred(sight, center, cells, size, intensity, n - 1);
        if has_neighbours(x, y) {
            with_pixel(before, x, y, blur_color(sight, x, y, intensity))
        } else {
            before
        }
    }
}

/// Where the chunks are loaded for the cells of a disk, they are loaded for
/// the first of them.
pub proof fn lemma_blur_loaded_prefix(
    system: &ChunkSystem,
    center: IVec2,
    cells: Seq<BrushShapeIterCell>,
    size: int,
    fewer: int,
    n: int,
)
    requires
        0 <= fewer <= n,
        blur_loaded(system, center, cells, size, n),
    ensures
        blur_loaded(system, center, cells, size, fewer),
    decreases n,
{
    if fewer < n {
        lemma_blur_loaded_prefix(system, center, cells, size, fewer, n - 1);
    }
}

/// What a tool reads at one position: the colour, or the chunk that must
/// be loaded first.
pub fn look(cache: &mut CanvasCache, system: &ChunkSystem, x: i64, y: i64) -> (seen: Result<
    ColorRGBA,
    IVec2,
>)
    requires
        old(cache).wf(system),
        system.wf(),
        pixel_pos(x as int, y as int) is Some,
    ensures
        final(cache).wf(system),
        seen is Ok <==> system.is_loaded(chunk_pos_of(pixel_pos(x as int, y as int)->Some_0)),
        seen matches Ok(c) ==> c == opaque(
            old(cache).color_at(system, pixel_pos(x as int, y as int)->Some_0),
        ) && final(cache).has_cell(chunk_pos_of(pixel_pos(x as int, y as int)->Some_0)),
        seen matches Err(chunk) ==> chunk == chunk_pos_of(pixel_pos(x as int, y as int)->Some_0)
            && !system.is_loaded(chunk),
        forall|p: IVec2| old(cache).has_cell(p) ==> final(cache).has_cell(p),
        forall|g: IVec2|
            system.is_loaded(chunk_pos_of(g)) ==> #[trigger] final(cache).color_at(system, g) == old(
                cache,
            ).color_at(system, g),
{
    let pos = IVec2 { x: x as i32, y: y as i32 };
    match cache.get_pixel(system, &pos) {
        Some(color) => Ok(color),
        None => Err(ChunkSystem::global_pixel_pos_to_chunk_pos(pos)),
    }
}

/// The pixels that the blur paints around `cursor`: every cell of the disk
/// `shape`, blended with the mean of its four neighbours. Where a chunk
/// that the tool must read is not loaded, the chunk is named instead.
pub fn blur_pixels(system: &ChunkSystem, cursor: IVec2, shape: &BrushShape, blend_intensity: u8) -> (out:
    Result<Vec<GlobalPixelRGBA>, IVec2>)
    requires
        system.wf(),
        shape.wf(),
    ensures
        out is Ok <==> blur_loaded(
            system,
            cursor,
            shape.cells(),
            shape.size as int,
            shape.cells().len() as int,
        ),
        out matches Ok(pixels) ==> pixels@ == blurred(
            |g: IVec2| system.pixel_at(g),
            cursor,
            shape.cells(),
            shape.size as int,
            blend_intensity,
            shape.cells().len() as int,
        ),
        out matches Err(chunk) ==> !system.is_loaded(chunk),
{
    let ghost cells = shape.cells();
    let ghost sight: Sight = |g: IVec2| system.pixel_at(g);
    let half: i64 = (shape.size / 2) as i64;
    let mut pixels: Vec<GlobalPixelRGBA> = Vec::new();
    let mut cache = CanvasCache::new();
    let mut iter = shape.iterate();
    let ghost mut n: int = 0;
    assert(cache.wf(system)) by {
        assert(crate::canvas_cache::copied_positions(cache.cells@) =~= Seq::<IVec2>::empty());
    }
    loop
        invariant
            system.wf(),
            cache.wf(system),
            iter.wf(),
            iter.shape == shape,
            cells == shape.cells(),
            half == shape.size as int / 2,
            sight == (|g: IVec2| system.pixel_at(g)),
            0 <= n <= cells.len(),
            iter@ == cells.skip(n),
            blur_loaded(system, cursor, cells, shape.size as int, n),
            pixels@ == blurred(sight, cursor, cells, shape.size as int, blend_intensity, n),
            forall|g: IVec2|
                system.is_loaded(chunk_pos_of(g)) ==> #[trigger] cache.color_at(system, g) == sight(g),
        decreases cells.len() - n,
    {
        match iter.next() {
            Some(s) => {
                proof {
                    assert(cells.skip(n)[0] == cells[n]);
                    assert(cells.skip(n).skip(1) =~= cells.skip(n + 1));
                }
                let x: i64 = cursor.x as i64 + s.local_x as i64 - half;
                let y: i64 = cursor.y as i64 + s.local_y as i64 - half;
                proof {
                    if blur_loaded(system, cursor, cells, shape.size as int, cells.len() as int) {
                        lemma_blur_loaded_prefix(
                            system,
                            cursor,
                            cells,
                            shape.size as int,
                            n + 1,
                            cells.len() as int,
                        );
                    }
                }
                if -0x8000_0000 < x && x < 0x7FFF_FFFF && -0x8000_0000 < y && y < 0x7FFF_FFFF {
                    let center = match look(&mut cache, system, x, y) {
                        Ok(c) => c,
                        Err(chunk) => {
                            return Err(chunk);
                        },
                    };
                    let left = match look(&mut cache, system, x - 1, y) {
                        Ok(c) => c,
                        Err(chunk) => {
                            return Err(chunk);
                        },
                    };
                    let right = match look(&mut cache, system, x + 1, y) {
                        Ok(c) => c,
                        Err(chunk) => {
                            return Err(chunk);
                        },
                    };
                    let top = match look(&mut cache, system, x, y - 1) {
                        Ok(c) => c,
                        Err(chunk) => {
                            return Err(chunk);
                        },
                    };
                    let bottom = match look(&mut cache, system, x, y + 1) {
                        Ok(c) => c,
                        Err(chunk) => {
                            return Err(chunk);
                        },
                    };
                    let blended_horiz = ColorRGBA::blend_gamma_corrected(127, left, right);
                    let blended_vert = ColorRGBA::blend_gamma_corrected(127, top, bottom);
                    let blended = ColorRGBA::blend_gamma_corrected(127, blended_horiz, blended_vert);
                    let current = ColorRGBA::blend_gamma_corrected(blend_intensity, center, blended);
                    push_pixel(&mut pixels, x, y, current);
                }
                proof {
                    n = n + 1;
                }
            },
            None => {
                proof {
                    assert(cells.skip(n).len() == 0);
                }
                return Ok(pixels);
            },
        }
    }
}

/// What a tool has seen and painted so far.
pub type Progress = (Sight, Seq<GlobalPixelRGBA>);

/// The smooth brush on the first `nx` cells of row `by` of its square
/// around `center`: each cell on the canvas is blended toward `color` with
/// the weight that `kernel` gives it, and is seen so from then on.
pub open spec fn smooth_cells(
    state: Progress,
    center: IVec2,
    size: int,
    kernel: Seq<u8>,
    color: ColorRGBA,
    by: int,
    nx: int,
) -> Progress
    decreases nx,
{
    if nx <= 0 {
        state
    } else {
        let s = smooth_cells(state, center, size, kernel, color, by, nx - 1);
        match pixel_pos(center.x + (nx - 1) - size / 2, center.y + by - size / 2) {
            Some(pos) => {
                let blended = blend_spec(kernel[by * size + (nx - 1)], opaque(s.0(pos)), color);
                (sight_with(s.0, pos, blended), s.1.push(GlobalPixelRGBA { pos, color: blended }))
            },
            None => s,
        }
    }
}

/// The smooth brush on the first `ny` rows of its square around `center`.
pub open spec fn smooth_rows(
    state: Progress,
    center: IVec2,
    size: int,
    kernel: Seq<u8>,
    color: ColorRGBA,
    ny: int,
) -> Progress
    decreases ny,
{
    if ny <= 0 {
        state
    } else {
        smooth_cells(
            smooth_rows(state, center, size, kernel, color, ny - 1),
            center,
            size,
            kernel,
            color,
            ny - 1,
            size,
        )
    }
}

/// The smooth brush along the first `n` pixels of the line from `from` to
/// `to`: its square is blended in at every `1 + size / 6`-th pixel.
pub open spec fn smooth_stroke(
    sight: Sight,
    from: IVec2,
    to: IVec2,
    size: int,
    kernel: Seq<u8>,
    color: ColorRGBA,
    n: int,
) -> Progress
    decreases n,
{
    if n <= 0 {
        (sight, Seq::empty())
    } else {
        let s = smooth_stroke(sight, from, to, size, kernel, color, n - 1);
        if (n - 1) % (1 + size / 6) != 0 {
            s
        } else {
            smooth_rows(s, line_point(from, to, n - 1), size, kernel, color, size)
        }
    }
}

/// The cache shows what the tool has seen so far.
pub open spec fn shows(cache: CanvasCache, system: &ChunkSystem, sight: Sight) -> bool {
    forall|g: IVec2|
        system.is_loaded(chunk_pos_of(g)) ==> #[trigger] cache.color_at(system, g) == sight(g)
}

/// Reads the pixel at `(x, y)`, whose chunk is loaded.
pub(crate) fn see(cache: &mut CanvasCache, system: &ChunkSystem, x: i64, y: i64, Ghost(sight): Ghost<Sight>) -> (color:
    ColorRGBA)
    requires
        old(cache).wf(system),
        system.wf(),
        pixel_pos(x as int, y as int) is Some,
        system.is_loaded(chunk_pos_of(pixel_pos(x as int, y as int)->Some_0)),
        shows(*old(cache), system, sight),
    ensures
        final(cache).wf(system),
        color == opaque(sight(pixel_pos(x as int, y as int)->Some_0)),
        final(cache).has_cell(chunk_pos_of(pixel_pos(x as int, y as int)->Some_0)),
        shows(*final(cache), system, sight),
        forall|p: IVec2| old(cache).has_cell(p) ==> final(cache).has_cell(p),
{
    let pos = IVec2 { x: x as i32, y: y as i32 };
    match cache.get_pixel(system, &pos) {
        Some(color) => color,
        None => ColorRGBA { r: 0, g: 0, b: 0, a: 0 },
    }
}

/// Makes the tool see `color` at `pos`, which it has read before.
pub(crate) fn mark(
    cache: &mut CanvasCache,
    system: &ChunkSystem,
    pos: IVec2,
    color: ColorRGBA,
    Ghost(sight): Ghost<Sight>,
)
    requires
        old(cache).wf(system),
        old(cache).has_cell(chunk_pos_of(pos)),
        shows(*old(cache), system, sight),
    ensures
        final(cache).wf(system),
        shows(*final(cache), system, sight_with(sight, pos, color)),
        forall|p: IVec2| final(cache).has_cell(p) == old(cache).has_cell(p),
{
    cache.set_pixel(system, &pos, &color);
}

/// The pixels that the smooth brush paints when the cursor moves from
/// `from` to `to`: at every `1 + tool_size / 6`-th pixel of the line, each
/// cell of the square of `tool_size` is blended toward `color` with its
/// weight in `kernel`, over what the brush has painted there before.
pub fn smooth_brush_pixels(
    system: &ChunkSystem,
    from: IVec2,
    to: IVec2,
    tool_size: u8,
    kernel: &[u8],
    color: ColorRGBA,
) -> (pixels: Vec<GlobalPixelRGBA>)
    requires
        system.wf(),
        kernel@.len() == tool_size as int * tool_size as int,
        reach_around(from, to, 257).loaded(system),
    ensures
        pixels@ == smooth_stroke(
            |g: IVec2| system.pixel_at(g),
            from,
            to,
            tool_size as int,
            kernel@,
            color,
            line_len(from, to),
        ).1,
{
    let ghost sight0: Sight = |g: IVec2| system.pixel_at(g);
    let ghost reach = reach_around(from, to, 257);
    let ghost size = tool_size as int;
    let step: u64 = 1 + (tool_size / 6) as u64;
    let half: i64 = (tool_size / 2) as i64;
    let mut pixels: Vec<GlobalPixelRGBA> = Vec::new();
    let mut cache = CanvasCache::new();
    let mut iter = LineMoveIter::iterate(from, to);
    let mut index: u64 = 0;
    let ghost mut state: Progress = (sight0, Seq::empty());
    assert(cache.wf(system)) by {
        assert(crate::canvas_cache::copied_positions(cache.cells@) =~= Seq::<IVec2>::empty());
    }
    loop
        invariant
            system.wf(),
            cache.wf(system),
            iter.wf(),
            iter.start == from,
            iter.end == to,
            kernel@.len() == size * size,
            size == tool_size,
            reach == reach_around(from, to, 257),
            reach.loaded(system),
            step == 1 + size / 6,
            half == size / 2,
            index == iter.index(),
            index <= line_len(from, to),
            line_len(from, to) <= 0x1_0000_0000,
            sight0 == (|g: IVec2| system.pixel_at(g)),
            state == smooth_stroke(sight0, from, to, size, kernel@, color, index as int),
            shows(cache, system, state.0),
            pixels@ == state.1,
        decreases line_len(from, to) - index,
    {
        match iter.next() {
            Some(line) => {
                if index % step == 0 {
                    proof {
                        lemma_line_point_between(from, to, index as int);
                    }
                    let ghost before_rows = state;
                    let mut brush_y: u8 = 0;
                    while brush_y < tool_size
                        invariant
                            system.wf(),
                            cache.wf(system),
                            kernel@.len() == size * size,
                            size == tool_size,
                            reach == reach_around(from, to, 257),
                            reach.loaded(system),
                            half == size / 2,
                            brush_y <= tool_size,
                            line.pos == line_point(from, to, index as int),
                            crate::tool::reach::least(from.x as int, to.x as int) <= line.pos.x
                                <= crate::tool::reach::most(from.x as int, to.x as int),
                            crate::tool::reach::least(from.y as int, to.y as int) <= line.pos.y
                                <= crate::tool::reach::most(from.y as int, to.y as int),
                            state == smooth_rows(
                                before_rows,
                                line.pos,
                                size,
                                kernel@,
                                color,
                                brush_y as int,
                            ),
                            shows(cache, system, state.0),
                            pixels@ == state.1,
                        decreases tool_size - brush_y,
                    {
                        let ghost before_cells = state;
                        let mut brush_x: u8 = 0;
                        while brush_x < tool_size
                            invariant
                                system.wf(),
                                cache.wf(system),
                                kernel@.len() == size * size,
                                size == tool_size,
                                reach == reach_around(from, to, 257),
                                reach.loaded(system),
                                half == size / 2,
                                brush_y < tool_size,
                                brush_x <= tool_size,
                                crate::tool::reach::least(from.x as int, to.x as int) <= line.pos.x
                                    <= crate::tool::reach::most(from.x as int, to.x as int),
                                crate::tool::reach::least(from.y as int, to.y as int) <= line.pos.y
                                    <= crate::tool::reach::most(from.y as int, to.y as int),
                                state == smooth_cells(
                                    before_cells,
                                    line.pos,
                                    size,
                                    kernel@,
                                    color,
                                    brush_y as int,
                                    brush_x as int,
                                ),
                                shows(cache, system, state.0),
                                pixels@ == state.1,
                            decreases tool_size - brush_x,
                        {
                            let pos_x: i64 = line.pos.x as i64 + brush_x as i64 - half;
                            let pos_y: i64 = line.pos.y as i64 + brush_y as i64 - half;
                            if -0x8000_0000 <= pos_x && pos_x <= 0x7FFF_FFFF && -0x8000_0000 <= pos_y
                                && pos_y <= 0x7FFF_FFFF {
                                let pos = IVec2 { x: pos_x as i32, y: pos_y as i32 };
                                proof {
                                    assert(reach.holds(pos_x as int, pos_y as int));
                                    lemma_reach_loaded(reach, system, pos);
                                    assert((brush_y as int * size + brush_x as int) < size * size)
                                        by (nonlinear_arith)
                                        requires
                                            0 <= brush_x < size,
                                            0 <= brush_y < size,
                                    ;
                                }
                                let current = see(&mut cache, system, pos_x, pos_y, Ghost(state.0));
                                assert(0 <= brush_y as int * size <= 65025) by (nonlinear_arith)
                                    requires
                                        0 <= brush_y <= 255,
                                        0 <= size <= 255,
                                ;
                                let at: usize = brush_y as usize * tool_size as usize
                                    + brush_x as usize;
                                let blended = ColorRGBA::blend_gamma_corrected(
                                    kernel[at],
                                    current,
                                    color,
                                );
                                mark(&mut cache, system, pos, blended, Ghost(state.0));
                                pixels.push(GlobalPixelRGBA { pos, color: blended });
                                proof {
                                    state = (
                                        sight_with(state.0, pos, blended),
                                        state.1.push(GlobalPixelRGBA { pos, color: blended }),
                                    );
                                }
                            }
                            brush_x += 1;
                        }
                        brush_y += 1;
                    }
                }
                index += 1;
            },
            None => {
                return pixels;
            },
        }
    }
}

/// The pixels that the smudge paints at one pixel of its way: each of the
/// first `n` cells of the disk around `center` that lies on the canvas with
/// the pixel that it drags along, blended with that pixel.
pub open spec fn smudge_dab(
    sight: Sight,
    center: IVec2,
    drag_x: int,
    drag_y: int,
    cells: Seq<BrushShapeIterCell>,
    size: int,
    intensity: u8,
    n: int,
) -> Seq<GlobalPixelRGBA>
    decreases n,
{
    if n <= 0 {
        Seq::empty()
    } else {
        let before = smudge_dab(sight, center, drag_x, drag_y, cells, size, intensity, n - 1);
        let x = center.x + cells[n - 1].local_x - size / 2;
        let y = center.y + cells[n - 1].local_y - size / 2;
        match (pixel_pos(x, y), pixel_pos(x + drag_x, y + drag_y)) {
            (Some(pos), Some(source)) => before.push(
                GlobalPixelRGBA {
                    pos,
                    color: blend_spec(intensity, opaque(sight(pos)), opaque(sight(source))),
                },
            ),
            _ => before,
        }
    }
}

/// What the tool sees once the first `n` of `pixels` are painted.
pub open spec fn sight_after(sight: Sight, pixels: Seq<GlobalPixelRGBA>, n: int) -> Sight
    decreases n,
{
    if n <= 0 {
        sight
    } else {
        sight_with(sight_after(sight, pixels, n - 1), pixels[n - 1].pos, pixels[n - 1].color)
    }
}

/// The smudge along the first `n` pixels of the line from `from` to `to`:
/// at every pixel but the first, the disk is blended with what lies one
/// step back along the line, and is seen so from then on.
pub open spec fn smudge_stroke(
    sight: Sight,
    from: IVec2,
    to: IVec2,
    cells: Seq<BrushShapeIterCell>,
    size: int,
    intensity: u8,
    n: int,
) -> Progress
    decreases n,
{
    if n <= 0 {
        (sight, Seq::empty())
    } else {
        let s = smudge_stroke(sight, from, to, cells, size, intensity, n - 1);
        if n == 1 {
            s
        } else {
            let here = line_point(from, to, n - 1);
            let back = line_point(from, to, n - 2);
            let dab = smudge_dab(
                s.0,
                here,
                back.x - here.x,
                back.y - here.y,
                cells,
                size,
                intensity,
                cells.len() as int,
            );
            (sight_after(s.0, dab, dab.len() as int), s.1 + dab)
        }
    }
}

/// The pixels that the smudge paints when the cursor moves from `from` to
/// `to`: at every pixel of the line but the first, each cell of the disk
/// `shape` is blended with the pixel one step back along the line.
pub fn smudge_pixels(
    system: &ChunkSystem,
    from: IVec2,
    to: IVec2,
    shape: &BrushShape,
    blend_intensity: u8,
) -> (pixels: Vec<GlobalPixelRGBA>)
    requires
        system.wf(),
        shape.wf(),
        reach_around(from, to, 257).loaded(system),
    ensures
        pixels@ == smudge_stroke(
            |g: IVec2| system.pixel_at(g),
            from,
            to,
            shape.cells(),
            shape.size as int,
            blend_intensity,
            line_len(from, to),
        ).1,
{
    let ghost sight0: Sight = |g: IVec2| system.pixel_at(g);
    let ghost reach = reach_around(from, to, 257);
    let ghost cells = shape.cells();
    let ghost size = shape.size as int;
    let half: i64 = (shape.size / 2) as i64;
    let mut pixels_final: Vec<GlobalPixelRGBA> = Vec::new();
    let mut cache = CanvasCache::new();
    let mut iter = LineMoveIter::iterate(from, to);
    let mut line_x_prev: i64 = from.x as i64;
    let mut line_y_prev: i64 = from.y as i64;
    let ghost mut index: int = 0;
    let ghost mut state: Progress = (sight0, Seq::empty());
    assert(cache.wf(system)) by {
        assert(crate::canvas_cache::copied_positions(cache.cells@) =~= Seq::<IVec2>::empty());
    }
    loop
        invariant
            system.wf(),
            cache.wf(system),
            shape.wf(),
            iter.wf(),
            iter.start == from,
            iter.end == to,
            cells == shape.cells(),
            size == shape.size,
            reach == reach_around(from, to, 257),
            reach.loaded(system),
            half == size / 2,
            index == iter.index(),
            0 <= index <= line_len(from, to),
            index == 0 ==> line_x_prev == from.x && line_y_prev == from.y,
            index > 0 ==> line_x_prev == line_point(from, to, index - 1).x && line_y_prev
                == line_point(from, to, index - 1).y,
            sight0 == (|g: IVec2| system.pixel_at(g)),
            state == smudge_stroke(sight0, from, to, cells, size, blend_intensity, index),
            shows(cache, system, state.0),
            pixels_final@ == state.1,
        decreases line_len(from, to) - index,
    {
        match iter.next() {
            Some(line) => {
                if index_is_first(line_x_prev, line_y_prev, line.pos, Ghost(index), Ghost(from), Ghost(to)) {
                    proof {
                        index = index + 1;
                    }
                    line_x_prev = line.pos.x as i64;
                    line_y_prev = line.pos.y as i64;
                    continue ;
                }
                proof {
                    lemma_line_point_between(from, to, index);
                    lemma_line_points_adjacent(from, to, index - 1);
                }
                let diff_x: i64 = line_x_prev - line.pos.x as i64;
                let diff_y: i64 = line_y_prev - line.pos.y as i64;
                let mut pixels_temp: Vec<GlobalPixelRGBA> = Vec::new();
                let mut cell_iter = shape.iterate();
                let ghost mut b: int = 0;
                loop
                    invariant
                        system.wf(),
                        cache.wf(system),
                        cell_iter.wf(),
                        cell_iter.shape == shape,
                        cells == shape.cells(),
                        size == shape.size,
                        half == size / 2,
                        reach == reach_around(from, to, 257),
                        reach.loaded(system),
                        crate::tool::reach::least(from.x as int, to.x as int) <= line.pos.x
                            <= crate::tool::reach::most(from.x as int, to.x as int),
                        crate::tool::reach::least(from.y as int, to.y as int) <= line.pos.y
                            <= crate::tool::reach::most(from.y as int, to.y as int),
                        -1 <= diff_x <= 1,
                        -1 <= diff_y <= 1,
                        0 <= b <= cells.len(),
                        cell_iter@ == cells.skip(b),
                        shows(cache, system, state.0),
                        pixels_temp@ == smudge_dab(
                            state.0,
                            line.pos,
                            diff_x as int,
                            diff_y as int,
                            cells,
                            size,
                            blend_intensity,
                            b,
                        ),
                        forall|k: int|
                            0 <= k < pixels_temp@.len() ==> cache.has_cell(
                                chunk_pos_of((#[trigger] pixels_temp@[k]).pos),
                            ),
                    ensures
                        b == cells.len(),
                    decreases cells.len() - b,
                {
                    match cell_iter.next() {
                        Some(s) => {
                            proof {
                                assert(cells.skip(b)[0] == cells[b]);
                                assert(cells.skip(b).skip(1) =~= cells.skip(b + 1));
                            }
                            let pos_x: i64 = line.pos.x as i64 + s.local_x as i64 - half;
                            let pos_y: i64 = line.pos.y as i64 + s.local_y as i64 - half;
                            let src_x: i64 = pos_x + diff_x;
                            let src_y: i64 = pos_y + diff_y;
                            if on_canvas(pos_x, pos_y) && on_canvas(src_x, src_y) {
                                let pos = IVec2 { x: pos_x as i32, y: pos_y as i32 };
                                let source = IVec2 { x: src_x as i32, y: src_y as i32 };
                                proof {
                                    assert(reach.holds(pos_x as int, pos_y as int));
                                    assert(reach.holds(src_x as int, src_y as int));
                                    lemma_reach_loaded(reach, system, pos);
                                    lemma_reach_loaded(reach, system, source);
                                }
                                let prev = see(&mut cache, system, src_x, src_y, Ghost(state.0));
                                let center = see(&mut cache, system, pos_x, pos_y, Ghost(state.0));
                                let blended = ColorRGBA::blend_gamma_corrected(
                                    blend_intensity,
                                    center,
                                    prev,
                                );
                                pixels_temp.push(GlobalPixelRGBA { pos, color: blended });
                            }
                            proof {
                                b = b + 1;
                            }
                        },
                        None => {
                            proof {
                                assert(cells.skip(b).len() == 0);
                            }
                            break ;
                        },
                    }
                }
                let ghost seen = state.0;
                let mut k: usize = 0;
                while k < pixels_temp.len()
                    invariant
                        cache.wf(system),
                        k <= pixels_temp@.len(),
                        shows(cache, system, sight_after(seen, pixels_temp@, k as int)),
                        forall|j: int|
                            0 <= j < pixels_temp@.len() ==> cache.has_cell(
                                chunk_pos_of((#[trigger] pixels_temp@[j]).pos),
                            ),
                    decreases pixels_temp@.len() - k,
                {
                    let pixel = pixels_temp[k];
                    mark(
                        &mut cache,
                        system,
                        pixel.pos,
                        pixel.color,
                        Ghost(sight_after(seen, pixels_temp@, k as int)),
                    );
                    k += 1;
                }
                proof {
                    state = (
                        sight_after(seen, pixels_temp@, pixels_temp@.len() as int),
                        state.1 + pixels_temp@,
                    );
                    index = index + 1;
                }
                pixels_final.append(&mut pixels_temp);
                line_x_prev = line.pos.x as i64;
                line_y_prev = line.pos.y as i64;
            },
            None => {
                return pixels_final;
            },
        }
    }
}

/// Whether the smudge stands on the first pixel of its way, where there is
/// nothing to drag along yet.
fn index_is_first(
    line_x_prev: i64,
    line_y_prev: i64,
    pos: IVec2,
    Ghost(index): Ghost<int>,
    Ghost(from): Ghost<IVec2>,
    Ghost(to): Ghost<IVec2>,
) -> (first: bool)
    requires
        0 <= index < line_len(from, to),
        pos == line_point(from, to, index),
        index == 0 ==> line_x_prev == from.x && line_y_prev == from.y,
        index > 0 ==> line_x_prev == line_point(from, to, index - 1).x && line_y_prev == line_point(
            from,
            to,
            index - 1,
        ).y,
    ensures
        first == (index == 0),
{
    proof {
        crate::tool::iter::lemma_line_ends(from, to);
        if index > 0 {
            lemma_line_points_differ(from, to, index - 1);
        }
    }
    line_x_prev - pos.x as i64 == 0 && line_y_prev - pos.y as i64 == 0
}

/// Whether `(x, y)` is a position of the canvas.
pub fn on_canvas(x: i64, y: i64) -> (on: bool)
    ensures
        on == (pixel_pos(x as int, y as int) is Some),
{
    -0x8000_0000 <= x && x <= 0x7FFF_FFFF && -0x8000_0000 <= y && y <= 0x7FFF_FFFF
}

/// Two pixels of a line that follow each other are different pixels.
pub proof fn lemma_line_points_differ(from: IVec2, to: IVec2, i: int)
    requires
        0 <= i,
        i + 1 < line_len(from, to),
    ensures
        line_point(from, to, i) != line_point(from, to, i + 1),
{
    lemma_line_point_between(from, to, i);
    lemma_line_point_between(from, to, i + 1);
    let ax = crate::tool::iter::abs(to.x - from.x);
    let ay = crate::tool::iter::abs(to.y - from.y);
    if ax >= ay {
        crate::tool::reach::lemma_share_between(i, ax, ay);
        crate::tool::reach::lemma_share_between(i + 1, ax, ay);
    } else {
        crate::tool::reach::lemma_share_between(i, ay, ax);
        crate::tool::reach::lemma_share_between(i + 1, ay, ax);
    }
}

} // verus!
