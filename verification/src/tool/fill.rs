//! The flood fill: repainting the region of one colour around a seed.

use vstd::prelude::*;
use crate::canvas_cache::CanvasCache;
use crate::chunk::system::{chunk_pos_of, ChunkSystem};
use crate::history::pixel_positions;
use crate::pixel::{ColorRGB, ColorRGBA, GlobalPixelRGBA};
use crate::tool::blend::{mark, opaque, see, shows, sight_with, Sight};
use crate::tool::paint::pixel_pos;
use crate::tool::reach::{lemma_reach_loaded, reach_around, Reach};
use crate::util::{distance_squared_int32, manhattan};
use crate::vector::IVec2;

verus! {

/// The fill may repaint `p`: it lies within 300 steps of the seed and has
/// the colour that is replaced.
pub open spec fn fillable(sight: Sight, seed: IVec2, target: ColorRGB, p: IVec2) -> bool {
    manhattan(seed, p) <= 300 && sight(p) == target
}

/// The two pixels share an edge.
pub open spec fn adjacent(a: IVec2, b: IVec2) -> bool {
    manhattan(a, b) == 1
}

/// The fill reaches `p` from the seed in at most `steps` steps from pixel to
/// adjacent pixel, over pixels that it may repaint.
pub open spec fn flooded(sight: Sight, seed: IVec2, target: ColorRGB, p: IVec2, steps: nat) -> bool
    decreases steps,
{
    if steps == 0 {
        p == seed && fillable(sight, seed, target, seed)
    } else {
        let fewer = (steps - 1) as nat;
        flooded(sight, seed, target, p, fewer) || (fillable(sight, seed, target, p) && ((pixel_pos(
            p.x - 1,
            p.y as int,
        ) matches Some(q) && flooded(sight, seed, target, q, fewer)) || (pixel_pos(
            p.x + 1,
            p.y as int,
        ) matches Some(q) && flooded(sight, seed, target, q, fewer)) || (pixel_pos(
            p.x as int,
            p.y - 1,
        ) matches Some(q) && flooded(sight, seed, target, q, fewer)) || (pixel_pos(
            p.x as int,
            p.y + 1,
        ) matches Some(q) && flooded(sight, seed, target, q, fewer))))
    }
}

/// The fill reaches the pixel `(x, y)` within `steps` steps.
pub open spec fn flooded_at(sight: Sight, seed: IVec2, target: ColorRGB, x: int, y: int, steps: nat) -> bool {
    pixel_pos(x, y) matches Some(q) && flooded(sight, seed, target, q, steps)
}

/// The fill reaches `p`.
pub open spec fn in_flood(sight: Sight, seed: IVec2, target: ColorRGB, p: IVec2) -> bool {
    exists|steps: nat| #[trigger] flooded(sight, seed, target, p, steps)
}

/// The pixel number `j` of the square of 601 × 601 pixels around the seed.
pub open spec fn grid_pos(seed: IVec2, j: int) -> Option<IVec2> {
    pixel_pos(seed.x + j % 601 - 300, seed.y + j / 601 - 300)
}

/// Pixel number `j` of the square is still to be repainted.
pub open spec fn waits(sight: Sight, done: Set<IVec2>, seed: IVec2, target: ColorRGB, j: int) -> bool {
    grid_pos(seed, j) matches Some(p) && fillable(sight, seed, target, p) && !done.contains(p)
}

/// How many of the first `n` pixels of the square are still to be
/// repainted.
pub open spec fn waiting(sight: Sight, done: Set<IVec2>, seed: IVec2, target: ColorRGB, n: int) -> nat
    decreases n,
{
    if n <= 0 {
        0
    } else {
        waiting(sight, done, seed, target, n - 1) + if waits(sight, done, seed, target, n - 1) {
            1nat
        } else {
            0nat
        }
    }
}

/// No more pixels wait than there are.
pub proof fn lemma_waiting_bound(sight: Sight, done: Set<IVec2>, seed: IVec2, target: ColorRGB, n: int)
    requires
        0 <= n,
    ensures
        waiting(sight, done, seed, target, n) <= n,
    decreases n,
{
    if n > 0 {
        lemma_waiting_bound(sight, done, seed, target, n - 1);
    }
}

/// Repainting a pixel that waited leaves one pixel less waiting.
pub proof fn lemma_repaint_one(
    sight: Sight,
    done: Set<IVec2>,
    seed: IVec2,
    target: ColorRGB,
    p: IVec2,
    n: int,
)
    requires
        fillable(sight, seed, target, p),
        !done.contains(p),
        0 <= n <= 361201,
    ensures
        waiting(sight, done.insert(p), seed, target, n) + (if (p.y - seed.y + 300) * 601 + (p.x
            - seed.x + 300) < n {
            1nat
        } else {
            0nat
        }) == waiting(sight, done, seed, target, n),
    decreases n,
{
    if n > 0 {
        lemma_repaint_one(sight, done, seed, target, p, n - 1);
        let j = n - 1;
        let at = (p.y - seed.y + 300) * 601 + (p.x - seed.x + 300);
        if j == at {
            assert(j % 601 == p.x - seed.x + 300 && j / 601 == p.y - seed.y + 300);
            assert(grid_pos(seed, j) == Some(p));
        } else {
            assert(j == (j / 601) * 601 + j % 601);
            assert(grid_pos(seed, j) != Some(p));
        }
    }
}

/// A pixel that the fill may repaint, beside one that it reaches, is
/// reached too.
pub proof fn lemma_flood_spreads(sight: Sight, seed: IVec2, target: ColorRGB, q: IVec2, p: IVec2)
    requires
        in_flood(sight, seed, target, q),
        adjacent(q, p),
        fillable(sight, seed, target, p),
    ensures
        in_flood(sight, seed, target, p),
{
    let steps = choose|steps: nat| #[trigger] flooded(sight, seed, target, q, steps);
    let more = (steps + 1) as nat;
    assert((more - 1) as nat == steps);
    assert(pixel_pos(q.x as int, q.y as int) == Some(q));
    if q.x == p.x - 1 && q.y == p.y {
        assert(flooded_at(sight, seed, target, p.x - 1, p.y as int, steps));
    } else if q.x == p.x + 1 && q.y == p.y {
        assert(flooded_at(sight, seed, target, p.x + 1, p.y as int, steps));
    } else if q.x == p.x && q.y == p.y - 1 {
        assert(flooded_at(sight, seed, target, p.x as int, p.y - 1, steps));
    } else {
        assert(q.x == p.x && q.y == p.y + 1);
        assert(flooded_at(sight, seed, target, p.x as int, p.y + 1, steps));
    }
    assert(flooded(sight, seed, target, p, more));
}

/// What the fill reaches may be repainted: it has the colour that is
/// replaced and lies within 300 steps of the seed.
pub proof fn lemma_flood_within_reach(sight: Sight, seed: IVec2, target: ColorRGB, p: IVec2)
    requires
        in_flood(sight, seed, target, p),
    ensures
        manhattan(seed, p) <= 300,
        sight(p) == target,
{
    let steps = choose|steps: nat| #[trigger] flooded(sight, seed, target, p, steps);
    lemma_flooded_fillable(sight, seed, target, p, steps);
}

/// What the fill reaches within some steps may be repainted.
pub proof fn lemma_flooded_fillable(sight: Sight, seed: IVec2, target: ColorRGB, p: IVec2, steps: nat)
    requires
        flooded(sight, seed, target, p, steps),
    ensures
        fillable(sight, seed, target, p),
    decreases steps,
{
    if steps > 0 && flooded(sight, seed, target, p, (steps - 1) as nat) {
        lemma_flooded_fillable(sight, seed, target, p, (steps - 1) as nat);
    }
}

/// A set that holds the seed and, with each of its pixels, the adjacent
/// pixels that the fill may repaint, holds all that the fill reaches.
pub proof fn lemma_closed_holds_flood(
    sight: Sight,
    seed: IVec2,
    target: ColorRGB,
    done: Set<IVec2>,
    p: IVec2,
    steps: nat,
)
    requires
        done.contains(seed),
        forall|a: IVec2, b: IVec2|
            done.contains(a) && #[trigger] adjacent(a, b) && fillable(sight, seed, target, b)
                ==> done.contains(b),
        flooded(sight, seed, target, p, steps),
    ensures
        done.contains(p),
    decreases steps,
{
    if steps > 0 {
        let fewer = (steps - 1) as nat;
        if flooded(sight, seed, target, p, fewer) {
            lemma_closed_holds_flood(sight, seed, target, done, p, fewer);
        } else {
            let q: IVec2 = if flooded_at(sight, seed, target, p.x - 1, p.y as int, fewer) {
                IVec2 { x: (p.x - 1) as i32, y: p.y }
            } else if flooded_at(sight, seed, target, p.x + 1, p.y as int, fewer) {
                IVec2 { x: (p.x + 1) as i32, y: p.y }
            } else if flooded_at(sight, seed, target, p.x as int, p.y - 1, fewer) {
                IVec2 { x: p.x, y: (p.y - 1) as i32 }
            } else {
                IVec2 { x: p.x, y: (p.y + 1) as i32 }
            };
            assert(flooded(sight, seed, target, q, fewer));
            lemma_closed_holds_flood(sight, seed, target, done, q, fewer);
            assert(adjacent(q, p));
        }
    }
}

/// The fill reaches a pixel only where the seed has the colour that is
/// replaced.
pub proof fn lemma_flood_needs_seed(sight: Sight, seed: IVec2, target: ColorRGB, p: IVec2, steps: nat)
    requires
        flooded(sight, seed, target, p, steps),
    ensures
        sight(seed) == target,
    decreases steps,
{
    if steps > 0 {
        let fewer = (steps - 1) as nat;
        if flooded(sight, seed, target, p, fewer) {
            lemma_flood_needs_seed(sight, seed, target, p, fewer);
        } else {
            let q: IVec2 = if flooded_at(sight, seed, target, p.x - 1, p.y as int, fewer) {
                IVec2 { x: (p.x - 1) as i32, y: p.y }
            } else if flooded_at(sight, seed, target, p.x + 1, p.y as int, fewer) {
                IVec2 { x: (p.x + 1) as i32, y: p.y }
            } else if flooded_at(sight, seed, target, p.x as int, p.y - 1, fewer) {
                IVec2 { x: p.x, y: (p.y - 1) as i32 }
            } else {
                IVec2 { x: p.x, y: (p.y + 1) as i32 }
            };
            assert(flooded(sight, seed, target, q, fewer));
            lemma_flood_needs_seed(sight, seed, target, q, fewer);
        }
    }
}

/// What the fill sees: the new colour where it has repainted, the canvas
/// elsewhere.
pub open spec fn fill_sight(sight: Sight, done: Set<IVec2>, color: ColorRGB) -> Sight {
    |g: IVec2|
        if done.contains(g) {
            color
        } else {
            sight(g)
        }
}

/// What is repainted is what the list holds, each position once and in the
/// new colour, and the fill reaches all of it.
pub open spec fn fill_listed(
    sight: Sight,
    seed: IVec2,
    target: ColorRGB,
    color: ColorRGB,
    done: Set<IVec2>,
    pixels: Seq<GlobalPixelRGBA>,
) -> bool {
    &&& pixel_positions(pixels).no_duplicates()
    &&& forall|p: IVec2| done.contains(p) <==> #[trigger] pixel_positions(pixels).contains(p)
    &&& forall|k: int| 0 <= k < pixels.len() ==> (#[trigger] pixels[k]).color == opaque(color)
    &&& forall|p: IVec2| #[trigger] done.contains(p) ==> in_flood(sight, seed, target, p)
}

/// Whatever waits on the stack has the colour that is replaced, and is the
/// seed or lies beside a repainted pixel.
pub open spec fn fill_stacked(
    sight: Sight,
    seed: IVec2,
    target: ColorRGB,
    done: Set<IVec2>,
    stack: Seq<IVec2>,
    parents: Seq<IVec2>,
) -> bool {
    &&& parents.len() == stack.len()
    &&& forall|i: int|
        0 <= i < stack.len() ==> sight(#[trigger] stack[i]) == target && (stack[i] == seed || (
        adjacent(parents[i], stack[i]) && done.contains(parents[i])))
}

/// The seed and every pixel that the fill may repaint beside a repainted
/// one is repainted or waits on the stack.
pub open spec fn fill_closed(
    sight: Sight,
    seed: IVec2,
    target: ColorRGB,
    done: Set<IVec2>,
    stack: Seq<IVec2>,
) -> bool {
    &&& done.contains(seed) || stack.contains(seed)
    &&& forall|a: IVec2, b: IVec2|
        done.contains(a) && #[trigger] adjacent(a, b) && fillable(sight, seed, target, b)
            ==> done.contains(b) || stack.contains(b)
}

/// Taking a pixel off the stack that is not repainted now leaves the state
/// complete: the pixel is repainted already, or may not be repainted.
pub proof fn lemma_skip_keeps_closed(
    sight: Sight,
    seed: IVec2,
    target: ColorRGB,
    done: Set<IVec2>,
    stack: Seq<IVec2>,
)
    requires
        stack.len() > 0,
        fill_closed(sight, seed, target, done, stack),
        done.contains(stack.last()) || !fillable(sight, seed, target, stack.last()),
        done.contains(stack.last()) || stack.last() != seed,
    ensures
        fill_closed(sight, seed, target, done, stack.drop_last()),
{
    let rest = stack.drop_last();
    let cell = stack.last();
    assert forall|b: IVec2| stack.contains(b) && b != cell implies rest.contains(b) by {
        let w = choose|w: int| 0 <= w < stack.len() && stack[w] == b;
        assert(rest[w] == b);
    }
    assert forall|a: IVec2, b: IVec2|
        done.contains(a) && #[trigger] adjacent(a, b) && fillable(sight, seed, target, b)
        implies done.contains(b) || rest.contains(b) by {
        if !done.contains(b) {
            assert(stack.contains(b));
        }
    }
}

/// Repainting the pixel taken off the stack keeps the list in step.
pub proof fn lemma_paint_keeps_listed(
    sight: Sight,
    seed: IVec2,
    target: ColorRGB,
    color: ColorRGB,
    done: Set<IVec2>,
    pixels: Seq<GlobalPixelRGBA>,
    cell: IVec2,
    parent: IVec2,
)
    requires
        fill_listed(sight, seed, target, color, done, pixels),
        fillable(sight, seed, target, cell),
        !done.contains(cell),
        cell == seed || (adjacent(parent, cell) && done.contains(parent)),
    ensures
        fill_listed(
            sight,
            seed,
            target,
            color,
            done.insert(cell),
            pixels.push(GlobalPixelRGBA { pos: cell, color: opaque(color) }),
        ),
{
    let more = pixels.push(GlobalPixelRGBA { pos: cell, color: opaque(color) });
    let grown = done.insert(cell);
    let ps = pixel_positions(more);
    let old_ps = pixel_positions(pixels);
    assert(ps =~= old_ps.push(cell));
    assert(ps[ps.len() - 1] == cell);
    assert(in_flood(sight, seed, target, cell)) by {
        if cell == seed {
            assert(flooded(sight, seed, target, seed, 0));
        } else {
            lemma_flood_spreads(sight, seed, target, parent, cell);
        }
    }
    assert forall|a: int, b: int| 0 <= a < ps.len() && 0 <= b < ps.len() && a != b implies ps[a]
        != ps[b] by {
        if a < old_ps.len() {
            assert(ps[a] == old_ps[a]);
            assert(old_ps.contains(old_ps[a]));
        }
        if b < old_ps.len() {
            assert(ps[b] == old_ps[b]);
            assert(old_ps.contains(old_ps[b]));
        }
    }
    assert forall|p: IVec2| grown.contains(p) <==> #[trigger] ps.contains(p) by {
        if ps.contains(p) {
            let w = choose|w: int| 0 <= w < ps.len() && ps[w] == p;
            if w < old_ps.len() {
                assert(old_ps[w] == p);
                assert(old_ps.contains(p));
            }
        }
        if grown.contains(p) && p != cell {
            assert(old_ps.contains(p));
            let w = choose|w: int| 0 <= w < old_ps.len() && old_ps[w] == p;
            assert(ps[w] == p);
        }
    }
    assert forall|k: int| 0 <= k < more.len() implies (#[trigger] more[k]).color == opaque(color) by {
        if k < pixels.len() {
            assert(more[k] == pixels[k]);
        }
    }
}

/// Repainting the pixel taken off the stack, and putting on the stack those
/// of its neighbours that still have the colour that is replaced, leaves
/// the state complete.
pub proof fn lemma_paint_keeps_closed(
    sight: Sight,
    seed: IVec2,
    target: ColorRGB,
    done: Set<IVec2>,
    stack: Seq<IVec2>,
    after: Seq<IVec2>,
)
    requires
        stack.len() > 0,
        fill_closed(sight, seed, target, done, stack),
        stack.len() - 1 <= after.len(),
        forall|i: int| 0 <= i < stack.len() - 1 ==> after[i] == stack[i],
        forall|b: IVec2| #[trigger]
            adjacent(stack.last(), b) && sight(b) == target && !done.contains(b) && b != stack.last()
                ==> after.contains(b),
    ensures
        fill_closed(sight, seed, target, done.insert(stack.last()), after),
{
    let cell = stack.last();
    let grown = done.insert(cell);
    assert forall|b: IVec2| stack.contains(b) && b != cell implies after.contains(b) by {
        let w = choose|w: int| 0 <= w < stack.len() && stack[w] == b;
        assert(after[w] == b);
    }
    assert forall|a: IVec2, b: IVec2|
        grown.contains(a) && #[trigger] adjacent(a, b) && fillable(sight, seed, target, b)
        implies grown.contains(b) || after.contains(b) by {
        if !grown.contains(b) {
            if a == cell {
                assert(after.contains(b));
            } else {
                assert(stack.contains(b));
            }
        }
    }
}

/// Putting a neighbour of a repainted pixel on the stack keeps the stack in
/// order.
pub proof fn lemma_push_keeps_stacked(
    sight: Sight,
    seed: IVec2,
    target: ColorRGB,
    done: Set<IVec2>,
    stack: Seq<IVec2>,
    parents: Seq<IVec2>,
    cell: IVec2,
    next: IVec2,
)
    requires
        fill_stacked(sight, seed, target, done, stack, parents),
        done.contains(cell),
        adjacent(cell, next),
        sight(next) == target,
    ensures
        fill_stacked(sight, seed, target, done, stack.push(next), parents.push(cell)),
{
    let more = stack.push(next);
    let more_parents = parents.push(cell);
    assert forall|i: int| 0 <= i < more.len() implies sight(#[trigger] more[i]) == target && (more[i]
        == seed || (adjacent(more_parents[i], more[i]) && done.contains(more_parents[i]))) by {
        if i < stack.len() {
            assert(more[i] == stack[i]);
            assert(more_parents[i] == parents[i]);
        }
    }
}

/// A larger set of repainted pixels keeps the stack in order.
pub proof fn lemma_grow_keeps_stacked(
    sight: Sight,
    seed: IVec2,
    target: ColorRGB,
    done: Set<IVec2>,
    stack: Seq<IVec2>,
    parents: Seq<IVec2>,
    cell: IVec2,
)
    requires
        fill_stacked(sight, seed, target, done, stack, parents),
    ensures
        fill_stacked(sight, seed, target, done.insert(cell), stack, parents),
        stack.len() > 0 ==> fill_stacked(
            sight,
            seed,
            target,
            done,
            stack.drop_last(),
            parents.drop_last(),
        ),
{
    if stack.len() > 0 {
        let rest = stack.drop_last();
        let rest_parents = parents.drop_last();
        assert forall|i: int| 0 <= i < rest.len() implies sight(#[trigger] rest[i]) == target && (rest[i]
            == seed || (adjacent(rest_parents[i], rest[i]) && done.contains(rest_parents[i]))) by {
            assert(rest[i] == stack[i]);
            assert(rest_parents[i] == parents[i]);
        }
    }
}

/// Looks at the neighbour `(x, y)` of the pixel `cell` just repainted and
/// puts it on the stack where it still has the colour that is replaced.
fn visit(
    cache: &mut CanvasCache,
    system: &ChunkSystem,
    stack: &mut Vec<IVec2>,
    x: i64,
    y: i64,
    target: ColorRGB,
    Ghost(shown): Ghost<Sight>,
) -> (pushed: bool)
    requires
        old(cache).wf(system),
        system.wf(),
        shows(*old(cache), system, shown),
        pixel_pos(x as int, y as int) matches Some(p) ==> system.is_loaded(chunk_pos_of(p)),
    ensures
        final(cache).wf(system),
        shows(*final(cache), system, shown),
        pushed == (pixel_pos(x as int, y as int) matches Some(p) && shown(p) == target),
        pushed ==> final(stack)@ == old(stack)@.push(pixel_pos(x as int, y as int)->Some_0),
        !pushed ==> final(stack)@ == old(stack)@,
{
    if -0x8000_0000 <= x && x <= 0x7FFF_FFFF && -0x8000_0000 <= y && y <= 0x7FFF_FFFF {
        let seen = see(cache, system, x, y, Ghost(shown));
        if seen.rgb() == target {
            stack.push(IVec2 { x: x as i32, y: y as i32 });
            return true;
        }
    }
    false
}

/// Repaints the pixel `cell`, which was taken off the stack, and puts on
/// the stack those of its four neighbours that still have the colour that
/// is replaced.
fn repaint(
    cache: &mut CanvasCache,
    system: &ChunkSystem,
    stack: &mut Vec<IVec2>,
    pixels: &mut Vec<GlobalPixelRGBA>,
    cell: IVec2,
    seed: IVec2,
    target: ColorRGB,
    color: ColorRGB,
    Ghost(sight): Ghost<Sight>,
    Ghost(done): Ghost<Set<IVec2>>,
    Ghost(parents): Ghost<Seq<IVec2>>,
) -> (more_parents: Ghost<Seq<IVec2>>)
    requires
        old(cache).wf(system),
        system.wf(),
        reach_around(seed, seed, 301).loaded(system),
        target != color,
        shows(*old(cache), system, fill_sight(sight, done, color)),
        old(cache).has_cell(chunk_pos_of(cell)),
        manhattan(seed, cell) <= 300,
        sight(cell) == target,
        !done.contains(cell),
        fill_stacked(sight, seed, target, done, old(stack)@, parents),
    ensures
        final(cache).wf(system),
        shows(*final(cache), system, fill_sight(sight, done.insert(cell), color)),
        final(pixels)@ == old(pixels)@.push(GlobalPixelRGBA { pos: cell, color: opaque(color) }),
        fill_stacked(sight, seed, target, done.insert(cell), final(stack)@, more_parents@),
        old(stack)@.len() <= final(stack)@.len(),
        forall|i: int| 0 <= i < old(stack)@.len() ==> final(stack)@[i] == old(stack)@[i],
        forall|b: IVec2| #[trigger]
            adjacent(cell, b) && sight(b) == target && !done.contains(b) && b != cell ==> final(stack)@.contains(b),
{
    let ghost reach = reach_around(seed, seed, 301);
    let ghost grown = done.insert(cell);
    let ghost shown = fill_sight(sight, grown, color);
    let paint = ColorRGBA { r: color.r, g: color.g, b: color.b, a: 255 };
    mark(cache, system, cell, paint, Ghost(fill_sight(sight, done, color)));
    pixels.push(GlobalPixelRGBA { pos: cell, color: paint });
    proof {
        assert(shows(*cache, system, shown)) by {
            assert forall|g: IVec2| system.is_loaded(chunk_pos_of(g)) implies #[trigger] cache.color_at(
                system,
                g,
            ) == shown(g) by {
                assert(cache.color_at(system, g) == sight_with(
                    fill_sight(sight, done, color),
                    cell,
                    paint,
                )(g));
            }
        }
        lemma_grow_keeps_stacked(sight, seed, target, done, stack@, parents, cell);
        lemma_neighbours_in_reach(seed, cell, reach, system);
    }
    let ghost mut ps = parents;
    let ghost s0 = stack@;
    let x = cell.x as i64;
    let y = cell.y as i64;
    let left = visit(cache, system, stack, x - 1, y, target, Ghost(shown));
    proof {
        if left {
            lemma_push_keeps_stacked(sight, seed, target, grown, s0, ps, cell, stack@.last());
            ps = ps.push(cell);
        }
    }
    let ghost s1 = stack@;
    let right = visit(cache, system, stack, x + 1, y, target, Ghost(shown));
    proof {
        if right {
            lemma_push_keeps_stacked(sight, seed, target, grown, s1, ps, cell, stack@.last());
            ps = ps.push(cell);
        }
    }
    let ghost s2 = stack@;
    let up = visit(cache, system, stack, x, y - 1, target, Ghost(shown));
    proof {
        if up {
            lemma_push_keeps_stacked(sight, seed, target, grown, s2, ps, cell, stack@.last());
            ps = ps.push(cell);
        }
    }
    let ghost s3 = stack@;
    let down = visit(cache, system, stack, x, y + 1, target, Ghost(shown));
    proof {
        if down {
            lemma_push_keeps_stacked(sight, seed, target, grown, s3, ps, cell, stack@.last());
            ps = ps.push(cell);
        }
        let s4 = stack@;
        assert forall|b: IVec2| #[trigger]
            adjacent(cell, b) && sight(b) == target && !done.contains(b) && b != cell implies s4.contains(
            b,
        ) by {
            assert(shown(b) == target);
            let bx = b.x as int;
            let by = b.y as int;
            if bx == x - 1 && by == y {
                assert(s1[s0.len() as int] == b);
                assert(s4[s0.len() as int] == b);
            } else if bx == x + 1 && by == y {
                assert(s2[s1.len() as int] == b);
                assert(s4[s1.len() as int] == b);
            } else if bx == x && by == y - 1 {
                assert(s3[s2.len() as int] == b);
                assert(s4[s2.len() as int] == b);
            } else {
                assert(bx == x && by == y + 1);
                assert(s4[s3.len() as int] == b);
            }
        }
    }
    Ghost(ps)
}

/// The pixels that the flood fill repaints: every pixel that is reached
/// from `seed` by steps from pixel to adjacent pixel over pixels of the
/// colour `target`, no further than 300 steps (in Manhattan distance) from
/// the seed. Each is listed once, in the colour `color`.
pub fn fill_pixels(system: &ChunkSystem, seed: IVec2, target: ColorRGB, color: ColorRGB) -> (pixels:
    Vec<GlobalPixelRGBA>)
    requires
        system.wf(),
        reach_around(seed, seed, 301).loaded(system),
        target != color,
    ensures
        pixel_positions(pixels@).no_duplicates(),
        pixels@.len() <= 361201,
        forall|k: int| 0 <= k < pixels@.len() ==> (#[trigger] pixels@[k]).color == opaque(color),
        forall|p: IVec2| #[trigger]
            pixel_positions(pixels@).contains(p) <==> in_flood(
                |g: IVec2| system.pixel_at(g),
                seed,
                target,
                p,
            ),
{
    let ghost sight: Sight = |g: IVec2| system.pixel_at(g);
    let ghost reach = reach_around(seed, seed, 301);
    let mut pixels: Vec<GlobalPixelRGBA> = Vec::new();
    let mut cache = CanvasCache::new();
    assert(cache.wf(system)) by {
        assert(crate::canvas_cache::copied_positions(cache.cells@) =~= Seq::<IVec2>::empty());
    }
    proof {
        lemma_reach_loaded(reach, system, seed);
    }
    let first = see(&mut cache, system, seed.x as i64, seed.y as i64, Ghost(sight));
    if first.rgb() != target {
        proof {
            assert(pixel_positions(pixels@) =~= Seq::<IVec2>::empty());
            assert forall|p: IVec2| !in_flood(sight, seed, target, p) by {
                if in_flood(sight, seed, target, p) {
                    let steps = choose|steps: nat| #[trigger] flooded(sight, seed, target, p, steps);
                    lemma_flood_needs_seed(sight, seed, target, p, steps);
                }
            }
        }
        return pixels;
    }
    let mut stack: Vec<IVec2> = Vec::new();
    stack.push(seed);
    let ghost mut done: Set<IVec2> = Set::empty();
    let ghost mut parents: Seq<IVec2> = seq![seed];
    proof {
        assert(pixel_positions(pixels@) =~= Seq::<IVec2>::empty());
        assert(stack@[0] == seed);
        assert(shows(cache, system, fill_sight(sight, done, color)));
        lemma_waiting_bound(sight, done, seed, target, 361201);
    }
    loop
        invariant
            system.wf(),
            cache.wf(system),
            reach == reach_around(seed, seed, 301),
            reach.loaded(system),
            target != color,
            sight == (|g: IVec2| system.pixel_at(g)),
            shows(cache, system, fill_sight(sight, done, color)),
            fill_listed(sight, seed, target, color, done, pixels@),
            fill_stacked(sight, seed, target, done, stack@, parents),
            fill_closed(sight, seed, target, done, stack@),
            pixels@.len() + waiting(sight, done, seed, target, 361201) <= 361201,
        ensures
            stack@.len() == 0,
        decreases waiting(sight, done, seed, target, 361201), stack@.len(),
    {
        let ghost stack_before = stack@;
        let ghost parents_before = parents;
        let cell = match stack.pop() {
            Some(c) => c,
            None => {
                break ;
            },
        };
        let ghost parent = parents.last();
        proof {
            parents = parents.drop_last();
            assert(stack@ =~= stack_before.drop_last());
            assert(stack_before[stack_before.len() - 1] == cell);
            assert(parents_before[stack_before.len() - 1] == parent);
            lemma_grow_keeps_stacked(sight, seed, target, done, stack_before, parents_before, cell);
        }
        let far = distance_squared_int32(seed, cell) > 300;
        let mut skip = far;
        if !far {
            proof {
                assert(reach.holds(cell.x as int, cell.y as int));
                lemma_reach_loaded(reach, system, cell);
            }
            let seen = see(
                &mut cache,
                system,
                cell.x as i64,
                cell.y as i64,
                Ghost(fill_sight(sight, done, color)),
            );
            if seen.rgb() != target {
                skip = true;
            }
        }
        if skip {
            proof {
                lemma_skip_keeps_closed(sight, seed, target, done, stack_before);
            }
            continue ;
        }
        proof {
            lemma_repaint_one(sight, done, seed, target, cell, 361201);
            lemma_paint_keeps_listed(sight, seed, target, color, done, pixels@, cell, parent);
        }
        let more = repaint(
            &mut cache,
            system,
            &mut stack,
            &mut pixels,
            cell,
            seed,
            target,
            color,
            Ghost(sight),
            Ghost(done),
            Ghost(parents),
        );
        proof {
            lemma_paint_keeps_closed(sight, seed, target, done, stack_before, stack@);
            parents = more@;
            done = done.insert(cell);
        }
    }
    proof {
        assert forall|p: IVec2| #[trigger]
            pixel_positions(pixels@).contains(p) <==> in_flood(sight, seed, target, p) by {
            if in_flood(sight, seed, target, p) {
                let steps = choose|steps: nat| #[trigger] flooded(sight, seed, target, p, steps);
                assert forall|a: IVec2, b: IVec2|
                    done.contains(a) && #[trigger] adjacent(a, b) && fillable(
                        sight,
                        seed,
                        target,
                        b,
                    ) implies done.contains(b) by {
                    if !done.contains(b) {
                        assert(stack@.contains(b));
                    }
                }
                assert(done.contains(seed)) by {
                    if !done.contains(seed) {
                        assert(stack@.contains(seed));
                    }
                }
                lemma_closed_holds_flood(sight, seed, target, done, p, steps);
            }
        }
    }
    pixels
}

/// The four neighbours of a pixel within 300 steps of the seed lie in loaded
/// chunks, as far as they lie on the canvas.
proof fn lemma_neighbours_in_reach(seed: IVec2, cell: IVec2, reach: Reach, system: &ChunkSystem)
    requires
        manhattan(seed, cell) <= 300,
        reach == reach_around(seed, seed, 301),
        reach.loaded(system),
    ensures
        forall|x: int, y: int|
            manhattan(cell, IVec2 { x: x as i32, y: y as i32 }) <= 1 && (#[trigger] pixel_pos(
                x,
                y,
            )) is Some ==> system.is_loaded(chunk_pos_of(IVec2 { x: x as i32, y: y as i32 })),
{
    assert forall|x: int, y: int|
        manhattan(cell, IVec2 { x: x as i32, y: y as i32 }) <= 1 && (#[trigger] pixel_pos(x, y)) is Some
        implies system.is_loaded(chunk_pos_of(IVec2 { x: x as i32, y: y as i32 })) by {
        let p = IVec2 { x: x as i32, y: y as i32 };
        assert(reach.holds(p.x as int, p.y as int));
        lemma_reach_loaded(reach, system, p);
    }
}

} // verus!
