//! Writing the pixels of a stroke to the canvas: into the chunks that hold
//! them, with a record of what they replace.

use vstd::prelude::*;
use crate::chunk::chunk::{
    changed_pixels, delivered, ChunkInstance, Delivery,
};
use crate::chunk::layer::{rgb_at, rgb_put_all, ChunkPixelRGB, ChunkPixelRGBA};
use crate::chunk::system::{
    chunk_pos_of, chunk_positions, local_pos_of, ChunkSystem,
};
use crate::chunk::writer::{
    cell_positions, lemma_touched_chunks, pixels_in_chunk, queued_of, touched_chunks, write_of,
    writes_for, ChunkCacheCell, ChunkWriter, ChunkWriterRGBA,
};
use crate::history::{pixel_positions, History};
use crate::id::SessionHandle;
use crate::limits::WHOLE_CHUNK_THRESHOLD;
use crate::pixel::{ColorRGB, ColorRGBA, GlobalPixelRGBA};
use crate::vector::IVec2;

verus! {

/// The colour without opacity.
pub open spec fn rgb_of(color: ColorRGBA) -> ColorRGB {
    ColorRGB { r: color.r, g: color.g, b: color.b }
}

/// The colour at `at` after the writes `pixels`, where it was `before`: the
/// last write to `at` decides.
pub open spec fn painted(before: ColorRGB, pixels: Seq<GlobalPixelRGBA>, at: IVec2) -> ColorRGB
    decreases pixels.len(),
{
    if pixels.len() == 0 {
        before
    } else if pixels.last().pos == at {
        rgb_of(pixels.last().color)
    } else {
        painted(before, pixels.drop_last(), at)
    }
}

/// The pixel `p` asks for another colour than the canvas holds.
pub open spec fn differs(canvas: spec_fn(IVec2) -> ColorRGB, p: GlobalPixelRGBA) -> bool {
    rgb_of(p.color) != canvas(p.pos)
}

/// Some pixel of `ordered` asks for another colour than the canvas holds.
pub open spec fn any_differs(canvas: spec_fn(IVec2) -> ColorRGB, ordered: Seq<GlobalPixelRGBA>) -> bool
    decreases ordered.len(),
{
    if ordered.len() == 0 {
        false
    } else {
        any_differs(canvas, ordered.drop_last()) || differs(canvas, ordered.last())
    }
}

/// The snapshot after the pixels `ordered` were held against the canvas:
/// each position where another colour is asked for is recorded once, with
/// the colour that the canvas holds.
pub open spec fn recorded(
    snapshot: Seq<GlobalPixelRGBA>,
    canvas: spec_fn(IVec2) -> ColorRGB,
    ordered: Seq<GlobalPixelRGBA>,
) -> Seq<GlobalPixelRGBA>
    decreases ordered.len(),
{
    if ordered.len() == 0 {
        snapshot
    } else {
        let so_far = recorded(snapshot, canvas, ordered.drop_last());
        let p = ordered.last();
        if differs(canvas, p) && !pixel_positions(so_far).contains(p.pos) {
            so_far.push(
                GlobalPixelRGBA {
                    pos: p.pos,
                    color: ColorRGBA {
                        r: canvas(p.pos).r,
                        g: canvas(p.pos).g,
                        b: canvas(p.pos).b,
                        a: 255,
                    },
                },
            )
        } else {
            so_far
        }
    }
}

/// The pixels of a stroke in the order in which they are written: chunk by
/// chunk as the stroke reaches the chunks `touched`, in stroke order within
/// each chunk.
pub open spec fn stroke_order(pixels: Seq<GlobalPixelRGBA>, touched: Seq<IVec2>) -> Seq<
    GlobalPixelRGBA,
>
    decreases touched.len(),
{
    if touched.len() == 0 {
        Seq::empty()
    } else {
        stroke_order(pixels, touched.drop_last()) + pixels_in_chunk(pixels, touched.last())
    }
}

/// The frames that one chunk sends after the writes `writes`: the whole
/// chunk to every watcher where the writes are more than a fifth of the
/// tile, else a pixel pack of the writes that changed the base, else none.
pub open spec fn cell_frames(after: ChunkInstance, base_before: Seq<u8>, writes: Seq<ChunkPixelRGB>) -> Seq<
    (SessionHandle, Seq<u8>),
> {
    if writes.len() > 13107 {
        after.image_frames(after.linked_sessions@)
    } else if changed_pixels(base_before, writes).len() > 0 {
        after.pack_frames(after.linked_sessions@, changed_pixels(base_before, writes))
    } else {
        Seq::empty()
    }
}

/// The frames that a stroke sends: those of each touched chunk, in the
/// order in which the stroke reaches the chunks.
pub open spec fn stroke_frames(
    before: Seq<ChunkInstance>,
    after: Seq<ChunkInstance>,
    pixels: Seq<GlobalPixelRGBA>,
    touched: Seq<IVec2>,
) -> Seq<(SessionHandle, Seq<u8>)>
    decreases touched.len(),
{
    if touched.len() == 0 {
        Seq::empty()
    } else {
        let at = chunk_positions(before).index_of(touched.last());
        stroke_frames(before, after, pixels, touched.drop_last()) + cell_frames(
            after[at],
            before[at].pixels(),
            writes_for(pixels, touched.last()),
        )
    }
}

/// The pixels that a cell holds, as they stand on the canvas.
pub open spec fn cell_pixels(queued: Seq<(ChunkPixelRGBA, IVec2)>) -> Seq<GlobalPixelRGBA> {
    queued.map_values(|q: (ChunkPixelRGBA, IVec2)| GlobalPixelRGBA { pos: q.1, color: q.0.color })
}

/// The writes that a cell makes to the base of its chunk.
pub open spec fn cell_writes(queued: Seq<(ChunkPixelRGBA, IVec2)>) -> Seq<ChunkPixelRGB> {
    queued.map_values(
        |q: (ChunkPixelRGBA, IVec2)| ChunkPixelRGB { pos: q.0.pos, color: rgb_of(q.0.color) },
    )
}

/// Recording two runs of pixels one after the other is recording them as
/// one run.
pub proof fn lemma_recorded_concat(
    snapshot: Seq<GlobalPixelRGBA>,
    canvas: spec_fn(IVec2) -> ColorRGB,
    first: Seq<GlobalPixelRGBA>,
    second: Seq<GlobalPixelRGBA>,
)
    ensures
        recorded(snapshot, canvas, first + second) == recorded(
            recorded(snapshot, canvas, first),
            canvas,
            second,
        ),
        any_differs(canvas, first + second) == (any_differs(canvas, first) || any_differs(
            canvas,
            second,
        )),
    decreases second.len(),
{
    if second.len() == 0 {
        assert(first + second =~= first);
    } else {
        assert((first + second).drop_last() =~= first + second.drop_last());
        assert((first + second).last() == second.last());
        lemma_recorded_concat(snapshot, canvas, first, second.drop_last());
    }
}

/// Where no pixel asks for another colour, nothing is recorded.
pub proof fn lemma_recorded_nothing(
    snapshot: Seq<GlobalPixelRGBA>,
    canvas: spec_fn(IVec2) -> ColorRGB,
    ordered: Seq<GlobalPixelRGBA>,
)
    requires
        !any_differs(canvas, ordered),
    ensures
        recorded(snapshot, canvas, ordered) == snapshot,
    decreases ordered.len(),
{
    if ordered.len() > 0 {
        lemma_recorded_nothing(snapshot, canvas, ordered.drop_last());
    }
}

/// Recording depends on the canvas only where the pixels lie.
pub proof fn lemma_recorded_same_canvas(
    snapshot: Seq<GlobalPixelRGBA>,
    a: spec_fn(IVec2) -> ColorRGB,
    b: spec_fn(IVec2) -> ColorRGB,
    ordered: Seq<GlobalPixelRGBA>,
)
    requires
        forall|i: int| 0 <= i < ordered.len() ==> a(#[trigger] ordered[i].pos) == b(ordered[i].pos),
    ensures
        recorded(snapshot, a, ordered) == recorded(snapshot, b, ordered),
        any_differs(a, ordered) == any_differs(b, ordered),
    decreases ordered.len(),
{
    if ordered.len() > 0 {
        let front = ordered.drop_last();
        assert forall|i: int| 0 <= i < front.len() implies a(#[trigger] front[i].pos) == b(
            front[i].pos,
        ) by {
            assert(front[i] == ordered[i]);
        }
        lemma_recorded_same_canvas(snapshot, a, b, front);
        assert(a(ordered[ordered.len() - 1].pos) == b(ordered[ordered.len() - 1].pos));
    }
}

/// The frames of a stroke depend only on the chunks that it touched.
pub proof fn lemma_stroke_frames_same(
    before: Seq<ChunkInstance>,
    a: Seq<ChunkInstance>,
    b: Seq<ChunkInstance>,
    pixels: Seq<GlobalPixelRGBA>,
    touched: Seq<IVec2>,
)
    requires
        forall|k: int|
            0 <= k < touched.len() ==> a[chunk_positions(before).index_of(#[trigger] touched[k])]
                == b[chunk_positions(before).index_of(touched[k])],
    ensures
        stroke_frames(before, a, pixels, touched) == stroke_frames(before, b, pixels, touched),
    decreases touched.len(),
{
    if touched.len() > 0 {
        let front = touched.drop_last();
        assert forall|k: int| 0 <= k < front.len() implies a[chunk_positions(before).index_of(
            #[trigger] front[k],
        )] == b[chunk_positions(before).index_of(front[k])] by {
            assert(front[k] == touched[k]);
        }
        lemma_stroke_frames_same(before, a, b, pixels, front);
        assert(touched[touched.len() - 1] == touched.last());
    }
}

/// The colour that a run of writes leaves at a position of one chunk is
/// the colour of the last of them that lies there.
pub proof fn lemma_painted_in_chunk(base: Seq<u8>, pixels: Seq<GlobalPixelRGBA>, at: IVec2)
    requires
        base.len() == 196608,
    ensures
        rgb_put_all(base, writes_for(pixels, chunk_pos_of(at))).len() == 196608,
        rgb_at(rgb_put_all(base, writes_for(pixels, chunk_pos_of(at))), local_pos_of(at)) == painted(
            rgb_at(base, local_pos_of(at)),
            pixels,
            at,
        ),
    decreases pixels.len(),
{
    let chunk = chunk_pos_of(at);
    let test = |p: GlobalPixelRGBA| chunk_pos_of(p.pos) == chunk;
    reveal(Seq::filter);
    crate::chunk::layer::lemma_rgb_put_all_len(base, writes_for(pixels, chunk));
    if pixels.len() > 0 {
        let front = pixels.drop_last();
        let last = pixels.last();
        lemma_painted_in_chunk(base, front, at);
        crate::chunk::layer::lemma_rgb_put_all_len(base, writes_for(front, chunk));
        if chunk_pos_of(last.pos) == chunk {
            assert(pixels_in_chunk(pixels, chunk) =~= pixels_in_chunk(front, chunk).push(last));
            assert(writes_for(pixels, chunk) =~= writes_for(front, chunk).push(write_of(last)));
            assert(writes_for(pixels, chunk).drop_last() =~= writes_for(front, chunk));
            crate::chunk::layer::lemma_rgb_put_at(
                rgb_put_all(base, writes_for(front, chunk)),
                local_pos_of(last.pos),
                rgb_of(last.color),
                local_pos_of(at),
            );
            crate::chunk::system::lemma_chunk_and_local_coord(at.x);
            crate::chunk::system::lemma_chunk_and_local_coord(at.y);
            crate::chunk::system::lemma_chunk_and_local_coord(last.pos.x);
            crate::chunk::system::lemma_chunk_and_local_coord(last.pos.y);
        } else {
            assert(pixels_in_chunk(pixels, chunk) =~= pixels_in_chunk(front, chunk));
        }
    }
}

/// The snapshot that a stroke adds to, as it stood before the stroke.
pub open spec fn open_snapshot(history: History) -> Seq<GlobalPixelRGBA> {
    if history.cells@.len() == 0 {
        Seq::empty()
    } else {
        history.cells@.last().pixels@
    }
}

/// `after` is `before` with the pixels `ordered` held against the canvas
/// and recorded: in the latest snapshot, or in a first one that is opened
/// when the first pixel is recorded.
pub open spec fn history_recorded(
    before: History,
    after: History,
    canvas: spec_fn(IVec2) -> ColorRGB,
    ordered: Seq<GlobalPixelRGBA>,
) -> bool {
    &&& after.cells@.len() == if before.cells@.len() == 0 && any_differs(canvas, ordered) {
        1
    } else {
        before.cells@.len() as int
    }
    &&& forall|i: int| 0 <= i < after.cells@.len() - 1 ==> #[trigger] after.cells@[i] == before.cells@[i]
    &&& after.cells@.len() > 0 ==> after.cells@.last().pixels@ == recorded(
        open_snapshot(before),
        canvas,
        ordered,
    )
}

/// What writing the pixels of a stroke does: every loaded chunk ends with
/// the stroke's writes to it applied in order, and is otherwise as it was
/// unless the stroke touched it; with `with_history`, the colour that each
/// changed position had before is recorded; and every touched chunk tells
/// its watchers, chunk by chunk in the order in which the stroke reaches
/// them.
pub open spec fn painted_on(
    system_before: ChunkSystem,
    system_after: ChunkSystem,
    history_before: History,
    history_after: History,
    sent_before: Seq<(SessionHandle, Seq<u8>)>,
    sent_after: Seq<(SessionHandle, Seq<u8>)>,
    pixels: Seq<GlobalPixelRGBA>,
    with_history: bool,
) -> bool {
    let touched = touched_chunks(pixels, chunk_positions(system_before.chunks@));
    &&& system_after.chunks@.len() == system_before.chunks@.len()
    &&& chunk_positions(system_after.chunks@) == chunk_positions(system_before.chunks@)
    &&& system_after.cleaned_up == system_before.cleaned_up
    &&& system_after.autosave_interval_ms == system_before.autosave_interval_ms
    &&& system_after.last_autosave_timestamp == system_before.last_autosave_timestamp
    &&& system_after.signal_garbage_collect == system_before.signal_garbage_collect
    &&& forall|j: int|
        0 <= j < system_before.chunks@.len() ==> {
            let was = system_before.chunks@[j];
            let now = #[trigger] system_after.chunks@[j];
            &&& now.linked_sessions == was.linked_sessions
            &&& now.compositor == was.compositor
            &&& now.pixels() == rgb_put_all(was.pixels(), writes_for(pixels, was.position))
            &&& !touched.contains(was.position) ==> now == was
        }
    &&& sent_after == sent_before + stroke_frames(
        system_before.chunks@,
        system_after.chunks@,
        pixels,
        touched,
    )
    &&& with_history ==> history_recorded(
        history_before,
        history_after,
        |g: IVec2| system_before.pixel_at(g),
        stroke_order(pixels, touched),
    )
    &&& !with_history ==> history_after.cells@ == history_before.cells@
}

/// The pixels of a cell lie in its chunk, each where its queued form says.
pub open spec fn cell_consistent(cell: ChunkCacheCell<ChunkPixelRGBA>) -> bool {
    forall|i: int|
        0 <= i < cell.queued_pixels@.len() ==> chunk_pos_of((#[trigger] cell.queued_pixels@[i]).1)
            == cell.chunk_pos && cell.queued_pixels@[i].0.pos == local_pos_of(
            cell.queued_pixels@[i].1,
        )
}

/// Writes the pixels of one cell into its chunk: the chunk is made to hold
/// its pixels; with `with_history`, every pixel that asks for another
/// colour than the chunk holds is recorded with the colour it replaces; and
/// the pixels are written, the whole chunk being sent where they are more
/// than a fifth of the tile.
pub fn write_cell(
    system: &mut ChunkSystem,
    history: &mut History,
    cell: &ChunkCacheCell<ChunkPixelRGBA>,
    with_history: bool,
    outbox: &mut Vec<Delivery>,
)
    requires
        old(system).wf(),
        old(history).wf(),
        cell.chunk < old(system).chunks@.len(),
        old(system).chunks@[cell.chunk as int].position == cell.chunk_pos,
        cell_consistent(*cell),
    ensures
        final(system).wf(),
        final(history).wf(),
        final(system).chunks@.len() == old(system).chunks@.len(),
        chunk_positions(final(system).chunks@) == chunk_positions(old(system).chunks@),
        final(system).cleaned_up == old(system).cleaned_up,
        final(system).autosave_interval_ms == old(system).autosave_interval_ms,
        final(system).last_autosave_timestamp == old(system).last_autosave_timestamp,
        final(system).signal_garbage_collect == old(system).signal_garbage_collect,
        forall|j: int|
            0 <= j < old(system).chunks@.len() && j != cell.chunk ==> #[trigger] final(system).chunks@[j] == old(system).chunks@[j],
        ({
            let was = old(system).chunks@[cell.chunk as int];
            let now = final(system).chunks@[cell.chunk as int];
            &&& now.position == was.position
            &&& now.linked_sessions == was.linked_sessions
            &&& now.compositor == was.compositor
            &&& now.pixels() == rgb_put_all(was.pixels(), cell_writes(cell.queued_pixels@))
            &&& delivered(final(outbox)@) == delivered(old(outbox)@) + cell_frames(
                now,
                was.pixels(),
                cell_writes(cell.queued_pixels@),
            )
            &&& with_history ==> history_recorded(
                *old(history),
                *final(history),
                |g: IVec2| rgb_at(was.pixels(), local_pos_of(g)),
                cell_pixels(cell.queued_pixels@),
            )
        }),
        !with_history ==> final(history).cells@ == old(history).cells@,
{
    let ghost was = system.chunks@[cell.chunk as int];
    let ghost chunks_before = system.chunks@;
    let ghost canvas = |g: IVec2| rgb_at(was.pixels(), local_pos_of(g));
    let ghost ordered = cell_pixels(cell.queued_pixels@);
    let ghost snap = open_snapshot(*history);
    let index = cell.chunk;
    system.chunks[index].allocate_image();
    let ghost held = system.chunks@[index as int];

    let mut writes: Vec<ChunkPixelRGB> = Vec::with_capacity(cell.queued_pixels.len());
    let mut i: usize = 0;
    proof {
        assert(ordered.take(0) =~= Seq::<GlobalPixelRGBA>::empty());
        assert(writes@ =~= cell_writes(cell.queued_pixels@.take(0)));
    }
    while i < cell.queued_pixels.len()
        invariant
            i <= cell.queued_pixels@.len(),
            index == cell.chunk,
            index < system.chunks@.len(),
            system.chunks@[index as int] == held,
            held.main_layer.is_allocated(),
            held.pixels() == was.pixels(),
            history.wf(),
            cell_consistent(*cell),
            canvas == |g: IVec2| rgb_at(was.pixels(), local_pos_of(g)),
            ordered == cell_pixels(cell.queued_pixels@),
            snap == open_snapshot(*old(history)),
            writes@ == cell_writes(cell.queued_pixels@.take(i as int)),
            !with_history ==> history.cells@ == old(history).cells@,
            with_history ==> history_recorded(
                *old(history),
                *history,
                canvas,
                ordered.take(i as int),
            ),
        decreases cell.queued_pixels@.len() - i,
    {
        let local = cell.queued_pixels[i].0;
        let global = cell.queued_pixels[i].1;
        proof {
            assert(ordered.take(i as int + 1).drop_last() =~= ordered.take(i as int));
            assert(ordered.take(i as int + 1).last() == GlobalPixelRGBA {
                pos: global,
                color: local.color,
            });
        }
        if with_history {
            let color = system.chunks[index].get_pixel_main(local.pos);
            if local.color.rgb() != color {
                let ghost h0 = *history;
                let entry = GlobalPixelRGBA { pos: global, color: color.rgba(255) };
                history.add_pixel(entry);
                proof {
                    let so_far = recorded(snap, canvas, ordered.take(i as int));
                    if h0.cells@.len() == 0 {
                        lemma_recorded_nothing(snap, canvas, ordered.take(i as int));
                        assert(pixel_positions(so_far) =~= Seq::<IVec2>::empty());
                        assert(history.cells@.last().pixels@ =~= so_far.push(entry));
                    }
                }
            }
        }
        writes.push(ChunkPixelRGB { pos: local.pos, color: local.color.rgb() });
        proof {
            assert(writes@ =~= cell_writes(cell.queued_pixels@.take(i as int + 1)));
        }
        i += 1;
    }
    proof {
        assert(cell.queued_pixels@.take(cell.queued_pixels@.len() as int) =~= cell.queued_pixels@);
        assert(ordered.take(ordered.len() as int) =~= ordered);
    }
    let send_whole_chunk = cell.queued_pixels.len() > WHOLE_CHUNK_THRESHOLD;
    system.chunks[index].set_pixels(writes.as_slice(), send_whole_chunk, outbox);
    proof {
        assert(chunk_positions(system.chunks@) =~= chunk_positions(chunks_before));
    }
}

/// Writes the pixels of a stroke to the canvas. Pixels of chunks that are
/// not loaded are left out.
///
/// Every loaded chunk ends with the stroke's writes to it applied in order;
/// with `with_history`, the colour that each changed position had before is
/// recorded in the latest snapshot; and every touched chunk tells its
/// watchers, chunk by chunk in the order in which the stroke reaches them.
pub fn set_pixels_main(
    system: &mut ChunkSystem,
    history: &mut History,
    pixels: &[GlobalPixelRGBA],
    with_history: bool,
    outbox: &mut Vec<Delivery>,
)
    requires
        old(system).wf(),
        old(history).wf(),
    ensures
        final(system).wf(),
        final(history).wf(),
        painted_on(
            *old(system),
            *final(system),
            *old(history),
            *final(history),
            delivered(old(outbox)@),
            delivered(final(outbox)@),
            pixels@,
            with_history,
        ),
        final(system).chunks@.len() == old(system).chunks@.len(),
        chunk_positions(final(system).chunks@) == chunk_positions(old(system).chunks@),
        final(system).cleaned_up == old(system).cleaned_up,
        final(system).autosave_interval_ms == old(system).autosave_interval_ms,
        final(system).last_autosave_timestamp == old(system).last_autosave_timestamp,
        final(system).signal_garbage_collect == old(system).signal_garbage_collect,
        forall|j: int|
            0 <= j < old(system).chunks@.len() ==> {
                let was = old(system).chunks@[j];
                let now = #[trigger] final(system).chunks@[j];
                &&& now.linked_sessions == was.linked_sessions
                &&& now.compositor == was.compositor
                &&& now.pixels() == rgb_put_all(was.pixels(), writes_for(pixels@, was.position))
                &&& !touched_chunks(pixels@, chunk_positions(old(system).chunks@)).contains(
                    was.position,
                ) ==> now == was
            },
        delivered(final(outbox)@) == delivered(old(outbox)@) + stroke_frames(
            old(system).chunks@,
            final(system).chunks@,
            pixels@,
            touched_chunks(pixels@, chunk_positions(old(system).chunks@)),
        ),
        with_history ==> history_recorded(
            *old(history),
            *final(history),
            |g: IVec2| old(system).pixel_at(g),
            stroke_order(pixels@, touched_chunks(pixels@, chunk_positions(old(system).chunks@))),
        ),
        !with_history ==> final(history).cells@ == old(history).cells@,
{
    let mut writer = ChunkWriterRGBA::new();
    writer.generate_affected(pixels, system);
    let ghost original = system.chunks@;
    let ghost loaded = chunk_positions(original);
    let ghost touched = touched_chunks(pixels@, loaded);
    let ghost sent = delivered(outbox@);
    let ghost canvas = |g: IVec2| old(system).pixel_at(g);
    let ghost first = *system;
    proof {
        lemma_touched_chunks(pixels@, loaded);
        assert(sent + stroke_frames(original, system.chunks@, pixels@, touched.take(0)) =~= sent);
        assert(stroke_order(pixels@, touched.take(0)) =~= Seq::<GlobalPixelRGBA>::empty());
    }
    let mut k: usize = 0;
    while k < writer.affected_chunks.len()
        invariant
            k <= writer.affected_chunks@.len(),
            writer.holds(pixels@, &first),
            first.chunks@ == original,
            first.wf(),
            loaded == chunk_positions(original),
            touched == touched_chunks(pixels@, loaded),
            touched == cell_positions(writer.affected_chunks@),
            touched.no_duplicates(),
            canvas == |g: IVec2| first.pixel_at(g),
            system.wf(),
            history.wf(),
            system.chunks@.len() == original.len(),
            chunk_positions(system.chunks@) == loaded,
            system.cleaned_up == old(system).cleaned_up,
            system.autosave_interval_ms == old(system).autosave_interval_ms,
            system.last_autosave_timestamp == old(system).last_autosave_timestamp,
            system.signal_garbage_collect == old(system).signal_garbage_collect,
            forall|j: int|
                0 <= j < original.len() ==> {
                    let was = original[j];
                    let now = #[trigger] system.chunks@[j];
                    &&& now.linked_sessions == was.linked_sessions
                    &&& now.compositor == was.compositor
                    &&& touched.take(k as int).contains(was.position) ==> now.pixels() == rgb_put_all(
                        was.pixels(),
                        writes_for(pixels@, was.position),
                    )
                    &&& !touched.take(k as int).contains(was.position) ==> now == was
                },
            delivered(outbox@) == sent + stroke_frames(
                original,
                system.chunks@,
                pixels@,
                touched.take(k as int),
            ),
            with_history ==> history_recorded(
                *old(history),
                *history,
                canvas,
                stroke_order(pixels@, touched.take(k as int)),
            ),
            !with_history ==> history.cells@ == old(history).cells@,
        decreases writer.affected_chunks@.len() - k,
    {
        let ghost here = touched[k as int];
        let ghost chunks_then = system.chunks@;
        let ghost history_then = *history;
        let ghost done = touched.take(k as int);
        proof {
            lemma_touched_chunks(pixels@, loaded);
            let cell = writer.affected_chunks@[k as int];
            assert(cell_positions(writer.affected_chunks@)[k as int] == cell.chunk_pos);
            assert(cell.chunk_pos == here);
            lemma_cell_of_stroke(pixels@, here);
            assert(cell_consistent(cell)) by {
                assert forall|i: int| 0 <= i < cell.queued_pixels@.len() implies chunk_pos_of(
                    (#[trigger] cell.queued_pixels@[i]).1,
                ) == cell.chunk_pos && cell.queued_pixels@[i].0.pos == local_pos_of(
                    cell.queued_pixels@[i].1,
                ) by {
                    assert(cell.queued_pixels@[i] == queued_of(pixels_in_chunk(pixels@, here)[i]));
                }
            }
            assert(!done.contains(here)) by {
                if done.contains(here) {
                    let w = choose|w: int| 0 <= w < done.len() && done[w] == here;
                    assert(touched[w] == here);
                }
            }
            assert(original[cell.chunk as int].position == here);
            assert(system.chunks@[cell.chunk as int] == original[cell.chunk as int]);
        }
        if writer.affected_chunks[k].queued_pixels.len() > 0 {
            write_cell(system, history, &writer.affected_chunks[k], with_history, outbox);
        }
        proof {
            let cell = writer.affected_chunks@[k as int];
            let at = cell.chunk as int;
            let was = original[at];
            let now = system.chunks@[at];
            let more = touched.take(k as int + 1);
            assert(more.drop_last() =~= done);
            assert(more.last() == here);
            assert(cell_writes(cell.queued_pixels@) =~= writes_for(pixels@, here));
            assert(cell_pixels(cell.queued_pixels@) =~= pixels_in_chunk(pixels@, here));
            assert(loaded.index_of(here) == at) by {
                let j = loaded.index_of(here);
                assert(loaded[at] == here);
                assert(loaded[j] == here);
            }
            if cell.queued_pixels@.len() == 0 {
                assert(writes_for(pixels@, here) =~= Seq::<ChunkPixelRGB>::empty());
                assert(pixels_in_chunk(pixels@, here) =~= Seq::<GlobalPixelRGBA>::empty());
                assert(cell_frames(now, was.pixels(), writes_for(pixels@, here)) =~= Seq::empty());
            }
            assert forall|j: int| 0 <= j < original.len() implies ({
                let was_j = original[j];
                let now_j = #[trigger] system.chunks@[j];
                &&& now_j.linked_sessions == was_j.linked_sessions
                &&& now_j.compositor == was_j.compositor
                &&& more.contains(was_j.position) ==> now_j.pixels() == rgb_put_all(
                    was_j.pixels(),
                    writes_for(pixels@, was_j.position),
                )
                &&& !more.contains(was_j.position) ==> now_j == was_j
            }) by {
                let was_j = original[j];
                assert(loaded[j] == was_j.position);
                if j == at {
                    assert(more[k as int] == here);
                } else {
                    assert(system.chunks@[j] == chunks_then[j]);
                    assert(was_j.position != here) by {
                        assert(loaded[at] == here);
                    }
                    if more.contains(was_j.position) {
                        let w = choose|w: int| 0 <= w < more.len() && more[w] == was_j.position;
                        assert(done[w] == was_j.position);
                    }
                    if done.contains(was_j.position) {
                        let w = choose|w: int| 0 <= w < done.len() && done[w] == was_j.position;
                        assert(more[w] == was_j.position);
                    }
                }
            }
            assert forall|m: int| 0 <= m < done.len() implies system.chunks@[loaded.index_of(
                #[trigger] done[m],
            )] == chunks_then[loaded.index_of(done[m])] by {
                assert(done[m] == touched[m]);
                assert(loaded.contains(touched[m]));
                let j = loaded.index_of(done[m]);
                assert(loaded[j] == done[m]);
                assert(j != at) by {
                    assert(loaded[at] == here);
                }
            }
            lemma_stroke_frames_same(original, system.chunks@, chunks_then, pixels@, done);
            if with_history {
                let chunk_canvas = |g: IVec2| rgb_at(was.pixels(), local_pos_of(g));
                let run = pixels_in_chunk(pixels@, here);
                let so_far = stroke_order(pixels@, done);
                assert(stroke_order(pixels@, more) == so_far + run);
                lemma_recorded_concat(open_snapshot(*old(history)), canvas, so_far, run);
                assert forall|i: int| 0 <= i < run.len() implies chunk_canvas(
                    #[trigger] run[i].pos,
                ) == canvas(run[i].pos) by {
                    assert(chunk_pos_of(run[i].pos) == here);
                }
                lemma_recorded_same_canvas(
                    open_snapshot(history_then),
                    chunk_canvas,
                    canvas,
                    run,
                );
                lemma_recorded_same_canvas(
                    recorded(open_snapshot(*old(history)), canvas, so_far),
                    chunk_canvas,
                    canvas,
                    run,
                );
                if cell.queued_pixels@.len() == 0 {
                    assert(so_far + run =~= so_far);
                } else if history_then.cells@.len() == 0 {
                    lemma_recorded_nothing(open_snapshot(*old(history)), canvas, so_far);
                }
            }
        }
        k += 1;
    }
    proof {
        assert(touched.take(touched.len() as int) =~= touched);
        lemma_touched_chunks(pixels@, loaded);
        assert forall|j: int| 0 <= j < original.len() implies ({
            let was = original[j];
            let now = #[trigger] system.chunks@[j];
            now.pixels() == rgb_put_all(was.pixels(), writes_for(pixels@, was.position))
        }) by {
            let was = original[j];
            assert(loaded[j] == was.position);
            if !touched.contains(was.position) {
                assert(pixels_in_chunk(pixels@, was.position).len() == 0);
                assert(writes_for(pixels@, was.position) =~= Seq::<ChunkPixelRGB>::empty());
            }
        }
    }
}

/// The pixels of a stroke that lie in one chunk lie in that chunk.
pub proof fn lemma_cell_of_stroke(pixels: Seq<GlobalPixelRGBA>, chunk: IVec2)
    ensures
        forall|i: int|
            0 <= i < pixels_in_chunk(pixels, chunk).len() ==> chunk_pos_of(
                (#[trigger] pixels_in_chunk(pixels, chunk)[i]).pos,
            ) == chunk,
        pixels_in_chunk(pixels, chunk).len() <= pixels.len(),
    decreases pixels.len(),
{
    reveal(Seq::filter);
    if pixels.len() > 0 {
        lemma_cell_of_stroke(pixels.drop_last(), chunk);
    }
}

/// What a fresh snapshot holds after a run of pixels was recorded: no
/// position twice; each entry with the colour of the canvas, for a pixel
/// of the run that asked for another; and an entry for every such pixel.
pub proof fn lemma_recorded_entries(canvas: spec_fn(IVec2) -> ColorRGB, ordered: Seq<GlobalPixelRGBA>)
    ensures
        pixel_positions(recorded(Seq::empty(), canvas, ordered)).no_duplicates(),
        forall|k: int|
            0 <= k < recorded(Seq::empty(), canvas, ordered).len() ==> {
                let e = #[trigger] recorded(Seq::empty(), canvas, ordered)[k];
                &&& rgb_of(e.color) == canvas(e.pos)
                &&& e.color.a == 255
                &&& exists|i: int|
                    0 <= i < ordered.len() && (#[trigger] ordered[i]).pos == e.pos && differs(
                        canvas,
                        ordered[i],
                    )
            },
        forall|i: int|
            0 <= i < ordered.len() && differs(canvas, #[trigger] ordered[i]) ==> pixel_positions(
                recorded(Seq::empty(), canvas, ordered),
            ).contains(ordered[i].pos),
        recorded(Seq::empty(), canvas, ordered).len() <= ordered.len(),
    decreases ordered.len(),
{
    let all = recorded(Seq::empty(), canvas, ordered);
    if ordered.len() == 0 {
        assert(pixel_positions(all) =~= Seq::<IVec2>::empty());
    } else {
        let front = ordered.drop_last();
        let p = ordered.last();
        let so_far = recorded(Seq::empty(), canvas, front);
        lemma_recorded_entries(canvas, front);
        let added = differs(canvas, p) && !pixel_positions(so_far).contains(p.pos);
        assert forall|k: int| 0 <= k < all.len() implies ({
            let e = #[trigger] all[k];
            &&& rgb_of(e.color) == canvas(e.pos)
            &&& e.color.a == 255
            &&& exists|i: int|
                0 <= i < ordered.len() && (#[trigger] ordered[i]).pos == e.pos && differs(
                    canvas,
                    ordered[i],
                )
        }) by {
            if k < so_far.len() {
                let e = so_far[k];
                assert(all[k] == e);
                let i = choose|i: int|
                    0 <= i < front.len() && (#[trigger] front[i]).pos == e.pos && differs(
                        canvas,
                        front[i],
                    );
                assert(ordered[i] == front[i]);
            } else {
                assert(ordered[ordered.len() - 1] == p);
            }
        }
        assert forall|i: int|
            0 <= i < ordered.len() && differs(canvas, #[trigger] ordered[i]) implies pixel_positions(
            all,
        ).contains(ordered[i].pos) by {
            if i < front.len() {
                assert(front[i] == ordered[i]);
                let w = choose|w: int|
                    0 <= w < pixel_positions(so_far).len() && pixel_positions(so_far)[w]
                        == front[i].pos;
                assert(pixel_positions(all)[w] == so_far[w].pos);
            } else {
                if pixel_positions(so_far).contains(p.pos) {
                    let w = choose|w: int|
                        0 <= w < pixel_positions(so_far).len() && pixel_positions(so_far)[w] == p.pos;
                    assert(pixel_positions(all)[w] == so_far[w].pos);
                } else {
                    assert(pixel_positions(all)[all.len() - 1] == p.pos);
                }
            }
        }
        if added {
            let ps = pixel_positions(all);
            assert forall|a: int, b: int| 0 <= a < ps.len() && 0 <= b < ps.len() && a != b implies ps[a]
                != ps[b] by {
                if a < so_far.len() {
                    assert(ps[a] == pixel_positions(so_far)[a]);
                }
                if b < so_far.len() {
                    assert(ps[b] == pixel_positions(so_far)[b]);
                }
            }
        }
    }
}

/// Where every write to a position asks for the same colour, the position
/// ends with that colour if it was written at all, and stays as it was if
/// not.
pub proof fn lemma_painted_all_same(
    before: ColorRGB,
    writes: Seq<GlobalPixelRGBA>,
    at: IVec2,
    color: ColorRGB,
)
    requires
        forall|i: int|
            0 <= i < writes.len() && (#[trigger] writes[i]).pos == at ==> rgb_of(writes[i].color)
                == color,
    ensures
        painted(before, writes, at) == if pixel_positions(writes).contains(at) {
            color
        } else {
            before
        },
    decreases writes.len(),
{
    if writes.len() == 0 {
    } else {
        let front = writes.drop_last();
        assert forall|i: int| 0 <= i < front.len() && (#[trigger] front[i]).pos == at implies rgb_of(
            front[i].color,
        ) == color by {
            assert(front[i] == writes[i]);
        }
        lemma_painted_all_same(before, front, at, color);
        let ps = pixel_positions(writes);
        if writes.last().pos == at {
            assert(writes[writes.len() - 1].pos == at);
            assert(ps[ps.len() - 1] == at);
        } else {
            if pixel_positions(front).contains(at) {
                let w = choose|w: int|
                    0 <= w < pixel_positions(front).len() && pixel_positions(front)[w] == at;
                assert(ps[w] == at);
            }
            if ps.contains(at) {
                let w = choose|w: int| 0 <= w < ps.len() && ps[w] == at;
                assert(pixel_positions(front)[w] == at);
            }
        }
    }
}

/// A pixel is written by a stroke exactly if the stroke holds it and its
/// chunk is among those that the stroke touches.
pub proof fn lemma_stroke_order_holds(
    pixels: Seq<GlobalPixelRGBA>,
    touched: Seq<IVec2>,
    p: GlobalPixelRGBA,
)
    requires
        touched.no_duplicates(),
    ensures
        stroke_order(pixels, touched).contains(p) <==> pixels.contains(p) && touched.contains(
            chunk_pos_of(p.pos),
        ),
    decreases touched.len(),
{
    if touched.len() == 0 {
    } else {
        let front = touched.drop_last();
        let here = touched.last();
        assert forall|a: int, b: int| 0 <= a < front.len() && 0 <= b < front.len() && a != b implies front[a]
            != front[b] by {
            assert(front[a] == touched[a] && front[b] == touched[b]);
        }
        lemma_stroke_order_holds(pixels, front, p);
        let test = |q: GlobalPixelRGBA| chunk_pos_of(q.pos) == here;
        crate::seq_facts::lemma_filter_members(pixels, test);
        let run = pixels_in_chunk(pixels, here);
        let so_far = stroke_order(pixels, front);
        let all = stroke_order(pixels, touched);
        assert(all == so_far + run);
        if all.contains(p) {
            let w = choose|w: int| 0 <= w < all.len() && all[w] == p;
            if w < so_far.len() {
                assert(so_far[w] == p);
                assert(so_far.contains(p));
                let f = choose|f: int| 0 <= f < front.len() && front[f] == chunk_pos_of(p.pos);
                assert(touched[f] == chunk_pos_of(p.pos));
            } else {
                assert(run[w - so_far.len()] == p);
                assert(run.contains(p));
                assert(touched[touched.len() - 1] == here);
            }
        }
        if pixels.contains(p) && touched.contains(chunk_pos_of(p.pos)) {
            let f = choose|f: int| 0 <= f < touched.len() && touched[f] == chunk_pos_of(p.pos);
            if f < front.len() {
                assert(front[f] == chunk_pos_of(p.pos));
                assert(so_far.contains(p));
                let w = choose|w: int| 0 <= w < so_far.len() && so_far[w] == p;
                assert(all[w] == p);
            } else {
                assert(run.contains(p));
                let w = choose|w: int| 0 <= w < run.len() && run[w] == p;
                assert(all[so_far.len() + w] == p);
            }
        }
    }
}

/// Undo gives every pixel of a loaded chunk its old colour back: where a
/// stroke `pixels` is painted on a canvas and the positions that it changed
/// are recorded in a fresh snapshot, writing the snapshot back leaves the
/// pixel `at` with the colour that it had before the stroke.
pub proof fn lemma_undo_restores_pixel(
    canvas: spec_fn(IVec2) -> ColorRGB,
    pixels: Seq<GlobalPixelRGBA>,
    loaded: Seq<IVec2>,
    at: IVec2,
)
    requires
        loaded.contains(chunk_pos_of(at)),
    ensures
        painted(
            painted(canvas(at), pixels, at),
            recorded(Seq::empty(), canvas, stroke_order(pixels, touched_chunks(pixels, loaded))),
            at,
        ) == canvas(at),
{
    let touched = touched_chunks(pixels, loaded);
    let ordered = stroke_order(pixels, touched);
    let snapshot = recorded(Seq::empty(), canvas, ordered);
    let after = painted(canvas(at), pixels, at);
    lemma_touched_chunks(pixels, loaded);
    lemma_recorded_entries(canvas, ordered);
    assert forall|k: int| 0 <= k < snapshot.len() && (#[trigger] snapshot[k]).pos == at implies rgb_of(
        snapshot[k].color,
    ) == canvas(at) by {}
    lemma_painted_all_same(after, snapshot, at, canvas(at));
    if pixel_positions(snapshot).contains(at) {
    } else {
        assert forall|i: int| 0 <= i < pixels.len() && (#[trigger] pixels[i]).pos == at implies rgb_of(
            pixels[i].color,
        ) == canvas(at) by {
            if differs(canvas, pixels[i]) {
                lemma_stroke_order_holds(pixels, touched, pixels[i]);
                assert(pixels.contains(pixels[i]));
                assert(touched.contains(chunk_pos_of(pixels[i].pos)));
                let w = choose|w: int| 0 <= w < ordered.len() && ordered[w] == pixels[i];
                assert(differs(canvas, ordered[w]));
                assert(pixel_positions(snapshot).contains(ordered[w].pos));
            }
        }
        lemma_painted_all_same(canvas(at), pixels, at, canvas(at));
    }
}

/// The undo law for chunk images: where a stroke is painted on the loaded
/// chunks and then the snapshot that it filled is written back, every
/// loaded chunk holds the image that it held before the stroke.
pub proof fn lemma_undo_restores_chunk(system: ChunkSystem, pixels: Seq<GlobalPixelRGBA>, j: int)
    requires
        system.wf(),
        0 <= j < system.chunks@.len(),
    ensures
        ({
            let was = system.chunks@[j].pixels();
            let here = system.chunks@[j].position;
            let snapshot = recorded(
                Seq::empty(),
                |g: IVec2| system.pixel_at(g),
                stroke_order(pixels, touched_chunks(pixels, chunk_positions(system.chunks@))),
            );
            rgb_put_all(rgb_put_all(was, writes_for(pixels, here)), writes_for(snapshot, here)) == was
        }),
{
    let was = system.chunks@[j].pixels();
    let here = system.chunks@[j].position;
    let loaded = chunk_positions(system.chunks@);
    let canvas = |g: IVec2| system.pixel_at(g);
    let snapshot = recorded(Seq::empty(), canvas, stroke_order(pixels, touched_chunks(pixels, loaded)));
    let painted_image = rgb_put_all(was, writes_for(pixels, here));
    let restored = rgb_put_all(painted_image, writes_for(snapshot, here));
    assert(loaded[j] == here);
    assert(was.len() == 196608);
    crate::chunk::layer::lemma_rgb_put_all_len(was, writes_for(pixels, here));
    crate::chunk::layer::lemma_rgb_put_all_len(painted_image, writes_for(snapshot, here));
    if -8388608 <= here.x <= 8388607 && -8388608 <= here.y <= 8388607 {
        assert forall|local: crate::vector::U8Vec2| #[trigger]
            rgb_at(restored, local) == rgb_at(was, local) by {
            let at = IVec2 {
                x: (here.x * 256 + local.x) as i32,
                y: (here.y * 256 + local.y) as i32,
            };
            assert(chunk_pos_of(at) == here && local_pos_of(at) == local);
            lemma_painted_in_chunk(was, pixels, at);
            lemma_painted_in_chunk(painted_image, snapshot, at);
            lemma_undo_restores_pixel(canvas, pixels, loaded, at);
            let k = loaded.index_of(here);
            assert(loaded[k] == here);
            assert(k == j);
            assert(canvas(at) == rgb_at(was, local));
        }
        crate::chunk::compositor::lemma_rgb_image_by_pixels(restored, was);
    } else {
        lemma_no_pixels_far_out(pixels, here);
        lemma_no_pixels_far_out(snapshot, here);
        assert(writes_for(pixels, here) =~= Seq::<ChunkPixelRGB>::empty());
        assert(writes_for(snapshot, here) =~= Seq::<ChunkPixelRGB>::empty());
    }
}

/// No pixel lies in a chunk whose coordinates no pixel coordinate reaches.
pub proof fn lemma_no_pixels_far_out(pixels: Seq<GlobalPixelRGBA>, chunk: IVec2)
    requires
        !(-8388608 <= chunk.x <= 8388607 && -8388608 <= chunk.y <= 8388607),
    ensures
        pixels_in_chunk(pixels, chunk).len() == 0,
    decreases pixels.len(),
{
    reveal(Seq::filter);
    if pixels.len() > 0 {
        lemma_no_pixels_far_out(pixels.drop_last(), chunk);
        crate::chunk::system::lemma_chunk_and_local_coord(pixels.last().pos.x);
        crate::chunk::system::lemma_chunk_and_local_coord(pixels.last().pos.y);
    }
}

} // verus!
