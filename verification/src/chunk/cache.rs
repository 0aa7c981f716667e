//! The chunk that a session touched last, and the writing of pixels into
//! the overlay of a session.

use vstd::prelude::*;
use crate::canvas::{cell_consistent, lemma_cell_of_stroke};
use crate::chunk::chunk::{delivered, ChunkInstance, Delivery};
use crate::chunk::compositor::{layer_ids, CompositionLayer, LayerEntry, LayerID};
use crate::chunk::layer::{filled, rgba_put_all, ChunkPixelRGBA};
use crate::chunk::system::{chunk_positions, ChunkSystem};
use crate::chunk::writer::{
    cell_positions, lemma_touched_chunks, pixels_in_chunk, queued_of, touched_chunks,
    ChunkCacheCell, ChunkWriter, ChunkWriterRGBA,
};
use crate::id::SessionHandle;
use crate::pixel::GlobalPixelRGBA;
use crate::vector::{IVec2, U8Vec2};

verus! {

/// Remembers where among the loaded chunks the chunk stands that was asked
/// for last.
pub struct ChunkCache {
    pub chunk: usize,
    pub chunk_pos: Option<IVec2>,
}

/// The writes that a cell makes to an overlay.
pub open spec fn layer_writes(queued: Seq<(ChunkPixelRGBA, IVec2)>) -> Seq<ChunkPixelRGBA> {
    queued.map_values(|q: (ChunkPixelRGBA, IVec2)| q.0)
}

/// The places in the chunk that a cell writes to.
pub open spec fn layer_coords(queued: Seq<(ChunkPixelRGBA, IVec2)>) -> Seq<U8Vec2> {
    queued.map_values(|q: (ChunkPixelRGBA, IVec2)| q.0.pos)
}

/// The writes that `pixels` make to the overlay of the chunk at
/// `chunk_pos`.
pub open spec fn overlay_writes(pixels: Seq<GlobalPixelRGBA>, chunk_pos: IVec2) -> Seq<ChunkPixelRGBA> {
    pixels_in_chunk(pixels, chunk_pos).map_values(|p: GlobalPixelRGBA| queued_of(p).0)
}

/// The bytes of the overlay named `id` among `layers`: transparent black
/// where there is none or it holds no image.
pub open spec fn overlay_bytes(layers: Seq<LayerEntry>, id: LayerID) -> Seq<u8> {
    if layer_ids(layers).contains(id) && layers[layer_ids(layers).index_of(id)].layer.layer.is_allocated() {
        layers[layer_ids(layers).index_of(id)].layer.layer.bytes()
    } else {
        filled(262144, 0)
    }
}

/// `after` is `before` with the writes `writes` made to the overlay named
/// `id`, which is added where it was missing: the other overlays are the
/// same, in the same order.
pub open spec fn overlay_written(
    before: Seq<LayerEntry>,
    after: Seq<LayerEntry>,
    id: LayerID,
    writes: Seq<ChunkPixelRGBA>,
) -> bool {
    &&& layer_ids(after) == if layer_ids(before).contains(id) {
        layer_ids(before)
    } else {
        layer_ids(before).push(id)
    }
    &&& forall|i: int|
        0 <= i < before.len() && before[i].id != id ==> #[trigger] after[i] == before[i]
    &&& overlay_bytes(after, id) == rgba_put_all(overlay_bytes(before, id), writes)
    &&& after[layer_ids(after).index_of(id)].layer.layer.is_allocated()
}


/// The places of the chunk at `chunk_pos` that `pixels` write to, one for
/// each write, in order.
pub open spec fn overlay_coords(pixels: Seq<GlobalPixelRGBA>, chunk_pos: IVec2) -> Seq<U8Vec2> {
    pixels_in_chunk(pixels, chunk_pos).map_values(|p: GlobalPixelRGBA| queued_of(p).0.pos)
}

/// The frames that tell of writes to an overlay: chunk by chunk in the
/// order of `touched`, each watcher of a chunk is told how the written
/// places of that chunk look to it now, by a pixel pack or, where the
/// places are too many for a pack, by the whole chunk.
pub open spec fn layer_frames(
    before: Seq<ChunkInstance>,
    after: Seq<ChunkInstance>,
    pixels: Seq<GlobalPixelRGBA>,
    touched: Seq<IVec2>,
) -> Seq<(SessionHandle, Seq<u8>)>
    decreases touched.len(),
{
    if touched.len() == 0 {
        Seq::empty()
    } else {
        let at = chunk_positions(before).index_of(touched.last());
        layer_frames(before, after, pixels, touched.drop_last()) + after[at].report_frames(
            after[at].linked_sessions@,
            overlay_coords(pixels, touched.last()),
        )
    }
}

/// The frames of writes to an overlay depend only on the chunks that were
/// touched.
pub proof fn lemma_layer_frames_same(
    before: Seq<ChunkInstance>,
    a: Seq<ChunkInstance>,
    b: Seq<ChunkInstance>,
    pixels: Seq<GlobalPixelRGBA>,
    touched: Seq<IVec2>,
)
    requires
        forall|k: int|
            0 <= k < touched.len() ==> a[chunk_positions(before).index_of(#[trigger] touched[k])]
                == b[chunk_positions(before).index_of(touched[k])],
    ensures
        layer_frames(before, a, pixels, touched) == layer_frames(before, b, pixels, touched),
    decreases touched.len(),
{
    if touched.len() > 0 {
        let front = touched.drop_last();
        assert forall|k: int| 0 <= k < front.len() implies a[chunk_positions(before).index_of(
            #[trigger] front[k],
        )] == b[chunk_positions(before).index_of(front[k])] by {
            assert(front[k] == touched[k]);
        }
        lemma_layer_frames_same(before, a, b, pixels, front);
        assert(touched[touched.len() - 1] == touched.last());
    }
}

/// `after` is `before` with `pixels` written into the overlay named
/// `layer_id` of each loaded chunk that they reach; the base pixels and the
/// watchers are as they were.
pub open spec fn layer_painted(
    before: ChunkSystem,
    after: ChunkSystem,
    layer_id: LayerID,
    pixels: Seq<GlobalPixelRGBA>,
) -> bool {
    &&& after.chunks@.len() == before.chunks@.len()
    &&& chunk_positions(after.chunks@) == chunk_positions(before.chunks@)
    &&& after.cleaned_up == before.cleaned_up
    &&& after.autosave_interval_ms == before.autosave_interval_ms
    &&& after.last_autosave_timestamp == before.last_autosave_timestamp
    &&& after.signal_garbage_collect == before.signal_garbage_collect
    &&& forall|j: int|
        0 <= j < before.chunks@.len() ==> {
            let was = before.chunks@[j];
            let now = #[trigger] after.chunks@[j];
            &&& now.linked_sessions == was.linked_sessions
            &&& now.modified == was.modified
            &&& now.pixels() == was.pixels()
            &&& touched_chunks(pixels, chunk_positions(before.chunks@)).contains(was.position)
                ==> overlay_written(
                was.compositor.layers@,
                now.compositor.layers@,
                layer_id,
                overlay_writes(pixels, was.position),
            )
            &&& !touched_chunks(pixels, chunk_positions(before.chunks@)).contains(was.position)
                ==> now == was
        }
}

impl ChunkCache {
    /// A cache that remembers nothing.
    pub fn new() -> (cache: Self)
        ensures
            cache.chunk_pos is None,
    {
        ChunkCache { chunk: 0, chunk_pos: None }
    }

    /// Where among the loaded chunks the chunk at `chunk_pos` stands, if it
    /// is loaded. The chunk remembered is looked at first.
    pub fn get(&mut self, system: &ChunkSystem, chunk_pos: IVec2) -> (found: Option<usize>)
        requires
            system.wf(),
        ensures
            found is Some <==> system.is_loaded(chunk_pos),
            found matches Some(i) ==> i == system.index_of(chunk_pos) && i < system.chunks@.len()
                && system.chunks@[i as int].position == chunk_pos,
            found is Some ==> final(self).chunk_pos == Some(chunk_pos) && final(self).chunk
                == found->Some_0,
            found is None ==> *final(self) == *old(self),
    {
        match self.chunk_pos {
            Some(cache_chunk_pos) => {
                if cache_chunk_pos == chunk_pos && self.chunk < system.chunks.len()
                    && system.chunks[self.chunk].position == chunk_pos {
                    proof {
                        let ps = chunk_positions(system.chunks@);
                        assert(ps[self.chunk as int] == chunk_pos);
                        let j = ps.index_of(chunk_pos);
                        assert(ps[j] == chunk_pos);
                    }
                    return Some(self.chunk);
                }
            },
            None => {},
        }
        match system.get_chunk(chunk_pos) {
            Some(index) => {
                self.chunk = index;
                self.chunk_pos = Some(chunk_pos);
                Some(index)
            },
            None => None,
        }
    }

    /// Writes the pixels of one cell into the overlay named `layer_id` of
    /// its chunk, which is added where the chunk has none of that name, and
    /// tells every watcher of the chunk how the written places look now.
    pub fn write_layer_cell(
        system: &mut ChunkSystem,
        layer_id: LayerID,
        cell: &ChunkCacheCell<ChunkPixelRGBA>,
        outbox: &mut Vec<Delivery>,
    )
        requires
            old(system).wf(),
            cell.chunk < old(system).chunks@.len(),
        ensures
            final(system).wf(),
            final(system).chunks@.len() == old(system).chunks@.len(),
            chunk_positions(final(system).chunks@) == chunk_positions(old(system).chunks@),
            final(system).cleaned_up == old(system).cleaned_up,
            final(system).autosave_interval_ms == old(system).autosave_interval_ms,
            final(system).last_autosave_timestamp == old(system).last_autosave_timestamp,
            final(system).signal_garbage_collect == old(system).signal_garbage_collect,
            forall|j: int|
                0 <= j < old(system).chunks@.len() && j != cell.chunk ==> #[trigger] final(system).chunks@[j] == old(system).chunks@[j],
            ({
                let was = old(system).chunks@[cell.chunk as int];
                let now = final(system).chunks@[cell.chunk as int];
                &&& now.position == was.position
                &&& now.linked_sessions == was.linked_sessions
                &&& now.modified == was.modified
                &&& now.pixels() == was.pixels()
                &&& now.main_layer.is_allocated()
                &&& overlay_written(
                    was.compositor.layers@,
                    now.compositor.layers@,
                    layer_id,
                    layer_writes(cell.queued_pixels@),
                )
                &&& delivered(final(outbox)@) == delivered(old(outbox)@) + now.report_frames(
                    now.linked_sessions@,
                    layer_coords(cell.queued_pixels@),
                )
            }),
    {
        let ghost chunks_before = system.chunks@;
        let ghost was = system.chunks@[cell.chunk as int];
        let index = cell.chunk;
        let mut writes: Vec<ChunkPixelRGBA> = Vec::with_capacity(cell.queued_pixels.len());
        let mut coords: Vec<U8Vec2> = Vec::with_capacity(cell.queued_pixels.len());
        let mut i: usize = 0;
        proof {
            assert(writes@ =~= layer_writes(cell.queued_pixels@.take(0)));
            assert(coords@ =~= layer_coords(cell.queued_pixels@.take(0)));
        }
        while i < cell.queued_pixels.len()
            invariant
                i <= cell.queued_pixels@.len(),
                writes@ == layer_writes(cell.queued_pixels@.take(i as int)),
                coords@ == layer_coords(cell.queued_pixels@.take(i as int)),
            decreases cell.queued_pixels@.len() - i,
        {
            let local = cell.queued_pixels[i].0;
            writes.push(local);
            coords.push(local.pos);
            proof {
                assert(writes@ =~= layer_writes(cell.queued_pixels@.take(i as int + 1)));
                assert(coords@ =~= layer_coords(cell.queued_pixels@.take(i as int + 1)));
            }
            i += 1;
        }
        proof {
            assert(cell.queued_pixels@.take(cell.queued_pixels@.len() as int)
                =~= cell.queued_pixels@);
        }
        system.chunks[index].paint_overlay(&layer_id, writes.as_slice());
        system.chunks[index].allocate_image();
        proof {
            assert(chunk_positions(system.chunks@) =~= chunk_positions(chunks_before));
        }
        let ghost chunks_painted = system.chunks@;
        system.chunks[index].send_pixel_updates(coords.as_slice(), outbox);
        proof {
            assert(chunk_positions(system.chunks@) =~= chunk_positions(chunks_before));
            assert forall|j: int| 0 <= j < system.chunks@.len() implies (#[trigger] system.chunks@[j]).wf() by {
                if j != index {
                    assert(system.chunks@[j] == chunks_painted[j]);
                }
            }
        }
    }

    /// Writes `pixels` into the overlay named `layer_id`, chunk by chunk in
    /// the order in which the pixels reach the chunks, and tells the
    /// watchers of each chunk how the written places look now. Pixels of
    /// chunks that are not loaded are left out.
    pub fn set_pixels_for_layer(
        &mut self,
        system: &mut ChunkSystem,
        layer_id: LayerID,
        pixels: &[GlobalPixelRGBA],
        outbox: &mut Vec<Delivery>,
    )
        requires
            old(system).wf(),
        ensures
            final(system).wf(),
            *final(self) == *old(self),
            layer_painted(*old(system), *final(system), layer_id, pixels@),
            delivered(final(outbox)@) == delivered(old(outbox)@) + layer_frames(
                old(system).chunks@,
                final(system).chunks@,
                pixels@,
                touched_chunks(pixels@, chunk_positions(old(system).chunks@)),
            ),
    {
        let mut writer = ChunkWriterRGBA::new();
        writer.generate_affected(pixels, system);
        let ghost original = system.chunks@;
        let ghost loaded = chunk_positions(original);
        let ghost touched = touched_chunks(pixels@, loaded);
        let ghost sent = delivered(outbox@);
        let ghost first = *system;
        proof {
            lemma_touched_chunks(pixels@, loaded);
            assert(sent + layer_frames(original, system.chunks@, pixels@, touched.take(0)) =~= sent);
        }
        let mut k: usize = 0;
        while k < writer.affected_chunks.len()
            invariant
                k <= writer.affected_chunks@.len(),
                writer.holds(pixels@, &first),
                first.chunks@ == original,
                first.wf(),
                loaded == chunk_positions(original),
                touched == touched_chunks(pixels@, loaded),
                touched == cell_positions(writer.affected_chunks@),
                touched.no_duplicates(),
                system.wf(),
                system.chunks@.len() == original.len(),
                chunk_positions(system.chunks@) == loaded,
                system.cleaned_up == old(system).cleaned_up,
                system.autosave_interval_ms == old(system).autosave_interval_ms,
                system.last_autosave_timestamp == old(system).last_autosave_timestamp,
                system.signal_garbage_collect == old(system).signal_garbage_collect,
                forall|j: int|
                    0 <= j < original.len() ==> {
                        let was = original[j];
                        let now = #[trigger] system.chunks@[j];
                        &&& now.linked_sessions == was.linked_sessions
                        &&& now.modified == was.modified
                        &&& now.pixels() == was.pixels()
                        &&& touched.take(k as int).contains(was.position) ==> overlay_written(
                            was.compositor.layers@,
                            now.compositor.layers@,
                            layer_id,
                            overlay_writes(pixels@, was.position),
                        )
                        &&& !touched.take(k as int).contains(was.position) ==> now == was
                    },
                delivered(outbox@) == sent + layer_frames(
                    original,
                    system.chunks@,
                    pixels@,
                    touched.take(k as int),
                ),
            decreases writer.affected_chunks@.len() - k,
        {
            let ghost here = touched[k as int];
            let ghost chunks_then = system.chunks@;
            let ghost done = touched.take(k as int);
            let ghost frames_then = delivered(outbox@);
            proof {
                lemma_touched_chunks(pixels@, loaded);
                let cell = writer.affected_chunks@[k as int];
                assert(cell_positions(writer.affected_chunks@)[k as int] == cell.chunk_pos);
                lemma_cell_of_stroke(pixels@, here);
                assert(!done.contains(here)) by {
                    if done.contains(here) {
                        let w = choose|w: int| 0 <= w < done.len() && done[w] == here;
                        assert(touched[w] == here);
                    }
                }
                assert(original[cell.chunk as int].position == here);
                assert(system.chunks@[cell.chunk as int] == original[cell.chunk as int]);
            }
            Self::write_layer_cell(system, layer_id, &writer.affected_chunks[k], outbox);
            proof {
                let cell = writer.affected_chunks@[k as int];
                let at = cell.chunk as int;
                let more = touched.take(k as int + 1);
                assert(more.drop_last() =~= done);
                assert(more.last() == here);
                assert(layer_writes(cell.queued_pixels@) =~= overlay_writes(pixels@, here));
                assert forall|j: int| 0 <= j < original.len() implies ({
                    let was_j = original[j];
                    let now_j = #[trigger] system.chunks@[j];
                    &&& now_j.linked_sessions == was_j.linked_sessions
                    &&& now_j.modified == was_j.modified
                    &&& now_j.pixels() == was_j.pixels()
                    &&& more.contains(was_j.position) ==> overlay_written(
                        was_j.compositor.layers@,
                        now_j.compositor.layers@,
                        layer_id,
                        overlay_writes(pixels@, was_j.position),
                    )
                    &&& !more.contains(was_j.position) ==> now_j == was_j
                }) by {
                    let was_j = original[j];
                    assert(loaded[j] == was_j.position);
                    if j == at {
                        assert(more[k as int] == here);
                    } else {
                        assert(system.chunks@[j] == chunks_then[j]);
                        assert(was_j.position != here) by {
                            assert(loaded[at] == here);
                        }
                        if more.contains(was_j.position) {
                            let w = choose|w: int| 0 <= w < more.len() && more[w] == was_j.position;
                            assert(done[w] == was_j.position);
                        }
                        if done.contains(was_j.position) {
                            let w = choose|w: int| 0 <= w < done.len() && done[w] == was_j.position;
                            assert(more[w] == was_j.position);
                        }
                    }
                }
                assert forall|m: int| 0 <= m < done.len() implies system.chunks@[loaded.index_of(
                    #[trigger] done[m],
                )] == chunks_then[loaded.index_of(done[m])] by {
                    assert(done[m] == touched[m]);
                    assert(loaded.contains(touched[m]));
                    let j = loaded.index_of(done[m]);
                    assert(loaded[j] == done[m]);
                    assert(j != at) by {
                        assert(loaded[at] == here);
                    }
                }
                lemma_layer_frames_same(original, system.chunks@, chunks_then, pixels@, done);
                assert(layer_coords(cell.queued_pixels@) =~= overlay_coords(pixels@, here));
                assert(loaded.index_of(here) == at) by {
                    assert(loaded[at] == here);
                    assert(loaded.contains(here));
                    assert(loaded[loaded.index_of(here)] == here);
                }
                assert(delivered(outbox@) =~= sent + layer_frames(
                    original,
                    system.chunks@,
                    pixels@,
                    more,
                ));
            }
            k += 1;
        }
        proof {
            assert(touched.take(touched.len() as int) =~= touched);
        }
    }
}

} // verus!
