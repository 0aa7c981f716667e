//! The chunks that are loaded, and when they are saved and let go.

use vstd::prelude::*;
use crate::chunk::chunk::{upper_pos, ChunkInstance};
use crate::chunk::compositor::{LayerEntry, LayerID};
use crate::compression::lz4_block;
use crate::database::CompressionType;
use crate::pixel::ColorRGB;
use crate::chunk::layer::rgb_at;
use crate::seq_facts::{lemma_filter_keeps, lemma_filter_none, lemma_filter_step};
use crate::signal::Signal;
use crate::vector::{IVec2, U8Vec2};

verus! {

/// What the chunk system is asked to do when it next runs.
#[derive(Clone, Copy, PartialEq, Eq, Structural, Debug)]
pub enum ChunkSystemSignal {
    /// Let go of the chunks that nobody watches.
    GarbageCollect,
    /// Take the overlay away; its pixels are written to the base by the
    /// session that owns it.
    SubmitAndRemoveLayer(LayerID),
    /// Take the overlay away.
    RemoveLayer(LayerID),
}

/// A block to be written to storage.
pub struct ChunkSave {
    pub position: IVec2,
    pub data: Vec<u8>,
    pub compression_type: CompressionType,
}

/// What a collection found: the chunks to save first, and all chunks to
/// let go.
pub struct GarbageCollectData {
    pub chunks_to_save: Vec<IVec2>,
    pub chunks_to_free: Vec<IVec2>,
}

/// The loaded chunks of a room. No position occurs twice.
pub struct ChunkSystem {
    pub chunks: Vec<ChunkInstance>,
    pub cleaned_up: bool,
    pub autosave_interval_ms: u32,
    pub last_autosave_timestamp: u64,
    pub signal_garbage_collect: Signal,
}

/// The chunk coordinate that holds the pixel coordinate `p`: `p / 256`
/// rounded down.
pub open spec fn chunk_coord(p: i32) -> i32 {
    (p as int / 256) as i32
}

/// The coordinate inside its chunk of the pixel coordinate `p`: the
/// remainder of `p / 256`, never negative.
pub open spec fn local_coord(p: i32) -> u8 {
    (p as int % 256) as u8
}

/// The chunk that holds the pixel `pixel_pos`.
pub open spec fn chunk_pos_of(pixel_pos: IVec2) -> IVec2 {
    IVec2 { x: chunk_coord(pixel_pos.x), y: chunk_coord(pixel_pos.y) }
}

/// Where in its chunk the pixel `pixel_pos` lies.
pub open spec fn local_pos_of(pixel_pos: IVec2) -> U8Vec2 {
    U8Vec2 { x: local_coord(pixel_pos.x), y: local_coord(pixel_pos.y) }
}

/// The positions of `chunks`, in order.
pub open spec fn chunk_positions(chunks: Seq<ChunkInstance>) -> Seq<IVec2> {
    chunks.map_values(|c: ChunkInstance| c.position)
}

/// The blocks that saving every modified chunk of `chunks` gives, the last
/// chunk first.
pub open spec fn pending_saves(chunks: Seq<ChunkInstance>) -> Seq<(IVec2, Seq<u8>)>
    decreases chunks.len(),
{
    if chunks.len() == 0 {
        Seq::empty()
    } else if chunks.last().modified {
        seq![(chunks.last().position, lz4_block(chunks.last().pixels()))] + pending_saves(
            chunks.drop_last(),
        )
    } else {
        pending_saves(chunks.drop_last())
    }
}

/// Position and bytes of each block of `saves`.
pub open spec fn saved(saves: Seq<ChunkSave>) -> Seq<(IVec2, Seq<u8>)> {
    saves.map_values(|s: ChunkSave| (s.position, s.data@))
}

/// The preview tiles above the chunks of `saves`.
pub open spec fn uppers(saves: Seq<(IVec2, Seq<u8>)>) -> Seq<IVec2> {
    saves.map_values(|s: (IVec2, Seq<u8>)| upper_pos(s.0))
}

/// A collection lets go of the chunk `c`: it is listed to be let go, nobody
/// watches it, and it is unmodified or listed to be saved first.
pub open spec fn collects(to_free: Seq<IVec2>, to_save: Seq<IVec2>, c: ChunkInstance) -> bool {
    to_free.contains(c.position) && c.linked_sessions@.len() == 0 && (!c.modified
        || to_save.contains(c.position))
}

/// The blocks that a collection saves, in the order of the chunks.
pub open spec fn collected_saves(
    chunks: Seq<ChunkInstance>,
    to_free: Seq<IVec2>,
    to_save: Seq<IVec2>,
) -> Seq<(IVec2, Seq<u8>)> {
    chunks.filter(|c: ChunkInstance| collects(to_free, to_save, c) && c.modified).map_values(
        |c: ChunkInstance| (c.position, lz4_block(c.pixels())),
    )
}

/// A pixel coordinate is 256 times its chunk coordinate plus its local
/// coordinate, and the local coordinate lies in `0..256`.
pub proof fn lemma_chunk_and_local_coord(p: i32)
    ensures
        p == chunk_coord(p) * 256 + local_coord(p),
        0 <= local_coord(p) < 256,
        -8388608 <= chunk_coord(p) <= 8388607,
{
}

/// The remainder of `x / n` that is never negative.
pub fn modulo(x: i32, n: i32) -> (m: i32)
    requires
        n > 0,
    ensures
        m == x as int % n as int,
        0 <= m < n,
{
    if x >= 0 {
        x % n
    } else {
        let x64: i64 = x as i64;
        let n64: i64 = n as i64;
        let below: i64 = (0 - x64) % n64;
        assert(below == (-(x as int)) % (n as int));
        proof {
            lemma_negated_remainder(x as int, n as int);
        }
        if below == 0 {
            0
        } else {
            (n64 - below) as i32
        }
    }
}

/// The remainder of a negative number, from that of its opposite.
pub proof fn lemma_negated_remainder(x: int, n: int)
    requires
        n > 0,
    ensures
        x % n == if (-x) % n == 0 {
            0
        } else {
            n - (-x) % n
        },
{
    let q = (-x) / n;
    let r = (-x) % n;
    assert(-x == q * n + r) by {
        vstd::arithmetic::div_mod::lemma_fundamental_div_mod(-x, n);
        assert(n * q == q * n) by (nonlinear_arith);
    }
    if r == 0 {
        assert(x == (-q) * n) by (nonlinear_arith)
            requires
                -x == q * n + r,
                r == 0,
        ;
        vstd::arithmetic::div_mod::lemma_fundamental_div_mod_converse(x, n, -q, 0);
    } else {
        assert(x == (-q - 1) * n + (n - r)) by (nonlinear_arith)
            requires
                -x == q * n + r,
        ;
        vstd::arithmetic::div_mod::lemma_fundamental_div_mod_converse(x, n, -q - 1, n - r);
    }
}


/// What the autosave does at the time `time_ms`: where more than the
/// autosave interval has passed since the last one, every modified chunk was
/// handed over, in `saves`, counts as unmodified and has its preview tile
/// queued, and the time is noted; else nothing has changed and nothing is
/// handed over.
pub open spec fn autosaved(
    before: ChunkSystem,
    after: ChunkSystem,
    queue_before: Seq<IVec2>,
    queue_after: Seq<IVec2>,
    time_ms: u64,
    saves: Option<Vec<ChunkSave>>,
) -> bool {
    &&& saves is Some <==> before.last_autosave_timestamp + before.autosave_interval_ms < time_ms
    &&& saves is None ==> after.chunks@ == before.chunks@ && after.last_autosave_timestamp
        == before.last_autosave_timestamp && queue_after == queue_before
    &&& saves matches Some(list) ==> {
        &&& saved(list@) == pending_saves(before.chunks@)
        &&& after.last_autosave_timestamp == time_ms
        &&& queue_after == queue_before + uppers(pending_saves(before.chunks@))
        &&& chunk_positions(after.chunks@) == chunk_positions(before.chunks@)
        &&& forall|j: int|
            0 <= j < before.chunks@.len() ==> {
                &&& !(#[trigger] after.chunks@[j]).modified
                &&& after.chunks@[j].pixels() == before.chunks@[j].pixels()
            }
    }
    &&& after.cleaned_up == before.cleaned_up
    &&& after.autosave_interval_ms == before.autosave_interval_ms
    &&& after.signal_garbage_collect == before.signal_garbage_collect
}

impl ChunkSystem {
    /// Every chunk is consistent and no position occurs twice.
    pub open spec fn wf(&self) -> bool {
        &&& chunk_positions(self.chunks@).no_duplicates()
        &&& forall|i: int| 0 <= i < self.chunks@.len() ==> (#[trigger] self.chunks@[i]).wf()
    }

    /// The chunk at `pos` is loaded.
    pub open spec fn is_loaded(&self, pos: IVec2) -> bool {
        chunk_positions(self.chunks@).contains(pos)
    }

    /// Where among the loaded chunks the chunk at `pos` stands.
    pub open spec fn index_of(&self, pos: IVec2) -> int {
        chunk_positions(self.chunks@).index_of(pos)
    }

    /// The base colour of the pixel `pixel_pos`, whose chunk is loaded.
    pub open spec fn pixel_at(&self, pixel_pos: IVec2) -> ColorRGB {
        rgb_at(self.chunks@[self.index_of(chunk_pos_of(pixel_pos))].pixels(), local_pos_of(pixel_pos))
    }

    /// A chunk system without chunks, whose last save counts as done now,
    /// by the system clock.
    pub fn new(autosave_interval_ms: u32) -> (system: Self)
        ensures
            system.wf(),
            system.chunks@.len() == 0,
            !system.cleaned_up,
            system.autosave_interval_ms == autosave_interval_ms,
            !system.signal_garbage_collect.triggered,
    {
        Self::new_at(autosave_interval_ms, crate::time::get_millis())
    }

    /// Runs the autosave where it is due by the system clock: what happens
    /// is what `tick` does at the time that the clock gives, whatever that
    /// time is.
    pub fn tick_now(&mut self, preview_queue: &mut Vec<IVec2>) -> (saves: Option<Vec<ChunkSave>>)
        requires
            old(self).wf(),
        ensures
            final(self).wf(),
            exists|time_ms: u64| #[trigger]
                autosaved(
                    *old(self),
                    *final(self),
                    old(preview_queue)@,
                    final(preview_queue)@,
                    time_ms,
                    saves,
                ),
    {
        let now = crate::time::get_millis();
        let saves = self.tick(now, preview_queue);
        proof {
            assert(autosaved(*old(self), *self, old(preview_queue)@, preview_queue@, now, saves));
        }
        saves
    }

    /// A chunk system without chunks, whose last save counts as done at
    /// `now_ms`.
    pub fn new_at(autosave_interval_ms: u32, now_ms: u64) -> (system: Self)
        ensures
            system.wf(),
            system.chunks@.len() == 0,
            !system.cleaned_up,
            system.autosave_interval_ms == autosave_interval_ms,
            system.last_autosave_timestamp == now_ms,
            !system.signal_garbage_collect.triggered,
    {
        let system = ChunkSystem {
            chunks: Vec::new(),
            cleaned_up: false,
            autosave_interval_ms,
            last_autosave_timestamp: now_ms,
            signal_garbage_collect: Signal::new(),
        };
        assert(chunk_positions(system.chunks@) =~= Seq::<IVec2>::empty());
        system
    }

    /// The chunk that holds the pixel `pixel_pos`.
    pub fn global_pixel_pos_to_chunk_pos(pixel_pos: IVec2) -> (chunk_pos: IVec2)
        ensures
            chunk_pos == chunk_pos_of(pixel_pos),
            pixel_pos.x == chunk_pos.x * 256 + local_coord(pixel_pos.x),
            pixel_pos.y == chunk_pos.y * 256 + local_coord(pixel_pos.y),
    {
        IVec2 { x: Self::floor_div_256(pixel_pos.x), y: Self::floor_div_256(pixel_pos.y) }
    }

    fn floor_div_256(p: i32) -> (c: i32)
        ensures
            c == chunk_coord(p),
    {
        if p >= 0 {
            p / 256
        } else {
            let up: i64 = (255 - p as i64) / 256;
            (0 - up) as i32
        }
    }

    /// Where in its chunk the pixel `global_pixel_pos` lies.
    pub fn global_pixel_pos_to_local_pixel_pos(global_pixel_pos: IVec2) -> (local: U8Vec2)
        ensures
            local == local_pos_of(global_pixel_pos),
    {
        let x = modulo(global_pixel_pos.x, 256);
        let y = modulo(global_pixel_pos.y, 256);
        U8Vec2 { x: x as u8, y: y as u8 }
    }

    /// The index of the chunk at `chunk_pos`, if it is loaded.
    pub fn get_chunk(&self, chunk_pos: IVec2) -> (found: Option<usize>)
        ensures
            found is Some <==> self.is_loaded(chunk_pos),
            found matches Some(i) ==> i < self.chunks@.len() && self.chunks@[i as int].position
                == chunk_pos,
            self.wf() ==> (found matches Some(i) ==> i == self.index_of(chunk_pos)),
    {
        let mut i: usize = 0;
        while i < self.chunks.len()
            invariant
                i <= self.chunks@.len(),
                forall|j: int| 0 <= j < i ==> (#[trigger] self.chunks@[j]).position != chunk_pos,
            decreases self.chunks@.len() - i,
        {
            if self.chunks[i].position == chunk_pos {
                proof {
                    let ps = chunk_positions(self.chunks@);
                    assert(ps[i as int] == chunk_pos);
                    let j = ps.index_of(chunk_pos);
                    assert(ps[j] == chunk_pos);
                }
                return Some(i);
            }
            i += 1;
        }
        assert forall|j: int| 0 <= j < chunk_positions(self.chunks@).len() implies chunk_positions(
            self.chunks@,
        )[j] != chunk_pos by {
            assert(chunk_positions(self.chunks@)[j] == self.chunks@[j].position);
        }
        None
    }

    /// Takes in the chunk at `chunk_pos` as storage holds it: with the stored
    /// block, or new where storage holds none. A chunk that is loaded
    /// already stays as it is. Returns the index of the chunk.
    pub fn load_chunk(&mut self, chunk_pos: IVec2, stored: Option<Vec<u8>>) -> (index: usize)
        requires
            old(self).wf(),
        ensures
            final(self).wf(),
            final(self).is_loaded(chunk_pos),
            index == final(self).index_of(chunk_pos),
            index < final(self).chunks@.len(),
            final(self).chunks@[index as int].position == chunk_pos,
            old(self).is_loaded(chunk_pos) ==> final(self).chunks@ == old(self).chunks@,
            !old(self).is_loaded(chunk_pos) ==> {
                &&& final(self).chunks@.len() == old(self).chunks@.len() + 1
                &&& final(self).chunks@.drop_last() == old(self).chunks@
                &&& index == old(self).chunks@.len()
                &&& final(self).chunks@[index as int].new_chunk == (stored is None)
                &&& final(self).chunks@[index as int].linked_sessions@.len() == 0
                &&& !final(self).chunks@[index as int].modified
                &&& final(self).chunks@[index as int].pixels() == ChunkInstance::new_pixels(stored)
            },
            final(self).cleaned_up == old(self).cleaned_up,
            final(self).autosave_interval_ms == old(self).autosave_interval_ms,
            final(self).last_autosave_timestamp == old(self).last_autosave_timestamp,
            final(self).signal_garbage_collect == old(self).signal_garbage_collect,
    {
        match self.get_chunk(chunk_pos) {
            Some(i) => i,
            None => {
                let ghost before = self.chunks@;
                let chunk = ChunkInstance::new(chunk_pos, stored);
                self.chunks.push(chunk);
                proof {
                    let ps = chunk_positions(self.chunks@);
                    let last = ps.len() - 1;
                    assert(ps[last] == chunk_pos);
                    assert(self.chunks@.drop_last() =~= before);
                    assert forall|i: int, j: int|
                        0 <= i < ps.len() && 0 <= j < ps.len() && i != j implies ps[i] != ps[j] by {
                        if i < last {
                            assert(ps[i] == chunk_positions(before)[i]);
                        }
                        if j < last {
                            assert(ps[j] == chunk_positions(before)[j]);
                        }
                    }
                    let j = ps.index_of(chunk_pos);
                    assert(ps[j] == chunk_pos);
                }
                self.chunks.len() - 1
            },
        }
    }

    /// The positions of the modified chunks, in the order in which the
    /// chunks are held.
    pub fn get_chunks_to_save(&self) -> (positions: Vec<IVec2>)
        ensures
            positions@ == chunk_positions(self.chunks@.filter(|c: ChunkInstance| c.modified)),
    {
        let mut positions: Vec<IVec2> = Vec::new();
        let mut i: usize = 0;
        proof {
            reveal(Seq::filter);
            assert(self.chunks@.take(0).filter(|c: ChunkInstance| c.modified) =~= Seq::empty());
        }
        while i < self.chunks.len()
            invariant
                i <= self.chunks@.len(),
                positions@ == chunk_positions(
                    self.chunks@.take(i as int).filter(|c: ChunkInstance| c.modified),
                ),
            decreases self.chunks@.len() - i,
        {
            proof {
                reveal(Seq::filter);
                assert(self.chunks@.take(i as int + 1).drop_last() =~= self.chunks@.take(i as int));
            }
            if self.chunks[i].modified {
                positions.push(self.chunks[i].position);
            }
            proof {
                assert(positions@ =~= chunk_positions(
                    self.chunks@.take(i as int + 1).filter(|c: ChunkInstance| c.modified),
                ));
            }
            i += 1;
        }
        assert(self.chunks@.take(self.chunks@.len() as int) =~= self.chunks@);
        positions
    }

    /// Hands the chunk at `index` over to storage: returns its block, counts
    /// it as unmodified and queues the preview tile above it.
    pub fn save_chunk(&mut self, index: usize, preview_queue: &mut Vec<IVec2>) -> (save: ChunkSave)
        requires
            old(self).wf(),
            index < old(self).chunks@.len(),
        ensures
            final(self).wf(),
            save.position == old(self).chunks@[index as int].position,
            save.data@ == lz4_block(old(self).chunks@[index as int].pixels()),
            save.compression_type == CompressionType::Lz4,
            final(self).chunks@.len() == old(self).chunks@.len(),
            chunk_positions(final(self).chunks@) == chunk_positions(old(self).chunks@),
            forall|j: int|
                0 <= j < old(self).chunks@.len() && j != index ==> #[trigger] final(self).chunks@[j]
                    == old(self).chunks@[j],
            final(self).chunks@[index as int].pixels() == old(self).chunks@[index as int].pixels(),
            final(self).chunks@[index as int].linked_sessions == old(self).chunks@[index as int].linked_sessions,
            final(self).chunks@[index as int].compositor == old(self).chunks@[index as int].compositor,
            !final(self).chunks@[index as int].modified,
            final(preview_queue)@ == if old(self).chunks@[index as int].new_chunk {
                old(preview_queue)@
            } else {
                old(preview_queue)@.push(upper_pos(old(self).chunks@[index as int].position))
            },
            final(self).cleaned_up == old(self).cleaned_up,
            final(self).autosave_interval_ms == old(self).autosave_interval_ms,
            final(self).last_autosave_timestamp == old(self).last_autosave_timestamp,
            final(self).signal_garbage_collect == old(self).signal_garbage_collect,
    {
        let ghost before = self.chunks@;
        let position = self.chunks[index].position;
        let data = self.chunks[index].encode_chunk_data(true, preview_queue);
        proof {
            assert(chunk_positions(self.chunks@) =~= chunk_positions(before));
        }
        ChunkSave { position, data, compression_type: CompressionType::Lz4 }
    }

    /// Hands every modified chunk over to storage, the last chunk first.
    pub fn save_chunks(&mut self, preview_queue: &mut Vec<IVec2>) -> (saves: Vec<ChunkSave>)
        requires
            old(self).wf(),
        ensures
            final(self).wf(),
            saved(saves@) == pending_saves(old(self).chunks@),
            final(preview_queue)@ == old(preview_queue)@ + uppers(pending_saves(old(self).chunks@)),
            final(self).chunks@.len() == old(self).chunks@.len(),
            chunk_positions(final(self).chunks@) == chunk_positions(old(self).chunks@),
            forall|j: int|
                0 <= j < old(self).chunks@.len() ==> {
                    &&& !(#[trigger] final(self).chunks@[j]).modified
                    &&& final(self).chunks@[j].pixels() == old(self).chunks@[j].pixels()
                    &&& final(self).chunks@[j].linked_sessions == old(self).chunks@[j].linked_sessions
                    &&& final(self).chunks@[j].compositor == old(self).chunks@[j].compositor
                    &&& !old(self).chunks@[j].modified ==> final(self).chunks@[j] == old(self).chunks@[j]
                },
            final(self).cleaned_up == old(self).cleaned_up,
            final(self).autosave_interval_ms == old(self).autosave_interval_ms,
            final(self).last_autosave_timestamp == old(self).last_autosave_timestamp,
            final(self).signal_garbage_collect == old(self).signal_garbage_collect,
    {
        let ghost original = self.chunks@;
        let ghost queue = preview_queue@;
        let mut saves: Vec<ChunkSave> = Vec::new();
        let mut i: usize = self.chunks.len();
        proof {
            assert(original.take(i as int) =~= original);
            assert(saved(saves@) + pending_saves(original.take(i as int)) =~= pending_saves(
                original,
            ));
            assert(queue + uppers(saved(saves@)) =~= queue);
        }
        while i > 0
            invariant
                i <= original.len(),
                self.wf(),
                self.chunks@.len() == original.len(),
                chunk_positions(self.chunks@) == chunk_positions(original),
                forall|j: int| 0 <= j < i ==> #[trigger] self.chunks@[j] == original[j],
                forall|j: int|
                    i <= j < original.len() ==> {
                        &&& !(#[trigger] self.chunks@[j]).modified
                        &&& self.chunks@[j].pixels() == original[j].pixels()
                        &&& self.chunks@[j].linked_sessions == original[j].linked_sessions
                        &&& self.chunks@[j].compositor == original[j].compositor
                        &&& !original[j].modified ==> self.chunks@[j] == original[j]
                    },
                saved(saves@) + pending_saves(original.take(i as int)) == pending_saves(original),
                preview_queue@ == queue + uppers(saved(saves@)),
                self.cleaned_up == old(self).cleaned_up,
                self.autosave_interval_ms == old(self).autosave_interval_ms,
                self.last_autosave_timestamp == old(self).last_autosave_timestamp,
                self.signal_garbage_collect == old(self).signal_garbage_collect,
            decreases i,
        {
            i -= 1;
            proof {
                assert(original.take(i as int + 1).drop_last() =~= original.take(i as int));
                assert(original.take(i as int + 1).last() == original[i as int]);
            }
            if self.chunks[i].modified {
                let ghost done = saved(saves@);
                let save = self.save_chunk(i, preview_queue);
                let ghost entry = (save.position, save.data@);
                saves.push(save);
                proof {
                    assert(saved(saves@) =~= done.push(entry));
                    assert(uppers(saved(saves@)) =~= uppers(done).push(upper_pos(entry.0)));
                    assert(saved(saves@) + pending_saves(original.take(i as int)) =~= done
                        + pending_saves(original.take(i as int + 1)));
                }
            }
        }
        proof {
            assert(pending_saves(original.take(0)) =~= Seq::empty());
            assert(saved(saves@) =~= pending_saves(original));
        }
        saves
    }

    /// Runs the autosave where it is due: where more than the autosave
    /// interval has passed since the last one, every modified chunk is handed
    /// over to storage.
    pub fn tick(&mut self, time_ms: u64, preview_queue: &mut Vec<IVec2>) -> (saves: Option<
        Vec<ChunkSave>,
    >)
        requires
            old(self).wf(),
        ensures
            final(self).wf(),
            autosaved(
                *old(self),
                *final(self),
                old(preview_queue)@,
                final(preview_queue)@,
                time_ms,
                saves,
            ),
    {
        let due = time_ms > self.last_autosave_timestamp && time_ms - self.last_autosave_timestamp
            > self.autosave_interval_ms as u64;
        if due {
            self.last_autosave_timestamp = time_ms;
            Some(self.save_chunks(preview_queue))
        } else {
            None
        }
    }

    /// Queues the preview tile at the position of every loaded chunk.
    pub fn regenerate_all_previews(&self, preview_queue: &mut Vec<IVec2>)
        ensures
            final(preview_queue)@ == old(preview_queue)@ + chunk_positions(self.chunks@),
    {
        let ghost queue = preview_queue@;
        let mut i: usize = 0;
        assert(queue + chunk_positions(self.chunks@.take(0)) =~= queue);
        while i < self.chunks.len()
            invariant
                i <= self.chunks@.len(),
                preview_queue@ == queue + chunk_positions(self.chunks@.take(i as int)),
            decreases self.chunks@.len() - i,
        {
            preview_queue.push(self.chunks[i].position);
            assert(preview_queue@ =~= queue + chunk_positions(self.chunks@.take(i as int + 1)));
            i += 1;
        }
        assert(self.chunks@.take(self.chunks@.len() as int) =~= self.chunks@);
    }

    /// Hands every modified chunk over to storage before the room closes.
    pub fn cleanup(&mut self, preview_queue: &mut Vec<IVec2>) -> (saves: Vec<ChunkSave>)
        requires
            old(self).wf(),
        ensures
            final(self).wf(),
            final(self).cleaned_up,
            saved(saves@) == pending_saves(old(self).chunks@),
            final(preview_queue)@ == old(preview_queue)@ + uppers(pending_saves(old(self).chunks@)),
            chunk_positions(final(self).chunks@) == chunk_positions(old(self).chunks@),
            forall|j: int|
                0 <= j < old(self).chunks@.len() ==> {
                    &&& !(#[trigger] final(self).chunks@[j]).modified
                    &&& final(self).chunks@[j].pixels() == old(self).chunks@[j].pixels()
                },
    {
        let saves = self.save_chunks(preview_queue);
        self.cleaned_up = true;
        saves
    }

    /// Where a collection was asked for since the last call, finds the
    /// chunks that nobody watches: all of them are to be let go, the
    /// modified ones saved first.
    pub fn get_chunks_to_garbage_collect(&mut self) -> (data: Option<GarbageCollectData>)
        ensures
            data is Some <==> old(self).signal_garbage_collect.triggered,
            !final(self).signal_garbage_collect.triggered,
            final(self).chunks == old(self).chunks,
            final(self).cleaned_up == old(self).cleaned_up,
            final(self).autosave_interval_ms == old(self).autosave_interval_ms,
            final(self).last_autosave_timestamp == old(self).last_autosave_timestamp,
            data matches Some(found) ==> {
                &&& found.chunks_to_free@ == chunk_positions(
                    old(self).chunks@.filter(|c: ChunkInstance| c.linked_sessions@.len() == 0),
                )
                &&& found.chunks_to_save@ == chunk_positions(
                    old(self).chunks@.filter(
                        |c: ChunkInstance| c.linked_sessions@.len() == 0 && c.modified,
                    ),
                )
            },
    {
        if !self.signal_garbage_collect.check_triggered() {
            return None;
        }
        let mut chunks_to_save: Vec<IVec2> = Vec::new();
        let mut chunks_to_free: Vec<IVec2> = Vec::new();
        let mut i: usize = 0;
        proof {
            reveal(Seq::filter);
            assert(self.chunks@.take(0).filter(|c: ChunkInstance| c.linked_sessions@.len() == 0)
                =~= Seq::empty());
            assert(self.chunks@.take(0).filter(
                |c: ChunkInstance| c.linked_sessions@.len() == 0 && c.modified,
            ) =~= Seq::empty());
        }
        while i < self.chunks.len()
            invariant
                i <= self.chunks@.len(),
                self.chunks == old(self).chunks,
                chunks_to_free@ == chunk_positions(
                    self.chunks@.take(i as int).filter(
                        |c: ChunkInstance| c.linked_sessions@.len() == 0,
                    ),
                ),
                chunks_to_save@ == chunk_positions(
                    self.chunks@.take(i as int).filter(
                        |c: ChunkInstance| c.linked_sessions@.len() == 0 && c.modified,
                    ),
                ),
            decreases self.chunks@.len() - i,
        {
            proof {
                reveal(Seq::filter);
                assert(self.chunks@.take(i as int + 1).drop_last() =~= self.chunks@.take(i as int));
            }
            if self.chunks[i].linked_sessions.len() == 0 {
                if self.chunks[i].modified {
                    chunks_to_save.push(self.chunks[i].position);
                }
                chunks_to_free.push(self.chunks[i].position);
            }
            proof {
                assert(chunks_to_free@ =~= chunk_positions(
                    self.chunks@.take(i as int + 1).filter(
                        |c: ChunkInstance| c.linked_sessions@.len() == 0,
                    ),
                ));
                assert(chunks_to_save@ =~= chunk_positions(
                    self.chunks@.take(i as int + 1).filter(
                        |c: ChunkInstance| c.linked_sessions@.len() == 0 && c.modified,
                    ),
                ));
            }
            i += 1;
        }
        assert(self.chunks@.take(self.chunks@.len() as int) =~= self.chunks@);
        Some(GarbageCollectData { chunks_to_free, chunks_to_save })
    }
}

impl ChunkSystem {
    /// Lets go of the chunks that `data` lists and that nobody watches; the
    /// modified ones among them are handed over to storage first, where
    /// `data` lists them for saving, and stay where it does not.
    pub fn garbage_collect_lazy(
        &mut self,
        data: &GarbageCollectData,
        preview_queue: &mut Vec<IVec2>,
    ) -> (saves: Vec<ChunkSave>)
        requires
            old(self).wf(),
        ensures
            final(self).wf(),
            final(self).chunks@ == old(self).chunks@.filter(
                |c: ChunkInstance| !collects(data.chunks_to_free@, data.chunks_to_save@, c),
            ),
            saved(saves@) == collected_saves(
                old(self).chunks@,
                data.chunks_to_free@,
                data.chunks_to_save@,
            ),
            final(preview_queue)@ == old(preview_queue)@ + uppers(
                collected_saves(old(self).chunks@, data.chunks_to_free@, data.chunks_to_save@),
            ),
            final(self).cleaned_up == old(self).cleaned_up,
            final(self).autosave_interval_ms == old(self).autosave_interval_ms,
            final(self).last_autosave_timestamp == old(self).last_autosave_timestamp,
            final(self).signal_garbage_collect == old(self).signal_garbage_collect,
    {
        let ghost original = self.chunks@;
        let ghost queue = preview_queue@;
        let ghost keep = |c: ChunkInstance| !collects(data.chunks_to_free@, data.chunks_to_save@, c);
        let ghost save = |c: ChunkInstance|
            collects(data.chunks_to_free@, data.chunks_to_save@, c) && c.modified;
        let ghost block = |c: ChunkInstance| (c.position, lz4_block(c.pixels()));
        let ghost mut done: int = 0;
        let mut saves: Vec<ChunkSave> = Vec::new();
        let mut i: usize = 0;
        proof {
            lemma_filter_none(original, keep);
            lemma_filter_none(original, save);
            assert(original.skip(0) =~= original);
            assert(saved(saves@) =~= original.take(0).filter(save).map_values(block));
            assert(queue + uppers(saved(saves@)) =~= queue);
        }
        while i < self.chunks.len()
            invariant
                0 <= done <= original.len(),
                i <= self.chunks@.len(),
                i == original.take(done).filter(keep).len(),
                self.chunks@ == original.take(done).filter(keep) + original.skip(done),
                forall|j: int| 0 <= j < original.len() ==> (#[trigger] original[j]).wf(),
                chunk_positions(original).no_duplicates(),
                keep == |c: ChunkInstance|
                    !collects(data.chunks_to_free@, data.chunks_to_save@, c),
                save == |c: ChunkInstance|
                    collects(data.chunks_to_free@, data.chunks_to_save@, c) && c.modified,
                block == |c: ChunkInstance| (c.position, lz4_block(c.pixels())),
                saved(saves@) == original.take(done).filter(save).map_values(block),
                preview_queue@ == queue + uppers(saved(saves@)),
                self.cleaned_up == old(self).cleaned_up,
                self.autosave_interval_ms == old(self).autosave_interval_ms,
                self.last_autosave_timestamp == old(self).last_autosave_timestamp,
                self.signal_garbage_collect == old(self).signal_garbage_collect,
            decreases original.len() - done,
        {
            let ghost before = self.chunks@;
            proof {
                assert(before[i as int] == original.skip(done)[0]);
                assert(original.skip(done)[0] == original[done]);
                lemma_filter_step(original, keep, done);
                lemma_filter_step(original, save, done);
                lemma_kept_chunks_wf(original, keep, done);
            }
            let position = self.chunks[i].position;
            let unwatched = self.chunks[i].linked_sessions.len() == 0;
            let modified = self.chunks[i].modified;
            let listed = list_contains(&data.chunks_to_free, position);
            let to_save = list_contains(&data.chunks_to_save, position);
            if listed && unwatched && (!modified || to_save) {
                if modified {
                    let ghost had = saved(saves@);
                    proof {
                        assert(self.wf()) by {
                            lemma_mixed_chunks_wf(original, keep, done);
                        }
                    }
                    let one = self.save_chunk(i, preview_queue);
                    let ghost entry = (one.position, one.data@);
                    saves.push(one);
                    proof {
                        assert(entry == block(original[done]));
                        assert(saved(saves@) =~= had.push(entry));
                        assert(uppers(saved(saves@)) =~= uppers(had).push(upper_pos(entry.0)));
                        assert(saved(saves@) =~= original.take(done + 1).filter(save).map_values(
                            block,
                        ));
                    }
                }
                self.chunks.remove(i);
                proof {
                    assert(self.chunks@ =~= original.take(done + 1).filter(keep) + original.skip(
                        done + 1,
                    ));
                    done = done + 1;
                }
            } else {
                proof {
                    assert(self.chunks@ =~= original.take(done + 1).filter(keep) + original.skip(
                        done + 1,
                    ));
                    done = done + 1;
                }
                i += 1;
            }
        }
        proof {
            assert(original.skip(done).len() == 0);
            assert(original.take(done) =~= original);
            assert(self.chunks@ =~= original.filter(keep));
            lemma_filter_keeps(original, keep, |c: ChunkInstance| c.position);
            assert forall|j: int| 0 <= j < self.chunks@.len() implies (
            #[trigger] self.chunks@[j]).wf() by {
                assert(original.contains(self.chunks@[j]));
            }
        }
        saves
    }
}

/// Between two steps of a collection every chunk held is consistent.
proof fn lemma_kept_chunks_wf(original: Seq<ChunkInstance>, keep: spec_fn(ChunkInstance) -> bool, done: int)
    requires
        0 <= done <= original.len(),
        forall|j: int| 0 <= j < original.len() ==> (#[trigger] original[j]).wf(),
    ensures
        forall|j: int|
            0 <= j < original.take(done).filter(keep).len() ==> (#[trigger] original.take(
                done,
            ).filter(keep)[j]).wf(),
{
    let front = original.take(done);
    lemma_filter_contained(front, keep);
    assert forall|j: int| 0 <= j < front.filter(keep).len() implies (#[trigger] front.filter(
        keep,
    )[j]).wf() by {
        assert(front.contains(front.filter(keep)[j]));
        let w = choose|w: int| 0 <= w < front.len() && front[w] == front.filter(keep)[j];
        assert(original[w] == front[w]);
    }
}

/// What a filter keeps stood in the sequence.
proof fn lemma_filter_contained<A>(s: Seq<A>, keep: spec_fn(A) -> bool)
    ensures
        forall|i: int| 0 <= i < s.filter(keep).len() ==> s.contains(#[trigger] s.filter(keep)[i]),
    decreases s.len(),
{
    reveal(Seq::filter);
    if s.len() > 0 {
        let front = s.drop_last();
        lemma_filter_contained(front, keep);
        let kept_front = front.filter(keep);
        let kept = s.filter(keep);
        assert forall|i: int| 0 <= i < kept.len() implies s.contains(#[trigger] kept[i]) by {
            if i < kept_front.len() {
                assert(kept[i] == kept_front[i]);
                assert(front.contains(kept_front[i]));
                let w = choose|w: int| 0 <= w < front.len() && front[w] == kept_front[i];
                assert(s[w] == kept[i]);
            } else {
                assert(s[s.len() - 1] == kept[i]);
            }
        }
    }
}

/// Between two steps of a collection the chunks held are consistent and at
/// distinct positions.
proof fn lemma_mixed_chunks_wf(original: Seq<ChunkInstance>, keep: spec_fn(ChunkInstance) -> bool, done: int)
    requires
        0 <= done <= original.len(),
        forall|j: int| 0 <= j < original.len() ==> (#[trigger] original[j]).wf(),
        chunk_positions(original).no_duplicates(),
    ensures
        chunk_positions(original.take(done).filter(keep) + original.skip(done)).no_duplicates(),
        forall|j: int|
            0 <= j < (original.take(done).filter(keep) + original.skip(done)).len() ==> (
            #[trigger] (original.take(done).filter(keep) + original.skip(done))[j]).wf(),
{
    let head = original.take(done).filter(keep);
    let tail = original.skip(done);
    let mixed = head + tail;
    lemma_kept_chunks_wf(original, keep, done);
    lemma_filter_order(original.take(done), keep);
    let pick = choose|pick: Seq<int>| is_rising_pick(original.take(done), head, pick);
    assert forall|a: int, b: int|
        0 <= a < mixed.len() && 0 <= b < mixed.len() && a != b implies chunk_positions(mixed)[a]
        != chunk_positions(mixed)[b] by {
        let ia = if a < head.len() { pick[a] } else { done + (a - head.len()) };
        let ib = if b < head.len() { pick[b] } else { done + (b - head.len()) };
        assert(mixed[a] == original[ia]);
        assert(mixed[b] == original[ib]);
        if a < head.len() && b < head.len() {
            if a < b {
                assert(pick[a] < pick[b]);
            } else {
                assert(pick[b] < pick[a]);
            }
        }
        assert(ia != ib);
        assert(chunk_positions(original)[ia] == original[ia].position);
        assert(chunk_positions(original)[ib] == original[ib].position);
    }
}

/// `pick` lists, in rising order, where in `s` each element of `kept` stands.
pub open spec fn is_rising_pick<A>(s: Seq<A>, kept: Seq<A>, pick: Seq<int>) -> bool {
    &&& pick.len() == kept.len()
    &&& forall|i: int| 0 <= i < pick.len() ==> 0 <= #[trigger] pick[i] < s.len() && s[pick[i]] == kept[i]
    &&& forall|i: int, j: int| 0 <= i < j < pick.len() ==> #[trigger] pick[i] < #[trigger] pick[j]
}

/// What a filter keeps stands in the sequence in the same order.
proof fn lemma_filter_order<A>(s: Seq<A>, keep: spec_fn(A) -> bool)
    ensures
        exists|pick: Seq<int>| is_rising_pick(s, s.filter(keep), pick),
    decreases s.len(),
{
    reveal(Seq::filter);
    if s.len() == 0 {
        assert(is_rising_pick(s, s.filter(keep), Seq::<int>::empty()));
    } else {
        let front = s.drop_last();
        lemma_filter_order(front, keep);
        let pick = choose|pick: Seq<int>| is_rising_pick(front, front.filter(keep), pick);
        if keep(s.last()) {
            let more = pick.push(s.len() - 1);
            assert forall|i: int| 0 <= i < more.len() implies 0 <= #[trigger] more[i] < s.len()
                && s[more[i]] == s.filter(keep)[i] by {
                if i < pick.len() {
                    assert(more[i] == pick[i]);
                    assert(front[pick[i]] == s[pick[i]]);
                }
            }
            assert forall|i: int, j: int| 0 <= i < j < more.len() implies #[trigger] more[i]
                < #[trigger] more[j] by {
                if j < pick.len() {
                    assert(more[i] == pick[i] && more[j] == pick[j]);
                } else {
                    assert(more[i] == pick[i]);
                }
            }
            assert(is_rising_pick(s, s.filter(keep), more));
        } else {
            assert forall|i: int| 0 <= i < pick.len() implies 0 <= #[trigger] pick[i] < s.len()
                && s[pick[i]] == s.filter(keep)[i] by {
                assert(front[pick[i]] == s[pick[i]]);
            }
            assert(is_rising_pick(s, s.filter(keep), pick));
        }
    }
}


/// `after` is `before` without the overlay named `layer_id`.
pub open spec fn layer_removed(before: ChunkSystem, after: ChunkSystem, layer_id: LayerID) -> bool {
    &&& after.chunks@.len() == before.chunks@.len()
    &&& chunk_positions(after.chunks@) == chunk_positions(before.chunks@)
    &&& after.cleaned_up == before.cleaned_up
    &&& after.autosave_interval_ms == before.autosave_interval_ms
    &&& after.last_autosave_timestamp == before.last_autosave_timestamp
    &&& after.signal_garbage_collect == before.signal_garbage_collect
    &&& forall|j: int|
        0 <= j < before.chunks@.len() ==> {
            let was = before.chunks@[j];
            let now = #[trigger] after.chunks@[j];
            &&& now.compositor.layers@ == was.compositor.layers@.filter(
                |entry: LayerEntry| entry.id != layer_id,
            )
            &&& now.position == was.position
            &&& now.linked_sessions == was.linked_sessions
            &&& now.modified == was.modified
            &&& now.new_chunk == was.new_chunk
            &&& now.main_layer == was.main_layer
            &&& now.compressed_image_data == was.compressed_image_data
        }
}

impl ChunkSystem {
    /// Takes the overlay named `layer_id` away from every chunk.
    pub fn remove_layer(&mut self, layer_id: LayerID)
        requires
            old(self).wf(),
        ensures
            final(self).wf(),
            layer_removed(*old(self), *final(self), layer_id),
    {
        let ghost original = self.chunks@;
        let mut i: usize = 0;
        while i < self.chunks.len()
            invariant
                i <= original.len(),
                self.wf(),
                self.chunks@.len() == original.len(),
                chunk_positions(self.chunks@) == chunk_positions(original),
                forall|j: int| i <= j < original.len() ==> #[trigger] self.chunks@[j] == original[j],
                forall|j: int|
                    0 <= j < i ==> {
                        let was = original[j];
                        let now = #[trigger] self.chunks@[j];
                        &&& now.compositor.layers@ == was.compositor.layers@.filter(
                            |entry: LayerEntry| entry.id != layer_id,
                        )
                        &&& now.position == was.position
                        &&& now.linked_sessions == was.linked_sessions
                        &&& now.modified == was.modified
                        &&& now.new_chunk == was.new_chunk
                        &&& now.main_layer == was.main_layer
                        &&& now.compressed_image_data == was.compressed_image_data
                    },
                self.cleaned_up == old(self).cleaned_up,
                self.autosave_interval_ms == old(self).autosave_interval_ms,
                self.last_autosave_timestamp == old(self).last_autosave_timestamp,
                self.signal_garbage_collect == old(self).signal_garbage_collect,
            decreases original.len() - i,
        {
            let ghost before = self.chunks@;
            self.chunks[i].compositor.remove_layer_id(layer_id);
            proof {
                assert(chunk_positions(self.chunks@) =~= chunk_positions(before));
                assert forall|j: int| 0 <= j < self.chunks@.len() implies (#[trigger] self.chunks@[j]).wf() by {
                    if j != i {
                        assert(self.chunks@[j] == before[j]);
                    }
                }
            }
            i += 1;
        }
    }

    /// Does what `signal` asks for: a collection is armed, or the overlay
    /// that the signal names is taken away from every chunk. The pixels of
    /// an overlay that is to be submitted are written to the base by the
    /// session that owns it, which holds them.
    pub fn process_signal(&mut self, signal: ChunkSystemSignal)
        requires
            old(self).wf(),
        ensures
            final(self).wf(),
            chunk_positions(final(self).chunks@) == chunk_positions(old(self).chunks@),
            signal == ChunkSystemSignal::GarbageCollect ==> final(self).signal_garbage_collect.triggered
                && final(self).chunks == old(self).chunks,
            signal != ChunkSystemSignal::GarbageCollect ==> final(self).signal_garbage_collect == old(self).signal_garbage_collect,
            signal matches ChunkSystemSignal::RemoveLayer(id) ==> layer_removed(
                *old(self),
                *final(self),
                id,
            ),
            signal matches ChunkSystemSignal::SubmitAndRemoveLayer(id) ==> layer_removed(
                *old(self),
                *final(self),
                id,
            ),
            final(self).cleaned_up == old(self).cleaned_up,
            final(self).autosave_interval_ms == old(self).autosave_interval_ms,
            final(self).last_autosave_timestamp == old(self).last_autosave_timestamp,
    {
        match signal {
            ChunkSystemSignal::GarbageCollect => {
                self.signal_garbage_collect.notify();
            },
            ChunkSystemSignal::SubmitAndRemoveLayer(layer_id) => {
                self.remove_layer(layer_id);
            },
            ChunkSystemSignal::RemoveLayer(layer_id) => {
                self.remove_layer(layer_id);
            },
        }
    }
}

/// Whether `list` holds `pos`.
pub fn list_contains(list: &Vec<IVec2>, pos: IVec2) -> (found: bool)
    ensures
        found == list@.contains(pos),
{
    let mut i: usize = 0;
    while i < list.len()
        invariant
            i <= list@.len(),
            forall|j: int| 0 <= j < i ==> list@[j] != pos,
        decreases list@.len() - i,
    {
        if list[i] == pos {
            return true;
        }
        i += 1;
    }
    false
}

} // verus!
