//! Sorting the pixels of a stroke by the chunk that holds them.

use vstd::prelude::*;
use crate::chunk::chunk::ChunkInstance;
use crate::chunk::layer::{ChunkPixelRGB, ChunkPixelRGBA};
use crate::chunk::system::{chunk_pos_of, chunk_positions, local_pos_of, ChunkSystem};
use crate::pixel::{ColorRGB, GlobalPixelRGBA};
use crate::seq_facts::{lemma_filter_none, lemma_filter_step};
use crate::vector::IVec2;

verus! {

/// The pixels queued for one loaded chunk: each as it lies in the chunk,
/// beside its position on the canvas.
pub struct ChunkCacheCell<T> {
    pub chunk_pos: IVec2,
    /// Where the chunk stands among the loaded chunks.
    pub chunk: usize,
    pub queued_pixels: Vec<(T, IVec2)>,
}

/// The chunks that a stroke touches, in the order in which it reaches them.
pub struct ChunkWriter<T> {
    pub affected_chunks: Vec<ChunkCacheCell<T>>,
}

pub type ChunkWriterRGBA = ChunkWriter<ChunkPixelRGBA>;

/// The pixel as it is queued for its chunk.
pub open spec fn queued_of(pixel: GlobalPixelRGBA) -> (ChunkPixelRGBA, IVec2) {
    (ChunkPixelRGBA { pos: local_pos_of(pixel.pos), color: pixel.color }, pixel.pos)
}

/// The pixel as it is written into the base of its chunk.
pub open spec fn write_of(pixel: GlobalPixelRGBA) -> ChunkPixelRGB {
    ChunkPixelRGB {
        pos: local_pos_of(pixel.pos),
        color: ColorRGB { r: pixel.color.r, g: pixel.color.g, b: pixel.color.b },
    }
}

/// The pixels of `pixels` that lie in the chunk at `chunk_pos`, in order.
pub open spec fn pixels_in_chunk(pixels: Seq<GlobalPixelRGBA>, chunk_pos: IVec2) -> Seq<
    GlobalPixelRGBA,
> {
    pixels.filter(|p: GlobalPixelRGBA| chunk_pos_of(p.pos) == chunk_pos)
}

/// The writes that `pixels` make to the base of the chunk at `chunk_pos`.
pub open spec fn writes_for(pixels: Seq<GlobalPixelRGBA>, chunk_pos: IVec2) -> Seq<ChunkPixelRGB> {
    pixels_in_chunk(pixels, chunk_pos).map_values(|p: GlobalPixelRGBA| write_of(p))
}

/// The chunks among `loaded` that hold a pixel of `pixels`, each once, in
/// the order in which `pixels` first reaches them.
pub open spec fn touched_chunks(pixels: Seq<GlobalPixelRGBA>, loaded: Seq<IVec2>) -> Seq<IVec2>
    decreases pixels.len(),
{
    if pixels.len() == 0 {
        Seq::empty()
    } else {
        let before = touched_chunks(pixels.drop_last(), loaded);
        let here = chunk_pos_of(pixels.last().pos);
        if before.contains(here) || !loaded.contains(here) {
            before
        } else {
            before.push(here)
        }
    }
}

/// The positions of `cells`, in order.
pub open spec fn cell_positions<T>(cells: Seq<ChunkCacheCell<T>>) -> Seq<IVec2> {
    cells.map_values(|c: ChunkCacheCell<T>| c.chunk_pos)
}

/// The touched chunks are loaded, none occurs twice, and each holds a pixel.
pub proof fn lemma_touched_chunks(pixels: Seq<GlobalPixelRGBA>, loaded: Seq<IVec2>)
    ensures
        touched_chunks(pixels, loaded).no_duplicates(),
        touched_chunks(pixels, loaded).len() <= pixels.len(),
        forall|k: int|
            0 <= k < touched_chunks(pixels, loaded).len() ==> loaded.contains(
                #[trigger] touched_chunks(pixels, loaded)[k],
            ),
        forall|i: int|
            0 <= i < pixels.len() && loaded.contains(chunk_pos_of(pixels[i].pos))
                ==> touched_chunks(pixels, loaded).contains(chunk_pos_of(#[trigger] pixels[i].pos)),
        forall|c: IVec2| !touched_chunks(pixels, loaded).contains(c) && loaded.contains(c)
            ==> #[trigger] pixels_in_chunk(pixels, c).len() == 0,
    decreases pixels.len(),
{
    reveal(Seq::filter);
    if pixels.len() > 0 {
        let front = pixels.drop_last();
        lemma_touched_chunks(front, loaded);
        let before = touched_chunks(front, loaded);
        let now = touched_chunks(pixels, loaded);
        let here = chunk_pos_of(pixels.last().pos);
        assert forall|i: int|
            0 <= i < pixels.len() && loaded.contains(chunk_pos_of(pixels[i].pos)) implies now.contains(
            chunk_pos_of(#[trigger] pixels[i].pos),
        ) by {
            if i < front.len() {
                assert(front[i] == pixels[i]);
                assert(before.contains(chunk_pos_of(front[i].pos)));
                let w = choose|w: int| 0 <= w < before.len() && before[w] == chunk_pos_of(front[i].pos);
                assert(now[w] == before[w]);
            } else {
                if before.contains(here) {
                    let w = choose|w: int| 0 <= w < before.len() && before[w] == here;
                    assert(now[w] == here);
                } else {
                    assert(now[now.len() - 1] == here);
                }
            }
        }
        assert forall|c: IVec2| !now.contains(c) && loaded.contains(c) implies #[trigger] pixels_in_chunk(
            pixels,
            c,
        ).len() == 0 by {
            if before.contains(c) {
                let w = choose|w: int| 0 <= w < before.len() && before[w] == c;
                assert(now[w] == c);
            }
            assert(pixels_in_chunk(front, c).len() == 0);
            if here == c {
                assert(now.contains(here)) by {
                    if before.contains(here) {
                        let w = choose|w: int| 0 <= w < before.len() && before[w] == here;
                        assert(now[w] == here);
                    } else {
                        assert(now[now.len() - 1] == here);
                    }
                }
            }
        }
    } else {
        assert forall|c: IVec2| #[trigger] pixels_in_chunk(pixels, c).len() == 0 by {}
    }
}

impl<T> ChunkWriter<T> {
    /// A writer without chunks.
    pub fn new() -> (writer: Self)
        ensures
            writer.affected_chunks@.len() == 0,
    {
        ChunkWriter { affected_chunks: Vec::new() }
    }

    /// Finds the cell of the chunk at `chunk_pos`.
    fn fetch_cell(affected_chunks: &Vec<ChunkCacheCell<T>>, chunk_pos: IVec2) -> (found: Option<usize>)
        ensures
            match found {
                Some(k) => k < affected_chunks@.len() && affected_chunks@[k as int].chunk_pos
                    == chunk_pos,
                None => !cell_positions(affected_chunks@).contains(chunk_pos),
            },
            found is Some ==> cell_positions(affected_chunks@).contains(chunk_pos),
    {
        let mut k: usize = 0;
        while k < affected_chunks.len()
            invariant
                k <= affected_chunks@.len(),
                forall|j: int| 0 <= j < k ==> (#[trigger] affected_chunks@[j]).chunk_pos != chunk_pos,
            decreases affected_chunks@.len() - k,
        {
            if affected_chunks[k].chunk_pos == chunk_pos {
                assert(cell_positions(affected_chunks@)[k as int] == chunk_pos);
                return Some(k);
            }
            k += 1;
        }
        assert forall|j: int| 0 <= j < cell_positions(affected_chunks@).len() implies cell_positions(
            affected_chunks@,
        )[j] != chunk_pos by {
            assert(cell_positions(affected_chunks@)[j] == affected_chunks@[j].chunk_pos);
        }
        None
    }

    /// Opens a cell for the chunk at `chunk_pos`, where that chunk is
    /// loaded.
    fn cache_new_chunk(
        system: &ChunkSystem,
        affected_chunks: &mut Vec<ChunkCacheCell<T>>,
        chunk_pos: IVec2,
    )
        requires
            system.wf(),
        ensures
            final(affected_chunks)@.len() == old(affected_chunks)@.len() + if system.is_loaded(
                chunk_pos,
            ) {
                1int
            } else {
                0int
            },
            forall|j: int|
                0 <= j < old(affected_chunks)@.len() ==> #[trigger] final(affected_chunks)@[j] == old(
                    affected_chunks,
                )@[j],
            system.is_loaded(chunk_pos) ==> {
                let cell = final(affected_chunks)@.last();
                &&& cell.chunk_pos == chunk_pos
                &&& cell.chunk == system.index_of(chunk_pos)
                &&& cell.queued_pixels@.len() == 0
            },
    {
        match system.get_chunk(chunk_pos) {
            Some(chunk) => {
                affected_chunks.push(ChunkCacheCell { chunk_pos, chunk, queued_pixels: Vec::new() });
            },
            None => {},
        }
    }
}

impl ChunkWriter<ChunkPixelRGBA> {
    /// The cells are those of the chunks that `pixels` touches among the
    /// loaded ones, and each holds the pixels of its chunk in order.
    pub open spec fn holds(&self, pixels: Seq<GlobalPixelRGBA>, system: &ChunkSystem) -> bool {
        &&& cell_positions(self.affected_chunks@) == touched_chunks(
            pixels,
            chunk_positions(system.chunks@),
        )
        &&& forall|k: int|
            0 <= k < self.affected_chunks@.len() ==> {
                let cell = #[trigger] self.affected_chunks@[k];
                &&& cell.chunk == system.index_of(cell.chunk_pos)
                &&& cell.chunk < system.chunks@.len()
                &&& system.chunks@[cell.chunk as int].position == cell.chunk_pos
                &&& cell.queued_pixels@ == pixels_in_chunk(pixels, cell.chunk_pos).map_values(
                    |p: GlobalPixelRGBA| queued_of(p),
                )
            }
    }

    /// Sorts `pixels` by chunk: a cell is opened for every loaded chunk that
    /// holds one of them, in the order in which the pixels reach the chunks,
    /// and each pixel is queued in the cell of its chunk. Pixels of chunks
    /// that are not loaded are left out. Cells that the writer held before
    /// are let go first.
    pub fn generate_affected(&mut self, pixels: &[GlobalPixelRGBA], system: &ChunkSystem)
        requires
            system.wf(),
        ensures
            final(self).holds(pixels@, system),
    {
        self.affected_chunks = Vec::new();
        let ghost loaded = chunk_positions(system.chunks@);
        let mut i: usize = 0;
        assert(cell_positions(self.affected_chunks@) =~= touched_chunks(pixels@.take(0), loaded));
        while i < pixels.len()
            invariant
                i <= pixels@.len(),
                system.wf(),
                loaded == chunk_positions(system.chunks@),
                cell_positions(self.affected_chunks@) == touched_chunks(pixels@.take(i as int), loaded),
                forall|k: int|
                    0 <= k < self.affected_chunks@.len() ==> {
                        let cell = #[trigger] self.affected_chunks@[k];
                        &&& cell.chunk == system.index_of(cell.chunk_pos)
                        &&& cell.chunk < system.chunks@.len()
                        &&& system.chunks@[cell.chunk as int].position == cell.chunk_pos
                        &&& cell.queued_pixels@.len() == 0
                    },
            decreases pixels@.len() - i,
        {
            let chunk_pos = ChunkSystem::global_pixel_pos_to_chunk_pos(pixels[i].pos);
            let ghost before = self.affected_chunks@;
            proof {
                assert(pixels@.take(i as int + 1).drop_last() =~= pixels@.take(i as int));
                assert(pixels@.take(i as int + 1).last() == pixels@[i as int]);
            }
            if Self::fetch_cell(&self.affected_chunks, chunk_pos).is_none() {
                Self::cache_new_chunk(system, &mut self.affected_chunks, chunk_pos);
                proof {
                    if system.is_loaded(chunk_pos) {
                        assert(cell_positions(self.affected_chunks@) =~= cell_positions(before).push(
                            chunk_pos,
                        ));
                        let ps = chunk_positions(system.chunks@);
                        let j = ps.index_of(chunk_pos);
                        assert(ps[j] == chunk_pos);
                    } else {
                        assert(self.affected_chunks@ =~= before);
                    }
                }
            }
            i += 1;
        }
        assert(pixels@.take(pixels@.len() as int) =~= pixels@);

        let mut i: usize = 0;
        proof {
            assert forall|k: int| 0 <= k < self.affected_chunks@.len() implies (
            #[trigger] self.affected_chunks@[k]).queued_pixels@ == pixels_in_chunk(
                pixels@.take(0),
                self.affected_chunks@[k].chunk_pos,
            ).map_values(|p: GlobalPixelRGBA| queued_of(p)) by {
                lemma_filter_none(
                    pixels@,
                    |p: GlobalPixelRGBA| chunk_pos_of(p.pos) == self.affected_chunks@[k].chunk_pos,
                );
                assert(self.affected_chunks@[k].queued_pixels@ =~= pixels_in_chunk(
                    pixels@.take(0),
                    self.affected_chunks@[k].chunk_pos,
                ).map_values(|p: GlobalPixelRGBA| queued_of(p)));
            }
        }
        while i < pixels.len()
            invariant
                i <= pixels@.len(),
                system.wf(),
                loaded == chunk_positions(system.chunks@),
                cell_positions(self.affected_chunks@) == touched_chunks(pixels@, loaded),
                forall|k: int|
                    0 <= k < self.affected_chunks@.len() ==> {
                        let cell = #[trigger] self.affected_chunks@[k];
                        &&& cell.chunk == system.index_of(cell.chunk_pos)
                        &&& cell.chunk < system.chunks@.len()
                        &&& system.chunks@[cell.chunk as int].position == cell.chunk_pos
                        &&& cell.queued_pixels@ == pixels_in_chunk(
                            pixels@.take(i as int),
                            cell.chunk_pos,
                        ).map_values(|p: GlobalPixelRGBA| queued_of(p))
                    },
            decreases pixels@.len() - i,
        {
            let pixel = pixels[i];
            let chunk_pos = ChunkSystem::global_pixel_pos_to_chunk_pos(pixel.pos);
            let ghost before = self.affected_chunks@;
            let found = Self::fetch_cell(&self.affected_chunks, chunk_pos);
            match found {
                Some(k) => {
                    let local = ChunkSystem::global_pixel_pos_to_local_pixel_pos(pixel.pos);
                    self.affected_chunks[k].queued_pixels.push(
                        (ChunkPixelRGBA { color: pixel.color, pos: local }, pixel.pos),
                    );
                    proof {
                        assert(cell_positions(self.affected_chunks@) =~= cell_positions(before));
                    }
                },
                None => {},
            }
            proof {
                lemma_touched_chunks(pixels@, loaded);
                assert forall|k: int| 0 <= k < self.affected_chunks@.len() implies ({
                    let cell = #[trigger] self.affected_chunks@[k];
                    cell.queued_pixels@ == pixels_in_chunk(
                        pixels@.take(i as int + 1),
                        cell.chunk_pos,
                    ).map_values(|p: GlobalPixelRGBA| queued_of(p))
                }) by {
                    let cell = self.affected_chunks@[k];
                    let was = before[k];
                    assert(cell.chunk_pos == was.chunk_pos);
                    assert(cell_positions(before)[k] == was.chunk_pos);
                    lemma_filter_step(
                        pixels@,
                        |p: GlobalPixelRGBA| chunk_pos_of(p.pos) == cell.chunk_pos,
                        i as int,
                    );
                    if chunk_pos == cell.chunk_pos {
                        assert(found == Some(k as usize)) by {
                            let f = found->Some_0;
                            assert(cell_positions(before)[f as int] == chunk_pos);
                        }
                        assert(cell.queued_pixels@ =~= was.queued_pixels@.push(queued_of(pixel)));
                        assert(cell.queued_pixels@ =~= pixels_in_chunk(
                            pixels@.take(i as int + 1),
                            cell.chunk_pos,
                        ).map_values(|p: GlobalPixelRGBA| queued_of(p)));
                    } else {
                        assert(cell.queued_pixels@ =~= was.queued_pixels@);
                    }
                }
            }
            i += 1;
        }
        assert(pixels@.take(pixels@.len() as int) =~= pixels@);
    }
}

} // verus!
