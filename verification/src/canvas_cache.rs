//! A private copy of the chunks that a tool reads, so that the tool sees
//! what it has painted so far without touching the canvas.

use vstd::prelude::*;
use crate::chunk::layer::{lemma_rgb_put_at, rgb_at, rgb_put};
use crate::chunk::system::{chunk_pos_of, chunk_positions, local_pos_of, ChunkSystem};
use crate::pixel::{ColorRGB, ColorRGBA};
use crate::vector::IVec2;

verus! {

/// The copy of one chunk.
pub struct Cell {
    pub pos: IVec2,
    /// An RGB image of the size of a chunk.
    pub data: Vec<u8>,
}

/// Copies of the chunks read so far. No chunk is held twice.
pub struct CanvasCache {
    pub cells: Vec<Cell>,
}

/// The chunk positions of `cells`, in order.
pub open spec fn copied_positions(cells: Seq<Cell>) -> Seq<IVec2> {
    cells.map_values(|c: Cell| c.pos)
}

impl CanvasCache {
    /// Every copy is a whole image of a loaded chunk, and no chunk is copied
    /// twice.
    pub open spec fn wf(&self, system: &ChunkSystem) -> bool {
        &&& copied_positions(self.cells@).no_duplicates()
        &&& forall|i: int|
            0 <= i < self.cells@.len() ==> (#[trigger] self.cells@[i]).data@.len() == 196608
                && system.is_loaded(self.cells@[i].pos)
    }

    /// The chunk at `chunk_pos` has been copied.
    pub open spec fn has_cell(&self, chunk_pos: IVec2) -> bool {
        copied_positions(self.cells@).contains(chunk_pos)
    }

    /// The colour that the tool sees at `pixel_pos`, whose chunk is loaded:
    /// that of the copy where the chunk has been copied, else that of the
    /// canvas.
    pub open spec fn color_at(&self, system: &ChunkSystem, pixel_pos: IVec2) -> ColorRGB {
        if self.has_cell(chunk_pos_of(pixel_pos)) {
            rgb_at(
                self.cells@[copied_positions(self.cells@).index_of(chunk_pos_of(pixel_pos))].data@,
                local_pos_of(pixel_pos),
            )
        } else {
            system.pixel_at(pixel_pos)
        }
    }

    /// A cache without copies.
    pub fn new() -> (cache: Self)
        ensures
            cache.cells@.len() == 0,
            forall|p: IVec2| !cache.has_cell(p),
    {
        let cache = CanvasCache { cells: Vec::new() };
        assert(copied_positions(cache.cells@) =~= Seq::<IVec2>::empty());
        cache
    }

    /// Finds the copy of the chunk at `chunk_pos`.
    fn find(&self, chunk_pos: IVec2) -> (found: Option<usize>)
        ensures
            found is Some <==> self.has_cell(chunk_pos),
            found matches Some(i) ==> i < self.cells@.len() && self.cells@[i as int].pos == chunk_pos,
            copied_positions(self.cells@).no_duplicates() ==> (found matches Some(i) ==> i
                == copied_positions(self.cells@).index_of(chunk_pos)),
    {
        let mut i: usize = 0;
        while i < self.cells.len()
            invariant
                i <= self.cells@.len(),
                forall|j: int| 0 <= j < i ==> (#[trigger] self.cells@[j]).pos != chunk_pos,
            decreases self.cells@.len() - i,
        {
            if self.cells[i].pos == chunk_pos {
                proof {
                    let ps = copied_positions(self.cells@);
                    assert(ps[i as int] == chunk_pos);
                    let j = ps.index_of(chunk_pos);
                    assert(ps[j] == chunk_pos);
                }
                return Some(i);
            }
            i += 1;
        }
        assert forall|j: int| 0 <= j < copied_positions(self.cells@).len() implies copied_positions(
            self.cells@,
        )[j] != chunk_pos by {
            assert(copied_positions(self.cells@)[j] == self.cells@[j].pos);
        }
        None
    }

    /// The copy of the chunk at `chunk_pos`, made now where there is none
    /// yet; nothing where the chunk is not loaded.
    fn get_cell_mut(&mut self, system: &ChunkSystem, chunk_pos: &IVec2) -> (found: Option<usize>)
        requires
            old(self).wf(system),
            system.wf(),
        ensures
            final(self).wf(system),
            found is Some <==> system.is_loaded(*chunk_pos),
            found matches Some(i) ==> i < final(self).cells@.len() && final(self).cells@[i as int].pos
                == *chunk_pos && i == copied_positions(final(self).cells@).index_of(*chunk_pos),
            found is Some ==> final(self).has_cell(*chunk_pos),
            found is None ==> final(self).cells@ == old(self).cells@,
            forall|p: IVec2| old(self).has_cell(p) ==> final(self).has_cell(p),
            forall|p: IVec2| final(self).has_cell(p) ==> old(self).has_cell(p) || p == *chunk_pos,
            forall|g: IVec2|
                system.is_loaded(chunk_pos_of(g)) ==> #[trigger] final(self).color_at(system, g) == old(
                    self,
                ).color_at(system, g),
    {
        match self.find(*chunk_pos) {
            Some(i) => Some(i),
            None => {
                match system.get_chunk(*chunk_pos) {
                    Some(at) => {
                        let ghost before = self.cells@;
                        let data = system.chunks[at].snapshot();
                        self.cells.push(Cell { pos: *chunk_pos, data });
                        proof {
                            let ps = copied_positions(self.cells@);
                            let old_ps = copied_positions(before);
                            let last = ps.len() - 1;
                            assert(ps[last] == *chunk_pos);
                            assert forall|a: int, b: int|
                                0 <= a < ps.len() && 0 <= b < ps.len() && a != b implies ps[a]
                                != ps[b] by {
                                if a < last {
                                    assert(ps[a] == old_ps[a]);
                                }
                                if b < last {
                                    assert(ps[b] == old_ps[b]);
                                }
                            }
                            let j = ps.index_of(*chunk_pos);
                            assert(ps[j] == *chunk_pos);
                            assert forall|p: IVec2| old(self).has_cell(p) implies self.has_cell(p) by {
                                let w = choose|w: int| 0 <= w < old_ps.len() && old_ps[w] == p;
                                assert(ps[w] == p);
                            }
                            assert forall|p: IVec2| self.has_cell(p) implies old(self).has_cell(p) || p
                                == *chunk_pos by {
                                let w = choose|w: int| 0 <= w < ps.len() && ps[w] == p;
                                if w < last {
                                    assert(old_ps[w] == p);
                                }
                            }
                            assert forall|g: IVec2| system.is_loaded(chunk_pos_of(g)) implies #[trigger] self.color_at(
                                system,
                                g,
                            ) == old(self).color_at(system, g) by {
                                let c = chunk_pos_of(g);
                                if c == *chunk_pos {
                                    assert(system.index_of(c) == at);
                                } else if old(self).has_cell(c) {
                                    let w = old_ps.index_of(c);
                                    assert(old_ps[w] == c);
                                    assert(ps[w] == c);
                                    let v = ps.index_of(c);
                                    assert(ps[v] == c);
                                    assert(v == w);
                                } else {
                                    if self.has_cell(c) {
                                        let w = choose|w: int| 0 <= w < ps.len() && ps[w] == c;
                                        if w < last {
                                            assert(old_ps[w] == c);
                                        }
                                    }
                                }
                            }
                        }
                        Some(self.cells.len() - 1)
                    },
                    None => None,
                }
            },
        }
    }

    /// The colour that the tool sees at `global_pos`; nothing where the
    /// chunk of that pixel is not loaded. The chunk is copied at its first
    /// reading.
    pub fn get_pixel(&mut self, system: &ChunkSystem, global_pos: &IVec2) -> (color: Option<ColorRGBA>)
        requires
            old(self).wf(system),
            system.wf(),
        ensures
            final(self).wf(system),
            color is Some <==> system.is_loaded(chunk_pos_of(*global_pos)),
            color matches Some(c) ==> c == (ColorRGBA {
                r: old(self).color_at(system, *global_pos).r,
                g: old(self).color_at(system, *global_pos).g,
                b: old(self).color_at(system, *global_pos).b,
                a: 255,
            }),
            color is Some ==> final(self).has_cell(chunk_pos_of(*global_pos)),
            color is None ==> final(self).cells@ == old(self).cells@,
            forall|p: IVec2| old(self).has_cell(p) ==> final(self).has_cell(p),
            forall|p: IVec2|
                final(self).has_cell(p) ==> old(self).has_cell(p) || p == chunk_pos_of(*global_pos),
            forall|g: IVec2|
                system.is_loaded(chunk_pos_of(g)) ==> #[trigger] final(self).color_at(system, g) == old(
                    self,
                ).color_at(system, g),
    {
        let chunk_pos = ChunkSystem::global_pixel_pos_to_chunk_pos(*global_pos);
        match self.get_cell_mut(system, &chunk_pos) {
            Some(i) => {
                let local_pos = ChunkSystem::global_pixel_pos_to_local_pixel_pos(*global_pos);
                let offset: usize = local_pos.y as usize * 768 + local_pos.x as usize * 3;
                proof {
                    assert(self.color_at(system, *global_pos) == old(self).color_at(
                        system,
                        *global_pos,
                    ));
                }
                Some(
                    ColorRGBA {
                        r: self.cells[i].data[offset],
                        g: self.cells[i].data[offset + 1],
                        b: self.cells[i].data[offset + 2],
                        a: 255,
                    },
                )
            },
            None => None,
        }
    }

    /// Makes the tool see `color` at `global_pos`, where the chunk of that
    /// pixel has been copied; elsewhere nothing changes.
    pub fn set_pixel(&mut self, system: &ChunkSystem, global_pos: &IVec2, color: &ColorRGBA)
        requires
            old(self).wf(system),
        ensures
            final(self).wf(system),
            forall|p: IVec2| final(self).has_cell(p) == old(self).has_cell(p),
            forall|g: IVec2| #[trigger]
                final(self).color_at(system, g) == if g == *global_pos && old(self).has_cell(
                    chunk_pos_of(g),
                ) {
                    ColorRGB { r: color.r, g: color.g, b: color.b }
                } else {
                    old(self).color_at(system, g)
                },
    {
        let chunk_pos = ChunkSystem::global_pixel_pos_to_chunk_pos(*global_pos);
        match self.find(chunk_pos) {
            Some(i) => {
                let ghost before = self.cells@;
                let local_pos = ChunkSystem::global_pixel_pos_to_local_pixel_pos(*global_pos);
                let offset: usize = local_pos.y as usize * 768 + local_pos.x as usize * 3;
                self.cells[i].data[offset] = color.r;
                self.cells[i].data[offset + 1] = color.g;
                self.cells[i].data[offset + 2] = color.b;
                proof {
                    let rgb = ColorRGB { r: color.r, g: color.g, b: color.b };
                    assert(copied_positions(self.cells@) =~= copied_positions(before));
                    assert(self.cells@[i as int].data@ =~= rgb_put(
                        before[i as int].data@,
                        local_pos,
                        rgb,
                    ));
                    assert forall|g: IVec2| #[trigger]
                        self.color_at(system, g) == if g == *global_pos && old(self).has_cell(
                            chunk_pos_of(g),
                        ) {
                            rgb
                        } else {
                            old(self).color_at(system, g)
                        } by {
                        let c = chunk_pos_of(g);
                        if old(self).has_cell(c) {
                            let w = copied_positions(before).index_of(c);
                            assert(copied_positions(before)[w] == c);
                            if c == chunk_pos {
                                assert(w == i);
                                lemma_rgb_put_at(
                                    before[i as int].data@,
                                    local_pos,
                                    rgb,
                                    local_pos_of(g),
                                );
                                crate::chunk::system::lemma_chunk_and_local_coord(g.x);
                                crate::chunk::system::lemma_chunk_and_local_coord(g.y);
                                crate::chunk::system::lemma_chunk_and_local_coord(global_pos.x);
                                crate::chunk::system::lemma_chunk_and_local_coord(global_pos.y);
                            } else {
                                assert(w != i);
                                assert(self.cells@[w] == before[w]);
                            }
                        }
                    }
                }
            },
            None => {},
        }
    }
}

} // verus!
