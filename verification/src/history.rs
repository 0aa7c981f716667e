//! What a session painted over, kept so that it can be put back.

use vstd::prelude::*;
use std::collections::HashSet;
use crate::limits::HISTORY_SNAPSHOTS_MAX;
use crate::pixel::GlobalPixelRGBA;
use crate::vector::IVec2;
use crate::wire::i32_bits;

verus! {

broadcast use vstd::std_specs::hash::group_hash_axioms;

/// One snapshot: each pixel that a stroke replaced, with the colour it had
/// before. No position occurs twice.
pub struct HistoryCell {
    pub pixels: Vec<GlobalPixelRGBA>,
}

/// The snapshots of a session, oldest first, at most 50 of them.
pub struct History {
    pub cells: Vec<HistoryCell>,
    /// The positions that the latest snapshot holds, each as one number.
    pub modified_pixel_coords: HashSet<u64>,
}

/// A position as one number: its two coordinates side by side.
pub open spec fn pack_pos(pos: IVec2) -> u64 {
    (i32_bits(pos.x) as int * 0x1_0000_0000 + i32_bits(pos.y) as int) as u64
}

/// The positions of `pixels`, in order.
pub open spec fn pixel_positions(pixels: Seq<GlobalPixelRGBA>) -> Seq<IVec2> {
    pixels.map_values(|p: GlobalPixelRGBA| p.pos)
}

/// The positions of `pixels`, each as one number.
pub open spec fn keys_of(pixels: Seq<GlobalPixelRGBA>) -> Set<u64> {
    Set::new(|key: u64| exists|i: int| 0 <= i < pixels.len() && pack_pos(#[trigger] pixels[i].pos) == key)
}

/// Different positions are different numbers.
pub proof fn lemma_pack_pos_injective(a: IVec2, b: IVec2)
    requires
        pack_pos(a) == pack_pos(b),
    ensures
        a == b,
{
}

/// The number that stands for `pos`.
pub fn pos_key(pos: IVec2) -> (key: u64)
    ensures
        key == pack_pos(pos),
{
    let ux: u64 = if pos.x < 0 {
        (pos.x as i64 + 0x1_0000_0000) as u64
    } else {
        pos.x as u64
    };
    let uy: u64 = if pos.y < 0 {
        (pos.y as i64 + 0x1_0000_0000) as u64
    } else {
        pos.y as u64
    };
    ux * 0x1_0000_0000 + uy
}

impl HistoryCell {
    /// No position occurs twice.
    pub open spec fn wf(&self) -> bool {
        pixel_positions(self.pixels@).no_duplicates()
    }
}

impl History {
    /// There are at most 50 snapshots, no snapshot holds a position twice,
    /// and the recorded positions are those of the latest snapshot.
    pub open spec fn wf(&self) -> bool {
        &&& self.cells@.len() <= 50
        &&& forall|i: int| 0 <= i < self.cells@.len() ==> (#[trigger] self.cells@[i]).wf()
        &&& self.cells@.len() > 0 ==> self.modified_pixel_coords@ == keys_of(
            self.cells@.last().pixels@,
        )
    }

    /// The latest snapshot holds the position `pos`.
    pub open spec fn has_recorded(&self, pos: IVec2) -> bool {
        self.cells@.len() > 0 && pixel_positions(self.cells@.last().pixels@).contains(pos)
    }

    /// A history without snapshots, in which no position is recorded.
    pub fn new() -> (history: Self)
        ensures
            history.wf(),
            history.cells@.len() == 0,
            history.modified_pixel_coords@ == Set::<u64>::empty(),
    {
        History { cells: Vec::new(), modified_pixel_coords: HashSet::new() }
    }

    /// Opens a new, empty snapshot. Where 50 are held already, the oldest is
    /// dropped first.
    pub fn create_snapshot(&mut self)
        requires
            old(self).wf(),
        ensures
            final(self).wf(),
            final(self).cells@.len() > 0,
            final(self).cells@.last().pixels@ == Seq::<GlobalPixelRGBA>::empty(),
            final(self).cells@.drop_last() == if old(self).cells@.len() >= 50 {
                old(self).cells@.skip(1)
            } else {
                old(self).cells@
            },
    {
        if self.cells.len() >= HISTORY_SNAPSHOTS_MAX {
            self.cells.remove(0);
        }
        let ghost kept = self.cells@;
        assert(kept =~= if old(self).cells@.len() >= 50 {
            old(self).cells@.skip(1)
        } else {
            old(self).cells@
        });
        self.modified_pixel_coords.clear();
        self.cells.push(HistoryCell { pixels: Vec::new() });
        proof {
            assert(self.cells@.drop_last() =~= kept);
            assert(keys_of(self.cells@.last().pixels@) =~= Set::<u64>::empty());
            assert(pixel_positions(self.cells@.last().pixels@) =~= Seq::<IVec2>::empty());
        }
    }

    /// Records `pixel` in the latest snapshot, unless that snapshot holds its
    /// position already. Without any snapshot, one is opened first.
    pub fn add_pixel(&mut self, pixel: GlobalPixelRGBA)
        requires
            old(self).wf(),
        ensures
            final(self).wf(),
            final(self).cells@.len() == if old(self).cells@.len() == 0 {
                1
            } else {
                old(self).cells@.len() as int
            },
            forall|i: int|
                0 <= i < final(self).cells@.len() - 1 ==> #[trigger] final(self).cells@[i] == old(
                    self,
                ).cells@[i],
            final(self).cells@.last().pixels@ == if old(self).cells@.len() == 0 {
                seq![pixel]
            } else if old(self).has_recorded(pixel.pos) {
                old(self).cells@.last().pixels@
            } else {
                old(self).cells@.last().pixels@.push(pixel)
            },
            final(self).has_recorded(pixel.pos),
    {
        if self.cells.len() == 0 {
            self.create_snapshot();
        }
        let ghost before = self.cells@;
        let ghost held = before.last().pixels@;
        let key = pos_key(pixel.pos);
        let fresh = self.modified_pixel_coords.insert(key);
        proof {
            if !fresh {
                let i = choose|i: int| 0 <= i < held.len() && pack_pos(#[trigger] held[i].pos) == key;
                lemma_pack_pos_injective(held[i].pos, pixel.pos);
                assert(pixel_positions(held)[i] == pixel.pos);
            } else {
                assert forall|i: int| 0 <= i < pixel_positions(held).len() implies pixel_positions(
                    held,
                )[i] != pixel.pos by {
                    assert(pack_pos(held[i].pos) != key);
                }
            }
        }
        if fresh {
            let last = self.cells.len() - 1;
            self.cells[last].pixels.push(pixel);
            proof {
                let now = self.cells@.last().pixels@;
                assert(now =~= held.push(pixel));
                assert(keys_of(now) =~= keys_of(held).insert(key)) by {
                    assert forall|k: u64| keys_of(now).contains(k) implies keys_of(held).insert(
                        key,
                    ).contains(k) by {
                        let i = choose|i: int| 0 <= i < now.len() && pack_pos(#[trigger] now[i].pos) == k;
                        if i < held.len() {
                            assert(held[i] == now[i]);
                        }
                    }
                    assert forall|k: u64| keys_of(held).insert(key).contains(k) implies keys_of(
                        now,
                    ).contains(k) by {
                        if k == key {
                            assert(pack_pos(now[held.len() as int].pos) == k);
                        } else {
                            let i = choose|i: int|
                                0 <= i < held.len() && pack_pos(#[trigger] held[i].pos) == k;
                            assert(now[i] == held[i]);
                        }
                    }
                }
                let ps = pixel_positions(now);
                assert(ps =~= pixel_positions(held).push(pixel.pos));
                assert(ps[ps.len() - 1] == pixel.pos);
                assert forall|i: int, j: int| 0 <= i < ps.len() && 0 <= j < ps.len() && i != j implies ps[i]
                    != ps[j] by {
                    if i < held.len() {
                        assert(ps[i] == pixel_positions(held)[i]);
                    }
                    if j < held.len() {
                        assert(ps[j] == pixel_positions(held)[j]);
                    }
                }
                assert forall|i: int| 0 <= i < self.cells@.len() implies (#[trigger] self.cells@[i]).wf() by {
                    if i < self.cells@.len() - 1 {
                        assert(self.cells@[i] == before[i]);
                    }
                }
            }
        } else {
            proof {
                assert(self.modified_pixel_coords@ =~= keys_of(held));
            }
        }
    }

    /// Takes the latest snapshot out of the history.
    pub fn undo(&mut self) -> (cell: Option<HistoryCell>)
        requires
            old(self).wf(),
        ensures
            final(self).wf(),
            cell is Some <==> old(self).cells@.len() > 0,
            cell matches Some(taken) ==> taken == old(self).cells@.last() && taken.wf(),
            final(self).cells@ == if old(self).cells@.len() > 0 {
                old(self).cells@.drop_last()
            } else {
                old(self).cells@
            },
    {
        let cell = self.cells.pop();
        if cell.is_none() {
            return None;
        }
        assert(self.cells@ =~= old(self).cells@.drop_last());
        assert forall|i: int| 0 <= i < self.cells@.len() implies (#[trigger] self.cells@[i]).wf() by {
            assert(self.cells@[i] == old(self).cells@[i]);
        }
        self.modified_pixel_coords.clear();
        if self.cells.len() > 0 {
            let last = self.cells.len() - 1;
            let mut i: usize = 0;
            assert(keys_of(self.cells@[last as int].pixels@.take(0)) =~= Set::<u64>::empty());
            while i < self.cells[last].pixels.len()
                invariant
                    last == self.cells@.len() - 1,
                    self.cells@ == old(self).cells@.drop_last(),
                    i <= self.cells@[last as int].pixels@.len(),
                    self.modified_pixel_coords@ == keys_of(
                        self.cells@[last as int].pixels@.take(i as int),
                    ),
                decreases self.cells@[last as int].pixels@.len() - i,
            {
                let ghost held = self.cells@[last as int].pixels@;
                let key = pos_key(self.cells[last].pixels[i].pos);
                self.modified_pixel_coords.insert(key);
                proof {
                    let front = held.take(i as int);
                    let more = held.take(i as int + 1);
                    assert(keys_of(more) =~= keys_of(front).insert(key)) by {
                        assert forall|k: u64| keys_of(more).contains(k) implies keys_of(front).insert(
                            key,
                        ).contains(k) by {
                            let j = choose|j: int|
                                0 <= j < more.len() && pack_pos(#[trigger] more[j].pos) == k;
                            if j < front.len() {
                                assert(front[j] == more[j]);
                            }
                        }
                        assert forall|k: u64| keys_of(front).insert(key).contains(k) implies keys_of(
                            more,
                        ).contains(k) by {
                            if k == key {
                                assert(pack_pos(more[i as int].pos) == k);
                            } else {
                                let j = choose|j: int|
                                    0 <= j < front.len() && pack_pos(#[trigger] front[j].pos) == k;
                                assert(more[j] == front[j]);
                            }
                        }
                    }
                }
                i += 1;
            }
            assert(self.cells@[last as int].pixels@.take(i as int) =~= self.cells@.last().pixels@);
        }
        cell
    }
}

} // verus!
