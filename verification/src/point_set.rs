//! A set of positions that remembers the order in which they came.

use vstd::prelude::*;
use std::collections::HashSet;
use crate::history::{lemma_pack_pos_injective, pack_pos, pos_key};
use crate::vector::IVec2;

verus! {

broadcast use vstd::std_specs::hash::group_hash_axioms;

/// Positions, each once, in the order in which they were first put in.
pub struct PointSet {
    pub points: Vec<IVec2>,
    /// The positions, each as one number.
    pub keys: HashSet<u64>,
}

/// `points` with `p` behind them, unless they hold it already.
pub open spec fn inserted(points: Seq<IVec2>, p: IVec2) -> Seq<IVec2> {
    if points.contains(p) {
        points
    } else {
        points.push(p)
    }
}

/// The positions of `fed`, each once, in the order in which `fed` first
/// gives them.
pub open spec fn first_seen(fed: Seq<IVec2>) -> Seq<IVec2>
    decreases fed.len(),
{
    if fed.len() == 0 {
        Seq::empty()
    } else {
        inserted(first_seen(fed.drop_last()), fed.last())
    }
}

/// The numbers that stand for `points`.
pub open spec fn point_keys(points: Seq<IVec2>) -> Set<u64> {
    Set::new(|key: u64| exists|i: int| 0 <= i < points.len() && pack_pos(#[trigger] points[i]) == key)
}

/// What `first_seen` gives holds no position twice, and holds exactly the
/// positions fed.
pub proof fn lemma_first_seen(fed: Seq<IVec2>)
    ensures
        first_seen(fed).no_duplicates(),
        first_seen(fed).len() <= fed.len(),
        forall|p: IVec2| #[trigger] first_seen(fed).contains(p) <==> fed.contains(p),
    decreases fed.len(),
{
    if fed.len() > 0 {
        let front = fed.drop_last();
        lemma_first_seen(front);
        let before = first_seen(front);
        let now = first_seen(fed);
        if !before.contains(fed.last()) {
            assert(now[now.len() - 1] == fed.last());
            assert forall|a: int, b: int| 0 <= a < now.len() && 0 <= b < now.len() && a != b implies now[a]
                != now[b] by {
                if a < before.len() {
                    assert(now[a] == before[a]);
                    assert(before.contains(before[a]));
                }
                if b < before.len() {
                    assert(now[b] == before[b]);
                    assert(before.contains(before[b]));
                }
            }
        }
        assert forall|p: IVec2| #[trigger] now.contains(p) <==> fed.contains(p) by {
            if now.contains(p) {
                let w = choose|w: int| 0 <= w < now.len() && now[w] == p;
                if w < before.len() && before[w] == p {
                    assert(before.contains(p));
                    let v = choose|v: int| 0 <= v < front.len() && front[v] == p;
                    assert(fed[v] == p);
                } else {
                    assert(p == fed.last());
                    assert(fed[fed.len() - 1] == p);
                }
            }
            if fed.contains(p) {
                let v = choose|v: int| 0 <= v < fed.len() && fed[v] == p;
                if v < front.len() {
                    assert(front[v] == p);
                    assert(before.contains(p));
                    let w = choose|w: int| 0 <= w < before.len() && before[w] == p;
                    assert(now[w] == p);
                } else {
                    if before.contains(p) {
                        let w = choose|w: int| 0 <= w < before.len() && before[w] == p;
                        assert(now[w] == p);
                    } else {
                        assert(now[now.len() - 1] == p);
                    }
                }
            }
        }
    }
}

impl PointSet {
    /// No position is held twice, and the numbers are those of the
    /// positions.
    pub open spec fn wf(&self) -> bool {
        &&& self.points@.no_duplicates()
        &&& self.keys@ == point_keys(self.points@)
    }

    /// An empty set.
    pub fn new() -> (set: Self)
        ensures
            set.wf(),
            set.points@.len() == 0,
    {
        let set = PointSet { points: Vec::new(), keys: HashSet::new() };
        assert(set.keys@ =~= point_keys(set.points@));
        set
    }

    /// Empties the set.
    pub fn clear(&mut self)
        ensures
            final(self).wf(),
            final(self).points@.len() == 0,
    {
        self.points.clear();
        self.keys.clear();
        assert(self.keys@ =~= point_keys(self.points@));
    }

    /// Whether the set holds `pos`.
    pub fn contains(&self, pos: IVec2) -> (held: bool)
        requires
            self.wf(),
        ensures
            held == self.points@.contains(pos),
    {
        let key = pos_key(pos);
        let held = self.keys.contains(&key);
        proof {
            if held {
                let i = choose|i: int|
                    0 <= i < self.points@.len() && pack_pos(#[trigger] self.points@[i]) == key;
                lemma_pack_pos_injective(self.points@[i], pos);
            } else {
                if self.points@.contains(pos) {
                    let w = choose|w: int| 0 <= w < self.points@.len() && self.points@[w] == pos;
                    assert(pack_pos(self.points@[w]) == key);
                    assert(point_keys(self.points@).contains(key));
                }
            }
        }
        held
    }

    /// Puts `pos` into the set, behind the others, unless it is held
    /// already.
    pub fn insert(&mut self, pos: IVec2)
        requires
            old(self).wf(),
        ensures
            final(self).wf(),
            final(self).points@ == inserted(old(self).points@, pos),
    {
        let ghost held = self.points@;
        let key = pos_key(pos);
        let fresh = self.keys.insert(key);
        proof {
            if !fresh {
                let i = choose|i: int| 0 <= i < held.len() && pack_pos(#[trigger] held[i]) == key;
                lemma_pack_pos_injective(held[i], pos);
                assert(held.contains(pos));
                assert(self.keys@ =~= point_keys(held));
            } else {
                if held.contains(pos) {
                    let w = choose|w: int| 0 <= w < held.len() && held[w] == pos;
                    assert(pack_pos(held[w]) == key);
                    assert(point_keys(held).contains(key));
                }
            }
        }
        if fresh {
            self.points.push(pos);
            proof {
                let now = self.points@;
                assert(now[now.len() - 1] == pos);
                assert forall|a: int, b: int| 0 <= a < now.len() && 0 <= b < now.len() && a != b implies now[a]
                    != now[b] by {
                    if a < held.len() {
                        assert(now[a] == held[a]);
                        assert(held.contains(held[a]));
                    }
                    if b < held.len() {
                        assert(now[b] == held[b]);
                        assert(held.contains(held[b]));
                    }
                }
                assert(point_keys(now) =~= point_keys(held).insert(key)) by {
                    assert forall|k: u64| point_keys(now).contains(k) implies point_keys(held).insert(
                        key,
                    ).contains(k) by {
                        let i = choose|i: int| 0 <= i < now.len() && pack_pos(#[trigger] now[i]) == k;
                        if i < held.len() {
                            assert(held[i] == now[i]);
                        }
                    }
                    assert forall|k: u64| point_keys(held).insert(key).contains(k) implies point_keys(
                        now,
                    ).contains(k) by {
                        if k == key {
                            assert(pack_pos(now[held.len() as int]) == k);
                        } else {
                            let i = choose|i: int|
                                0 <= i < held.len() && pack_pos(#[trigger] held[i]) == k;
                            assert(now[i] == held[i]);
                        }
                    }
                }
            }
        }
    }
}

} // verus!
