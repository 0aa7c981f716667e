//! Which chunks a session watches: how chunks are streamed to it as its
//! boundary moves, and let go when they have left the boundary.

use vstd::prelude::*;
use crate::chunk::chunk::{delivered, ChunkInstance, Delivery, LinkedSession};
use crate::chunk::compositor::LayerEntry;
use crate::chunk::system::{chunk_positions, list_contains, ChunkSystem};
use crate::id::SessionHandle;
use crate::packet_server::user_remove_frame;
use crate::room::{broadcast_frames, others_than, RoomInstance};
use crate::packet_server::{
    chunk_create_frame, chunk_image_frame, chunk_remove_frame, prepare_packet_chunk_create,
    prepare_packet_chunk_remove,
};
use crate::seq_facts::{lemma_filter_keeps, lemma_filter_none, lemma_filter_step};
use crate::session::{linked_positions, zoom_streams, Boundary, LinkedChunk, SessionInstance};
use crate::vector::IVec2;

verus! {

/// The chunk at `pos` lies outside the boundary, or the zoom is too far out
/// for chunks to be shown at all.
pub open spec fn outside_boundary(boundary: Boundary, pos: IVec2) -> bool {
    !zoom_streams(boundary.zoom_bits) || pos.y < boundary.start_y || pos.y > boundary.end_y || pos.x
        < boundary.start_x || pos.x > boundary.end_x
}

/// The watched chunk is let go at this check: it lies outside the boundary
/// for the fifth check in a row.
pub open spec fn leaves(boundary: Boundary, chunk: LinkedChunk) -> bool {
    outside_boundary(boundary, chunk.pos) && chunk.outside_boundary_duration + 1 >= 5
}

/// The watched chunk after a check: one check longer outside the boundary,
/// or back inside it.
pub open spec fn aged(boundary: Boundary, chunk: LinkedChunk) -> LinkedChunk {
    LinkedChunk {
        pos: chunk.pos,
        outside_boundary_duration: if outside_boundary(boundary, chunk.pos) {
            (chunk.outside_boundary_duration + 1) as u32
        } else {
            0
        },
    }
}

/// The chunks of `linked` that are let go at this check, in order.
pub open spec fn leaving(boundary: Boundary, linked: Seq<LinkedChunk>) -> Seq<IVec2> {
    linked.filter(|c: LinkedChunk| leaves(boundary, c)).map_values(|c: LinkedChunk| c.pos)
}

/// The chunks of `linked` that stay watched after this check, each as it is
/// after the check.
pub open spec fn staying(boundary: Boundary, linked: Seq<LinkedChunk>) -> Seq<LinkedChunk> {
    linked.filter(|c: LinkedChunk| !leaves(boundary, c)).map_values(
        |c: LinkedChunk| aged(boundary, c),
    )
}

/// The frames that tell the session `to` that the chunks at `gone` are
/// closed.
pub open spec fn remove_frames(to: SessionHandle, gone: Seq<IVec2>) -> Seq<(SessionHandle, Seq<u8>)> {
    gone.map_values(|p: IVec2| (to, chunk_remove_frame(p)))
}

/// The square of the distance of the chunk at `chunk` from the cursor at
/// `(cursor_x, cursor_y)`, in pixels.
pub open spec fn cursor_distance(cursor_x: i32, cursor_y: i32, chunk: IVec2) -> int {
    (cursor_x - 256 * chunk.x) * (cursor_x - 256 * chunk.x) + (cursor_y - 256 * chunk.y) * (cursor_y
        - 256 * chunk.y)
}

/// `at` is the place in `candidates` of the chunk that is streamed next:
/// none is closer to the cursor, and none as close stands before it.
pub open spec fn is_closest(candidates: Seq<IVec2>, cursor_x: i32, cursor_y: i32, at: int) -> bool {
    &&& 0 <= at < candidates.len()
    &&& forall|i: int|
        0 <= i < candidates.len() ==> cursor_distance(cursor_x, cursor_y, candidates[at])
            <= cursor_distance(cursor_x, cursor_y, #[trigger] candidates[i])
    &&& forall|i: int|
        0 <= i < at ==> cursor_distance(cursor_x, cursor_y, candidates[at]) < cursor_distance(
            cursor_x,
            cursor_y,
            #[trigger] candidates[i],
        )
}

/// The chunks of the boundary, row by row, up to but not including row `y`
/// and, in row `y`, column `x`.
pub open spec fn boundary_chunks(boundary: Boundary, y: int, x: int) -> Seq<IVec2>
    decreases y - boundary.start_y, x - boundary.start_x,
{
    if y < boundary.start_y || x < boundary.start_x || (y == boundary.start_y && x
        == boundary.start_x) || boundary.end_x <= boundary.start_x {
        Seq::empty()
    } else if x == boundary.start_x {
        boundary_chunks(boundary, y - 1, boundary.end_x as int)
    } else {
        boundary_chunks(boundary, y, x - 1).push(IVec2 { x: (x - 1) as i32, y: y as i32 })
    }
}

/// The chunks of the boundary that the session does not watch yet, row by
/// row.
pub open spec fn chunks_to_load(boundary: Boundary, linked: Seq<LinkedChunk>) -> Seq<IVec2> {
    boundary_chunks(boundary, boundary.end_y as int, boundary.start_x as int).filter(
        |p: IVec2| !linked_positions(linked).contains(p),
    )
}

impl SessionInstance {
    /// Lets the session watch the chunk at `chunk_pos` and tells the client
    /// that the chunk is open. A chunk that is watched already is passed
    /// over.
    pub fn link_chunk(&mut self, session_handle: &SessionHandle, chunk_pos: IVec2, outbox: &mut Vec<Delivery>)
        requires
            old(self).wf(),
        ensures
            final(self).wf(),
            linked_positions(final(self).linked_chunks@).contains(chunk_pos),
            linked_positions(old(self).linked_chunks@).contains(chunk_pos) ==> final(self).linked_chunks@ == old(self).linked_chunks@ && final(outbox)@ == old(outbox)@,
            !linked_positions(old(self).linked_chunks@).contains(chunk_pos) ==> final(self).linked_chunks@ == old(self).linked_chunks@.push(
                LinkedChunk { pos: chunk_pos, outside_boundary_duration: 0 },
            ) && delivered(final(outbox)@) == delivered(old(outbox)@).push(
                (*session_handle, chunk_create_frame(chunk_pos)),
            ),
            final(self).same_but_links(*old(self)),
    {
        if self.is_chunk_linked(chunk_pos) {
            return ;
        }
        let ghost before = self.linked_chunks@;
        self.linked_chunks.push(LinkedChunk { pos: chunk_pos, outside_boundary_duration: 0 });
        proof {
            let ps = linked_positions(self.linked_chunks@);
            let old_ps = linked_positions(before);
            assert(ps[ps.len() - 1] == chunk_pos);
            assert forall|a: int, b: int| 0 <= a < ps.len() && 0 <= b < ps.len() && a != b implies ps[a]
                != ps[b] by {
                if a < old_ps.len() {
                    assert(ps[a] == old_ps[a]);
                }
                if b < old_ps.len() {
                    assert(ps[b] == old_ps[b]);
                }
            }
            assert forall|i: int| 0 <= i < self.linked_chunks@.len() implies (
            #[trigger] self.linked_chunks@[i]).outside_boundary_duration < 5 by {
                if i < before.len() {
                    assert(self.linked_chunks@[i] == before[i]);
                }
            }
        }
        let packet = prepare_packet_chunk_create(chunk_pos);
        let ghost frame = packet@;
        let ghost had = delivered(outbox@);
        outbox.push(Delivery { to: *session_handle, packet });
        assert(delivered(outbox@) =~= had.push((*session_handle, frame)));
    }

    /// Everything but the watched chunks is as in `other`.
    pub open spec fn same_but_links(&self, other: SessionInstance) -> bool {
        &&& self.state == other.state
        &&& self.admin_mode == other.admin_mode
        &&& self.needs_boundary_test == other.needs_boundary_test
        &&& self.boundary == other.boundary
        &&& self.chunks_sent == other.chunks_sent
        &&& self.chunks_received == other.chunks_received
        &&& self.history == other.history
        &&& self.tool == other.tool
        &&& self.kicked == other.kicked
        &&& self.announced == other.announced
        &&& self.joined == other.joined
        &&& self.cleaned_up == other.cleaned_up
        &&& self.tool_state == other.tool_state
        &&& self.serial_generator == other.serial_generator
    }

    /// Stops the session from watching the chunk at `chunk_pos`: the chunk,
    /// where it is loaded, forgets the session and its overlays, the session
    /// forgets the chunk, and the client is told that the chunk is closed.
    pub fn unlink_chunk(
        &mut self,
        session_handle: &SessionHandle,
        chunk_pos: IVec2,
        system: &mut ChunkSystem,
        outbox: &mut Vec<Delivery>,
    )
        requires
            old(self).wf(),
            old(system).wf(),
        ensures
            final(self).wf(),
            final(system).wf(),
            final(self).linked_chunks@ == old(self).linked_chunks@.filter(
                |c: LinkedChunk| c.pos != chunk_pos,
            ),
            !linked_positions(final(self).linked_chunks@).contains(chunk_pos),
            delivered(final(outbox)@) == delivered(old(outbox)@).push(
                (*session_handle, chunk_remove_frame(chunk_pos)),
            ),
            final(self).same_but_links(*old(self)),
            chunk_unlinked(*old(system), *final(system), chunk_pos, *session_handle),
    {
        match system.get_chunk(chunk_pos) {
            Some(index) => {
                let ghost before = system.chunks@;
                system.chunks[index].unlink_session(
                    session_handle,
                    &mut system.signal_garbage_collect,
                );
                proof {
                    assert(chunk_positions(system.chunks@) =~= chunk_positions(before));
                    assert forall|j: int| 0 <= j < system.chunks@.len() implies (
                    #[trigger] system.chunks@[j]).wf() by {
                        if j != index {
                            assert(system.chunks@[j] == before[j]);
                        }
                    }
                }
            },
            None => {},
        }
        self.forget_chunk(chunk_pos);
        let packet = prepare_packet_chunk_remove(chunk_pos);
        let ghost frame = packet@;
        let ghost had = delivered(outbox@);
        outbox.push(Delivery { to: *session_handle, packet });
        assert(delivered(outbox@) =~= had.push((*session_handle, frame)));
    }

    /// Takes the chunk at `chunk_pos` off the list of watched chunks.
    fn forget_chunk(&mut self, chunk_pos: IVec2)
        requires
            old(self).wf(),
        ensures
            final(self).wf(),
            final(self).linked_chunks@ == old(self).linked_chunks@.filter(
                |c: LinkedChunk| c.pos != chunk_pos,
            ),
            !linked_positions(final(self).linked_chunks@).contains(chunk_pos),
            final(self).same_but_links(*old(self)),
    {
        let ghost original = self.linked_chunks@;
        let ghost keep = |c: LinkedChunk| c.pos != chunk_pos;
        let ghost mut done: int = 0;
        let mut i: usize = 0;
        proof {
            lemma_filter_none(original, keep);
            assert(original.skip(0) =~= original);
        }
        while i < self.linked_chunks.len()
            invariant
                0 <= done <= original.len(),
                i <= self.linked_chunks@.len(),
                i == original.take(done).filter(keep).len(),
                self.linked_chunks@ == original.take(done).filter(keep) + original.skip(done),
                keep == (|c: LinkedChunk| c.pos != chunk_pos),
                self.same_but_links(*old(self)),
            decreases original.len() - done,
        {
            proof {
                assert(self.linked_chunks@[i as int] == original.skip(done)[0]);
                lemma_filter_step(original, keep, done);
            }
            if self.linked_chunks[i].pos == chunk_pos {
                self.linked_chunks.remove(i);
                proof {
                    assert(self.linked_chunks@ =~= original.take(done + 1).filter(keep)
                        + original.skip(done + 1));
                    done = done + 1;
                }
            } else {
                proof {
                    assert(self.linked_chunks@ =~= original.take(done + 1).filter(keep)
                        + original.skip(done + 1));
                    done = done + 1;
                }
                i += 1;
            }
        }
        proof {
            assert(original.take(done) =~= original);
            assert(self.linked_chunks@ =~= original.filter(keep));
            lemma_filter_keeps(original, keep, |c: LinkedChunk| c.pos);
            let ps = linked_positions(self.linked_chunks@);
            assert forall|j: int| 0 <= j < ps.len() implies ps[j] != chunk_pos by {
                assert(keep(self.linked_chunks@[j]));
            }
            assert forall|j: int| 0 <= j < self.linked_chunks@.len() implies (
            #[trigger] self.linked_chunks@[j]).outside_boundary_duration < 5 by {
                assert(original.contains(self.linked_chunks@[j]));
                let w = choose|w: int| 0 <= w < original.len() && original[w] == self.linked_chunks@[j];
            }
        }
    }

    /// Checks every watched chunk against the boundary: a chunk outside it
    /// has lain there for one check more, a chunk inside it for none. A
    /// chunk that lies outside for the fifth check in a row is let go: the
    /// chunk forgets the session, and the client is told, once, that it is
    /// closed.
    pub fn tick_chunks_cleanup(&mut self, session_handle: &SessionHandle, system: &mut ChunkSystem, outbox: &mut Vec<Delivery>)
        requires
            old(self).wf(),
            old(system).wf(),
        ensures
            final(self).wf(),
            final(system).wf(),
            final(self).linked_chunks@ == staying(old(self).boundary, old(self).linked_chunks@),
            delivered(final(outbox)@) == delivered(old(outbox)@) + remove_frames(
                *session_handle,
                leaving(old(self).boundary, old(self).linked_chunks@),
            ),
            final(self).same_but_links(*old(self)),
            chunk_positions(final(system).chunks@) == chunk_positions(old(system).chunks@),
            forall|j: int|
                0 <= j < old(system).chunks@.len() ==> {
                    let was = old(system).chunks@[j];
                    let now = #[trigger] final(system).chunks@[j];
                    &&& now.pixels() == was.pixels()
                    &&& now.modified == was.modified
                    &&& if leaving(old(self).boundary, old(self).linked_chunks@).contains(
                        was.position,
                    ) {
                        !now.is_linked(*session_handle)
                    } else {
                        now == was
                    }
                },
    {
        let boundary = self.boundary;
        let ghost original = self.linked_chunks@;
        let ghost goes = |c: LinkedChunk| leaves(boundary, c);
        let ghost stays = |c: LinkedChunk| !leaves(boundary, c);
        let mut chunks_to_unload: Vec<IVec2> = Vec::new();
        let streams = boundary.zoom_bits > crate::limits::BOUNDARY_ZOOM_MIN_BITS
            && boundary.zoom_bits <= crate::limits::ZOOM_INFINITY_BITS;
        let mut i: usize = 0;
        proof {
            lemma_filter_none(original, goes);
            assert(chunks_to_unload@ =~= leaving(boundary, original.take(0)));
        }
        while i < self.linked_chunks.len()
            invariant
                i <= original.len(),
                self.linked_chunks@.len() == original.len(),
                boundary == old(self).boundary,
                streams == zoom_streams(boundary.zoom_bits),
                goes == (|c: LinkedChunk| leaves(boundary, c)),
                forall|j: int| i <= j < original.len() ==> #[trigger] self.linked_chunks@[j] == original[j],
                forall|j: int|
                    0 <= j < i ==> #[trigger] self.linked_chunks@[j] == aged(boundary, original[j]),
                forall|j: int|
                    0 <= j < original.len() ==> (#[trigger] original[j]).outside_boundary_duration < 5,
                chunks_to_unload@ == leaving(boundary, original.take(i as int)),
                self.same_but_links(*old(self)),
            decreases original.len() - i,
        {
            let pos = self.linked_chunks[i].pos;
            let outside = !streams || pos.y < boundary.start_y || pos.y > boundary.end_y || pos.x
                < boundary.start_x || pos.x > boundary.end_x;
            proof {
                lemma_filter_step(original, goes, i as int);
            }
            if outside {
                let duration = self.linked_chunks[i].outside_boundary_duration + 1;
                self.linked_chunks[i].outside_boundary_duration = duration;
                if duration >= 5 {
                    chunks_to_unload.push(pos);
                }
            } else {
                self.linked_chunks[i].outside_boundary_duration = 0;
            }
            proof {
                assert(chunks_to_unload@ =~= leaving(boundary, original.take(i as int + 1)));
            }
            i += 1;
        }
        proof {
            assert(original.take(original.len() as int) =~= original);
        }
        self.release_chunks(session_handle, &chunks_to_unload, system, outbox, Ghost(original));
    }

    /// Lets go of the chunks at `gone`, which are those of the watched
    /// chunks `original` that leave at this check.
    fn release_chunks(
        &mut self,
        session_handle: &SessionHandle,
        gone: &Vec<IVec2>,
        system: &mut ChunkSystem,
        outbox: &mut Vec<Delivery>,
        Ghost(original): Ghost<Seq<LinkedChunk>>,
    )
        requires
            old(system).wf(),
            old(self).chunks_received <= old(self).chunks_sent,
            old(self).chunks_sent - old(self).chunks_received <= 20,
            old(self).history.wf(),
            0 <= old(self).boundary.end_x - old(self).boundary.start_x <= 20,
            0 <= old(self).boundary.end_y - old(self).boundary.start_y <= 20,
            old(self).tool_state matches crate::tool::state::ToolState::Line(line) ==> line.wf(),
            linked_positions(original).no_duplicates(),
            forall|j: int| 0 <= j < original.len() ==> (#[trigger] original[j]).outside_boundary_duration < 5,
            old(self).linked_chunks@.len() == original.len(),
            forall|j: int|
                0 <= j < original.len() ==> #[trigger] old(self).linked_chunks@[j] == aged(
                    old(self).boundary,
                    original[j],
                ),
            gone@ == leaving(old(self).boundary, original),
        ensures
            final(self).wf(),
            final(system).wf(),
            final(self).linked_chunks@ == staying(old(self).boundary, original),
            delivered(final(outbox)@) == delivered(old(outbox)@) + remove_frames(
                *session_handle,
                gone@,
            ),
            final(self).same_but_links(*old(self)),
            chunk_positions(final(system).chunks@) == chunk_positions(old(system).chunks@),
            forall|j: int|
                0 <= j < old(system).chunks@.len() ==> {
                    let was = old(system).chunks@[j];
                    let now = #[trigger] final(system).chunks@[j];
                    &&& now.pixels() == was.pixels()
                    &&& now.modified == was.modified
                    &&& if gone@.contains(was.position) {
                        !now.is_linked(*session_handle)
                    } else {
                        now == was
                    }
                },
    {
        let boundary = self.boundary;
        let ghost aged_all = self.linked_chunks@;
        let ghost stays = |c: LinkedChunk| !leaves(boundary, c);
        let ghost goes = |c: LinkedChunk| leaves(boundary, c);
        let ghost chunks_before = system.chunks@;
        let ghost sent = delivered(outbox@);
        // The list is rebuilt from the chunks that stay.
        let mut kept: Vec<LinkedChunk> = Vec::new();
        let mut i: usize = 0;
        proof {
            lemma_filter_none(original, stays);
            assert(kept@ =~= staying(boundary, original.take(0)));
        }
        while i < self.linked_chunks.len()
            invariant
                i <= original.len(),
                self.linked_chunks@ == aged_all,
                aged_all.len() == original.len(),
                boundary == old(self).boundary,
                stays == (|c: LinkedChunk| !leaves(boundary, c)),
                forall|j: int|
                    0 <= j < original.len() ==> #[trigger] aged_all[j] == aged(boundary, original[j]),
                forall|j: int| 0 <= j < original.len() ==> (#[trigger] original[j]).outside_boundary_duration < 5,
                kept@ == staying(boundary, original.take(i as int)),
            decreases original.len() - i,
        {
            let chunk = self.linked_chunks[i];
            proof {
                lemma_filter_step(original, stays, i as int);
                assert(chunk == aged(boundary, original[i as int]));
            }
            if chunk.outside_boundary_duration < 5 {
                kept.push(chunk);
            }
            proof {
                assert(kept@ =~= staying(boundary, original.take(i as int + 1)));
            }
            i += 1;
        }
        proof {
            assert(original.take(original.len() as int) =~= original);
            lemma_staying_wf(boundary, original);
        }
        self.linked_chunks = kept;

        proof {
            lemma_leaving_distinct(boundary, original);
        }
        Self::close_chunks(session_handle, gone, system, outbox);
    }

    /// Lets the chunks at `gone` forget the session, and tells the client
    /// of each that it is closed.
    pub fn close_chunks(
        session_handle: &SessionHandle,
        gone: &Vec<IVec2>,
        system: &mut ChunkSystem,
        outbox: &mut Vec<Delivery>,
    )
        requires
            old(system).wf(),
            gone@.no_duplicates(),
        ensures
            final(system).wf(),
            chunks_closed(*old(system), *final(system), gone@, *session_handle),
            delivered(final(outbox)@) == delivered(old(outbox)@) + remove_frames(
                *session_handle,
                gone@,
            ),
    {
        let ghost chunks_before = system.chunks@;
        let ghost sent = delivered(outbox@);
        let mut k: usize = 0;
        proof {
            assert(sent + remove_frames(*session_handle, gone@.take(0)) =~= sent);
        }
        while k < gone.len()
            invariant
                k <= gone@.len(),
                system.wf(),
                gone@.no_duplicates(),
                system.cleaned_up == old(system).cleaned_up,
                system.autosave_interval_ms == old(system).autosave_interval_ms,
                system.last_autosave_timestamp == old(system).last_autosave_timestamp,
                chunks_before == old(system).chunks@,
                chunk_positions(system.chunks@) == chunk_positions(chunks_before),
                system.chunks@.len() == chunks_before.len(),
                forall|j: int|
                    0 <= j < chunks_before.len() ==> {
                        let was = chunks_before[j];
                        let now = #[trigger] system.chunks@[j];
                        &&& now.pixels() == was.pixels()
                        &&& now.modified == was.modified
                        &&& if gone@.take(k as int).contains(was.position) {
                            !now.is_linked(*session_handle)
                        } else {
                            now == was
                        }
                    },
                delivered(outbox@) == sent + remove_frames(*session_handle, gone@.take(k as int)),
            decreases gone@.len() - k,
        {
            let pos = gone[k];
            let ghost then = system.chunks@;
            let ghost done = gone@.take(k as int);
            match system.get_chunk(pos) {
                Some(index) => {
                    system.chunks[index].unlink_session(
                        session_handle,
                        &mut system.signal_garbage_collect,
                    );
                    proof {
                        assert(chunk_positions(system.chunks@) =~= chunk_positions(then));
                        assert forall|j: int| 0 <= j < system.chunks@.len() implies (
                        #[trigger] system.chunks@[j]).wf() by {
                            if j != index {
                                assert(system.chunks@[j] == then[j]);
                            }
                        }
                    }
                },
                None => {},
            }
            let packet = prepare_packet_chunk_remove(pos);
            let ghost frame = packet@;
            let ghost had = delivered(outbox@);
            outbox.push(Delivery { to: *session_handle, packet });
            proof {
                assert(delivered(outbox@) =~= had.push((*session_handle, frame)));
                assert(remove_frames(*session_handle, gone@.take(k as int + 1)) =~= remove_frames(
                    *session_handle,
                    done,
                ).push((*session_handle, frame)));
                let more = gone@.take(k as int + 1);
                assert(more[k as int] == pos);
                assert forall|j: int| 0 <= j < chunks_before.len() implies ({
                    let was = chunks_before[j];
                    let now = #[trigger] system.chunks@[j];
                    &&& now.pixels() == was.pixels()
                    &&& now.modified == was.modified
                    &&& if more.contains(was.position) {
                        !now.is_linked(*session_handle)
                    } else {
                        now == was
                    }
                }) by {
                    let was = chunks_before[j];
                    assert(chunk_positions(chunks_before)[j] == was.position);
                    assert(chunk_positions(then)[j] == then[j].position);
                    if was.position == pos {
                        let found = system.index_of(pos);
                    } else {
                        assert(system.chunks@[j] == then[j]) by {
                            if system.is_loaded(pos) {
                                let index = chunk_positions(then).index_of(pos);
                                assert(chunk_positions(then)[index] == pos);
                            }
                        }
                        if more.contains(was.position) {
                            let w = choose|w: int| 0 <= w < more.len() && more[w] == was.position;
                            assert(done[w] == was.position);
                        }
                        if done.contains(was.position) {
                            let w = choose|w: int| 0 <= w < done.len() && done[w] == was.position;
                            assert(more[w] == was.position);
                        }
                    }
                }
            }
            k += 1;
        }
        proof {
            assert(gone@.take(gone@.len() as int) =~= gone@);
        }
    }
}

/// What letting go of the chunks at `gone` does to the loaded chunks: each
/// of them forgets the session, and every other chunk stays as it is.
pub open spec fn chunks_closed(before: ChunkSystem, after: ChunkSystem, gone: Seq<IVec2>, handle: SessionHandle) -> bool {
    &&& chunk_positions(after.chunks@) == chunk_positions(before.chunks@)
    &&& after.chunks@.len() == before.chunks@.len()
    &&& after.cleaned_up == before.cleaned_up
    &&& after.autosave_interval_ms == before.autosave_interval_ms
    &&& after.last_autosave_timestamp == before.last_autosave_timestamp
    &&& forall|j: int|
        0 <= j < before.chunks@.len() ==> {
            let was = before.chunks@[j];
            let now = #[trigger] after.chunks@[j];
            &&& now.pixels() == was.pixels()
            &&& now.modified == was.modified
            &&& if gone.contains(was.position) {
                !now.is_linked(handle)
            } else {
                now == was
            }
        }
}

/// What the end of the session `session` does to its room and what is
/// sent: every chunk that it watched forgets it, the client is told of each
/// that it is closed, the room lists the session no longer, and the other
/// sessions of the room are told that it is gone.
pub open spec fn session_left(
    session: SessionInstance,
    room_before: RoomInstance,
    room_after: RoomInstance,
    sent_before: Seq<(SessionHandle, Seq<u8>)>,
    sent_after: Seq<(SessionHandle, Seq<u8>)>,
    handle: SessionHandle,
) -> bool {
    &&& room_after.wf()
    &&& chunks_closed(
        room_before.chunk_system,
        room_after.chunk_system,
        linked_positions(session.linked_chunks@),
        handle,
    )
    &&& room_after.sessions@ == others_than(room_before.sessions@, Some(handle))
    &&& room_after.preview_system == room_before.preview_system
    &&& room_after.brush_shapes == room_before.brush_shapes
    &&& room_after.cleaned_up == room_before.cleaned_up
    &&& sent_after == sent_before + remove_frames(handle, linked_positions(session.linked_chunks@))
        + broadcast_frames(room_after.sessions@, user_remove_frame(handle.idx), Some(handle))
}

/// What letting go of the chunk at `chunk_pos` does to the loaded chunks:
/// the chunk at that position forgets the session and its overlays, and a
/// collection is asked for where nobody watches it any more; every other
/// chunk stays as it is.
pub open spec fn chunk_unlinked(before: ChunkSystem, after: ChunkSystem, chunk_pos: IVec2, handle: SessionHandle) -> bool {
    &&& chunk_positions(after.chunks@) == chunk_positions(before.chunks@)
    &&& after.cleaned_up == before.cleaned_up
    &&& after.autosave_interval_ms == before.autosave_interval_ms
    &&& after.last_autosave_timestamp == before.last_autosave_timestamp
    &&& forall|j: int|
        0 <= j < before.chunks@.len() && before.chunks@[j].position != chunk_pos
            ==> #[trigger] after.chunks@[j] == before.chunks@[j]
    &&& !before.is_loaded(chunk_pos) ==> after.signal_garbage_collect
        == before.signal_garbage_collect
    &&& before.is_loaded(chunk_pos) ==> {
        let was = before.chunks@[before.index_of(chunk_pos)];
        let now = after.chunks@[before.index_of(chunk_pos)];
        &&& !now.is_linked(handle)
        &&& now.pixels() == was.pixels()
        &&& now.modified == was.modified
        &&& now.compositor.layers@ == was.compositor.layers@.filter(
            |entry: LayerEntry| entry.id.owner() != handle,
        )
        &&& after.signal_garbage_collect.triggered == (before.signal_garbage_collect.triggered
            || now.linked_sessions@.len() == 0)
    }
}

/// The chunks that stay after a check are in order: none twice, none
/// outside the boundary for five checks.
pub proof fn lemma_staying_wf(boundary: Boundary, original: Seq<LinkedChunk>)
    requires
        linked_positions(original).no_duplicates(),
        forall|j: int| 0 <= j < original.len() ==> (#[trigger] original[j]).outside_boundary_duration < 5,
    ensures
        linked_positions(staying(boundary, original)).no_duplicates(),
        forall|j: int|
            0 <= j < staying(boundary, original).len() ==> (#[trigger] staying(
                boundary,
                original,
            )[j]).outside_boundary_duration < 5,
{
    let stays = |c: LinkedChunk| !leaves(boundary, c);
    lemma_filter_keeps(original, stays, |c: LinkedChunk| c.pos);
    let kept = original.filter(stays);
    assert(linked_positions(staying(boundary, original)) =~= kept.map_values(|c: LinkedChunk| c.pos));
    assert forall|j: int| 0 <= j < staying(boundary, original).len() implies (#[trigger] staying(
        boundary,
        original,
    )[j]).outside_boundary_duration < 5 by {
        assert(stays(kept[j]));
        assert(original.contains(kept[j]));
        let w = choose|w: int| 0 <= w < original.len() && original[w] == kept[j];
    }
}

/// No chunk is let go twice at one check.
pub proof fn lemma_leaving_distinct(boundary: Boundary, original: Seq<LinkedChunk>)
    requires
        linked_positions(original).no_duplicates(),
    ensures
        leaving(boundary, original).no_duplicates(),
{
    let goes = |c: LinkedChunk| leaves(boundary, c);
    lemma_filter_keeps(original, goes, |c: LinkedChunk| c.pos);
}

/// The place in `candidates` of the chunk that is streamed next.
pub open spec fn closest_at(candidates: Seq<IVec2>, cursor_x: i32, cursor_y: i32) -> int {
    choose|at: int| is_closest(candidates, cursor_x, cursor_y, at)
}

/// The chunks that are streamed, in order, where `candidates` wait and
/// `budget` chunk images may be sent: each time the candidate closest to
/// the cursor.
pub open spec fn stream_plan(candidates: Seq<IVec2>, cursor_x: i32, cursor_y: i32, budget: nat) -> Seq<
    IVec2,
>
    decreases budget,
{
    if budget == 0 || candidates.len() == 0 {
        Seq::empty()
    } else {
        let at = closest_at(candidates, cursor_x, cursor_y);
        seq![candidates[at]] + stream_plan(
            candidates.remove(at),
            cursor_x,
            cursor_y,
            (budget - 1) as nat,
        )
    }
}

/// How many chunk images may be sent to a session now: as many as keep the
/// images on their way at 20 or below.
pub open spec fn stream_budget(session: SessionInstance) -> nat {
    let room = 20 - (session.chunks_sent - session.chunks_received);
    let left = 0xFFFF_FFFF - session.chunks_sent;
    if room <= left {
        room as nat
    } else {
        left as nat
    }
}

/// The chunks at `streamed`, as watched chunks that lie inside the
/// boundary.
pub open spec fn as_linked(streamed: Seq<IVec2>) -> Seq<LinkedChunk> {
    streamed.map_values(|p: IVec2| LinkedChunk { pos: p, outside_boundary_duration: 0 })
}

/// The frames that stream the chunks at `streamed` to the session `to`: for
/// each, that the chunk is open, and then its image as the session sees it.
pub open spec fn stream_frames(to: SessionHandle, chunks: Seq<ChunkInstance>, streamed: Seq<IVec2>) -> Seq<
    (SessionHandle, Seq<u8>),
>
    decreases streamed.len(),
{
    if streamed.len() == 0 {
        Seq::empty()
    } else {
        stream_frames(to, chunks, streamed.drop_last()).push(
            (to, chunk_create_frame(streamed.last())),
        ).push(
            (
                to,
                chunk_image_frame(
                    streamed.last(),
                    chunks[chunk_positions(chunks).index_of(streamed.last())].blob_for(to),
                ),
            ),
        )
    }
}

/// Only one place of a list is the place of the closest chunk.
pub proof fn lemma_closest_unique(candidates: Seq<IVec2>, cursor_x: i32, cursor_y: i32, a: int, b: int)
    requires
        is_closest(candidates, cursor_x, cursor_y, a),
        is_closest(candidates, cursor_x, cursor_y, b),
    ensures
        a == b,
{
    if a < b {
        assert(cursor_distance(cursor_x, cursor_y, candidates[b]) < cursor_distance(
            cursor_x,
            cursor_y,
            candidates[a],
        ));
    } else if b < a {
        assert(cursor_distance(cursor_x, cursor_y, candidates[a]) < cursor_distance(
            cursor_x,
            cursor_y,
            candidates[b],
        ));
    }
}

impl SessionInstance {
    /// The chunks of the boundary that the session does not watch yet, row
    /// by row.
    pub fn collect_chunks_to_load(&self) -> (todo: Vec<IVec2>)
        requires
            self.wf(),
        ensures
            todo@ == chunks_to_load(self.boundary, self.linked_chunks@),
    {
        let boundary = self.boundary;
        let ghost fresh = |p: IVec2| !linked_positions(self.linked_chunks@).contains(p);
        let mut todo: Vec<IVec2> = Vec::new();
        if boundary.end_x <= boundary.start_x {
            proof {
                reveal(Seq::filter);
                assert(boundary_chunks(boundary, boundary.end_y as int, boundary.start_x as int)
                    =~= Seq::<IVec2>::empty());
            }
            return todo;
        }
        let mut y: i32 = boundary.start_y;
        proof {
            reveal(Seq::filter);
            assert(boundary_chunks(boundary, y as int, boundary.start_x as int) =~= Seq::<
                IVec2,
            >::empty());
        }
        while y < boundary.end_y
            invariant
                boundary == self.boundary,
                boundary.start_x < boundary.end_x,
                0 <= boundary.end_x - boundary.start_x <= 20,
                boundary.start_y <= y <= boundary.end_y,
                fresh == (|p: IVec2| !linked_positions(self.linked_chunks@).contains(p)),
                todo@ == boundary_chunks(boundary, y as int, boundary.start_x as int).filter(fresh),
            decreases boundary.end_y - y,
        {
            let mut x: i32 = boundary.start_x;
            while x < boundary.end_x
                invariant
                    boundary == self.boundary,
                    boundary.start_x <= x <= boundary.end_x,
                    boundary.start_x < boundary.end_x,
                    boundary.start_y <= y < boundary.end_y,
                    fresh == (|p: IVec2| !linked_positions(self.linked_chunks@).contains(p)),
                    todo@ == boundary_chunks(boundary, y as int, x as int).filter(fresh),
                decreases boundary.end_x - x,
            {
                let pos = IVec2 { x, y };
                proof {
                    reveal(Seq::filter);
                    let before = boundary_chunks(boundary, y as int, x as int);
                    let after = boundary_chunks(boundary, y as int, x as int + 1);
                    assert(after == before.push(pos));
                    assert(after.drop_last() =~= before);
                }
                if !self.is_chunk_linked(pos) {
                    todo.push(pos);
                }
                x += 1;
            }
            proof {
                assert(boundary_chunks(boundary, y as int + 1, boundary.start_x as int)
                    == boundary_chunks(boundary, y as int, boundary.end_x as int));
            }
            y += 1;
        }
        todo
    }

    /// The place in `candidates` of the chunk that lies closest to the
    /// cursor; of two as close, the one that stands first.
    pub fn closest_index(candidates: &Vec<IVec2>, cursor_x: i32, cursor_y: i32) -> (at: usize)
        requires
            candidates@.len() > 0,
        ensures
            is_closest(candidates@, cursor_x, cursor_y, at as int),
            at == closest_at(candidates@, cursor_x, cursor_y),
    {
        let mut best: usize = 0;
        let mut best_distance = Self::distance_to(cursor_x, cursor_y, candidates[0]);
        let mut i: usize = 1;
        while i < candidates.len()
            invariant
                1 <= i <= candidates@.len(),
                best < i,
                best_distance == cursor_distance(cursor_x, cursor_y, candidates@[best as int]),
                forall|j: int|
                    0 <= j < i ==> best_distance <= cursor_distance(
                        cursor_x,
                        cursor_y,
                        #[trigger] candidates@[j],
                    ),
                forall|j: int|
                    0 <= j < best ==> best_distance < cursor_distance(
                        cursor_x,
                        cursor_y,
                        #[trigger] candidates@[j],
                    ),
            decreases candidates@.len() - i,
        {
            let distance = Self::distance_to(cursor_x, cursor_y, candidates[i]);
            if distance < best_distance {
                best = i;
                best_distance = distance;
            }
            i += 1;
        }
        proof {
            let chosen = closest_at(candidates@, cursor_x, cursor_y);
            assert(is_closest(candidates@, cursor_x, cursor_y, best as int));
            lemma_closest_unique(candidates@, cursor_x, cursor_y, best as int, chosen);
        }
        best
    }

    /// The square of the distance of a chunk from the cursor, in pixels.
    fn distance_to(cursor_x: i32, cursor_y: i32, chunk: IVec2) -> (distance: i128)
        ensures
            distance == cursor_distance(cursor_x, cursor_y, chunk),
    {
        let dx: i128 = cursor_x as i128 - 256 * chunk.x as i128;
        let dy: i128 = cursor_y as i128 - 256 * chunk.y as i128;
        assert(0 <= dx * dx <= 0x1_0000_0000_0000_0000_0000_0000 && 0 <= dy * dy
            <= 0x1_0000_0000_0000_0000_0000_0000) by (nonlinear_arith)
            requires
                -0x1000_0000_0000 <= dx <= 0x1000_0000_0000,
                -0x1000_0000_0000 <= dy <= 0x1000_0000_0000,
        ;
        dx * dx + dy * dy
    }

    /// Streams the loaded chunk at place `index` to the session: the chunk
    /// and the session take note of each other, and the client is told that
    /// the chunk is open and is sent its image.
    pub fn stream_chunk(
        &mut self,
        session_handle: &SessionHandle,
        system: &mut ChunkSystem,
        index: usize,
        outbox: &mut Vec<Delivery>,
    )
        requires
            old(self).wf(),
            old(system).wf(),
            index < old(system).chunks@.len(),
            !linked_positions(old(self).linked_chunks@).contains(
                old(system).chunks@[index as int].position,
            ),
            stream_budget(*old(self)) > 0,
        ensures
            final(self).wf(),
            final(system).wf(),
            final(self).chunks_sent == old(self).chunks_sent + 1,
            final(self).chunks_received == old(self).chunks_received,
            stream_budget(*final(self)) == stream_budget(*old(self)) - 1,
            final(self).linked_chunks@ == old(self).linked_chunks@.push(
                LinkedChunk {
                    pos: old(system).chunks@[index as int].position,
                    outside_boundary_duration: 0,
                },
            ),
            final(self).same_but_streaming(*old(self)),
            chunk_positions(final(system).chunks@) == chunk_positions(old(system).chunks@),
            final(system).chunks@.len() == old(system).chunks@.len(),
            final(system).cleaned_up == old(system).cleaned_up,
            final(system).autosave_interval_ms == old(system).autosave_interval_ms,
            final(system).last_autosave_timestamp == old(system).last_autosave_timestamp,
            final(system).signal_garbage_collect == old(system).signal_garbage_collect,
            forall|j: int|
                0 <= j < old(system).chunks@.len() && j != index ==> #[trigger] final(system).chunks@[j] == old(system).chunks@[j],
            final(system).chunks@[index as int].is_linked(*session_handle),
            final(system).chunks@[index as int].pixels() == old(system).chunks@[index as int].pixels(),
            final(system).chunks@[index as int].modified == old(system).chunks@[index as int].modified,
            final(system).chunks@[index as int].compositor == old(system).chunks@[index as int].compositor,
            delivered(final(outbox)@) == delivered(old(outbox)@).push(
                (*session_handle, chunk_create_frame(old(system).chunks@[index as int].position)),
            ).push(
                (
                    *session_handle,
                    chunk_image_frame(
                        old(system).chunks@[index as int].position,
                        old(system).chunks@[index as int].blob_for(*session_handle),
                    ),
                ),
            ),
    {
        let ghost before = system.chunks@;
        let pos = system.chunks[index].position;
        self.chunks_sent += 1;
        system.chunks[index].link_session(session_handle);
        self.link_chunk(session_handle, pos, outbox);
        system.chunks[index].send_chunk_data_to_session(session_handle, outbox);
        proof {
            assert(chunk_positions(system.chunks@) =~= chunk_positions(before));
            assert forall|j: int| 0 <= j < system.chunks@.len() implies (#[trigger] system.chunks@[j]).wf() by {
                if j != index {
                    assert(system.chunks@[j] == before[j]);
                }
            }
        }
    }

    /// Everything but the watched chunks and the count of chunks sent is as
    /// in `other`.
    pub open spec fn same_but_streaming(&self, other: SessionInstance) -> bool {
        &&& self.state == other.state
        &&& self.admin_mode == other.admin_mode
        &&& self.needs_boundary_test == other.needs_boundary_test
        &&& self.boundary == other.boundary
        &&& self.chunks_received == other.chunks_received
        &&& self.history == other.history
        &&& self.tool == other.tool
        &&& self.kicked == other.kicked
        &&& self.announced == other.announced
        &&& self.joined == other.joined
        &&& self.cleaned_up == other.cleaned_up
        &&& self.tool_state == other.tool_state
        &&& self.serial_generator == other.serial_generator
    }

    /// Streams chunks to the client: of the chunks of its boundary that it
    /// does not watch yet, the one closest to its cursor first, and so on
    /// for as long as fewer than 20 chunk images are on their way to it.
    /// Nothing is streamed before the client has said what it looks at, or
    /// where it has zoomed too far out.
    ///
    /// Where the chunk that is due is not loaded, streaming stops and the
    /// chunk is named, to be loaded; the next call goes on from there.
    #[verifier::rlimit(60)]
    pub fn tick_boundary_check(&mut self, session_handle: &SessionHandle, system: &mut ChunkSystem, outbox: &mut Vec<Delivery>) -> (needed:
        Option<IVec2>)
        requires
            old(self).wf(),
            old(system).wf(),
        ensures
            final(self).wf(),
            final(system).wf(),
            final(self).same_but_streaming(*old(self)),
            chunk_positions(final(system).chunks@) == chunk_positions(old(system).chunks@),
            !old(self).needs_boundary_test || !zoom_streams(old(self).boundary.zoom_bits) ==> {
                &&& needed is None
                &&& *final(self) == *old(self)
                &&& *final(system) == *old(system)
                &&& final(outbox)@ == old(outbox)@
            },
            old(self).needs_boundary_test && zoom_streams(old(self).boundary.zoom_bits) ==> {
                let plan = stream_plan(
                    chunks_to_load(old(self).boundary, old(self).linked_chunks@),
                    old(self).state.cursor.pos.x,
                    old(self).state.cursor.pos.y,
                    stream_budget(*old(self)),
                );
                let sent = final(self).chunks_sent - old(self).chunks_sent;
                &&& 0 <= sent <= plan.len()
                &&& sent <= stream_budget(*old(self))
                &&& final(self).linked_chunks@ == old(self).linked_chunks@ + as_linked(plan.take(sent))
                &&& needed is None <==> sent == plan.len()
                &&& needed matches Some(p) ==> p == plan[sent] && !old(system).is_loaded(p)
                &&& delivered(final(outbox)@) == delivered(old(outbox)@) + stream_frames(
                    *session_handle,
                    old(system).chunks@,
                    plan.take(sent),
                )
                &&& forall|j: int|
                    0 <= j < old(system).chunks@.len() ==> {
                        let was = old(system).chunks@[j];
                        let now = #[trigger] final(system).chunks@[j];
                        &&& now.pixels() == was.pixels()
                        &&& now.modified == was.modified
                        &&& now.compositor == was.compositor
                        &&& if plan.take(sent).contains(was.position) {
                            now.is_linked(*session_handle)
                        } else {
                            now == was
                        }
                    }
            },
    {
        if !self.needs_boundary_test {
            return None;
        }
        if !(self.boundary.zoom_bits > crate::limits::BOUNDARY_ZOOM_MIN_BITS
            && self.boundary.zoom_bits <= crate::limits::ZOOM_INFINITY_BITS) {
            return None;
        }
        let mut chunks_to_load = self.collect_chunks_to_load();
        let cursor_x = self.state.cursor.pos.x;
        let cursor_y = self.state.cursor.pos.y;
        let ghost todo0 = chunks_to_load@;
        let ghost budget0 = stream_budget(*self);
        let ghost plan = stream_plan(todo0, cursor_x, cursor_y, budget0);
        let ghost original = system.chunks@;
        let ghost linked0 = self.linked_chunks@;
        let ghost sent0 = delivered(outbox@);
        let ghost mut streamed: Seq<IVec2> = Seq::empty();
        proof {
            assert(streamed + stream_plan(todo0, cursor_x, cursor_y, budget0) =~= plan);
            assert(linked0 + as_linked(streamed) =~= linked0);
            assert(sent0 + stream_frames(*session_handle, original, streamed) =~= sent0);
            lemma_todo_fresh(self.boundary, linked0);
        }
        loop
            invariant
                self.wf(),
                system.wf(),
                self.same_but_streaming(*old(self)),
                old(self).needs_boundary_test,
                zoom_streams(old(self).boundary.zoom_bits),
                cursor_x == old(self).state.cursor.pos.x,
                cursor_y == old(self).state.cursor.pos.y,
                plan == stream_plan(todo0, cursor_x, cursor_y, budget0),
                todo0 == self::chunks_to_load(old(self).boundary, old(self).linked_chunks@),
                budget0 == stream_budget(*old(self)),
                original == old(system).chunks@,
                linked0 == old(self).linked_chunks@,
                sent0 == delivered(old(outbox)@),
                chunk_positions(system.chunks@) == chunk_positions(original),
                system.chunks@.len() == original.len(),
                system.cleaned_up == old(system).cleaned_up,
                system.autosave_interval_ms == old(system).autosave_interval_ms,
                system.last_autosave_timestamp == old(system).last_autosave_timestamp,
                system.signal_garbage_collect == old(system).signal_garbage_collect,
                streamed + stream_plan(chunks_to_load@, cursor_x, cursor_y, stream_budget(*self))
                    == plan,
                streamed.len() + stream_budget(*self) == budget0,
                self.chunks_sent == old(self).chunks_sent + streamed.len(),
                self.linked_chunks@ == linked0 + as_linked(streamed),
                chunks_to_load@.no_duplicates(),
                forall|i: int|
                    0 <= i < chunks_to_load@.len() ==> !linked_positions(self.linked_chunks@).contains(
                        #[trigger] chunks_to_load@[i],
                    ),
                forall|i: int|
                    0 <= i < chunks_to_load@.len() ==> !streamed.contains(#[trigger] chunks_to_load@[i]),
                delivered(outbox@) == sent0 + stream_frames(*session_handle, original, streamed),
                forall|j: int|
                    0 <= j < original.len() ==> {
                        let was = original[j];
                        let now = #[trigger] system.chunks@[j];
                        &&& now.pixels() == was.pixels()
                        &&& now.modified == was.modified
                        &&& now.compositor == was.compositor
                        &&& if streamed.contains(was.position) {
                            now.is_linked(*session_handle)
                        } else {
                            now == was
                        }
                    },
            decreases stream_budget(*self),
        {
            let budget_left = self.chunks_sent - self.chunks_received < 20 && self.chunks_sent
                < 0xFFFF_FFFF;
            if !budget_left || chunks_to_load.len() == 0 {
                proof {
                    assert(stream_plan(
                        chunks_to_load@,
                        cursor_x,
                        cursor_y,
                        stream_budget(*self),
                    ).len() == 0);
                    assert(streamed =~= plan);
                    assert(plan.take(streamed.len() as int) =~= streamed);
                }
                return None;
            }
            let at = Self::closest_index(&chunks_to_load, cursor_x, cursor_y);
            let closest_position = chunks_to_load[at];
            let ghost todo_then = chunks_to_load@;
            proof {
                let rest = stream_plan(
                    todo_then.remove(at as int),
                    cursor_x,
                    cursor_y,
                    (stream_budget(*self) - 1) as nat,
                );
                assert(plan =~= streamed.push(closest_position) + rest);
                assert(plan[streamed.len() as int] == closest_position);
                assert(plan.take(streamed.len() as int) =~= streamed);
            }
            let index = match system.get_chunk(closest_position) {
                Some(i) => i,
                None => {
                    proof {
                        assert(!old(system).is_loaded(closest_position));
                    }
                    return Some(closest_position);
                },
            };
            chunks_to_load.remove(at);
            let ghost chunks_then = system.chunks@;
            let ghost linked_then = self.linked_chunks@;
            let ghost frames_then = delivered(outbox@);
            proof {
                assert(system.chunks@[index as int] == original[index as int]) by {
                    assert(chunk_positions(original)[index as int] == closest_position);
                    assert(!streamed.contains(todo_then[at as int]));
                }
            }
            self.stream_chunk(session_handle, system, index, outbox);
            proof {
                let more = streamed.push(closest_position);
                assert(more.drop_last() =~= streamed);
                assert(as_linked(more) =~= as_linked(streamed).push(
                    LinkedChunk { pos: closest_position, outside_boundary_duration: 0 },
                ));
                assert(self.linked_chunks@ =~= linked0 + as_linked(more));
                assert(chunk_positions(original).index_of(closest_position) == index) by {
                    let j = chunk_positions(original).index_of(closest_position);
                    assert(chunk_positions(original)[index as int] == closest_position);
                    assert(chunk_positions(original)[j] == closest_position);
                }
                assert(delivered(outbox@) =~= sent0 + stream_frames(
                    *session_handle,
                    original,
                    more,
                ));
                assert(chunks_to_load@ =~= todo_then.remove(at as int));
                assert forall|i: int| 0 <= i < chunks_to_load@.len() implies !linked_positions(
                    self.linked_chunks@,
                ).contains(#[trigger] chunks_to_load@[i]) && !more.contains(chunks_to_load@[i]) by {
                    let src = if i < at { i } else { i + 1 };
                    assert(chunks_to_load@[i] == todo_then[src]);
                    assert(todo_then[src] != closest_position);
                    let p = chunks_to_load@[i];
                    if linked_positions(self.linked_chunks@).contains(p) {
                        let w = choose|w: int|
                            0 <= w < linked_positions(self.linked_chunks@).len()
                                && linked_positions(self.linked_chunks@)[w] == p;
                        if w < linked_then.len() {
                            assert(linked_positions(linked_then)[w] == p);
                        }
                    }
                    if more.contains(p) {
                        let w = choose|w: int| 0 <= w < more.len() && more[w] == p;
                        if w < streamed.len() {
                            assert(streamed[w] == p);
                        }
                    }
                }
                assert forall|a: int, b: int|
                    0 <= a < chunks_to_load@.len() && 0 <= b < chunks_to_load@.len() && a != b implies chunks_to_load@[a]
                    != chunks_to_load@[b] by {
                    let sa = if a < at { a } else { a + 1 };
                    let sb = if b < at { b } else { b + 1 };
                    assert(chunks_to_load@[a] == todo_then[sa]);
                    assert(chunks_to_load@[b] == todo_then[sb]);
                }
                assert forall|j: int| 0 <= j < original.len() implies ({
                    let was = original[j];
                    let now = #[trigger] system.chunks@[j];
                    &&& now.pixels() == was.pixels()
                    &&& now.modified == was.modified
                    &&& now.compositor == was.compositor
                    &&& if more.contains(was.position) {
                        now.is_linked(*session_handle)
                    } else {
                        now == was
                    }
                }) by {
                    let was = original[j];
                    assert(chunk_positions(original)[j] == was.position);
                    if j == index {
                        assert(more[streamed.len() as int] == was.position);
                    } else {
                        assert(system.chunks@[j] == chunks_then[j]);
                        assert(was.position != closest_position) by {
                            assert(chunk_positions(original)[index as int] == closest_position);
                        }
                        if more.contains(was.position) {
                            let w = choose|w: int| 0 <= w < more.len() && more[w] == was.position;
                            assert(streamed[w] == was.position);
                        }
                        if streamed.contains(was.position) {
                            let w = choose|w: int|
                                0 <= w < streamed.len() && streamed[w] == was.position;
                            assert(more[w] == was.position);
                        }
                    }
                }
                streamed = more;
            }
        }
    }
}

/// The chunks to load are distinct, and the session watches none of them.
pub proof fn lemma_todo_fresh(boundary: Boundary, linked: Seq<LinkedChunk>)
    ensures
        chunks_to_load(boundary, linked).no_duplicates(),
        forall|i: int|
            0 <= i < chunks_to_load(boundary, linked).len() ==> !linked_positions(linked).contains(
                #[trigger] chunks_to_load(boundary, linked)[i],
            ),
{
    let all = boundary_chunks(boundary, boundary.end_y as int, boundary.start_x as int);
    let fresh = |p: IVec2| !linked_positions(linked).contains(p);
    if boundary.start_x <= boundary.end_x {
        lemma_boundary_chunks_distinct(boundary, boundary.end_y as int, boundary.start_x as int);
    }
    assert(all.map_values(|p: IVec2| p) =~= all);
    lemma_filter_keeps(all, fresh, |p: IVec2| p);
    assert(all.filter(fresh).map_values(|p: IVec2| p) =~= all.filter(fresh));
    assert forall|i: int| 0 <= i < all.filter(fresh).len() implies !linked_positions(linked).contains(
        #[trigger] all.filter(fresh)[i],
    ) by {
        assert(fresh(all.filter(fresh)[i]));
    }
}

/// The chunks of a boundary are distinct, and lie before the cell up to
/// which they are listed.
pub proof fn lemma_boundary_chunks_distinct(boundary: Boundary, y: int, x: int)
    requires
        boundary.start_x <= x <= boundary.end_x,
        y <= 0x7FFF_FFFF,
    ensures
        boundary_chunks(boundary, y, x).no_duplicates(),
        forall|i: int|
            0 <= i < boundary_chunks(boundary, y, x).len() ==> {
                let p = #[trigger] boundary_chunks(boundary, y, x)[i];
                p.y < y || (p.y == y && p.x < x)
            },
    decreases y - boundary.start_y, x - boundary.start_x,
{
    let all = boundary_chunks(boundary, y, x);
    if y < boundary.start_y || x < boundary.start_x || (y == boundary.start_y && x == boundary.start_x)
        || boundary.end_x <= boundary.start_x {
    } else if x == boundary.start_x {
        lemma_boundary_chunks_distinct(boundary, y - 1, boundary.end_x as int);
    } else {
        lemma_boundary_chunks_distinct(boundary, y, x - 1);
        let before = boundary_chunks(boundary, y, x - 1);
        assert(all[all.len() - 1] == (IVec2 { x: (x - 1) as i32, y: y as i32 }));
        assert forall|a: int, b: int| 0 <= a < all.len() && 0 <= b < all.len() && a != b implies all[a]
            != all[b] by {
            if a < before.len() {
                assert(all[a] == before[a]);
            }
            if b < before.len() {
                assert(all[b] == before[b]);
            }
        }
        assert forall|i: int| 0 <= i < all.len() implies ({
            let p = #[trigger] all[i];
            p.y < y || (p.y == y && p.x < x)
        }) by {
            if i < before.len() {
                assert(all[i] == before[i]);
            }
        }
    }
}

impl SessionInstance {
    /// Whether the tick numbered `ticks` checks the watched chunks against
    /// the boundary: every twentieth does, beginning with the first.
    pub fn tick_cleans_up(ticks: u32) -> (due: bool)
        ensures
            due == (ticks % 20 == 0),
    {
        ticks % 20 == 0
    }

    /// Ends the session: every chunk that it watches forgets it, the client
    /// is told of each that it is closed, and the session leaves `room`,
    /// of which the other sessions of the room are told.
    pub fn cleanup(&mut self, session_handle: &SessionHandle, room: &mut RoomInstance, outbox: &mut Vec<Delivery>)
        requires
            old(self).wf(),
            old(room).wf(),
        ensures
            final(self).wf(),
            final(room).wf(),
            *final(self) == (SessionInstance {
                cleaned_up: true,
                joined: false,
                linked_chunks: final(self).linked_chunks,
                ..*old(self)
            }),
            final(self).linked_chunks@.len() == 0,
            chunks_closed(
                old(room).chunk_system,
                final(room).chunk_system,
                linked_positions(old(self).linked_chunks@),
                *session_handle,
            ),
            session_left(
                *old(self),
                *old(room),
                *final(room),
                delivered(old(outbox)@),
                delivered(final(outbox)@),
                *session_handle,
            ),
    {
        self.cleaned_up = true;
        let mut gone: Vec<IVec2> = Vec::new();
        let mut i: usize = 0;
        while i < self.linked_chunks.len()
            invariant
                i <= self.linked_chunks@.len(),
                gone@ == linked_positions(self.linked_chunks@.take(i as int)),
            decreases self.linked_chunks@.len() - i,
        {
            gone.push(self.linked_chunks[i].pos);
            assert(gone@ =~= linked_positions(self.linked_chunks@.take(i as int + 1)));
            i += 1;
        }
        assert(self.linked_chunks@.take(self.linked_chunks@.len() as int) =~= self.linked_chunks@);
        self.linked_chunks = Vec::new();
        assert(linked_positions(self.linked_chunks@) =~= Seq::<IVec2>::empty());
        Self::close_chunks(session_handle, &gone, &mut room.chunk_system, outbox);
        self.leave_room(session_handle, room, outbox);
    }
}

} // verus!
