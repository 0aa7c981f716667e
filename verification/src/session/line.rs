//! The line tool of a session: a line that is shown on an overlay while it
//! is drawn, and painted on the canvas when the cursor is let up.

use vstd::prelude::*;
use crate::canvas::painted_on;
use crate::chunk::cache::{layer_frames, layer_painted, ChunkCache};
use crate::chunk::writer::touched_chunks;
use crate::chunk::chunk::{delivered, Delivery};
use crate::chunk::compositor::LayerID;
use crate::chunk::system::{chunk_pos_of, chunk_positions, layer_removed, ChunkSystem};
use crate::util::distance_squared_int32;
use crate::id::SessionHandle;
use crate::pixel::{ColorRGB, GlobalPixelRGBA};
use crate::room::RoomInstance;
use crate::session::tools::{paint_of, Sent};
use crate::session::{effective_tool_size, SessionInstance};
use crate::tool::state::{colored, line_update, ToolState, ToolStateLine};
use crate::vector::IVec2;

verus! {

/// What the overlay is told when the end of `line` moves to `target`.
pub open spec fn shown_update(
    line: ToolStateLine,
    target: IVec2,
    color: ColorRGB,
    size: u8,
    side_step: IVec2,
) -> Seq<GlobalPixelRGBA> {
    line_update(line.affected_pixels.points@, line.cover(target, size, side_step), paint_of(color))
}

/// The end of `line` has moved to `target`, which gave `next`, and the
/// overlay shows the line as it is now: the watchers of each chunk that
/// the update reaches are told how the written places look to them.
pub open spec fn line_drawn(
    line: ToolStateLine,
    next: ToolStateLine,
    system_before: ChunkSystem,
    system_after: ChunkSystem,
    sent_before: Sent,
    sent_after: Sent,
    target: IVec2,
    color: ColorRGB,
    size: u8,
    side_step: IVec2,
) -> bool {
    &&& next.wf()
    &&& next.start_pos == line.start_pos
    &&& next.layer_id == line.layer_id
    &&& next.target_prev == Some(target)
    &&& next.affected_pixels.points@ == line.cover(target, size, side_step)
    &&& if line.redrawn(target) {
        &&& layer_painted(
            system_before,
            system_after,
            line.layer_id,
            shown_update(line, target, color, size, side_step),
        )
        &&& sent_after == sent_before + layer_frames(
            system_before.chunks@,
            system_after.chunks@,
            shown_update(line, target, color, size, side_step),
            touched_chunks(
                shown_update(line, target, color, size, side_step),
                chunk_positions(system_before.chunks@),
            ),
        )
    } else {
        &&& system_after == system_before
        &&& sent_after == sent_before
    }
}

/// Every one of `points` lies in a loaded chunk.
pub open spec fn points_loaded(points: Seq<IVec2>, system: &ChunkSystem) -> bool {
    forall|k: int| 0 <= k < points.len() ==> system.is_loaded(chunk_pos_of(#[trigger] points[k]))
}

/// The chunks that the line of the session reaches once its end has moved
/// to `target` are loaded, or the session draws no line.
pub open spec fn line_loaded(
    session: SessionInstance,
    system: &ChunkSystem,
    target: IVec2,
    side_step: IVec2,
) -> bool {
    match session.tool_state {
        ToolState::Line(line) => points_loaded(
            line.cover(
                target,
                effective_tool_size(session.tool.tool_type, session.tool.size),
                side_step,
            ),
            system,
        ),
        ToolState::Idle => true,
    }
}

/// Neither the canvas nor the line of the session has changed, and nothing
/// was sent.
pub open spec fn line_rests(
    before: SessionInstance,
    after: SessionInstance,
    room_before: RoomInstance,
    room_after: RoomInstance,
    sent_before: Sent,
    sent_after: Sent,
) -> bool {
    &&& after.history == before.history
    &&& after.tool_state == before.tool_state
    &&& after.serial_generator == before.serial_generator
    &&& room_after.chunk_system == room_before.chunk_system
    &&& sent_after == sent_before
}

/// A line has begun at the cursor, on a new overlay of the session.
pub open spec fn line_begun(
    before: SessionInstance,
    after: SessionInstance,
    room_before: RoomInstance,
    room_after: RoomInstance,
    sent_before: Sent,
    sent_after: Sent,
    session_handle: SessionHandle,
) -> bool {
    &&& after.history == before.history
    &&& room_after.chunk_system == room_before.chunk_system
    &&& sent_after == sent_before
    &&& after.serial_generator.serial == if before.serial_generator.serial == u64::MAX {
        0
    } else {
        (before.serial_generator.serial + 1) as u64
    }
    &&& match after.tool_state {
        ToolState::Line(line) => {
            &&& line.start_pos == before.state.cursor.pos.to_vec_spec()
            &&& line.layer_id == LayerID::Session(before.serial_generator.serial, session_handle)
            &&& line.target_prev is None
            &&& line.affected_pixels.points@.len() == 0
        },
        ToolState::Idle => false,
    }
}

/// The pixels of `line` were painted on the canvas, with what they replace
/// recorded, after its overlay was taken away.
pub open spec fn line_painted(
    line: ToolStateLine,
    system_before: ChunkSystem,
    system_after: ChunkSystem,
    before: SessionInstance,
    after: SessionInstance,
    sent_before: Sent,
    sent_after: Sent,
) -> bool {
    exists|cleared: ChunkSystem| #[trigger]
        layer_removed(system_before, cleared, line.layer_id) && painted_on(
            cleared,
            system_after,
            before.history,
            after.history,
            sent_before,
            sent_after,
            colored(line.affected_pixels.points@, paint_of(before.tool.color)),
            true,
        )
}

/// The line `line` of the session was drawn to the cursor for the last
/// time, and then painted on the canvas.
pub open spec fn line_committed(
    line: ToolStateLine,
    before: SessionInstance,
    after: SessionInstance,
    room_before: RoomInstance,
    room_after: RoomInstance,
    sent_before: Sent,
    sent_after: Sent,
    side_step: IVec2,
) -> bool {
    &&& after.tool_state is Idle
    &&& after.serial_generator == before.serial_generator
    &&& exists|next: ToolStateLine, shown: ChunkSystem, sent_between: Sent|
        {
            &&& #[trigger] line_drawn(
                line,
                next,
                room_before.chunk_system,
                shown,
                sent_before,
                sent_between,
                before.state.cursor.pos.to_vec_spec(),
                before.tool.color,
                effective_tool_size(before.tool.tool_type, before.tool.size),
                side_step,
            )
            &&& line_painted(
                next,
                shown,
                room_after.chunk_system,
                before,
                after,
                sent_between,
                sent_after,
            )
        }
}

/// What the line tool does when the cursor has moved or was pressed or let
/// up: see `update_cursor_line`.
pub open spec fn line_effect(
    before: SessionInstance,
    after: SessionInstance,
    room_before: RoomInstance,
    room_after: RoomInstance,
    sent_before: Sent,
    sent_after: Sent,
    session_handle: SessionHandle,
    side_step: IVec2,
) -> bool {
    &&& after.same_but_drawing(before)
    &&& room_after.same_but_canvas(room_before)
    &&& match before.tool_state {
        ToolState::Idle => if before.state.cursor.down {
            line_begun(before, after, room_before, room_after, sent_before, sent_after, session_handle)
        } else {
            line_rests(before, after, room_before, room_after, sent_before, sent_after)
        },
        ToolState::Line(line) => if before.state.cursor.down {
            line_rests(before, after, room_before, room_after, sent_before, sent_after)
        } else {
            line_committed(
                line,
                before,
                after,
                room_before,
                room_after,
                sent_before,
                sent_after,
                side_step,
            )
        },
    }
}

/// What a tick does to the line of a session: see `tick_tool_state`.
pub open spec fn line_tick_effect(
    before: SessionInstance,
    after: SessionInstance,
    room_before: RoomInstance,
    room_after: RoomInstance,
    sent_before: Sent,
    sent_after: Sent,
    side_step: IVec2,
) -> bool {
    &&& after.same_but_drawing(before)
    &&& after.history == before.history
    &&& after.serial_generator == before.serial_generator
    &&& room_after.same_but_canvas(room_before)
    &&& match before.tool_state {
        ToolState::Idle => line_rests(
            before,
            after,
            room_before,
            room_after,
            sent_before,
            sent_after,
        ),
        ToolState::Line(line) => match after.tool_state {
            ToolState::Line(next) => line_drawn(
                line,
                next,
                room_before.chunk_system,
                room_after.chunk_system,
                sent_before,
                sent_after,
                before.state.cursor.pos.to_vec_spec(),
                before.tool.color,
                effective_tool_size(before.tool.tool_type, before.tool.size),
                side_step,
            ),
            ToolState::Idle => false,
        },
    }
}

/// What `set_tool_state` does: the line that was being drawn, if any, is
/// painted on the canvas, and `new_state` takes its place.
pub open spec fn tool_state_set(
    before: SessionInstance,
    after: SessionInstance,
    room_before: RoomInstance,
    room_after: RoomInstance,
    sent_before: Sent,
    sent_after: Sent,
    new_state: ToolState,
) -> bool {
    &&& after.same_but_drawing(before)
    &&& after.serial_generator == before.serial_generator
    &&& after.tool_state == new_state
    &&& room_after.same_but_canvas(room_before)
    &&& match before.tool_state {
        ToolState::Idle => {
            &&& after.history == before.history
            &&& room_after.chunk_system == room_before.chunk_system
            &&& sent_after == sent_before
        },
        ToolState::Line(line) => line_painted(
            line,
            room_before.chunk_system,
            room_after.chunk_system,
            before,
            after,
            sent_before,
            sent_after,
        ),
    }
}

/// The chunk of the first of `points` that lies in no loaded chunk.
pub fn first_unloaded(points: &Vec<IVec2>, system: &ChunkSystem) -> (missing: Option<IVec2>)
    ensures
        missing is None <==> points_loaded(points@, system),
        missing matches Some(chunk) ==> !system.is_loaded(chunk),
{
    let mut k: usize = 0;
    while k < points.len()
        invariant
            k <= points@.len(),
            forall|j: int| 0 <= j < k ==> system.is_loaded(chunk_pos_of(#[trigger] points@[j])),
        decreases points@.len() - k,
    {
        let chunk_pos = ChunkSystem::global_pixel_pos_to_chunk_pos(points[k]);
        if system.get_chunk(chunk_pos).is_none() {
            return Some(chunk_pos);
        }
        k += 1;
    }
    None
}

/// Moves the end of `line` to `target` and shows the line on its overlay.
pub fn show_line(
    line: &mut ToolStateLine,
    system: &mut ChunkSystem,
    target: IVec2,
    color: ColorRGB,
    size: u8,
    side_step: IVec2,
    outbox: &mut Vec<Delivery>,
)
    requires
        old(line).wf(),
        old(system).wf(),
    ensures
        final(system).wf(),
        line_drawn(
            *old(line),
            *final(line),
            *old(system),
            *final(system),
            delivered(old(outbox)@),
            delivered(final(outbox)@),
            target,
            color,
            size,
            side_step,
        ),
{
    match line.process(target, color, size, side_step) {
        Some(pixels) => {
            let mut cache = ChunkCache::new();
            cache.set_pixels_for_layer(system, line.layer_id, pixels.as_slice(), outbox);
        },
        None => {},
    }
}

impl RoomInstance {
    /// Everything but the canvas and the brush shapes is as in `other`.
    pub open spec fn same_but_canvas(&self, other: RoomInstance) -> bool {
        &&& self.sessions == other.sessions
        &&& self.preview_system == other.preview_system
        &&& self.cleaned_up == other.cleaned_up
    }
}

impl SessionInstance {
    /// Everything but the history, the line that is being drawn and the
    /// count of overlays is as in `other`.
    pub open spec fn same_but_drawing(&self, other: SessionInstance) -> bool {
        &&& self.state == other.state
        &&& self.admin_mode == other.admin_mode
        &&& self.needs_boundary_test == other.needs_boundary_test
        &&& self.boundary == other.boundary
        &&& self.linked_chunks == other.linked_chunks
        &&& self.chunks_sent == other.chunks_sent
        &&& self.chunks_received == other.chunks_received
        &&& self.tool == other.tool
        &&& self.kicked == other.kicked
        &&& self.announced == other.announced
        &&& self.joined == other.joined
        &&& self.cleaned_up == other.cleaned_up
    }

    /// Sets what the tool holds between two movements of the cursor. A line
    /// that was being drawn is painted on the canvas first: its overlay is
    /// taken away, and its pixels are written in the colour of the tool,
    /// with what they replace recorded.
    pub fn set_tool_state(&mut self, room: &mut RoomInstance, new_state: ToolState, outbox: &mut Vec<Delivery>)
        requires
            old(self).wf(),
            old(room).wf(),
            new_state matches ToolState::Line(line) ==> line.wf(),
        ensures
            final(self).wf(),
            final(room).wf(),
            tool_state_set(
                *old(self),
                *final(self),
                *old(room),
                *final(room),
                delivered(old(outbox)@),
                delivered(final(outbox)@),
                new_state,
            ),
    {
        let mut state = new_state;
        std::mem::swap(&mut state, &mut self.tool_state);
        match state {
            ToolState::Idle => {},
            ToolState::Line(line) => {
                room.chunk_system.remove_layer(line.layer_id);
                let ghost cleared = room.chunk_system;
                let pixels = line.gen_global_pixel_vec_rgba(self.tool.color.rgba(255));
                self.set_pixels_main(&mut room.chunk_system, pixels.as_slice(), true, outbox);
                proof {
                    assert(layer_removed(old(room).chunk_system, cleared, line.layer_id));
                }
            },
        }
    }

    /// The chunk that must be loaded before the line that is being drawn
    /// ends at `target`, if one of the chunks that the line reaches is
    /// missing.
    pub fn line_needs(&self, system: &ChunkSystem, target: IVec2, side_step: IVec2) -> (missing: Option<
        IVec2,
    >)
        requires
            self.wf(),
        ensures
            missing is None <==> line_loaded(*self, system, target, side_step),
            missing matches Some(chunk) ==> !system.is_loaded(chunk),
    {
        match &self.tool_state {
            ToolState::Idle => None,
            ToolState::Line(line) => {
                let size = self.get_tool_size();
                let redrawn = match line.target_prev {
                    None => true,
                    Some(prev) => distance_squared_int32(target, line.start_pos) <= 2000 && !(prev
                        == target),
                };
                if redrawn {
                    let mut probe = ToolStateLine::new(line.start_pos, line.layer_id);
                    let _ = probe.process(target, self.tool.color, size, side_step);
                    first_unloaded(&probe.affected_pixels.points, system)
                } else {
                    first_unloaded(&line.affected_pixels.points, system)
                }
            },
        }
    }

    /// The line tool. Where the cursor is down and no line is being drawn,
    /// a line begins at the cursor, on a new overlay of the session. Where
    /// the cursor is up and a line is being drawn, the line is drawn to the
    /// cursor for the last time and painted on the canvas; the chunks that
    /// it reaches must be loaded (see `line_needs`).
    pub fn update_cursor_line(
        &mut self,
        room: &mut RoomInstance,
        session_handle: &SessionHandle,
        side_step: IVec2,
        outbox: &mut Vec<Delivery>,
    )
        requires
            old(self).wf(),
            old(room).wf(),
            !old(self).state.cursor.down ==> line_loaded(
                *old(self),
                &old(room).chunk_system,
                old(self).state.cursor.pos.to_vec_spec(),
                side_step,
            ),
        ensures
            final(self).wf(),
            final(room).wf(),
            line_effect(
                *old(self),
                *final(self),
                *old(room),
                *final(room),
                delivered(old(outbox)@),
                delivered(final(outbox)@),
                *session_handle,
                side_step,
            ),
    {
        let cursor_down = self.state.cursor.down;
        let cursor_pos = self.state.cursor.pos.to_vec();
        let drawing = match self.tool_state {
            ToolState::Line(_) => true,
            ToolState::Idle => false,
        };
        if cursor_down && !drawing {
            let layer_generation = self.serial_generator.increment_get();
            self.set_tool_state(
                room,
                ToolState::Line(
                    ToolStateLine::new(cursor_pos, LayerID::Session(layer_generation, *session_handle)),
                ),
                outbox,
            );
        }
        if !cursor_down && drawing {
            let size = self.get_tool_size();
            let color = self.tool.color;
            let mut state = ToolState::Idle;
            std::mem::swap(&mut state, &mut self.tool_state);
            match state {
                ToolState::Line(mut line) => {
                    let ghost first = line;
                    show_line(&mut line, &mut room.chunk_system, cursor_pos, color, size, side_step, outbox);
                    let ghost next = line;
                    let ghost shown = room.chunk_system;
                    let ghost sent_between = delivered(outbox@);
                    self.tool_state = ToolState::Line(line);
                    self.set_tool_state(room, ToolState::Idle, outbox);
                    proof {
                        assert(line_drawn(
                            first,
                            next,
                            old(room).chunk_system,
                            shown,
                            delivered(old(outbox)@),
                            sent_between,
                            cursor_pos,
                            color,
                            size,
                            side_step,
                        ));
                        assert(line_painted(
                            next,
                            shown,
                            room.chunk_system,
                            *old(self),
                            *self,
                            sent_between,
                            delivered(outbox@),
                        ));
                    }
                },
                ToolState::Idle => {},
            }
        }
    }

    /// Shows the line that is being drawn, if any, as it runs to the cursor
    /// now. Where a chunk that the line reaches is not loaded, nothing
    /// happens, and the chunk is named.
    pub fn tick_tool_state(&mut self, room: &mut RoomInstance, side_step: IVec2, outbox: &mut Vec<Delivery>) -> (missing:
        Option<IVec2>)
        requires
            old(self).wf(),
            old(room).wf(),
        ensures
            final(self).wf(),
            final(room).wf(),
            missing is Some <==> !line_loaded(
                *old(self),
                &old(room).chunk_system,
                old(self).state.cursor.pos.to_vec_spec(),
                side_step,
            ),
            missing matches Some(chunk) ==> {
                &&& !old(room).chunk_system.is_loaded(chunk)
                &&& *final(self) == *old(self)
                &&& *final(room) == *old(room)
                &&& final(outbox)@ == old(outbox)@
            },
            missing is None ==> line_tick_effect(
                *old(self),
                *final(self),
                *old(room),
                *final(room),
                delivered(old(outbox)@),
                delivered(final(outbox)@),
                side_step,
            ),
    {
        let missing = self.line_needs(&room.chunk_system, self.state.cursor.pos.to_vec(), side_step);
        if missing.is_some() {
            return missing;
        }
        let cursor_pos = self.state.cursor.pos.to_vec();
        let size = self.get_tool_size();
        let color = self.tool.color;
        let mut state = ToolState::Idle;
        std::mem::swap(&mut state, &mut self.tool_state);
        match state {
            ToolState::Line(mut line) => {
                show_line(&mut line, &mut room.chunk_system, cursor_pos, color, size, side_step, outbox);
                self.tool_state = ToolState::Line(line);
            },
            ToolState::Idle => {},
        }
        None
    }
}

} // verus!
