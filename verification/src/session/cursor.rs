//! The cursor of a session: how its movements reach the tool of the
//! session and the other sessions of the room.

use vstd::prelude::*;
use crate::chunk::chunk::{delivered, Delivery};
use crate::chunk::system::ChunkSystem;
use crate::id::SessionHandle;
use crate::packet_client::{PacketCursorPos, ToolType};
use crate::packet_server::{prepare_packet_user_cursor_pos, user_cursor_pos_frame};
use crate::room::{broadcast_frames, with_cursor, RoomInstance};
use crate::session::line::{line_effect, line_loaded};
use crate::session::tools::{
    blur_effect, brush_effect, fill_effect, nothing_painted, only_painted, smooth_effect,
    smudge_effect, spray_effect, stroke_reach, Sent,
};
use crate::session::{Cursor, SessionInstance, SessionState, ToolParams};
use crate::vector::IVec2;

verus! {

/// The tool of the session waits for a chunk before the cursor goes from
/// `from` to `to`: the cursor is down, the tool is another than the line
/// and a chunk around the way is not loaded; or the cursor is up, the tool
/// is the line and a chunk that the line being drawn reaches is not
/// loaded.
pub open spec fn tool_waits(
    session: SessionInstance,
    system: &ChunkSystem,
    from: IVec2,
    to: IVec2,
    side_step: IVec2,
) -> bool {
    match session.tool.tool_type {
        None => false,
        Some(ToolType::Line) => !session.state.cursor.down && !line_loaded(
            session,
            system,
            to,
            side_step,
        ),
        Some(_) => session.state.cursor.down && !stroke_reach(from, to).loaded(system),
    }
}

/// The session with the mark of a fresh click as given.
pub open spec fn with_click(session: SessionInstance, just_clicked: bool) -> SessionInstance {
    SessionInstance {
        state: SessionState {
            cursor: Cursor { just_clicked, ..session.state.cursor },
            ..session.state
        },
        ..session
    }
}

/// The session with the cursor at `pos`, come from where it stood.
pub open spec fn moved_to(session: SessionInstance, pos: PacketCursorPos) -> SessionInstance {
    SessionInstance {
        state: SessionState {
            cursor: Cursor { pos, pos_prev: session.state.cursor.pos, ..session.state.cursor },
            ..session.state
        },
        ..session
    }
}

/// The session with the cursor just pressed where it stands.
pub open spec fn pressed(session: SessionInstance) -> SessionInstance {
    SessionInstance {
        state: SessionState {
            cursor: Cursor {
                pos_prev: session.state.cursor.pos,
                down: true,
                just_clicked: true,
                ..session.state.cursor
            },
            ..session.state
        },
        ..session
    }
}

/// The session with the cursor let up.
pub open spec fn released(session: SessionInstance) -> SessionInstance {
    SessionInstance {
        state: SessionState { cursor: Cursor { down: false, ..session.state.cursor }, ..session.state },
        ..session
    }
}

/// What the tool of the session does when the cursor has moved or was
/// pressed or let up: what its kind says. Without a tool nothing happens.
pub open spec fn tool_effect(
    before: SessionInstance,
    after: SessionInstance,
    room_before: RoomInstance,
    room_after: RoomInstance,
    sent_before: Sent,
    sent_after: Sent,
    session_handle: SessionHandle,
    params: ToolParams,
) -> bool {
    match before.tool.tool_type {
        Some(ToolType::Brush) => brush_effect(
            before,
            after,
            room_before,
            room_after,
            sent_before,
            sent_after,
            false,
        ),
        Some(ToolType::SquareBrush) => brush_effect(
            before,
            after,
            room_before,
            room_after,
            sent_before,
            sent_after,
            true,
        ),
        Some(ToolType::Line) => line_effect(
            before,
            after,
            room_before,
            room_after,
            sent_before,
            sent_after,
            session_handle,
            params.line_side_step,
        ),
        Some(ToolType::SmoothBrush) => smooth_effect(
            before,
            after,
            room_before,
            room_after,
            sent_before,
            sent_after,
            params.smooth_kernel@,
        ),
        Some(ToolType::Spray) => spray_effect(
            before,
            after,
            room_before,
            room_after,
            sent_before,
            sent_after,
            params.spray_threshold,
        ),
        Some(ToolType::Fill) => fill_effect(
            before,
            after,
            room_before,
            room_after,
            sent_before,
            sent_after,
        ),
        Some(ToolType::Blur) => blur_effect(
            before,
            after,
            room_before,
            room_after,
            sent_before,
            sent_after,
            params.blend_intensity,
        ),
        Some(ToolType::Smudge) => smudge_effect(
            before,
            after,
            room_before,
            room_after,
            sent_before,
            sent_after,
            params.blend_intensity,
        ),
        None => {
            &&& only_painted(before, after, room_before, room_after)
            &&& after.state.cursor.down == before.state.cursor.down
            &&& nothing_painted(before, after, room_before, room_after, sent_before, sent_after)
        },
    }
}

/// What `update_cursor` does: the tool has done its work, and the click is
/// no longer fresh.
pub open spec fn cursor_effect(
    before: SessionInstance,
    after: SessionInstance,
    room_before: RoomInstance,
    room_after: RoomInstance,
    sent_before: Sent,
    sent_after: Sent,
    session_handle: SessionHandle,
    params: ToolParams,
) -> bool {
    &&& !after.state.cursor.just_clicked
    &&& tool_effect(
        before,
        with_click(after, before.state.cursor.just_clicked),
        room_before,
        room_after,
        sent_before,
        sent_after,
        session_handle,
        params,
    )
}

/// The other sessions of the room were told where the cursor of the
/// session stands, unless they knew.
pub open spec fn cursor_told(
    before: SessionInstance,
    after: SessionInstance,
    room_before: RoomInstance,
    room_after: RoomInstance,
    sent_before: Sent,
    sent_after: Sent,
    session_handle: SessionHandle,
) -> bool {
    let pos = before.state.cursor.pos;
    if before.state.cursor.pos_sent == Some(pos) {
        &&& after == before
        &&& room_after == room_before
        &&& sent_after == sent_before
    } else {
        &&& after == SessionInstance {
            state: SessionState {
                cursor: Cursor { pos_sent: Some(pos), ..before.state.cursor },
                ..before.state
            },
            ..before
        }
        &&& room_after == RoomInstance {
            sessions: room_after.sessions,
            ..room_before
        }
        &&& room_after.sessions@ == with_cursor(room_before.sessions@, session_handle, pos.x, pos.y)
        &&& sent_after == sent_before + broadcast_frames(
            room_after.sessions@,
            user_cursor_pos_frame(session_handle.idx, pos.x, pos.y),
            Some(session_handle),
        )
    }
}

/// What a movement of the cursor to `pos` does: the tool follows, and then
/// the other sessions are told.
pub open spec fn cursor_moved(
    before: SessionInstance,
    after: SessionInstance,
    room_before: RoomInstance,
    room_after: RoomInstance,
    sent_before: Sent,
    sent_after: Sent,
    session_handle: SessionHandle,
    pos: PacketCursorPos,
    params: ToolParams,
) -> bool {
    exists|between: SessionInstance, room_between: RoomInstance, sent_between: Sent|
        {
            &&& #[trigger] cursor_effect(
                moved_to(before, pos),
                between,
                room_before,
                room_between,
                sent_before,
                sent_between,
                session_handle,
                params,
            )
            &&& cursor_told(
                between,
                after,
                room_between,
                room_after,
                sent_between,
                sent_after,
                session_handle,
            )
        }
}

/// What pressing the cursor does: a snapshot is opened in the history for
/// what the stroke will replace, and the tool begins.
pub open spec fn cursor_pressed(
    before: SessionInstance,
    after: SessionInstance,
    room_before: RoomInstance,
    room_after: RoomInstance,
    sent_before: Sent,
    sent_after: Sent,
    session_handle: SessionHandle,
    params: ToolParams,
) -> bool {
    exists|between: SessionInstance| #[trigger]
        snapshot_opened(pressed(before), between) && cursor_effect(
            between,
            after,
            room_before,
            room_after,
            sent_before,
            sent_after,
            session_handle,
            params,
        )
}

/// `after` is `before` with a new, empty snapshot at the end of its
/// history; of 50 snapshots the oldest has gone.
pub open spec fn snapshot_opened(before: SessionInstance, after: SessionInstance) -> bool {
    &&& after == SessionInstance { history: after.history, ..before }
    &&& after.history.wf()
    &&& after.history.cells@.len() > 0
    &&& after.history.cells@.last().pixels@.len() == 0
    &&& after.history.cells@.drop_last() == if before.history.cells@.len() >= 50 {
        before.history.cells@.skip(1)
    } else {
        before.history.cells@
    }
}

/// No tool changes the mark of a fresh click.
pub proof fn lemma_click_kept(
    before: SessionInstance,
    after: SessionInstance,
    room_before: RoomInstance,
    room_after: RoomInstance,
    sent_before: Sent,
    sent_after: Sent,
    session_handle: SessionHandle,
    params: ToolParams,
)
    requires
        tool_effect(
            before,
            after,
            room_before,
            room_after,
            sent_before,
            sent_after,
            session_handle,
            params,
        ),
    ensures
        after.state.cursor.just_clicked == before.state.cursor.just_clicked,
{
}

impl SessionInstance {
    /// Lets the tool of the session do its work.
    fn use_tool(
        &mut self,
        room: &mut RoomInstance,
        session_handle: &SessionHandle,
        params: &ToolParams,
        outbox: &mut Vec<Delivery>,
    )
        requires
            old(self).wf(),
            old(room).wf(),
            !tool_waits(
                *old(self),
                &old(room).chunk_system,
                old(self).state.cursor.pos_prev.to_vec_spec(),
                old(self).state.cursor.pos.to_vec_spec(),
                params.line_side_step,
            ),
        ensures
            final(self).wf(),
            final(room).wf(),
            tool_effect(
                *old(self),
                *final(self),
                *old(room),
                *final(room),
                delivered(old(outbox)@),
                delivered(final(outbox)@),
                *session_handle,
                *params,
            ),
    {
        match self.tool.tool_type {
            Some(ToolType::Brush) => self.update_cursor_brush(room, false, outbox),
            Some(ToolType::SquareBrush) => self.update_cursor_brush(room, true, outbox),
            Some(ToolType::Line) => self.update_cursor_line(
                room,
                session_handle,
                params.line_side_step,
                outbox,
            ),
            Some(ToolType::SmoothBrush) => self.update_cursor_smooth_brush(
                room,
                params.smooth_kernel.as_slice(),
                outbox,
            ),
            Some(ToolType::Spray) => self.update_cursor_spray(room, params.spray_threshold, outbox),
            Some(ToolType::Fill) => self.update_cursor_fill(room, outbox),
            Some(ToolType::Blur) => self.update_cursor_blur(room, params.blend_intensity, outbox),
            Some(ToolType::Smudge) => self.update_cursor_smudge(room, params.blend_intensity, outbox),
            None => {},
        }
    }

    /// Lets the tool of the session follow the cursor: each kind of tool in
    /// its own way. After that the click is no longer fresh.
    pub fn update_cursor(
        &mut self,
        room: &mut RoomInstance,
        session_handle: &SessionHandle,
        params: &ToolParams,
        outbox: &mut Vec<Delivery>,
    )
        requires
            old(self).wf(),
            old(room).wf(),
            !tool_waits(
                *old(self),
                &old(room).chunk_system,
                old(self).state.cursor.pos_prev.to_vec_spec(),
                old(self).state.cursor.pos.to_vec_spec(),
                params.line_side_step,
            ),
        ensures
            final(self).wf(),
            final(room).wf(),
            cursor_effect(
                *old(self),
                *final(self),
                *old(room),
                *final(room),
                delivered(old(outbox)@),
                delivered(final(outbox)@),
                *session_handle,
                *params,
            ),
    {
        self.use_tool(room, session_handle, params, outbox);
        let ghost worked = *self;
        proof {
            lemma_click_kept(
                *old(self),
                worked,
                *old(room),
                *room,
                delivered(old(outbox)@),
                delivered(outbox@),
                *session_handle,
                *params,
            );
        }
        self.state.cursor.just_clicked = false;
        proof {
            assert(with_click(*self, old(self).state.cursor.just_clicked) == worked);
        }
    }

    /// Tells the other sessions of the room where the cursor stands.
    pub fn send_cursor_pos_to_all(&mut self, room: &mut RoomInstance, session_handle: &SessionHandle, outbox: &mut Vec<Delivery>)
        requires
            old(room).wf(),
        ensures
            final(room).wf(),
            *final(self) == (SessionInstance {
                state: SessionState {
                    cursor: Cursor {
                        pos_sent: Some(old(self).state.cursor.pos),
                        ..old(self).state.cursor
                    },
                    ..old(self).state
                },
                ..*old(self)
            }),
            *final(room) == (RoomInstance { sessions: final(room).sessions, ..*old(room) }),
            final(room).sessions@ == with_cursor(
                old(room).sessions@,
                *session_handle,
                old(self).state.cursor.pos.x,
                old(self).state.cursor.pos.y,
            ),
            delivered(final(outbox)@) == delivered(old(outbox)@) + broadcast_frames(
                final(room).sessions@,
                user_cursor_pos_frame(
                    session_handle.idx,
                    old(self).state.cursor.pos.x,
                    old(self).state.cursor.pos.y,
                ),
                Some(*session_handle),
            ),
    {
        let cursor_pos = self.state.cursor.pos;
        self.state.cursor.pos_sent = Some(cursor_pos);
        room.move_cursor(session_handle, cursor_pos.x, cursor_pos.y);
        let packet = prepare_packet_user_cursor_pos(session_handle.id(), cursor_pos.x, cursor_pos.y);
        room.broadcast(&packet, Some(session_handle), outbox);
    }

    /// The chunk that must be loaded before the cursor moves to `pos`, if
    /// the tool waits for one: see `tool_waits`.
    pub fn cursor_needs(&self, system: &ChunkSystem, pos: PacketCursorPos, side_step: IVec2) -> (missing:
        Option<IVec2>)
        requires
            self.wf(),
        ensures
            missing is Some <==> tool_waits(
                *self,
                system,
                self.state.cursor.pos.to_vec_spec(),
                pos.to_vec_spec(),
                side_step,
            ),
            missing matches Some(chunk) ==> !system.is_loaded(chunk),
    {
        match self.tool.tool_type {
            Some(ToolType::Line) => if self.state.cursor.down {
                None
            } else {
                self.line_needs(system, pos.to_vec(), side_step)
            },
            Some(_) => if self.state.cursor.down {
                SessionInstance::needed_chunk(system, self.state.cursor.pos.to_vec(), pos.to_vec())
            } else {
                None
            },
            None => None,
        }
    }

    /// The cursor moves to `pos`: the tool follows, and the other sessions
    /// of the room are told where the cursor stands now. Where the tool
    /// reads the canvas and a chunk around the way of the cursor is not
    /// loaded, nothing happens, and the chunk is named: once it is loaded,
    /// the movement can be made.
    pub fn process_command_cursor_pos(
        &mut self,
        room: &mut RoomInstance,
        session_handle: &SessionHandle,
        pos: PacketCursorPos,
        params: &ToolParams,
        outbox: &mut Vec<Delivery>,
    ) -> (missing: Option<IVec2>)
        requires
            old(self).wf(),
            old(room).wf(),
        ensures
            final(self).wf(),
            final(room).wf(),
            missing is Some <==> tool_waits(
                *old(self),
                &old(room).chunk_system,
                old(self).state.cursor.pos.to_vec_spec(),
                pos.to_vec_spec(),
                params.line_side_step,
            ),
            missing matches Some(chunk) ==> {
                &&& !old(room).chunk_system.is_loaded(chunk)
                &&& *final(self) == *old(self)
                &&& *final(room) == *old(room)
                &&& final(outbox)@ == old(outbox)@
            },
            missing is None ==> cursor_moved(
                *old(self),
                *final(self),
                *old(room),
                *final(room),
                delivered(old(outbox)@),
                delivered(final(outbox)@),
                *session_handle,
                pos,
                *params,
            ),
    {
        let missing = self.cursor_needs(&room.chunk_system, pos, params.line_side_step);
        if missing.is_some() {
            return missing;
        }
        self.state.cursor.pos_prev = self.state.cursor.pos;
        self.state.cursor.pos = pos;
        assert(*self == moved_to(*old(self), pos));
        self.update_cursor(room, session_handle, params, outbox);
        let ghost between = *self;
        let ghost room_between = *room;
        let ghost sent_between = delivered(outbox@);
        let told = match self.state.cursor.pos_sent {
            Some(sent) => sent == self.state.cursor.pos,
            None => false,
        };
        if !told {
            self.send_cursor_pos_to_all(room, session_handle, outbox);
        }
        proof {
            assert(cursor_told(
                between,
                *self,
                room_between,
                *room,
                sent_between,
                delivered(outbox@),
                *session_handle,
            ));
        }
        None
    }

    /// The cursor is pressed where it stands: a snapshot is opened in the
    /// history, and the tool begins. A cursor that is down already stays as
    /// it is. Where the tool reads the canvas and a chunk around the cursor
    /// is not loaded, nothing happens, and the chunk is named.
    pub fn process_command_cursor_down(
        &mut self,
        room: &mut RoomInstance,
        session_handle: &SessionHandle,
        params: &ToolParams,
        outbox: &mut Vec<Delivery>,
    ) -> (missing: Option<IVec2>)
        requires
            old(self).wf(),
            old(room).wf(),
        ensures
            final(self).wf(),
            final(room).wf(),
            missing is Some <==> !old(self).state.cursor.down && tool_waits(
                pressed(*old(self)),
                &old(room).chunk_system,
                old(self).state.cursor.pos.to_vec_spec(),
                old(self).state.cursor.pos.to_vec_spec(),
                params.line_side_step,
            ),
            missing matches Some(chunk) ==> !old(room).chunk_system.is_loaded(chunk),
            missing is Some || old(self).state.cursor.down ==> {
                &&& *final(self) == *old(self)
                &&& *final(room) == *old(room)
                &&& final(outbox)@ == old(outbox)@
            },
            missing is None && !old(self).state.cursor.down ==> cursor_pressed(
                *old(self),
                *final(self),
                *old(room),
                *final(room),
                delivered(old(outbox)@),
                delivered(final(outbox)@),
                *session_handle,
                *params,
            ),
    {
        if self.state.cursor.down {
            return None;
        }
        let pos = self.state.cursor.pos;
        self.state.cursor.down = true;
        let missing = self.cursor_needs(&room.chunk_system, pos, params.line_side_step);
        if missing.is_some() {
            self.state.cursor.down = false;
            return missing;
        }
        self.state.cursor.pos_prev = pos;
        self.state.cursor.just_clicked = true;
        assert(*self == pressed(*old(self)));
        self.history.create_snapshot();
        let ghost between = *self;
        assert(snapshot_opened(pressed(*old(self)), between));
        self.update_cursor(room, session_handle, params, outbox);
        None
    }

    /// The cursor is let up: the tool ends what it was doing. A cursor that
    /// is up already stays as it is. Where the tool is the line and a chunk
    /// that the line being drawn reaches is not loaded, nothing happens, and
    /// the chunk is named.
    pub fn process_command_cursor_up(
        &mut self,
        room: &mut RoomInstance,
        session_handle: &SessionHandle,
        params: &ToolParams,
        outbox: &mut Vec<Delivery>,
    ) -> (missing: Option<IVec2>)
        requires
            old(self).wf(),
            old(room).wf(),
        ensures
            final(self).wf(),
            final(room).wf(),
            missing is Some <==> old(self).state.cursor.down && tool_waits(
                released(*old(self)),
                &old(room).chunk_system,
                old(self).state.cursor.pos.to_vec_spec(),
                old(self).state.cursor.pos.to_vec_spec(),
                params.line_side_step,
            ),
            missing matches Some(chunk) ==> !old(room).chunk_system.is_loaded(chunk),
            missing is Some || !old(self).state.cursor.down ==> {
                &&& *final(self) == *old(self)
                &&& *final(room) == *old(room)
                &&& final(outbox)@ == old(outbox)@
            },
            missing is None && old(self).state.cursor.down ==> cursor_effect(
                released(*old(self)),
                *final(self),
                *old(room),
                *final(room),
                delivered(old(outbox)@),
                delivered(final(outbox)@),
                *session_handle,
                *params,
            ),
    {
        if !self.state.cursor.down {
            return None;
        }
        let pos = self.state.cursor.pos;
        self.state.cursor.down = false;
        let missing = self.cursor_needs(&room.chunk_system, pos, params.line_side_step);
        if missing.is_some() {
            self.state.cursor.down = true;
            return missing;
        }
        assert(*self == released(*old(self)));
        self.update_cursor(room, session_handle, params, outbox);
        None
    }

    /// A ping asks for nothing.
    pub fn process_command_ping(&self) {
    }
}

} // verus!
