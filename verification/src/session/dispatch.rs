//! What a frame of a client does to its session and its room.

use vstd::prelude::*;
use vstd::utf8::{decode_utf8, valid_utf8};
use crate::chunk::chunk::{delivered, Delivery};
use crate::id::SessionHandle;
use crate::limits::BLOB_LEN_MAX;
use crate::packet_client::{
    parsed, ClientPacket, ClientPacketView, FrameError, PacketCursorPos, ToolType,
};
use crate::packet_server::{prepare_packet_preview_image, preview_image_frame, your_id_frame};
use crate::room::RoomInstance;
use crate::session::announce::{announce_fault, AnnounceRequest};
use crate::session::chat::{chat_effect, password_view, ChatOutcome};
use crate::session::cursor::{
    cursor_effect, cursor_moved, cursor_pressed, pressed, released, tool_waits,
};
use crate::session::tools::{stroke_reach, undo_effect, undo_loaded, Sent};
use crate::session::{
    capped_boundary, clamped_flow, is_finite_bits, kicked_for, ProtocolError, SessionInstance,
    ToolData, ToolParams,
};
use crate::text::lowercased;
use crate::pixel::ColorRGB;
use crate::vector::IVec2;

verus! {

/// What is left to do after a frame, outside the session and its room.
pub enum CommandOutcome {
    /// Nothing.
    Done,
    /// The chunk at this position must be loaded. Nothing has happened
    /// yet: once the chunk is loaded, the frame is to be handed in again.
    NeedChunk(IVec2),
    /// The session asks for a room, which is to be found and joined.
    JoinRoom(AnnounceRequest),
    /// The client asks for a preview tile, which is to be fetched and
    /// handed to `process_command_preview_request`.
    PreviewWanted { pos: IVec2, zoom: u8 },
    /// The preview tiles of the room are to be rendered anew.
    RegeneratePreviews,
}

/// Nothing has changed and nothing was sent.
pub open spec fn quiet(
    before: SessionInstance,
    after: SessionInstance,
    room_before: RoomInstance,
    room_after: RoomInstance,
    sent_before: Sent,
    sent_after: Sent,
) -> bool {
    &&& after == before
    &&& room_after == room_before
    &&& sent_after == sent_before
}

/// The session, marked as announced.
pub open spec fn announced(session: SessionInstance) -> SessionInstance {
    SessionInstance { announced: true, ..session }
}

/// What an announcement does: see `process_command_announce`.
pub open spec fn announce_effect(
    before: SessionInstance,
    after: SessionInstance,
    sent_before: Sent,
    sent_after: Sent,
    session_handle: SessionHandle,
    room_name: Seq<u8>,
    nick_name: Seq<u8>,
    outcome: Result<CommandOutcome, ProtocolError>,
) -> bool {
    &&& after == SessionInstance { announced: true, ..before }
    &&& match outcome {
        Ok(CommandOutcome::JoinRoom(asked)) => {
            &&& !before.announced
            &&& valid_utf8(room_name)
            &&& valid_utf8(nick_name)
            &&& asked.room_name@ == lowercased(decode_utf8(room_name))
            &&& asked.nick_name@ == decode_utf8(nick_name)
            &&& announce_fault(asked.room_name@, asked.nick_name@) is None
            &&& sent_after == sent_before.push((session_handle, your_id_frame(session_handle.idx)))
        },
        Ok(_) => false,
        Err(e) => {
            &&& sent_after == sent_before
            &&& e == if before.announced {
                ProtocolError::AnnouncedTwice
            } else if !valid_utf8(room_name) || !valid_utf8(nick_name) {
                ProtocolError::Frame(FrameError::InvalidUtf8)
            } else {
                announce_fault(lowercased(decode_utf8(room_name)), decode_utf8(nick_name))->Some_0
            }
            &&& !before.announced && valid_utf8(room_name) && valid_utf8(nick_name) ==> announce_fault(
                lowercased(decode_utf8(room_name)),
                decode_utf8(nick_name),
            ) is Some
        },
    }
}

/// The frame waits for a chunk: nothing has happened, and a chunk that is
/// not loaded is named.
pub open spec fn waits_for_chunk(
    before: SessionInstance,
    after: SessionInstance,
    room_before: RoomInstance,
    room_after: RoomInstance,
    sent_before: Sent,
    sent_after: Sent,
    outcome: Result<CommandOutcome, ProtocolError>,
) -> bool {
    &&& quiet(before, after, room_before, room_after, sent_before, sent_after)
    &&& match outcome {
        Ok(CommandOutcome::NeedChunk(chunk)) => !room_before.chunk_system.is_loaded(chunk),
        _ => false,
    }
}

/// The frame is done with, and nothing is left to do.
pub open spec fn is_done(outcome: Result<CommandOutcome, ProtocolError>) -> bool {
    outcome matches Ok(CommandOutcome::Done)
}

/// What the command `packet` does to a session in a room.
pub open spec fn command_effect(
    before: SessionInstance,
    after: SessionInstance,
    room_before: RoomInstance,
    room_after: RoomInstance,
    sent_before: Sent,
    sent_after: Sent,
    session_handle: SessionHandle,
    packet: ClientPacketView,
    password: Option<Seq<char>>,
    params: ToolParams,
    outcome: Result<CommandOutcome, ProtocolError>,
) -> bool {
    match packet {
        ClientPacketView::Announce { room_name, nick_name } => {
            &&& room_after == room_before
            &&& announce_effect(
                before,
                after,
                sent_before,
                sent_after,
                session_handle,
                room_name,
                nick_name,
                outcome,
            )
        },
        ClientPacketView::Message { text } => {
            &&& room_after == room_before
            &&& chat_effect(
                before,
                after,
                room_before.sessions@,
                sent_before,
                sent_after,
                session_handle,
                text,
                password,
                match outcome {
                    Ok(CommandOutcome::RegeneratePreviews) => Ok(ChatOutcome::RegeneratePreviews),
                    Ok(_) => Ok(ChatOutcome::Nothing),
                    Err(e) => Err(e),
                },
            )
            &&& outcome matches Ok(o) ==> o is Done || o is RegeneratePreviews
        },
        ClientPacketView::Ping => {
            &&& quiet(before, after, room_before, room_after, sent_before, sent_after)
            &&& is_done(outcome)
        },
        ClientPacketView::CursorPos { x, y } => if tool_waits(
            before,
            &room_before.chunk_system,
            before.state.cursor.pos.to_vec_spec(),
            IVec2 { x, y },
            params.line_side_step,
        ) {
            waits_for_chunk(before, after, room_before, room_after, sent_before, sent_after, outcome)
        } else {
            &&& is_done(outcome)
            &&& cursor_moved(
                before,
                after,
                room_before,
                room_after,
                sent_before,
                sent_after,
                session_handle,
                PacketCursorPos { x, y },
                params,
            )
        },
        ClientPacketView::CursorDown => if before.state.cursor.down {
            &&& quiet(before, after, room_before, room_after, sent_before, sent_after)
            &&& is_done(outcome)
        } else if tool_waits(
            pressed(before),
            &room_before.chunk_system,
            before.state.cursor.pos.to_vec_spec(),
            before.state.cursor.pos.to_vec_spec(),
            params.line_side_step,
        ) {
            waits_for_chunk(before, after, room_before, room_after, sent_before, sent_after, outcome)
        } else {
            &&& is_done(outcome)
            &&& cursor_pressed(
                before,
                after,
                room_before,
                room_after,
                sent_before,
                sent_after,
                session_handle,
                params,
            )
        },
        ClientPacketView::CursorUp => if !before.state.cursor.down {
            &&& quiet(before, after, room_before, room_after, sent_before, sent_after)
            &&& is_done(outcome)
        } else if tool_waits(
            released(before),
            &room_before.chunk_system,
            before.state.cursor.pos.to_vec_spec(),
            before.state.cursor.pos.to_vec_spec(),
            params.line_side_step,
        ) {
            waits_for_chunk(before, after, room_before, room_after, sent_before, sent_after, outcome)
        } else {
            &&& is_done(outcome)
            &&& cursor_effect(
                released(before),
                after,
                room_before,
                room_after,
                sent_before,
                sent_after,
                session_handle,
                params,
            )
        },
        ClientPacketView::Boundary { start_x, start_y, end_x, end_y, zoom_bits } => {
            &&& is_done(outcome)
            &&& room_after == room_before
            &&& sent_after == sent_before
            &&& after == SessionInstance {
                boundary: capped_boundary(start_x, start_y, end_x, end_y, zoom_bits),
                needs_boundary_test: true,
                ..before
            }
        },
        ClientPacketView::ChunksReceived { count } => {
            &&& room_after == room_before
            &&& sent_after == sent_before
            &&& if count > before.chunks_sent {
                &&& after == before
                &&& outcome == Err::<CommandOutcome, ProtocolError>(
                    ProtocolError::ChunksReceivedTooLarge { received: count, sent: before.chunks_sent },
                )
            } else if count <= before.chunks_received {
                &&& after == before
                &&& outcome == Err::<CommandOutcome, ProtocolError>(
                    ProtocolError::ChunksReceivedNotIncremented,
                )
            } else {
                &&& is_done(outcome)
                &&& after == SessionInstance { chunks_received: count, ..before }
            }
        },
        ClientPacketView::PreviewRequest { x, y, zoom } => {
            &&& quiet(before, after, room_before, room_after, sent_before, sent_after)
            &&& outcome matches Ok(CommandOutcome::PreviewWanted { pos, zoom: z }) && pos == (IVec2 {
                x,
                y,
            }) && z == zoom
        },
        ClientPacketView::ToolType { tool_type } => {
            &&& room_after == room_before
            &&& sent_after == sent_before
            &&& match ToolType::from_code(tool_type) {
                Some(kind) => {
                    &&& is_done(outcome)
                    &&& after == SessionInstance {
                        tool: ToolData { tool_type: Some(kind), ..before.tool },
                        ..before
                    }
                },
                None => {
                    &&& after == before
                    &&& outcome == Err::<CommandOutcome, ProtocolError>(ProtocolError::InvalidToolType)
                },
            }
        },
        ClientPacketView::ToolColor { r, g, b } => {
            &&& is_done(outcome)
            &&& room_after == room_before
            &&& sent_after == sent_before
            &&& after == SessionInstance {
                tool: ToolData { color: ColorRGB { r, g, b }, ..before.tool },
                ..before
            }
        },
        ClientPacketView::ToolSize { size } => {
            &&& is_done(outcome)
            &&& room_after == room_before
            &&& sent_after == sent_before
            &&& after == SessionInstance { tool: ToolData { size, ..before.tool }, ..before }
        },
        ClientPacketView::ToolFlow { flow_bits } => {
            &&& room_after == room_before
            &&& sent_after == sent_before
            &&& if is_finite_bits(flow_bits) {
                &&& is_done(outcome)
                &&& after == SessionInstance {
                    tool: ToolData { flow_bits: clamped_flow(flow_bits), ..before.tool },
                    ..before
                }
            } else {
                &&& after == before
                &&& outcome == Err::<CommandOutcome, ProtocolError>(ProtocolError::InvalidToolFlow)
            }
        },
        ClientPacketView::Undo => if !undo_loaded(before, &room_before.chunk_system) {
            waits_for_chunk(before, after, room_before, room_after, sent_before, sent_after, outcome)
        } else {
            &&& is_done(outcome)
            &&& room_after == RoomInstance { chunk_system: room_after.chunk_system, ..room_before }
            &&& undo_effect(
                before,
                after,
                room_before.chunk_system,
                room_after.chunk_system,
                sent_before,
                sent_after,
                session_handle,
            )
        },
    }
}

/// What a frame does to a session in a room: a frame that cannot be read
/// is a misuse, and any other does what its command says.
pub open spec fn payload_effect(
    before: SessionInstance,
    after: SessionInstance,
    room_before: RoomInstance,
    room_after: RoomInstance,
    sent_before: Sent,
    sent_after: Sent,
    session_handle: SessionHandle,
    data: Seq<u8>,
    password: Option<Seq<char>>,
    params: ToolParams,
    outcome: Result<CommandOutcome, ProtocolError>,
) -> bool {
    match parsed(data) {
        Ok(packet) => command_effect(
            before,
            after,
            room_before,
            room_after,
            sent_before,
            sent_after,
            session_handle,
            packet,
            password,
            params,
            outcome,
        ),
        Err(e) => {
            &&& quiet(before, after, room_before, room_after, sent_before, sent_after)
            &&& outcome == Err::<CommandOutcome, ProtocolError>(ProtocolError::Frame(e))
        },
    }
}

/// What an announcement does to a session in no room: where it passes,
/// the client is told its id; where it does not, the client is
/// disconnected.
pub open spec fn announce_heard(
    before: SessionInstance,
    after: SessionInstance,
    sent_before: Sent,
    sent_after: Sent,
    session_handle: SessionHandle,
    room_name: Seq<u8>,
    nick_name: Seq<u8>,
    asked: Option<AnnounceRequest>,
) -> bool {
    exists|sent_between: Sent, result: Result<CommandOutcome, ProtocolError>|
        {
            &&& #[trigger] announce_effect(
                before,
                announced(before),
                sent_before,
                sent_between,
                session_handle,
                room_name,
                nick_name,
                result,
            )
            &&& match result {
                Ok(o) => {
                    &&& asked matches Some(a) && o == CommandOutcome::JoinRoom(a)
                    &&& after == announced(before)
                    &&& sent_after == sent_between
                },
                Err(e) => {
                    &&& asked is None
                    &&& kicked_for(
                        announced(before),
                        after,
                        sent_between,
                        sent_after,
                        session_handle,
                        e,
                    )
                },
            }
        }
}

/// What a frame does to a session in no room: see
/// `process_payload_unjoined`.
pub open spec fn unjoined_effect(
    before: SessionInstance,
    after: SessionInstance,
    sent_before: Sent,
    sent_after: Sent,
    session_handle: SessionHandle,
    data: Seq<u8>,
    asked: Option<AnnounceRequest>,
) -> bool {
    match parsed(data) {
        Ok(ClientPacketView::Announce { room_name, nick_name }) => announce_heard(
            before,
            after,
            sent_before,
            sent_after,
            session_handle,
            room_name,
            nick_name,
            asked,
        ),
        Ok(_) => {
            &&& asked is None
            &&& after == before
            &&& sent_after == sent_before
        },
        Err(e) => {
            &&& asked is None
            &&& kicked_for(
                before,
                after,
                sent_before,
                sent_after,
                session_handle,
                ProtocolError::Frame(e),
            )
        },
    }
}

impl SessionInstance {
    /// Obeys a command of a client whose session is in `room`.
    ///
    /// A command that works on the canvas may find that a chunk is not
    /// loaded: then nothing happens and the chunk is named, for the command
    /// to be given again once the chunk is there.
    pub fn parse_command(
        &mut self,
        session_handle: &SessionHandle,
        packet: &ClientPacket,
        room: &mut RoomInstance,
        admin_password: Option<&str>,
        params: &ToolParams,
        outbox: &mut Vec<Delivery>,
    ) -> (outcome: Result<CommandOutcome, ProtocolError>)
        requires
            old(self).wf(),
            old(room).wf(),
        ensures
            final(self).wf(),
            final(room).wf(),
            command_effect(
                *old(self),
                *final(self),
                *old(room),
                *final(room),
                delivered(old(outbox)@),
                delivered(final(outbox)@),
                *session_handle,
                packet@,
                password_view(admin_password),
                *params,
                outcome,
            ),
    {
        match packet {
            ClientPacket::Announce { room_name, nick_name } => {
                match self.process_command_announce(
                    session_handle,
                    room_name.as_slice(),
                    nick_name.as_slice(),
                    outbox,
                ) {
                    Ok(asked) => Ok(CommandOutcome::JoinRoom(asked)),
                    Err(e) => Err(e),
                }
            },
            ClientPacket::Message { text } => {
                match self.process_command_message(
                    session_handle,
                    text.as_slice(),
                    room,
                    admin_password,
                    outbox,
                ) {
                    Ok(ChatOutcome::RegeneratePreviews) => Ok(CommandOutcome::RegeneratePreviews),
                    Ok(ChatOutcome::Nothing) => Ok(CommandOutcome::Done),
                    Err(e) => Err(e),
                }
            },
            ClientPacket::Ping => {
                self.process_command_ping();
                Ok(CommandOutcome::Done)
            },
            ClientPacket::CursorPos { x, y } => {
                let pos = PacketCursorPos { x: *x, y: *y };
                match self.process_command_cursor_pos(room, session_handle, pos, params, outbox) {
                    Some(chunk) => Ok(CommandOutcome::NeedChunk(chunk)),
                    None => Ok(CommandOutcome::Done),
                }
            },
            ClientPacket::CursorDown => {
                match self.process_command_cursor_down(room, session_handle, params, outbox) {
                    Some(chunk) => Ok(CommandOutcome::NeedChunk(chunk)),
                    None => Ok(CommandOutcome::Done),
                }
            },
            ClientPacket::CursorUp => {
                match self.process_command_cursor_up(room, session_handle, params, outbox) {
                    Some(chunk) => Ok(CommandOutcome::NeedChunk(chunk)),
                    None => Ok(CommandOutcome::Done),
                }
            },
            ClientPacket::Boundary { start_x, start_y, end_x, end_y, zoom_bits } => {
                self.process_command_boundary(*start_x, *start_y, *end_x, *end_y, *zoom_bits);
                Ok(CommandOutcome::Done)
            },
            ClientPacket::ChunksReceived { count } => {
                match self.process_command_chunks_received(*count) {
                    Ok(()) => Ok(CommandOutcome::Done),
                    Err(e) => Err(e),
                }
            },
            ClientPacket::PreviewRequest { x, y, zoom } => Ok(
                CommandOutcome::PreviewWanted { pos: IVec2 { x: *x, y: *y }, zoom: *zoom },
            ),
            ClientPacket::ToolType { tool_type } => {
                match self.process_command_tool_type(*tool_type) {
                    Ok(()) => Ok(CommandOutcome::Done),
                    Err(e) => Err(e),
                }
            },
            ClientPacket::ToolColor { r, g, b } => {
                self.process_command_tool_color(*r, *g, *b);
                Ok(CommandOutcome::Done)
            },
            ClientPacket::ToolSize { size } => {
                self.process_command_tool_size(*size);
                Ok(CommandOutcome::Done)
            },
            ClientPacket::ToolFlow { flow_bits } => {
                match self.process_command_tool_flow(*flow_bits) {
                    Ok(()) => Ok(CommandOutcome::Done),
                    Err(e) => Err(e),
                }
            },
            ClientPacket::Undo => {
                match self.undo_needs(&room.chunk_system) {
                    Some(chunk) => Ok(CommandOutcome::NeedChunk(chunk)),
                    None => {
                        self.process_command_undo(session_handle, &mut room.chunk_system, outbox);
                        Ok(CommandOutcome::Done)
                    },
                }
            },
        }
    }

    /// Reads a frame of a client whose session is in `room`, and obeys it.
    pub fn process_payload_wrap(
        &mut self,
        session_handle: &SessionHandle,
        data: &[u8],
        room: &mut RoomInstance,
        admin_password: Option<&str>,
        params: &ToolParams,
        outbox: &mut Vec<Delivery>,
    ) -> (outcome: Result<CommandOutcome, ProtocolError>)
        requires
            old(self).wf(),
            old(room).wf(),
        ensures
            final(self).wf(),
            final(room).wf(),
            payload_effect(
                *old(self),
                *final(self),
                *old(room),
                *final(room),
                delivered(old(outbox)@),
                delivered(final(outbox)@),
                *session_handle,
                data@,
                password_view(admin_password),
                *params,
                outcome,
            ),
    {
        match ClientPacket::parse(data) {
            Ok(packet) => self.parse_command(
                session_handle,
                &packet,
                room,
                admin_password,
                params,
                outbox,
            ),
            Err(e) => Err(ProtocolError::Frame(e)),
        }
    }

    /// Reads a frame of a client whose session is in `room`, and obeys it.
    /// For a misuse the client is disconnected, and told why.
    pub fn process_payload(
        &mut self,
        session_handle: &SessionHandle,
        data: &[u8],
        room: &mut RoomInstance,
        admin_password: Option<&str>,
        params: &ToolParams,
        outbox: &mut Vec<Delivery>,
    ) -> (outcome: CommandOutcome)
        requires
            old(self).wf(),
            old(room).wf(),
        ensures
            final(self).wf(),
            final(room).wf(),
            exists|between: SessionInstance, sent_between: Sent, result: Result<CommandOutcome, ProtocolError>|
                {
                    &&& #[trigger] payload_effect(
                        *old(self),
                        between,
                        *old(room),
                        *final(room),
                        delivered(old(outbox)@),
                        sent_between,
                        *session_handle,
                        data@,
                        password_view(admin_password),
                        *params,
                        result,
                    )
                    &&& match result {
                        Ok(o) => {
                            &&& outcome == o
                            &&& *final(self) == between
                            &&& delivered(final(outbox)@) == sent_between
                        },
                        Err(e) => {
                            &&& outcome is Done
                            &&& kicked_for(
                                between,
                                *final(self),
                                sent_between,
                                delivered(final(outbox)@),
                                *session_handle,
                                e,
                            )
                        },
                    }
                },
    {
        let result = self.process_payload_wrap(
            session_handle,
            data,
            room,
            admin_password,
            params,
            outbox,
        );
        let ghost between = *self;
        let ghost sent_between = delivered(outbox@);
        match result {
            Ok(o) => {
                proof {
                    assert(payload_effect(
                        *old(self),
                        between,
                        *old(room),
                        *room,
                        delivered(old(outbox)@),
                        sent_between,
                        *session_handle,
                        data@,
                        password_view(admin_password),
                        *params,
                        Ok(o),
                    ));
                }
                o
            },
            Err(e) => {
                self.handle_error(&e, session_handle, outbox);
                proof {
                    assert(payload_effect(
                        *old(self),
                        between,
                        *old(room),
                        *room,
                        delivered(old(outbox)@),
                        sent_between,
                        *session_handle,
                        data@,
                        password_view(admin_password),
                        *params,
                        Err(e),
                    ));
                }
                CommandOutcome::Done
            },
        }
    }

    /// Reads a frame of a client whose session is in no room yet. Only an
    /// announcement is heard: where it passes, the room and the name that
    /// the client asks for are handed back. For a misuse the client is
    /// disconnected, and told why.
    pub fn process_payload_unjoined(&mut self, session_handle: &SessionHandle, data: &[u8], outbox: &mut Vec<Delivery>) -> (asked:
        Option<AnnounceRequest>)
        requires
            old(self).wf(),
        ensures
            final(self).wf(),
            unjoined_effect(
                *old(self),
                *final(self),
                delivered(old(outbox)@),
                delivered(final(outbox)@),
                *session_handle,
                data@,
                asked,
            ),
    {
        match ClientPacket::parse(data) {
            Ok(ClientPacket::Announce { room_name, nick_name }) => {
                match self.process_command_announce(
                    session_handle,
                    room_name.as_slice(),
                    nick_name.as_slice(),
                    outbox,
                ) {
                    Ok(a) => {
                        proof {
                            assert(announce_effect(
                                *old(self),
                                announced(*old(self)),
                                delivered(old(outbox)@),
                                delivered(outbox@),
                                *session_handle,
                                room_name@,
                                nick_name@,
                                Ok(CommandOutcome::JoinRoom(a)),
                            ));
                        }
                        assert(*self == announced(*old(self)));
                        let asked = Some(a);
                        assert(announce_heard(
                            *old(self),
                            *self,
                            delivered(old(outbox)@),
                            delivered(outbox@),
                            *session_handle,
                            room_name@,
                            nick_name@,
                            asked,
                        ));
                        asked
                    },
                    Err(e) => {
                        let ghost sent_between = delivered(outbox@);
                        assert(*self == announced(*old(self)));
                        self.handle_error(&e, session_handle, outbox);
                        proof {
                            assert(announce_effect(
                                *old(self),
                                announced(*old(self)),
                                delivered(old(outbox)@),
                                sent_between,
                                *session_handle,
                                room_name@,
                                nick_name@,
                                Err(e),
                            ));
                            assert(announce_heard(
                                *old(self),
                                *self,
                                delivered(old(outbox)@),
                                delivered(outbox@),
                                *session_handle,
                                room_name@,
                                nick_name@,
                                None,
                            ));
                        }
                        None
                    },
                }
            },
            Ok(other) => {
                assert(!(other@ is Announce));
                None
            },
            Err(e) => {
                self.handle_error(&ProtocolError::Frame(e), session_handle, outbox);
                None
            },
        }
    }

    /// Answers a request for a preview tile: the tile is sent to the
    /// client, if there is one.
    pub fn process_command_preview_request(
        &self,
        session_handle: &SessionHandle,
        pos: IVec2,
        zoom: u8,
        data: Option<&[u8]>,
        outbox: &mut Vec<Delivery>,
    )
        requires
            data matches Some(tile) ==> tile@.len() <= BLOB_LEN_MAX,
        ensures
            delivered(final(outbox)@) == match data {
                Some(tile) => delivered(old(outbox)@).push(
                    (*session_handle, preview_image_frame(pos, zoom, tile@)),
                ),
                None => delivered(old(outbox)@),
            },
    {
        match data {
            Some(tile) => {
                let packet = prepare_packet_preview_image(&pos, zoom, tile);
                let ghost frame = packet@;
                let ghost had = delivered(outbox@);
                outbox.push(Delivery { to: *session_handle, packet });
                assert(delivered(outbox@) =~= had.push((*session_handle, frame)));
            },
            None => {},
        }
    }
}

} // verus!
