//! How a session makes itself known, joins a room and leaves it.

use vstd::prelude::*;
use vstd::string::{StringExecFns, StringSliceAdditionalSpecFns};
use vstd::utf8::{decode_utf8, encode_utf8, valid_utf8};
use crate::chunk::chunk::{delivered, Delivery};
use crate::id::SessionHandle;
use crate::packet_client::FrameError;
use crate::packet_server::{
    prepare_packet_user_create, prepare_packet_user_cursor_pos, prepare_packet_user_remove,
    prepare_packet_your_id, user_create_frame, user_cursor_pos_frame, user_remove_frame,
    your_id_frame,
};
use crate::room::{
    broadcast_frames, handle_of, name_taken, numbered_name, others_than, sessions_at,
    RoomInstance, RoomSessionData,
};
use crate::session::{ProtocolError, SessionInstance, ToolData};
use crate::text::{find_bad_char, first_bad_char, lowercased, to_lowercase, utf8_to_string};

verus! {

/// The room and the name that a client asks for.
pub struct AnnounceRequest {
    /// The name of the room, in lower case.
    pub room_name: String,
    pub nick_name: String,
}

/// What is wrong with the names of an announcement, if anything: the room
/// name must take 3 to 24 bytes and hold only `0`–`9`, `A`–`Z`, `a`–`z`; the
/// nick name must take 3 to 24 bytes and hold only letters and numbers of
/// any script, `_` and `-`. The first fault found, in this order, counts.
pub open spec fn announce_fault(room_name: Seq<char>, nick_name: Seq<char>) -> Option<ProtocolError> {
    if encode_utf8(room_name).len() < 3 || encode_utf8(room_name).len() > 24 {
        Some(ProtocolError::RoomNameLength)
    } else if first_bad_char(room_name, false, room_name.len() as int) is Some {
        Some(
            ProtocolError::RoomNameChar(
                first_bad_char(room_name, false, room_name.len() as int)->Some_0,
            ),
        )
    } else if encode_utf8(nick_name).len() < 3 || encode_utf8(nick_name).len() > 24 {
        Some(ProtocolError::NickNameLength)
    } else if first_bad_char(nick_name, true, nick_name.len() as int) is Some {
        Some(
            ProtocolError::NickNameChar(
                first_bad_char(nick_name, true, nick_name.len() as int)->Some_0,
            ),
        )
    } else {
        None
    }
}

/// What a session is told of the sessions `others` when it joins their
/// room: of each, that it is there and where its cursor stands.
pub open spec fn introductions(to: SessionHandle, others: Seq<RoomSessionData>) -> Seq<
    (SessionHandle, Seq<u8>),
>
    decreases others.len(),
{
    if others.len() == 0 {
        Seq::empty()
    } else {
        introductions(to, others.drop_last()).push(
            (
                to,
                user_create_frame(others.last().handle.idx, encode_utf8(others.last().nick_name@)),
            ),
        ).push(
            (
                to,
                user_cursor_pos_frame(
                    others.last().handle.idx,
                    others.last().cursor_x,
                    others.last().cursor_y,
                ),
            ),
        )
    }
}

/// Checks the names of an announcement: see `announce_fault`.
pub fn validate_announce(room_name: &str, nick_name: &str) -> (checked: Result<(), ProtocolError>)
    ensures
        match checked {
            Ok(()) => announce_fault(room_name@, nick_name@) is None,
            Err(e) => announce_fault(room_name@, nick_name@) == Some(e),
        },
{
    let room_len = room_name.as_bytes().len();
    let nick_len = nick_name.as_bytes().len();
    if room_len < 3 || room_len > 24 {
        return Err(ProtocolError::RoomNameLength);
    }
    match find_bad_char(room_name, false) {
        Some(ch) => {
            return Err(ProtocolError::RoomNameChar(ch));
        },
        None => {},
    }
    if nick_len < 3 || nick_len > 24 {
        return Err(ProtocolError::NickNameLength);
    }
    match find_bad_char(nick_name, true) {
        Some(ch) => {
            return Err(ProtocolError::NickNameChar(ch));
        },
        None => {},
    }
    Ok(())
}


/// What joining a room does: see `join_room`.
pub open spec fn room_joined(
    before: SessionInstance,
    after: SessionInstance,
    room_before: RoomInstance,
    room_after: RoomInstance,
    sent_before: Seq<(SessionHandle, Seq<u8>)>,
    sent_after: Seq<(SessionHandle, Seq<u8>)>,
    session_handle: SessionHandle,
    nick_name: Seq<char>,
) -> bool {
    &&& after.joined
    &&& room_after.sessions@.len() == room_before.sessions@.len() + 1
    &&& room_after.sessions@.drop_last() == room_before.sessions@
    &&& room_after.sessions@.last().handle == session_handle
    &&& room_after.sessions@.last().nick_name@ == after.state.nick_name@
    &&& room_after.chunk_system == room_before.chunk_system
    &&& room_after.preview_system == room_before.preview_system
    &&& room_after.brush_shapes == room_before.brush_shapes
    &&& exists|n: u64|
        {
            &&& 1 <= n <= room_before.sessions@.len() + 1
            &&& after.state.nick_name@ == #[trigger] numbered_name(nick_name, n)
            &&& forall|m: u64|
                1 <= m < n ==> name_taken(
                    room_before.sessions@,
                    #[trigger] numbered_name(nick_name, m),
                    session_handle,
                )
            &&& room_before.sessions@.len() + 1 < u64::MAX ==> !name_taken(
                room_before.sessions@,
                after.state.nick_name@,
                session_handle,
            )
        }
    &&& sent_after == sent_before + broadcast_frames(
        room_before.sessions@,
        user_create_frame(session_handle.idx, encode_utf8(after.state.nick_name@)),
        Some(session_handle),
    ) + introductions(session_handle, room_before.sessions@)
    &&& after.tool == (ToolData {
        size: 1,
        flow_bits: 0x3F00_0000,
        color: crate::pixel::ColorRGB { r: 0, g: 0, b: 0 },
        tool_type: None,
    })
    &&& after.state.cursor == before.state.cursor
    &&& after.admin_mode == before.admin_mode
    &&& after.needs_boundary_test == before.needs_boundary_test
    &&& after.boundary == before.boundary
    &&& after.linked_chunks == before.linked_chunks
    &&& after.chunks_sent == before.chunks_sent
    &&& after.chunks_received == before.chunks_received
    &&& after.history == before.history
    &&& after.kicked == before.kicked
    &&& after.announced == before.announced
    &&& after.cleaned_up == before.cleaned_up
    &&& after.tool_state == before.tool_state
    &&& after.serial_generator == before.serial_generator
}

impl SessionInstance {
    /// Takes the announcement of a client: the session counts as announced
    /// from now on; the room name is taken in lower case; and where the
    /// names pass, the client is told its id and the room and the name that
    /// it asks for are handed back, for the room to be found and joined.
    ///
    /// A second announcement, names that are not UTF-8 and names that do
    /// not pass are misuses.
    pub fn process_command_announce(
        &mut self,
        session_handle: &SessionHandle,
        room_name: &[u8],
        nick_name: &[u8],
        outbox: &mut Vec<Delivery>,
    ) -> (request: Result<AnnounceRequest, ProtocolError>)
        ensures
            final(self).announced,
            final(self).same_but_announced(*old(self)),
            match request {
                Ok(asked) => {
                    &&& !old(self).announced
                    &&& valid_utf8(room_name@)
                    &&& valid_utf8(nick_name@)
                    &&& asked.room_name@ == lowercased(decode_utf8(room_name@))
                    &&& asked.nick_name@ == decode_utf8(nick_name@)
                    &&& announce_fault(asked.room_name@, asked.nick_name@) is None
                    &&& delivered(final(outbox)@) == delivered(old(outbox)@).push(
                        (*session_handle, your_id_frame(session_handle.idx)),
                    )
                },
                Err(e) => {
                    &&& final(outbox)@ == old(outbox)@
                    &&& e == if old(self).announced {
                        ProtocolError::AnnouncedTwice
                    } else if !valid_utf8(room_name@) || !valid_utf8(nick_name@) {
                        ProtocolError::Frame(FrameError::InvalidUtf8)
                    } else {
                        announce_fault(
                            lowercased(decode_utf8(room_name@)),
                            decode_utf8(nick_name@),
                        )->Some_0
                    }
                    &&& !old(self).announced && valid_utf8(room_name@) && valid_utf8(nick_name@)
                        ==> announce_fault(
                        lowercased(decode_utf8(room_name@)),
                        decode_utf8(nick_name@),
                    ) is Some
                },
            },
    {
        if self.announced {
            return Err(ProtocolError::AnnouncedTwice);
        }
        self.announced = true;
        let room_name_raw = match utf8_to_string(room_name) {
            Some(s) => s,
            None => {
                return Err(ProtocolError::Frame(FrameError::InvalidUtf8));
            },
        };
        let room = to_lowercase(room_name_raw.as_str());
        let nick = match utf8_to_string(nick_name) {
            Some(s) => s,
            None => {
                return Err(ProtocolError::Frame(FrameError::InvalidUtf8));
            },
        };
        match validate_announce(room.as_str(), nick.as_str()) {
            Ok(()) => {},
            Err(e) => {
                return Err(e);
            },
        }
        let packet = prepare_packet_your_id(session_handle.id());
        let ghost frame = packet@;
        let ghost had = delivered(outbox@);
        outbox.push(Delivery { to: *session_handle, packet });
        assert(delivered(outbox@) =~= had.push((*session_handle, frame)));
        Ok(AnnounceRequest { room_name: room, nick_name: nick })
    }

    /// Everything but the mark of the announcement is as in `other`.
    pub open spec fn same_but_announced(&self, other: SessionInstance) -> bool {
        &&& self.state == other.state
        &&& self.admin_mode == other.admin_mode
        &&& self.needs_boundary_test == other.needs_boundary_test
        &&& self.boundary == other.boundary
        &&& self.linked_chunks == other.linked_chunks
        &&& self.chunks_sent == other.chunks_sent
        &&& self.chunks_received == other.chunks_received
        &&& self.history == other.history
        &&& self.tool == other.tool
        &&& self.kicked == other.kicked
        &&& self.joined == other.joined
        &&& self.cleaned_up == other.cleaned_up
        &&& self.tool_state == other.tool_state
        &&& self.serial_generator == other.serial_generator
    }

    /// Lets the session join `room` under the name that it asked for, or,
    /// where another session of the room has that name, under the name with
    /// the least free number behind it. The other sessions are told of the
    /// new one, the new one of the others, and its tool is as of a new
    /// session.
    pub fn join_room(
        &mut self,
        session_handle: &SessionHandle,
        room: &mut RoomInstance,
        nick_name: &str,
        outbox: &mut Vec<Delivery>,
    )
        requires
            old(room).wf(),
            !old(room).has_session(*session_handle),
        ensures
            final(room).wf(),
            old(self).wf() ==> final(self).wf(),
            room_joined(
                *old(self),
                *final(self),
                *old(room),
                *final(room),
                delivered(old(outbox)@),
                delivered(final(outbox)@),
                *session_handle,
                nick_name@,
            ),
    {
        let ghost before = room.sessions@;
        room.add_session(session_handle, String::new());
        let suitable_nick = room.get_suitable_nick_name(nick_name, session_handle);
        let last = room.sessions.len() - 1;
        proof {
            assert forall|name: Seq<char>|
                name_taken(room.sessions@, name, *session_handle) == name_taken(
                    before,
                    name,
                    *session_handle,
                ) by {
                if name_taken(room.sessions@, name, *session_handle) {
                    let i = choose|i: int|
                        0 <= i < room.sessions@.len() && (#[trigger] room.sessions@[i]).handle
                            != *session_handle && room.sessions@[i].nick_name@ == name;
                    assert(i < before.len());
                    assert(before[i] == room.sessions@.drop_last()[i]);
                }
                if name_taken(before, name, *session_handle) {
                    let i = choose|i: int|
                        0 <= i < before.len() && (#[trigger] before[i]).handle != *session_handle
                            && before[i].nick_name@ == name;
                    assert(room.sessions@[i] == room.sessions@.drop_last()[i]);
                }
            }
        }
        proof {
            let n = choose|n: u64|
                {
                    &&& 1 <= n <= room.sessions@.len() + 1
                    &&& suitable_nick@ == #[trigger] numbered_name(nick_name@, n)
                    &&& room.sessions@.len() < u64::MAX ==> !name_taken(
                        room.sessions@,
                        suitable_nick@,
                        *session_handle,
                    )
                    &&& forall|m: u64|
                        1 <= m < n ==> name_taken(
                            room.sessions@,
                            #[trigger] numbered_name(nick_name@, m),
                            *session_handle,
                        )
                };
            crate::room::lemma_numbered_names_taken(
                before,
                nick_name@,
                *session_handle,
                (n - 1) as nat,
            );
        }
        self.state.nick_name = suitable_nick.clone();
        let ghost handles_before = crate::room::roster_handles(room.sessions@);
        room.sessions[last].nick_name = suitable_nick;
        proof {
            assert(crate::room::roster_handles(room.sessions@) =~= handles_before);
            assert(room.sessions@.drop_last() =~= before);
        }
        self.broadcast_self(session_handle, room, outbox);
        self.tool = ToolData::new();
        self.joined = true;
        proof {
            let joined = room.sessions@;
            let skip = Some(*session_handle);
            let keep = |s: RoomSessionData| skip != Some(s.handle);
            crate::seq_facts::lemma_filter_step(joined, keep, last as int);
            assert(joined.take(last as int) =~= before);
            assert(joined.take(last as int + 1) =~= joined);
            assert(before.filter(keep) =~= before) by {
                lemma_all_others(before, *session_handle);
            }
        }
    }

    /// Tells the other sessions of `room` that this one is there, and this
    /// one of each of the others that it is there and where its cursor
    /// stands.
    pub fn broadcast_self(&self, session_handle: &SessionHandle, room: &RoomInstance, outbox: &mut Vec<Delivery>)
        ensures
            delivered(final(outbox)@) == delivered(old(outbox)@) + broadcast_frames(
                room.sessions@,
                user_create_frame(session_handle.idx, encode_utf8(self.state.nick_name@)),
                Some(*session_handle),
            ) + introductions(*session_handle, others_than(room.sessions@, Some(*session_handle))),
    {
        let packet = prepare_packet_user_create(session_handle.id(), self.state.nick_name.as_str());
        room.broadcast(&packet, Some(session_handle), outbox);
        let other_sessions = room.get_all_sessions(Some(session_handle));
        let ghost others = others_than(room.sessions@, Some(*session_handle));
        let ghost sent = delivered(outbox@);
        let mut k: usize = 0;
        proof {
            assert(sent + introductions(*session_handle, others.take(0)) =~= sent);
        }
        while k < other_sessions.len()
            invariant
                k <= other_sessions@.len(),
                forall|j: int|
                    0 <= j < other_sessions@.len() ==> (#[trigger] other_sessions@[j])
                        < room.sessions@.len(),
                sessions_at(room.sessions@, other_sessions@) == others,
                delivered(outbox@) == sent + introductions(*session_handle, others.take(k as int)),
            decreases other_sessions@.len() - k,
        {
            let other = &room.sessions[other_sessions[k]];
            proof {
                assert(others[k as int] == room.sessions@[other_sessions@[k as int] as int]);
                assert(others.take(k as int + 1).drop_last() =~= others.take(k as int));
            }
            let create = prepare_packet_user_create(other.handle.id(), other.nick_name.as_str());
            let cursor = prepare_packet_user_cursor_pos(
                other.handle.id(),
                other.cursor_x,
                other.cursor_y,
            );
            let ghost had = delivered(outbox@);
            let ghost f1 = create@;
            let ghost f2 = cursor@;
            outbox.push(Delivery { to: *session_handle, packet: create });
            outbox.push(Delivery { to: *session_handle, packet: cursor });
            proof {
                assert(delivered(outbox@) =~= had.push((*session_handle, f1)).push(
                    (*session_handle, f2),
                ));
            }
            k += 1;
        }
        assert(others.take(others.len() as int) =~= others);
    }

    /// Takes the session out of `room` and tells the other sessions of the
    /// room that it is gone.
    pub fn leave_room(&mut self, session_handle: &SessionHandle, room: &mut RoomInstance, outbox: &mut Vec<Delivery>)
        requires
            old(room).wf(),
        ensures
            final(room).wf(),
            !final(room).has_session(*session_handle),
            final(room).sessions@ == others_than(old(room).sessions@, Some(*session_handle)),
            delivered(final(outbox)@) == delivered(old(outbox)@) + broadcast_frames(
                final(room).sessions@,
                user_remove_frame(session_handle.idx),
                Some(*session_handle),
            ),
            final(room).chunk_system == old(room).chunk_system,
            final(room).preview_system == old(room).preview_system,
            final(room).brush_shapes == old(room).brush_shapes,
            final(room).cleaned_up == old(room).cleaned_up,
            !final(self).joined,
            final(self).same_but_joined(*old(self)),
    {
        room.remove_session(session_handle);
        proof {
            assert(room.sessions@ =~= others_than(old(room).sessions@, Some(*session_handle))) by {
                lemma_others_than(old(room).sessions@, *session_handle);
            }
        }
        let packet = prepare_packet_user_remove(session_handle.id());
        room.broadcast(&packet, Some(session_handle), outbox);
        self.joined = false;
    }

    /// Everything but the mark of membership is as in `other`.
    pub open spec fn same_but_joined(&self, other: SessionInstance) -> bool {
        &&& self.state == other.state
        &&& self.admin_mode == other.admin_mode
        &&& self.needs_boundary_test == other.needs_boundary_test
        &&& self.boundary == other.boundary
        &&& self.linked_chunks == other.linked_chunks
        &&& self.chunks_sent == other.chunks_sent
        &&& self.chunks_received == other.chunks_received
        &&& self.history == other.history
        &&& self.tool == other.tool
        &&& self.kicked == other.kicked
        &&& self.announced == other.announced
        &&& self.cleaned_up == other.cleaned_up
        &&& self.tool_state == other.tool_state
        &&& self.serial_generator == other.serial_generator
    }
}

/// Leaving out a session is keeping the sessions with another handle.
pub proof fn lemma_others_than(sessions: Seq<RoomSessionData>, handle: SessionHandle)
    ensures
        others_than(sessions, Some(handle)) == sessions.filter(
            |s: RoomSessionData| s.handle != handle,
        ),
    decreases sessions.len(),
{
    reveal(Seq::filter);
    if sessions.len() > 0 {
        lemma_others_than(sessions.drop_last(), handle);
    }
}

/// Where a session is not among `sessions`, leaving it out keeps them all.
pub proof fn lemma_all_others(sessions: Seq<RoomSessionData>, handle: SessionHandle)
    requires
        !crate::room::roster_handles(sessions).contains(handle),
    ensures
        sessions.filter(|s: RoomSessionData| Some(handle) != Some(s.handle)) == sessions,
    decreases sessions.len(),
{
    reveal(Seq::filter);
    if sessions.len() > 0 {
        let front = sessions.drop_last();
        let hs = crate::room::roster_handles(sessions);
        assert forall|i: int| 0 <= i < crate::room::roster_handles(front).len() implies crate::room::roster_handles(
            front,
        )[i] != handle by {
            assert(hs[i] == front[i].handle);
        }
        lemma_all_others(front, handle);
        assert(hs[sessions.len() - 1] == sessions.last().handle);
        assert(sessions.filter(|s: RoomSessionData| Some(handle) != Some(s.handle)) =~= sessions);
    }
}

} // verus!
