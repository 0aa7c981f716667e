//! The registry of a server: its sessions, each under a handle, and its
//! rooms, each under a name.

use vstd::prelude::*;
use vstd::string::StringExecFns;
use crate::chunk::chunk::{delivered, ChunkInstance, Delivery};
use crate::chunk::system::{chunk_positions, pending_saves, saved, ChunkSave};
use crate::config::Config;
use crate::id::SessionHandle;
use crate::room::RoomInstance;
use crate::packet_server::kick_frame;
use crate::session::announce::room_joined;
use crate::session::chunks::session_left;
use crate::seq_facts::{lemma_filter_all, lemma_filter_none, lemma_filter_nothing, lemma_filter_step};
use crate::session::SessionInstance;
use crate::text::is_text;

verus! {

/// A session, and the name of the room that it is in.
pub struct SessionContainer {
    pub session: SessionInstance,
    pub room_name: Option<String>,
}

/// A slot of the registry of sessions. Each time the slot is taken anew
/// its generation is one more, so that a handle of an earlier session does
/// not reach a later one.
pub struct SessionVecCell {
    pub generation: u64,
    pub obj: Option<SessionContainer>,
}

/// The sessions of a server, each under a handle.
pub struct SessionVec {
    pub vec: Vec<SessionVecCell>,
}

/// A room under its name.
pub struct RoomEntry {
    pub name: String,
    pub room: RoomInstance,
}

/// What a room that was closed leaves to be written to storage.
pub struct RoomSaves {
    pub name: String,
    pub saves: Vec<ChunkSave>,
}

/// A server: its sessions, its rooms and its settings.
pub struct Server {
    pub sessions: SessionVec,
    pub rooms: Vec<RoomEntry>,
    pub config: Config,
}

/// The slot `cell` can be taken: it holds no session, and its generation
/// can still grow.
pub open spec fn is_free(cell: SessionVecCell) -> bool {
    cell.obj is None && cell.generation < u64::MAX
}

/// The names of `rooms`, in order.
pub open spec fn room_names(rooms: Seq<RoomEntry>) -> Seq<Seq<char>> {
    rooms.map_values(|e: RoomEntry| e.name@)
}

/// A room stays at a cleaning: sessions are in it, and not every room is
/// to go.
pub open spec fn room_stays(force_all: bool, entry: RoomEntry) -> bool {
    !force_all && entry.room.sessions@.len() > 0
}

/// The rooms of `rooms` that stay at a cleaning.
pub open spec fn rooms_kept(rooms: Seq<RoomEntry>, force_all: bool) -> Seq<RoomEntry> {
    rooms.filter(|e: RoomEntry| room_stays(force_all, e))
}

/// The rooms of `rooms` that go at a cleaning.
pub open spec fn rooms_closed(rooms: Seq<RoomEntry>, force_all: bool) -> Seq<RoomEntry> {
    rooms.filter(|e: RoomEntry| !room_stays(force_all, e))
}

/// Of each of `rooms`, its name and the blocks that it has to save.
pub open spec fn rooms_pending(rooms: Seq<RoomEntry>) -> Seq<(Seq<char>, Seq<(crate::vector::IVec2, Seq<u8>)>)> {
    rooms.map_values(|e: RoomEntry| (e.name@, pending_saves(e.room.chunk_system.chunks@)))
}

/// Of each of `closed`, the name and the blocks.
pub open spec fn rooms_saved(closed: Seq<RoomSaves>) -> Seq<(Seq<char>, Seq<(crate::vector::IVec2, Seq<u8>)>)> {
    closed.map_values(|c: RoomSaves| (c.name@, saved(c.saves@)))
}

impl SessionVec {
    /// There are no more slots than a handle can number.
    pub open spec fn wf(&self) -> bool {
        self.vec@.len() <= 0x1_0000_0000
    }

    /// The handle `handle` names a session that is held.
    pub open spec fn live(&self, handle: SessionHandle) -> bool {
        &&& handle.idx < self.vec@.len()
        &&& self.vec@[handle.idx as int].generation == handle.generation
        &&& self.vec@[handle.idx as int].obj is Some
    }

    /// A registry without sessions.
    pub fn new() -> (sessions: Self)
        ensures
            sessions.wf(),
            sessions.vec@.len() == 0,
    {
        SessionVec { vec: Vec::new() }
    }

    /// The handle of the session in the slot `cell`, which is the slot
    /// `idx`.
    pub fn get_handle(cell: &SessionVecCell, idx: u32) -> (handle: SessionHandle)
        ensures
            handle == (SessionHandle { idx, generation: cell.generation }),
    {
        SessionHandle { idx, generation: cell.generation }
    }

    /// The first slot that can be taken, or the count of slots.
    fn first_free(&self) -> (at: usize)
        ensures
            at <= self.vec@.len(),
            at < self.vec@.len() ==> is_free(self.vec@[at as int]),
            forall|j: int| 0 <= j < at ==> !is_free(#[trigger] self.vec@[j]),
    {
        let mut i: usize = 0;
        while i < self.vec.len()
            invariant
                i <= self.vec@.len(),
                forall|j: int| 0 <= j < i ==> !is_free(#[trigger] self.vec@[j]),
            decreases self.vec@.len() - i,
        {
            if self.vec[i].obj.is_none() && self.vec[i].generation < u64::MAX {
                return i;
            }
            i += 1;
        }
        i
    }

    /// Takes `obj` in: into the first slot that can be taken, under the
    /// next generation of that slot, or, where there is none, into a new
    /// slot. Where no slot can be taken and no handle could number a new
    /// one, `obj` is not taken in.
    pub fn add(&mut self, obj: SessionContainer) -> (handle: Option<SessionHandle>)
        requires
            old(self).wf(),
        ensures
            final(self).wf(),
            handle is None <==> old(self).vec@.len() == 0x1_0000_0000 && forall|j: int|
                0 <= j < old(self).vec@.len() ==> !is_free(#[trigger] old(self).vec@[j]),
            handle is None ==> final(self).vec@ == old(self).vec@,
            handle matches Some(h) ==> {
                &&& !old(self).live(h)
                &&& final(self).live(h)
                &&& final(self).vec@[h.idx as int].obj == Some(obj)
                &&& forall|j: int| 0 <= j < h.idx ==> !is_free(#[trigger] old(self).vec@[j])
                &&& if h.idx < old(self).vec@.len() {
                    &&& is_free(old(self).vec@[h.idx as int])
                    &&& h.generation == old(self).vec@[h.idx as int].generation + 1
                    &&& final(self).vec@.len() == old(self).vec@.len()
                } else {
                    &&& h.idx == old(self).vec@.len()
                    &&& h.generation == 0
                    &&& final(self).vec@.len() == old(self).vec@.len() + 1
                }
                &&& forall|j: int|
                    0 <= j < old(self).vec@.len() && j != h.idx ==> #[trigger] final(self).vec@[j]
                        == old(self).vec@[j]
            },
    {
        let at = self.first_free();
        if at < self.vec.len() {
            let generation: u64 = self.vec[at].generation + 1;
            self.vec[at].generation = generation;
            self.vec[at].obj = Some(obj);
            Some(SessionHandle { idx: at as u32, generation })
        } else if at <= 0xFFFF_FFFF {
            self.vec.push(SessionVecCell { generation: 0, obj: Some(obj) });
            Some(SessionHandle { idx: at as u32, generation: 0 })
        } else {
            None
        }
    }

    /// Takes the session `handle` out, if it is held.
    pub fn remove(&mut self, handle: &SessionHandle) -> (obj: Option<SessionContainer>)
        requires
            old(self).wf(),
        ensures
            final(self).wf(),
            obj is Some <==> old(self).live(*handle),
            obj is Some ==> old(self).vec@[handle.idx as int].obj == obj,
            !final(self).live(*handle),
            final(self).vec@.len() == old(self).vec@.len(),
            forall|j: int|
                0 <= j < old(self).vec@.len() && j != handle.idx ==> #[trigger] final(self).vec@[j]
                    == old(self).vec@[j],
            old(self).live(*handle) ==> final(self).vec@[handle.idx as int].generation
                == handle.generation,
            !old(self).live(*handle) ==> final(self).vec@ == old(self).vec@,
    {
        let idx = handle.idx as usize;
        if idx >= self.vec.len() || self.vec[idx].generation != handle.generation {
            return None;
        }
        let mut obj: Option<SessionContainer> = None;
        std::mem::swap(&mut obj, &mut self.vec[idx].obj);
        proof {
            if obj is None {
                assert(self.vec@ =~= old(self).vec@);
            }
        }
        obj
    }

    /// The session `handle`, if it is held.
    pub fn get(&self, handle: &SessionHandle) -> (obj: Option<&SessionContainer>)
        ensures
            obj is Some <==> self.live(*handle),
            obj matches Some(c) ==> self.vec@[handle.idx as int].obj == Some(*c),
    {
        let idx = handle.idx as usize;
        if idx >= self.vec.len() || self.vec[idx].generation != handle.generation {
            return None;
        }
        match &self.vec[idx].obj {
            Some(c) => Some(c),
            None => None,
        }
    }
}

impl Server {
    /// The registry of sessions is in order, every room is in order, and
    /// no two rooms have one name.
    pub open spec fn wf(&self) -> bool {
        &&& self.sessions.wf()
        &&& forall|i: int|
            0 <= i < self.sessions.vec@.len() ==> ((#[trigger] self.sessions.vec@[i]).obj matches Some(c)
                ==> c.session.wf())
        &&& room_names(self.rooms@).no_duplicates()
        &&& forall|i: int| 0 <= i < self.rooms@.len() ==> (#[trigger] self.rooms@[i]).room.wf()
    }

    /// The room `name` is open.
    pub open spec fn has_room(&self, name: Seq<char>) -> bool {
        room_names(self.rooms@).contains(name)
    }

    /// A server without sessions and rooms.
    pub fn new(config: Config) -> (server: Self)
        ensures
            server.wf(),
            server.sessions.vec@.len() == 0,
            server.rooms@.len() == 0,
            server.config == config,
    {
        let server = Server { sessions: SessionVec::new(), rooms: Vec::new(), config };
        assert(room_names(server.rooms@) =~= Seq::<Seq<char>>::empty());
        server
    }

    /// Takes in a new session, which has said nothing yet and is in no
    /// room.
    pub fn create_session(&mut self) -> (handle: Option<SessionHandle>)
        requires
            old(self).wf(),
        ensures
            final(self).wf(),
            final(self).rooms == old(self).rooms,
            final(self).config == old(self).config,
            handle is None <==> old(self).sessions.vec@.len() == 0x1_0000_0000 && forall|j: int|
                0 <= j < old(self).sessions.vec@.len() ==> !is_free(
                    #[trigger] old(self).sessions.vec@[j],
                ),
            handle is None ==> final(self).sessions.vec@ == old(self).sessions.vec@,
            handle matches Some(h) ==> {
                &&& !old(self).sessions.live(h)
                &&& final(self).sessions.live(h)
                &&& final(self).sessions.vec@[h.idx as int].obj matches Some(c) && c.room_name is None
                    && c.session.wf() && !c.session.announced && !c.session.joined
                    && !c.session.kicked
                &&& forall|j: int|
                    0 <= j < old(self).sessions.vec@.len() && j != h.idx
                        ==> #[trigger] final(self).sessions.vec@[j] == old(self).sessions.vec@[j]
            },
    {
        let container = SessionContainer { session: SessionInstance::new(), room_name: None };
        self.sessions.add(container)
    }

    /// Where among the rooms the room `room_name` stands, if it is open.
    pub fn find_room(&self, room_name: &str) -> (found: Option<usize>)
        ensures
            found is Some <==> self.has_room(room_name@),
            found matches Some(i) ==> i < self.rooms@.len() && self.rooms@[i as int].name@
                == room_name@,
    {
        let mut i: usize = 0;
        while i < self.rooms.len()
            invariant
                i <= self.rooms@.len(),
                forall|j: int| 0 <= j < i ==> (#[trigger] self.rooms@[j]).name@ != room_name@,
            decreases self.rooms@.len() - i,
        {
            if is_text(&self.rooms[i].name, room_name) {
                assert(room_names(self.rooms@)[i as int] == room_name@);
                return Some(i);
            }
            i += 1;
        }
        assert forall|j: int| 0 <= j < room_names(self.rooms@).len() implies room_names(
            self.rooms@,
        )[j] != room_name@ by {
            assert(room_names(self.rooms@)[j] == self.rooms@[j].name@);
        }
        None
    }

    /// Where the room `room_name` stands: the room is opened first, empty,
    /// where it is not open yet, which is said too.
    pub fn get_or_load_room(&mut self, room_name: &str) -> (found: (usize, bool))
        requires
            old(self).wf(),
        ensures
            final(self).wf(),
            room_opened(*old(self), *final(self), room_name@, found.0 as int, found.1),
    {
        match self.find_room(room_name) {
            Some(i) => (i, false),
            None => {
                let room = RoomInstance::new(self.config.autosave_interval_ms);
                let name = String::from_str(room_name);
                let ghost before = self.rooms@;
                self.rooms.push(RoomEntry { name, room });
                proof {
                    assert(self.rooms@.drop_last() =~= before);
                    assert(room_names(self.rooms@) =~= room_names(before).push(room_name@));
                    assert forall|i: int| 0 <= i < self.rooms@.len() implies (
                    #[trigger] self.rooms@[i]).room.wf() by {
                        if i < before.len() {
                            assert(self.rooms@[i] == before[i]);
                        }
                    }
                }
                (self.rooms.len() - 1, true)
            },
        }
    }

    /// Closes the rooms without sessions, or, with `force_all`, every
    /// room: each is cleaned up and taken off the list. What the closed
    /// rooms have to save is handed back, room by room.
    pub fn cleanup_rooms(&mut self, force_all: bool) -> (closed: Vec<RoomSaves>)
        requires
            old(self).wf(),
        ensures
            final(self).wf(),
            final(self).sessions == old(self).sessions,
            final(self).config == old(self).config,
            final(self).rooms@ == rooms_kept(old(self).rooms@, force_all),
            rooms_saved(closed@) == rooms_pending(rooms_closed(old(self).rooms@, force_all)),
    {
        let ghost original = self.rooms@;
        let ghost stays = |e: RoomEntry| room_stays(force_all, e);
        let ghost goes = |e: RoomEntry| !room_stays(force_all, e);
        let mut rooms: Vec<RoomEntry> = Vec::new();
        std::mem::swap(&mut rooms, &mut self.rooms);
        let mut closed: Vec<RoomSaves> = Vec::new();
        let ghost mut done: int = 0;
        proof {
            lemma_filter_none(original, stays);
            lemma_filter_none(original, goes);
            assert(rooms@ =~= original.skip(0));
            assert(rooms_saved(closed@) =~= rooms_pending(rooms_closed(original.take(0), force_all)));
        }
        while rooms.len() > 0
            invariant
                0 <= done <= original.len(),
                rooms@ == original.skip(done),
                stays == (|e: RoomEntry| room_stays(force_all, e)),
                goes == (|e: RoomEntry| !room_stays(force_all, e)),
                self.rooms@ == rooms_kept(original.take(done), force_all),
                rooms_saved(closed@) == rooms_pending(rooms_closed(original.take(done), force_all)),
                forall|i: int| 0 <= i < original.len() ==> (#[trigger] original[i]).room.wf(),
                self.sessions == old(self).sessions,
                self.config == old(self).config,
            decreases rooms@.len(),
        {
            let ghost rest = rooms@;
            let mut entry = rooms.remove(0);
            proof {
                assert(entry == original[done]);
                assert(rooms@ =~= original.skip(done + 1));
                lemma_filter_step(original, stays, done);
                lemma_filter_step(original, goes, done);
            }
            if force_all || entry.room.wants_to_be_removed() {
                let ghost had = closed@;
                let saves = entry.room.cleanup();
                closed.push(RoomSaves { name: entry.name, saves });
                proof {
                    assert(rooms_saved(closed@) =~= rooms_saved(had).push(
                        (original[done].name@, pending_saves(original[done].room.chunk_system.chunks@)),
                    ));
                    assert(rooms_pending(rooms_closed(original.take(done + 1), force_all))
                        =~= rooms_pending(rooms_closed(original.take(done), force_all)).push(
                        (original[done].name@, pending_saves(original[done].room.chunk_system.chunks@)),
                    ));
                }
            } else {
                self.rooms.push(entry);
            }
            proof {
                done = done + 1;
            }
        }
        proof {
            assert(original.take(original.len() as int) =~= original);
            crate::seq_facts::lemma_filter_keeps(original, stays, |e: RoomEntry| e.name@);
            assert(room_names(self.rooms@) =~= self.rooms@.map_values(|e: RoomEntry| e.name@));
            assert(room_names(original) =~= original.map_values(|e: RoomEntry| e.name@));
            assert forall|i: int| 0 <= i < self.rooms@.len() implies (#[trigger] self.rooms@[i]).room.wf() by {
                assert(original.contains(self.rooms@[i]));
            }
        }
        closed
    }

    /// Takes the session `session_handle` off the registry, and closes the
    /// rooms that are left without sessions.
    pub fn remove_session(&mut self, session_handle: &SessionHandle) -> (closed: Vec<RoomSaves>)
        requires
            old(self).wf(),
        ensures
            final(self).wf(),
            !final(self).sessions.live(*session_handle),
            final(self).sessions.vec@.len() == old(self).sessions.vec@.len(),
            forall|j: int|
                0 <= j < old(self).sessions.vec@.len() && j != session_handle.idx
                    ==> #[trigger] final(self).sessions.vec@[j] == old(self).sessions.vec@[j],
            final(self).config == old(self).config,
            final(self).rooms@ == rooms_kept(old(self).rooms@, false),
            rooms_saved(closed@) == rooms_pending(rooms_closed(old(self).rooms@, false)),
    {
        let _ = self.sessions.remove(session_handle);
        self.cleanup_rooms(false)
    }

    /// Lets the session `session_handle` join the room at `room_index`
    /// under `nick_name`, or a name made from it: see `room_joined`. A
    /// session that is not held, or that the room lists already, joins
    /// nothing, which is said.
    pub fn join_session(
        &mut self,
        room_index: usize,
        session_handle: &SessionHandle,
        nick_name: &str,
        outbox: &mut Vec<Delivery>,
    ) -> (joined: bool)
        requires
            old(self).wf(),
            room_index < old(self).rooms@.len(),
        ensures
            final(self).wf(),
            session_joined(
                *old(self),
                *final(self),
                room_index as int,
                *session_handle,
                nick_name@,
                delivered(old(outbox)@),
                delivered(final(outbox)@),
                joined,
            ),
    {
        let idx = session_handle.idx as usize;
        if idx >= self.sessions.vec.len() || self.sessions.vec[idx].generation
            != session_handle.generation {
            return false;
        }
        if self.rooms[room_index].room.find_session(session_handle).is_some() {
            return false;
        }
        let mut slot: Option<SessionContainer> = None;
        std::mem::swap(&mut slot, &mut self.sessions.vec[idx].obj);
        match slot {
            Some(mut container) => {
                let ghost names = room_names(self.rooms@);
                container.session.join_room(
                    session_handle,
                    &mut self.rooms[room_index].room,
                    nick_name,
                    outbox,
                );
                container.room_name = Some(self.rooms[room_index].name.clone());
                self.sessions.vec[idx].obj = Some(container);
                proof {
                    assert(room_names(self.rooms@) =~= names);
                    assert forall|i: int| 0 <= i < self.rooms@.len() implies (
                    #[trigger] self.rooms@[i]).room.wf() by {
                        if i != room_index {
                            assert(self.rooms@[i] == old(self).rooms@[i]);
                        }
                    }
                    assert forall|i: int| 0 <= i < self.sessions.vec@.len() implies ((
                    #[trigger] self.sessions.vec@[i]).obj matches Some(c) ==> c.session.wf()) by {
                        if i != idx {
                            assert(self.sessions.vec@[i] == old(self).sessions.vec@[i]);
                        }
                    }
                }
                true
            },
            None => {
                proof {
                    assert(self.sessions.vec@ =~= old(self).sessions.vec@);
                }
                false
            },
        }
    }

    /// Disconnects every session, slot by slot: each is told `Server
    /// closed`, unless it was told before why it is disconnected, lets go
    /// of the chunks that it watches, leaves its room, of which the others
    /// in the room are told, and goes from the registry.
    pub fn kick_all_sessions(&mut self, outbox: &mut Vec<Delivery>)
        requires
            old(self).wf(),
        ensures
            final(self).wf(),
            sessions_gone(*old(self), *final(self)),
            all_closed(
                old(self).sessions.vec@,
                old(self).sessions.vec@.len() as int,
                old(self).rooms@,
                final(self).rooms@,
                delivered(old(outbox)@),
                delivered(final(outbox)@),
            ),
    {
        let ghost sent = delivered(outbox@);
        let ghost names = room_names(self.rooms@);
        let ghost cells0 = self.sessions.vec@;
        let mut i: usize = 0;
        while i < self.sessions.vec.len()
            invariant
                i <= self.sessions.vec@.len(),
                self.wf(),
                cells0 == old(self).sessions.vec@,
                sent == delivered(old(outbox)@),
                self.config == old(self).config,
                self.sessions.vec@.len() == cells0.len(),
                forall|j: int|
                    0 <= j < cells0.len() ==> (#[trigger] self.sessions.vec@[j]).generation
                        == cells0[j].generation,
                forall|j: int| 0 <= j < i ==> (#[trigger] self.sessions.vec@[j]).obj is None,
                forall|j: int| i <= j < cells0.len() ==> #[trigger] self.sessions.vec@[j] == cells0[j],
                self.rooms@.len() == old(self).rooms@.len(),
                names == room_names(old(self).rooms@),
                room_names(self.rooms@) == names,
                forall|r: int|
                    0 <= r < old(self).rooms@.len() ==> canvas_kept(
                        old(self).rooms@[r].room,
                        (#[trigger] self.rooms@[r]).room,
                    ),
                all_closed(cells0, i as int, old(self).rooms@, self.rooms@, sent, delivered(outbox@)),
            decreases self.sessions.vec@.len() - i,
        {
            let ghost cells = self.sessions.vec@;
            let ghost rooms_then = self.rooms@;
            let ghost sent_then = delivered(outbox@);
            let mut slot: Option<SessionContainer> = None;
            std::mem::swap(&mut slot, &mut self.sessions.vec[i].obj);
            proof {
                assert(slot == cells0[i as int].obj);
                assert forall|j: int| 0 <= j < self.sessions.vec@.len() implies ((
                #[trigger] self.sessions.vec@[j]).obj matches Some(c) ==> c.session.wf()) by {
                    if j != i {
                        assert(self.sessions.vec@[j] == cells[j]);
                    }
                }
                assert forall|j: int| 0 <= j < i + 1 implies (
                #[trigger] self.sessions.vec@[j]).obj is None by {
                    if j != i {
                        assert(self.sessions.vec@[j] == cells[j]);
                    }
                }
                assert forall|j: int| 0 <= j < cells0.len() implies (
                #[trigger] self.sessions.vec@[j]).generation == cells0[j].generation by {
                    if j != i {
                        assert(self.sessions.vec@[j] == cells[j]);
                    }
                }
                assert forall|j: int| i + 1 <= j < cells0.len() implies #[trigger] self.sessions.vec@[j]
                    == cells0[j] by {
                    assert(self.sessions.vec@[j] == cells[j]);
                }
            }
            match slot {
                Some(mut container) => {
                    let handle = SessionHandle {
                        idx: i as u32,
                        generation: self.sessions.vec[i].generation,
                    };
                    let ghost held = container.session;
                    container.session.kick(&handle, "Server closed", outbox);
                    let ghost told = delivered(outbox@);
                    let room_at = match &container.room_name {
                        Some(name) => self.find_room(name.as_str()),
                        None => None,
                    };
                    proof {
                        assert(told == kick_sent(held, sent_then, handle));
                        lemma_room_at(self.rooms@, container.room_name, room_at);
                    }
                    match room_at {
                        Some(r) => {
                            container.session.cleanup(&handle, &mut self.rooms[r].room, outbox);
                            proof {
                                assert(room_names(self.rooms@) =~= names);
                                assert forall|k: int| 0 <= k < self.rooms@.len() implies (
                                #[trigger] self.rooms@[k]).room.wf() by {
                                    if k != r {
                                        assert(self.rooms@[k] == rooms_then[k]);
                                    }
                                }
                                assert forall|k: int| 0 <= k < old(self).rooms@.len() implies canvas_kept(
                                    old(self).rooms@[k].room,
                                    (#[trigger] self.rooms@[k]).room,
                                ) by {
                                    assert(canvas_kept(old(self).rooms@[k].room, rooms_then[k].room));
                                    if k != r {
                                        assert(self.rooms@[k] == rooms_then[k]);
                                    } else {
                                        let was = rooms_then[k].room.chunk_system;
                                        let now = self.rooms@[k].room.chunk_system;
                                        assert forall|j: int| 0 <= j < was.chunks@.len() implies (
                                        #[trigger] now.chunks@[j]).position == was.chunks@[j].position by {
                                            assert(chunk_positions(now.chunks@)[j] == now.chunks@[j].position);
                                            assert(chunk_positions(was.chunks@)[j] == was.chunks@[j].position);
                                        }
                                    }
                                }
                                assert forall|k: int| 0 <= k < rooms_then.len() && k != r implies (
                                #[trigger] self.rooms@[k]) == rooms_then[k] by {}
                                assert(self.rooms@[r as int].name == rooms_then[r as int].name);
                                assert(one_closed(
                                    cells0[i as int],
                                    i as int,
                                    rooms_then,
                                    self.rooms@,
                                    sent_then,
                                    delivered(outbox@),
                                ));
                            }
                        },
                        None => {
                            proof {
                                assert(one_closed(
                                    cells0[i as int],
                                    i as int,
                                    rooms_then,
                                    self.rooms@,
                                    sent_then,
                                    delivered(outbox@),
                                ));
                            }
                        },
                    }
                },
                None => {
                    proof {
                        assert(one_closed(
                            cells0[i as int],
                            i as int,
                            rooms_then,
                            self.rooms@,
                            sent_then,
                            delivered(outbox@),
                        ));
                    }
                },
            }
            proof {
                lemma_all_closed_step(
                    cells0,
                    i as int + 1,
                    old(self).rooms@,
                    rooms_then,
                    self.rooms@,
                    sent,
                    sent_then,
                    delivered(outbox@),
                );
            }
            i += 1;
        }
        proof {
            assert forall|r: int| 0 <= r < old(self).rooms@.len() implies (
            #[trigger] self.rooms@[r]).name@ == old(self).rooms@[r].name@ by {
                assert(room_names(self.rooms@)[r] == self.rooms@[r].name@);
                assert(room_names(old(self).rooms@)[r] == old(self).rooms@[r].name@);
            }
        }
    }

    /// Ends the server: every session is disconnected, as
    /// `kick_all_sessions` does it, and then every room is closed. What the
    /// rooms have to save is handed back, room by room.
    pub fn save_and_exit(&mut self, outbox: &mut Vec<Delivery>) -> (closed: Vec<RoomSaves>)
        requires
            old(self).wf(),
        ensures
            final(self).wf(),
            final(self).rooms@.len() == 0,
            final(self).config == old(self).config,
            final(self).sessions.vec@.len() == old(self).sessions.vec@.len(),
            forall|i: int|
                0 <= i < old(self).sessions.vec@.len() ==> (
                #[trigger] final(self).sessions.vec@[i]).obj is None,
            rooms_saved(closed@) == rooms_pending(old(self).rooms@),
            exists|settled: Seq<RoomEntry>| #[trigger]
                all_closed(
                    old(self).sessions.vec@,
                    old(self).sessions.vec@.len() as int,
                    old(self).rooms@,
                    settled,
                    delivered(old(outbox)@),
                    delivered(final(outbox)@),
                ),
    {
        self.kick_all_sessions(outbox);
        let ghost settled = self.rooms@;
        assert(all_closed(
            old(self).sessions.vec@,
            old(self).sessions.vec@.len() as int,
            old(self).rooms@,
            settled,
            delivered(old(outbox)@),
            delivered(outbox@),
        ));
        let closed = self.cleanup_rooms(true);
        proof {
            let goes = |e: RoomEntry| !room_stays(true, e);
            let stays = |e: RoomEntry| room_stays(true, e);
            lemma_filter_all(settled, goes);
            lemma_filter_nothing(settled, stays);
            assert(rooms_pending(settled) =~= rooms_pending(old(self).rooms@)) by {
                assert forall|r: int| 0 <= r < settled.len() implies rooms_pending(settled)[r]
                    == rooms_pending(old(self).rooms@)[r] by {
                    assert(canvas_kept(old(self).rooms@[r].room, settled[r].room));
                    lemma_pending_kept(
                        old(self).rooms@[r].room.chunk_system.chunks@,
                        settled[r].room.chunk_system.chunks@,
                    );
                }
            }
        }
        closed
    }

    /// Opens the room `room_name` where it is not open, and lets the
    /// session `session_handle` join it under `nick_name`, or a name made
    /// from it. Where the room stands is handed back, and whether it was
    /// opened, and whether the session has joined.
    pub fn add_session_to_room(
        &mut self,
        room_name: &str,
        session_handle: &SessionHandle,
        nick_name: &str,
        outbox: &mut Vec<Delivery>,
    ) -> (found: (usize, bool, bool))
        requires
            old(self).wf(),
        ensures
            final(self).wf(),
            exists|opened: Server|
                {
                    &&& opened.wf()
                    &&& #[trigger] room_opened(*old(self), opened, room_name@, found.0 as int, found.1)
                    &&& session_joined(
                        opened,
                        *final(self),
                        found.0 as int,
                        *session_handle,
                        nick_name@,
                        delivered(old(outbox)@),
                        delivered(final(outbox)@),
                        found.2,
                    )
                },
    {
        let opening = self.get_or_load_room(room_name);
        let ghost opened = *self;
        let joined = self.join_session(opening.0, session_handle, nick_name, outbox);
        let found = (opening.0, opening.1, joined);
        proof {
            assert(opened.wf());
            assert(room_opened(*old(self), opened, room_name@, found.0 as int, found.1));
            assert(session_joined(
                opened,
                *self,
                found.0 as int,
                *session_handle,
                nick_name@,
                delivered(old(outbox)@),
                delivered(outbox@),
                found.2,
            ));
        }
        found
    }
}

/// The canvas of `after` holds the chunks that the canvas of `before`
/// held, with the same pixels, and as many of them are modified.
pub open spec fn canvas_kept(before: RoomInstance, after: RoomInstance) -> bool {
    &&& after.chunk_system.chunks@.len() == before.chunk_system.chunks@.len()
    &&& forall|j: int|
        0 <= j < before.chunk_system.chunks@.len() ==> {
            let was = before.chunk_system.chunks@[j];
            let now = #[trigger] after.chunk_system.chunks@[j];
            &&& now.position == was.position
            &&& now.pixels() == was.pixels()
            &&& now.modified == was.modified
        }
}

/// Where among `rooms` the room that a session is in stands, if the
/// session is in one of them.
pub open spec fn room_at(rooms: Seq<RoomEntry>, name: Option<String>) -> Option<int> {
    match name {
        Some(n) => if room_names(rooms).contains(n@) {
            Some(room_names(rooms).index_of(n@))
        } else {
            None
        },
        None => None,
    }
}

/// What was sent once the session `session` was told `Server closed`:
/// nothing more where it had been told before why it is disconnected.
pub open spec fn kick_sent(
    session: SessionInstance,
    sent_before: Seq<(SessionHandle, Seq<u8>)>,
    handle: SessionHandle,
) -> Seq<(SessionHandle, Seq<u8>)> {
    if session.kicked {
        sent_before
    } else {
        sent_before.push((handle, kick_frame(vstd::utf8::encode_utf8("Server closed"@))))
    }
}

/// What disconnecting the session in the slot `cell`, which is the slot
/// `idx`, does to the rooms and what is sent: an empty slot does nothing;
/// a session is told `Server closed` and, where it is in a room, ends there
/// as `session_left` says, every other room staying as it is.
pub open spec fn one_closed(
    cell: SessionVecCell,
    idx: int,
    rooms_before: Seq<RoomEntry>,
    rooms_after: Seq<RoomEntry>,
    sent_before: Seq<(SessionHandle, Seq<u8>)>,
    sent_after: Seq<(SessionHandle, Seq<u8>)>,
) -> bool {
    match cell.obj {
        None => rooms_after == rooms_before && sent_after == sent_before,
        Some(container) => {
            let handle = SessionHandle { idx: idx as u32, generation: cell.generation };
            match room_at(rooms_before, container.room_name) {
                None => rooms_after == rooms_before && sent_after == kick_sent(
                    container.session,
                    sent_before,
                    handle,
                ),
                Some(r) => {
                    &&& rooms_after.len() == rooms_before.len()
                    &&& forall|k: int|
                        0 <= k < rooms_before.len() && k != r ==> #[trigger] rooms_after[k]
                            == rooms_before[k]
                    &&& rooms_after[r].name == rooms_before[r].name
                    &&& session_left(
                        container.session,
                        rooms_before[r].room,
                        rooms_after[r].room,
                        kick_sent(container.session, sent_before, handle),
                        sent_after,
                        handle,
                    )
                },
            }
        },
    }
}

/// What disconnecting the sessions in the first `n` slots of `cells` does,
/// one after the other in the order of the slots.
pub open spec fn all_closed(
    cells: Seq<SessionVecCell>,
    n: int,
    rooms_before: Seq<RoomEntry>,
    rooms_after: Seq<RoomEntry>,
    sent_before: Seq<(SessionHandle, Seq<u8>)>,
    sent_after: Seq<(SessionHandle, Seq<u8>)>,
) -> bool
    decreases n,
{
    if n <= 0 {
        rooms_after == rooms_before && sent_after == sent_before
    } else {
        exists|rooms_between: Seq<RoomEntry>, sent_between: Seq<(SessionHandle, Seq<u8>)>|
            {
                &&& all_closed(cells, n - 1, rooms_before, rooms_between, sent_before, sent_between)
                &&& #[trigger] one_closed(
                    cells[n - 1],
                    n - 1,
                    rooms_between,
                    rooms_after,
                    sent_between,
                    sent_after,
                )
            }
    }
}

/// Disconnecting one session more is disconnecting the sessions before it
/// and then that one.
pub proof fn lemma_all_closed_step(
    cells: Seq<SessionVecCell>,
    n: int,
    rooms_before: Seq<RoomEntry>,
    rooms_between: Seq<RoomEntry>,
    rooms_after: Seq<RoomEntry>,
    sent_before: Seq<(SessionHandle, Seq<u8>)>,
    sent_between: Seq<(SessionHandle, Seq<u8>)>,
    sent_after: Seq<(SessionHandle, Seq<u8>)>,
)
    requires
        n > 0,
        all_closed(cells, n - 1, rooms_before, rooms_between, sent_before, sent_between),
        one_closed(cells[n - 1], n - 1, rooms_between, rooms_after, sent_between, sent_after),
    ensures
        all_closed(cells, n, rooms_before, rooms_after, sent_before, sent_after),
{
}

/// The room that `find_room` finds is the room that the session is in.
pub proof fn lemma_room_at(rooms: Seq<RoomEntry>, name: Option<String>, found: Option<usize>)
    requires
        room_names(rooms).no_duplicates(),
        match name {
            Some(n) => {
                &&& found is Some <==> room_names(rooms).contains(n@)
                &&& found matches Some(i) ==> i < rooms.len() && rooms[i as int].name@ == n@
            },
            None => found is None,
        },
    ensures
        match found {
            Some(i) => room_at(rooms, name) == Some(i as int),
            None => room_at(rooms, name) is None,
        },
{
    match (name, found) {
        (Some(n), Some(i)) => {
            let j = room_names(rooms).index_of(n@);
            assert(room_names(rooms)[i as int] == n@);
            assert(room_names(rooms)[j] == n@);
        },
        _ => {},
    }
}

/// Every session has gone from the registry: see `kick_all_sessions`.
pub open spec fn sessions_gone(before: Server, after: Server) -> bool {
    &&& after.config == before.config
    &&& after.sessions.vec@.len() == before.sessions.vec@.len()
    &&& forall|i: int|
        0 <= i < before.sessions.vec@.len() ==> (#[trigger] after.sessions.vec@[i]).obj is None
            && after.sessions.vec@[i].generation == before.sessions.vec@[i].generation
    &&& after.rooms@.len() == before.rooms@.len()
    &&& forall|r: int|
        0 <= r < before.rooms@.len() ==> (#[trigger] after.rooms@[r]).name@ == before.rooms@[r].name@
            && canvas_kept(before.rooms@[r].room, after.rooms@[r].room)
}

/// Chunks with the same places, pixels and marks have the same blocks to
/// save.
pub proof fn lemma_pending_kept(a: Seq<ChunkInstance>, b: Seq<ChunkInstance>)
    requires
        a.len() == b.len(),
        forall|j: int|
            0 <= j < a.len() ==> (#[trigger] b[j]).position == a[j].position && b[j].pixels()
                == a[j].pixels() && b[j].modified == a[j].modified,
    ensures
        pending_saves(a) == pending_saves(b),
    decreases a.len(),
{
    if a.len() > 0 {
        assert(b.last() == b[b.len() - 1]);
        assert forall|j: int| 0 <= j < a.drop_last().len() implies (#[trigger] b.drop_last()[j]).position
            == a.drop_last()[j].position && b.drop_last()[j].pixels() == a.drop_last()[j].pixels()
            && b.drop_last()[j].modified == a.drop_last()[j].modified by {
            assert(b.drop_last()[j] == b[j]);
        }
        lemma_pending_kept(a.drop_last(), b.drop_last());
    }
}

/// What `get_or_load_room` does: the room `room_name` stands at `at`,
/// opened just now, as the last of the rooms and empty, where `created`
/// says so.
pub open spec fn room_opened(before: Server, after: Server, room_name: Seq<char>, at: int, created: bool) -> bool {
    &&& after.sessions == before.sessions
    &&& after.config == before.config
    &&& 0 <= at < after.rooms@.len()
    &&& after.rooms@[at].name@ == room_name
    &&& created == !before.has_room(room_name)
    &&& if created {
        &&& at == before.rooms@.len()
        &&& after.rooms@.drop_last() == before.rooms@
        &&& after.rooms@.len() == before.rooms@.len() + 1
        &&& after.rooms@.last().room.sessions@.len() == 0
        &&& after.rooms@.last().room.chunk_system.chunks@.len() == 0
        &&& after.rooms@.last().room.chunk_system.autosave_interval_ms
            == before.config.autosave_interval_ms
    } else {
        after.rooms@ == before.rooms@
    }
}

/// What `join_session` does.
pub open spec fn session_joined(
    before: Server,
    after: Server,
    room_index: int,
    session_handle: SessionHandle,
    nick_name: Seq<char>,
    sent_before: Seq<(SessionHandle, Seq<u8>)>,
    sent_after: Seq<(SessionHandle, Seq<u8>)>,
    joined: bool,
) -> bool {
    &&& joined == (before.sessions.live(session_handle) && !before.rooms@[room_index].room.has_session(
        session_handle,
    ))
    &&& after.config == before.config
    &&& after.rooms@.len() == before.rooms@.len()
    &&& after.sessions.vec@.len() == before.sessions.vec@.len()
    &&& if joined {
        let cell_before = before.sessions.vec@[session_handle.idx as int];
        let cell_after = after.sessions.vec@[session_handle.idx as int];
        &&& forall|i: int|
            0 <= i < before.rooms@.len() && i != room_index ==> #[trigger] after.rooms@[i]
                == before.rooms@[i]
        &&& forall|i: int|
            0 <= i < before.sessions.vec@.len() && i != session_handle.idx
                ==> #[trigger] after.sessions.vec@[i] == before.sessions.vec@[i]
        &&& after.rooms@[room_index].name@ == before.rooms@[room_index].name@
        &&& cell_after.generation == cell_before.generation
        &&& cell_after.obj is Some
        &&& cell_after.obj->Some_0.room_name matches Some(name) && name@
            == before.rooms@[room_index].name@
        &&& room_joined(
            cell_before.obj->Some_0.session,
            cell_after.obj->Some_0.session,
            before.rooms@[room_index].room,
            after.rooms@[room_index].room,
            sent_before,
            sent_after,
            session_handle,
            nick_name,
        )
    } else {
        &&& after.rooms@ == before.rooms@
        &&& after.sessions.vec@ == before.sessions.vec@
        &&& sent_after == sent_before
    }
}

} // verus!
