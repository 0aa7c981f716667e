//! A room: the sessions that share one canvas, and the canvas.

use vstd::prelude::*;
use vstd::string::StringExecFns;
use crate::chunk::chunk::{delivered, Delivery};
use crate::chunk::system::{chunk_positions, pending_saves, uppers, ChunkSave, ChunkSystem};
use crate::id::SessionHandle;
use crate::packet_server::Packet;
use crate::preview_system::{enqueued_all, PreviewSystem};
use crate::seq_facts::{lemma_filter_keeps, lemma_filter_none, lemma_filter_step};
use crate::text::{decimal_text, number_to_string};
use crate::tool::brush::BrushShapes;

verus! {

/// What a room knows of one of its sessions.
pub struct RoomSessionData {
    pub handle: SessionHandle,
    pub nick_name: String,
    pub cursor_x: i32,
    pub cursor_y: i32,
}

/// A room.
pub struct RoomInstance {
    pub sessions: Vec<RoomSessionData>,
    pub chunk_system: ChunkSystem,
    pub brush_shapes: BrushShapes,
    pub preview_system: PreviewSystem,
    pub cleaned_up: bool,
}

/// The handles of `sessions`, in order.
pub open spec fn roster_handles(sessions: Seq<RoomSessionData>) -> Seq<SessionHandle> {
    sessions.map_values(|s: RoomSessionData| s.handle)
}

/// The frames that carry `packet` to every session of `sessions` but
/// `except`.
pub open spec fn broadcast_frames(
    sessions: Seq<RoomSessionData>,
    packet: Seq<u8>,
    except: Option<SessionHandle>,
) -> Seq<(SessionHandle, Seq<u8>)> {
    sessions.filter(|s: RoomSessionData| except != Some(s.handle)).map_values(
        |s: RoomSessionData| (s.handle, packet),
    )
}

/// The sessions of `sessions` but `except`, in order.
pub open spec fn others_than(sessions: Seq<RoomSessionData>, except: Option<SessionHandle>) -> Seq<
    RoomSessionData,
> {
    sessions.filter(|s: RoomSessionData| except != Some(s.handle))
}

/// The sessions that stand at `places` of `sessions`.
pub open spec fn sessions_at(sessions: Seq<RoomSessionData>, places: Seq<usize>) -> Seq<
    RoomSessionData,
> {
    places.map_values(|i: usize| sessions[i as int])
}

/// The handle behind an optional reference.
pub open spec fn handle_of(except: Option<&SessionHandle>) -> Option<SessionHandle> {
    match except {
        Some(h) => Some(*h),
        None => None,
    }
}

/// The name `current` as taken for the `n`-th time: the name itself, then
/// the name with ` (2)`, ` (3)` and so on behind it.
pub open spec fn numbered_name(current: Seq<char>, n: u64) -> Seq<char> {
    if n <= 1 {
        current
    } else {
        current + " ("@ + decimal_text(n) + ")"@
    }
}

/// A session of `sessions` other than `except` is called `name`.
pub open spec fn name_taken(sessions: Seq<RoomSessionData>, name: Seq<char>, except: SessionHandle) -> bool {
    exists|i: int|
        0 <= i < sessions.len() && (#[trigger] sessions[i]).handle != except && sessions[i].nick_name@
            == name
}

/// The sessions `sessions`, with the cursor of the session `handle` at
/// `(x, y)`.
pub open spec fn with_cursor(sessions: Seq<RoomSessionData>, handle: SessionHandle, x: i32, y: i32) -> Seq<
    RoomSessionData,
> {
    sessions.map_values(
        |s: RoomSessionData|
            if s.handle == handle {
                RoomSessionData { cursor_x: x, cursor_y: y, ..s }
            } else {
                s
            },
    )
}


/// The names `current` as taken for the first time, the second, and so on
/// up to the `n`-th.
pub open spec fn numbered_names(current: Seq<char>, n: nat) -> Seq<Seq<char>> {
    Seq::new(n, |i: int| numbered_name(current, (i + 1) as u64))
}

/// Two different numbers make two different names.
pub proof fn lemma_numbered_name_injective(current: Seq<char>, a: u64, b: u64)
    requires
        a >= 1,
        b >= 1,
        numbered_name(current, a) == numbered_name(current, b),
    ensures
        a == b,
{
    reveal_strlit(" (");
    reveal_strlit(")");
    crate::text::lemma_decimal_text_len(a);
    crate::text::lemma_decimal_text_len(b);
    let na = numbered_name(current, a);
    let nb = numbered_name(current, b);
    if a > 1 && b > 1 {
        let da = decimal_text(a);
        let db = decimal_text(b);
        assert(na.len() == current.len() + 2 + da.len() + 1);
        assert(nb.len() == current.len() + 2 + db.len() + 1);
        assert(na.subrange(current.len() as int + 2, na.len() - 1) =~= da);
        assert(nb.subrange(current.len() as int + 2, nb.len() - 1) =~= db);
        crate::text::lemma_decimal_text_injective(a, b);
    } else if a > 1 {
        assert(na.len() == current.len() + 2 + decimal_text(a).len() + 1);
        assert(nb.len() == current.len());
    } else if b > 1 {
        assert(nb.len() == current.len() + 2 + decimal_text(b).len() + 1);
        assert(na.len() == current.len());
    }
}

/// No more different names are taken than there are sessions.
pub proof fn lemma_taken_names_count(
    sessions: Seq<RoomSessionData>,
    names: Seq<Seq<char>>,
    except: SessionHandle,
)
    requires
        names.no_duplicates(),
        forall|i: int| 0 <= i < names.len() ==> name_taken(sessions, #[trigger] names[i], except),
    ensures
        names.len() <= sessions.len(),
    decreases sessions.len(),
{
    if names.len() == 0 {
    } else if sessions.len() == 0 {
        assert(name_taken(sessions, names[0], except));
    } else {
        let front = sessions.drop_last();
        let nm = sessions.last().nick_name@;
        if names.contains(nm) {
            let j = names.index_of(nm);
            assert(names[j] == nm);
            let rest = Seq::new(
                (names.len() - 1) as nat,
                |i: int|
                    if i < j {
                        names[i]
                    } else {
                        names[i + 1]
                    },
            );
            assert forall|i: int| 0 <= i < rest.len() implies name_taken(
                front,
                #[trigger] rest[i],
                except,
            ) by {
                let src = if i < j {
                    i
                } else {
                    i + 1
                };
                assert(rest[i] == names[src]);
                assert(names[src] != nm);
                assert(name_taken(sessions, names[src], except));
                let w = choose|w: int|
                    0 <= w < sessions.len() && (#[trigger] sessions[w]).handle != except
                        && sessions[w].nick_name@ == names[src];
                assert(w < sessions.len() - 1);
                assert(front[w] == sessions[w]);
            }
            assert forall|x: int, y: int| 0 <= x < rest.len() && 0 <= y < rest.len() && x != y implies rest[x]
                != rest[y] by {
                let sx = if x < j {
                    x
                } else {
                    x + 1
                };
                let sy = if y < j {
                    y
                } else {
                    y + 1
                };
                assert(rest[x] == names[sx]);
                assert(rest[y] == names[sy]);
            }
            lemma_taken_names_count(front, rest, except);
        } else {
            assert forall|i: int| 0 <= i < names.len() implies name_taken(
                front,
                #[trigger] names[i],
                except,
            ) by {
                assert(names.contains(names[i]));
                assert(name_taken(sessions, names[i], except));
                let w = choose|w: int|
                    0 <= w < sessions.len() && (#[trigger] sessions[w]).handle != except
                        && sessions[w].nick_name@ == names[i];
                assert(w < sessions.len() - 1);
                assert(front[w] == sessions[w]);
            }
            lemma_taken_names_count(front, names, except);
        }
    }
}

/// Where the first `n` numbered names are all taken, there are at least
/// `n` sessions.
pub proof fn lemma_numbered_names_taken(
    sessions: Seq<RoomSessionData>,
    current: Seq<char>,
    except: SessionHandle,
    n: nat,
)
    requires
        n <= u64::MAX,
        forall|m: u64|
            1 <= m <= n ==> name_taken(sessions, #[trigger] numbered_name(current, m), except),
    ensures
        n <= sessions.len(),
{
    let names = numbered_names(current, n);
    assert forall|x: int, y: int| 0 <= x < names.len() && 0 <= y < names.len() && x != y implies names[x]
        != names[y] by {
        if names[x] == names[y] {
            lemma_numbered_name_injective(current, (x + 1) as u64, (y + 1) as u64);
        }
    }
    assert forall|i: int| 0 <= i < names.len() implies name_taken(
        sessions,
        #[trigger] names[i],
        except,
    ) by {
        assert(names[i] == numbered_name(current, (i + 1) as u64));
    }
    lemma_taken_names_count(sessions, names, except);
}

impl RoomInstance {
    /// Notes where the cursor of the session `handle` stands now.
    pub fn move_cursor(&mut self, handle: &SessionHandle, x: i32, y: i32)
        requires
            old(self).wf(),
        ensures
            final(self).wf(),
            final(self).sessions@ == with_cursor(old(self).sessions@, *handle, x, y),
            final(self).chunk_system == old(self).chunk_system,
            final(self).brush_shapes == old(self).brush_shapes,
            final(self).preview_system == old(self).preview_system,
            final(self).cleaned_up == old(self).cleaned_up,
    {
        match self.find_session(handle) {
            Some(i) => {
                self.sessions[i].cursor_x = x;
                self.sessions[i].cursor_y = y;
                proof {
                    assert(self.sessions@ =~= with_cursor(old(self).sessions@, *handle, x, y)) by {
                        assert forall|j: int| 0 <= j < old(self).sessions@.len() && j != i implies old(
                            self,
                        ).sessions@[j].handle != *handle by {
                            assert(roster_handles(old(self).sessions@)[j] == old(self).sessions@[j].handle);
                            assert(roster_handles(old(self).sessions@)[i as int] == *handle);
                        }
                    }
                    assert(roster_handles(self.sessions@) =~= roster_handles(old(self).sessions@));
                }
            },
            None => {
                proof {
                    assert(self.sessions@ =~= with_cursor(old(self).sessions@, *handle, x, y)) by {
                        assert forall|j: int| 0 <= j < old(self).sessions@.len() implies old(
                            self,
                        ).sessions@[j].handle != *handle by {
                            assert(roster_handles(old(self).sessions@)[j] == old(self).sessions@[j].handle);
                        }
                    }
                }
            },
        }
    }

    /// The canvas is consistent and no session is listed twice.
    pub open spec fn wf(&self) -> bool {
        &&& self.chunk_system.wf()
        &&& self.preview_system.wf()
        &&& self.preview_system.layers@.len() > 0
        &&& self.brush_shapes.wf()
        &&& roster_handles(self.sessions@).no_duplicates()
    }

    /// The session `handle` is listed.
    pub open spec fn has_session(&self, handle: SessionHandle) -> bool {
        roster_handles(self.sessions@).contains(handle)
    }

    /// An empty room, whose canvas was last saved now, by the system clock.
    pub fn new(autosave_interval_ms: u32) -> (room: Self)
        ensures
            room.wf(),
            room.sessions@.len() == 0,
            room.chunk_system.chunks@.len() == 0,
            room.chunk_system.autosave_interval_ms == autosave_interval_ms,
            !room.cleaned_up,
    {
        let room = RoomInstance {
            sessions: Vec::new(),
            chunk_system: ChunkSystem::new(autosave_interval_ms),
            brush_shapes: BrushShapes::new(),
            preview_system: PreviewSystem::new(),
            cleaned_up: false,
        };
        assert(roster_handles(room.sessions@) =~= Seq::<SessionHandle>::empty());
        room
    }

    /// Finds the session `handle` in the list.
    pub fn find_session(&self, handle: &SessionHandle) -> (found: Option<usize>)
        ensures
            found is Some <==> self.has_session(*handle),
            found matches Some(i) ==> i < self.sessions@.len() && self.sessions@[i as int].handle
                == *handle,
    {
        let mut i: usize = 0;
        while i < self.sessions.len()
            invariant
                i <= self.sessions@.len(),
                forall|j: int| 0 <= j < i ==> (#[trigger] self.sessions@[j]).handle != *handle,
            decreases self.sessions@.len() - i,
        {
            if self.sessions[i].handle == *handle {
                assert(roster_handles(self.sessions@)[i as int] == *handle);
                return Some(i);
            }
            i += 1;
        }
        assert forall|j: int| 0 <= j < roster_handles(self.sessions@).len() implies roster_handles(
            self.sessions@,
        )[j] != *handle by {
            assert(roster_handles(self.sessions@)[j] == self.sessions@[j].handle);
        }
        None
    }

    /// Lists the session `session_handle` under `nick_name`, unless it is
    /// listed already.
    pub fn add_session(&mut self, session_handle: &SessionHandle, nick_name: String)
        requires
            old(self).wf(),
        ensures
            final(self).wf(),
            final(self).has_session(*session_handle),
            old(self).has_session(*session_handle) ==> final(self).sessions@ == old(self).sessions@,
            !old(self).has_session(*session_handle) ==> {
                &&& final(self).sessions@.len() == old(self).sessions@.len() + 1
                &&& final(self).sessions@.drop_last() == old(self).sessions@
                &&& final(self).sessions@.last().handle == *session_handle
                &&& final(self).sessions@.last().nick_name@ == nick_name@
            },
            final(self).chunk_system == old(self).chunk_system,
            final(self).preview_system == old(self).preview_system,
            final(self).brush_shapes == old(self).brush_shapes,
            final(self).cleaned_up == old(self).cleaned_up,
    {
        if self.find_session(session_handle).is_some() {
            return ;
        }
        let ghost before = self.sessions@;
        self.sessions.push(
            RoomSessionData { handle: *session_handle, nick_name, cursor_x: 0, cursor_y: 0 },
        );
        proof {
            let hs = roster_handles(self.sessions@);
            let old_hs = roster_handles(before);
            assert(self.sessions@.drop_last() =~= before);
            assert(hs[hs.len() - 1] == *session_handle);
            assert forall|a: int, b: int| 0 <= a < hs.len() && 0 <= b < hs.len() && a != b implies hs[a]
                != hs[b] by {
                if a < old_hs.len() {
                    assert(hs[a] == old_hs[a]);
                }
                if b < old_hs.len() {
                    assert(hs[b] == old_hs[b]);
                }
            }
        }
    }

    /// Takes the session `session_handle` off the list.
    pub fn remove_session(&mut self, session_handle: &SessionHandle)
        requires
            old(self).wf(),
        ensures
            final(self).wf(),
            !final(self).has_session(*session_handle),
            final(self).sessions@ == old(self).sessions@.filter(
                |s: RoomSessionData| s.handle != *session_handle,
            ),
            final(self).chunk_system == old(self).chunk_system,
            final(self).preview_system == old(self).preview_system,
            final(self).brush_shapes == old(self).brush_shapes,
            final(self).cleaned_up == old(self).cleaned_up,
    {
        let ghost original = self.sessions@;
        let ghost keep = |s: RoomSessionData| s.handle != *session_handle;
        let ghost mut done: int = 0;
        let mut i: usize = 0;
        proof {
            lemma_filter_none(original, keep);
            assert(original.skip(0) =~= original);
        }
        while i < self.sessions.len()
            invariant
                0 <= done <= original.len(),
                i <= self.sessions@.len(),
                i == original.take(done).filter(keep).len(),
                self.sessions@ == original.take(done).filter(keep) + original.skip(done),
                keep == |s: RoomSessionData| s.handle != *session_handle,
                self.chunk_system == old(self).chunk_system,
                self.preview_system == old(self).preview_system,
                self.brush_shapes == old(self).brush_shapes,
                self.cleaned_up == old(self).cleaned_up,
            decreases original.len() - done,
        {
            proof {
                assert(self.sessions@[i as int] == original.skip(done)[0]);
                lemma_filter_step(original, keep, done);
            }
            if self.sessions[i].handle == *session_handle {
                self.sessions.remove(i);
                proof {
                    assert(self.sessions@ =~= original.take(done + 1).filter(keep) + original.skip(
                        done + 1,
                    ));
                    done = done + 1;
                }
            } else {
                proof {
                    assert(self.sessions@ =~= original.take(done + 1).filter(keep) + original.skip(
                        done + 1,
                    ));
                    done = done + 1;
                }
                i += 1;
            }
        }
        proof {
            assert(original.take(done) =~= original);
            assert(self.sessions@ =~= original.filter(keep));
            lemma_filter_keeps(original, keep, |s: RoomSessionData| s.handle);
            let hs = roster_handles(self.sessions@);
            assert forall|j: int| 0 <= j < hs.len() implies hs[j] != *session_handle by {
                assert(keep(self.sessions@[j]));
            }
        }
    }

    /// Whether the room has no sessions left.
    pub fn wants_to_be_removed(&self) -> (empty: bool)
        ensures
            empty == (self.sessions@.len() == 0),
    {
        self.sessions.len() == 0
    }

    /// Sends `packet` to every session of the room but `except`.
    pub fn broadcast(&self, packet: &Packet, except: Option<&SessionHandle>, outbox: &mut Vec<Delivery>)
        ensures
            delivered(final(outbox)@) == delivered(old(outbox)@) + broadcast_frames(
                self.sessions@,
                packet@,
                handle_of(except),
            ),
    {
        let ghost skip = handle_of(except);
        let ghost keep = |s: RoomSessionData| skip != Some(s.handle);
        let ghost sent = delivered(outbox@);
        let mut i: usize = 0;
        proof {
            lemma_filter_none(self.sessions@, keep);
            assert(sent + broadcast_frames(self.sessions@.take(0), packet@, skip) =~= sent);
        }
        while i < self.sessions.len()
            invariant
                i <= self.sessions@.len(),
                skip == handle_of(except),
                keep == |s: RoomSessionData| skip != Some(s.handle),
                delivered(outbox@) == sent + broadcast_frames(
                    self.sessions@.take(i as int),
                    packet@,
                    skip,
                ),
            decreases self.sessions@.len() - i,
        {
            let handle = self.sessions[i].handle;
            let excepted = match except {
                Some(h) => *h == handle,
                None => false,
            };
            proof {
                lemma_filter_step(self.sessions@, keep, i as int);
            }
            if !excepted {
                let ghost had = delivered(outbox@);
                outbox.push(Delivery { to: handle, packet: packet.duplicate() });
                proof {
                    assert(delivered(outbox@) =~= had.push((handle, packet@)));
                    assert(broadcast_frames(self.sessions@.take(i as int + 1), packet@, skip)
                        =~= broadcast_frames(self.sessions@.take(i as int), packet@, skip).push(
                        (handle, packet@),
                    ));
                }
            }
            i += 1;
        }
        assert(self.sessions@.take(self.sessions@.len() as int) =~= self.sessions@);
    }

    /// Where in the list the sessions of the room but `except` stand, in
    /// order.
    pub fn get_all_sessions(&self, except: Option<&SessionHandle>) -> (others: Vec<usize>)
        ensures
            forall|k: int| 0 <= k < others@.len() ==> (#[trigger] others@[k]) < self.sessions@.len(),
            sessions_at(self.sessions@, others@) == others_than(self.sessions@, handle_of(except)),
    {
        let ghost skip = handle_of(except);
        let ghost keep = |s: RoomSessionData| skip != Some(s.handle);
        let mut others: Vec<usize> = Vec::new();
        let mut i: usize = 0;
        proof {
            lemma_filter_none(self.sessions@, keep);
            assert(sessions_at(self.sessions@, others@) =~= others_than(
                self.sessions@.take(0),
                skip,
            ));
        }
        while i < self.sessions.len()
            invariant
                i <= self.sessions@.len(),
                skip == handle_of(except),
                keep == |s: RoomSessionData| skip != Some(s.handle),
                forall|k: int| 0 <= k < others@.len() ==> (#[trigger] others@[k]) < self.sessions@.len(),
                sessions_at(self.sessions@, others@) == others_than(
                    self.sessions@.take(i as int),
                    skip,
                ),
            decreases self.sessions@.len() - i,
        {
            let excepted = match except {
                Some(h) => *h == self.sessions[i].handle,
                None => false,
            };
            proof {
                lemma_filter_step(self.sessions@, keep, i as int);
            }
            if !excepted {
                let ghost had = sessions_at(self.sessions@, others@);
                others.push(i);
                proof {
                    assert(sessions_at(self.sessions@, others@) =~= had.push(
                        self.sessions@[i as int],
                    ));
                }
            }
            i += 1;
        }
        assert(self.sessions@.take(self.sessions@.len() as int) =~= self.sessions@);
        others
    }

    /// The name `current` as taken for the `n`-th time.
    pub fn gen_suitable_name(current: &str, occupied_num: &Option<u32>) -> (name: String)
        ensures
            name@ == match occupied_num {
                Some(num) => current@ + " ("@ + decimal_text(*num as u64) + ")"@,
                None => current@,
            },
    {
        match occupied_num {
            Some(num) => {
                let mut name = String::from_str(current);
                name.append(" (");
                let digits = number_to_string(*num as u64);
                name.append(digits.as_str());
                name.append(")");
                name
            },
            None => String::from_str(current),
        }
    }

    /// Whether a session other than `except` is called `name`.
    pub fn is_name_taken(&self, name: &String, except: &SessionHandle) -> (taken: bool)
        ensures
            taken == name_taken(self.sessions@, name@, *except),
    {
        let mut i: usize = 0;
        while i < self.sessions.len()
            invariant
                i <= self.sessions@.len(),
                forall|j: int|
                    0 <= j < i ==> !((#[trigger] self.sessions@[j]).handle != *except
                        && self.sessions@[j].nick_name@ == name@),
            decreases self.sessions@.len() - i,
        {
            if self.sessions[i].handle != *except && self.sessions[i].nick_name == *name {
                return true;
            }
            i += 1;
        }
        false
    }

    /// The name `current` as taken for the `n`-th time.
    fn numbered(current: &str, n: u64) -> (name: String)
        ensures
            name@ == numbered_name(current@, n),
    {
        if n <= 1 {
            String::from_str(current)
        } else {
            let mut name = String::from_str(current);
            name.append(" (");
            let digits = number_to_string(n);
            name.append(digits.as_str());
            name.append(")");
            name
        }
    }

    /// The name under which a session may enter that asks for `current`:
    /// `current` itself, or, where another session than `except` has that
    /// name, `current` with the least number from 2 on behind it that makes
    /// a name which no other session has. Among as many names as there are
    /// sessions, and one more, one is free.
    pub fn get_suitable_nick_name(&self, current: &str, except: &SessionHandle) -> (name: String)
        ensures
            exists|n: u64|
                {
                    &&& 1 <= n <= self.sessions@.len() + 1
                    &&& name@ == #[trigger] numbered_name(current@, n)
                    &&& self.sessions@.len() < u64::MAX ==> !name_taken(
                        self.sessions@,
                        name@,
                        *except,
                    )
                    &&& forall|m: u64|
                        1 <= m < n ==> name_taken(
                            self.sessions@,
                            #[trigger] numbered_name(current@, m),
                            *except,
                        )
                },
    {
        let mut n: u64 = 1;
        loop
            invariant
                1 <= n,
                forall|m: u64|
                    1 <= m < n ==> name_taken(
                        self.sessions@,
                        #[trigger] numbered_name(current@, m),
                        *except,
                    ),
            decreases self.sessions@.len() + 1 - n,
        {
            proof {
                lemma_numbered_names_taken(self.sessions@, current@, *except, (n - 1) as nat);
            }
            let candidate = Self::numbered(current, n);
            let taken = self.is_name_taken(&candidate, except);
            if !taken {
                return candidate;
            }
            proof {
                lemma_numbered_names_taken(self.sessions@, current@, *except, n as nat);
            }
            if n == 0xFFFF_FFFF_FFFF_FFFF {
                return candidate;
            }
            n += 1;
        }
    }

    /// Hands every modified chunk over to storage before the room closes;
    /// the tiles above them wait to be rendered.
    pub fn cleanup(&mut self) -> (saves: Vec<ChunkSave>)
        requires
            old(self).wf(),
        ensures
            final(self).wf(),
            final(self).cleaned_up,
            final(self).chunk_system.cleaned_up,
            crate::chunk::system::saved(saves@) == crate::chunk::system::pending_saves(
                old(self).chunk_system.chunks@,
            ),
            final(self).sessions == old(self).sessions,
            final(self).brush_shapes == old(self).brush_shapes,
            chunk_positions(final(self).chunk_system.chunks@) == chunk_positions(
                old(self).chunk_system.chunks@,
            ),
            forall|j: int|
                0 <= j < old(self).chunk_system.chunks@.len() ==> {
                    &&& !(#[trigger] final(self).chunk_system.chunks@[j]).modified
                    &&& final(self).chunk_system.chunks@[j].pixels() == old(
                        self,
                    ).chunk_system.chunks@[j].pixels()
                },
            final(self).preview_system.update_queue_cache@.len() == 0,
            final(self).preview_system.layers@.len() == old(self).preview_system.layers@.len(),
            final(self).preview_system.layers@[0].update_queue@ == enqueued_all(
                old(self).preview_system.layers@[0].update_queue@,
                old(self).preview_system.update_queue_cache@ + uppers(
                    pending_saves(old(self).chunk_system.chunks@),
                ),
                (old(self).preview_system.update_queue_cache@ + uppers(
                    pending_saves(old(self).chunk_system.chunks@),
                )).len() as int,
            ),
            forall|i: int|
                1 <= i < old(self).preview_system.layers@.len()
                    ==> #[trigger] final(self).preview_system.layers@[i] == old(
                    self,
                ).preview_system.layers@[i],
    {
        let saves = self.chunk_system.cleanup(&mut self.preview_system.update_queue_cache);
        self.preview_system.process_queue();
        self.cleaned_up = true;
        saves
    }
}

} // verus!
