//! The room registry: the process-wide collection of rooms and the atomic
//! operations on it.
//!
//! The registry is a plain owned value; the caller that serves concurrent
//! commands guards it with one mutual-exclusion lock scoped to the whole
//! collection and calls these operations while holding it. None of the
//! operations performs any I/O: each returns the data the caller needs to
//! notify the affected players after releasing the lock.
//!
//! Rooms are kept as a vector of code/room pairs with unique codes — the
//! vector plays the role of a map keyed by code, and additionally keeps a
//! stable order for the consistent snapshot.

use vstd::prelude::*;
use vstd::pervasive::unreached;
use crate::rooms::{Player, PlayerSlot, Room, RoomStatus};
use crate::utils::{
    assign_characters, assigned_views, clone_opt_string, generate_code, is_code, proposed_views,
    shifted_by,
};

verus! {

/// Why an operation was refused. All of these are expected, recoverable and
/// user-facing; none aborts the process.
#[derive(Clone, Debug, PartialEq)]
pub enum RoomError {
    /// The caller is already a member of another room.
    AlreadyInRoom,
    /// The caller is already a member of the room it tried to join.
    AlreadyMember,
    /// No room carries the given code.
    RoomNotFound,
    /// The caller is not a member of any room.
    NotInRoom,
    /// The room is still waiting; characters cannot be proposed yet.
    NotStarted,
    /// The caller has already proposed a character.
    AlreadyProposed,
    /// The caller hosts no room.
    NotHost,
    /// Fewer than two players are in the room.
    TooFewPlayers,
    /// The room has already left the waiting state.
    AlreadyStarted,
    /// Some players have not proposed a character yet; their usernames are
    /// carried in join order.
    MissingProposals(Vec<String>),
    /// Every candidate room code drawn collided with a live room; the code
    /// space is effectively exhausted.
    NoFreeCode,
}

/// How many candidate codes `create` draws before giving up. With six
/// characters over 62 symbols per code, exhausting this many candidates
/// against a registry of at most a few hundred rooms is practically
/// unreachable.
pub const CODE_RETRY_LIMIT: usize = 64;

/// What `leave` reports back for notification fan-out: the code of the room
/// that was left, the username of the leaver, the remaining member
/// identifiers (empty when the room dissolved), and the identifier of the
/// new host when hosting was handed over.
#[derive(Clone, Debug, PartialEq)]
pub struct LeaveOutcome {
    pub code: String,
    pub username: String,
    pub remaining: Vec<u64>,
    pub new_host: Option<u64>,
}

/// One registry entry: a room under its code.
#[derive(Clone, Debug)]
pub struct RoomEntry {
    pub code: String,
    pub room: Room,
}

/// One line of the assignment that `finalize_assignment` reports back: the
/// player, their username, and the character they must make the others
/// guess.
#[derive(Clone, Debug, PartialEq)]
pub struct AssignedCharacter {
    pub id: u64,
    pub username: String,
    pub character: String,
}

/// What `end` reports back for notification fan-out: the code of the closed
/// room and its member identifiers.
#[derive(Clone, Debug, PartialEq)]
pub struct EndOutcome {
    pub code: String,
    pub players: Vec<u64>,
}

/// A read-only view of one member for status queries.
#[derive(Clone, Debug)]
pub struct PlayerSummary {
    pub id: u64,
    pub username: String,
    pub character: Option<String>,
    pub assigned_character: Option<String>,
}

/// A read-only view of one room for status queries.
#[derive(Clone, Debug)]
pub struct RoomSummary {
    pub code: String,
    pub host: u64,
    pub host_username: String,
    pub status: RoomStatus,
    pub players: Vec<PlayerSummary>,
}

/// The collection of all live rooms, keyed by code.
#[derive(Debug)]
pub struct RoomRegistry {
    pub rooms: Vec<RoomEntry>,
}

impl RoomRegistry {
    /// Codes are unique keys while their rooms exist.
    pub open spec fn codes_unique(self) -> bool {
        forall|i: int, j: int|
            0 <= i < j < self.rooms@.len() ==> self.rooms@[i].code@ != self.rooms@[j].code@
    }

    /// No player identifier is a member of two distinct rooms.
    pub open spec fn rooms_disjoint(self) -> bool {
        forall|i: int, j: int, id: u64|
            #![trigger self.rooms@[i].room.has_player(id), self.rooms@[j].room.has_player(id)]
            0 <= i < self.rooms@.len() && 0 <= j < self.rooms@.len() && i != j
                ==> !(self.rooms@[i].room.has_player(id) && self.rooms@[j].room.has_player(id))
    }

    /// Well-formedness of the whole registry: unique codes, well-formed
    /// rooms, and each player in at most one room. Every operation takes a
    /// well-formed registry to a well-formed registry.
    pub open spec fn wf(self) -> bool {
        &&& self.codes_unique()
        &&& forall|i: int| 0 <= i < self.rooms@.len() ==> (#[trigger] self.rooms@[i].room).wf()
        &&& self.rooms_disjoint()
    }

    /// Whether `id` is a member of some room.
    pub open spec fn is_member(self, id: u64) -> bool {
        exists|i: int| 0 <= i < self.rooms@.len() && (#[trigger] self.rooms@[i].room).has_player(id)
    }

    /// Whether `id` hosts some room.
    pub open spec fn is_host(self, id: u64) -> bool {
        exists|i: int| 0 <= i < self.rooms@.len() && (#[trigger] self.rooms@[i].room).host == id
    }

    /// Whether some room carries `code`.
    pub open spec fn has_code(self, code: Seq<char>) -> bool {
        exists|i: int| 0 <= i < self.rooms@.len() && (#[trigger] self.rooms@[i].code)@ == code
    }

    /// An empty registry.
    pub fn new() -> (r: RoomRegistry)
        ensures
            r.rooms@.len() == 0,
            r.wf(),
    {
        RoomRegistry { rooms: Vec::new() }
    }

    /// Index of the room `id` is a member of, if any.
    fn room_index_of_player(&self, id: u64) -> (r: Option<usize>)
        ensures
            match r {
                Some(i) => i < self.rooms@.len() && self.rooms@[i as int].room.has_player(id),
                None => !self.is_member(id),
            },
    {
        let mut i: usize = 0;
        while i < self.rooms.len()
            invariant
                i <= self.rooms@.len(),
                forall|m: int| 0 <= m < i ==> !(#[trigger] self.rooms@[m].room).has_player(id),
            decreases self.rooms@.len() - i,
        {
            if self.rooms[i].room.index_of(id).is_some() {
                return Some(i);
            }
            i += 1;
        }
        None
    }

    /// Index of the room hosted by `id`, if any.
    fn room_index_of_host(&self, id: u64) -> (r: Option<usize>)
        ensures
            match r {
                Some(i) => i < self.rooms@.len() && self.rooms@[i as int].room.host == id,
                None => !self.is_host(id),
            },
    {
        let mut i: usize = 0;
        while i < self.rooms.len()
            invariant
                i <= self.rooms@.len(),
                forall|m: int| 0 <= m < i ==> (#[trigger] self.rooms@[m].room).host != id,
            decreases self.rooms@.len() - i,
        {
            if self.rooms[i].room.host == id {
                return Some(i);
            }
            i += 1;
        }
        None
    }

    /// The member identifiers of `room`, in join order.
    fn member_ids(room: &Room) -> (r: Vec<u64>)
        ensures
            r@ == room.player_ids(),
    {
        let mut r: Vec<u64> = Vec::new();
        let mut k: usize = 0;
        while k < room.players.len()
            invariant
                k <= room.players@.len(),
                r@.len() == k,
                forall|m: int| 0 <= m < k ==> r@[m] == room.players@[m].id,
            decreases room.players@.len() - k,
        {
            r.push(room.players[k].id);
            k += 1;
        }
        proof {
            assert(r@ =~= room.player_ids());
        }
        r
    }

    /// Index of the room carrying `code`, if any.
    fn room_index_of_code(&self, code: &String) -> (r: Option<usize>)
        ensures
            match r {
                Some(i) => i < self.rooms@.len() && self.rooms@[i as int].code@ == code@,
                None => !self.has_code(code@),
            },
    {
        let mut i: usize = 0;
        while i < self.rooms.len()
            invariant
                i <= self.rooms@.len(),
                forall|m: int| 0 <= m < i ==> (#[trigger] self.rooms@[m].code)@ != code@,
            decreases self.rooms@.len() - i,
        {
            if self.rooms[i].code.eq(code) {
                return Some(i);
            }
            i += 1;
        }
        None
    }

    /// The entry that `create` adds for a fresh room: the given code, the
    /// owner as sole member and host, status `Waiting`.
    pub open spec fn fresh_entry(entry: RoomEntry, code: Seq<char>, owner_id: u64, username: String) -> bool {
        &&& entry.code@ == code
        &&& entry.room.host == owner_id
        &&& entry.room.status is Waiting
        &&& entry.room.players@.len() == 1
        &&& entry.room.players@[0].id == owner_id
        &&& entry.room.players@[0].player.username == username
        &&& entry.room.players@[0].player.character is None
        &&& entry.room.players@[0].player.assigned_character is None
    }

    /// Creates a room under the given candidate code: the owner becomes sole
    /// member and host of a fresh `Waiting` room. Fails with `AlreadyInRoom`
    /// when the owner is already a member of some room, and with `NoFreeCode`
    /// when the candidate code is already taken — an existing room is never
    /// overwritten. `create` draws the candidates and retries on collision.
    pub fn create_with_code(&mut self, code: String, owner_id: u64, username: String) -> (r:
        Result<String, RoomError>)
        requires
            old(self).wf(),
        ensures
            final(self).wf(),
            old(self).is_member(owner_id) ==> (r matches Err(RoomError::AlreadyInRoom)
                && *final(self) == *old(self)),
            !old(self).is_member(owner_id) && old(self).has_code(code@) ==> (r matches Err(
                RoomError::NoFreeCode,
            ) && *final(self) == *old(self)),
            r matches Err(RoomError::AlreadyInRoom) ==> old(self).is_member(owner_id),
            r matches Err(RoomError::NoFreeCode) ==> !old(self).is_member(owner_id)
                && old(self).has_code(code@),
            !old(self).is_member(owner_id) && !old(self).has_code(code@) ==> (r matches Ok(c) && {
                &&& c@ == code@
                &&& final(self).rooms@.len() == old(self).rooms@.len() + 1
                &&& final(self).rooms@.subrange(0, old(self).rooms@.len() as int)
                    == old(self).rooms@
                &&& Self::fresh_entry(final(self).rooms@.last(), code@, owner_id, username)
            }),
    {
        if self.room_index_of_player(owner_id).is_some() {
            return Err(RoomError::AlreadyInRoom);
        }
        if self.room_index_of_code(&code).is_some() {
            return Err(RoomError::NoFreeCode);
        }
        let mut room = Room::new(owner_id);
        room.players.push(
            PlayerSlot {
                id: owner_id,
                player: Player { username, character: None, assigned_character: None },
            },
        );
        let returned = code.clone();
        let ghost old_rooms = self.rooms@;
        self.rooms.push(RoomEntry { code, room });
        proof {
            assert(self.rooms@.subrange(0, old_rooms.len() as int) =~= old_rooms);
            let n = old_rooms.len() as int;
            let entry = self.rooms@.last();
            assert(entry.room.players@[0].id == owner_id);
            assert(entry.room.has_player(owner_id));
            assert forall|id: u64| #[trigger] entry.room.has_player(id) implies id == owner_id by {
                let k = choose|k: int|
                    0 <= k < entry.room.players@.len() && entry.room.players@[k].id == id;
                assert(k == 0);
            }
            assert(self.wf()) by {
                assert forall|i: int, j: int|
                    0 <= i < j < self.rooms@.len() implies self.rooms@[i].code@
                    != self.rooms@[j].code@ by {
                    if j == n {
                        assert(!old(self).has_code(entry.code@));
                    }
                }
                assert forall|i: int, j: int, id: u64|
                    0 <= i < self.rooms@.len() && 0 <= j < self.rooms@.len() && i != j implies !(
                self.rooms@[i].room.has_player(id) && self.rooms@[j].room.has_player(id)) by {
                    if self.rooms@[i].room.has_player(id) && self.rooms@[j].room.has_player(id) {
                        if i == n || j == n {
                            assert(id == owner_id);
                            assert(old(self).is_member(owner_id));
                        }
                    }
                }
            }
        }
        Ok(returned)
    }

    /// Creates a room: a fresh random code, the owner as sole member and
    /// host, status `Waiting`. Fails with `AlreadyInRoom` when the owner is
    /// already a member of some room. Candidate codes are drawn at random
    /// and redrawn on collision, up to `CODE_RETRY_LIMIT` times, so an
    /// existing room is never overwritten; only when every candidate
    /// collided — practically unreachable unless the code space is full —
    /// does it fail with `NoFreeCode` and leave the registry unchanged.
    pub fn create(&mut self, owner_id: u64, username: String) -> (r: Result<String, RoomError>)
        requires
            old(self).wf(),
        ensures
            final(self).wf(),
            old(self).is_member(owner_id) ==> (r matches Err(RoomError::AlreadyInRoom)
                && *final(self) == *old(self)),
            r matches Ok(code) ==> {
                &&& !old(self).is_member(owner_id)
                &&& is_code(code@)
                &&& !old(self).has_code(code@)
                &&& final(self).rooms@.len() == old(self).rooms@.len() + 1
                &&& final(self).rooms@.subrange(0, old(self).rooms@.len() as int)
                    == old(self).rooms@
                &&& Self::fresh_entry(final(self).rooms@.last(), code@, owner_id, username)
            },
            r matches Err(RoomError::AlreadyInRoom) ==> old(self).is_member(owner_id),
            r matches Err(RoomError::NoFreeCode) ==> !old(self).is_member(owner_id)
                && *final(self) == *old(self),
            r matches Ok(_) || r matches Err(RoomError::AlreadyInRoom) || r matches Err(
                RoomError::NoFreeCode,
            ),
    {
        if self.room_index_of_player(owner_id).is_some() {
            return Err(RoomError::AlreadyInRoom);
        }
        let mut attempts: usize = CODE_RETRY_LIMIT;
        while attempts > 0
            invariant
                *self == *old(self),
                old(self).wf(),
                !old(self).is_member(owner_id),
            decreases attempts,
        {
            let code = generate_code();
            match self.create_with_code(code, owner_id, username.clone()) {
                Ok(c) => {
                    return Ok(c);
                },
                Err(_) => {},
            }
            attempts -= 1;
        }
        Err(RoomError::NoFreeCode)
    }

    /// Adds a player to the room carrying `code` and returns the membership
    /// list after the insertion, for notification fan-out by the caller.
    ///
    /// Fails with `AlreadyMember` when the player is already in this very
    /// room, with `AlreadyInRoom` when the player is a member of another
    /// room, and with `RoomNotFound` when no room carries `code`.
    pub fn join(&mut self, code: &String, player_id: u64, username: String) -> (r: Result<
        Vec<u64>,
        RoomError,
    >)
        requires
            old(self).wf(),
        ensures
            final(self).wf(),
            (exists|i: int|
                0 <= i < old(self).rooms@.len()
                    && (#[trigger] old(self).rooms@[i]).room.has_player(player_id)
                    && old(self).rooms@[i].code@ == code@) ==> (r matches Err(
                RoomError::AlreadyMember,
            ) && *final(self) == *old(self)),
            (exists|i: int|
                0 <= i < old(self).rooms@.len()
                    && (#[trigger] old(self).rooms@[i]).room.has_player(player_id)
                    && old(self).rooms@[i].code@ != code@) ==> (r matches Err(
                RoomError::AlreadyInRoom,
            ) && *final(self) == *old(self)),
            !old(self).is_member(player_id) && !old(self).has_code(code@) ==> (r matches Err(
                RoomError::RoomNotFound,
            ) && *final(self) == *old(self)),
            !old(self).is_member(player_id) && old(self).has_code(code@) ==> (r matches Ok(ids)
                && exists|i: int|
                {
                    &&& 0 <= i < old(self).rooms@.len()
                    &&& (#[trigger] old(self).rooms@[i]).code@ == code@
                    &&& final(self).rooms@.len() == old(self).rooms@.len()
                    &&& forall|j: int|
                        0 <= j < old(self).rooms@.len() && j != i ==> final(self).rooms@[j]
                            == old(self).rooms@[j]
                    &&& final(self).rooms@[i].code == old(self).rooms@[i].code
                    &&& final(self).rooms@[i].room.host == old(self).rooms@[i].room.host
                    &&& final(self).rooms@[i].room.status == old(self).rooms@[i].room.status
                    &&& final(self).rooms@[i].room.players@ == old(self).rooms@[i].room.players@.push(
                        (PlayerSlot {
                            id: player_id,
                            player: Player {
                                username: username,
                                character: None,
                                assigned_character: None,
                            },
                        }),
                    )
                    &&& ids@ == old(self).rooms@[i].room.player_ids().push(player_id)
                }),
    {
        match self.room_index_of_player(player_id) {
            Some(i) => {
                if self.rooms[i].code.eq(code) {
                    Err(RoomError::AlreadyMember)
                } else {
                    proof {
                        self.lemma_member_room_unique(player_id);
                    }
                    Err(RoomError::AlreadyInRoom)
                }
            },
            None => {
                match self.room_index_of_code(code) {
                    None => Err(RoomError::RoomNotFound),
                    Some(i) => {
                        let ghost old_rooms = self.rooms@;
                        let mut entry = self.rooms.remove(i);
                        let ghost old_entry = entry;
                        entry.room.players.push(
                            PlayerSlot {
                                id: player_id,
                                player: Player {
                                    username,
                                    character: None,
                                    assigned_character: None,
                                },
                            },
                        );
                        let ids = Self::member_ids(&entry.room);
                        self.rooms.insert(i, entry);
                        proof {
                            assert(self.rooms@ =~= old_rooms.update(i as int, self.rooms@[i as int]));
                            assert(ids@ =~= old_entry.room.player_ids().push(player_id));
                            Self::lemma_wf_after_push(*old(self), *self, i as int, player_id);
                        }
                        Ok(ids)
                    },
                }
            },
        }
    }

    /// Replacing one room by a well-formed room with no new members, under
    /// the same code, keeps the registry well-formed.
    proof fn lemma_wf_after_room_change(pre: RoomRegistry, post: RoomRegistry, i: int)
        requires
            pre.wf(),
            0 <= i < pre.rooms@.len(),
            post.rooms@.len() == pre.rooms@.len(),
            forall|j: int|
                0 <= j < pre.rooms@.len() && j != i ==> post.rooms@[j] == pre.rooms@[j],
            post.rooms@[i].code == pre.rooms@[i].code,
            post.rooms@[i].room.wf(),
            forall|id: u64|
                #[trigger] post.rooms@[i].room.has_player(id) ==> pre.rooms@[i].room.has_player(
                    id,
                ),
        ensures
            post.wf(),
    {
        assert forall|a: int, b: int, id: u64|
            0 <= a < post.rooms@.len() && 0 <= b < post.rooms@.len() && a != b implies !(
        post.rooms@[a].room.has_player(id) && post.rooms@[b].room.has_player(id)) by {
            if post.rooms@[a].room.has_player(id) && post.rooms@[b].room.has_player(id) {
                assert(pre.rooms@[a].room.has_player(id));
                assert(pre.rooms@[b].room.has_player(id));
            }
        }
    }

    /// Removing one room keeps the registry well-formed, and its code is
    /// gone from the registry.
    proof fn lemma_wf_after_remove_room(pre: RoomRegistry, post: RoomRegistry, i: int)
        requires
            pre.wf(),
            0 <= i < pre.rooms@.len(),
            post.rooms@ == pre.rooms@.remove(i),
        ensures
            post.wf(),
            !post.has_code(pre.rooms@[i].code@),
            forall|id: u64| #[trigger] post.is_member(id) ==> pre.is_member(id),
    {
        assert forall|a: int, b: int, id: u64|
            0 <= a < post.rooms@.len() && 0 <= b < post.rooms@.len() && a != b implies !(
        post.rooms@[a].room.has_player(id) && post.rooms@[b].room.has_player(id)) by {
            let fa = if a < i {
                a
            } else {
                a + 1
            };
            let fb = if b < i {
                b
            } else {
                b + 1
            };
            assert(post.rooms@[a] == pre.rooms@[fa]);
            assert(post.rooms@[b] == pre.rooms@[fb]);
        }
        assert forall|j: int| 0 <= j < post.rooms@.len() implies post.rooms@[j].code@
            != pre.rooms@[i].code@ by {
            let fj = if j < i {
                j
            } else {
                j + 1
            };
            assert(post.rooms@[j] == pre.rooms@[fj]);
        }
        assert forall|id: u64| #[trigger] post.is_member(id) implies pre.is_member(id) by {
            let j = choose|j: int|
                0 <= j < post.rooms@.len() && (#[trigger] post.rooms@[j].room).has_player(id);
            let fj = if j < i {
                j
            } else {
                j + 1
            };
            assert(pre.rooms@[fj].room.has_player(id));
        }
        assert forall|j: int| 0 <= j < post.rooms@.len() implies (
        #[trigger] post.rooms@[j].room).wf() by {
            let fj = if j < i {
                j
            } else {
                j + 1
            };
            assert(post.rooms@[j] == pre.rooms@[fj]);
        }
        assert forall|a: int, b: int|
            0 <= a < b < post.rooms@.len() implies post.rooms@[a].code@ != post.rooms@[b].code@ by {
            let fa = if a < i {
                a
            } else {
                a + 1
            };
            let fb = if b < i {
                b
            } else {
                b + 1
            };
            assert(post.rooms@[a] == pre.rooms@[fa]);
            assert(post.rooms@[b] == pre.rooms@[fb]);
        }
    }

    /// Removes `player_id` from its room. If the leaver hosted the room and
    /// others remain, the earliest remaining joiner becomes the new host; if
    /// the room becomes empty, it is deleted and its code is free again.
    /// Fails with `NotInRoom` when the player is not a member of any room.
    pub fn leave(&mut self, player_id: u64) -> (r: Result<LeaveOutcome, RoomError>)
        requires
            old(self).wf(),
        ensures
            final(self).wf(),
            !old(self).is_member(player_id) ==> (r matches Err(RoomError::NotInRoom)
                && *final(self) == *old(self)),
            old(self).is_member(player_id) ==> (r matches Ok(out) && exists|i: int, k: int|
                {
                    &&& 0 <= i < old(self).rooms@.len()
                    &&& 0 <= k < old(self).rooms@[i].room.players@.len()
                    &&& (#[trigger] old(self).rooms@[i].room.players@[k]).id == player_id
                    &&& out.code == old(self).rooms@[i].code
                    &&& out.username == old(self).rooms@[i].room.players@[k].player.username
                    &&& if old(self).rooms@[i].room.players@.len() == 1 {
                        &&& final(self).rooms@ == old(self).rooms@.remove(i)
                        &&& !final(self).has_code(old(self).rooms@[i].code@)
                        &&& out.remaining@.len() == 0
                        &&& out.new_host is None
                    } else {
                        &&& final(self).rooms@.len() == old(self).rooms@.len()
                        &&& forall|j: int|
                            0 <= j < old(self).rooms@.len() && j != i ==> final(self).rooms@[j]
                                == old(self).rooms@[j]
                        &&& final(self).rooms@[i].code == old(self).rooms@[i].code
                        &&& final(self).rooms@[i].room.players@
                            == old(self).rooms@[i].room.players@.remove(k)
                        &&& final(self).rooms@[i].room.status == old(self).rooms@[i].room.status
                        &&& (old(self).rooms@[i].room.host == player_id
                            ==> final(self).rooms@[i].room.host
                                == old(self).rooms@[i].room.players@.remove(k)[0].id
                                && out.new_host == Some(final(self).rooms@[i].room.host))
                        &&& (old(self).rooms@[i].room.host != player_id
                            ==> final(self).rooms@[i].room.host == old(self).rooms@[i].room.host
                                && out.new_host is None)
                        &&& out.remaining@ == final(self).rooms@[i].room.player_ids()
                    }
                }),
    {
        match self.room_index_of_player(player_id) {
            None => Err(RoomError::NotInRoom),
            Some(i) => {
                let ghost old_rooms = self.rooms@;
                let mut entry = self.rooms.remove(i);
                let ghost pre_room = entry.room;
                let k = match entry.room.index_of(player_id) {
                    Some(k) => k,
                    None => unreached(),
                };
                let slot = entry.room.players.remove(k);
                let username = slot.player.username;
                if entry.room.players.len() == 0 {
                    proof {
                        Self::lemma_wf_after_remove_room(*old(self), *self, i as int);
                    }
                    Ok(
                        LeaveOutcome {
                            code: entry.code,
                            username,
                            remaining: Vec::new(),
                            new_host: None,
                        },
                    )
                } else {
                    let new_host = if entry.room.host == player_id {
                        let h = entry.room.players[0].id;
                        entry.room.host = h;
                        Some(h)
                    } else {
                        None
                    };
                    let out_code = entry.code.clone();
                    let remaining = Self::member_ids(&entry.room);
                    self.rooms.insert(i, entry);
                    proof {
                        let ii = i as int;
                        let kk = k as int;
                        assert(self.rooms@ =~= old_rooms.update(ii, self.rooms@[ii]));
                        let post_room = self.rooms@[ii].room;
                        assert forall|id: u64| #[trigger] post_room.has_player(id) implies
                            pre_room.has_player(id) by {
                            let m = choose|m: int|
                                0 <= m < post_room.players@.len() && post_room.players@[m].id
                                    == id;
                            let fm = if m < kk {
                                m
                            } else {
                                m + 1
                            };
                            assert(pre_room.players@[fm].id == id);
                        }
                        assert(post_room.wf()) by {
                            assert forall|a: int, b: int|
                                0 <= a < b < post_room.players@.len() implies
                                post_room.players@[a].id != post_room.players@[b].id by {
                                let fa = if a < kk {
                                    a
                                } else {
                                    a + 1
                                };
                                let fb = if b < kk {
                                    b
                                } else {
                                    b + 1
                                };
                                assert(post_room.players@[a] == pre_room.players@[fa]);
                                assert(post_room.players@[b] == pre_room.players@[fb]);
                            }
                            assert forall|m: int|
                                0 <= m < post_room.players@.len() implies post_room.players@[m]
                                == pre_room.players@[(if m < kk {
                                m
                            } else {
                                m + 1
                            })] by {}
                            if pre_room.host == player_id {
                                assert(post_room.players@[0] == pre_room.players@[(if 0 < kk {
                                    0
                                } else {
                                    1
                                })]);
                                assert(post_room.has_player(post_room.host));
                            } else {
                                let h = choose|m: int|
                                    0 <= m < pre_room.players@.len() && pre_room.players@[m].id
                                        == pre_room.host;
                                assert(pre_room.players@[kk].id == player_id);
                                let g = if h < kk {
                                    h
                                } else {
                                    h - 1
                                };
                                assert(post_room.players@[g] == pre_room.players@[h]);
                                assert(post_room.has_player(post_room.host));
                            }
                        }
                        Self::lemma_wf_after_room_change(*old(self), *self, ii);
                    }
                    Ok(
                        LeaveOutcome {
                            code: out_code,
                            username,
                            remaining,
                            new_host,
                        },
                    )
                }
            },
        }
    }

    /// Law: in a well-formed registry no player identifier appears as a
    /// member of two distinct rooms — the rooms holding a given player
    /// coincide. Every operation keeps the registry well-formed, so this
    /// holds after any sequence of operations.
    pub proof fn lemma_member_room_unique(self, id: u64)
        requires
            self.wf(),
        ensures
            forall|i: int, j: int|
                0 <= i < self.rooms@.len() && 0 <= j < self.rooms@.len()
                    && (#[trigger] self.rooms@[i]).room.has_player(id)
                    && (#[trigger] self.rooms@[j]).room.has_player(id) ==> i == j,
    {
    }

    /// Law: in a well-formed registry a player hosts at most one room,
    /// since the host is always a member of its room.
    pub proof fn lemma_host_room_unique(self, id: u64)
        requires
            self.wf(),
        ensures
            forall|i: int, j: int|
                0 <= i < self.rooms@.len() && 0 <= j < self.rooms@.len()
                    && (#[trigger] self.rooms@[i]).room.host == id
                    && (#[trigger] self.rooms@[j]).room.host == id ==> i == j,
    {
        assert forall|i: int, j: int|
            0 <= i < self.rooms@.len() && 0 <= j < self.rooms@.len()
                && (#[trigger] self.rooms@[i]).room.host == id
                && (#[trigger] self.rooms@[j]).room.host == id implies i == j by {
            assert(self.rooms@[i].room.has_player(id));
            assert(self.rooms@[j].room.has_player(id));
        }
    }

    /// Records the character `player_id` proposes. Fails with `NotInRoom`
    /// when the player is in no room, with `NotStarted` while the room is
    /// still waiting, and with `AlreadyProposed` when the player has
    /// proposed before; a proposal is recorded at most once per player.
    pub fn set_character(&mut self, player_id: u64, name: String) -> (r: Result<(), RoomError>)
        requires
            old(self).wf(),
        ensures
            final(self).wf(),
            !old(self).is_member(player_id) ==> (r matches Err(RoomError::NotInRoom)
                && *final(self) == *old(self)),
            (exists|i: int, k: int|
                Self::member_slot(*old(self), i, k, player_id)
                    && old(self).rooms@[i].room.status is Waiting) ==> (r matches Err(
                RoomError::NotStarted,
            ) && *final(self) == *old(self)),
            (exists|i: int, k: int|
                Self::member_slot(*old(self), i, k, player_id)
                    && old(self).rooms@[i].room.status is Started
                    && old(self).rooms@[i].room.players@[k].player.character is Some) ==> (
            r matches Err(RoomError::AlreadyProposed) && *final(self) == *old(self)),
            (exists|i: int, k: int|
                Self::member_slot(*old(self), i, k, player_id)
                    && old(self).rooms@[i].room.status is Started
                    && old(self).rooms@[i].room.players@[k].player.character is None) ==> (
            r is Ok && exists|i: int, k: int|
                {
                    &&& Self::member_slot(*old(self), i, k, player_id)
                    &&& final(self).rooms@.len() == old(self).rooms@.len()
                    &&& forall|j: int|
                        0 <= j < old(self).rooms@.len() && j != i ==> final(self).rooms@[j]
                            == old(self).rooms@[j]
                    &&& final(self).rooms@[i].code == old(self).rooms@[i].code
                    &&& final(self).rooms@[i].room.host == old(self).rooms@[i].room.host
                    &&& final(self).rooms@[i].room.status == old(self).rooms@[i].room.status
                    &&& final(self).rooms@[i].room.players@
                        == old(self).rooms@[i].room.players@.update(
                        k,
                        (PlayerSlot {
                            id: player_id,
                            player: Player {
                                username: old(self).rooms@[i].room.players@[k].player.username,
                                character: Some(name),
                                assigned_character: old(self).rooms@[i].room.players@[k].player.assigned_character,
                            },
                        }),
                    )
                }),
    {
        proof {
            old(self).lemma_member_room_unique(player_id);
        }
        match self.room_index_of_player(player_id) {
            None => Err(RoomError::NotInRoom),
            Some(i) => {
                let k = match self.rooms[i].room.index_of(player_id) {
                    Some(k) => k,
                    None => unreached(),
                };
                if self.rooms[i].room.status == RoomStatus::Waiting {
                    return Err(RoomError::NotStarted);
                }
                if self.rooms[i].room.players[k].player.character.is_some() {
                    return Err(RoomError::AlreadyProposed);
                }
                let ghost old_rooms = self.rooms@;
                let ghost pre_room = self.rooms@[i as int].room;
                let mut entry = self.rooms.remove(i);
                let slot = entry.room.players.remove(k);
                entry.room.players.insert(
                    k,
                    PlayerSlot {
                        id: slot.id,
                        player: Player {
                            username: slot.player.username,
                            character: Some(name),
                            assigned_character: slot.player.assigned_character,
                        },
                    },
                );
                self.rooms.insert(i, entry);
                proof {
                    let ii = i as int;
                    let kk = k as int;
                    assert(self.rooms@ =~= old_rooms.update(ii, self.rooms@[ii]));
                    let post_room = self.rooms@[ii].room;
                    assert(post_room.players@ =~= pre_room.players@.update(
                        kk,
                        post_room.players@[kk],
                    ));
                    assert forall|id: u64| #[trigger] post_room.has_player(id) implies
                        pre_room.has_player(id) by {
                        let m = choose|m: int|
                            0 <= m < post_room.players@.len() && post_room.players@[m].id == id;
                        assert(pre_room.players@[m].id == id);
                    }
                    assert(post_room.wf()) by {
                        let h = choose|m: int|
                            0 <= m < pre_room.players@.len() && pre_room.players@[m].id
                                == pre_room.host;
                        assert(post_room.players@[h].id == post_room.host);
                    }
                    Self::lemma_wf_after_room_change(*old(self), *self, ii);
                }
                Ok(())
            },
        }
    }

    /// The slot `k` of room `i` belongs to `id`.
    pub open spec fn member_slot(reg: RoomRegistry, i: int, k: int, id: u64) -> bool {
        &&& 0 <= i < reg.rooms@.len()
        &&& 0 <= k < reg.rooms@[i].room.players@.len()
        &&& reg.rooms@[i].room.players@[k].id == id
    }

    /// Moves the room hosted by `host_id` from `Waiting` to `Started`, after
    /// which the members propose their characters; returns the member
    /// identifiers for notification fan-out. Fails with `NotHost` when the
    /// caller hosts no room, with `TooFewPlayers` for fewer than two members,
    /// and with `AlreadyStarted` when the room has left `Waiting` before.
    pub fn begin_preparation(&mut self, host_id: u64) -> (r: Result<Vec<u64>, RoomError>)
        requires
            old(self).wf(),
        ensures
            final(self).wf(),
            !old(self).is_host(host_id) ==> (r matches Err(RoomError::NotHost)
                && *final(self) == *old(self)),
            (exists|i: int|
                Self::host_room(*old(self), i, host_id)
                    && old(self).rooms@[i].room.players@.len() < 2) ==> (r matches Err(
                RoomError::TooFewPlayers,
            ) && *final(self) == *old(self)),
            (exists|i: int|
                Self::host_room(*old(self), i, host_id)
                    && old(self).rooms@[i].room.players@.len() >= 2
                    && old(self).rooms@[i].room.status is Started) ==> (r matches Err(
                RoomError::AlreadyStarted,
            ) && *final(self) == *old(self)),
            (exists|i: int|
                Self::host_room(*old(self), i, host_id)
                    && old(self).rooms@[i].room.players@.len() >= 2
                    && old(self).rooms@[i].room.status is Waiting) ==> (r matches Ok(ids)
                && exists|i: int|
                {
                    &&& Self::host_room(*old(self), i, host_id)
                    &&& final(self).rooms@.len() == old(self).rooms@.len()
                    &&& forall|j: int|
                        0 <= j < old(self).rooms@.len() && j != i ==> final(self).rooms@[j]
                            == old(self).rooms@[j]
                    &&& final(self).rooms@[i].code == old(self).rooms@[i].code
                    &&& final(self).rooms@[i].room.host == old(self).rooms@[i].room.host
                    &&& final(self).rooms@[i].room.players@ == old(self).rooms@[i].room.players@
                    &&& final(self).rooms@[i].room.status is Started
                    &&& ids@ == old(self).rooms@[i].room.player_ids()
                }),
    {
        proof {
            old(self).lemma_host_room_unique(host_id);
        }
        match self.room_index_of_host(host_id) {
            None => Err(RoomError::NotHost),
            Some(i) => {
                if self.rooms[i].room.players.len() < 2 {
                    return Err(RoomError::TooFewPlayers);
                }
                if self.rooms[i].room.status == RoomStatus::Started {
                    return Err(RoomError::AlreadyStarted);
                }
                let ghost old_rooms = self.rooms@;
                let ghost pre_room = self.rooms@[i as int].room;
                let mut entry = self.rooms.remove(i);
                entry.room.status = RoomStatus::Started;
                let ids = Self::member_ids(&entry.room);
                self.rooms.insert(i, entry);
                proof {
                    let ii = i as int;
                    assert(self.rooms@ =~= old_rooms.update(ii, self.rooms@[ii]));
                    let post_room = self.rooms@[ii].room;
                    assert(post_room.players@ == pre_room.players@);
                    assert forall|id: u64| #[trigger] post_room.has_player(id) implies
                        pre_room.has_player(id) by {
                        let m = choose|m: int|
                            0 <= m < post_room.players@.len() && post_room.players@[m].id == id;
                        assert(pre_room.players@[m].id == id);
                    }
                    assert(post_room.wf()) by {
                        let h = choose|m: int|
                            0 <= m < pre_room.players@.len() && pre_room.players@[m].id
                                == pre_room.host;
                        assert(post_room.players@[h].id == post_room.host);
                    }
                    Self::lemma_wf_after_room_change(*old(self), *self, ii);
                }
                Ok(ids)
            },
        }
    }

    /// Room `i` is hosted by `id`.
    pub open spec fn host_room(reg: RoomRegistry, i: int, id: u64) -> bool {
        &&& 0 <= i < reg.rooms@.len()
        &&& reg.rooms@[i].room.host == id
    }

    /// The usernames of the members of `room` that have not proposed yet,
    /// in join order.
    fn missing_names(room: &Room) -> (r: Vec<String>)
        ensures
            r@ == Room::missing_usernames(room.players@),
    {
        let mut r: Vec<String> = Vec::new();
        let mut k: usize = 0;
        while k < room.players.len()
            invariant
                k <= room.players@.len(),
                r@ == Room::missing_usernames(room.players@.take(k as int)),
            decreases room.players@.len() - k,
        {
            proof {
                assert(room.players@.take(k + 1).drop_last() =~= room.players@.take(k as int));
                assert(room.players@.take(k + 1).last() == room.players@[k as int]);
            }
            if room.players[k].player.character.is_none() {
                r.push(room.players[k].player.username.clone());
            }
            k += 1;
        }
        proof {
            assert(room.players@.take(room.players@.len() as int) =~= room.players@);
        }
        r
    }

    /// The per-player assignment of `room`, once every slot carries an
    /// assigned character.
    fn assigned_list(room: &Room) -> (r: Vec<AssignedCharacter>)
        requires
            forall|k: int|
                0 <= k < room.players@.len() ==> (
                #[trigger] room.players@[k]).player.assigned_character is Some,
        ensures
            r@.len() == room.players@.len(),
            forall|q: int|
                0 <= q < r@.len() ==> (#[trigger] r@[q]).id == room.players@[q].id
                    && r@[q].username == room.players@[q].player.username
                    && r@[q].character == room.players@[q].player.assigned_character.unwrap(),
    {
        let mut r: Vec<AssignedCharacter> = Vec::new();
        let mut q: usize = 0;
        while q < room.players.len()
            invariant
                q <= room.players@.len(),
                r@.len() == q,
                forall|k: int|
                    0 <= k < room.players@.len() ==> (
                    #[trigger] room.players@[k]).player.assigned_character is Some,
                forall|m: int|
                    0 <= m < q ==> (#[trigger] r@[m]).id == room.players@[m].id
                        && r@[m].username == room.players@[m].player.username
                        && r@[m].character == room.players@[m].player.assigned_character.unwrap(),
            decreases room.players@.len() - q,
        {
            let slot = &room.players[q];
            let character = match &slot.player.assigned_character {
                Some(c) => c.clone(),
                None => unreached(),
            };
            r.push(
                AssignedCharacter {
                    id: slot.id,
                    username: slot.player.username.clone(),
                    character,
                },
            );
            q += 1;
        }
        r
    }

    /// Assigns the proposed characters of the room hosted by `host_id`:
    /// every member is assigned the character proposed by the member a
    /// random number of places further along the join order, wrapping
    /// around, so nobody is handed their own proposal. Returns the
    /// per-player assignment for notification fan-out.
    ///
    /// Fails with `NotHost` when the caller hosts no room, with
    /// `TooFewPlayers` for fewer than two members — the assignment needs a
    /// second player to rotate onto — and with `MissingProposals` (carrying
    /// the usernames still owed, in join order) when some member has not
    /// proposed yet.
    pub fn finalize_assignment(&mut self, host_id: u64) -> (r: Result<
        Vec<AssignedCharacter>,
        RoomError,
    >)
        requires
            old(self).wf(),
        ensures
            final(self).wf(),
            !old(self).is_host(host_id) ==> (r matches Err(RoomError::NotHost)
                && *final(self) == *old(self)),
            (exists|i: int|
                Self::host_room(*old(self), i, host_id)
                    && old(self).rooms@[i].room.players@.len() < 2) ==> (r matches Err(
                RoomError::TooFewPlayers,
            ) && *final(self) == *old(self)),
            (exists|i: int|
                Self::host_room(*old(self), i, host_id)
                    && old(self).rooms@[i].room.players@.len() >= 2 && !old(self).rooms@[i].room.all_proposed()) ==> (r matches Err(
                RoomError::MissingProposals(names),
            ) && *final(self) == *old(self) && exists|i: int|
                Self::host_room(*old(self), i, host_id) && names@ == Room::missing_usernames(
                    old(self).rooms@[i].room.players@,
                )),
            (exists|i: int|
                Self::host_room(*old(self), i, host_id)
                    && old(self).rooms@[i].room.players@.len() >= 2 && old(self).rooms@[i].room.all_proposed()) ==> (r matches Ok(out) && exists|i: int, s: int|
                {
                    &&& Self::host_room(*old(self), i, host_id)
                    &&& 1 <= s < old(self).rooms@[i].room.players@.len()
                    &&& final(self).rooms@.len() == old(self).rooms@.len()
                    &&& forall|j: int|
                        0 <= j < old(self).rooms@.len() && j != i ==> final(self).rooms@[j]
                            == old(self).rooms@[j]
                    &&& final(self).rooms@[i].code == old(self).rooms@[i].code
                    &&& shifted_by(old(self).rooms@[i].room, final(self).rooms@[i].room, s)
                    &&& assigned_views(final(self).rooms@[i].room).to_multiset()
                        == proposed_views(old(self).rooms@[i].room).to_multiset()
                    &&& out@.len() == old(self).rooms@[i].room.players@.len()
                    &&& forall|q: int|
                        0 <= q < out@.len() ==> (#[trigger] out@[q]).id == old(self).rooms@[i].room.players@[q].id && out@[q].username == old(self).rooms@[i].room.players@[q].player.username && out@[q].character
                            == final(self).rooms@[i].room.players@[q].player.assigned_character.unwrap()
                }),
    {
        proof {
            old(self).lemma_host_room_unique(host_id);
        }
        match self.room_index_of_host(host_id) {
            None => Err(RoomError::NotHost),
            Some(i) => {
                if self.rooms[i].room.players.len() < 2 {
                    return Err(RoomError::TooFewPlayers);
                }
                let missing = Self::missing_names(&self.rooms[i].room);
                proof {
                    Room::lemma_missing_usernames_empty(self.rooms@[i as int].room.players@);
                }
                if missing.len() > 0 {
                    return Err(RoomError::MissingProposals(missing));
                }
                let ghost old_rooms = self.rooms@;
                let ghost pre_room = self.rooms@[i as int].room;
                let mut entry = self.rooms.remove(i);
                assign_characters(&mut entry.room);
                proof {
                    let s = choose|s: int|
                        1 <= s < pre_room.players@.len() && shifted_by(pre_room, entry.room, s);
                    assert forall|k: int| 0 <= k < entry.room.players@.len() implies (
                    #[trigger] entry.room.players@[k]).player.assigned_character is Some by {
                        assert(shifted_by(pre_room, entry.room, s));
                    }
                }
                let out = Self::assigned_list(&entry.room);
                self.rooms.insert(i, entry);
                proof {
                    let ii = i as int;
                    assert(self.rooms@ =~= old_rooms.update(ii, self.rooms@[ii]));
                    let post_room = self.rooms@[ii].room;
                    let s = choose|s: int|
                        1 <= s < pre_room.players@.len() && shifted_by(pre_room, post_room, s);
                    assert forall|id: u64| #[trigger] post_room.has_player(id) implies
                        pre_room.has_player(id) by {
                        let m = choose|m: int|
                            0 <= m < post_room.players@.len() && post_room.players@[m].id == id;
                        assert(pre_room.players@[m].id == id);
                    }
                    assert(post_room.wf()) by {
                        let h = choose|m: int|
                            0 <= m < pre_room.players@.len() && pre_room.players@[m].id
                                == pre_room.host;
                        assert(post_room.players@[h].id == post_room.host);
                        assert(pre_room.players@[0].player.character is Some);
                        assert(pre_room.status is Started);
                    }
                    Self::lemma_wf_after_room_change(*old(self), *self, ii);
                    crate::utils::lemma_shifted_assignment_permutes(pre_room, post_room, s);
                }
                Ok(out)
            },
        }
    }

    /// Closes the room hosted by `host_id` and returns its code and member
    /// identifiers for notification fan-out; the code is free again. Fails
    /// with `NotHost` when the caller hosts no room.
    pub fn end(&mut self, host_id: u64) -> (r: Result<EndOutcome, RoomError>)
        requires
            old(self).wf(),
        ensures
            final(self).wf(),
            !old(self).is_host(host_id) ==> (r matches Err(RoomError::NotHost)
                && *final(self) == *old(self)),
            old(self).is_host(host_id) ==> (r matches Ok(out) && exists|i: int|
                {
                    &&& Self::host_room(*old(self), i, host_id)
                    &&& final(self).rooms@ == old(self).rooms@.remove(i)
                    &&& !final(self).has_code(old(self).rooms@[i].code@)
                    &&& out.code == old(self).rooms@[i].code
                    &&& out.players@ == old(self).rooms@[i].room.player_ids()
                }),
    {
        proof {
            old(self).lemma_host_room_unique(host_id);
        }
        match self.room_index_of_host(host_id) {
            None => Err(RoomError::NotHost),
            Some(i) => {
                let entry = self.rooms.remove(i);
                let players = Self::member_ids(&entry.room);
                proof {
                    let ii = i as int;
                    Self::lemma_wf_after_remove_room(*old(self), *self, ii);
                    assert(Self::host_room(*old(self), ii, host_id));
                    assert(self.rooms@ == old(self).rooms@.remove(ii));
                    assert(entry == old(self).rooms@[ii]);
                    assert(players@ == old(self).rooms@[ii].room.player_ids());
                }
                Ok(EndOutcome { code: entry.code, players })
            },
        }
    }

    /// A read-only view of one room for status queries.
    fn summarize_room(entry: &RoomEntry) -> (s: RoomSummary)
        requires
            entry.room.wf(),
        ensures
            Self::summary_of(s, *entry),
    {
        let mut players: Vec<PlayerSummary> = Vec::new();
        let mut k: usize = 0;
        while k < entry.room.players.len()
            invariant
                k <= entry.room.players@.len(),
                players@.len() == k,
                forall|m: int|
                    0 <= m < k ==> (#[trigger] players@[m]).id == entry.room.players@[m].id
                        && players@[m].username == entry.room.players@[m].player.username
                        && players@[m].character == entry.room.players@[m].player.character
                        && players@[m].assigned_character
                        == entry.room.players@[m].player.assigned_character,
            decreases entry.room.players@.len() - k,
        {
            let slot = &entry.room.players[k];
            players.push(
                PlayerSummary {
                    id: slot.id,
                    username: slot.player.username.clone(),
                    character: clone_opt_string(&slot.player.character),
                    assigned_character: clone_opt_string(&slot.player.assigned_character),
                },
            );
            k += 1;
        }
        let host_username = match entry.room.index_of(entry.room.host) {
            Some(h) => entry.room.players[h].player.username.clone(),
            None => unreached(),
        };
        RoomSummary {
            code: entry.code.clone(),
            host: entry.room.host,
            host_username,
            status: entry.room.status,
            players,
        }
    }

    /// `s` reports exactly the code, host, status and members of `entry`.
    pub open spec fn summary_of(s: RoomSummary, entry: RoomEntry) -> bool {
        &&& s.code == entry.code
        &&& s.host == entry.room.host
        &&& s.status == entry.room.status
        &&& s.players@.len() == entry.room.players@.len()
        &&& forall|k: int|
            0 <= k < s.players@.len() ==> (#[trigger] s.players@[k]).id
                == entry.room.players@[k].id && s.players@[k].username
                == entry.room.players@[k].player.username && s.players@[k].character
                == entry.room.players@[k].player.character && s.players@[k].assigned_character
                == entry.room.players@[k].player.assigned_character
        &&& exists|k: int|
            0 <= k < entry.room.players@.len() && (#[trigger] entry.room.players@[k]).id
                == entry.room.host && s.host_username == entry.room.players@[k].player.username
    }

    /// A consistent read-only view of every room, for status queries: one
    /// summary per room, in registry order.
    pub fn snapshot(&self) -> (r: Vec<RoomSummary>)
        requires
            self.wf(),
        ensures
            r@.len() == self.rooms@.len(),
            forall|i: int|
                0 <= i < r@.len() ==> Self::summary_of(#[trigger] r@[i], self.rooms@[i]),
    {
        let mut r: Vec<RoomSummary> = Vec::new();
        let mut i: usize = 0;
        while i < self.rooms.len()
            invariant
                self.wf(),
                i <= self.rooms@.len(),
                r@.len() == i,
                forall|m: int|
                    0 <= m < i ==> Self::summary_of(#[trigger] r@[m], self.rooms@[m]),
            decreases self.rooms@.len() - i,
        {
            r.push(Self::summarize_room(&self.rooms[i]));
            i += 1;
        }
        r
    }

    /// Pushing a fresh member onto one room of a well-formed registry keeps
    /// the registry well-formed.
    proof fn lemma_wf_after_push(pre: RoomRegistry, post: RoomRegistry, i: int, player_id: u64)
        requires
            pre.wf(),
            !pre.is_member(player_id),
            0 <= i < pre.rooms@.len(),
            post.rooms@.len() == pre.rooms@.len(),
            forall|j: int|
                0 <= j < pre.rooms@.len() && j != i ==> post.rooms@[j] == pre.rooms@[j],
            post.rooms@[i].code == pre.rooms@[i].code,
            post.rooms@[i].room.host == pre.rooms@[i].room.host,
            post.rooms@[i].room.status == pre.rooms@[i].room.status,
            post.rooms@[i].room.players@.len() == pre.rooms@[i].room.players@.len() + 1,
            forall|k: int|
                0 <= k < pre.rooms@[i].room.players@.len() ==> post.rooms@[i].room.players@[k]
                    == pre.rooms@[i].room.players@[k],
            post.rooms@[i].room.players@.last().id == player_id,
            post.rooms@[i].room.players@.last().player.character is None,
            post.rooms@[i].room.players@.last().player.assigned_character is None,
        ensures
            post.wf(),
    {
        let pre_room = pre.rooms@[i].room;
        let post_room = post.rooms@[i].room;
        let n = pre_room.players@.len() as int;
        assert forall|id: u64| #[trigger] post_room.has_player(id) implies pre_room.has_player(id)
            || id == player_id by {
            let k = choose|k: int|
                0 <= k < post_room.players@.len() && post_room.players@[k].id == id;
            if k < n {
                assert(pre_room.players@[k].id == id);
            }
        }
        assert(post_room.wf()) by {
            assert forall|a: int, b: int| 0 <= a < b < post_room.players@.len() implies
                post_room.players@[a].id != post_room.players@[b].id by {
                if b == n {
                    if post_room.players@[a].id == player_id {
                        assert(pre_room.has_player(player_id));
                        assert(pre.is_member(player_id));
                    }
                }
            }
            assert(pre_room.has_player(pre_room.host));
            let k = choose|k: int|
                0 <= k < pre_room.players@.len() && pre_room.players@[k].id == pre_room.host;
            assert(post_room.players@[k].id == post_room.host);
        }
        assert forall|j: int, id: u64|
            0 <= j < post.rooms@.len() && j != i && #[trigger] post.rooms@[j].room.has_player(id)
            implies !post_room.has_player(id) by {
            if post_room.has_player(id) {
                if id == player_id {
                    assert(pre.is_member(player_id));
                } else {
                    assert(pre_room.has_player(id));
                }
            }
        }
        assert(post.wf()) by {
            assert forall|a: int, b: int, id: u64|
                0 <= a < post.rooms@.len() && 0 <= b < post.rooms@.len() && a != b implies !(
            post.rooms@[a].room.has_player(id) && post.rooms@[b].room.has_player(id)) by {
                if post.rooms@[a].room.has_player(id) && post.rooms@[b].room.has_player(id) {
                    assert(a == i || b == i || (post.rooms@[a].room.has_player(id)
                        && post.rooms@[b].room.has_player(id) && a != i && b != i));
                }
            }
        }
    }
}

} // verus!
