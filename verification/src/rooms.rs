//! Data model for game rooms: players, membership slots, room status and the
//! room itself, together with the well-formedness conditions that every
//! registry operation preserves.

use vstd::prelude::*;

verus! {

/// One participant of a room.
///
/// `character` is the character the player proposed for others to guess (set
/// at most once, only after the game has started); `assigned_character` is the
/// character this player must make the others guess, filled in by the
/// assignment step.
#[derive(Clone, Debug)]
pub struct Player {
    pub username: String,
    pub character: Option<String>,
    pub assigned_character: Option<String>,
}

/// A membership slot: a player identifier together with its player record.
/// Slots are kept in join order, which makes host hand-over deterministic.
#[derive(Clone, Debug)]
pub struct PlayerSlot {
    pub id: u64,
    pub player: Player,
}

/// Lifecycle state of a room.
#[derive(Clone, Copy, Debug, PartialEq, Eq, Structural)]
pub enum RoomStatus {
    Waiting,
    Started,
}

/// One game lobby: the host's identifier, the members in join order, and the
/// lifecycle status.
#[derive(Clone, Debug)]
pub struct Room {
    pub host: u64,
    pub players: Vec<PlayerSlot>,
    pub status: RoomStatus,
}

impl Room {
    /// The member identifiers, in join order.
    pub open spec fn player_ids(self) -> Seq<u64> {
        self.players@.map_values(|s: PlayerSlot| s.id)
    }

    /// Whether `id` is a member of this room.
    pub open spec fn has_player(self, id: u64) -> bool {
        exists|k: int| 0 <= k < self.players@.len() && self.players@[k].id == id
    }

    /// No player identifier occupies two slots.
    pub open spec fn ids_unique(self) -> bool {
        forall|i: int, j: int|
            0 <= i < j < self.players@.len() ==> self.players@[i].id != self.players@[j].id
    }

    /// Every member has proposed a character.
    pub open spec fn all_proposed(self) -> bool {
        forall|k: int| 0 <= k < self.players@.len() ==> self.players@[k].player.character is Some
    }

    /// Well-formedness of a room held by the registry: member identifiers are
    /// unique, the host is a member, characters are proposed only once the
    /// game has started, and a character is assigned only to a player that
    /// has proposed one.
    pub open spec fn wf(self) -> bool {
        &&& self.ids_unique()
        &&& self.has_player(self.host)
        &&& forall|k: int|
            0 <= k < self.players@.len() && self.players@[k].player.character is Some
                ==> self.status is Started
        &&& forall|k: int|
            0 <= k < self.players@.len() && self.players@[k].player.assigned_character is Some
                ==> self.players@[k].player.character is Some
    }

    /// A fresh room: the given host, no members yet, waiting for players.
    /// The creating operation inserts the host as the first member.
    pub fn new(host: u64) -> (r: Room)
        ensures
            r.host == host,
            r.players@.len() == 0,
            r.status is Waiting,
    {
        Room { host, players: Vec::new(), status: RoomStatus::Waiting }
    }

    /// The usernames of the members that have not proposed a character yet,
    /// in join order.
    pub open spec fn missing_usernames(players: Seq<PlayerSlot>) -> Seq<String>
        decreases players.len(),
    {
        if players.len() == 0 {
            Seq::empty()
        } else {
            let rest = Room::missing_usernames(players.drop_last());
            if players.last().player.character is None {
                rest.push(players.last().player.username)
            } else {
                rest
            }
        }
    }

    /// No username is missing exactly when every member has proposed.
    pub proof fn lemma_missing_usernames_empty(players: Seq<PlayerSlot>)
        ensures
            (Room::missing_usernames(players).len() == 0) <==> (forall|k: int|
                0 <= k < players.len() ==> (#[trigger] players[k]).player.character is Some),
        decreases players.len(),
    {
        if players.len() > 0 {
            Room::lemma_missing_usernames_empty(players.drop_last());
            if players.last().player.character is None {
                assert(players[players.len() - 1].player.character is None);
            } else {
                assert(forall|k: int|
                    0 <= k < players.len() - 1 ==> players.drop_last()[k] == players[k]);
            }
        }
    }

    /// Index of the slot holding `id`, if `id` is a member.
    pub fn index_of(&self, id: u64) -> (r: Option<usize>)
        ensures
            match r {
                Some(k) => k < self.players@.len() && self.players@[k as int].id == id,
                None => !self.has_player(id),
            },
    {
        let mut k: usize = 0;
        while k < self.players.len()
            invariant
                k <= self.players@.len(),
                forall|m: int| 0 <= m < k ==> self.players@[m].id != id,
            decreases self.players@.len() - k,
        {
            if self.players[k].id == id {
                return Some(k);
            }
            k += 1;
        }
        None
    }
}

} // verus!
