//! Room-code generation and the character-assignment algorithm.
//!
//! A room code is a short string over ASCII letters and digits, drawn at
//! random; the registry retries until the code is free. The assignment step
//! rotates the proposed characters by a random non-zero shift over the join
//! order, so nobody receives the character they proposed themselves.

use rand::Rng;
use vstd::prelude::*;
use vstd::pervasive::unreached;
use vstd::seq_lib::lemma_multiset_commutative;
use crate::rooms::{Player, PlayerSlot, Room};

verus! {

/// Number of characters in a room code.
pub const CODE_LEN: usize = 6;

/// A character that may appear in a room code: an ASCII letter or digit.
pub open spec fn is_code_char(c: char) -> bool {
    ||| 'a' <= c <= 'z'
    ||| 'A' <= c <= 'Z'
    ||| '0' <= c <= '9'
}

/// A well-formed room code: fixed length, letters and digits only.
pub open spec fn is_code(s: Seq<char>) -> bool {
    s.len() == CODE_LEN && forall|i: int| 0 <= i < s.len() ==> is_code_char(s[i])
}

/// Draws a fresh candidate room code.
///
/// Relies on rand: `thread_rng().sample_iter(&Alphanumeric)` yields bytes
/// drawn from the 62 ASCII letters and digits, so taking `CODE_LEN` of them
/// gives a string of exactly `CODE_LEN` such characters. The draw is random,
/// so nothing more is promised of the result; the registry itself checks the
/// code against the rooms it holds.
#[verifier::external_body]
pub fn generate_code() -> (r: String)
    ensures
        is_code(r@),
{
    rand::thread_rng()
        .sample_iter(&rand::distributions::Alphanumeric)
        .take(CODE_LEN)
        .map(char::from)
        .collect()
}

/// Draws the rotation distance for one assignment round.
///
/// Relies on rand: `Rng::gen_range(1..n)` returns a value of the range
/// `[1, n)` and panics only when the range is empty, which `2 <= n` rules
/// out. The draw is random, so only the bounds are promised.
#[verifier::external_body]
fn random_shift(n: usize) -> (r: usize)
    requires
        2 <= n,
    ensures
        1 <= r < n,
{
    rand::thread_rng().gen_range(1..n)
}

/// Position that the slot at `q` reads its character from, under a rotation
/// by `s` over `n` slots: `q + s`, wrapped around the end.
pub open spec fn shift_index(q: int, s: int, n: int) -> int {
    if q + s < n {
        q + s
    } else {
        q + s - n
    }
}

/// `b` is `a` with every slot's `assigned_character` filled from the slot
/// `s` places further along the join order (wrapping around), and everything
/// else unchanged.
pub open spec fn shifted_by(a: Room, b: Room, s: int) -> bool {
    &&& b.host == a.host
    &&& b.status == a.status
    &&& b.players@.len() == a.players@.len()
    &&& forall|q: int| 0 <= q < a.players@.len() ==> slot_shifted(a, #[trigger] b.players@[q], q, s)
}

/// The single-slot part of [`shifted_by`]: the slot at `q` keeps its
/// identifier, username and proposal, and is assigned the character proposed
/// at `shift_index(q, s, n)`.
pub open spec fn slot_shifted(a: Room, slot: PlayerSlot, q: int, s: int) -> bool {
    let n = a.players@.len() as int;
    &&& slot.id == a.players@[q].id
    &&& slot.player.username == a.players@[q].player.username
    &&& slot.player.character == a.players@[q].player.character
    &&& slot.player.assigned_character == Some(
        a.players@[shift_index(q, s, n)].player.character.unwrap(),
    )
}

/// The proposed characters of a room, by join order, as sequences of
/// characters.
pub open spec fn proposed_views(r: Room) -> Seq<Seq<char>> {
    r.players@.map_values(|sl: PlayerSlot| sl.player.character.unwrap()@)
}

/// The assigned characters of a room, by join order, as sequences of
/// characters.
pub open spec fn assigned_views(r: Room) -> Seq<Seq<char>> {
    r.players@.map_values(|sl: PlayerSlot| sl.player.assigned_character.unwrap()@)
}

pub(crate) fn clone_opt_string(o: &Option<String>) -> (r: Option<String>)
    ensures
        r == *o,
{
    match o {
        Some(s) => Some(s.clone()),
        None => None,
    }
}

/// Fills every slot's `assigned_character` from the slot `shift` places
/// further along the join order.
fn apply_shift(room: &mut Room, shift: usize)
    requires
        2 <= old(room).players@.len(),
        1 <= shift < old(room).players@.len(),
        old(room).all_proposed(),
    ensures
        shifted_by(*old(room), *final(room), shift as int),
{
    let n = room.players.len();
    let mut chars: Vec<String> = Vec::new();
    let mut k: usize = 0;
    while k < n
        invariant
            *room == *old(room),
            n == room.players@.len(),
            old(room).all_proposed(),
            k <= n,
            chars@.len() == k,
            forall|m: int| 0 <= m < k ==> chars@[m] == room.players@[m].player.character.unwrap(),
        decreases n - k,
    {
        match &room.players[k].player.character {
            Some(c) => {
                chars.push(c.clone());
            },
            None => {
                unreached::<()>()
            },
        }
        k += 1;
    }
    let mut new_players: Vec<PlayerSlot> = Vec::new();
    let mut q: usize = 0;
    while q < n
        invariant
            *room == *old(room),
            n == room.players@.len(),
            2 <= n,
            1 <= shift < n,
            old(room).all_proposed(),
            chars@.len() == n,
            forall|m: int| 0 <= m < n ==> chars@[m] == room.players@[m].player.character.unwrap(),
            q <= n,
            new_players@.len() == q,
            forall|m: int|
                0 <= m < q ==> slot_shifted(*old(room), #[trigger] new_players@[m], m, shift as int),
        decreases n - q,
    {
        let idx = if q >= n - shift {
            q - (n - shift)
        } else {
            q + shift
        };
        assert(idx == shift_index(q as int, shift as int, n as int));
        let slot = &room.players[q];
        new_players.push(PlayerSlot {
            id: slot.id,
            player: Player {
                username: slot.player.username.clone(),
                character: clone_opt_string(&slot.player.character),
                assigned_character: Some(chars[idx].clone()),
            },
        });
        q += 1;
    }
    room.players = new_players;
}

/// Assigns to every player of `room` the character proposed by the player a
/// random number of places further along the join order, wrapping around.
///
/// The rotation distance is drawn from `[1, N)` for `N` players, so no
/// player is ever assigned the character they proposed themselves (see
/// [`lemma_shifted_assignment_is_derangement`]); only rotations are reachable,
/// not every fixed-point-free rearrangement.
pub fn assign_characters(room: &mut Room)
    requires
        2 <= old(room).players@.len(),
        old(room).all_proposed(),
    ensures
        exists|s: int|
            1 <= s < old(room).players@.len() && shifted_by(*old(room), *final(room), s),
{
    let shift = random_shift(room.players.len());
    apply_shift(room, shift);
}

/// Law: a shifted assignment hands out exactly the proposed characters,
/// each once — as a multiset, the assigned characters equal the proposed
/// ones, so the assignment is a bijection onto them.
pub proof fn lemma_shifted_assignment_permutes(a: Room, b: Room, s: int)
    requires
        a.all_proposed(),
        1 <= s < a.players@.len(),
        shifted_by(a, b, s),
    ensures
        assigned_views(b).to_multiset() == proposed_views(a).to_multiset(),
{
    broadcast use vstd::multiset::group_multiset_axioms;

    let n = a.players@.len() as int;
    let p = proposed_views(a);
    let tail = p.subrange(s, n);
    let head = p.subrange(0, s);
    assert(assigned_views(b) =~= tail + head) by {
        assert forall|m: int| 0 <= m < n implies assigned_views(b)[m] == (tail + head)[m] by {
            assert(b.players@[m].player.assigned_character == Some(
                a.players@[shift_index(m, s, n)].player.character.unwrap(),
            ));
        }
    }
    assert(p =~= head + tail);
    lemma_multiset_commutative(tail, head);
    lemma_multiset_commutative(head, tail);
    assert(assigned_views(b).to_multiset() =~= proposed_views(a).to_multiset());
}

/// Law: a shifted assignment is a derangement — when the proposed characters
/// are pairwise distinct, no player is assigned the character they proposed
/// themselves. (With duplicate proposals the assigned string can coincide
/// with the player's own, which is why distinctness is asked for.)
pub proof fn lemma_shifted_assignment_is_derangement(a: Room, b: Room, s: int)
    requires
        a.all_proposed(),
        1 <= s < a.players@.len(),
        shifted_by(a, b, s),
        forall|i: int, j: int|
            0 <= i < j < a.players@.len() ==> proposed_views(a)[i] != proposed_views(a)[j],
    ensures
        forall|q: int|
            0 <= q < b.players@.len() ==> assigned_views(b)[q] != proposed_views(a)[q],
{
    let n = a.players@.len() as int;
    assert forall|q: int| 0 <= q < n implies assigned_views(b)[q] != proposed_views(a)[q] by {
        let m = shift_index(q, s, n);
        assert(0 <= m < n && m != q);
        assert(assigned_views(b)[q] == proposed_views(a)[m]);
        if m < q {
            assert(proposed_views(a)[m] != proposed_views(a)[q]);
        } else {
            assert(proposed_views(a)[q] != proposed_views(a)[m]);
        }
    }
}

} // verus!
