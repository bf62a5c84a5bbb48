use guess_who::registry::{RoomError, RoomRegistry};
use guess_who::rooms::RoomStatus;

fn s(x: &str) -> String {
    x.to_string()
}

/// Creates a two-player room (host 1 "anna", member 2 "bruno") and returns
/// its code.
fn two_player_room(reg: &mut RoomRegistry) -> String {
    let code = reg.create(1, s("anna")).unwrap();
    reg.join(&code, 2, s("bruno")).unwrap();
    code
}

#[test]
fn create_returns_six_alphanumeric_chars() {
    let mut reg = RoomRegistry::new();
    let code = reg.create(1, s("anna")).unwrap();
    assert_eq!(code.chars().count(), 6);
    assert!(code.chars().all(|c| c.is_ascii_alphanumeric()));
}

#[test]
fn created_room_waits_with_host_as_sole_member() {
    let mut reg = RoomRegistry::new();
    let code = reg.create(1, s("anna")).unwrap();
    let snap = reg.snapshot();
    assert_eq!(snap.len(), 1);
    assert_eq!(snap[0].code, code);
    assert_eq!(snap[0].host, 1);
    assert_eq!(snap[0].host_username, s("anna"));
    assert_eq!(snap[0].status, RoomStatus::Waiting);
    assert_eq!(snap[0].players.len(), 1);
    assert_eq!(snap[0].players[0].id, 1);
    assert_eq!(snap[0].players[0].username, s("anna"));
    assert_eq!(snap[0].players[0].character, None);
    assert_eq!(snap[0].players[0].assigned_character, None);
}

#[test]
fn distinct_rooms_get_distinct_codes() {
    let mut reg = RoomRegistry::new();
    let mut codes: Vec<String> = Vec::new();
    for owner in 1..=20u64 {
        codes.push(reg.create(owner, format!("player{}", owner)).unwrap());
    }
    for a in 0..codes.len() {
        for b in (a + 1)..codes.len() {
            assert_ne!(codes[a], codes[b]);
        }
    }
}

#[test]
fn create_while_in_room_fails_already_in_room() {
    // A creates room C1; A attempts to create room C2 -> AlreadyInRoom.
    let mut reg = RoomRegistry::new();
    let first = reg.create(1, s("anna")).unwrap();
    assert_eq!(reg.create(1, s("anna")), Err(RoomError::AlreadyInRoom));
    let snap = reg.snapshot();
    assert_eq!(snap.len(), 1);
    assert_eq!(snap[0].code, first);
}

#[test]
fn join_unknown_code_fails_room_not_found() {
    let mut reg = RoomRegistry::new();
    reg.create(1, s("anna")).unwrap();
    assert_eq!(
        reg.join(&s("zzzzzz"), 2, s("bruno")),
        Err(RoomError::RoomNotFound)
    );
}

#[test]
fn join_twice_fails_already_member() {
    let mut reg = RoomRegistry::new();
    let code = two_player_room(&mut reg);
    assert_eq!(reg.join(&code, 2, s("bruno")), Err(RoomError::AlreadyMember));
}

#[test]
fn join_second_room_fails_already_in_room() {
    let mut reg = RoomRegistry::new();
    let code_a = reg.create(1, s("anna")).unwrap();
    let code_b = reg.create(2, s("bruno")).unwrap();
    assert_ne!(code_a, code_b);
    assert_eq!(
        reg.join(&code_b, 1, s("anna")),
        Err(RoomError::AlreadyInRoom)
    );
}

#[test]
fn join_returns_members_in_join_order() {
    let mut reg = RoomRegistry::new();
    let code = reg.create(1, s("anna")).unwrap();
    assert_eq!(reg.join(&code, 2, s("bruno")).unwrap(), vec![1, 2]);
    assert_eq!(reg.join(&code, 3, s("carla")).unwrap(), vec![1, 2, 3]);
}

#[test]
fn no_player_is_member_of_two_rooms() {
    // However rooms are created and joined, each player identifier occurs
    // in at most one room of the snapshot.
    let mut reg = RoomRegistry::new();
    let code_a = reg.create(1, s("anna")).unwrap();
    let code_b = reg.create(2, s("bruno")).unwrap();
    reg.join(&code_a, 3, s("carla")).unwrap();
    assert_eq!(
        reg.join(&code_b, 3, s("carla")),
        Err(RoomError::AlreadyInRoom)
    );
    assert_eq!(reg.create(3, s("carla")), Err(RoomError::AlreadyInRoom));
    let snap = reg.snapshot();
    for id in [1u64, 2, 3] {
        let rooms_with_id = snap
            .iter()
            .filter(|room| room.players.iter().any(|p| p.id == id))
            .count();
        assert_eq!(rooms_with_id, 1);
    }
}

#[test]
fn leave_when_not_in_room_fails_not_in_room() {
    let mut reg = RoomRegistry::new();
    reg.create(1, s("anna")).unwrap();
    assert_eq!(reg.leave(9), Err(RoomError::NotInRoom));
}

#[test]
fn leave_reports_room_and_remaining_members() {
    let mut reg = RoomRegistry::new();
    let code = two_player_room(&mut reg);
    let out = reg.leave(2).unwrap();
    assert_eq!(out.code, code);
    assert_eq!(out.username, s("bruno"));
    assert_eq!(out.remaining, vec![1]);
    assert_eq!(out.new_host, None);
}

#[test]
fn host_leaving_hands_hosting_to_earliest_joiner() {
    // Host leaves a 2-player room -> the remaining player becomes host;
    // the new host leaves again (now alone) -> the room is deleted.
    let mut reg = RoomRegistry::new();
    let code = two_player_room(&mut reg);
    let out = reg.leave(1).unwrap();
    assert_eq!(out.new_host, Some(2));
    assert_eq!(out.remaining, vec![2]);
    let snap = reg.snapshot();
    assert_eq!(snap.len(), 1);
    assert_eq!(snap[0].code, code);
    assert_eq!(snap[0].host, 2);
    assert_eq!(snap[0].host_username, s("bruno"));
    let out = reg.leave(2).unwrap();
    assert_eq!(out.new_host, None);
    assert!(out.remaining.is_empty());
    assert!(reg.snapshot().is_empty());
}

#[test]
fn emptied_room_is_absent_from_snapshot() {
    // After leave empties a room, the room is gone from snapshot().
    let mut reg = RoomRegistry::new();
    let code = reg.create(1, s("anna")).unwrap();
    reg.create(2, s("bruno")).unwrap();
    let out = reg.leave(1).unwrap();
    assert_eq!(out.code, code);
    let snap = reg.snapshot();
    assert_eq!(snap.len(), 1);
    assert!(snap.iter().all(|room| room.code != code));
}

#[test]
fn freed_code_can_be_joined_no_longer() {
    let mut reg = RoomRegistry::new();
    let code = reg.create(1, s("anna")).unwrap();
    reg.leave(1).unwrap();
    assert_eq!(
        reg.join(&code, 2, s("bruno")),
        Err(RoomError::RoomNotFound)
    );
}

#[test]
fn begin_preparation_by_non_host_fails_not_host() {
    let mut reg = RoomRegistry::new();
    two_player_room(&mut reg);
    assert_eq!(reg.begin_preparation(2), Err(RoomError::NotHost));
    assert_eq!(reg.begin_preparation(9), Err(RoomError::NotHost));
}

#[test]
fn begin_preparation_alone_fails_too_few_players() {
    // N=1 -> TooFewPlayers; N=0 cannot arise, an empty room is deleted.
    let mut reg = RoomRegistry::new();
    reg.create(1, s("anna")).unwrap();
    assert_eq!(reg.begin_preparation(1), Err(RoomError::TooFewPlayers));
    let snap = reg.snapshot();
    assert_eq!(snap[0].status, RoomStatus::Waiting);
}

#[test]
fn begin_preparation_moves_waiting_to_started() {
    let mut reg = RoomRegistry::new();
    two_player_room(&mut reg);
    assert_eq!(reg.begin_preparation(1).unwrap(), vec![1, 2]);
    assert_eq!(reg.snapshot()[0].status, RoomStatus::Started);
}

#[test]
fn begin_preparation_twice_fails_already_started() {
    let mut reg = RoomRegistry::new();
    two_player_room(&mut reg);
    reg.begin_preparation(1).unwrap();
    assert_eq!(reg.begin_preparation(1), Err(RoomError::AlreadyStarted));
}

#[test]
fn set_character_when_not_in_room_fails_not_in_room() {
    let mut reg = RoomRegistry::new();
    assert_eq!(reg.set_character(1, s("Zorro")), Err(RoomError::NotInRoom));
}

#[test]
fn set_character_succeeds_exactly_once_after_start() {
    // NotStarted while waiting, Ok once started, AlreadyProposed on the
    // second attempt by the same player.
    let mut reg = RoomRegistry::new();
    two_player_room(&mut reg);
    assert_eq!(reg.set_character(2, s("Zorro")), Err(RoomError::NotStarted));
    reg.begin_preparation(1).unwrap();
    assert_eq!(reg.set_character(2, s("Zorro")), Ok(()));
    assert_eq!(
        reg.set_character(2, s("Heidi")),
        Err(RoomError::AlreadyProposed)
    );
    let snap = reg.snapshot();
    let bruno = snap[0].players.iter().find(|p| p.id == 2).unwrap();
    assert_eq!(bruno.character, Some(s("Zorro")));
}

#[test]
fn finalize_assignment_by_non_host_fails_not_host() {
    let mut reg = RoomRegistry::new();
    two_player_room(&mut reg);
    assert_eq!(reg.finalize_assignment(2), Err(RoomError::NotHost));
}

#[test]
fn finalize_assignment_names_players_still_owing_a_proposal() {
    let mut reg = RoomRegistry::new();
    let code = two_player_room(&mut reg);
    reg.join(&code, 3, s("carla")).unwrap();
    reg.begin_preparation(1).unwrap();
    reg.set_character(2, s("Zorro")).unwrap();
    assert_eq!(
        reg.finalize_assignment(1),
        Err(RoomError::MissingProposals(vec![s("anna"), s("carla")]))
    );
}

#[test]
fn finalize_assignment_with_one_player_left_fails_too_few_players() {
    let mut reg = RoomRegistry::new();
    two_player_room(&mut reg);
    reg.begin_preparation(1).unwrap();
    reg.set_character(1, s("Anna K.")).unwrap();
    reg.leave(2).unwrap();
    assert_eq!(reg.finalize_assignment(1), Err(RoomError::TooFewPlayers));
}

#[test]
fn two_player_game_swaps_the_proposals() {
    // A creates, B joins, A begins preparation, A proposes "Alice" and B
    // proposes "Bob"; the only possible rotation assigns A "Bob" and B
    // "Alice".
    let mut reg = RoomRegistry::new();
    two_player_room(&mut reg);
    reg.begin_preparation(1).unwrap();
    reg.set_character(1, s("Alice")).unwrap();
    reg.set_character(2, s("Bob")).unwrap();
    let out = reg.finalize_assignment(1).unwrap();
    assert_eq!(out.len(), 2);
    let a = out.iter().find(|x| x.id == 1).unwrap();
    let b = out.iter().find(|x| x.id == 2).unwrap();
    assert_eq!(a.username, s("anna"));
    assert_eq!(a.character, s("Bob"));
    assert_eq!(b.username, s("bruno"));
    assert_eq!(b.character, s("Alice"));
}

#[test]
fn assignment_is_a_derangement_of_distinct_proposals() {
    // With distinct proposals nobody receives their own, and the assigned
    // characters are exactly the proposed ones.
    let mut reg = RoomRegistry::new();
    let code = two_player_room(&mut reg);
    reg.join(&code, 3, s("carla")).unwrap();
    reg.join(&code, 4, s("dario")).unwrap();
    reg.begin_preparation(1).unwrap();
    let proposals = [
        (1u64, "Amleto"),
        (2u64, "Biancaneve"),
        (3u64, "Cenerentola"),
        (4u64, "Dracula"),
    ];
    for (id, name) in proposals {
        reg.set_character(id, s(name)).unwrap();
    }
    let out = reg.finalize_assignment(1).unwrap();
    assert_eq!(out.len(), 4);
    for (id, name) in proposals {
        let line = out.iter().find(|x| x.id == id).unwrap();
        assert_ne!(line.character, s(name));
    }
    let mut assigned: Vec<String> = out.iter().map(|x| x.character.clone()).collect();
    let mut proposed: Vec<String> = proposals.iter().map(|(_, n)| s(n)).collect();
    assigned.sort();
    proposed.sort();
    assert_eq!(assigned, proposed);
}

#[test]
fn assignment_is_recorded_in_the_room() {
    let mut reg = RoomRegistry::new();
    two_player_room(&mut reg);
    reg.begin_preparation(1).unwrap();
    reg.set_character(1, s("Alice")).unwrap();
    reg.set_character(2, s("Bob")).unwrap();
    reg.finalize_assignment(1).unwrap();
    let snap = reg.snapshot();
    let anna = snap[0].players.iter().find(|p| p.id == 1).unwrap();
    let bruno = snap[0].players.iter().find(|p| p.id == 2).unwrap();
    assert_eq!(anna.assigned_character, Some(s("Bob")));
    assert_eq!(bruno.assigned_character, Some(s("Alice")));
}

#[test]
fn end_by_non_host_fails_not_host() {
    let mut reg = RoomRegistry::new();
    two_player_room(&mut reg);
    assert_eq!(reg.end(2), Err(RoomError::NotHost));
}

#[test]
fn end_closes_the_room_and_reports_the_members() {
    let mut reg = RoomRegistry::new();
    let code = two_player_room(&mut reg);
    let out = reg.end(1).unwrap();
    assert_eq!(out.code, code);
    assert_eq!(out.players, vec![1, 2]);
    assert!(reg.snapshot().is_empty());
    assert_eq!(reg.leave(2), Err(RoomError::NotInRoom));
}

#[test]
fn snapshot_reflects_every_room() {
    let mut reg = RoomRegistry::new();
    let code_a = reg.create(1, s("anna")).unwrap();
    let code_b = reg.create(2, s("bruno")).unwrap();
    reg.join(&code_a, 3, s("carla")).unwrap();
    let snap = reg.snapshot();
    assert_eq!(snap.len(), 2);
    let room_a = snap.iter().find(|r| r.code == code_a).unwrap();
    let room_b = snap.iter().find(|r| r.code == code_b).unwrap();
    assert_eq!(room_a.players.len(), 2);
    assert_eq!(room_b.players.len(), 1);
    assert_eq!(room_a.host_username, s("anna"));
    assert_eq!(room_b.host_username, s("bruno"));
}
