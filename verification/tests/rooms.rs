use game_lobby::error::RoomError;
use game_lobby::registry::{Leave, RoomRegistry};
use game_lobby::server_state::{RoomState, TimerHandle, TurnsUpdate, GAME_DURATION_SECS};
use game_lobby::ws_messages::{Player, WsServerMsg};

fn player(id: &str, name: &str, ready: bool) -> Player {
    Player { player_id: id.to_string(), name: name.to_string(), ready }
}

fn id(s: &str) -> String {
    s.to_string()
}

fn plain_board() -> Vec<u8> {
    (0..170).map(|i| 1 + (i % 9) as u8).collect()
}

fn ids_of(table: &[(String, u32)]) -> Vec<String> {
    table.iter().map(|e| e.0.clone()).collect()
}

fn assert_keys_agree(room: &RoomState) {
    let members: Vec<String> = room.players().iter().map(|p| p.player_id.clone()).collect();
    assert_eq!(ids_of(room.scores()), members);
    assert_eq!(ids_of(room.turns()), members);
}

#[test]
fn new_room_has_owner_as_sole_member() {
    let room = RoomState::new(player("a", "Alice", false));
    assert_eq!(room.owner(), "a");
    assert_eq!(room.players(), &vec![player("a", "Alice", false)]);
    assert_eq!(room.scores(), &vec![(id("a"), 0)]);
    assert_eq!(room.turns(), &vec![(id("a"), 0)]);
    assert_eq!(room.board(), &None);
    assert_eq!(room.timer_handle(), None);
    assert!(room.is_owner(&id("a")));
    assert!(!room.is_owner(&id("b")));
    assert!(room.contains_player(&id("a")));
    assert!(!room.contains_player(&id("b")));
    assert_eq!(room.position(&id("a")), Some(0));
    assert_eq!(room.position(&id("b")), None);
}

#[test]
fn join_adds_member_with_zero_score_and_turns() {
    let mut room = RoomState::new(player("a", "Alice", false));
    assert_eq!(room.join(player("b", "Bob", true)), Ok(()));
    assert_eq!(room.players().len(), 2);
    assert_eq!(room.players()[1], player("b", "Bob", true));
    assert_eq!(room.scores(), &vec![(id("a"), 0), (id("b"), 0)]);
    assert_eq!(room.turns(), &vec![(id("a"), 0), (id("b"), 0)]);
    assert_eq!(room.position(&id("b")), Some(1));
}

#[test]
fn join_twice_is_refused() {
    let mut room = RoomState::new(player("a", "Alice", false));
    assert_eq!(room.join(player("a", "Impostor", true)), Err(RoomError::AlreadyInRoom));
    assert_eq!(room.players(), &vec![player("a", "Alice", false)]);
    assert_eq!(room.scores().len(), 1);
}

#[test]
fn keys_agree_after_every_join_and_leave() {
    let mut room = RoomState::new(player("a", "Alice", false));
    assert_keys_agree(&room);
    let _ = room.join(player("b", "Bob", false));
    assert_keys_agree(&room);
    let _ = room.join(player("c", "Cleo", false));
    assert_keys_agree(&room);
    let _ = room.join(player("b", "Bob again", false));
    assert_keys_agree(&room);
    assert!(!room.remove_player(&id("b")));
    assert_keys_agree(&room);
    assert!(!room.remove_player(&id("zz")));
    assert_keys_agree(&room);
    assert_eq!(room.players().len(), 2);
    let _ = room.join(player("d", "Dan", false));
    assert_keys_agree(&room);
    assert!(!room.remove_player(&id("a")));
    assert_keys_agree(&room);
    assert!(!room.remove_player(&id("c")));
    assert_keys_agree(&room);
    assert_eq!(ids_of(room.scores()), vec![id("d")]);
}

#[test]
fn set_ready_changes_only_that_member() {
    let mut room = RoomState::new(player("a", "Alice", false));
    let _ = room.join(player("b", "Bob", false));
    assert_eq!(room.set_ready(&id("b"), true), Ok(()));
    assert_eq!(room.players(), &vec![player("a", "Alice", false), player("b", "Bob", true)]);
    assert_eq!(room.set_ready(&id("b"), false), Ok(()));
    assert_eq!(room.players()[1], player("b", "Bob", false));
    assert_eq!(room.set_ready(&id("x"), true), Err(RoomError::NotInRoom));
}

#[test]
fn all_ready_ignores_the_owner() {
    let mut room = RoomState::new(player("a", "Alice", false));
    assert!(room.all_ready());
    let _ = room.join(player("b", "Bob", false));
    assert!(!room.all_ready());
    let _ = room.set_ready(&id("b"), true);
    assert!(room.all_ready());
    let _ = room.join(player("c", "Cleo", false));
    assert!(!room.all_ready());
}

#[test]
fn start_game_requires_owner() {
    let mut room = RoomState::new(player("a", "Alice", false));
    let _ = room.join(player("b", "Bob", true));
    assert_eq!(room.start_game(&id("b"), plain_board()), Err(RoomError::NotOwner));
    assert_eq!(room.board(), &None);
    assert_eq!(room.timer_handle(), None);
}

#[test]
fn start_game_fails_when_a_player_is_not_ready() {
    let mut room = RoomState::new(player("a", "Alice", false));
    let _ = room.join(player("b", "Bob", true));
    let _ = room.join(player("c", "Cleo", false));
    assert_eq!(room.start_game(&id("a"), plain_board()), Err(RoomError::PlayersNotReady));
    assert_eq!(room.board(), &None);
    assert_eq!(room.timer_handle(), None);
    assert_eq!(room.players()[1], player("b", "Bob", true));
}

#[test]
fn start_game_resets_scores_and_clears_ready_flags() {
    let mut room = RoomState::new(player("a", "Alice", true));
    let _ = room.join(player("b", "Bob", true));
    let _ = room.add_score(&id("a"), 4);
    let _ = room.add_score(&id("b"), 9);
    let start = room.start_game(&id("a"), plain_board()).unwrap();
    assert_eq!(start.cancelled, None);
    assert_eq!(start.handle, TimerHandle { round: 1 });
    assert_eq!(room.timer_handle(), Some(TimerHandle { round: 1 }));
    assert_eq!(room.board(), &Some(plain_board()));
    assert_eq!(room.scores(), &vec![(id("a"), 0), (id("b"), 0)]);
    assert_eq!(room.players(), &vec![player("a", "Alice", false), player("b", "Bob", false)]);
    assert_eq!(room.owner(), "a");
}

#[test]
fn restarting_cancels_the_previous_timer() {
    let mut room = RoomState::new(player("a", "Alice", false));
    let first = room.start_game(&id("a"), plain_board()).unwrap();
    assert!(room.timer_is_live(first.handle));
    let second = room.start_game(&id("a"), plain_board()).unwrap();
    assert_eq!(second.cancelled, Some(first.handle));
    assert_ne!(second.handle, first.handle);
    assert!(room.timer_is_live(second.handle));
    assert!(!room.timer_is_live(first.handle));
    assert_eq!(room.timer_handle(), Some(second.handle));
}

#[test]
fn finish_round_keeps_board_and_clears_timer() {
    let mut room = RoomState::new(player("a", "Alice", false));
    let start = room.start_game(&id("a"), plain_board()).unwrap();
    room.finish_round();
    assert_eq!(room.timer_handle(), None);
    assert!(!room.timer_is_live(start.handle));
    assert_eq!(room.board(), &Some(plain_board()));
    let next = room.start_game(&id("a"), plain_board()).unwrap();
    assert_eq!(next.cancelled, None);
    assert_eq!(next.handle, TimerHandle { round: 2 });
}

#[test]
fn add_score_accumulates() {
    let mut room = RoomState::new(player("a", "Alice", false));
    let _ = room.join(player("b", "Bob", false));
    assert_eq!(room.add_score(&id("a"), 5), Ok(()));
    assert_eq!(room.add_score(&id("a"), 7), Ok(()));
    assert_eq!(room.add_score(&id("b"), 1), Ok(()));
    assert_eq!(room.scores(), &vec![(id("a"), 12), (id("b"), 1)]);
    assert_eq!(room.turns(), &vec![(id("a"), 0), (id("b"), 0)]);
    assert_eq!(room.add_score(&id("x"), 3), Err(RoomError::NotInRoom));
}

#[test]
fn can_add_score_detects_overflow() {
    let mut room = RoomState::new(player("a", "Alice", false));
    assert!(room.can_add_score(&id("a"), u32::MAX));
    let _ = room.add_score(&id("a"), u32::MAX);
    assert_eq!(room.scores(), &vec![(id("a"), u32::MAX)]);
    assert!(room.can_add_score(&id("a"), 0));
    assert!(!room.can_add_score(&id("a"), 1));
    assert!(room.can_add_score(&id("nobody"), 1));
}

#[test]
fn remove_player_hands_ownership_to_earliest_member() {
    let mut room = RoomState::new(player("a", "Alice", false));
    let _ = room.join(player("b", "Bob", false));
    let _ = room.join(player("c", "Cleo", false));
    assert!(!room.remove_player(&id("a")));
    assert_eq!(room.owner(), "b");
    assert_eq!(room.players(), &vec![player("b", "Bob", false), player("c", "Cleo", false)]);
    assert!(!room.remove_player(&id("c")));
    assert_eq!(room.owner(), "b");
    assert!(room.remove_player(&id("b")));
    assert_eq!(room.players().len(), 0);
}

#[test]
fn room_messages() {
    let mut room = RoomState::new(player("a", "Alice", false));
    let _ = room.join(player("b", "Bob", true));
    let _ = room.add_score(&id("b"), 3);
    assert_eq!(
        room.membership(&id("r")),
        WsServerMsg::RoomPlayersUpdate {
            room_id: id("r"),
            players: vec![player("a", "Alice", false), player("b", "Bob", true)],
            owner_id: id("a"),
        }
    );
    assert_eq!(
        room.score_table(&id("r")),
        WsServerMsg::LeaderboardUpdate { room_id: id("r"), scores: vec![(id("a"), 0), (id("b"), 3)] }
    );
    assert_eq!(
        room.chat(&id("r"), &id("b"), id("hi")),
        Ok(WsServerMsg::ChatBroadcast {
            room_id: id("r"),
            player: player("b", "Bob", true),
            message: id("hi"),
        })
    );
    assert_eq!(room.chat(&id("r"), &id("x"), id("hi")), Err(RoomError::NotInRoom));
    assert_eq!(room.round_results(), vec![(0, id("Alice")), (3, id("Bob"))]);
}

#[test]
fn registry_starts_empty() {
    let rooms = RoomRegistry::new();
    assert_eq!(rooms.len(), 0);
    assert!(!rooms.contains_room(&id("r")));
    assert!(rooms.room(&id("r")).is_none());
}

#[test]
fn insert_room_answers_with_identifier_and_membership() {
    let mut rooms = RoomRegistry::new();
    let events = rooms.insert_room(id("r1"), player("a", "Alice", false));
    assert_eq!(
        events,
        vec![
            WsServerMsg::RoomCreated { room_id: id("r1") },
            WsServerMsg::RoomPlayersUpdate {
                room_id: id("r1"),
                players: vec![player("a", "Alice", false)],
                owner_id: id("a"),
            },
        ]
    );
    assert_eq!(rooms.len(), 1);
    assert!(rooms.contains_room(&id("r1")));
    let room = rooms.room(&id("r1")).unwrap();
    assert_eq!(room.owner(), "a");
    assert_eq!(room.scores(), &vec![(id("a"), 0)]);
}

#[test]
fn insert_room_replaces_a_room_of_the_same_identifier() {
    let mut rooms = RoomRegistry::new();
    let _ = rooms.insert_room(id("r1"), player("a", "Alice", false));
    let _ = rooms.join_room(&id("r1"), player("b", "Bob", false));
    let _ = rooms.insert_room(id("r1"), player("c", "Cleo", false));
    assert_eq!(rooms.len(), 1);
    let room = rooms.room(&id("r1")).unwrap();
    assert_eq!(room.owner(), "c");
    assert_eq!(room.players().len(), 1);
}

#[test]
fn create_room_draws_distinct_uuid_identifiers() {
    let mut rooms = RoomRegistry::new();
    let (first, events) = rooms.create_room(player("a", "Alice", false));
    let (second, _) = rooms.create_room(player("b", "Bob", false));
    assert_eq!(first.chars().count(), 36);
    assert_eq!(second.chars().count(), 36);
    assert_ne!(first, second);
    assert_eq!(first.chars().filter(|c| *c == '-').count(), 4);
    assert_eq!(events[0], WsServerMsg::RoomCreated { room_id: first.clone() });
    assert_eq!(rooms.len(), 2);
    assert_eq!(rooms.room(&first).unwrap().owner(), "a");
    assert_eq!(rooms.room(&second).unwrap().owner(), "b");
}

#[test]
fn join_room_errors() {
    let mut rooms = RoomRegistry::new();
    let _ = rooms.insert_room(id("r1"), player("a", "Alice", false));
    assert_eq!(rooms.join_room(&id("nope"), player("b", "Bob", false)), Err(RoomError::RoomNotFound));
    assert_eq!(rooms.join_room(&id("r1"), player("a", "Al", false)), Err(RoomError::AlreadyInRoom));
    assert_eq!(rooms.room(&id("r1")).unwrap().players().len(), 1);
}

#[test]
fn join_room_returns_the_new_membership() {
    let mut rooms = RoomRegistry::new();
    let _ = rooms.insert_room(id("r1"), player("a", "Alice", false));
    assert_eq!(
        rooms.join_room(&id("r1"), player("b", "Bob", false)),
        Ok(WsServerMsg::RoomPlayersUpdate {
            room_id: id("r1"),
            players: vec![player("a", "Alice", false), player("b", "Bob", false)],
            owner_id: id("a"),
        })
    );
}

#[test]
fn ready_up_errors_and_success() {
    let mut rooms = RoomRegistry::new();
    let _ = rooms.insert_room(id("r1"), player("a", "Alice", false));
    assert_eq!(rooms.ready_up(&id("nope"), &id("a"), true), Err(RoomError::RoomNotFound));
    assert_eq!(rooms.ready_up(&id("r1"), &id("b"), true), Err(RoomError::NotInRoom));
    assert_eq!(
        rooms.ready_up(&id("r1"), &id("a"), true),
        Ok(WsServerMsg::RoomPlayersUpdate {
            room_id: id("r1"),
            players: vec![player("a", "Alice", true)],
            owner_id: id("a"),
        })
    );
}

#[test]
fn scenario_start_game_needs_everyone_ready() {
    let mut rooms = RoomRegistry::new();
    let _ = rooms.insert_room(id("r1"), player("A", "Alice", false));
    assert_eq!(rooms.room(&id("r1")).unwrap().scores(), &vec![(id("A"), 0)]);
    let _ = rooms.join_room(&id("r1"), player("B", "Bob", false)).unwrap();

    assert_eq!(rooms.check_start(&id("r1"), &id("A")), Err(RoomError::PlayersNotReady));
    assert_eq!(rooms.start_game(&id("r1"), &id("A")), Err(RoomError::PlayersNotReady));
    assert_eq!(rooms.room(&id("r1")).unwrap().board(), &None);

    let _ = rooms.ready_up(&id("r1"), &id("B"), true).unwrap();
    let _ = rooms.report_score(&id("r1"), &id("A"), 3, 1).unwrap();
    assert_eq!(rooms.check_start(&id("r1"), &id("A")), Ok(()));
    let start = rooms.start_game(&id("r1"), &id("A")).unwrap();

    match &start.started {
        WsServerMsg::GameStarted { room_id, board, duration_secs } => {
            assert_eq!(room_id, "r1");
            assert_eq!(board.len(), 170);
            assert!(board.iter().all(|c| (1..=9).contains(c)));
            assert_eq!(*duration_secs, 120);
            assert_eq!(*duration_secs, GAME_DURATION_SECS);
            assert_eq!(rooms.room(&id("r1")).unwrap().board(), &Some(board.clone()));
        }
        other => panic!("unexpected event {:?}", other),
    }
    assert_eq!(
        start.membership,
        WsServerMsg::RoomPlayersUpdate {
            room_id: id("r1"),
            players: vec![player("A", "Alice", false), player("B", "Bob", false)],
            owner_id: id("A"),
        }
    );
    let room = rooms.room(&id("r1")).unwrap();
    assert_eq!(room.scores(), &vec![(id("A"), 0), (id("B"), 0)]);
    assert_eq!(room.timer_handle(), Some(start.round.handle));
    assert_eq!(start.round.cancelled, None);
    assert!(rooms.timer_is_live(&id("r1"), start.round.handle));
}

#[test]
fn start_game_errors() {
    let mut rooms = RoomRegistry::new();
    let _ = rooms.insert_room(id("r1"), player("a", "Alice", false));
    let _ = rooms.join_room(&id("r1"), player("b", "Bob", true));
    assert_eq!(rooms.start_game(&id("nope"), &id("a")), Err(RoomError::RoomNotFound));
    assert_eq!(rooms.start_game(&id("r1"), &id("b")), Err(RoomError::NotOwner));
    assert_eq!(rooms.start_game(&id("r1"), &id("zz")), Err(RoomError::NotOwner));
    assert_eq!(
        rooms.start_game_on(&id("nope"), &id("a"), plain_board()),
        Err(RoomError::RoomNotFound)
    );
    assert_eq!(rooms.start_game_on(&id("r1"), &id("b"), plain_board()), Err(RoomError::NotOwner));
}

#[test]
fn start_game_on_uses_the_given_board() {
    let mut rooms = RoomRegistry::new();
    let _ = rooms.insert_room(id("r1"), player("a", "Alice", true));
    let first = rooms.start_game_on(&id("r1"), &id("a"), plain_board()).unwrap();
    assert_eq!(
        first.started,
        WsServerMsg::GameStarted { room_id: id("r1"), board: plain_board(), duration_secs: 120 }
    );
    let second = rooms.start_game_on(&id("r1"), &id("a"), plain_board()).unwrap();
    assert_eq!(second.round.cancelled, Some(first.round.handle));
    assert!(!rooms.timer_is_live(&id("r1"), first.round.handle));
    assert!(rooms.timer_is_live(&id("r1"), second.round.handle));
    assert!(!rooms.timer_is_live(&id("other"), second.round.handle));
}

#[test]
fn scenario_score_updates_accumulate() {
    let mut rooms = RoomRegistry::new();
    let _ = rooms.insert_room(id("r1"), player("A", "Alice", false));
    let _ = rooms.start_game(&id("r1"), &id("A")).unwrap();
    assert!(rooms.can_report_score(&id("r1"), &id("A"), 5));
    assert_eq!(
        rooms.report_score(&id("r1"), &id("A"), 5, 1),
        Ok(WsServerMsg::LeaderboardUpdate { room_id: id("r1"), scores: vec![(id("A"), 5)] })
    );
    assert_eq!(
        rooms.report_score(&id("r1"), &id("A"), 7, 2),
        Ok(WsServerMsg::LeaderboardUpdate { room_id: id("r1"), scores: vec![(id("A"), 12)] })
    );
    assert_eq!(rooms.room(&id("r1")).unwrap().turns(), &vec![(id("A"), 0)]);
}

#[test]
fn report_score_errors() {
    let mut rooms = RoomRegistry::new();
    let _ = rooms.insert_room(id("r1"), player("a", "Alice", false));
    assert_eq!(rooms.report_score(&id("nope"), &id("a"), 1, 0), Err(RoomError::RoomNotFound));
    assert_eq!(rooms.report_score(&id("r1"), &id("b"), 1, 0), Err(RoomError::NotInRoom));
    assert!(rooms.can_report_score(&id("nope"), &id("a"), u32::MAX));
    let _ = rooms.report_score(&id("r1"), &id("a"), u32::MAX - 1, 0);
    assert!(rooms.can_report_score(&id("r1"), &id("a"), 1));
    assert!(!rooms.can_report_score(&id("r1"), &id("a"), 2));
}

#[test]
fn post_chat_errors_and_success() {
    let mut rooms = RoomRegistry::new();
    let _ = rooms.insert_room(id("r1"), player("a", "Alice", false));
    assert_eq!(rooms.post_chat(&id("nope"), &id("a"), id("hi")), Err(RoomError::RoomNotFound));
    assert_eq!(rooms.post_chat(&id("r1"), &id("b"), id("hi")), Err(RoomError::NotInRoom));
    assert_eq!(
        rooms.post_chat(&id("r1"), &id("a"), id("hi")),
        Ok(WsServerMsg::ChatBroadcast {
            room_id: id("r1"),
            player: player("a", "Alice", false),
            message: id("hi"),
        })
    );
}

#[test]
fn scenario_owner_leaves() {
    let mut rooms = RoomRegistry::new();
    let _ = rooms.insert_room(id("r1"), player("A", "Alice", false));
    let _ = rooms.join_room(&id("r1"), player("B", "Bob", false));

    assert_eq!(
        rooms.leave_room(&id("r1"), &id("A")),
        Leave::Remains {
            membership: WsServerMsg::RoomPlayersUpdate {
                room_id: id("r1"),
                players: vec![player("B", "Bob", false)],
                owner_id: id("B"),
            }
        }
    );
    assert!(rooms.contains_room(&id("r1")));
    assert_eq!(rooms.room(&id("r1")).unwrap().owner(), "B");

    assert_eq!(rooms.leave_room(&id("r1"), &id("B")), Leave::Destroyed { cancelled: None });
    assert!(!rooms.contains_room(&id("r1")));
    assert_eq!(rooms.len(), 0);
    assert_eq!(rooms.join_room(&id("r1"), player("C", "Cleo", false)), Err(RoomError::RoomNotFound));
}

#[test]
fn leaving_an_unknown_room_does_nothing() {
    let mut rooms = RoomRegistry::new();
    let _ = rooms.insert_room(id("r1"), player("a", "Alice", false));
    assert_eq!(rooms.leave_room(&id("nope"), &id("a")), Leave::NoRoom);
    assert_eq!(rooms.len(), 1);
}

#[test]
fn leaving_as_a_stranger_keeps_the_room() {
    let mut rooms = RoomRegistry::new();
    let _ = rooms.insert_room(id("r1"), player("a", "Alice", false));
    assert_eq!(
        rooms.leave_room(&id("r1"), &id("zz")),
        Leave::Remains {
            membership: WsServerMsg::RoomPlayersUpdate {
                room_id: id("r1"),
                players: vec![player("a", "Alice", false)],
                owner_id: id("a"),
            }
        }
    );
}

#[test]
fn destroying_a_room_cancels_its_timer() {
    let mut rooms = RoomRegistry::new();
    let _ = rooms.insert_room(id("r1"), player("a", "Alice", false));
    let _ = rooms.insert_room(id("r2"), player("b", "Bob", false));
    let start = rooms.start_game(&id("r1"), &id("a")).unwrap();
    assert_eq!(
        rooms.leave_room(&id("r1"), &id("a")),
        Leave::Destroyed { cancelled: Some(start.round.handle) }
    );
    assert!(!rooms.timer_is_live(&id("r1"), start.round.handle));
    assert!(rooms.contains_room(&id("r2")));
    assert_eq!(rooms.len(), 1);
}

#[test]
fn end_round_returns_results_once() {
    let mut rooms = RoomRegistry::new();
    let _ = rooms.insert_room(id("r1"), player("a", "Alice", false));
    let _ = rooms.join_room(&id("r1"), player("b", "Bob", true));
    let start = rooms.start_game(&id("r1"), &id("a")).unwrap();
    let _ = rooms.report_score(&id("r1"), &id("b"), 8, 1);
    assert_eq!(rooms.end_round(&id("r1"), TimerHandle { round: 77 }), None);
    assert_eq!(rooms.end_round(&id("nope"), start.round.handle), None);
    assert_eq!(
        rooms.end_round(&id("r1"), start.round.handle),
        Some(vec![(0, id("Alice")), (8, id("Bob"))])
    );
    assert_eq!(rooms.room(&id("r1")).unwrap().timer_handle(), None);
    assert!(rooms.room(&id("r1")).unwrap().board().is_some());
    assert_eq!(rooms.end_round(&id("r1"), start.round.handle), None);
}

#[test]
fn turns_update_holds_a_table() {
    let update = TurnsUpdate { room_id: id("r1"), turns: vec![(id("a"), 2)] };
    assert_eq!(update.room_id, "r1");
    assert_eq!(update.turns, vec![(id("a"), 2)]);
}
