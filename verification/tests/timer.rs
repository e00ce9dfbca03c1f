use game_lobby::leaderboard::Leaderboard;
use game_lobby::registry::RoomRegistry;
use game_lobby::server_state::{TimerHandle, GAME_DURATION_SECS};
use game_lobby::timer::{finish_round, GameTimer, TimerStep};
use game_lobby::ws_messages::{Player, WsServerMsg};

fn player(id: &str, name: &str) -> Player {
    Player { player_id: id.to_string(), name: name.to_string(), ready: true }
}

fn id(s: &str) -> String {
    s.to_string()
}

fn started_room() -> (RoomRegistry, TimerHandle) {
    let mut rooms = RoomRegistry::new();
    let _ = rooms.insert_room(id("r1"), player("a", "Alice"));
    let _ = rooms.join_room(&id("r1"), player("b", "Bob"));
    let start = rooms.start_game(&id("r1"), &id("a")).unwrap();
    (rooms, start.round.handle)
}

#[test]
fn timer_knows_its_room_and_handle() {
    let timer = GameTimer::new(id("r1"), TimerHandle { round: 4 });
    assert_eq!(timer.room_id(), "r1");
    assert_eq!(timer.handle(), TimerHandle { round: 4 });
}

#[test]
fn timer_ticks_from_duration_down_to_zero() {
    let (rooms, handle) = started_room();
    let mut timer = GameTimer::new(id("r1"), handle);
    let mut ticks = Vec::new();
    loop {
        match timer.step(&rooms) {
            TimerStep::Tick(WsServerMsg::TimerTick { remaining_secs }) => ticks.push(remaining_secs),
            TimerStep::Tick(other) => panic!("unexpected event {:?}", other),
            TimerStep::Expired => break,
            TimerStep::Cancelled => panic!("cancelled"),
        }
    }
    assert_eq!(ticks.len() as u64, GAME_DURATION_SECS + 1);
    assert_eq!(ticks.len(), 121);
    assert_eq!(ticks, (0..=120u64).rev().collect::<Vec<_>>());
    assert_eq!(timer.step(&rooms), TimerStep::Expired);
}

#[test]
fn timer_is_cancelled_by_a_new_round() {
    let (mut rooms, handle) = started_room();
    let mut timer = GameTimer::new(id("r1"), handle);
    assert_eq!(timer.step(&rooms), TimerStep::Tick(WsServerMsg::TimerTick { remaining_secs: 120 }));
    let _ = rooms.ready_up(&id("r1"), &id("b"), true);
    let next = rooms.start_game(&id("r1"), &id("a")).unwrap();
    assert_eq!(timer.step(&rooms), TimerStep::Cancelled);
    assert_eq!(timer.step(&rooms), TimerStep::Cancelled);
    let mut successor = GameTimer::new(id("r1"), next.round.handle);
    assert_eq!(
        successor.step(&rooms),
        TimerStep::Tick(WsServerMsg::TimerTick { remaining_secs: 120 })
    );
}

#[test]
fn timer_is_cancelled_when_the_room_is_gone() {
    let (mut rooms, handle) = started_room();
    let mut timer = GameTimer::new(id("r1"), handle);
    let _ = rooms.leave_room(&id("r1"), &id("a"));
    assert_eq!(timer.step(&rooms), TimerStep::Tick(WsServerMsg::TimerTick { remaining_secs: 120 }));
    let _ = rooms.leave_room(&id("r1"), &id("b"));
    assert_eq!(timer.step(&rooms), TimerStep::Cancelled);
}

#[test]
fn finish_round_offers_every_members_score() {
    let (mut rooms, handle) = started_room();
    let _ = rooms.report_score(&id("r1"), &id("a"), 30, 1);
    let _ = rooms.report_score(&id("r1"), &id("b"), 45, 1);
    let mut top_10 = Leaderboard::new();
    let changed = finish_round(GameTimer::new(id("r1"), handle), &mut top_10, &mut rooms);
    assert!(changed);
    assert_eq!(top_10.snapshot(), vec![(45, id("Bob")), (30, id("Alice"))]);
    let room = rooms.room(&id("r1")).unwrap();
    assert_eq!(room.timer_handle(), None);
    assert!(room.board().is_some());
    assert_eq!(room.scores(), &vec![(id("a"), 30), (id("b"), 45)]);
}

#[test]
fn finish_round_reports_unchanged_leaderboard() {
    let (mut rooms, handle) = started_room();
    let _ = rooms.report_score(&id("r1"), &id("a"), 3, 1);
    let mut top_10 = Leaderboard::new();
    for i in 0..10 {
        top_10.offer(100 + i, format!("champ{}", i));
    }
    let before = top_10.snapshot();
    let changed = finish_round(GameTimer::new(id("r1"), handle), &mut top_10, &mut rooms);
    assert!(!changed);
    assert_eq!(top_10.snapshot(), before);
    assert_eq!(rooms.room(&id("r1")).unwrap().timer_handle(), None);
}

#[test]
fn finish_round_of_a_cancelled_timer_does_nothing() {
    let (mut rooms, handle) = started_room();
    let _ = rooms.report_score(&id("r1"), &id("a"), 30, 1);
    let _ = rooms.ready_up(&id("r1"), &id("b"), true);
    let next = rooms.start_game(&id("r1"), &id("a")).unwrap();
    let mut top_10 = Leaderboard::new();
    assert!(!finish_round(GameTimer::new(id("r1"), handle), &mut top_10, &mut rooms));
    assert_eq!(top_10.len(), 0);
    assert_eq!(rooms.room(&id("r1")).unwrap().timer_handle(), Some(next.round.handle));
    assert!(!finish_round(GameTimer::new(id("gone"), handle), &mut top_10, &mut rooms));
    assert_eq!(top_10.len(), 0);
}

#[test]
fn finish_round_skips_players_who_left() {
    let (mut rooms, handle) = started_room();
    let _ = rooms.report_score(&id("r1"), &id("a"), 30, 1);
    let _ = rooms.report_score(&id("r1"), &id("b"), 45, 1);
    let _ = rooms.leave_room(&id("r1"), &id("b"));
    let mut top_10 = Leaderboard::new();
    assert!(finish_round(GameTimer::new(id("r1"), handle), &mut top_10, &mut rooms));
    assert_eq!(top_10.snapshot(), vec![(30, id("Alice"))]);
}
