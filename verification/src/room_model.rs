//! The mathematical model of a room: what a room is, what each operation of
//! its lifecycle makes of it, and what holds of every room.

use vstd::prelude::*;
use crate::board::valid_board;
use crate::server_state::TimerHandle;
use crate::ws_messages::{PlayerView, ServerMsgView};

verus! {

/// The number of the round that follows round `round`.
pub open spec fn next_round(round: u64) -> u64 {
    if round == u64::MAX {
        0
    } else {
        (round + 1) as u64
    }
}

/// The identifiers of a table's entries, in order.
pub open spec fn keys(table: Seq<(Seq<char>, u32)>) -> Seq<Seq<char>> {
    table.map_values(|e: (Seq<char>, u32)| e.0)
}

/// The test that a member passes unless its identifier is `id`.
pub open spec fn is_other_player(id: Seq<char>) -> spec_fn(PlayerView) -> bool {
    |p: PlayerView| p.player_id != id
}

/// The test that an entry of a table passes unless its identifier is `id`.
pub open spec fn is_other_entry(id: Seq<char>) -> spec_fn((Seq<char>, u32)) -> bool {
    |e: (Seq<char>, u32)| e.0 != id
}

/// Mathematical view of a [`RoomState`].
pub struct RoomView {
    /// Identifier of the owner.
    pub owner: Seq<char>,
    /// The members, in the order in which they joined.
    pub players: Seq<PlayerView>,
    /// The board of the last round that was started, if any.
    pub board: Option<Seq<u8>>,
    /// The running score of each member.
    pub scores: Seq<(Seq<char>, u32)>,
    /// The turn counter of each member.
    pub turns: Seq<(Seq<char>, u32)>,
    /// The handle of the live countdown, if any.
    pub timer: Option<TimerHandle>,
    /// The number of the last round that was started.
    pub rounds: u64,
}

impl RoomView {
    /// The identifiers of the members, in the order in which they joined.
    pub open spec fn ids(self) -> Seq<Seq<char>> {
        self.players.map_values(|p: PlayerView| p.player_id)
    }

    /// Whether a player with identifier `id` is a member.
    pub open spec fn has_player(self, id: Seq<char>) -> bool {
        self.ids().contains(id)
    }

    /// The invariant of a room: it has a member, no identifier occurs twice,
    /// the score and turn tables have one entry per member, the owner is a
    /// member, a board is valid, and a live countdown belongs to the last round
    /// that was started.
    pub open spec fn wf(self) -> bool {
        &&& self.players.len() > 0
        &&& self.ids().no_duplicates()
        &&& keys(self.scores) == self.ids()
        &&& keys(self.turns) == self.ids()
        &&& self.has_player(self.owner)
        &&& (self.board matches Some(cells) ==> valid_board(cells))
        &&& (self.timer matches Some(handle) ==> handle.round == self.rounds)
    }

    /// The room that `owner` has just created: the owner is its only member,
    /// with score and turn counter zero; it has no board and no countdown.
    pub open spec fn fresh(owner: PlayerView) -> RoomView {
        RoomView {
            owner: owner.player_id,
            players: seq![owner],
            board: None,
            scores: seq![(owner.player_id, 0u32)],
            turns: seq![(owner.player_id, 0u32)],
            timer: None,
            rounds: 0,
        }
    }

    /// The room after `player` has joined it, with score and turn counter zero.
    pub open spec fn joined(self, player: PlayerView) -> RoomView {
        RoomView {
            players: self.players.push(player),
            scores: self.scores.push((player.player_id, 0u32)),
            turns: self.turns.push((player.player_id, 0u32)),
            ..self
        }
    }

    /// The room after the member `id` has set its ready flag to `ready`.
    pub open spec fn with_ready(self, id: Seq<char>, ready: bool) -> RoomView {
        RoomView {
            players: self.players.map_values(
                |p: PlayerView|
                    if p.player_id == id {
                        PlayerView { ready, ..p }
                    } else {
                        p
                    },
            ),
            ..self
        }
    }

    /// Whether every member other than the owner is ready.
    pub open spec fn all_ready(self) -> bool {
        forall|i: int|
            0 <= i < self.players.len() && self.players[i].player_id != self.owner ==> (
            #[trigger] self.players[i]).ready
    }

    /// The room after a round has started on `board`: every score is zero, no
    /// member is ready, and the countdown of the new round is the live one.
    pub open spec fn started(self, board: Seq<u8>) -> RoomView {
        RoomView {
            players: self.players.map_values(|p: PlayerView| PlayerView { ready: false, ..p }),
            board: Some(board),
            scores: self.scores.map_values(|e: (Seq<char>, u32)| (e.0, 0u32)),
            timer: Some(TimerHandle { round: next_round(self.rounds) }),
            rounds: next_round(self.rounds),
            ..self
        }
    }

    /// Whether the score of the member `id` can grow by `cleared` without
    /// leaving the range of `u32`. True when `id` is no member.
    pub open spec fn score_fits(self, id: Seq<char>, cleared: u32) -> bool {
        forall|i: int|
            0 <= i < self.scores.len() && self.scores[i].0 == id ==> (
            #[trigger] self.scores[i]).1 + cleared <= u32::MAX
    }

    /// The room after the score of the member `id` has grown by `cleared`.
    pub open spec fn with_score_added(self, id: Seq<char>, cleared: u32) -> RoomView {
        RoomView {
            scores: self.scores.map_values(
                |e: (Seq<char>, u32)|
                    if e.0 == id {
                        (e.0, (e.1 + cleared) as u32)
                    } else {
                        e
                    },
            ),
            ..self
        }
    }

    /// The room after the player `id` has left it: the player and its score
    /// and turn entries are gone. If it was the owner and a member remains,
    /// the member that joined first becomes the owner.
    pub open spec fn without(self, id: Seq<char>) -> RoomView {
        let players = self.players.filter(is_other_player(id));
        RoomView {
            owner: if self.owner == id && players.len() > 0 {
                players[0].player_id
            } else {
                self.owner
            },
            players,
            scores: self.scores.filter(is_other_entry(id)),
            turns: self.turns.filter(is_other_entry(id)),
            ..self
        }
    }

    /// The room after its round has ended: it keeps its board and holds no countdown.
    pub open spec fn finished(self) -> RoomView {
        RoomView { timer: None, ..self }
    }

    /// The rows that the room offers to the leaderboard when its round ends:
    /// for each member its score and its name.
    pub open spec fn results(self) -> Seq<(u32, Seq<char>)> {
        Seq::new(self.scores.len(), |i: int| (self.scores[i].1, self.players[i].name))
    }

    /// The member with identifier `id`.
    pub open spec fn member(self, id: Seq<char>) -> PlayerView {
        self.players[self.ids().index_of(id)]
    }

    /// The event by which the member `id` says `message` to room `room_id`.
    pub open spec fn chat(self, room_id: Seq<char>, id: Seq<char>, message: Seq<char>)
        -> ServerMsgView {
        ServerMsgView::ChatBroadcast { room_id, player: self.member(id), message }
    }

    /// The event that tells the members of room `room_id` who is in it.
    pub open spec fn membership(self, room_id: Seq<char>) -> ServerMsgView {
        ServerMsgView::RoomPlayersUpdate { room_id, players: self.players, owner_id: self.owner }
    }

    /// The event that tells the members of room `room_id` every running score.
    pub open spec fn score_table(self, room_id: Seq<char>) -> ServerMsgView {
        ServerMsgView::LeaderboardUpdate { room_id, scores: self.scores }
    }
}

/// A sequence from which `pred` rejects nothing is its own filter.
pub proof fn lemma_filter_keeps_all<A>(s: Seq<A>, pred: spec_fn(A) -> bool)
    requires
        forall|k: int| 0 <= k < s.len() ==> pred(#[trigger] s[k]),
    ensures
        s.filter(pred) == s,
    decreases s.len(),
{
    reveal(Seq::filter);
    if s.len() > 0 {
        lemma_filter_keeps_all(s.drop_last(), pred);
        assert(s.drop_last().push(s.last()) =~= s);
    }
}

/// Where `pred` rejects the element at `i` and no other, filtering removes that element.
pub proof fn lemma_filter_removes_one<A>(s: Seq<A>, pred: spec_fn(A) -> bool, i: int)
    requires
        0 <= i < s.len(),
        !pred(s[i]),
        forall|k: int| 0 <= k < s.len() && k != i ==> pred(#[trigger] s[k]),
    ensures
        s.filter(pred) == s.remove(i),
    decreases s.len(),
{
    reveal(Seq::filter);
    if i == s.len() - 1 {
        lemma_filter_keeps_all(s.drop_last(), pred);
        assert(s.drop_last() =~= s.remove(i));
    } else {
        lemma_filter_removes_one(s.drop_last(), pred, i);
        assert(s.drop_last().remove(i).push(s.last()) =~= s.remove(i));
    }
}

/// Whether the score table and the turn table of a room have one entry for
/// each member and for nobody else, and no member occurs twice.
pub open spec fn tables_aligned(room: RoomView) -> bool {
    &&& room.ids().no_duplicates()
    &&& keys(room.scores) == room.ids()
    &&& keys(room.turns) == room.ids()
}

/// What a player's leaving does to a room whose tables are aligned: where
/// the player is the member at place `i`, the entries at `i` are taken out
/// of the three tables; where it is no member, the tables stay as they are.
/// Either way the tables are aligned afterwards.
pub proof fn lemma_without(room: RoomView, id: Seq<char>)
    requires
        tables_aligned(room),
    ensures
        tables_aligned(room.without(id)),
        !room.has_player(id) ==> {
            &&& room.without(id).players == room.players
            &&& room.without(id).scores == room.scores
            &&& room.without(id).turns == room.turns
        },
        !room.has_player(id) && room.has_player(room.owner) ==> room.without(id) == room,
        room.has_player(id) ==> {
            let i = room.ids().index_of(id);
            &&& 0 <= i < room.players.len()
            &&& room.without(id).players == room.players.remove(i)
            &&& room.without(id).scores == room.scores.remove(i)
            &&& room.without(id).turns == room.turns.remove(i)
        },
{
    let keep_player = is_other_player(id);
    let keep_entry = is_other_entry(id);
    let after = room.without(id);
    assert forall|k: int| 0 <= k < room.players.len() implies room.ids()[k]
        == #[trigger] room.players[k].player_id by {}
    assert forall|k: int| 0 <= k < room.scores.len() implies (#[trigger] room.scores[k]).0
        == room.ids()[k] by {
        assert(keys(room.scores)[k] == room.ids()[k]);
    }
    assert forall|k: int| 0 <= k < room.turns.len() implies (#[trigger] room.turns[k]).0
        == room.ids()[k] by {
        assert(keys(room.turns)[k] == room.ids()[k]);
    }
    assert(room.scores.len() == keys(room.scores).len());
    assert(room.turns.len() == keys(room.turns).len());
    if room.has_player(id) {
        let i = room.ids().index_of(id);
        assert(room.ids()[i] == id);
        assert forall|k: int| 0 <= k < room.players.len() && k != i implies keep_player(
            #[trigger] room.players[k],
        ) by {
            assert(room.ids()[k] != room.ids()[i]);
        }
        assert forall|k: int| 0 <= k < room.scores.len() && k != i implies keep_entry(
            #[trigger] room.scores[k],
        ) by {
            assert(room.ids()[k] != room.ids()[i]);
        }
        assert forall|k: int| 0 <= k < room.turns.len() && k != i implies keep_entry(
            #[trigger] room.turns[k],
        ) by {
            assert(room.ids()[k] != room.ids()[i]);
        }
        lemma_filter_removes_one(room.players, keep_player, i);
        lemma_filter_removes_one(room.scores, keep_entry, i);
        lemma_filter_removes_one(room.turns, keep_entry, i);
        assert(after.players == room.players.remove(i));
        assert(after.scores == room.scores.remove(i));
        assert(after.turns == room.turns.remove(i));
        assert(after.ids() =~= room.ids().remove(i));
        assert(keys(after.scores) =~= keys(room.scores).remove(i));
        assert(keys(after.turns) =~= keys(room.turns).remove(i));
        assert forall|a: int, b: int|
            0 <= a < after.ids().len() && 0 <= b < after.ids().len() && a != b implies after.ids()[a]
            != after.ids()[b] by {
            let a0 = if a < i { a } else { a + 1 };
            let b0 = if b < i { b } else { b + 1 };
            assert(after.ids()[a] == room.ids()[a0]);
            assert(after.ids()[b] == room.ids()[b0]);
        }
    } else {
        assert forall|k: int| 0 <= k < room.players.len() implies keep_player(
            #[trigger] room.players[k],
        ) by {
            assert(room.ids()[k] != id);
        }
        assert forall|k: int| 0 <= k < room.scores.len() implies keep_entry(
            #[trigger] room.scores[k],
        ) by {
            assert(room.ids()[k] != id);
        }
        assert forall|k: int| 0 <= k < room.turns.len() implies keep_entry(
            #[trigger] room.turns[k],
        ) by {
            assert(room.ids()[k] != id);
        }
        lemma_filter_keeps_all(room.players, keep_player);
        lemma_filter_keeps_all(room.scores, keep_entry);
        lemma_filter_keeps_all(room.turns, keep_entry);
    }
}

/// A player's joining or leaving a room.
pub enum Move {
    /// The player asks to join; a room that has a member of that identifier stays as it is.
    Join(PlayerView),
    /// The player with this identifier leaves.
    Leave(Seq<char>),
}

/// The room after one player's joining or leaving.
pub open spec fn moved(room: RoomView, step: Move) -> RoomView {
    match step {
        Move::Join(player) => if room.has_player(player.player_id) {
            room
        } else {
            room.joined(player)
        },
        Move::Leave(id) => room.without(id),
    }
}

/// The room after players have joined and left it, one after the other.
pub open spec fn moved_all(room: RoomView, steps: Seq<Move>) -> RoomView
    decreases steps.len(),
{
    if steps.len() == 0 {
        room
    } else {
        moved(moved_all(room, steps.drop_last()), steps.last())
    }
}

/// Whatever players join and leave a room, in whatever order, after each of
/// them the score table, the turn table and the membership hold the same
/// identifiers.
pub proof fn lemma_keys_agree(room: RoomView, steps: Seq<Move>)
    requires
        room.wf(),
    ensures
        tables_aligned(moved_all(room, steps)),
        keys(moved_all(room, steps).scores).to_set() == moved_all(room, steps).ids().to_set(),
        keys(moved_all(room, steps).turns).to_set() == moved_all(room, steps).ids().to_set(),
    decreases steps.len(),
{
    if steps.len() > 0 {
        lemma_keys_agree(room, steps.drop_last());
        let before = moved_all(room, steps.drop_last());
        match steps.last() {
            Move::Join(player) => {
                if !before.has_player(player.player_id) {
                    let after = before.joined(player);
                    assert(after.ids() =~= before.ids().push(player.player_id));
                    assert(keys(after.scores) =~= keys(before.scores).push(player.player_id));
                    assert(keys(after.turns) =~= keys(before.turns).push(player.player_id));
                }
            },
            Move::Leave(id) => {
                lemma_without(before, id);
            },
        }
    }
}

/// What the start of a round leaves behind: the room holds the handle of
/// exactly one countdown, that of the new round, which differs from the one
/// it held before; no member is ready; every score is zero; and the members
/// and the owner are who they were.
pub proof fn lemma_started(room: RoomView, board: Seq<u8>)
    requires
        room.wf(),
        valid_board(board),
    ensures
        room.started(board).wf(),
        room.started(board).timer is Some,
        forall|handle: TimerHandle|
            room.started(board).timer == Some(handle) <==> handle.round == next_round(
                room.rounds,
            ),
        room.started(board).timer != room.timer,
        room.started(board).board == Some(board),
        room.started(board).ids() == room.ids(),
        room.started(board).owner == room.owner,
        forall|i: int|
            0 <= i < room.players.len() ==> !(#[trigger] room.started(board).players[i]).ready,
        forall|i: int|
            0 <= i < room.scores.len() ==> (#[trigger] room.started(board).scores[i]).1 == 0,
{
    let after = room.started(board);
    assert(after.ids() =~= room.ids());
    assert(keys(after.scores) =~= keys(room.scores));
}

} // verus!
