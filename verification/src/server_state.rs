//! The state of one room and the operations of its lifecycle.

use vstd::prelude::*;
use crate::board::{valid_board, BoardData};
use crate::error::RoomError;
use crate::leaderboard::{offered_all, Leaderboard, Row};
use crate::registry::{RoomRegistry, RoomTable};
use crate::room_model::{keys, lemma_without, next_round, RoomView};
use crate::ws_messages::{
    clone_players, players_view, rows_view, table_view, Player, PlayerId, PlayerView, RoomId,
    WsServerMsg,
};

verus! {

/// How long a round lasts, in seconds.
pub const GAME_DURATION_SECS: u64 = 120;

/// The handle by which a room refers to the countdown of its running round.
/// A countdown is live while its room still holds its handle.
#[derive(Clone, Copy, Debug, PartialEq, Eq, Structural)]
pub struct TimerHandle {
    /// The number of the round that the countdown belongs to.
    pub round: u64,
}

/// One row of the global leaderboard, as it is persisted.
#[derive(Debug, PartialEq, Eq)]
pub struct TopScoreEntry {
    /// The final score of a round.
    pub score: u32,
    /// The display name of the player who reached it.
    pub name: String,
}

impl View for TopScoreEntry {
    type V = (u32, Seq<char>);

    open spec fn view(&self) -> (u32, Seq<char>) {
        (self.score, self.name@)
    }
}

impl Clone for TopScoreEntry {
    fn clone(&self) -> (res: Self)
        ensures
            res == *self,
    {
        TopScoreEntry { score: self.score, name: self.name.clone() }
    }
}

/// The turn counters of the members of a room.
#[derive(Debug, PartialEq, Eq)]
pub struct TurnsUpdate {
    /// The room that the counters belong to.
    pub room_id: RoomId,
    /// The turn counter of each member, in the order in which they joined.
    pub turns: Vec<(PlayerId, u32)>,
}

/// How a round was started.
#[derive(Clone, Copy, Debug, PartialEq, Eq, Structural)]
pub struct RoundStart {
    /// The countdown that was live before and is cancelled, if any.
    pub cancelled: Option<TimerHandle>,
    /// The countdown of the new round.
    pub handle: TimerHandle,
}

/// Everything the server knows about one room.
pub struct RoomState {
    owner: PlayerId,
    players: Vec<Player>,
    board: Option<BoardData>,
    scores: Vec<(PlayerId, u32)>,
    turns: Vec<(PlayerId, u32)>,
    timer_handle: Option<TimerHandle>,
    rounds: u64,
}

impl View for RoomState {
    type V = RoomView;

    closed spec fn view(&self) -> RoomView {
        RoomView {
            owner: self.owner@,
            players: players_view(self.players@),
            board: match self.board {
                Some(cells) => Some(cells@),
                None => None,
            },
            scores: table_view(self.scores@),
            turns: table_view(self.turns@),
            timer: self.timer_handle,
            rounds: self.rounds,
        }
    }
}

impl RoomState {
    /// Whether the room satisfies its invariant.
    pub open spec fn wf(&self) -> bool {
        self@.wf()
    }

    /// Creates the room that `owner` owns and is the only member of.
    pub fn new(owner: Player) -> (room: Self)
        ensures
            room@ == RoomView::fresh(owner@),
            room.wf(),
    {
        let id = owner.player_id.clone();
        let mut players: Vec<Player> = Vec::new();
        let mut scores: Vec<(PlayerId, u32)> = Vec::new();
        let mut turns: Vec<(PlayerId, u32)> = Vec::new();
        scores.push((id.clone(), 0));
        turns.push((id.clone(), 0));
        players.push(owner);
        let room = RoomState {
            owner: id,
            players,
            board: None,
            scores,
            turns,
            timer_handle: None,
            rounds: 0,
        };
        proof {
            let v = RoomView::fresh(owner@);
            assert(room@.players =~= v.players);
            assert(room@.scores =~= v.scores);
            assert(room@.turns =~= v.turns);
            assert(v.ids() =~= seq![owner@.player_id]);
            assert(keys(v.scores) =~= v.ids());
            assert(keys(v.turns) =~= v.ids());
            assert(v.ids()[0] == v.owner);
        }
        room
    }

    /// The place of the member `id` in the order of joining, if it is a member.
    pub fn position(&self, id: &PlayerId) -> (res: Option<usize>)
        ensures
            match res {
                Some(i) => {
                    &&& i < self@.players.len()
                    &&& self@.players[i as int].player_id == id@
                    &&& forall|k: int| 0 <= k < i ==> self@.ids()[k] != id@
                },
                None => !self@.has_player(id@),
            },
    {
        let mut i: usize = 0;
        while i < self.players.len()
            invariant
                i <= self.players.len(),
                forall|k: int| 0 <= k < i ==> self@.ids()[k] != id@,
            decreases self.players.len() - i,
        {
            if self.players[i].player_id == *id {
                return Some(i);
            }
            i += 1;
        }
        None
    }

    /// Whether a player with identifier `id` is a member.
    pub fn contains_player(&self, id: &PlayerId) -> (res: bool)
        ensures
            res == self@.has_player(id@),
    {
        match self.position(id) {
            Some(i) => {
                assert(self@.ids()[i as int] == id@);
                true
            },
            None => false,
        }
    }

    /// Adds `player` to the room with score and turn counter zero, unless a
    /// member already has its identifier.
    pub fn join(&mut self, player: Player) -> (res: Result<(), RoomError>)
        requires
            old(self).wf(),
        ensures
            final(self).wf(),
            old(self)@.has_player(player@.player_id) ==> res == Err::<(), RoomError>(
                RoomError::AlreadyInRoom,
            ) && final(self)@ == old(self)@,
            !old(self)@.has_player(player@.player_id) ==> res is Ok && final(self)@ == old(
                self,
            )@.joined(player@),
    {
        if self.contains_player(&player.player_id) {
            return Err(RoomError::AlreadyInRoom);
        }
        let id = player.player_id.clone();
        self.scores.push((id.clone(), 0));
        self.turns.push((id, 0));
        self.players.push(player);
        proof {
            let v = old(self)@.joined(player@);
            assert(self@.players =~= v.players);
            assert(self@.scores =~= v.scores);
            assert(self@.turns =~= v.turns);
            assert(v.ids() =~= old(self)@.ids().push(player@.player_id));
            assert(keys(v.scores) =~= v.ids());
            assert(keys(v.turns) =~= v.ids());
            let k = choose|k: int|
                0 <= k < old(self)@.ids().len() && old(self)@.ids()[k] == v.owner;
            assert(v.ids()[k] == v.owner);
        }
        Ok(())
    }

    /// Sets the ready flag of the member `id`.
    pub fn set_ready(&mut self, id: &PlayerId, ready: bool) -> (res: Result<(), RoomError>)
        requires
            old(self).wf(),
        ensures
            final(self).wf(),
            !old(self)@.has_player(id@) ==> res == Err::<(), RoomError>(RoomError::NotInRoom)
                && final(self)@ == old(self)@,
            old(self)@.has_player(id@) ==> res is Ok && final(self)@ == old(self)@.with_ready(
                id@,
                ready,
            ),
    {
        match self.position(id) {
            None => Err(RoomError::NotInRoom),
            Some(i) => {
                assert(old(self)@.ids()[i as int] == id@);
                self.players[i].ready = ready;
                proof {
                    let v = old(self)@.with_ready(id@, ready);
                    assert forall|k: int| 0 <= k < v.players.len() implies self@.players[k]
                        == v.players[k] by {
                        if k != i {
                            assert(old(self)@.ids()[k] != old(self)@.ids()[i as int]);
                        }
                    }
                    assert(self@.players =~= v.players);
                    assert(v.ids() =~= old(self)@.ids());
                }
                Ok(())
            },
        }
    }

    /// Whether every member other than the owner is ready.
    pub fn all_ready(&self) -> (res: bool)
        ensures
            res == self@.all_ready(),
    {
        let mut i: usize = 0;
        while i < self.players.len()
            invariant
                i <= self.players.len(),
                forall|k: int|
                    0 <= k < i && self@.players[k].player_id != self@.owner ==> (
                    #[trigger] self@.players[k]).ready,
            decreases self.players.len() - i,
        {
            if self.players[i].player_id != self.owner && !self.players[i].ready {
                assert(!self@.players[i as int].ready);
                return false;
            }
            i += 1;
        }
        true
    }

    /// Starts a round on `board` at the request of `caller`. Only the owner may
    /// start a round, and only when every other member is ready. On success
    /// every score is zero again, no member is ready, and the room holds the
    /// handle of a new countdown in place of the one it held before.
    pub fn start_game(&mut self, caller: &PlayerId, board: BoardData) -> (res: Result<
        RoundStart,
        RoomError,
    >)
        requires
            old(self).wf(),
            valid_board(board@),
        ensures
            final(self).wf(),
            caller@ != old(self)@.owner ==> res == Err::<RoundStart, RoomError>(
                RoomError::NotOwner,
            ),
            caller@ == old(self)@.owner && !old(self)@.all_ready() ==> res == Err::<
                RoundStart,
                RoomError,
            >(RoomError::PlayersNotReady),
            caller@ == old(self)@.owner && old(self)@.all_ready() ==> res == Ok::<
                RoundStart,
                RoomError,
            >(
                RoundStart {
                    cancelled: old(self)@.timer,
                    handle: TimerHandle { round: next_round(old(self)@.rounds) },
                },
            ),
            res is Err ==> final(self)@ == old(self)@,
            res is Ok ==> final(self)@ == old(self)@.started(board@),
    {
        if *caller != self.owner {
            return Err(RoomError::NotOwner);
        }
        if !self.all_ready() {
            return Err(RoomError::PlayersNotReady);
        }
        let cancelled = self.timer_handle;
        let round: u64 = if self.rounds == u64::MAX {
            0
        } else {
            self.rounds + 1
        };
        let handle = TimerHandle { round };
        self.board = Some(board);
        let n = self.players.len();
        let mut i: usize = 0;
        while i < n
            invariant
                i <= n,
                self.players@.len() == n,
                self.scores@.len() == n,
                self.turns == old(self).turns,
                self.owner == old(self).owner,
                self.board == Some(board),
                self.rounds == old(self).rounds,
                self.timer_handle == old(self).timer_handle,
                old(self).players@.len() == n,
                old(self).scores@.len() == n,
                forall|k: int|
                    0 <= k < i ==> (#[trigger] self.players@[k])@ == (PlayerView {
                        ready: false,
                        ..old(self).players@[k]@
                    }),
                forall|k: int| i <= k < n ==> (#[trigger] self.players@[k]) == old(self).players@[k],
                forall|k: int|
                    0 <= k < i ==> (#[trigger] self.scores@[k]).0 == old(self).scores@[k].0
                        && self.scores@[k].1 == 0,
                forall|k: int| i <= k < n ==> (#[trigger] self.scores@[k]) == old(self).scores@[k],
            decreases n - i,
        {
            self.players[i].ready = false;
            self.scores[i].1 = 0;
            i += 1;
        }
        self.timer_handle = Some(handle);
        self.rounds = round;
        proof {
            let v = old(self)@.started(board@);
            assert forall|k: int| 0 <= k < n implies self@.players[k] == v.players[k] by {
                assert(self.players@[k]@ == v.players[k]);
            }
            assert(self@.players =~= v.players);
            assert forall|k: int| 0 <= k < n implies self@.scores[k] == v.scores[k] by {
                assert(self.scores@[k].1 == 0);
            }
            assert(self@.scores =~= v.scores);
            assert(v.ids() =~= old(self)@.ids());
            assert(keys(v.scores) =~= keys(old(self)@.scores));
        }
        Ok(RoundStart { cancelled, handle })
    }

    /// Whether the score of the member `id` can grow by `cleared`.
    pub fn can_add_score(&self, id: &PlayerId, cleared: u32) -> (res: bool)
        requires
            self.wf(),
        ensures
            res == self@.score_fits(id@, cleared),
    {
        match self.position(id) {
            None => {
                assert forall|i: int|
                    0 <= i < self@.scores.len() && self@.scores[i].0 == id@ implies (
                #[trigger] self@.scores[i]).1 + cleared <= u32::MAX by {
                    assert(keys(self@.scores)[i] == id@);
                    assert(self@.ids()[i] == id@);
                }
                true
            },
            Some(i) => {
                let fits = self.scores[i].1 <= u32::MAX - cleared;
                proof {
                    assert(keys(self@.scores)[i as int] == self@.ids()[i as int]);
                    if fits {
                        assert forall|k: int|
                            0 <= k < self@.scores.len() && self@.scores[k].0 == id@ implies (
                        #[trigger] self@.scores[k]).1 + cleared <= u32::MAX by {
                            assert(keys(self@.scores)[k] == self@.ids()[k]);
                            assert(self@.ids()[k] == self@.ids()[i as int]);
                        }
                    }
                }
                fits
            },
        }
    }

    /// Adds `cleared` to the running score of the member `id`. The report is
    /// taken on trust: nothing is checked against the board.
    pub fn add_score(&mut self, id: &PlayerId, cleared: u32) -> (res: Result<(), RoomError>)
        requires
            old(self).wf(),
            old(self)@.score_fits(id@, cleared),
        ensures
            final(self).wf(),
            !old(self)@.has_player(id@) ==> res == Err::<(), RoomError>(RoomError::NotInRoom)
                && final(self)@ == old(self)@,
            old(self)@.has_player(id@) ==> res is Ok && final(self)@ == old(
                self,
            )@.with_score_added(id@, cleared),
    {
        match self.position(id) {
            None => Err(RoomError::NotInRoom),
            Some(i) => {
                assert(old(self)@.ids()[i as int] == id@);
                assert(keys(old(self)@.scores)[i as int] == id@);
                let total: u32 = self.scores[i].1 + cleared;
                self.scores[i].1 = total;
                proof {
                    let v = old(self)@.with_score_added(id@, cleared);
                    assert forall|k: int| 0 <= k < v.scores.len() implies self@.scores[k]
                        == v.scores[k] by {
                        assert(keys(old(self)@.scores)[k] == old(self)@.ids()[k]);
                        if k != i {
                            assert(old(self)@.ids()[k] != old(self)@.ids()[i as int]);
                        }
                    }
                    assert(self@.scores =~= v.scores);
                    assert(keys(v.scores) =~= keys(old(self)@.scores));
                }
                Ok(())
            },
        }
    }

    /// Removes the player `id` with its score and turn entries, and says
    /// whether the room is now empty. If the owner leaves and a member
    /// remains, the member that joined first becomes the owner. Which member
    /// inherits a room is this library's choice. A room that is left empty no
    /// longer satisfies its invariant and is to be discarded.
    pub fn remove_player(&mut self, id: &PlayerId) -> (emptied: bool)
        requires
            old(self).wf(),
        ensures
            final(self)@ == old(self)@.without(id@),
            emptied == (final(self)@.players.len() == 0),
            !emptied ==> final(self).wf(),
            !old(self)@.has_player(id@) ==> final(self)@ == old(self)@,
    {
        proof {
            lemma_without(self@, id@);
        }
        match self.position(id) {
            None => false,
            Some(i) => {
                proof {
                    assert(self@.ids()[i as int] == id@);
                    assert(self@.ids().index_of(id@) == i);
                }
                self.players.remove(i);
                self.scores.remove(i);
                self.turns.remove(i);
                let emptied = self.players.len() == 0;
                if !emptied && self.owner == *id {
                    self.owner = self.players[0].player_id.clone();
                }
                proof {
                    let v = old(self)@.without(id@);
                    assert(self@.players =~= old(self)@.players.remove(i as int));
                    assert(self@.scores =~= old(self)@.scores.remove(i as int));
                    assert(self@.turns =~= old(self)@.turns.remove(i as int));
                    if !emptied {
                        if old(self)@.owner == id@ {
                            assert(v.ids()[0] == v.owner);
                        } else {
                            let k = old(self)@.ids().index_of(old(self)@.owner);
                            assert(old(self)@.ids()[k] == old(self)@.owner);
                            let k1 = if k < i { k } else { k - 1 };
                            assert(v.ids()[k1] == v.owner);
                        }
                    }
                }
                emptied
            },
        }
    }

    /// Ends the round: the room keeps its board and gives up its countdown.
    pub fn finish_round(&mut self)
        requires
            old(self).wf(),
        ensures
            final(self).wf(),
            final(self)@ == old(self)@.finished(),
    {
        self.timer_handle = None;
    }

    /// Whether `handle` is the handle of the room's live countdown.
    pub fn timer_is_live(&self, handle: TimerHandle) -> (res: bool)
        ensures
            res == (self@.timer == Some(handle)),
    {
        match self.timer_handle {
            Some(h) => h.round == handle.round,
            None => false,
        }
    }

    /// The event that tells the members of the room, known as `room_id`, who is in it.
    pub fn membership(&self, room_id: &RoomId) -> (msg: WsServerMsg)
        ensures
            msg@ == self@.membership(room_id@),
    {
        WsServerMsg::RoomPlayersUpdate {
            room_id: room_id.clone(),
            players: clone_players(&self.players),
            owner_id: self.owner.clone(),
        }
    }

    /// The event that tells the members of the room, known as `room_id`, every running score.
    pub fn score_table(&self, room_id: &RoomId) -> (msg: WsServerMsg)
        ensures
            msg@ == self@.score_table(room_id@),
    {
        let mut scores: Vec<(PlayerId, u32)> = Vec::new();
        let mut i: usize = 0;
        while i < self.scores.len()
            invariant
                i <= self.scores.len(),
                scores@.len() == i,
                forall|k: int| 0 <= k < i ==> (#[trigger] scores@[k]) == self.scores@[k],
            decreases self.scores.len() - i,
        {
            scores.push((self.scores[i].0.clone(), self.scores[i].1));
            i += 1;
        }
        assert(scores@ =~= self.scores@);
        WsServerMsg::LeaderboardUpdate { room_id: room_id.clone(), scores }
    }

    /// The event by which the member `id` says `message` to the room, known as `room_id`.
    pub fn chat(&self, room_id: &RoomId, id: &PlayerId, message: String) -> (res: Result<
        WsServerMsg,
        RoomError,
    >)
        requires
            self.wf(),
        ensures
            !self@.has_player(id@) ==> (res matches Err(e) && e == RoomError::NotInRoom),
            self@.has_player(id@) ==> (res matches Ok(msg) && msg@ == self@.chat(
                room_id@,
                id@,
                message@,
            )),
    {
        match self.position(id) {
            None => Err(RoomError::NotInRoom),
            Some(i) => {
                proof {
                    assert(self@.ids()[i as int] == id@);
                    let k = self@.ids().index_of(id@);
                    assert(self@.ids()[k] == id@);
                    assert(k == i);
                }
                Ok(
                    WsServerMsg::ChatBroadcast {
                        room_id: room_id.clone(),
                        player: self.players[i].clone(),
                        message,
                    },
                )
            },
        }
    }

    /// The rows that the room offers to the leaderboard when its round ends.
    pub fn round_results(&self) -> (rows: Vec<(u32, String)>)
        requires
            self.wf(),
        ensures
            rows_view(rows@) == self@.results(),
    {
        let mut rows: Vec<(u32, String)> = Vec::new();
        let mut i: usize = 0;
        assert(keys(self@.scores).len() == self@.ids().len());
        while i < self.scores.len()
            invariant
                i <= self.scores.len(),
                self.scores@.len() == self.players@.len(),
                rows@.len() == i,
                forall|k: int|
                    0 <= k < i ==> (#[trigger] rows@[k]).0 == self.scores@[k].1 && rows@[k].1@
                        == self.players@[k].name@,
            decreases self.scores.len() - i,
        {
            rows.push((self.scores[i].1, self.players[i].name.clone()));
            i += 1;
        }
        assert(rows_view(rows@) =~= self@.results());
        rows
    }

    /// The identifier of the owner.
    pub fn owner(&self) -> (id: &PlayerId)
        ensures
            id@ == self@.owner,
    {
        &self.owner
    }

    /// The members, in the order in which they joined.
    pub fn players(&self) -> (players: &Vec<Player>)
        ensures
            players_view(players@) == self@.players,
    {
        &self.players
    }

    /// The running score of each member, in the order in which they joined.
    pub fn scores(&self) -> (scores: &Vec<(PlayerId, u32)>)
        ensures
            table_view(scores@) == self@.scores,
    {
        &self.scores
    }

    /// The turn counter of each member, in the order in which they joined.
    pub fn turns(&self) -> (turns: &Vec<(PlayerId, u32)>)
        ensures
            table_view(turns@) == self@.turns,
    {
        &self.turns
    }

    /// The board of the last round that was started, if any.
    pub fn board(&self) -> (board: &Option<BoardData>)
        ensures
            match *board {
                Some(cells) => self@.board == Some(cells@) && (self.wf() ==> valid_board(cells@)),
                None => self@.board is None,
            },
    {
        &self.board
    }

    /// Whether `id` is the identifier of the owner.
    pub fn is_owner(&self, id: &PlayerId) -> (res: bool)
        ensures
            res == (self@.owner == id@),
    {
        self.owner == *id
    }

    /// The handle of the live countdown, if any.
    pub fn timer_handle(&self) -> (res: Option<TimerHandle>)
        ensures
            res == self@.timer,
    {
        self.timer_handle
    }
}

/// The state that all connections share: the table of rooms and the
/// global leaderboard. The two are guarded independently of each other; a
/// task that needs both takes the leaderboard first.
pub struct AppState {
    /// The table of rooms.
    pub rooms: RoomRegistry,
    /// The global leaderboard.
    pub top_10: Leaderboard,
}

impl AppState {
    /// The state of a server that knows no room and no score.
    pub fn new() -> (state: Self)
        ensures
            state.rooms.wf(),
            state.top_10.wf(),
            state.rooms@ == RoomTable::empty(),
            state.top_10@ == Seq::<Row>::empty(),
    {
        AppState { rooms: RoomRegistry::new(), top_10: Leaderboard::new() }
    }

    /// The state of a server that knows no room and starts from the leaderboard `top_10`.
    pub fn new_with_top_10(top_10: Leaderboard) -> (state: Self)
        ensures
            state.rooms.wf(),
            state.rooms@ == RoomTable::empty(),
            state.top_10 == top_10,
    {
        AppState { rooms: RoomRegistry::new(), top_10 }
    }

    /// The leaderboard that the persisted rows `entries` stand for: each row
    /// is offered in turn to an empty leaderboard. Where nothing was
    /// persisted, or what was persisted cannot be read, the caller passes no
    /// rows and gets the empty leaderboard.
    pub fn load_top_10(entries: Vec<TopScoreEntry>) -> (top_10: Leaderboard)
        ensures
            top_10.wf(),
            top_10@ == offered_all(Seq::<Row>::empty(), entries@.map_values(|e: TopScoreEntry| e@)),
    {
        Leaderboard::from_entries(entries)
    }

    /// The rows to persist for the leaderboard `heap`, best score first.
    pub fn save_top_10(heap: &Leaderboard) -> (entries: Vec<TopScoreEntry>)
        ensures
            entries@.map_values(|e: TopScoreEntry| e@) == heap@,
    {
        heap.entries()
    }
}

} // verus!
