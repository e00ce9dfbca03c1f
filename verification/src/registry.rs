//! The table of all rooms and the operations of a room's lifecycle.

use vstd::prelude::*;
use crate::board::{generate_board, valid_board, BoardData};
use crate::error::RoomError;
use crate::room_model::RoomView;
use crate::server_state::{RoomState, RoundStart, TimerHandle, GAME_DURATION_SECS};
use crate::ws_messages::{
    msgs_view, rows_view, Player, PlayerId, RoomId, ServerMsgView, WsServerMsg,
};

verus! {

/// Mathematical view of the table of rooms: each room by its identifier.
pub type RoomTable = Map<Seq<char>, RoomView>;

/// One room of the table with the identifier it is known by.
struct Slot {
    id: RoomId,
    room: RoomState,
}

/// Whether a room known as `id` is among `slots`.
spec fn holds(slots: Seq<Slot>, id: Seq<char>) -> bool {
    exists|i: int| 0 <= i < slots.len() && (#[trigger] slots[i]).id@ == id
}

/// The place among `slots` of the room known as `id`.
spec fn slot_of(slots: Seq<Slot>, id: Seq<char>) -> int {
    choose|i: int| 0 <= i < slots.len() && (#[trigger] slots[i]).id@ == id
}

/// Whether no two of `slots` are known by the same identifier.
spec fn distinct(slots: Seq<Slot>) -> bool {
    forall|i: int, j: int|
        0 <= i < slots.len() && 0 <= j < slots.len() && i != j ==> (#[trigger] slots[i]).id@ != (
        #[trigger] slots[j]).id@
}

/// The table that `slots` stand for.
spec fn table_of(slots: Seq<Slot>) -> RoomTable {
    Map::new(|id: Seq<char>| holds(slots, id), |id: Seq<char>| slots[slot_of(slots, id)].room@)
}

/// Among distinct slots, a slot is found by its identifier.
proof fn lemma_slot(slots: Seq<Slot>, i: int)
    requires
        distinct(slots),
        0 <= i < slots.len(),
    ensures
        holds(slots, slots[i].id@),
        slot_of(slots, slots[i].id@) == i,
        table_of(slots).contains_key(slots[i].id@),
        table_of(slots)[slots[i].id@] == slots[i].room@,
{
    assert(slots[i].id@ == slots[i].id@);
    let j = slot_of(slots, slots[i].id@);
    assert(slots[j].id@ == slots[i].id@);
}

/// The events that answer the creation of a room.
pub open spec fn creation_events(room_id: Seq<char>, room: RoomView) -> Seq<ServerMsgView> {
    seq![ServerMsgView::RoomCreated { room_id }, room.membership(room_id)]
}

/// The event that tells the members of room `room_id` that a round started on `board`.
pub open spec fn game_started(room_id: Seq<char>, board: Seq<u8>) -> ServerMsgView {
    ServerMsgView::GameStarted { room_id, board, duration_secs: GAME_DURATION_SECS }
}

/// Why the room `room_id` cannot start a round at the request of `caller`, if it cannot.
pub open spec fn start_refusal(table: RoomTable, room_id: Seq<char>, caller: Seq<char>) -> Option<
    RoomError,
> {
    if !table.contains_key(room_id) {
        Some(RoomError::RoomNotFound)
    } else if table[room_id].owner != caller {
        Some(RoomError::NotOwner)
    } else if !table[room_id].all_ready() {
        Some(RoomError::PlayersNotReady)
    } else {
        None
    }
}

/// Why a member's command to the room `room_id` is refused, if it is.
pub open spec fn member_refusal(table: RoomTable, room_id: Seq<char>, player_id: Seq<char>)
    -> Option<RoomError> {
    if !table.contains_key(room_id) {
        Some(RoomError::RoomNotFound)
    } else if !table[room_id].has_player(player_id) {
        Some(RoomError::NotInRoom)
    } else {
        None
    }
}

/// What the start of a round asks of the caller.
#[derive(Debug, PartialEq, Eq)]
pub struct GameStart {
    /// The refreshed membership, to be published first.
    pub membership: WsServerMsg,
    /// The announcement of the round with its board, to be published second.
    pub started: WsServerMsg,
    /// The countdown to cancel, if any, and the one to start.
    pub round: RoundStart,
}

/// What became of a room that a player left.
#[derive(Debug, PartialEq, Eq)]
pub enum Leave {
    /// No room is known by that identifier: nothing happened.
    NoRoom,
    /// The room lives on, and its membership is to be published.
    Remains { membership: WsServerMsg },
    /// The room was left empty and is gone. Its countdown, if it had one, is cancelled.
    Destroyed { cancelled: Option<TimerHandle> },
}

/// Mathematical view of a [`Leave`].
pub enum LeaveView {
    NoRoom,
    Remains { membership: ServerMsgView },
    Destroyed { cancelled: Option<TimerHandle> },
}

impl View for Leave {
    type V = LeaveView;

    open spec fn view(&self) -> LeaveView {
        match *self {
            Leave::NoRoom => LeaveView::NoRoom,
            Leave::Remains { membership } => LeaveView::Remains {
                membership: membership@,
            },
            Leave::Destroyed { cancelled } => LeaveView::Destroyed { cancelled },
        }
    }
}

/// The table after the player `player_id` has left the room `room_id`: a room
/// that is left empty is gone from the table.
pub open spec fn table_without(table: RoomTable, room_id: Seq<char>, player_id: Seq<char>)
    -> RoomTable {
    if !table.contains_key(room_id) {
        table
    } else if table[room_id].without(player_id).players.len() == 0 {
        table.remove(room_id)
    } else {
        table.insert(room_id, table[room_id].without(player_id))
    }
}

/// What a player's leaving means for the room `room_id`.
pub open spec fn leave_result(table: RoomTable, room_id: Seq<char>, player_id: Seq<char>)
    -> LeaveView {
    if !table.contains_key(room_id) {
        LeaveView::NoRoom
    } else if table[room_id].without(player_id).players.len() == 0 {
        LeaveView::Destroyed { cancelled: table[room_id].timer }
    } else {
        LeaveView::Remains {
            membership: table[room_id].without(player_id).membership(room_id),
        }
    }
}

/// The table of rooms. All operations on rooms go through it, one at a time.
pub struct RoomRegistry {
    slots: Vec<Slot>,
}

impl View for RoomRegistry {
    type V = RoomTable;

    closed spec fn view(&self) -> RoomTable {
        table_of(self.slots@)
    }
}

/// Draws a fresh room identifier: a random (version 4) UUID from
/// `uuid::Uuid::new_v4()`, written by its `Display` impl in the hyphenated
/// lower-case form, which is always 36 characters long. Nothing else is
/// claimed of it: it is random. The call fails only where the operating
/// system's source of randomness does.
#[verifier::external_body]
fn new_room_id() -> (id: RoomId)
    ensures
        id@.len() == 36,
{
    uuid::Uuid::new_v4().to_string()
}

impl RoomRegistry {
    /// The invariant of the table: no two rooms are known by the same
    /// identifier, and every room satisfies its own invariant.
    pub closed spec fn wf(&self) -> bool {
        &&& distinct(self.slots@)
        &&& forall|i: int| 0 <= i < self.slots@.len() ==> (#[trigger] self.slots@[i]).room.wf()
    }

    /// Every room of a table that satisfies its invariant satisfies its own:
    /// in particular it has a member, and its owner is one.
    pub proof fn lemma_rooms_wf(&self)
        requires
            self.wf(),
        ensures
            forall|id: Seq<char>| self@.contains_key(id) ==> (#[trigger] self@[id]).wf(),
    {
        assert forall|id: Seq<char>| self@.contains_key(id) implies (#[trigger] self@[id]).wf() by {
            let i = slot_of(self.slots@, id);
            assert(self.slots@[i].room.wf());
        }
    }

    /// The empty table.
    pub fn new() -> (registry: Self)
        ensures
            registry.wf(),
            registry@ == RoomTable::empty(),
    {
        let registry = RoomRegistry { slots: Vec::new() };
        assert(registry@ =~= RoomTable::empty());
        registry
    }

    /// The place of the room known as `room_id`.
    fn find(&self, room_id: &RoomId) -> (res: Option<usize>)
        requires
            self.wf(),
        ensures
            match res {
                Some(i) => i < self.slots@.len() && self.slots@[i as int].id@ == room_id@
                    && self@.contains_key(room_id@) && self@[room_id@] == self.slots@[i as int].room@,
                None => !self@.contains_key(room_id@),
            },
    {
        let mut i: usize = 0;
        while i < self.slots.len()
            invariant
                self.wf(),
                i <= self.slots.len(),
                forall|k: int| 0 <= k < i ==> (#[trigger] self.slots@[k]).id@ != room_id@,
            decreases self.slots.len() - i,
        {
            if self.slots[i].id == *room_id {
                proof {
                    lemma_slot(self.slots@, i as int);
                }
                return Some(i);
            }
            i += 1;
        }
        None
    }

    /// Whether a room is known as `room_id`.
    pub fn contains_room(&self, room_id: &RoomId) -> (res: bool)
        requires
            self.wf(),
        ensures
            res == self@.contains_key(room_id@),
    {
        self.find(room_id).is_some()
    }

    /// The room known as `room_id`, if there is one.
    pub fn room(&self, room_id: &RoomId) -> (res: Option<&RoomState>)
        requires
            self.wf(),
        ensures
            match res {
                Some(room) => self@.contains_key(room_id@) && room@ == self@[room_id@]
                    && room.wf(),
                None => !self@.contains_key(room_id@),
            },
    {
        match self.find(room_id) {
            Some(i) => Some(&self.slots[i].room),
            None => None,
        }
    }

    /// The number of rooms.
    pub fn len(&self) -> (n: usize)
        requires
            self.wf(),
        ensures
            n == self@.dom().len(),
            self@.dom().finite(),
    {
        proof {
            lemma_table_len(self.slots@);
        }
        self.slots.len()
    }

    /// Installs under `room_id` a new room that `owner` owns and is the only
    /// member of, in place of any room known by that identifier before, and
    /// returns the events that answer its creation: the room's identifier and
    /// its membership.
    pub fn insert_room(&mut self, room_id: RoomId, owner: Player) -> (events: Vec<WsServerMsg>)
        requires
            old(self).wf(),
        ensures
            final(self).wf(),
            final(self)@ == old(self)@.insert(room_id@, RoomView::fresh(owner@)),
            msgs_view(events@) == creation_events(
                room_id@,
                RoomView::fresh(owner@),
            ),
    {
        let room = RoomState::new(owner);
        let mut events: Vec<WsServerMsg> = Vec::new();
        events.push(WsServerMsg::RoomCreated { room_id: room_id.clone() });
        events.push(room.membership(&room_id));
        assert(msgs_view(events@) =~= creation_events(
            room_id@,
            RoomView::fresh(owner@),
        ));
        match self.find(&room_id) {
            Some(i) => {
                self.slots[i].room = room;
                proof {
                    lemma_update_room(old(self).slots@, i as int, self.slots@);
                }
            },
            None => {
                self.slots.push(Slot { id: room_id, room });
                proof {
                    assert(self.slots@.drop_last() =~= old(self).slots@);
                    lemma_push_room(old(self).slots@, self.slots@);
                }
            },
        }
        events
    }

    /// Creates a room under a fresh random identifier, with `owner` as its
    /// owner and only member, and returns the identifier with the events that
    /// answer the creation. A room that happens to be known by the same
    /// identifier is replaced.
    pub fn create_room(&mut self, owner: Player) -> (res: (RoomId, Vec<WsServerMsg>))
        requires
            old(self).wf(),
        ensures
            final(self).wf(),
            res.0@.len() == 36,
            final(self)@ == old(self)@.insert(res.0@, RoomView::fresh(owner@)),
            msgs_view(res.1@) == creation_events(
                res.0@,
                RoomView::fresh(owner@),
            ),
    {
        let room_id = new_room_id();
        let events = self.insert_room(room_id.clone(), owner);
        (room_id, events)
    }

    /// Adds `player` to the room `room_id` with score and turn counter zero,
    /// and returns the membership to publish.
    pub fn join_room(&mut self, room_id: &RoomId, player: Player) -> (res: Result<
        WsServerMsg,
        RoomError,
    >)
        requires
            old(self).wf(),
        ensures
            final(self).wf(),
            !old(self)@.contains_key(room_id@) ==> (res matches Err(e) && e
                == RoomError::RoomNotFound),
            old(self)@.contains_key(room_id@) && old(self)@[room_id@].has_player(
                player@.player_id,
            ) ==> (res matches Err(e) && e == RoomError::AlreadyInRoom),
            old(self)@.contains_key(room_id@) && !old(self)@[room_id@].has_player(
                player@.player_id,
            ) ==> (res matches Ok(msg) && msg@ == old(self)@[room_id@].joined(player@).membership(
                room_id@,
            )),
            res is Err ==> final(self)@ == old(self)@,
            res is Ok ==> final(self)@ == old(self)@.insert(
                room_id@,
                old(self)@[room_id@].joined(player@),
            ),
    {
        match self.find(room_id) {
            None => Err(RoomError::RoomNotFound),
            Some(i) => {
                match self.slots[i].room.join(player) {
                    Err(e) => {
                        proof {
                            lemma_update_room(old(self).slots@, i as int, self.slots@);
                            assert(self@ =~= old(self)@);
                        }
                        Err(e)
                    },
                    Ok(()) => {
                        proof {
                            lemma_update_room(old(self).slots@, i as int, self.slots@);
                        }
                        Ok(self.slots[i].room.membership(room_id))
                    },
                }
            },
        }
    }

    /// Sets the ready flag of the member `player_id` of the room `room_id`,
    /// and returns the membership to publish.
    pub fn ready_up(&mut self, room_id: &RoomId, player_id: &PlayerId, ready: bool) -> (res:
        Result<WsServerMsg, RoomError>)
        requires
            old(self).wf(),
        ensures
            final(self).wf(),
            !old(self)@.contains_key(room_id@) ==> (res matches Err(e) && e
                == RoomError::RoomNotFound),
            old(self)@.contains_key(room_id@) && !old(self)@[room_id@].has_player(player_id@)
                ==> (res matches Err(e) && e == RoomError::NotInRoom),
            old(self)@.contains_key(room_id@) && old(self)@[room_id@].has_player(player_id@)
                ==> (res matches Ok(msg) && msg@ == old(self)@[room_id@].with_ready(
                player_id@,
                ready,
            ).membership(room_id@)),
            res is Err ==> final(self)@ == old(self)@,
            res is Ok ==> final(self)@ == old(self)@.insert(
                room_id@,
                old(self)@[room_id@].with_ready(player_id@, ready),
            ),
    {
        match self.find(room_id) {
            None => Err(RoomError::RoomNotFound),
            Some(i) => {
                match self.slots[i].room.set_ready(player_id, ready) {
                    Err(e) => {
                        proof {
                            lemma_update_room(old(self).slots@, i as int, self.slots@);
                            assert(self@ =~= old(self)@);
                        }
                        Err(e)
                    },
                    Ok(()) => {
                        proof {
                            lemma_update_room(old(self).slots@, i as int, self.slots@);
                        }
                        Ok(self.slots[i].room.membership(room_id))
                    },
                }
            },
        }
    }

    /// Whether the room `room_id` can start a round at the request of `caller`.
    pub fn check_start(&self, room_id: &RoomId, caller: &PlayerId) -> (res: Result<(), RoomError>)
        requires
            self.wf(),
        ensures
            match start_refusal(self@, room_id@, caller@) {
                Some(e) => res == Err::<(), RoomError>(e),
                None => res is Ok,
            },
    {
        match self.find(room_id) {
            None => Err(RoomError::RoomNotFound),
            Some(i) => {
                if self.slots[i].room.is_owner(caller) {
                    if self.slots[i].room.all_ready() {
                        Ok(())
                    } else {
                        Err(RoomError::PlayersNotReady)
                    }
                } else {
                    Err(RoomError::NotOwner)
                }
            },
        }
    }

    /// Starts a round on `board` in the room `room_id` at the request of
    /// `caller`. Only the owner may start a round, and only when every other
    /// member is ready. On success every score of the room is zero again, no
    /// member is ready, and the room holds the handle of a new countdown.
    pub fn start_game_on(&mut self, room_id: &RoomId, caller: &PlayerId, board: BoardData) -> (res:
        Result<GameStart, RoomError>)
        requires
            old(self).wf(),
            valid_board(board@),
        ensures
            final(self).wf(),
            match start_refusal(old(self)@, room_id@, caller@) {
                Some(e) => res matches Err(err) && err == e && final(self)@ == old(self)@,
                None => {
                    &&& res matches Ok(start)
                    &&& final(self)@ == old(self)@.insert(
                        room_id@,
                        old(self)@[room_id@].started(board@),
                    )
                    &&& start.membership@ == old(self)@[room_id@].started(board@).membership(
                        room_id@,
                    )
                    &&& start.started@ == game_started(room_id@, board@)
                    &&& start.round.cancelled == old(self)@[room_id@].timer
                    &&& Some(start.round.handle) == final(self)@[room_id@].timer
                    &&& Some(start.round.handle) != start.round.cancelled
                },
            },
    {
        match self.find(room_id) {
            None => Err(RoomError::RoomNotFound),
            Some(i) => {
                let started = WsServerMsg::GameStarted {
                    room_id: room_id.clone(),
                    board: board.clone(),
                    duration_secs: GAME_DURATION_SECS,
                };
                proof {
                    self.lemma_rooms_wf();
                }
                match self.slots[i].room.start_game(caller, board) {
                    Err(e) => {
                        proof {
                            lemma_update_room(old(self).slots@, i as int, self.slots@);
                            assert(self@ =~= old(self)@);
                        }
                        Err(e)
                    },
                    Ok(round) => {
                        proof {
                            lemma_update_room(old(self).slots@, i as int, self.slots@);
                        }
                        let membership = self.slots[i].room.membership(room_id);
                        Ok(GameStart { membership, started, round })
                    },
                }
            },
        }
    }

    /// Starts a round on a fresh random board in the room `room_id` at the
    /// request of `caller`. The board that was drawn is the one that the
    /// announcement carries.
    pub fn start_game(&mut self, room_id: &RoomId, caller: &PlayerId) -> (res: Result<
        GameStart,
        RoomError,
    >)
        requires
            old(self).wf(),
        ensures
            final(self).wf(),
            match start_refusal(old(self)@, room_id@, caller@) {
                Some(e) => res matches Err(err) && err == e && final(self)@ == old(self)@,
                None => {
                    &&& res matches Ok(start)
                    &&& start.started@ matches ServerMsgView::GameStarted {
                        room_id: id,
                        board,
                        duration_secs,
                    }
                    &&& id == room_id@
                    &&& duration_secs == GAME_DURATION_SECS
                    &&& valid_board(board)
                    &&& final(self)@ == old(self)@.insert(
                        room_id@,
                        old(self)@[room_id@].started(board),
                    )
                    &&& start.membership@ == old(self)@[room_id@].started(board).membership(
                        room_id@,
                    )
                    &&& start.round.cancelled == old(self)@[room_id@].timer
                    &&& Some(start.round.handle) == final(self)@[room_id@].timer
                    &&& Some(start.round.handle) != start.round.cancelled
                },
            },
    {
        match self.check_start(room_id, caller) {
            Err(e) => Err(e),
            Ok(()) => {
                let board = generate_board();
                self.start_game_on(room_id, caller, board)
            },
        }
    }

    /// Whether the score of the member `player_id` of the room `room_id` can
    /// grow by `cleared` without leaving the range of `u32`. True when
    /// there is no such room or member.
    pub open spec fn score_fits(&self, room_id: Seq<char>, player_id: Seq<char>, cleared: u32)
        -> bool {
        self@.contains_key(room_id) ==> self@[room_id].score_fits(player_id, cleared)
    }

    /// Whether `report_score` may be called with these arguments.
    pub fn can_report_score(&self, room_id: &RoomId, player_id: &PlayerId, cleared: u32) -> (res:
        bool)
        requires
            self.wf(),
        ensures
            res == self.score_fits(room_id@, player_id@, cleared),
    {
        match self.find(room_id) {
            None => true,
            Some(i) => self.slots[i].room.can_add_score(player_id, cleared),
        }
    }

    /// Adds `cleared` to the running score of the member `player_id` of the
    /// room `room_id` and returns the score table to publish. The report is
    /// taken on trust: nothing is checked against the board, and the turn
    /// number `turn` that comes with it is not recorded.
    pub fn report_score(
        &mut self,
        room_id: &RoomId,
        player_id: &PlayerId,
        cleared: u32,
        turn: u32,
    ) -> (res: Result<WsServerMsg, RoomError>)
        requires
            old(self).wf(),
            old(self).score_fits(room_id@, player_id@, cleared),
        ensures
            final(self).wf(),
            match member_refusal(old(self)@, room_id@, player_id@) {
                Some(e) => res matches Err(err) && err == e && final(self)@ == old(self)@,
                None => {
                    &&& res matches Ok(msg)
                    &&& final(self)@ == old(self)@.insert(
                        room_id@,
                        old(self)@[room_id@].with_score_added(player_id@, cleared),
                    )
                    &&& msg@ == final(self)@[room_id@].score_table(room_id@)
                },
            },
    {
        match self.find(room_id) {
            None => Err(RoomError::RoomNotFound),
            Some(i) => {
                match self.slots[i].room.add_score(player_id, cleared) {
                    Err(e) => {
                        proof {
                            lemma_update_room(old(self).slots@, i as int, self.slots@);
                            assert(self@ =~= old(self)@);
                        }
                        Err(e)
                    },
                    Ok(()) => {
                        proof {
                            lemma_update_room(old(self).slots@, i as int, self.slots@);
                        }
                        Ok(self.slots[i].room.score_table(room_id))
                    },
                }
            },
        }
    }

    /// Returns the event by which the member `player_id` says `message` to
    /// the room `room_id`. The table does not change.
    pub fn post_chat(&self, room_id: &RoomId, player_id: &PlayerId, message: String) -> (res:
        Result<WsServerMsg, RoomError>)
        requires
            self.wf(),
        ensures
            match member_refusal(self@, room_id@, player_id@) {
                Some(e) => res matches Err(err) && err == e,
                None => res matches Ok(msg) && msg@ == self@[room_id@].chat(
                    room_id@,
                    player_id@,
                    message@,
                ),
            },
    {
        match self.find(room_id) {
            None => Err(RoomError::RoomNotFound),
            Some(i) => self.slots[i].room.chat(room_id, player_id, message),
        }
    }

    /// Removes the player `player_id` from the room `room_id`. A room that is
    /// left empty is removed from the table. In a room that lives on, the
    /// member that joined first inherits the ownership that the player held.
    pub fn leave_room(&mut self, room_id: &RoomId, player_id: &PlayerId) -> (res: Leave)
        requires
            old(self).wf(),
        ensures
            final(self).wf(),
            final(self)@ == table_without(old(self)@, room_id@, player_id@),
            res@ == leave_result(old(self)@, room_id@, player_id@),
    {
        match self.find(room_id) {
            None => Leave::NoRoom,
            Some(i) => {
                let cancelled = self.slots[i].room.timer_handle();
                let emptied = self.slots[i].room.remove_player(player_id);
                proof {
                    lemma_update_room(old(self).slots@, i as int, self.slots@);
                }
                if emptied {
                    let ghost mid = self.slots@;
                    self.slots.remove(i);
                    proof {
                        lemma_remove_room(mid, i as int, self.slots@);
                        assert(self@ =~= old(self)@.remove(room_id@));
                    }
                    Leave::Destroyed { cancelled }
                } else {
                    Leave::Remains { membership: self.slots[i].room.membership(room_id) }
                }
            },
        }
    }

    /// Whether `handle` is the handle of the live countdown of the room `room_id`.
    pub fn timer_is_live(&self, room_id: &RoomId, handle: TimerHandle) -> (res: bool)
        requires
            self.wf(),
        ensures
            res == (self@.contains_key(room_id@) && self@[room_id@].timer == Some(handle)),
    {
        match self.find(room_id) {
            None => false,
            Some(i) => self.slots[i].room.timer_is_live(handle),
        }
    }

    /// Ends the round of the room `room_id` whose countdown is `handle`, if
    /// that countdown is still live: the room gives up the handle, and the
    /// rows that it offers to the leaderboard are returned.
    pub fn end_round(&mut self, room_id: &RoomId, handle: TimerHandle) -> (res: Option<
        Vec<(u32, String)>,
    >)
        requires
            old(self).wf(),
        ensures
            final(self).wf(),
            match round_rows(old(self)@, room_id@, handle) {
                Some(rows) => {
                    &&& res matches Some(r)
                    &&& rows_view(r@) == rows
                    &&& final(self)@ == old(self)@.insert(
                        room_id@,
                        old(self)@[room_id@].finished(),
                    )
                },
                None => res is None && final(self)@ == old(self)@,
            },
    {
        match self.find(room_id) {
            None => None,
            Some(i) => {
                if self.slots[i].room.timer_is_live(handle) {
                    let rows = self.slots[i].room.round_results();
                    self.slots[i].room.finish_round();
                    proof {
                        lemma_update_room(old(self).slots@, i as int, self.slots@);
                    }
                    Some(rows)
                } else {
                    None
                }
            },
        }
    }
}

/// The rows that the room `room_id` offers to the leaderboard when the
/// countdown `handle` runs out, if that countdown is the room's live one.
pub open spec fn round_rows(table: RoomTable, room_id: Seq<char>, handle: TimerHandle) -> Option<
    Seq<(u32, Seq<char>)>,
> {
    if table.contains_key(room_id) && table[room_id].timer == Some(handle) {
        Some(table[room_id].results())
    } else {
        None
    }
}

/// Taking out slot `i` removes its room from the table.
proof fn lemma_remove_room(before: Seq<Slot>, i: int, after: Seq<Slot>)
    requires
        distinct(before),
        0 <= i < before.len(),
        after == before.remove(i),
    ensures
        distinct(after),
        table_of(after) == table_of(before).remove(before[i].id@),
{
    assert forall|k: int| 0 <= k < after.len() implies (#[trigger] after[k]) == before[if k < i {
        k
    } else {
        k + 1
    }] by {}
    assert(distinct(after)) by {
        assert forall|a: int, b: int|
            0 <= a < after.len() && 0 <= b < after.len() && a != b implies (#[trigger] after[a]).id@
            != (#[trigger] after[b]).id@ by {
            let a0 = if a < i { a } else { a + 1 };
            let b0 = if b < i { b } else { b + 1 };
            assert(before[a0].id@ != before[b0].id@);
        }
    }
    let target = table_of(before).remove(before[i].id@);
    assert forall|id: Seq<char>| table_of(after).contains_key(id) <==> target.contains_key(
        id,
    ) by {
        if holds(after, id) {
            let k = slot_of(after, id);
            let k0 = if k < i { k } else { k + 1 };
            assert(before[k0].id@ == id);
            assert(before[k0].id@ != before[i].id@);
        }
        if holds(before, id) && id != before[i].id@ {
            let k = slot_of(before, id);
            let k1 = if k < i { k } else { k - 1 };
            assert(after[k1].id@ == id);
        }
    }
    assert forall|id: Seq<char>| table_of(after).contains_key(id) implies table_of(after)[id]
        == target[id] by {
        let k = slot_of(after, id);
        let k0 = if k < i { k } else { k + 1 };
        lemma_slot(after, k);
        lemma_slot(before, k0);
    }
    assert(table_of(after) =~= target);
}

/// The table of distinct slots has as many rooms as there are slots.
proof fn lemma_table_len(slots: Seq<Slot>)
    requires
        distinct(slots),
    ensures
        table_of(slots).dom().finite(),
        table_of(slots).dom().len() == slots.len(),
    decreases slots.len(),
{
    if slots.len() == 0 {
        assert(table_of(slots).dom() =~= Set::<Seq<char>>::empty());
    } else {
        let front = slots.drop_last();
        lemma_table_len(front);
        let id = slots.last().id@;
        assert(table_of(slots).dom() =~= table_of(front).dom().insert(id)) by {
            assert forall|k: Seq<char>| table_of(slots).dom().contains(k) implies table_of(
                front,
            ).dom().insert(id).contains(k) by {
                let i = slot_of(slots, k);
                if i < front.len() {
                    assert(front[i].id@ == k);
                }
            }
            assert forall|k: Seq<char>| table_of(front).dom().insert(id).contains(
                k,
            ) implies table_of(slots).dom().contains(k) by {
                if k == id {
                    assert(slots[slots.len() - 1].id@ == k);
                } else {
                    let i = slot_of(front, k);
                    assert(slots[i].id@ == k);
                }
            }
        }
        assert(!table_of(front).dom().contains(id)) by {
            if holds(front, id) {
                let i = slot_of(front, id);
                assert(slots[i].id@ == slots[slots.len() - 1].id@);
            }
        }
    }
}

/// Replacing the room of slot `i` is inserting the new room under the slot's identifier.
proof fn lemma_update_room(before: Seq<Slot>, i: int, after: Seq<Slot>)
    requires
        distinct(before),
        0 <= i < before.len(),
        after.len() == before.len(),
        after[i].id@ == before[i].id@,
        forall|k: int| 0 <= k < before.len() && k != i ==> after[k] == before[k],
    ensures
        distinct(after),
        table_of(after) == table_of(before).insert(before[i].id@, after[i].room@),
{
    assert forall|k: int| 0 <= k < before.len() implies (#[trigger] after[k]).id@
        == before[k].id@ by {}
    assert(distinct(after)) by {
        assert forall|a: int, b: int|
            0 <= a < after.len() && 0 <= b < after.len() && a != b implies (#[trigger] after[a]).id@
            != (#[trigger] after[b]).id@ by {
            assert(before[a].id@ != before[b].id@);
        }
    }
    let target = table_of(before).insert(before[i].id@, after[i].room@);
    assert forall|id: Seq<char>| table_of(after).contains_key(id) <==> target.contains_key(
        id,
    ) by {
        if holds(after, id) {
            let k = slot_of(after, id);
            assert(before[k].id@ == id);
        }
        if holds(before, id) {
            let k = slot_of(before, id);
            assert(after[k].id@ == id);
        }
        if id == before[i].id@ {
            assert(after[i].id@ == id);
        }
    }
    assert forall|id: Seq<char>| table_of(after).contains_key(id) implies table_of(after)[id]
        == target[id] by {
        let k = slot_of(after, id);
        lemma_slot(after, k);
        lemma_slot(before, k);
    }
    assert(table_of(after) =~= target);
}

/// Adding a slot with a new identifier is inserting its room under that identifier.
proof fn lemma_push_room(before: Seq<Slot>, after: Seq<Slot>)
    requires
        distinct(before),
        after.len() == before.len() + 1,
        after.drop_last() == before,
        !holds(before, after.last().id@),
    ensures
        distinct(after),
        table_of(after) == table_of(before).insert(after.last().id@, after.last().room@),
{
    let n = before.len() as int;
    assert forall|k: int| 0 <= k < n implies (#[trigger] after[k]) == before[k] by {
        assert(after.drop_last()[k] == after[k]);
    }
    assert(distinct(after)) by {
        assert forall|a: int, b: int|
            0 <= a < after.len() && 0 <= b < after.len() && a != b implies (#[trigger] after[a]).id@
            != (#[trigger] after[b]).id@ by {
            if a < n && b < n {
                assert(before[a].id@ != before[b].id@);
            } else if a < n {
                assert(before[a].id@ == after[a].id@);
            } else {
                assert(before[b].id@ == after[b].id@);
            }
        }
    }
    let target = table_of(before).insert(after.last().id@, after.last().room@);
    assert forall|id: Seq<char>| table_of(after).contains_key(id) <==> target.contains_key(
        id,
    ) by {
        if holds(after, id) {
            let k = slot_of(after, id);
            if k < n {
                assert(before[k].id@ == id);
            }
        }
        if holds(before, id) {
            let k = slot_of(before, id);
            assert(after[k].id@ == id);
        }
        if id == after.last().id@ {
            assert(after[n].id@ == id);
        }
    }
    assert forall|id: Seq<char>| table_of(after).contains_key(id) implies table_of(after)[id]
        == target[id] by {
        let k = slot_of(after, id);
        lemma_slot(after, k);
        if k < n {
            lemma_slot(before, k);
        }
    }
    assert(table_of(after) =~= target);
}

} // verus!
