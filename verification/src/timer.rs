//! The countdown of a round.
//!
//! A countdown task owns a [`GameTimer`]. It asks for the next step, carries
//! it out, and, after a tick, sleeps for a second before it asks again. When
//! the countdown has run out it hands the timer to [`finish_round`], holding
//! the leaderboard first and the table of rooms second.

use vstd::prelude::*;
use crate::leaderboard::{any_accepted, offered_all, Leaderboard};
use crate::registry::{round_rows, RoomRegistry, RoomTable};
use crate::server_state::{TimerHandle, GAME_DURATION_SECS};
use crate::ws_messages::{RoomId, ServerMsgView, WsServerMsg};

verus! {

/// Mathematical view of a [`GameTimer`].
pub struct TimerView {
    /// The room whose round is counted down.
    pub room_id: Seq<char>,
    /// The handle under which the room knows the countdown.
    pub handle: TimerHandle,
    /// The number of ticks that are still to be published.
    pub ticks_left: nat,
}

impl TimerView {
    /// Whether the countdown is the live one of its room.
    pub open spec fn live(self, table: RoomTable) -> bool {
        table.contains_key(self.room_id) && table[self.room_id].timer == Some(self.handle)
    }

    /// The countdown after it has published one more tick.
    pub open spec fn ticked(self) -> TimerView {
        TimerView { ticks_left: (self.ticks_left - 1) as nat, ..self }
    }

    /// The countdown after it has published `n` more ticks.
    pub open spec fn ticked_times(self, n: nat) -> TimerView
        decreases n,
    {
        if n == 0 {
            self
        } else {
            self.ticked_times((n - 1) as nat).ticked()
        }
    }

    /// The countdown of a round that has just started in `room_id`: it has a
    /// tick to publish for every second of the round and one for its end.
    pub open spec fn fresh(room_id: Seq<char>, handle: TimerHandle) -> TimerView {
        TimerView { room_id, handle, ticks_left: (GAME_DURATION_SECS + 1) as nat }
    }
}

/// The event that tells a room how many seconds its round has left.
pub open spec fn tick(remaining_secs: u64) -> ServerMsgView {
    ServerMsgView::TimerTick { remaining_secs }
}

/// What a countdown does next.
#[derive(Debug, PartialEq, Eq)]
pub enum TimerStep {
    /// Publish the event to the room, sleep for a second, and ask again.
    Tick(WsServerMsg),
    /// Every tick was published: finish the round.
    Expired,
    /// The room is gone or has started another round: stop and do nothing more.
    Cancelled,
}

/// The countdown of one round of one room.
pub struct GameTimer {
    room_id: RoomId,
    handle: TimerHandle,
    remaining: Option<u64>,
}

impl View for GameTimer {
    type V = TimerView;

    closed spec fn view(&self) -> TimerView {
        TimerView {
            room_id: self.room_id@,
            handle: self.handle,
            ticks_left: match self.remaining {
                Some(secs) => (secs + 1) as nat,
                None => 0,
            },
        }
    }
}

impl GameTimer {
    /// The countdown of the round that has just started in the room
    /// `room_id`, under the handle that the room holds for it.
    pub fn new(room_id: RoomId, handle: TimerHandle) -> (timer: Self)
        ensures
            timer@ == TimerView::fresh(room_id@, handle),
    {
        GameTimer { room_id, handle, remaining: Some(GAME_DURATION_SECS) }
    }

    /// The room whose round is counted down.
    pub fn room_id(&self) -> (id: &RoomId)
        ensures
            id@ == self@.room_id,
    {
        &self.room_id
    }

    /// The handle under which the room knows the countdown.
    pub fn handle(&self) -> (handle: TimerHandle)
        ensures
            handle == self@.handle,
    {
        self.handle
    }

    /// Decides the next step. A countdown that is no longer the live one of
    /// its room is cancelled. A live one publishes the seconds that are left,
    /// from the full duration down to zero, and expires after that.
    pub fn step(&mut self, rooms: &RoomRegistry) -> (res: TimerStep)
        requires
            rooms.wf(),
        ensures
            !old(self)@.live(rooms@) ==> res is Cancelled && final(self)@ == old(self)@,
            old(self)@.live(rooms@) && old(self)@.ticks_left == 0 ==> res is Expired
                && final(self)@ == old(self)@,
            old(self)@.live(rooms@) && old(self)@.ticks_left > 0 ==> {
                &&& res matches TimerStep::Tick(msg)
                &&& msg@ == tick((old(self)@.ticks_left - 1) as u64)
                &&& final(self)@ == old(self)@.ticked()
            },
    {
        if !rooms.timer_is_live(&self.room_id, self.handle) {
            return TimerStep::Cancelled;
        }
        match self.remaining {
            None => TimerStep::Expired,
            Some(secs) => {
                self.remaining = if secs == 0 {
                    None
                } else {
                    Some(secs - 1)
                };
                TimerStep::Tick(WsServerMsg::TimerTick { remaining_secs: secs })
            },
        }
    }
}

/// A fresh countdown that has published `n` ticks, `n` at most the round's
/// duration in seconds, publishes as its next tick the duration less `n`:
/// the ticks count down from the full duration to zero, one more tick than
/// the round has seconds, and none is left after them.
pub proof fn lemma_tick_schedule(room_id: Seq<char>, handle: TimerHandle, n: nat)
    requires
        n <= GAME_DURATION_SECS + 1,
    ensures
        TimerView::fresh(room_id, handle).ticked_times(n).ticks_left == GAME_DURATION_SECS + 1
            - n,
        TimerView::fresh(room_id, handle).ticked_times(n).room_id == room_id,
        TimerView::fresh(room_id, handle).ticked_times(n).handle == handle,
    decreases n,
{
    if n > 0 {
        lemma_tick_schedule(room_id, handle, (n - 1) as nat);
    }
}

/// Ends the round that `timer` counted down. If the countdown is still the
/// live one of its room, the room gives up its handle and every member's
/// final score and name are offered to the leaderboard, in the order in which
/// the members joined. Says whether the leaderboard changed and is to be
/// persisted. The timer is used up.
pub fn finish_round(timer: GameTimer, top_10: &mut Leaderboard, rooms: &mut RoomRegistry) -> (changed:
    bool)
    requires
        old(top_10).wf(),
        old(rooms).wf(),
    ensures
        final(top_10).wf(),
        final(rooms).wf(),
        match round_rows(old(rooms)@, timer@.room_id, timer@.handle) {
            Some(rows) => {
                &&& final(top_10)@ == offered_all(old(top_10)@, rows)
                &&& changed == any_accepted(old(top_10)@, rows)
                &&& final(rooms)@ == old(rooms)@.insert(
                    timer@.room_id,
                    old(rooms)@[timer@.room_id].finished(),
                )
            },
            None => {
                &&& final(top_10)@ == old(top_10)@
                &&& !changed
                &&& final(rooms)@ == old(rooms)@
            },
        },
{
    match rooms.end_round(&timer.room_id, timer.handle) {
        None => false,
        Some(rows) => top_10.offer_all(rows),
    }
}

} // verus!
