//! The state of one connection and what each event on it leads to.
//!
//! A connection task owns the socket and the subscription to its room's
//! channel. On each event it asks this module what to do, and carries out
//! the [`Reaction`]: it subscribes, publishes, sends and starts countdowns.

use vstd::prelude::*;
use vstd::string::StringExecFns;
use crate::board::{generate_board, valid_board, BoardData};
use crate::error::RoomError;
use crate::registry::{
    creation_events, game_started, leave_result, member_refusal, start_refusal, table_without,
    Leave, LeaveView, RoomRegistry, RoomTable,
};
use crate::room_model::RoomView;
use crate::server_state::RoundStart;
use crate::ws_messages::{
    msgs_view, opt_view, ClientMsgView, Player, PlayerId, PlayerView, RoomId, ServerMsgView,
    WsClientMsg, WsServerMsg,
};

verus! {

/// The number of pending events that the channel of a room buffers for a subscriber.
pub const BROADCAST_CAPACITY: usize = 32;

/// What a connection stands for: the room it has joined and the player it speaks for.
#[derive(Debug, PartialEq, Eq)]
pub struct ConnContext {
    /// The room that the connection has created or joined last.
    pub joined_room: Option<RoomId>,
    /// The player that the connection speaks for.
    pub my_player_id: Option<PlayerId>,
}

/// Mathematical view of a [`ConnContext`].
pub struct ConnView {
    pub joined_room: Option<Seq<char>>,
    pub my_player_id: Option<Seq<char>>,
}

impl View for ConnContext {
    type V = ConnView;

    open spec fn view(&self) -> ConnView {
        ConnView {
            joined_room: opt_view(self.joined_room),
            my_player_id: opt_view(self.my_player_id),
        }
    }
}

/// The event that tells a connection that its command was refused.
pub open spec fn refusal(room_id: Option<Seq<char>>, text: Seq<char>) -> ServerMsgView {
    ServerMsgView::Error { room_id, msg: text }
}

/// The refusal of a command that needs a room and a player, on a connection
/// that lacks one of them; `None` where the connection has both.
pub open spec fn guard(ctx: ConnView) -> Option<ServerMsgView> {
    match ctx.joined_room {
        None => Some(refusal(None, "Not in a room"@)),
        Some(room_id) => match ctx.my_player_id {
            None => Some(refusal(Some(room_id), "Player ID not assigned"@)),
            Some(_) => None,
        },
    }
}

/// A copy of `s` that the caller owns.
fn text(s: &str) -> (res: String)
    ensures
        res@ == s@,
{
    s.to_owned()
}

/// Builds the event that tells a connection that its command was refused.
pub fn refuse(room_id: Option<RoomId>, reason: &str) -> (msg: WsServerMsg)
    ensures
        msg@ == refusal(opt_view(room_id), reason@),
{
    WsServerMsg::Error { room_id, msg: text(reason) }
}

impl ConnContext {
    /// The context of a connection that has just been accepted.
    pub fn new() -> (ctx: Self)
        ensures
            ctx@ == (ConnView { joined_room: None, my_player_id: None }),
    {
        ConnContext { joined_room: None, my_player_id: None }
    }

    /// The room and the player that the connection stands for. A connection
    /// that has joined no room, or speaks for no player, gets the refusal to
    /// send back instead.
    pub fn require_room_and_player<'a>(&'a self) -> (res: Result<
        (&'a RoomId, &'a PlayerId),
        WsServerMsg,
    >)
        ensures
            match guard(self@) {
                Some(error) => res matches Err(e) && e@ == error,
                None => res matches Ok(pair) && Some(*pair.0) == self.joined_room && Some(*pair.1)
                    == self.my_player_id,
            },
    {
        match &self.joined_room {
            None => Err(refuse(None, "Not in a room")),
            Some(room_id) => match &self.my_player_id {
                None => Err(refuse(Some(room_id.clone()), "Player ID not assigned")),
                Some(player_id) => Ok((room_id, player_id)),
            },
        }
    }
}

/// What becomes of the connection's subscription to a room's channel.
#[derive(Clone, Copy, Debug, PartialEq, Eq, Structural)]
pub enum ChannelOrder {
    /// The subscription stays as it is.
    Keep,
    /// The connection's room is new: open its channel, with room for
    /// `BROADCAST_CAPACITY` pending events, and subscribe to it.
    Open,
    /// Subscribe to the channel of the connection's room, from now on.
    Subscribe,
}

/// What the connection task has to do after a command was accepted, in this
/// order: change its subscription, publish on the channel of its room, replace
/// the room's countdown, and send to its own client.
#[derive(Debug, PartialEq, Eq)]
pub struct Reaction {
    /// What becomes of the subscription.
    pub channel: ChannelOrder,
    /// The events to publish to the connection's room, first to last.
    pub broadcast: Vec<WsServerMsg>,
    /// The events to send to this connection only, first to last.
    pub reply: Vec<WsServerMsg>,
    /// The countdown to cancel, if any, and the one to start, where a round has started.
    pub timer: Option<RoundStart>,
}

/// Mathematical view of a [`Reaction`].
pub struct ReactionView {
    pub channel: ChannelOrder,
    pub broadcast: Seq<ServerMsgView>,
    pub reply: Seq<ServerMsgView>,
    pub timer: Option<RoundStart>,
}

impl View for Reaction {
    type V = ReactionView;

    open spec fn view(&self) -> ReactionView {
        ReactionView {
            channel: self.channel,
            broadcast: msgs_view(self.broadcast@),
            reply: msgs_view(self.reply@),
            timer: self.timer,
        }
    }
}

/// What a command leads to: the reaction or the refusal, and the connection
/// and the table of rooms afterwards.
pub struct Outcome {
    pub result: Result<ReactionView, ServerMsgView>,
    pub ctx: ConnView,
    pub table: RoomTable,
}

/// The outcome that was observed of a call.
pub open spec fn observed(res: Result<Reaction, WsServerMsg>, ctx: ConnView, table: RoomTable)
    -> Outcome {
    Outcome {
        result: match res {
            Ok(reaction) => Ok(reaction@),
            Err(error) => Err(error@),
        },
        ctx,
        table,
    }
}

/// The outcome of a command that is refused with `text`: nothing changes.
pub open spec fn refused(ctx: ConnView, table: RoomTable, text: Seq<char>) -> Outcome {
    Outcome { result: Err(refusal(ctx.joined_room, text)), ctx, table }
}

/// The reaction that publishes `events` to the room and does nothing else.
pub open spec fn publish(events: Seq<ServerMsgView>) -> ReactionView {
    ReactionView { channel: ChannelOrder::Keep, broadcast: events, reply: seq![], timer: None }
}

/// The outcome of `CreateRoom` where the fresh identifier is `room_id`: the
/// room is installed, the connection stands for its owner, and the client
/// is told the identifier and the membership. Nothing is published, since
/// nobody else can be subscribed yet.
pub open spec fn create_outcome(
    ctx: ConnView,
    table: RoomTable,
    room_id: Seq<char>,
    player: PlayerView,
) -> Outcome {
    Outcome {
        result: Ok(
            ReactionView {
                channel: ChannelOrder::Open,
                broadcast: seq![],
                reply: creation_events(room_id, RoomView::fresh(player)),
                timer: None,
            },
        ),
        ctx: ConnView { joined_room: Some(room_id), my_player_id: Some(player.player_id) },
        table: table.insert(room_id, RoomView::fresh(player)),
    }
}

/// The outcome of `JoinRoom`.
pub open spec fn join_outcome(
    ctx: ConnView,
    table: RoomTable,
    room_id: Seq<char>,
    player: PlayerView,
) -> Outcome {
    if !table.contains_key(room_id) {
        Outcome { result: Err(refusal(Some(room_id), "Room not found"@)), ctx, table }
    } else if table[room_id].has_player(player.player_id) {
        Outcome { result: Err(refusal(Some(room_id), "Already in room"@)), ctx, table }
    } else {
        let room = table[room_id].joined(player);
        Outcome {
            result: Ok(
                ReactionView {
                    channel: ChannelOrder::Subscribe,
                    broadcast: seq![room.membership(room_id)],
                    reply: seq![room.membership(room_id)],
                    timer: None,
                },
            ),
            ctx: ConnView { joined_room: Some(room_id), my_player_id: Some(player.player_id) },
            table: table.insert(room_id, room),
        }
    }
}

/// The outcome of `ReadyUp`.
pub open spec fn ready_outcome(ctx: ConnView, table: RoomTable, ready: bool) -> Outcome {
    if guard(ctx) is Some {
        Outcome { result: Err(guard(ctx)->0), ctx, table }
    } else {
        let room_id = ctx.joined_room->0;
        let player_id = ctx.my_player_id->0;
        match member_refusal(table, room_id, player_id) {
            Some(RoomError::RoomNotFound) => refused(ctx, table, "Room not found"@),
            Some(_) => refused(ctx, table, "You are not in a room"@),
            None => {
                let room = table[room_id].with_ready(player_id, ready);
                Outcome {
                    result: Ok(publish(seq![room.membership(room_id)])),
                    ctx,
                    table: table.insert(room_id, room),
                }
            },
        }
    }
}

/// The outcome of `StartGame` where the fresh board is `board`.
pub open spec fn start_outcome(ctx: ConnView, table: RoomTable, board: Seq<u8>) -> Outcome {
    if guard(ctx) is Some {
        Outcome { result: Err(guard(ctx)->0), ctx, table }
    } else {
        let room_id = ctx.joined_room->0;
        let player_id = ctx.my_player_id->0;
        match start_refusal(table, room_id, player_id) {
            Some(RoomError::RoomNotFound) => refused(ctx, table, "Room not found"@),
            Some(RoomError::NotOwner) => refused(ctx, table, "Only owner can start"@),
            Some(_) => refused(ctx, table, "All players must be ready"@),
            None => {
                let room = table[room_id].started(board);
                Outcome {
                    result: Ok(
                        ReactionView {
                            channel: ChannelOrder::Keep,
                            broadcast: seq![
                                room.membership(room_id),
                                game_started(room_id, board),
                            ],
                            reply: seq![],
                            timer: Some(
                                RoundStart {
                                    cancelled: table[room_id].timer,
                                    handle: room.timer->0,
                                },
                            ),
                        },
                    ),
                    ctx,
                    table: table.insert(room_id, room),
                }
            },
        }
    }
}

/// The outcome of `ScoreUpdate`.
pub open spec fn score_outcome(ctx: ConnView, table: RoomTable, cleared: u32) -> Outcome {
    if guard(ctx) is Some {
        Outcome { result: Err(guard(ctx)->0), ctx, table }
    } else {
        let room_id = ctx.joined_room->0;
        let player_id = ctx.my_player_id->0;
        match member_refusal(table, room_id, player_id) {
            Some(RoomError::RoomNotFound) => refused(ctx, table, "Room not found"@),
            Some(_) => refused(ctx, table, "Not in room"@),
            None => {
                let room = table[room_id].with_score_added(player_id, cleared);
                Outcome {
                    result: Ok(publish(seq![room.score_table(room_id)])),
                    ctx,
                    table: table.insert(room_id, room),
                }
            },
        }
    }
}

/// The outcome of `ChatMessage`.
pub open spec fn chat_outcome(ctx: ConnView, table: RoomTable, message: Seq<char>) -> Outcome {
    if guard(ctx) is Some {
        Outcome { result: Err(guard(ctx)->0), ctx, table }
    } else {
        let room_id = ctx.joined_room->0;
        let player_id = ctx.my_player_id->0;
        match member_refusal(table, room_id, player_id) {
            Some(RoomError::RoomNotFound) => refused(ctx, table, "Room not found"@),
            Some(_) => refused(ctx, table, "You are not a player in this room"@),
            None => Outcome {
                result: Ok(publish(seq![table[room_id].chat(room_id, player_id, message)])),
                ctx,
                table,
            },
        }
    }
}

/// The outcome of `command` on the connection `ctx` and the table `table`,
/// where `fresh_id` is the identifier that is drawn if a room is created and
/// `board` the board that is drawn if a round starts.
pub open spec fn command_outcome(
    ctx: ConnView,
    table: RoomTable,
    command: ClientMsgView,
    fresh_id: Seq<char>,
    board: Seq<u8>,
) -> Outcome {
    match command {
        ClientMsgView::CreateRoom { player } => create_outcome(ctx, table, fresh_id, player),
        ClientMsgView::JoinRoom { room_id, player } => join_outcome(ctx, table, room_id, player),
        ClientMsgView::StartGame => start_outcome(ctx, table, board),
        ClientMsgView::ScoreUpdate { cleared_count, turn } => score_outcome(
            ctx,
            table,
            cleared_count,
        ),
        ClientMsgView::ReadyUp { ready } => ready_outcome(ctx, table, ready),
        ClientMsgView::ChatMessage { message } => chat_outcome(ctx, table, message),
    }
}

/// Whether a command needs a room and a player on the connection: every
/// command does but those that create or join a room.
pub open spec fn needs_membership(command: ClientMsgView) -> bool {
    !(command is CreateRoom || command is JoinRoom)
}

/// A command that is refused changes neither the table of rooms nor the
/// connection: a refusal concerns the client that sent the command and nobody else.
pub proof fn lemma_refusal_changes_nothing(
    ctx: ConnView,
    table: RoomTable,
    command: ClientMsgView,
    fresh_id: Seq<char>,
    board: Seq<u8>,
)
    ensures
        command_outcome(ctx, table, command, fresh_id, board).result is Err ==> {
            &&& command_outcome(ctx, table, command, fresh_id, board).table == table
            &&& command_outcome(ctx, table, command, fresh_id, board).ctx == ctx
        },
{
}

/// A command that needs a room and a player, on a connection that lacks
/// one of them, is refused by what the connection alone shows, whatever
/// the table of rooms holds.
pub proof fn lemma_guard_decides(
    ctx: ConnView,
    table: RoomTable,
    command: ClientMsgView,
    fresh_id: Seq<char>,
    board: Seq<u8>,
)
    requires
        needs_membership(command),
        guard(ctx) is Some,
    ensures
        command_outcome(ctx, table, command, fresh_id, board) == (Outcome {
            result: Err(guard(ctx)->0),
            ctx,
            table,
        }),
{
}

/// A list that holds `msg` alone.
fn one(msg: WsServerMsg) -> (events: Vec<WsServerMsg>)
    ensures
        msgs_view(events@) == seq![msg@],
{
    let mut events: Vec<WsServerMsg> = Vec::new();
    events.push(msg);
    assert(msgs_view(events@) =~= seq![msg@]);
    events
}

/// The empty list of events.
fn none() -> (events: Vec<WsServerMsg>)
    ensures
        msgs_view(events@) == Seq::<ServerMsgView>::empty(),
{
    let events: Vec<WsServerMsg> = Vec::new();
    assert(msgs_view(events@) =~= Seq::<ServerMsgView>::empty());
    events
}

/// Handles `CreateRoom` with `room_id` as the fresh identifier.
pub fn on_create_room(
    ctx: &mut ConnContext,
    rooms: &mut RoomRegistry,
    room_id: RoomId,
    player: Player,
) -> (res: Result<Reaction, WsServerMsg>)
    requires
        old(rooms).wf(),
    ensures
        final(rooms).wf(),
        observed(res, final(ctx)@, final(rooms)@) == create_outcome(
            old(ctx)@,
            old(rooms)@,
            room_id@,
            player@,
        ),
{
    let player_id = player.player_id.clone();
    let reply = rooms.insert_room(room_id.clone(), player);
    ctx.joined_room = Some(room_id);
    ctx.my_player_id = Some(player_id);
    Ok(Reaction { channel: ChannelOrder::Open, broadcast: none(), reply, timer: None })
}

/// Handles `JoinRoom`.
pub fn on_join_room(
    ctx: &mut ConnContext,
    rooms: &mut RoomRegistry,
    room_id: RoomId,
    player: Player,
) -> (res: Result<Reaction, WsServerMsg>)
    requires
        old(rooms).wf(),
    ensures
        final(rooms).wf(),
        observed(res, final(ctx)@, final(rooms)@) == join_outcome(
            old(ctx)@,
            old(rooms)@,
            room_id@,
            player@,
        ),
{
    let player_id = player.player_id.clone();
    match rooms.join_room(&room_id, player) {
        Err(RoomError::RoomNotFound) => Err(refuse(Some(room_id), "Room not found")),
        Err(_) => Err(refuse(Some(room_id), "Already in room")),
        Ok(membership) => {
            let reply = one(membership.clone());
            let broadcast = one(membership);
            ctx.joined_room = Some(room_id);
            ctx.my_player_id = Some(player_id);
            Ok(Reaction { channel: ChannelOrder::Subscribe, broadcast, reply, timer: None })
        },
    }
}

/// Handles `ReadyUp`.
pub fn on_ready_up(ctx: &ConnContext, rooms: &mut RoomRegistry, ready: bool) -> (res: Result<
    Reaction,
    WsServerMsg,
>)
    requires
        old(rooms).wf(),
    ensures
        final(rooms).wf(),
        observed(res, ctx@, final(rooms)@) == ready_outcome(ctx@, old(rooms)@, ready),
{
    let (room_id, player_id) = match ctx.require_room_and_player() {
        Err(error) => {
            return Err(error);
        },
        Ok(pair) => pair,
    };
    match rooms.ready_up(room_id, player_id, ready) {
        Err(RoomError::RoomNotFound) => Err(refuse(Some(room_id.clone()), "Room not found")),
        Err(_) => Err(refuse(Some(room_id.clone()), "You are not in a room")),
        Ok(membership) => Ok(
            Reaction {
                channel: ChannelOrder::Keep,
                broadcast: one(membership),
                reply: none(),
                timer: None,
            },
        ),
    }
}

/// The refusal that tells the client why its room cannot start a round.
fn refuse_start(room_id: &RoomId, error: RoomError) -> (msg: WsServerMsg)
    ensures
        msg@ == refusal(
            Some(room_id@),
            match error {
                RoomError::RoomNotFound => "Room not found"@,
                RoomError::NotOwner => "Only owner can start"@,
                _ => "All players must be ready"@,
            },
        ),
{
    match error {
        RoomError::RoomNotFound => refuse(Some(room_id.clone()), "Room not found"),
        RoomError::NotOwner => refuse(Some(room_id.clone()), "Only owner can start"),
        _ => refuse(Some(room_id.clone()), "All players must be ready"),
    }
}

/// Handles `StartGame` with `board` as the fresh board.
pub fn on_start_game(ctx: &ConnContext, rooms: &mut RoomRegistry, board: BoardData) -> (res:
    Result<Reaction, WsServerMsg>)
    requires
        old(rooms).wf(),
        valid_board(board@),
    ensures
        final(rooms).wf(),
        observed(res, ctx@, final(rooms)@) == start_outcome(ctx@, old(rooms)@, board@),
{
    let (room_id, player_id) = match ctx.require_room_and_player() {
        Err(error) => {
            return Err(error);
        },
        Ok(pair) => pair,
    };
    match rooms.start_game_on(room_id, player_id, board) {
        Err(error) => Err(refuse_start(room_id, error)),
        Ok(start) => {
            let mut broadcast: Vec<WsServerMsg> = Vec::new();
            broadcast.push(start.membership);
            broadcast.push(start.started);
            proof {
                let room = old(rooms)@[room_id@].started(board@);
                assert(msgs_view(broadcast@) =~= seq![
                    room.membership(room_id@),
                    game_started(room_id@, board@),
                ]);
            }
            Ok(
                Reaction {
                    channel: ChannelOrder::Keep,
                    broadcast,
                    reply: none(),
                    timer: Some(start.round),
                },
            )
        },
    }
}

/// Whether the score that `ScoreUpdate` reports fits: the score of the
/// connection's player, if it is a member of the connection's room, can
/// grow by `cleared` without leaving the range of `u32`.
pub open spec fn score_fits(ctx: ConnView, rooms: &RoomRegistry, cleared: u32) -> bool {
    guard(ctx) is None ==> rooms.score_fits(ctx.joined_room->0, ctx.my_player_id->0, cleared)
}

/// Handles `ScoreUpdate`.
pub fn on_score_update(ctx: &ConnContext, rooms: &mut RoomRegistry, cleared: u32, turn: u32) -> (res:
    Result<Reaction, WsServerMsg>)
    requires
        old(rooms).wf(),
        score_fits(ctx@, old(rooms), cleared),
    ensures
        final(rooms).wf(),
        observed(res, ctx@, final(rooms)@) == score_outcome(ctx@, old(rooms)@, cleared),
{
    let (room_id, player_id) = match ctx.require_room_and_player() {
        Err(error) => {
            return Err(error);
        },
        Ok(pair) => pair,
    };
    match rooms.report_score(room_id, player_id, cleared, turn) {
        Err(RoomError::RoomNotFound) => Err(refuse(Some(room_id.clone()), "Room not found")),
        Err(_) => Err(refuse(Some(room_id.clone()), "Not in room")),
        Ok(scores) => Ok(
            Reaction {
                channel: ChannelOrder::Keep,
                broadcast: one(scores),
                reply: none(),
                timer: None,
            },
        ),
    }
}

/// Handles `ChatMessage`.
pub fn on_chat_message(ctx: &ConnContext, rooms: &RoomRegistry, message: String) -> (res: Result<
    Reaction,
    WsServerMsg,
>)
    requires
        rooms.wf(),
    ensures
        observed(res, ctx@, rooms@) == chat_outcome(ctx@, rooms@, message@),
{
    let (room_id, player_id) = match ctx.require_room_and_player() {
        Err(error) => {
            return Err(error);
        },
        Ok(pair) => pair,
    };
    match rooms.post_chat(room_id, player_id, message) {
        Err(RoomError::RoomNotFound) => Err(refuse(Some(room_id.clone()), "Room not found")),
        Err(_) => Err(refuse(Some(room_id.clone()), "You are not a player in this room")),
        Ok(chat) => Ok(
            Reaction {
                channel: ChannelOrder::Keep,
                broadcast: one(chat),
                reply: none(),
                timer: None,
            },
        ),
    }
}

/// Whether `handle_client_msg` may be called with `command`: a score that
/// it reports must fit.
pub open spec fn command_fits(command: ClientMsgView, ctx: ConnView, rooms: &RoomRegistry)
    -> bool {
    command matches ClientMsgView::ScoreUpdate { cleared_count, .. } ==> score_fits(
        ctx,
        rooms,
        cleared_count,
    )
}

/// Whether `handle_client_msg` may be called with `command`.
pub fn can_handle(command: &WsClientMsg, ctx: &ConnContext, rooms: &RoomRegistry) -> (res: bool)
    requires
        rooms.wf(),
    ensures
        res == command_fits(command@, ctx@, rooms),
{
    match command {
        WsClientMsg::ScoreUpdate { cleared_count, turn } => {
            match ctx.require_room_and_player() {
                Err(_) => true,
                Ok((room_id, player_id)) => rooms.can_report_score(
                    room_id,
                    player_id,
                    *cleared_count,
                ),
            }
        },
        _ => true,
    }
}

/// Handles one command of a client: applies it to the table of rooms and
/// says what the connection task has to do, or returns the refusal to send
/// back to this client alone. A refused command changes nothing. A room is
/// created under a fresh random identifier, a round starts on a fresh random
/// board; every other outcome is determined by the arguments.
pub fn handle_client_msg(client_msg: WsClientMsg, ctx: &mut ConnContext, rooms: &mut RoomRegistry)
    -> (res: Result<Reaction, WsServerMsg>)
    requires
        old(rooms).wf(),
        command_fits(client_msg@, old(ctx)@, old(rooms)),
    ensures
        final(rooms).wf(),
        exists|fresh_id: Seq<char>, board: Seq<u8>|
            {
                &&& fresh_id.len() == 36
                &&& valid_board(board)
                &&& observed(res, final(ctx)@, final(rooms)@) == #[trigger] command_outcome(
                    old(ctx)@,
                    old(rooms)@,
                    client_msg@,
                    fresh_id,
                    board,
                )
            },
{
    let ghost command = client_msg@;
    let ghost mut fresh_id = Seq::new(36, |i: int| 'r');
    let ghost mut cells = Seq::new(170, |i: int| 1u8);
    let res = match client_msg {
        WsClientMsg::CreateRoom { player } => {
            let (room_id, reply) = rooms.create_room(player.clone());
            proof {
                fresh_id = room_id@;
            }
            ctx.joined_room = Some(room_id);
            ctx.my_player_id = Some(player.player_id);
            Ok(Reaction { channel: ChannelOrder::Open, broadcast: none(), reply, timer: None })
        },
        WsClientMsg::JoinRoom { room_id, player } => on_join_room(ctx, rooms, room_id, player),
        WsClientMsg::ReadyUp { ready } => on_ready_up(ctx, rooms, ready),
        WsClientMsg::StartGame {  } => {
            let refusal = match ctx.require_room_and_player() {
                Err(error) => Some(error),
                Ok((room_id, player_id)) => match rooms.check_start(room_id, player_id) {
                    Err(error) => Some(refuse_start(room_id, error)),
                    Ok(()) => None,
                },
            };
            match refusal {
                Some(error) => Err(error),
                None => {
                    let board = generate_board();
                    proof {
                        cells = board@;
                    }
                    on_start_game(ctx, rooms, board)
                },
            }
        },
        WsClientMsg::ScoreUpdate { cleared_count, turn } => on_score_update(
            ctx,
            rooms,
            cleared_count,
            turn,
        ),
        WsClientMsg::ChatMessage { message } => on_chat_message(ctx, rooms, message),
    };
    assert(observed(res, ctx@, rooms@) == command_outcome(
        old(ctx)@,
        old(rooms)@,
        command,
        fresh_id,
        cells,
    ));
    res
}

/// The refusal of `command` that can be told from the connection alone,
/// before the table of rooms is looked at: a command that needs a room and a
/// player, on a connection that lacks one of them.
pub fn precheck(command: &WsClientMsg, ctx: &ConnContext) -> (res: Option<WsServerMsg>)
    ensures
        needs_membership(command@) && guard(ctx@) is Some ==> (res matches Some(error)
            && Some(error@) == guard(ctx@)),
        !(needs_membership(command@) && guard(ctx@) is Some) ==> res is None,
{
    match command {
        WsClientMsg::CreateRoom { .. } => None,
        WsClientMsg::JoinRoom { .. } => None,
        _ => match ctx.require_room_and_player() {
            Err(error) => Some(error),
            Ok(_) => None,
        },
    }
}

/// A copy of an optional identifier.
fn clone_id(id: &Option<String>) -> (res: Option<String>)
    ensures
        res == *id,
{
    match id {
        Some(s) => Some(s.clone()),
        None => None,
    }
}

/// What the subscription to the channel of a room yields.
#[derive(Debug, PartialEq, Eq)]
pub enum BroadcastEvent {
    /// An event that was published to the room.
    Message(WsServerMsg),
    /// The connection was too slow and has missed events; the next one follows.
    Lagged,
    /// The room is gone and its channel is closed.
    Closed,
}

/// What the connection task does with what its subscription yielded.
#[derive(Debug, PartialEq, Eq)]
pub struct Relay {
    /// The event to send to the client, if any.
    pub send: Option<WsServerMsg>,
    /// Whether the connection ends after that.
    pub close: bool,
}

/// The text that tells a client that its room is gone.
pub open spec fn room_closed_text() -> Seq<char> {
    "Room closed"@
}

/// Decides what to do with what the subscription yielded: an event is
/// passed on as it is, missed events are passed over in silence, and a
/// closed channel ends the connection after the client was told so.
pub fn on_broadcast(ctx: &ConnContext, event: BroadcastEvent) -> (relay: Relay)
    ensures
        match event {
            BroadcastEvent::Message(msg) => relay.send == Some(msg) && !relay.close,
            BroadcastEvent::Lagged => relay.send is None && !relay.close,
            BroadcastEvent::Closed => {
                &&& relay.send matches Some(msg)
                &&& msg@ == refusal(ctx@.joined_room, room_closed_text())
                &&& relay.close
            },
        },
{
    match event {
        BroadcastEvent::Message(msg) => Relay { send: Some(msg), close: false },
        BroadcastEvent::Lagged => Relay { send: None, close: false },
        BroadcastEvent::Closed => Relay {
            send: Some(refuse(clone_id(&ctx.joined_room), "Room closed")),
            close: true,
        },
    }
}

/// The text that tells a client that its payload could not be decoded, with
/// the decoder's complaint `detail`.
pub open spec fn invalid_request_text(detail: Seq<char>) -> Seq<char> {
    "Invalid JSON: "@ + detail
}

/// The refusal of a payload that could not be decoded. The connection goes on.
pub fn invalid_request(ctx: &ConnContext, detail: &str) -> (msg: WsServerMsg)
    ensures
        msg@ == refusal(ctx@.joined_room, invalid_request_text(detail@)),
{
    let reason = text("Invalid JSON: ").concat(detail);
    WsServerMsg::Error { room_id: clone_id(&ctx.joined_room), msg: reason }
}

/// The table of rooms after the connection `ctx` has ended: its player has
/// left its room, if it stood for both.
pub open spec fn table_after_disconnect(ctx: ConnView, table: RoomTable) -> RoomTable {
    match (ctx.joined_room, ctx.my_player_id) {
        (Some(room_id), Some(player_id)) => table_without(table, room_id, player_id),
        _ => table,
    }
}

/// What the end of the connection `ctx` means for its room.
pub open spec fn leave_on_disconnect(ctx: ConnView, table: RoomTable) -> LeaveView {
    match (ctx.joined_room, ctx.my_player_id) {
        (Some(room_id), Some(player_id)) => leave_result(table, room_id, player_id),
        _ => LeaveView::NoRoom,
    }
}

/// Ends a connection: if it stood for a player in a room, the player leaves
/// the room. The context is used up, so that this happens once.
pub fn disconnect(ctx: ConnContext, rooms: &mut RoomRegistry) -> (res: Leave)
    requires
        old(rooms).wf(),
    ensures
        final(rooms).wf(),
        final(rooms)@ == table_after_disconnect(ctx@, old(rooms)@),
        res@ == leave_on_disconnect(ctx@, old(rooms)@),
{
    match (&ctx.joined_room, &ctx.my_player_id) {
        (Some(room_id), Some(player_id)) => rooms.leave_room(room_id, player_id),
        _ => Leave::NoRoom,
    }
}

} // verus!
