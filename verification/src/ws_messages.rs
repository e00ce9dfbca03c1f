//! The messages exchanged with clients, and their mathematical views.

use vstd::prelude::*;
use crate::board::BoardData;

verus! {

/// Identifier of a room.
pub type RoomId = String;

/// Identifier of a player.
pub type PlayerId = String;

/// One connected player.
#[derive(Debug, PartialEq, Eq)]
pub struct Player {
    /// The player's unique identifier.
    pub player_id: PlayerId,
    /// The display name, fixed when the player joins.
    pub name: String,
    /// Whether the player is ready for the next round.
    pub ready: bool,
}

/// Mathematical view of a [`Player`].
pub struct PlayerView {
    pub player_id: Seq<char>,
    pub name: Seq<char>,
    pub ready: bool,
}

impl View for Player {
    type V = PlayerView;

    open spec fn view(&self) -> PlayerView {
        PlayerView { player_id: self.player_id@, name: self.name@, ready: self.ready }
    }
}

impl DeepView for Player {
    type V = PlayerView;

    open spec fn deep_view(&self) -> PlayerView {
        self@
    }
}

impl Clone for Player {
    fn clone(&self) -> (res: Self)
        ensures
            res == *self,
    {
        Player { player_id: self.player_id.clone(), name: self.name.clone(), ready: self.ready }
    }
}

/// Copies a list of players.
pub fn clone_players(players: &Vec<Player>) -> (res: Vec<Player>)
    ensures
        res@ == players@,
{
    let mut res: Vec<Player> = Vec::new();
    let mut i: usize = 0;
    while i < players.len()
        invariant
            i <= players.len(),
            res@ == players@.take(i as int),
        decreases players.len() - i,
    {
        res.push(players[i].clone());
        assert(players@.take(i as int).push(players@[i as int]) =~= players@.take(i + 1));
        i += 1;
    }
    assert(players@.take(players.len() as int) =~= players@);
    res
}

/// Mathematical view of a list of players.
pub open spec fn players_view(players: Seq<Player>) -> Seq<PlayerView> {
    players.map_values(|p: Player| p@)
}

/// Mathematical view of a table that pairs a player's identifier with a number.
pub open spec fn table_view(table: Seq<(PlayerId, u32)>) -> Seq<(Seq<char>, u32)> {
    table.map_values(|e: (PlayerId, u32)| (e.0@, e.1))
}

/// Mathematical view of a list of leaderboard rows, each a score and a name.
pub open spec fn rows_view(rows: Seq<(u32, String)>) -> Seq<(u32, Seq<char>)> {
    rows.map_values(|e: (u32, String)| (e.0, e.1@))
}

/// Mathematical view of an optional identifier.
pub open spec fn opt_view(id: Option<String>) -> Option<Seq<char>> {
    match id {
        Some(s) => Some(s@),
        None => None,
    }
}

/// A command sent by a client.
#[derive(Debug, PartialEq, Eq)]
pub enum WsClientMsg {
    /// Create a new room owned by `player`.
    CreateRoom { player: Player },
    /// Join the room `room_id` as `player`.
    JoinRoom { room_id: RoomId, player: Player },
    /// Start a round; only the room's owner may do so.
    StartGame {  },
    /// Report that the sender just cleared `cleared_count` tiles in turn `turn`.
    ScoreUpdate { cleared_count: u32, turn: u32 },
    /// Set the sender's ready flag.
    ReadyUp { ready: bool },
    /// Say `message` to everyone in the room.
    ChatMessage { message: String },
}

/// Mathematical view of a [`WsClientMsg`].
pub enum ClientMsgView {
    CreateRoom { player: PlayerView },
    JoinRoom { room_id: Seq<char>, player: PlayerView },
    StartGame,
    ScoreUpdate { cleared_count: u32, turn: u32 },
    ReadyUp { ready: bool },
    ChatMessage { message: Seq<char> },
}

impl View for WsClientMsg {
    type V = ClientMsgView;

    open spec fn view(&self) -> ClientMsgView {
        match *self {
            WsClientMsg::CreateRoom { player } => ClientMsgView::CreateRoom { player: player@ },
            WsClientMsg::JoinRoom { room_id, player } => ClientMsgView::JoinRoom {
                room_id: room_id@,
                player: player@,
            },
            WsClientMsg::StartGame {  } => ClientMsgView::StartGame,
            WsClientMsg::ScoreUpdate { cleared_count, turn } => ClientMsgView::ScoreUpdate {
                cleared_count,
                turn,
            },
            WsClientMsg::ReadyUp { ready } => ClientMsgView::ReadyUp { ready },
            WsClientMsg::ChatMessage { message } => ClientMsgView::ChatMessage {
                message: message@,
            },
        }
    }
}

/// An event sent by the server.
#[derive(Debug, PartialEq, Eq)]
#[allow(inconsistent_fields)]
pub enum WsServerMsg {
    /// A room was created for the receiver.
    RoomCreated { room_id: RoomId },
    /// The members of a room, in the order in which they joined, and its owner.
    RoomPlayersUpdate { room_id: RoomId, players: Vec<Player>, owner_id: PlayerId },
    /// A round started on `board` and lasts `duration_secs` seconds.
    GameStarted { room_id: RoomId, board: BoardData, duration_secs: u64 },
    /// The running round has `remaining_secs` seconds left.
    TimerTick { remaining_secs: u64 },
    /// The running score of every member of a room.
    LeaderboardUpdate { room_id: RoomId, scores: Vec<(PlayerId, u32)> },
    /// A member of a room said `message`.
    ChatBroadcast { room_id: RoomId, player: Player, message: String },
    /// A command was refused; sent to the connection that issued it only.
    Error { room_id: Option<RoomId>, msg: String },
    /// The global leaderboard, best score first, each row a score and a name.
    Top10Scores { scores: Vec<(u32, String)> },
}

/// Mathematical view of a [`WsServerMsg`].
#[allow(inconsistent_fields)]
pub enum ServerMsgView {
    RoomCreated { room_id: Seq<char> },
    RoomPlayersUpdate { room_id: Seq<char>, players: Seq<PlayerView>, owner_id: Seq<char> },
    GameStarted { room_id: Seq<char>, board: Seq<u8>, duration_secs: u64 },
    TimerTick { remaining_secs: u64 },
    LeaderboardUpdate { room_id: Seq<char>, scores: Seq<(Seq<char>, u32)> },
    ChatBroadcast { room_id: Seq<char>, player: PlayerView, message: Seq<char> },
    Error { room_id: Option<Seq<char>>, msg: Seq<char> },
    Top10Scores { scores: Seq<(u32, Seq<char>)> },
}

impl View for WsServerMsg {
    type V = ServerMsgView;

    open spec fn view(&self) -> ServerMsgView {
        match *self {
            WsServerMsg::RoomCreated { room_id } => ServerMsgView::RoomCreated { room_id: room_id@ },
            WsServerMsg::RoomPlayersUpdate { room_id, players, owner_id } => {
                ServerMsgView::RoomPlayersUpdate {
                    room_id: room_id@,
                    players: players_view(players@),
                    owner_id: owner_id@,
                }
            },
            WsServerMsg::GameStarted { room_id, board, duration_secs } => {
                ServerMsgView::GameStarted { room_id: room_id@, board: board@, duration_secs }
            },
            WsServerMsg::TimerTick { remaining_secs } => ServerMsgView::TimerTick {
                remaining_secs,
            },
            WsServerMsg::LeaderboardUpdate { room_id, scores } => {
                ServerMsgView::LeaderboardUpdate { room_id: room_id@, scores: table_view(scores@) }
            },
            WsServerMsg::ChatBroadcast { room_id, player, message } => {
                ServerMsgView::ChatBroadcast {
                    room_id: room_id@,
                    player: player@,
                    message: message@,
                }
            },
            WsServerMsg::Error { room_id, msg } => ServerMsgView::Error {
                room_id: opt_view(room_id),
                msg: msg@,
            },
            WsServerMsg::Top10Scores { scores } => ServerMsgView::Top10Scores {
                scores: rows_view(scores@),
            },
        }
    }
}

/// Mathematical view of a list of server events.
pub open spec fn msgs_view(msgs: Seq<WsServerMsg>) -> Seq<ServerMsgView> {
    msgs.map_values(|m: WsServerMsg| m@)
}

/// Copies a table that pairs identifiers with numbers.
pub fn clone_table(table: &Vec<(PlayerId, u32)>) -> (res: Vec<(PlayerId, u32)>)
    ensures
        res@ == table@,
{
    let mut res: Vec<(PlayerId, u32)> = Vec::new();
    let mut i: usize = 0;
    while i < table.len()
        invariant
            i <= table.len(),
            res@.len() == i,
            forall|k: int| 0 <= k < i ==> (#[trigger] res@[k]) == table@[k],
        decreases table.len() - i,
    {
        res.push((table[i].0.clone(), table[i].1));
        i += 1;
    }
    assert(res@ =~= table@);
    res
}

/// Copies a list of leaderboard rows.
pub fn clone_rows(rows: &Vec<(u32, String)>) -> (res: Vec<(u32, String)>)
    ensures
        res@ == rows@,
{
    let mut res: Vec<(u32, String)> = Vec::new();
    let mut i: usize = 0;
    while i < rows.len()
        invariant
            i <= rows.len(),
            res@.len() == i,
            forall|k: int| 0 <= k < i ==> (#[trigger] res@[k]) == rows@[k],
        decreases rows.len() - i,
    {
        res.push((rows[i].0, rows[i].1.clone()));
        i += 1;
    }
    assert(res@ =~= rows@);
    res
}

impl Clone for WsServerMsg {
    fn clone(&self) -> (res: Self)
        ensures
            res@ == self@,
    {
        match self {
            WsServerMsg::RoomCreated { room_id } => WsServerMsg::RoomCreated {
                room_id: room_id.clone(),
            },
            WsServerMsg::RoomPlayersUpdate { room_id, players, owner_id } => {
                WsServerMsg::RoomPlayersUpdate {
                    room_id: room_id.clone(),
                    players: clone_players(players),
                    owner_id: owner_id.clone(),
                }
            },
            WsServerMsg::GameStarted { room_id, board, duration_secs } => {
                WsServerMsg::GameStarted {
                    room_id: room_id.clone(),
                    board: board.clone(),
                    duration_secs: *duration_secs,
                }
            },
            WsServerMsg::TimerTick { remaining_secs } => WsServerMsg::TimerTick {
                remaining_secs: *remaining_secs,
            },
            WsServerMsg::LeaderboardUpdate { room_id, scores } => {
                WsServerMsg::LeaderboardUpdate {
                    room_id: room_id.clone(),
                    scores: clone_table(scores),
                }
            },
            WsServerMsg::ChatBroadcast { room_id, player, message } => {
                WsServerMsg::ChatBroadcast {
                    room_id: room_id.clone(),
                    player: player.clone(),
                    message: message.clone(),
                }
            },
            WsServerMsg::Error { room_id, msg } => WsServerMsg::Error {
                room_id: match room_id {
                    Some(id) => Some(id.clone()),
                    None => None,
                },
                msg: msg.clone(),
            },
            WsServerMsg::Top10Scores { scores } => WsServerMsg::Top10Scores {
                scores: clone_rows(scores),
            },
        }
    }
}

} // verus!
