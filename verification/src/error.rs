//! The reasons for which the table of rooms refuses an operation.

use vstd::prelude::*;

verus! {

/// Why an operation on a room was refused. None of these is fatal: a refused
/// operation changes nothing, and the refusal is told to the connection that
/// asked for the operation and to nobody else.
///
/// A connection that stands for no room or no player, and a payload that
/// cannot be decoded, are refused before the table of rooms is looked at;
/// the session builds those refusals itself.
#[derive(Clone, Copy, Debug, PartialEq, Eq, Structural)]
pub enum RoomError {
    /// No room has the given identifier.
    RoomNotFound,
    /// The room already has a player with that identifier.
    AlreadyInRoom,
    /// The player is not a member of the room.
    NotInRoom,
    /// A player other than the owner tried to start a round.
    NotOwner,
    /// A player other than the owner is not ready.
    PlayersNotReady,
}

} // verus!
