use vstd::prelude::*;

use crate::components::{Item, Metadata, Position, Team, Velocity};
use crate::model::Score;

verus! {

/// A command for the simulation.
#[derive(Debug)]
pub enum Input {
    PlayerMove { player_id: String, velocity: Velocity },
    PlayerMelee { player_id: String },
    RemovePlayer { id: String },
    /// Issued by the server when a client connects; never by a client.
    CreatePlayer { id: String, team: Team },
}

/// Why a command had no effect.
#[derive(Clone, Copy, Debug, PartialEq, Eq, Structural)]
pub enum GameError {
    /// The command names an identifier that is not registered.
    UnknownPlayer,
    /// A client sent a command that only the server may issue.
    ProtocolViolation,
}

impl Input {
    pub open spec fn from_server_only(&self) -> bool {
        self is CreatePlayer
    }
}

/// Screens a command that arrived from a client: `CreatePlayer` is the
/// server's to issue and is refused; every other command passes unchanged.
pub fn screen_client_input(input: Input) -> (r: Result<Input, GameError>)
    ensures
        input.from_server_only() ==> r == Err::<Input, GameError>(GameError::ProtocolViolation),
        !input.from_server_only() ==> r == Ok::<Input, GameError>(input),
{
    match input {
        Input::CreatePlayer { .. } => Err(GameError::ProtocolViolation),
        other => Ok(other),
    }
}

/// A player as a snapshot shows it.
#[derive(Debug)]
pub struct Player {
    pub metadata: Metadata,
    pub position: Position,
    pub velocity: Velocity,
    pub team: Team,
    pub melee_active: bool,
}

/// A flag as a snapshot shows it.
#[derive(Debug)]
pub struct Flag {
    pub position: Position,
    pub team: Team,
    pub item: Item,
}

/// What clients are sent after each tick.
#[derive(Debug)]
pub struct Snapshot {
    pub players: Vec<Player>,
    pub flags: Vec<Flag>,
    pub score: Score,
}

} // verus!
