//! Authoritative simulation of a two-team capture-the-flag game: an entity
//! store of flags and players, the ordered systems that advance it by a fixed
//! tick, the commands that steer it, and the snapshots it publishes.
use vstd::prelude::*;

pub mod components;
pub mod game;
pub mod laws;
pub mod lunge;
pub mod model;
pub mod protocol;
pub mod store;
pub mod systems;

pub use components::{Item, Melee, Metadata, Position, Radius, Team, Velocity};
pub use game::Game;
pub use model::Score;
pub use protocol::{screen_client_input, Flag, GameError, Input, Player, Snapshot};

verus! {

} // verus!
