use vstd::prelude::*;
use crate::game_state::GameState;
use crate::moves::Move;
use crate::team::Team;

verus! {

/// What a message between a game server and a client carries.
#[derive(Debug)]
pub enum Data {
    /// The server names the client's team.
    WelcomeMessage { team: Team },
    /// A snapshot of the game.
    Memento { state: GameState },
    /// A move.
    Move(Move),
    /// The server asks for a move.
    MoveRequest,
    /// The server reports an error.
    Error { message: String },
}

} // verus!
