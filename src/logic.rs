use vstd::prelude::*;
use crate::game_state::GameState;
use crate::moves::Move;

verus! {

/// A game logic that plays one of the legal moves, chosen by a number that
/// the caller draws.
pub struct OwnGameLogic;

impl OwnGameLogic {
    /// The legal move with index `choice` modulo the number of legal moves,
    /// or nothing where there is no legal move.
    pub fn pick_move(&self, state: &GameState, choice: usize) -> (r: Option<Move>)
        requires
            state.wf(),
        ensures
            match r {
                Some(m) => state.valid_move(m),
                None => state.first_of(state.color_to_move()),
            },
    {
        let moves = state.possible_moves();
        if moves.len() == 0 {
            None
        } else {
            Some(moves[choice % moves.len()])
        }
    }
}

} // verus!
