use vstd::prelude::*;
use crate::team::Team;

verus! {

/// Metadata about a player.
#[derive(Debug, Clone)]
pub struct Player {
    pub team: Team,
    pub display_name: String,
}

impl Player {
    /// An equal copy of the player.
    pub fn duplicate(&self) -> (r: Player)
        ensures
            r == *self,
    {
        Player { team: self.team, display_name: self.display_name.clone() }
    }
}

} // verus!
