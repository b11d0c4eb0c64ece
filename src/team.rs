use vstd::prelude::*;
use crate::error::GameError;
use crate::text::{to_upper, upper_of};

verus! {

/// A player's team.
#[derive(Debug, Copy, Clone, PartialEq, Eq, Hash, Structural)]
pub enum Team {
    Unassigned,
    One,
    Two,
}

impl Team {
    /// Unwraps an option, mapping `None` to `Team::Unassigned`.
    pub fn from_option(option: Option<Team>) -> (r: Team)
        ensures
            r == (match option {
                Some(t) => t,
                Option::None => Team::Unassigned,
            }),
    {
        match option {
            Some(t) => t,
            Option::None => Team::Unassigned,
        }
    }

    /// Converts the team into an option, mapping `Team::Unassigned` to `None`.
    pub fn to_option(self) -> (r: Option<Team>)
        ensures
            r == (if self == Team::Unassigned { Option::<Team>::None } else { Some(self) }),
    {
        match self {
            Team::Unassigned => Option::None,
            t => Some(t),
        }
    }

    /// The opposing team; `Team::Unassigned` has none.
    pub fn opponent(self) -> (r: Team)
        ensures
            r == (match self {
                Team::Unassigned => Team::Unassigned,
                Team::One => Team::Two,
                Team::Two => Team::One,
            }),
    {
        match self {
            Team::Unassigned => Team::Unassigned,
            Team::One => Team::Two,
            Team::Two => Team::One,
        }
    }
}

/// The upper-case identifier of a team.
pub open spec fn team_name(t: Team) -> Seq<char> {
    match t {
        Team::Unassigned => seq!['N', 'O', 'N', 'E'],
        Team::One => seq!['O', 'N', 'E'],
        Team::Two => seq!['T', 'W', 'O'],
    }
}

/// The team whose identifier is `s`.
pub open spec fn team_named(s: Seq<char>) -> Option<Team> {
    if s == team_name(Team::Unassigned) {
        Some(Team::Unassigned)
    } else if s == team_name(Team::One) {
        Some(Team::One)
    } else if s == team_name(Team::Two) {
        Some(Team::Two)
    } else {
        Option::None
    }
}

impl Team {
    /// The team's upper-case identifier.
    pub fn name(self) -> (r: &'static str)
        ensures
            r@ == team_name(self),
    {
        proof {
            reveal_strlit("NONE");
            reveal_strlit("ONE");
            reveal_strlit("TWO");
        }
        match self {
            Team::Unassigned => "NONE",
            Team::One => "ONE",
            Team::Two => "TWO",
        }
    }

    /// The team whose upper-case identifier is `name`.
    pub fn from_upper_name(name: &str) -> (r: Result<Team, GameError>)
        ensures
            r == match team_named(name@) {
                Some(t) => Ok::<Team, GameError>(t),
                Option::None => Err(GameError::ParseError),
            },
    {
        let s = name.to_owned();
        if s == Team::Unassigned.name().to_owned() {
            Ok(Team::Unassigned)
        } else if s == Team::One.name().to_owned() {
            Ok(Team::One)
        } else if s == Team::Two.name().to_owned() {
            Ok(Team::Two)
        } else {
            Err(GameError::ParseError)
        }
    }

    /// The team whose identifier is `raw`, in any case.
    pub fn parse(raw: &str) -> (r: Result<Team, GameError>)
        ensures
            r == match team_named(upper_of(raw@)) {
                Some(t) => Ok::<Team, GameError>(t),
                Option::None => Err(GameError::ParseError),
            },
    {
        let upper = to_upper(raw);
        Self::from_upper_name(upper.as_str())
    }
}

impl Default for Team {
    fn default() -> (r: Team)
        ensures
            r == Team::Unassigned,
    {
        Team::Unassigned
    }
}

} // verus!
