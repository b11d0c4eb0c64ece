use vstd::prelude::*;
use crate::error::GameError;
use crate::team::Team;
use crate::text::{to_upper, upper_of};

verus! {

/// Number of colours that take part in a game.
pub const COLOR_COUNT: usize = 4;

/// A colour in the game; `Empty` marks an empty field.
#[derive(Debug, Copy, Clone, PartialEq, Eq, Hash, Structural)]
pub enum Color {
    Empty,
    Blue,
    Yellow,
    Red,
    Green,
}

/// The team a colour plays for.
pub open spec fn team_of(c: Color) -> Team {
    match c {
        Color::Red | Color::Blue => Team::One,
        Color::Yellow | Color::Green => Team::Two,
        Color::Empty => Team::Unassigned,
    }
}

impl Color {
    /// Unwraps an option, mapping `None` to `Color::Empty`.
    pub fn from_option(option: Option<Color>) -> (r: Color)
        ensures
            r == (match option {
                Some(c) => c,
                Option::None => Color::Empty,
            }),
    {
        match option {
            Some(c) => c,
            Option::None => Color::Empty,
        }
    }

    /// The colour's team: blue and red play for team one, yellow and green for
    /// team two.
    pub fn team(self) -> (r: Team)
        ensures
            r == team_of(self),
    {
        match self {
            Color::Red | Color::Blue => Team::One,
            Color::Yellow | Color::Green => Team::Two,
            Color::Empty => Team::Unassigned,
        }
    }

    /// Converts the colour into an option, mapping `Color::Empty` to `None`.
    pub fn to_option(self) -> (r: Option<Color>)
        ensures
            r == (if self == Color::Empty { Option::<Color>::None } else { Some(self) }),
    {
        match self {
            Color::Empty => Option::None,
            c => Some(c),
        }
    }

    /// The colour's upper-case identifier.
    pub fn name(self) -> (r: &'static str)
        ensures
            r@ == color_name(self),
    {
        proof {
            reveal_strlit("NONE");
            reveal_strlit("BLUE");
            reveal_strlit("YELLOW");
            reveal_strlit("RED");
            reveal_strlit("GREEN");
        }
        match self {
            Color::Empty => "NONE",
            Color::Blue => "BLUE",
            Color::Yellow => "YELLOW",
            Color::Red => "RED",
            Color::Green => "GREEN",
        }
    }
}

/// The playing colour whose identifier is `s`.
pub open spec fn color_named(s: Seq<char>) -> Option<Color> {
    if s == color_name(Color::Blue) {
        Some(Color::Blue)
    } else if s == color_name(Color::Yellow) {
        Some(Color::Yellow)
    } else if s == color_name(Color::Red) {
        Some(Color::Red)
    } else if s == color_name(Color::Green) {
        Some(Color::Green)
    } else {
        Option::None
    }
}

impl Color {
    /// The playing colour whose upper-case identifier is `name`.
    pub fn from_upper_name(name: &str) -> (r: Result<Color, GameError>)
        ensures
            r == match color_named(name@) {
                Some(c) => Ok::<Color, GameError>(c),
                Option::None => Err(GameError::ParseError),
            },
    {
        let s = name.to_owned();
        if s == Color::Blue.name().to_owned() {
            Ok(Color::Blue)
        } else if s == Color::Yellow.name().to_owned() {
            Ok(Color::Yellow)
        } else if s == Color::Red.name().to_owned() {
            Ok(Color::Red)
        } else if s == Color::Green.name().to_owned() {
            Ok(Color::Green)
        } else {
            Err(GameError::ParseError)
        }
    }

    /// The playing colour whose identifier is `raw`, in any case.
    pub fn parse(raw: &str) -> (r: Result<Color, GameError>)
        ensures
            r == match color_named(upper_of(raw@)) {
                Some(c) => Ok::<Color, GameError>(c),
                Option::None => Err(GameError::ParseError),
            },
    {
        let upper = to_upper(raw);
        Self::from_upper_name(upper.as_str())
    }
}

/// The upper-case identifier of a colour.
pub open spec fn color_name(c: Color) -> Seq<char> {
    match c {
        Color::Empty => seq!['N', 'O', 'N', 'E'],
        Color::Blue => seq!['B', 'L', 'U', 'E'],
        Color::Yellow => seq!['Y', 'E', 'L', 'L', 'O', 'W'],
        Color::Red => seq!['R', 'E', 'D'],
        Color::Green => seq!['G', 'R', 'E', 'E', 'N'],
    }
}

impl Default for Color {
    fn default() -> (r: Color)
        ensures
            r == Color::Empty,
    {
        Color::Empty
    }
}

} // verus!
