use vstd::prelude::*;
use crate::error::GameError;
use crate::text::{to_upper, upper_of};

verus! {

/// How a piece shape is rotated; `Mirror` is a half turn, `Identity` no turn at all.
#[derive(Debug, Copy, Clone, PartialEq, Eq, Hash, Structural)]
pub enum Rotation {
    Identity,
    Right,
    Mirror,
    Left,
}

/// The rotations in the order in which move generation visits them.
pub open spec fn rotation_order() -> Seq<Rotation> {
    seq![Rotation::Identity, Rotation::Left, Rotation::Right, Rotation::Mirror]
}

impl Rotation {
    /// The four rotations: none, left, right, mirror.
    pub fn all() -> (r: Vec<Rotation>)
        ensures
            r@ == rotation_order(),
    {
        let r = vec![Rotation::Identity, Rotation::Left, Rotation::Right, Rotation::Mirror];
        assert(r@ =~= rotation_order());
        r
    }
}

/// The number of a rotation: quarter turns to the right.
pub open spec fn rotation_number(r: Rotation) -> i32 {
    match r {
        Rotation::Identity => 0,
        Rotation::Right => 1,
        Rotation::Mirror => 2,
        Rotation::Left => 3,
    }
}

/// The upper-case identifier of a rotation.
pub open spec fn rotation_name(r: Rotation) -> Seq<char> {
    match r {
        Rotation::Identity => seq!['N', 'O', 'N', 'E'],
        Rotation::Right => seq!['R', 'I', 'G', 'H', 'T'],
        Rotation::Mirror => seq!['M', 'I', 'R', 'R', 'O', 'R'],
        Rotation::Left => seq!['L', 'E', 'F', 'T'],
    }
}

/// The rotation whose identifier is `s`.
pub open spec fn rotation_named(s: Seq<char>) -> Option<Rotation> {
    if s == rotation_name(Rotation::Identity) {
        Some(Rotation::Identity)
    } else if s == rotation_name(Rotation::Right) {
        Some(Rotation::Right)
    } else if s == rotation_name(Rotation::Mirror) {
        Some(Rotation::Mirror)
    } else if s == rotation_name(Rotation::Left) {
        Some(Rotation::Left)
    } else {
        None
    }
}

impl Rotation {
    /// The rotation with the given number of quarter turns to the right.
    pub fn from_number(n: i32) -> (r: Result<Rotation, GameError>)
        ensures
            0 <= n < 4 ==> r.is_ok() && rotation_number(r->Ok_0) == n,
            !(0 <= n < 4) ==> r == Err::<Rotation, GameError>(GameError::ParseError),
    {
        match n {
            0 => Ok(Rotation::Identity),
            1 => Ok(Rotation::Right),
            2 => Ok(Rotation::Mirror),
            3 => Ok(Rotation::Left),
            _ => Err(GameError::ParseError),
        }
    }

    /// The number of quarter turns to the right.
    pub fn number(self) -> (r: i32)
        ensures
            r == rotation_number(self),
    {
        match self {
            Rotation::Identity => 0,
            Rotation::Right => 1,
            Rotation::Mirror => 2,
            Rotation::Left => 3,
        }
    }

    /// The rotation's upper-case identifier.
    pub fn name(self) -> (r: &'static str)
        ensures
            r@ == rotation_name(self),
    {
        proof {
            reveal_strlit("NONE");
            reveal_strlit("RIGHT");
            reveal_strlit("MIRROR");
            reveal_strlit("LEFT");
        }
        match self {
            Rotation::Identity => "NONE",
            Rotation::Right => "RIGHT",
            Rotation::Mirror => "MIRROR",
            Rotation::Left => "LEFT",
        }
    }

    /// The rotation whose upper-case identifier is `name`.
    pub fn from_upper_name(name: &str) -> (r: Result<Rotation, GameError>)
        ensures
            r == match rotation_named(name@) {
                Some(t) => Ok::<Rotation, GameError>(t),
                None => Err(GameError::ParseError),
            },
    {
        let s = name.to_owned();
        if s == Rotation::Identity.name().to_owned() {
            Ok(Rotation::Identity)
        } else if s == Rotation::Right.name().to_owned() {
            Ok(Rotation::Right)
        } else if s == Rotation::Mirror.name().to_owned() {
            Ok(Rotation::Mirror)
        } else if s == Rotation::Left.name().to_owned() {
            Ok(Rotation::Left)
        } else {
            Err(GameError::ParseError)
        }
    }

    /// The rotation whose identifier is `raw`, in any case.
    pub fn parse(raw: &str) -> (r: Result<Rotation, GameError>)
        ensures
            r == match rotation_named(upper_of(raw@)) {
                Some(t) => Ok::<Rotation, GameError>(t),
                None => Err(GameError::ParseError),
            },
    {
        let upper = to_upper(raw);
        Self::from_upper_name(upper.as_str())
    }
}

} // verus!
