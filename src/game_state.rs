use vstd::prelude::*;
use vstd::array::ArrayAdditionalExecFns;
use crate::board::{Board, in_bounds, is_corner, aligned_anchor};
use crate::corner::Corner;
use crate::color::{Color, COLOR_COUNT, team_of};
use crate::error::GameError;
use crate::moves::{Move, move_color};
use crate::piece::Piece;
use crate::piece_shape::{PieceShape, SHAPE_COUNT, SUM_MAX_SQUARES, MONO_INDEX, bbox, transformed, transformation_order};
use crate::rotation::Rotation;
use crate::player::Player;
use crate::team::Team;
use crate::vec2::{Vec2, pt};

verus! {

/// Slot of a playing colour in per-colour tables.
pub open spec fn color_slot(c: Color) -> int {
    match c {
        Color::Blue => 0,
        Color::Yellow => 1,
        Color::Red => 2,
        Color::Green => 3,
        Color::Empty => 0,
    }
}

/// Some shape of `v` has the name with catalog index `i`.
pub open spec fn has_name(v: Seq<PieceShape>, i: int) -> bool {
    exists|k: int| 0 <= k < v.len() && #[trigger] v[k].id() == i
}

/// Catalog shapes with pairwise distinct names.
pub open spec fn inventory_ok(v: Seq<PieceShape>) -> bool {
    &&& forall|k: int| 0 <= k < v.len() ==> 0 <= (#[trigger] v[k]).id() < SHAPE_COUNT
    &&& forall|a: int, b: int| 0 <= a < b < v.len() ==> (#[trigger] v[a]).id() != (#[trigger] v[b]).id()
}

/// Every shape left after removing a name was there before.
pub proof fn lemma_without_from(s: Seq<PieceShape>, id: int)
    ensures
        forall|k: int| 0 <= k < without(s, id).len() ==> exists|j: int| 0 <= j < s.len() && #[trigger] without(s, id)[k] == s[j],
    decreases s.len(),
{
    if s.len() > 0 {
        lemma_without_from(s.drop_last(), id);
        let w = without(s.drop_last(), id);
        assert forall|k: int| 0 <= k < without(s, id).len() implies exists|j: int| 0 <= j < s.len() && #[trigger] without(s, id)[k] == s[j] by {
            if k < w.len() {
                let j = choose|j: int| 0 <= j < s.drop_last().len() && w[k] == s.drop_last()[j];
                assert(without(s, id)[k] == s[j]);
            } else {
                assert(without(s, id)[k] == s[s.len() - 1]);
            }
        }
    }
}

/// Checks that the shapes have pairwise distinct names.
fn inventory_is_ok(v: &Vec<PieceShape>) -> (r: bool)
    ensures
        r == inventory_ok(v@),
{
    let mut i: usize = 0;
    while i < v.len()
        invariant
            i <= v@.len(),
            forall|k: int| 0 <= k < i ==> 0 <= (#[trigger] v@[k]).id() < SHAPE_COUNT,
            forall|a: int, b: int| 0 <= a < b < v@.len() && a < i ==> (#[trigger] v@[a]).id() != (#[trigger] v@[b]).id(),
        decreases v@.len() - i,
    {
        let id = v[i].index();
        let mut j: usize = i + 1;
        while j < v.len()
            invariant
                i < j <= v@.len(),
                id == v@[i as int].id(),
                forall|b: int| i < b < j ==> v@[i as int].id() != (#[trigger] v@[b]).id(),
            decreases v@.len() - j,
        {
            if v[j].index() == id {
                return false;
            }
            j = j + 1;
        }
        i = i + 1;
    }
    true
}

/// Removing a name keeps an inventory well formed.
pub proof fn lemma_without_ok(s: Seq<PieceShape>, id: int)
    requires
        inventory_ok(s),
    ensures
        inventory_ok(without(s, id)),
    decreases s.len(),
{
    if s.len() > 0 {
        let t = s.drop_last();
        assert(inventory_ok(t));
        lemma_without_ok(t, id);
        lemma_without_from(t, id);
        let w = without(t, id);
        if s.last().id() != id {
            let r = w.push(s.last());
            assert forall|a: int, b: int| 0 <= a < b < r.len() implies (#[trigger] r[a]).id() != (#[trigger] r[b]).id() by {
                if b == r.len() - 1 {
                    let j = choose|j: int| 0 <= j < t.len() && #[trigger] w[a] == t[j];
                    assert(s[j] == t[j]);
                }
            }
            assert forall|k: int| 0 <= k < r.len() implies 0 <= (#[trigger] r[k]).id() < SHAPE_COUNT by {
                if k < w.len() {
                    let j = choose|j: int| 0 <= j < t.len() && #[trigger] w[k] == t[j];
                    assert(s[j] == t[j]);
                }
            }
        }
    }
}

/// Total number of cells of a sequence of shapes.
pub open spec fn total_size(s: Seq<PieceShape>) -> int
    decreases s.len(),
{
    if s.len() == 0 {
        0
    } else {
        total_size(s.drop_last()) + s.last()@.len()
    }
}

/// `s` without the shapes whose name has catalog index `id`.
pub open spec fn without(s: Seq<PieceShape>, id: int) -> Seq<PieceShape>
    decreases s.len(),
{
    if s.len() == 0 {
        s
    } else if s.last().id() == id {
        without(s.drop_last(), id)
    } else {
        without(s.drop_last(), id).push(s.last())
    }
}

/// Score of a colour from the shapes it has left.
pub open spec fn points_spec(undeployed: Seq<PieceShape>, mono_last: bool) -> int {
    if undeployed.len() == 0 {
        SUM_MAX_SQUARES + 15 + if mono_last {
            5int
        } else {
            0int
        }
    } else {
        SUM_MAX_SQUARES - total_size(undeployed)
    }
}

/// A snapshot of the game: everything needed to compute the next move.
#[derive(Debug)]
pub struct GameState {
    /// The number of committed moves.
    pub turn: u32,
    /// The number of rounds, starting at 1.
    pub round: u32,
    /// The first team's player.
    pub first: Player,
    /// The second team's player.
    pub second: Player,
    /// The board.
    pub board: Board,
    /// The shape every colour has to play first.
    pub start_piece: PieceShape,
    /// The colour that begins the game.
    pub start_color: Color,
    /// The team that begins the game.
    pub start_team: Team,
    /// The colours still in the game, in turn order.
    pub ordered_colors: Vec<Color>,
    /// For each colour (blue, yellow, red, green) that has placed all its
    /// shapes: whether the last one was the monomino.
    pub last_move_mono: [Option<bool>; COLOR_COUNT],
    /// Index of the colour to move in `ordered_colors`.
    pub current_color_index: u32,
    /// The undeployed blue shapes.
    pub blue_shapes: Vec<PieceShape>,
    /// The undeployed yellow shapes.
    pub yellow_shapes: Vec<PieceShape>,
    /// The undeployed red shapes.
    pub red_shapes: Vec<PieceShape>,
    /// The undeployed green shapes.
    pub green_shapes: Vec<PieceShape>,
}

impl GameState {
    /// The turn queue is non-empty, the cursor points into it, and it holds
    /// playing colours only.
    pub open spec fn wf(self) -> bool {
        &&& 0 < self.ordered_colors@.len() <= u32::MAX
        &&& self.current_color_index < self.ordered_colors@.len()
        &&& forall|k: int| 0 <= k < self.ordered_colors@.len() ==> #[trigger] self.ordered_colors@[k] != Color::Empty
        &&& inventory_ok(self.blue_shapes@)
        &&& inventory_ok(self.yellow_shapes@)
        &&& inventory_ok(self.red_shapes@)
        &&& inventory_ok(self.green_shapes@)
    }

    /// The colour to move.
    pub open spec fn color_to_move(self) -> Color {
        self.ordered_colors@[self.current_color_index as int]
    }

    /// The undeployed shapes of a colour.
    pub open spec fn shapes_of(self, c: Color) -> Seq<PieceShape> {
        match c {
            Color::Blue => self.blue_shapes@,
            Color::Yellow => self.yellow_shapes@,
            Color::Red => self.red_shapes@,
            Color::Green => self.green_shapes@,
            Color::Empty => Seq::empty(),
        }
    }

    /// The colour has all its shapes left: its next move is its first.
    pub open spec fn first_of(self, c: Color) -> bool {
        self.shapes_of(c).len() == SHAPE_COUNT
    }

    /// The shape may be placed by the colour: the start shape on a first move,
    /// else one of the colour's undeployed shapes (both by name).
    pub open spec fn shape_ok(self, kind: PieceShape, c: Color) -> bool {
        if self.first_of(c) {
            kind.id() == self.start_piece.id()
        } else {
            exists|k: int| 0 <= k < self.shapes_of(c).len() && (#[trigger] self.shapes_of(c)[k]).id() == kind.id()
        }
    }

    /// The cell can take a piece of colour `c`: on the board, free, and with no
    /// edge neighbour of colour `c`.
    pub open spec fn cell_ok(self, p: (int, int), c: Color) -> bool {
        in_bounds(p) && self.board.color_at(p) == Color::Empty && !self.board.borders(p, c)
    }

    /// The piece covers a board corner on a first move, and touches its own
    /// colour diagonally on any later one.
    pub open spec fn anchored(self, piece: Piece) -> bool {
        if self.first_of(piece.color) {
            exists|p: (int, int)| piece.cells().contains(p) && is_corner(p)
        } else {
            exists|p: (int, int)| piece.cells().contains(p) && self.board.touches(p, piece.color)
        }
    }

    /// Every cell of the piece can take it.
    pub open spec fn cells_ok(self, piece: Piece) -> bool {
        forall|p: (int, int)| piece.cells().contains(p) ==> self.cell_ok(p, piece.color)
    }

    /// The piece may be placed.
    pub open spec fn valid_piece(self, piece: Piece) -> bool {
        self.shape_ok(piece.kind, piece.color) && self.cells_ok(piece) && self.anchored(piece)
    }

    /// The move may be performed.
    pub open spec fn valid_move(self, m: Move) -> bool {
        &&& move_color(m) == self.color_to_move()
        &&& match m {
            Move::Skip { .. } => !self.first_of(self.color_to_move()),
            Move::Place { piece } => piece.fits() && self.valid_piece(piece),
        }
    }

    /// The two states hold the same values.
    pub open spec fn same_as(self, o: GameState) -> bool {
        &&& self.turn == o.turn
        &&& self.round == o.round
        &&& self.first == o.first
        &&& self.second == o.second
        &&& self.board == o.board
        &&& self.start_piece == o.start_piece
        &&& self.start_color == o.start_color
        &&& self.start_team == o.start_team
        &&& self.ordered_colors@ == o.ordered_colors@
        &&& self.last_move_mono == o.last_move_mono
        &&& self.current_color_index == o.current_color_index
        &&& self.blue_shapes@ == o.blue_shapes@
        &&& self.yellow_shapes@ == o.yellow_shapes@
        &&& self.red_shapes@ == o.red_shapes@
        &&& self.green_shapes@ == o.green_shapes@
    }

    /// A new game with the given start shape: blue to move, team one first,
    /// every colour holding the whole catalog, round 1, turn 0.
    pub fn new(start_piece: PieceShape) -> (r: Self)
        ensures
            r.wf(),
            r.turn == 0,
            r.round == 1,
            r.start_piece == start_piece,
            r.start_color == Color::Blue,
            r.start_team == Team::One,
            r.ordered_colors@ == seq![Color::Blue, Color::Yellow, Color::Red, Color::Green],
            r.current_color_index == 0,
            r.first.team == Team::One,
            r.first.display_name@ == "Alice"@,
            r.second.team == Team::Two,
            r.second.display_name@ == "Bob"@,
            forall|p: (int, int)| #[trigger] r.board.color_at(p) == Color::Empty,
            r.board.obstructed_count() == 0,
            forall|k: int| 0 <= k < COLOR_COUNT ==> r.last_move_mono[k].is_none(),
            forall|c: Color|
                c != Color::Empty ==> (#[trigger] r.shapes_of(c)).len() == SHAPE_COUNT
                    && forall|k: int| 0 <= k < SHAPE_COUNT ==> (#[trigger] r.shapes_of(c)[k]).id() == k
                        && r.shapes_of(c)[k]@ == crate::piece_shape::catalog_cells(k),
    {
        let ordered_colors = vec![Color::Blue, Color::Yellow, Color::Red, Color::Green];
        assert(ordered_colors@ =~= seq![Color::Blue, Color::Yellow, Color::Red, Color::Green]);
        let r = GameState {
            turn: 0,
            round: 1,
            first: Player { team: Team::One, display_name: "Alice".to_owned() },
            second: Player { team: Team::Two, display_name: "Bob".to_owned() },
            board: Board::new(),
            start_piece,
            start_color: Color::Blue,
            start_team: Team::One,
            ordered_colors,
            last_move_mono: [None; COLOR_COUNT],
            current_color_index: 0,
            blue_shapes: PieceShape::catalog(),
            yellow_shapes: PieceShape::catalog(),
            red_shapes: PieceShape::catalog(),
            green_shapes: PieceShape::catalog(),
        };
        assert forall|k: int| 0 <= k < COLOR_COUNT implies r.last_move_mono[k].is_none() by {
            assert(r.last_move_mono@[k].is_none());
        }
        r
    }

    /// Checks the turn queue: non-empty, holding playing colours only, with
    /// the cursor inside it.
    pub fn is_well_formed(&self) -> (r: bool)
        ensures
            r == self.wf(),
    {
        let len = self.ordered_colors.len();
        if len == 0 || len > u32::MAX as usize || self.current_color_index as usize >= len {
            return false;
        }
        let mut i: usize = 0;
        while i < len
            invariant
                len == self.ordered_colors@.len(),
                i <= len,
                forall|k: int| 0 <= k < i ==> #[trigger] self.ordered_colors@[k] != Color::Empty,
            decreases len - i,
        {
            if self.ordered_colors[i] == Color::Empty {
                return false;
            }
            i = i + 1;
        }
        inventory_is_ok(&self.blue_shapes) && inventory_is_ok(&self.yellow_shapes) && inventory_is_ok(
            &self.red_shapes,
        ) && inventory_is_ok(&self.green_shapes)
    }

    /// The colour to move.
    pub fn current_color(&self) -> (r: Color)
        requires
            self.wf(),
        ensures
            r == self.color_to_move(),
            r != Color::Empty,
    {
        self.ordered_colors[self.current_color_index as usize]
    }

    /// The team to move.
    pub fn current_team(&self) -> (r: Team)
        requires
            self.wf(),
        ensures
            r == team_of(self.color_to_move()),
    {
        self.current_color().team()
    }

    /// The player to move.
    pub fn current_player(&self) -> (r: &Player)
        requires
            self.wf(),
        ensures
            team_of(self.color_to_move()) == Team::One ==> *r == self.first,
            team_of(self.color_to_move()) == Team::Two ==> *r == self.second,
    {
        match self.current_team() {
            Team::One => &self.first,
            _ => &self.second,
        }
    }

    /// The undeployed shapes of a playing colour.
    pub fn undeployed_shapes_of_color(&self, color: Color) -> (r: &Vec<PieceShape>)
        requires
            color != Color::Empty,
        ensures
            r@ == self.shapes_of(color),
    {
        match color {
            Color::Red => &self.red_shapes,
            Color::Yellow => &self.yellow_shapes,
            Color::Green => &self.green_shapes,
            _ => &self.blue_shapes,
        }
    }

    /// The undeployed shapes of a playing colour, to change in place.
    pub fn undeployed_shapes_of_color_mut(&mut self, color: Color) -> (r: &mut Vec<PieceShape>)
        requires
            color != Color::Empty,
        ensures
            r@ == old(self).shapes_of(color),
            final(r)@ == final(self).shapes_of(color),
            forall|c: Color| c != color ==> #[trigger] final(self).shapes_of(c) == old(self).shapes_of(c),
            old(self).keeps_setup(*final(self)),
            final(self).board == old(self).board,
            final(self).last_move_mono == old(self).last_move_mono,
            final(self).turn == old(self).turn,
            final(self).round == old(self).round,
            final(self).current_color_index == old(self).current_color_index,
    {
        match color {
            Color::Red => &mut self.red_shapes,
            Color::Yellow => &mut self.yellow_shapes,
            Color::Green => &mut self.green_shapes,
            _ => &mut self.blue_shapes,
        }
    }

    /// The score of a colour from the shapes it has left: the whole catalog's
    /// 89 cells plus 15, plus 5 more if the monomino came last, when nothing is
    /// left; else 89 minus the cells of what is left.
    pub fn get_points_from_undeployed(undeployed: &Vec<PieceShape>, mono_last: bool) -> (r: i32)
        requires
            undeployed@.len() <= SHAPE_COUNT,
        ensures
            r == points_spec(undeployed@, mono_last),
    {
        if undeployed.len() == 0 {
            SUM_MAX_SQUARES + 15 + if mono_last {
                5
            } else {
                0
            }
        } else {
            let mut placed: i32 = 0;
            let mut i: usize = 0;
            while i < undeployed.len()
                invariant
                    i <= undeployed@.len() <= SHAPE_COUNT,
                    placed == total_size(undeployed@.take(i as int)),
                    0 <= placed <= 25 * i,
                decreases undeployed@.len() - i,
            {
                assert(undeployed@.take(i as int + 1).drop_last() =~= undeployed@.take(i as int));
                placed = placed + undeployed[i].size() as i32;
                i = i + 1;
            }
            assert(undeployed@.take(undeployed@.len() as int) =~= undeployed@);
            SUM_MAX_SQUARES - placed
        }
    }

    /// Whether the colour to move has not placed anything yet.
    pub fn is_first_move(&self) -> (r: bool)
        requires
            self.wf(),
        ensures
            r == self.first_of(self.color_to_move()),
            r == forall|i: int| 0 <= i < SHAPE_COUNT ==> #[trigger] has_name(self.shapes_of(self.color_to_move()), i),
    {
        proof {
            crate::laws::law_first_move_full_inventory(*self, self.color_to_move());
        }
        self.undeployed_shapes_of_color(self.current_color()).len() == SHAPE_COUNT
    }

    /// Whether the given playing colour has not placed anything yet.
    fn is_first_move_of(&self, color: Color) -> (r: bool)
        requires
            color != Color::Empty,
        ensures
            r == self.first_of(color),
    {
        self.undeployed_shapes_of_color(color).len() == SHAPE_COUNT
    }

    /// Checks that the colour may place the shape.
    fn validate_shape(&self, shape: &PieceShape, color: Color) -> (r: Result<(), GameError>)
        requires
            color != Color::Empty,
        ensures
            r.is_ok() == self.shape_ok(*shape, color),
            !r.is_ok() ==> r == Err::<(), GameError>(
                if self.first_of(color) {
                    GameError::NotStartShape
                } else {
                    GameError::PieceAlreadyPlaced
                },
            ),
    {
        if self.is_first_move_of(color) {
            if shape.index() != self.start_piece.index() {
                return Err(GameError::NotStartShape);
            }
        } else {
            let shapes = self.undeployed_shapes_of_color(color);
            let mut i: usize = 0;
            while i < shapes.len()
                invariant
                    i <= shapes@.len(),
                    shapes@ == self.shapes_of(color),
                    !self.first_of(color),
                    forall|k: int| 0 <= k < i ==> (#[trigger] shapes@[k]).id() != shape.id(),
                decreases shapes@.len() - i,
            {
                if shapes[i].index() == shape.index() {
                    assert(self.shapes_of(color)[i as int].id() == shape.id());
                    return Ok(());
                }
                i = i + 1;
            }
            return Err(GameError::PieceAlreadyPlaced);
        }
        Ok(())
    }

    /// What validating the piece returns: `Ok` exactly for a valid piece,
    /// else the error of the first rule it breaks.
    pub open spec fn validation_result(self, piece: Piece, r: Result<(), GameError>) -> bool {
        &&& (r.is_ok() == self.valid_piece(piece))
        &&& ((r == Err::<(), GameError>(GameError::NotStartShape)) == (self.first_of(piece.color) && piece.kind.id() != self.start_piece.id()))
        &&& ((r == Err::<(), GameError>(GameError::PieceAlreadyPlaced)) == (!self.first_of(piece.color) && !self.shape_ok(piece.kind, piece.color)))
        &&& (self.shape_ok(piece.kind, piece.color) && !self.cells_ok(piece) ==> match r {
            Err(GameError::OutOfBounds(_)) => true,
            Err(GameError::Obstructed(_)) => true,
            Err(GameError::EdgeNeighborSameColor(_)) => true,
            _ => false,
        })
        &&& (forall|v: Vec2| r == Err::<(), GameError>(GameError::OutOfBounds(v)) ==> piece.cells().contains(pt(v)) && !in_bounds(pt(v)))
        &&& (forall|v: Vec2| r == Err::<(), GameError>(GameError::Obstructed(v)) ==> piece.cells().contains(pt(v)) && in_bounds(pt(v)) && self.board.color_at(pt(v)) != Color::Empty)
        &&& (forall|v: Vec2| r == Err::<(), GameError>(GameError::EdgeNeighborSameColor(v)) ==> piece.cells().contains(pt(v)) && in_bounds(pt(v)) && self.board.color_at(pt(v)) == Color::Empty && self.board.borders(pt(v), piece.color))
        &&& ((r == Err::<(), GameError>(GameError::MissingCornerAnchor)) == (self.shape_ok(piece.kind, piece.color) && self.cells_ok(piece) && self.first_of(piece.color) && !self.anchored(piece)))
        &&& ((r == Err::<(), GameError>(GameError::MissingDiagonalTouch)) == (self.shape_ok(piece.kind, piece.color) && self.cells_ok(piece) && !self.first_of(piece.color) && !self.anchored(piece)))
    }

    /// Checks whether the piece may be placed: its shape is available, every
    /// cell is on the board, free and without an edge neighbour of its colour,
    /// and it covers a corner (first move) or touches its colour diagonally.
    pub fn validate_set_move(&self, piece: &Piece) -> (r: Result<(), GameError>)
        requires
            piece.fits(),
            piece.color != Color::Empty,
        ensures
            self.validation_result(*piece, r),
    {
        let shape_check = self.validate_shape(&piece.kind, piece.color);
        match shape_check {
            Err(e) => {
                return Err(e);
            },
            Ok(()) => {},
        }
        assert(self.shape_ok(piece.kind, piece.color));
        let cells = piece.coordinates();
        let mut i: usize = 0;
        while i < cells.len()
            invariant
                i <= cells@.len(),
                crate::coordinate_set::pts(cells@) == piece.cells(),
                self.shape_ok(piece.kind, piece.color),
                forall|k: int| 0 <= k < i ==> self.cell_ok(#[trigger] pt(cells@[k]), piece.color),
            decreases cells@.len() - i,
        {
            let c = cells[i];
            assert(crate::coordinate_set::pts(cells@).contains(pt(c)));
            if !Board::is_in_bounds(c) {
                return Err(GameError::OutOfBounds(c));
            }
            if self.board.is_obstructed(c) {
                return Err(GameError::Obstructed(c));
            }
            if self.board.borders_on_color(c, piece.color) {
                return Err(GameError::EdgeNeighborSameColor(c));
            }
            i = i + 1;
        }
        assert(self.cells_ok(*piece)) by {
            assert forall|p: (int, int)| piece.cells().contains(p) implies self.cell_ok(p, piece.color) by {
                assert(crate::coordinate_set::pts(cells@).contains(p));
                let k = choose|k: int| 0 <= k < cells@.len() && pt(cells@[k]) == p;
                assert(self.cell_ok(pt(cells@[k]), piece.color));
            }
        }
        let first = self.is_first_move_of(piece.color);
        let mut j: usize = 0;
        while j < cells.len()
            invariant
                j <= cells@.len(),
                crate::coordinate_set::pts(cells@) == piece.cells(),
                self.shape_ok(piece.kind, piece.color),
                self.cells_ok(*piece),
                first == self.first_of(piece.color),
                forall|k: int| 0 <= k < j ==> !(if first {
                    is_corner(#[trigger] pt(cells@[k]))
                } else {
                    self.board.touches(pt(cells@[k]), piece.color)
                }),
            decreases cells@.len() - j,
        {
            let c = cells[j];
            assert(crate::coordinate_set::pts(cells@).contains(pt(c)));
            assert(self.cell_ok(pt(c), piece.color));
            let hit = if first {
                Board::is_on_corner(c)
            } else {
                self.board.corners_on_color(c, piece.color)
            };
            if hit {
                assert(self.anchored(*piece));
                return Ok(());
            }
            j = j + 1;
        }
        assert(!self.anchored(*piece)) by {
            if self.anchored(*piece) {
                let p = if first {
                    choose|p: (int, int)| piece.cells().contains(p) && is_corner(p)
                } else {
                    choose|p: (int, int)| piece.cells().contains(p) && self.board.touches(p, piece.color)
                };
                assert(crate::coordinate_set::pts(cells@).contains(p));
                let k = choose|k: int| 0 <= k < cells@.len() && pt(cells@[k]) == p;
                assert(!(if first {
                    is_corner(pt(cells@[k]))
                } else {
                    self.board.touches(pt(cells@[k]), piece.color)
                }));
            }
        }
        if first {
            Err(GameError::MissingCornerAnchor)
        } else {
            Err(GameError::MissingDiagonalTouch)
        }
    }

    /// Moves the cursor on by `turns`: the colour index modulo the queue
    /// length, the round by `turns` divided by that length, the turn by
    /// `turns`. Fails when the queue is empty.
    pub fn try_advance(&mut self, turns: u32) -> (r: Result<(), GameError>)
        requires
            old(self).ordered_colors@.len() <= u32::MAX,
            old(self).ordered_colors@.len() > 0 ==> old(self).turn + turns <= u32::MAX,
            old(self).ordered_colors@.len() > 0 ==> old(self).round + turns as int / old(self).ordered_colors@.len() as int
                <= u32::MAX,
        ensures
            old(self).ordered_colors@.len() == 0 ==> r == Err::<(), GameError>(GameError::GameOver)
                && final(self).same_as(*old(self)),
            old(self).ordered_colors@.len() > 0 ==> r == Ok::<(), GameError>(()) && old(self).advanced(
                *final(self),
                turns as int,
            ) && old(self).keeps_setup(*final(self)) && old(self).keeps_material(*final(self)),
    {
        let len = self.ordered_colors.len();
        if len == 0 {
            return Err(GameError::GameOver);
        }
        let len32 = len as u32;
        let next = ((self.current_color_index as u64 + turns as u64) % (len32 as u64)) as u32;
        self.current_color_index = next;
        self.round = self.round + turns / len32;
        self.turn = self.turn + turns;
        Ok(())
    }

    /// `next` is this state with the cursor moved on by `k`.
    pub open spec fn advanced(self, next: GameState, k: int) -> bool {
        let len = self.ordered_colors@.len() as int;
        &&& next.turn == self.turn + k
        &&& next.current_color_index == (self.current_color_index + k) % len
        &&& next.round == self.round + k / len
    }

    /// `next` has the same players, start values and turn queue.
    pub open spec fn keeps_setup(self, next: GameState) -> bool {
        &&& next.first == self.first
        &&& next.second == self.second
        &&& next.start_piece == self.start_piece
        &&& next.start_color == self.start_color
        &&& next.start_team == self.start_team
        &&& next.ordered_colors@ == self.ordered_colors@
    }

    /// `next` has the same board, inventories and final-piece records.
    pub open spec fn keeps_material(self, next: GameState) -> bool {
        &&& next.board == self.board
        &&& next.last_move_mono == self.last_move_mono
        &&& next.blue_shapes@ == self.blue_shapes@
        &&& next.yellow_shapes@ == self.yellow_shapes@
        &&& next.red_shapes@ == self.red_shapes@
        &&& next.green_shapes@ == self.green_shapes@
    }

    /// `next` holds the piece on the board, has its shape (by name) out of the
    /// colour's inventory, and records whether it was the monomino where the
    /// inventory is now empty.
    pub open spec fn places(self, next: GameState, piece: Piece) -> bool {
        &&& forall|p: (int, int)|
            #[trigger] next.board.color_at(p) == if piece.cells().contains(p) {
                piece.color
            } else {
                self.board.color_at(p)
            }
        &&& forall|c: Color|
            #[trigger] next.shapes_of(c) == if c == piece.color {
                without(self.shapes_of(c), piece.kind.id())
            } else {
                self.shapes_of(c)
            }
        &&& forall|k: int|
            0 <= k < COLOR_COUNT ==> #[trigger] next.last_move_mono[k] == if k == color_slot(piece.color)
                && without(self.shapes_of(piece.color), piece.kind.id()).len() == 0 {
                Some(piece.kind.id() == MONO_INDEX)
            } else {
                self.last_move_mono[k]
            }
    }

    /// `next` is the state after the move.
    pub open spec fn successor(self, next: GameState, m: Move) -> bool {
        &&& self.keeps_setup(next)
        &&& self.advanced(next, 1)
        &&& match m {
            Move::Skip { .. } => self.keeps_material(next),
            Move::Place { piece } => self.places(next, piece),
        }
    }

    /// Slot of a playing colour in `last_move_mono`.
    fn slot_of(color: Color) -> (r: usize)
        ensures
            r == color_slot(color),
            r < COLOR_COUNT,
    {
        match color {
            Color::Yellow => 1,
            Color::Red => 2,
            Color::Green => 3,
            _ => 0,
        }
    }

    /// The shapes of `v` whose name is not `id`.
    fn without_shape(v: &Vec<PieceShape>, id: usize) -> (r: Vec<PieceShape>)
        ensures
            r@ == without(v@, id as int),
    {
        let mut r: Vec<PieceShape> = Vec::new();
        let mut i: usize = 0;
        while i < v.len()
            invariant
                i <= v@.len(),
                r@ == without(v@.take(i as int), id as int),
            decreases v@.len() - i,
        {
            assert(v@.take(i as int + 1).drop_last() =~= v@.take(i as int));
            if v[i].index() != id {
                r.push(v[i]);
            }
            i = i + 1;
        }
        assert(v@.take(v@.len() as int) =~= v@);
        r
    }

    /// Takes the shape (by name) out of the colour's inventory and, where the
    /// inventory is then empty, records whether it was the monomino.
    fn remove_shape(&mut self, piece: &Piece)
        requires
            piece.color != Color::Empty,
        ensures
            final(self).board == old(self).board,
            old(self).keeps_setup(*final(self)),
            final(self).turn == old(self).turn,
            final(self).round == old(self).round,
            final(self).current_color_index == old(self).current_color_index,
            forall|c: Color|
                #[trigger] final(self).shapes_of(c) == if c == piece.color {
                    without(old(self).shapes_of(c), piece.kind.id())
                } else {
                    old(self).shapes_of(c)
                },
            forall|k: int|
                0 <= k < COLOR_COUNT ==> #[trigger] final(self).last_move_mono[k] == if k == color_slot(piece.color)
                    && without(old(self).shapes_of(piece.color), piece.kind.id()).len() == 0 {
                    Some(piece.kind.id() == MONO_INDEX)
                } else {
                    old(self).last_move_mono[k]
                },
    {
        let id = piece.kind.index();
        let rest = Self::without_shape(self.undeployed_shapes_of_color(piece.color), id);
        let empty = rest.len() == 0;
        match piece.color {
            Color::Red => {
                self.red_shapes = rest;
            },
            Color::Yellow => {
                self.yellow_shapes = rest;
            },
            Color::Green => {
                self.green_shapes = rest;
            },
            _ => {
                self.blue_shapes = rest;
            },
        }
        if empty {
            let slot = Self::slot_of(piece.color);
            self.last_move_mono.set(slot, Some(id == MONO_INDEX));
        }
    }

    /// Performs the move: checks its colour, then either skips (never as a
    /// colour's first move) or validates and places the piece, takes its shape
    /// out of the inventory, and moves the cursor on by one. A refused move
    /// leaves the state as it was.
    pub fn perform_move(&mut self, game_move: Move) -> (r: Result<(), GameError>)
        requires
            old(self).wf(),
            old(self).turn < u32::MAX,
            old(self).round < u32::MAX,
            match game_move {
                Move::Place { piece } => piece.fits(),
                Move::Skip { .. } => true,
            },
        ensures
            final(self).wf(),
            r.is_ok() == old(self).valid_move(game_move),
            r.is_ok() ==> old(self).successor(*final(self), game_move),
            !r.is_ok() ==> final(self).same_as(*old(self)),
            move_color(game_move) != old(self).color_to_move() ==> r == Err::<(), GameError>(
                GameError::MoveColorMismatch {
                    expected: old(self).color_to_move(),
                    found: move_color(game_move),
                },
            ),
            move_color(game_move) == old(self).color_to_move() && game_move is Skip && old(self).first_of(
                old(self).color_to_move(),
            ) ==> r == Err::<(), GameError>(GameError::SkipInFirstMove),
            move_color(game_move) == old(self).color_to_move() && game_move is Place ==> old(self).validation_result(
                game_move->Place_piece,
                r,
            ),
    {
        let expected = self.current_color();
        let found = game_move.color();
        if found != expected {
            return Err(GameError::MoveColorMismatch { expected, found });
        }
        match game_move {
            Move::Place { piece } => self.perform_set_move(&piece),
            Move::Skip { .. } => self.perform_skip_move(),
        }
    }

    /// Places a piece of the colour to move.
    fn perform_set_move(&mut self, piece: &Piece) -> (r: Result<(), GameError>)
        requires
            old(self).wf(),
            old(self).turn < u32::MAX,
            old(self).round < u32::MAX,
            piece.fits(),
            piece.color == old(self).color_to_move(),
        ensures
            final(self).wf(),
            r.is_ok() == old(self).valid_piece(*piece),
            old(self).validation_result(*piece, r),
            r.is_ok() ==> old(self).successor(*final(self), Move::Place { piece: *piece }),
            !r.is_ok() ==> final(self).same_as(*old(self)),
    {
        let checked = self.validate_set_move(piece);
        match checked {
            Err(e) => {
                return Err(e);
            },
            Ok(()) => {},
        }
        let ghost before = *self;
        self.board.place(piece);
        self.remove_shape(piece);
        let ghost middle = *self;
        let advanced = self.try_advance(1);
        assert(before.places(*self, *piece)) by {
            assert forall|c: Color| #[trigger] self.shapes_of(c) == middle.shapes_of(c) by {
            }
        }
        proof {
            lemma_without_ok(before.shapes_of(piece.color), piece.kind.id());
            assert(self.shapes_of(Color::Blue) == self.blue_shapes@);
            assert(self.shapes_of(Color::Yellow) == self.yellow_shapes@);
            assert(self.shapes_of(Color::Red) == self.red_shapes@);
            assert(self.shapes_of(Color::Green) == self.green_shapes@);
            assert(before.shapes_of(Color::Blue) == before.blue_shapes@);
            assert(before.shapes_of(Color::Yellow) == before.yellow_shapes@);
            assert(before.shapes_of(Color::Red) == before.red_shapes@);
            assert(before.shapes_of(Color::Green) == before.green_shapes@);
        }
        Ok(())
    }

    /// Skips the turn of the colour to move.
    fn perform_skip_move(&mut self) -> (r: Result<(), GameError>)
        requires
            old(self).wf(),
            old(self).turn < u32::MAX,
            old(self).round < u32::MAX,
        ensures
            final(self).wf(),
            r.is_ok() == !old(self).first_of(old(self).color_to_move()),
            r.is_ok() ==> old(self).successor(*final(self), Move::Skip { color: old(self).color_to_move() }),
            !r.is_ok() ==> r == Err::<(), GameError>(GameError::SkipInFirstMove) && final(self).same_as(*old(self)),
    {
        if self.is_first_move() {
            return Err(GameError::SkipInFirstMove);
        }
        let advanced = self.try_advance(1);
        Ok(())
    }

    /// A copy of the state.
    pub fn duplicate(&self) -> (r: GameState)
        ensures
            r.same_as(*self),
    {
        GameState {
            turn: self.turn,
            round: self.round,
            first: self.first.duplicate(),
            second: self.second.duplicate(),
            board: self.board,
            start_piece: self.start_piece,
            start_color: self.start_color,
            start_team: self.start_team,
            ordered_colors: copy_vec(&self.ordered_colors),
            last_move_mono: self.last_move_mono,
            current_color_index: self.current_color_index,
            blue_shapes: copy_vec(&self.blue_shapes),
            yellow_shapes: copy_vec(&self.yellow_shapes),
            red_shapes: copy_vec(&self.red_shapes),
            green_shapes: copy_vec(&self.green_shapes),
        }
    }

    /// The state after the move, leaving this one as it is.
    pub fn after_move(&self, game_move: Move) -> (r: Result<GameState, GameError>)
        requires
            self.wf(),
            self.turn < u32::MAX,
            self.round < u32::MAX,
            match game_move {
                Move::Place { piece } => piece.fits(),
                Move::Skip { .. } => true,
            },
        ensures
            r.is_ok() == self.valid_move(game_move),
            match r {
                Ok(s) => s.wf() && self.successor(s, game_move),
                Err(e) => {
                    &&& move_color(game_move) != self.color_to_move() ==> e == GameError::MoveColorMismatch {
                        expected: self.color_to_move(),
                        found: move_color(game_move),
                    }
                    &&& move_color(game_move) == self.color_to_move() && game_move is Skip ==> e
                        == GameError::SkipInFirstMove
                    &&& move_color(game_move) == self.color_to_move() && game_move is Place ==> self.validation_result(
                        game_move->Place_piece,
                        Err(e),
                    )
                },
            },
    {
        let mut s = self.duplicate();
        let ghost copy = s;
        proof {
            lemma_same_state(copy, *self, game_move);
        }
        let done = s.perform_move(game_move);
        proof {
            if let Move::Place { piece } = game_move {
                if piece.color == copy.color_to_move() {
                    lemma_same_validation(copy, *self, piece, done);
                }
            }
        }
        match done {
            Ok(()) => {
                proof {
                    lemma_same_successor(copy, *self, s, game_move);
                }
                Ok(s)
            },
            Err(e) => Err(e),
        }
    }

    /// The valid placements of one turned shape at every anchor from the origin
    /// to `to`, in row-major order of the anchors.
    fn moves_for_variant(&self, kind: PieceShape, rotation: Rotation, flip: bool, to: Vec2) -> (r: Vec<Move>)
        requires
            self.wf(),
            0 <= to.x < 20,
            0 <= to.y < 20,
        ensures
            r@ == self.placements(anchor_candidates(kind, rotation, flip, self.color_to_move(), to)),
            forall|k: int| 0 <= k < r@.len() ==> self.valid_move(#[trigger] r@[k]),
            forall|position: Vec2|
                in_anchor_range(position, to) && self.valid_piece(
                    piece_at(kind, rotation, flip, self.color_to_move(), position),
                ) ==> r@.contains(
                    Move::Place { piece: piece_at(kind, rotation, flip, self.color_to_move(), position) },
                ),
    {
        let color = self.current_color();
        let anchors = to.points_within();
        let w: i32 = to.x + 1;
        let mut r: Vec<Move> = Vec::new();
        let mut i: usize = 0;
        while i < anchors.len()
            invariant
                self.wf(),
                color == self.color_to_move(),
                color != Color::Empty,
                0 <= to.x < 20,
                0 <= to.y < 20,
                w == to.x + 1,
                i <= anchors@.len(),
                anchors@.len() == (to.x + 1) * (to.y + 1),
                forall|k: int|
                    0 <= k < anchors@.len() ==> (#[trigger] anchors@[k]).x == k % (w as int) && anchors@[k].y == k
                        / (w as int),
                r@ == self.placements(anchor_candidates(kind, rotation, flip, color, to).take(i as int)),
                forall|k: int| 0 <= k < r@.len() ==> self.valid_move(#[trigger] r@[k]),
                forall|k: int|
                    0 <= k < i && self.valid_piece(piece_at(kind, rotation, flip, color, #[trigger] anchors@[k]))
                        ==> r@.contains(Move::Place { piece: piece_at(kind, rotation, flip, color, anchors@[k]) }),
            decreases anchors@.len() - i,
        {
            let position = anchors[i];
            assert(0 <= position.x <= to.x && 0 <= position.y <= to.y) by {
                let (ii, ww) = (i as int, w as int);
                assert(0 <= ii % ww < ww) by (nonlinear_arith) requires ww > 0;
                assert(0 <= ii / ww <= to.y) by (nonlinear_arith)
                    requires ww > 0, 0 <= ii < ww * (to.y + 1);
            }
            let piece = Piece { kind, rotation, is_flipped: flip, color, position };
            proof {
                let cands = anchor_candidates(kind, rotation, flip, color, to);
                assert(cands.take(i as int + 1).drop_last() =~= cands.take(i as int));
                assert(position == anchor_vec((i as int % (w as int), i as int / (w as int))));
                assert(cands.take(i as int + 1).last() == piece);
            }
            let ghost old_r = r@;
            if self.validate_set_move(&piece).is_ok() {
                r.push(Move::Place { piece });
                assert(r@[old_r.len() as int] == Move::Place { piece });
                assert forall|k: int| 0 <= k < old_r.len() implies r@[k] == old_r[k] by {}
            }
            assert forall|k: int|
                0 <= k < i + 1 && self.valid_piece(piece_at(kind, rotation, flip, color, #[trigger] anchors@[k]))
                    implies r@.contains(Move::Place { piece: piece_at(kind, rotation, flip, color, anchors@[k]) }) by {
                if k < i {
                    let j = choose|j: int| 0 <= j < old_r.len() && old_r[j] == Move::Place { piece: piece_at(kind, rotation, flip, color, anchors@[k]) };
                    assert(r@[j] == old_r[j]);
                } else {
                    assert(r@[old_r.len() as int] == Move::Place { piece });
                }
            }
            i = i + 1;
        }
        assert(anchor_candidates(kind, rotation, flip, color, to).take(anchors@.len() as int) =~= anchor_candidates(
            kind,
            rotation,
            flip,
            color,
            to,
        ));
        assert forall|position: Vec2|
            in_anchor_range(position, to) && self.valid_piece(piece_at(kind, rotation, flip, color, position))
                implies r@.contains(Move::Place { piece: piece_at(kind, rotation, flip, color, position) }) by {
            assert(anchor_candidates(kind, rotation, flip, color, to).take(anchors@.len() as int) =~= anchor_candidates(
                kind,
                rotation,
                flip,
                color,
                to,
            ));
            let ww = w as int;
            let k = position.y * ww + position.x;
            assert(k % ww == position.x && k / ww == position.y) by (nonlinear_arith)
                requires k == position.y * ww + position.x, 0 <= position.x < ww, 0 <= position.y;
            assert(0 <= k < anchors@.len()) by (nonlinear_arith)
                requires k == position.y * ww + position.x, 0 <= position.x < ww, 0 <= position.y <= to.y,
                    anchors@.len() == ww * (to.y + 1);
            assert(anchors@[k] == position);
        }
        r
    }

    /// The moves that place the candidates that may be placed, in candidate
    /// order.
    pub open spec fn placements(self, cands: Seq<Piece>) -> Seq<Move>
        decreases cands.len(),
    {
        if cands.len() == 0 {
            Seq::empty()
        } else if self.valid_move(Move::Place { piece: cands.last() }) {
            self.placements(cands.drop_last()).push(Move::Place { piece: cands.last() })
        } else {
            self.placements(cands.drop_last())
        }
    }

    /// The first-move candidates: the start shape under each rotation/flip
    /// pair of the generation order, snapped into each corner in turn.
    pub open spec fn first_candidates(self) -> Seq<Piece> {
        Seq::new(
            32,
            |i: int|
                {
                    let (rotation, flip) = transformation_order()[i / 4];
                    piece_at(
                        self.start_piece,
                        rotation,
                        flip,
                        self.color_to_move(),
                        anchor_vec(
                            aligned_anchor(
                                bbox(transformed(self.start_piece@, rotation, flip)),
                                crate::corner::corner_order()[i % 4],
                            ),
                        ),
                    )
                },
        )
    }

    /// The piece is one that the generator tries on a later move: a shape of
    /// the inventory of the colour to move, at an anchor of the placable
    /// rectangle of its transformed shape.
    pub open spec fn usual_candidate(self, piece: Piece) -> bool {
        &&& piece.color == self.color_to_move()
        &&& exists|i: int|
            0 <= i < self.shapes_of(piece.color).len() && #[trigger] self.shapes_of(piece.color)[i]
                == piece.kind
        &&& placable(piece.position, piece.shape_cells())
    }

    /// The piece is one that the generator tries on a first move: the start
    /// shape, turned in any way, snapped into a corner of the board.
    pub open spec fn first_candidate(self, piece: Piece) -> bool {
        &&& piece.color == self.color_to_move()
        &&& piece.kind == self.start_piece
        &&& exists|c: Corner| pt(piece.position) == #[trigger] aligned_anchor(bbox(piece.shape_cells()), c)
    }

    /// The valid placements of the colour to move other than first moves: for
    /// each undeployed shape, each rotation and flip, each anchor of the
    /// placable rectangle.
    fn possible_usual_set_moves(&self) -> (r: Vec<Move>)
        requires
            self.wf(),
        ensures
            r@ == self.placements(inventory_candidates(self.shapes_of(self.color_to_move()), self.color_to_move())),
            forall|k: int| 0 <= k < r@.len() ==> self.valid_move(#[trigger] r@[k]),
            forall|piece: Piece|
                self.usual_candidate(piece) && self.valid_piece(piece) ==> r@.contains(
                    Move::Place { piece },
                ),
    {
        let color = self.current_color();
        let shapes = self.undeployed_shapes_of_color(color);
        let mut r: Vec<Move> = Vec::new();
        let mut i: usize = 0;
        while i < shapes.len()
            invariant
                self.wf(),
                color == self.color_to_move(),
                shapes@ == self.shapes_of(color),
                i <= shapes@.len(),
                r@ == self.placements(inventory_candidates(shapes@.take(i as int), color)),
                forall|k: int| 0 <= k < r@.len() ==> self.valid_move(#[trigger] r@[k]),
                forall|piece: Piece|
                    self.usual_candidate(piece) && self.valid_piece(piece) && (exists|j: int|
                        0 <= j < i && #[trigger] shapes@[j] == piece.kind) ==> r@.contains(Move::Place { piece }),
            decreases shapes@.len() - i,
        {
            let kind = shapes[i];
            let ts = kind.transformations();
            let mut t: usize = 0;
            while t < ts.len()
                invariant
                    self.wf(),
                    color == self.color_to_move(),
                    shapes@ == self.shapes_of(color),
                    i < shapes@.len(),
                    kind == shapes@[i as int],
                    ts@ == transformation_order(),
                    t <= ts@.len(),
                    r@ == self.placements(inventory_candidates(shapes@.take(i as int), color)) + self.placements(
                        shape_candidates(kind, color, t as int),
                    ),
                    forall|k: int| 0 <= k < r@.len() ==> self.valid_move(#[trigger] r@[k]),
                    forall|piece: Piece|
                        self.usual_candidate(piece) && self.valid_piece(piece) && (exists|j: int|
                            0 <= j < i && #[trigger] shapes@[j] == piece.kind) ==> r@.contains(Move::Place { piece }),
                    forall|piece: Piece|
                        self.usual_candidate(piece) && self.valid_piece(piece) && piece.kind == kind && (exists|u: int|
                            0 <= u < t && #[trigger] ts@[u] == (piece.rotation, piece.is_flipped)) ==> r@.contains(
                            Move::Place { piece },
                        ),
                decreases ts@.len() - t,
            {
                let (rotation, flip) = ts[t];
                let bb = kind.transform(rotation, flip).bounding_box();
                let to = Vec2::new(19 - bb.x, 19 - bb.y);
                let part = self.moves_for_variant(kind, rotation, flip, to);
                let ghost old_r = r@;
                append_moves(&mut r, part);
                proof {
                    let base = self.placements(inventory_candidates(shapes@.take(i as int), color));
                    let sc = shape_candidates(kind, color, t as int);
                    let ac = anchor_candidates(kind, rotation, flip, color, to);
                    assert(shape_candidates(kind, color, t as int + 1) == sc + ac);
                    lemma_placements_concat(*self, sc, ac);
                    assert(r@ =~= base + self.placements(sc + ac));
                }
                proof {
                    assert forall|piece: Piece|
                        self.usual_candidate(piece) && self.valid_piece(piece) && ((exists|j: int|
                            0 <= j < i && #[trigger] shapes@[j] == piece.kind) || (piece.kind == kind && exists|u: int|
                            0 <= u < t + 1 && #[trigger] ts@[u] == (piece.rotation, piece.is_flipped))) implies r@.contains(
                            Move::Place { piece },
                        ) by {
                        let m = Move::Place { piece };
                        if (exists|j: int| 0 <= j < i && #[trigger] shapes@[j] == piece.kind) || (piece.kind == kind
                            && exists|u: int| 0 <= u < t && #[trigger] ts@[u] == (piece.rotation, piece.is_flipped)) {
                            lemma_contains_concat(old_r, part@, m);
                        } else {
                            assert(piece.rotation == rotation && piece.is_flipped == flip);
                            assert(piece == piece_at(kind, rotation, flip, color, piece.position));
                            assert(in_anchor_range(piece.position, to));
                            lemma_contains_concat(old_r, part@, m);
                        }
                    }
                }
                t = t + 1;
            }
            proof {
                let before = shapes@.take(i as int);
                let after = shapes@.take(i as int + 1);
                assert(after.drop_last() =~= before);
                assert(after.last() == kind);
                lemma_placements_concat(*self, inventory_candidates(before, color), shape_candidates(kind, color, 8));
                assert(inventory_candidates(after, color) == inventory_candidates(before, color) + shape_candidates(
                    kind,
                    color,
                    8,
                ));
                assert forall|piece: Piece|
                    self.usual_candidate(piece) && self.valid_piece(piece) && (exists|j: int|
                        0 <= j < i + 1 && #[trigger] shapes@[j] == piece.kind) implies r@.contains(Move::Place { piece }) by {
                    if !(exists|j: int| 0 <= j < i && #[trigger] shapes@[j] == piece.kind) {
                        assert(piece.kind == kind);
                        lemma_every_transformation(piece.rotation, piece.is_flipped);
                        let u = choose|u: int| 0 <= u < 8 && #[trigger] transformation_order()[u] == (piece.rotation, piece.is_flipped);
                        assert(ts@[u] == (piece.rotation, piece.is_flipped));
                    }
                }
            }
            i = i + 1;
        }
        proof {
            assert(shapes@.take(shapes@.len() as int) =~= shapes@);
            assert forall|piece: Piece| self.usual_candidate(piece) && self.valid_piece(piece) implies r@.contains(
                Move::Place { piece },
            ) by {
                let j = choose|j: int|
                    0 <= j < self.shapes_of(piece.color).len() && #[trigger] self.shapes_of(piece.color)[j] == piece.kind;
                assert(shapes@[j] == piece.kind);
            }
        }
        r
    }

    /// The valid first moves of the colour to move: the start shape in each
    /// rotation and flip, snapped into each corner (top left, top right,
    /// bottom left, bottom right).
    pub fn possible_first_moves(&self) -> (r: Vec<Move>)
        requires
            self.wf(),
        ensures
            r@ == self.placements(self.first_candidates()),
            forall|k: int| 0 <= k < r@.len() ==> self.valid_move(#[trigger] r@[k]),
            forall|piece: Piece|
                self.first_candidate(piece) && self.valid_piece(piece) ==> r@.contains(Move::Place { piece }),
    {
        let color = self.current_color();
        let kind = self.start_piece;
        let ts = kind.transformations();
        let corners = Corner::all();
        let mut r: Vec<Move> = Vec::new();
        let mut t: usize = 0;
        while t < ts.len()
            invariant
                self.wf(),
                color == self.color_to_move(),
                kind == self.start_piece,
                ts@ == transformation_order(),
                corners@ == crate::corner::corner_order(),
                t <= ts@.len(),
                r@ == self.placements(self.first_candidates().take(4 * t as int)),
                forall|k: int| 0 <= k < r@.len() ==> self.valid_move(#[trigger] r@[k]),
                forall|piece: Piece|
                    self.first_candidate(piece) && self.valid_piece(piece) && (exists|u: int|
                        0 <= u < t && #[trigger] ts@[u] == (piece.rotation, piece.is_flipped)) ==> r@.contains(
                        Move::Place { piece },
                    ),
            decreases ts@.len() - t,
        {
            let (rotation, flip) = ts[t];
            let bb = kind.transform(rotation, flip).bounding_box();
            let mut j: usize = 0;
            while j < corners.len()
                invariant
                    self.wf(),
                    color == self.color_to_move(),
                    kind == self.start_piece,
                    ts@ == transformation_order(),
                    corners@ == crate::corner::corner_order(),
                    t < ts@.len(),
                    ts@[t as int] == (rotation, flip),
                    pt(bb) == bbox(transformed(kind@, rotation, flip)),
                    0 <= bb.x < 5 && 0 <= bb.y < 5,
                    j <= corners@.len(),
                    r@ == self.placements(self.first_candidates().take(4 * t as int + j as int)),
                    forall|k: int| 0 <= k < r@.len() ==> self.valid_move(#[trigger] r@[k]),
                    forall|piece: Piece|
                        self.first_candidate(piece) && self.valid_piece(piece) && (exists|u: int|
                            0 <= u < t && #[trigger] ts@[u] == (piece.rotation, piece.is_flipped)) ==> r@.contains(
                            Move::Place { piece },
                        ),
                    forall|piece: Piece|
                        self.first_candidate(piece) && self.valid_piece(piece) && piece.rotation == rotation
                            && piece.is_flipped == flip && (exists|q: int|
                            0 <= q < j && pt(piece.position) == aligned_anchor(pt(bb), #[trigger] corners@[q])) ==> r@.contains(
                            Move::Place { piece },
                        ),
                decreases corners@.len() - j,
            {
                let position = Board::align(bb, corners[j]);
                let piece = Piece { kind, rotation, is_flipped: flip, color, position };
                proof {
                    let n = 4 * t as int + j as int;
                    let cands = self.first_candidates();
                    assert(n / 4 == t as int && n % 4 == j as int) by (nonlinear_arith)
                        requires n == 4 * t as int + j as int, 0 <= j < 4, t >= 0;
                    assert(n < 32) by (nonlinear_arith)
                        requires n == 4 * t as int + j as int, 0 <= j < 4, t < 8;
                    assert(cands.take(n + 1).drop_last() =~= cands.take(n));
                    assert(position == anchor_vec(aligned_anchor(pt(bb), corners@[j as int])));
                    assert(cands.take(n + 1).last() == piece);
                }
                let ghost old_r = r@;
                if self.validate_set_move(&piece).is_ok() {
                    r.push(Move::Place { piece });
                }
                proof {
                    assert forall|k: int| 0 <= k < old_r.len() implies r@[k] == old_r[k] by {}
                    assert forall|p: Piece|
                        self.first_candidate(p) && self.valid_piece(p) && ((exists|u: int|
                            0 <= u < t && #[trigger] ts@[u] == (p.rotation, p.is_flipped)) || (p.rotation == rotation
                            && p.is_flipped == flip && exists|q: int|
                            0 <= q < j + 1 && pt(p.position) == aligned_anchor(pt(bb), #[trigger] corners@[q]))) implies r@.contains(
                            Move::Place { piece: p },
                        ) by {
                        let m = Move::Place { piece: p };
                        if (exists|u: int| 0 <= u < t && #[trigger] ts@[u] == (p.rotation, p.is_flipped)) || (p.rotation
                            == rotation && p.is_flipped == flip && exists|q: int|
                            0 <= q < j && pt(p.position) == aligned_anchor(pt(bb), #[trigger] corners@[q])) {
                            let w = choose|w: int| 0 <= w < old_r.len() && old_r[w] == m;
                            assert(r@[w] == m);
                        } else {
                            assert(p.position == position);
                            assert(p == piece);
                            assert(r@[old_r.len() as int] == m);
                        }
                    }
                }
                j = j + 1;
            }
            proof {
                assert forall|piece: Piece|
                    self.first_candidate(piece) && self.valid_piece(piece) && (exists|u: int|
                        0 <= u < t + 1 && #[trigger] ts@[u] == (piece.rotation, piece.is_flipped)) implies r@.contains(
                        Move::Place { piece },
                    ) by {
                    if !(exists|u: int| 0 <= u < t && #[trigger] ts@[u] == (piece.rotation, piece.is_flipped)) {
                        assert(piece.rotation == rotation && piece.is_flipped == flip);
                        let c = choose|c: Corner| pt(piece.position) == #[trigger] aligned_anchor(bbox(piece.shape_cells()), c);
                        let q: int = match c {
                            Corner::TopLeft => 0int,
                            Corner::TopRight => 1int,
                            Corner::BottomLeft => 2int,
                            Corner::BottomRight => 3int,
                        };
                        assert(corners@[q] == c);
                    }
                }
            }
            t = t + 1;
        }
        assert(self.first_candidates().take(32) =~= self.first_candidates());
        proof {
            assert forall|piece: Piece| self.first_candidate(piece) && self.valid_piece(piece) implies r@.contains(
                Move::Place { piece },
            ) by {
                lemma_every_transformation(piece.rotation, piece.is_flipped);
                let u = choose|u: int| 0 <= u < 8 && #[trigger] transformation_order()[u] == (piece.rotation, piece.is_flipped);
                assert(ts@[u] == (piece.rotation, piece.is_flipped));
            }
        }
        r
    }

    /// Every legal move of the colour to move: its first moves where it has
    /// placed nothing yet; else every valid placement of its undeployed shapes
    /// followed by a skip.
    pub fn possible_moves(&self) -> (r: Vec<Move>)
        requires
            self.wf(),
        ensures
            self.first_of(self.color_to_move()) ==> r@ == self.placements(self.first_candidates()),
            !self.first_of(self.color_to_move()) ==> r@ == self.placements(
                inventory_candidates(self.shapes_of(self.color_to_move()), self.color_to_move()),
            ).push(Move::Skip { color: self.color_to_move() }),
            forall|k: int| 0 <= k < r@.len() && (#[trigger] r@[k]) is Skip ==> k == r@.len() - 1,
            forall|k: int| 0 <= k < r@.len() ==> self.valid_move(#[trigger] r@[k]),
            self.first_of(self.color_to_move()) ==> forall|piece: Piece|
                self.first_candidate(piece) && self.valid_piece(piece) ==> r@.contains(Move::Place { piece }),
            !self.first_of(self.color_to_move()) ==> forall|piece: Piece|
                self.usual_candidate(piece) && self.valid_piece(piece) ==> r@.contains(Move::Place { piece }),
            !self.first_of(self.color_to_move()) ==> r@.contains(Move::Skip { color: self.color_to_move() }),
    {
        proof {
            lemma_placements_valid(*self, self.first_candidates());
            lemma_placements_valid(
                *self,
                inventory_candidates(self.shapes_of(self.color_to_move()), self.color_to_move()),
            );
        }
        if self.is_first_move() {
            self.possible_first_moves()
        } else {
            let mut r = self.possible_usual_set_moves();
            let ghost old_r = r@;
            if self.ordered_colors.len() > 0 {
                r.push(Move::Skip { color: self.current_color() });
            }
            proof {
                assert forall|k: int| 0 <= k < old_r.len() implies r@[k] == old_r[k] by {}
                assert(r@[old_r.len() as int] == Move::Skip { color: self.color_to_move() });
                assert forall|piece: Piece| self.usual_candidate(piece) && self.valid_piece(piece) implies r@.contains(
                    Move::Place { piece },
                ) by {
                    let w = choose|w: int| 0 <= w < old_r.len() && old_r[w] == Move::Place { piece };
                    assert(r@[w] == Move::Place { piece });
                }
            }
            r
        }
    }
}

/// Appends the moves of `part` to `r`.
fn append_moves(r: &mut Vec<Move>, part: Vec<Move>)
    ensures
        final(r)@ == old(r)@ + part@,
{
    let mut i: usize = 0;
    while i < part.len()
        invariant
            i <= part@.len(),
            r@ == old(r)@ + part@.take(i as int),
        decreases part@.len() - i,
    {
        r.push(part[i]);
        i = i + 1;
        assert(r@ =~= old(r)@ + part@.take(i as int));
    }
    assert(part@.take(part@.len() as int) =~= part@);
}

/// What one of two sequences holds, their concatenation holds.
proof fn lemma_contains_concat(a: Seq<Move>, b: Seq<Move>, m: Move)
    ensures
        a.contains(m) || b.contains(m) ==> (a + b).contains(m),
{
    if a.contains(m) {
        let j = choose|j: int| 0 <= j < a.len() && a[j] == m;
        assert((a + b)[j] == m);
    } else if b.contains(m) {
        let j = choose|j: int| 0 <= j < b.len() && b[j] == m;
        assert((a + b)[a.len() + j] == m);
    }
}

/// Every rotation and flip stands in the generation order.
proof fn lemma_every_transformation(rotation: Rotation, flip: bool)
    ensures
        exists|u: int| 0 <= u < 8 && #[trigger] transformation_order()[u] == (rotation, flip),
{
    let u: int = match rotation {
        Rotation::Identity => 0int,
        Rotation::Left => 2int,
        Rotation::Right => 4int,
        Rotation::Mirror => 6int,
    } + if flip {
        0int
    } else {
        1int
    };
    assert(transformation_order()[u] == (rotation, flip));
}

/// States that hold the same values have the same colours' inventories.
pub proof fn lemma_same_shapes(a: GameState, b: GameState)
    requires
        a.same_as(b),
    ensures
        forall|c: Color| #[trigger] a.shapes_of(c) == b.shapes_of(c),
{
    assert forall|c: Color| #[trigger] a.shapes_of(c) == b.shapes_of(c) by {
        match c {
            Color::Blue => {},
            Color::Yellow => {},
            Color::Red => {},
            Color::Green => {},
            Color::Empty => {},
        }
    }
}

/// States that hold the same values accept the same moves.
pub proof fn lemma_same_state(a: GameState, b: GameState, m: Move)
    requires
        a.same_as(b),
    ensures
        a.wf() == b.wf(),
        a.valid_move(m) == b.valid_move(m),
{
    lemma_same_shapes(a, b);
    if let Move::Place { piece } = m {
        assert(a.shape_ok(piece.kind, piece.color) == b.shape_ok(piece.kind, piece.color));
        assert(a.cells_ok(piece) == b.cells_ok(piece));
        assert(a.anchored(piece) == b.anchored(piece));
    }
}

/// States that hold the same values validate a piece alike.
proof fn lemma_same_validation(a: GameState, b: GameState, piece: Piece, r: Result<(), GameError>)
    requires
        a.same_as(b),
        a.validation_result(piece, r),
    ensures
        b.validation_result(piece, r),
{
    lemma_same_shapes(a, b);
    assert(a.shape_ok(piece.kind, piece.color) == b.shape_ok(piece.kind, piece.color));
    assert(a.cells_ok(piece) == b.cells_ok(piece));
    assert(a.anchored(piece) == b.anchored(piece));
}

/// A successor of a state is one of every state that holds the same values.
proof fn lemma_same_successor(a: GameState, b: GameState, n: GameState, m: Move)
    requires
        a.same_as(b),
        a.successor(n, m),
    ensures
        b.successor(n, m),
{
    lemma_same_shapes(a, b);
    if let Move::Place { piece } = m {
        assert(b.places(n, piece));
    }
}

/// The vector with the given integer coordinates.
pub open spec fn anchor_vec(p: (int, int)) -> Vec2 {
    Vec2 { x: p.0 as i32, y: p.1 as i32 }
}

/// The pieces of one turned shape at every anchor from the origin to `to`,
/// in row-major order.
pub open spec fn anchor_candidates(kind: PieceShape, rotation: Rotation, flip: bool, color: Color, to: Vec2) -> Seq<Piece> {
    Seq::new(
        ((to.x + 1) * (to.y + 1)) as nat,
        |k: int| piece_at(kind, rotation, flip, color, anchor_vec((k % (to.x + 1), k / (to.x + 1)))),
    )
}

/// The far corner of the placable rectangle of a turned shape with cells `t`.
pub open spec fn placable_corner(t: Set<(int, int)>) -> Vec2 {
    anchor_vec((19 - bbox(t).0, 19 - bbox(t).1))
}

/// The later-move candidates of one shape under the first `n` rotation/flip
/// pairs of the generation order.
pub open spec fn shape_candidates(kind: PieceShape, color: Color, n: int) -> Seq<Piece>
    decreases n,
{
    if n <= 0 {
        Seq::empty()
    } else {
        let (rotation, flip) = transformation_order()[n - 1];
        shape_candidates(kind, color, n - 1) + anchor_candidates(
            kind,
            rotation,
            flip,
            color,
            placable_corner(transformed(kind@, rotation, flip)),
        )
    }
}

/// The later-move candidates of the shapes, shape by shape.
pub open spec fn inventory_candidates(shapes: Seq<PieceShape>, color: Color) -> Seq<Piece>
    decreases shapes.len(),
{
    if shapes.len() == 0 {
        Seq::empty()
    } else {
        inventory_candidates(shapes.drop_last(), color) + shape_candidates(shapes.last(), color, 8)
    }
}

/// The kept candidates are placements that may be performed.
pub proof fn lemma_placements_valid(s: GameState, cands: Seq<Piece>)
    ensures
        forall|k: int|
            0 <= k < s.placements(cands).len() ==> (#[trigger] s.placements(cands)[k]) is Place && s.valid_move(
                s.placements(cands)[k],
            ),
    decreases cands.len(),
{
    if cands.len() > 0 {
        lemma_placements_valid(s, cands.drop_last());
    }
}

/// Keeping the valid moves of a concatenation keeps those of each part.
pub proof fn lemma_placements_concat(s: GameState, a: Seq<Piece>, b: Seq<Piece>)
    ensures
        s.placements(a + b) == s.placements(a) + s.placements(b),
    decreases b.len(),
{
    if b.len() == 0 {
        assert(a + b =~= a);
        assert(s.placements(a) + s.placements(b) =~= s.placements(a));
    } else {
        assert((a + b).drop_last() =~= a + b.drop_last());
        assert((a + b).last() == b.last());
        lemma_placements_concat(s, a, b.drop_last());
        let m = Move::Place { piece: b.last() };
        if s.valid_move(m) {
            assert(s.placements(a) + s.placements(b.drop_last()).push(m) =~= (s.placements(a) + s.placements(
                b.drop_last(),
            )).push(m));
        }
    }
}

/// The piece of the given shape, turn and colour at the given anchor.
pub open spec fn piece_at(kind: PieceShape, rotation: Rotation, flip: bool, color: Color, position: Vec2) -> Piece {
    Piece { kind, rotation, is_flipped: flip, color, position }
}

/// The anchor lies in the rectangle from the origin to `to`.
pub open spec fn in_anchor_range(position: Vec2, to: Vec2) -> bool {
    0 <= position.x <= to.x && 0 <= position.y <= to.y
}

/// The anchors at which move generation tries a shape whose transformed
/// cells are `t`: the rectangle from the origin to `(19, 19)` minus the
/// bounding box.
pub open spec fn placable(position: Vec2, t: Set<(int, int)>) -> bool {
    0 <= position.x <= 19 - bbox(t).0 && 0 <= position.y <= 19 - bbox(t).1
}

/// A copy of a vector of plain values.
fn copy_vec<T: Copy>(v: &Vec<T>) -> (r: Vec<T>)
    ensures
        r@ == v@,
{
    let mut r: Vec<T> = Vec::new();
    let mut i: usize = 0;
    while i < v.len()
        invariant
            i <= v@.len(),
            r@ == v@.take(i as int),
        decreases v@.len() - i,
    {
        r.push(v[i]);
        i = i + 1;
        assert(r@ =~= v@.take(i as int));
    }
    assert(v@.take(v@.len() as int) =~= v@);
    r
}

} // verus!