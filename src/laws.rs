//! Laws that relate several operations of the engine.
use vstd::prelude::*;
use crate::board::{count_color, in_bounds, FIELD_COUNT};
use crate::color::{Color, COLOR_COUNT};
use crate::piece::Piece;
use crate::piece_shape::SHAPE_COUNT;
use vstd::set_lib::{set_int_range, lemma_int_range, lemma_len_subset};
use crate::game_state::{GameState, without, has_name};
use crate::moves::Move;
use crate::piece_shape::transformed;
use crate::rotation::Rotation;

verus! {

/// Removing the shapes of one name never makes a sequence longer.
pub proof fn lemma_without_len(s: Seq<crate::piece_shape::PieceShape>, id: int)
    ensures
        without(s, id).len() <= s.len(),
    decreases s.len(),
{
    if s.len() > 0 {
        lemma_without_len(s.drop_last(), id);
    }
}

/// Applying a move to two states that hold the same values gives states that
/// hold the same values: performing a move is deterministic.
pub proof fn law_deterministic(a: GameState, b: GameState, m: Move, a2: GameState, b2: GameState)
    requires
        a.same_as(b),
        a.successor(a2, m),
        b.successor(b2, m),
    ensures
        a.valid_move(m) == b.valid_move(m),
        a2.same_as(b2),
{
    crate::game_state::lemma_same_state(a, b, m);
    crate::game_state::lemma_same_shapes(a, b);
    match m {
        Move::Skip { .. } => {},
        Move::Place { piece } => {
            a2.board.lemma_ext(b2.board);
            assert(a2.last_move_mono =~= b2.last_move_mono) by {
                assert forall|k: int| 0 <= k < COLOR_COUNT implies a2.last_move_mono[k] == b2.last_move_mono[k] by {
                    assert(a2.last_move_mono[k] == b2.last_move_mono[k]);
                }
            }
            assert(a2.blue_shapes@ == a2.shapes_of(Color::Blue));
            assert(a2.yellow_shapes@ == a2.shapes_of(Color::Yellow));
            assert(a2.red_shapes@ == a2.shapes_of(Color::Red));
            assert(a2.green_shapes@ == a2.shapes_of(Color::Green));
            assert(b2.blue_shapes@ == b2.shapes_of(Color::Blue));
            assert(b2.yellow_shapes@ == b2.shapes_of(Color::Yellow));
            assert(b2.red_shapes@ == b2.shapes_of(Color::Red));
            assert(b2.green_shapes@ == b2.shapes_of(Color::Green));
        },
    }
}

/// No colour's inventory grows when a move is performed, whether the move is
/// accepted (the state moves on to a successor) or refused (it stays as it
/// was).
pub proof fn law_inventory_monotone(s: GameState, next: GameState, m: Move)
    requires
        s.successor(next, m) || next.same_as(s),
    ensures
        forall|c: Color| #[trigger] next.shapes_of(c).len() <= s.shapes_of(c).len(),
{
    if next.same_as(s) {
        crate::game_state::lemma_same_shapes(next, s);
    } else {
        assert forall|c: Color| #[trigger] next.shapes_of(c).len() <= s.shapes_of(c).len() by {
            match m {
                Move::Skip { .. } => {
                    match c {
                        Color::Blue => {},
                        Color::Yellow => {},
                        Color::Red => {},
                        Color::Green => {},
                        Color::Empty => {},
                    }
                },
                Move::Place { piece } => {
                    lemma_without_len(s.shapes_of(c), piece.kind.id());
                },
            }
        }
    }
}

/// Every performed move adds one to the turn; the round goes up exactly when
/// the turn before, taken modulo the queue length, was the queue's last slot.
/// With a queue of two or more colours the round is only moved on by whole
/// multiples of the queue length, so that last case is left out there.
pub proof fn law_turn_and_round(s: GameState, next: GameState, m: Move)
    requires
        s.wf(),
        s.successor(next, m),
        !(s.ordered_colors@.len() >= 2 && s.turn as int % s.ordered_colors@.len() as int == s.ordered_colors@.len() - 1),
    ensures
        next.turn == s.turn + 1,
        (next.round == s.round + 1) == (s.turn as int % s.ordered_colors@.len() as int + 1 >= s.ordered_colors@.len()),
        next.round == s.round || next.round == s.round + 1,
{
    let len = s.ordered_colors@.len() as int;
    let t = s.turn as int;
    assert(0 <= t % len < len) by (nonlinear_arith)
        requires
            len > 0,
            t >= 0,
    ;
    if len == 1 {
        assert(t % 1 == 0);
        assert(1int / 1 == 1);
    } else {
        assert(1int / len == 0) by (nonlinear_arith)
            requires
                len >= 2,
        ;
    }
}

/// The identity rotation without a flip leaves every shape as it is.
pub proof fn law_transform_identity(t: Set<(int, int)>)
    ensures
        transformed(t, Rotation::Identity, false) == t,
{
}

/// The field with row-major index `i` is a cell of `cells`.
pub open spec fn covered(cells: Set<(int, int)>, i: int) -> bool {
    cells.contains((i % 20, i / 20))
}

/// The row-major indices below `n` of the fields in `cells`.
pub open spec fn covered_below(cells: Set<(int, int)>, n: int) -> Set<int> {
    Set::new(|i: int| 0 <= i < n && covered(cells, i))
}

/// Painting the covered fields, none of which had colour `c`, in `c` adds one
/// field of colour `c` for each covered field.
proof fn lemma_count_painted(before: Seq<Color>, after: Seq<Color>, cells: Set<(int, int)>, c: Color, n: int)
    requires
        before.len() == FIELD_COUNT,
        after.len() == FIELD_COUNT,
        forall|i: int| 0 <= i < FIELD_COUNT ==> #[trigger] after[i] == if covered(cells, i) { c } else { before[i] },
        forall|i: int| 0 <= i < FIELD_COUNT && covered(cells, i) ==> before[i] != c,
        0 <= n <= FIELD_COUNT,
    ensures
        covered_below(cells, n).finite(),
        count_color(after.take(n), c) == count_color(before.take(n), c) + covered_below(cells, n).len(),
    decreases n,
{
    if n == 0 {
        assert(covered_below(cells, 0) =~= Set::<int>::empty());
    } else {
        lemma_count_painted(before, after, cells, c, n - 1);
        assert(after.take(n).drop_last() =~= after.take(n - 1));
        assert(before.take(n).drop_last() =~= before.take(n - 1));
        if covered(cells, n - 1) {
            assert(covered_below(cells, n) =~= covered_below(cells, n - 1).insert(n - 1));
        } else {
            assert(covered_below(cells, n) =~= covered_below(cells, n - 1));
        }
    }
}

/// Placing a valid piece adds exactly as many fields of its colour to the
/// board as the piece has cells.
pub proof fn law_placement_conservation(s: GameState, next: GameState, piece: Piece)
    requires
        s.wf(),
        s.valid_move(Move::Place { piece }),
        s.successor(next, Move::Place { piece }),
    ensures
        piece.cells().finite(),
        count_color(next.board@, piece.color) == count_color(s.board@, piece.color) + piece.cells().len(),
{
    let cells = piece.cells();
    let c = piece.color;
    s.board.lemma_view_len();
    next.board.lemma_view_len();
    assert forall|i: int| 0 <= i < FIELD_COUNT implies #[trigger] next.board@[i] == if covered(cells, i) {
        c
    } else {
        s.board@[i]
    } by {
        let p = (i % 20, i / 20);
        assert(p.1 * 20 + p.0 == i);
        assert(in_bounds(p));
        assert(next.board.color_at(p) == next.board@[i]);
    }
    assert forall|i: int| 0 <= i < FIELD_COUNT && covered(cells, i) implies s.board@[i] != c by {
        let p = (i % 20, i / 20);
        assert(p.1 * 20 + p.0 == i);
        assert(s.cell_ok(p, c));
    }
    lemma_count_painted(s.board@, next.board@, cells, c, FIELD_COUNT as int);
    assert(s.board@.take(FIELD_COUNT as int) =~= s.board@);
    assert(next.board@.take(FIELD_COUNT as int) =~= next.board@);
    let x = covered_below(cells, FIELD_COUNT as int);
    let f = |i: int| (i % 20, i / 20);
    assert(vstd::relations::injective_on(f, x)) by {
        assert forall|a: int, b: int| x.contains(a) && x.contains(b) && #[trigger] f(a) == #[trigger] f(b) implies a == b by {
            assert(a == (a / 20) * 20 + a % 20);
            assert(b == (b / 20) * 20 + b % 20);
        }
    }
    assert(x.map(f) =~= cells) by {
        assert forall|p: (int, int)| cells.contains(p) implies x.map(f).contains(p) by {
            assert(s.cell_ok(p, c));
            let i = p.1 * 20 + p.0;
            assert(i % 20 == p.0 && i / 20 == p.1);
            assert(x.contains(i));
            assert(f(i) == p);
        }
    }
    vstd::set_lib::lemma_map_size(x, cells, f);
}

} // verus!

verus! {

/// In a well-formed state a colour is making its first move exactly when its
/// inventory holds every catalog shape.
pub proof fn law_first_move_full_inventory(s: GameState, c: Color)
    requires
        s.wf(),
        c != Color::Empty,
    ensures
        s.first_of(c) == forall|i: int| 0 <= i < SHAPE_COUNT ==> #[trigger] has_name(s.shapes_of(c), i),
{
    let v = s.shapes_of(c);
    assert(crate::game_state::inventory_ok(v));
    let n = v.len() as int;
    let x = set_int_range(0, n);
    let f = |k: int| v[k].id();
    let y = x.map(f);
    let full = set_int_range(0, SHAPE_COUNT as int);
    lemma_int_range(0, n);
    lemma_int_range(0, SHAPE_COUNT as int);
    assert(vstd::relations::injective_on(f, x)) by {
        assert forall|a: int, b: int| x.contains(a) && x.contains(b) && #[trigger] f(a) == #[trigger] f(b) implies a == b by {
            if a < b {
                assert(v[a].id() != v[b].id());
            } else if b < a {
                assert(v[b].id() != v[a].id());
            }
        }
    }
    vstd::set_lib::lemma_map_size(x, y, f);
    assert(y.subset_of(full)) by {
        assert forall|i: int| y.contains(i) implies full.contains(i) by {
            let k = choose|k: int| x.contains(k) && f(k) == i;
            assert(0 <= v[k].id() < SHAPE_COUNT);
        }
    }
    lemma_len_subset(y, full);
    let all = forall|i: int| 0 <= i < SHAPE_COUNT ==> #[trigger] has_name(v, i);
    if all {
        assert(full.subset_of(y)) by {
            assert forall|i: int| full.contains(i) implies y.contains(i) by {
                assert(has_name(v, i));
                let k = choose|k: int| 0 <= k < v.len() && #[trigger] v[k].id() == i;
                assert(x.contains(k) && f(k) == i);
            }
        }
        lemma_len_subset(full, y);
    }
    if s.first_of(c) && !all {
        let i = choose|i: int| 0 <= i < SHAPE_COUNT && !#[trigger] has_name(v, i);
        assert(y.subset_of(full.remove(i))) by {
            assert forall|j: int| y.contains(j) implies full.remove(i).contains(j) by {
                let k = choose|k: int| x.contains(k) && f(k) == j;
                assert(v[k].id() == j);
                if j == i {
                    assert(has_name(v, i));
                }
            }
        }
        lemma_len_subset(y, full.remove(i));
    }
}

/// Running the same moves from two states that hold the same values passes
/// through states that hold the same values at every step.
pub proof fn law_deterministic_run(
    ms: Seq<Move>,
    a: Seq<GameState>,
    b: Seq<GameState>,
)
    requires
        a.len() == ms.len() + 1,
        b.len() == ms.len() + 1,
        a[0].same_as(b[0]),
        forall|k: int| 0 <= k < ms.len() ==> #[trigger] a[k].successor(a[k + 1], ms[k]),
        forall|k: int| 0 <= k < ms.len() ==> #[trigger] b[k].successor(b[k + 1], ms[k]),
    ensures
        forall|k: int| 0 <= k < a.len() ==> #[trigger] a[k].same_as(b[k]),
    decreases ms.len(),
{
    if ms.len() > 0 {
        let n = ms.len() - 1;
        let (ta, tb, tm) = (a.take(n + 1), b.take(n + 1), ms.take(n));
        assert(ta[0] == a[0] && tb[0] == b[0]);
        assert forall|k: int| 0 <= k < tm.len() implies #[trigger] ta[k].successor(ta[k + 1], tm[k]) by {
            assert(a[k].successor(a[k + 1], ms[k]));
        }
        assert forall|k: int| 0 <= k < tm.len() implies #[trigger] tb[k].successor(tb[k + 1], tm[k]) by {
            assert(b[k].successor(b[k + 1], ms[k]));
        }
        law_deterministic_run(tm, ta, tb);
        assert(ta[n].same_as(tb[n]));
        assert(a.take(n + 1)[n] == a[n]);
        assert(a[n].successor(a[n + 1], ms[n]));
        assert(b[n].successor(b[n + 1], ms[n]));
        law_deterministic(a[n], b[n], ms[n], a[n + 1], b[n + 1]);
        assert forall|k: int| 0 <= k < a.len() implies #[trigger] a[k].same_as(b[k]) by {
            if k <= n {
                assert(a.take(n + 1)[k] == a[k]);
                assert(b.take(n + 1)[k] == b[k]);
            }
        }
    }
}

} // verus!
