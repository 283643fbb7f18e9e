//! Dimensions of the board, the scoring constants and the table of the
//! seven bricks in each of their rotations.

use vstd::prelude::*;
use crate::bricks::{Brick, Dot};

verus! {

/// Width of the board, in cells.
pub const BOARD_X: i8 = 10;

/// Height of the board, in cells. The visible playfield is 20 rows high;
/// the rows above it leave room for a brick to rotate near the top.
pub const BOARD_Y: i8 = 23;

/// Number of cells of the board (`BOARD_X * BOARD_Y`).
pub const BOARD_X_Y: usize = 230;

/// First row that must stay empty: a cell fixed at or above it ends the game.
pub const BOARD_Y_VALIDE: i8 = 20;

/// Number of brick kinds.
pub const BRICKS_TYPES: usize = 7;

/// Score of a cleared line under a flat scoring; the game scores cleared
/// lines by level with `get_score` instead.
pub const SCORE_PER_DELETE: u32 = 100;

/// Score granted each time a brick comes to rest.
pub const SCORE_PER_DROP: u32 = 10;

/// Number of rotations of each brick kind: O, I, J, L, S, Z, T.
pub open spec fn rotations(kind: int) -> nat {
    if kind == 0 {
        1
    } else if kind == 1 || kind == 4 || kind == 5 {
        2
    } else {
        4
    }
}

/// The dots of brick `kind` in rotation `rot`, laid out in a 4x4 box.
#[verifier::opaque]
pub open spec fn shape_dots(kind: int, rot: int) -> Seq<Dot> {
    if kind == 0 {
        seq![Dot(1, 1), Dot(1, 2), Dot(2, 1), Dot(2, 2)]
    } else if kind == 1 {
        if rot == 0 {
            seq![Dot(0, 1), Dot(1, 1), Dot(2, 1), Dot(3, 1)]
        } else {
            seq![Dot(2, 0), Dot(2, 1), Dot(2, 2), Dot(2, 3)]
        }
    } else if kind == 2 {
        if rot == 0 {
            seq![Dot(0, 1), Dot(1, 1), Dot(2, 1), Dot(2, 0)]
        } else if rot == 1 {
            seq![Dot(1, 0), Dot(1, 1), Dot(1, 2), Dot(0, 0)]
        } else if rot == 2 {
            seq![Dot(0, 1), Dot(1, 1), Dot(2, 1), Dot(0, 2)]
        } else {
            seq![Dot(1, 0), Dot(1, 1), Dot(1, 2), Dot(2, 2)]
        }
    } else if kind == 3 {
        if rot == 0 {
            seq![Dot(0, 1), Dot(1, 1), Dot(2, 1), Dot(0, 0)]
        } else if rot == 1 {
            seq![Dot(1, 0), Dot(1, 1), Dot(1, 2), Dot(0, 2)]
        } else if rot == 2 {
            seq![Dot(0, 1), Dot(1, 1), Dot(2, 1), Dot(2, 2)]
        } else {
            seq![Dot(1, 0), Dot(1, 1), Dot(1, 2), Dot(2, 0)]
        }
    } else if kind == 4 {
        if rot == 0 {
            seq![Dot(0, 0), Dot(1, 0), Dot(1, 1), Dot(2, 1)]
        } else {
            seq![Dot(1, 2), Dot(1, 1), Dot(2, 1), Dot(2, 0)]
        }
    } else if kind == 5 {
        if rot == 0 {
            seq![Dot(0, 1), Dot(1, 1), Dot(1, 0), Dot(2, 0)]
        } else {
            seq![Dot(2, 2), Dot(2, 1), Dot(1, 1), Dot(1, 0)]
        }
    } else {
        if rot == 0 {
            seq![Dot(0, 1), Dot(1, 1), Dot(2, 1), Dot(1, 0)]
        } else if rot == 1 {
            seq![Dot(1, 0), Dot(1, 1), Dot(1, 2), Dot(0, 1)]
        } else if rot == 2 {
            seq![Dot(0, 1), Dot(1, 1), Dot(2, 1), Dot(1, 2)]
        } else {
            seq![Dot(1, 0), Dot(1, 1), Dot(1, 2), Dot(2, 1)]
        }
    }
}

/// Every brick has four dots, each within the 4x4 box.
pub proof fn lemma_shape_dots(kind: int, rot: int)
    requires
        0 <= kind < BRICKS_TYPES,
        0 <= rot < rotations(kind),
    ensures
        shape_dots(kind, rot).len() == 4,
        forall|k: int|
            0 <= k < 4 ==> 0 <= #[trigger] shape_dots(kind, rot)[k].0 <= 3 && 0
                <= shape_dots(kind, rot)[k].1 <= 3,
{
    reveal(shape_dots);
}

/// Whether one of the four dots `ds` lies on the cell `(x, y)`.
pub open spec fn covers(ds: Seq<Dot>, x: int, y: int) -> bool {
    ||| ds[0].0 == x && ds[0].1 == y
    ||| ds[1].0 == x && ds[1].1 == y
    ||| ds[2].0 == x && ds[2].1 == y
    ||| ds[3].0 == x && ds[3].1 == y
}

/// The dots `next` cover the cells of the dots `cur` turned a quarter turn
/// clockwise (a cell `(x, y)` goes to `(y, -x)`) and then moved by `(tx, ty)`.
pub open spec fn quarter_turn_of(next: Seq<Dot>, cur: Seq<Dot>, tx: int, ty: int) -> bool {
    forall|x: int, y: int| #[trigger] covers(next, x, y) <==> covers(cur, ty - y, x - tx)
}

/// The dots `a` cover the cells of the dots `b` mirrored left to right
/// (a cell `(x, y)` goes to `(tx - x, y)`).
pub open spec fn mirror_of(a: Seq<Dot>, b: Seq<Dot>, tx: int) -> bool {
    forall|x: int, y: int| #[trigger] covers(a, x, y) <==> covers(b, tx - x, y)
}

/// Each rotation of a brick is the rotation before it turned a quarter turn
/// clockwise, up to where it sits in its box; the last turns into the first.
pub proof fn law_rotation_is_quarter_turn(kind: int, rot: int)
    requires
        0 <= kind < BRICKS_TYPES,
        0 <= rot < rotations(kind),
    ensures
        exists|tx: int, ty: int|
            #[trigger] quarter_turn_of(
                shape_dots(kind, (rot + 1) % (rotations(kind) as int)),
                shape_dots(kind, rot),
                tx,
                ty,
            ),
{
    reveal(shape_dots);
    let next = shape_dots(kind, (rot + 1) % (rotations(kind) as int));
    let cur = shape_dots(kind, rot);
    if kind == 0 {
        assert(quarter_turn_of(next, cur, 0, 3));
    } else if kind == 1 {
        if rot == 0 {
            assert(quarter_turn_of(next, cur, 1, 3));
        } else {
            assert(quarter_turn_of(next, cur, 0, 3));
        }
    } else if kind == 4 || kind == 5 {
        if rot == 0 {
            assert(quarter_turn_of(next, cur, 1, 2));
        } else {
            assert(quarter_turn_of(next, cur, 0, 2));
        }
    } else {
        assert(quarter_turn_of(next, cur, 0, 2));
    }
}

/// The J and L bricks are mirror images of each other, and so are the S and
/// Z bricks: they differ in handedness, not only in rotation.
pub proof fn law_mirror_pairs()
    ensures
        mirror_of(shape_dots(3, 0), shape_dots(2, 0), 2),
        mirror_of(shape_dots(5, 0), shape_dots(4, 0), 2),
{
    reveal(shape_dots);
}

/// The four dots of a brick lie on four different cells.
pub proof fn law_four_distinct_cells(kind: int, rot: int)
    requires
        0 <= kind < BRICKS_TYPES,
        0 <= rot < rotations(kind),
    ensures
        forall|i: int, j: int|
            0 <= i < j < 4 ==> #[trigger] shape_dots(kind, rot)[i] != #[trigger] shape_dots(
                kind,
                rot,
            )[j],
{
    reveal(shape_dots);
}

/// The number of rotations of brick `kind`.
pub fn rotation_count(kind: usize) -> (n: usize)
    requires
        kind < BRICKS_TYPES,
    ensures
        n == rotations(kind as int),
{
    if kind == 0 {
        1
    } else if kind == 1 || kind == 4 || kind == 5 {
        2
    } else {
        4
    }
}

/// The brick of kind `kind` in rotation `rot`.
pub fn bricks_dict(kind: usize, rot: usize) -> (b: Brick)
    requires
        kind < BRICKS_TYPES,
        rot < rotations(kind as int),
    ensures
        b.dots@ == shape_dots(kind as int, rot as int),
{
    reveal(shape_dots);
    let dots: [Dot; 4] = if kind == 0 {
        [Dot(1, 1), Dot(1, 2), Dot(2, 1), Dot(2, 2)]
    } else if kind == 1 {
        if rot == 0 {
            [Dot(0, 1), Dot(1, 1), Dot(2, 1), Dot(3, 1)]
        } else {
            [Dot(2, 0), Dot(2, 1), Dot(2, 2), Dot(2, 3)]
        }
    } else if kind == 2 {
        if rot == 0 {
            [Dot(0, 1), Dot(1, 1), Dot(2, 1), Dot(2, 0)]
        } else if rot == 1 {
            [Dot(1, 0), Dot(1, 1), Dot(1, 2), Dot(0, 0)]
        } else if rot == 2 {
            [Dot(0, 1), Dot(1, 1), Dot(2, 1), Dot(0, 2)]
        } else {
            [Dot(1, 0), Dot(1, 1), Dot(1, 2), Dot(2, 2)]
        }
    } else if kind == 3 {
        if rot == 0 {
            [Dot(0, 1), Dot(1, 1), Dot(2, 1), Dot(0, 0)]
        } else if rot == 1 {
            [Dot(1, 0), Dot(1, 1), Dot(1, 2), Dot(0, 2)]
        } else if rot == 2 {
            [Dot(0, 1), Dot(1, 1), Dot(2, 1), Dot(2, 2)]
        } else {
            [Dot(1, 0), Dot(1, 1), Dot(1, 2), Dot(2, 0)]
        }
    } else if kind == 4 {
        if rot == 0 {
            [Dot(0, 0), Dot(1, 0), Dot(1, 1), Dot(2, 1)]
        } else {
            [Dot(1, 2), Dot(1, 1), Dot(2, 1), Dot(2, 0)]
        }
    } else if kind == 5 {
        if rot == 0 {
            [Dot(0, 1), Dot(1, 1), Dot(1, 0), Dot(2, 0)]
        } else {
            [Dot(2, 2), Dot(2, 1), Dot(1, 1), Dot(1, 0)]
        }
    } else {
        if rot == 0 {
            [Dot(0, 1), Dot(1, 1), Dot(2, 1), Dot(1, 0)]
        } else if rot == 1 {
            [Dot(1, 0), Dot(1, 1), Dot(1, 2), Dot(0, 1)]
        } else if rot == 2 {
            [Dot(0, 1), Dot(1, 1), Dot(2, 1), Dot(1, 2)]
        } else {
            [Dot(1, 0), Dot(1, 1), Dot(1, 2), Dot(2, 1)]
        }
    };
    Brick { dots }
}

} // verus!
