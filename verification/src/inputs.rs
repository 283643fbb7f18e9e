//! What the falling brick does on a tick: fall, move, rotate, drop or stop.

use vstd::prelude::*;
use crate::bricks::{valid_spec, Board, BrickShape, Dot};
use crate::consts::{rotations, BOARD_Y_VALIDE};

verus! {

/// The movement decided for the falling brick on one tick.
#[derive(Copy, Clone, Debug)]
pub enum Movements {
    /// The brick stays where it is.
    NoMove,
    /// The brick moves to the given origin.
    MoveTo(Dot),
    /// The brick turns to its next rotation, at the given origin.
    RotateTo(Dot),
    /// The brick comes to rest at the given origin.
    StopTo(Dot),
}

/// The movement of the current tick, handed from input handling to the
/// systems that move, fix and clear bricks.
pub struct BrickMoveRes(pub Movements);

/// The keys held down on this tick.
#[derive(Copy, Clone, Debug)]
pub struct KeyState {
    pub right: bool,
    pub left: bool,
    pub down: bool,
    pub up: bool,
    pub space: bool,
}

/// The dot `d` moved by `dx` columns and `dy` rows.
pub open spec fn shift(d: Dot, dx: int, dy: int) -> Dot {
    Dot((d.0 + dx) as i8, (d.1 + dy) as i8)
}

/// The shape turned to its next rotation.
pub open spec fn rotated(s: BrickShape) -> BrickShape {
    BrickShape(s.0, ((s.1 + 1) % (rotations(s.0 as int) as int)) as usize)
}

/// Where a hard drop stops, testing `d` and then the `BOARD_Y_VALIDE - i - 1`
/// positions below it: one row above the first position the brick cannot
/// take, or nothing when all of them are free.
pub open spec fn hard_drop_spec(b: Seq<bool>, s: BrickShape, d: Dot, i: int) -> Option<Dot>
    decreases BOARD_Y_VALIDE - i,
{
    if i >= BOARD_Y_VALIDE {
        Option::None
    } else if !valid_spec(b, s.spec_dots(), d) {
        Option::Some(shift(d, 0, 1))
    } else {
        hard_drop_spec(b, s, shift(d, 0, -1), i + 1)
    }
}

/// What the fall timer does to the brick `s` at `dot`: one row down when
/// that position is free, otherwise the brick comes to rest where it is.
pub open spec fn fall_spec(b: Seq<bool>, s: BrickShape, dot: Dot) -> Movements {
    if valid_spec(b, s.spec_dots(), shift(dot, 0, -1)) {
        Movements::MoveTo(shift(dot, 0, -1))
    } else {
        Movements::StopTo(dot)
    }
}

/// What the held keys do to the brick `s` at `dot` that the fall timer has
/// already moved by `dy` rows, `current` being the movement so far. Right,
/// left, down, up (rotate) and space (hard drop) are tried in this order.
pub open spec fn key_spec(
    b: Seq<bool>,
    keys: KeyState,
    s: BrickShape,
    dot: Dot,
    dy: int,
    current: Movements,
) -> Movements {
    let here = shift(dot, 0, dy);
    if keys.right {
        if valid_spec(b, s.spec_dots(), shift(dot, 1, dy)) {
            Movements::MoveTo(shift(dot, 1, dy))
        } else {
            current
        }
    } else if keys.left {
        if valid_spec(b, s.spec_dots(), shift(dot, -1, dy)) {
            Movements::MoveTo(shift(dot, -1, dy))
        } else {
            current
        }
    } else if keys.down {
        if valid_spec(b, s.spec_dots(), shift(dot, 0, dy - 1)) {
            Movements::MoveTo(shift(dot, 0, dy - 1))
        } else {
            Movements::StopTo(here)
        }
    } else if keys.up {
        if valid_spec(b, rotated(s).spec_dots(), here) {
            Movements::RotateTo(here)
        } else {
            current
        }
    } else if keys.space {
        match hard_drop_spec(b, s, shift(here, 0, -1), 0) {
            Option::Some(stop) => Movements::StopTo(stop),
            Option::None => current,
        }
    } else {
        current
    }
}

/// The movement of a tick, given whether the fall timer and the key timer
/// fired, the keys held and the falling brick, if any.
pub open spec fn handle_keyboard_spec(
    b: Seq<bool>,
    falling_tick: bool,
    key_tick: bool,
    keys: KeyState,
    brick: Option<(BrickShape, Dot)>,
) -> Movements {
    match brick {
        Option::None => Movements::NoMove,
        Option::Some((s, dot)) => {
            if falling_tick {
                let fall = fall_spec(b, s, dot);
                if fall is StopTo {
                    fall
                } else if key_tick {
                    key_spec(b, keys, s, dot, -1, fall)
                } else {
                    fall
                }
            } else if key_tick {
                key_spec(b, keys, s, dot, 0, Movements::NoMove)
            } else {
                Movements::NoMove
            }
        },
    }
}

/// The falling brick is a real shape whose moves stay within the range of
/// `i8`: one column left or right, two rows down, and its dots up to three
/// cells right of and above its origin.
pub open spec fn brick_in_range(brick: Option<(BrickShape, Dot)>) -> bool {
    match brick {
        Option::None => true,
        Option::Some((s, dot)) => s.wf() && -127 <= dot.0 <= 123 && -126 <= dot.1 <= 124,
    }
}

/// Where a hard drop that starts by testing `start` stops, if it does.
fn hard_drop(board: &Board, brick_shape: &BrickShape, start: Dot) -> (r: Option<Dot>)
    requires
        board.wf(),
        brick_shape.wf(),
        start.0 <= 124,
        start.1 <= 123,
    ensures
        r == hard_drop_spec(board@, *brick_shape, start, 0),
{
    let mut next_dot = start;
    let mut k: i8 = 0;
    while k < BOARD_Y_VALIDE
        invariant
            board.wf(),
            brick_shape.wf(),
            0 <= k <= BOARD_Y_VALIDE,
            start.0 <= 124,
            start.1 <= 123,
            next_dot.0 == start.0,
            next_dot.1 == start.1 - k,
            hard_drop_spec(board@, *brick_shape, start, 0) == hard_drop_spec(
                board@,
                *brick_shape,
                next_dot,
                k as int,
            ),
        decreases BOARD_Y_VALIDE - k,
    {
        proof {
            crate::bricks::lemma_shape_in_range(*brick_shape, next_dot);
        }
        if !board.valid_brickshape(brick_shape, &next_dot) {
            let up = next_dot.up();
            assert(up == shift(next_dot, 0, 1));
            return Option::Some(up);
        }
        assert(crate::bricks::in_board_at(brick_shape.spec_dots()[0], next_dot));
        let ghost prev = next_dot;
        next_dot.move_down();
        assert(next_dot == shift(prev, 0, -1));
        k += 1;
    }
    Option::None
}

/// What the fall timer does to the brick.
fn fall_step(board: &Board, brick_shape: &BrickShape, dot: &Dot) -> (m: Movements)
    requires
        board.wf(),
        brick_in_range(Option::Some((*brick_shape, *dot))),
    ensures
        m == fall_spec(board@, *brick_shape, *dot),
{
    let next_position = dot.down();
    assert(next_position == shift(*dot, 0, -1));
    proof {
        crate::bricks::lemma_shape_in_range(*brick_shape, next_position);
    }
    if board.valid_brickshape(brick_shape, &next_position) {
        Movements::MoveTo(next_position)
    } else {
        Movements::StopTo(*dot)
    }
}

/// What the held keys do to the brick, once the fall moved it by `falling_dot`.
fn key_step(
    board: &Board,
    keys: &KeyState,
    brick_shape: &BrickShape,
    dot: &Dot,
    falling_dot: &Dot,
    current: Movements,
) -> (m: Movements)
    requires
        board.wf(),
        brick_in_range(Option::Some((*brick_shape, *dot))),
        falling_dot.0 == 0,
        -1 <= falling_dot.1 <= 0,
    ensures
        m == key_spec(board@, *keys, *brick_shape, *dot, falling_dot.1 as int, current),
{
    let ghost dy = falling_dot.1 as int;
    let mut movement = current;
    if keys.right {
        let next_dot = dot.right().with_orignal_dot(falling_dot);
        assert(next_dot == shift(*dot, 1, dy));
        proof {
            crate::bricks::lemma_shape_in_range(*brick_shape, next_dot);
        }
        if board.valid_brickshape(brick_shape, &next_dot) {
            movement = Movements::MoveTo(next_dot);
        }
    } else if keys.left {
        let next_dot = dot.left().with_orignal_dot(falling_dot);
        assert(next_dot == shift(*dot, -1, dy));
        proof {
            crate::bricks::lemma_shape_in_range(*brick_shape, next_dot);
        }
        if board.valid_brickshape(brick_shape, &next_dot) {
            movement = Movements::MoveTo(next_dot);
        }
    } else if keys.down {
        let next_dot = dot.down().with_orignal_dot(falling_dot);
        assert(next_dot == shift(*dot, 0, dy - 1));
        proof {
            crate::bricks::lemma_shape_in_range(*brick_shape, next_dot);
        }
        if board.valid_brickshape(brick_shape, &next_dot) {
            movement = Movements::MoveTo(next_dot);
        } else {
            let here = dot.with_orignal_dot(falling_dot);
            assert(here == shift(*dot, 0, dy));
            movement = Movements::StopTo(here);
        }
    } else if keys.up {
        let next_brick = brick_shape.rotate();
        assert(next_brick == rotated(*brick_shape));
        let next_dot = dot.with_orignal_dot(falling_dot);
        assert(next_dot == shift(*dot, 0, dy));
        proof {
            crate::bricks::lemma_shape_in_range(next_brick, next_dot);
        }
        if board.valid_brickshape(&next_brick, &next_dot) {
            movement = Movements::RotateTo(next_dot);
        }
    } else if keys.space {
        let mut next_dot = dot.with_orignal_dot(falling_dot);
        assert(next_dot == shift(*dot, 0, dy));
        let ghost here = next_dot;
        next_dot.move_down();
        assert(next_dot == shift(here, 0, -1));
        if let Option::Some(stop) = hard_drop(board, brick_shape, next_dot) {
            movement = Movements::StopTo(stop);
        }
    }
    movement
}

/// The shape `s` turned `n` times.
pub open spec fn rotate_times(s: BrickShape, n: nat) -> BrickShape
    decreases n,
{
    if n == 0 {
        s
    } else {
        rotated(rotate_times(s, (n - 1) as nat))
    }
}

/// Turning a brick keeps it a real shape of the same kind, and turning it
/// as many times as its kind has rotations brings it back as it was.
pub proof fn law_rotation_cycle(s: BrickShape)
    requires
        s.wf(),
    ensures
        rotated(s).wf(),
        rotated(s).0 == s.0,
        rotate_times(s, rotations(s.0 as int)) == s,
{
    let r = rotations(s.0 as int) as int;
    let t1 = rotate_times(s, 1);
    let t2 = rotate_times(s, 2);
    let t3 = rotate_times(s, 3);
    let t4 = rotate_times(s, 4);
    assert(rotate_times(s, 0) == s);
    assert(t1 == rotated(s));
    assert(t2 == rotated(t1));
    assert(t3 == rotated(t2));
    assert(t4 == rotated(t3));
    assert(t1.0 == s.0 && t2.0 == s.0 && t3.0 == s.0 && t4.0 == s.0);
    assert(t1.1 == (s.1 + 1) % r);
    assert(t2.1 == (t1.1 + 1) % r);
    assert(t3.1 == (t2.1 + 1) % r);
    assert(t4.1 == (t3.1 + 1) % r);
    if r == 1 {
        assert(t1.1 == s.1);
    } else if r == 2 {
        if s.1 == 0 {
            assert(t1.1 == 1);
        } else {
            assert(t1.1 == 0);
        }
        assert(t2.1 == s.1);
    } else {
        if s.1 == 0 {
            assert(t1.1 == 1 && t2.1 == 2 && t3.1 == 3);
        } else if s.1 == 1 {
            assert(t1.1 == 2 && t2.1 == 3 && t3.1 == 0);
        } else if s.1 == 2 {
            assert(t1.1 == 3 && t2.1 == 0 && t3.1 == 1);
        } else {
            assert(t1.1 == 0 && t2.1 == 1 && t3.1 == 2);
        }
        assert(t4.1 == s.1);
    }
}

proof fn lemma_hard_drop_valid(b: Seq<bool>, s: BrickShape, d: Dot, i: int)
    requires
        0 <= i <= BOARD_Y_VALIDE,
        s.wf(),
        d.0 <= 124,
        d.1 <= 123,
        valid_spec(b, s.spec_dots(), shift(d, 0, 1)),
    ensures
        hard_drop_spec(b, s, d, i) matches Option::Some(stop) ==> valid_spec(b, s.spec_dots(), stop)
            && !valid_spec(b, s.spec_dots(), shift(stop, 0, -1)) && stop.0 == d.0,
    decreases BOARD_Y_VALIDE - i,
{
    assert(shift(shift(d, 0, 1), 0, -1) == d);
    if i < BOARD_Y_VALIDE && valid_spec(b, s.spec_dots(), d) {
        crate::bricks::lemma_shape_in_range(s, d);
        assert(crate::bricks::in_board_at(s.spec_dots()[0], d));
        let d1 = shift(d, 0, -1);
        assert(shift(d1, 0, 1) == d);
        lemma_hard_drop_valid(b, s, d1, i + 1);
    }
}

/// The falling brick always stands where it can: when it stands at a valid
/// place, every movement decided for it leads to a valid place (for a
/// rotation, of the rotated brick). A move shifts it by at most one column
/// and at most two rows down, a rotation happens where it stands or one row
/// below, and a brick comes to rest only where it cannot fall one row further.
pub proof fn law_movement_keeps_brick_valid(
    b: Seq<bool>,
    falling_tick: bool,
    key_tick: bool,
    keys: KeyState,
    s: BrickShape,
    dot: Dot,
)
    requires
        brick_in_range(Option::Some((s, dot))),
        valid_spec(b, s.spec_dots(), dot),
    ensures
        match handle_keyboard_spec(b, falling_tick, key_tick, keys, Option::Some((s, dot))) {
            Movements::NoMove => true,
            Movements::MoveTo(d) => valid_spec(b, s.spec_dots(), d) && -1 <= d.0 - dot.0 <= 1 && 0
                <= dot.1 - d.1 <= 2,
            Movements::RotateTo(d) => valid_spec(b, rotated(s).spec_dots(), d) && (d == dot || d
                == shift(dot, 0, -1)),
            Movements::StopTo(d) => valid_spec(b, s.spec_dots(), d) && !valid_spec(
                b,
                s.spec_dots(),
                shift(d, 0, -1),
            ),
        },
{
    assert(shift(dot, 0, 0) == dot);
    assert(shift(shift(dot, 0, -1), 0, -1) == shift(dot, 0, -2));
    let fall = fall_spec(b, s, dot);
    let dy: int = if falling_tick {
        -1
    } else {
        0
    };
    let here = shift(dot, 0, dy);
    let start = shift(here, 0, -1);
    assert(shift(start, 0, 1) == here);
    if falling_tick && !(fall is StopTo) {
        assert(valid_spec(b, s.spec_dots(), here));
    }
    if !falling_tick || !(fall is StopTo) {
        assert(valid_spec(b, s.spec_dots(), here));
        lemma_hard_drop_valid(b, s, start, 0);
    }
}

/// A held key only ever replaces what the fall decided by a move to a free
/// place: when the brick can fall, the tick never leaves it hanging; when the
/// fall brings it to rest, the keys change nothing; and a right, left or
/// rotate key whose target is blocked (or no key at all) leaves the tick's
/// movement as the fall alone decided it.
pub proof fn law_blocked_key_keeps_fall(
    b: Seq<bool>,
    falling_tick: bool,
    keys: KeyState,
    s: BrickShape,
    dot: Dot,
)
    requires
        brick_in_range(Option::Some((s, dot))),
    ensures
        ({
            let brick = Option::Some((s, dot));
            let with_keys = handle_keyboard_spec(b, falling_tick, true, keys, brick);
            let fall_only = handle_keyboard_spec(b, falling_tick, false, keys, brick);
            let can_fall = valid_spec(b, s.spec_dots(), shift(dot, 0, -1));
            let dy: int = if falling_tick && can_fall {
                -1
            } else {
                0
            };
            &&& falling_tick && can_fall ==> fall_only == Movements::MoveTo(shift(dot, 0, -1))
                && !(with_keys is NoMove)
            &&& falling_tick && !can_fall ==> fall_only == Movements::StopTo(dot) && with_keys
                == fall_only
            &&& !falling_tick ==> fall_only == Movements::NoMove
            &&& keys.right && !valid_spec(b, s.spec_dots(), shift(dot, 1, dy)) ==> with_keys
                == fall_only
            &&& !keys.right && keys.left && !valid_spec(b, s.spec_dots(), shift(dot, -1, dy))
                ==> with_keys == fall_only
            &&& !keys.right && !keys.left && !keys.down && keys.up && !valid_spec(
                b,
                rotated(s).spec_dots(),
                shift(dot, 0, dy),
            ) ==> with_keys == fall_only
            &&& !keys.right && !keys.left && !keys.down && !keys.up && !keys.space ==> with_keys
                == fall_only
        }),
{
}

/// Decides the movement of the falling brick on one tick.
///
/// When the fall timer fired, the brick moves one row down if it can, and
/// otherwise comes to rest at once (the keys are then not looked at). When
/// the key timer fired, the first key held among right, left, down, up and
/// space acts on the brick, from where the fall left it: right and left
/// shift it when the new place is free, down moves it one row or makes it
/// rest, up rotates it when the rotated brick fits, and space drops it
/// straight down until it lands, looking at most `BOARD_Y_VALIDE` rows
/// below (a brick higher up than that does not move).
pub fn handle_keyboard(
    board: &Board,
    falling_tick: bool,
    key_tick: bool,
    keys: &KeyState,
    brick: Option<(BrickShape, Dot)>,
) -> (m: Movements)
    requires
        board.wf(),
        brick_in_range(brick),
    ensures
        m == handle_keyboard_spec(board@, falling_tick, key_tick, *keys, brick),
{
    let mut movement = Movements::NoMove;
    let mut falling_dot = Dot(0, 0);
    let (brick_shape, dot) = match brick {
        Option::Some(bd) => bd,
        Option::None => return movement,
    };
    if falling_tick {
        movement = fall_step(board, &brick_shape, &dot);
        if let Movements::StopTo(_) = movement {
            return movement;
        }
        falling_dot.move_down();
    }
    if key_tick {
        movement = key_step(board, keys, &brick_shape, &dot, &falling_dot, movement);
    }
    movement
}

} // verus!
