//! The game's decisions around the falling brick: moving it, fixing it to
//! the board, clearing lines, ending the game and bringing the next brick.

use vstd::prelude::*;
use crate::bricks::{
    occupied_at, all_placeable, cell, empty_row, lemma_keep_rows_len, lemma_keep_rows_origin, row_full, cleaned_rows, full_count, full_lines_from, full_rows_before, game_over_spec,
    in_board_at, keep_rows, law_clean_lines_listed, lemma_full_count_rows, lemma_keep_rows_index,
    lemma_line_full_row, lemma_shape_in_range, line_full, occupy_brick_spec, rows, valid_spec,
    Board, BrickShape, Dot,
};
use crate::consts::{BOARD_X, BOARD_X_Y, BOARD_Y, BOARD_Y_VALIDE, BRICKS_TYPES, SCORE_PER_DROP};
use crate::inputs::{rotated, Movements};
use crate::speeds::{level_spec, score_table};
use crate::states::{GameData, GameState};

verus! {

/// Where a new brick appears, as a spec value.
pub open spec fn brick_start_spec() -> Dot {
    Dot(3, 18)
}

/// Where a new brick appears.
pub fn brick_start_dot() -> (d: Dot)
    ensures
        d == brick_start_spec(),
{
    Dot(3, 18)
}

/// The brick in play and the one shown as coming next.
pub struct BrickNext {
    pub curr: BrickShape,
    pub next: BrickShape,
}

impl BrickNext {
    /// Two random bricks, each in its first rotation.
    pub fn new() -> (b: Self)
        ensures
            b.curr.wf() && b.curr.1 == 0,
            b.next.wf() && b.next.1 == 0,
    {
        BrickNext { curr: BrickShape::rand(), next: BrickShape::rand() }
    }

    /// The coming brick becomes the current one; a new random brick comes next.
    pub fn next(&mut self)
        ensures
            final(self).curr == old(self).next,
            final(self).next.wf() && final(self).next.1 == 0,
    {
        self.curr = self.next;
        self.next = BrickShape::rand();
    }
}

/// Brings the next brick into play when `new_brick` is set: the current
/// brick starts falling from the start position, the coming brick becomes
/// current and a new random brick comes next. Returns the brick that
/// starts falling, if any.
pub fn generate_new_brick(brick_next: &mut BrickNext, new_brick: bool) -> (r: Option<(BrickShape, Dot)>)
    ensures
        !new_brick ==> r == Option::<(BrickShape, Dot)>::None && final(brick_next).curr == old(
            brick_next,
        ).curr && final(brick_next).next == old(brick_next).next,
        new_brick ==> r == Option::Some((old(brick_next).curr, brick_start_spec()))
            && final(brick_next).curr == old(brick_next).next && final(brick_next).next.wf()
            && final(brick_next).next.1 == 0,
{
    if new_brick {
        let falling = (brick_next.curr, brick_start_dot());
        brick_next.next();
        Option::Some(falling)
    } else {
        Option::None
    }
}

/// Applies the movement of this tick to the falling brick. A move or a
/// rotation changes the brick's place or rotation; a stop fixes its dots to
/// the board, and no brick falls any more.
pub fn handle_brick_movement(
    board: &mut Board,
    movement: &Movements,
    brick: Option<(BrickShape, Dot)>,
) -> (r: Option<(BrickShape, Dot)>)
    requires
        old(board).wf(),
        brick matches Option::Some((s, _)) ==> (*movement is RotateTo ==> s.0 < BRICKS_TYPES
            && s.1 < usize::MAX),
        brick matches Option::Some((s, _)) ==> (*movement matches Movements::StopTo(d) ==> s.wf()
            && all_placeable(s.spec_dots(), d)),
    ensures
        final(board).wf(),
        match brick {
            Option::None => r == Option::<(BrickShape, Dot)>::None && final(board)@ == old(board)@,
            Option::Some((s, at)) => match *movement {
                Movements::NoMove => r == brick && final(board)@ == old(board)@,
                Movements::MoveTo(d) => r == Option::Some((s, d)) && final(board)@ == old(board)@,
                Movements::RotateTo(d) => r == Option::Some((rotated(s), d)) && final(board)@
                    == old(board)@,
                Movements::StopTo(d) => r == Option::<(BrickShape, Dot)>::None && final(board)@
                    == occupy_brick_spec(old(board)@, s.spec_dots(), d),
            },
        },
{
    let (brick_shape, _) = match brick {
        Option::Some(bd) => bd,
        Option::None => return Option::None,
    };
    match movement {
        Movements::NoMove => brick,
        Movements::MoveTo(next_dot) => Option::Some((brick_shape, *next_dot)),
        Movements::RotateTo(next_dot) => {
            let next_shape = brick_shape.rotate();
            Option::Some((next_shape, *next_dot))
        },
        Movements::StopTo(next_dot) => {
            board.occupy_brickshape(&brick_shape, next_dot);
            Option::None
        },
    }
}

/// Score gained when a brick comes to rest and `n` lines are then cleared at level `level`.
pub open spec fn stop_score(n: int, level: int) -> int {
    SCORE_PER_DROP + if n > 0 {
        score_table(n) * level
    } else {
        0
    }
}

/// When the brick came to rest: scores the drop, clears the full lines and
/// counts them, and returns the cleared lines (from the top down) with
/// whether the level changed. Nothing happens on other movements.
pub fn check_clean_line(board: &mut Board, game_data: &mut GameData, movement: &Movements) -> (r:
    Option<(Vec<i8>, bool)>)
    requires
        old(board).wf(),
        movement is StopTo ==> ({
            let n = full_lines_from(old(board)@, 0).len();
            &&& n <= 4
            &&& old(game_data).spec_score() + stop_score(n as int, old(game_data).spec_level() as int)
                <= u32::MAX
            &&& old(game_data).spec_lines() + n <= u32::MAX
        }),
    ensures
        final(board).wf(),
        !(movement is StopTo) ==> r is None && final(board)@ == old(board)@ && *final(game_data)
            == *old(game_data),
        movement is StopTo ==> ({
            let n = full_lines_from(old(board)@, 0).len();
            let g0 = *old(game_data);
            let g1 = *final(game_data);
            &&& r matches Option::Some((lines, changed)) && lines@ == full_lines_from(old(board)@, 0)
                && changed == (g1.spec_level() != g0.spec_level())
            &&& rows(final(board)@) == cleaned_rows(rows(old(board)@))
            &&& g1.spec_score() == g0.spec_score() + stop_score(n as int, g0.spec_level() as int)
            &&& g1.spec_lines() == g0.spec_lines() + n
            &&& g1.spec_level() == if n > 0 {
                level_spec(g1.spec_lines() as int)
            } else {
                g0.spec_level() as int
            }
            &&& g1.spec_game_state() == g0.spec_game_state()
        }),
{
    if let Movements::StopTo(_) = movement {
        let deleted_lines = board.get_clean_lines();
        let len = deleted_lines.len() as u32;
        game_data.add_score(SCORE_PER_DROP);
        let mut changed = false;
        if len > 0 {
            changed = game_data.add_lines(len);
        }
        board.clean_lines();
        Option::Some((deleted_lines, changed))
    } else {
        Option::None
    }
}

/// What follows a brick coming to rest.
#[derive(Copy, Clone, Debug, PartialEq, Eq, Structural)]
pub enum StopCheck {
    /// The brick did not come to rest on this tick.
    NoStop,
    /// The game is over.
    GameOver,
    /// The next brick comes into play.
    NewBrick,
}

/// The game ends when a brick comes to rest at or above row `BOARD_Y_VALIDE`,
/// when a cell of those rows is occupied, or when the current brick cannot
/// stand at the start position.
pub open spec fn game_over_at(b: Seq<bool>, stop_y: int, curr: BrickShape) -> bool {
    stop_y >= BOARD_Y_VALIDE || game_over_spec(b) || !valid_spec(
        b,
        curr.spec_dots(),
        brick_start_spec(),
    )
}

/// When the brick came to rest, decides whether the game is over (and
/// records it) or the next brick comes into play.
pub fn check_game_over(
    board: &Board,
    game_data: &mut GameData,
    movement: &Movements,
    brick_next: &BrickNext,
) -> (r: StopCheck)
    requires
        board.wf(),
        brick_next.curr.wf(),
    ensures
        match *movement {
            Movements::StopTo(d) => if game_over_at(board@, d.1 as int, brick_next.curr) {
                r == StopCheck::GameOver && final(game_data).spec_game_state()
                    == GameState::GameOver && final(game_data).spec_score() == old(
                    game_data,
                ).spec_score() && final(game_data).spec_lines() == old(game_data).spec_lines()
                    && final(game_data).spec_level() == old(game_data).spec_level()
            } else {
                r == StopCheck::NewBrick && *final(game_data) == *old(game_data)
            },
            _ => r == StopCheck::NoStop && *final(game_data) == *old(game_data),
        },
{
    if let Movements::StopTo(Dot(_, y)) = movement {
        let start = brick_start_dot();
        proof {
            lemma_shape_in_range(brick_next.curr, start);
        }
        if *y >= BOARD_Y_VALIDE || board.game_over() || !board.valid_brickshape(
            &brick_next.curr,
            &start,
        ) {
            game_data.end_game();
            StopCheck::GameOver
        } else {
            StopCheck::NewBrick
        }
    } else {
        StopCheck::NoStop
    }
}

/// The game goes on only when the next brick fits at the start place: if
/// any of its dots would fall outside the board or on an occupied cell
/// there, or if it otherwise cannot stand there, the game is over.
pub proof fn law_game_over_when_next_brick_blocked(b: Seq<bool>, stop_y: int, curr: BrickShape, k: int)
    requires
        curr.wf(),
        0 <= k < 4,
    ensures
        !valid_spec(b, curr.spec_dots(), brick_start_spec()) ==> game_over_at(b, stop_y, curr),
        occupied_at(b, curr.spec_dots()[k], brick_start_spec()) ==> game_over_at(b, stop_y, curr),
        !game_over_at(b, stop_y, curr) ==> valid_spec(b, curr.spec_dots(), brick_start_spec())
            && stop_y < BOARD_Y_VALIDE,
{
    lemma_shape_in_range(curr, brick_start_spec());
    crate::bricks::law_valid_iff_every_dot_free(b, curr.spec_dots(), brick_start_spec());
}

/// A brick that comes to rest scores `SCORE_PER_DROP` whatever the level;
/// lines cleared with it add what `add_lines` scores for them at that level.
pub proof fn law_drop_score_is_flat(n: int, level: int, other_level: int)
    requires
        0 <= n <= 4,
        level >= 0,
        other_level >= 0,
    ensures
        stop_score(0, level) == SCORE_PER_DROP,
        stop_score(0, level) == stop_score(0, other_level),
        n > 0 ==> stop_score(n, level) - stop_score(0, level) == score_table(n) * level,
{
}

/// On an empty board every brick can stand at the start position, so a
/// fresh game never ends before its first brick has fallen.
pub proof fn law_empty_board_accepts_new_brick(b: Seq<bool>, s: BrickShape, stop_y: int)
    requires
        b.len() == BOARD_X_Y,
        forall|i: int| 0 <= i < BOARD_X_Y ==> !#[trigger] b[i],
        s.wf(),
        stop_y < BOARD_Y_VALIDE,
    ensures
        valid_spec(b, s.spec_dots(), brick_start_spec()),
        !game_over_at(b, stop_y, s),
{
    lemma_shape_in_range(s, brick_start_spec());
    let ds = s.spec_dots();
    let o = brick_start_spec();
    assert(in_board_at(ds[0], o) && in_board_at(ds[1], o) && in_board_at(ds[2], o)
        && in_board_at(ds[3], o));
}

/// Whether a fixed dot lies in the rows where the game-over text is shown.
pub fn dot_in_game_text(dot: &Dot) -> (r: bool)
    ensures
        r == (dot.1 == 12 || dot.1 == 13 || dot.1 == 14),
{
    dot.1 == 12 || dot.1 == 13 || dot.1 == 14
}

/// The row of a fixed dot at row `y` after the rows `lines` are removed one
/// after the other: removed with a row, moved down one row by each removed
/// row below it, or left in place.
pub open spec fn settle_spec(y: i8, lines: Seq<i8>) -> Option<i8>
    decreases lines.len(),
{
    if lines.len() == 0 {
        Option::Some(y)
    } else {
        match settle_spec(y, lines.drop_last()) {
            Option::None => Option::None,
            Option::Some(c) => if c == lines.last() {
                Option::None
            } else if c > lines.last() {
                Option::Some((c - 1) as i8)
            } else {
                Option::Some(c)
            },
        }
    }
}

/// How many of the rows `lines` lie below row `y`.
pub open spec fn count_below(lines: Seq<i8>, y: int) -> int
    decreases lines.len(),
{
    if lines.len() == 0 {
        0
    } else {
        count_below(lines.drop_last(), y) + if lines.last() < y {
            1int
        } else {
            0int
        }
    }
}

/// The rows are listed strictly from the top down.
pub open spec fn strictly_descending(lines: Seq<i8>) -> bool {
    forall|i: int, j: int| 0 <= i < j < lines.len() ==> #[trigger] lines[i] > #[trigger] lines[j]
}

proof fn lemma_count_below_bound(s: Seq<i8>, l: int, y: int)
    requires
        strictly_descending(s),
        forall|k: int| 0 <= k < s.len() ==> #[trigger] s[k] > l,
    ensures
        0 <= count_below(s, y),
        count_below(s, y) <= if y - l - 1 > 0 {
            y - l - 1
        } else {
            0
        },
    decreases s.len(),
{
    if s.len() > 0 {
        let m = s.last() as int;
        let p = s.drop_last();
        assert forall|k: int| 0 <= k < p.len() implies #[trigger] p[k] > m by {
            assert(p[k] == s[k]);
        }
        assert forall|i: int, j: int| 0 <= i < j < p.len() implies #[trigger] p[i] > #[trigger] p[j] by {
            assert(p[i] == s[i] && p[j] == s[j]);
        }
        lemma_count_below_bound(p, m, y);
    }
}

/// For rows listed strictly from the top down, as `get_clean_lines` lists
/// them, a fixed dot is removed exactly when its row is listed, and
/// otherwise moves down by the number of listed rows below it.
pub proof fn law_settle_dot_closed_form(y: i8, lines: Seq<i8>)
    requires
        strictly_descending(lines),
    ensures
        settle_spec(y, lines) == if lines.contains(y) {
            Option::<i8>::None
        } else {
            Option::Some((y - count_below(lines, y as int)) as i8)
        },
    decreases lines.len(),
{
    if lines.len() > 0 {
        let p = lines.drop_last();
        let l = lines.last();
        assert forall|i: int, j: int| 0 <= i < j < p.len() implies #[trigger] p[i] > #[trigger] p[j] by {
            assert(p[i] == lines[i] && p[j] == lines[j]);
        }
        law_settle_dot_closed_form(y, p);
        assert forall|k: int| 0 <= k < p.len() implies #[trigger] p[k] > l by {
            assert(p[k] == lines[k]);
        }
        lemma_count_below_bound(p, l as int, y as int);
        if p.contains(y) {
            let k = choose|k: int| 0 <= k < p.len() && p[k] == y;
            assert(lines[k] == y);
        } else {
            if lines.contains(y) {
                let k = choose|k: int| 0 <= k < lines.len() && lines[k] == y;
                if k < p.len() {
                    assert(p[k] == y);
                }
                assert(l == y);
            }
            if l == y {
                assert(lines[lines.len() - 1] == y);
            }
        }
    } else {
        assert(!lines.contains(y));
    }
}

proof fn lemma_count_below_full_lines(b: Seq<bool>, lo: int, y: int)
    requires
        0 <= lo <= BOARD_Y,
    ensures
        count_below(full_lines_from(b, lo), y) == full_count(b, lo, y),
    decreases BOARD_Y - lo,
{
    if lo < BOARD_Y {
        lemma_count_below_full_lines(b, lo + 1, y);
        let a = full_lines_from(b, lo + 1);
        if line_full(b, lo) {
            let s = a + seq![lo as i8];
            assert(s.drop_last() =~= a);
            assert(full_lines_from(b, lo) == s);
        } else {
            assert(full_lines_from(b, lo) =~= a);
        }
    }
}

/// The fixed dots follow the board when lines are cleared: with the lines
/// that `get_clean_lines` lists, a dot of row `y` is removed exactly when
/// row `y` is full, and otherwise lands on the row that `clean_lines` moves
/// row `y` to.
pub proof fn law_settled_dots_follow_rows(old_board: Seq<bool>, new_board: Seq<bool>, y: i8)
    requires
        rows(new_board) == cleaned_rows(rows(old_board)),
        0 <= y < BOARD_Y,
    ensures
        (settle_spec(y, full_lines_from(old_board, 0)) is None) == line_full(old_board, y as int),
        settle_spec(y, full_lines_from(old_board, 0)) matches Option::Some(y2) ==> 0 <= y2 <= y
            && rows(new_board)[y2 as int] == rows(old_board)[y as int],
{
    let lines = full_lines_from(old_board, 0);
    law_clean_lines_listed(old_board);
    law_settle_dot_closed_form(y, lines);
    assert(lines.contains(y as i8) == line_full(old_board, y as int));
    if !line_full(old_board, y as int) {
        let rs = rows(old_board);
        lemma_line_full_row(old_board, y as int);
        lemma_keep_rows_index(rs, y as int);
        lemma_count_below_full_lines(old_board, 0, y as int);
        lemma_full_count_rows(old_board, 0, y as int);
        assert(rs.subrange(0, BOARD_Y as int) =~= rs);
        let y2 = y - count_below(lines, y as int);
        assert(y2 == y - full_rows_before(rs, y as int));
        assert(cleaned_rows(rs)[y2] == keep_rows(rs)[y2]);
    }
}

/// Conversely, every occupied cell of the board after `clean_lines` carries
/// a fixed dot: it is the new place of an occupied cell of the old board, in
/// the same column, whose row settles onto the cell's row.
pub proof fn law_cleared_cells_come_from_settled_dots(
    old_board: Seq<bool>,
    new_board: Seq<bool>,
    x: int,
    y2: int,
)
    requires
        rows(new_board) == cleaned_rows(rows(old_board)),
        0 <= x < BOARD_X,
        0 <= y2 < BOARD_Y,
        cell(new_board, x, y2),
    ensures
        exists|y: int|
            0 <= y < BOARD_Y && #[trigger] settle_spec(y as i8, full_lines_from(old_board, 0))
                == Option::Some(y2 as i8) && cell(old_board, x, y),
{
    let rs = rows(old_board);
    let k = keep_rows(rs);
    lemma_keep_rows_len(rs);
    assert(rows(new_board)[y2][x] == cell(new_board, x, y2));
    if y2 >= k.len() {
        assert(cleaned_rows(rs)[y2] == empty_row());
        assert(false);
    }
    assert(cleaned_rows(rs)[y2] == k[y2]);
    lemma_keep_rows_origin(rs, y2);
    let y = choose|y: int|
        0 <= y < rs.len() && !row_full(rs[y]) && y - full_rows_before(rs, y) == y2
            && #[trigger] keep_rows(rs)[y2] == rs[y];
    assert(rs[y][x] == cell(old_board, x, y));
    lemma_line_full_row(old_board, y);
    let lines = full_lines_from(old_board, 0);
    law_clean_lines_listed(old_board);
    law_settle_dot_closed_form(y as i8, lines);
    assert(lines.contains(y as i8) == line_full(old_board, y));
    lemma_count_below_full_lines(old_board, 0, y);
    lemma_full_count_rows(old_board, 0, y);
    assert(rs.subrange(0, BOARD_Y as int) =~= rs);
    assert(settle_spec(y as i8, lines) == Option::Some(y2 as i8));
}

/// What becomes of a fixed dot at row `y` when the rows `lines` are cleared
/// in turn: `None` when its row is cleared, otherwise its new row.
pub fn settle_dot(y: i8, lines: &Vec<i8>) -> (r: Option<i8>)
    ensures
        r == settle_spec(y, lines@),
{
    let mut cur: Option<i8> = Option::Some(y);
    let mut j: usize = 0;
    while j < lines.len()
        invariant
            j <= lines@.len(),
            cur == settle_spec(y, lines@.take(j as int)),
        decreases lines@.len() - j,
    {
        let line = lines[j];
        proof {
            assert(lines@.take(j + 1).drop_last() =~= lines@.take(j as int));
        }
        if let Option::Some(c) = cur {
            if c == line {
                cur = Option::None;
            } else if c > line {
                cur = Option::Some(c - 1);
            }
        }
        j += 1;
    }
    proof {
        assert(lines@.take(j as int) =~= lines@);
    }
    cur
}

} // verus!
