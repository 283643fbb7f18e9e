//! Cells, bricks, brick shapes and the board.

use vstd::prelude::*;
use crate::consts::{
    bricks_dict, rotation_count, rotations, shape_dots, BOARD_X, BOARD_X_Y, BOARD_Y,
    BOARD_Y_VALIDE, BRICKS_TYPES,
};
use rand::Rng;

verus! {

/// A cell position: column, then row (row 0 is the bottom of the board).
#[derive(Copy, Clone, Debug)]
pub struct Dot(pub i8, pub i8);

/// Whether `v` fits in an `i8`.
pub open spec fn fits_i8(v: int) -> bool {
    i8::MIN <= v <= i8::MAX
}

impl Default for Dot {
    fn default() -> (d: Self)
        ensures
            d.0 == 0 && d.1 == 0,
    {
        Dot(0, 0)
    }
}

impl Dot {
    /// This dot taken relative to `orig`: the sum of the two positions.
    pub fn with_orignal_dot(&self, orig: &Dot) -> (d: Self)
        requires
            fits_i8(self.0 + orig.0),
            fits_i8(self.1 + orig.1),
        ensures
            d.0 == self.0 + orig.0,
            d.1 == self.1 + orig.1,
    {
        Self(self.0 + orig.0, self.1 + orig.1)
    }

    /// Moves one column to the left.
    pub fn move_left(&mut self)
        requires
            old(self).0 > i8::MIN,
        ensures
            final(self).0 == old(self).0 - 1,
            final(self).1 == old(self).1,
    {
        self.0 -= 1;
    }

    /// Moves one column to the right.
    pub fn move_right(&mut self)
        requires
            old(self).0 < i8::MAX,
        ensures
            final(self).0 == old(self).0 + 1,
            final(self).1 == old(self).1,
    {
        self.0 += 1;
    }

    /// Moves one row down.
    pub fn move_down(&mut self)
        requires
            old(self).1 > i8::MIN,
        ensures
            final(self).0 == old(self).0,
            final(self).1 == old(self).1 - 1,
    {
        self.1 -= 1;
    }

    /// The dot one column to the left.
    pub fn left(&self) -> (d: Self)
        requires
            self.0 > i8::MIN,
        ensures
            d.0 == self.0 - 1,
            d.1 == self.1,
    {
        Self(self.0 - 1, self.1)
    }

    /// The dot one column to the right.
    pub fn right(&self) -> (d: Self)
        requires
            self.0 < i8::MAX,
        ensures
            d.0 == self.0 + 1,
            d.1 == self.1,
    {
        Self(self.0 + 1, self.1)
    }

    /// The dot one row down.
    pub fn down(&self) -> (d: Self)
        requires
            self.1 > i8::MIN,
        ensures
            d.0 == self.0,
            d.1 == self.1 - 1,
    {
        Self(self.0, self.1 - 1)
    }

    /// The dot one row up.
    pub fn up(&self) -> (d: Self)
        requires
            self.1 < i8::MAX,
        ensures
            d.0 == self.0,
            d.1 == self.1 + 1,
    {
        Self(self.0, self.1 + 1)
    }
}

/// The origin from which a brick's dots are laid out.
#[derive(Copy, Clone)]
pub struct BrickOrgDot(Dot);

/// A brick: four dots relative to the brick's origin.
#[derive(Copy, Clone)]
pub struct Brick {
    pub dots: [Dot; 4],
}

/// A brick kind (`0` to `6`: O, I, J, L, S, Z, T) and its rotation.
#[derive(Copy, Clone)]
pub struct BrickShape(pub usize, pub usize);

/// Draws a number uniformly from `0..high`.
///
/// Trusted: calls `rand::thread_rng().gen_range(0, high)` of rand 0.7, whose
/// documentation promises a value in `[low, high)` and a panic only when
/// `low >= high`, which `requires` rules out. Which value comes out is left
/// unsaid: it depends on the thread's random generator (`thread_rng` itself
/// panics only when the system's random source cannot be read at all).
#[verifier::external_body]
fn random_below(high: usize) -> (r: usize)
    requires
        0 < high,
    ensures
        r < high,
{
    rand::thread_rng().gen_range(0, high)
}

impl BrickShape {
    /// The shape names an existing brick kind and one of its rotations.
    pub open spec fn wf(self) -> bool {
        self.0 < BRICKS_TYPES && self.1 < rotations(self.0 as int)
    }

    /// The dots of this shape.
    pub open spec fn spec_dots(self) -> Seq<Dot> {
        shape_dots(self.0 as int, self.1 as int)
    }

    /// The brick this shape stands for.
    pub fn brick(&self) -> (b: Brick)
        requires
            self.wf(),
        ensures
            b.dots@ == self.spec_dots(),
    {
        bricks_dict(self.0, self.1)
    }

    /// The brick of kind `kind` in its first rotation.
    pub fn first_rotation(kind: usize) -> (s: Self)
        requires
            kind < BRICKS_TYPES,
        ensures
            s.0 == kind,
            s.1 == 0,
            s.wf(),
    {
        Self(kind, 0)
    }

    /// A brick of a random kind, in its first rotation.
    pub fn rand() -> (s: Self)
        ensures
            s.0 < BRICKS_TYPES,
            s.1 == 0,
            s.wf(),
    {
        let index = random_below(BRICKS_TYPES);
        Self::first_rotation(index)
    }

    /// The same kind, turned to its next rotation (back to the first after the last).
    pub fn rotate(&self) -> (s: Self)
        requires
            self.0 < BRICKS_TYPES,
            self.1 < usize::MAX,
        ensures
            s.0 == self.0,
            s.1 == (self.1 + 1) % (rotations(self.0 as int) as int),
    {
        Self(self.0, (self.1 + 1) % rotation_count(self.0))
    }
}

/// Flat index of the cell at column `x`, row `y`.
pub open spec fn cell_index(x: int, y: int) -> int {
    x + BOARD_X * y
}

/// Whether the cell at column `x`, row `y` of the board `b` is occupied.
pub open spec fn cell(b: Seq<bool>, x: int, y: int) -> bool {
    b[cell_index(x, y)]
}

/// The board `b` with the cell at flat index `x + 10 * y` set, when that
/// index lies on the board; `b` itself otherwise.
pub open spec fn occupy_spec(b: Seq<bool>, x: int, y: int) -> Seq<bool> {
    let i = cell_index(x, y);
    if i < BOARD_X_Y {
        b.update(i, true)
    } else {
        b
    }
}

/// Whether the cell at flat index `x + 10 * y` is on the board and occupied.
pub open spec fn occupied_spec(b: Seq<bool>, x: int, y: int) -> bool {
    let i = cell_index(x, y);
    i < BOARD_X_Y && b[i]
}

/// Column of dot `d` placed at origin `o`.
pub open spec fn px(d: Dot, o: Dot) -> int {
    d.0 + o.0
}

/// Row of dot `d` placed at origin `o`.
pub open spec fn py(d: Dot, o: Dot) -> int {
    d.1 + o.1
}

/// Dot `d` placed at origin `o` has coordinates that fit in an `i8`.
pub open spec fn fits_at(d: Dot, o: Dot) -> bool {
    fits_i8(px(d, o)) && fits_i8(py(d, o))
}

/// Dot `d` placed at origin `o` has coordinates that fit in an `i8` and are not negative.
pub open spec fn placeable(d: Dot, o: Dot) -> bool {
    fits_at(d, o) && px(d, o) >= 0 && py(d, o) >= 0
}

/// Dot `d` placed at origin `o` lies within the board's columns and not below its bottom.
pub open spec fn in_board_at(d: Dot, o: Dot) -> bool {
    0 <= px(d, o) < BOARD_X && 0 <= py(d, o)
}

/// The cell of dot `d` placed at origin `o` is occupied on board `b`.
pub open spec fn occupied_at(b: Seq<bool>, d: Dot, o: Dot) -> bool {
    occupied_spec(b, px(d, o), py(d, o))
}

/// All four dots of `ds` placed at `o` lie within the board.
pub open spec fn brick_in_board_spec(ds: Seq<Dot>, o: Dot) -> bool {
    &&& in_board_at(ds[0], o)
    &&& in_board_at(ds[1], o)
    &&& in_board_at(ds[2], o)
    &&& in_board_at(ds[3], o)
}

/// Some dot of `ds` placed at `o` falls on an occupied cell of `b`.
pub open spec fn conflict_spec(b: Seq<bool>, ds: Seq<Dot>, o: Dot) -> bool {
    ||| occupied_at(b, ds[0], o)
    ||| occupied_at(b, ds[1], o)
    ||| occupied_at(b, ds[2], o)
    ||| occupied_at(b, ds[3], o)
}

/// The brick of dots `ds` can stand at `o` on board `b`: within the board, on free cells.
pub open spec fn valid_spec(b: Seq<bool>, ds: Seq<Dot>, o: Dot) -> bool {
    brick_in_board_spec(ds, o) && !conflict_spec(b, ds, o)
}

/// The board `b` with the four dots of `ds` placed at `o` occupied.
pub open spec fn occupy_brick_spec(b: Seq<bool>, ds: Seq<Dot>, o: Dot) -> Seq<bool> {
    let b1 = occupy_spec(b, px(ds[0], o), py(ds[0], o));
    let b2 = occupy_spec(b1, px(ds[1], o), py(ds[1], o));
    let b3 = occupy_spec(b2, px(ds[2], o), py(ds[2], o));
    occupy_spec(b3, px(ds[3], o), py(ds[3], o))
}

/// The in-board test of the four dots never meets an overflow: each dot's
/// position is computed only when the dots before it lie within the board.
pub open spec fn in_board_checkable(ds: Seq<Dot>, o: Dot) -> bool {
    &&& fits_at(ds[0], o)
    &&& in_board_at(ds[0], o) ==> fits_at(ds[1], o)
    &&& in_board_at(ds[0], o) && in_board_at(ds[1], o) ==> fits_at(ds[2], o)
    &&& in_board_at(ds[0], o) && in_board_at(ds[1], o) && in_board_at(ds[2], o) ==> fits_at(
        ds[3],
        o,
    )
}

/// The conflict test of the four dots never meets an overflow: each dot's
/// cell is looked up only when the cells before it are free.
pub open spec fn conflict_checkable(b: Seq<bool>, ds: Seq<Dot>, o: Dot) -> bool {
    &&& placeable(ds[0], o)
    &&& !occupied_at(b, ds[0], o) ==> placeable(ds[1], o)
    &&& !occupied_at(b, ds[0], o) && !occupied_at(b, ds[1], o) ==> placeable(ds[2], o)
    &&& !occupied_at(b, ds[0], o) && !occupied_at(b, ds[1], o) && !occupied_at(b, ds[2], o)
        ==> placeable(ds[3], o)
}

/// All four dots of `ds` placed at `o` are placeable.
pub open spec fn all_placeable(ds: Seq<Dot>, o: Dot) -> bool {
    &&& placeable(ds[0], o)
    &&& placeable(ds[1], o)
    &&& placeable(ds[2], o)
    &&& placeable(ds[3], o)
}

/// The dots of a real shape lie within a 4x4 box, so placed at an origin
/// no greater than 124 their coordinates fit in an `i8` and the in-board
/// test is defined.
pub proof fn lemma_shape_in_range(s: BrickShape, o: Dot)
    requires
        s.wf(),
        o.0 <= 124,
        o.1 <= 124,
    ensures
        s.spec_dots().len() == 4,
        in_board_checkable(s.spec_dots(), o),
        forall|k: int| 0 <= k < 4 ==> fits_at(#[trigger] s.spec_dots()[k], o),
        forall|k: int|
            0 <= k < 4 ==> 0 <= #[trigger] s.spec_dots()[k].0 <= 3 && 0 <= s.spec_dots()[k].1
                <= 3,
{
    crate::consts::lemma_shape_dots(s.0 as int, s.1 as int);
    let ds = s.spec_dots();
    assert(fits_at(ds[0], o) && fits_at(ds[1], o) && fits_at(ds[2], o) && fits_at(ds[3], o));
}

/// A brick can stand at a place exactly when each of its four dots lies
/// within the board's columns, not below the bottom, and on a free cell.
pub proof fn law_valid_iff_every_dot_free(b: Seq<bool>, ds: Seq<Dot>, o: Dot)
    requires
        ds.len() == 4,
    ensures
        valid_spec(b, ds, o) <==> forall|k: int|
            0 <= k < 4 ==> in_board_at(#[trigger] ds[k], o) && !occupied_at(b, ds[k], o),
{
    if forall|k: int| 0 <= k < 4 ==> in_board_at(#[trigger] ds[k], o) && !occupied_at(b, ds[k], o) {
        assert(in_board_at(ds[0], o) && !occupied_at(b, ds[0], o));
        assert(in_board_at(ds[1], o) && !occupied_at(b, ds[1], o));
        assert(in_board_at(ds[2], o) && !occupied_at(b, ds[2], o));
        assert(in_board_at(ds[3], o) && !occupied_at(b, ds[3], o));
    }
}

/// A brick that can stand at a place can be fixed there: its dots are on
/// cells with non-negative coordinates that fit in an `i8`.
pub proof fn law_valid_brick_can_be_fixed(b: Seq<bool>, s: BrickShape, o: Dot)
    requires
        s.wf(),
        o.0 <= 124,
        o.1 <= 124,
        valid_spec(b, s.spec_dots(), o),
    ensures
        all_placeable(s.spec_dots(), o),
{
    lemma_shape_in_range(s, o);
}

/// Whether row `y` of `b` is completely occupied.
pub open spec fn line_full(b: Seq<bool>, y: int) -> bool {
    forall|x: int| 0 <= x < BOARD_X ==> #[trigger] cell(b, x, y)
}

/// Some cell of the rows at or above `BOARD_Y_VALIDE` is occupied.
pub open spec fn game_over_spec(b: Seq<bool>) -> bool {
    exists|i: int| cell_index(0, BOARD_Y_VALIDE as int) <= i < BOARD_X_Y && #[trigger] b[i]
}

/// The rows of `lo..BOARD_Y` of `b` that are completely occupied, from the top down.
pub open spec fn full_lines_from(b: Seq<bool>, lo: int) -> Seq<i8>
    decreases BOARD_Y - lo,
{
    if lo >= BOARD_Y {
        Seq::empty()
    } else {
        full_lines_from(b, lo + 1) + if line_full(b, lo) {
            seq![lo as i8]
        } else {
            Seq::empty()
        }
    }
}

/// The board `b` after row `y` is removed: the rows above it move down one
/// row and the top row becomes empty.
pub open spec fn clean_line_spec(b: Seq<bool>, y: int) -> Seq<bool> {
    Seq::new(
        BOARD_X_Y as nat,
        |i: int|
            if i < cell_index(0, y) {
                b[i]
            } else if i < cell_index(0, BOARD_Y - 1) {
                b[i + BOARD_X]
            } else {
                false
            },
    )
}

/// Row `y` of `b`, from the leftmost column.
pub open spec fn row(b: Seq<bool>, y: int) -> Seq<bool> {
    Seq::new(BOARD_X as nat, |x: int| cell(b, x, y))
}

/// The rows of `b`, from the bottom up.
pub open spec fn rows(b: Seq<bool>) -> Seq<Seq<bool>> {
    Seq::new(BOARD_Y as nat, |y: int| row(b, y))
}

/// Every cell of the row `r` is occupied.
pub open spec fn row_full(r: Seq<bool>) -> bool {
    forall|x: int| 0 <= x < r.len() ==> #[trigger] r[x]
}

/// A row of free cells.
pub open spec fn empty_row() -> Seq<bool> {
    Seq::new(BOARD_X as nat, |x: int| false)
}

/// `n` rows of free cells.
pub open spec fn empty_rows(n: nat) -> Seq<Seq<bool>> {
    Seq::new(n, |i: int| empty_row())
}

/// The rows of `rs` that are not completely occupied, in their order.
pub open spec fn keep_rows(rs: Seq<Seq<bool>>) -> Seq<Seq<bool>>
    decreases rs.len(),
{
    if rs.len() == 0 {
        rs
    } else {
        (if row_full(rs[0]) {
            Seq::empty()
        } else {
            seq![rs[0]]
        }) + keep_rows(rs.drop_first())
    }
}

/// The rows `rs` once every full row is cleared: the other rows, in their
/// order, from the bottom up, then empty rows up to the same height.
pub open spec fn cleaned_rows(rs: Seq<Seq<bool>>) -> Seq<Seq<bool>> {
    keep_rows(rs) + empty_rows((rs.len() - keep_rows(rs).len()) as nat)
}

/// The rows `rs` after removing, one after the other, the rows `ys`, each
/// removal adding an empty row at the top.
pub open spec fn remove_rows(rs: Seq<Seq<bool>>, ys: Seq<i8>) -> Seq<Seq<bool>>
    decreases ys.len(),
{
    if ys.len() == 0 {
        rs
    } else {
        remove_rows(rs, ys.drop_last()).remove(ys.last() as int).push(empty_row())
    }
}

/// `keep_rows` never adds rows.
pub proof fn lemma_keep_rows_len(rs: Seq<Seq<bool>>)
    ensures
        keep_rows(rs).len() <= rs.len(),
    decreases rs.len(),
{
    if rs.len() > 0 {
        lemma_keep_rows_len(rs.drop_first());
    }
}

pub proof fn lemma_line_full_row(b: Seq<bool>, y: int)
    requires
        0 <= y < BOARD_Y,
    ensures
        line_full(b, y) == row_full(rows(b)[y]),
{
    let r = rows(b)[y];
    if line_full(b, y) {
        assert forall|x: int| 0 <= x < r.len() implies #[trigger] r[x] by {
            assert(cell(b, x, y));
        }
    }
    if row_full(r) {
        assert forall|x: int| 0 <= x < BOARD_X implies #[trigger] cell(b, x, y) by {
            assert(r[x]);
        }
    }
}

proof fn lemma_full_lines_range(b: Seq<bool>, lo: int)
    requires
        0 <= lo <= BOARD_Y,
    ensures
        forall|k: int|
            0 <= k < full_lines_from(b, lo).len() ==> lo <= #[trigger] full_lines_from(b, lo)[k]
                < BOARD_Y,
    decreases BOARD_Y - lo,
{
    if lo < BOARD_Y {
        lemma_full_lines_range(b, lo + 1);
        let s1 = full_lines_from(b, lo + 1);
        let t: Seq<i8> = if line_full(b, lo) {
            seq![lo as i8]
        } else {
            Seq::empty()
        };
        assert(full_lines_from(b, lo) == s1 + t);
        assert forall|k: int| 0 <= k < (s1 + t).len() implies lo <= #[trigger] (s1 + t)[k] < BOARD_Y by {
            if k >= s1.len() {
                assert((s1 + t)[k] == t[k - s1.len()]);
            } else {
                assert((s1 + t)[k] == s1[k]);
            }
        }
    }
}

proof fn lemma_clean_line_rows(b: Seq<bool>, y: int)
    requires
        b.len() == BOARD_X_Y,
        0 <= y < BOARD_Y,
    ensures
        rows(clean_line_spec(b, y)) == rows(b).remove(y).push(empty_row()),
{
    let nb = clean_line_spec(b, y);
    let lhs = rows(nb);
    let rhs = rows(b).remove(y).push(empty_row());
    rows(b).remove_ensures(y);
    assert forall|r: int| 0 <= r < BOARD_Y implies #[trigger] lhs[r] =~= rhs[r] by {
        if r < y {
            assert forall|x: int| 0 <= x < BOARD_X implies #[trigger] lhs[r][x] == rhs[r][x] by {
                assert(rhs[r] == rows(b)[r]);
            }
        } else if r < BOARD_Y - 1 {
            assert forall|x: int| 0 <= x < BOARD_X implies #[trigger] lhs[r][x] == rhs[r][x] by {
                assert(rhs[r] == rows(b)[r + 1]);
            }
        } else {
            assert forall|x: int| 0 <= x < BOARD_X implies #[trigger] lhs[r][x] == rhs[r][x] by {
                assert(rhs[r] == empty_row());
            }
        }
    }
    assert(lhs =~= rhs);
}

proof fn lemma_remove_full_lines(b: Seq<bool>, lo: int)
    requires
        0 <= lo <= BOARD_Y,
    ensures
        keep_rows(rows(b).subrange(lo, BOARD_Y as int)).len() <= BOARD_Y - lo,
        remove_rows(rows(b), full_lines_from(b, lo)) == rows(b).subrange(0, lo) + keep_rows(
            rows(b).subrange(lo, BOARD_Y as int),
        ) + empty_rows(
            (BOARD_Y - lo - keep_rows(rows(b).subrange(lo, BOARD_Y as int)).len()) as nat,
        ),
    decreases BOARD_Y - lo,
{
    let rs = rows(b);
    let tail = rs.subrange(lo, BOARD_Y as int);
    lemma_keep_rows_len(tail);
    if lo == BOARD_Y {
        assert(tail =~= Seq::<Seq<bool>>::empty());
        assert(rs.subrange(0, lo) =~= rs);
        assert(empty_rows(0) =~= Seq::<Seq<bool>>::empty());
        assert(rs.subrange(0, lo) + keep_rows(tail) + empty_rows(0) =~= rs);
    } else {
        lemma_remove_full_lines(b, lo + 1);
        let t1 = rs.subrange(lo + 1, BOARD_Y as int);
        assert(tail.drop_first() =~= t1);
        assert(tail[0] == rs[lo]);
        lemma_line_full_row(b, lo);
        let a = full_lines_from(b, lo + 1);
        let k1 = keep_rows(t1);
        let n1 = (BOARD_Y - (lo + 1) - k1.len()) as nat;
        let prev = rs.subrange(0, lo + 1) + k1 + empty_rows(n1);
        if line_full(b, lo) {
            let ys = a + seq![lo as i8];
            assert(ys.drop_last() =~= a);
            assert(full_lines_from(b, lo) == ys);
            assert(keep_rows(tail) =~= k1);
            assert(prev.remove(lo) =~= rs.subrange(0, lo) + k1 + empty_rows(n1));
            assert((rs.subrange(0, lo) + k1 + empty_rows(n1)).push(empty_row()) =~= rs.subrange(
                0,
                lo,
            ) + k1 + empty_rows(n1 + 1));
        } else {
            assert(full_lines_from(b, lo) =~= a);
            assert(keep_rows(tail) =~= seq![rs[lo]] + k1);
            assert(prev =~= rs.subrange(0, lo) + (seq![rs[lo]] + k1) + empty_rows(n1));
        }
    }
}

proof fn lemma_keep_rows_not_full(rs: Seq<Seq<bool>>)
    ensures
        forall|k: int| 0 <= k < keep_rows(rs).len() ==> !row_full(#[trigger] keep_rows(rs)[k]),
    decreases rs.len(),
{
    if rs.len() > 0 {
        lemma_keep_rows_not_full(rs.drop_first());
        let h: Seq<Seq<bool>> = if row_full(rs[0]) {
            Seq::empty()
        } else {
            seq![rs[0]]
        };
        let t = keep_rows(rs.drop_first());
        assert forall|k: int| 0 <= k < (h + t).len() implies !row_full(#[trigger] (h + t)[k]) by {
            if k < h.len() {
                assert((h + t)[k] == rs[0]);
            } else {
                assert((h + t)[k] == t[k - h.len()]);
            }
        }
    }
}

proof fn lemma_keep_rows_all(rs: Seq<Seq<bool>>)
    requires
        forall|k: int| 0 <= k < rs.len() ==> !row_full(#[trigger] rs[k]),
    ensures
        keep_rows(rs) == rs,
    decreases rs.len(),
{
    if rs.len() > 0 {
        assert(!row_full(rs[0]));
        assert forall|k: int| 0 <= k < rs.drop_first().len() implies !row_full(
            #[trigger] rs.drop_first()[k],
        ) by {
            assert(rs.drop_first()[k] == rs[k + 1]);
        }
        lemma_keep_rows_all(rs.drop_first());
        assert(seq![rs[0]] + rs.drop_first() =~= rs);
    }
}

proof fn lemma_full_lines_count(b: Seq<bool>, lo: int)
    requires
        0 <= lo <= BOARD_Y,
    ensures
        keep_rows(rows(b).subrange(lo, BOARD_Y as int)).len() + full_lines_from(b, lo).len()
            == BOARD_Y - lo,
        (full_lines_from(b, lo).len() > 0) == (exists|y: int|
            lo <= y < BOARD_Y && #[trigger] line_full(b, y)),
    decreases BOARD_Y - lo,
{
    let rs = rows(b);
    let tail = rs.subrange(lo, BOARD_Y as int);
    if lo == BOARD_Y {
        assert(tail =~= Seq::<Seq<bool>>::empty());
    } else {
        lemma_full_lines_count(b, lo + 1);
        assert(tail.drop_first() =~= rs.subrange(lo + 1, BOARD_Y as int));
        lemma_line_full_row(b, lo);
        if exists|y: int| lo + 1 <= y < BOARD_Y && #[trigger] line_full(b, y) {
            let y = choose|y: int| lo + 1 <= y < BOARD_Y && #[trigger] line_full(b, y);
            assert(lo <= y < BOARD_Y && line_full(b, y));
        }
    }
}

proof fn lemma_full_lines_desc(b: Seq<bool>, lo: int)
    requires
        0 <= lo <= BOARD_Y,
    ensures
        forall|i: int, j: int|
            0 <= i < j < full_lines_from(b, lo).len() ==> #[trigger] full_lines_from(b, lo)[i]
                > #[trigger] full_lines_from(b, lo)[j],
        forall|y: int|
            lo <= y < BOARD_Y ==> (line_full(b, y) <==> #[trigger] full_lines_from(b, lo).contains(
                y as i8,
            )),
    decreases BOARD_Y - lo,
{
    if lo < BOARD_Y {
        lemma_full_lines_desc(b, lo + 1);
        lemma_full_lines_range(b, lo + 1);
        let s1 = full_lines_from(b, lo + 1);
        let t: Seq<i8> = if line_full(b, lo) {
            seq![lo as i8]
        } else {
            Seq::empty()
        };
        let s = s1 + t;
        assert(full_lines_from(b, lo) == s);
        assert forall|i: int, j: int| 0 <= i < j < s.len() implies #[trigger] s[i] > #[trigger] s[j] by {
            if j >= s1.len() {
                assert(s[j] == lo);
                assert(s[i] == s1[i]);
            } else {
                assert(s[i] == s1[i] && s[j] == s1[j]);
            }
        }
        assert forall|y: int| lo <= y < BOARD_Y implies (line_full(b, y) <==> #[trigger] s.contains(
            y as i8,
        )) by {
            if y == lo {
                if line_full(b, y) {
                    assert(s[s.len() - 1] == y as i8);
                } else {
                    if s.contains(y as i8) {
                        let k = choose|k: int| 0 <= k < s.len() && s[k] == y as i8;
                        assert(s[k] == s1[k]);
                    }
                }
            } else {
                if line_full(b, y) {
                    assert(s1.contains(y as i8));
                    let k = choose|k: int| 0 <= k < s1.len() && s1[k] == y as i8;
                    assert(s[k] == s1[k]);
                } else if s.contains(y as i8) {
                    let k = choose|k: int| 0 <= k < s.len() && s[k] == y as i8;
                    if k < s1.len() {
                        assert(s[k] == s1[k]);
                        assert(s1.contains(y as i8));
                    } else {
                        assert(s[k] == lo as i8);
                    }
                }
            }
        }
    }
}

/// After `clean_lines`, no row of the board is completely occupied.
pub proof fn law_clean_lines_leaves_no_full_line(old_board: Seq<bool>, new_board: Seq<bool>)
    requires
        rows(new_board) == cleaned_rows(rows(old_board)),
    ensures
        forall|y: int| 0 <= y < BOARD_Y ==> !#[trigger] line_full(new_board, y),
{
    let rs = rows(old_board);
    lemma_keep_rows_not_full(rs);
    lemma_keep_rows_len(rs);
    let k = keep_rows(rs);
    assert forall|y: int| 0 <= y < BOARD_Y implies !#[trigger] line_full(new_board, y) by {
        lemma_line_full_row(new_board, y);
        let r = rows(new_board)[y];
        if y < k.len() {
            assert(r == k[y]);
        } else {
            assert(r == empty_row());
            assert(!r[0]);
        }
    }
}

/// `clean_lines` removes exactly as many rows as `get_clean_lines` lists:
/// the rows kept are the board's height less the full lines.
pub proof fn law_clean_lines_count(b: Seq<bool>)
    ensures
        keep_rows(rows(b)).len() == BOARD_Y - full_lines_from(b, 0).len(),
{
    lemma_full_lines_count(b, 0);
    assert(rows(b).subrange(0, BOARD_Y as int) =~= rows(b));
}

/// On a board without a full row, `clean_lines` changes nothing; so
/// cleaning twice is cleaning once.
pub proof fn law_clean_lines_idempotent(b: Seq<bool>)
    requires
        forall|y: int| 0 <= y < BOARD_Y ==> !#[trigger] line_full(b, y),
    ensures
        cleaned_rows(rows(b)) == rows(b),
{
    let rs = rows(b);
    assert forall|k: int| 0 <= k < rs.len() implies !row_full(#[trigger] rs[k]) by {
        lemma_line_full_row(b, k);
    }
    lemma_keep_rows_all(rs);
    assert(empty_rows(0) =~= Seq::<Seq<bool>>::empty());
    assert(rs + empty_rows(0) =~= rs);
}

/// `can_clean` holds exactly when `get_clean_lines` lists some line.
pub proof fn law_can_clean_iff_lines(b: Seq<bool>)
    ensures
        (exists|y: int| 0 <= y < BOARD_Y && #[trigger] line_full(b, y)) == (full_lines_from(b, 0).len()
            > 0),
{
    lemma_full_lines_count(b, 0);
}

/// `get_clean_lines` lists each full row once, from the top down: the list
/// is strictly decreasing, and a row is in it exactly when it is full.
pub proof fn law_clean_lines_listed(b: Seq<bool>)
    ensures
        forall|i: int, j: int|
            0 <= i < j < full_lines_from(b, 0).len() ==> #[trigger] full_lines_from(b, 0)[i]
                > #[trigger] full_lines_from(b, 0)[j],
        forall|y: int|
            0 <= y < BOARD_Y ==> (line_full(b, y) <==> #[trigger] full_lines_from(b, 0).contains(
                y as i8,
            )),
        forall|k: int|
            0 <= k < full_lines_from(b, 0).len() ==> 0 <= #[trigger] full_lines_from(b, 0)[k]
                < BOARD_Y,
{
    lemma_full_lines_desc(b, 0);
    lemma_full_lines_range(b, 0);
}

/// A cell marked by `occupy_dot` reads back as occupied, when it lies on
/// the board, and every other cell reads as before.
pub proof fn law_occupy_then_occupied(b: Seq<bool>, x: int, y: int, x2: int, y2: int)
    requires
        b.len() == BOARD_X_Y,
        x >= 0,
        y >= 0,
        x2 >= 0,
        y2 >= 0,
    ensures
        occupied_spec(occupy_spec(b, x, y), x, y) == (cell_index(x, y) < BOARD_X_Y),
        cell_index(x2, y2) != cell_index(x, y) ==> occupied_spec(occupy_spec(b, x, y), x2, y2)
            == occupied_spec(b, x2, y2),
{
}

/// Fixing a brick only adds occupied cells, and a brick that could stand
/// at a place below the top of the board cannot stand there again once
/// fixed there.
pub proof fn law_fixed_brick_blocks(b: Seq<bool>, ds: Seq<Dot>, o: Dot)
    requires
        b.len() == BOARD_X_Y,
        ds.len() == 4,
        all_placeable(ds, o),
        forall|k: int| 0 <= k < 4 ==> py(#[trigger] ds[k], o) < BOARD_Y,
        valid_spec(b, ds, o),
    ensures
        forall|i: int| 0 <= i < BOARD_X_Y && #[trigger] b[i] ==> occupy_brick_spec(b, ds, o)[i],
        !valid_spec(occupy_brick_spec(b, ds, o), ds, o),
{
    let b1 = occupy_spec(b, px(ds[0], o), py(ds[0], o));
    let b2 = occupy_spec(b1, px(ds[1], o), py(ds[1], o));
    let b3 = occupy_spec(b2, px(ds[2], o), py(ds[2], o));
    let b4 = occupy_spec(b3, px(ds[3], o), py(ds[3], o));
    if cell_index(px(ds[0], o), py(ds[0], o)) < BOARD_X_Y {
        assert(b1[cell_index(px(ds[0], o), py(ds[0], o))]);
        assert(b4[cell_index(px(ds[0], o), py(ds[0], o))]);
        assert(occupied_at(b4, ds[0], o));
    }
}

/// Fixing one brick within the board's columns on a board without a full
/// row fills at most four rows, one per dot: so at most four lines are ever
/// cleared at once.
pub proof fn law_one_brick_fills_at_most_four_lines(b: Seq<bool>, ds: Seq<Dot>, o: Dot)
    requires
        b.len() == BOARD_X_Y,
        ds.len() == 4,
        all_placeable(ds, o),
        brick_in_board_spec(ds, o),
        forall|y: int| 0 <= y < BOARD_Y ==> !#[trigger] line_full(b, y),
    ensures
        full_lines_from(occupy_brick_spec(b, ds, o), 0).len() <= 4,
{
    let nb = occupy_brick_spec(b, ds, o);
    let lines = full_lines_from(nb, 0);
    lemma_full_lines_desc(nb, 0);
    lemma_full_lines_range(nb, 0);
    let b1 = occupy_spec(b, px(ds[0], o), py(ds[0], o));
    let b2 = occupy_spec(b1, px(ds[1], o), py(ds[1], o));
    let b3 = occupy_spec(b2, px(ds[2], o), py(ds[2], o));
    assert forall|k: int| 0 <= k < lines.len() implies #[trigger] lines[k] == py(ds[0], o) || lines[k]
        == py(ds[1], o) || lines[k] == py(ds[2], o) || lines[k] == py(ds[3], o) by {
        let y = lines[k] as int;
        assert(0 <= y < BOARD_Y);
        assert(lines.contains(y as i8));
        assert(line_full(nb, y));
        assert(!line_full(b, y));
        let x = choose|x: int| 0 <= x < BOARD_X && !#[trigger] cell(b, x, y);
        assert(cell(nb, x, y));
        let i = cell_index(x, y);
        assert(nb[i]);
        assert(!b[i]);
        assert(i == cell_index(px(ds[0], o), py(ds[0], o)) || i == cell_index(px(ds[1], o), py(ds[1], o))
            || i == cell_index(px(ds[2], o), py(ds[2], o)) || i == cell_index(px(ds[3], o), py(ds[3], o)));
    }
    if lines.len() > 4 {
        assert(lines[0] > lines[1]);
        assert(lines[1] > lines[2]);
        assert(lines[2] > lines[3]);
        assert(lines[3] > lines[4]);
    }
}

/// How many of the rows `rs[0]`, ..., `rs[y - 1]` are completely occupied.
pub open spec fn full_rows_before(rs: Seq<Seq<bool>>, y: int) -> int
    decreases rs.len(),
{
    if y <= 0 || rs.len() == 0 {
        0
    } else {
        (if row_full(rs[0]) {
            1int
        } else {
            0int
        }) + full_rows_before(rs.drop_first(), y - 1)
    }
}

/// A row that is not full is kept by `keep_rows`, moved down by the number
/// of full rows below it.
pub proof fn lemma_keep_rows_index(rs: Seq<Seq<bool>>, y: int)
    requires
        0 <= y < rs.len(),
        !row_full(rs[y]),
    ensures
        0 <= full_rows_before(rs, y) <= y,
        y - full_rows_before(rs, y) < keep_rows(rs).len(),
        keep_rows(rs)[y - full_rows_before(rs, y)] == rs[y],
    decreases rs.len(),
{
    let h: Seq<Seq<bool>> = if row_full(rs[0]) {
        Seq::empty()
    } else {
        seq![rs[0]]
    };
    let t = keep_rows(rs.drop_first());
    assert(keep_rows(rs) == h + t);
    if y > 0 {
        assert(rs.drop_first()[y - 1] == rs[y]);
        lemma_keep_rows_index(rs.drop_first(), y - 1);
        let j = y - full_rows_before(rs, y);
        assert((h + t)[j] == t[j - h.len()]);
    }
}

/// Counts the full rows of `b` among `lo..BOARD_Y` that lie below row `y`.
pub open spec fn full_count(b: Seq<bool>, lo: int, y: int) -> int
    decreases BOARD_Y - lo,
{
    if lo >= BOARD_Y {
        0
    } else {
        (if line_full(b, lo) && lo < y {
            1int
        } else {
            0int
        }) + full_count(b, lo + 1, y)
    }
}

proof fn lemma_full_count_none_below(b: Seq<bool>, lo: int, y: int)
    requires
        y <= lo,
    ensures
        full_count(b, lo, y) == 0,
    decreases BOARD_Y - lo,
{
    if lo < BOARD_Y {
        lemma_full_count_none_below(b, lo + 1, y);
    }
}

/// The full rows below row `y` are counted the same way on the board and
/// on its list of rows.
pub proof fn lemma_full_count_rows(b: Seq<bool>, lo: int, y: int)
    requires
        0 <= lo <= BOARD_Y,
    ensures
        full_rows_before(rows(b).subrange(lo, BOARD_Y as int), y - lo) == full_count(b, lo, y),
    decreases BOARD_Y - lo,
{
    let sub = rows(b).subrange(lo, BOARD_Y as int);
    if lo < BOARD_Y {
        lemma_full_count_rows(b, lo + 1, y);
        assert(sub.drop_first() =~= rows(b).subrange(lo + 1, BOARD_Y as int));
        lemma_line_full_row(b, lo);
        if y - lo <= 0 {
            lemma_full_count_none_below(b, lo, y);
        }
    }
}

/// Number of occupied cells of the row `r`.
pub open spec fn row_count(r: Seq<bool>) -> int
    decreases r.len(),
{
    if r.len() == 0 {
        0
    } else {
        (if r[0] {
            1int
        } else {
            0int
        }) + row_count(r.drop_first())
    }
}

/// Number of occupied cells of the rows `rs`.
pub open spec fn rows_count(rs: Seq<Seq<bool>>) -> int
    decreases rs.len(),
{
    if rs.len() == 0 {
        0
    } else {
        row_count(rs[0]) + rows_count(rs.drop_first())
    }
}

/// Number of occupied cells of the board `b`, counted row by row.
pub open spec fn occupied_cells(b: Seq<bool>) -> int {
    rows_count(rows(b))
}

proof fn lemma_row_count_full(r: Seq<bool>)
    requires
        row_full(r),
    ensures
        row_count(r) == r.len(),
    decreases r.len(),
{
    if r.len() > 0 {
        assert(r[0]);
        assert forall|x: int| 0 <= x < r.drop_first().len() implies #[trigger] r.drop_first()[x] by {
            assert(r.drop_first()[x] == r[x + 1]);
        }
        lemma_row_count_full(r.drop_first());
    }
}

proof fn lemma_row_count_empty(r: Seq<bool>)
    requires
        forall|x: int| 0 <= x < r.len() ==> !#[trigger] r[x],
    ensures
        row_count(r) == 0,
    decreases r.len(),
{
    if r.len() > 0 {
        assert(!r[0]);
        assert forall|x: int| 0 <= x < r.drop_first().len() implies !#[trigger] r.drop_first()[x] by {
            assert(r.drop_first()[x] == r[x + 1]);
        }
        lemma_row_count_empty(r.drop_first());
    }
}

proof fn lemma_rows_count_concat(a: Seq<Seq<bool>>, c: Seq<Seq<bool>>)
    ensures
        rows_count(a + c) == rows_count(a) + rows_count(c),
    decreases a.len(),
{
    if a.len() == 0 {
        assert(a + c =~= c);
    } else {
        assert((a + c).drop_first() =~= a.drop_first() + c);
        assert((a + c)[0] == a[0]);
        lemma_rows_count_concat(a.drop_first(), c);
    }
}

proof fn lemma_empty_rows_count(n: nat)
    ensures
        rows_count(empty_rows(n)) == 0,
    decreases n,
{
    if n > 0 {
        assert(empty_rows(n).drop_first() =~= empty_rows((n - 1) as nat));
        lemma_row_count_empty(empty_row());
        lemma_empty_rows_count((n - 1) as nat);
    }
}

proof fn lemma_keep_rows_count(rs: Seq<Seq<bool>>)
    requires
        forall|k: int| 0 <= k < rs.len() ==> (#[trigger] rs[k]).len() == BOARD_X,
    ensures
        rows_count(rs) == rows_count(keep_rows(rs)) + BOARD_X * (rs.len() - keep_rows(rs).len()),
    decreases rs.len(),
{
    if rs.len() > 0 {
        let t = rs.drop_first();
        assert forall|k: int| 0 <= k < t.len() implies (#[trigger] t[k]).len() == BOARD_X by {
            assert(t[k] == rs[k + 1]);
        }
        lemma_keep_rows_count(t);
        let h: Seq<Seq<bool>> = if row_full(rs[0]) {
            Seq::empty()
        } else {
            seq![rs[0]]
        };
        lemma_rows_count_concat(h, keep_rows(t));
        assert(keep_rows(rs) == h + keep_rows(t));
        if row_full(rs[0]) {
            lemma_row_count_full(rs[0]);
            assert(rows_count(h) == 0);
        } else {
            assert(h.drop_first() =~= Seq::<Seq<bool>>::empty());
            assert(rows_count(Seq::<Seq<bool>>::empty()) == 0);
            assert(h[0] == rs[0]);
            assert(rows_count(h) == row_count(rs[0]));
        }
    }
}

/// `clean_lines` frees exactly ten cells for each line that
/// `get_clean_lines` lists, and moves no other cell off the board.
pub proof fn law_clean_lines_cell_count(old_board: Seq<bool>, new_board: Seq<bool>)
    requires
        rows(new_board) == cleaned_rows(rows(old_board)),
    ensures
        occupied_cells(new_board) == occupied_cells(old_board) - BOARD_X * full_lines_from(
            old_board,
            0,
        ).len(),
{
    let rs = rows(old_board);
    let k = keep_rows(rs);
    lemma_keep_rows_len(rs);
    lemma_keep_rows_count(rs);
    law_clean_lines_count(old_board);
    lemma_rows_count_concat(k, empty_rows((rs.len() - k.len()) as nat));
    lemma_empty_rows_count((rs.len() - k.len()) as nat);
}

/// Each row that `keep_rows` keeps is a row of `rs` that is not full, moved
/// down by the number of full rows below it.
pub proof fn lemma_keep_rows_origin(rs: Seq<Seq<bool>>, j: int)
    requires
        0 <= j < keep_rows(rs).len(),
    ensures
        exists|y: int|
            0 <= y < rs.len() && !row_full(rs[y]) && y - full_rows_before(rs, y) == j
                && #[trigger] keep_rows(rs)[j] == rs[y],
    decreases rs.len(),
{
    let t = rs.drop_first();
    let h: Seq<Seq<bool>> = if row_full(rs[0]) {
        Seq::empty()
    } else {
        seq![rs[0]]
    };
    assert(keep_rows(rs) == h + keep_rows(t));
    if j < h.len() {
        assert(keep_rows(rs)[j] == rs[0]);
        assert(full_rows_before(rs, 0) == 0);
    } else {
        lemma_keep_rows_origin(t, j - h.len());
        let y1 = choose|y1: int|
            0 <= y1 < t.len() && !row_full(t[y1]) && y1 - full_rows_before(t, y1) == j - h.len()
                && #[trigger] keep_rows(t)[j - h.len()] == t[y1];
        assert(t[y1] == rs[y1 + 1]);
        assert(keep_rows(rs)[j] == keep_rows(t)[j - h.len()]);
        assert(full_rows_before(rs, y1 + 1) == (if row_full(rs[0]) {
            1int
        } else {
            0int
        }) + full_rows_before(t, y1));
    }
}

/// The game board: one flag per cell, row after row from the bottom.
pub struct Board(Vec<bool>);

impl Board {
    /// The board holds exactly one flag per cell.
    pub closed spec fn wf(&self) -> bool {
        self.0@.len() == BOARD_X_Y
    }

    /// The view of a board has one entry per cell.
    pub proof fn lemma_view_len(&self)
        ensures
            self@.len() == BOARD_X_Y,
    {
    }
}

impl View for Board {
    type V = Seq<bool>;

    closed spec fn view(&self) -> Seq<bool> {
        Seq::new(BOARD_X_Y as nat, |i: int| self.0@[i])
    }
}

impl Default for Board {
    /// An empty board.
    fn default() -> (b: Self)
        ensures
            b.wf(),
            b@.len() == BOARD_X_Y,
            forall|i: int| 0 <= i < BOARD_X_Y ==> !b@[i],
    {
        let mut v: Vec<bool> = Vec::new();
        let mut i: usize = 0;
        while i < BOARD_X_Y
            invariant
                i <= BOARD_X_Y,
                v@.len() == i,
                forall|j: int| 0 <= j < i ==> !v@[j],
            decreases BOARD_X_Y - i,
        {
            v.push(false);
            i += 1;
        }
        Board(v)
    }
}

impl Board {
    fn index(dot: &Dot) -> (i: usize)
        requires
            dot.0 >= 0,
            dot.1 >= 0,
        ensures
            i == cell_index(dot.0 as int, dot.1 as int),
    {
        let x: usize = dot.0 as usize;
        let y: usize = dot.1 as usize;
        assert(x == dot.0 && y == dot.1 && y <= 127 && x <= 127);
        x + y * BOARD_X as usize
    }

    /// Marks the cell of `dot` occupied, when its flat index lies on the board.
    pub fn occupy_dot(&mut self, dot: &Dot) -> (r: &mut Self)
        requires
            old(self).wf(),
            dot.0 >= 0,
            dot.1 >= 0,
        ensures
            r.wf(),
            (*r)@ == occupy_spec(old(self)@, dot.0 as int, dot.1 as int),
            *final(self) == *final(r),
    {
        let i = Self::index(dot);
        if i < BOARD_X_Y {
            self.0.set(i, true);
        }
        proof {
            assert((*self)@ =~= occupy_spec(old(self)@, dot.0 as int, dot.1 as int));
        }
        self
    }

    /// Whether the cell of `dot` lies on the board and is occupied.
    pub fn occupied_dot(&self, dot: &Dot) -> (r: bool)
        requires
            self.wf(),
            dot.0 >= 0,
            dot.1 >= 0,
        ensures
            r == occupied_spec(self@, dot.0 as int, dot.1 as int),
    {
        let i = Self::index(dot);
        if i < BOARD_X_Y {
            self.0[i]
        } else {
            false
        }
    }

    /// Marks the cells of the four dots of `brick` placed at `orig` occupied.
    pub fn occupy_brick(&mut self, brick: &Brick, orig: &Dot)
        requires
            old(self).wf(),
            all_placeable(brick.dots@, *orig),
        ensures
            final(self).wf(),
            final(self)@ == occupy_brick_spec(old(self)@, brick.dots@, *orig),
    {
        let ghost b0 = self@;
        let mut i: usize = 0;
        while i < 4
            invariant
                0 <= i <= 4,
                self.wf(),
                all_placeable(brick.dots@, *orig),
                i == 0 ==> self@ == b0,
                i == 1 ==> self@ == occupy_spec(b0, px(brick.dots@[0], *orig), py(brick.dots@[0], *orig)),
                i == 2 ==> self@ == occupy_spec(
                    occupy_spec(b0, px(brick.dots@[0], *orig), py(brick.dots@[0], *orig)),
                    px(brick.dots@[1], *orig),
                    py(brick.dots@[1], *orig),
                ),
                i == 3 ==> self@ == occupy_spec(
                    occupy_spec(
                        occupy_spec(b0, px(brick.dots@[0], *orig), py(brick.dots@[0], *orig)),
                        px(brick.dots@[1], *orig),
                        py(brick.dots@[1], *orig),
                    ),
                    px(brick.dots@[2], *orig),
                    py(brick.dots@[2], *orig),
                ),
                i == 4 ==> self@ == occupy_brick_spec(b0, brick.dots@, *orig),
            decreases 4 - i,
        {
            self.occupy_dot(&brick.dots[i].with_orignal_dot(orig));
            i += 1;
        }
    }

    /// Marks the cells of the brick of `brick_shape` placed at `orig` occupied.
    pub fn occupy_brickshape(&mut self, brick_shape: &BrickShape, orig: &Dot)
        requires
            old(self).wf(),
            brick_shape.wf(),
            all_placeable(brick_shape.spec_dots(), *orig),
        ensures
            final(self).wf(),
            final(self)@ == occupy_brick_spec(old(self)@, brick_shape.spec_dots(), *orig),
    {
        self.occupy_brick(&brick_shape.brick(), orig)
    }

    /// Whether some dot of `brick` placed at `orig` falls on an occupied cell.
    pub fn conflict_brick(&self, brick: &Brick, orig: &Dot) -> (r: bool)
        requires
            self.wf(),
            conflict_checkable(self@, brick.dots@, *orig),
        ensures
            r == conflict_spec(self@, brick.dots@, *orig),
    {
        self.occupied_dot(&brick.dots[0].with_orignal_dot(orig))
            || self.occupied_dot(&brick.dots[1].with_orignal_dot(orig))
            || self.occupied_dot(&brick.dots[2].with_orignal_dot(orig))
            || self.occupied_dot(&brick.dots[3].with_orignal_dot(orig))
    }

    fn dot_in_board(dot: &Dot) -> (r: bool)
        ensures
            r == (0 <= dot.0 < BOARD_X && 0 <= dot.1),
    {
        0 <= dot.0 && dot.0 < BOARD_X && 0 <= dot.1
    }

    fn brick_in_board(brick: &Brick, orig: &Dot) -> (r: bool)
        requires
            in_board_checkable(brick.dots@, *orig),
        ensures
            r == brick_in_board_spec(brick.dots@, *orig),
    {
        Self::dot_in_board(&brick.dots[0].with_orignal_dot(orig))
            && Self::dot_in_board(&brick.dots[1].with_orignal_dot(orig))
            && Self::dot_in_board(&brick.dots[2].with_orignal_dot(orig))
            && Self::dot_in_board(&brick.dots[3].with_orignal_dot(orig))
    }

    /// Whether `brick` can stand at `orig`: all its dots lie within the
    /// board's columns, none below the bottom, none on an occupied cell.
    pub fn valid_brick(&self, brick: &Brick, orig: &Dot) -> (r: bool)
        requires
            self.wf(),
            in_board_checkable(brick.dots@, *orig),
        ensures
            r == valid_spec(self@, brick.dots@, *orig),
    {
        Self::brick_in_board(brick, orig) && !self.conflict_brick(brick, orig)
    }

    /// Whether the brick of `brick_shape` can stand at `orig`.
    pub fn valid_brickshape(&self, brick_shape: &BrickShape, orig: &Dot) -> (r: bool)
        requires
            self.wf(),
            brick_shape.wf(),
            in_board_checkable(brick_shape.spec_dots(), *orig),
        ensures
            r == valid_spec(self@, brick_shape.spec_dots(), *orig),
    {
        proof {
            crate::consts::lemma_shape_dots(brick_shape.0 as int, brick_shape.1 as int);
        }
        self.valid_brick(&brick_shape.brick(), orig)
    }

    /// Frees every cell.
    pub fn clear(&mut self)
        requires
            old(self).wf(),
        ensures
            final(self).wf(),
            forall|i: int| 0 <= i < BOARD_X_Y ==> !final(self)@[i],
    {
        let mut i: usize = 0;
        while i < BOARD_X_Y
            invariant
                i <= BOARD_X_Y,
                self.wf(),
                forall|j: int| 0 <= j < i ==> !self@[j],
            decreases BOARD_X_Y - i,
        {
            let ghost prev = self@;
            self.0.set(i, false);
            assert(self@ =~= prev.update(i as int, false));
            i += 1;
        }
    }

    /// Whether row `y` is completely occupied.
    pub fn can_clean_line(&self, y: i8) -> (r: bool)
        requires
            self.wf(),
            0 <= y < BOARD_Y,
        ensures
            r == line_full(self@, y as int),
    {
        let start = Self::index(&Dot(0, y));
        let mut x: usize = 0;
        while x < BOARD_X as usize
            invariant
                self.wf(),
                0 <= y < BOARD_Y,
                start == cell_index(0, y as int),
                x <= BOARD_X,
                forall|k: int| 0 <= k < x ==> #[trigger] cell(self@, k, y as int),
            decreases BOARD_X - x,
        {
            if !self.0[start + x] {
                assert(!cell(self@, x as int, y as int));
                return false;
            }
            x += 1;
        }
        true
    }

    /// Whether some row is completely occupied.
    pub fn can_clean(&self) -> (r: bool)
        requires
            self.wf(),
        ensures
            r == exists|y: int| 0 <= y < BOARD_Y && #[trigger] line_full(self@, y),
    {
        let mut y: i8 = 0;
        while y < BOARD_Y
            invariant
                self.wf(),
                0 <= y <= BOARD_Y,
                forall|k: int| 0 <= k < y ==> !#[trigger] line_full(self@, k),
            decreases BOARD_Y - y,
        {
            if self.can_clean_line(y) {
                return true;
            }
            y += 1;
        }
        false
    }

    /// Whether some cell of the rows at or above `BOARD_Y_VALIDE` is occupied.
    pub fn game_over(&self) -> (r: bool)
        requires
            self.wf(),
        ensures
            r == game_over_spec(self@),
    {
        let mut i = Self::index(&Dot(0, BOARD_Y_VALIDE));
        while i < BOARD_X_Y
            invariant
                self.wf(),
                cell_index(0, BOARD_Y_VALIDE as int) <= i <= BOARD_X_Y,
                forall|j: int| cell_index(0, BOARD_Y_VALIDE as int) <= j < i ==> !#[trigger] self@[j],
            decreases BOARD_X_Y - i,
        {
            if self.0[i] {
                assert(self@[i as int]);
                return true;
            }
            i += 1;
        }
        false
    }

    /// The completely occupied rows, from the top down.
    pub fn get_clean_lines(&self) -> (v: Vec<i8>)
        requires
            self.wf(),
        ensures
            v@ == full_lines_from(self@, 0),
    {
        let mut vec: Vec<i8> = Vec::with_capacity(4);
        let mut i: i8 = BOARD_Y;
        while i > 0
            invariant
                self.wf(),
                0 <= i <= BOARD_Y,
                vec@ == full_lines_from(self@, i as int),
            decreases i,
        {
            i -= 1;
            if self.can_clean_line(i) {
                vec.push(i);
            } else {
                assert(full_lines_from(self@, i as int) =~= full_lines_from(self@, i + 1));
            }
        }
        vec
    }

    /// Removes row `y`: the rows above it move down one row and the top row is freed.
    pub fn clean_line(&mut self, y: i8)
        requires
            old(self).wf(),
            0 <= y < BOARD_Y,
        ensures
            final(self).wf(),
            final(self)@ == clean_line_spec(old(self)@, y as int),
    {
        let ghost b0 = self@;
        let dst_below = Self::index(&Dot(0, y));
        let src_high = BOARD_X_Y;
        let top = Self::index(&Dot(0, BOARD_Y - 1));
        // step 1: copy the rows above `y` one row down
        let mut i: usize = dst_below;
        while i < top
            invariant
                self.wf(),
                b0.len() == BOARD_X_Y,
                dst_below == cell_index(0, y as int),
                top == cell_index(0, BOARD_Y - 1),
                src_high == BOARD_X_Y,
                dst_below <= i <= top,
                forall|j: int| 0 <= j < i ==> #[trigger] self@[j] == clean_line_spec(b0, y as int)[j],
                forall|j: int| i <= j < BOARD_X_Y ==> #[trigger] self@[j] == b0[j],
            decreases top - i,
        {
            let ghost prev = self@;
            let v = self.0[i + BOARD_X as usize];
            assert(v == prev[i + BOARD_X]);
            assert(v == b0[i + BOARD_X]);
            assert(clean_line_spec(b0, y as int)[i as int] == b0[i + BOARD_X]);
            self.0.set(i, v);
            assert(self@ =~= prev.update(i as int, v));
            i += 1;
        }
        // step 2: free the top row
        while i < src_high
            invariant
                self.wf(),
                b0.len() == BOARD_X_Y,
                top == cell_index(0, BOARD_Y - 1),
                src_high == BOARD_X_Y,
                0 <= y < BOARD_Y,
                top <= i <= BOARD_X_Y,
                forall|j: int| 0 <= j < i ==> #[trigger] self@[j] == clean_line_spec(b0, y as int)[j],
            decreases src_high - i,
        {
            let ghost prev = self@;
            assert(clean_line_spec(b0, y as int)[i as int] == false);
            self.0.set(i, false);
            assert(self@ =~= prev.update(i as int, false));
            i += 1;
        }
        assert(self@ =~= clean_line_spec(b0, y as int));
    }

    /// Removes every completely occupied row; the rows above move down and
    /// free rows fill the top.
    pub fn clean_lines(&mut self)
        requires
            old(self).wf(),
        ensures
            final(self).wf(),
            rows(final(self)@) == cleaned_rows(rows(old(self)@)),
    {
        let ghost b0 = self@;
        let ghost rs0 = rows(b0);
        let deleted_lines = self.get_clean_lines();
        proof {
            lemma_full_lines_range(b0, 0);
            lemma_remove_full_lines(b0, 0);
        }
        let mut j: usize = 0;
        while j < deleted_lines.len()
            invariant
                self.wf(),
                b0.len() == BOARD_X_Y,
                rs0 == rows(b0),
                j <= deleted_lines@.len(),
                deleted_lines@ == full_lines_from(b0, 0),
                forall|k: int|
                    0 <= k < deleted_lines@.len() ==> 0 <= #[trigger] deleted_lines@[k] < BOARD_Y,
                rows(self@) == remove_rows(rs0, deleted_lines@.take(j as int)),
            decreases deleted_lines@.len() - j,
        {
            let line = deleted_lines[j];
            let ghost prev = self@;
            self.clean_line(line);
            proof {
                lemma_clean_line_rows(prev, line as int);
                assert(deleted_lines@.take(j + 1).drop_last() =~= deleted_lines@.take(j as int));
            }
            j += 1;
        }
        proof {
            assert(deleted_lines@.take(j as int) =~= deleted_lines@);
            assert(rs0.subrange(0, 0) + keep_rows(rs0.subrange(0, BOARD_Y as int)) =~= keep_rows(
                rs0,
            )) by {
                assert(rs0.subrange(0, BOARD_Y as int) =~= rs0);
            }
        }
    }
}

} // verus!
