//! Scoring and level rules. The fall delay of a level is computed in
//! floating point and lives with the game loop.

use vstd::prelude::*;

verus! {

/// Points per level for clearing 1, 2, 3 or 4 lines at once.
pub open spec fn score_table(erase_lines: int) -> int {
    if erase_lines == 1 {
        40
    } else if erase_lines == 2 {
        100
    } else if erase_lines == 3 {
        300
    } else {
        1200
    }
}

/// The level reached after `total_lines` cleared lines: one more every ten
/// lines, starting at 1 and capped at 99.
pub open spec fn level_spec(total_lines: int) -> int {
    if 1 + total_lines / 10 <= 99 {
        1 + total_lines / 10
    } else {
        99
    }
}

/// Score for clearing `erase_lines` lines at once at level `level`
/// (the Nintendo scoring system: 40, 100, 300 or 1200 times the level).
pub fn get_score(level: u32, erase_lines: u32) -> (s: u32)
    requires
        0 < erase_lines <= 4,
        score_table(erase_lines as int) * level <= u32::MAX,
    ensures
        s == score_table(erase_lines as int) * level,
{
    let table: [u32; 4] = [40, 100, 300, 1200];
    let base = table[(erase_lines - 1) as usize];
    base * level
}

/// Level after `total_lines` cleared lines: one more every ten lines, from 1 up to 99.
pub fn get_level(total_lines: u32) -> (l: u32)
    ensures
        l == level_spec(total_lines as int),
{
    let level = 1 + total_lines / 10;
    if level <= 99 {
        level
    } else {
        99
    }
}

/// Levels start at 1, never pass 99, and never go down as lines add up.
pub proof fn law_level_monotone(a: int, b: int)
    requires
        0 <= a <= b,
    ensures
        1 <= level_spec(a) <= level_spec(b) <= 99,
{
    assert(a / 10 <= b / 10) by (nonlinear_arith)
        requires
            0 <= a <= b,
    ;
}

/// At every level a game reaches (from 1 up), clearing more lines at once
/// scores more, and a single line at the first level scores 40.
pub proof fn law_score_grows_with_lines(n: int, m: int, level: int)
    requires
        1 <= n < m <= 4,
        level >= level_spec(0),
    ensures
        score_table(n) * level < score_table(m) * level,
        score_table(1) * level_spec(0) == 40,
{
    assert(score_table(n) < score_table(m));
    assert(score_table(n) * level < score_table(m) * level) by (nonlinear_arith)
        requires
            score_table(n) < score_table(m),
            level > 0,
    ;
}

} // verus!
