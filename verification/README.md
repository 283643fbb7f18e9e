# tetris

The rules of a falling-blocks game, verified with Verus, and the bevy
window that plays it.

- `src/` is the library. `bricks` holds the cells, the bricks, their
  shapes and the board (placing bricks, testing where they fit, finding
  and clearing full rows); `consts` the board's size and the table of
  the seven bricks and their rotations; `speeds` the scoring and level
  rules; `states` the score, line and level counters and the start key;
  `inputs` the decision of how the falling brick moves on each tick;
  `tetrom` what follows a move: fixing a brick, clearing lines, ending
  the game, bringing the next brick. Each public function states what it
  returns or changes; the `law_*` proof functions state properties that
  span several functions (cleared boards have no full row, the falling
  brick always stands where it can, the dots shown on screen follow the
  rows of the board, and so on).
- `tests/` runs the library on concrete boards and moves.
- `app/` is the bevy program: it reads the keyboard and the timers, draws
  the board, and calls the library for every decision. The fall delay of
  each level is computed there, in floating point.
