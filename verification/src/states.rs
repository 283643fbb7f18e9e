//! The game's phase and its score, line and level counters.

use vstd::prelude::*;
use crate::bricks::Board;
use crate::consts::BOARD_X_Y;
use crate::speeds::{get_level, get_score, level_spec, score_table};

verus! {

/// Phase of the game: waiting for the first start, running, or over.
#[derive(Copy, Clone, Debug, PartialEq, Eq, Structural)]
pub enum GameState {
    Start,
    Playing,
    GameOver,
}

/// What a press of the start key did.
#[derive(Copy, Clone, Debug, PartialEq, Eq, Structural)]
pub enum SpaceOutcome {
    /// Nothing: the key was not pressed, or a game is running.
    Ignored,
    /// The first game started.
    Started,
    /// A new game started after a game over: the board and counters were reset.
    Restarted,
}

/// Score, cleared lines, level and phase of the game.
pub struct GameData {
    score: u32,
    lines: u32,
    level: u32,
    game_state: GameState,
}

impl Default for GameData {
    /// A game not yet started: no score, no lines, at the first level.
    fn default() -> (d: Self)
        ensures
            d.spec_score() == 0,
            d.spec_lines() == 0,
            d.spec_level() == level_spec(0),
            d.spec_game_state() == GameState::Start,
    {
        Self { score: 0, lines: 0, level: get_level(0), game_state: GameState::Start }
    }
}

impl GameData {
    /// The phase of the game.
    pub closed spec fn spec_game_state(&self) -> GameState {
        self.game_state
    }

    /// The score.
    pub closed spec fn spec_score(&self) -> u32 {
        self.score
    }

    /// The number of cleared lines.
    pub closed spec fn spec_lines(&self) -> u32 {
        self.lines
    }

    /// The level.
    pub closed spec fn spec_level(&self) -> u32 {
        self.level
    }

    /// The phase of the game.
    pub fn game_state(&self) -> (r: GameState)
        ensures
            r == self.spec_game_state(),
    {
        self.game_state
    }

    /// Ends the game: the phase becomes `GameOver`, the counters stay.
    pub fn end_game(&mut self)
        ensures
            final(self).spec_game_state() == GameState::GameOver,
            final(self).spec_score() == old(self).spec_score(),
            final(self).spec_lines() == old(self).spec_lines(),
            final(self).spec_level() == old(self).spec_level(),
    {
        self.game_state = GameState::GameOver;
    }

    /// The score.
    pub fn score(&self) -> (r: u32)
        ensures
            r == self.spec_score(),
    {
        self.score
    }

    /// The number of cleared lines.
    pub fn lines(&self) -> (r: u32)
        ensures
            r == self.spec_lines(),
    {
        self.lines
    }

    /// The level.
    pub fn level(&self) -> (r: u32)
        ensures
            r == self.spec_level(),
    {
        self.level
    }

    /// The score as shown on screen: its last six digits.
    pub fn shown_score(&self) -> (r: u32)
        ensures
            r == self.spec_score() % 1000000,
    {
        self.score % 1000000
    }

    /// The cleared lines as shown on screen: their last six digits.
    pub fn shown_lines(&self) -> (r: u32)
        ensures
            r == self.spec_lines() % 1000000,
    {
        self.lines % 1000000
    }

    /// The level as shown on screen: its last two digits.
    pub fn shown_level(&self) -> (r: u32)
        ensures
            r == self.spec_level() % 100,
    {
        self.level % 100
    }

    /// Adds `score` points.
    pub fn add_score(&mut self, score: u32)
        requires
            old(self).spec_score() + score <= u32::MAX,
        ensures
            final(self).spec_score() == old(self).spec_score() + score,
            final(self).spec_lines() == old(self).spec_lines(),
            final(self).spec_level() == old(self).spec_level(),
            final(self).spec_game_state() == old(self).spec_game_state(),
    {
        self.score += score;
    }

    /// Counts `lines` lines cleared at once: scores them at the current
    /// level, adds them to the total and recomputes the level from it.
    /// Returns whether the level changed.
    pub fn add_lines(&mut self, lines: u32) -> (changed: bool)
        requires
            0 < lines <= 4,
            old(self).spec_score() + score_table(lines as int) * old(self).spec_level() <= u32::MAX,
            old(self).spec_lines() + lines <= u32::MAX,
        ensures
            final(self).spec_score() == old(self).spec_score() + score_table(lines as int) * old(
                self,
            ).spec_level(),
            final(self).spec_lines() == old(self).spec_lines() + lines,
            final(self).spec_level() == level_spec(final(self).spec_lines() as int),
            final(self).spec_game_state() == old(self).spec_game_state(),
            changed == (old(self).spec_level() != final(self).spec_level()),
    {
        let previous_level = self.level;
        self.score += get_score(self.level, lines);
        self.lines += lines;
        self.level = get_level(self.lines);
        previous_level != self.level
    }

    /// Handles the start key: from the start screen the game begins; after
    /// a game over the board is cleared, the counters reset and a new game
    /// begins; while playing, or when the key is not pressed, nothing changes.
    pub fn handle_game_state(&mut self, board: &mut Board, space_pressed: bool) -> (o: SpaceOutcome)
        requires
            old(board).wf(),
        ensures
            final(board).wf(),
            o == (if !space_pressed || old(self).spec_game_state() == GameState::Playing {
                SpaceOutcome::Ignored
            } else if old(self).spec_game_state() == GameState::Start {
                SpaceOutcome::Started
            } else {
                SpaceOutcome::Restarted
            }),
            o == SpaceOutcome::Ignored ==> *final(self) == *old(self) && final(board)@ == old(board)@,
            o == SpaceOutcome::Started ==> final(self).spec_game_state() == GameState::Playing
                && final(self).spec_score() == old(self).spec_score()
                && final(self).spec_lines() == old(self).spec_lines()
                && final(self).spec_level() == old(self).spec_level()
                && final(board)@ == old(board)@,
            o == SpaceOutcome::Restarted ==> final(self).spec_game_state() == GameState::Playing
                && final(self).spec_score() == 0 && final(self).spec_lines() == 0
                && final(self).spec_level() == level_spec(0)
                && forall|i: int| 0 <= i < BOARD_X_Y ==> !#[trigger] final(board)@[i],
    {
        if !space_pressed {
            return SpaceOutcome::Ignored;
        }
        match self.game_state {
            GameState::Start => {
                self.game_state = GameState::Playing;
                SpaceOutcome::Started
            },
            GameState::Playing => SpaceOutcome::Ignored,
            GameState::GameOver => {
                board.clear();
                self.score = 0;
                self.lines = 0;
                self.level = get_level(0);
                self.game_state = GameState::Playing;
                SpaceOutcome::Restarted
            },
        }
    }
}

} // verus!
