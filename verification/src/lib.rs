//! The rules of a falling-blocks game: the board of fixed cells, the
//! seven brick shapes and their rotations, the scoring and level rules,
//! and the decisions taken on each tick of the game loop.

pub mod consts;
pub mod bricks;
pub mod speeds;
pub mod states;
pub mod inputs;
pub mod tetrom;
