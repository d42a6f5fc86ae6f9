//! Game-state engine for a two-player, three-by-three grid game.
//!
//! Players alternate placing their marks on a shared board until one of them
//! completes an unbroken line of three identical marks along a row, column,
//! or diagonal, or the board fills without such a line (a draw).
//!
//! The crate owns the board representation, line detection, turn progression,
//! and move legality; rendering and raw input handling are left to callers,
//! which submit already-resolved `(row, col)` moves and read back snapshots.

pub mod board;
pub mod game_state;
pub mod players;
