//! Decision engine for an "Ultimate Tic-Tac-Toe" game: a 3x3 board of 3x3
//! boards, where the cell played determines which sub-board the opponent
//! must play in next.
//!
//! The crate holds the composite board model with its cached derived state,
//! the move-legality rules (including the forced "active sub-board" rule),
//! and the exhaustive minimax search that picks a move for the computer
//! player. Rendering and the interactive event loop live outside.

pub mod board;
pub mod game;
pub mod position;
pub mod search;
