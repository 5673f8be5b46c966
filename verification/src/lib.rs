//! Rules engine for Ultimate Tic-Tac-Toe: nine 3x3 sub-boards arranged in a
//! 3x3 super-grid, where the cell played in one sub-board forces which
//! sub-board the opponent must play in next.

pub mod board;
