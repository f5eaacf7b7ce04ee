//! A solver for standard 9×9 Sudoku puzzles: exhaustive backtracking over
//! the empty cells, guided by the digits each row, column and block still
//! admits, together with a validator for finished boards.

pub mod candidates;
pub mod completion;
pub mod constraint;
pub mod grid;
pub mod input;
pub mod laws;
pub mod render;
pub mod search;
pub mod solve;
pub mod validate;
