//! One puzzle from start to finish: search, then validation, and the words
//! that report both.

use crate::completion::{completes, first_completion, solvable};
use crate::grid::{well_formed, GameGrid};
use crate::laws::{
    consistent, lemma_completion_valid_iff_consistent, lemma_valid_is_full_and_consistent,
};
use crate::render::{board_text, render_board};
use crate::search::play;
use crate::validate::{is_valid_solution, valid_solution};
use vstd::prelude::*;
use vstd::string::StringExecFns;

verus! {

/// What became of a puzzle.
#[derive(Debug, Clone, Copy)]
pub struct Outcome {
    /// The board after the search: filled if the search succeeded, the
    /// puzzle as it was given if not.
    pub board: GameGrid,
    /// Whether the search filled every empty cell.
    pub solved: bool,
    /// Whether `board` passes validation.
    pub valid: bool,
}

/// Searches for a solution of the puzzle and validates what the search
/// leaves behind.
///
/// A search that succeeds on a puzzle whose givens do not clash always
/// leaves a valid board; one that fails never does.
pub fn solve_sudoku(game: GameGrid) -> (outcome: Outcome)
    ensures
        outcome.solved == solvable(game),
        outcome.solved ==> first_completion(game, outcome.board),
        !outcome.solved ==> outcome.board == game,
        outcome.valid == valid_solution(outcome.board),
        outcome.valid == (outcome.solved && consistent(game)),
        well_formed(game) ==> well_formed(outcome.board),
{
    let mut game = game;
    let ghost given = game;
    let solved = play(&mut game);
    let valid = is_valid_solution(game);
    proof {
        if solved {
            lemma_completion_valid_iff_consistent(given, game);
        } else {
            lemma_valid_is_full_and_consistent(game);
            if valid {
                assert(completes(game, game));
            }
        }
    }
    Outcome { board: game, solved, valid }
}

/// The text that introduces a puzzle: a heading, the board, and a line of
/// 33 dashes.
pub open spec fn puzzle_text(g: GameGrid) -> Seq<char> {
    "The input puzzle is:\n"@ + board_text(g) + "---------------------------------\n"@
}

/// The text that reports an outcome: whether a solution was found, whether
/// the board shown is valid, and the board.
pub open spec fn outcome_text(outcome: Outcome) -> Seq<char> {
    (if outcome.solved {
        "The sudoku puzzle has a solution!\n"@
    } else {
        "The sudoku puzzle is NOT solved!\n"@
    }) + (if outcome.valid {
        "The solution shown below IS valid:\n"@
    } else {
        "The solution shown below is NOT valid\n"@
    }) + board_text(outcome.board)
}

/// Introduces a puzzle before it is solved.
pub fn announce(game: GameGrid) -> (text: String)
    ensures
        text@ == puzzle_text(game),
{
    let mut text = String::new();
    text.append("The input puzzle is:\n");
    text.append(render_board(game).as_str());
    text.append("---------------------------------\n");
    text
}

impl Outcome {
    /// Reports the outcome to the user.
    pub fn report(&self) -> (text: String)
        ensures
            text@ == outcome_text(*self),
    {
        let mut text = String::new();
        if self.solved {
            text.append("The sudoku puzzle has a solution!\n");
        } else {
            text.append("The sudoku puzzle is NOT solved!\n");
        }
        if self.valid {
            text.append("The solution shown below IS valid:\n");
        } else {
            text.append("The solution shown below is NOT valid\n");
        }
        text.append(render_board(self.board).as_str());
        text
    }
}

} // verus!
