use std::collections::HashSet;
use sudoku::candidates::generate_possible_numbers;
use sudoku::constraint::{check_block, check_column, check_row};
use sudoku::grid::{empty, GameGrid};
use sudoku::search::{next_empty_cell, play, search};
use sudoku::solve::solve_sudoku;
use sudoku::validate::is_valid_solution;

const BLANK: GameGrid = [[0; 9]; 9];

const EASY: GameGrid = [
    [5, 3, 0, 0, 7, 0, 0, 0, 0],
    [6, 0, 0, 1, 9, 5, 0, 0, 0],
    [0, 9, 8, 0, 0, 0, 0, 6, 0],
    [8, 0, 0, 0, 6, 0, 0, 0, 3],
    [4, 0, 0, 8, 0, 3, 0, 0, 1],
    [7, 0, 0, 0, 2, 0, 0, 0, 6],
    [0, 6, 0, 0, 0, 0, 2, 8, 0],
    [0, 0, 0, 4, 1, 9, 0, 0, 5],
    [0, 0, 0, 0, 8, 0, 0, 7, 9],
];

const EASY_SOLVED: GameGrid = [
    [5, 3, 4, 6, 7, 8, 9, 1, 2],
    [6, 7, 2, 1, 9, 5, 3, 4, 8],
    [1, 9, 8, 3, 4, 2, 5, 6, 7],
    [8, 5, 9, 7, 6, 1, 4, 2, 3],
    [4, 2, 6, 8, 5, 3, 7, 9, 1],
    [7, 1, 3, 9, 2, 4, 8, 5, 6],
    [9, 6, 1, 5, 3, 7, 2, 8, 4],
    [2, 8, 7, 4, 1, 9, 6, 3, 5],
    [3, 4, 5, 2, 8, 6, 1, 7, 9],
];

const HARD: GameGrid = [
    [8, 0, 0, 0, 0, 0, 0, 0, 0],
    [0, 0, 3, 6, 0, 0, 0, 0, 0],
    [0, 7, 0, 0, 9, 0, 2, 0, 0],
    [0, 5, 0, 0, 0, 7, 0, 0, 0],
    [0, 0, 0, 0, 4, 5, 7, 0, 0],
    [0, 0, 0, 1, 0, 0, 0, 3, 0],
    [0, 0, 1, 0, 0, 0, 0, 6, 8],
    [0, 0, 8, 5, 0, 0, 0, 1, 0],
    [0, 9, 0, 0, 0, 0, 4, 0, 0],
];

const HARD_SOLVED: GameGrid = [
    [8, 1, 2, 7, 5, 3, 6, 4, 9],
    [9, 4, 3, 6, 8, 2, 1, 7, 5],
    [6, 7, 5, 4, 9, 1, 2, 8, 3],
    [1, 5, 4, 2, 3, 7, 8, 9, 6],
    [3, 6, 9, 8, 4, 5, 7, 2, 1],
    [2, 8, 7, 1, 6, 9, 5, 3, 4],
    [5, 2, 1, 9, 7, 4, 3, 6, 8],
    [4, 3, 8, 5, 2, 6, 9, 1, 7],
    [7, 9, 6, 3, 1, 8, 4, 5, 2],
];

/// The first board that the search reaches from a blank one.
const FIRST_BOARD: GameGrid = [
    [1, 2, 3, 4, 5, 6, 7, 8, 9],
    [4, 5, 6, 7, 8, 9, 1, 2, 3],
    [7, 8, 9, 1, 2, 3, 4, 5, 6],
    [2, 1, 4, 3, 6, 5, 8, 9, 7],
    [3, 6, 5, 8, 9, 7, 2, 1, 4],
    [8, 9, 7, 2, 1, 4, 3, 6, 5],
    [5, 3, 1, 6, 4, 2, 9, 7, 8],
    [6, 4, 2, 9, 7, 8, 5, 3, 1],
    [9, 7, 8, 5, 3, 1, 6, 4, 2],
];

fn set_of(digits: &[usize]) -> HashSet<usize> {
    digits.iter().copied().collect()
}

fn count_empty(game: &GameGrid) -> usize {
    game.iter().flatten().filter(|v| **v == 0).count()
}

#[test]
fn check_row_collects_the_placed_digits() {
    let mut found = HashSet::new();
    check_row(EASY, &mut found, 0);
    assert_eq!(found, set_of(&[5, 3, 7]));
}

#[test]
fn check_row_of_a_blank_row_adds_nothing() {
    let mut found = HashSet::new();
    check_row(BLANK, &mut found, 4);
    assert!(found.is_empty());
}

#[test]
fn check_row_of_a_full_row_has_nine_digits() {
    let mut found = HashSet::new();
    check_row(EASY_SOLVED, &mut found, 8);
    assert_eq!(found, set_of(&[1, 2, 3, 4, 5, 6, 7, 8, 9]));
}

#[test]
fn check_column_collects_the_placed_digits() {
    let mut found = HashSet::new();
    check_column(EASY, &mut found, 0);
    assert_eq!(found, set_of(&[5, 6, 8, 4, 7]));
    let mut last = HashSet::new();
    check_column(EASY, &mut last, 8);
    assert_eq!(last, set_of(&[3, 1, 6, 5, 9]));
}

#[test]
fn check_block_rounds_the_cell_down_to_its_block() {
    // Every cell of the bottom-left block names the same block.
    for row in 6..9 {
        for col in 0..3 {
            let mut found = HashSet::new();
            check_block(EASY, &mut found, row, col);
            assert_eq!(found, set_of(&[6]));
        }
    }
    let mut centre = HashSet::new();
    check_block(EASY, &mut centre, 4, 4);
    assert_eq!(centre, set_of(&[6, 8, 3, 2]));
    let mut corner = HashSet::new();
    check_block(EASY, &mut corner, 7, 1);
    assert_eq!(corner, set_of(&[6]));
    let mut top_right = HashSet::new();
    check_block(EASY, &mut top_right, 2, 6);
    assert_eq!(top_right, set_of(&[6]));
}

#[test]
fn checks_add_to_what_the_set_already_holds() {
    let mut found = set_of(&[42]);
    check_row(EASY, &mut found, 1);
    assert_eq!(found, set_of(&[42, 6, 1, 9, 5]));
    check_column(EASY, &mut found, 1);
    assert_eq!(found, set_of(&[42, 6, 1, 9, 5, 3]));
    check_block(EASY, &mut found, 8, 8);
    assert_eq!(found, set_of(&[42, 6, 1, 9, 5, 3, 2, 8, 7]));
}

#[test]
fn candidates_are_the_digits_not_yet_used() {
    // Row 0 holds 1, 2, 3; column 8 holds 4, 5; the top-right block holds 6.
    let mut game = BLANK;
    game[0][0] = 1;
    game[0][1] = 2;
    game[0][2] = 3;
    game[4][8] = 4;
    game[8][8] = 5;
    game[1][6] = 6;
    assert_eq!(generate_possible_numbers(game, 0, 8), set_of(&[7, 8, 9]));
}

#[test]
fn candidates_of_a_cell_on_a_blank_board_are_all_nine() {
    assert_eq!(
        generate_possible_numbers(BLANK, 3, 5),
        set_of(&[1, 2, 3, 4, 5, 6, 7, 8, 9])
    );
}

#[test]
fn candidates_can_be_none() {
    // The last cell of row 0 needs a 9, and column 8 already has one.
    let mut game = BLANK;
    for col in 0..8 {
        game[0][col] = col + 1;
    }
    game[5][8] = 9;
    assert!(generate_possible_numbers(game, 0, 8).is_empty());
}

#[test]
fn candidates_of_the_first_cells_of_the_easy_puzzle() {
    assert_eq!(generate_possible_numbers(EASY, 0, 2), set_of(&[1, 2, 4]));
    assert_eq!(generate_possible_numbers(EASY, 4, 4), set_of(&[5]));
}

#[test]
fn candidates_ignore_values_above_nine() {
    let mut game = BLANK;
    game[0][0] = 12;
    assert_eq!(
        generate_possible_numbers(game, 0, 1),
        set_of(&[1, 2, 3, 4, 5, 6, 7, 8, 9])
    );
}

#[test]
fn next_empty_cell_scans_row_by_row() {
    assert_eq!(next_empty_cell(BLANK), Some((0, 0)));
    assert_eq!(next_empty_cell(EASY), Some((0, 2)));
    let mut game = EASY_SOLVED;
    game[8][8] = 0;
    assert_eq!(next_empty_cell(game), Some((8, 8)));
    game[3][7] = 0;
    game[4][0] = 0;
    assert_eq!(next_empty_cell(game), Some((3, 7)));
}

#[test]
fn next_empty_cell_of_a_full_board_is_none() {
    assert_eq!(next_empty_cell(EASY_SOLVED), None);
}

#[test]
fn empty_tells_a_blank_board_from_any_other() {
    assert!(empty(BLANK));
    assert!(!empty(EASY));
    let mut game = BLANK;
    game[8][8] = 1;
    assert!(!empty(game));
    let mut other = BLANK;
    other[0][0] = 9;
    assert!(!empty(other));
}

#[test]
fn easy_puzzle_is_solved_and_valid() {
    let mut game = EASY;
    assert!(play(&mut game));
    assert_eq!(game, EASY_SOLVED);
    assert!(is_valid_solution(game));
}

#[test]
fn hard_puzzle_is_solved_and_valid() {
    let mut game = HARD;
    assert!(play(&mut game));
    assert_eq!(game, HARD_SOLVED);
    assert!(is_valid_solution(game));
}

#[test]
fn search_and_play_agree() {
    for puzzle in [BLANK, EASY, EASY_SOLVED, HARD] {
        let mut played = puzzle;
        let mut searched = puzzle;
        let solved = play(&mut played);
        let (found, _) = search(&mut searched);
        assert!(solved);
        assert!(found);
        assert_eq!(played, searched);
    }
    let mut stuck = EASY;
    stuck[0][2] = 1;
    let mut again = stuck;
    let (found, _) = search(&mut stuck);
    assert!(!found);
    assert!(!play(&mut again));
    assert_eq!(stuck, again);
}

#[test]
fn search_keeps_the_given_digits() {
    let mut game = HARD;
    assert!(play(&mut game));
    for row in 0..9 {
        for col in 0..9 {
            if HARD[row][col] != 0 {
                assert_eq!(game[row][col], HARD[row][col]);
            }
        }
    }
}

#[test]
fn search_leaves_no_empty_cell() {
    let mut game = EASY;
    assert_eq!(count_empty(&game), 51);
    assert!(play(&mut game));
    assert_eq!(count_empty(&game), 0);
}

#[test]
fn placing_a_digit_leaves_one_empty_cell_fewer() {
    let mut game = EASY;
    let before = count_empty(&game);
    let (row, col) = next_empty_cell(game).unwrap();
    game[row][col] = 1;
    assert_eq!(count_empty(&game), before - 1);
    assert_eq!(next_empty_cell(game), Some((0, 3)));
}

#[test]
fn search_takes_the_first_board_in_scan_order() {
    let mut game = BLANK;
    assert!(play(&mut game));
    assert_eq!(game, FIRST_BOARD);
    assert!(is_valid_solution(game));
}

#[test]
fn search_prefers_the_smaller_digit_where_two_boards_fit() {
    // With these four cells blank the board can be finished in two ways:
    // as it was, or with the 1s and 2s exchanged.
    let mut game = FIRST_BOARD;
    game[0][0] = 0;
    game[0][1] = 0;
    game[3][0] = 0;
    game[3][1] = 0;
    let mut other = FIRST_BOARD;
    other[0][0] = 2;
    other[0][1] = 1;
    other[3][0] = 1;
    other[3][1] = 2;
    assert!(is_valid_solution(other));
    assert!(play(&mut game));
    assert_eq!(game, FIRST_BOARD);
}

#[test]
fn full_valid_board_is_solved_at_once() {
    let mut game = EASY_SOLVED;
    assert!(is_valid_solution(game));
    assert!(play(&mut game));
    assert_eq!(game, EASY_SOLVED);
}

#[test]
fn full_board_with_a_repeat_counts_as_searched_but_not_valid() {
    let mut game = EASY_SOLVED;
    game[0][0] = 3;
    assert!(play(&mut game));
    assert_eq!(game[0], [3, 3, 4, 6, 7, 8, 9, 1, 2]);
    assert!(!is_valid_solution(game));
}

#[test]
fn dead_end_at_the_first_cell_fails_and_changes_nothing() {
    let mut game = BLANK;
    for col in 0..8 {
        game[0][col] = col + 1;
    }
    game[5][8] = 9;
    let before = game;
    assert!(!play(&mut game));
    assert_eq!(game, before);
}

#[test]
fn failed_search_restores_the_board() {
    // The easy puzzle with a 1 that clashes with nothing, but admits no
    // solution: the search backtracks through hundreds of boards.
    let mut game = EASY;
    game[0][2] = 1;
    let before = game;
    assert!(!play(&mut game));
    assert_eq!(game, before);
    assert!(!is_valid_solution(game));
}

#[test]
fn validation_gives_the_same_answer_each_time() {
    for game in [BLANK, EASY, EASY_SOLVED, HARD, HARD_SOLVED] {
        let first = is_valid_solution(game);
        assert_eq!(is_valid_solution(game), first);
        assert_eq!(is_valid_solution(game), first);
    }
}

#[test]
fn validation_accepts_solved_boards() {
    assert!(is_valid_solution(EASY_SOLVED));
    assert!(is_valid_solution(HARD_SOLVED));
    assert!(is_valid_solution(FIRST_BOARD));
}

#[test]
fn validation_rejects_unfinished_boards() {
    assert!(!is_valid_solution(BLANK));
    assert!(!is_valid_solution(EASY));
    let mut game = EASY_SOLVED;
    game[8][8] = 0;
    assert!(!is_valid_solution(game));
}

#[test]
fn validation_rejects_a_repeat_in_a_row() {
    let mut game = EASY_SOLVED;
    game[0][0] = 3;
    assert!(!is_valid_solution(game));
}

#[test]
fn validation_rejects_a_repeat_in_a_column_only() {
    // Rows that are each a shifted 1..9: every row is fine, no column is.
    let mut game = BLANK;
    for row in 0..9 {
        for col in 0..9 {
            game[row][col] = col + 1;
        }
    }
    assert!(!is_valid_solution(game));
}

#[test]
fn validation_rejects_a_repeat_in_a_block_only() {
    // Each row is the one above shifted by one: rows and columns are fine,
    // every block repeats digits.
    let mut game = BLANK;
    for row in 0..9 {
        for col in 0..9 {
            game[row][col] = (row + col) % 9 + 1;
        }
    }
    assert!(!is_valid_solution(game));
}

#[test]
fn validation_looks_at_every_block() {
    // Swapping two rows inside a band keeps rows, columns and blocks right.
    let mut game = EASY_SOLVED;
    game.swap(6, 7);
    assert!(is_valid_solution(game));
    // Swapping two cells of one row breaks two columns.
    let mut broken = EASY_SOLVED;
    broken[8].swap(7, 8);
    assert!(!is_valid_solution(broken));
}

#[test]
fn validation_rejects_rows_swapped_across_bands() {
    // Rows and columns stay right when two rows of different bands change
    // places; the blocks of both bands break.
    let mut game = FIRST_BOARD;
    game.swap(4, 7);
    let rows_ok = (0..9).all(|r| {
        let mut seen = HashSet::new();
        check_row(game, &mut seen, r);
        seen.len() == 9
    });
    let columns_ok = (0..9).all(|c| {
        let mut seen = HashSet::new();
        check_column(game, &mut seen, c);
        seen.len() == 9
    });
    assert!(rows_ok && columns_ok);
    assert!(!is_valid_solution(game));
}

#[test]
fn validation_counts_values_above_nine_as_digits() {
    // Nine different values in every row, column and block, one of them 10
    // throughout.
    let mut game = EASY_SOLVED;
    for row in 0..9 {
        for col in 0..9 {
            if game[row][col] == 9 {
                game[row][col] = 10;
            }
        }
    }
    assert!(is_valid_solution(game));
}

#[test]
fn solve_sudoku_reports_search_and_validation() {
    let outcome = solve_sudoku(EASY);
    assert!(outcome.solved);
    assert!(outcome.valid);
    assert_eq!(outcome.board, EASY_SOLVED);
}

#[test]
fn solve_sudoku_leaves_an_unsolvable_puzzle_as_given() {
    let mut game = EASY;
    game[0][2] = 1;
    let outcome = solve_sudoku(game);
    assert!(!outcome.solved);
    assert!(!outcome.valid);
    assert_eq!(outcome.board, game);
}

#[test]
fn solve_sudoku_on_clashing_givens_is_solved_but_not_valid() {
    let mut game = EASY_SOLVED;
    game[0][0] = 3;
    let outcome = solve_sudoku(game);
    assert!(outcome.solved);
    assert!(!outcome.valid);
    assert_eq!(outcome.board, game);
}
