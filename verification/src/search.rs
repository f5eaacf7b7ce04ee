//! Depth-first search with undo over the empty cells of a board.

use crate::candidates::{candidates, generate_possible_numbers};
use crate::completion::{
    agree_before, completes, first_completion, lemma_candidates_fit, lemma_completion_ascends,
    lemma_completion_descends, lemma_completion_fits, placed, precedes, solvable,
};
use crate::grid::{cell, is_full, lemma_same_cells, on_board, scanned_before, well_formed, GameGrid};
use vstd::arithmetic::power::pow;
use vstd::prelude::*;

verus! {

broadcast use vstd::std_specs::hash::group_hash_axioms;

/// Every cell scanned before `(r, c)` holds a digit.
pub open spec fn filled_before(g: GameGrid, r: int, c: int) -> bool {
    forall|r2: int, c2: int|
        #![trigger cell(g, r2, c2)]
        on_board(r2, c2) && scanned_before(r2, c2, r, c) ==> cell(g, r2, c2) != 0
}

/// `(r, c)` is the first empty cell in scan order.
pub open spec fn first_empty(g: GameGrid, r: int, c: int) -> bool {
    &&& on_board(r, c)
    &&& cell(g, r, c) == 0
    &&& filled_before(g, r, c)
}

/// Finds the first empty cell in scan order, if the board has one.
pub fn next_empty_cell(game: GameGrid) -> (found: Option<(usize, usize)>)
    ensures
        match found {
            Some((row, col)) => first_empty(game, row as int, col as int),
            None => is_full(game),
        },
{
    for row in 0usize..9
        invariant
            forall|r: int, c: int|
                #![trigger cell(game, r, c)]
                0 <= r < row && 0 <= c < 9 ==> cell(game, r, c) != 0,
    {
        for col in 0usize..9
            invariant
                row < 9,
                forall|r: int, c: int|
                    #![trigger cell(game, r, c)]
                    0 <= r < row && 0 <= c < 9 ==> cell(game, r, c) != 0,
                forall|c: int| 0 <= c < col ==> cell(game, row as int, c) != 0,
        {
            if game[row][col] == 0 {
                return Some((row, col));
            }
        }
    }
    return None;
}

/// The number of empty cells among the first `n` in scan order.
pub open spec fn empty_among(g: GameGrid, n: int) -> nat
    decreases n,
{
    if n <= 0 {
        0
    } else {
        empty_among(g, n - 1) + if cell(g, (n - 1) / 9, (n - 1) % 9) == 0 {
            1nat
        } else {
            0nat
        }
    }
}

/// The number of empty cells of the board.
pub open spec fn empty_count(g: GameGrid) -> nat {
    empty_among(g, 81)
}

/// How many boards a search may visit at most when `n` cells are empty: the
/// board it starts from, and for each of the nine digits as many as a
/// search with one cell fewer. This is 1 + 9 + 81 + ... + 9^n.
pub open spec fn search_bound(n: nat) -> nat
    decreases n,
{
    if n == 0 {
        1
    } else {
        1 + 9 * search_bound((n - 1) as nat)
    }
}

/// The bound in closed form: it is (9^(n+1) - 1) / 8, and so less than
/// 9/8 of 9^n.
pub proof fn lemma_search_bound_closed_form(n: nat)
    ensures
        8 * search_bound(n) + 1 == pow(9, n + 1),
        8 * search_bound(n) < 9 * pow(9, n),
    decreases n,
{
    reveal(pow);
    if n > 0 {
        lemma_search_bound_closed_form((n - 1) as nat);
    }
    assert(pow(9, n + 1) == 9 * pow(9, n));
    if n == 0 {
        assert(pow(9, 0) == 1);
    } else {
        assert(pow(9, n) == 9 * pow(9, (n - 1) as nat));
    }
}

/// Writing a digit into an empty cell leaves one empty cell fewer among the
/// first `n`, if the cell is one of them.
proof fn lemma_empty_among_placed(g: GameGrid, h: GameGrid, r: int, c: int, d: usize, n: int)
    requires
        on_board(r, c),
        cell(g, r, c) == 0,
        d != 0,
        placed(g, h, r, c, d),
        n <= 81,
    ensures
        empty_among(g, n) == empty_among(h, n) + if 9 * r + c < n {
            1nat
        } else {
            0nat
        },
    decreases n,
{
    if n > 0 {
        lemma_empty_among_placed(g, h, r, c, d, n - 1);
        let r2 = (n - 1) / 9;
        let c2 = (n - 1) % 9;
        if 9 * r + c != n - 1 {
            assert(cell(h, r2, c2) == cell(g, r2, c2));
        }
    }
}

/// An empty cell among the first `n` is counted.
proof fn lemma_empty_among_counts(g: GameGrid, r: int, c: int, n: int)
    requires
        on_board(r, c),
        cell(g, r, c) == 0,
        9 * r + c < n,
    ensures
        empty_among(g, n) >= 1,
    decreases n,
{
    if 9 * r + c < n - 1 {
        lemma_empty_among_counts(g, r, c, n - 1);
    }
}

/// Every digit placed in an empty cell lowers the number of empty cells by
/// exactly one.
pub proof fn lemma_placing_fills_one(g: GameGrid, h: GameGrid, r: int, c: int, d: usize)
    requires
        on_board(r, c),
        cell(g, r, c) == 0,
        d != 0,
        placed(g, h, r, c, d),
    ensures
        empty_count(h) + 1 == empty_count(g),
{
    lemma_empty_among_placed(g, h, r, c, d, 81);
}

/// Fills the empty cells of the board, in scan order, trying the candidates
/// of each cell in ascending order and undoing a choice when the cells after
/// it cannot be filled.
///
/// Returns whether the board could be filled. If so, the board is left as
/// the first of its completions; if not, it is left as it was, every digit
/// tried taken back.
///
/// The second part of the result counts the boards that the search visited:
/// the calls of this function, the first one included. Each digit placed
/// leaves one empty cell fewer, so the search ends, and the count is bounded
/// by `search_bound` of the number of empty cells, whatever the board holds.
pub fn search(game: &mut GameGrid) -> (found: (bool, Ghost<nat>))
    ensures
        found.0 == solvable(*old(game)),
        found.0 ==> first_completion(*old(game), *final(game)),
        !found.0 ==> *final(game) == *old(game),
        well_formed(*old(game)) ==> well_formed(*final(game)),
        1 <= found.1@ <= search_bound(empty_count(*old(game))),
    decreases empty_count(*old(game)),
{
    let ghost start = *game;
    let ghost mut visited: nat = 1;
    if let Some((row, col)) = next_empty_cell(*game) {
        let set = generate_possible_numbers(*game, row, col);
        let ghost below = search_bound((empty_count(start) - 1) as nat);
        proof {
            lemma_empty_among_counts(start, row as int, col as int, 81);
        }

        // The candidates are tried in ascending order: a set has no order of
        // its own, and the result must not depend on one.
        for num in 1usize..10
            invariant
                row < 9,
                col < 9,
                start == *old(game),
                *game == start,
                first_empty(start, row as int, col as int),
                set@ == candidates(start, row as int, col as int),
                empty_count(start) >= 1,
                below == search_bound((empty_count(start) - 1) as nat),
                1 <= visited <= 1 + (num - 1) * below,
                forall|h: GameGrid| #[trigger]
                    completes(start, h) ==> cell(h, row as int, col as int) >= num,
        {
            if set.contains(&num) {
                game[row][col] = num;
                let ghost tried = *game;
                proof {
                    lemma_placing_fills_one(start, tried, row as int, col as int, num);
                    lemma_candidates_fit(start, row as int, col as int, num);
                }

                let (solved, Ghost(deeper)) = search(game);
                proof {
                    visited = visited + deeper;
                    assert(1 + (num - 1) * below + below == 1 + num * below) by (nonlinear_arith);
                    assert(1 + num * below <= 1 + 9 * below) by (nonlinear_arith)
                        requires
                            num <= 9,
                            0 <= below,
                    ;
                }
                if !solved {
                    game[row][col] = 0;
                    proof {
                        lemma_same_cells(*game, start);
                        assert forall|h: GameGrid| #[trigger] completes(start, h) implies cell(
                            h,
                            row as int,
                            col as int,
                        ) != num by {
                            if cell(h, row as int, col as int) == num {
                                lemma_completion_descends(
                                    start,
                                    tried,
                                    h,
                                    row as int,
                                    col as int,
                                );
                            }
                        }
                    }
                } else {
                    proof {
                        let done = *game;
                        lemma_completion_ascends(start, tried, done, row as int, col as int, num);
                        assert forall|k: GameGrid| #[trigger] completes(start, k) implies k == done
                            || precedes(done, k) by {
                            if cell(k, row as int, col as int) == num {
                                lemma_completion_descends(
                                    start,
                                    tried,
                                    k,
                                    row as int,
                                    col as int,
                                );
                            } else {
                                assert(agree_before(done, k, row as int, col as int));
                            }
                        }
                    }
                    return (true, Ghost(visited));
                }
            } else {
                proof {
                    assert(1 + (num - 1) * below <= 1 + num * below) by (nonlinear_arith)
                        requires
                            0 <= below,
                    ;
                    assert forall|h: GameGrid| #[trigger] completes(start, h) implies cell(
                        h,
                        row as int,
                        col as int,
                    ) != num by {
                        lemma_completion_fits(start, h, row as int, col as int);
                        lemma_candidates_fit(
                            start,
                            row as int,
                            col as int,
                            cell(h, row as int, col as int),
                        );
                    }
                }
            }
        }
        // No digit from 1 to 9 leads to a full board, and a completion would
        // hold one of them here.
        return (false, Ghost(visited));
    } else {
        proof {
            assert(completes(start, start));
            assert forall|k: GameGrid| #[trigger] completes(start, k) implies k == start by {
                lemma_same_cells(k, start);
            }
        }
        (true, Ghost(visited))
    }
}

/// Solves the board in place: fills its empty cells, in scan order, with
/// the first digits that lead to a full board.
///
/// Returns whether the board could be filled. If so, the board is left as
/// the first of its completions; if not, it is left as it was.
pub fn play(game: &mut GameGrid) -> (solved: bool)
    ensures
        solved == solvable(*old(game)),
        solved ==> first_completion(*old(game), *final(game)),
        !solved ==> *final(game) == *old(game),
        well_formed(*old(game)) ==> well_formed(*final(game)),
{
    let (solved, _) = search(game);
    solved
}

} // verus!
