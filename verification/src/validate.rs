//! Checking a finished board.

use crate::constraint::{
    block_cells, check_block, check_column, check_row, column_cells, digits_in, row_cells,
};
use crate::grid::GameGrid;
use std::collections::HashSet;
use vstd::prelude::*;

verus! {

broadcast use vstd::std_specs::hash::group_hash_axioms;

/// Every cell of the group holds a digit, and no two cells hold the same.
pub open spec fn all_distinct(cells: Seq<usize>) -> bool {
    &&& forall|i: int| 0 <= i < cells.len() ==> cells[i] != 0
    &&& forall|i: int, j: int| 0 <= i < j < cells.len() ==> cells[i] != cells[j]
}

/// The board is a solution: each of the nine rows, the nine columns and the
/// nine blocks is filled with nine different digits.
pub open spec fn valid_solution(g: GameGrid) -> bool {
    &&& forall|r: int| 0 <= r < 9 ==> all_distinct(#[trigger] row_cells(g, r))
    &&& forall|c: int| 0 <= c < 9 ==> all_distinct(#[trigger] column_cells(g, c))
    &&& forall|br: int, bc: int|
        0 <= br < 3 && 0 <= bc < 3 ==> all_distinct(#[trigger] block_cells(g, 3 * br, 3 * bc))
}

/// A group has as many different digits as it has cells exactly when it is
/// filled without a repeat; it never has more.
pub proof fn lemma_digits_count(cells: Seq<usize>)
    ensures
        digits_in(cells).finite(),
        digits_in(cells).len() <= cells.len(),
        digits_in(cells).len() == cells.len() <==> all_distinct(cells),
    decreases cells.len(),
{
    if cells.len() == 0 {
        assert(digits_in(cells) =~= Set::<usize>::empty());
    } else {
        let front = cells.drop_last();
        let x = cells.last();
        lemma_digits_count(front);
        assert(forall|i: int| 0 <= i < front.len() ==> front[i] == cells[i]);
        if x == 0 {
            assert(digits_in(cells) =~= digits_in(front));
            assert(cells[cells.len() - 1] == 0);
        } else if digits_in(front).contains(x) {
            assert(digits_in(cells) =~= digits_in(front));
            let i = choose|i: int| 0 <= i < front.len() && front[i] == x;
            assert(cells[i] == cells[cells.len() - 1]);
        } else {
            assert(digits_in(cells) =~= digits_in(front).insert(x));
            if all_distinct(front) {
                assert forall|i: int, j: int| 0 <= i < j < cells.len() implies cells[i]
                    != cells[j] by {
                    if j == cells.len() - 1 {
                        assert(front[i] == cells[i]);
                    } else {
                        assert(front[i] != front[j]);
                    }
                }
            } else {
                if all_distinct(cells) {
                    assert forall|i: int, j: int| 0 <= i < j < front.len() implies front[i]
                        != front[j] by {
                        assert(cells[i] != cells[j]);
                    }
                    assert(false);
                }
            }
        }
    }
}

/// Whether the board is a solution. The input is only read.
pub fn is_valid_solution(game: GameGrid) -> (valid: bool)
    ensures
        valid == valid_solution(game),
{
    let mut a: HashSet<usize> = HashSet::new();
    let mut b: HashSet<usize> = HashSet::new();
    let mut c: HashSet<usize> = HashSet::new();

    for row in 0usize..9
        invariant
            a@ == Set::<usize>::empty(),
            b@ == Set::<usize>::empty(),
            forall|r: int| 0 <= r < row ==> all_distinct(#[trigger] row_cells(game, r)),
            forall|k: int| 0 <= k < row ==> all_distinct(#[trigger] column_cells(game, k)),
    {
        check_row(game, &mut a, row);
        check_column(game, &mut b, row);
        proof {
            assert(a@ =~= digits_in(row_cells(game, row as int)));
            assert(b@ =~= digits_in(column_cells(game, row as int)));
            lemma_digits_count(row_cells(game, row as int));
            lemma_digits_count(column_cells(game, row as int));
        }

        if a.len() < 9 || b.len() < 9 {
            return false;
        }
        a.clear();
        b.clear();
    }

    for row in 0usize..3
        invariant
            c@ == Set::<usize>::empty(),
            forall|r: int| 0 <= r < 9 ==> all_distinct(#[trigger] row_cells(game, r)),
            forall|k: int| 0 <= k < 9 ==> all_distinct(#[trigger] column_cells(game, k)),
            forall|br: int, bc: int|
                0 <= br < row && 0 <= bc < 3 ==> all_distinct(
                    #[trigger] block_cells(game, 3 * br, 3 * bc),
                ),
    {
        for col in 0usize..3
            invariant
                row < 3,
                c@ == Set::<usize>::empty(),
                forall|br: int, bc: int|
                    0 <= br < row && 0 <= bc < 3 ==> all_distinct(
                        #[trigger] block_cells(game, 3 * br, 3 * bc),
                    ),
                forall|bc: int|
                    0 <= bc < col ==> all_distinct(#[trigger] block_cells(game, 3 * row, 3 * bc)),
        {
            check_block(game, &mut c, row * 3, col * 3);
            proof {
                assert(c@ =~= digits_in(block_cells(game, 3 * row, 3 * col)));
                lemma_digits_count(block_cells(game, 3 * row, 3 * col));
            }
            if c.len() < 9 {
                return false;
            }
            c.clear();
        }
    }
    true
}

} // verus!
