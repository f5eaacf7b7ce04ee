//! The digits that may still be placed in a cell.

use crate::constraint::{
    block_cells, check_block, check_column, check_row, column_cells, digits_in, row_cells,
};
use crate::grid::GameGrid;
use std::collections::HashSet;
use vstd::prelude::*;

verus! {

broadcast use vstd::std_specs::hash::group_hash_axioms;

/// The digits placed anywhere in the row, the column or the block of the
/// cell `(r, c)`.
pub open spec fn used_digits(g: GameGrid, r: int, c: int) -> Set<usize> {
    digits_in(row_cells(g, r)).union(digits_in(column_cells(g, c))).union(
        digits_in(block_cells(g, r, c)),
    )
}

/// The legal moves for the cell `(r, c)`: the digits 1 to 9 that are not yet
/// used in its row, its column or its block.
pub open spec fn candidates(g: GameGrid, r: int, c: int) -> Set<usize> {
    Set::new(|d: usize| 1 <= d <= 9 && !used_digits(g, r, c).contains(d))
}

/// Computes the legal moves for the cell `(row, col)`. An empty result means
/// that no digit can be placed there.
pub fn generate_possible_numbers(game: GameGrid, row: usize, col: usize) -> (retval: HashSet<usize>)
    requires
        row < 9,
        col < 9,
    ensures
        retval@ == candidates(game, row as int, col as int),
{
    let mut rets: HashSet<usize> = HashSet::new();
    check_row(game, &mut rets, row);
    check_column(game, &mut rets, col);
    check_block(game, &mut rets, row, col);

    let mut retval: HashSet<usize> = HashSet::new();
    for idx in 1usize..10
        invariant
            rets@ == used_digits(game, row as int, col as int),
            forall|d: usize| retval@.contains(d) <==> 1 <= d < idx && !rets@.contains(d),
    {
        if !rets.contains(&idx) {
            retval.insert(idx);
        }
    }
    retval
}

} // verus!
