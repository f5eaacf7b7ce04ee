//! The digits already used along a row, a column or a 3×3 block.

use crate::grid::{cell, GameGrid};
use std::collections::HashSet;
use vstd::prelude::*;

verus! {

broadcast use vstd::std_specs::hash::group_hash_axioms;

/// The nine cells of row `r`, left to right.
pub open spec fn row_cells(g: GameGrid, r: int) -> Seq<usize> {
    Seq::new(9, |c: int| cell(g, r, c))
}

/// The nine cells of column `c`, top to bottom.
pub open spec fn column_cells(g: GameGrid, c: int) -> Seq<usize> {
    Seq::new(9, |r: int| cell(g, r, c))
}

/// The nine cells of the block that contains `(r, c)`, row by row. The
/// block's top-left corner is `(r - r % 3, c - c % 3)`.
pub open spec fn block_cells(g: GameGrid, r: int, c: int) -> Seq<usize> {
    Seq::new(9, |k: int| cell(g, r - r % 3 + k / 3, c - c % 3 + k % 3))
}

/// The placed digits among `cells`: every non-zero value that occurs.
pub open spec fn digits_in(cells: Seq<usize>) -> Set<usize> {
    Set::new(|d: usize| d != 0 && exists|i: int| 0 <= i < cells.len() && cells[i] == d)
}

/// Adds to `ret` every digit placed in row `row`.
pub fn check_row(game: GameGrid, ret: &mut HashSet<usize>, row: usize)
    requires
        row < 9,
    ensures
        final(ret)@ == old(ret)@.union(digits_in(row_cells(game, row as int))),
{
    let ghost cells = row_cells(game, row as int);
    for idx in 0usize..9
        invariant
            row < 9,
            cells == row_cells(game, row as int),
            forall|d: usize|
                ret@.contains(d) <==> old(ret)@.contains(d) || (d != 0 && exists|i: int|
                    0 <= i < idx && cells[i] == d),
    {
        assert(cells[idx as int] == game[row as int][idx as int]);
        if game[row][idx] != 0 {
            ret.insert(game[row][idx]);
        }
    }
}

/// Adds to `ret` every digit placed in column `col`.
pub fn check_column(game: GameGrid, ret: &mut HashSet<usize>, col: usize)
    requires
        col < 9,
    ensures
        final(ret)@ == old(ret)@.union(digits_in(column_cells(game, col as int))),
{
    let ghost cells = column_cells(game, col as int);
    for idx in 0usize..9
        invariant
            col < 9,
            cells == column_cells(game, col as int),
            forall|d: usize|
                ret@.contains(d) <==> old(ret)@.contains(d) || (d != 0 && exists|i: int|
                    0 <= i < idx && cells[i] == d),
    {
        assert(cells[idx as int] == game[idx as int][col as int]);
        if game[idx][col] != 0 {
            ret.insert(game[idx][col]);
        }
    }
}

/// Adds to `ret` every digit placed in the 3×3 block that contains the
/// cell `(row, col)`.
pub fn check_block(game: GameGrid, ret: &mut HashSet<usize>, row: usize, col: usize)
    requires
        row < 9,
        col < 9,
    ensures
        final(ret)@ == old(ret)@.union(digits_in(block_cells(game, row as int, col as int))),
{
    // Round the cell down to the top-left corner of its block.
    let (r, c) = (row - row % 3, col - col % 3);
    let ghost cells = block_cells(game, row as int, col as int);
    for idx in 0usize..3
        invariant
            r + 3 <= 9,
            c + 3 <= 9,
            r == row - row % 3,
            c == col - col % 3,
            cells == block_cells(game, row as int, col as int),
            forall|d: usize|
                ret@.contains(d) <==> old(ret)@.contains(d) || (d != 0 && exists|k: int|
                    0 <= k < 3 * idx && cells[k] == d),
    {
        for idy in 0usize..3
            invariant
                idx < 3,
                r + 3 <= 9,
                c + 3 <= 9,
                r == row - row % 3,
                c == col - col % 3,
                cells == block_cells(game, row as int, col as int),
                forall|d: usize|
                    ret@.contains(d) <==> old(ret)@.contains(d) || (d != 0 && exists|k: int|
                        0 <= k < 3 * idx + idy && cells[k] == d),
        {
            assert(cells[3 * idx + idy] == game[r + idx][c + idy]);
            if game[r + idx][c + idy] != 0 {
                ret.insert(game[r + idx][c + idy]);
            }
        }
    }
    assert(ret@ =~= old(ret)@.union(digits_in(cells)));
}

} // verus!
