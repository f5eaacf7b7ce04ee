//! The board: nine rows of nine cells, `0` for an empty cell.

use vstd::prelude::*;

verus! {

/// A Sudoku board. Each cell holds `0` (empty) or a placed digit.
pub type GameGrid = [[usize; 9]; 9];

/// The value stored at row `r`, column `c`.
pub open spec fn cell(g: GameGrid, r: int, c: int) -> usize {
    g[r][c]
}

/// Both coordinates lie on the board.
pub open spec fn on_board(r: int, c: int) -> bool {
    0 <= r < 9 && 0 <= c < 9
}

/// `(r1, c1)` is scanned before `(r2, c2)`: rows top to bottom, and each row
/// left to right.
pub open spec fn scanned_before(r1: int, c1: int, r2: int, c2: int) -> bool {
    r1 < r2 || (r1 == r2 && c1 < c2)
}

/// Every cell holds `0` or one of the digits 1 to 9. The functions of this
/// library accept any board; those that change or build one keep this.
pub open spec fn well_formed(g: GameGrid) -> bool {
    forall|r: int, c: int| #![trigger cell(g, r, c)] on_board(r, c) ==> cell(g, r, c) <= 9
}

/// Every cell of the board is empty.
pub open spec fn all_empty(g: GameGrid) -> bool {
    forall|r: int, c: int| #![trigger cell(g, r, c)] on_board(r, c) ==> cell(g, r, c) == 0
}

/// No cell of the board is empty.
pub open spec fn is_full(g: GameGrid) -> bool {
    forall|r: int, c: int| #![trigger cell(g, r, c)] on_board(r, c) ==> cell(g, r, c) != 0
}

/// Boards that hold the same value in every cell are the same board.
pub proof fn lemma_same_cells(a: GameGrid, b: GameGrid)
    requires
        forall|r: int, c: int|
            #![trigger cell(a, r, c)]
            on_board(r, c) ==> cell(a, r, c) == cell(b, r, c),
    ensures
        a == b,
{
    assert forall|r: int| 0 <= r < 9 implies a[r] == b[r] by {
        assert forall|c: int| 0 <= c < 9 implies a[r][c] == b[r][c] by {
            assert(cell(a, r, c) == cell(b, r, c));
        }
        assert(a[r] =~= b[r]);
    }
    assert(a =~= b);
}

/// Whether the board holds no digit at all.
pub fn empty(game: GameGrid) -> (blank: bool)
    ensures
        blank == all_empty(game),
{
    for row in 0usize..9
        invariant
            forall|r: int, c: int|
                #![trigger cell(game, r, c)]
                0 <= r < row && 0 <= c < 9 ==> cell(game, r, c) == 0,
    {
        for col in 0usize..9
            invariant
                row < 9,
                forall|r: int, c: int|
                    #![trigger cell(game, r, c)]
                    0 <= r < row && 0 <= c < 9 ==> cell(game, r, c) == 0,
                forall|c: int| 0 <= c < col ==> cell(game, row as int, c) == 0,
        {
            if game[row][col] > 0 {
                assert(cell(game, row as int, col as int) != 0);
                return false;
            }
        }
    }
    return true;
}

} // verus!
