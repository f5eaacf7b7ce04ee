//! What it means to fill a board: which digits fit where, which boards
//! complete a puzzle, and which of them comes first.

use crate::candidates::{candidates, used_digits};
use crate::constraint::{block_cells, column_cells, digits_in, row_cells};
use crate::grid::{cell, on_board, scanned_before, well_formed, GameGrid};
use vstd::prelude::*;

verus! {

/// Two different cells that share a row, a column or a block.
pub open spec fn peers(r1: int, c1: int, r2: int, c2: int) -> bool {
    &&& r1 != r2 || c1 != c2
    &&& r1 == r2 || c1 == c2 || (r1 / 3 == r2 / 3 && c1 / 3 == c2 / 3)
}

/// The digit `d` can stand at `(r, c)`: it is one of 1 to 9, and no other
/// cell of the row, the column or the block of `(r, c)` holds it.
pub open spec fn fits(g: GameGrid, r: int, c: int, d: usize) -> bool {
    &&& 1 <= d <= 9
    &&& forall|r2: int, c2: int|
        #![trigger cell(g, r2, c2)]
        on_board(r2, c2) && peers(r, c, r2, c2) ==> cell(g, r2, c2) != d
}

/// `h` fills the empty cells of `g` and changes nothing else; each cell it
/// fills holds a digit that fits there in `h`.
pub open spec fn completes(g: GameGrid, h: GameGrid) -> bool {
    forall|r: int, c: int|
        #![trigger cell(h, r, c)]
        on_board(r, c) ==> if cell(g, r, c) != 0 {
            cell(h, r, c) == cell(g, r, c)
        } else {
            fits(h, r, c, cell(h, r, c))
        }
}

/// The empty cells of `g` can all be filled.
pub open spec fn solvable(g: GameGrid) -> bool {
    exists|h: GameGrid| completes(g, h)
}

/// The two boards hold the same values in every cell scanned before `(r, c)`.
pub open spec fn agree_before(a: GameGrid, b: GameGrid, r: int, c: int) -> bool {
    forall|r2: int, c2: int|
        #![trigger cell(a, r2, c2)]
        on_board(r2, c2) && scanned_before(r2, c2, r, c) ==> cell(a, r2, c2) == cell(b, r2, c2)
}

/// Read in scan order, `a` is smaller than `b`: at the first cell where they
/// differ, `a` holds the smaller value.
pub open spec fn precedes(a: GameGrid, b: GameGrid) -> bool {
    exists|r: int, c: int|
        #![trigger agree_before(a, b, r, c)]
        on_board(r, c) && agree_before(a, b, r, c) && cell(a, r, c) < cell(b, r, c)
}

/// `h` is the first of the boards that complete `g`, read in scan order.
pub open spec fn first_completion(g: GameGrid, h: GameGrid) -> bool {
    &&& completes(g, h)
    &&& forall|k: GameGrid| #[trigger] completes(g, k) ==> k == h || precedes(h, k)
}

/// `h` is `g` with the value `d` written to `(r, c)`.
pub open spec fn placed(g: GameGrid, h: GameGrid, r: int, c: int, d: usize) -> bool {
    &&& cell(h, r, c) == d
    &&& forall|r2: int, c2: int|
        #![trigger cell(h, r2, c2)]
        on_board(r2, c2) && (r2 != r || c2 != c) ==> cell(h, r2, c2) == cell(g, r2, c2)
}

/// Filling a board of digits gives a board of digits.
pub proof fn lemma_completion_well_formed(g: GameGrid, h: GameGrid)
    requires
        well_formed(g),
        completes(g, h),
    ensures
        well_formed(h),
{
}

/// For an empty cell, the candidate set holds exactly the digits that fit.
pub proof fn lemma_candidates_fit(g: GameGrid, r: int, c: int, d: usize)
    requires
        on_board(r, c),
        cell(g, r, c) == 0,
    ensures
        candidates(g, r, c).contains(d) == fits(g, r, c, d),
{
    let row = row_cells(g, r);
    let column = column_cells(g, c);
    let block = block_cells(g, r, c);
    if candidates(g, r, c).contains(d) {
        assert forall|r2: int, c2: int|
            #![trigger cell(g, r2, c2)]
            on_board(r2, c2) && peers(r, c, r2, c2) implies cell(g, r2, c2) != d by {
            if cell(g, r2, c2) == d {
                if r2 == r {
                    assert(row[c2] == d);
                    assert(digits_in(row).contains(d));
                } else if c2 == c {
                    assert(column[r2] == d);
                    assert(digits_in(column).contains(d));
                } else {
                    let k = 3 * (r2 - (r - r % 3)) + (c2 - (c - c % 3));
                    assert(0 <= k < 9 && r - r % 3 + k / 3 == r2 && c - c % 3 + k % 3 == c2);
                    assert(block[k] == d);
                    assert(digits_in(block).contains(d));
                }
                assert(used_digits(g, r, c).contains(d));
            }
        }
    }
    if fits(g, r, c, d) {
        if digits_in(row).contains(d) {
            let i = choose|i: int| 0 <= i < row.len() && row[i] == d;
            assert(cell(g, r, i) == d);
        }
        if digits_in(column).contains(d) {
            let i = choose|i: int| 0 <= i < column.len() && column[i] == d;
            assert(cell(g, i, c) == d);
        }
        if digits_in(block).contains(d) {
            let k = choose|k: int| 0 <= k < block.len() && block[k] == d;
            assert(cell(g, r - r % 3 + k / 3, c - c % 3 + k % 3) == d);
        }
    }
}

/// A completion of `g` holds, in an empty cell of `g`, a digit that fits
/// there in `g` already.
pub proof fn lemma_completion_fits(g: GameGrid, h: GameGrid, r: int, c: int)
    requires
        on_board(r, c),
        cell(g, r, c) == 0,
        completes(g, h),
    ensures
        fits(g, r, c, cell(h, r, c)),
{
    let d = cell(h, r, c);
    assert(fits(h, r, c, d));
    assert forall|r2: int, c2: int|
        #![trigger cell(g, r2, c2)]
        on_board(r2, c2) && peers(r, c, r2, c2) implies cell(g, r2, c2) != d by {
        assert(cell(h, r2, c2) != d);
    }
}

/// A completion of `g` still completes `g` once the digit it holds in an
/// empty cell of `g` is written into that cell.
pub proof fn lemma_completion_descends(g: GameGrid, g2: GameGrid, h: GameGrid, r: int, c: int)
    requires
        on_board(r, c),
        cell(g, r, c) == 0,
        completes(g, h),
        placed(g, g2, r, c, cell(h, r, c)),
    ensures
        completes(g2, h),
{
}

/// If a digit fits in an empty cell of `g`, every completion of the board
/// with that digit written in is a completion of `g`.
pub proof fn lemma_completion_ascends(
    g: GameGrid,
    g2: GameGrid,
    h: GameGrid,
    r: int,
    c: int,
    d: usize,
)
    requires
        on_board(r, c),
        cell(g, r, c) == 0,
        fits(g, r, c, d),
        placed(g, g2, r, c, d),
        completes(g2, h),
    ensures
        completes(g, h),
{
    // The cell written keeps its digit in `h`. A peer that `g` holds differs
    // from it because the digit fits in `g`; a peer that `h` has filled in
    // differs because its own digit fits in `h`.
}

/// An empty cell without a candidate is a dead end: the board cannot be
/// filled.
pub proof fn lemma_no_candidate_no_solution(g: GameGrid, r: int, c: int)
    requires
        on_board(r, c),
        cell(g, r, c) == 0,
        candidates(g, r, c) == Set::<usize>::empty(),
    ensures
        !solvable(g),
{
    assert forall|h: GameGrid| !completes(g, h) by {
        if completes(g, h) {
            lemma_completion_fits(g, h, r, c);
            lemma_candidates_fit(g, r, c, cell(h, r, c));
        }
    }
}

/// Of two boards, at most one comes before the other.
pub proof fn lemma_precedes_one_way(a: GameGrid, b: GameGrid)
    requires
        precedes(a, b),
    ensures
        !precedes(b, a),
{
    if precedes(b, a) {
        let (r1, c1) = choose|r: int, c: int|
            #![trigger agree_before(a, b, r, c)]
            on_board(r, c) && agree_before(a, b, r, c) && cell(a, r, c) < cell(b, r, c);
        let (r2, c2) = choose|r: int, c: int|
            #![trigger agree_before(b, a, r, c)]
            on_board(r, c) && agree_before(b, a, r, c) && cell(b, r, c) < cell(a, r, c);
        if scanned_before(r1, c1, r2, c2) {
            assert(cell(b, r1, c1) == cell(a, r1, c1));
        } else if scanned_before(r2, c2, r1, c1) {
            assert(cell(a, r2, c2) == cell(b, r2, c2));
        }
    }
}

/// The search has one possible result: a board has at most one first
/// completion.
pub proof fn lemma_first_completion_unique(g: GameGrid, h1: GameGrid, h2: GameGrid)
    requires
        first_completion(g, h1),
        first_completion(g, h2),
    ensures
        h1 == h2,
{
    if h1 != h2 {
        assert(precedes(h1, h2));
        assert(precedes(h2, h1));
        lemma_precedes_one_way(h1, h2);
    }
}

} // verus!
