//! What the solver and the validator guarantee of each other.

use crate::completion::{completes, fits, peers};
use crate::constraint::{block_cells, column_cells, digits_in, row_cells};
use crate::grid::{cell, is_full, on_board, well_formed, GameGrid};
use crate::validate::{all_distinct, lemma_digits_count, valid_solution};
use vstd::prelude::*;

verus! {

/// The value at `(r, c)` stands nowhere else in the row, the column or the
/// block of that cell.
pub open spec fn unrepeated(g: GameGrid, r: int, c: int) -> bool {
    forall|r2: int, c2: int|
        #![trigger cell(g, r2, c2)]
        on_board(r2, c2) && peers(r, c, r2, c2) ==> cell(g, r2, c2) != cell(g, r, c)
}

/// No digit stands twice in a row, a column or a block. Empty cells are
/// not looked at.
pub open spec fn consistent(g: GameGrid) -> bool {
    forall|r: int, c: int|
        #![trigger cell(g, r, c)]
        on_board(r, c) && cell(g, r, c) != 0 ==> unrepeated(g, r, c)
}

/// Validation depends on the board alone: whatever two runs on the same
/// board answer, they answer the same.
pub proof fn lemma_validation_repeats(g: GameGrid, first: bool, second: bool)
    requires
        first == valid_solution(g),
        second == valid_solution(g),
    ensures
        first == second,
{
}

/// On a solution, every cell holds a digit that none of its peers holds.
proof fn lemma_valid_cell(g: GameGrid, r1: int, c1: int, r2: int, c2: int)
    requires
        valid_solution(g),
        on_board(r1, c1),
        on_board(r2, c2),
        peers(r1, c1, r2, c2),
    ensures
        cell(g, r1, c1) != 0,
        cell(g, r1, c1) != cell(g, r2, c2),
{
    let row = row_cells(g, r1);
    assert(all_distinct(row));
    assert(row[c1] == cell(g, r1, c1));
    if r1 == r2 {
        assert(row[c2] == cell(g, r2, c2));
    } else if c1 == c2 {
        let column = column_cells(g, c1);
        assert(all_distinct(column));
        assert(column[r1] == cell(g, r1, c1) && column[r2] == cell(g, r2, c2));
    } else {
        let br = r1 / 3;
        let bc = c1 / 3;
        let block = block_cells(g, 3 * br, 3 * bc);
        assert(all_distinct(block));
        let k1 = 3 * (r1 - 3 * br) + (c1 - 3 * bc);
        let k2 = 3 * (r2 - 3 * br) + (c2 - 3 * bc);
        assert(block[k1] == cell(g, r1, c1) && block[k2] == cell(g, r2, c2));
    }
}

/// On a full board without a repeated digit, the cells at two different
/// places of a row, a column or a block differ.
proof fn lemma_peers_differ(g: GameGrid, r1: int, c1: int, r2: int, c2: int)
    requires
        is_full(g),
        consistent(g),
        on_board(r1, c1),
        on_board(r2, c2),
        peers(r1, c1, r2, c2),
    ensures
        cell(g, r1, c1) != 0,
        cell(g, r1, c1) != cell(g, r2, c2),
{
    assert(unrepeated(g, r1, c1));
}

/// A board is a solution exactly when it has no empty cell and no digit
/// stands twice in a row, a column or a block.
pub proof fn lemma_valid_is_full_and_consistent(g: GameGrid)
    ensures
        valid_solution(g) <==> is_full(g) && consistent(g),
{
    if valid_solution(g) {
        assert forall|r: int, c: int| #![trigger cell(g, r, c)] on_board(r, c) implies cell(
            g,
            r,
            c,
        ) != 0 && unrepeated(g, r, c) by {
            lemma_valid_cell(g, r, c, r, (c + 1) % 9);
            assert forall|r2: int, c2: int|
                #![trigger cell(g, r2, c2)]
                on_board(r2, c2) && peers(r, c, r2, c2) implies cell(g, r2, c2) != cell(
                g,
                r,
                c,
            ) by {
                lemma_valid_cell(g, r, c, r2, c2);
            }
        }
    }
    if is_full(g) && consistent(g) {
        assert forall|r: int| 0 <= r < 9 implies all_distinct(#[trigger] row_cells(g, r)) by {
            let row = row_cells(g, r);
            assert forall|i: int, j: int| 0 <= i < j < row.len() implies row[i] != 0 && row[i]
                != row[j] by {
                lemma_peers_differ(g, r, i, r, j);
            }
            lemma_peers_differ(g, r, 8, r, 0);
        }
        assert forall|c: int| 0 <= c < 9 implies all_distinct(#[trigger] column_cells(g, c)) by {
            let column = column_cells(g, c);
            assert forall|i: int, j: int| 0 <= i < j < column.len() implies column[i] != 0
                && column[i] != column[j] by {
                lemma_peers_differ(g, i, c, j, c);
            }
            lemma_peers_differ(g, 8, c, 0, c);
        }
        assert forall|br: int, bc: int| 0 <= br < 3 && 0 <= bc < 3 implies all_distinct(
            #[trigger] block_cells(g, 3 * br, 3 * bc),
        ) by {
            let block = block_cells(g, 3 * br, 3 * bc);
            assert forall|i: int, j: int| 0 <= i < j < block.len() implies block[i] != 0
                && block[i] != block[j] by {
                lemma_peers_differ(
                    g,
                    3 * br + i / 3,
                    3 * bc + i % 3,
                    3 * br + j / 3,
                    3 * bc + j % 3,
                );
            }
            lemma_peers_differ(g, 3 * br + 2, 3 * bc + 2, 3 * br, 3 * bc);
        }
    }
}

/// A board that fills the empty cells of `g` is a solution exactly when
/// `g` had no digit twice in a row, a column or a block.
pub proof fn lemma_completion_valid_iff_consistent(g: GameGrid, h: GameGrid)
    requires
        completes(g, h),
    ensures
        valid_solution(h) <==> consistent(g),
{
    lemma_valid_is_full_and_consistent(h);
    assert(is_full(h)) by {
        assert forall|r: int, c: int| #![trigger cell(h, r, c)] on_board(r, c) implies cell(
            h,
            r,
            c,
        ) != 0 by {
            if cell(g, r, c) == 0 {
                assert(fits(h, r, c, cell(h, r, c)));
            }
        }
    }
    if consistent(g) {
        assert forall|r: int, c: int|
            #![trigger cell(h, r, c)]
            on_board(r, c) && cell(h, r, c) != 0 implies unrepeated(h, r, c) by {
            if cell(g, r, c) == 0 {
                assert(fits(h, r, c, cell(h, r, c)));
            } else {
                assert(unrepeated(g, r, c));
                assert forall|r2: int, c2: int|
                    #![trigger cell(h, r2, c2)]
                    on_board(r2, c2) && peers(r, c, r2, c2) implies cell(h, r2, c2) != cell(
                    h,
                    r,
                    c,
                ) by {
                    if cell(g, r2, c2) == 0 {
                        assert(fits(h, r2, c2, cell(h, r2, c2)));
                        assert(peers(r2, c2, r, c));
                    } else {
                        assert(cell(g, r2, c2) != cell(g, r, c));
                    }
                }
            }
        }
    }
    if consistent(h) {
        assert forall|r: int, c: int|
            #![trigger cell(g, r, c)]
            on_board(r, c) && cell(g, r, c) != 0 implies unrepeated(g, r, c) by {
            assert(cell(h, r, c) == cell(g, r, c));
            assert(unrepeated(h, r, c));
            assert forall|r2: int, c2: int|
                #![trigger cell(g, r2, c2)]
                on_board(r2, c2) && peers(r, c, r2, c2) implies cell(g, r2, c2) != cell(
                g,
                r,
                c,
            ) by {
                assert(cell(h, r2, c2) != cell(h, r, c));
            }
        }
    }
}

/// A successful search on a board without a repeated digit leaves a board
/// that passes validation.
pub proof fn lemma_solved_board_is_valid(g: GameGrid, h: GameGrid)
    requires
        consistent(g),
        completes(g, h),
    ensures
        valid_solution(h),
{
    lemma_completion_valid_iff_consistent(g, h);
}

/// The digit `d` stands in exactly one cell of the group.
pub open spec fn occurs_once(cells: Seq<usize>, d: usize) -> bool {
    exists|i: int|
        0 <= i < cells.len() && #[trigger] cells[i] == d && forall|j: int|
            0 <= j < cells.len() && #[trigger] cells[j] == d ==> j == i
}

/// Each of the digits 1 to 9 stands in exactly one cell of the group.
pub open spec fn each_digit_once(cells: Seq<usize>) -> bool {
    forall|d: usize| 1 <= d <= 9 ==> occurs_once(cells, d)
}

/// A group of nine cells that hold nothing above 9 is filled with nine
/// different digits exactly when each of the digits 1 to 9 stands in it
/// exactly once.
pub proof fn lemma_distinct_is_each_digit_once(cells: Seq<usize>)
    requires
        cells.len() == 9,
        forall|i: int| 0 <= i < 9 ==> cells[i] <= 9,
    ensures
        all_distinct(cells) <==> each_digit_once(cells),
{
    let digits = set![1usize, 2usize, 3usize, 4usize, 5usize, 6usize, 7usize, 8usize, 9usize];
    lemma_digits_count(cells);
    assert(digits.finite() && digits.len() == 9) by {
        lemma_nine_digits();
    }
    assert(digits_in(cells).subset_of(digits)) by {
        assert forall|d: usize| digits_in(cells).contains(d) implies digits.contains(d) by {
            let i = choose|i: int| 0 <= i < cells.len() && cells[i] == d;
            assert(cells[i] <= 9);
        }
    }
    if all_distinct(cells) {
        vstd::set_lib::lemma_subset_equality(digits_in(cells), digits);
        assert forall|d: usize| 1 <= d <= 9 implies occurs_once(cells, d) by {
            assert(digits.contains(d));
            assert(digits_in(cells).contains(d));
            let i = choose|i: int| 0 <= i < cells.len() && cells[i] == d;
            assert forall|j: int| 0 <= j < cells.len() && #[trigger] cells[j] == d implies j
                == i by {
                if j < i {
                    assert(cells[j] != cells[i]);
                } else if i < j {
                    assert(cells[i] != cells[j]);
                }
            }
        }
    }
    if each_digit_once(cells) {
        assert(digits.subset_of(digits_in(cells))) by {
            assert forall|d: usize| digits.contains(d) implies digits_in(cells).contains(d) by {
                assert(occurs_once(cells, d));
            }
        }
        vstd::set_lib::lemma_len_subset(digits, digits_in(cells));
    }
}

/// A board of digits is a solution exactly when every row, every column and
/// every block holds each of the digits 1 to 9 exactly once.
pub proof fn lemma_valid_is_each_digit_once(g: GameGrid)
    requires
        well_formed(g),
    ensures
        valid_solution(g) <==> {
            &&& forall|r: int| 0 <= r < 9 ==> each_digit_once(#[trigger] row_cells(g, r))
            &&& forall|c: int| 0 <= c < 9 ==> each_digit_once(#[trigger] column_cells(g, c))
            &&& forall|br: int, bc: int|
                0 <= br < 3 && 0 <= bc < 3 ==> each_digit_once(
                    #[trigger] block_cells(g, 3 * br, 3 * bc),
                )
        },
{
    assert forall|r: int| 0 <= r < 9 implies (all_distinct(#[trigger] row_cells(g, r))
        <==> each_digit_once(row_cells(g, r))) by {
        let row = row_cells(g, r);
        assert forall|i: int| 0 <= i < 9 implies row[i] <= 9 by {
            assert(cell(g, r, i) <= 9);
        }
        lemma_distinct_is_each_digit_once(row);
    }
    assert forall|c: int| 0 <= c < 9 implies (all_distinct(#[trigger] column_cells(g, c))
        <==> each_digit_once(column_cells(g, c))) by {
        let column = column_cells(g, c);
        assert forall|i: int| 0 <= i < 9 implies column[i] <= 9 by {
            assert(cell(g, i, c) <= 9);
        }
        lemma_distinct_is_each_digit_once(column);
    }
    assert forall|br: int, bc: int| 0 <= br < 3 && 0 <= bc < 3 implies (all_distinct(
        #[trigger] block_cells(g, 3 * br, 3 * bc),
    ) <==> each_digit_once(block_cells(g, 3 * br, 3 * bc))) by {
        let block = block_cells(g, 3 * br, 3 * bc);
        assert forall|k: int| 0 <= k < 9 implies block[k] <= 9 by {
            assert(cell(g, 3 * br + k / 3, 3 * bc + k % 3) <= 9);
        }
        lemma_distinct_is_each_digit_once(block);
    }
}

/// There are nine digits.
proof fn lemma_nine_digits()
    ensures
        set![1usize, 2usize, 3usize, 4usize, 5usize, 6usize, 7usize, 8usize, 9usize].finite(),
        set![1usize, 2usize, 3usize, 4usize, 5usize, 6usize, 7usize, 8usize, 9usize].len() == 9,
{
    let s0 = Set::<usize>::empty();
    let s1 = s0.insert(1);
    let s2 = s1.insert(2);
    let s3 = s2.insert(3);
    let s4 = s3.insert(4);
    let s5 = s4.insert(5);
    let s6 = s5.insert(6);
    let s7 = s6.insert(7);
    let s8 = s7.insert(8);
    let s9 = s8.insert(9);
    assert(s1.len() == 1);
    assert(s2.len() == 2);
    assert(s3.len() == 3);
    assert(s4.len() == 4);
    assert(s5.len() == 5);
    assert(s6.len() == 6);
    assert(s7.len() == 7);
    assert(s8.len() == 8);
    assert(s9.len() == 9);
    assert(s9 =~= set![1usize, 2usize, 3usize, 4usize, 5usize, 6usize, 7usize, 8usize, 9usize]);
}

} // verus!
