//! Reading a board from nine lines of text.

use crate::grid::{cell, empty, on_board, well_formed, GameGrid};
use vstd::prelude::*;

verus! {

/// What a typed character stands for: a space is an empty cell, one of
/// `'1'` to `'9'` is that digit, and any other character is no cell at all.
pub open spec fn cell_value(ch: char) -> Option<usize> {
    if ch == ' ' {
        Some(0usize)
    } else if '1' <= ch <= '9' {
        Some((ch as u32 - '0' as u32) as usize)
    } else {
        None
    }
}

/// Reads one typed character as a cell value.
pub fn to_int(ch: char) -> (value: Option<usize>)
    ensures
        value == cell_value(ch),
{
    match ch {
        ' ' => Some(0),
        '1' => Some(1),
        '2' => Some(2),
        '3' => Some(3),
        '4' => Some(4),
        '5' => Some(5),
        '6' => Some(6),
        '7' => Some(7),
        '8' => Some(8),
        '9' => Some(9),
        _ => None,
    }
}

/// The ending that the prompts put behind a row number: 1, 2 and 3 have
/// their own, every other number gets "th".
pub open spec fn ordinal_suffix(idx: usize) -> Seq<char> {
    if idx == 1 {
        seq!['s', 't']
    } else if idx == 2 {
        seq!['n', 'd']
    } else if idx == 3 {
        seq!['r', 'd']
    } else {
        seq!['t', 'h']
    }
}

/// The ending that turns `idx` into an ordinal: "st", "nd", "rd" or "th".
pub fn suffix(idx: usize) -> (ending: String)
    ensures
        ending@ == ordinal_suffix(idx),
{
    proof {
        reveal_strlit("st");
        reveal_strlit("nd");
        reveal_strlit("rd");
        reveal_strlit("th");
    }
    match idx {
        1 => "st".to_string(),
        2 => "nd".to_string(),
        3 => "rd".to_string(),
        _ => "th".to_string(),
    }
}

/// The cell values that a line of text holds, in order. Characters that
/// stand for no cell are skipped.
pub open spec fn line_cells(line: Seq<char>) -> Seq<usize>
    decreases line.len(),
{
    if line.len() == 0 {
        Seq::empty()
    } else {
        let front = line_cells(line.drop_last());
        match cell_value(line.last()) {
            Some(v) => front.push(v),
            None => front,
        }
    }
}

/// `h` is `g` after the cells of `line` were written to the start of row
/// `row`; a short line leaves the rest of the row as it was.
pub open spec fn row_read(g: GameGrid, h: GameGrid, row: int, line: Seq<char>) -> bool {
    forall|r: int, c: int|
        #![trigger cell(h, r, c)]
        on_board(r, c) ==> cell(h, r, c) == if r == row && c < line_cells(line).len() {
            line_cells(line)[c]
        } else {
            cell(g, r, c)
        }
}

/// Reading one character more extends the cells of a line by what that
/// character stands for.
proof fn lemma_line_cells_step(line: Seq<char>, n: int)
    requires
        0 <= n < line.len(),
    ensures
        line_cells(line.take(n + 1)) == match cell_value(line[n]) {
            Some(v) => line_cells(line.take(n)).push(v),
            None => line_cells(line.take(n)),
        },
{
    assert(line.take(n + 1).drop_last() =~= line.take(n));
}

/// Every cell that a line holds is empty or a digit.
pub proof fn lemma_line_cells_are_digits(line: Seq<char>)
    ensures
        forall|i: int| 0 <= i < line_cells(line).len() ==> #[trigger] line_cells(line)[i] <= 9,
    decreases line.len(),
{
    if line.len() > 0 {
        let front = line_cells(line.drop_last());
        lemma_line_cells_are_digits(line.drop_last());
        assert forall|i: int| 0 <= i < line_cells(line).len() implies #[trigger] line_cells(
            line,
        )[i] <= 9 by {
            if i < front.len() {
                assert(front[i] <= 9);
            }
        }
    }
}

/// A line holds at least as many cells as any of its beginnings.
proof fn lemma_line_cells_grow(line: Seq<char>, n: int)
    requires
        0 <= n <= line.len(),
    ensures
        line_cells(line.take(n)).len() <= line_cells(line).len(),
    decreases line.len() - n,
{
    if n < line.len() {
        lemma_line_cells_step(line, n);
        lemma_line_cells_grow(line, n + 1);
    } else {
        assert(line.take(n) =~= line);
    }
}

/// Whether a line holds no more cells than a row has.
pub fn fits_row(line: &str) -> (fits: bool)
    ensures
        fits == (line_cells(line@).len() <= 9),
{
    let mut count: usize = 0;
    let chars = line.chars();
    for ch in it: chars
        invariant
            it.seq() == line@,
            count == line_cells(line@.take(it.index())).len(),
            count <= 9,
    {
        proof {
            lemma_line_cells_step(line@, it.index());
            lemma_line_cells_grow(line@, it.index() + 1);
        }
        if to_int(ch).is_some() {
            if count == 9 {
                return false;
            }
            count += 1;
        }
    }
    assert(line@.take(line@.len() as int) =~= line@);
    true
}

/// Writes the cells of `line` to the start of row `idx`, left to right.
pub fn read_row(game: &mut GameGrid, idx: usize, line: &str)
    requires
        idx < 9,
        line_cells(line@).len() <= 9,
    ensures
        row_read(*old(game), *final(game), idx as int, line@),
        well_formed(*old(game)) ==> well_formed(*final(game)),
{
    let mut idy: usize = 0;
    let chars = line.chars();
    for ch in it: chars
        invariant
            idx < 9,
            it.seq() == line@,
            line_cells(line@).len() <= 9,
            idy == line_cells(line@.take(it.index())).len(),
            row_read(*old(game), *game, idx as int, line@.take(it.index())),
    {
        let ghost before = *game;
        let ghost cells = line_cells(line@.take(it.index()));
        let ghost next = line_cells(line@.take(it.index() + 1));
        proof {
            lemma_line_cells_step(line@, it.index());
            lemma_line_cells_grow(line@, it.index() + 1);
        }
        if let Some(v) = to_int(ch) {
            game[idx][idy] = v;
            idy += 1;
        }
        assert forall|r: int, c: int| #![trigger cell(*game, r, c)] on_board(r, c) implies cell(
            *game,
            r,
            c,
        ) == if r == idx && c < next.len() {
            next[c]
        } else {
            cell(*old(game), r, c)
        } by {
            assert(cell(before, r, c) == if r == idx && c < cells.len() {
                cells[c]
            } else {
                cell(*old(game), r, c)
            });
        }
    }
    proof {
        assert(line@.take(line@.len() as int) =~= line@);
        if well_formed(*old(game)) {
            lemma_line_cells_are_digits(line@);
        }
    }
}

/// Why a typed board is turned away.
#[derive(Debug, Clone, Copy, PartialEq, Eq, Structural)]
pub enum ReadError {
    /// Not a single digit was typed.
    EmptyBoard,
}

impl ReadError {
    /// The text shown to the user for this error.
    pub fn message(&self) -> (text: String)
        ensures
            text@ == "Empty Game Board !!"@,
    {
        match self {
            ReadError::EmptyBoard => "Empty Game Board !!".to_string(),
        }
    }
}

/// The value that a line gives to column `c` of its row: its cell at that
/// place, or an empty cell where the line is too short.
pub open spec fn typed_cell(line: Seq<char>, c: int) -> usize {
    if 0 <= c < line_cells(line).len() {
        line_cells(line)[c]
    } else {
        0
    }
}

/// `g` is the board that the nine lines spell, one row per line.
pub open spec fn board_read(lines: Seq<String>, g: GameGrid) -> bool {
    forall|r: int, c: int|
        #![trigger cell(g, r, c)]
        on_board(r, c) ==> cell(g, r, c) == typed_cell(lines[r]@, c)
}

/// The nine lines spell no digit at all.
pub open spec fn blank_input(lines: Seq<String>) -> bool {
    forall|r: int, c: int|
        #![trigger typed_cell(lines[r]@, c)]
        on_board(r, c) ==> typed_cell(lines[r]@, c) == 0
}

/// Builds the board that nine typed lines spell. A board without any digit
/// is turned away.
pub fn read_board(lines: &Vec<String>) -> (board: Result<GameGrid, ReadError>)
    requires
        lines.len() == 9,
        forall|r: int| 0 <= r < 9 ==> line_cells(#[trigger] lines[r]@).len() <= 9,
    ensures
        board is Err <==> blank_input(lines@),
        board matches Ok(g) ==> board_read(lines@, g) && well_formed(g),
        board matches Err(e) ==> e == ReadError::EmptyBoard,
{
    let mut game: GameGrid = [[0; 9]; 9];

    // parse one row at a time
    for idx in 0usize..9
        invariant
            lines.len() == 9,
            forall|r: int| 0 <= r < 9 ==> line_cells(#[trigger] lines[r]@).len() <= 9,
            forall|r: int, c: int|
                #![trigger cell(game, r, c)]
                on_board(r, c) ==> cell(game, r, c) == if r < idx {
                    typed_cell(lines[r]@, c)
                } else {
                    0
                },
            well_formed(game),
    {
        read_row(&mut game, idx, lines[idx].as_str());
    }

    if empty(game) {
        proof {
            assert forall|r: int, c: int|
                #![trigger typed_cell(lines[r]@, c)]
                on_board(r, c) implies typed_cell(lines[r]@, c) == 0 by {
                assert(cell(game, r, c) == 0);
            }
        }
        return Err(ReadError::EmptyBoard);
    }
    return Ok(game);
}

} // verus!
