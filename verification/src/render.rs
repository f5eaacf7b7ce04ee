//! The board as text, framed and grouped in threes.

use crate::grid::{cell, GameGrid};
use vstd::prelude::*;
use vstd::string::StringExecFns;

verus! {

/// The character for the digit `d`, for `d` from 0 to 9.
pub open spec fn digit_char(d: int) -> char {
    ('0' as int + d) as char
}

/// The decimal numeral of `n`, without leading zeros.
pub open spec fn decimal(n: nat) -> Seq<char>
    decreases n,
{
    if n < 10 {
        seq![digit_char(n as int)]
    } else {
        decimal(n / 10).push(digit_char((n % 10) as int))
    }
}

/// How one cell is shown: its number, or an underscore where it is empty.
pub open spec fn cell_text(v: usize) -> Seq<char> {
    if v > 0 {
        decimal(v as nat)
    } else {
        "_"@
    }
}

/// The start of the line for row `r`: the left border and the first `n`
/// cells, each followed by a space, with a bar and one more space closing
/// every group of three.
pub open spec fn cells_text(g: GameGrid, r: int, n: int) -> Seq<char>
    decreases n,
{
    if n <= 0 {
        "| "@
    } else {
        cells_text(g, r, n - 1) + cell_text(cell(g, r, n - 1)) + if (n - 1) % 3 == 2 {
            " | "@
        } else {
            " "@
        }
    }
}

/// The top rule and the first `n` rows, with a rule below every third row.
pub open spec fn rows_text(g: GameGrid, n: int) -> Seq<char>
    decreases n,
{
    if n <= 0 {
        "-------------------------\n"@
    } else {
        rows_text(g, n - 1) + cells_text(g, n - 1, 9) + if (n - 1) % 3 == 2 {
            "\n-------------------------\n"@
        } else {
            "\n"@
        }
    }
}

/// The whole board as text.
pub open spec fn board_text(g: GameGrid) -> Seq<char> {
    rows_text(g, 9)
}

/// The numeral of a single digit.
fn digit_str(d: usize) -> (text: &'static str)
    requires
        d < 10,
    ensures
        text@ == seq![digit_char(d as int)],
{
    proof {
        reveal_strlit("0");
        reveal_strlit("1");
        reveal_strlit("2");
        reveal_strlit("3");
        reveal_strlit("4");
        reveal_strlit("5");
        reveal_strlit("6");
        reveal_strlit("7");
        reveal_strlit("8");
        reveal_strlit("9");
    }
    let text = match d {
        0 => "0",
        1 => "1",
        2 => "2",
        3 => "3",
        4 => "4",
        5 => "5",
        6 => "6",
        7 => "7",
        8 => "8",
        _ => "9",
    };
    text
}

/// Appends the decimal numeral of `n` to `out`.
fn push_decimal(out: &mut String, n: usize)
    ensures
        final(out)@ == old(out)@ + decimal(n as nat),
    decreases n,
{
    if n >= 10 {
        push_decimal(out, n / 10);
    }
    out.append(digit_str(n % 10));
}

/// Renders the board: a rule of 25 dashes, then the nine rows, each between
/// bars and with a bar after every third cell, and a rule after every third
/// row. An empty cell is shown as `_`.
pub fn render_board(game: GameGrid) -> (text: String)
    ensures
        text@ == board_text(game),
{
    let mut text = String::new();
    text.append("-------------------------\n");
    for row in 0usize..9
        invariant
            text@ == rows_text(game, row as int),
    {
        text.append("| ");
        for col in 0usize..9
            invariant
                row < 9,
                text@ == rows_text(game, row as int) + cells_text(game, row as int, col as int),
        {
            let num = game[row][col];
            if num > 0 {
                push_decimal(&mut text, num);
            } else {
                text.append("_");
            }
            if col % 3 == 2 {
                text.append(" | ");
            } else {
                text.append(" ");
            }
        }
        if row % 3 == 2 {
            text.append("\n-------------------------\n");
        } else {
            text.append("\n");
        }
    }
    text
}

} // verus!
