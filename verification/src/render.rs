//! The board as text.

use vstd::prelude::*;
use vstd::string::*;
use crate::board::Board;
use crate::field::Field;

verus! {

/// The character of a decimal digit.
pub open spec fn digit_char(d: nat) -> char
    recommends
        d < 10,
{
    if d == 0 {
        '0'
    } else if d == 1 {
        '1'
    } else if d == 2 {
        '2'
    } else if d == 3 {
        '3'
    } else if d == 4 {
        '4'
    } else if d == 5 {
        '5'
    } else if d == 6 {
        '6'
    } else if d == 7 {
        '7'
    } else if d == 8 {
        '8'
    } else {
        '9'
    }
}

/// A number in decimal notation, without leading zeros.
pub open spec fn decimal(n: nat) -> Seq<char>
    decreases n,
{
    if n < 10 {
        seq![digit_char(n)]
    } else {
        decimal(n / 10).push(digit_char(n % 10))
    }
}

/// One line of the picture: the label of the row, a bar, and the four tiles
/// of the row in decimal notation with two spaces between them. The labels
/// count down, so the top row is labelled 4 and the bottom row 1.
pub open spec fn row_text(b: Board, row: int) -> Seq<char> {
    decimal((4 - row) as nat) + " | "@ + decimal(b.grid[(row, 0)]) + "  "@ + decimal(
        b.grid[(row, 1)],
    ) + "  "@ + decimal(b.grid[(row, 2)]) + "  "@ + decimal(b.grid[(row, 3)]) + "\n"@
}

/// The whole picture: the four rows from the top down, a rule, and the
/// letters of the columns.
pub open spec fn picture(b: Board) -> Seq<char> {
    row_text(b, 0) + row_text(b, 1) + row_text(b, 2) + row_text(b, 3) + "- |------------\n"@
        + "- |  a  b  c  d\n"@
}

/// The first `upto` tiles of a row with two spaces between them.
spec fn tiles_text(b: Board, row: int, upto: int) -> Seq<char>
    decreases upto,
{
    if upto <= 0 {
        Seq::empty()
    } else if upto == 1 {
        decimal(b.grid[(row, 0)])
    } else {
        tiles_text(b, row, upto - 1) + "  "@ + decimal(b.grid[(row, upto - 1)])
    }
}

/// The lines of the first `upto` rows, from the top down.
spec fn rows_text(b: Board, upto: int) -> Seq<char>
    decreases upto,
{
    if upto <= 0 {
        Seq::empty()
    } else {
        rows_text(b, upto - 1) + row_text(b, upto - 1)
    }
}

/// The text of one decimal digit.
fn digit_text(d: usize) -> (text: &'static str)
    requires
        d < 10,
    ensures
        text@ == seq![digit_char(d as nat)],
{
    proof {
        reveal_strlit("0");
        reveal_strlit("1");
        reveal_strlit("2");
        reveal_strlit("3");
        reveal_strlit("4");
        reveal_strlit("5");
        reveal_strlit("6");
        reveal_strlit("7");
        reveal_strlit("8");
        reveal_strlit("9");
    }
    let text = if d == 0 {
        "0"
    } else if d == 1 {
        "1"
    } else if d == 2 {
        "2"
    } else if d == 3 {
        "3"
    } else if d == 4 {
        "4"
    } else if d == 5 {
        "5"
    } else if d == 6 {
        "6"
    } else if d == 7 {
        "7"
    } else if d == 8 {
        "8"
    } else {
        "9"
    };
    assert(text@ =~= seq![digit_char(d as nat)]);
    text
}

/// Writes a number in decimal notation at the end of `out`.
fn push_decimal(out: &mut String, n: usize)
    ensures
        final(out)@ == old(out)@ + decimal(n as nat),
    decreases n,
{
    if n >= 10 {
        push_decimal(out, n / 10);
    }
    out.append(digit_text(n % 10));
    assert(out@ =~= old(out)@ + decimal(n as nat));
}

impl Field {
    /// Draws the board as text: one line for each row from the top down, each
    /// with its label, then a rule and the letters of the columns.
    pub fn draw(&self) -> (text: String)
        ensures
            text@ == picture(self@),
    {
        let grid = self.field();
        let mut out = String::new();
        let mut i: usize = 0;
        while i < 4
            invariant
                i <= 4,
                forall|r: int, c: int|
                    0 <= r < 4 && 0 <= c < 4 ==> #[trigger] grid[r][c] == self@.grid[(r, c)],
                out@ == rows_text(self@, i as int),
            decreases 4 - i,
        {
            let ghost before = out@;
            push_decimal(&mut out, 4 - i);
            out.append(" | ");
            let mut j: usize = 0;
            while j < 4
                invariant
                    i < 4,
                    j <= 4,
                    forall|r: int, c: int|
                        0 <= r < 4 && 0 <= c < 4 ==> #[trigger] grid[r][c] == self@.grid[(r, c)],
                    out@ == before + decimal((4 - i) as nat) + " | "@ + tiles_text(
                        self@,
                        i as int,
                        j as int,
                    ),
                decreases 4 - j,
            {
                let tile = grid[i][j];
                assert(tile == self@.grid[(i as int, j as int)]);
                if j > 0 {
                    out.append("  ");
                }
                push_decimal(&mut out, tile);
                j += 1;
                assert(out@ =~= before + decimal((4 - i) as nat) + " | "@ + tiles_text(
                    self@,
                    i as int,
                    j as int,
                ));
            }
            out.append("\n");
            proof {
                reveal_with_fuel(tiles_text, 5);
                assert(out@ =~= before + row_text(self@, i as int));
            }
            i += 1;
        }
        out.append("- |------------\n");
        out.append("- |  a  b  c  d\n");
        proof {
            reveal_with_fuel(rows_text, 5);
            assert(out@ =~= picture(self@));
        }
        out
    }
}

} // verus!
