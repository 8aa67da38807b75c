//! Reading a move as the player types it.

use vstd::prelude::*;
use vstd::string::*;
use crate::board::{cell_of, Cell};

verus! {

/// The column that a letter names: `a` is the leftmost column, `d` the rightmost.
pub open spec fn column_of(letter: char) -> Option<int> {
    if letter == 'a' {
        Some(0)
    } else if letter == 'b' {
        Some(1)
    } else if letter == 'c' {
        Some(2)
    } else if letter == 'd' {
        Some(3)
    } else {
        None
    }
}

/// The row that a digit names. Rows are labelled from the bottom up, so `1` is
/// the bottom row (row 3) and `4` the top row (row 0).
pub open spec fn row_of(digit: char) -> Option<int> {
    if digit == '1' {
        Some(3)
    } else if digit == '2' {
        Some(2)
    } else if digit == '3' {
        Some(1)
    } else if digit == '4' {
        Some(0)
    } else {
        None
    }
}

/// The cell that a command names: a column letter followed by a row digit.
/// Whatever follows these two characters is not looked at. A text that is
/// shorter, or whose letter or digit names nothing, is no command.
pub open spec fn parse_command(text: Seq<char>) -> Option<Cell> {
    if text.len() < 2 {
        None
    } else {
        match (column_of(text[0]), row_of(text[1])) {
            (Some(col), Some(row)) => Some((row, col)),
            _ => None,
        }
    }
}

/// Reads a command such as `a2` and gives the cell it names, as (row, column).
pub fn user_input_to_coord(ui: &str) -> (coord: Option<(usize, usize)>)
    ensures
        match coord {
            Some(p) => parse_command(ui@) == Some(cell_of(p)),
            None => parse_command(ui@) is None,
        },
{
    if ui.unicode_len() < 2 {
        return None;
    }
    let letter = ui.get_char(0);
    let number = ui.get_char(1);

    let row: usize;
    let col: usize;

    if letter == 'a' {
        col = 0;
    } else if letter == 'b' {
        col = 1;
    } else if letter == 'c' {
        col = 2;
    } else if letter == 'd' {
        col = 3;
    } else {
        return None;
    }

    if number == '1' {
        row = 3;
    } else if number == '2' {
        row = 2;
    } else if number == '3' {
        row = 1;
    } else if number == '4' {
        row = 0;
    } else {
        return None;
    }
    Some((row, col))
}

} // verus!
