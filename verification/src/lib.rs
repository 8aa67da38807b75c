//! A sliding fifteen puzzle on a four-by-four grid.
//!
//! Fifteen numbered tiles and one blank lie on sixteen cells. A move slides a
//! tile that lies next to the blank into the blank's place. The puzzle is
//! solved when the blank is in the top left corner and the tiles follow in
//! rising order, row by row.
//!
//! `board` and `walk` hold the mathematical model: boards, single moves and
//! sequences of moves, with the lemmas that relate them. `parity` proves that
//! legal moves keep the inversions of the tiles in step with the place of
//! the blank, as they are on every board that can be solved. `field` holds
//! the board that is played on, `moves` finds and checks moves, `shuffle`
//! mixes the tiles by random legal moves, `input` reads a move as the player
//! types it, and `render` draws the board as text.

pub mod board;
pub mod field;
pub mod input;
pub mod moves;
pub mod parity;
pub mod render;
pub mod shuffle;
pub mod walk;

pub use field::{is_done, swap_zero, Field};
pub use input::user_input_to_coord;
pub use shuffle::{make_random_move, move_by_choice};
pub use moves::{apply_move, get_valid_moves, is_valid_move, InvalidMove};
