//! Finding and checking the moves that a position allows.

use vstd::prelude::*;
use crate::board::{
    adjacent, cell_of, cells_of, is_corner, is_edge, is_interior, legal_moves, lemma_legal_moves,
    on_board,
};
use crate::field::{swap_zero, Field};

verus! {

/// The answer to a move that the position does not allow.
#[derive(Debug, Clone, Copy, PartialEq, Eq)]
pub struct InvalidMove;

/// The cells to which a blank at `zero` can go: above, below, left and right
/// of it, in this order, as far as they lie on the grid.
pub fn get_valid_moves(zero: (usize, usize)) -> (moves: Vec<(usize, usize)>)
    ensures
        cells_of(moves@) == legal_moves(cell_of(zero)),
        forall|i: int|
            0 <= i < moves.len() ==> on_board(#[trigger] cell_of(moves[i])) && adjacent(
                cell_of(zero),
                cell_of(moves[i]),
            ),
        is_corner(cell_of(zero)) ==> moves.len() == 2,
        is_edge(cell_of(zero)) ==> moves.len() == 3,
        is_interior(cell_of(zero)) ==> moves.len() == 4,
{
    let (row, col) = zero;
    let mut valid_moves: Vec<(usize, usize)> = Vec::new();
    if 1 <= row && row <= 4 && col < 4 {
        valid_moves.push((row - 1, col));
    }
    if row < 3 && col < 4 {
        valid_moves.push((row + 1, col));
    }
    if row < 4 && 1 <= col && col <= 4 {
        valid_moves.push((row, col - 1));
    }
    if row < 4 && col < 3 {
        valid_moves.push((row, col + 1));
    }
    proof {
        lemma_legal_moves(cell_of(zero));
        assert(cells_of(valid_moves@) =~= legal_moves(cell_of(zero)));
        assert forall|i: int| 0 <= i < valid_moves.len() implies on_board(
            #[trigger] cell_of(valid_moves[i]),
        ) && adjacent(cell_of(zero), cell_of(valid_moves[i])) by {
            assert(cells_of(valid_moves@)[i] == cell_of(valid_moves[i]));
            assert(legal_moves(cell_of(zero)).contains(cell_of(valid_moves[i])));
        }
    }
    valid_moves
}

/// Whether `mv` is a legal move on `field`: one of the cells that its blank
/// can go to.
pub fn is_valid_move(field: &Field, mv: &(usize, usize)) -> (legal: bool)
    ensures
        legal == field@.can_move(cell_of(*mv)),
        legal == (on_board(cell_of(*mv)) && adjacent(field@.blank, cell_of(*mv))),
{
    let valid_moves = get_valid_moves(field.zero());
    let mut i: usize = 0;
    while i < valid_moves.len()
        invariant
            i <= valid_moves.len(),
            cells_of(valid_moves@) == legal_moves(field@.blank),
            forall|k: int| 0 <= k < i ==> cell_of(#[trigger] valid_moves[k]) != cell_of(*mv),
        decreases valid_moves.len() - i,
    {
        if valid_moves[i].0 == mv.0 && valid_moves[i].1 == mv.1 {
            proof {
                lemma_legal_moves(field@.blank);
                assert(cells_of(valid_moves@)[i as int] == cell_of(*mv));
            }
            return true;
        }
        i += 1;
    }
    proof {
        lemma_legal_moves(field@.blank);
        let moves = legal_moves(field@.blank);
        assert forall|k: int| 0 <= k < moves.len() implies moves[k] != cell_of(*mv) by {
            assert(moves[k] == cell_of(valid_moves[k]));
        }
    }
    false
}

/// Moves the blank to `target` if the position allows it, and refuses the
/// move otherwise.
pub fn apply_move(f: &Field, target: (usize, usize)) -> (moved: Result<Field, InvalidMove>)
    ensures
        moved is Ok <==> f@.can_move(cell_of(target)),
        moved is Ok <==> on_board(cell_of(target)) && adjacent(f@.blank, cell_of(target)),
        moved matches Ok(g) ==> g@ == f@.moved(cell_of(target)) && g@.wf(),
{
    if is_valid_move(f, &target) {
        Ok(swap_zero(f, target))
    } else {
        Err(InvalidMove)
    }
}

} // verus!
