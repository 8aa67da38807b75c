//! Shuffling by a random walk of the blank.

use rand::rngs::ThreadRng;
use rand::Rng;
use vstd::prelude::*;
use crate::board::{cells_of, legal_moves, Cell};
use crate::field::{swap_zero, Field};
use crate::moves::get_valid_moves;
use crate::parity::lemma_walk_in_step;
use crate::walk::{lemma_solvable_kept, lemma_walk_push};

verus! {

/// The handle to the random number generator of the running thread. What is
/// inside it is not known here: it is only handed on.
#[verifier::external_type_specification]
#[verifier::external_body]
pub struct ExThreadRng(rand::rngs::ThreadRng);

/// Calls `rand::thread_rng`, which hands out the generator of the running
/// thread, seeded by the system; it panics if the system cannot seed it.
/// Nothing is claimed of the generator.
#[verifier::external_body]
fn thread_generator() -> ThreadRng {
    rand::thread_rng()
}

/// Calls `Rng::gen_range` on the range from 0 up to, and without, `bound`.
/// The range must not be empty, or the call panics. It also panics if the
/// generator is due for new seed and the system fails to give it. Claimed is
/// only that the number drawn lies in the range; which one it is depends on
/// chance.
#[verifier::external_body]
fn pick_below(rng: &mut ThreadRng, bound: usize) -> (index: usize)
    requires
        bound > 0,
    ensures
        index < bound,
{
    rng.gen_range(0..bound)
}

/// Moves the blank to one of its legal moves: the one with number `choice`,
/// counted from 0 in the order above, below, left, right.
pub fn move_by_choice(f: &Field, choice: usize) -> (g: Field)
    requires
        choice < legal_moves(f@.blank).len(),
    ensures
        g@ == f@.moved(legal_moves(f@.blank)[choice as int]),
        g@.wf(),
{
    let cross = get_valid_moves(f.zero());
    assert(cells_of(cross@)[choice as int] == legal_moves(f@.blank)[choice as int]);
    swap_zero(f, cross[choice])
}

/// Shuffles by `times` random moves, each drawn evenly from the moves that
/// are legal where the blank then is. With `times` at or below 0 the board
/// stays as it is. The result is one that `times` legal moves reach, so a
/// field that could be solved can still be solved, and one whose inversions
/// were in step with the place of its blank still has them so.
pub fn make_random_move(f: Field, times: i8) -> (shuffled: Field)
    ensures
        f@.reaches(shuffled@, if times > 0 { times as nat } else { 0 }),
        shuffled@.wf(),
        times <= 0 ==> shuffled@ == f@,
        f@.solvable() ==> shuffled@.solvable(),
        f@.in_step() ==> shuffled@.in_step(),
{
    let mut rng = thread_generator();
    let mut updated_field = f;
    let ghost mut path: Seq<Cell> = Seq::empty();
    let mut made: i8 = 0;
    proof {
        use_type_invariant(&f);
    }
    while made < times
        invariant
            0 <= made,
            made <= times || made == 0,
            path.len() == made,
            f@.legal_walk(path),
            f@.walk(path) == updated_field@,
            updated_field@.wf(),
        decreases times - made,
    {
        let cross = get_valid_moves(updated_field.zero());
        let index_move = pick_below(&mut rng, cross.len());
        proof {
            let target = legal_moves(updated_field@.blank)[index_move as int];
            lemma_walk_push(f@, path, target);
            path = path.push(target);
        }
        updated_field = move_by_choice(&updated_field, index_move);
        made += 1;
    }
    proof {
        assert(f@.legal_walk(path) && f@.walk(path) == updated_field@);
        if f@.solvable() {
            lemma_solvable_kept(f@, updated_field@, path.len());
        }
        if f@.in_step() {
            lemma_walk_in_step(f@, path);
        }
    }
    updated_field
}

} // verus!
