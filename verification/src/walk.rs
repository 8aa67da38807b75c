//! Sequences of moves, and what can be reached by them.

use vstd::prelude::*;
use crate::board::{lemma_move_back, lemma_moved_wf, Board, Cell};

verus! {

impl Board {
    /// The board after the blank went along `path`, from its first cell to
    /// its last.
    pub open spec fn walk(self, path: Seq<Cell>) -> Board
        decreases path.len(),
    {
        if path.len() == 0 {
            self
        } else {
            self.walk(path.drop_last()).moved(path.last())
        }
    }

    /// Whether every step of `path` is a legal move on the board on which it
    /// is made.
    pub open spec fn legal_walk(self, path: Seq<Cell>) -> bool
        decreases path.len(),
    {
        path.len() == 0 || (self.legal_walk(path.drop_last()) && self.walk(
            path.drop_last(),
        ).can_move(path.last()))
    }

    /// Whether `steps` legal moves lead from this board to `other`.
    pub open spec fn reaches(self, other: Board, steps: nat) -> bool {
        exists|path: Seq<Cell>|
            path.len() == steps && self.legal_walk(path) && #[trigger] self.walk(path) == other
    }

    /// Whether legal moves lead from this board to the solved one.
    pub open spec fn solvable(self) -> bool {
        exists|steps: nat| self.reaches(Board::solved(), steps)
    }
}

/// A walk that is made one step longer ends where that step leads from its
/// old end, and is legal if it was legal and the step is.
pub proof fn lemma_walk_push(b: Board, path: Seq<Cell>, target: Cell)
    ensures
        b.walk(path.push(target)) == b.walk(path).moved(target),
        b.legal_walk(path.push(target)) == (b.legal_walk(path) && b.walk(path).can_move(target)),
{
    assert(path.push(target).drop_last() =~= path);
}

/// Walking along one path and then along another is walking along the two
/// joined.
pub proof fn lemma_walk_join(b: Board, first: Seq<Cell>, second: Seq<Cell>)
    ensures
        b.walk(first + second) == b.walk(first).walk(second),
        b.legal_walk(first + second) == (b.legal_walk(first) && b.walk(first).legal_walk(second)),
    decreases second.len(),
{
    if second.len() == 0 {
        assert(first + second =~= first);
    } else {
        lemma_walk_join(b, first, second.drop_last());
        assert((first + second).drop_last() =~= first + second.drop_last());
    }
}

/// Legal moves never leave the well-formed boards.
pub proof fn lemma_walk_wf(b: Board, path: Seq<Cell>)
    requires
        b.wf(),
        b.legal_walk(path),
    ensures
        b.walk(path).wf(),
    decreases path.len(),
{
    if path.len() > 0 {
        lemma_walk_wf(b, path.drop_last());
        lemma_moved_wf(b.walk(path.drop_last()), path.last());
    }
}

/// What can be reached from a well-formed board is well formed.
pub proof fn lemma_reached_wf(from: Board, to: Board, steps: nat)
    requires
        from.wf(),
        from.reaches(to, steps),
    ensures
        to.wf(),
{
    let path = choose|path: Seq<Cell>|
        path.len() == steps && from.legal_walk(path) && #[trigger] from.walk(path) == to;
    lemma_walk_wf(from, path);
}

/// Every walk can be walked back: if some number of legal moves lead from one
/// well-formed board to another, as many lead from the other to the one.
pub proof fn lemma_reaches_back(from: Board, to: Board, steps: nat)
    requires
        from.wf(),
        from.reaches(to, steps),
    ensures
        to.reaches(from, steps),
{
    let path = choose|path: Seq<Cell>|
        path.len() == steps && from.legal_walk(path) && #[trigger] from.walk(path) == to;
    lemma_walk_back(from, path);
}

/// The way back along a legal walk, step by step.
proof fn lemma_walk_back(from: Board, path: Seq<Cell>)
    requires
        from.wf(),
        from.legal_walk(path),
    ensures
        from.walk(path).reaches(from, path.len()),
    decreases path.len(),
{
    let to = from.walk(path);
    if path.len() == 0 {
        let stay = Seq::<Cell>::empty();
        assert(to.legal_walk(stay) && to.walk(stay) == from);
    } else {
        let before = from.walk(path.drop_last());
        lemma_walk_wf(from, path.drop_last());
        lemma_walk_back(from, path.drop_last());
        let rest = choose|rest: Seq<Cell>|
            rest.len() == path.len() - 1 && before.legal_walk(rest) && #[trigger] before.walk(rest)
                == from;
        lemma_move_back(before, path.last());
        let step = seq![before.blank];
        assert(to.legal_walk(step) && to.walk(step) == before) by {
            let stay = Seq::<Cell>::empty();
            assert(stay.push(before.blank) =~= step);
            assert(to.legal_walk(stay) && to.walk(stay) == to);
            lemma_walk_push(to, stay, before.blank);
        }
        lemma_walk_join(to, step, rest);
        assert(to.legal_walk(step + rest) && to.walk(step + rest) == from);
    }
}

/// Legal moves that lead from a first board to a second, followed by legal
/// moves that lead from the second to a third, lead from the first to the
/// third.
pub proof fn lemma_reaches_on(first: Board, second: Board, third: Board, steps: nat, more: nat)
    requires
        first.reaches(second, steps),
        second.reaches(third, more),
    ensures
        first.reaches(third, steps + more),
{
    let path = choose|path: Seq<Cell>|
        path.len() == steps && first.legal_walk(path) && #[trigger] first.walk(path) == second;
    let rest = choose|rest: Seq<Cell>|
        rest.len() == more && second.legal_walk(rest) && #[trigger] second.walk(rest) == third;
    lemma_walk_join(first, path, rest);
    assert(first.legal_walk(path + rest) && first.walk(path + rest) == third);
}

/// Legal moves never lead from a board that can be solved to one that
/// cannot.
pub proof fn lemma_solvable_kept(from: Board, to: Board, steps: nat)
    requires
        from.wf(),
        from.solvable(),
        from.reaches(to, steps),
    ensures
        to.solvable(),
{
    let more = choose|more: nat| from.reaches(Board::solved(), more);
    lemma_reaches_back(from, to, steps);
    lemma_reaches_on(to, from, Board::solved(), steps, more);
}

/// The solved board can be solved: no move is needed.
pub proof fn lemma_solved_solvable()
    ensures
        Board::solved().solvable(),
{
    let solved = Board::solved();
    let stay = Seq::<Cell>::empty();
    assert(solved.legal_walk(stay) && solved.walk(stay) == solved);
    assert(solved.reaches(solved, 0));
}

/// A board that legal moves reach from the solved one is well formed and can
/// be solved, in as many moves as it took to reach it.
pub proof fn lemma_shuffled_solvable(b: Board, steps: nat)
    requires
        Board::solved().reaches(b, steps),
    ensures
        b.wf(),
        b.reaches(Board::solved(), steps),
        b.solvable(),
{
    crate::board::lemma_solved_wf();
    lemma_reached_wf(Board::solved(), b, steps);
    lemma_reaches_back(Board::solved(), b, steps);
}

} // verus!
