//! What shuffling by legal moves cannot change: every move changes the
//! number of inversions by an odd amount and moves the blank by one step, so
//! the two stay in step.

use vstd::prelude::*;
use crate::board::{adjacent, lemma_legal_moves, lemma_solved_wf, on_board, Board, Cell};
use crate::walk::{lemma_reaches_back, lemma_walk_wf};

verus! {

/// How many entries of `s` are above `v`.
pub open spec fn count_above(s: Seq<nat>, v: nat) -> nat
    decreases s.len(),
{
    if s.len() == 0 {
        0
    } else {
        count_above(s.drop_last(), v) + if s.last() > v {
            1nat
        } else {
            0nat
        }
    }
}

/// The number of inversions of `s`: the pairs of places of which the earlier
/// holds the larger entry.
pub open spec fn inversions(s: Seq<nat>) -> nat
    decreases s.len(),
{
    if s.len() == 0 {
        0
    } else {
        inversions(s.drop_last()) + count_above(s.drop_last(), s.last())
    }
}

/// The sequence with the entries at two places exchanged.
pub open spec fn exchanged(s: Seq<nat>, i: int, j: int) -> Seq<nat> {
    s.update(i, s[j]).update(j, s[i])
}

/// The sixteen tiles of a board row by row, the blank included.
pub open spec fn flat(b: Board) -> Seq<nat> {
    Seq::new(16, |k: int| b.grid[(k / 4, k % 4)])
}

impl Board {
    /// Whether the number of inversions of the tiles, read row by row with the
    /// blank as tile 0, is even exactly when the blank's row plus column is.
    pub open spec fn in_step(self) -> bool {
        inversions(flat(self)) % 2 == (self.blank.0 + self.blank.1) % 2
    }
}

proof fn lemma_count_above_update(s: Seq<nat>, i: int, x: nat, v: nat)
    requires
        0 <= i < s.len(),
    ensures
        count_above(s.update(i, x), v) + (if s[i] > v { 1int } else { 0int })
            == count_above(s, v) + (if x > v { 1int } else { 0int }),
    decreases s.len(),
{
    let t = s.update(i, x);
    if i == s.len() - 1 {
        assert(t.drop_last() =~= s.drop_last());
    } else {
        lemma_count_above_update(s.drop_last(), i, x, v);
        assert(t.drop_last() =~= s.drop_last().update(i, x));
    }
}

proof fn lemma_count_above_exchanged(s: Seq<nat>, i: int, j: int, v: nat)
    requires
        0 <= i < s.len(),
        0 <= j < s.len(),
    ensures
        count_above(exchanged(s, i, j), v) == count_above(s, v),
{
    lemma_count_above_update(s, i, s[j], v);
    lemma_count_above_update(s.update(i, s[j]), j, s[i], v);
}

/// Exchanging two neighbours that differ adds or takes away one inversion.
proof fn lemma_inversions_neighbours(s: Seq<nat>, k: int)
    requires
        0 <= k,
        k + 1 < s.len(),
        s[k] != s[k + 1],
    ensures
        inversions(exchanged(s, k, k + 1)) == inversions(s) + (if s[k] < s[k + 1] {
            1int
        } else {
            -1int
        }),
    decreases s.len(),
{
    let e = exchanged(s, k, k + 1);
    if k + 1 == s.len() - 1 {
        let t = s.drop_last().drop_last();
        let a = s[k];
        let b = s[k + 1];
        assert(s.drop_last() =~= t.push(a));
        assert(e.drop_last() =~= t.push(b));
        assert(t.push(a).drop_last() =~= t);
        assert(t.push(b).drop_last() =~= t);
        assert(e.last() == a);
        assert(inversions(s) == inversions(t.push(a)) + count_above(t.push(a), b));
        assert(inversions(e) == inversions(t.push(b)) + count_above(t.push(b), a));
        assert(inversions(t.push(a)) == inversions(t) + count_above(t, a));
        assert(inversions(t.push(b)) == inversions(t) + count_above(t, b));
        assert(count_above(t.push(a), b) == count_above(t, b) + if a > b { 1int } else { 0int });
        assert(count_above(t.push(b), a) == count_above(t, a) + if b > a { 1int } else { 0int });
    } else {
        lemma_inversions_neighbours(s.drop_last(), k);
        assert(e.drop_last() =~= exchanged(s.drop_last(), k, k + 1));
        lemma_count_above_exchanged(s.drop_last(), k, k + 1, s.last());
    }
}

/// Exchanging the entries at two places, in a sequence that holds nothing
/// twice, changes the number of inversions by an odd amount.
pub proof fn lemma_inversions_exchanged(s: Seq<nat>, p: int, q: int)
    requires
        0 <= p < q < s.len(),
        s.no_duplicates(),
    ensures
        (inversions(exchanged(s, p, q)) + inversions(s)) % 2 == 1,
    decreases q - p,
{
    if q == p + 1 {
        lemma_inversions_neighbours(s, p);
    } else {
        let s1 = exchanged(s, q - 1, q);
        lemma_inversions_neighbours(s, q - 1);
        let s2 = exchanged(s1, p, q - 1);
        assert(s1.no_duplicates());
        lemma_inversions_exchanged(s1, p, q - 1);
        let s3 = exchanged(s2, q - 1, q);
        assert(s2[q - 1] != s2[q]);
        lemma_inversions_neighbours(s2, q - 1);
        assert(s3 =~= exchanged(s, p, q));
    }
}

proof fn lemma_count_above_none(s: Seq<nat>, v: nat)
    requires
        forall|i: int| 0 <= i < s.len() ==> s[i] <= v,
    ensures
        count_above(s, v) == 0,
    decreases s.len(),
{
    if s.len() > 0 {
        lemma_count_above_none(s.drop_last(), v);
    }
}

/// A sequence that never falls has no inversions.
pub proof fn lemma_inversions_sorted(s: Seq<nat>)
    requires
        forall|i: int, j: int| 0 <= i <= j < s.len() ==> s[i] <= s[j],
    ensures
        inversions(s) == 0,
    decreases s.len(),
{
    if s.len() > 0 {
        lemma_inversions_sorted(s.drop_last());
        lemma_count_above_none(s.drop_last(), s.last());
    }
}

/// The solved board is in step: it has no inversions, and its blank is in
/// row 0 and column 0.
pub proof fn lemma_solved_in_step()
    ensures
        Board::solved().in_step(),
{
    let s = flat(Board::solved());
    assert forall|i: int| 0 <= i < 16 implies s[i] == i by {
        assert(on_board((i / 4, i % 4)));
    }
    lemma_inversions_sorted(s);
}

/// A legal move exchanges two tiles of the row-by-row reading: the blank
/// and the tile at the target.
proof fn lemma_flat_moved(b: Board, target: Cell)
    requires
        b.wf(),
        b.can_move(target),
    ensures
        flat(b).no_duplicates(),
        on_board(target),
        adjacent(b.blank, target),
        flat(b.moved(target)) == exchanged(
            flat(b),
            4 * b.blank.0 + b.blank.1,
            4 * target.0 + target.1,
        ),
        flat(b.moved(target)) == exchanged(
            flat(b),
            4 * target.0 + target.1,
            4 * b.blank.0 + b.blank.1,
        ),
{
    lemma_legal_moves(b.blank);
    let s = flat(b);
    assert forall|i: int, j: int| 0 <= i < 16 && 0 <= j < 16 && i != j implies s[i] != s[j] by {
        let p: Cell = (i / 4, i % 4);
        let q: Cell = (j / 4, j % 4);
        assert(on_board(p) && on_board(q) && p != q);
    }
    let from = 4 * b.blank.0 + b.blank.1;
    let to = 4 * target.0 + target.1;
    let after = flat(b.moved(target));
    assert forall|k: int| 0 <= k < 16 implies after[k] == exchanged(s, from, to)[k] by {
        let p: Cell = (k / 4, k % 4);
        assert(on_board(p));
        assert(p == b.blank <==> k == from);
        assert(p == target <==> k == to);
    }
    assert(after =~= exchanged(s, from, to));
    assert(exchanged(s, from, to) =~= exchanged(s, to, from));
}

/// A legal move keeps a well-formed board in step.
pub proof fn lemma_moved_in_step(b: Board, target: Cell)
    requires
        b.wf(),
        b.can_move(target),
        b.in_step(),
    ensures
        b.moved(target).in_step(),
{
    lemma_flat_moved(b, target);
    let from = 4 * b.blank.0 + b.blank.1;
    let to = 4 * target.0 + target.1;
    if from < to {
        lemma_inversions_exchanged(flat(b), from, to);
    } else {
        lemma_inversions_exchanged(flat(b), to, from);
    }
}

/// Legal moves never lead out of the boards that are in step.
pub proof fn lemma_walk_in_step(b: Board, path: Seq<Cell>)
    requires
        b.wf(),
        b.legal_walk(path),
        b.in_step(),
    ensures
        b.walk(path).in_step(),
    decreases path.len(),
{
    if path.len() > 0 {
        lemma_walk_in_step(b, path.drop_last());
        lemma_walk_wf(b, path.drop_last());
        lemma_moved_in_step(b.walk(path.drop_last()), path.last());
    }
}

/// What legal moves reach from a well-formed board that is in step is in
/// step.
pub proof fn lemma_reached_in_step(from: Board, to: Board, steps: nat)
    requires
        from.wf(),
        from.in_step(),
        from.reaches(to, steps),
    ensures
        to.in_step(),
{
    let path = choose|path: Seq<Cell>|
        path.len() == steps && from.legal_walk(path) && #[trigger] from.walk(path) == to;
    lemma_walk_in_step(from, path);
}

/// Every board that legal moves reach from the solved one is in step.
pub proof fn lemma_shuffled_in_step(b: Board, steps: nat)
    requires
        Board::solved().reaches(b, steps),
    ensures
        b.in_step(),
{
    lemma_solved_wf();
    lemma_solved_in_step();
    lemma_reached_in_step(Board::solved(), b, steps);
}

/// Every well-formed board that can be solved is in step.
pub proof fn lemma_solvable_in_step(b: Board)
    requires
        b.wf(),
        b.solvable(),
    ensures
        b.in_step(),
{
    let steps = choose|steps: nat| b.reaches(Board::solved(), steps);
    lemma_reaches_back(b, Board::solved(), steps);
    lemma_shuffled_in_step(b, steps);
}

} // verus!
