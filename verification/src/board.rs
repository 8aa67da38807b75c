//! The mathematical model of the puzzle: cells, boards and single moves.

use vstd::prelude::*;

verus! {

/// A cell of the grid, written as (row, column). Row 0 is the top row.
pub type Cell = (int, int);

/// The cell that an executable coordinate pair names.
pub open spec fn cell_of(p: (usize, usize)) -> Cell {
    (p.0 as int, p.1 as int)
}

/// The cells that a sequence of executable coordinate pairs names, in order.
pub open spec fn cells_of(coords: Seq<(usize, usize)>) -> Seq<Cell> {
    Seq::new(coords.len(), |i: int| cell_of(coords[i]))
}

/// Whether a cell lies inside the four-by-four grid.
pub open spec fn on_board(p: Cell) -> bool {
    0 <= p.0 < 4 && 0 <= p.1 < 4
}

/// Whether two cells are neighbours: they differ by one step along one axis
/// and agree on the other.
pub open spec fn adjacent(p: Cell, q: Cell) -> bool {
    ||| q.1 == p.1 && (q.0 == p.0 - 1 || q.0 == p.0 + 1)
    ||| q.0 == p.0 && (q.1 == p.1 - 1 || q.1 == p.1 + 1)
}

/// Whether a cell is one of the four corners of the grid.
pub open spec fn is_corner(p: Cell) -> bool {
    (p.0 == 0 || p.0 == 3) && (p.1 == 0 || p.1 == 3)
}

/// Whether a cell is one of the four cells that touch no border.
pub open spec fn is_interior(p: Cell) -> bool {
    1 <= p.0 <= 2 && 1 <= p.1 <= 2
}

/// Whether a cell lies on a border of the grid without being a corner.
pub open spec fn is_edge(p: Cell) -> bool {
    on_board(p) && !is_corner(p) && !is_interior(p)
}

/// The cell itself if it lies on the grid, and nothing otherwise.
pub open spec fn kept(q: Cell) -> Seq<Cell> {
    if on_board(q) {
        seq![q]
    } else {
        Seq::empty()
    }
}

/// The cells to which a blank at `blank` can go: the cell above, the one
/// below, the one to the left and the one to the right, in this order, each
/// only if it lies on the grid.
pub open spec fn legal_moves(blank: Cell) -> Seq<Cell> {
    kept((blank.0 - 1, blank.1)) + kept((blank.0 + 1, blank.1)) + kept((blank.0, blank.1 - 1))
        + kept((blank.0, blank.1 + 1))
}

/// The tile that the solved arrangement holds at a cell.
pub open spec fn home_tile(p: Cell) -> nat {
    (4 * p.0 + p.1) as nat
}

/// A board: the tile on each cell, and where the blank is. Tile 0 is the blank.
pub struct Board {
    pub grid: Map<Cell, nat>,
    pub blank: Cell,
}

impl Board {
    /// The arrangement in which every cell holds its home tile.
    pub open spec fn solved() -> Board {
        Board { grid: Map::new(|p: Cell| on_board(p), |p: Cell| home_tile(p)), blank: (0, 0) }
    }

    /// Whether some cell of the grid holds tile `v`.
    pub open spec fn holds(self, v: nat) -> bool {
        exists|p: Cell| on_board(p) && #[trigger] self.grid[p] == v
    }

    /// A board is well formed when its cells are exactly those of the grid, the
    /// tiles on them are exactly 0 to 15, no tile lies on two cells, and the
    /// blank position is the cell that holds tile 0.
    pub open spec fn wf(self) -> bool {
        &&& forall|p: Cell| self.grid.dom().contains(p) <==> on_board(p)
        &&& forall|p: Cell| on_board(p) ==> #[trigger] self.grid[p] < 16
        &&& forall|v: nat| v < 16 ==> self.holds(v)
        &&& forall|p: Cell, q: Cell|
            on_board(p) && on_board(q) && #[trigger] self.grid[p] == #[trigger] self.grid[q] ==> p == q
        &&& on_board(self.blank)
        &&& self.grid[self.blank] == 0
    }

    /// Whether the blank can go to `target` in one move.
    pub open spec fn can_move(self, target: Cell) -> bool {
        legal_moves(self.blank).contains(target)
    }

    /// The board after the blank went to `target`: the tile that lay there
    /// lies where the blank was, and `target` holds the blank. This is a move
    /// of the puzzle only where `can_move(target)` holds.
    pub open spec fn moved(self, target: Cell) -> Board {
        Board {
            grid: self.grid.insert(self.blank, self.grid[target]).insert(target, 0),
            blank: target,
        }
    }

    /// Whether every cell holds its home tile.
    pub open spec fn is_solved(self) -> bool {
        forall|p: Cell| on_board(p) ==> #[trigger] self.grid[p] == home_tile(p)
    }
}

/// The solved arrangement is well formed and solved.
pub proof fn lemma_solved_wf()
    ensures
        Board::solved().wf(),
        Board::solved().is_solved(),
{
    let b = Board::solved();
    assert forall|v: nat| v < 16 implies b.holds(v) by {
        let p: Cell = (v as int / 4, v as int % 4);
        assert(on_board(p) && b.grid[p] == v);
    }
}

/// Only one well-formed board is solved.
pub proof fn lemma_solved_unique(b: Board)
    requires
        b.wf(),
        b.is_solved(),
    ensures
        b == Board::solved(),
{
    assert(b.grid =~= Board::solved().grid);
    assert(b.grid[(0, 0)] == b.grid[b.blank]);
}

/// The legal moves from a cell are exactly its neighbours on the grid, none of
/// them twice. From a cell of the grid there are two of them in a corner,
/// three on an edge and four in the interior.
pub proof fn lemma_legal_moves(blank: Cell)
    ensures
        forall|q: Cell| legal_moves(blank).contains(q) <==> on_board(q) && adjacent(blank, q),
        legal_moves(blank).no_duplicates(),
        is_corner(blank) ==> legal_moves(blank).len() == 2,
        is_edge(blank) ==> legal_moves(blank).len() == 3,
        is_interior(blank) ==> legal_moves(blank).len() == 4,
{
    let moves = legal_moves(blank);
    let up: Cell = (blank.0 - 1, blank.1);
    let down: Cell = (blank.0 + 1, blank.1);
    let left: Cell = (blank.0, blank.1 - 1);
    let right: Cell = (blank.0, blank.1 + 1);
    assert forall|q: Cell| on_board(q) && adjacent(blank, q) implies moves.contains(q) by {
        let i = if q == up {
            0
        } else if q == down {
            kept(up).len() as int
        } else if q == left {
            (kept(up) + kept(down)).len() as int
        } else {
            (kept(up) + kept(down) + kept(left)).len() as int
        };
        assert(0 <= i < moves.len() && moves[i] == q);
    }
}

/// A legal move keeps a well-formed board well formed.
pub proof fn lemma_moved_wf(b: Board, target: Cell)
    requires
        b.wf(),
        b.can_move(target),
    ensures
        b.moved(target).wf(),
{
    lemma_legal_moves(b.blank);
    let after = b.moved(target);
    assert forall|v: nat| v < 16 implies after.holds(v) by {
        assert(b.holds(v));
        let p = choose|p: Cell| on_board(p) && #[trigger] b.grid[p] == v;
        let q = if p == target {
            b.blank
        } else if p == b.blank {
            target
        } else {
            p
        };
        assert(on_board(q) && after.grid[q] == v);
    }
}

/// Moving the blank to a neighbour and then back to where it was leaves the
/// board as it was: every move is undone by the move in the other direction.
pub proof fn lemma_move_back(b: Board, target: Cell)
    requires
        b.wf(),
        b.can_move(target),
    ensures
        b.moved(target).can_move(b.blank),
        b.moved(target).moved(b.blank) == b,
{
    let there = b.moved(target);
    assert(on_board(target) && adjacent(b.blank, target)) by {
        lemma_legal_moves(b.blank);
    }
    assert(there.can_move(b.blank)) by {
        lemma_legal_moves(target);
    }
    assert(there.moved(b.blank).grid =~= b.grid);
}

} // verus!
