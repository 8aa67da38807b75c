//! The executable board.

use vstd::prelude::*;
use crate::board::{
    cell_of, home_tile, lemma_move_back, lemma_moved_wf, lemma_solved_unique, lemma_solved_wf,
    on_board, Board, Cell,
};

verus! {

/// The puzzle as it is played: the sixteen tiles row by row, and the blank's place.
#[derive(Debug, Clone, Copy, PartialEq, Eq)]
pub struct Field {
    field: [[usize; 4]; 4],
    zero: (usize, usize),
}

impl View for Field {
    type V = Board;

    closed spec fn view(&self) -> Board {
        Board {
            grid: Map::new(|p: Cell| on_board(p), |p: Cell| self.field[p.0][p.1] as nat),
            blank: cell_of(self.zero),
        }
    }
}

impl Field {
    /// Every field that exists is a well-formed board.
    #[verifier::type_invariant]
    pub open spec fn inv(self) -> bool {
        self@.wf()
    }

    /// The solved puzzle: the tiles in rising order, the blank in the top left corner.
    pub fn new() -> (f: Field)
        ensures
            f@ == Board::solved(),
            f@.wf(),
            f@.is_solved(),
    {
        let mut value: usize = 0;
        let mut field: [[usize; 4]; 4] = [[0, 0, 0, 0]; 4];
        let mut i: usize = 0;
        while i < 4
            invariant
                i <= 4,
                value == 4 * i,
                forall|r: int, c: int| 0 <= r < i && 0 <= c < 4 ==> field[r][c] == 4 * r + c,
            decreases 4 - i,
        {
            let mut j: usize = 0;
            while j < 4
                invariant
                    i < 4,
                    j <= 4,
                    value == 4 * i + j,
                    forall|r: int, c: int| 0 <= r < i && 0 <= c < 4 ==> field[r][c] == 4 * r + c,
                    forall|c: int| 0 <= c < j ==> field[i as int][c] == 4 * i + c,
                decreases 4 - j,
            {
                field[i][j] = value;
                value += 1;
                j += 1;
            }
            i += 1;
        }
        proof {
            let made = Field { field, zero: (0, 0) };
            assert(made@.grid =~= Board::solved().grid);
            lemma_solved_wf();
        }
        Field { field, zero: (0, 0) }
    }

    /// Where the blank is, as (row, column).
    pub fn zero(&self) -> (z: (usize, usize))
        ensures
            cell_of(z) == self@.blank,
            z.0 < 4,
            z.1 < 4,
    {
        proof {
            use_type_invariant(self);
        }
        self.zero
    }

    /// The tiles, row by row.
    pub fn field(&self) -> (g: [[usize; 4]; 4])
        ensures
            forall|r: int, c: int|
                #![trigger g[r][c]]
                #![trigger self@.grid[(r, c)]]
                0 <= r < 4 && 0 <= c < 4 ==> g[r][c] == self@.grid[(r, c)],
    {
        self.field
    }
}

/// A field is known by its board: two fields that show the same board are
/// the same field.
pub proof fn lemma_same_board(f: Field, g: Field)
    requires
        f@ == g@,
    ensures
        f == g,
{
    assert forall|r: int| 0 <= r < 4 implies f.field[r] == g.field[r] by {
        assert forall|c: int| 0 <= c < 4 implies f.field[r][c] == g.field[r][c] by {
            let p: Cell = (r, c);
            assert(on_board(p));
            assert(f@.grid[p] == f.field[r][c] as nat);
            assert(g@.grid[p] == g.field[r][c] as nat);
        }
        assert(f.field[r] =~= g.field[r]);
    }
    assert(f.field =~= g.field);
}

/// Moves the blank to `pos`: the tile that lay there goes to where the blank
/// was. `pos` has to be a legal move; `apply_move` is the form that tests
/// this itself and refuses any other target. The way back is then a legal
/// move too, and leads to the field as it was.
pub fn swap_zero(f: &Field, pos: (usize, usize)) -> (g: Field)
    requires
        f@.can_move(cell_of(pos)),
    ensures
        g@ == f@.moved(cell_of(pos)),
        g@.wf(),
        g@.can_move(f@.blank),
        g@.moved(f@.blank) == f@,
{
    proof {
        use_type_invariant(f);
        lemma_moved_wf(f@, cell_of(pos));
        lemma_move_back(f@, cell_of(pos));
    }
    let mut field_copy = f.field;
    field_copy[f.zero.0][f.zero.1] = field_copy[pos.0][pos.1];
    field_copy[pos.0][pos.1] = 0;
    proof {
        let made = Field { field: field_copy, zero: pos };
        assert(made@.grid =~= f@.moved(cell_of(pos)).grid);
    }
    Field { field: field_copy, zero: pos }
}

/// Whether the puzzle is solved: every cell holds its home tile, as on a new
/// field.
pub fn is_done(field: &Field) -> (done: bool)
    ensures
        done == field@.is_solved(),
        done == (field@ == Board::solved()),
{
    proof {
        use_type_invariant(field);
        lemma_solved_wf();
        if field@.is_solved() {
            lemma_solved_unique(field@);
        }
    }
    let mut shouldbe: usize = 0;
    let mut i: usize = 0;
    while i < 4
        invariant
            i <= 4,
            shouldbe == 4 * i,
            forall|p: Cell| on_board(p) && p.0 < i ==> #[trigger] field@.grid[p] == home_tile(p),
        decreases 4 - i,
    {
        let mut j: usize = 0;
        while j < 4
            invariant
                i < 4,
                j <= 4,
                shouldbe == 4 * i + j,
                forall|p: Cell| on_board(p) && p.0 < i ==> #[trigger] field@.grid[p] == home_tile(p),
                forall|p: Cell| on_board(p) && p.0 == i && p.1 < j ==> #[trigger] field@.grid[p] == home_tile(p),
            decreases 4 - j,
        {
            if field.field[i][j] != shouldbe {
                assert(field@.grid[(i as int, j as int)] != home_tile((i as int, j as int)));
                return false;
            }
            shouldbe += 1;
            j += 1;
        }
        i += 1;
    }
    true
}

} // verus!
