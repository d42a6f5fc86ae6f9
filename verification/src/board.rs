//! The three-by-three board: cell storage and closed-line detection.
//!
//! A `Board` owns nine `Cell`s, one per coordinate pair. Eight candidate
//! lines run through it: three rows, three columns and two diagonals, in
//! that order. A line is *closed* when its three cells are all occupied by
//! the same mark; `closed_lines` returns exactly the closed lines, freshly
//! recomputed on every call.

use crate::players::Player;
use vstd::prelude::*;

verus! {

/// One board position: its coordinates, fixed at creation, and its
/// occupant (`None` means empty; an occupant is set at most once and
/// never cleared).
#[derive(Clone, Copy, PartialEq, Eq, Debug)]
pub struct Cell {
    pub player: Option<Player>,
    pub row: usize,
    pub col: usize,
}

impl Cell {
    /// An empty cell at the given coordinates.
    pub fn new(row: usize, col: usize) -> (c: Cell)
        requires
            row < 3,
            col < 3,
        ensures
            c.player is None,
            c.row == row,
            c.col == col,
    {
        Cell { player: None, row, col }
    }

    /// True exactly when no mark occupies this cell.
    pub fn is_empty(&self) -> (r: bool)
        ensures
            r == (self.player is None),
    {
        self.player.is_none()
    }
}

/// The row coordinate of the `i`-th cell of line `k`.
///
/// Lines are numbered 0..8: lines 0..3 are the rows, 3..6 the columns,
/// 6 the top-left-to-bottom-right diagonal, 7 the other diagonal.
pub open spec fn line_row(k: int, i: int) -> int {
    if 0 <= k < 3 {
        k
    } else {
        i
    }
}

/// The column coordinate of the `i`-th cell of line `k`.
pub open spec fn line_col(k: int, i: int) -> int {
    if 0 <= k < 3 {
        i
    } else if k < 6 {
        k - 3
    } else if k == 6 {
        i
    } else {
        2 - i
    }
}

/// True when coordinate `(r, c)` is one of the three cells of line `k`.
pub open spec fn on_line(k: int, r: int, c: int) -> bool {
    ||| (line_row(k, 0) == r && line_col(k, 0) == c)
    ||| (line_row(k, 1) == r && line_col(k, 1) == c)
    ||| (line_row(k, 2) == r && line_col(k, 2) == c)
}

/// The view of a vector of lines as a sequence of cell sequences.
pub open spec fn lines_view(v: Seq<[Cell; 3]>) -> Seq<Seq<Cell>> {
    v.map_values(|l: [Cell; 3]| l@)
}

/// The fixed three-by-three grid of cells.
#[derive(Clone, Copy, PartialEq, Eq, Debug)]
pub struct Board {
    pub cells: [[Cell; 3]; 3],
}

impl Board {
    /// The cell stored at coordinate `(r, c)`.
    pub open spec fn cell_at(self, r: int, c: int) -> Cell {
        self.cells[r][c]
    }

    /// The occupant of the cell at `(r, c)`.
    pub open spec fn player_at(self, r: int, c: int) -> Option<Player> {
        self.cell_at(r, c).player
    }

    /// Well-formedness: every cell records the coordinates it is stored at.
    pub open spec fn wf(self) -> bool {
        forall|r: int, c: int|
            0 <= r < 3 && 0 <= c < 3 ==> (#[trigger] self.cell_at(r, c)).row == r
                && self.cell_at(r, c).col == c
    }

    /// The three cells of line `k`, in line order.
    pub open spec fn line_cells(self, k: int) -> Seq<Cell> {
        seq![
            self.cell_at(line_row(k, 0), line_col(k, 0)),
            self.cell_at(line_row(k, 1), line_col(k, 1)),
            self.cell_at(line_row(k, 2), line_col(k, 2)),
        ]
    }

    /// Line `k` is fully claimed by mark `p`.
    pub open spec fn line_won_by(self, k: int, p: Player) -> bool {
        &&& self.player_at(line_row(k, 0), line_col(k, 0)) == Some(p)
        &&& self.player_at(line_row(k, 1), line_col(k, 1)) == Some(p)
        &&& self.player_at(line_row(k, 2), line_col(k, 2)) == Some(p)
    }

    /// Line `k` is closed: all three of its cells carry one identical mark.
    pub open spec fn line_closed(self, k: int) -> bool {
        &&& self.player_at(line_row(k, 0), line_col(k, 0)) is Some
        &&& self.player_at(line_row(k, 1), line_col(k, 1)) == self.player_at(
            line_row(k, 0),
            line_col(k, 0),
        )
        &&& self.player_at(line_row(k, 2), line_col(k, 2)) == self.player_at(
            line_row(k, 0),
            line_col(k, 0),
        )
    }

    /// Some line of the board is closed.
    pub open spec fn any_line_closed(self) -> bool {
        exists|k: int| 0 <= k < 8 && #[trigger] self.line_closed(k)
    }

    /// Every cell of the board is occupied.
    pub open spec fn full(self) -> bool {
        forall|r: int, c: int|
            0 <= r < 3 && 0 <= c < 3 ==> (#[trigger] self.player_at(r, c)) is Some
    }

    /// The closed lines among lines `k..8`, in line order.
    pub open spec fn closed_lines_from(self, k: int) -> Seq<Seq<Cell>>
        decreases 8 - k,
    {
        if k < 0 || k >= 8 {
            Seq::empty()
        } else if self.line_closed(k) {
            seq![self.line_cells(k)] + self.closed_lines_from(k + 1)
        } else {
            self.closed_lines_from(k + 1)
        }
    }

    /// All closed lines of the board, in the order rows, columns, diagonals.
    pub open spec fn closed_lines_spec(self) -> Seq<Seq<Cell>> {
        self.closed_lines_from(0)
    }

    /// A fresh board: nine empty cells, one per coordinate pair.
    pub fn new() -> (b: Board)
        ensures
            b.wf(),
            forall|r: int, c: int|
                0 <= r < 3 && 0 <= c < 3 ==> (#[trigger] b.player_at(r, c)) is None,
    {
        Board {
            cells: [
                [Cell::new(0, 0), Cell::new(0, 1), Cell::new(0, 2)],
                [Cell::new(1, 0), Cell::new(1, 1), Cell::new(1, 2)],
                [Cell::new(2, 0), Cell::new(2, 1), Cell::new(2, 2)],
            ],
        }
    }

    /// The cell at `(row, col)`; coordinates must be in range.
    pub fn at(&self, row: usize, col: usize) -> (c: Cell)
        requires
            row < 3,
            col < 3,
        ensures
            c == self.cell_at(row as int, col as int),
    {
        self.cells[row][col]
    }

    /// Sets the occupant of the cell at `(row, col)` to `player`.
    ///
    /// The cell must currently be empty: occupancy is enforced by the
    /// caller, the board being a storage primitive, not a rule enforcer.
    pub fn set_player(&mut self, row: usize, col: usize, player: Player)
        requires
            row < 3,
            col < 3,
            old(self).wf(),
            old(self).player_at(row as int, col as int) is None,
        ensures
            final(self).wf(),
            final(self).player_at(row as int, col as int) == Some(player),
            final(self).cell_at(row as int, col as int).row == row,
            final(self).cell_at(row as int, col as int).col == col,
            forall|r: int, c: int|
                0 <= r < 3 && 0 <= c < 3 && !(r == row && c == col)
                    ==> #[trigger] final(self).cell_at(r, c) == old(self).cell_at(r, c),
    {
        let mut line: [Cell; 3] = self.cells[row];
        let old_cell = line[col];
        line[col] = Cell { player: Some(player), row: old_cell.row, col: old_cell.col };
        self.cells[row] = line;
        proof {
            assert forall|r: int, c: int| 0 <= r < 3 && 0 <= c < 3 implies (#[trigger] self.cell_at(
                r,
                c,
            )).row == r && self.cell_at(r, c).col == c by {
                if !(r == row && c == col) {
                    assert(self.cell_at(r, c) == old(self).cell_at(r, c));
                }
            }
        }
    }

    /// The three rows of the board, each in column order.
    pub fn rows(&self) -> (r: [[Cell; 3]; 3])
        ensures
            forall|i: int| 0 <= i < 3 ==> (#[trigger] r[i])@ == self.line_cells(i),
    {
        let r = self.cells;
        proof {
            assert forall|i: int| 0 <= i < 3 implies (#[trigger] r[i])@ == self.line_cells(i) by {
                assert(r[i]@ =~= self.line_cells(i));
            }
        }
        r
    }

    /// The three columns of the board, each in row order.
    pub fn columns(&self) -> (r: [[Cell; 3]; 3])
        ensures
            forall|i: int| 0 <= i < 3 ==> (#[trigger] r[i])@ == self.line_cells(3 + i),
    {
        let r = [
            [self.at(0, 0), self.at(1, 0), self.at(2, 0)],
            [self.at(0, 1), self.at(1, 1), self.at(2, 1)],
            [self.at(0, 2), self.at(1, 2), self.at(2, 2)],
        ];
        proof {
            assert forall|i: int| 0 <= i < 3 implies (#[trigger] r[i])@ == self.line_cells(3 + i) by {
                assert(r[i]@ =~= self.line_cells(3 + i));
            }
        }
        r
    }

    /// The two diagonals: first top-left to bottom-right, then the other.
    pub fn diagonals(&self) -> (r: [[Cell; 3]; 2])
        ensures
            r[0]@ == self.line_cells(6),
            r[1]@ == self.line_cells(7),
    {
        let r = [
            [self.at(0, 0), self.at(1, 1), self.at(2, 2)],
            [self.at(0, 2), self.at(1, 1), self.at(2, 0)],
        ];
        proof {
            assert(r[0]@ =~= self.line_cells(6));
            assert(r[1]@ =~= self.line_cells(7));
        }
        r
    }

    /// The three cells of line `k`, in line order.
    fn line_at(&self, k: usize) -> (l: [Cell; 3])
        requires
            k < 8,
        ensures
            l@ == self.line_cells(k as int),
    {
        let l = if k < 3 {
            [self.at(k, 0), self.at(k, 1), self.at(k, 2)]
        } else if k < 6 {
            [self.at(0, k - 3), self.at(1, k - 3), self.at(2, k - 3)]
        } else if k == 6 {
            [self.at(0, 0), self.at(1, 1), self.at(2, 2)]
        } else {
            [self.at(0, 2), self.at(1, 1), self.at(2, 0)]
        };
        proof {
            assert(l@ =~= self.line_cells(k as int));
        }
        l
    }

    /// True exactly when the three cells all carry one identical mark.
    fn line_is_closed(l: &[Cell; 3]) -> (r: bool)
        ensures
            r == (l@[0].player is Some && l@[1].player == l@[0].player && l@[2].player
                == l@[0].player),
    {
        match l[0].player {
            None => false,
            Some(p) => {
                let same1 = match l[1].player {
                    Some(q) => q == p,
                    None => false,
                };
                let same2 = match l[2].player {
                    Some(q) => q == p,
                    None => false,
                };
                same1 && same2
            },
        }
    }

    /// The closed lines of the board, in the order rows, columns,
    /// diagonals, recomputed fresh on every call.
    pub fn closed_lines(&self) -> (r: Vec<[Cell; 3]>)
        ensures
            lines_view(r@) == self.closed_lines_spec(),
    {
        let mut out: Vec<[Cell; 3]> = Vec::new();
        let mut k: usize = 0;
        while k < 8
            invariant
                k <= 8,
                self.closed_lines_spec() == lines_view(out@) + self.closed_lines_from(k as int),
            decreases 8 - k,
        {
            let line = self.line_at(k);
            if Board::line_is_closed(&line) {
                let ghost prev = out@;
                out.push(line);
                proof {
                    assert(lines_view(out@) =~= lines_view(prev) + seq![line@]);
                }
            }
            k += 1;
        }
        proof {
            assert(self.closed_lines_spec() =~= lines_view(out@));
        }
        out
    }

    /// True exactly when all nine cells are occupied.
    pub fn is_full(&self) -> (r: bool)
        ensures
            r == self.full(),
    {
        let r = !self.at(0, 0).is_empty() && !self.at(0, 1).is_empty() && !self.at(0, 2).is_empty()
            && !self.at(1, 0).is_empty() && !self.at(1, 1).is_empty() && !self.at(1, 2).is_empty()
            && !self.at(2, 0).is_empty() && !self.at(2, 1).is_empty() && !self.at(2, 2).is_empty();
        proof {
            assert forall|i: int, j: int| 0 <= i < 3 && 0 <= j < 3 implies #[trigger] self.player_at(
                i,
                j,
            ) == self.cell_at(i, j).player by {}
            if r {
                assert forall|i: int, j: int| 0 <= i < 3 && 0 <= j < 3 implies (
                #[trigger] self.player_at(i, j)) is Some by {
                    assert(0 <= i <= 2 && 0 <= j <= 2);
                }
            } else {
                assert(self.player_at(0, 0) == self.cell_at(0, 0).player);
                assert(self.player_at(0, 1) == self.cell_at(0, 1).player);
                assert(self.player_at(0, 2) == self.cell_at(0, 2).player);
                assert(self.player_at(1, 0) == self.cell_at(1, 0).player);
                assert(self.player_at(1, 1) == self.cell_at(1, 1).player);
                assert(self.player_at(1, 2) == self.cell_at(1, 2).player);
                assert(self.player_at(2, 0) == self.cell_at(2, 0).player);
                assert(self.player_at(2, 1) == self.cell_at(2, 1).player);
                assert(self.player_at(2, 2) == self.cell_at(2, 2).player);
                assert(!self.full());
            }
        }
        r
    }
}

/// The three cells of any line lie on the board.
pub proof fn lemma_line_coords_in_range(k: int, i: int)
    requires
        0 <= k < 8,
        0 <= i < 3,
    ensures
        0 <= line_row(k, i) < 3,
        0 <= line_col(k, i) < 3,
{
}

/// With no closed line among `k0..8`, nothing is collected from there on.
proof fn lemma_no_closed_from(b: Board, k0: int)
    requires
        forall|j: int| k0 <= j < 8 ==> !(#[trigger] b.line_closed(j)),
    ensures
        b.closed_lines_from(k0) == Seq::<Seq<Cell>>::empty(),
    decreases 8 - k0,
{
    if k0 < 0 || k0 >= 8 {
    } else {
        lemma_no_closed_from(b, k0 + 1);
    }
}

/// With exactly one closed line among `k0..8`, exactly that line is collected.
proof fn lemma_single_closed_from(b: Board, k0: int, k: int)
    requires
        0 <= k0 <= k < 8,
        b.line_closed(k),
        forall|j: int| k0 <= j < 8 && j != k ==> !(#[trigger] b.line_closed(j)),
    ensures
        b.closed_lines_from(k0) == seq![b.line_cells(k)],
    decreases 8 - k0,
{
    if k0 == k {
        lemma_no_closed_from(b, k + 1);
        assert(b.closed_lines_from(k0) =~= seq![b.line_cells(k)]);
    } else {
        lemma_single_closed_from(b, k0 + 1, k);
    }
}

/// Something is collected from `k0..8` exactly when a line there is closed.
proof fn lemma_nonempty_from(b: Board, k0: int)
    requires
        0 <= k0,
    ensures
        b.closed_lines_from(k0).len() > 0 <==> exists|j: int|
            k0 <= j < 8 && #[trigger] b.line_closed(j),
    decreases 8 - k0,
{
    if k0 >= 8 {
    } else {
        lemma_nonempty_from(b, k0 + 1);
        if b.line_closed(k0) {
            assert(k0 <= k0 < 8 && b.line_closed(k0));
        } else {
            if b.closed_lines_from(k0).len() > 0 {
                let j = choose|j: int| k0 + 1 <= j < 8 && #[trigger] b.line_closed(j);
                assert(k0 <= j < 8 && b.line_closed(j));
            }
            if exists|j: int| k0 <= j < 8 && #[trigger] b.line_closed(j) {
                let j = choose|j: int| k0 <= j < 8 && #[trigger] b.line_closed(j);
                assert(k0 + 1 <= j < 8 && b.line_closed(j));
            }
        }
    }
}

/// A closed line among `k0..8` is collected from there on.
proof fn lemma_contains_from(b: Board, k0: int, k: int)
    requires
        0 <= k0 <= k < 8,
        b.line_closed(k),
    ensures
        b.closed_lines_from(k0).contains(b.line_cells(k)),
    decreases 8 - k0,
{
    if k0 == k {
        assert(b.closed_lines_from(k0)[0] == b.line_cells(k));
    } else {
        lemma_contains_from(b, k0 + 1, k);
        let rest = b.closed_lines_from(k0 + 1);
        let i = choose|i: int| 0 <= i < rest.len() && rest[i] == b.line_cells(k);
        if b.line_closed(k0) {
            assert(b.closed_lines_from(k0)[i + 1] == b.line_cells(k));
        } else {
            assert(b.closed_lines_from(k0)[i] == b.line_cells(k));
        }
    }
}

/// Every closed line appears among the collected closed lines.
pub proof fn lemma_closed_lines_complete(b: Board, k: int)
    requires
        0 <= k < 8,
        b.line_closed(k),
    ensures
        b.closed_lines_spec().contains(b.line_cells(k)),
{
    lemma_contains_from(b, 0, k);
}

/// Closed-line detection depends on the board alone: two computations
/// without an intervening move return identical results.
pub proof fn lemma_closed_lines_idempotent(b: Board, r1: Seq<Seq<Cell>>, r2: Seq<Seq<Cell>>)
    requires
        r1 == b.closed_lines_spec(),
        r2 == b.closed_lines_spec(),
    ensures
        r1 == r2,
{
}

/// The board yields a closed line exactly when some line is closed.
pub proof fn lemma_closed_lines_nonempty(b: Board)
    ensures
        b.closed_lines_spec().len() > 0 <==> b.any_line_closed(),
{
    lemma_nonempty_from(b, 0);
}

/// A move that closes a previously open line claims that line itself.
///
/// If `post` differs from `pre` only at `(row, col)`, where mark `p` now
/// stands, then any line closed in `post` but not in `pre` runs through
/// `(row, col)` and is fully claimed by `p`.
pub proof fn lemma_new_closed_line_won_by_mover(
    pre: Board,
    post: Board,
    row: int,
    col: int,
    p: Player,
    k: int,
)
    requires
        0 <= row < 3,
        0 <= col < 3,
        0 <= k < 8,
        post.player_at(row, col) == Some(p),
        forall|r: int, c: int|
            0 <= r < 3 && 0 <= c < 3 && !(r == row && c == col)
                ==> #[trigger] post.cell_at(r, c) == pre.cell_at(r, c),
        !pre.line_closed(k),
        post.line_closed(k),
    ensures
        post.line_won_by(k, p),
{
    lemma_line_coords_in_range(k, 0);
    lemma_line_coords_in_range(k, 1);
    lemma_line_coords_in_range(k, 2);
    if !on_line(k, row, col) {
        assert(pre.line_closed(k));
    }
}

/// Filling a line detects exactly that line, and never early.
///
/// On a board whose occupied cells all lie on line `k` and all carry mark
/// `p`: if the line's three cells are filled, `closed_lines` yields exactly
/// that line; with only a strict subset of them filled it yields nothing.
pub proof fn lemma_line_fill_detection(b: Board, k: int, p: Player)
    requires
        b.wf(),
        0 <= k < 8,
        forall|r: int, c: int|
            0 <= r < 3 && 0 <= c < 3 && (#[trigger] b.player_at(r, c)) is Some ==> on_line(k, r, c)
                && b.player_at(r, c) == Some(p),
    ensures
        b.line_won_by(k, p) ==> b.closed_lines_spec() == seq![b.line_cells(k)],
        !b.line_won_by(k, p) ==> b.closed_lines_spec() == Seq::<Seq<Cell>>::empty(),
{
    assert forall|j: int| 0 <= j < 8 && j != k implies !(#[trigger] b.line_closed(j)) by {
        lemma_line_coords_in_range(j, 0);
        lemma_line_coords_in_range(j, 1);
        lemma_line_coords_in_range(j, 2);
        if b.line_closed(j) {
            assert(on_line(k, line_row(j, 0), line_col(j, 0)));
            assert(on_line(k, line_row(j, 1), line_col(j, 1)));
            assert(on_line(k, line_row(j, 2), line_col(j, 2)));
            assert(false);
        }
    }
    lemma_line_coords_in_range(k, 0);
    lemma_line_coords_in_range(k, 1);
    lemma_line_coords_in_range(k, 2);
    if b.line_won_by(k, p) {
        lemma_single_closed_from(b, 0, k);
    } else {
        assert(!b.line_closed(k));
        lemma_no_closed_from(b, 0);
    }
}

} // verus!
