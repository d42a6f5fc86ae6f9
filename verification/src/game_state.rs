//! The game engine: turn state, outcome, and move validation.
//!
//! A `GameState` owns a board, the mark whose turn it is, and the game's
//! outcome. It is mutated only through `apply_move`, which either fully
//! applies a legal move or rejects it leaving the state untouched. Once
//! the outcome leaves `InProgress` the state is terminal.

use crate::board::Board;
use crate::board::Cell;
use crate::board::lines_view;
use crate::players::Player;
use vstd::prelude::*;

verus! {

/// The classification of a game: still running, won by a mark, or drawn.
#[derive(Clone, Copy, PartialEq, Eq, Structural, Debug)]
pub enum Outcome {
    InProgress,
    Won(Player),
    Draw,
}

/// Why a move was rejected.
///
/// `IndexOutOfBounds` flags a caller error (a coordinate off the board);
/// `CellOccupied` and `GameAlreadyOver` are expected during normal play
/// and mean the input is to be ignored.
#[derive(Clone, Copy, PartialEq, Eq, Structural, Debug)]
pub enum MoveError {
    GameAlreadyOver,
    CellOccupied,
    IndexOutOfBounds,
}

/// The engine state: board, mark to move, and outcome.
pub struct GameState {
    board: Board,
    player: Player,
    outcome: Outcome,
}

impl GameState {
    /// The board owned by the engine.
    pub closed spec fn spec_board(self) -> Board {
        self.board
    }

    /// The mark whose turn it is; after a win, the winning mark.
    pub closed spec fn spec_mark(self) -> Player {
        self.player
    }

    /// The game's outcome.
    pub closed spec fn spec_outcome(self) -> Outcome {
        self.outcome
    }

    /// Well-formedness: the board is well formed, and the outcome agrees
    /// with it — a running game has no closed line, a won game has a line
    /// claimed by the winner, who is the mark on turn, and a drawn game
    /// has a full board without a closed line.
    pub open spec fn wf(self) -> bool {
        &&& self.spec_board().wf()
        &&& (self.spec_outcome() is InProgress ==> !self.spec_board().any_line_closed())
        &&& (forall|p: Player|
            self.spec_outcome() == Outcome::Won(p) ==> p == self.spec_mark() && (exists|k: int|
                0 <= k < 8 && #[trigger] self.spec_board().line_won_by(k, p)))
        &&& (self.spec_outcome() is Draw ==> self.spec_board().full()
            && !self.spec_board().any_line_closed())
    }

    /// A fresh game: empty board, `X` to move, outcome `InProgress`.
    pub fn new() -> (g: GameState)
        ensures
            g.wf(),
            g.spec_mark() == Player::X,
            g.spec_outcome() == Outcome::InProgress,
            forall|r: int, c: int|
                0 <= r < 3 && 0 <= c < 3 ==> (#[trigger] g.spec_board().player_at(r, c)) is None,
    {
        let g = GameState { board: Board::new(), player: Player::X, outcome: Outcome::InProgress };
        proof {
            assert forall|k: int| 0 <= k < 8 implies !(#[trigger] g.spec_board().line_closed(
                k,
            )) by {
                crate::board::lemma_line_coords_in_range(k, 0);
            }
        }
        g
    }

    /// A copy of the current board, for rendering.
    pub fn board_snapshot(&self) -> (b: Board)
        ensures
            b == self.spec_board(),
    {
        self.board
    }

    /// The mark whose turn it is; at game end, the winner's mark.
    pub fn current_mark(&self) -> (m: Player)
        ensures
            m == self.spec_mark(),
    {
        self.player
    }

    /// The game's outcome.
    pub fn outcome(&self) -> (o: Outcome)
        ensures
            o == self.spec_outcome(),
    {
        self.outcome
    }

    /// The closed lines of the current board, freshly recomputed.
    pub fn closed_lines(&self) -> (r: Vec<[Cell; 3]>)
        ensures
            lines_view(r@) == self.spec_board().closed_lines_spec(),
    {
        self.board.closed_lines()
    }

    /// Validates and applies one move of the mark on turn at `(row, col)`.
    ///
    /// A move is rejected — leaving the state untouched — when the game is
    /// already over, the coordinate is off the board, or the cell is taken,
    /// in that order of checks. Otherwise the mark lands on the cell and
    /// the outcome is re-derived: a closed line means the mover won and
    /// keeps the turn; a full board without one means a draw; otherwise
    /// play continues and the turn toggles.
    pub fn apply_move(&mut self, row: usize, col: usize) -> (r: Result<(), MoveError>)
        requires
            old(self).wf(),
        ensures
            final(self).wf(),
            r is Err ==> *final(self) == *old(self),
            (r == Err::<(), MoveError>(MoveError::GameAlreadyOver)) == !(old(self).spec_outcome() is InProgress),
            (r == Err::<(), MoveError>(MoveError::IndexOutOfBounds)) == (old(self).spec_outcome() is InProgress
                && !(row < 3 && col < 3)),
            (r == Err::<(), MoveError>(MoveError::CellOccupied)) == (old(self).spec_outcome() is InProgress
                && row < 3 && col < 3
                && old(self).spec_board().player_at(row as int, col as int) is Some),
            (r is Ok) == (old(self).spec_outcome() is InProgress && row < 3 && col < 3
                && old(self).spec_board().player_at(row as int, col as int) is None),
            r is Ok ==> final(self).spec_board().player_at(row as int, col as int)
                == Some(old(self).spec_mark()),
            r is Ok ==> forall|r2: int, c2: int|
                0 <= r2 < 3 && 0 <= c2 < 3 && !(r2 == row && c2 == col)
                    ==> #[trigger] final(self).spec_board().cell_at(r2, c2)
                    == old(self).spec_board().cell_at(r2, c2),
            r is Ok && final(self).spec_board().any_line_closed()
                ==> final(self).spec_outcome() == Outcome::Won(old(self).spec_mark())
                && final(self).spec_mark() == old(self).spec_mark(),
            r is Ok && !final(self).spec_board().any_line_closed()
                && final(self).spec_board().full()
                ==> final(self).spec_outcome() == Outcome::Draw
                && final(self).spec_mark() == old(self).spec_mark(),
            r is Ok && !final(self).spec_board().any_line_closed()
                && !final(self).spec_board().full()
                ==> final(self).spec_outcome() == Outcome::InProgress
                && final(self).spec_mark() == old(self).spec_mark().spec_next(),
    {
        match self.outcome {
            Outcome::InProgress => {},
            _ => {
                return Err(MoveError::GameAlreadyOver);
            },
        }
        if !(row < 3 && col < 3) {
            return Err(MoveError::IndexOutOfBounds);
        }
        let cell = self.board.at(row, col);
        if !cell.is_empty() {
            return Err(MoveError::CellOccupied);
        }
        let mover = self.player;
        self.board.set_player(row, col, mover);
        let closed = self.board.closed_lines();
        proof {
            crate::board::lemma_closed_lines_nonempty(self.board);
        }
        if closed.len() > 0 {
            proof {
                let k = choose|k: int| 0 <= k < 8 && #[trigger] self.board.line_closed(k);
                assert(!old(self).spec_board().line_closed(k));
                crate::board::lemma_new_closed_line_won_by_mover(
                    old(self).spec_board(),
                    self.board,
                    row as int,
                    col as int,
                    mover,
                    k,
                );
            }
            self.outcome = Outcome::Won(mover);
        } else if self.board.is_full() {
            self.outcome = Outcome::Draw;
        } else {
            self.player = self.player.next();
        }
        Ok(())
    }
}

} // verus!
