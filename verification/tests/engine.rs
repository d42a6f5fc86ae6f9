use tic_tac_toe::game_state::GameState;
use tic_tac_toe::game_state::MoveError;
use tic_tac_toe::game_state::Outcome;
use tic_tac_toe::players::Player;

/// Applies the moves in order, asserting that each is accepted.
fn play(g: &mut GameState, moves: &[(usize, usize)]) {
    for &(r, c) in moves {
        assert_eq!(g.apply_move(r, c), Ok(()));
    }
}

#[test]
fn player_next_toggles() {
    assert_eq!(Player::X.next(), Player::O);
    assert_eq!(Player::O.next(), Player::X);
}

#[test]
fn new_game_starts_fresh() {
    let g = GameState::new();
    assert_eq!(g.current_mark(), Player::X);
    assert_eq!(g.outcome(), Outcome::InProgress);
    let b = g.board_snapshot();
    for r in 0..3 {
        for c in 0..3 {
            assert!(b.at(r, c).is_empty());
        }
    }
    assert!(g.closed_lines().is_empty());
}

#[test]
fn top_row_win_for_first_mover() {
    // X takes the top row while O answers in the middle band.
    let mut g = GameState::new();
    play(&mut g, &[(0, 0), (1, 1), (0, 1), (1, 0), (0, 2)]);
    assert_eq!(g.outcome(), Outcome::Won(Player::X));
    assert_eq!(g.current_mark(), Player::X);
    let closed = g.closed_lines();
    assert_eq!(closed.len(), 1);
    for i in 0..3 {
        assert_eq!(closed[0][i].row, 0);
        assert_eq!(closed[0][i].col, i);
        assert_eq!(closed[0][i].player, Some(Player::X));
    }
}

#[test]
fn full_board_without_line_is_a_draw() {
    // Final position: X O X / X O O / O X X — no line for either mark.
    let mut g = GameState::new();
    play(
        &mut g,
        &[
            (0, 0), // X
            (0, 1), // O
            (0, 2), // X
            (1, 1), // O
            (1, 0), // X
            (1, 2), // O
            (2, 1), // X
            (2, 0), // O
            (2, 2), // X
        ],
    );
    assert_eq!(g.outcome(), Outcome::Draw);
    assert!(g.closed_lines().is_empty());
    assert!(g.board_snapshot().is_full());
}

#[test]
fn out_of_bounds_move_rejected_board_unchanged() {
    let mut g = GameState::new();
    let before = g.board_snapshot();
    assert_eq!(g.apply_move(5, 0), Err(MoveError::IndexOutOfBounds));
    assert_eq!(g.board_snapshot(), before);
    assert_eq!(g.current_mark(), Player::X);
    assert_eq!(g.outcome(), Outcome::InProgress);
}

#[test]
fn second_move_on_same_cell_rejected() {
    let mut g = GameState::new();
    assert_eq!(g.apply_move(0, 0), Ok(()));
    assert_eq!(g.apply_move(0, 0), Err(MoveError::CellOccupied));
}

#[test]
fn occupied_cell_leaves_state_unchanged() {
    let mut g = GameState::new();
    play(&mut g, &[(0, 0), (1, 1)]);
    let board_before = g.board_snapshot();
    let mark_before = g.current_mark();
    let outcome_before = g.outcome();
    assert_eq!(g.apply_move(1, 1), Err(MoveError::CellOccupied));
    assert_eq!(g.board_snapshot(), board_before);
    assert_eq!(g.current_mark(), mark_before);
    assert_eq!(g.outcome(), outcome_before);
}

#[test]
fn move_after_win_rejected_state_unchanged() {
    let mut g = GameState::new();
    play(&mut g, &[(0, 0), (1, 1), (0, 1), (1, 0), (0, 2)]);
    assert_eq!(g.outcome(), Outcome::Won(Player::X));
    let board_before = g.board_snapshot();
    assert_eq!(g.apply_move(2, 2), Err(MoveError::GameAlreadyOver));
    assert_eq!(g.board_snapshot(), board_before);
    assert_eq!(g.current_mark(), Player::X);
    assert_eq!(g.outcome(), Outcome::Won(Player::X));
}

#[test]
fn move_after_draw_rejected() {
    let mut g = GameState::new();
    play(
        &mut g,
        &[
            (0, 0),
            (0, 1),
            (0, 2),
            (1, 1),
            (1, 0),
            (1, 2),
            (2, 1),
            (2, 0),
            (2, 2),
        ],
    );
    assert_eq!(g.outcome(), Outcome::Draw);
    assert_eq!(g.apply_move(0, 0), Err(MoveError::GameAlreadyOver));
    assert_eq!(g.outcome(), Outcome::Draw);
}

#[test]
fn turn_alternates_while_in_progress() {
    let mut g = GameState::new();
    assert_eq!(g.current_mark(), Player::X);
    assert_eq!(g.apply_move(0, 0), Ok(()));
    assert_eq!(g.current_mark(), Player::O);
    assert_eq!(g.apply_move(1, 1), Ok(()));
    assert_eq!(g.current_mark(), Player::X);
    assert_eq!(g.apply_move(2, 2), Ok(()));
    assert_eq!(g.current_mark(), Player::O);
}

#[test]
fn winning_move_does_not_toggle_turn() {
    // O wins with the middle column; the turn stays with O.
    let mut g = GameState::new();
    play(&mut g, &[(0, 0), (0, 1), (1, 0), (1, 1), (2, 2), (2, 1)]);
    assert_eq!(g.outcome(), Outcome::Won(Player::O));
    assert_eq!(g.current_mark(), Player::O);
}

#[test]
fn rejected_moves_do_not_toggle_turn() {
    let mut g = GameState::new();
    assert_eq!(g.apply_move(7, 7), Err(MoveError::IndexOutOfBounds));
    assert_eq!(g.current_mark(), Player::X);
    assert_eq!(g.apply_move(0, 0), Ok(()));
    assert_eq!(g.apply_move(0, 0), Err(MoveError::CellOccupied));
    assert_eq!(g.current_mark(), Player::O);
}

#[test]
fn fill_and_win_on_last_move_scores_win() {
    // The ninth move both fills the board and completes the top row:
    // the game is scored as a win, never a draw.
    let mut g = GameState::new();
    play(
        &mut g,
        &[
            (0, 0), // X
            (1, 0), // O
            (0, 1), // X
            (1, 1), // O
            (1, 2), // X
            (2, 1), // O
            (2, 0), // X
            (2, 2), // O
            (0, 2), // X completes the top row and fills the board
        ],
    );
    assert!(g.board_snapshot().is_full());
    assert_eq!(g.outcome(), Outcome::Won(Player::X));
}

#[test]
fn engine_closed_lines_idempotent() {
    let mut g = GameState::new();
    play(&mut g, &[(0, 0), (1, 1), (0, 1), (1, 0), (0, 2)]);
    assert_eq!(g.closed_lines(), g.closed_lines());
}
