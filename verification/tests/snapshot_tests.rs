use tetris_core::piece::Color;
use tetris_core::session::Game;
use tetris_core::snapshot::SnapshotError;

#[test]
fn save_then_load_reproduces_the_session_unpaused() {
    let mut g = Game::new_with_pieces(10, 20, 2, 5);
    g.board.cells[19 * 10 + 3] = Some(Color(9, 9, 9));
    g.score = 700;
    g.gravity_delay_ms = 475;
    g.speed_up_counter = 4;
    g.move_left();
    g.toggle_pause();
    let snap = g.to_snapshot();

    let mut restored = Game::new_with_pieces(4, 4, 0, 0);
    assert!(restored.load_snapshot(&snap).is_ok());
    assert_eq!(restored.board.cells, g.board.cells);
    assert_eq!(restored.board.width, 10);
    assert_eq!(restored.board.height, 20);
    assert_eq!(restored.active_piece, g.active_piece);
    assert_eq!(restored.next_piece_id, 5);
    assert_eq!(restored.is_game_over, false);
    assert_eq!(restored.gravity_delay_ms, 475);
    assert_eq!(restored.speed_up_counter, 4);
    assert_eq!(restored.score, 700);
    // The saved session was paused; the restored one resumes live.
    assert!(g.paused);
    assert!(!restored.paused);
}

#[test]
fn zero_dimensions_are_rejected() {
    let g = Game::new_with_pieces(10, 20, 0, 1);
    let mut snap = g.to_snapshot();
    snap.width = 0;
    let mut target = Game::new_with_pieces(10, 20, 0, 1);
    assert_eq!(target.load_snapshot(&snap), Err(SnapshotError::BadDimensions));
}

#[test]
fn a_board_of_the_wrong_size_is_rejected() {
    let g = Game::new_with_pieces(10, 20, 0, 1);
    let mut snap = g.to_snapshot();
    snap.board.pop();
    let mut target = Game::new_with_pieces(10, 20, 0, 1);
    assert_eq!(target.load_snapshot(&snap), Err(SnapshotError::BoardSizeMismatch));
}

#[test]
fn an_unknown_shape_is_rejected() {
    let g = Game::new_with_pieces(10, 20, 0, 1);
    let mut snap = g.to_snapshot();
    snap.active_piece.id = 7;
    let mut target = Game::new_with_pieces(10, 20, 0, 1);
    assert_eq!(target.load_snapshot(&snap), Err(SnapshotError::BadPiece));
}

#[test]
fn an_unknown_rotation_state_is_rejected() {
    let g = Game::new_with_pieces(10, 20, 1, 1);
    let mut snap = g.to_snapshot();
    // The O block has a single rotation state.
    snap.active_piece.rotation = 1;
    let mut target = Game::new_with_pieces(10, 20, 0, 1);
    assert_eq!(target.load_snapshot(&snap), Err(SnapshotError::BadPiece));
}

#[test]
fn an_out_of_range_counter_is_rejected() {
    let g = Game::new_with_pieces(10, 20, 0, 1);
    let mut snap = g.to_snapshot();
    snap.speed_up_counter = 10;
    let mut target = Game::new_with_pieces(10, 20, 0, 1);
    assert_eq!(target.load_snapshot(&snap), Err(SnapshotError::BadCounter));
}

#[test]
fn a_live_session_with_a_colliding_piece_is_rejected() {
    let g = Game::new_with_pieces(10, 20, 1, 1);
    let mut snap = g.to_snapshot();
    // Occupy a spawn cell of the O block while claiming a live game.
    snap.board[0 * 10 + 4] = Some(Color(1, 1, 1));
    snap.is_game_over = false;
    let mut target = Game::new_with_pieces(10, 20, 0, 1);
    assert_eq!(target.load_snapshot(&snap), Err(SnapshotError::PieceConflict));
}

#[test]
fn a_rejected_snapshot_leaves_the_session_untouched() {
    let g = Game::new_with_pieces(10, 20, 0, 1);
    let mut snap = g.to_snapshot();
    snap.width = 0;
    let mut target = Game::new_with_pieces(6, 8, 2, 3);
    target.score = 42;
    let cells_before = target.board.cells.clone();
    assert!(target.load_snapshot(&snap).is_err());
    assert_eq!(target.board.cells, cells_before);
    assert_eq!(target.score, 42);
    assert_eq!(target.active_piece.id, 2);
}

#[test]
fn loading_replaces_a_finished_session() {
    let mut g = Game::new_with_pieces(10, 20, 0, 1);
    g.board.cells[0 * 10 + 4] = Some(Color(1, 1, 1));
    g.spawn_new_piece_with(2);
    assert!(g.is_game_over);
    let live = Game::new_with_pieces(10, 20, 2, 3);
    let snap = live.to_snapshot();
    assert!(g.load_snapshot(&snap).is_ok());
    assert!(!g.is_game_over);
    // The restored session accepts movement again.
    g.move_left();
    assert_eq!(g.active_piece.x, live.active_piece.x - 1);
}
