use tetris_core::piece::{ActivePiece, Color, NUM_PIECES};
use tetris_core::session::{score_for_lines, Game};

const I: usize = 0;
const O: usize = 1;
const T: usize = 2;

#[test]
fn o_piece_spawns_centered() {
    // 2-wide O block on a 10-wide board: (10 - 2) / 2 = 4.
    let g = Game::new_with_pieces(10, 20, O, I);
    assert_eq!(g.active_piece.id, O);
    assert_eq!(g.active_piece.rotation, 0);
    assert_eq!(g.active_piece.x, 4);
    assert_eq!(g.active_piece.y, 0);
    assert!(!g.is_game_over);
}

#[test]
fn o_piece_walks_to_the_wall_and_hard_drops() {
    let mut g = Game::new_with_pieces(10, 20, O, I);
    for _ in 0..4 {
        g.move_left();
    }
    assert_eq!(g.active_piece.x, 0);
    // A fifth move into the wall is rejected silently.
    g.move_left();
    assert_eq!(g.active_piece.x, 0);
    g.hard_drop_with(T);
    // The 2x2 square locked with its top-left at (0, 18).
    let color = Some(Color(252, 244, 3));
    assert_eq!(g.board.cells[18 * 10 + 0], color);
    assert_eq!(g.board.cells[18 * 10 + 1], color);
    assert_eq!(g.board.cells[19 * 10 + 0], color);
    assert_eq!(g.board.cells[19 * 10 + 1], color);
    assert_eq!(g.score, 0);
    // The lookahead became the active piece; the fresh draw took its place.
    assert_eq!(g.active_piece.id, I);
    assert_eq!(g.next_piece_id, T);
}

#[test]
fn filling_the_last_gap_clears_one_row_for_100_points() {
    let mut g = Game::new_with_pieces(10, 20, I, O);
    let gray = Color(100, 100, 100);
    // Bottom row occupied except column 0; a marker above it.
    for x in 1..10 {
        g.board.cells[19 * 10 + x] = Some(gray);
    }
    g.board.cells[18 * 10 + 5] = Some(gray);
    // Stand the I block upright, walk it to the wall, and drop it in.
    g.rotate();
    assert_eq!(g.active_piece.rotation, 1);
    for _ in 0..3 {
        g.move_left();
    }
    assert_eq!(g.active_piece.x, 0);
    g.hard_drop_with(T);
    assert_eq!(g.score, 100);
    let i_color = Some(Color(3, 252, 248));
    // The cleared bottom row was replaced by the row above it.
    assert_eq!(g.board.cells[19 * 10 + 5], Some(gray));
    assert_eq!(g.board.cells[19 * 10 + 0], i_color);
    for x in 1..5 {
        assert!(g.board.cells[19 * 10 + x].is_none());
    }
    // The rest of the upright piece shifted down one row.
    assert_eq!(g.board.cells[18 * 10 + 0], i_color);
    assert_eq!(g.board.cells[17 * 10 + 0], i_color);
}

#[test]
fn colliding_spawn_raises_game_over_and_halts_intents() {
    let mut g = Game::new_with_pieces(10, 20, I, O);
    // Occupy a cell where the O block will spawn (top center).
    g.board.cells[0 * 10 + 4] = Some(Color(1, 1, 1));
    g.spawn_new_piece_with(T);
    assert!(g.is_game_over);
    let piece_before = g.active_piece;
    let score_before = g.score;
    assert!(!g.update_with(100000, T));
    g.move_left();
    g.move_right();
    g.rotate();
    assert!(!g.soft_drop_with(T));
    assert!(!g.hard_drop_with(T));
    g.toggle_pause();
    assert!(!g.paused);
    assert_eq!(g.active_piece, piece_before);
    assert_eq!(g.score, score_before);
    assert!(g.is_game_over);
}

#[test]
fn score_table_matches_the_fixed_awards() {
    assert_eq!(score_for_lines(0), 0);
    assert_eq!(score_for_lines(1), 100);
    assert_eq!(score_for_lines(2), 300);
    assert_eq!(score_for_lines(3), 500);
    assert_eq!(score_for_lines(4), 800);
    assert_eq!(score_for_lines(5), 0);
}

#[test]
fn gravity_interval_ratchets_down_to_the_floor_and_stays() {
    let mut g = Game::new_with_pieces(10, 20, I, O);
    assert_eq!(g.gravity_delay_ms, 1000);
    g.gravity_delay_ms = 200;
    g.speed_up_counter = 9;
    g.spawn_new_piece_with(T);
    assert_eq!(g.gravity_delay_ms, 150);
    assert_eq!(g.speed_up_counter, 0);
    g.speed_up_counter = 9;
    g.spawn_new_piece_with(T);
    // Already at the floor: another ratchet does not go below it.
    assert_eq!(g.gravity_delay_ms, 150);
}

#[test]
fn speed_up_fires_every_tenth_lock() {
    let mut g = Game::new_with_pieces(10, 20, I, O);
    for lock in 0..9 {
        g.spawn_new_piece_with(T);
        assert_eq!(g.speed_up_counter, lock + 1);
        assert_eq!(g.gravity_delay_ms, 1000);
    }
    g.spawn_new_piece_with(T);
    assert_eq!(g.speed_up_counter, 0);
    assert_eq!(g.gravity_delay_ms, 925);
}

#[test]
fn wall_kick_prefers_the_first_free_offset() {
    let mut g = Game::new_with_pieces(10, 20, I, O);
    g.rotate();
    for _ in 0..3 {
        g.move_left();
    }
    assert!(g.soft_drop_with(T));
    assert_eq!((g.active_piece.x, g.active_piece.y), (0, 1));
    // Block the in-place and +1 placements of the horizontal bar; the
    // first surviving offset in the order 0, +1, -1, +2, -2 is +2.
    g.board.cells[1 * 10 + 1] = Some(Color(1, 1, 1));
    g.rotate();
    assert_eq!(g.active_piece.rotation, 0);
    assert_eq!(g.active_piece.x, 2);
    assert_eq!(g.active_piece.y, 1);
}

#[test]
fn rotation_with_no_legal_kick_is_rejected() {
    let mut g = Game::new_with_pieces(10, 20, I, O);
    g.rotate();
    for _ in 0..6 {
        g.move_right();
    }
    assert_eq!(g.active_piece.x, 9);
    // A horizontal bar cannot fit at any kick offset from the right wall.
    g.rotate();
    assert_eq!(g.active_piece.rotation, 1);
    assert_eq!(g.active_piece.x, 9);
}

#[test]
fn repeated_rotation_from_equal_states_picks_the_same_offset() {
    let build = || {
        let mut g = Game::new_with_pieces(10, 20, I, O);
        g.rotate();
        for _ in 0..3 {
            g.move_left();
        }
        g.soft_drop_with(T);
        g.board.cells[1 * 10 + 1] = Some(Color(1, 1, 1));
        g
    };
    let mut g1 = build();
    let mut g2 = build();
    g1.rotate();
    g2.rotate();
    assert_eq!(g1.active_piece, g2.active_piece);
}

#[test]
fn gravity_tick_fires_only_at_the_interval() {
    let mut g = Game::new_with_pieces(10, 20, O, I);
    assert!(!g.update_with(999, T));
    assert_eq!(g.active_piece.y, 0);
    assert!(g.update_with(1000, T));
    assert_eq!(g.active_piece.y, 1);
}

#[test]
fn gravity_tick_locks_a_blocked_piece() {
    let mut g = Game::new_with_pieces(10, 20, O, I);
    for _ in 0..18 {
        assert!(g.update_with(5000, T));
    }
    assert_eq!(g.active_piece.y, 18);
    // One more tick cannot move the piece down: it locks instead.
    assert!(g.update_with(5000, T));
    assert_eq!(g.active_piece.id, I);
    assert!(g.board.cells[19 * 10 + 4].is_some());
}

#[test]
fn paused_sessions_ignore_movement_and_gravity() {
    let mut g = Game::new_with_pieces(10, 20, O, I);
    g.toggle_pause();
    assert!(g.paused);
    let before = g.active_piece;
    g.move_left();
    g.move_right();
    g.rotate();
    assert!(!g.soft_drop_with(T));
    assert!(!g.hard_drop_with(T));
    assert!(!g.update_with(100000, T));
    assert_eq!(g.active_piece, before);
    g.toggle_pause();
    assert!(!g.paused);
    g.move_left();
    assert_eq!(g.active_piece.x, before.x - 1);
}

#[test]
fn soft_drop_moves_or_locks() {
    let mut g = Game::new_with_pieces(10, 20, O, I);
    for _ in 0..18 {
        assert!(g.soft_drop_with(T));
    }
    assert_eq!(g.active_piece.y, 18);
    assert!(g.soft_drop_with(T));
    // Blocked at the floor: the drop locked the piece and spawned the next.
    assert_eq!(g.active_piece.id, I);
    assert!(g.board.cells[19 * 10 + 4].is_some());
}

#[test]
fn random_draws_stay_inside_the_catalog() {
    let mut g = Game::new(10, 20);
    assert!(g.active_piece.id < NUM_PIECES);
    assert!(g.next_piece_id < NUM_PIECES);
    for _ in 0..20 {
        g.hard_drop();
        assert!(g.active_piece.id < NUM_PIECES);
        assert!(g.next_piece_id < NUM_PIECES);
        if g.is_game_over {
            break;
        }
    }
}

#[test]
fn blocks_derive_from_bitmap_and_anchor() {
    let p = ActivePiece::new(T, 10);
    // T block, rotation 0: bitmap 010 / 111, anchored at (3, 0).
    assert_eq!(p.x, 3);
    let cells = p.blocks();
    assert_eq!(cells, vec![(4, 0), (3, 1), (4, 1), (5, 1)]);
    let def = p.definition();
    assert_eq!(def.rotations.len(), 4);
    assert_eq!(def.color, Color(161, 3, 252));
    assert_eq!(p.width(), 3);
    assert_eq!(p.bitmap(), vec![0, 1, 0, 1, 1, 1]);
}
