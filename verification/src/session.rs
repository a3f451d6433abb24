//! The game session: one board, one active piece, a next-piece lookahead,
//! score, gravity pacing and the Playing/Paused/GameOver state machine.
//!
//! Every transition is deterministic given the drawn lookahead shape. Each
//! operation that consumes a random draw exists in two forms: a `_with`
//! form taking the freshly drawn shape as an argument (fully specified),
//! and a drawing form that samples the shape itself and guarantees the
//! same transition for some in-range draw.

use vstd::prelude::*;
use crate::board::{
    Board, spec_cell_collides, spec_cleared, spec_collides, spec_empty_cells, spec_full_count,
    spec_lock,
};
use crate::piece::{
    ActivePiece, Color, NUM_PIECES, lemma_catalog_bounds, piece_color, spec_blocks,
    spec_cells_from, spec_color, spec_rotations,
};
use rand::Rng;

verus! {

pub const INITIAL_GRAVITY_MS: u64 = 1000;

pub const GRAVITY_STEP_MS: u64 = 75;

pub const MIN_GRAVITY_MS: u64 = 150;

pub const LOCKS_PER_SPEED_UP: usize = 10;

/// Points awarded for clearing `lines` rows in a single lock:
/// 1 -> 100, 2 -> 300, 3 -> 500, 4 -> 800, anything else -> 0.
pub open spec fn spec_score_for_lines(lines: int) -> int {
    if lines == 1 {
        100
    } else if lines == 2 {
        300
    } else if lines == 3 {
        500
    } else if lines == 4 {
        800
    } else {
        0
    }
}

/// Flat award for the rows cleared by one lock; not combo-multiplied.
pub fn score_for_lines(lines: usize) -> (points: u32)
    ensures
        points == spec_score_for_lines(lines as int),
{
    match lines {
        1 => 100,
        2 => 300,
        3 => 500,
        4 => 800,
        _ => 0,
    }
}

/// A score sum clamped at the top of the score type's range.
pub open spec fn spec_saturate_score(s: int) -> int {
    if s > u32::MAX {
        u32::MAX as int
    } else {
        s
    }
}

/// The whole observable session state, as mathematical values.
pub ghost struct GameView {
    pub cells: Seq<Option<Color>>,
    pub width: int,
    pub height: int,
    pub piece: ActivePiece,
    pub next_id: int,
    pub game_over: bool,
    pub paused: bool,
    pub gravity_ms: int,
    pub counter: int,
    pub score: int,
}

/// One game session, owning its board, active piece and lookahead.
pub struct Game {
    pub board: Board,
    pub active_piece: ActivePiece,
    pub next_piece_id: usize,
    pub is_game_over: bool,
    pub paused: bool,
    pub gravity_delay_ms: u64,
    pub speed_up_counter: usize,
    pub score: u32,
}

impl View for Game {
    type V = GameView;

    open spec fn view(&self) -> GameView {
        GameView {
            cells: self.board.cells@,
            width: self.board.width as int,
            height: self.board.height as int,
            piece: self.active_piece,
            next_id: self.next_piece_id as int,
            game_over: self.is_game_over,
            paused: self.paused,
            gravity_ms: self.gravity_delay_ms as int,
            counter: self.speed_up_counter as int,
            score: self.score as int,
        }
    }
}

/// The gravity interval after one more lock: every tenth lock shortens it
/// by one step, clamped at the floor; otherwise it is unchanged.
pub open spec fn spec_next_gravity(delay: int, counter: int) -> int {
    if counter + 1 >= LOCKS_PER_SPEED_UP {
        if delay - GRAVITY_STEP_MS >= MIN_GRAVITY_MS {
            delay - GRAVITY_STEP_MS
        } else {
            MIN_GRAVITY_MS as int
        }
    } else {
        delay
    }
}

/// The speed-up counter after one more lock: resets on every tenth lock.
pub open spec fn spec_next_counter(counter: int) -> int {
    if counter + 1 >= LOCKS_PER_SPEED_UP {
        0
    } else {
        counter + 1
    }
}

/// Spawning the lookahead piece: advance the speed-up ratchet, center the
/// lookahead shape at the top, install the fresh draw as the new lookahead,
/// and raise game-over if the spawned piece already collides.
pub open spec fn spec_spawn_step(v: GameView, fresh: int) -> GameView {
    let p = ActivePiece::spec_spawn(v.next_id, v.width);
    GameView {
        piece: p,
        next_id: fresh,
        gravity_ms: spec_next_gravity(v.gravity_ms, v.counter),
        counter: spec_next_counter(v.counter),
        game_over: v.game_over || spec_collides(v.cells, v.width, v.height, spec_blocks(p)),
        ..v
    }
}

/// Locking the active piece: write it into the grid, clear full rows, add
/// the flat score award, then spawn the lookahead piece.
pub open spec fn spec_lock_step(v: GameView, fresh: int) -> GameView {
    let locked = spec_lock(v.cells, v.width, spec_blocks(v.piece), spec_color(v.piece.id as int));
    let n = spec_full_count(locked, v.width, v.height);
    spec_spawn_step(
        GameView {
            cells: spec_cleared(locked, v.width, v.height),
            score: spec_saturate_score(v.score + spec_score_for_lines(n)),
            ..v
        },
        fresh,
    )
}

/// Translating the active piece: applied only when the moved cell set does
/// not collide, otherwise rejected with the state unchanged.
pub open spec fn spec_try_move(v: GameView, dx: int, dy: int) -> (GameView, bool) {
    let cand = ActivePiece {
        x: (v.piece.x + dx) as isize,
        y: (v.piece.y + dy) as isize,
        ..v.piece
    };
    if !spec_collides(v.cells, v.width, v.height, spec_blocks(cand)) {
        (GameView { piece: cand, ..v }, true)
    } else {
        (v, false)
    }
}

/// The wall-kick horizontal offsets, in the fixed priority order: in place
/// first, then right before left, then further right before further left.
pub open spec fn spec_kick_offsets() -> Seq<int> {
    seq![0, 1, -1, 2, -2]
}

/// The piece advanced to its next rotation state (wrapping modulo its own
/// state count) and kicked sideways by `off` columns.
pub open spec fn spec_rotated_piece(p: ActivePiece, off: int) -> ActivePiece {
    ActivePiece {
        rotation: (((p.rotation + 1) as int % spec_rotations(p.id as int).len() as int)) as usize,
        x: (p.x + off) as isize,
        ..p
    }
}

/// The first wall-kick offset at index `i` or later whose rotated placement
/// does not collide, if any.
pub open spec fn spec_kick_from(
    cells: Seq<Option<Color>>,
    w: int,
    h: int,
    p: ActivePiece,
    i: int,
) -> Option<int>
    decreases 5 - i,
{
    if i < 0 || i >= 5 {
        None
    } else {
        let off = spec_kick_offsets()[i];
        if !spec_collides(cells, w, h, spec_blocks(spec_rotated_piece(p, off))) {
            Some(off)
        } else {
            spec_kick_from(cells, w, h, p, i + 1)
        }
    }
}

/// The piece after a rotation attempt: rotated and kicked by the first
/// accepted offset, or unchanged when every offset collides.
pub open spec fn spec_rotate_outcome(
    cells: Seq<Option<Color>>,
    w: int,
    h: int,
    p: ActivePiece,
) -> ActivePiece {
    match spec_kick_from(cells, w, h, p, 0) {
        Some(off) => spec_rotated_piece(p, off),
        None => p,
    }
}

/// The resting place of a piece pushed straight down until blocked, with a
/// recursion budget that any in-board piece never exhausts.
pub open spec fn spec_rest_piece(
    cells: Seq<Option<Color>>,
    w: int,
    h: int,
    p: ActivePiece,
    fuel: int,
) -> ActivePiece
    decreases fuel,
{
    if fuel <= 0 {
        p
    } else {
        let q = ActivePiece { y: (p.y + 1) as isize, ..p };
        if spec_collides(cells, w, h, spec_blocks(q)) {
            p
        } else {
            spec_rest_piece(cells, w, h, q, fuel - 1)
        }
    }
}

/// A move intent: a one-column translation, ignored while paused or after
/// game over.
pub open spec fn spec_move_intent(v: GameView, dx: int) -> GameView {
    if v.game_over || v.paused {
        v
    } else {
        spec_try_move(v, dx, 0).0
    }
}

/// A rotate intent: the wall-kick search, ignored while paused or after
/// game over.
pub open spec fn spec_rotate_intent(v: GameView) -> GameView {
    if v.game_over || v.paused {
        v
    } else {
        GameView { piece: spec_rotate_outcome(v.cells, v.width, v.height, v.piece), ..v }
    }
}

/// A soft-drop intent: move down one row, or lock immediately when blocked.
/// Ignored while paused or after game over; the flag reports whether the
/// intent was applied (and hence whether the gravity timer must reset).
pub open spec fn spec_soft_drop(v: GameView, fresh: int) -> (GameView, bool) {
    if v.game_over || v.paused {
        (v, false)
    } else {
        let (m, moved) = spec_try_move(v, 0, 1);
        if moved {
            (m, true)
        } else {
            (spec_lock_step(v, fresh), true)
        }
    }
}

/// A hard-drop intent: push the piece down until blocked, then lock.
/// Ignored while paused or after game over.
pub open spec fn spec_hard_drop(v: GameView, fresh: int) -> (GameView, bool) {
    if v.game_over || v.paused {
        (v, false)
    } else {
        let rest = spec_rest_piece(v.cells, v.width, v.height, v.piece, v.height + 5 - v.piece.y);
        (spec_lock_step(GameView { piece: rest, ..v }, fresh), true)
    }
}

/// A pause toggle: flips the paused flag, except after game over.
pub open spec fn spec_toggle_pause(v: GameView) -> GameView {
    if v.game_over {
        v
    } else {
        GameView { paused: !v.paused, ..v }
    }
}

/// A gravity tick: when the elapsed time has reached the gravity interval
/// (and the session is live), move the piece down one row or lock it when
/// blocked. The flag reports whether a tick fired (and hence whether the
/// gravity time reference must reset).
pub open spec fn spec_tick(v: GameView, elapsed: int, fresh: int) -> (GameView, bool) {
    if v.game_over || v.paused {
        (v, false)
    } else if elapsed < v.gravity_ms {
        (v, false)
    } else {
        let (m, moved) = spec_try_move(v, 0, 1);
        if moved {
            (m, true)
        } else {
            (spec_lock_step(v, fresh), true)
        }
    }
}

/// A freshly created session over an empty board: the first shape centered
/// at the top, the lookahead installed, score zero, gravity at its initial
/// interval, and game-over already raised in the degenerate case where the
/// very first piece does not fit.
pub open spec fn spec_new_view(w: int, h: int, first: int, next: int) -> GameView {
    let cells = spec_empty_cells(w * h);
    let p = ActivePiece::spec_spawn(first, w);
    GameView {
        cells: cells,
        width: w,
        height: h,
        piece: p,
        next_id: next,
        game_over: spec_collides(cells, w, h, spec_blocks(p)),
        paused: false,
        gravity_ms: INITIAL_GRAVITY_MS as int,
        counter: 0,
        score: 0,
    }
}

/// Every cell a valid piece occupies lies within 3 columns and 3 rows of
/// its anchor, and a valid piece occupies at least one cell.
pub proof fn lemma_blocks_span(p: ActivePiece)
    requires
        p.valid(),
    ensures
        spec_blocks(p).len() > 0,
        forall|k: int|
            0 <= k < spec_blocks(p).len() ==> (p.x <= #[trigger] spec_blocks(p)[k].0 <= p.x + 3
                && p.y <= spec_blocks(p)[k].1 <= p.y + 3),
{
    lemma_catalog_bounds(p.id as int, p.rotation as int);
    let rot = spec_rotations(p.id as int)[p.rotation as int];
    lemma_cells_from_span(rot.1, rot.0, p.x as int, p.y as int, 0);
    let k0 = if rot.1[0] == 1 {
        0int
    } else if rot.1[1] == 1 {
        1int
    } else {
        2int
    };
    assert(rot.1[k0] == 1);
    lemma_cells_from_nonempty(rot.1, rot.0, p.x as int, p.y as int, 0, k0);
}

proof fn lemma_cells_from_span(bitmap: Seq<u8>, w: int, x: int, y: int, i: int)
    requires
        1 <= w <= 4,
        bitmap.len() <= 4 * w,
        0 <= i,
    ensures
        forall|k: int|
            0 <= k < spec_cells_from(bitmap, w, x, y, i).len() ==> (x <= #[trigger] spec_cells_from(
                bitmap,
                w,
                x,
                y,
                i,
            )[k].0 <= x + 3 && y <= spec_cells_from(bitmap, w, x, y, i)[k].1 <= y + 3),
    decreases bitmap.len() - i,
{
    if i < bitmap.len() {
        lemma_cells_from_span(bitmap, w, x, y, i + 1);
        let rest = spec_cells_from(bitmap, w, x, y, i + 1);
        let cur = spec_cells_from(bitmap, w, x, y, i);
        if bitmap[i] == 1 {
            vstd::arithmetic::div_mod::lemma_mod_bound(i, w);
            vstd::arithmetic::div_mod::lemma_div_pos_is_pos(i, w);
            assert(i < w * 4);
            vstd::arithmetic::div_mod::lemma_multiply_divide_lt(i, w, 4);
            let head = (x + i % w, y + i / w);
            assert(x <= head.0 <= x + 3);
            assert(y <= head.1 <= y + 3);
            assert(cur == seq![head] + rest);
            assert forall|k: int|
                0 <= k < cur.len() implies (x <= #[trigger] cur[k].0 <= x + 3 && y <= cur[k].1 <= y
                + 3) by {
                if k == 0 {
                    assert(cur[k] == head);
                } else {
                    assert(cur[k] == rest[k - 1]);
                }
            }
        } else {
            assert(cur == rest);
        }
    }
}

proof fn lemma_cells_from_nonempty(bitmap: Seq<u8>, w: int, x: int, y: int, i: int, witness: int)
    requires
        i <= witness < bitmap.len(),
        0 <= i,
        bitmap[witness] == 1,
    ensures
        spec_cells_from(bitmap, w, x, y, i).len() > 0,
    decreases bitmap.len() - i,
{
    if bitmap[i] != 1 {
        lemma_cells_from_nonempty(bitmap, w, x, y, i + 1, witness);
    }
}

/// A valid piece whose cells all clear the collision test sits fully inside
/// the board: its anchor is at most 3 columns left of the wall, within the
/// right wall, and above the floor.
pub proof fn lemma_fits_after_no_collision(
    cells: Seq<Option<Color>>,
    w: int,
    h: int,
    p: ActivePiece,
)
    requires
        p.valid(),
        !spec_collides(cells, w, h, spec_blocks(p)),
    ensures
        -3 <= p.x < w,
        p.y < h,
{
    lemma_blocks_span(p);
    let c = spec_blocks(p)[0];
    assert(!spec_cell_collides(cells, w, h, c));
}

/// Relies on rand: `thread_rng().gen_range(0..NUM_PIECES)` returns a value
/// drawn uniformly from that nonempty range, so always below NUM_PIECES.
#[verifier::external_body]
fn draw_piece_id() -> (id: usize)
    ensures
        id < NUM_PIECES,
{
    rand::thread_rng().gen_range(0..NUM_PIECES)
}

impl Game {
    /// The parts of well-formedness that survive a lock: the board is
    /// well-formed and lookahead, speed-up counter are in range.
    pub open spec fn wf_core(self) -> bool {
        &&& self.board.wf()
        &&& self.next_piece_id < NUM_PIECES
        &&& self.speed_up_counter < LOCKS_PER_SPEED_UP
    }

    /// Session well-formedness: the board invariant, a valid active piece
    /// anchored near the board, in-range lookahead and counter, and — while
    /// the game is live — an active piece that does not collide.
    pub open spec fn wf(self) -> bool {
        &&& self.wf_core()
        &&& self.active_piece.valid()
        &&& -4 <= self.active_piece.x <= self.board.width as int
        &&& -4 <= self.active_piece.y <= self.board.height as int
        &&& (!self.is_game_over ==> !spec_collides(
            self.board.cells@,
            self.board.width as int,
            self.board.height as int,
            spec_blocks(self.active_piece),
        ))
    }

    /// Create a session with both the first piece and the lookahead chosen
    /// by the caller (deterministic; the drawing form is `new`).
    pub fn new_with_pieces(width: usize, height: usize, first_id: usize, next_id: usize) -> (g:
        Game)
        requires
            1 <= width,
            1 <= height,
            width + 8 <= isize::MAX,
            height + 8 <= isize::MAX,
            width * height <= usize::MAX,
            first_id < NUM_PIECES,
            next_id < NUM_PIECES,
        ensures
            g.wf(),
            g@ == spec_new_view(width as int, height as int, first_id as int, next_id as int),
    {
        let board = Board::new(width, height);
        let active_piece = ActivePiece::new(first_id, width);
        let mut g = Game {
            board,
            active_piece,
            next_piece_id: next_id,
            is_game_over: false,
            paused: false,
            gravity_delay_ms: INITIAL_GRAVITY_MS,
            speed_up_counter: 0,
            score: 0,
        };
        proof {
            lemma_catalog_bounds(first_id as int, 0);
        }
        if g.check_collision(&g.active_piece) {
            g.is_game_over = true;
        }
        proof {
            if !g.is_game_over {
                lemma_fits_after_no_collision(
                    g.board.cells@,
                    g.board.width as int,
                    g.board.height as int,
                    g.active_piece,
                );
            }
        }
        g
    }

    /// Create a session with the first piece and lookahead drawn at random
    /// from the catalog.
    pub fn new(width: usize, height: usize) -> (g: Game)
        requires
            1 <= width,
            1 <= height,
            width + 8 <= isize::MAX,
            height + 8 <= isize::MAX,
            width * height <= usize::MAX,
        ensures
            g.wf(),
            exists|f1: int, f2: int|
                0 <= f1 < NUM_PIECES && 0 <= f2 < NUM_PIECES && g@ == spec_new_view(
                    width as int,
                    height as int,
                    f1,
                    f2,
                ),
    {
        let first = draw_piece_id();
        let next = draw_piece_id();
        let g = Game::new_with_pieces(width, height, first, next);
        proof {
            assert(g@ == spec_new_view(width as int, height as int, first as int, next as int));
        }
        g
    }

    /// Whether `piece` would collide on this session's board.
    pub fn check_collision(&self, piece: &ActivePiece) -> (r: bool)
        requires
            self.board.wf(),
            piece.valid(),
            piece.anchor_in_range(),
        ensures
            r == spec_collides(
                self.board.cells@,
                self.board.width as int,
                self.board.height as int,
                spec_blocks(*piece),
            ),
    {
        let cells = piece.blocks();
        self.board.collides(&cells)
    }

    /// Attempt to translate the active piece by (`dx`, `dy`): applied only
    /// when the moved piece does not collide, otherwise a silent no-op.
    pub fn try_move(&mut self, dx: isize, dy: isize) -> (moved: bool)
        requires
            old(self).wf(),
            -1 <= dx <= 1,
            0 <= dy <= 1,
        ensures
            final(self).wf(),
            (final(self)@, moved) == spec_try_move(old(self)@, dx as int, dy as int),
    {
        let cand = ActivePiece {
            id: self.active_piece.id,
            rotation: self.active_piece.rotation,
            x: self.active_piece.x + dx,
            y: self.active_piece.y + dy,
        };
        if !self.check_collision(&cand) {
            proof {
                lemma_fits_after_no_collision(
                    self.board.cells@,
                    self.board.width as int,
                    self.board.height as int,
                    cand,
                );
            }
            self.active_piece = cand;
            true
        } else {
            false
        }
    }

    /// Attempt to rotate the active piece to its next rotation state, with
    /// the wall-kick search over the fixed offset priority order; when every
    /// kicked placement collides the piece is left unchanged.
    pub fn try_rotate(&mut self)
        requires
            old(self).wf(),
        ensures
            final(self).wf(),
            final(self)@ == (GameView {
                piece: spec_rotate_outcome(
                    old(self)@.cells,
                    old(self)@.width,
                    old(self)@.height,
                    old(self)@.piece,
                ),
                ..old(self)@
            }),
    {
        let ghost v = self@;
        let n = crate::piece::num_rotations(self.active_piece.id);
        proof {
            lemma_catalog_bounds(self.active_piece.id as int, self.active_piece.rotation as int);
        }
        let new_rot = (self.active_piece.rotation + 1) % n;
        let base = self.active_piece;
        let c0 = ActivePiece { rotation: new_rot, ..base };
        let c1 = ActivePiece { rotation: new_rot, x: base.x + 1, ..base };
        let c2 = ActivePiece { rotation: new_rot, x: base.x - 1, ..base };
        let c3 = ActivePiece { rotation: new_rot, x: base.x + 2, ..base };
        let c4 = ActivePiece { rotation: new_rot, x: base.x - 2, ..base };
        proof {
            assert(c0 == spec_rotated_piece(v.piece, 0));
            assert(c1 == spec_rotated_piece(v.piece, 1));
            assert(c2 == spec_rotated_piece(v.piece, -1));
            assert(c3 == spec_rotated_piece(v.piece, 2));
            assert(c4 == spec_rotated_piece(v.piece, -2));
        }
        if !self.check_collision(&c0) {
            proof {
                assert(spec_kick_from(v.cells, v.width, v.height, v.piece, 0) == Some(0int));
                lemma_fits_after_no_collision(v.cells, v.width, v.height, c0);
            }
            self.active_piece = c0;
            return ;
        }
        proof {
            assert(spec_kick_from(v.cells, v.width, v.height, v.piece, 0) == spec_kick_from(
                v.cells,
                v.width,
                v.height,
                v.piece,
                1,
            ));
        }
        if !self.check_collision(&c1) {
            proof {
                assert(spec_kick_from(v.cells, v.width, v.height, v.piece, 1) == Some(1int));
                lemma_fits_after_no_collision(v.cells, v.width, v.height, c1);
            }
            self.active_piece = c1;
            return ;
        }
        proof {
            assert(spec_kick_from(v.cells, v.width, v.height, v.piece, 1) == spec_kick_from(
                v.cells,
                v.width,
                v.height,
                v.piece,
                2,
            ));
        }
        if !self.check_collision(&c2) {
            proof {
                assert(spec_kick_from(v.cells, v.width, v.height, v.piece, 2) == Some(-1int));
                lemma_fits_after_no_collision(v.cells, v.width, v.height, c2);
            }
            self.active_piece = c2;
            return ;
        }
        proof {
            assert(spec_kick_from(v.cells, v.width, v.height, v.piece, 2) == spec_kick_from(
                v.cells,
                v.width,
                v.height,
                v.piece,
                3,
            ));
        }
        if !self.check_collision(&c3) {
            proof {
                assert(spec_kick_from(v.cells, v.width, v.height, v.piece, 3) == Some(2int));
                lemma_fits_after_no_collision(v.cells, v.width, v.height, c3);
            }
            self.active_piece = c3;
            return ;
        }
        proof {
            assert(spec_kick_from(v.cells, v.width, v.height, v.piece, 3) == spec_kick_from(
                v.cells,
                v.width,
                v.height,
                v.piece,
                4,
            ));
        }
        if !self.check_collision(&c4) {
            proof {
                assert(spec_kick_from(v.cells, v.width, v.height, v.piece, 4) == Some(-2int));
                lemma_fits_after_no_collision(v.cells, v.width, v.height, c4);
            }
            self.active_piece = c4;
            return ;
        }
        proof {
            assert(spec_kick_from(v.cells, v.width, v.height, v.piece, 5) is None);
            assert(spec_kick_from(v.cells, v.width, v.height, v.piece, 4) is None);
            assert(spec_kick_from(v.cells, v.width, v.height, v.piece, 0) is None);
        }
    }

    /// Spawn the lookahead piece at the top of the board, advancing the
    /// speed-up ratchet and installing `fresh_next` as the new lookahead;
    /// raises game-over when the spawned piece immediately collides.
    pub fn spawn_new_piece_with(&mut self, fresh_next: usize)
        requires
            old(self).wf_core(),
            fresh_next < NUM_PIECES,
        ensures
            final(self).wf(),
            final(self)@ == spec_spawn_step(old(self)@, fresh_next as int),
    {
        if self.speed_up_counter + 1 >= LOCKS_PER_SPEED_UP {
            self.gravity_delay_ms = if self.gravity_delay_ms >= MIN_GRAVITY_MS + GRAVITY_STEP_MS {
                self.gravity_delay_ms - GRAVITY_STEP_MS
            } else {
                MIN_GRAVITY_MS
            };
            self.speed_up_counter = 0;
        } else {
            self.speed_up_counter = self.speed_up_counter + 1;
        }
        proof {
            lemma_catalog_bounds(self.next_piece_id as int, 0);
        }
        self.active_piece = ActivePiece::new(self.next_piece_id, self.board.width);
        self.next_piece_id = fresh_next;
        if self.check_collision(&self.active_piece) {
            self.is_game_over = true;
        }
    }

    /// Spawn the lookahead piece, drawing the new lookahead at random.
    pub fn spawn_new_piece(&mut self)
        requires
            old(self).wf_core(),
        ensures
            final(self).wf(),
            exists|f: int|
                0 <= f < NUM_PIECES && final(self)@ == spec_spawn_step(old(self)@, f),
    {
        let fresh = draw_piece_id();
        self.spawn_new_piece_with(fresh);
    }

    /// Lock the active piece into the board at its color, clear full rows,
    /// add the flat score award (saturating at the score type's maximum),
    /// and spawn the lookahead with `fresh_next` as the new lookahead.
    pub fn lock_piece_with(&mut self, fresh_next: usize)
        requires
            old(self).wf(),
            !old(self).is_game_over,
            fresh_next < NUM_PIECES,
        ensures
            final(self).wf(),
            final(self)@ == spec_lock_step(old(self)@, fresh_next as int),
    {
        let color = piece_color(self.active_piece.id);
        let cells = self.active_piece.blocks();
        proof {
            let bs = cells@.map_values(|c: (isize, isize)| (c.0 as int, c.1 as int));
            assert forall|j: int|
                0 <= j < cells@.len() && cells@[j].1 >= 0 implies 0 <= cells@[j].0 < self.board.width as int
                && cells@[j].1 < self.board.height as int by {
                assert(!spec_cell_collides(
                    self.board.cells@,
                    self.board.width as int,
                    self.board.height as int,
                    bs[j],
                ));
            }
        }
        self.board.lock(&cells, color);
        let cleared = self.board.clear_full_rows();
        let points = score_for_lines(cleared);
        self.score = if self.score <= u32::MAX - points {
            self.score + points
        } else {
            u32::MAX
        };
        self.spawn_new_piece_with(fresh_next);
    }

    /// Lock the active piece, drawing the new lookahead at random.
    pub fn lock_piece(&mut self)
        requires
            old(self).wf(),
            !old(self).is_game_over,
        ensures
            final(self).wf(),
            exists|f: int| 0 <= f < NUM_PIECES && final(self)@ == spec_lock_step(old(self)@, f),
    {
        let fresh = draw_piece_id();
        self.lock_piece_with(fresh);
    }

    /// A move-left intent: ignored while paused or after game over.
    pub fn move_left(&mut self)
        requires
            old(self).wf(),
        ensures
            final(self).wf(),
            final(self)@ == spec_move_intent(old(self)@, -1),
    {
        if !self.is_game_over && !self.paused {
            self.try_move(-1, 0);
        }
    }

    /// A move-right intent: ignored while paused or after game over.
    pub fn move_right(&mut self)
        requires
            old(self).wf(),
        ensures
            final(self).wf(),
            final(self)@ == spec_move_intent(old(self)@, 1),
    {
        if !self.is_game_over && !self.paused {
            self.try_move(1, 0);
        }
    }

    /// A rotate intent: ignored while paused or after game over.
    pub fn rotate(&mut self)
        requires
            old(self).wf(),
        ensures
            final(self).wf(),
            final(self)@ == spec_rotate_intent(old(self)@),
    {
        if !self.is_game_over && !self.paused {
            self.try_rotate();
        }
    }

    /// A soft-drop intent with a caller-chosen lookahead draw: move down one
    /// row, or lock immediately when blocked. Returns whether the intent was
    /// applied, i.e. whether the gravity time reference must reset.
    pub fn soft_drop_with(&mut self, fresh_next: usize) -> (applied: bool)
        requires
            old(self).wf(),
            fresh_next < NUM_PIECES,
        ensures
            final(self).wf(),
            (final(self)@, applied) == spec_soft_drop(old(self)@, fresh_next as int),
    {
        if self.is_game_over || self.paused {
            return false;
        }
        if !self.try_move(0, 1) {
            self.lock_piece_with(fresh_next);
        }
        true
    }

    /// A soft-drop intent, drawing the new lookahead at random when a lock
    /// occurs.
    pub fn soft_drop(&mut self) -> (applied: bool)
        requires
            old(self).wf(),
        ensures
            final(self).wf(),
            exists|f: int|
                0 <= f < NUM_PIECES && (final(self)@, applied) == spec_soft_drop(old(self)@, f),
    {
        let fresh = draw_piece_id();
        self.soft_drop_with(fresh)
    }

    /// A hard-drop intent with a caller-chosen lookahead draw: push the
    /// piece down until blocked, then lock it. Returns whether the intent
    /// was applied.
    pub fn hard_drop_with(&mut self, fresh_next: usize) -> (applied: bool)
        requires
            old(self).wf(),
            fresh_next < NUM_PIECES,
        ensures
            final(self).wf(),
            (final(self)@, applied) == spec_hard_drop(old(self)@, fresh_next as int),
    {
        if self.is_game_over || self.paused {
            return false;
        }
        let ghost v = self@;
        let ghost fuel0 = v.height + 5 - v.piece.y;
        loop
            invariant_except_break
                self.wf(),
                !self.is_game_over,
                !self.paused,
                self@ == (GameView { piece: self@.piece, ..v }),
                self@.piece.id == v.piece.id,
                self@.piece.rotation == v.piece.rotation,
                self@.piece.x == v.piece.x,
                self@.piece.y >= v.piece.y,
                spec_rest_piece(v.cells, v.width, v.height, v.piece, fuel0) == spec_rest_piece(
                    v.cells,
                    v.width,
                    v.height,
                    self@.piece,
                    v.height + 5 - self@.piece.y,
                ),
            ensures
                self.wf(),
                !self.is_game_over,
                !self.paused,
                self@ == (GameView { piece: self@.piece, ..v }),
                self@.piece == spec_rest_piece(v.cells, v.width, v.height, v.piece, fuel0),
            decreases (self.board.height as int) + 5 - (self.active_piece.y as int),
        {
            let ghost cur = self@.piece;
            let moved = self.try_move(0, 1);
            if !moved {
                proof {
                    assert(self@.piece == cur);
                    let q = ActivePiece { y: (cur.y + 1) as isize, ..cur };
                    assert(spec_collides(v.cells, v.width, v.height, spec_blocks(q)));
                    assert(v.height + 5 - cur.y > 0);
                    assert(spec_rest_piece(v.cells, v.width, v.height, cur, v.height + 5 - cur.y)
                        == cur);
                }
                break ;
            }
            proof {
                let q = ActivePiece { y: (cur.y + 1) as isize, ..cur };
                assert(self@.piece == q);
                assert(!spec_collides(v.cells, v.width, v.height, spec_blocks(q)));
                assert(v.height + 5 - cur.y > 0);
                assert(spec_rest_piece(v.cells, v.width, v.height, cur, v.height + 5 - cur.y)
                    == spec_rest_piece(v.cells, v.width, v.height, q, v.height + 5 - cur.y - 1));
            }
        }
        self.lock_piece_with(fresh_next);
        true
    }

    /// A hard-drop intent, drawing the new lookahead at random.
    pub fn hard_drop(&mut self) -> (applied: bool)
        requires
            old(self).wf(),
        ensures
            final(self).wf(),
            exists|f: int|
                0 <= f < NUM_PIECES && (final(self)@, applied) == spec_hard_drop(old(self)@, f),
    {
        let fresh = draw_piece_id();
        self.hard_drop_with(fresh)
    }

    /// A pause-toggle intent: flips the paused flag, except after game over.
    pub fn toggle_pause(&mut self)
        requires
            old(self).wf(),
        ensures
            final(self).wf(),
            final(self)@ == spec_toggle_pause(old(self)@),
    {
        if !self.is_game_over {
            self.paused = !self.paused;
        }
    }

    /// A gravity update with a caller-chosen lookahead draw: when `elapsed_ms`
    /// has reached the gravity interval and the session is live, move the
    /// piece down one row or lock it when blocked. Returns whether a tick
    /// fired, i.e. whether the gravity time reference must reset.
    pub fn update_with(&mut self, elapsed_ms: u64, fresh_next: usize) -> (ticked: bool)
        requires
            old(self).wf(),
            fresh_next < NUM_PIECES,
        ensures
            final(self).wf(),
            (final(self)@, ticked) == spec_tick(old(self)@, elapsed_ms as int, fresh_next as int),
    {
        if self.is_game_over || self.paused {
            return false;
        }
        if elapsed_ms < self.gravity_delay_ms {
            return false;
        }
        if !self.try_move(0, 1) {
            self.lock_piece_with(fresh_next);
        }
        true
    }

    /// A gravity update, drawing the new lookahead at random when a lock
    /// occurs.
    pub fn update(&mut self, elapsed_ms: u64) -> (ticked: bool)
        requires
            old(self).wf(),
        ensures
            final(self).wf(),
            exists|f: int|
                0 <= f < NUM_PIECES && (final(self)@, ticked) == spec_tick(
                    old(self)@,
                    elapsed_ms as int,
                    f,
                ),
    {
        let fresh = draw_piece_id();
        self.update_with(elapsed_ms, fresh)
    }
}

/// The wall-kick search is deterministic: two sessions with the same board
/// contents, dimensions and active piece resolve a rotation to the same
/// outcome.
pub proof fn lemma_rotation_deterministic(v1: GameView, v2: GameView)
    requires
        v1.cells == v2.cells,
        v1.width == v2.width,
        v1.height == v2.height,
        v1.piece == v2.piece,
    ensures
        spec_rotate_outcome(v1.cells, v1.width, v1.height, v1.piece) == spec_rotate_outcome(
            v2.cells,
            v2.width,
            v2.height,
            v2.piece,
        ),
{
}

/// The speed-up ratchet never takes the gravity interval below the floor:
/// after any lock the interval is either unchanged or still at least the
/// floor, so an interval at or above the floor stays there forever.
pub proof fn lemma_gravity_floor(delay: int, counter: int)
    ensures
        spec_next_gravity(delay, counter) == delay || spec_next_gravity(delay, counter)
            >= MIN_GRAVITY_MS,
        delay >= MIN_GRAVITY_MS ==> spec_next_gravity(delay, counter) >= MIN_GRAVITY_MS,
        spec_next_gravity(delay, counter) <= delay || spec_next_gravity(delay, counter)
            == MIN_GRAVITY_MS,
{
}

} // verus!
