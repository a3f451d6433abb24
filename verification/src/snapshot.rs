//! The persistence snapshot: a plain-value record of a whole session, the
//! validation that guards restoring one, and the round-trip guarantee.
//!
//! A snapshot is rejected before any field is applied: a failed load leaves
//! the live session untouched. A restored session always resumes unpaused.

use vstd::prelude::*;
use crate::board::{Board, spec_collides};
use crate::piece::{ActivePiece, Color, NUM_PIECES, spec_blocks};
use crate::session::{Game, GameView, LOCKS_PER_SPEED_UP};

verus! {

/// A full session snapshot as plain values: board contents, dimensions,
/// active piece, lookahead, game-over flag, gravity interval, speed-up
/// counter and score. The paused flag and the gravity time reference are
/// deliberately not recorded: a loaded game resumes live play.
pub struct Snapshot {
    pub board: Vec<Option<Color>>,
    pub width: usize,
    pub height: usize,
    pub active_piece: ActivePiece,
    pub next_piece_id: usize,
    pub is_game_over: bool,
    pub gravity_delay_ms: u64,
    pub speed_up_counter: usize,
    pub score: u32,
}

/// Why a snapshot was rejected, each tied to exactly one validation rule.
#[derive(Debug, Clone, Copy, PartialEq, Eq, Structural)]
pub enum SnapshotError {
    /// A dimension is zero or too large for board coordinates.
    BadDimensions,
    /// The cell list does not hold exactly `width * height` cells.
    BoardSizeMismatch,
    /// A shape or rotation index is out of the catalog's range, or the
    /// active piece's anchor lies far outside the board.
    BadPiece,
    /// The speed-up counter is outside its live range.
    BadCounter,
    /// The snapshot claims a live game whose active piece collides.
    PieceConflict,
}

/// The snapshot's observable content, as mathematical values.
pub ghost struct SnapshotView {
    pub board: Seq<Option<Color>>,
    pub width: int,
    pub height: int,
    pub piece: ActivePiece,
    pub next_id: int,
    pub game_over: bool,
    pub gravity_ms: int,
    pub counter: int,
    pub score: int,
}

impl View for Snapshot {
    type V = SnapshotView;

    open spec fn view(&self) -> SnapshotView {
        SnapshotView {
            board: self.board@,
            width: self.width as int,
            height: self.height as int,
            piece: self.active_piece,
            next_id: self.next_piece_id as int,
            game_over: self.is_game_over,
            gravity_ms: self.gravity_delay_ms as int,
            counter: self.speed_up_counter as int,
            score: self.score as int,
        }
    }
}

pub open spec fn spec_dims_ok(s: SnapshotView) -> bool {
    1 <= s.width && 1 <= s.height && s.width + 8 <= isize::MAX && s.height + 8 <= isize::MAX
}

pub open spec fn spec_board_ok(s: SnapshotView) -> bool {
    s.board.len() == s.width * s.height
}

pub open spec fn spec_piece_ok(s: SnapshotView) -> bool {
    0 <= s.next_id < NUM_PIECES && s.piece.valid() && -4 <= s.piece.x <= s.width && -4 <= s.piece.y
        <= s.height
}

pub open spec fn spec_counter_ok(s: SnapshotView) -> bool {
    0 <= s.counter < LOCKS_PER_SPEED_UP
}

pub open spec fn spec_conflict_ok(s: SnapshotView) -> bool {
    !s.game_over ==> !spec_collides(s.board, s.width, s.height, spec_blocks(s.piece))
}

/// A snapshot is applied only when every validation rule passes.
pub open spec fn spec_snapshot_valid(s: SnapshotView) -> bool {
    spec_dims_ok(s) && spec_board_ok(s) && spec_piece_ok(s) && spec_counter_ok(s)
        && spec_conflict_ok(s)
}

/// The error reported for an invalid snapshot: the first validation rule
/// that fails, in a fixed order.
pub open spec fn spec_snapshot_error(s: SnapshotView) -> SnapshotError {
    if !spec_dims_ok(s) {
        SnapshotError::BadDimensions
    } else if !spec_board_ok(s) {
        SnapshotError::BoardSizeMismatch
    } else if !spec_piece_ok(s) {
        SnapshotError::BadPiece
    } else if !spec_counter_ok(s) {
        SnapshotError::BadCounter
    } else {
        SnapshotError::PieceConflict
    }
}

/// What saving records of a session.
pub open spec fn spec_snapshot_of(v: GameView) -> SnapshotView {
    SnapshotView {
        board: v.cells,
        width: v.width,
        height: v.height,
        piece: v.piece,
        next_id: v.next_id,
        game_over: v.game_over,
        gravity_ms: v.gravity_ms,
        counter: v.counter,
        score: v.score,
    }
}

/// The session a snapshot restores: every recorded field verbatim, the
/// paused flag forced off.
pub open spec fn spec_restore(s: SnapshotView) -> GameView {
    GameView {
        cells: s.board,
        width: s.width,
        height: s.height,
        piece: s.piece,
        next_id: s.next_id,
        game_over: s.game_over,
        paused: false,
        gravity_ms: s.gravity_ms,
        counter: s.counter,
        score: s.score,
    }
}

fn copy_cells(v: &Vec<Option<Color>>) -> (r: Vec<Option<Color>>)
    ensures
        r@ == v@,
{
    let mut r: Vec<Option<Color>> = Vec::new();
    let mut i: usize = 0;
    while i < v.len()
        invariant
            i <= v@.len(),
            r@ == v@.take(i as int),
        decreases v@.len() - i,
    {
        r.push(v[i]);
        proof {
            assert(r@ =~= v@.take(i as int + 1));
        }
        i += 1;
    }
    proof {
        assert(v@.take(v@.len() as int) =~= v@);
    }
    r
}

impl Game {
    /// Record the whole session as a snapshot.
    pub fn to_snapshot(&self) -> (s: Snapshot)
        ensures
            s@ == spec_snapshot_of(self@),
    {
        Snapshot {
            board: copy_cells(&self.board.cells),
            width: self.board.width,
            height: self.board.height,
            active_piece: self.active_piece,
            next_piece_id: self.next_piece_id,
            is_game_over: self.is_game_over,
            gravity_delay_ms: self.gravity_delay_ms,
            speed_up_counter: self.speed_up_counter,
            score: self.score,
        }
    }

    /// Replace the whole session with a snapshot's content, forcing the
    /// paused flag off — or reject the snapshot before any field is applied,
    /// reporting the first validation rule it breaks.
    pub fn load_snapshot(&mut self, s: &Snapshot) -> (r: Result<(), SnapshotError>)
        requires
            old(self).wf(),
        ensures
            final(self).wf(),
            match r {
                Ok(()) => spec_snapshot_valid(s@) && final(self)@ == spec_restore(s@),
                Err(e) => !spec_snapshot_valid(s@) && final(self)@ == old(self)@ && e
                    == spec_snapshot_error(s@),
            },
    {
        let max_dim: usize = (isize::MAX as usize) - 8;
        if s.width < 1 || s.height < 1 || s.width > max_dim || s.height > max_dim {
            return Err(SnapshotError::BadDimensions);
        }
        let board_len = s.board.len();
        let size_ok = match s.width.checked_mul(s.height) {
            Some(n) => n == board_len,
            None => false,
        };
        if !size_ok {
            return Err(SnapshotError::BoardSizeMismatch);
        }
        if s.next_piece_id >= NUM_PIECES || s.active_piece.id >= NUM_PIECES {
            return Err(SnapshotError::BadPiece);
        }
        if s.active_piece.rotation >= crate::piece::num_rotations(s.active_piece.id) {
            return Err(SnapshotError::BadPiece);
        }
        if s.active_piece.x < -4 || s.active_piece.x > s.width as isize || s.active_piece.y < -4
            || s.active_piece.y > s.height as isize {
            return Err(SnapshotError::BadPiece);
        }
        if s.speed_up_counter >= LOCKS_PER_SPEED_UP {
            return Err(SnapshotError::BadCounter);
        }
        let board = Board { width: s.width, height: s.height, cells: copy_cells(&s.board) };
        let blocks = s.active_piece.blocks();
        let piece_collides = board.collides(&blocks);
        if !s.is_game_over && piece_collides {
            return Err(SnapshotError::PieceConflict);
        }
        self.board = board;
        self.active_piece = s.active_piece;
        self.next_piece_id = s.next_piece_id;
        self.is_game_over = s.is_game_over;
        self.paused = false;
        self.gravity_delay_ms = s.gravity_delay_ms;
        self.speed_up_counter = s.speed_up_counter;
        self.score = s.score;
        Ok(())
    }
}

/// Saving then loading reproduces an observably identical session — board
/// contents, dimensions, active piece, lookahead, game-over flag, gravity
/// interval, speed-up counter and score — except that the restored session
/// is never paused. (The gravity time reference lives outside the recorded
/// state and restarts with the restored session.)
pub proof fn lemma_snapshot_round_trip(g: Game)
    requires
        g.wf(),
    ensures
        spec_snapshot_valid(spec_snapshot_of(g@)),
        spec_restore(spec_snapshot_of(g@)) == (GameView { paused: false, ..g@ }),
{
}

} // verus!
