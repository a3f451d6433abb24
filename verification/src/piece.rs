//! The piece catalog: the seven falling-block shapes, each with its
//! precomputed rotation states, and the active piece's geometry.

use vstd::prelude::*;

verus! {

/// An opaque display color; occupancy is the only fact the rules read from it.
#[derive(Debug, Clone, Copy, PartialEq, Eq, Structural)]
pub struct Color(pub u8, pub u8, pub u8);

/// One orientation of a shape: a bounding-box width and a row-major
/// occupancy bitmap (1 = filled, 0 = empty).
pub struct RotationState {
    pub width: usize,
    pub bitmap: Vec<u8>,
}

/// A shape definition: its ordered rotation states and its color.
pub struct Piece {
    pub rotations: Vec<RotationState>,
    pub color: Color,
}

pub const NUM_PIECES: usize = 7;

/// The rotation states of shape `id`, in order: (bounding-box width, bitmap).
/// Rotation counts are shape-dependent: some shapes have 1, 2 or 4 states.
pub open spec fn spec_rotations(id: int) -> Seq<(int, Seq<u8>)> {
    if id == 0 {
        // I-block
        seq![(4int, seq![1u8, 1, 1, 1]), (1int, seq![1u8, 1, 1, 1])]
    } else if id == 1 {
        // O-block
        seq![(2int, seq![1u8, 1, 1, 1])]
    } else if id == 2 {
        // T-block
        seq![
            (3int, seq![0u8, 1, 0, 1, 1, 1]),
            (2int, seq![1u8, 0, 1, 1, 1, 0]),
            (3int, seq![1u8, 1, 1, 0, 1, 0]),
            (2int, seq![0u8, 1, 1, 1, 0, 1]),
        ]
    } else if id == 3 {
        // L-block
        seq![
            (3int, seq![0u8, 0, 1, 1, 1, 1]),
            (2int, seq![1u8, 0, 1, 0, 1, 1]),
            (3int, seq![1u8, 1, 1, 1, 0, 0]),
            (2int, seq![1u8, 1, 0, 1, 0, 1]),
        ]
    } else if id == 4 {
        // J-block
        seq![
            (3int, seq![1u8, 0, 0, 1, 1, 1]),
            (2int, seq![1u8, 1, 1, 0, 1, 0]),
            (3int, seq![1u8, 1, 1, 0, 0, 1]),
            (2int, seq![0u8, 1, 0, 1, 1, 1]),
        ]
    } else if id == 5 {
        // S-block
        seq![(3int, seq![0u8, 1, 1, 1, 1, 0]), (2int, seq![1u8, 0, 1, 1, 0, 1])]
    } else if id == 6 {
        // Z-block
        seq![(3int, seq![1u8, 1, 0, 0, 1, 1]), (2int, seq![0u8, 1, 1, 1, 1, 0])]
    } else {
        seq![]
    }
}

pub open spec fn spec_color(id: int) -> Color {
    if id == 0 {
        Color(3, 252, 248)
    } else if id == 1 {
        Color(252, 244, 3)
    } else if id == 2 {
        Color(161, 3, 252)
    } else if id == 3 {
        Color(252, 161, 3)
    } else if id == 4 {
        Color(3, 48, 252)
    } else if id == 5 {
        Color(3, 252, 28)
    } else {
        Color(252, 3, 3)
    }
}

/// Every catalog shape has 1 to 4 rotation states; every state has a
/// bounding-box width between 1 and 4, a bitmap of at most 6 cells and at
/// least 3, and at least one filled cell among its first three entries.
pub proof fn lemma_catalog_bounds(id: int, r: int)
    requires
        0 <= id < NUM_PIECES,
        0 <= r < spec_rotations(id).len(),
    ensures
        1 <= spec_rotations(id).len() <= 4,
        1 <= spec_rotations(id)[r].0 <= 4,
        3 <= spec_rotations(id)[r].1.len() <= 6,
        spec_rotations(id)[r].1.len() <= 4 * spec_rotations(id)[r].0,
        spec_rotations(id)[r].1[0] == 1 || spec_rotations(id)[r].1[1] == 1 || spec_rotations(
            id,
        )[r].1[2] == 1,
{
}

fn bits4(a: u8, b: u8, c: u8, d: u8) -> (v: Vec<u8>)
    ensures
        v@ == seq![a, b, c, d],
{
    let mut v: Vec<u8> = Vec::new();
    v.push(a);
    v.push(b);
    v.push(c);
    v.push(d);
    proof {
        assert(v@ =~= seq![a, b, c, d]);
    }
    v
}

fn bits6(a: u8, b: u8, c: u8, d: u8, e: u8, f: u8) -> (v: Vec<u8>)
    ensures
        v@ == seq![a, b, c, d, e, f],
{
    let mut v: Vec<u8> = Vec::new();
    v.push(a);
    v.push(b);
    v.push(c);
    v.push(d);
    v.push(e);
    v.push(f);
    proof {
        assert(v@ =~= seq![a, b, c, d, e, f]);
    }
    v
}

/// How many rotation states shape `id` has.
pub fn num_rotations(id: usize) -> (n: usize)
    requires
        id < NUM_PIECES,
    ensures
        n == spec_rotations(id as int).len(),
{
    match id {
        0 => 2,
        1 => 1,
        2 => 4,
        3 => 4,
        4 => 4,
        5 => 2,
        _ => 2,
    }
}

/// Rotation state `r` of shape `id`, as catalogued.
pub fn rotation_state(id: usize, r: usize) -> (rs: RotationState)
    requires
        id < NUM_PIECES,
        r < spec_rotations(id as int).len(),
    ensures
        rs.width as int == spec_rotations(id as int)[r as int].0,
        rs.bitmap@ == spec_rotations(id as int)[r as int].1,
{
    if id == 0 {
        if r == 0 {
            RotationState { width: 4, bitmap: bits4(1, 1, 1, 1) }
        } else {
            RotationState { width: 1, bitmap: bits4(1, 1, 1, 1) }
        }
    } else if id == 1 {
        RotationState { width: 2, bitmap: bits4(1, 1, 1, 1) }
    } else if id == 2 {
        if r == 0 {
            RotationState { width: 3, bitmap: bits6(0, 1, 0, 1, 1, 1) }
        } else if r == 1 {
            RotationState { width: 2, bitmap: bits6(1, 0, 1, 1, 1, 0) }
        } else if r == 2 {
            RotationState { width: 3, bitmap: bits6(1, 1, 1, 0, 1, 0) }
        } else {
            RotationState { width: 2, bitmap: bits6(0, 1, 1, 1, 0, 1) }
        }
    } else if id == 3 {
        if r == 0 {
            RotationState { width: 3, bitmap: bits6(0, 0, 1, 1, 1, 1) }
        } else if r == 1 {
            RotationState { width: 2, bitmap: bits6(1, 0, 1, 0, 1, 1) }
        } else if r == 2 {
            RotationState { width: 3, bitmap: bits6(1, 1, 1, 1, 0, 0) }
        } else {
            RotationState { width: 2, bitmap: bits6(1, 1, 0, 1, 0, 1) }
        }
    } else if id == 4 {
        if r == 0 {
            RotationState { width: 3, bitmap: bits6(1, 0, 0, 1, 1, 1) }
        } else if r == 1 {
            RotationState { width: 2, bitmap: bits6(1, 1, 1, 0, 1, 0) }
        } else if r == 2 {
            RotationState { width: 3, bitmap: bits6(1, 1, 1, 0, 0, 1) }
        } else {
            RotationState { width: 2, bitmap: bits6(0, 1, 0, 1, 1, 1) }
        }
    } else if id == 5 {
        if r == 0 {
            RotationState { width: 3, bitmap: bits6(0, 1, 1, 1, 1, 0) }
        } else {
            RotationState { width: 2, bitmap: bits6(1, 0, 1, 1, 0, 1) }
        }
    } else {
        if r == 0 {
            RotationState { width: 3, bitmap: bits6(1, 1, 0, 0, 1, 1) }
        } else {
            RotationState { width: 2, bitmap: bits6(0, 1, 1, 1, 1, 0) }
        }
    }
}

/// The currently falling shape instance: a catalog index, a rotation-state
/// index, and a top-left anchor in board coordinates.
#[derive(Debug, Clone, Copy, PartialEq, Eq, Structural)]
pub struct ActivePiece {
    pub id: usize,
    pub rotation: usize,
    pub x: isize,
    pub y: isize,
}

impl ActivePiece {
    /// A valid piece names a catalog shape and one of its rotation states.
    pub open spec fn valid(self) -> bool {
        self.id < NUM_PIECES && self.rotation < spec_rotations(self.id as int).len()
    }

    /// The anchor is far enough from the isize limits that every derived
    /// cell coordinate (anchor plus an offset of at most 3) fits.
    pub open spec fn anchor_in_range(self) -> bool {
        self.x + 4 <= isize::MAX && self.y + 4 <= isize::MAX
    }

    /// The horizontal spawn anchor: centered by truncating division, so odd
    /// width differences bias left.
    pub open spec fn spec_spawn_x(board_width: int, piece_width: int) -> int {
        if board_width >= piece_width {
            (board_width - piece_width) / 2
        } else {
            -((piece_width - board_width) / 2)
        }
    }

    /// The piece spawned for shape `id`: rotation 0, anchored at row 0,
    /// horizontally centered for the shape's rotation-0 width.
    pub open spec fn spec_spawn(id: int, board_width: int) -> ActivePiece {
        ActivePiece {
            id: id as usize,
            rotation: 0,
            x: ActivePiece::spec_spawn_x(board_width, spec_rotations(id)[0].0) as isize,
            y: 0,
        }
    }

    /// Spawn a piece of shape `id` at the top of a board `board_width` wide.
    pub fn new(id: usize, board_width: usize) -> (p: ActivePiece)
        requires
            id < NUM_PIECES,
            board_width <= isize::MAX,
        ensures
            p == ActivePiece::spec_spawn(id as int, board_width as int),
            p.valid(),
            p.y == 0,
            -2 <= p.x < board_width,
    {
        let rs = rotation_state(id, 0);
        let width = rs.width;
        proof {
            lemma_catalog_bounds(id as int, 0);
        }
        let x: isize = (board_width as isize - width as isize) / 2;
        ActivePiece { id, rotation: 0, x, y: 0 }
    }

    /// The shape definition this piece refers to, reconstructed from the
    /// catalog: all rotation states in order, plus the display color.
    pub fn definition(&self) -> (p: Piece)
        requires
            self.id < NUM_PIECES,
        ensures
            p.color == spec_color(self.id as int),
            p.rotations@.len() == spec_rotations(self.id as int).len(),
            forall|i: int|
                0 <= i < p.rotations@.len() ==> (p.rotations@[i].width as int,
                p.rotations@[i].bitmap@) == spec_rotations(self.id as int)[i],
    {
        let n = num_rotations(self.id);
        let mut rotations: Vec<RotationState> = Vec::new();
        let mut r: usize = 0;
        while r < n
            invariant
                self.id < NUM_PIECES,
                n == spec_rotations(self.id as int).len(),
                r <= n,
                rotations@.len() == r as int,
                forall|i: int|
                    0 <= i < r as int ==> (rotations@[i].width as int, rotations@[i].bitmap@)
                        == spec_rotations(self.id as int)[i],
            decreases n - r,
        {
            rotations.push(rotation_state(self.id, r));
            r += 1;
        }
        Piece { rotations, color: piece_color(self.id) }
    }

    /// The bounding-box width of the current rotation state.
    pub fn width(&self) -> (w: usize)
        requires
            self.valid(),
        ensures
            w as int == spec_rotations(self.id as int)[self.rotation as int].0,
            1 <= w <= 4,
    {
        proof {
            lemma_catalog_bounds(self.id as int, self.rotation as int);
        }
        rotation_state(self.id, self.rotation).width
    }

    /// The occupancy bitmap of the current rotation state.
    pub fn bitmap(&self) -> (b: Vec<u8>)
        requires
            self.valid(),
        ensures
            b@ == spec_rotations(self.id as int)[self.rotation as int].1,
    {
        rotation_state(self.id, self.rotation).bitmap
    }

    /// The board cells this piece occupies: one per filled bitmap entry, in
    /// bitmap scan order, derived from the anchor and the current rotation.
    pub fn blocks(&self) -> (cells: Vec<(isize, isize)>)
        requires
            self.valid(),
            self.anchor_in_range(),
        ensures
            cells@.map_values(|c: (isize, isize)| (c.0 as int, c.1 as int)) == spec_blocks(*self),
    {
        let rs = rotation_state(self.id, self.rotation);
        let w = rs.width;
        proof {
            lemma_catalog_bounds(self.id as int, self.rotation as int);
        }
        let ghost whole = spec_blocks(*self);
        let mut cells: Vec<(isize, isize)> = Vec::new();
        let mut i: usize = 0;
        while i < rs.bitmap.len()
            invariant
                self.valid(),
                self.anchor_in_range(),
                1 <= w <= 4,
                w as int == spec_rotations(self.id as int)[self.rotation as int].0,
                rs.bitmap@ == spec_rotations(self.id as int)[self.rotation as int].1,
                rs.bitmap@.len() <= 6,
                rs.bitmap@.len() <= 4 * (w as int),
                i <= rs.bitmap@.len(),
                whole == spec_blocks(*self),
                whole == cells@.map_values(|c: (isize, isize)| (c.0 as int, c.1 as int))
                    + spec_cells_from(rs.bitmap@, w as int, self.x as int, self.y as int, i as int),
            decreases rs.bitmap@.len() - i,
        {
            let ghost done = cells@.map_values(|c: (isize, isize)| (c.0 as int, c.1 as int));
            let ghost rest = spec_cells_from(
                rs.bitmap@,
                w as int,
                self.x as int,
                self.y as int,
                i as int + 1,
            );
            if rs.bitmap[i] == 1 {
                proof {
                    assert((i as int) < (w as int) * 4);
                    vstd::arithmetic::div_mod::lemma_multiply_divide_lt(i as int, w as int, 4);
                    assert((i as int) / (w as int) <= 3);
                }
                let cx: isize = self.x + (i % w) as isize;
                let cy: isize = self.y + (i / w) as isize;
                cells.push((cx, cy));
                proof {
                    assert(cells@.map_values(|c: (isize, isize)| (c.0 as int, c.1 as int)) =~= done
                        + seq![(cx as int, cy as int)]);
                    assert(done + (seq![(cx as int, cy as int)] + rest) =~= (done + seq![
                        (cx as int, cy as int),
                    ]) + rest);
                }
            }
            i += 1;
        }
        proof {
            assert(spec_cells_from(
                rs.bitmap@,
                w as int,
                self.x as int,
                self.y as int,
                rs.bitmap@.len() as int,
            ) =~= Seq::<(int, int)>::empty());
            assert(cells@.map_values(|c: (isize, isize)| (c.0 as int, c.1 as int)) + Seq::<
                (int, int),
            >::empty() =~= cells@.map_values(|c: (isize, isize)| (c.0 as int, c.1 as int)));
        }
        cells
    }
}

/// The cells contributed by bitmap entries at index `i` and beyond: each
/// filled entry adds the anchor plus its (column, row) offset inside the
/// shape's bounding box.
pub open spec fn spec_cells_from(bitmap: Seq<u8>, w: int, x: int, y: int, i: int) -> Seq<(int, int)>
    decreases bitmap.len() - i,
{
    if i < 0 || i >= bitmap.len() {
        Seq::empty()
    } else {
        let rest = spec_cells_from(bitmap, w, x, y, i + 1);
        if bitmap[i] == 1 {
            seq![(x + i % w, y + i / w)] + rest
        } else {
            rest
        }
    }
}

/// The cells a piece occupies, per its catalog bitmap and anchor.
pub open spec fn spec_blocks(p: ActivePiece) -> Seq<(int, int)> {
    let rot = spec_rotations(p.id as int)[p.rotation as int];
    spec_cells_from(rot.1, rot.0, p.x as int, p.y as int, 0)
}

/// The display color of shape `id`.
pub fn piece_color(id: usize) -> (c: Color)
    requires
        id < NUM_PIECES,
    ensures
        c == spec_color(id as int),
{
    if id == 0 {
        Color(3, 252, 248)
    } else if id == 1 {
        Color(252, 244, 3)
    } else if id == 2 {
        Color(161, 3, 252)
    } else if id == 3 {
        Color(252, 161, 3)
    } else if id == 4 {
        Color(3, 48, 252)
    } else if id == 5 {
        Color(3, 252, 28)
    } else {
        Color(252, 3, 3)
    }
}

} // verus!
