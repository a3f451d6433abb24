//! The board: a fixed-size row-major cell grid with collision testing,
//! piece locking, and full-row clearing with downward compaction.

use vstd::prelude::*;
use crate::piece::Color;

verus! {

/// A `width x height` grid of cells, row-major with the top row at index 0.
/// A cell is `None` when empty, `Some(color)` when occupied.
pub struct Board {
    pub width: usize,
    pub height: usize,
    pub cells: Vec<Option<Color>>,
}

/// Whether one candidate cell collides: outside the horizontal bounds, at or
/// below the floor, or overlapping an occupied cell. Cells above the board
/// (negative row) are exempt from the occupancy test but not from the
/// horizontal bounds.
pub open spec fn spec_cell_collides(cells: Seq<Option<Color>>, w: int, h: int, c: (int, int)) -> bool {
    c.0 < 0 || c.0 >= w || c.1 >= h || (c.1 >= 0 && cells[c.1 * w + c.0] is Some)
}

/// Whether any candidate cell collides.
pub open spec fn spec_collides(
    cells: Seq<Option<Color>>,
    w: int,
    h: int,
    blocks: Seq<(int, int)>,
) -> bool {
    exists|i: int| 0 <= i < blocks.len() && spec_cell_collides(cells, w, h, blocks[i])
}

/// The grid after writing `color` into every given cell with a nonnegative
/// row; cells above the board are dropped.
pub open spec fn spec_lock(
    cells: Seq<Option<Color>>,
    w: int,
    blocks: Seq<(int, int)>,
    color: Color,
) -> Seq<Option<Color>>
    decreases blocks.len(),
{
    if blocks.len() == 0 {
        cells
    } else {
        let done = spec_lock(cells, w, blocks.drop_last(), color);
        let c = blocks.last();
        if c.1 >= 0 {
            done.update(c.1 * w + c.0, Some(color))
        } else {
            done
        }
    }
}

/// Row `y` of a row-major grid that is `w` cells wide.
pub open spec fn spec_row(cells: Seq<Option<Color>>, w: int, y: int) -> Seq<Option<Color>> {
    cells.subrange(y * w, (y + 1) * w)
}

/// A row is full when every one of its cells is occupied.
pub open spec fn spec_row_full(cells: Seq<Option<Color>>, w: int, y: int) -> bool {
    forall|x: int| 0 <= x < w ==> #[trigger] spec_row(cells, w, y)[x] is Some
}

/// How many of the rows above row `y` (indices `0 .. y`) are full.
pub open spec fn spec_full_count(cells: Seq<Option<Color>>, w: int, y: int) -> int
    decreases y,
{
    if y <= 0 {
        0
    } else {
        spec_full_count(cells, w, y - 1) + if spec_row_full(cells, w, y - 1) {
            1int
        } else {
            0int
        }
    }
}

/// The rows among `0 .. y` that are not full, concatenated in their original
/// order: what survives a clearing pass over those rows.
pub open spec fn spec_kept_rows(cells: Seq<Option<Color>>, w: int, y: int) -> Seq<Option<Color>>
    decreases y,
{
    if y <= 0 {
        Seq::empty()
    } else {
        spec_kept_rows(cells, w, y - 1) + if spec_row_full(cells, w, y - 1) {
            Seq::empty()
        } else {
            spec_row(cells, w, y - 1)
        }
    }
}

/// `n` empty cells.
pub open spec fn spec_empty_cells(n: int) -> Seq<Option<Color>> {
    Seq::new(n as nat, |i: int| None)
}

/// The grid after a clearing pass: the surviving rows compacted to the
/// bottom, with freshly emptied rows above them.
pub open spec fn spec_cleared(cells: Seq<Option<Color>>, w: int, h: int) -> Seq<Option<Color>> {
    spec_empty_cells(spec_full_count(cells, w, h) * w) + spec_kept_rows(cells, w, h)
}

impl Board {
    /// The grid always holds exactly `width * height` cells; dimensions are
    /// positive and far enough from the isize limits that any candidate cell
    /// coordinate near the board fits an isize.
    pub open spec fn wf(self) -> bool {
        1 <= self.width && 1 <= self.height && self.width + 8 <= isize::MAX && self.height + 8
            <= isize::MAX && self.cells@.len() == self.width * self.height
    }

    /// A fully empty board of the given dimensions.
    pub fn new(width: usize, height: usize) -> (b: Board)
        requires
            1 <= width,
            1 <= height,
            width + 8 <= isize::MAX,
            height + 8 <= isize::MAX,
            width * height <= usize::MAX,
        ensures
            b.wf(),
            b.width == width,
            b.height == height,
            b.cells@ == spec_empty_cells(width * height),
    {
        let n = width * height;
        let mut cells: Vec<Option<Color>> = Vec::new();
        let mut i: usize = 0;
        while i < n
            invariant
                i <= n,
                cells@.len() == i as int,
                forall|j: int| 0 <= j < i as int ==> cells@[j] is None,
            decreases n - i,
        {
            cells.push(None);
            i += 1;
        }
        proof {
            assert(cells@ =~= spec_empty_cells(width as int * height as int));
        }
        Board { width, height, cells }
    }

    /// True when any of the candidate cells lies outside the horizontal
    /// bounds, at or below the floor, or overlaps an occupied cell.
    pub fn collides(&self, blocks: &Vec<(isize, isize)>) -> (r: bool)
        requires
            self.wf(),
        ensures
            r == spec_collides(
                self.cells@,
                self.width as int,
                self.height as int,
                blocks@.map_values(|c: (isize, isize)| (c.0 as int, c.1 as int)),
            ),
    {
        let ghost bs = blocks@.map_values(|c: (isize, isize)| (c.0 as int, c.1 as int));
        let w = self.width;
        let h = self.height;
        let mut i: usize = 0;
        while i < blocks.len()
            invariant
                self.wf(),
                w == self.width,
                h == self.height,
                i <= blocks@.len(),
                bs == blocks@.map_values(|c: (isize, isize)| (c.0 as int, c.1 as int)),
                forall|j: int|
                    0 <= j < i as int ==> !spec_cell_collides(
                        self.cells@,
                        w as int,
                        h as int,
                        bs[j],
                    ),
            decreases blocks@.len() - i,
        {
            let (x, y) = blocks[i];
            if x < 0 || x >= w as isize || y >= h as isize {
                proof {
                    assert(spec_cell_collides(self.cells@, w as int, h as int, bs[i as int]));
                }
                return true;
            }
            if y >= 0 {
                proof {
                    assert((y as int) * (w as int) + (x as int) < (h as int) * (w as int)) by (
                    nonlinear_arith)
                        requires
                            0 <= y as int,
                            (y as int) < h as int,
                            0 <= x as int,
                            (x as int) < w as int,
                            1 <= w as int,
                    ;
                    assert((h as int) * (w as int) == (w as int) * (h as int)) by (nonlinear_arith);
                }
                let n = self.cells.len();
                let idx: usize = (y as usize) * w + (x as usize);
                if self.cells[idx].is_some() {
                    proof {
                        assert(spec_cell_collides(self.cells@, w as int, h as int, bs[i as int]));
                    }
                    return true;
                }
            }
            proof {
                assert(!spec_cell_collides(self.cells@, w as int, h as int, bs[i as int]));
            }
            i += 1;
        }
        false
    }

    /// Write `color` into every given cell with a nonnegative row; cells
    /// above the board are silently dropped.
    pub fn lock(&mut self, blocks: &Vec<(isize, isize)>, color: Color)
        requires
            old(self).wf(),
            forall|j: int|
                0 <= j < blocks@.len() && blocks@[j].1 >= 0 ==> 0 <= blocks@[j].0 < old(
                    self,
                ).width as int && blocks@[j].1 < old(self).height as int,
        ensures
            final(self).wf(),
            final(self).width == old(self).width,
            final(self).height == old(self).height,
            final(self).cells@ == spec_lock(
                old(self).cells@,
                old(self).width as int,
                blocks@.map_values(|c: (isize, isize)| (c.0 as int, c.1 as int)),
                color,
            ),
    {
        let ghost bs = blocks@.map_values(|c: (isize, isize)| (c.0 as int, c.1 as int));
        let ghost orig = self.cells@;
        let w = self.width;
        let h = self.height;
        let mut i: usize = 0;
        while i < blocks.len()
            invariant
                w == self.width,
                h == self.height,
                self.wf(),
                i <= blocks@.len(),
                bs == blocks@.map_values(|c: (isize, isize)| (c.0 as int, c.1 as int)),
                forall|j: int|
                    0 <= j < blocks@.len() && blocks@[j].1 >= 0 ==> 0 <= blocks@[j].0 < w as int
                        && blocks@[j].1 < h as int,
                self.cells@ == spec_lock(orig, w as int, bs.take(i as int), color),
            decreases blocks@.len() - i,
        {
            let ghost prev = self.cells@;
            let (x, y) = blocks[i];
            if y >= 0 {
                proof {
                    assert((y as int) * (w as int) + (x as int) < (h as int) * (w as int)) by (
                    nonlinear_arith)
                        requires
                            0 <= y as int,
                            (y as int) < h as int,
                            0 <= x as int,
                            (x as int) < w as int,
                            1 <= w as int,
                    ;
                    assert((h as int) * (w as int) == (w as int) * (h as int)) by (nonlinear_arith);
                }
                let n = self.cells.len();
                let idx: usize = (y as usize) * w + (x as usize);
                self.cells.set(idx, Some(color));
            }
            proof {
                assert(bs.take(i as int + 1).drop_last() =~= bs.take(i as int));
                assert(bs.take(i as int + 1).last() == bs[i as int]);
                assert(self.cells@ == spec_lock(orig, w as int, bs.take(i as int + 1), color));
            }
            i += 1;
        }
        proof {
            assert(bs.take(blocks@.len() as int) =~= bs);
        }
    }

    /// Remove every full row, compact the remaining rows downward in their
    /// original order, refill the vacated top rows with empty cells, and
    /// return how many rows were cleared. Atomic over the whole grid.
    pub fn clear_full_rows(&mut self) -> (cleared: usize)
        requires
            old(self).wf(),
        ensures
            final(self).wf(),
            final(self).width == old(self).width,
            final(self).height == old(self).height,
            cleared as int == spec_full_count(
                old(self).cells@,
                old(self).width as int,
                old(self).height as int,
            ),
            cleared <= old(self).height,
            final(self).cells@ == spec_cleared(
                old(self).cells@,
                old(self).width as int,
                old(self).height as int,
            ),
    {
        let w = self.width;
        let h = self.height;
        let ghost orig = self.cells@;
        let n = self.cells.len();
        let mut kept: Vec<Option<Color>> = Vec::new();
        let mut cleared: usize = 0;
        let mut y: usize = 0;
        while y < h
            invariant
                self.wf(),
                w == self.width,
                h == self.height,
                self.cells@ == orig,
                n == orig.len(),
                y <= h,
                cleared <= y,
                cleared as int == spec_full_count(orig, w as int, y as int),
                kept@ == spec_kept_rows(orig, w as int, y as int),
                kept@.len() == (y as int - cleared as int) * (w as int),
            decreases h - y,
        {
            proof {
                assert((y as int + 1) * (w as int) <= (h as int) * (w as int)) by (nonlinear_arith)
                    requires
                        (y as int) < (h as int),
                        1 <= w as int,
                ;
                assert((h as int) * (w as int) == (w as int) * (h as int)) by (nonlinear_arith);
                assert((y as int + 1) * (w as int) == (y as int) * (w as int) + (w as int)) by (
                nonlinear_arith);
            }
            let row_start = y * w;
            let mut full = true;
            let mut x: usize = 0;
            while x < w
                invariant
                    self.cells@ == orig,
                    n == orig.len(),
                    row_start == (y as int) * (w as int),
                    (y as int + 1) * (w as int) == row_start as int + (w as int),
                    row_start + w <= n,
                    x <= w,
                    full == (forall|j: int|
                        0 <= j < x as int ==> #[trigger] spec_row(orig, w as int, y as int)[j]
                            is Some),
                decreases w - x,
            {
                proof {
                    assert(spec_row(orig, w as int, y as int)[x as int] == orig[row_start as int
                        + x as int]);
                }
                if self.cells[row_start + x].is_none() {
                    full = false;
                }
                x += 1;
            }
            proof {
                assert(full == spec_row_full(orig, w as int, y as int));
            }
            if full {
                cleared += 1;
            } else {
                let ghost kept_before = kept@;
                let mut x: usize = 0;
                while x < w
                    invariant
                        self.cells@ == orig,
                        n == orig.len(),
                        row_start == (y as int) * (w as int),
                        (y as int + 1) * (w as int) == row_start as int + (w as int),
                        row_start + w <= n,
                        x <= w,
                        kept@ == kept_before + orig.subrange(
                            row_start as int,
                            row_start as int + x as int,
                        ),
                    decreases w - x,
                {
                    kept.push(self.cells[row_start + x]);
                    proof {
                        assert(kept@ =~= kept_before + orig.subrange(
                            row_start as int,
                            row_start as int + x as int + 1,
                        ));
                    }
                    x += 1;
                }
                proof {
                    assert(kept@ == kept_before + spec_row(orig, w as int, y as int));
                    assert((y as int + 1 - cleared as int) * (w as int) == (y as int
                        - cleared as int) * (w as int) + (w as int)) by (nonlinear_arith);
                }
            }
            y += 1;
        }
        proof {
            assert((cleared as int) * (w as int) <= (h as int) * (w as int)) by (nonlinear_arith)
                requires
                    cleared as int <= h as int,
                    0 <= w as int,
            ;
            assert((h as int) * (w as int) == (w as int) * (h as int)) by (nonlinear_arith);
        }
        let total_empty = cleared * w;
        let mut new_cells: Vec<Option<Color>> = Vec::new();
        let mut i: usize = 0;
        while i < total_empty
            invariant
                i <= total_empty,
                new_cells@.len() == i as int,
                forall|j: int| 0 <= j < i as int ==> new_cells@[j] is None,
            decreases total_empty - i,
        {
            new_cells.push(None);
            i += 1;
        }
        proof {
            assert(new_cells@ =~= spec_empty_cells((cleared as int) * (w as int)));
        }
        new_cells.append(&mut kept);
        self.cells = new_cells;
        proof {
            assert(self.cells@ == spec_cleared(orig, w as int, h as int));
            assert((cleared as int) * (w as int) + (h as int - cleared as int) * (w as int) == (
            h as int) * (w as int)) by (nonlinear_arith);
            assert(self.cells@.len() == (self.width as int) * (self.height as int)) by {
                assert((h as int) * (w as int) == (w as int) * (h as int)) by (nonlinear_arith);
            }
        }
        cleared
    }
}


/// With no full row among `0 .. y`, the clearing pass keeps every one of
/// those rows: nothing is counted and the surviving cells are exactly the
/// first `y` rows.
proof fn lemma_kept_rows_prefix(cells: Seq<Option<Color>>, w: int, y: int)
    requires
        1 <= w,
        0 <= y,
        y * w <= cells.len(),
        forall|r: int| 0 <= r < y ==> !spec_row_full(cells, w, r),
    ensures
        spec_full_count(cells, w, y) == 0,
        spec_kept_rows(cells, w, y) == cells.take(y * w),
    decreases y,
{
    if y <= 0 {
        assert(spec_kept_rows(cells, w, y).len() == 0);
        assert(y * w == 0) by (nonlinear_arith)
            requires
                y == 0,
        ;
        assert(cells.take(y * w).len() == 0);
        assert(spec_kept_rows(cells, w, y) =~= cells.take(y * w));
    } else {
        assert((y - 1) * w == y * w - w) by (nonlinear_arith);
        lemma_kept_rows_prefix(cells, w, y - 1);
        assert(!spec_row_full(cells, w, y - 1));
        assert(spec_kept_rows(cells, w, y) == spec_kept_rows(cells, w, y - 1) + spec_row(
            cells,
            w,
            y - 1,
        ));
        assert(cells.take((y - 1) * w) + cells.subrange((y - 1) * w, y * w) =~= cells.take(y * w));
    }
}

/// When no row of the grid is full, a clearing pass is the identity: it
/// clears zero rows and leaves every cell unchanged.
pub proof fn lemma_clear_identity_without_full_rows(cells: Seq<Option<Color>>, w: int, h: int)
    requires
        1 <= w,
        0 <= h,
        cells.len() == w * h,
        forall|y: int| 0 <= y < h ==> !spec_row_full(cells, w, y),
    ensures
        spec_full_count(cells, w, h) == 0,
        spec_cleared(cells, w, h) == cells,
{
    assert(h * w == w * h) by (nonlinear_arith);
    lemma_kept_rows_prefix(cells, w, h);
    assert(spec_cleared(cells, w, h) =~= cells);
}


proof fn lemma_full_count_bounds(cells: Seq<Option<Color>>, w: int, y1: int, y2: int)
    requires
        0 <= y1 <= y2,
    ensures
        0 <= spec_full_count(cells, w, y2) - spec_full_count(cells, w, y1) <= y2 - y1,
    decreases y2,
{
    if y1 < y2 {
        lemma_full_count_bounds(cells, w, y1, y2 - 1);
    }
}

proof fn lemma_kept_rows_len(cells: Seq<Option<Color>>, w: int, y: int)
    requires
        1 <= w,
        0 <= y,
        y * w <= cells.len(),
    ensures
        spec_kept_rows(cells, w, y).len() == (y - spec_full_count(cells, w, y)) * w,
    decreases y,
{
    if y > 0 {
        assert(0 <= (y - 1) * w && (y - 1) * w + w == y * w) by (nonlinear_arith)
            requires
                1 <= y,
                1 <= w,
        ;
        lemma_kept_rows_len(cells, w, y - 1);
        let fc = spec_full_count(cells, w, y - 1);
        if spec_row_full(cells, w, y - 1) {
            assert(spec_kept_rows(cells, w, y) == spec_kept_rows(cells, w, y - 1));
            assert(spec_full_count(cells, w, y) == fc + 1);
            assert((y - (fc + 1)) * w == (y - 1 - fc) * w) by (nonlinear_arith);
        } else {
            assert(spec_kept_rows(cells, w, y) == spec_kept_rows(cells, w, y - 1) + spec_row(
                cells,
                w,
                y - 1,
            ));
            assert(spec_full_count(cells, w, y) == fc);
            assert(((y - 1) + 1) * w == (y - 1) * w + w) by (nonlinear_arith);
            assert(spec_row(cells, w, y - 1).len() == w);
            assert((y - fc) * w == (y - 1 - fc) * w + w) by (nonlinear_arith);
        }
    } else {
        assert((y - spec_full_count(cells, w, y)) * w == 0) by (nonlinear_arith)
            requires
                y == 0,
                spec_full_count(cells, w, y) == 0,
        ;
    }
}

proof fn lemma_kept_row_extract(cells: Seq<Option<Color>>, w: int, y: int, yy: int)
    requires
        1 <= w,
        0 <= y < yy,
        yy * w <= cells.len(),
        !spec_row_full(cells, w, y),
    ensures
        ({
            let k = y - spec_full_count(cells, w, y);
            0 <= k && (k + 1) * w <= spec_kept_rows(cells, w, yy).len() && spec_kept_rows(
                cells,
                w,
                yy,
            ).subrange(k * w, (k + 1) * w) == spec_row(cells, w, y)
        }),
    decreases yy,
{
    let k = y - spec_full_count(cells, w, y);
    lemma_full_count_bounds(cells, w, 0, y);
    assert(0 <= y * w && y * w + w <= yy * w && (yy - 1) * w + w == yy * w) by (nonlinear_arith)
        requires
            0 <= y < yy,
            1 <= w,
    ;
    lemma_kept_rows_len(cells, w, y);
    lemma_kept_rows_len(cells, w, yy);
    assert(k * w >= 0) by (nonlinear_arith)
        requires
            k >= 0,
            w >= 1,
    ;
    if yy == y + 1 {
        assert(spec_kept_rows(cells, w, yy) == spec_kept_rows(cells, w, y) + spec_row(
            cells,
            w,
            y,
        ));
        assert((k + 1) * w == k * w + w) by (nonlinear_arith);
        assert(spec_kept_rows(cells, w, yy).subrange(k * w, (k + 1) * w) =~= spec_row(
            cells,
            w,
            y,
        ));
    } else {
        lemma_kept_row_extract(cells, w, y, yy - 1);
        lemma_kept_rows_len(cells, w, yy - 1);
        assert(spec_row(cells, w, yy - 1).len() == w);
        lemma_full_count_bounds(cells, w, y + 1, yy - 1);
        assert(spec_full_count(cells, w, y + 1) == spec_full_count(cells, w, y));
        assert(k + 1 <= yy - 1 - spec_full_count(cells, w, yy - 1));
        assert((k + 1) * w <= (yy - 1 - spec_full_count(cells, w, yy - 1)) * w) by (
        nonlinear_arith)
            requires
                k + 1 <= yy - 1 - spec_full_count(cells, w, yy - 1),
                0 <= w,
        ;
        if spec_row_full(cells, w, yy - 1) {
            assert(spec_kept_rows(cells, w, yy) == spec_kept_rows(cells, w, yy - 1));
        } else {
            assert(spec_kept_rows(cells, w, yy) == spec_kept_rows(cells, w, yy - 1) + spec_row(
                cells,
                w,
                yy - 1,
            ));
        }
        assert((k + 1) * w == k * w + w) by (nonlinear_arith);
        assert(spec_kept_rows(cells, w, yy).subrange(k * w, (k + 1) * w) =~= spec_kept_rows(
            cells,
            w,
            yy - 1,
        ).subrange(k * w, (k + 1) * w));
    }
}

/// Compaction preserves the order of the surviving rows: two rows that are
/// not full land in the cleared grid at strictly increasing row indices,
/// each with its cells unchanged — no reordering other than the downward
/// shift by the number of full rows below their position in the scan.
pub proof fn lemma_clear_preserves_row_order(
    cells: Seq<Option<Color>>,
    w: int,
    h: int,
    y1: int,
    y2: int,
)
    requires
        1 <= w,
        1 <= h,
        cells.len() == w * h,
        0 <= y1 < y2 < h,
        !spec_row_full(cells, w, y1),
        !spec_row_full(cells, w, y2),
    ensures
        ({
            let fc = spec_full_count(cells, w, h);
            let d1 = fc + y1 - spec_full_count(cells, w, y1);
            let d2 = fc + y2 - spec_full_count(cells, w, y2);
            0 <= d1 && d1 < d2 && d2 < h && spec_row(spec_cleared(cells, w, h), w, d1) == spec_row(
                cells,
                w,
                y1,
            ) && spec_row(spec_cleared(cells, w, h), w, d2) == spec_row(cells, w, y2)
        }),
{
    let fc = spec_full_count(cells, w, h);
    let fc1 = spec_full_count(cells, w, y1);
    let fc2 = spec_full_count(cells, w, y2);
    assert(h * w == w * h) by (nonlinear_arith);
    let d1 = fc + y1 - fc1;
    let d2 = fc + y2 - fc2;
    assert(spec_full_count(cells, w, y1 + 1) == fc1);
    assert(spec_full_count(cells, w, y2 + 1) == fc2);
    lemma_full_count_bounds(cells, w, 0, y1);
    lemma_full_count_bounds(cells, w, y1 + 1, y2);
    lemma_full_count_bounds(cells, w, y2 + 1, h);
    lemma_full_count_bounds(cells, w, y1, h);
    lemma_full_count_bounds(cells, w, y2, h);
    assert(d1 < d2);
    assert(d2 < h);
    lemma_kept_row_extract(cells, w, y1, h);
    lemma_kept_row_extract(cells, w, y2, h);
    let empties = spec_empty_cells(fc * w);
    let kept = spec_kept_rows(cells, w, h);
    let k1 = y1 - fc1;
    let k2 = y2 - fc2;
    assert(d1 * w == fc * w + k1 * w) by (nonlinear_arith)
        requires
            d1 == fc + k1,
    ;
    assert((d1 + 1) * w == fc * w + (k1 + 1) * w) by (nonlinear_arith)
        requires
            d1 == fc + k1,
    ;
    assert(d2 * w == fc * w + k2 * w) by (nonlinear_arith)
        requires
            d2 == fc + k2,
    ;
    assert((d2 + 1) * w == fc * w + (k2 + 1) * w) by (nonlinear_arith)
        requires
            d2 == fc + k2,
    ;
    assert(fc * w >= 0 && k1 * w >= 0 && k2 * w >= 0 && (k1 + 1) * w == k1 * w + w && (k2 + 1) * w
        == k2 * w + w) by (nonlinear_arith)
        requires
            fc >= 0,
            k1 >= 0,
            k2 >= 0,
            w >= 1,
    ;
    assert(spec_cleared(cells, w, h) == empties + kept);
    assert(empties.len() == fc * w);
    assert(spec_row(spec_cleared(cells, w, h), w, d1) =~= kept.subrange(k1 * w, (k1 + 1) * w));
    assert(spec_row(spec_cleared(cells, w, h), w, d2) =~= kept.subrange(k2 * w, (k2 + 1) * w));
}

} // verus!
