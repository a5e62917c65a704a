//! Hard constraint mask.
//!
//! Hard constraints — motorway prohibition, walls, water — never enter a linear
//! cost sum, where they could be diluted by other low-cost dimensions. They are
//! a boolean: a cell is passable or it is not, and every stage that can produce
//! a position consults this mask directly.
//!
//! The mask is indexed by grid cell in row-major order. Only the cell counts of
//! the grid are held here; its placement in the plane is floating-point data
//! that stays with the geometry.

use vstd::prelude::*;

verus! {

/// Cell counts of a row-major grid.
#[derive(Debug, Clone, Copy, PartialEq, Eq, Structural)]
pub struct GridShape {
    /// Number of columns.
    pub width: usize,
    /// Number of rows.
    pub height: usize,
}

impl GridShape {
    /// Number of cells, as a mathematical integer.
    pub open spec fn cell_count(self) -> int {
        self.width * self.height
    }

    /// Row-major index of a cell.
    pub open spec fn index_spec(self, x: int, y: int) -> int {
        y * self.width + x
    }

    /// Number of cells.
    pub fn len(&self) -> (r: usize)
        requires
            self.cell_count() <= usize::MAX,
        ensures
            r == self.cell_count(),
    {
        self.width * self.height
    }

    /// Row-major index of the cell in column `x`, row `y`.
    pub fn index(&self, x: usize, y: usize) -> (r: usize)
        requires
            x < self.width,
            y < self.height,
            self.cell_count() <= usize::MAX,
        ensures
            r == self.index_spec(x as int, y as int),
            r < self.cell_count(),
    {
        proof {
            vstd::arithmetic::mul::lemma_mul_inequality(y as int + 1, self.height as int, self.width as int);
            vstd::arithmetic::mul::lemma_mul_is_commutative(self.height as int, self.width as int);
            vstd::arithmetic::mul::lemma_mul_is_distributive_add_other_way(self.width as int, y as int, 1);
        }
        y * self.width + x
    }

    /// Column and row of a cell index.
    pub fn coordinates(&self, index: usize) -> (r: (usize, usize))
        requires
            self.width > 0,
        ensures
            r.0 == index % self.width,
            r.1 == index / self.width,
    {
        (index % self.width, index / self.width)
    }
}

/// Chebyshev (king-move) distance between two cells.
pub open spec fn chebyshev(ax: int, ay: int, bx: int, by: int) -> int {
    let dx = if ax >= bx { ax - bx } else { bx - ax };
    let dy = if ay >= by { ay - by } else { by - ay };
    if dx >= dy { dx } else { dy }
}

/// Number of `true` entries of a sequence.
pub open spec fn count_true(s: Seq<bool>) -> nat
    decreases s.len(),
{
    if s.len() == 0 {
        0
    } else {
        count_true(s.drop_last()) + if s.last() { 1nat } else { 0nat }
    }
}

/// A mask cut or padded with passable cells to exactly `len` entries.
pub open spec fn fit_mask(forbidden: Seq<bool>, len: int) -> Seq<bool> {
    if len <= forbidden.len() {
        forbidden.subrange(0, len)
    } else {
        forbidden + Seq::new((len - forbidden.len()) as nat, |i: int| false)
    }
}

/// Boolean passability grid.
#[derive(Debug)]
pub struct HardMask {
    grid: GridShape,
    forbidden: Vec<bool>,
    forbidden_count: usize,
}

impl HardMask {
    #[verifier::type_invariant]
    spec fn well_formed(self) -> bool {
        &&& self.forbidden@.len() == self.grid.cell_count()
        &&& self.forbidden_count == count_true(self.forbidden@)
    }

    /// Grid the mask covers.
    pub closed spec fn shape(&self) -> GridShape {
        self.grid
    }

    /// Forbidden flag of every cell, row-major.
    pub closed spec fn cells(&self) -> Seq<bool> {
        self.forbidden@
    }

    /// Builds a mask from an explicit grid.
    ///
    /// A `forbidden` vector shorter than the grid is padded with passable cells,
    /// and a longer one is cut to the grid: every query indexes the mask by grid
    /// cell.
    pub fn new(grid: GridShape, forbidden: Vec<bool>) -> (r: Self)
        requires
            grid.cell_count() <= usize::MAX,
        ensures
            r.shape() == grid,
            r.cells() == fit_mask(forbidden@, grid.cell_count()),
    {
        let mut forbidden = forbidden;
        let len = grid.len();
        let ghost given = forbidden@;
        forbidden.resize(len, false);
        assert(forbidden@ =~= fit_mask(given, len as int));
        let mut count: usize = 0;
        let mut i: usize = 0;
        while i < forbidden.len()
            invariant
                i <= forbidden@.len(),
                count == count_true(forbidden@.subrange(0, i as int)),
                count <= i,
            decreases forbidden@.len() - i,
        {
            assert(forbidden@.subrange(0, i + 1).drop_last() =~= forbidden@.subrange(0, i as int));
            if forbidden[i] {
                count = count + 1;
            }
            i = i + 1;
        }
        assert(forbidden@.subrange(0, forbidden@.len() as int) =~= forbidden@);
        HardMask { grid, forbidden, forbidden_count: count }
    }

    /// Grid geometry.
    pub fn grid(&self) -> (r: &GridShape)
        ensures
            *r == self.shape(),
    {
        &self.grid
    }

    /// Raw mask samples.
    pub fn mask(&self) -> (r: &[bool])
        ensures
            r@ == self.cells(),
            r@.len() == self.shape().cell_count(),
    {
        proof {
            use_type_invariant(self);
        }
        self.forbidden.as_slice()
    }

    /// Number of forbidden cells.
    pub fn forbidden_count(&self) -> (r: usize)
        ensures
            r == count_true(self.cells()),
    {
        proof {
            use_type_invariant(self);
        }
        self.forbidden_count
    }
}


impl Clone for HardMask {
    /// A mask over the same grid with the same flags.
    fn clone(&self) -> (r: Self)
        ensures
            r.shape() == self.shape(),
            r.cells() == self.cells(),
    {
        proof {
            use_type_invariant(self);
        }
        let forbidden = self.forbidden.clone();
        assert(forbidden@ =~= self.forbidden@);
        HardMask { grid: self.grid, forbidden, forbidden_count: self.forbidden_count }
    }
}

/// The cell at offset `(dx, dy)` from `(cx, cy)` when it lies on the grid, is
/// passable and sits on the Chebyshev ring of radius `r`.
pub open spec fn ring_candidate(shape: GridShape, cells: Seq<bool>, cx: int, cy: int, r: int, dx: int, dy: int) -> Option<(usize, usize)> {
    let x = cx + dx;
    let y = cy + dy;
    if (dx == r || dx == -r || dy == r || dy == -r)
        && 0 <= x < shape.width && 0 <= y < shape.height
        && !cells[shape.index_spec(x, y)] {
        Some((x as usize, y as usize))
    } else {
        None
    }
}

/// Ring cells of row `dy` with column offsets from `-r` up to, not including, `end`.
pub open spec fn ring_row_upto(shape: GridShape, cells: Seq<bool>, cx: int, cy: int, r: int, dy: int, end: int) -> Seq<(usize, usize)>
    decreases end + r,
{
    if end <= -r {
        Seq::empty()
    } else {
        let prev = ring_row_upto(shape, cells, cx, cy, r, dy, end - 1);
        match ring_candidate(shape, cells, cx, cy, r, end - 1, dy) {
            Some(cell) => prev.push(cell),
            None => prev,
        }
    }
}

/// Ring cells of the rows from `-r` up to, not including, `end`, row by row.
pub open spec fn ring_rows_upto(shape: GridShape, cells: Seq<bool>, cx: int, cy: int, r: int, end: int) -> Seq<(usize, usize)>
    decreases end + r,
{
    if end <= -r {
        Seq::empty()
    } else {
        ring_rows_upto(shape, cells, cx, cy, r, end - 1) + ring_row_upto(shape, cells, cx, cy, r, end - 1, r + 1)
    }
}

/// True when `c` is a passable grid cell at Chebyshev distance exactly `r`
/// from `(cx, cy)`.
pub open spec fn on_ring(shape: GridShape, cells: Seq<bool>, cx: int, cy: int, r: int, c: (usize, usize)) -> bool {
    &&& (c.0 as int) < shape.width
    &&& (c.1 as int) < shape.height
    &&& !cells[shape.index_spec(c.0 as int, c.1 as int)]
    &&& chebyshev(c.0 as int, c.1 as int, cx, cy) == r
}

/// One row of the sweep: ring cells only, all in that row, left of `end`,
/// by increasing column; and every ring cell of the row left of `end`.
proof fn lemma_ring_row(shape: GridShape, cells: Seq<bool>, cx: int, cy: int, r: int, dy: int, end: int)
    requires
        r >= 0,
        -r <= dy <= r,
        -r <= end <= r + 1,
    ensures
        ({
            let row = ring_row_upto(shape, cells, cx, cy, r, dy, end);
            &&& forall|i: int| 0 <= i < row.len() ==> {
                &&& on_ring(shape, cells, cx, cy, r, #[trigger] row[i])
                &&& row[i].1 == cy + dy
                &&& row[i].0 - cx < end
            }
            &&& forall|i: int, j: int| 0 <= i < j < row.len() ==> (#[trigger] row[i]).0 < (#[trigger] row[j]).0
            &&& forall|c: (usize, usize)| #[trigger] on_ring(shape, cells, cx, cy, r, c) && c.1 == cy + dy && c.0 - cx < end ==> row.contains(c)
        }),
    decreases end + r,
{
    if end > -r {
        lemma_ring_row(shape, cells, cx, cy, r, dy, end - 1);
        let prev = ring_row_upto(shape, cells, cx, cy, r, dy, end - 1);
        let row = ring_row_upto(shape, cells, cx, cy, r, dy, end);
        let cand = ring_candidate(shape, cells, cx, cy, r, end - 1, dy);
        if cand is Some {
            let c = cand->0;
            assert(row == prev.push(c));
            assert(c.0 == cx + end - 1 && c.1 == cy + dy);
            assert(on_ring(shape, cells, cx, cy, r, c));
            assert forall|i: int, j: int| 0 <= i < j < row.len() implies (#[trigger] row[i]).0 < (#[trigger] row[j]).0 by {
                if j == prev.len() {
                    assert(row[i] == prev[i]);
                }
            }
            assert forall|d: (usize, usize)| #[trigger] on_ring(shape, cells, cx, cy, r, d) && d.1 == cy + dy && d.0 - cx < end implies row.contains(d) by {
                if d.0 - cx < end - 1 {
                    let k = choose|k: int| 0 <= k < prev.len() && prev[k] == d;
                    assert(row[k] == d);
                } else {
                    assert(d == c);
                    assert(row[prev.len() as int] == c);
                }
            }
        } else {
            assert forall|d: (usize, usize)| #[trigger] on_ring(shape, cells, cx, cy, r, d) && d.1 == cy + dy && d.0 - cx < end implies row.contains(d) by {
                if d.0 - cx == end - 1 {
                    assert(ring_candidate(shape, cells, cx, cy, r, end - 1, dy) == Some(d));
                }
            }
        }
    }
}

/// The rows of the sweep below `end`: ring cells only, in rows below `end`,
/// no cell twice; and every ring cell of those rows.
proof fn lemma_ring_rows(shape: GridShape, cells: Seq<bool>, cx: int, cy: int, r: int, end: int)
    requires
        r >= 0,
        -r <= end <= r + 1,
    ensures
        ({
            let rows = ring_rows_upto(shape, cells, cx, cy, r, end);
            &&& forall|i: int| 0 <= i < rows.len() ==> {
                &&& on_ring(shape, cells, cx, cy, r, #[trigger] rows[i])
                &&& rows[i].1 - cy < end
            }
            &&& rows.no_duplicates()
            &&& forall|c: (usize, usize)| #[trigger] on_ring(shape, cells, cx, cy, r, c) && c.1 - cy < end ==> rows.contains(c)
        }),
    decreases end + r,
{
    if end > -r {
        lemma_ring_rows(shape, cells, cx, cy, r, end - 1);
        lemma_ring_row(shape, cells, cx, cy, r, end - 1, r + 1);
        let prev = ring_rows_upto(shape, cells, cx, cy, r, end - 1);
        let row = ring_row_upto(shape, cells, cx, cy, r, end - 1, r + 1);
        let rows = ring_rows_upto(shape, cells, cx, cy, r, end);
        assert(rows == prev + row);
        assert forall|i: int| 0 <= i < rows.len() implies {
            &&& on_ring(shape, cells, cx, cy, r, #[trigger] rows[i])
            &&& rows[i].1 - cy < end
        } by {
            if i < prev.len() {
                assert(rows[i] == prev[i]);
            } else {
                assert(rows[i] == row[i - prev.len()]);
            }
        }
        assert forall|i: int, j: int| 0 <= i < rows.len() && 0 <= j < rows.len() && i != j implies rows[i] != rows[j] by {
            if i < prev.len() && j < prev.len() {
                assert(rows[i] == prev[i] && rows[j] == prev[j]);
            } else if i < prev.len() {
                assert(rows[i] == prev[i] && rows[j] == row[j - prev.len()]);
            } else if j < prev.len() {
                assert(rows[j] == prev[j] && rows[i] == row[i - prev.len()]);
            } else {
                assert(rows[i] == row[i - prev.len()] && rows[j] == row[j - prev.len()]);
                if i < j {
                    assert(row[i - prev.len()].0 < row[j - prev.len()].0);
                } else {
                    assert(row[j - prev.len()].0 < row[i - prev.len()].0);
                }
            }
        }
        assert forall|c: (usize, usize)| #[trigger] on_ring(shape, cells, cx, cy, r, c) && c.1 - cy < end implies rows.contains(c) by {
            if c.1 - cy < end - 1 {
                let k = choose|k: int| 0 <= k < prev.len() && prev[k] == c;
                assert(rows[k] == c);
            } else {
                assert(row.contains(c));
                let k = choose|k: int| 0 <= k < row.len() && row[k] == c;
                assert(rows[prev.len() + k] == c);
            }
        }
    }
}

/// Law: the ring sweep returns exactly the passable grid cells at Chebyshev
/// distance `r` from the centre, each once.
pub proof fn lemma_ring_is_the_ring(shape: GridShape, cells: Seq<bool>, cx: int, cy: int, r: int)
    requires
        r >= 0,
    ensures
        forall|i: int| 0 <= i < ring_rows_upto(shape, cells, cx, cy, r, r + 1).len() ==>
            on_ring(shape, cells, cx, cy, r, #[trigger] ring_rows_upto(shape, cells, cx, cy, r, r + 1)[i]),
        forall|c: (usize, usize)| #[trigger] on_ring(shape, cells, cx, cy, r, c) ==> ring_rows_upto(shape, cells, cx, cy, r, r + 1).contains(c),
        ring_rows_upto(shape, cells, cx, cy, r, r + 1).no_duplicates(),
{
    lemma_ring_rows(shape, cells, cx, cy, r, r + 1);
}

impl HardMask {
    /// Passable cells at Chebyshev distance exactly `ring` from `(cx, cy)`,
    /// row by row from the lowest row offset, each row by increasing column.
    ///
    /// This is the sweep order of the outward searches for the nearest
    /// passable cell; ring zero is the centre cell itself.
    pub fn passable_ring(&self, cx: usize, cy: usize, ring: usize) -> (out: Vec<(usize, usize)>)
        ensures
            out@ == ring_rows_upto(self.shape(), self.cells(), cx as int, cy as int, ring as int, ring as int + 1),
            forall|i: int| 0 <= i < out@.len() ==> on_ring(self.shape(), self.cells(), cx as int, cy as int, ring as int, #[trigger] out@[i]),
            forall|c: (usize, usize)| #[trigger] on_ring(self.shape(), self.cells(), cx as int, cy as int, ring as int, c) ==> out@.contains(c),
            out@.no_duplicates(),
    {
        proof {
            lemma_ring_is_the_ring(self.shape(), self.cells(), cx as int, cy as int, ring as int);
        }
        proof {
            use_type_invariant(self);
        }
        let total = self.forbidden.len();
        let r = ring as i128;
        let mut out: Vec<(usize, usize)> = Vec::new();
        let mut dy: i128 = -r;
        while dy <= r
            invariant
                -r <= dy <= r + 1,
                r == ring as int,
                total == self.forbidden@.len(),
                self.forbidden@.len() == self.grid.cell_count(),
                out@ == ring_rows_upto(self.shape(), self.cells(), cx as int, cy as int, r as int, dy as int),
            decreases r + 1 - dy,
        {
            let ghost before = out@;
            let mut dx: i128 = -r;
            while dx <= r
                invariant
                    -r <= dx <= r + 1,
                    -r <= dy <= r,
                    r == ring as int,
                    total == self.forbidden@.len(),
                    self.forbidden@.len() == self.grid.cell_count(),
                    out@ == before + ring_row_upto(self.shape(), self.cells(), cx as int, cy as int, r as int, dy as int, dx as int),
                decreases r + 1 - dx,
            {
                let on_ring = dx == r || dx == -r || dy == r || dy == -r;
                let x = cx as i128 + dx;
                let y = cy as i128 + dy;
                if on_ring && 0 <= x && x < self.grid.width as i128 && 0 <= y && y < self.grid.height as i128 {
                    let (ux, uy) = (x as usize, y as usize);
                    let index = self.grid.index(ux, uy);
                    if !self.forbidden[index] {
                        out.push((ux, uy));
                    }
                }
                dx = dx + 1;
            }
            dy = dy + 1;
        }
        out
    }
}

} // verus!
