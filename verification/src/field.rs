//! Dense 3-D scalar field.
//!
//! Cells hold IEEE-754 double-precision values; the verified layer works on
//! their raw 64-bit patterns, so every statement here is about which bit
//! pattern sits in which cell. Turning a pattern into an actual double (and
//! the floating-point arithmetic of the relaxation kernel) happens outside
//! the verified core.
//!
//! The field stores exactly `rows * cols * deps` cells in row-major order
//! (row, then column, then depth; depth varies fastest). Reads just outside
//! the stored extents go through [`Matrix::get`], which returns an
//! analytically defined boundary value instead of faulting.

use vstd::prelude::*;

verus! {

/// What a boundary-extrapolated read resolves to.
///
/// A read strictly inside the stored extents yields the stored bit pattern;
/// a read one step outside yields one of the analytic boundary values:
/// `0` below the first row, `1` past the last row, and the row-dependent
/// fraction `(r + 1)^2 / (rows + 1)^2` outside the column or depth range.
/// The fraction is carried as an exact integer numerator and denominator;
/// the caller performs the one floating-point division.
#[derive(PartialEq, Eq, Structural, Clone, Copy, Debug)]
pub enum BoundaryRef {
    /// The constant `0.0`.
    Zero,
    /// The constant `1.0`.
    One,
    /// The exact fraction `num / den`.
    Fraction { num: u64, den: u64 },
    /// The stored cell's bit pattern.
    Stored { bits: u64 },
}

/// A dense 3-D array of cell bit patterns with fixed extents.
pub struct Matrix {
    pub rows: usize,
    pub cols: usize,
    pub deps: usize,
    pub data: Vec<u64>,
}

/// The flat row-major offset of cell `(r, c, d)` is in range, and the
/// partial products are bounded by the total cell count.
pub proof fn lemma_flat3_bound(r: int, c: int, d: int, rows: int, cols: int, deps: int)
    by (nonlinear_arith)
    requires
        0 <= r < rows,
        0 <= c < cols,
        0 <= d < deps,
    ensures
        0 <= c * deps,
        0 <= r * (cols * deps),
        cols * deps <= rows * (cols * deps),
        rows * (cols * deps) == rows * cols * deps,
        0 <= r * (cols * deps) + c * deps + d < rows * (cols * deps),
{
}

/// Row-major order respects lexicographic order on `(r, c, d)`: a cell that
/// comes earlier in (row, column, depth) order has a strictly smaller flat
/// offset.
pub proof fn lemma_flat3_lex(
    r1: int, c1: int, d1: int,
    r2: int, c2: int, d2: int,
    rows: int, cols: int, deps: int,
)
    by (nonlinear_arith)
    requires
        0 <= r1 < rows,
        0 <= c1 < cols,
        0 <= d1 < deps,
        0 <= r2 < rows,
        0 <= c2 < cols,
        0 <= d2 < deps,
        r1 < r2 || (r1 == r2 && c1 < c2) || (r1 == r2 && c1 == c2 && d1 < d2),
    ensures
        r1 * (cols * deps) + c1 * deps + d1 < r2 * (cols * deps) + c2 * deps + d2,
{
}

/// A square of a value below `2^32` fits in a `u64`.
pub proof fn lemma_square_fits(a: int)
    by (nonlinear_arith)
    requires
        0 <= a < 0x1_0000_0000,
    ensures
        0 <= a * a <= 0xffff_ffff_ffff_ffff,
{
}

impl View for Matrix {
    type V = Seq<u64>;

    open spec fn view(&self) -> Seq<u64> {
        self.data@
    }
}

impl Matrix {
    /// The flat row-major offset of cell `(r, c, d)`.
    pub open spec fn flat(self, r: int, c: int, d: int) -> int {
        r * (self.cols as int * self.deps as int) + c * self.deps as int + d
    }

    /// Well-formed: the storage holds exactly one slot per cell, and each
    /// extent is small enough that the boundary fractions fit in a `u64`.
    pub open spec fn wf(self) -> bool {
        &&& self@.len() == self.rows as int * self.cols as int * self.deps as int
        &&& self.rows as int * self.cols as int * self.deps as int <= usize::MAX
        &&& self.rows < 0xffff_ffff
        &&& self.cols < 0xffff_ffff
        &&& self.deps < 0xffff_ffff
    }

    /// A fresh zero-filled field of the given extents.
    pub fn new(rows: usize, cols: usize, deps: usize) -> (m: Matrix)
        requires
            rows < 0xffff_ffff,
            cols < 0xffff_ffff,
            deps < 0xffff_ffff,
            rows * cols <= usize::MAX,
            rows * cols * deps <= usize::MAX,
        ensures
            m.wf(),
            m.rows == rows,
            m.cols == cols,
            m.deps == deps,
            forall|i: int| 0 <= i < m@.len() ==> m@[i] == 0u64,
    {
        let total: usize = rows * cols * deps;
        let mut data: Vec<u64> = Vec::new();
        while data.len() < total
            invariant
                data@.len() <= total,
                forall|i: int| 0 <= i < data@.len() ==> data@[i] == 0u64,
            decreases total - data@.len(),
        {
            data.push(0u64);
        }
        Matrix { rows, cols, deps, data }
    }

    /// A fresh field with the same extents and the same cell contents as
    /// `src`.
    pub fn new_from_other(src: &Matrix) -> (m: Matrix)
        requires
            src.wf(),
        ensures
            m.wf(),
            m.rows == src.rows,
            m.cols == src.cols,
            m.deps == src.deps,
            m@ == src@,
    {
        let n: usize = src.data.len();
        let mut data: Vec<u64> = Vec::new();
        while data.len() < n
            invariant
                n == src@.len(),
                data@.len() <= n,
                forall|i: int| 0 <= i < data@.len() ==> data@[i] == src@[i],
            decreases n - data@.len(),
        {
            let next: u64 = src.data[data.len()];
            data.push(next);
        }
        proof {
            assert(data@ =~= src@);
        }
        Matrix { rows: src.rows, cols: src.cols, deps: src.deps, data }
    }

    /// The stored bit pattern of the in-range cell `(r, c, d)`.
    pub fn at(&self, r: usize, c: usize, d: usize) -> (bits: u64)
        requires
            self.wf(),
            r < self.rows,
            c < self.cols,
            d < self.deps,
        ensures
            0 <= self.flat(r as int, c as int, d as int) < self@.len(),
            bits == self@[self.flat(r as int, c as int, d as int)],
    {
        proof {
            lemma_flat3_bound(r as int, c as int, d as int,
                self.rows as int, self.cols as int, self.deps as int);
        }
        self.data[r * (self.cols * self.deps) + c * self.deps + d]
    }

    /// Stores `bits` in the in-range cell `(r, c, d)`, leaving every other
    /// cell and the extents unchanged.
    pub fn set_at(&mut self, r: usize, c: usize, d: usize, bits: u64)
        requires
            old(self).wf(),
            r < old(self).rows,
            c < old(self).cols,
            d < old(self).deps,
        ensures
            final(self).rows == old(self).rows,
            final(self).cols == old(self).cols,
            final(self).deps == old(self).deps,
            final(self).wf(),
            0 <= old(self).flat(r as int, c as int, d as int) < old(self)@.len(),
            final(self)@ == old(self)@.update(
                old(self).flat(r as int, c as int, d as int), bits),
    {
        proof {
            lemma_flat3_bound(r as int, c as int, d as int,
                self.rows as int, self.cols as int, self.deps as int);
        }
        let i: usize = r * (self.cols * self.deps) + c * self.deps + d;
        self.data.set(i, bits);
    }

    /// What a boundary-extrapolating read at `(r, c, d)` resolves to: row
    /// `-1` is the constant `0`, row `rows` is the constant `1`, a column
    /// or depth index one step outside its extent yields the row-only
    /// fraction `(r + 1)^2 / (rows + 1)^2`, and everything in range yields
    /// the stored pattern.
    pub open spec fn boundary_spec(self, r: int, c: int, d: int) -> BoundaryRef {
        if r == -1 {
            BoundaryRef::Zero
        } else if r == self.rows {
            BoundaryRef::One
        } else if c == -1 || c == self.cols || d == -1 || d == self.deps {
            BoundaryRef::Fraction {
                num: ((r + 1) * (r + 1)) as u64,
                den: ((self.rows + 1) * (self.rows + 1)) as u64,
            }
        } else {
            BoundaryRef::Stored { bits: self@[self.flat(r, c, d)] }
        }
    }

    /// The boundary-extrapolating read, legal one step outside the stored
    /// extents; see [`Matrix::boundary_spec`] for the value it resolves to.
    pub fn get(&self, r: i64, c: i64, d: i64) -> (v: BoundaryRef)
        requires
            self.wf(),
            -1 <= r <= self.rows,
            -1 <= c <= self.cols,
            -1 <= d <= self.deps,
        ensures
            v == self.boundary_spec(r as int, c as int, d as int),
    {
        if r == -1 {
            BoundaryRef::Zero
        } else if r == self.rows as i64 {
            BoundaryRef::One
        } else if c == -1 || c == self.cols as i64 || d == -1 || d == self.deps as i64 {
            proof {
                lemma_square_fits(r as int + 1);
                lemma_square_fits(self.rows as int + 1);
            }
            let rp: u64 = (r + 1) as u64;
            let bp: u64 = self.rows as u64 + 1;
            BoundaryRef::Fraction { num: rp * rp, den: bp * bp }
        } else {
            BoundaryRef::Stored { bits: self.at(r as usize, c as usize, d as usize) }
        }
    }

    /// The read set of the 6-neighbor relaxation kernel at stored cell
    /// `(r, c, d)`: the six axis-aligned face neighbors, in the order
    /// row-above, column-right, depth-ahead, row-below, column-left,
    /// depth-behind. Neighbors of a stored cell are at most one step
    /// outside the extents, so each resolves by boundary extrapolation.
    pub fn face_neighbors(&self, r: usize, c: usize, d: usize)
        -> (nb: (BoundaryRef, BoundaryRef, BoundaryRef, BoundaryRef, BoundaryRef, BoundaryRef))
        requires
            self.wf(),
            r < self.rows,
            c < self.cols,
            d < self.deps,
        ensures
            nb.0 == self.boundary_spec(r + 1, c as int, d as int),
            nb.1 == self.boundary_spec(r as int, c + 1, d as int),
            nb.2 == self.boundary_spec(r as int, c as int, d + 1),
            nb.3 == self.boundary_spec(r - 1, c as int, d as int),
            nb.4 == self.boundary_spec(r as int, c - 1, d as int),
            nb.5 == self.boundary_spec(r as int, c as int, d - 1),
    {
        let ri = r as i64;
        let ci = c as i64;
        let di = d as i64;
        (
            self.get(ri + 1, ci, di),
            self.get(ri, ci + 1, di),
            self.get(ri, ci, di + 1),
            self.get(ri - 1, ci, di),
            self.get(ri, ci - 1, di),
            self.get(ri, ci, di - 1),
        )
    }

    /// Fills the whole field row by row: every cell of row `r` receives
    /// `row_values[r]`. This realizes the row-only initialization policies,
    /// whose per-row value is the same for every column and depth.
    pub fn init_matrix(&mut self, row_values: &Vec<u64>)
        requires
            old(self).wf(),
            row_values@.len() == old(self).rows,
        ensures
            final(self).rows == old(self).rows,
            final(self).cols == old(self).cols,
            final(self).deps == old(self).deps,
            final(self).wf(),
            forall|r: int, c: int, d: int|
                0 <= r < final(self).rows && 0 <= c < final(self).cols
                    && 0 <= d < final(self).deps
                    ==> final(self)@[#[trigger] final(self).flat(r, c, d)] == row_values@[r],
    {
        let mut r: usize = 0;
        while r < self.rows
            invariant
                self.rows == old(self).rows,
                self.cols == old(self).cols,
                self.deps == old(self).deps,
                self.wf(),
                row_values@.len() == self.rows,
                r <= self.rows,
                forall|r2: int, c2: int, d2: int|
                    0 <= r2 < r && 0 <= c2 < self.cols && 0 <= d2 < self.deps
                        ==> self@[#[trigger] self.flat(r2, c2, d2)] == row_values@[r2],
            decreases self.rows - r,
        {
            let mut c: usize = 0;
            while c < self.cols
                invariant
                    self.rows == old(self).rows,
                    self.cols == old(self).cols,
                    self.deps == old(self).deps,
                    self.wf(),
                    row_values@.len() == self.rows,
                    r < self.rows,
                    c <= self.cols,
                    forall|r2: int, c2: int, d2: int|
                        0 <= r2 < r && 0 <= c2 < self.cols && 0 <= d2 < self.deps
                            ==> self@[#[trigger] self.flat(r2, c2, d2)] == row_values@[r2],
                    forall|c2: int, d2: int|
                        0 <= c2 < c && 0 <= d2 < self.deps
                            ==> self@[#[trigger] self.flat(r as int, c2, d2)] == row_values@[r as int],
                decreases self.cols - c,
            {
                let mut d: usize = 0;
                while d < self.deps
                    invariant
                        self.rows == old(self).rows,
                        self.cols == old(self).cols,
                        self.deps == old(self).deps,
                        self.wf(),
                        row_values@.len() == self.rows,
                        r < self.rows,
                        c < self.cols,
                        d <= self.deps,
                        forall|r2: int, c2: int, d2: int|
                            0 <= r2 < r && 0 <= c2 < self.cols && 0 <= d2 < self.deps
                                ==> self@[#[trigger] self.flat(r2, c2, d2)] == row_values@[r2],
                        forall|c2: int, d2: int|
                            0 <= c2 < c && 0 <= d2 < self.deps
                                ==> self@[#[trigger] self.flat(r as int, c2, d2)] == row_values@[r as int],
                        forall|d2: int|
                            0 <= d2 < d
                                ==> self@[#[trigger] self.flat(r as int, c as int, d2)] == row_values@[r as int],
                    decreases self.deps - d,
                {
                    let ghost prev = *self;
                    let v: u64 = row_values[r];
                    self.set_at(r, c, d, v);
                    proof {
                        let rr = self.rows as int;
                        let cc = self.cols as int;
                        let dd = self.deps as int;
                        lemma_flat3_bound(r as int, c as int, d as int, rr, cc, dd);
                        assert(self.flat(r as int, c as int, d as int)
                            == prev.flat(r as int, c as int, d as int));
                        assert forall|r2: int, c2: int, d2: int|
                            0 <= r2 < r && 0 <= c2 < self.cols && 0 <= d2 < self.deps
                            implies self@[#[trigger] self.flat(r2, c2, d2)] == row_values@[r2]
                        by {
                            lemma_flat3_lex(r2, c2, d2, r as int, c as int, d as int, rr, cc, dd);
                            lemma_flat3_bound(r2, c2, d2, rr, cc, dd);
                            assert(prev@[prev.flat(r2, c2, d2)] == row_values@[r2]);
                            assert(self.flat(r2, c2, d2) == prev.flat(r2, c2, d2));
                        }
                        assert forall|c2: int, d2: int|
                            0 <= c2 < c && 0 <= d2 < self.deps
                            implies self@[#[trigger] self.flat(r as int, c2, d2)] == row_values@[r as int]
                        by {
                            lemma_flat3_lex(r as int, c2, d2, r as int, c as int, d as int, rr, cc, dd);
                            lemma_flat3_bound(r as int, c2, d2, rr, cc, dd);
                            assert(prev@[prev.flat(r as int, c2, d2)] == row_values@[r as int]);
                            assert(self.flat(r as int, c2, d2) == prev.flat(r as int, c2, d2));
                        }
                        assert forall|d2: int|
                            0 <= d2 <= d
                            implies self@[#[trigger] self.flat(r as int, c as int, d2)] == row_values@[r as int]
                        by {
                            if d2 < d {
                                lemma_flat3_lex(r as int, c as int, d2, r as int, c as int, d as int,
                                    rr, cc, dd);
                                lemma_flat3_bound(r as int, c as int, d2, rr, cc, dd);
                                assert(prev@[prev.flat(r as int, c as int, d2)] == row_values@[r as int]);
                                assert(self.flat(r as int, c as int, d2) == prev.flat(r as int, c as int, d2));
                            }
                        }
                    }
                    d = d + 1;
                }
                c = c + 1;
            }
            r = r + 1;
        }
    }
}

/// The integer parts of the boundary-field initialization formula
/// `r^2 / (rows - 1)^2`: the caller divides the returned numerator by the
/// returned denominator in double precision.
pub fn boundary_init_fraction(r: usize, rows: usize) -> (f: (u64, u64))
    requires
        2 <= rows,
        rows < 0xffff_ffff,
        r < rows,
    ensures
        f.0 == r * r,
        f.1 == (rows - 1) * (rows - 1),
{
    proof {
        lemma_square_fits(r as int);
        lemma_square_fits(rows as int - 1);
    }
    let rm: u64 = (rows - 1) as u64;
    ((r as u64) * (r as u64), rm * rm)
}

/// The integer parts of the reference initialization formula
/// `(r + 1)^2 / (rows + 1)^2`, which is also the analytic value of the
/// column/depth boundary at row `r`.
pub fn reference_init_fraction(r: usize, rows: usize) -> (f: (u64, u64))
    requires
        rows < 0xffff_ffff,
        r < rows,
    ensures
        f.0 == (r + 1) * (r + 1),
        f.1 == (rows + 1) * (rows + 1),
{
    proof {
        lemma_square_fits(r as int + 1);
        lemma_square_fits(rows as int + 1);
    }
    let rp: u64 = r as u64 + 1;
    let bp: u64 = rows as u64 + 1;
    (rp * rp, bp * bp)
}

} // verus!
