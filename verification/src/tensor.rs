//! Dense 4-D coefficient tensor.
//!
//! The generalized 19-point relaxation kernel reads several coefficient
//! arrays that share one `rows x cols x deps` shape but carry a small number
//! of leading "planes" (four for the `a` coefficients, three for `b` and
//! `c`, one for the boundary-condition and work fields). This module stores
//! such a tensor flat in plane-major row-major order, again as raw 64-bit
//! patterns of the double-precision cell values.

use vstd::prelude::*;

verus! {

/// A dense 4-D array of cell bit patterns: `nums` planes of shape
/// `rows x cols x deps`.
pub struct Matrix {
    pub nums: usize,
    pub rows: usize,
    pub cols: usize,
    pub deps: usize,
    pub data: Vec<u64>,
}

/// The flat plane-major offset of cell `(n, r, c, d)` is in range, and the
/// partial products are bounded by the total cell count.
pub proof fn lemma_flat4_bound(
    n: int, r: int, c: int, d: int,
    nums: int, rows: int, cols: int, deps: int,
)
    by (nonlinear_arith)
    requires
        0 <= n < nums,
        0 <= r < rows,
        0 <= c < cols,
        0 <= d < deps,
    ensures
        0 <= c * deps,
        0 <= r * (cols * deps),
        0 <= n * (rows * (cols * deps)),
        cols * deps <= nums * (rows * (cols * deps)),
        rows * (cols * deps) <= nums * (rows * (cols * deps)),
        nums * (rows * (cols * deps)) == nums * rows * cols * deps,
        0 <= n * (rows * (cols * deps)) + r * (cols * deps) + c * deps + d
            < nums * (rows * (cols * deps)),
{
}

/// Plane-major order respects lexicographic order on `(n, r, c, d)`.
pub proof fn lemma_flat4_lex(
    n1: int, r1: int, c1: int, d1: int,
    n2: int, r2: int, c2: int, d2: int,
    nums: int, rows: int, cols: int, deps: int,
)
    by (nonlinear_arith)
    requires
        0 <= n1 < nums,
        0 <= r1 < rows,
        0 <= c1 < cols,
        0 <= d1 < deps,
        0 <= n2 < nums,
        0 <= r2 < rows,
        0 <= c2 < cols,
        0 <= d2 < deps,
        n1 < n2
            || (n1 == n2 && r1 < r2)
            || (n1 == n2 && r1 == r2 && c1 < c2)
            || (n1 == n2 && r1 == r2 && c1 == c2 && d1 < d2),
    ensures
        n1 * (rows * (cols * deps)) + r1 * (cols * deps) + c1 * deps + d1
            < n2 * (rows * (cols * deps)) + r2 * (cols * deps) + c2 * deps + d2,
{
}

impl View for Matrix {
    type V = Seq<u64>;

    open spec fn view(&self) -> Seq<u64> {
        self.data@
    }
}

impl Matrix {
    /// The flat plane-major offset of cell `(n, r, c, d)`.
    pub open spec fn flat(self, n: int, r: int, c: int, d: int) -> int {
        n * (self.rows as int * (self.cols as int * self.deps as int))
            + r * (self.cols as int * self.deps as int)
            + c * self.deps as int
            + d
    }

    /// Well-formed: one storage slot per cell, extents bounded.
    pub open spec fn wf(self) -> bool {
        &&& self@.len()
            == self.nums as int * self.rows as int * self.cols as int * self.deps as int
        &&& self.nums as int * self.rows as int * self.cols as int * self.deps as int
            <= usize::MAX
        &&& self.nums < 0xffff_ffff
        &&& self.rows < 0xffff_ffff
        &&& self.cols < 0xffff_ffff
        &&& self.deps < 0xffff_ffff
    }

    /// A fresh zero-filled tensor of the given extents.
    pub fn new(nums: usize, rows: usize, cols: usize, deps: usize) -> (m: Matrix)
        requires
            nums < 0xffff_ffff,
            rows < 0xffff_ffff,
            cols < 0xffff_ffff,
            deps < 0xffff_ffff,
            nums * rows <= usize::MAX,
            nums * rows * cols <= usize::MAX,
            nums * rows * cols * deps <= usize::MAX,
        ensures
            m.wf(),
            m.nums == nums,
            m.rows == rows,
            m.cols == cols,
            m.deps == deps,
            forall|i: int| 0 <= i < m@.len() ==> m@[i] == 0u64,
    {
        let total: usize = nums * rows * cols * deps;
        let mut data: Vec<u64> = Vec::new();
        while data.len() < total
            invariant
                data@.len() <= total,
                forall|i: int| 0 <= i < data@.len() ==> data@[i] == 0u64,
            decreases total - data@.len(),
        {
            data.push(0u64);
        }
        Matrix { nums, rows, cols, deps, data }
    }

    /// A tensor with no cells at all.
    pub fn empty() -> (m: Matrix)
        ensures
            m.wf(),
            m.nums == 0,
            m.rows == 0,
            m.cols == 0,
            m.deps == 0,
            m@.len() == 0,
    {
        Matrix { nums: 0, rows: 0, cols: 0, deps: 0, data: Vec::new() }
    }

    /// The stored bit pattern of the in-range cell `(n, r, c, d)`.
    pub fn at(&self, n: usize, r: usize, c: usize, d: usize) -> (bits: u64)
        requires
            self.wf(),
            n < self.nums,
            r < self.rows,
            c < self.cols,
            d < self.deps,
        ensures
            0 <= self.flat(n as int, r as int, c as int, d as int) < self@.len(),
            bits == self@[self.flat(n as int, r as int, c as int, d as int)],
    {
        proof {
            lemma_flat4_bound(n as int, r as int, c as int, d as int,
                self.nums as int, self.rows as int, self.cols as int, self.deps as int);
        }
        self.data[n * (self.rows * (self.cols * self.deps))
            + r * (self.cols * self.deps) + c * self.deps + d]
    }

    /// Stores `bits` in the in-range cell `(n, r, c, d)`, leaving every
    /// other cell and the extents unchanged.
    pub fn set_at(&mut self, n: usize, r: usize, c: usize, d: usize, bits: u64)
        requires
            old(self).wf(),
            n < old(self).nums,
            r < old(self).rows,
            c < old(self).cols,
            d < old(self).deps,
        ensures
            final(self).nums == old(self).nums,
            final(self).rows == old(self).rows,
            final(self).cols == old(self).cols,
            final(self).deps == old(self).deps,
            final(self).wf(),
            0 <= old(self).flat(n as int, r as int, c as int, d as int) < old(self)@.len(),
            final(self)@ == old(self)@.update(
                old(self).flat(n as int, r as int, c as int, d as int), bits),
    {
        proof {
            lemma_flat4_bound(n as int, r as int, c as int, d as int,
                self.nums as int, self.rows as int, self.cols as int, self.deps as int);
        }
        let i: usize = n * (self.rows * (self.cols * self.deps))
            + r * (self.cols * self.deps) + c * self.deps + d;
        self.data.set(i, bits);
    }

    /// Fills plane `n` with per-row values: every cell `(n, r, c, d)`
    /// receives `row_values[r]`. Every other plane is left untouched.
    pub fn fill_plane_rows(&mut self, n: usize, row_values: &Vec<u64>)
        requires
            old(self).wf(),
            n < old(self).nums,
            row_values@.len() == old(self).rows,
        ensures
            final(self).nums == old(self).nums,
            final(self).rows == old(self).rows,
            final(self).cols == old(self).cols,
            final(self).deps == old(self).deps,
            final(self).wf(),
            forall|r: int, c: int, d: int|
                0 <= r < final(self).rows && 0 <= c < final(self).cols
                    && 0 <= d < final(self).deps
                    ==> final(self)@[#[trigger] final(self).flat(n as int, r, c, d)]
                        == row_values@[r],
            forall|n2: int, r: int, c: int, d: int|
                0 <= n2 < final(self).nums && n2 != n && 0 <= r < final(self).rows
                    && 0 <= c < final(self).cols && 0 <= d < final(self).deps
                    ==> final(self)@[#[trigger] final(self).flat(n2, r, c, d)]
                        == old(self)@[old(self).flat(n2, r, c, d)],
    {
        let mut r: usize = 0;
        while r < self.rows
            invariant
                self.nums == old(self).nums,
                self.rows == old(self).rows,
                self.cols == old(self).cols,
                self.deps == old(self).deps,
                self.wf(),
                n < self.nums,
                row_values@.len() == self.rows,
                r <= self.rows,
                forall|r2: int, c2: int, d2: int|
                    0 <= r2 < r && 0 <= c2 < self.cols && 0 <= d2 < self.deps
                        ==> self@[#[trigger] self.flat(n as int, r2, c2, d2)] == row_values@[r2],
                forall|n2: int, r2: int, c2: int, d2: int|
                    0 <= n2 < self.nums && n2 != n && 0 <= r2 < self.rows
                        && 0 <= c2 < self.cols && 0 <= d2 < self.deps
                        ==> self@[#[trigger] self.flat(n2, r2, c2, d2)]
                            == old(self)@[old(self).flat(n2, r2, c2, d2)],
            decreases self.rows - r,
        {
            let mut c: usize = 0;
            while c < self.cols
                invariant
                    self.nums == old(self).nums,
                    self.rows == old(self).rows,
                    self.cols == old(self).cols,
                    self.deps == old(self).deps,
                    self.wf(),
                    n < self.nums,
                    row_values@.len() == self.rows,
                    r < self.rows,
                    c <= self.cols,
                    forall|r2: int, c2: int, d2: int|
                        0 <= r2 < r && 0 <= c2 < self.cols && 0 <= d2 < self.deps
                            ==> self@[#[trigger] self.flat(n as int, r2, c2, d2)] == row_values@[r2],
                    forall|c2: int, d2: int|
                        0 <= c2 < c && 0 <= d2 < self.deps
                            ==> self@[#[trigger] self.flat(n as int, r as int, c2, d2)]
                                == row_values@[r as int],
                    forall|n2: int, r2: int, c2: int, d2: int|
                        0 <= n2 < self.nums && n2 != n && 0 <= r2 < self.rows
                            && 0 <= c2 < self.cols && 0 <= d2 < self.deps
                            ==> self@[#[trigger] self.flat(n2, r2, c2, d2)]
                                == old(self)@[old(self).flat(n2, r2, c2, d2)],
                decreases self.cols - c,
            {
                let mut d: usize = 0;
                while d < self.deps
                    invariant
                        self.nums == old(self).nums,
                        self.rows == old(self).rows,
                        self.cols == old(self).cols,
                        self.deps == old(self).deps,
                        self.wf(),
                        n < self.nums,
                        row_values@.len() == self.rows,
                        r < self.rows,
                        c < self.cols,
                        d <= self.deps,
                        forall|r2: int, c2: int, d2: int|
                            0 <= r2 < r && 0 <= c2 < self.cols && 0 <= d2 < self.deps
                                ==> self@[#[trigger] self.flat(n as int, r2, c2, d2)] == row_values@[r2],
                        forall|c2: int, d2: int|
                            0 <= c2 < c && 0 <= d2 < self.deps
                                ==> self@[#[trigger] self.flat(n as int, r as int, c2, d2)]
                                    == row_values@[r as int],
                        forall|d2: int|
                            0 <= d2 < d
                                ==> self@[#[trigger] self.flat(n as int, r as int, c as int, d2)]
                                    == row_values@[r as int],
                        forall|n2: int, r2: int, c2: int, d2: int|
                            0 <= n2 < self.nums && n2 != n && 0 <= r2 < self.rows
                                && 0 <= c2 < self.cols && 0 <= d2 < self.deps
                                ==> self@[#[trigger] self.flat(n2, r2, c2, d2)]
                                    == old(self)@[old(self).flat(n2, r2, c2, d2)],
                    decreases self.deps - d,
                {
                    let ghost prev = *self;
                    let v: u64 = row_values[r];
                    self.set_at(n, r, c, d, v);
                    proof {
                        let nn = self.nums as int;
                        let rr = self.rows as int;
                        let cc = self.cols as int;
                        let dd = self.deps as int;
                        lemma_flat4_bound(n as int, r as int, c as int, d as int, nn, rr, cc, dd);
                        assert forall|r2: int, c2: int, d2: int|
                            0 <= r2 < r && 0 <= c2 < self.cols && 0 <= d2 < self.deps
                            implies self@[#[trigger] self.flat(n as int, r2, c2, d2)] == row_values@[r2]
                        by {
                            lemma_flat4_lex(n as int, r2, c2, d2,
                                n as int, r as int, c as int, d as int, nn, rr, cc, dd);
                            lemma_flat4_bound(n as int, r2, c2, d2, nn, rr, cc, dd);
                            assert(prev@[prev.flat(n as int, r2, c2, d2)] == row_values@[r2]);
                            assert(self.flat(n as int, r2, c2, d2) == prev.flat(n as int, r2, c2, d2));
                        }
                        assert forall|c2: int, d2: int|
                            0 <= c2 < c && 0 <= d2 < self.deps
                            implies self@[#[trigger] self.flat(n as int, r as int, c2, d2)]
                                == row_values@[r as int]
                        by {
                            lemma_flat4_lex(n as int, r as int, c2, d2,
                                n as int, r as int, c as int, d as int, nn, rr, cc, dd);
                            lemma_flat4_bound(n as int, r as int, c2, d2, nn, rr, cc, dd);
                            assert(prev@[prev.flat(n as int, r as int, c2, d2)] == row_values@[r as int]);
                            assert(self.flat(n as int, r as int, c2, d2)
                                == prev.flat(n as int, r as int, c2, d2));
                        }
                        assert forall|d2: int|
                            0 <= d2 <= d
                            implies self@[#[trigger] self.flat(n as int, r as int, c as int, d2)]
                                == row_values@[r as int]
                        by {
                            if d2 < d {
                                lemma_flat4_lex(n as int, r as int, c as int, d2,
                                    n as int, r as int, c as int, d as int, nn, rr, cc, dd);
                                lemma_flat4_bound(n as int, r as int, c as int, d2, nn, rr, cc, dd);
                                assert(prev@[prev.flat(n as int, r as int, c as int, d2)]
                                    == row_values@[r as int]);
                                assert(self.flat(n as int, r as int, c as int, d2)
                                    == prev.flat(n as int, r as int, c as int, d2));
                            }
                        }
                        assert forall|n2: int, r2: int, c2: int, d2: int|
                            0 <= n2 < self.nums && n2 != n && 0 <= r2 < self.rows
                                && 0 <= c2 < self.cols && 0 <= d2 < self.deps
                            implies self@[#[trigger] self.flat(n2, r2, c2, d2)]
                                == old(self)@[old(self).flat(n2, r2, c2, d2)]
                        by {
                            if n2 < n {
                                lemma_flat4_lex(n2, r2, c2, d2,
                                    n as int, r as int, c as int, d as int, nn, rr, cc, dd);
                            } else {
                                lemma_flat4_lex(n as int, r as int, c as int, d as int,
                                    n2, r2, c2, d2, nn, rr, cc, dd);
                            }
                            lemma_flat4_bound(n2, r2, c2, d2, nn, rr, cc, dd);
                            assert(prev@[prev.flat(n2, r2, c2, d2)]
                                == old(self)@[old(self).flat(n2, r2, c2, d2)]);
                            assert(self.flat(n2, r2, c2, d2) == prev.flat(n2, r2, c2, d2));
                        }
                    }
                    d = d + 1;
                }
                c = c + 1;
            }
            r = r + 1;
        }
    }

    /// Cell `(r, c, d)` is strictly interior: every face neighbor lies
    /// within the stored extents.
    pub open spec fn interior_cell(self, r: int, c: int, d: int) -> bool {
        &&& 1 <= r < self.rows - 1
        &&& 1 <= c < self.cols - 1
        &&& 1 <= d < self.deps - 1
    }

    /// Copies plane `0`'s interior cells from `src` into this tensor: the
    /// sweep's copy-back of the work field into the primary field. Both
    /// tensors must share one shape; boundary cells and other planes are
    /// left untouched.
    pub fn copy_interior_from(&mut self, src: &Matrix)
        requires
            old(self).wf(),
            src.wf(),
            0 < old(self).nums,
            src.nums == old(self).nums,
            src.rows == old(self).rows,
            src.cols == old(self).cols,
            src.deps == old(self).deps,
        ensures
            final(self).nums == old(self).nums,
            final(self).rows == old(self).rows,
            final(self).cols == old(self).cols,
            final(self).deps == old(self).deps,
            final(self).wf(),
            forall|r: int, c: int, d: int|
                final(self).interior_cell(r, c, d)
                    ==> final(self)@[#[trigger] final(self).flat(0, r, c, d)]
                        == src@[src.flat(0, r, c, d)],
            forall|n2: int, r: int, c: int, d: int|
                0 <= n2 < final(self).nums && 0 <= r < final(self).rows
                    && 0 <= c < final(self).cols && 0 <= d < final(self).deps
                    && !(n2 == 0 && final(self).interior_cell(r, c, d))
                    ==> final(self)@[#[trigger] final(self).flat(n2, r, c, d)]
                        == old(self)@[old(self).flat(n2, r, c, d)],
    {
        let mut r: usize = 1;
        while r + 1 < self.rows
            invariant
                self.nums == old(self).nums,
                self.rows == old(self).rows,
                self.cols == old(self).cols,
                self.deps == old(self).deps,
                self.wf(),
                0 < self.nums,
                src.wf(),
                src.nums == self.nums,
                src.rows == self.rows,
                src.cols == self.cols,
                src.deps == self.deps,
                1 <= r,
                r < 0xffff_ffff,
                forall|r2: int, c2: int, d2: int|
                    self.interior_cell(r2, c2, d2) && r2 < r
                        ==> self@[#[trigger] self.flat(0, r2, c2, d2)]
                            == src@[src.flat(0, r2, c2, d2)],
                forall|n2: int, r2: int, c2: int, d2: int|
                    0 <= n2 < self.nums && 0 <= r2 < self.rows && 0 <= c2 < self.cols
                        && 0 <= d2 < self.deps && !(n2 == 0 && self.interior_cell(r2, c2, d2))
                        ==> self@[#[trigger] self.flat(n2, r2, c2, d2)]
                            == old(self)@[old(self).flat(n2, r2, c2, d2)],
            decreases self.rows - r,
        {
            let mut c: usize = 1;
            while c + 1 < self.cols
                invariant
                    self.nums == old(self).nums,
                    self.rows == old(self).rows,
                    self.cols == old(self).cols,
                    self.deps == old(self).deps,
                    self.wf(),
                    0 < self.nums,
                    src.wf(),
                    src.nums == self.nums,
                    src.rows == self.rows,
                    src.cols == self.cols,
                    src.deps == self.deps,
                    1 <= r,
                    r + 1 < self.rows,
                    1 <= c,
                    c < 0xffff_ffff,
                    forall|r2: int, c2: int, d2: int|
                        self.interior_cell(r2, c2, d2) && r2 < r
                            ==> self@[#[trigger] self.flat(0, r2, c2, d2)]
                                == src@[src.flat(0, r2, c2, d2)],
                    forall|c2: int, d2: int|
                        self.interior_cell(r as int, c2, d2) && c2 < c
                            ==> self@[#[trigger] self.flat(0, r as int, c2, d2)]
                                == src@[src.flat(0, r as int, c2, d2)],
                    forall|n2: int, r2: int, c2: int, d2: int|
                        0 <= n2 < self.nums && 0 <= r2 < self.rows && 0 <= c2 < self.cols
                            && 0 <= d2 < self.deps && !(n2 == 0 && self.interior_cell(r2, c2, d2))
                            ==> self@[#[trigger] self.flat(n2, r2, c2, d2)]
                                == old(self)@[old(self).flat(n2, r2, c2, d2)],
                decreases self.cols - c,
            {
                let mut d: usize = 1;
                while d + 1 < self.deps
                    invariant
                        self.nums == old(self).nums,
                        self.rows == old(self).rows,
                        self.cols == old(self).cols,
                        self.deps == old(self).deps,
                        self.wf(),
                        0 < self.nums,
                        src.wf(),
                        src.nums == self.nums,
                        src.rows == self.rows,
                        src.cols == self.cols,
                        src.deps == self.deps,
                        1 <= r,
                        r + 1 < self.rows,
                        1 <= c,
                        c + 1 < self.cols,
                        1 <= d,
                        d < 0xffff_ffff,
                        forall|r2: int, c2: int, d2: int|
                            self.interior_cell(r2, c2, d2) && r2 < r
                                ==> self@[#[trigger] self.flat(0, r2, c2, d2)]
                                    == src@[src.flat(0, r2, c2, d2)],
                        forall|c2: int, d2: int|
                            self.interior_cell(r as int, c2, d2) && c2 < c
                                ==> self@[#[trigger] self.flat(0, r as int, c2, d2)]
                                    == src@[src.flat(0, r as int, c2, d2)],
                        forall|d2: int|
                            self.interior_cell(r as int, c as int, d2) && d2 < d
                                ==> self@[#[trigger] self.flat(0, r as int, c as int, d2)]
                                    == src@[src.flat(0, r as int, c as int, d2)],
                        forall|n2: int, r2: int, c2: int, d2: int|
                            0 <= n2 < self.nums && 0 <= r2 < self.rows && 0 <= c2 < self.cols
                                && 0 <= d2 < self.deps
                                && !(n2 == 0 && self.interior_cell(r2, c2, d2))
                                ==> self@[#[trigger] self.flat(n2, r2, c2, d2)]
                                    == old(self)@[old(self).flat(n2, r2, c2, d2)],
                    decreases self.deps - d,
                {
                    let ghost prev = *self;
                    let v: u64 = src.at(0, r, c, d);
                    self.set_at(0, r, c, d, v);
                    proof {
                        let nn = self.nums as int;
                        let rr = self.rows as int;
                        let cc = self.cols as int;
                        let dd = self.deps as int;
                        lemma_flat4_bound(0, r as int, c as int, d as int, nn, rr, cc, dd);
                        assert forall|r2: int, c2: int, d2: int|
                            self.interior_cell(r2, c2, d2) && r2 < r
                            implies self@[#[trigger] self.flat(0, r2, c2, d2)]
                                == src@[src.flat(0, r2, c2, d2)]
                        by {
                            lemma_flat4_lex(0, r2, c2, d2, 0, r as int, c as int, d as int,
                                nn, rr, cc, dd);
                            lemma_flat4_bound(0, r2, c2, d2, nn, rr, cc, dd);
                            assert(prev@[prev.flat(0, r2, c2, d2)] == src@[src.flat(0, r2, c2, d2)]);
                            assert(self.flat(0, r2, c2, d2) == prev.flat(0, r2, c2, d2));
                        }
                        assert forall|c2: int, d2: int|
                            self.interior_cell(r as int, c2, d2) && c2 < c
                            implies self@[#[trigger] self.flat(0, r as int, c2, d2)]
                                == src@[src.flat(0, r as int, c2, d2)]
                        by {
                            lemma_flat4_lex(0, r as int, c2, d2, 0, r as int, c as int, d as int,
                                nn, rr, cc, dd);
                            lemma_flat4_bound(0, r as int, c2, d2, nn, rr, cc, dd);
                            assert(prev@[prev.flat(0, r as int, c2, d2)]
                                == src@[src.flat(0, r as int, c2, d2)]);
                            assert(self.flat(0, r as int, c2, d2) == prev.flat(0, r as int, c2, d2));
                        }
                        assert forall|d2: int|
                            self.interior_cell(r as int, c as int, d2) && d2 <= d
                            implies self@[#[trigger] self.flat(0, r as int, c as int, d2)]
                                == src@[src.flat(0, r as int, c as int, d2)]
                        by {
                            if d2 < d {
                                lemma_flat4_lex(0, r as int, c as int, d2,
                                    0, r as int, c as int, d as int, nn, rr, cc, dd);
                                lemma_flat4_bound(0, r as int, c as int, d2, nn, rr, cc, dd);
                                assert(prev@[prev.flat(0, r as int, c as int, d2)]
                                    == src@[src.flat(0, r as int, c as int, d2)]);
                                assert(self.flat(0, r as int, c as int, d2)
                                    == prev.flat(0, r as int, c as int, d2));
                            }
                        }
                        assert forall|n2: int, r2: int, c2: int, d2: int|
                            0 <= n2 < self.nums && 0 <= r2 < self.rows && 0 <= c2 < self.cols
                                && 0 <= d2 < self.deps
                                && !(n2 == 0 && self.interior_cell(r2, c2, d2))
                            implies self@[#[trigger] self.flat(n2, r2, c2, d2)]
                                == old(self)@[old(self).flat(n2, r2, c2, d2)]
                        by {
                            if n2 == 0 && r2 == r && c2 == c && d2 == d {
                                assert(false);
                            } else if n2 == 0 && (r2 < r || (r2 == r && c2 < c)
                                || (r2 == r && c2 == c && d2 < d)) {
                                lemma_flat4_lex(n2, r2, c2, d2, 0, r as int, c as int, d as int,
                                    nn, rr, cc, dd);
                            } else {
                                lemma_flat4_lex(0, r as int, c as int, d as int, n2, r2, c2, d2,
                                    nn, rr, cc, dd);
                            }
                            lemma_flat4_bound(n2, r2, c2, d2, nn, rr, cc, dd);
                            assert(prev@[prev.flat(n2, r2, c2, d2)]
                                == old(self)@[old(self).flat(n2, r2, c2, d2)]);
                            assert(self.flat(n2, r2, c2, d2) == prev.flat(n2, r2, c2, d2));
                        }
                    }
                    d = d + 1;
                }
                c = c + 1;
            }
            r = r + 1;
        }
    }

    /// Sets every cell of plane `n` to the one constant bit pattern
    /// `value`, leaving every other plane untouched. This is how the
    /// coefficient planes are initialized, each to a fixed scalar.
    pub fn set_values(&mut self, n: usize, value: u64)
        requires
            old(self).wf(),
            n < old(self).nums,
        ensures
            final(self).nums == old(self).nums,
            final(self).rows == old(self).rows,
            final(self).cols == old(self).cols,
            final(self).deps == old(self).deps,
            final(self).wf(),
            forall|r: int, c: int, d: int|
                0 <= r < final(self).rows && 0 <= c < final(self).cols
                    && 0 <= d < final(self).deps
                    ==> final(self)@[#[trigger] final(self).flat(n as int, r, c, d)] == value,
            forall|n2: int, r: int, c: int, d: int|
                0 <= n2 < final(self).nums && n2 != n && 0 <= r < final(self).rows
                    && 0 <= c < final(self).cols && 0 <= d < final(self).deps
                    ==> final(self)@[#[trigger] final(self).flat(n2, r, c, d)]
                        == old(self)@[old(self).flat(n2, r, c, d)],
    {
        let mut row_values: Vec<u64> = Vec::new();
        while row_values.len() < self.rows
            invariant
                row_values@.len() <= self.rows,
                forall|i: int| 0 <= i < row_values@.len() ==> row_values@[i] == value,
            decreases self.rows - row_values@.len(),
        {
            row_values.push(value);
        }
        self.fill_plane_rows(n, &row_values);
    }

    /// Fills plane `0` row by row, exactly as [`Matrix::fill_plane_rows`]
    /// with plane `0`: the row-only initialization of the primary field in
    /// the coefficient-bearing configuration.
    pub fn init_matrix(&mut self, row_values: &Vec<u64>)
        requires
            old(self).wf(),
            0 < old(self).nums,
            row_values@.len() == old(self).rows,
        ensures
            final(self).nums == old(self).nums,
            final(self).rows == old(self).rows,
            final(self).cols == old(self).cols,
            final(self).deps == old(self).deps,
            final(self).wf(),
            forall|r: int, c: int, d: int|
                0 <= r < final(self).rows && 0 <= c < final(self).cols
                    && 0 <= d < final(self).deps
                    ==> final(self)@[#[trigger] final(self).flat(0, r, c, d)] == row_values@[r],
            forall|n2: int, r: int, c: int, d: int|
                1 <= n2 < final(self).nums && 0 <= r < final(self).rows
                    && 0 <= c < final(self).cols && 0 <= d < final(self).deps
                    ==> final(self)@[#[trigger] final(self).flat(n2, r, c, d)]
                        == old(self)@[old(self).flat(n2, r, c, d)],
    {
        self.fill_plane_rows(0, row_values);
    }
}

} // verus!
