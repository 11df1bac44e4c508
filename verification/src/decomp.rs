//! Domain decomposition: assigning interior rows to workers for one sweep.
//!
//! A sweep updates the interior rows `1 .. rows - 1` of the outer dimension;
//! row `0` and row `rows - 1` are boundary rows and are never assigned. Two
//! interchangeable policies split that work among `t >= 1` workers:
//!
//! - the *static range* policy gives worker `i` the contiguous half-open
//!   range `[1 + i*(rows-2)/t, 1 + (i+1)*(rows-2)/t)`, the last worker's
//!   range extended to `rows - 1` to absorb the rounding remainder;
//! - the *dynamic claim counter* policy hands out single rows in increasing
//!   order from a shared counter until the interior is exhausted.
//!
//! The proofs here show that either policy assigns every interior row to
//! exactly one worker, which is what makes the unsynchronized disjoint
//! writes of a sweep safe.

use vstd::prelude::*;
use vstd::arithmetic::div_mod::{
    lemma_div_basics, lemma_div_is_ordered, lemma_div_multiples_vanish,
};
use vstd::arithmetic::mul::{lemma_mul_inequality, lemma_mul_nonnegative};

verus! {

/// First row of worker `i`'s static range.
pub open spec fn static_lo(i: int, t: int, rows: int) -> int {
    1 + (i * (rows - 2)) / t
}

/// One past the last row of worker `i`'s static range.
pub open spec fn static_hi(i: int, t: int, rows: int) -> int {
    if i == t - 1 {
        rows - 1
    } else {
        1 + ((i + 1) * (rows - 2)) / t
    }
}

/// Worker `i`'s static range contains row `r`.
pub open spec fn static_covers(r: int, i: int, t: int, rows: int) -> bool {
    static_lo(i, t, rows) <= r < static_hi(i, t, rows)
}

/// Row `r` is an interior row of a field with `rows` rows: neither the
/// first nor the last row, which hold boundary values and are never
/// updated.
pub open spec fn interior_row(r: int, rows: int) -> bool {
    1 <= r < rows - 1
}

/// A product of two values below `2^32` fits in a `u64`.
proof fn lemma_mul_fits(a: int, b: int)
    by (nonlinear_arith)
    requires
        0 <= a < 0x1_0000_0000,
        0 <= b < 0x1_0000_0000,
    ensures
        0 <= a * b <= 0xffff_ffff_ffff_ffff,
{
}

/// The static range starts are between `1` and `rows - 1`.
pub proof fn lemma_static_lo_bounds(i: int, t: int, rows: int)
    requires
        1 <= t,
        0 <= i <= t,
        2 <= rows,
    ensures
        1 <= static_lo(i, t, rows) <= rows - 1,
{
    let n = rows - 2;
    lemma_mul_nonnegative(i, n);
    lemma_div_basics(t);
    lemma_div_is_ordered(0, i * n, t);
    lemma_mul_inequality(i, t, n);
    lemma_div_is_ordered(i * n, t * n, t);
    lemma_div_multiples_vanish(n, t);
}

/// The static range starts are nondecreasing in the worker index.
pub proof fn lemma_static_lo_monotone(i: int, j: int, t: int, rows: int)
    requires
        1 <= t,
        0 <= i <= j <= t,
        2 <= rows,
    ensures
        static_lo(i, t, rows) <= static_lo(j, t, rows),
{
    lemma_mul_inequality(i, j, rows - 2);
    lemma_div_is_ordered(i * (rows - 2), j * (rows - 2), t);
}

/// Each worker's static range is a well-formed (possibly empty) interval
/// inside the interior `[1, rows - 1)`.
pub proof fn lemma_static_range_wf(i: int, t: int, rows: int)
    requires
        1 <= t,
        0 <= i < t,
        2 <= rows,
    ensures
        1 <= static_lo(i, t, rows),
        static_lo(i, t, rows) <= static_hi(i, t, rows),
        static_hi(i, t, rows) <= rows - 1,
{
    lemma_static_lo_bounds(i, t, rows);
    if i < t - 1 {
        lemma_static_lo_monotone(i, i + 1, t, rows);
        lemma_static_lo_bounds(i + 1, t, rows);
    }
}

/// Where the union of the first `k` static ranges ends: the interior rows
/// below this bound are exactly the ones assigned to workers `0 .. k`.
pub open spec fn prefix_end(k: int, t: int, rows: int) -> int {
    if k == t {
        rows - 1
    } else {
        static_lo(k, t, rows)
    }
}

/// Every row in `[1, prefix_end(k))` lies in one of the first `k` static
/// ranges.
proof fn lemma_static_find_worker(r: int, k: int, t: int, rows: int)
    requires
        1 <= t,
        0 <= k <= t,
        2 <= rows,
        1 <= r < prefix_end(k, t, rows),
    ensures
        exists|i: int| 0 <= i < k && #[trigger] static_covers(r, i, t, rows),
    decreases k,
{
    if k == 0 {
        lemma_div_basics(t);
        assert(0 * (rows - 2) == 0int);
        assert(false);
    } else if r < prefix_end(k - 1, t, rows) {
        lemma_static_find_worker(r, k - 1, t, rows);
        let i = choose|i: int| 0 <= i < k - 1 && #[trigger] static_covers(r, i, t, rows);
        assert(0 <= i < k && static_covers(r, i, t, rows));
    } else {
        assert(static_covers(r, k - 1, t, rows));
    }
}

/// Exactly-once coverage of the static policy: every interior row lies in
/// some worker's range, distinct workers' ranges are disjoint, and every
/// range stays inside the interior. Together: each interior row is
/// assigned to exactly one worker, and boundary rows to none.
pub proof fn lemma_static_partition_covers(t: int, rows: int)
    requires
        1 <= t,
        2 <= rows,
    ensures
        forall|r: int|
            #[trigger] interior_row(r, rows)
                ==> exists|i: int| 0 <= i < t && #[trigger] static_covers(r, i, t, rows),
        forall|r: int, i: int|
            0 <= i < t && #[trigger] static_covers(r, i, t, rows) ==> interior_row(r, rows),
        forall|r: int, i: int, j: int|
            0 <= i < j < t && #[trigger] static_covers(r, i, t, rows)
                ==> !(#[trigger] static_covers(r, j, t, rows)),
        forall|i: int|
            0 <= i < t
                ==> 1 <= static_lo(i, t, rows)
                    && static_lo(i, t, rows) <= static_hi(i, t, rows)
                    && static_hi(i, t, rows) <= rows - 1,
{
    assert forall|r: int| #[trigger] interior_row(r, rows)
        implies exists|i: int| 0 <= i < t && #[trigger] static_covers(r, i, t, rows)
    by {
        lemma_static_find_worker(r, t, t, rows);
    }
    assert forall|r: int, i: int|
        0 <= i < t && #[trigger] static_covers(r, i, t, rows)
        implies interior_row(r, rows)
    by {
        lemma_static_range_wf(i, t, rows);
    }
    assert forall|r: int, i: int, j: int|
        0 <= i < j < t && #[trigger] static_covers(r, i, t, rows)
        implies !(#[trigger] static_covers(r, j, t, rows))
    by {
        lemma_static_lo_monotone(i + 1, j, t, rows);
    }
    assert forall|i: int| 0 <= i < t
        implies 1 <= static_lo(i, t, rows)
            && static_lo(i, t, rows) <= static_hi(i, t, rows)
            && static_hi(i, t, rows) <= rows - 1
    by {
        lemma_static_range_wf(i, t, rows);
    }
}

/// Worker `i`'s static range of interior rows, as the half-open pair
/// `(first row, one past the last row)`.
pub fn static_range(i: usize, t: usize, rows: usize) -> (range: (usize, usize))
    requires
        1 <= t,
        i < t,
        2 <= rows,
        t < 0x1_0000_0000,
        rows < 0x1_0000_0000,
    ensures
        range.0 == static_lo(i as int, t as int, rows as int),
        range.1 == static_hi(i as int, t as int, rows as int),
        1 <= range.0 <= range.1 <= rows - 1,
{
    proof {
        lemma_static_range_wf(i as int, t as int, rows as int);
        lemma_mul_fits(i as int, rows - 2);
        lemma_mul_fits(i as int + 1, rows - 2);
        lemma_static_lo_bounds(i as int, t as int, rows as int);
        lemma_static_lo_bounds(i as int + 1, t as int, rows as int);
    }
    let n: u64 = rows as u64 - 2;
    let lo: u64 = 1 + (i as u64 * n) / t as u64;
    let hi: u64 = if i == t - 1 {
        rows as u64 - 1
    } else {
        1 + ((i as u64 + 1) * n) / t as u64
    };
    (lo as usize, hi as usize)
}

/// The dynamic policy's shared claim counter: hands out the interior rows
/// `next, next + 1, ...` up to (excluding) `limit`, one per claim.
pub struct DynamicCounter {
    pub next: usize,
    pub limit: usize,
}

impl DynamicCounter {
    /// Well-formed: the counter never runs past its limit.
    pub open spec fn wf(self) -> bool {
        self.next <= self.limit
    }

    /// A fresh counter over the interior rows `[1, rows - 1)` of a field
    /// with `rows` rows.
    pub fn new(rows: usize) -> (c: DynamicCounter)
        requires
            2 <= rows,
        ensures
            c.wf(),
            c.next == 1,
            c.limit == rows - 1,
    {
        DynamicCounter { next: 1, limit: rows - 1 }
    }

    /// Claims the next unclaimed row, or reports exhaustion. Each interior
    /// row is handed out exactly once over the counter's lifetime, in
    /// increasing order.
    pub fn claim(&mut self) -> (r: Option<usize>)
        requires
            old(self).wf(),
        ensures
            final(self).wf(),
            final(self).limit == old(self).limit,
            old(self).next < old(self).limit ==> r == Some(old(self).next)
                && final(self).next == old(self).next + 1,
            old(self).next >= old(self).limit ==> r is None
                && final(self).next == old(self).next,
    {
        if self.next < self.limit {
            let r = self.next;
            self.next = self.next + 1;
            Some(r)
        } else {
            None
        }
    }

    /// Drains the counter: the claimed rows are exactly the remaining
    /// interior rows, in increasing order with no gap and no repeat.
    pub fn claim_all(&mut self) -> (claimed: Vec<usize>)
        requires
            old(self).wf(),
        ensures
            final(self).wf(),
            final(self).limit == old(self).limit,
            final(self).next == final(self).limit,
            claimed@.len() == old(self).limit - old(self).next,
            forall|k: int| 0 <= k < claimed@.len() ==> claimed@[k] == old(self).next + k,
    {
        let mut claimed: Vec<usize> = Vec::new();
        while self.next < self.limit
            invariant
                self.wf(),
                self.limit == old(self).limit,
                old(self).next <= self.next,
                claimed@.len() == self.next - old(self).next,
                forall|k: int| 0 <= k < claimed@.len() ==> claimed@[k] == old(self).next + k,
            decreases self.limit - self.next,
        {
            let r = self.claim();
            match r {
                Some(row) => {
                    claimed.push(row);
                }
                None => {
                    proof {
                        assert(false);
                    }
                }
            }
        }
        claimed
    }
}

/// The two policies agree on the work: the rows covered by some static
/// range are exactly the interior rows `1 <= r < rows - 1`, and those are
/// exactly the rows a fresh dynamic counter hands out (`1 + k` for the
/// `k`-th claim, `rows - 2` claims in all). The residual of a sweep is a
/// sum over per-row contributions, so under either policy the same
/// contributions are summed; only their grouping into workers differs.
pub proof fn lemma_policies_cover_same_rows(t: int, rows: int)
    requires
        1 <= t,
        2 <= rows,
    ensures
        forall|r: int|
            #[trigger] interior_row(r, rows)
                ==> exists|i: int| 0 <= i < t && #[trigger] static_covers(r, i, t, rows),
        forall|r: int, i: int|
            0 <= i < t && #[trigger] static_covers(r, i, t, rows) ==> interior_row(r, rows),
        forall|k: int| 0 <= k < rows - 2 ==> #[trigger] interior_row(1 + k, rows),
        forall|r: int| #[trigger] interior_row(r, rows) ==> 0 <= r - 1 < rows - 2,
{
    lemma_static_partition_covers(t, rows);
}

/// With a single worker the static policy degenerates to the sequential
/// reference traversal: worker `0` receives the whole interior
/// `[1, rows - 1)` as one range, visited in the same increasing row order
/// in which the dynamic counter hands rows out. With one summation order
/// there is nothing left to reorder, which is why a single-worker run
/// reproduces the sequential result exactly.
pub proof fn lemma_single_worker_is_sequential(rows: int)
    requires
        2 <= rows,
    ensures
        static_lo(0, 1, rows) == 1,
        static_hi(0, 1, rows) == rows - 1,
{
    lemma_div_basics(1);
    assert(0 * (rows - 2) == 0int);
    assert(static_lo(0, 1, rows) == 1 + 0int / 1);
}

} // verus!
