//! The double-buffered iteration schedule.
//!
//! A run executes exactly `sweep_count` sweeps. Each sweep reads every cell
//! from one buffer and writes updated interior cells into the other, except
//! the final sweep, which only accumulates the residual and writes nothing
//! (its output would be discarded). After every non-final sweep the two
//! buffers swap roles, so sweep `n` reads the first buffer exactly when `n`
//! is even. The schedule fixes, per sweep, which buffer is read and whether
//! the sweep is final; the floating-point work of a sweep is driven off
//! this schedule by the caller.

use vstd::prelude::*;

use crate::field::BoundaryRef;
use crate::field::Matrix;

verus! {

/// One entry of a run's schedule.
pub struct SweepStep {
    /// The sweep's position in the run, from `0`.
    pub index: u32,
    /// Whether this is the run's last sweep: it accumulates the residual
    /// and writes no cell.
    pub is_final: bool,
    /// Whether this sweep reads the first buffer (and, unless final,
    /// writes the second); otherwise the roles are reversed.
    pub read_first: bool,
}

/// Whether sweep `n` is the last one of a run of `count` sweeps.
pub fn is_final_sweep(n: u32, count: u32) -> (r: bool)
    requires
        n < count,
    ensures
        r == (n == count - 1),
{
    n == count - 1
}

/// The roles of the two field buffers, swapped after every non-final
/// sweep; no cell is ever copied between the buffers.
pub struct BufferRoles {
    /// The first buffer is currently the read source.
    pub cur_is_first: bool,
}

impl BufferRoles {
    /// At the start of a run the first buffer is the read source.
    pub fn new() -> (roles: BufferRoles)
        ensures
            roles.cur_is_first,
    {
        BufferRoles { cur_is_first: true }
    }

    /// Exchanges the two buffers' roles.
    pub fn swap(&mut self)
        ensures
            final(self).cur_is_first == !old(self).cur_is_first,
    {
        self.cur_is_first = !self.cur_is_first;
    }
}

/// The iteration driver's pair of field buffers. One buffer is the sweep's
/// read source, the other its write target; after a non-final sweep the
/// two trade roles, so last sweep's output becomes this sweep's input
/// without copying a cell.
pub struct DoubleBuffer {
    pub first: Matrix,
    pub second: Matrix,
    pub roles: BufferRoles,
}

impl DoubleBuffer {
    /// The buffer currently read from.
    pub open spec fn cur(self) -> Matrix {
        if self.roles.cur_is_first {
            self.first
        } else {
            self.second
        }
    }

    /// The buffer currently written to.
    pub open spec fn nxt(self) -> Matrix {
        if self.roles.cur_is_first {
            self.second
        } else {
            self.first
        }
    }

    /// Well-formed: two well-formed buffers of identical shape.
    pub open spec fn wf(self) -> bool {
        &&& self.first.wf()
        &&& self.second.wf()
        &&& self.first.rows == self.second.rows
        &&& self.first.cols == self.second.cols
        &&& self.first.deps == self.second.deps
    }

    /// Pairs an initialized field with a fresh alternate buffer holding
    /// the same cells; the given field starts as the read source.
    pub fn new(initial: Matrix) -> (db: DoubleBuffer)
        requires
            initial.wf(),
        ensures
            db.wf(),
            db.roles.cur_is_first,
            db.cur() == initial,
            db.nxt()@ == initial@,
            db.nxt().rows == initial.rows,
            db.nxt().cols == initial.cols,
            db.nxt().deps == initial.deps,
    {
        let second = Matrix::new_from_other(&initial);
        DoubleBuffer { first: initial, second, roles: BufferRoles::new() }
    }

    /// Boundary-extrapolated read from the current source buffer.
    pub fn read(&self, r: i64, c: i64, d: i64) -> (v: BoundaryRef)
        requires
            self.wf(),
            -1 <= r <= self.cur().rows,
            -1 <= c <= self.cur().cols,
            -1 <= d <= self.cur().deps,
        ensures
            v == self.cur().boundary_spec(r as int, c as int, d as int),
    {
        if self.roles.cur_is_first {
            self.first.get(r, c, d)
        } else {
            self.second.get(r, c, d)
        }
    }

    /// Stores `bits` in the destination buffer's cell `(r, c, d)`. The
    /// source buffer — which other workers are still reading — is not
    /// touched, and the roles do not change.
    pub fn write(&mut self, r: usize, c: usize, d: usize, bits: u64)
        requires
            old(self).wf(),
            r < old(self).nxt().rows,
            c < old(self).nxt().cols,
            d < old(self).nxt().deps,
        ensures
            final(self).wf(),
            final(self).roles == old(self).roles,
            final(self).cur() == old(self).cur(),
            final(self).nxt().rows == old(self).nxt().rows,
            final(self).nxt().cols == old(self).nxt().cols,
            final(self).nxt().deps == old(self).nxt().deps,
            final(self).nxt()@ == old(self).nxt()@.update(
                old(self).nxt().flat(r as int, c as int, d as int), bits),
    {
        if self.roles.cur_is_first {
            self.second.set_at(r, c, d, bits);
        } else {
            self.first.set_at(r, c, d, bits);
        }
    }

    /// Exchanges the buffers' roles; no cell moves.
    pub fn swap(&mut self)
        ensures
            final(self).first == old(self).first,
            final(self).second == old(self).second,
            final(self).cur() == old(self).nxt(),
            final(self).nxt() == old(self).cur(),
    {
        self.roles.swap();
    }
}

/// The read-source flag after `n` role swaps: the first buffer is the
/// source at the start of a run, and each swap flips the roles.
pub open spec fn cur_is_first_after(n: nat) -> bool
    decreases n,
{
    if n == 0 {
        true
    } else {
        !cur_is_first_after((n - 1) as nat)
    }
}

/// Swapping roles after every non-final sweep makes sweep `n` read the
/// first buffer exactly when `n` is even — which is what the schedule's
/// `read_first` flag for step `n` says. A driver that follows the swaps
/// and one that follows the schedule read the same buffer every sweep.
pub proof fn lemma_swap_parity_matches_schedule(n: nat)
    ensures
        cur_is_first_after(n) == (n % 2 == 0),
    decreases n,
{
    if n > 0 {
        lemma_swap_parity_matches_schedule((n - 1) as nat);
    }
}

/// The complete schedule of a run of `sweep_count` sweeps: one step per
/// sweep, in order; exactly the last step is final; the read buffer
/// alternates starting from the first. A run of zero sweeps has an empty
/// schedule — nothing is visited and no residual is ever accumulated, so
/// such a run returns the initial zero residual.
pub fn sweep_plan(sweep_count: u32) -> (plan: Vec<SweepStep>)
    ensures
        plan@.len() == sweep_count,
        forall|n: int|
            0 <= n < sweep_count ==> (#[trigger] plan@[n]).index == n,
        forall|n: int|
            0 <= n < sweep_count ==> (#[trigger] plan@[n]).is_final == (n == sweep_count - 1),
        forall|n: int|
            0 <= n < sweep_count ==> (#[trigger] plan@[n]).read_first == (n % 2 == 0),
{
    let mut plan: Vec<SweepStep> = Vec::new();
    let mut n: u32 = 0;
    while n < sweep_count
        invariant
            n <= sweep_count,
            plan@.len() == n,
            forall|k: int| 0 <= k < n ==> (#[trigger] plan@[k]).index == k,
            forall|k: int|
                0 <= k < n ==> (#[trigger] plan@[k]).is_final == (k == sweep_count - 1),
            forall|k: int| 0 <= k < n ==> (#[trigger] plan@[k]).read_first == (k % 2 == 0),
        decreases sweep_count - n,
    {
        plan.push(SweepStep {
            index: n,
            is_final: n == sweep_count - 1,
            read_first: n % 2 == 0,
        });
        n = n + 1;
    }
    plan
}

} // verus!
