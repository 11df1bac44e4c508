//! End-to-end relaxation runs: the schedule, decomposition, storage and
//! boundary resolution come from the library; the per-cell double-precision
//! stencil arithmetic is done here, mirroring how a driver uses the parts.

use himeno::decomp::{static_range, DynamicCounter};
use himeno::driver::{sweep_plan, DoubleBuffer};
use himeno::field::{boundary_init_fraction, BoundaryRef, Matrix};
use himeno::tensor::Matrix as Tensor;

fn resolve(b: BoundaryRef) -> f64 {
    match b {
        BoundaryRef::Zero => 0.0,
        BoundaryRef::One => 1.0,
        BoundaryRef::Fraction { num, den } => num as f64 / den as f64,
        BoundaryRef::Stored { bits } => f64::from_bits(bits),
    }
}

/// The plain 6-neighbor kernel: mean of the face neighbors minus the cell.
fn stencil_value(src: &Matrix, r: usize, c: usize, d: usize) -> f64 {
    let (n0, n1, n2, n3, n4, n5) = src.face_neighbors(r, c, d);
    (resolve(n0) + resolve(n1) + resolve(n2) + resolve(n3) + resolve(n4) + resolve(n5)) / 6.0
        - f64::from_bits(src.at(r, c, d))
}

fn process_row(src: &Matrix, dst: &mut Matrix, r: usize, is_final: bool, partial: &mut f64) {
    for c in 0..src.cols {
        for d in 0..src.deps {
            let value = stencil_value(src, r, c, d);
            if is_final {
                *partial += value * value;
            } else {
                let center = f64::from_bits(src.at(r, c, d));
                dst.set_at(r, c, d, (center + 0.8 * value).to_bits());
            }
        }
    }
}

/// A field seeded with the boundary-field policy `r^2 / (rows - 1)^2`.
fn boundary_field(rows: usize, cols: usize, deps: usize) -> Matrix {
    let mut m = Matrix::new(rows, cols, deps);
    let mut row_bits = Vec::new();
    for r in 0..rows {
        let (num, den) = boundary_init_fraction(r, rows);
        row_bits.push((num as f64 / den as f64).to_bits());
    }
    m.init_matrix(&row_bits);
    m
}

/// The same kernel driven through the double-buffered driver pair: reads
/// resolve against the source buffer, writes land in the destination.
fn db_stencil_value(db: &DoubleBuffer, r: usize, c: usize, d: usize) -> f64 {
    let ri = r as i64;
    let ci = c as i64;
    let di = d as i64;
    (resolve(db.read(ri + 1, ci, di)) + resolve(db.read(ri, ci + 1, di))
        + resolve(db.read(ri, ci, di + 1)) + resolve(db.read(ri - 1, ci, di))
        + resolve(db.read(ri, ci - 1, di)) + resolve(db.read(ri, ci, di - 1)))
        / 6.0
        - resolve(db.read(ri, ci, di))
}

fn db_process_row(db: &mut DoubleBuffer, r: usize, is_final: bool, partial: &mut f64) {
    let cols = db.first.cols;
    let deps = db.first.deps;
    for c in 0..cols {
        for d in 0..deps {
            let value = db_stencil_value(db, r, c, d);
            if is_final {
                *partial += value * value;
            } else {
                let center = resolve(db.read(r as i64, c as i64, d as i64));
                db.write(r, c, d, (center + 0.8 * value).to_bits());
            }
        }
    }
}

/// A run under the static-range policy with `workers` workers, each worker's
/// rows processed in order and the partial residuals summed in worker order.
/// The stored rows are the interior of a conceptually two-rows-larger field,
/// so worker ranges over `rows + 2` full rows map to stored rows by a shift
/// of one.
fn run_static(rows: usize, cols: usize, deps: usize, sweeps: u32, workers: usize) -> f64 {
    let mut db = DoubleBuffer::new(boundary_field(rows, cols, deps));
    let mut gosa = 0.0;
    for step in sweep_plan(sweeps) {
        let mut partials = vec![0.0f64; workers];
        for (w, partial) in partials.iter_mut().enumerate() {
            let (lo, hi) = static_range(w, workers, rows + 2);
            for full_row in lo..hi {
                db_process_row(&mut db, full_row - 1, step.is_final, partial);
            }
        }
        if step.is_final {
            for p in partials {
                gosa += p;
            }
        } else {
            db.swap();
        }
    }
    gosa
}

/// A run under the dynamic claim-counter policy, workers simulated
/// round-robin so the partial residuals group differently than under the
/// static policy.
fn run_dynamic(rows: usize, cols: usize, deps: usize, sweeps: u32, workers: usize) -> f64 {
    let mut first = boundary_field(rows, cols, deps);
    let mut second = Matrix::new_from_other(&first);
    let mut gosa = 0.0;
    for step in sweep_plan(sweeps) {
        let mut partials = vec![0.0f64; workers];
        let (src, dst): (&Matrix, &mut Matrix) = if step.read_first {
            (&first, &mut second)
        } else {
            (&second, &mut first)
        };
        let mut counter = DynamicCounter::new(rows + 2);
        let mut active = true;
        while active {
            active = false;
            for w in 0..workers {
                if let Some(full_row) = counter.claim() {
                    active = true;
                    process_row(src, dst, full_row - 1, step.is_final, &mut partials[w]);
                }
            }
        }
        if step.is_final {
            for p in partials {
                gosa += p;
            }
        }
    }
    gosa
}

/// The sequential reference: one plain loop over the stored rows in order,
/// one accumulator, no decomposition machinery.
fn run_reference(rows: usize, cols: usize, deps: usize, sweeps: u32) -> f64 {
    let mut first = boundary_field(rows, cols, deps);
    let mut second = Matrix::new_from_other(&first);
    let mut gosa = 0.0;
    for step in sweep_plan(sweeps) {
        let (src, dst): (&Matrix, &mut Matrix) = if step.read_first {
            (&first, &mut second)
        } else {
            (&second, &mut first)
        };
        let mut local = 0.0f64;
        for r in 0..rows {
            process_row(src, dst, r, step.is_final, &mut local);
        }
        if step.is_final {
            gosa += local;
        }
    }
    gosa
}

/// The generalized 19-point coefficient kernel over full-extent tensors,
/// interior cells only, writing the work buffer and copying it back each
/// sweep; returns the last sweep's residual.
#[allow(clippy::too_many_arguments)]
fn jacobi_tensor(
    nn: u32,
    a: &Tensor,
    b: &Tensor,
    c: &Tensor,
    p: &mut Tensor,
    bnd: &Tensor,
    wrk1: &Tensor,
    wrk2: &mut Tensor,
) -> f64 {
    let omega = 0.8;
    let imax = p.rows - 1;
    let jmax = p.cols - 1;
    let kmax = p.deps - 1;
    let mut gosa = 0.0;
    let g = |m: &Tensor, n: usize, i: usize, j: usize, k: usize| f64::from_bits(m.at(n, i, j, k));
    for _n in 0..nn {
        gosa = 0.0;
        for i in 1..imax {
            for j in 1..jmax {
                for k in 1..kmax {
                    let s0 = g(a, 0, i, j, k) * g(p, 0, i + 1, j, k)
                        + g(a, 1, i, j, k) * g(p, 0, i, j + 1, k)
                        + g(a, 2, i, j, k) * g(p, 0, i, j, k + 1)
                        + g(b, 0, i, j, k)
                            * (g(p, 0, i + 1, j + 1, k) - g(p, 0, i + 1, j - 1, k)
                                - g(p, 0, i - 1, j + 1, k) + g(p, 0, i - 1, j - 1, k))
                        + g(b, 1, i, j, k)
                            * (g(p, 0, i, j + 1, k + 1) - g(p, 0, i, j - 1, k + 1)
                                - g(p, 0, i, j + 1, k - 1) + g(p, 0, i, j - 1, k - 1))
                        + g(b, 2, i, j, k)
                            * (g(p, 0, i + 1, j, k + 1) - g(p, 0, i - 1, j, k + 1)
                                - g(p, 0, i + 1, j, k - 1) + g(p, 0, i - 1, j, k - 1))
                        + g(c, 0, i, j, k) * g(p, 0, i - 1, j, k)
                        + g(c, 1, i, j, k) * g(p, 0, i, j - 1, k)
                        + g(c, 2, i, j, k) * g(p, 0, i, j, k - 1)
                        + g(wrk1, 0, i, j, k);
                    let ss = (s0 * g(a, 3, i, j, k) - g(p, 0, i, j, k)) * g(bnd, 0, i, j, k);
                    gosa += ss * ss;
                    wrk2.set_at(0, i, j, k, (g(p, 0, i, j, k) + omega * ss).to_bits());
                }
            }
        }
        p.copy_interior_from(wrk2);
    }
    gosa
}

fn constant_tensor_run(v: f64, dims: usize, sweeps: u32) -> f64 {
    let n = dims;
    let mut p = Tensor::new(1, n, n, n);
    let mut bnd = Tensor::new(1, n, n, n);
    let mut wrk1 = Tensor::new(1, n, n, n);
    let mut wrk2 = Tensor::new(1, n, n, n);
    let mut a = Tensor::new(4, n, n, n);
    let mut b = Tensor::new(3, n, n, n);
    let mut c = Tensor::new(3, n, n, n);
    p.set_values(0, v.to_bits());
    bnd.set_values(0, 1.0f64.to_bits());
    wrk1.set_values(0, 0.0f64.to_bits());
    wrk2.set_values(0, 0.0f64.to_bits());
    for k in 0..3 {
        a.set_values(k, 1.0f64.to_bits());
        b.set_values(k, 0.0f64.to_bits());
        c.set_values(k, 1.0f64.to_bits());
    }
    a.set_values(3, (1.0f64 / 6.0).to_bits());
    jacobi_tensor(sweeps, &a, &b, &c, &mut p, &bnd, &wrk1, &mut wrk2)
}

/// Static and dynamic decomposition agree up to summation-order rounding.
#[test]
fn static_and_dynamic_residuals_agree() {
    let gs = run_static(10, 10, 10, 3, 3);
    let gd = run_dynamic(10, 10, 10, 3, 3);
    let tol = 1e-12 * (1.0 + gs.abs());
    assert!((gs - gd).abs() <= tol, "static {gs:e} vs dynamic {gd:e}");
}

/// Different worker counts agree up to summation-order rounding too.
#[test]
fn worker_count_changes_only_rounding() {
    let g1 = run_static(10, 10, 10, 3, 1);
    let g4 = run_static(10, 10, 10, 3, 4);
    let tol = 1e-12 * (1.0 + g1.abs());
    assert!((g1 - g4).abs() <= tol, "1 worker {g1:e} vs 4 workers {g4:e}");
}

/// One worker reproduces the sequential reference bit for bit, under
/// either policy: one summation order, no partition boundary effects.
#[test]
fn single_worker_matches_reference_exactly() {
    let gr = run_reference(8, 8, 8, 4);
    let gs = run_static(8, 8, 8, 4, 1);
    let gd = run_dynamic(8, 8, 8, 4, 1);
    assert_eq!(gs.to_bits(), gr.to_bits());
    assert_eq!(gd.to_bits(), gr.to_bits());
}

/// Zero sweeps: no work, residual exactly `0.0`.
#[test]
fn zero_sweeps_zero_residual() {
    let g = run_static(5, 5, 5, 0, 2);
    assert_eq!(g.to_bits(), 0.0f64.to_bits());
}

/// A constant field at the stencil's fixed point stays there: the residual
/// is exactly `0.0` after any number of sweeps of the coefficient kernel.
#[test]
fn fixed_point_field_has_zero_residual() {
    assert_eq!(constant_tensor_run(0.25, 6, 1), 0.0);
    assert_eq!(constant_tensor_run(0.25, 6, 4), 0.0);
    assert_eq!(constant_tensor_run(0.5, 5, 3), 0.0);
}

/// Golden single-worker baseline: 33x33x33 cells, five sweeps, plain
/// 6-neighbor kernel, boundary-field initialization.
#[test]
fn golden_residual_33_cubed_5_sweeps() {
    let g = run_static(33, 33, 33, 5, 1);
    assert_eq!(g.to_bits(), 4584686782476168696u64);
    assert!((g - 3.14051662479321592e-2).abs() < 1e-16);
}
