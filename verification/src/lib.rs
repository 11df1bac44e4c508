//! Jacobi relaxation on a dense 3-D scalar field: the field storage, the
//! boundary-extrapolating accessor, the two row-decomposition policies
//! (static contiguous ranges and a dynamic claim counter), and the
//! double-buffered sweep schedule.
//!
//! Cell values are IEEE-754 doubles carried as raw 64-bit patterns; the
//! verified layer pins down which pattern sits in which cell, which rows
//! each worker updates, and how the two buffers trade roles across sweeps.
//! The per-cell floating-point stencil arithmetic itself is left to the
//! caller that drives a run off these parts.

pub mod decomp;
pub mod driver;
pub mod field;
pub mod tensor;
