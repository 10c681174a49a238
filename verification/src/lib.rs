//! A hydrological model-calibration engine built around the Shuffled Complex
//! Evolution (SCE-UA) global optimizer.
//!
//! Scalar values (parameters, objective values, forcing series) are IEEE-754
//! double-precision numbers. Floating-point arithmetic cannot be reasoned
//! about here, so every scalar is carried as its 64-bit encoding (the `u64`
//! produced by `f64::to_bits`). Everything discrete about the optimizer is
//! implemented and verified in this crate: ordering and comparison of encoded
//! scalars, population bookkeeping, partitioning into complexes, simplex
//! member selection, sorting, convergence decisions and the deterministic
//! random stream. The small set of floating-point kernels the optimizer
//! needs (model simulation, metric evaluation, centroid arithmetic) is
//! delegated to the caller through an explicit request/reply protocol.

pub mod data;
pub mod errors;
pub mod laws;
pub mod models;
pub mod objective;
pub mod rng;
pub mod sce;
pub mod scalar;
pub mod sorting;
pub mod strutil;
pub mod tri;
