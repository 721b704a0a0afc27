//! A sliding-window DFT spectrum estimator.
//!
//! The estimator keeps one incremental complex correlator per analysis
//! frequency.  Each correlator stores a circular buffer of cumulative
//! partial sums so that the windowed correlation over any sub-window can
//! be answered as the difference of two stored sums, without rescanning
//! the raw samples.  All hot-path arithmetic is carried out on quantized
//! integer samples against a fixed-point sine table, which keeps the
//! pipeline deterministic.

pub mod util;
pub mod trig;
pub mod complex;
pub mod ring;
pub mod terms;
pub mod wrap;
pub mod dftbin;
pub mod collector;
pub mod types;
pub mod engine;
pub mod snapshot;
pub mod texture;
pub mod query;
