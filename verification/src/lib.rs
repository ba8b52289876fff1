//! Verified core of a timer-resolution benchmark sweep.
//!
//! The engine sweeps a requested timer resolution across a configured range.
//! Each round an external resolution-setter is started, a settle delay passes,
//! an external sampler is run, and its textual output is parsed into a
//! (mean, standard deviation) pair. Valid rounds are appended to a durable,
//! append-only results log, which is re-read at the end and reduced to the
//! resolution with the lowest observed jitter.
//!
//! Every quantity of milliseconds is held as an integer count of *ticks*,
//! one tick being one ten-thousandth of a millisecond. This is exactly the
//! integer unit the external resolution-setter takes, and it is the precision
//! (four decimal digits) to which the results log is written, so nothing is
//! lost by it. The unverified binary converts at its edges.

pub mod decimal;
pub mod text;
pub mod measurement;
pub mod store;
pub mod params;
pub mod sweep;
pub mod reduce;
pub mod hpet;
pub mod preflight;
