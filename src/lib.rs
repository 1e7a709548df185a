//! An incremental escape-time field engine for the Mandelbrot set, computed in
//! fixed point, with a resumable per-band iteration state, a zoom stack and the
//! decisions of a worker-pool dispatcher.
pub mod fixed;
pub mod flags;
pub mod zoom;
pub mod field;
pub mod dispatch;
pub mod ledger;
