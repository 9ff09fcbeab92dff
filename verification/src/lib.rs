//! Jacobi and Gauss-Seidel iteration for linear systems: the decisions of a
//! solve, the statistics of repeated trials, and the text formats around them.
//!
//! The library holds no real-number arithmetic. A caller updates one unknown
//! at a time on its own numbers and reports what it saw; the library runs
//! the sweeps, decides whether the solve goes on and how it ended, and adds
//! up the trials.
pub mod dialogue;
pub mod generate;
pub mod layout;
pub mod method;
pub mod number;
pub mod solver;
pub mod stats;
pub mod sweep;
pub mod text;
pub mod trials;
