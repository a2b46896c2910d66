//! Client-side logic for painting an image onto a remote canvas that asks for
//! a proof of work before it accepts a pixel.
//!
//! The crate holds the parts that decide: the proof-of-work predicate and its
//! two solvers, the byte layout of the three datagrams, and the state machine
//! that walks the pending pixels. Sockets, image decoding and progress bars
//! belong to the program that drives the state machine.

pub mod challenge;
pub mod digest;
pub mod engine;
pub mod grid;
pub mod laws;
pub mod machine;
pub mod pow;
pub mod solver;
pub mod wire;

pub use solver::solve_pow;
pub use solver::solve_pow_parallel;
