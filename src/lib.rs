//! Constraint-solving and test-synthesis core of a static verifier: a solver-agnostic
//! protocol for asking satisfiability questions, and a generator that turns satisfying
//! assignments into runnable test cases.

pub mod access_path;
pub mod emit;
pub mod laws;
pub mod names;
pub mod smt_solver;
pub mod test_gen;
pub mod text;
