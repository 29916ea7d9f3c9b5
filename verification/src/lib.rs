//! A differential-testing generator for a small WGSL-family shading language.
//!
//! The crate has two verified cores: a typed random AST generator, which
//! synthesizes depth-bounded, type-correct shader modules under a
//! type-constraint lattice and a lexical scope, and a reconditioner, which
//! rewrites a module so that no operator can reach undefined behaviour while
//! agreeing with the original on every legal input.

pub mod analysis;
pub mod ast;
pub mod eval;
pub mod generator;
pub mod recondition;
pub mod rng;
pub mod safe_ops;
pub mod scope;
pub mod types;
pub mod writer;
