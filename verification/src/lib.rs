//! A verified interpreter for a minimal byte-oriented, stack-structured
//! instruction language, together with the pure decision logic of a small
//! benchmark harness built around it.
//!
//! The interpreter core turns raw source bytes into a dense, jump-resolved
//! instruction stream and executes that stream against a growable byte tape
//! with wraparound cell arithmetic. The executable code is specified against
//! a small-step semantics, so every run is proved to return exactly what the
//! semantics prescribes.

pub mod lang;
pub mod program;
pub mod runner;
pub mod text;
pub mod vm;
