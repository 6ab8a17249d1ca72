//! Value lifecycle and two-register allocation for a copy-and-patch code
//! generator, with the straight-line machine that gives the emitted
//! operations their meaning.
pub mod ir;
pub mod machine;
pub mod state;
pub mod codegen;
pub mod laws;
pub mod runtime;
pub mod semantics;
