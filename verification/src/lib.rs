//! A compiler and virtual machine for a minimal eight-symbol tape language.
//!
//! The compiler scans source text into tokens, builds a syntax tree with
//! matched loops, recognizes the clear-and-distribute loop idiom, and emits
//! a flat, jump-resolved instruction sequence closed by a sentinel `Halt`.
//! The processor executes such a sequence against a bounded memory tape and
//! a pair of input/output streams, under configurable wrap/strict policies
//! for cell overflow and pointer bounds.

pub mod compiler;
pub mod equivalence;
pub mod execution;
