//! The run-time half of the crate: the memory tape, the execution context
//! with its input/output streams, and the processor that drives a compiled
//! instruction sequence.

pub mod context;
pub mod memory;
pub mod processor;
