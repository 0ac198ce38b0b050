//! A priority-aware cooperative task executor for a single-core kernel.
//!
//! Ready task identifiers travel through a two-class bounded queue; the
//! executor owns the task table and a cache of wakers, resumes tasks in
//! priority order, and decides when the core may be halted.
pub mod queue;
pub mod task;
pub mod executor;
