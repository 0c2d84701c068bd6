//! A bounded FIFO ring of copyable messages, the per-operation decisions of a
//! blocking queue built on it, the reference-counted header of a shared
//! memory region, and the error kinds of both.

pub mod error;
pub mod primitive;
pub mod queue;
pub mod ring;
pub mod shm;
