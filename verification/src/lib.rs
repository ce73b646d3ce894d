//! Fixed-capacity, array-backed containers: a FIFO queue and a LIFO stack.
//!
//! Both containers store their elements inline in an array of `C` optional
//! slots, never allocate, and signal capacity exhaustion and underflow
//! through return values rather than panics.

pub mod queue;
pub mod stack;

pub use queue::Queue;
pub use stack::Stack;
