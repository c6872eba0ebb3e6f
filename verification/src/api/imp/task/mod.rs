//! The system calls on tasks.
pub mod clone;
pub mod exit;
pub mod thread;
pub mod wait;
