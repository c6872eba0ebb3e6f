//! The system calls of tasks that keep their signals themselves.
pub mod signal;
