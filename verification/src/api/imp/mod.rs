//! The system calls.
pub mod fs;
pub mod mm;
pub mod signal;
pub mod task;
pub mod time;
