//! The system calls on memory.
pub mod mmap;
