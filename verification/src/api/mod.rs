//! The system call interface and the file objects behind it.
pub mod file;
pub mod imp;
