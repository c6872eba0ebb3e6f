//! The decision logic of a Linux-compatible kernel's system call layer.
pub mod addr;
pub mod api;
pub mod bytes;
pub mod errno;
pub mod fd;
pub mod frame;
pub mod mm;
pub mod ordered;
pub mod signal;
pub mod syscall_imp;
pub mod text;
pub mod user;
