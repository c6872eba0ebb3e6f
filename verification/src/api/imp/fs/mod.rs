//! The system calls on files and directories.
pub mod ctl;
pub mod io;
pub mod stat;
