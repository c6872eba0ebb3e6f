//! What file descriptors stand for.
pub mod fs;
pub mod net;
