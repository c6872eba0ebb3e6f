//! What a system call finds at a pointer that it was given.
use crate::errno::LinuxError;
use vstd::prelude::*;

verus! {

/// What is found at a pointer into user memory that may be null.
#[derive(Debug)]
pub enum UserRef<T> {
    /// The pointer is null.
    Null,
    /// There is nothing to be used at the pointer.
    Invalid(LinuxError),
    /// The pointer is good, and this is found there.
    Valid(T),
}

/// What a system call leaves behind: what it writes to the caller's memory, if
/// anything, and what it returns. Both can happen: a call may fail after it has
/// written.
#[derive(Debug)]
pub struct Outcome<T> {
    pub written: Option<T>,
    pub result: Result<isize, LinuxError>,
}

} // verus!
