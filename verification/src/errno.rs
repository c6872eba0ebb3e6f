//! Linux error codes.
use vstd::prelude::*;

verus! {

/// An error that a system call reports.
///
/// The codes that the kernel itself raises have a name. `Other` carries a code
/// that came from below, from a file system or a device.
#[derive(Debug, Clone, Copy, PartialEq, Eq, Structural)]
pub enum LinuxError {
    EPERM,
    ENOENT,
    ESRCH,
    EINTR,
    EBADF,
    ECHILD,
    EAGAIN,
    ENOMEM,
    EFAULT,
    ENODEV,
    ENOTDIR,
    EISDIR,
    EINVAL,
    ERANGE,
    ENOSYS,
    EOPNOTSUPP,
    EISCONN,
    Other(i32),
}

/// The Linux error code that `axerrno` gives to an ArceOS error kind, or
/// `None` for a number that is no error kind.
pub uninterp spec fn ax_kind_errno(kind: i32) -> Option<i32>;

/// Calls `axerrno::LinuxError::from` on an ArceOS error kind, given by its
/// number, and returns the code of the result.
///
/// Which code stands for which kind is not written out here: the result has a
/// name, and a number that is no error kind has no result.
#[verifier::external_body]
fn errno_of_ax_kind(kind: i32) -> (r: Option<i32>)
    ensures
        r == ax_kind_errno(kind),
{
    match axerrno::AxError::try_from(kind) {
        Ok(e) => Some(axerrno::LinuxError::from(e).code()),
        Err(_) => None,
    }
}

/// The error that a Linux error code stands for.
pub open spec fn error_of_code(code: i32) -> LinuxError {
    match code {
        1 => LinuxError::EPERM,
        2 => LinuxError::ENOENT,
        3 => LinuxError::ESRCH,
        4 => LinuxError::EINTR,
        9 => LinuxError::EBADF,
        10 => LinuxError::ECHILD,
        11 => LinuxError::EAGAIN,
        12 => LinuxError::ENOMEM,
        14 => LinuxError::EFAULT,
        19 => LinuxError::ENODEV,
        20 => LinuxError::ENOTDIR,
        21 => LinuxError::EISDIR,
        22 => LinuxError::EINVAL,
        34 => LinuxError::ERANGE,
        38 => LinuxError::ENOSYS,
        95 => LinuxError::EOPNOTSUPP,
        106 => LinuxError::EISCONN,
        _ => LinuxError::Other(code),
    }
}

/// What becomes of an error that the file system reports by its ArceOS kind.
pub open spec fn error_of_ax_kind(kind: i32) -> LinuxError {
    match ax_kind_errno(kind) {
        Some(code) => error_of_code(code),
        None => LinuxError::Other(kind),
    }
}

impl LinuxError {
    /// The Linux error code of this error.
    pub open spec fn spec_code(self) -> i32 {
        match self {
            LinuxError::EPERM => 1,
            LinuxError::ENOENT => 2,
            LinuxError::ESRCH => 3,
            LinuxError::EINTR => 4,
            LinuxError::EBADF => 9,
            LinuxError::ECHILD => 10,
            LinuxError::EAGAIN => 11,
            LinuxError::ENOMEM => 12,
            LinuxError::EFAULT => 14,
            LinuxError::ENODEV => 19,
            LinuxError::ENOTDIR => 20,
            LinuxError::EISDIR => 21,
            LinuxError::EINVAL => 22,
            LinuxError::ERANGE => 34,
            LinuxError::ENOSYS => 38,
            LinuxError::EOPNOTSUPP => 95,
            LinuxError::EISCONN => 106,
            LinuxError::Other(code) => code,
        }
    }

    /// Returns the Linux error code of this error.
    pub fn code(self) -> (r: i32)
        ensures
            r == self.spec_code(),
    {
        match self {
            LinuxError::EPERM => 1,
            LinuxError::ENOENT => 2,
            LinuxError::ESRCH => 3,
            LinuxError::EINTR => 4,
            LinuxError::EBADF => 9,
            LinuxError::ECHILD => 10,
            LinuxError::EAGAIN => 11,
            LinuxError::ENOMEM => 12,
            LinuxError::EFAULT => 14,
            LinuxError::ENODEV => 19,
            LinuxError::ENOTDIR => 20,
            LinuxError::EISDIR => 21,
            LinuxError::EINVAL => 22,
            LinuxError::ERANGE => 34,
            LinuxError::ENOSYS => 38,
            LinuxError::EOPNOTSUPP => 95,
            LinuxError::EISCONN => 106,
            LinuxError::Other(code) => code,
        }
    }

    /// Returns the error that the Linux error code `code` stands for.
    pub fn from_code(code: i32) -> (r: LinuxError)
        ensures
            r == error_of_code(code),
    {
        match code {
            1 => LinuxError::EPERM,
            2 => LinuxError::ENOENT,
            3 => LinuxError::ESRCH,
            4 => LinuxError::EINTR,
            9 => LinuxError::EBADF,
            10 => LinuxError::ECHILD,
            11 => LinuxError::EAGAIN,
            12 => LinuxError::ENOMEM,
            14 => LinuxError::EFAULT,
            19 => LinuxError::ENODEV,
            20 => LinuxError::ENOTDIR,
            21 => LinuxError::EISDIR,
            22 => LinuxError::EINVAL,
            34 => LinuxError::ERANGE,
            38 => LinuxError::ENOSYS,
            95 => LinuxError::EOPNOTSUPP,
            106 => LinuxError::EISCONN,
            _ => LinuxError::Other(code),
        }
    }

    /// Returns the error that stands for an ArceOS error kind, given by its
    /// number. A number that is no error kind is passed through as it is.
    pub fn from_ax(kind: i32) -> (r: LinuxError)
        ensures
            r == error_of_ax_kind(kind),
    {
        match errno_of_ax_kind(kind) {
            Some(code) => LinuxError::from_code(code),
            None => LinuxError::Other(kind),
        }
    }
}

/// Every code is the code of the error that it stands for.
pub proof fn law_error_code_round_trip(code: i32)
    ensures
        error_of_code(code).spec_code() == code,
{
}

/// The numbers of the errors are those that programs know.
pub proof fn law_error_numbers()
    ensures
        LinuxError::EPERM.spec_code() == 1,
        LinuxError::ENOENT.spec_code() == 2,
        LinuxError::ESRCH.spec_code() == 3,
        LinuxError::EINTR.spec_code() == 4,
        LinuxError::EBADF.spec_code() == 9,
        LinuxError::ECHILD.spec_code() == 10,
        LinuxError::EAGAIN.spec_code() == 11,
        LinuxError::ENOMEM.spec_code() == 12,
        LinuxError::EFAULT.spec_code() == 14,
        LinuxError::ENODEV.spec_code() == 19,
        LinuxError::ENOTDIR.spec_code() == 20,
        LinuxError::EISDIR.spec_code() == 21,
        LinuxError::EINVAL.spec_code() == 22,
        LinuxError::ERANGE.spec_code() == 34,
        LinuxError::ENOSYS.spec_code() == 38,
        LinuxError::EOPNOTSUPP.spec_code() == 95,
        LinuxError::EISCONN.spec_code() == 106,
        forall|code: i32| #[trigger] LinuxError::Other(code).spec_code() == code,
{
}

/// An error that comes from below keeps its number: the code that stands for its kind, or,
/// where the number is that of no kind, the number itself.
pub proof fn law_error_from_below_keeps_its_number(kind: i32)
    ensures
        ax_kind_errno(kind) matches Some(code) ==> error_of_ax_kind(kind).spec_code() == code,
        ax_kind_errno(kind) is None ==> error_of_ax_kind(kind).spec_code() == kind,
{
}

} // verus!
