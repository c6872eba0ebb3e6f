//! The system calls on the status of files.
use crate::api::imp::time::Timespec;
use crate::errno::LinuxError;
use crate::user::{Outcome, UserRef};
use vstd::prelude::*;

verus! {

/// The status of a file, as a caller sees it.
#[derive(Debug, Clone, Copy, PartialEq, Eq, Structural)]
pub struct Stat {
    pub st_dev: u64,
    pub st_ino: u64,
    pub st_mode: u32,
    pub st_nlink: u32,
    pub st_uid: u32,
    pub st_gid: u32,
    pub st_rdev: u64,
    pub st_size: i64,
    pub st_blksize: i32,
    pub st_blocks: i64,
    pub st_atime: Timespec,
    pub st_mtime: Timespec,
    pub st_ctime: Timespec,
}

/// The status of which nothing is known.
pub open spec fn empty_stat() -> Stat {
    let zero = Timespec { tv_sec: 0, tv_nsec: 0 };
    Stat {
        st_dev: 0,
        st_ino: 0,
        st_mode: 0,
        st_nlink: 0,
        st_uid: 0,
        st_gid: 0,
        st_rdev: 0,
        st_size: 0,
        st_blksize: 0,
        st_blocks: 0,
        st_atime: zero,
        st_mtime: zero,
        st_ctime: zero,
    }
}

impl Default for Stat {
    fn default() -> (r: Stat)
        ensures
            r == empty_stat(),
    {
        let zero = Timespec { tv_sec: 0, tv_nsec: 0 };
        Stat {
            st_dev: 0,
            st_ino: 0,
            st_mode: 0,
            st_nlink: 0,
            st_uid: 0,
            st_gid: 0,
            st_rdev: 0,
            st_size: 0,
            st_blksize: 0,
            st_blocks: 0,
            st_atime: zero,
            st_mtime: zero,
            st_ctime: zero,
        }
    }
}

/// Reports the status of a file to the memory that `statbuf` names.
fn report_stat(stat: Result<Stat, LinuxError>, statbuf: Result<(), LinuxError>) -> (r: Outcome<
    Stat,
>)
    ensures
        stat_reported(stat, statbuf, r),
{
    match stat {
        Err(e) => Outcome { written: None, result: Err(e) },
        Ok(stat) => match statbuf {
            Err(e) => Outcome { written: None, result: Err(e) },
            Ok(_) => Outcome { written: Some(stat), result: Ok(0) },
        },
    }
}

/// How the status of a file is reported: it is found first, and then the memory
/// for it.
pub open spec fn stat_reported(
    stat: Result<Stat, LinuxError>,
    statbuf: Result<(), LinuxError>,
    r: Outcome<Stat>,
) -> bool {
    match (stat, statbuf) {
        (Err(e), _) => r.written is None && r.result == Err::<isize, LinuxError>(e),
        (Ok(_), Err(e)) => r.written is None && r.result == Err::<isize, LinuxError>(e),
        (Ok(stat), Ok(_)) => r.written == Some(stat) && r.result == Ok::<isize, LinuxError>(0),
    }
}

/// Get the file metadata by `path` and write into `statbuf`.
///
/// Return 0 if success.
pub fn sys_stat(stat: Result<Stat, LinuxError>, statbuf: Result<(), LinuxError>) -> (r: Outcome<
    Stat,
>)
    ensures
        stat_reported(stat, statbuf, r),
{
    report_stat(stat, statbuf)
}

/// Get file metadata by `fd` and write into `statbuf`.
///
/// Return 0 if success.
pub fn sys_fstat(stat: Result<Stat, LinuxError>, statbuf: Result<(), LinuxError>) -> (r: Outcome<
    Stat,
>)
    ensures
        stat_reported(stat, statbuf, r),
{
    report_stat(stat, statbuf)
}

/// Get the metadata of the symbolic link and write into `buf`: `stat` is the
/// status of the link itself, or of the file where the path names no link.
///
/// Return 0 if success.
pub fn sys_lstat(stat: Result<Stat, LinuxError>, statbuf: Result<(), LinuxError>) -> (r: Outcome<
    Stat,
>)
    ensures
        stat_reported(stat, statbuf, r),
{
    report_stat(stat, statbuf)
}

/// The flag that allows an empty path: the file is then the one that the
/// descriptor names.
pub const AT_EMPTY_PATH: u32 = 0x1000;

/// The path that a call names, which is empty where none is given, or why it
/// names none.
pub open spec fn stat_path(path: UserRef<String>, flags: u32) -> Result<Seq<char>, LinuxError> {
    match path {
        UserRef::Invalid(e) => Err(e),
        UserRef::Null => if flags & AT_EMPTY_PATH == 0 {
            Err(LinuxError::ENOENT)
        } else {
            Ok(Seq::empty())
        },
        UserRef::Valid(s) => if s@.len() == 0 && flags & AT_EMPTY_PATH == 0 {
            Err(LinuxError::ENOENT)
        } else {
            Ok(s@)
        },
    }
}

/// Returns why a call names no path, if it names none.
fn refused_path(path: &UserRef<String>, flags: u32) -> (r: Option<LinuxError>)
    ensures
        match stat_path(*path, flags) {
            Err(e) => r == Some(e),
            Ok(_) => r is None,
        },
{
    match path {
        UserRef::Invalid(e) => Some(*e),
        UserRef::Null => if flags & AT_EMPTY_PATH == 0 {
            Some(LinuxError::ENOENT)
        } else {
            None
        },
        UserRef::Valid(s) => if s.as_str().is_empty() && flags & AT_EMPTY_PATH == 0 {
            Some(LinuxError::ENOENT)
        } else {
            None
        },
    }
}

/// Returns the path that a call names, which is empty where none is given. An
/// empty path needs the flag for it.
pub fn check_stat_path(path: UserRef<String>, flags: u32) -> (r: Result<String, LinuxError>)
    ensures
        match stat_path(path, flags) {
            Err(e) => r == Err::<String, LinuxError>(e),
            Ok(s) => r matches Ok(name) && name@ == s,
        },
{
    match refused_path(&path, flags) {
        Some(e) => Err(e),
        None => match path {
            UserRef::Valid(s) => Ok(s),
            _ => Ok(String::new()),
        },
    }
}

/// Reports the status of the file that a path names: `stat` is what is found
/// under the path that [`check_stat_path`] returns. Nothing is reported where the
/// call names no path.
pub fn sys_fstatat(
    path: &UserRef<String>,
    flags: u32,
    stat: Result<Stat, LinuxError>,
    statbuf: Result<(), LinuxError>,
) -> (r: Outcome<Stat>)
    ensures
        match stat_path(*path, flags) {
            Err(e) => r.written is None && r.result == Err::<isize, LinuxError>(e),
            Ok(_) => stat_reported(stat, statbuf, r),
        },
{
    match refused_path(path, flags) {
        Some(e) => Outcome { written: None, result: Err(e) },
        None => report_stat(stat, statbuf),
    }
}

/// A point in time, in the extended status of a file.
#[derive(Debug, Clone, Copy, PartialEq, Eq, Structural)]
pub struct FsStatxTimestamp {
    pub tv_sec: i64,
    pub tv_nsec: u32,
}

impl Default for FsStatxTimestamp {
    fn default() -> (r: FsStatxTimestamp)
        ensures
            r == (FsStatxTimestamp { tv_sec: 0, tv_nsec: 0 }),
    {
        FsStatxTimestamp { tv_sec: 0, tv_nsec: 0 }
    }
}

/// statx - get file status (extended)
/// Standard C library (libc, -lc)
/// <https://man7.org/linux/man-pages/man2/statx.2.html>
#[derive(Debug, Clone, Copy, PartialEq, Eq, Structural)]
pub struct StatX {
    /// Bitmask of what information to get.
    pub stx_mask: u32,
    /// Block size for filesystem I/O.
    pub stx_blksize: u32,
    /// File attributes.
    pub stx_attributes: u64,
    /// Number of hard links.
    pub stx_nlink: u32,
    /// User ID of owner.
    pub stx_uid: u32,
    /// Group ID of owner.
    pub stx_gid: u32,
    /// File mode (permissions).
    pub stx_mode: u16,
    /// Inode number.
    pub stx_ino: u64,
    /// Total size, in bytes.
    pub stx_size: u64,
    /// Number of 512B blocks allocated.
    pub stx_blocks: u64,
    /// Mask to show what's supported in stx_attributes.
    pub stx_attributes_mask: u64,
    /// Last access timestamp.
    pub stx_atime: FsStatxTimestamp,
    /// Birth (creation) timestamp.
    pub stx_btime: FsStatxTimestamp,
    /// Last status change timestamp.
    pub stx_ctime: FsStatxTimestamp,
    /// Last modification timestamp.
    pub stx_mtime: FsStatxTimestamp,
    /// Major device ID (if special file).
    pub stx_rdev_major: u32,
    /// Minor device ID (if special file).
    pub stx_rdev_minor: u32,
    /// Major device ID of file system.
    pub stx_dev_major: u32,
    /// Minor device ID of file system.
    pub stx_dev_minor: u32,
    /// Mount ID.
    pub stx_mnt_id: u64,
    /// Memory alignment for direct I/O.
    pub stx_dio_mem_align: u32,
    /// Offset alignment for direct I/O.
    pub stx_dio_offset_align: u32,
}

impl Default for StatX {
    fn default() -> (r: StatX)
        ensures
            r == empty_statx(),
    {
        let zero = FsStatxTimestamp { tv_sec: 0, tv_nsec: 0 };
        StatX {
            stx_mask: 0,
            stx_blksize: 0,
            stx_attributes: 0,
            stx_nlink: 0,
            stx_uid: 0,
            stx_gid: 0,
            stx_mode: 0,
            stx_ino: 0,
            stx_size: 0,
            stx_blocks: 0,
            stx_attributes_mask: 0,
            stx_atime: zero,
            stx_btime: zero,
            stx_ctime: zero,
            stx_mtime: zero,
            stx_rdev_major: 0,
            stx_rdev_minor: 0,
            stx_dev_major: 0,
            stx_dev_minor: 0,
            stx_mnt_id: 0,
            stx_dio_mem_align: 0,
            stx_dio_offset_align: 0,
        }
    }
}

/// The extended status of which nothing is known.
pub open spec fn empty_statx() -> StatX {
    let zero = FsStatxTimestamp { tv_sec: 0, tv_nsec: 0 };
    StatX {
        stx_mask: 0,
        stx_blksize: 0,
        stx_attributes: 0,
        stx_nlink: 0,
        stx_uid: 0,
        stx_gid: 0,
        stx_mode: 0,
        stx_ino: 0,
        stx_size: 0,
        stx_blocks: 0,
        stx_attributes_mask: 0,
        stx_atime: zero,
        stx_btime: zero,
        stx_ctime: zero,
        stx_mtime: zero,
        stx_rdev_major: 0,
        stx_rdev_minor: 0,
        stx_dev_major: 0,
        stx_dev_minor: 0,
        stx_mnt_id: 0,
        stx_dio_mem_align: 0,
        stx_dio_offset_align: 0,
    }
}

/// The point in time that the status of a file tells.
pub open spec fn statx_time(ts: Timespec) -> FsStatxTimestamp {
    FsStatxTimestamp { tv_sec: ts.tv_sec, tv_nsec: ts.tv_nsec as u32 }
}

/// The extended status `old` with all that the status `stat` tells. The rest
/// stays as the caller left it.
pub open spec fn statx_filled(old: StatX, stat: Stat) -> StatX {
    StatX {
        stx_blksize: stat.st_blksize as u32,
        stx_attributes: stat.st_mode as u64,
        stx_nlink: stat.st_nlink,
        stx_uid: stat.st_uid,
        stx_gid: stat.st_gid,
        stx_mode: stat.st_mode as u16,
        stx_ino: stat.st_ino,
        stx_size: stat.st_size as u64,
        stx_blocks: stat.st_blocks as u64,
        stx_attributes_mask: 0x7ff,
        stx_atime: statx_time(stat.st_atime),
        stx_ctime: statx_time(stat.st_ctime),
        stx_mtime: statx_time(stat.st_mtime),
        ..old
    }
}

/// What a call of `sys_statx` comes to.
pub open spec fn statx_done(
    path: UserRef<String>,
    flags: u32,
    stat: Result<Stat, LinuxError>,
    statx: Result<StatX, LinuxError>,
    r: Outcome<StatX>,
) -> bool {
    match (stat_path(path, flags), stat, statx) {
        (Err(e), _, _) => r.written is None && r.result == Err::<isize, LinuxError>(e),
        (Ok(_), Err(e), _) => r.written is None && r.result == Err::<isize, LinuxError>(e),
        (Ok(_), Ok(_), Err(e)) => r.written is None && r.result == Err::<isize, LinuxError>(e),
        (Ok(_), Ok(stat), Ok(old)) => {
            &&& r.written == Some(statx_filled(old, stat))
            &&& r.result == Ok::<isize, LinuxError>(0)
        },
    }
}

/// Reports the extended status of the file that a path names: `stat` is what is
/// found under the path that [`check_stat_path`] returns, and `statx` what the
/// caller's memory holds. Nothing is reported where the call names no path.
pub fn sys_statx(
    path: &UserRef<String>,
    flags: u32,
    stat: Result<Stat, LinuxError>,
    statx: Result<StatX, LinuxError>,
) -> (r: Outcome<StatX>)
    ensures
        statx_done(*path, flags, stat, statx, r),
{
    if let Some(e) = refused_path(path, flags) {
        return Outcome { written: None, result: Err(e) };
    }
    match stat {
        Err(e) => Outcome { written: None, result: Err(e) },
        Ok(stat) => match statx {
            Err(e) => Outcome { written: None, result: Err(e) },
            Ok(old) => {
                let mut statx = old;
                statx.stx_blksize = stat.st_blksize as u32;
                statx.stx_attributes = stat.st_mode as u64;
                statx.stx_nlink = stat.st_nlink;
                statx.stx_uid = stat.st_uid;
                statx.stx_gid = stat.st_gid;
                statx.stx_mode = stat.st_mode as u16;
                statx.stx_ino = stat.st_ino;
                statx.stx_size = stat.st_size as u64;
                statx.stx_blocks = stat.st_blocks as u64;
                statx.stx_attributes_mask = 0x7ff;
                statx.stx_atime.tv_sec = stat.st_atime.tv_sec;
                statx.stx_atime.tv_nsec = stat.st_atime.tv_nsec as u32;
                statx.stx_ctime.tv_sec = stat.st_ctime.tv_sec;
                statx.stx_ctime.tv_nsec = stat.st_ctime.tv_nsec as u32;
                statx.stx_mtime.tv_sec = stat.st_mtime.tv_sec;
                statx.stx_mtime.tv_nsec = stat.st_mtime.tv_nsec as u32;
                Outcome { written: Some(statx), result: Ok(0) }
            },
        },
    }
}

/// A status is reported exactly where it was found and there is memory for it, and then it
/// is the one that was found and the call returns zero. Otherwise the call fails: with why
/// it was not found, or else with what is wrong with the memory.
pub proof fn law_status_is_reported_as_found(
    stat: Result<Stat, LinuxError>,
    statbuf: Result<(), LinuxError>,
    r: Outcome<Stat>,
)
    requires
        stat_reported(stat, statbuf, r),
    ensures
        r.written is Some <==> stat is Ok && statbuf is Ok,
        r.written is Some ==> r.written->0 == stat->Ok_0 && r.result == Ok::<isize, LinuxError>(0),
        stat is Err ==> r.result == Err::<isize, LinuxError>(stat->Err_0),
        stat is Ok && statbuf is Err ==> r.result == Err::<isize, LinuxError>(statbuf->Err_0),
{
}

/// A path names a file unless it cannot be read, or is empty or missing without the flag
/// 0x1000. The path is passed on as it is, and a missing one as the empty one.
pub proof fn law_empty_path_needs_its_flag(path: UserRef<String>, flags: u32)
    ensures
        path is Invalid ==> stat_path(path, flags) == Err::<Seq<char>, LinuxError>(
            path->Invalid_0,
        ),
        (path is Null || path is Valid && path->Valid_0@.len() == 0) && flags & 0x1000 == 0
            ==> stat_path(path, flags) == Err::<Seq<char>, LinuxError>(LinuxError::ENOENT),
        path is Null && flags & 0x1000 != 0 ==> stat_path(path, flags) == Ok::<
            Seq<char>,
            LinuxError,
        >(Seq::empty()),
        path is Valid && (path->Valid_0@.len() > 0 || flags & 0x1000 != 0) ==> stat_path(
            path,
            flags,
        ) == Ok::<Seq<char>, LinuxError>(path->Valid_0@),
{
}

/// An extended status tells all that the status tells, each part as it is, and leaves the
/// rest as the caller had it.
pub proof fn law_extended_status_tells_the_status(
    path: UserRef<String>,
    flags: u32,
    stat: Result<Stat, LinuxError>,
    statx: Result<StatX, LinuxError>,
    r: Outcome<StatX>,
)
    requires
        statx_done(path, flags, stat, statx, r),
    ensures
        r.written is Some <==> stat_path(path, flags) is Ok && stat is Ok && statx is Ok,
        r.written is Some <==> r.result is Ok,
        r.result is Ok ==> r.result->Ok_0 == 0,
        stat_path(path, flags) matches Err(e) ==> r.result == Err::<isize, LinuxError>(e),
        stat_path(path, flags) is Ok && stat is Err ==> r.result == Err::<isize, LinuxError>(
            stat->Err_0,
        ),
        stat_path(path, flags) is Ok && stat is Ok && statx is Err ==> r.result == Err::<
            isize,
            LinuxError,
        >(statx->Err_0),
        r.written matches Some(x) ==> {
            let st = stat->Ok_0;
            let old = statx->Ok_0;
            &&& x.stx_nlink == st.st_nlink
            &&& x.stx_uid == st.st_uid
            &&& x.stx_gid == st.st_gid
            &&& x.stx_ino == st.st_ino
            &&& st.st_mode <= u16::MAX ==> x.stx_mode == st.st_mode
            &&& x.stx_attributes == st.st_mode
            &&& x.stx_attributes_mask == 0x7ff
            &&& st.st_size >= 0 ==> x.stx_size == st.st_size
            &&& st.st_blocks >= 0 ==> x.stx_blocks == st.st_blocks
            &&& st.st_blksize >= 0 ==> x.stx_blksize == st.st_blksize
            &&& x.stx_atime.tv_sec == st.st_atime.tv_sec
            &&& x.stx_mtime.tv_sec == st.st_mtime.tv_sec
            &&& x.stx_ctime.tv_sec == st.st_ctime.tv_sec
            &&& 0 <= st.st_atime.tv_nsec <= u32::MAX ==> x.stx_atime.tv_nsec == st.st_atime.tv_nsec
            &&& 0 <= st.st_mtime.tv_nsec <= u32::MAX ==> x.stx_mtime.tv_nsec == st.st_mtime.tv_nsec
            &&& 0 <= st.st_ctime.tv_nsec <= u32::MAX ==> x.stx_ctime.tv_nsec == st.st_ctime.tv_nsec
            &&& x.stx_mask == old.stx_mask
            &&& x.stx_btime == old.stx_btime
            &&& x.stx_rdev_major == old.stx_rdev_major
            &&& x.stx_rdev_minor == old.stx_rdev_minor
            &&& x.stx_dev_major == old.stx_dev_major
            &&& x.stx_dev_minor == old.stx_dev_minor
            &&& x.stx_mnt_id == old.stx_mnt_id
            &&& x.stx_dio_mem_align == old.stx_dio_mem_align
            &&& x.stx_dio_offset_align == old.stx_dio_offset_align
        },
{
}

/// A status of which nothing is known says nothing: every number in it is zero.
pub proof fn law_empty_status_says_nothing()
    ensures
        ({
            let st = empty_stat();
            &&& st.st_dev == 0 && st.st_ino == 0 && st.st_mode == 0 && st.st_nlink == 0
            &&& st.st_uid == 0 && st.st_gid == 0 && st.st_rdev == 0 && st.st_size == 0
            &&& st.st_blksize == 0 && st.st_blocks == 0
            &&& st.st_atime.tv_sec == 0 && st.st_atime.tv_nsec == 0
            &&& st.st_mtime == st.st_atime && st.st_ctime == st.st_atime
        }),
        ({
            let x = empty_statx();
            &&& x.stx_mask == 0 && x.stx_blksize == 0 && x.stx_attributes == 0 && x.stx_nlink == 0
            &&& x.stx_uid == 0 && x.stx_gid == 0 && x.stx_mode == 0 && x.stx_ino == 0
            &&& x.stx_size == 0 && x.stx_blocks == 0 && x.stx_attributes_mask == 0
            &&& x.stx_atime.tv_sec == 0 && x.stx_atime.tv_nsec == 0
            &&& x.stx_btime == x.stx_atime && x.stx_ctime == x.stx_atime
            &&& x.stx_mtime == x.stx_atime
            &&& x.stx_rdev_major == 0 && x.stx_rdev_minor == 0
            &&& x.stx_dev_major == 0 && x.stx_dev_minor == 0 && x.stx_mnt_id == 0
            &&& x.stx_dio_mem_align == 0 && x.stx_dio_offset_align == 0
        }),
{
}

} // verus!
