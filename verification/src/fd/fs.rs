//! Files and directories behind file descriptors.
use crate::api::file::io::FileId;
use crate::api::file::stat::{file_mode, law_mode_tells_type_and_permissions};
use crate::api::imp::fs::stat::{empty_stat, Stat};
use crate::errno::LinuxError;
use vstd::prelude::*;

verus! {

/// What can be done with a file at once.
#[derive(Debug, Clone, Copy, PartialEq, Eq, Structural)]
pub struct PollState {
    pub readable: bool,
    pub writable: bool,
}

/// What the file system tells of a file.
#[derive(Debug, Clone, Copy, PartialEq, Eq, Structural)]
pub struct FileAttr {
    pub file_type: u8,
    /// The permissions.
    pub perm: u16,
    pub size: u64,
    pub blocks: u64,
}

/// What a file descriptor stands for.
#[derive(Debug, Clone, Copy, PartialEq, Eq, Structural)]
pub enum FileKind {
    File,
    Directory,
    Socket,
    Other,
}

/// A file that the file system holds open.
#[derive(Debug)]
pub struct File {
    inner: FileId,
    path: String,
}

/// The status of a file with what the file system tells of it. Every file has
/// the same number and the same owner.
pub open spec fn file_stat(attr: FileAttr) -> Stat {
    Stat {
        st_ino: 1,
        st_nlink: 1,
        st_mode: file_mode(attr.file_type, attr.perm),
        st_uid: 1000,
        st_gid: 1000,
        st_size: attr.size as i64,
        st_blocks: attr.blocks as i64,
        st_blksize: 512,
        ..empty_stat()
    }
}

/// What is told of a file is what the file system tells: its size, its blocks, and its type
/// and permissions in the mode. The blocks have 512 bytes.
pub proof fn law_status_is_what_the_file_system_tells(attr: FileAttr)
    requires
        attr.perm < 4096,
        attr.size <= i64::MAX,
        attr.blocks <= i64::MAX,
    ensures
        file_stat(attr).st_size == attr.size,
        file_stat(attr).st_blocks == attr.blocks,
        file_stat(attr).st_mode % 4096 == attr.perm,
        file_stat(attr).st_mode / 4096 == attr.file_type,
        file_stat(attr).st_blksize == 512,
        file_stat(attr).st_nlink == 1,
        file_stat(attr).st_ino == 1,
        file_stat(attr).st_uid == 1000,
        file_stat(attr).st_gid == 1000,
        file_stat(attr).st_dev == 0,
        file_stat(attr).st_rdev == 0,
        file_stat(attr).st_atime.tv_sec == 0 && file_stat(attr).st_atime.tv_nsec == 0,
        file_stat(attr).st_mtime.tv_sec == 0 && file_stat(attr).st_mtime.tv_nsec == 0,
        file_stat(attr).st_ctime.tv_sec == 0 && file_stat(attr).st_ctime.tv_nsec == 0,
{
    law_mode_tells_type_and_permissions(attr.file_type, attr.perm);
}

impl File {
    /// The file that the file system holds open.
    pub closed spec fn spec_inner(&self) -> FileId {
        self.inner
    }

    /// The path of the file.
    pub closed spec fn spec_path(&self) -> Seq<char> {
        self.path@
    }

    /// Returns the file object of an open file.
    pub fn new(inner: FileId, path: String) -> (r: File)
        ensures
            r.spec_inner() == inner,
            r.spec_path() == path@,
    {
        File { inner, path }
    }

    /// Get the path of the file.
    pub fn path(&self) -> (r: &str)
        ensures
            r@ == self.spec_path(),
    {
        self.path.as_str()
    }

    /// Get the inner node of the file.
    pub fn inner(&self) -> (r: FileId)
        ensures
            r == self.spec_inner(),
    {
        self.inner
    }

    /// Returns the status of the file, where `attr` is what the file system
    /// tells of it.
    pub fn stat(&self, attr: Result<FileAttr, LinuxError>) -> (r: Result<Stat, LinuxError>)
        ensures
            r == match attr {
                Ok(attr) => Ok(file_stat(attr)),
                Err(e) => Err(e),
            },
    {
        match attr {
            Err(e) => Err(e),
            Ok(attr) => {
                let st_mode: u32 = ((attr.file_type as u32) << 12) | attr.perm as u32;
                let mut stat = Stat::default();
                stat.st_ino = 1;
                stat.st_nlink = 1;
                stat.st_mode = st_mode;
                stat.st_uid = 1000;
                stat.st_gid = 1000;
                stat.st_size = attr.size as i64;
                stat.st_blocks = attr.blocks as i64;
                stat.st_blksize = 512;
                Ok(stat)
            },
        }
    }

    /// A file can always be read and written.
    pub fn poll(&self) -> (r: Result<PollState, LinuxError>)
        ensures
            r == Ok::<PollState, LinuxError>(PollState { readable: true, writable: true }),
    {
        Ok(PollState { readable: true, writable: true })
    }

    /// A file never blocks.
    pub fn set_nonblocking(&self, nonblocking: bool) -> (r: Result<(), LinuxError>)
        ensures
            r == Ok::<(), LinuxError>(()),
    {
        Ok(())
    }
}

/// A directory that the file system holds open.
#[derive(Debug)]
pub struct Directory {
    inner: FileId,
    path: String,
}

impl Directory {
    /// The directory that the file system holds open.
    pub closed spec fn spec_inner(&self) -> FileId {
        self.inner
    }

    /// The path of the directory.
    pub closed spec fn spec_path(&self) -> Seq<char> {
        self.path@
    }

    /// Returns the file object of an open directory.
    pub fn new(inner: FileId, path: String) -> (r: Directory)
        ensures
            r.spec_inner() == inner,
            r.spec_path() == path@,
    {
        Directory { inner, path }
    }

    /// Get the path of the directory.
    pub fn path(&self) -> (r: &str)
        ensures
            r@ == self.spec_path(),
    {
        self.path.as_str()
    }

    /// Get the inner node of the directory.
    pub fn inner(&self) -> (r: FileId)
        ensures
            r == self.spec_inner(),
    {
        self.inner
    }

    /// A directory cannot be read as a file.
    pub fn read(&self) -> (r: Result<usize, LinuxError>)
        ensures
            r == Err::<usize, LinuxError>(LinuxError::EBADF),
    {
        Err(LinuxError::EBADF)
    }

    /// A directory cannot be written as a file.
    pub fn write(&self) -> (r: Result<usize, LinuxError>)
        ensures
            r == Err::<usize, LinuxError>(LinuxError::EBADF),
    {
        Err(LinuxError::EBADF)
    }

    /// Nothing is told of an open directory.
    pub fn stat(&self) -> (r: Result<Stat, LinuxError>)
        ensures
            r == Err::<Stat, LinuxError>(LinuxError::EBADF),
    {
        Err(LinuxError::EBADF)
    }

    /// A directory can be read but not written.
    pub fn poll(&self) -> (r: Result<PollState, LinuxError>)
        ensures
            r == Ok::<PollState, LinuxError>(PollState { readable: true, writable: false }),
    {
        Ok(PollState { readable: true, writable: false })
    }

    /// A directory never blocks.
    pub fn set_nonblocking(&self, nonblocking: bool) -> (r: Result<(), LinuxError>)
        ensures
            r == Ok::<(), LinuxError>(()),
    {
        Ok(())
    }
}

/// Checks that a file descriptor stands for a directory, where `kind` is what it
/// stands for.
pub fn directory_from_fd(kind: Result<FileKind, LinuxError>) -> (r: Result<(), LinuxError>)
    ensures
        r == match kind {
            Err(e) => Err(e),
            Ok(FileKind::Directory) => Ok(()),
            Ok(_) => Err(LinuxError::ENOTDIR),
        },
{
    match kind {
        Err(e) => Err(e),
        Ok(FileKind::Directory) => Ok(()),
        Ok(_) => Err(LinuxError::ENOTDIR),
    }
}

} // verus!
