//! Files and directories, with or without a page cache.
use crate::api::file::io::FileId;
use crate::api::file::stat::{file_mode, Kstat};
use crate::api::imp::fs::ctl::DirEntry;
use crate::errno::LinuxError;
use crate::fd::fs::{FileAttr, PollState};
use vstd::prelude::*;

verus! {

/// Where to move the cursor of a file.
#[derive(Debug, Clone, Copy, PartialEq, Eq, Structural)]
pub enum SeekFrom {
    /// To an offset.
    Start(u64),
    /// By so many bytes from the end of the file.
    End(i64),
    /// By so many bytes from where it is.
    Current(i64),
}

/// An open file, in one of two variants.
#[derive(Debug)]
pub enum File {
    /// All goes to the file system at once.
    Direct { path: String, inner: FileId },
    /// All goes through the page cache under the path.
    Cached { path: String, size: usize, offset: usize },
}

/// The offset that a cursor is moved to, in a cached file of `size` bytes. One
/// that is no offset takes it to the beginning.
pub open spec fn sought(size: usize, offset: usize, pos: SeekFrom) -> u64 {
    let to = match pos {
        SeekFrom::Start(pos) => pos as int,
        SeekFrom::Current(off) => offset + off,
        SeekFrom::End(off) => size + off,
    };
    if 0 <= to <= u64::MAX {
        to as u64
    } else {
        0
    }
}

/// Returns `base` moved by `off`, or zero where that is no offset.
fn moved(base: u64, off: i64) -> (r: u64)
    ensures
        r == if 0 <= base + off <= u64::MAX {
            (base + off) as u64
        } else {
            0
        },
{
    let to: i128 = base as i128 + off as i128;
    if 0 <= to && to <= u64::MAX as i128 {
        to as u64
    } else {
        0
    }
}

/// What is left to do to write a file back.
#[derive(Debug, Clone, Copy, PartialEq, Eq, Structural)]
pub enum Fsync {
    /// Nothing: the call returns this.
    Return(usize),
    /// The page cache of the file is to be synchronised.
    SyncCache,
}

/// Who carries an operation on a file out, and where in the file.
#[derive(Debug, Clone, Copy, PartialEq, Eq, Structural)]
pub enum FileOp {
    /// The file system, on this open file.
    Direct { file: FileId, offset: u64 },
    /// The page cache of the file.
    Cache { offset: usize },
}

impl File {
    /// Who carries an operation at an offset out.
    pub open spec fn op_at(self, offset: usize) -> FileOp {
        match self {
            File::Direct { inner, .. } => FileOp::Direct { file: inner, offset: offset as u64 },
            File::Cached { .. } => FileOp::Cache { offset },
        }
    }

    /// The path of the file.
    pub open spec fn spec_path(self) -> Seq<char> {
        match self {
            File::Direct { path, .. } => path@,
            File::Cached { path, .. } => path@,
        }
    }

    /// A cached file with another size and another cursor.
    pub open spec fn moved_to(self, size: usize, offset: usize) -> File {
        match self {
            File::Direct { .. } => self,
            File::Cached { path, .. } => File::Cached { path, size, offset },
        }
    }

    /// Returns a file that does without the page cache.
    pub fn new_file_direct(path: String, inner: FileId) -> (r: File)
        ensures
            r == (File::Direct { path, inner }),
    {
        File::Direct { path, inner }
    }

    /// Returns a file that goes through the page cache, which says that it has
    /// `size` bytes. The cursor is at its beginning.
    pub fn new_file_cached(path: String, size: usize) -> (r: File)
        ensures
            r == (File::Cached { path, size, offset: 0 }),
    {
        File::Cached { path, size, offset: 0 }
    }

    /// Returns the size of the file, where `direct` is what the file system says.
    pub fn size(&self, direct: u64) -> (r: usize)
        ensures
            r == match *self {
                File::Direct { .. } => direct as usize,
                File::Cached { size, .. } => size,
            },
    {
        match self {
            File::Direct { .. } => direct as usize,
            File::Cached { size, .. } => *size,
        }
    }

    /// Returns where the cursor of a cached file is.
    pub fn offset(&self) -> (r: usize)
        requires
            self is Cached,
        ensures
            r == self->Cached_offset,
    {
        match self {
            File::Direct { .. } => 0,
            File::Cached { offset, .. } => *offset,
        }
    }

    /// Get the path of the file.
    pub fn path(&self) -> (r: &String)
        ensures
            r@ == self.spec_path(),
    {
        match self {
            File::Direct { path, .. } => path,
            File::Cached { path, .. } => path,
        }
    }

    /// Get the path of the cache of the file. Only available in File::Cached.
    pub fn cache(&self) -> (r: &String)
        requires
            self is Cached,
        ensures
            r@ == self.spec_path(),
    {
        self.path()
    }

    /// Whether the file has a user in the page cache that is to be given up when
    /// the file is closed.
    pub fn uses_cache(&self) -> (r: bool)
        ensures
            r == (self is Cached),
    {
        match self {
            File::Direct { .. } => false,
            File::Cached { .. } => true,
        }
    }

    /// What a call that moves the cursor comes to.
    pub open spec fn seek_done(
        self,
        pos: SeekFrom,
        direct: Option<u64>,
        after: File,
        r: Result<isize, LinuxError>,
    ) -> bool {
        match self {
            File::Direct { .. } => {
                &&& after == self
                &&& r == match direct {
                    Some(pos) => Ok(pos as isize),
                    None => Err(LinuxError::EINVAL),
                }
            },
            File::Cached { size, offset, .. } => {
                let to = sought(size, offset, pos);
                &&& after == self.moved_to(size, to as usize)
                &&& r == Ok::<isize, LinuxError>(to as isize)
            },
        }
    }

    /// Moves the cursor and returns where it is. `direct` is what the file system
    /// says to that, for a file that does without the page cache.
    pub fn seek(&mut self, pos: SeekFrom, direct: Option<u64>) -> (r: Result<isize, LinuxError>)
        ensures
            old(self).seek_done(pos, direct, *final(self), r),
    {
        match self {
            File::Direct { .. } => match direct {
                Some(pos) => Ok(pos as isize),
                None => Err(LinuxError::EINVAL),
            },
            File::Cached { size, offset, .. } => {
                let new_offset: u64 = match pos {
                    SeekFrom::Start(pos) => pos,
                    SeekFrom::Current(off) => moved(*offset as u64, off),
                    SeekFrom::End(off) => moved(*size as u64, off),
                };
                *offset = new_offset as usize;
                Ok(new_offset as isize)
            },
        }
    }

    /// Returns what is left to do to write the file back.
    pub fn fsync(&self) -> (r: Fsync)
        ensures
            r == match *self {
                File::Direct { .. } => Fsync::Return(0),
                File::Cached { .. } => Fsync::SyncCache,
            },
    {
        match self {
            File::Direct { .. } => Fsync::Return(0),
            File::Cached { .. } => Fsync::SyncCache,
        }
    }

    /// Returns who reads from the file at an offset. The cursor stays where it is.
    pub fn read_at(&self, offset: usize) -> (r: FileOp)
        ensures
            r == self.op_at(offset),
    {
        match self {
            File::Direct { inner, .. } => FileOp::Direct { file: *inner, offset: offset as u64 },
            File::Cached { .. } => FileOp::Cache { offset },
        }
    }

    /// Returns who writes to the file at an offset. The cursor stays where it is.
    pub fn write_at(&self, offset: usize) -> (r: FileOp)
        ensures
            r == self.op_at(offset),
    {
        match self {
            File::Direct { inner, .. } => FileOp::Direct { file: *inner, offset: offset as u64 },
            File::Cached { .. } => FileOp::Cache { offset },
        }
    }

    /// Returns who cuts the file at an offset, and what the call returns when that
    /// is done.
    pub fn truncate(&self, offset: usize) -> (r: (FileOp, usize))
        ensures
            r == (self.op_at(offset), offset),
    {
        match self {
            File::Direct { inner, .. } => (
                FileOp::Direct { file: *inner, offset: offset as u64 },
                offset,
            ),
            File::Cached { .. } => (FileOp::Cache { offset }, offset),
        }
    }

    /// The file once `len` bytes were read from where its cursor is.
    pub open spec fn after_read(self, len: usize) -> File {
        match self {
            File::Direct { .. } => self,
            File::Cached { size, offset, .. } => self.moved_to(size, (offset + len) as usize),
        }
    }

    /// The file once `len` bytes were written where its cursor is.
    pub open spec fn after_write(self, len: usize) -> File {
        match self {
            File::Direct { .. } => self,
            File::Cached { size, offset, .. } => self.moved_to(
                if size < offset + len {
                    (offset + len) as usize
                } else {
                    size
                },
                (offset + len) as usize,
            ),
        }
    }

    /// Moves the cursor behind `len` bytes that were read.
    pub fn finish_read(&mut self, len: usize)
        requires
            *old(self) matches File::Cached { offset, .. } ==> offset + len <= usize::MAX,
        ensures
            *final(self) == old(self).after_read(len),
    {
        match self {
            File::Direct { .. } => {},
            File::Cached { offset, .. } => {
                *offset = *offset + len;
            },
        }
    }

    /// Moves the cursor behind `len` bytes that were written. The file is at least
    /// so long then.
    pub fn finish_write(&mut self, len: usize)
        requires
            *old(self) matches File::Cached { offset, .. } ==> offset + len <= usize::MAX,
        ensures
            *final(self) == old(self).after_write(len),
    {
        match self {
            File::Direct { .. } => {},
            File::Cached { size, offset, .. } => {
                let end: usize = *offset + len;
                *offset = end;
                if *size < end {
                    *size = end;
                }
            },
        }
    }

    /// Returns the status of a file that does without the page cache, where
    /// `attr` is what the file system tells of it.
    pub fn stat(&self, attr: Result<FileAttr, LinuxError>) -> (r: Result<Kstat, LinuxError>)
        requires
            self is Direct,
        ensures
            r == match attr {
                Err(e) => Err(e),
                Ok(attr) => Ok(
                    Kstat {
                        mode: file_mode(attr.file_type, attr.perm),
                        size: attr.size as usize as u64,
                        blocks: attr.blocks,
                        blksize: 512,
                    },
                ),
            },
    {
        match attr {
            Err(e) => Err(e),
            Ok(attr) => {
                let size: usize = self.size(attr.size);
                Ok(
                    Kstat {
                        mode: ((attr.file_type as u32) << 12) | attr.perm as u32,
                        size: size as u64,
                        blocks: attr.blocks,
                        blksize: 512,
                    },
                )
            },
        }
    }

    /// A file can always be read and written.
    pub fn poll(&self) -> (r: Result<PollState, LinuxError>)
        ensures
            r == Ok::<PollState, LinuxError>(PollState { readable: true, writable: true }),
    {
        Ok(PollState { readable: true, writable: true })
    }

    /// A file never blocks.
    pub fn set_nonblocking(&self, nonblocking: bool) -> (r: Result<(), LinuxError>)
        ensures
            r == Ok::<(), LinuxError>(()),
    {
        Ok(())
    }
}

/// Where a cursor is moved to: to the offset that is named, by so much from where it is,
/// or by so much from the end. Where that would be before the beginning it is the
/// beginning.
pub proof fn law_seek_goes_where_it_is_told(size: usize, offset: usize, to: u64, by: i64)
    requires
        offset + by <= u64::MAX,
        size + by <= u64::MAX,
    ensures
        sought(size, offset, SeekFrom::Start(to)) == to,
        offset + by >= 0 ==> sought(size, offset, SeekFrom::Current(by)) == offset + by,
        offset + by < 0 ==> sought(size, offset, SeekFrom::Current(by)) == 0,
        size + by >= 0 ==> sought(size, offset, SeekFrom::End(by)) == size + by,
        size + by < 0 ==> sought(size, offset, SeekFrom::End(by)) == 0,
{
}

/// A call that moves the cursor returns where the cursor is afterwards, and changes neither
/// the size of the file nor its path. Where the file system has the cursor, its answer is
/// passed on, and a file without the page cache stays as it is.
pub proof fn law_seek_returns_the_cursor(
    file: File,
    pos: SeekFrom,
    direct: Option<u64>,
    after: File,
    r: Result<isize, LinuxError>,
)
    requires
        file.seek_done(pos, direct, after, r),
    ensures
        file is Direct ==> after == file,
        file is Direct && direct is Some && direct->0 <= isize::MAX ==> r is Ok && r->Ok_0
            == direct->0,
        file is Direct && direct is None ==> r == Err::<isize, LinuxError>(LinuxError::EINVAL),
        file matches File::Cached { path, size, offset } ==> {
            &&& after matches File::Cached { path: p, size: s, offset: o }
            &&& p == path && s == size
            &&& r is Ok
            &&& 0 <= o <= isize::MAX && sought(size, offset, pos) <= usize::MAX ==> r->Ok_0 == o && o
                == sought(size, offset, pos)
        },
{
}

/// A cursor moves on by what was read or written, from there. A read leaves the size of the
/// file alone; after a write the file reaches at least to the cursor, and no further than it
/// did or than that. The path stays, and a file without the page cache stays as it is.
pub proof fn law_cursor_moves_on(file: File, len: usize)
    requires
        file matches File::Cached { offset, .. } ==> offset + len <= usize::MAX,
    ensures
        file is Direct ==> file.after_read(len) == file && file.after_write(len) == file,
        file matches File::Cached { path, size, offset } ==> {
            &&& file.after_read(len) matches File::Cached { path: p, size: s, offset: o }
            &&& p == path && s == size && o == offset + len
        },
        file matches File::Cached { path, size, offset } ==> {
            &&& file.after_write(len) matches File::Cached { path: p, size: s, offset: o }
            &&& p == path && o == offset + len
            &&& s >= size && s >= o
            &&& s == size || s == o
        },
{
}

/// An operation goes to the file system, on the open file, where the file does without the
/// page cache, and to the page cache otherwise, at the offset that it is for.
pub proof fn law_who_carries_an_operation_out(file: File, offset: usize)
    ensures
        file matches File::Direct { inner, .. } ==> file.op_at(offset) == (FileOp::Direct {
            file: inner,
            offset: offset as u64,
        }),
        file is Cached ==> file.op_at(offset) == (FileOp::Cache { offset }),
{
}

/// To move the cursor to the offset that it was at takes it back there.
pub proof fn law_seek_can_be_undone(size: usize, offset: usize, pos: SeekFrom)
    ensures
        sought(size, sought(size, offset, pos) as usize, SeekFrom::Start(offset as u64))
            == offset as u64,
        sought(size, offset, SeekFrom::Current(0)) == offset as u64,
        sought(size, offset, SeekFrom::End(0)) == size as u64,
{
}

/// An open directory.
pub struct Directory {
    inner: FileId,
    path: String,
    last_dirent: Option<DirEntry>,
}

impl Directory {
    /// The directory that the file system holds open.
    pub closed spec fn spec_inner(&self) -> FileId {
        self.inner
    }

    /// The path of the directory.
    pub closed spec fn spec_path(&self) -> Seq<char> {
        self.path@
    }

    /// The last entry that was read.
    pub closed spec fn spec_last_dirent(&self) -> Option<DirEntry> {
        self.last_dirent
    }

    /// Returns a directory of which nothing was read yet.
    pub fn new(inner: FileId, path: String) -> (r: Directory)
        ensures
            r.spec_inner() == inner,
            r.spec_path() == path@,
            r.spec_last_dirent() is None,
    {
        Directory { inner, path, last_dirent: None }
    }

    /// Get the path of the directory.
    pub fn path(&self) -> (r: &str)
        ensures
            r@ == self.spec_path(),
    {
        self.path.as_str()
    }

    /// Get the inner node of the directory.
    pub fn inner(&self) -> (r: FileId)
        ensures
            r == self.spec_inner(),
    {
        self.inner
    }

    /// Get the last directory entry.
    pub fn last_dirent(&mut self) -> (r: &mut Option<DirEntry>)
        ensures
            *r == old(self).spec_last_dirent(),
            final(self).spec_last_dirent() == *final(r),
            final(self).spec_inner() == old(self).spec_inner(),
            final(self).spec_path() == old(self).spec_path(),
    {
        &mut self.last_dirent
    }

    /// A directory cannot be read as a file.
    pub fn read(&self) -> (r: Result<usize, LinuxError>)
        ensures
            r == Err::<usize, LinuxError>(LinuxError::EBADF),
    {
        Err(LinuxError::EBADF)
    }

    /// A directory cannot be written as a file.
    pub fn write(&self) -> (r: Result<usize, LinuxError>)
        ensures
            r == Err::<usize, LinuxError>(LinuxError::EBADF),
    {
        Err(LinuxError::EBADF)
    }

    /// Returns the status of the directory: that it is one, and may be read by
    /// all and written by its owner.
    pub fn stat(&self) -> (r: Result<Kstat, LinuxError>)
        ensures
            r == Ok::<Kstat, LinuxError>(
                Kstat { mode: 0o040755, size: 0, blocks: 0, blksize: 0 },
            ),
    {
        Ok(Kstat { mode: 0o040755, size: 0, blocks: 0, blksize: 0 })
    }

    /// A directory can be read but not written.
    pub fn poll(&self) -> (r: Result<PollState, LinuxError>)
        ensures
            r == Ok::<PollState, LinuxError>(PollState { readable: true, writable: false }),
    {
        Ok(PollState { readable: true, writable: false })
    }

    /// A directory never blocks.
    pub fn set_nonblocking(&self, nonblocking: bool) -> (r: Result<(), LinuxError>)
        ensures
            r == Ok::<(), LinuxError>(()),
    {
        Ok(())
    }
}

} // verus!
