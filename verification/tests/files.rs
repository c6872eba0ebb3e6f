use starry::api::file::fs::{Directory, File, FileOp, Fsync, SeekFrom};
use starry::api::imp::fs::ctl::{
    sys_getcwd, sys_getdents64, sys_ioctl, sys_unlinkat, DirBuffer, DirEnt, DirEntry, FileType,
    Getcwd, UnlinkEvent, UnlinkStep,
};
use starry::api::imp::fs::io::{sys_read, sys_write, sys_writev};
use starry::api::imp::fs::stat::{
    check_stat_path, sys_fstat, sys_fstatat, sys_lstat, sys_stat, sys_statx, Stat, StatX,
    AT_EMPTY_PATH,
};
use starry::api::imp::time::{
    sys_clock_gettime, sys_get_time_of_day, sys_times, timespec_to_timevalue,
    timevalue_to_timespec, TimeValue, Timespec, Timeval, Tms,
};
use starry::errno::LinuxError;
use starry::fd;
use starry::fd::fs::{directory_from_fd, FileAttr, FileKind, PollState};
use starry::fd::net::{addr_from_sockaddr, sockaddr_from_addr, Socket, SocketAddrV4};
use starry::user::UserRef;

fn entry(name: &str, file_type: FileType) -> DirEntry {
    DirEntry { name: name.as_bytes().to_vec(), file_type }
}

#[test]
fn directory_buffer() {
    let mut buffer = DirBuffer::new(vec![0; 50]);
    assert_eq!(buffer.remaining_space(), 50);
    let ent = DirEnt::new(1, 25, 25, FileType::Reg);
    assert!(buffer.write_entry(ent, &b"hello\0".to_vec()).is_ok());
    assert_eq!(buffer.remaining_space(), 25);
    assert!(buffer.can_fit_entry(25) && !buffer.can_fit_entry(26));
    assert!(buffer.write_entry(DirEnt::new(1, 0, 26, FileType::Dir), &vec![0; 7]).is_err());
    assert_eq!(buffer.read_entry(0), Some(ent));
    assert_eq!(buffer.read_entry(32), None);
    let bytes = buffer.into_bytes();
    assert_eq!(&bytes[..19], &[1, 0, 0, 0, 0, 0, 0, 0, 25, 0, 0, 0, 0, 0, 0, 0, 25, 0, 8]);
    assert_eq!(&bytes[19..25], b"hello\0");
}

#[test]
fn lists_a_directory() {
    let files = || Ok(vec![entry("a", FileType::Reg), entry("bb", FileType::Dir)]);
    let (bytes, r) = sys_getdents64(vec![0; 100], files());
    assert_eq!(r, Ok(43));
    let buffer = DirBuffer::new(bytes);
    assert_eq!(buffer.read_entry(0), Some(DirEnt::new(1, 21, 21, FileType::Reg)));
    assert_eq!(buffer.read_entry(21), Some(DirEnt::new(1, 43, 22, FileType::Dir)));
    // the entry that ends the listing
    assert_eq!(buffer.read_entry(43), Some(DirEnt::new(1, 43, 0, FileType::Reg)));
    let bytes = buffer.into_bytes();
    assert_eq!((&bytes[19..21], &bytes[40..43]), (&b"a\0"[..], &b"bb\0"[..]));
}

#[test]
fn goes_on_with_a_listing() {
    let files = || Ok(vec![entry("a", FileType::Reg), entry("bb", FileType::Dir)]);
    // room for one entry
    let (bytes, r) = sys_getdents64(vec![0; 40], files());
    assert_eq!(r, Ok(21));
    // the next call passes over it, and writes from the beginning
    let (bytes, r) = sys_getdents64(bytes, files());
    assert_eq!(r, Ok(43));
    let buffer = DirBuffer::new(bytes);
    assert_eq!(buffer.read_entry(0), Some(DirEnt::new(1, 43, 22, FileType::Dir)));
}

#[test]
fn listing_fails() {
    let (bytes, r) = sys_getdents64(vec![1; 18], Ok(vec![]));
    assert_eq!((bytes, r), (vec![1; 18], Err(LinuxError::EINVAL)));
    let (_, r) = sys_getdents64(vec![0; 19], Err(LinuxError::ENOTDIR));
    assert_eq!(r, Err(LinuxError::ENOTDIR));
    let (bytes, r) = sys_getdents64(vec![0; 19], Ok(vec![]));
    assert_eq!((bytes, r), (vec![0; 19], Ok(0)));
    let (bytes, r) = sys_getdents64(vec![0; 20], Ok(vec![entry("a", FileType::Reg)]));
    assert_eq!((bytes, r), (vec![0; 20], Ok(0)));
}

#[test]
fn file_types() {
    assert_eq!(FileType::from_kind(true, false), FileType::Dir);
    assert_eq!(FileType::from_kind(false, true), FileType::Reg);
    assert_eq!(FileType::from_kind(false, false), FileType::Unknown);
    let codes: Vec<u8> = [
        FileType::Unknown,
        FileType::Fifo,
        FileType::Chr,
        FileType::Dir,
        FileType::Blk,
        FileType::Reg,
        FileType::Lnk,
        FileType::Socket,
        FileType::Wht,
    ]
    .iter()
    .map(|t| t.code())
    .collect();
    assert_eq!(codes, vec![0, 1, 2, 4, 6, 8, 10, 12, 14]);
}

#[test]
fn unlinks() {
    let at_removedir = linux_raw_sys::general::AT_REMOVEDIR;
    assert!(matches!(sys_unlinkat(UnlinkEvent::Called(at_removedir)), UnlinkStep::RemoveDir));
    assert!(matches!(sys_unlinkat(UnlinkEvent::Called(0)), UnlinkStep::LookUp));
    assert!(matches!(
        sys_unlinkat(UnlinkEvent::LookedUp(Ok(true))),
        UnlinkStep::Return(Err(LinuxError::EISDIR))
    ));
    assert!(matches!(sys_unlinkat(UnlinkEvent::LookedUp(Ok(false))), UnlinkStep::RemoveLink));
    assert!(matches!(
        sys_unlinkat(UnlinkEvent::LinkRemoved(false)),
        UnlinkStep::Return(Err(LinuxError::ENOENT))
    ));
    assert!(matches!(sys_unlinkat(UnlinkEvent::LinkRemoved(true)), UnlinkStep::Return(Ok(0))));
    assert!(matches!(
        sys_unlinkat(UnlinkEvent::DirRemoved(Err(LinuxError::ENOTDIR))),
        UnlinkStep::Return(Err(LinuxError::ENOTDIR))
    ));
    assert_eq!(sys_ioctl(0, 1, 2), Ok(0));
}

#[test]
fn current_directory() {
    let cwd = || Ok(b"/home".to_vec());
    match sys_getcwd(UserRef::Valid(()), 6, cwd()) {
        Getcwd::Written(bytes) => assert_eq!(bytes, b"/home\0".to_vec()),
        other => panic!("{:?}", other),
    }
    assert!(matches!(
        sys_getcwd(UserRef::Valid(()), 5, cwd()),
        Getcwd::Failed(LinuxError::ERANGE)
    ));
    assert!(matches!(sys_getcwd(UserRef::Null, 5, cwd()), Getcwd::Nowhere));
    assert!(matches!(
        sys_getcwd(UserRef::Valid(()), 50, Ok(vec![47, 0, 47])),
        Getcwd::Failed(LinuxError::EINVAL)
    ));
    assert!(matches!(
        sys_getcwd(UserRef::Invalid(LinuxError::EFAULT), 5, cwd()),
        Getcwd::Failed(LinuxError::EFAULT)
    ));
}

#[test]
fn writes_buffers() {
    assert_eq!(sys_writev(1025).unwrap_err(), LinuxError::EINVAL);
    assert_eq!(sys_writev(0).unwrap().result(), Some(Ok(0)));
    let mut call = sys_writev(3).unwrap();
    assert_eq!(call.result(), None);
    assert_eq!(call.advance(10, Ok(10)), None);
    assert_eq!(call.advance(5, Ok(5)), None);
    assert_eq!(call.advance(1, Ok(1)), Some(Ok(16)));
    let mut call = sys_writev(3).unwrap();
    assert_eq!(call.advance(10, Ok(10)), None);
    assert_eq!(call.advance(5, Ok(4)), Some(Ok(14)));
    let mut call = sys_writev(3).unwrap();
    assert_eq!(call.advance(10, Ok(10)), None);
    assert_eq!(call.advance(5, Err(LinuxError::EBADF)), Some(Err(LinuxError::EBADF)));
    assert_eq!(sys_read(Ok(7)), Ok(7));
    assert_eq!(sys_write(Err(LinuxError::EBADF)), Err(LinuxError::EBADF));
}

#[test]
fn checks_paths() {
    let path = |s: &str| UserRef::Valid(String::from(s));
    assert_eq!(AT_EMPTY_PATH, linux_raw_sys::general::AT_EMPTY_PATH);
    assert_eq!(check_stat_path(path("x"), 0), Ok(String::from("x")));
    assert_eq!(check_stat_path(path(""), 0), Err(LinuxError::ENOENT));
    assert_eq!(check_stat_path(path(""), AT_EMPTY_PATH), Ok(String::new()));
    assert_eq!(check_stat_path(UserRef::Null, 0), Err(LinuxError::ENOENT));
    assert_eq!(check_stat_path(UserRef::Null, AT_EMPTY_PATH), Ok(String::new()));
    assert_eq!(
        check_stat_path(UserRef::Invalid(LinuxError::EFAULT), AT_EMPTY_PATH),
        Err(LinuxError::EFAULT)
    );
}

#[test]
fn reports_status() {
    let stat = Stat { st_ino: 3, ..Stat::default() };
    let r = sys_stat(Ok(stat), Ok(()));
    assert_eq!((r.written, r.result), (Some(stat), Ok(0)));
    let r = sys_fstat(Err(LinuxError::EBADF), Err(LinuxError::EFAULT));
    assert_eq!((r.written, r.result), (None, Err(LinuxError::EBADF)));
    let path = UserRef::Valid(String::from("x"));
    let r = sys_fstatat(&path, 0, Ok(stat), Ok(()));
    assert_eq!((r.written, r.result), (Some(stat), Ok(0)));
    let r = sys_fstatat(&path, 0, Ok(stat), Err(LinuxError::EFAULT));
    assert_eq!((r.written, r.result), (None, Err(LinuxError::EFAULT)));
    let r = sys_fstatat(&UserRef::Null, 0, Ok(stat), Ok(()));
    assert_eq!((r.written, r.result), (None, Err(LinuxError::ENOENT)));
    let r = sys_lstat(Ok(stat), Ok(()));
    assert_eq!((r.written, r.result), (Some(stat), Ok(0)));
    let r = sys_lstat(Err(LinuxError::ENOENT), Ok(()));
    assert_eq!((r.written, r.result), (None, Err(LinuxError::ENOENT)));
}

#[test]
fn reports_extended_status() {
    let stat = Stat {
        st_ino: 3,
        st_mode: 0o100644,
        st_nlink: 2,
        st_uid: 5,
        st_gid: 6,
        st_size: 7,
        st_blksize: 512,
        st_blocks: 8,
        st_atime: Timespec { tv_sec: 1, tv_nsec: 2 },
        st_mtime: Timespec { tv_sec: 3, tv_nsec: 4 },
        st_ctime: Timespec { tv_sec: 5, tv_nsec: 6 },
        ..Stat::default()
    };
    let old = StatX { stx_mask: 99, stx_mnt_id: 98, ..StatX::default() };
    let path = UserRef::Valid(String::from("x"));
    let x = sys_statx(&path, 0, Ok(stat), Ok(old)).written.unwrap();
    assert_eq!((x.stx_mask, x.stx_mnt_id), (99, 98));
    assert_eq!((x.stx_mode, x.stx_attributes, x.stx_attributes_mask), (0o100644, 0o100644, 0x7ff));
    assert_eq!((x.stx_ino, x.stx_nlink, x.stx_uid, x.stx_gid), (3, 2, 5, 6));
    assert_eq!((x.stx_size, x.stx_blocks, x.stx_blksize), (7, 8, 512));
    assert_eq!((x.stx_atime.tv_sec, x.stx_atime.tv_nsec), (1, 2));
    assert_eq!((x.stx_mtime.tv_sec, x.stx_mtime.tv_nsec), (3, 4));
    assert_eq!((x.stx_ctime.tv_sec, x.stx_ctime.tv_nsec), (5, 6));
    let r = sys_statx(&path, 0, Ok(stat), Err(LinuxError::EFAULT));
    assert_eq!(r.result, Err(LinuxError::EFAULT));
    let r = sys_statx(&path, 0, Err(LinuxError::EBADF), Ok(old));
    assert_eq!(r.result, Err(LinuxError::EBADF));
    let empty = UserRef::Valid(String::new());
    assert_eq!(sys_statx(&empty, 0, Ok(stat), Ok(old)).result, Err(LinuxError::ENOENT));
    assert_eq!(sys_statx(&empty, AT_EMPTY_PATH, Ok(stat), Ok(old)).result, Ok(0));
    let invalid = UserRef::Invalid(LinuxError::EFAULT);
    assert_eq!(sys_statx(&invalid, 0, Ok(stat), Ok(old)).result, Err(LinuxError::EFAULT));
}

#[test]
fn time() {
    let wall = TimeValue { secs: 10, nanos: 1_500 };
    let mono = TimeValue { secs: 3, nanos: 2_999 };
    let r = sys_clock_gettime(0, wall, mono, Ok(()));
    assert_eq!((r.written, r.result), (Some(Timespec { tv_sec: 10, tv_nsec: 1_500 }), Ok(0)));
    let r = sys_clock_gettime(1, wall, mono, Ok(()));
    assert_eq!(r.written, Some(Timespec { tv_sec: 3, tv_nsec: 2_999 }));
    let r = sys_clock_gettime(2, wall, mono, Err(LinuxError::EFAULT));
    assert_eq!((r.written, r.result), (None, Err(LinuxError::EINVAL)));
    let r = sys_clock_gettime(1, wall, mono, Err(LinuxError::EFAULT));
    assert_eq!((r.written, r.result), (None, Err(LinuxError::EFAULT)));
    let r = sys_get_time_of_day(mono, Ok(()));
    assert_eq!((r.written, r.result), (Some(Timeval { tv_sec: 3, tv_usec: 2 }), Ok(0)));
    assert_eq!(timespec_to_timevalue(timevalue_to_timespec(wall)), wall);
    let r = sys_times(4, 5, 6, 7, 77, Ok(()));
    let tms = Tms { tms_utime: 4, tms_stime: 5, tms_cutime: 6, tms_cstime: 7 };
    assert_eq!((r.written, r.result), (Some(tms), Ok(77)));
    let r = sys_times(4, 5, 6, 7, 77, Err(LinuxError::EFAULT));
    assert_eq!(r.result, Err(LinuxError::EFAULT));
}

#[test]
fn cached_files_have_a_cursor() {
    let mut file = File::new_file_cached(String::from("/a"), 100);
    assert_eq!((file.size(1), file.offset(), file.path().as_str()), (100, 0, "/a"));
    assert!(file.uses_cache());
    assert_eq!(file.seek(SeekFrom::End(-10), None), Ok(90));
    assert_eq!(file.seek(SeekFrom::Current(5), None), Ok(95));
    file.finish_read(2);
    assert_eq!((file.size(0), file.offset()), (100, 97));
    file.finish_write(10);
    assert_eq!((file.size(0), file.offset()), (107, 107));
    assert_eq!(file.seek(SeekFrom::Start(7), None), Ok(7));
    file.finish_write(10);
    assert_eq!((file.size(0), file.offset()), (107, 17));
    // no offset: the beginning
    assert_eq!(file.seek(SeekFrom::Current(-18), None), Ok(0));
    assert_eq!(file.fsync(), Fsync::SyncCache);
    assert_eq!(file.read_at(5), FileOp::Cache { offset: 5 });
    assert_eq!(file.write_at(6), FileOp::Cache { offset: 6 });
    assert_eq!(file.truncate(7), (FileOp::Cache { offset: 7 }, 7));
    assert_eq!(file.poll(), Ok(PollState { readable: true, writable: true }));
}

#[test]
fn direct_files_ask_the_file_system() {
    let mut file = File::new_file_direct(String::from("/d"), 4);
    assert_eq!(file.size(55), 55);
    assert!(!file.uses_cache());
    assert_eq!(file.seek(SeekFrom::Start(3), Some(3)), Ok(3));
    assert_eq!(file.seek(SeekFrom::Start(3), None), Err(LinuxError::EINVAL));
    assert_eq!(file.fsync(), Fsync::Return(0));
    assert_eq!(file.read_at(5), FileOp::Direct { file: 4, offset: 5 });
    assert_eq!(file.write_at(6), FileOp::Direct { file: 4, offset: 6 });
    assert_eq!(file.truncate(7), (FileOp::Direct { file: 4, offset: 7 }, 7));
    let attr = FileAttr { file_type: 8, perm: 0o600, size: 9, blocks: 1 };
    let stat = file.stat(Ok(attr)).unwrap();
    assert_eq!((stat.mode, stat.size, stat.blocks, stat.blksize), (0o100600, 9, 1, 512));
    assert_eq!(file.set_nonblocking(true), Ok(()));
}

#[test]
fn directories() {
    let mut dir = Directory::new(5, String::from("/"));
    assert_eq!((dir.path(), dir.inner()), ("/", 5));
    assert!(dir.last_dirent().is_none());
    *dir.last_dirent() = Some(entry("x", FileType::Reg));
    assert_eq!(dir.last_dirent().as_ref().unwrap().name, b"x".to_vec());
    assert_eq!(dir.read(), Err(LinuxError::EBADF));
    assert_eq!(dir.write(), Err(LinuxError::EBADF));
    assert_eq!(dir.stat().unwrap().mode, linux_raw_sys::general::S_IFDIR | 0o755);
    assert_eq!(dir.poll(), Ok(PollState { readable: true, writable: false }));
    let plain = fd::fs::Directory::new(5, String::from("/"));
    assert_eq!(plain.stat(), Err(LinuxError::EBADF));
    assert_eq!(plain.read(), Err(LinuxError::EBADF));
    assert_eq!(directory_from_fd(Ok(FileKind::Directory)), Ok(()));
    assert_eq!(directory_from_fd(Ok(FileKind::File)), Err(LinuxError::ENOTDIR));
    assert_eq!(directory_from_fd(Err(LinuxError::EBADF)), Err(LinuxError::EBADF));
}

#[test]
fn plain_files() {
    let file = fd::fs::File::new(3, String::from("/f"));
    assert_eq!((file.path(), file.inner()), ("/f", 3));
    let attr = FileAttr { file_type: 8, perm: 0o644, size: 10, blocks: 2 };
    let stat = file.stat(Ok(attr)).unwrap();
    assert_eq!(
        stat,
        Stat {
            st_ino: 1,
            st_nlink: 1,
            st_mode: 0o100644,
            st_uid: 1000,
            st_gid: 1000,
            st_size: 10,
            st_blocks: 2,
            st_blksize: 512,
            ..Stat::default()
        }
    );
    assert_eq!(file.stat(Err(LinuxError::EBADF)), Err(LinuxError::EBADF));
}

#[test]
fn sockets() {
    let addr = SocketAddrV4 { ip: [127, 0, 0, 1], port: 8080 };
    let sa = sockaddr_from_addr(addr);
    assert_eq!((sa.sin_family, sa.sin_port, sa.sin_addr), (2, [31, 144], [127, 0, 0, 1]));
    assert_eq!(sa.sin_port, 8080u16.to_be_bytes());
    let back = addr_from_sockaddr(sa);
    assert_eq!((back.ip, back.port), (addr.ip, addr.port));
    assert_eq!(Socket::Tcp.sendto(), Err(LinuxError::EISCONN));
    assert_eq!(Socket::Udp.sendto(), Ok(()));
    assert_eq!(Socket::Udp.listen(), Err(LinuxError::EOPNOTSUPP));
    assert_eq!(Socket::Udp.accept(), Err(LinuxError::EOPNOTSUPP));
    assert_eq!(Socket::Tcp.listen(), Ok(()));
    assert_eq!(Socket::Udp.recv(Ok((5, Some(addr)))), Ok(5));
    assert_eq!(Socket::Udp.recvfrom(Ok((5, Some(addr)))).unwrap().1.unwrap().port, 8080);
    assert!(Socket::Tcp.recvfrom(Ok((5, Some(addr)))).unwrap().1.is_none());
    assert_eq!(Socket::Tcp.stat().unwrap().st_mode, 0o140777);
    assert_eq!(Socket::Tcp.stat().unwrap().st_blksize, 4096);
}

#[test]
fn error_codes() {
    let pairs = [
        (LinuxError::EPERM, axerrno::LinuxError::EPERM),
        (LinuxError::ENOENT, axerrno::LinuxError::ENOENT),
        (LinuxError::ESRCH, axerrno::LinuxError::ESRCH),
        (LinuxError::EINTR, axerrno::LinuxError::EINTR),
        (LinuxError::EBADF, axerrno::LinuxError::EBADF),
        (LinuxError::ECHILD, axerrno::LinuxError::ECHILD),
        (LinuxError::EAGAIN, axerrno::LinuxError::EAGAIN),
        (LinuxError::ENOMEM, axerrno::LinuxError::ENOMEM),
        (LinuxError::EFAULT, axerrno::LinuxError::EFAULT),
        (LinuxError::ENODEV, axerrno::LinuxError::ENODEV),
        (LinuxError::ENOTDIR, axerrno::LinuxError::ENOTDIR),
        (LinuxError::EISDIR, axerrno::LinuxError::EISDIR),
        (LinuxError::EINVAL, axerrno::LinuxError::EINVAL),
        (LinuxError::ERANGE, axerrno::LinuxError::ERANGE),
        (LinuxError::ENOSYS, axerrno::LinuxError::ENOSYS),
        (LinuxError::EOPNOTSUPP, axerrno::LinuxError::EOPNOTSUPP),
        (LinuxError::EISCONN, axerrno::LinuxError::EISCONN),
    ];
    for (ours, theirs) in pairs {
        assert_eq!(ours.code(), theirs.code());
        assert_eq!(LinuxError::from_code(theirs.code()), ours);
    }
    assert_eq!(LinuxError::from_code(77), LinuxError::Other(77));
}
