use linux_raw_sys::general as linux;
use starry::api::imp::mm::mmap::{
    lazy_map_file, sys_mmap, sys_mprotect, sys_msync, sys_munmap, LazyMap, MappingFlags,
    MmapAction, MmapArea, MmapEvent, MunmapAction, PageRange, MAP_ANONYMOUS, MAP_FIXED, MAP_NORESERVE,
    MAP_POPULATE, MAP_PRIVATE, MAP_SHARED, MAP_STACK, PROT_ALL, PROT_EXEC, PROT_GROWSDOWN,
    PROT_GROWSUP, PROT_READ, PROT_WRITE,
};
use starry::errno::LinuxError;

#[test]
fn flags_are_those_of_linux() {
    let pairs = [
        (PROT_READ, linux::PROT_READ),
        (PROT_WRITE, linux::PROT_WRITE),
        (PROT_EXEC, linux::PROT_EXEC),
        (PROT_GROWSDOWN, linux::PROT_GROWSDOWN),
        (PROT_GROWSUP, linux::PROT_GROWSUP),
        (MAP_SHARED, linux::MAP_SHARED),
        (MAP_PRIVATE, linux::MAP_PRIVATE),
        (MAP_FIXED, linux::MAP_FIXED),
        (MAP_ANONYMOUS, linux::MAP_ANONYMOUS),
        (MAP_NORESERVE, linux::MAP_NORESERVE),
        (MAP_POPULATE, linux::MAP_POPULATE),
        (MAP_STACK, linux::MAP_STACK),
    ];
    for (ours, theirs) in pairs {
        assert_eq!(ours, theirs);
    }
    assert_eq!(PROT_ALL, PROT_READ | PROT_WRITE | PROT_EXEC | PROT_GROWSDOWN | PROT_GROWSUP);
}

#[test]
fn maps_anonymous_memory() {
    let flags = MAP_ANONYMOUS | MAP_PRIVATE | MAP_POPULATE;
    let mut call = sys_mmap(0x1234, 0x2000, PROT_READ | PROT_WRITE, flags, 5, 0).unwrap();
    let plan = call.plan();
    assert_eq!((plan.start, plan.aligned_length, plan.length), (0x1000, 0x3000, 0x2000));
    assert_eq!((plan.fd, plan.shared, plan.populate), (-1, false, true));
    assert_eq!(
        plan.flags,
        MappingFlags { read: true, write: true, execute: false, user: true }
    );
    assert!(matches!(call.action(), MmapAction::FindFree));
    call.advance(MmapEvent::Found(None));
    assert!(matches!(call.action(), MmapAction::FindFreeAnywhere));
    call.advance(MmapEvent::Found(Some(0x7000)));
    assert!(matches!(call.action(), MmapAction::AddArea(0x7000)));
    call.advance(MmapEvent::Done(Ok(())));
    assert!(matches!(call.action(), MmapAction::MapAlloc(0x7000)));
    call.advance(MmapEvent::Done(Ok(())));
    assert!(matches!(call.action(), MmapAction::Return(Ok(0x7000))));
}

#[test]
fn no_room_is_an_error() {
    let mut call = sys_mmap(0, 1, 0, MAP_ANONYMOUS, -1, 0).unwrap();
    call.advance(MmapEvent::Found(None));
    call.advance(MmapEvent::Found(None));
    assert!(matches!(call.action(), MmapAction::Return(Err(LinuxError::ENOMEM))));
}

#[test]
fn maps_at_a_fixed_place() {
    let r = sys_mmap(0xfff, 1, 0, MAP_FIXED | MAP_ANONYMOUS, -1, 0);
    assert_eq!(r.unwrap_err(), LinuxError::EINVAL);
    let mut call = sys_mmap(0x5000, 1, 0, MAP_FIXED | MAP_ANONYMOUS, -1, 0).unwrap();
    assert!(matches!(call.action(), MmapAction::Unmap));
    call.advance(MmapEvent::Done(Ok(())));
    assert!(matches!(call.action(), MmapAction::AddArea(0x5000)));
    call.advance(MmapEvent::Done(Err(LinuxError::ENOMEM)));
    assert!(matches!(call.action(), MmapAction::Return(Err(LinuxError::ENOMEM))));
}

#[test]
fn maps_a_private_file() {
    assert_eq!(sys_mmap(0, 1, 0, MAP_PRIVATE, 3, 100).unwrap_err(), LinuxError::EINVAL);
    let far = sys_mmap(usize::MAX, 1, 0, MAP_PRIVATE, 3, 100);
    assert_eq!(far.unwrap_err(), LinuxError::EINVAL);
    let start = || {
        let mut call = sys_mmap(0x4000, 0x3000, PROT_READ, MAP_PRIVATE, 3, 0x1000).unwrap();
        call.advance(MmapEvent::Found(Some(0x4000)));
        call.advance(MmapEvent::Done(Ok(())));
        call.advance(MmapEvent::Done(Ok(())));
        assert!(matches!(call.action(), MmapAction::FileSize(0x4000)));
        call
    };
    let mut call = start();
    call.advance(MmapEvent::Size(Ok(0x1000)));
    assert!(matches!(call.action(), MmapAction::Return(Err(LinuxError::EINVAL))));
    let mut call = start();
    call.advance(MmapEvent::Size(Ok(0x1800)));
    assert!(matches!(call.action(), MmapAction::CopyFile { addr: 0x4000, len: 0x800 }));
    call.advance(MmapEvent::Done(Ok(())));
    assert!(matches!(call.action(), MmapAction::Return(Ok(0x4000))));
    let mut call = start();
    call.advance(MmapEvent::Size(Ok(0x9000)));
    assert!(matches!(call.action(), MmapAction::CopyFile { addr: 0x4000, len: 0x3000 }));
    let mut call = start();
    call.advance(MmapEvent::Size(Err(LinuxError::EBADF)));
    assert!(matches!(call.action(), MmapAction::Return(Err(LinuxError::EBADF))));
}

#[test]
fn maps_a_shared_file() {
    let mut call = sys_mmap(0x4000, 0x3000, PROT_READ, MAP_SHARED | MAP_POPULATE, 3, 0).unwrap();
    assert_eq!((call.plan().fd, call.plan().shared, call.plan().populate), (3, true, false));
    call.advance(MmapEvent::Found(Some(0x4000)));
    call.advance(MmapEvent::Done(Ok(())));
    call.advance(MmapEvent::Done(Ok(())));
    assert!(matches!(call.action(), MmapAction::Return(Ok(0x4000))));
}

#[test]
fn synchronises_and_unmaps() {
    let file = MmapArea { start: 0x10_000, fd: 4, shared: true };
    let anon = MmapArea { start: 0x10_000, fd: -1, shared: false };
    assert_eq!(sys_msync(0x11_001, 0x2000, Some(file)), Err(LinuxError::EINVAL));
    assert_eq!(sys_msync(0x11_000, 0x2000, None), Err(LinuxError::EINVAL));
    assert_eq!(sys_msync(0x11_000, 0x2000, Some(anon)), Ok(None));
    assert_eq!(
        sys_msync(0x11_000, 0x2000, Some(file)),
        Ok(Some(PageRange { fd: 4, first: 1, end: 3 }))
    );
    let call = sys_munmap(0x10_000, 0x1fff, Some(file)).unwrap();
    let plan = call.plan();
    assert_eq!(plan.sync, Some(PageRange { fd: 4, first: 0, end: 2 }));
    assert_eq!(plan.pages, vec![(0, 0x10_000), (1, 0x11_000)]);
    assert_eq!(plan.aligned_length, 0x2000);
    // the last page counts though the range ends inside it
    let call = sys_munmap(0x10_000, 100, Some(file)).unwrap();
    let plan = call.plan();
    assert_eq!(plan.sync, Some(PageRange { fd: 4, first: 0, end: 1 }));
    assert_eq!(plan.pages, vec![(0, 0x10_000)]);
    // a page is taken from the address that a fault mapped it at
    let call = sys_munmap(0x11_000, 0x1000, Some(file)).unwrap();
    let plan = call.plan();
    assert_eq!(plan.pages, vec![(1, 0x11_000)]);
    let fault = lazy_map_file(0x11_abc, Some(file)).unwrap();
    assert_eq!(plan.pages[0], (fault.page_id, fault.vaddr));
    let call = sys_munmap(0x10_000, 0x2000, Some(file)).unwrap();
    let plan = call.plan();
    assert_eq!(plan.pages, vec![(0, 0x10_000), (1, 0x11_000)]);
    let call = sys_munmap(0x10_000, 0x2000, Some(anon)).unwrap();
    let plan = call.plan();
    assert_eq!((plan.sync, plan.pages.len()), (None, 0));
    assert_eq!(sys_munmap(0x10_000, 0x2000, None).unwrap_err(), LinuxError::EINVAL);
}

#[test]
fn unmaps_in_order() {
    let file = MmapArea { start: 0x10_000, fd: 4, shared: true };
    let mut call = sys_munmap(0x10_000, 0x1800, Some(file)).unwrap();
    let range = PageRange { fd: 4, first: 0, end: 2 };
    assert_eq!((call.plan().addr, call.plan().aligned_length), (0x10_000, 0x2000));
    assert!(matches!(call.action(), MunmapAction::WriteBack(r) if r == range));
    call.advance(Ok(()));
    assert!(matches!(call.action(), MunmapAction::ForgetArea));
    call.advance(Ok(()));
    assert!(matches!(call.action(), MunmapAction::UnmapPage(0)));
    call.advance(Ok(()));
    assert!(matches!(call.action(), MunmapAction::UnmapPage(1)));
    call.advance(Ok(()));
    assert!(matches!(call.action(), MunmapAction::UnmapMemory));
    call.advance(Ok(()));
    assert!(matches!(call.action(), MunmapAction::FlushTlb));
    call.advance(Ok(()));
    assert!(matches!(call.action(), MunmapAction::Return(Ok(0))));
    // no page loses its address where the area is not forgotten
    let mut call = sys_munmap(0x10_000, 0x1800, Some(file)).unwrap();
    call.advance(Ok(()));
    call.advance(Err(LinuxError::ENOMEM));
    assert!(matches!(call.action(), MunmapAction::Return(Err(LinuxError::ENOMEM))));
    let mut call = sys_munmap(0x10_000, 0x1800, Some(file)).unwrap();
    call.advance(Err(LinuxError::EBADF));
    assert!(matches!(call.action(), MunmapAction::Return(Err(LinuxError::EBADF))));
    // memory without a file has no pages to write back
    let mut call = sys_munmap(0x10_000, 1, Some(MmapArea { fd: -1, ..file })).unwrap();
    assert!(matches!(call.action(), MunmapAction::ForgetArea));
    call.advance(Ok(()));
    assert!(matches!(call.action(), MunmapAction::UnmapMemory));
}

#[test]
fn protects() {
    let plan = sys_mprotect(0x1000, 0x1001, PROT_EXEC).unwrap();
    assert_eq!((plan.addr, plan.aligned_length), (0x1000, 0x2000));
    assert_eq!(
        plan.flags,
        MappingFlags { read: false, write: false, execute: true, user: true }
    );
    assert_eq!(sys_mprotect(0, 1, 8), Err(LinuxError::EINVAL));
    assert_eq!(
        sys_mprotect(0, 1, PROT_GROWSDOWN | PROT_GROWSUP),
        Err(LinuxError::EINVAL)
    );
    assert!(sys_mprotect(0, 1, PROT_GROWSDOWN).is_ok());
}

#[test]
fn maps_file_pages_on_faults() {
    let file = MmapArea { start: 0x10_000, fd: 4, shared: true };
    assert_eq!(
        lazy_map_file(0x12_345, Some(file)),
        Some(LazyMap { fd: 4, page_id: 2, vaddr: 0x12_000 })
    );
    assert_eq!(lazy_map_file(0x12_345, Some(MmapArea { fd: -1, ..file })), None);
    assert_eq!(lazy_map_file(0x12_345, None), None);
    // a private mapping shows a copy of the file
    assert_eq!(lazy_map_file(0x12_345, Some(MmapArea { shared: false, ..file })), None);
}
