use starry::api::file::io::{IoReply, IoRequest};
use starry::api::file::manager::{begin_populate, begin_range, PageCacheManager};
use starry::api::file::page::Page;
use starry::api::file::page_cache::{
    CachePage, FinishStage, FinishStep, MapStage, MapStep, MetadataOp, PageCache, Progress,
};
use starry::api::file::page_pool::{PagePool, PoolPage, DEFAULT_PAGE_POOL_SIZE};
use starry::api::file::page_tables::{PageTables, PteOp, PteState};
use starry::errno::LinuxError;
use starry::frame::prepared;
use std::sync::Once;

static INIT: Once = Once::new();

/// Hands the page allocator some memory of its own.
fn init() {
    INIT.call_once(|| {
        let size: usize = 16 << 20;
        let memory = Box::leak(vec![0u8; size + 4096].into_boxed_slice());
        let start = (memory.as_ptr() as usize + 4095) / 4096 * 4096;
        axalloc::global_init(start, size);
    });
}

/// A file system that holds one file and moves a limited number of bytes at a
/// time.
struct Disk {
    data: Vec<u8>,
    pos: usize,
    step: usize,
    fail: bool,
}

impl Disk {
    fn new(data: Vec<u8>) -> Disk {
        Disk { data, pos: 0, step: 1000, fail: false }
    }

    fn serve(&mut self, request: IoRequest) -> IoReply {
        if self.fail {
            // the ArceOS error kind for I/O errors
            return IoReply::Failed(axerrno::AxError::Io.code());
        }
        match request {
            IoRequest::Seek { offset, .. } => {
                self.pos = offset as usize;
                IoReply::Done
            }
            IoRequest::Read { len, .. } => {
                let start = self.pos.min(self.data.len());
                let end = (start + len.min(self.step)).min(self.data.len());
                self.pos = end.max(self.pos);
                IoReply::Data(self.data[start..end].to_vec())
            }
            IoRequest::WriteAt { offset, data, .. } => {
                let offset = offset as usize;
                let n = data.len().min(self.step);
                if self.data.len() < offset + n {
                    self.data.resize(offset + n, 0);
                }
                self.data[offset..offset + n].copy_from_slice(&data[..n]);
                IoReply::Wrote(n)
            }
            IoRequest::GetSize { .. } => IoReply::Size(self.data.len() as u64),
            IoRequest::Truncate { size, .. } => {
                self.data.truncate(size as usize);
                IoReply::Done
            }
        }
    }

    fn finish(&mut self, pool: &mut PagePool, tables: &mut PageTables) {
        while let Some(request) = pool.request() {
            let reply = self.serve(request);
            assert!(pool.accepts(&reply));
            pool.complete(reply, tables);
        }
    }
}

fn read(
    cache: &mut PageCache,
    offset: usize,
    want: usize,
    disk: &mut Disk,
    pool: &mut PagePool,
    tables: &mut PageTables,
) -> Vec<u8> {
    let mut buf = vec![0xeeu8; want];
    let mut op = cache.begin_read(offset, want);
    while cache.read_at(&mut op, &mut buf, pool, tables) != Progress::Done {
        disk.finish(pool, tables);
    }
    buf.truncate(op.len);
    buf
}

fn write(
    cache: &mut PageCache,
    offset: usize,
    data: &[u8],
    disk: &mut Disk,
    pool: &mut PagePool,
    tables: &mut PageTables,
) {
    let mut op = cache.begin_write(offset, data.len());
    while cache.fill_gap(&mut op.gap, pool, tables) != Progress::Done {
        disk.finish(pool, tables);
    }
    while cache.write_at(&mut op, data, pool, tables) != Progress::Done {
        disk.finish(pool, tables);
    }
}

fn sync(cache: &mut PageCache, disk: &mut Disk, pool: &mut PagePool, tables: &mut PageTables) {
    let mut op = cache.begin_sync();
    while !cache.sync(&mut op, pool, tables) {
        disk.finish(pool, tables);
    }
    let mut meta = MetadataOp::AskSize;
    while let Some(request) = cache.metadata_request(meta) {
        meta = cache.update_metadata(meta, disk.serve(request));
    }
    assert_eq!(meta, MetadataOp::Over(Ok(0)));
}

fn sample(len: usize) -> Vec<u8> {
    (0..len).map(|i| (i * 7 + i / 251) as u8).collect()
}

#[test]
fn reads_what_the_disk_holds() {
    init();
    let data = sample(10_000);
    let mut disk = Disk::new(data.clone());
    let mut pool = PagePool::new(2, 0);
    let mut tables = PageTables::new();
    let mut cache = PageCache::new(String::from("/a"), 7, 10_000);
    assert_eq!(cache.path(), "/a");
    assert_eq!(cache.file(), 7);
    assert_eq!(cache.get_file_size(), 10_000);
    let got = read(&mut cache, 4000, 5000, &mut disk, &mut pool, &mut tables);
    assert_eq!(got, data[4000..9000].to_vec());
    // no further than the end
    let got = read(&mut cache, 9_990, 100, &mut disk, &mut pool, &mut tables);
    assert_eq!(got, data[9_990..].to_vec());
    let got = read(&mut cache, 20_000, 100, &mut disk, &mut pool, &mut tables);
    assert!(got.is_empty());
    let got = read(&mut cache, usize::MAX, 100, &mut disk, &mut pool, &mut tables);
    assert!(got.is_empty());
    assert!(pool.len() <= 2);
}

#[test]
fn reads_what_was_written() {
    init();
    let mut disk = Disk::new(sample(20_000));
    let mut pool = PagePool::new(2, 0);
    let mut tables = PageTables::new();
    let mut cache = PageCache::new(String::from("/a"), 1, 20_000);
    let new = vec![9u8; 9_000];
    write(&mut cache, 3_000, &new, &mut disk, &mut pool, &mut tables);
    let mut expected = sample(20_000);
    expected[3_000..12_000].copy_from_slice(&new);
    // the pages have been evicted in between
    let got = read(&mut cache, 0, 20_000, &mut disk, &mut pool, &mut tables);
    assert_eq!(got, expected);
    assert_eq!(pool.len(), 2);
    sync(&mut cache, &mut disk, &mut pool, &mut tables);
    assert_eq!(disk.data, expected);
}

#[test]
fn writes_behind_the_end_leave_zeros() {
    init();
    let mut disk = Disk::new(vec![5u8; 100]);
    let mut pool = PagePool::new(3, 0);
    let mut tables = PageTables::new();
    let mut cache = PageCache::new(String::from("/a"), 1, 100);
    write(&mut cache, 12_288, &[1, 2, 3], &mut disk, &mut pool, &mut tables);
    assert_eq!(cache.get_file_size(), 12_291);
    let got = read(&mut cache, 4_096, 9_000, &mut disk, &mut pool, &mut tables);
    let mut expected = vec![0u8; 8_192];
    expected.extend_from_slice(&[1, 2, 3]);
    assert_eq!(got, expected);
    sync(&mut cache, &mut disk, &mut pool, &mut tables);
    assert_eq!(disk.data.len(), 12_291);
}

#[test]
fn a_gap_after_a_cut_reads_zero() {
    init();
    let mut disk = Disk::new(sample(3 * 4_096));
    let mut pool = PagePool::new(2, 0);
    let mut tables = PageTables::new();
    let mut cache = PageCache::new(String::from("/a"), 1, 3 * 4_096);
    // the old bytes are in the pool and on the disk
    read(&mut cache, 0, 3 * 4_096, &mut disk, &mut pool, &mut tables);
    cache.truncate(100);
    write(&mut cache, 200, &[1], &mut disk, &mut pool, &mut tables);
    let mut expected = sample(100);
    expected.resize(200, 0);
    expected.push(1);
    assert_eq!(read(&mut cache, 0, 9_999, &mut disk, &mut pool, &mut tables), expected);
    // over more than one page, and up to the middle of the last
    write(&mut cache, 2 * 4_096 + 50, &[2], &mut disk, &mut pool, &mut tables);
    expected.resize(2 * 4_096 + 50, 0);
    expected.push(2);
    assert_eq!(read(&mut cache, 0, 9_999, &mut disk, &mut pool, &mut tables), expected);
    sync(&mut cache, &mut disk, &mut pool, &mut tables);
    assert_eq!(disk.data, expected);
}

#[test]
fn a_page_that_misses_gets_another_key() {
    init();
    let mut disk = Disk::new(sample(4_096));
    let mut pool = PagePool::new(10, 0);
    let mut tables = PageTables::new();
    assert_eq!(pool.acquire_page(0, 1, 0, &mut tables), PoolPage::Loading(1));
    disk.finish(&mut pool, &mut tables);
    assert_eq!(pool.acquire_page(1, 1, 0, &mut tables), PoolPage::Hit);
    pool.drop_page(1, &mut tables);
    assert_eq!(pool.acquire_page(1, 1, 0, &mut tables), PoolPage::Loading(2));
}

#[test]
fn one_page_is_dropped_at_a_time() {
    init();
    let mut disk = Disk::new(sample(3 * 4_096));
    let mut pool = PagePool::new(5, 0);
    let mut tables = PageTables::new();
    let mut cache = PageCache::new(String::from("/a"), 1, 3 * 4_096);
    write(&mut cache, 0, &[1], &mut disk, &mut pool, &mut tables);
    write(&mut cache, 4_096, &[2], &mut disk, &mut pool, &mut tables);
    pool.auto_drop_page(&mut tables);
    disk.finish(&mut pool, &mut tables);
    assert_eq!(pool.len(), 1);
    // the second page goes, but its key stays in the list of dirty pages
    pool.drop_page(2, &mut tables);
    disk.finish(&mut pool, &mut tables);
    assert_eq!(pool.len(), 0);
    write(&mut cache, 2 * 4_096, &[3], &mut disk, &mut pool, &mut tables);
    assert_eq!(pool.len(), 1);
    pool.auto_drop_page(&mut tables);
    disk.finish(&mut pool, &mut tables);
    assert_eq!(pool.len(), 0);
    assert_eq!((disk.data[0], disk.data[4_096], disk.data[2 * 4_096]), (1, 2, 3));
}

#[test]
fn two_files_share_a_pool() {
    init();
    let mut disk_a = Disk::new(vec![1u8; 8_192]);
    let mut disk_b = Disk::new(vec![2u8; 8_192]);
    let mut pool = PagePool::new(1, 0);
    let mut tables = PageTables::new();
    let mut a = PageCache::new(String::from("/a"), 1, 8_192);
    let mut b = PageCache::new(String::from("/b"), 2, 8_192);
    let mut both = |pool: &mut PagePool, tables: &mut PageTables| {
        while let Some(request) = pool.request() {
            let file = match &request {
                IoRequest::Seek { file, .. } => *file,
                IoRequest::Read { file, .. } => *file,
                IoRequest::WriteAt { file, .. } => *file,
                IoRequest::GetSize { file } => *file,
                IoRequest::Truncate { file, .. } => *file,
            };
            let reply = if file == 1 { disk_a.serve(request) } else { disk_b.serve(request) };
            pool.complete(reply, tables);
        }
    };
    let mut op = a.begin_write(10, 3);
    while a.fill_gap(&mut op.gap, &mut pool, &mut tables) != Progress::Done {
        both(&mut pool, &mut tables);
    }
    while a.write_at(&mut op, &[7, 8, 9], &mut pool, &mut tables) != Progress::Done {
        both(&mut pool, &mut tables);
    }
    let mut buf = [0u8; 4];
    let mut op = b.begin_read(4_094, 4);
    while b.read_at(&mut op, &mut buf, &mut pool, &mut tables) != Progress::Done {
        both(&mut pool, &mut tables);
    }
    assert_eq!(buf, [2, 2, 2, 2]);
    let mut buf = [0u8; 5];
    let mut op = a.begin_read(9, 5);
    while a.read_at(&mut op, &mut buf, &mut pool, &mut tables) != Progress::Done {
        both(&mut pool, &mut tables);
    }
    assert_eq!(buf, [1, 7, 8, 9, 1]);
    assert_eq!(&disk_a.data[9..14], &[1, 7, 8, 9, 1]);
}

#[test]
fn truncates() {
    init();
    let mut disk = Disk::new(sample(9_000));
    let mut pool = PagePool::new(4, 0);
    let mut tables = PageTables::new();
    let mut cache = PageCache::new(String::from("/a"), 1, 9_000);
    let gap = cache.truncate(5_000);
    assert_eq!(gap.next, gap.end);
    assert_eq!(cache.get_file_size(), 5_000);
    sync(&mut cache, &mut disk, &mut pool, &mut tables);
    assert_eq!(disk.data, sample(9_000)[..5_000].to_vec());
    assert_eq!(cache.stat(8, 0o644, 3).mode, 0o100644);
    assert_eq!(cache.stat(8, 0o644, 3).size, 5_000);
    assert_eq!(cache.stat(8, 0o644, 3).blksize, 512);
}

#[test]
fn a_file_is_made_longer_by_whole_pages() {
    init();
    let mut disk = Disk::new(sample(100));
    let mut pool = PagePool::new(4, 0);
    let mut tables = PageTables::new();
    let mut cache = PageCache::new(String::from("/a"), 1, 100);
    let mut gap = cache.truncate(5_000);
    assert_eq!((gap.offset, gap.next, gap.end, gap.whole), (5_000, 0, 1, true));
    assert_eq!(cache.get_file_size(), 100);
    while cache.fill_gap(&mut gap, &mut pool, &mut tables) != Progress::Done {
        disk.finish(&mut pool, &mut tables);
    }
    // the page that the file reached into is had and noted, and nothing is written
    assert_eq!(pool.len(), 1);
    assert_eq!(cache.begin_sync().ids, vec![0]);
    assert_eq!(disk.data, sample(100));
    assert_eq!(cache.get_file_size(), 4_096);
    let mut gap = cache.truncate(3 * 4_096 + 1);
    assert_eq!((gap.next, gap.end), (1, 3));
    while cache.fill_gap(&mut gap, &mut pool, &mut tables) != Progress::Done {
        disk.finish(&mut pool, &mut tables);
    }
    assert_eq!(cache.get_file_size(), 3 * 4_096);
    let got = read(&mut cache, 4_096, 2 * 4_096, &mut disk, &mut pool, &mut tables);
    assert_eq!(got, vec![0u8; 2 * 4_096]);
    assert_eq!(disk.data.len(), 3 * 4_096);
    // nothing to do where the file is as long already
    let gap = cache.truncate(3 * 4_096);
    assert_eq!((gap.next, gap.end, gap.flushing), (0, 0, false));
}

#[test]
fn a_second_flush_writes_nothing() {
    init();
    let mut disk = Disk::new(sample(4_096));
    let mut pool = PagePool::new(2, 0);
    let mut tables = PageTables::new();
    let mut cache = PageCache::new(String::from("/a"), 1, 4_096);
    write(&mut cache, 10, &[1, 2, 3], &mut disk, &mut pool, &mut tables);
    let key = match cache.acquire_page(0, &mut pool, &mut tables) {
        CachePage::Ready(key) => key,
        other => panic!("{:?}", other),
    };
    let mut expected = sample(4_096);
    expected[10..13].copy_from_slice(&[1, 2, 3]);
    // an error is handed on and the page stays dirty
    disk.fail = true;
    pool.flush(key, &tables);
    disk.finish(&mut pool, &mut tables);
    assert_eq!(pool.outcome(), Err(LinuxError::Other(5)));
    assert_eq!(disk.data, sample(4_096));
    disk.fail = false;
    pool.flush(key, &tables);
    assert!(pool.request().is_some());
    disk.finish(&mut pool, &mut tables);
    assert_eq!(pool.outcome(), Ok(4_096));
    assert_eq!(disk.data, expected);
    pool.flush(key, &tables);
    assert!(pool.request().is_none());
    assert_eq!(pool.outcome(), Ok(0));
    let mut buf = vec![0u8; 4_096];
    assert_eq!(pool.read(key, 0, &mut buf), Ok(4_096));
    assert_eq!(buf, expected);
}

#[test]
fn what_was_written_stays() {
    init();
    let mut disk = Disk::new(sample(20_000));
    let mut pool = PagePool::new(2, 0);
    let mut tables = PageTables::new();
    let mut cache = PageCache::new(String::from("/a"), 1, 20_000);
    write(&mut cache, 4_090, &[1; 20], &mut disk, &mut pool, &mut tables);
    // up to both ends of the range, far away, and behind a gap
    write(&mut cache, 4_080, &[2; 10], &mut disk, &mut pool, &mut tables);
    write(&mut cache, 4_110, &[3; 5_000], &mut disk, &mut pool, &mut tables);
    write(&mut cache, 19_999, &[4; 2], &mut disk, &mut pool, &mut tables);
    write(&mut cache, 30_000, &[5], &mut disk, &mut pool, &mut tables);
    sync(&mut cache, &mut disk, &mut pool, &mut tables);
    read(&mut cache, 8_192, 8_192, &mut disk, &mut pool, &mut tables);
    let got = read(&mut cache, 4_090, 20, &mut disk, &mut pool, &mut tables);
    assert_eq!(got, vec![1u8; 20]);
    let got = read(&mut cache, 4_089, 22, &mut disk, &mut pool, &mut tables);
    assert_eq!((got[0], got[21]), (2, 3));
}

#[test]
fn a_page_needs_a_frame() {
    init();
    assert!(prepared(None, 0).is_none());
    assert!(Page::from_frame(None, 0).is_none());
    let mut frame = axalloc::GlobalPage::alloc().unwrap();
    frame.as_slice_mut().fill(7);
    let frame = prepared(Some(frame), 0).unwrap();
    assert!(frame.as_slice().iter().all(|b| *b == 0));
    // a frame before the linear mapping is none
    let addr: usize = frame.start_vaddr().into();
    assert!(prepared(Some(frame), addr + 1).is_none());
    let frame = axalloc::GlobalPage::alloc().ok();
    assert!(Page::from_frame(frame, usize::MAX).is_none());
    let mut frame = axalloc::GlobalPage::alloc().unwrap();
    frame.as_slice_mut().fill(7);
    let addr: usize = frame.start_vaddr().into();
    let page = Page::from_frame(Some(frame), 4_096).unwrap();
    assert_eq!(page.get_phys_addr(4_096), addr - 4_096);
    assert!(!page.is_dirty(&PageTables::new()));
    assert_eq!(page.file(), None);
    assert_eq!(page.tail(0), vec![0u8; 4_096]);
}

#[test]
fn a_page_that_came_joins_the_pool() {
    init();
    let mut pool = PagePool::new(2, 0);
    assert_eq!(pool.join(None, 3, 5), PoolPage::NoFrame);
    assert_eq!(pool.len(), 0);
    assert!(pool.request().is_none());
    let page = Page::from_frame(axalloc::GlobalPage::alloc().ok(), 0);
    assert_eq!(pool.join(page, 3, 5), PoolPage::Loading(1));
    assert_eq!(pool.len(), 1);
    assert!(pool.check_page_exist(1));
    assert_eq!(pool.request(), Some(IoRequest::Seek { file: 3, offset: 5 * 4_096 }));
    let mut buf = vec![1u8; 4_096];
    assert_eq!(pool.read(1, 0, &mut buf), Ok(4_096));
    assert_eq!(buf, vec![0u8; 4_096]);
}

#[test]
fn a_failed_write_back_is_reported() {
    init();
    let mut disk = Disk::new(sample(4_096));
    let mut pool = PagePool::new(2, 0);
    let mut tables = PageTables::new();
    let mut cache = PageCache::new(String::from("/a"), 1, 4_096);
    write(&mut cache, 0, &[1], &mut disk, &mut pool, &mut tables);
    disk.fail = true;
    let key = match cache.acquire_page(0, &mut pool, &mut tables) {
        CachePage::Ready(key) => key,
        other => panic!("{:?}", other),
    };
    pool.flush(key, &tables);
    disk.finish(&mut pool, &mut tables);
    // axerrno knows that an I/O error is EIO
    assert_eq!(pool.outcome(), Err(LinuxError::Other(5)));
    assert_eq!(LinuxError::from_ax(axerrno::AxError::NotFound.code()), LinuxError::ENOENT);
    assert_eq!(LinuxError::from_ax(12_345), LinuxError::Other(12_345));
}

#[test]
fn replies_have_to_fit() {
    init();
    let mut pool = PagePool::new(DEFAULT_PAGE_POOL_SIZE, 0);
    let mut tables = PageTables::new();
    let mut cache = PageCache::new(String::from("/a"), 1, 4_096);
    assert!(!pool.accepts(&IoReply::Done));
    assert!(matches!(cache.acquire_page(0, &mut pool, &mut tables), CachePage::Loading(_)));
    assert_eq!(pool.request(), Some(IoRequest::Seek { file: 1, offset: 0 }));
    // a page that cannot be sought cannot be read in
    assert!(!pool.accepts(&IoReply::Failed(1)));
    pool.complete(IoReply::Done, &mut tables);
    assert_eq!(pool.request(), Some(IoRequest::Read { file: 1, len: 4096 }));
    assert!(!pool.accepts(&IoReply::Data(vec![0; 4097])));
    assert!(!pool.accepts(&IoReply::Wrote(1)));
    assert!(pool.accepts(&IoReply::Failed(1)));
}

#[test]
fn maps_and_unmaps_pages() {
    init();
    let mut disk = Disk::new(sample(8_192));
    let mut pool = PagePool::new(2, 0x1000);
    let mut tables = PageTables::new();
    let mut cache = PageCache::new(String::from("/a"), 1, 8_192);
    let mut stage = MapStage::Acquire;
    let paddr = loop {
        match cache.map_virt_page(1, &mut stage, &mut pool, &mut tables) {
            MapStep::Wait(_) => disk.finish(&mut pool, &mut tables),
            MapStep::ForceMap(paddr) => break paddr,
            MapStep::Failed => panic!("cannot map"),
        }
    };
    assert_eq!(paddr % 4096, 0);
    let page = (3, 0x4000_0000);
    assert!(cache.finish_map(stage, page, true, &mut pool, &mut tables));
    // the process writes through its mapping
    tables.report(page, PteState::Dirty);
    tables.take_ops();
    pool.observe();
    let got = read(&mut cache, 4_096, 4_096, &mut disk, &mut pool, &mut tables);
    assert_eq!(got, sample(8_192)[4_096..].to_vec());
    assert_eq!(cache.flush_page(1, &mut pool, &tables), Ok(0));
    assert!(pool.is_busy());
    disk.finish(&mut pool, &mut tables);
    assert!(tables.take_ops().contains(&PteOp::ClearDirty(page)));
    tables.report(page, PteState::Clean);
    cache.unmap_virt_page(1, page, &mut pool, &mut tables);
    tables.take_ops();
    // the page can go without a translation being removed
    let mut op = cache.begin_clear();
    while !cache.clear(&mut op, &mut pool, &mut tables) {
        disk.finish(&mut pool, &mut tables);
    }
    cache.forget_pages();
    assert_eq!(pool.len(), 0);
    assert!(!tables.take_ops().contains(&PteOp::Unmap(page)));
}

#[test]
fn page_tables_are_changed_upwards() {
    init();
    let mut disk = Disk::new(sample(4_096));
    let mut pool = PagePool::new(2, 0);
    let mut tables = PageTables::new();
    let mut cache = PageCache::new(String::from("/a"), 1, 4_096);
    let pages = [(2, 0x5000), (1, 0x9000), (2, 0x3000), (1, 0x9000)];
    for page in pages {
        let mut stage = MapStage::Acquire;
        while !matches!(
            cache.map_virt_page(0, &mut stage, &mut pool, &mut tables),
            MapStep::ForceMap(_)
        ) {
            disk.finish(&mut pool, &mut tables);
        }
        tables.report(page, PteState::Dirty);
        assert!(cache.finish_map(stage, page, true, &mut pool, &mut tables));
    }
    tables.take_ops();
    let mut op = cache.begin_clear();
    cache.clear(&mut op, &mut pool, &mut tables);
    assert_eq!(
        tables.take_ops(),
        vec![
            PteOp::Unmap((1, 0x9000)),
            PteOp::Unmap((2, 0x3000)),
            PteOp::Unmap((2, 0x5000)),
        ]
    );
}

#[test]
fn a_sync_ends_with_the_size() {
    init();
    let mut disk = Disk::new(sample(8_192));
    let mut pool = PagePool::new(4, 0);
    let mut tables = PageTables::new();
    let mut cache = PageCache::new(String::from("/a"), 1, 8_192);
    write(&mut cache, 10, &[1, 2, 3], &mut disk, &mut pool, &mut tables);
    cache.truncate(5_000);
    let mut op = cache.begin_sync();
    let mut stage = FinishStage::Pages;
    let result = loop {
        match cache.finish_sync(&mut op, &mut stage, &mut pool, &tables) {
            FinishStep::Settle => disk.finish(&mut pool, &mut tables),
            FinishStep::Ask(request) => {
                // the pages are on disk before the size is asked for
                assert_eq!(&disk.data[10..13], &[1, 2, 3]);
                cache.take_size(&mut stage, disk.serve(request));
            }
            FinishStep::Over(r) => break r,
        }
    };
    assert_eq!((result, disk.data.len()), (Ok(0), 5_000));
    // the cache is given up in the same order
    write(&mut cache, 20, &[9], &mut disk, &mut pool, &mut tables);
    let mut op = cache.begin_clear();
    let mut stage = FinishStage::Pages;
    let result = loop {
        match cache.finish_clear(&mut op, &mut stage, &mut pool, &mut tables) {
            FinishStep::Settle => disk.finish(&mut pool, &mut tables),
            FinishStep::Ask(request) => cache.take_size(&mut stage, disk.serve(request)),
            FinishStep::Over(r) => break r,
        }
    };
    assert_eq!((result, disk.data.len(), disk.data[20]), (Ok(0), 5_000, 9));
    assert_eq!(pool.len(), 0);
    // an error of the file system is what comes of it
    let mut op = cache.begin_sync();
    let mut stage = FinishStage::Pages;
    assert!(matches!(
        cache.finish_sync(&mut op, &mut stage, &mut pool, &tables),
        FinishStep::Settle
    ));
    while let FinishStage::Pages = stage {
        cache.finish_sync(&mut op, &mut stage, &mut pool, &tables);
    }
    disk.fail = true;
    if let FinishStep::Ask(request) = cache.finish_sync(&mut op, &mut stage, &mut pool, &tables) {
        cache.take_size(&mut stage, disk.serve(request));
    }
    assert_eq!(stage, FinishStage::Size(MetadataOp::Over(Err(LinuxError::Other(5)))));
}

#[test]
fn clean_pages_go_first() {
    init();
    let mut disk = Disk::new(sample(3 * 4096));
    let mut pool = PagePool::new(2, 0);
    let mut tables = PageTables::new();
    let mut cache = PageCache::new(String::from("/a"), 1, 3 * 4096);
    write(&mut cache, 0, &[1], &mut disk, &mut pool, &mut tables);
    read(&mut cache, 4096, 1, &mut disk, &mut pool, &mut tables);
    read(&mut cache, 2 * 4096, 1, &mut disk, &mut pool, &mut tables);
    // page 0 is dirty and stays
    assert!(matches!(cache.acquire_page(0, &mut pool, &mut tables), CachePage::Ready(_)));
    assert_eq!(disk.data[0], sample(1)[0]);
}

#[test]
fn a_cache_lives_while_its_file_is_open() {
    init();
    let mut disk = Disk::new(sample(8_192));
    let mut pool = PagePool::new(4, 0);
    let mut tables = PageTables::new();
    let mut manager = PageCacheManager::new();
    let path = String::from("/a");
    assert!(!manager.contains(&path));
    manager.open_page_cache(path.clone(), 1, 8_192);
    manager.open_page_cache(path.clone(), 2, 99);
    manager.open_page_cache(String::from("/b"), 3, 0);
    assert_eq!(manager.cache_mut(&path).file(), 1);
    assert_eq!(manager.cache_mut(&path).get_file_size(), 8_192);
    assert_eq!((manager.open_count(&path), manager.open_count(&String::from("/c"))), (2, 0));
    // a page that the range ends in is not read in
    let mut op = begin_populate(0, 8_191);
    while manager.populate(&path, &mut op, &mut pool, &mut tables) != Progress::Done {
        disk.finish(&mut pool, &mut tables);
    }
    assert_eq!(pool.len(), 1);
    let mut op = begin_populate(0, 8_192);
    while manager.populate(&path, &mut op, &mut pool, &mut tables) != Progress::Done {
        disk.finish(&mut pool, &mut tables);
    }
    assert_eq!(pool.len(), 2);
    assert_eq!((begin_populate(0, 100).end, begin_range(0, 100).end), (0, 1));
    let mut op = begin_range(0, 8_192);
    while !manager.msync(&path, &mut op, &mut pool, &tables) {
        disk.finish(&mut pool, &mut tables);
    }
    manager.munmap(&path, begin_range(0, 8_192), 1, 0x1000, &mut pool, &mut tables);
    assert!(manager.close_page_cache(&path).is_none());
    assert!(manager.contains(&path));
    let cache = manager.close_page_cache(&path).unwrap();
    assert_eq!(cache.file(), 1);
    assert!(!manager.contains(&path));
    assert!(manager.contains(&String::from("/b")));
}
