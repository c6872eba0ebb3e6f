//! What the page cache promises as a whole: whatever is evicted, read in again
//! or written back meanwhile, a file reads as it was last written.
//!
//! The contents of a file are what its cached pages hold and, where no page is
//! cached, what the disk holds. User code may store to mapped pages whenever
//! nothing is under way between the pool and the file system.
//!
//! What lies behind the end of a file does not count. A page may still hold there
//! what the file held before it was cut, while the disk does not. The laws speak of
//! the bytes that count, and a byte counts once it has been written.
use vstd::prelude::*;

use crate::addr::{page_ceil, page_floor};
use crate::api::file::io::{FileId, IoReplyView, IoRequestView};
use crate::api::file::page::{
    in_file_range, lemma_filter_keeps, lemma_mapped_by, other_than, PageView,
};
use crate::api::file::page_cache::{
    cache_acquired, gap_before, gap_stepped, lemma_make_room_only_drops, lemma_store_wf, map_key,
    noted, readable, store, store_noted, sync_stepped, unmap_key, whole_gap_before, zero_range,
    zeros_of, CachePage, CacheView, GapOp, Progress,
};
use crate::api::file::page_pool::{
    acquired, auto_drop, complete, drop_key, joined, lemma_auto_drop, lemma_complete, lemma_loading,
    lemma_make_room, loading, make_room, observed, pick_victim, reply_fits, request_of,
    start_flush, IoTaskView, PageKey, PoolPage, PoolState, PoolView, Transfer,
};
use crate::api::file::page_tables::{ascending, PageTablesView, VirtPage};
use crate::errno::{error_of_ax_kind, LinuxError};

verus! {

/// A file on disk: its bytes and where its cursor stands.
pub struct DiskFile {
    pub data: Seq<u8>,
    pub pos: int,
}

/// The files on disk.
pub type Disk = Map<FileId, DiskFile>;

/// The bytes that count: a file and an offset in it each.
pub type Live = Set<(FileId, int)>;

/// The bytes that count once a range of a file has been written.
pub open spec fn with_range(live: Live, file: FileId, from: int, to: int) -> Live {
    live.union(Set::new(|at: (FileId, int)| at.0 == file && from <= at.1 < to))
}

/// The bytes that count once a file has been cut.
pub open spec fn without_tail(live: Live, file: FileId, size: int) -> Live {
    live.difference(Set::new(|at: (FileId, int)| at.0 == file && at.1 >= size))
}

/// The byte of a file on disk at an offset. Behind the end there are zeros.
pub open spec fn disk_byte(file: DiskFile, pos: int) -> u8 {
    if 0 <= pos < file.data.len() {
        file.data[pos]
    } else {
        0
    }
}

/// The bytes of a file once `new` is written at `offset`. A gap that comes
/// about is filled with zeros.
pub open spec fn overwritten(data: Seq<u8>, offset: int, new: Seq<u8>) -> Seq<u8> {
    if new.len() == 0 {
        data
    } else {
        Seq::new(
            if offset + new.len() > data.len() {
                (offset + new.len()) as nat
            } else {
                data.len()
            },
            |i: int|
                if offset <= i < offset + new.len() {
                    new[i - offset]
                } else if i < data.len() {
                    data[i]
                } else {
                    0
                },
        )
    }
}

/// How a file system that does not fail answers a request, and what becomes of
/// the disk. It moves at least one byte as long as there is one to move.
pub open spec fn answers(
    disk: Disk,
    request: IoRequestView,
    reply: IoReplyView,
    after: Disk,
) -> bool {
    match (request, reply) {
        (IoRequestView::Seek { file, offset }, IoReplyView::Done) => {
            after == disk.insert(file, DiskFile { pos: offset, ..disk[file] })
        },
        (IoRequestView::Read { file, len }, IoReplyView::Data(data)) => {
            let f = disk[file];
            &&& data.len() <= len
            &&& data.len() == 0 ==> len == 0 || f.pos >= f.data.len()
            &&& data.len() > 0 ==> f.pos + data.len() <= f.data.len()
            &&& forall|i: int| 0 <= i < data.len() ==> #[trigger] data[i] == f.data[f.pos + i]
            &&& after == disk.insert(file, DiskFile { pos: f.pos + data.len(), ..f })
        },
        (IoRequestView::WriteAt { file, offset, data }, IoReplyView::Wrote(n)) => {
            &&& 0 <= n <= data.len()
            &&& n == 0 ==> data.len() == 0
            &&& after == disk.insert(
                file,
                DiskFile {
                    data: overwritten(disk[file].data, offset, data.take(n)),
                    ..disk[file]
                },
            )
        },
        _ => false,
    }
}

/// Whether a page is page `id` of a file.
pub open spec fn is_page(page: PageView, file: FileId, id: int) -> bool {
    page.file == Some(file) && page.page_id == id
}

/// Whether the pool holds page `id` of a file under a key, all of it read in.
pub open spec fn has_page(pool: PoolView, key: PageKey, file: FileId, id: int) -> bool {
    &&& pool.pages.contains_key(key)
    &&& is_page(pool.pages[key], file, id)
    &&& !(pool.io matches Some(IoTaskView::Load { key: k, .. }) && k == key)
}

/// The byte of a file at an offset.
pub open spec fn contents(pool: PoolView, disk: Disk, file: FileId, pos: int) -> u8 {
    let id = pos / 4096;
    if exists|key: PageKey| #[trigger] has_page(pool, key, file, id) {
        let key = choose|key: PageKey| #[trigger] has_page(pool, key, file, id);
        pool.pages[key].bytes[pos % 4096]
    } else if pool.io matches Some(IoTaskView::Drop { page, .. }) && is_page(page, file, id) {
        pool.io->0->page.bytes[pos % 4096]
    } else {
        disk_byte(disk[file], pos)
    }
}

/// Whether the first `n` bytes of a page are what the disk holds in its place.
pub open spec fn on_disk(page: PageView, disk: Disk, n: int) -> bool {
    forall|j: int|
        0 <= j < n ==> #[trigger] page.bytes[j] == disk_byte(
            disk[page.file->0],
            page.page_id * 4096 + j,
        )
}

/// Whether the bytes of a page that count are what the disk holds in their place.
pub open spec fn live_on_disk(page: PageView, disk: Disk, live: Live) -> bool {
    forall|j: int|
        0 <= j < 4096 && live.contains((page.file->0, page.page_id * 4096 + j))
            ==> #[trigger] page.bytes[j] == disk_byte(
            disk[page.file->0],
            page.page_id * 4096 + j,
        )
}

/// What holds of the pool, the page tables and the disk at all times.
pub open spec fn sound(s: PoolState, disk: Disk, live: Live) -> bool {
    s.pool.wf() && faithful(s, disk, live)
}

/// Whether no virtual page maps both pages.
pub open spec fn apart(a: PageView, b: PageView) -> bool {
    forall|p: VirtPage| #[trigger] a.virt_pages.contains(p) ==> !b.virt_pages.contains(p)
}

/// Whether a page is in the pool at most once.
pub open spec fn unique_pages(pool: PoolView) -> bool {
    forall|k: PageKey, l: PageKey|
        {
            &&& #[trigger] pool.pages.contains_key(k)
            &&& #[trigger] pool.pages.contains_key(l)
            &&& pool.pages[k].file == pool.pages[l].file
            &&& pool.pages[k].page_id == pool.pages[l].page_id
        } ==> k == l
}

/// Whether no virtual page maps two pages.
pub open spec fn apart_pages(pool: PoolView) -> bool {
    forall|k: PageKey, l: PageKey|
        {
            &&& #[trigger] pool.pages.contains_key(k)
            &&& #[trigger] pool.pages.contains_key(l)
            &&& k != l
        } ==> apart(pool.pages[k], pool.pages[l])
}

/// A page is in the pool at most once, no virtual page maps two pages, and a page
/// that is not dirty is what the disk holds, as far as its bytes count.
pub open spec fn faithful(s: PoolState, disk: Disk, live: Live) -> bool {
    let pool = s.pool;
    &&& forall|k: PageKey| #[trigger]
        pool.pages.contains_key(k) ==> pool.pages[k].file is Some && pool.pages[k].bytes.len()
            == 4096
    &&& unique_pages(pool)
    &&& apart_pages(pool)
    &&& forall|k: PageKey| #[trigger]
        pool.pages.contains_key(k) && !pool.pages[k].is_dirty(s.tables) && !(pool.io matches Some(
            IoTaskView::Load { key, .. },
        ) && key == k) ==> live_on_disk(pool.pages[k], disk, live)
    &&& match pool.io {
        None => true,
        Some(IoTaskView::Load { key, at }) => {
            let page = pool.pages[key];
            let n: int = match at {
                Transfer::Seeking => 0,
                Transfer::Moving(n) => n as int,
            };
            &&& !page.dirty
            &&& page.virt_pages.len() == 0
            &&& on_disk(page, disk, n)
            &&& forall|j: int| n <= j < 4096 ==> #[trigger] page.bytes[j] == 0
            &&& at is Moving ==> disk[page.file->0].pos == page.page_id * 4096 + n
        },
        Some(IoTaskView::Flush { key, at }) => at matches Transfer::Moving(n) ==> on_disk(
            pool.pages[key],
            disk,
            n as int,
        ),
        Some(IoTaskView::Drop { page, at }) => {
            &&& page.file is Some && page.bytes.len() == 4096
            &&& at matches Transfer::Moving(n) ==> on_disk(page, disk, n as int)
            &&& forall|k: PageKey| #[trigger]
                pool.pages.contains_key(k) ==> {
                    &&& !(pool.pages[k].file == page.file && pool.pages[k].page_id == page.page_id)
                    &&& apart(page, pool.pages[k])
                }
        },
    }
}

/// To make the entries of one page clean leaves those of another alone.
proof fn lemma_others_stay_dirty(
    tables: PageTablesView,
    pages: Seq<VirtPage>,
    other: PageView,
)
    requires
        forall|p: VirtPage| #[trigger] pages.contains(p) ==> !other.virt_pages.contains(p),
    ensures
        other.is_dirty(tables.cleared(pages)) == other.is_dirty(tables),
        other.is_dirty(tables.unmapped(pages)) == other.is_dirty(tables),
{
    assert forall|i: int| 0 <= i < other.virt_pages.len() implies {
        &&& tables.cleared(pages).state(#[trigger] other.virt_pages[i]) == tables.state(
            other.virt_pages[i],
        )
        &&& tables.unmapped(pages).state(other.virt_pages[i]) == tables.state(other.virt_pages[i])
    } by {
        assert(other.virt_pages.contains(other.virt_pages[i]));
    }
}

/// A page that is marked clean is not dirty any more, and is mapped by no virtual
/// page that did not map it before.
proof fn lemma_cleaned(page: PageView, tables: PageTablesView)
    requires
        ascending(page.virt_pages),
    ensures
        !page.cleaned(tables).is_dirty(tables.cleared(page.virt_pages)),
        forall|p: VirtPage| #[trigger]
            page.cleaned(tables).virt_pages.contains(p) ==> page.virt_pages.contains(p),
        page.virt_pages.len() == 0 ==> page.cleaned(tables).virt_pages.len() == 0,
{
    let cleaned = page.cleaned(tables);
    lemma_filter_keeps(page.virt_pages, |p: VirtPage| !(tables.state(p) is NotMapped));
    assert forall|i: int| 0 <= i < cleaned.virt_pages.len() implies !(tables.cleared(
        page.virt_pages,
    ).state(#[trigger] cleaned.virt_pages[i]) is Dirty) by {
        assert(cleaned.virt_pages.contains(cleaned.virt_pages[i]));
    }
}

/// The contents of a file at an offset whose page the pool holds are those of
/// that page.
pub proof fn lemma_contents_of_page(
    pool: PoolView,
    disk: Disk,
    file: FileId,
    pos: int,
    key: PageKey,
)
    requires
        unique_pages(pool),
        has_page(pool, key, file, pos / 4096),
    ensures
        contents(pool, disk, file, pos) == pool.pages[key].bytes[pos % 4096],
{
    let id = pos / 4096;
    let k = choose|k: PageKey| #[trigger] has_page(pool, k, file, id);
    assert(has_page(pool, k, file, id));
    assert(pool.pages.contains_key(k) && pool.pages.contains_key(key));
}

/// The contents of a file at an offset whose page neither the pool holds nor is
/// on its way out are those of the disk.
proof fn lemma_contents_of_disk(pool: PoolView, disk: Disk, file: FileId, pos: int)
    requires
        forall|key: PageKey| !#[trigger] has_page(pool, key, file, pos / 4096),
        !(pool.io matches Some(IoTaskView::Drop { page, .. }) && is_page(page, file, pos / 4096)),
    ensures
        contents(pool, disk, file, pos) == disk_byte(disk[file], pos),
{
}

/// Whether every file reads the same before and after, as far as its bytes count.
pub open spec fn same_contents(
    pool: PoolView,
    disk: Disk,
    pool_after: PoolView,
    disk_after: Disk,
    live: Live,
) -> bool {
    forall|file: FileId, pos: int|
        pos >= 0 && live.contains((file, pos)) ==> #[trigger] contents(pool_after, disk_after, file, pos) == contents(
            pool,
            disk,
            file,
            pos,
        )
}

/// A page that leaves the pool takes nothing with it.
proof fn lemma_drop_key(s: PoolState, disk: Disk, live: Live, key: PageKey)
    requires
        faithful(s, disk, live),
        s.pool.io is None,
    ensures
        faithful(drop_key(s, key), disk, live),
        same_contents(s.pool, disk, drop_key(s, key).pool, disk, live),
{
    let after = drop_key(s, key).pool;
    if s.pool.pages.contains_key(key) {
        let page = s.pool.pages[key];
        assert forall|k: PageKey| #[trigger] after.pages.contains_key(k) implies {
            &&& s.pool.pages.contains_key(k)
            &&& apart(page, after.pages[k])
            &&& after.pages[k].is_dirty(drop_key(s, key).tables) == after.pages[k].is_dirty(
                s.tables,
            )
        } by {
            assert(s.pool.pages.contains_key(k) && s.pool.pages.contains_key(key));
            assert(apart(page, s.pool.pages[k]));
            lemma_others_stay_dirty(s.tables, page.virt_pages, s.pool.pages[k]);
        }
        assert(unique_pages(after));
        assert(apart_pages(after));
        assert forall|file: FileId, pos: int|
            pos >= 0 && live.contains((file, pos)) implies #[trigger] contents(
            after,
            disk,
            file,
            pos,
        ) == contents(s.pool, disk, file, pos) by {
            let id = pos / 4096;
            if exists|k: PageKey| #[trigger] has_page(s.pool, k, file, id) {
                let k = choose|k: PageKey| #[trigger] has_page(s.pool, k, file, id);
                if k == key {
                    assert forall|l: PageKey| !#[trigger] has_page(after, l, file, id) by {
                        if has_page(after, l, file, id) {
                            assert(has_page(s.pool, l, file, id));
                            assert(s.pool.pages.contains_key(l) && s.pool.pages.contains_key(key));
                        }
                    }
                    if !page.needs_flush(s.tables) {
                        assert(live_on_disk(page, disk, live));
                        assert(page.page_id * 4096 + pos % 4096 == pos);
                        assert(page.bytes[pos % 4096] == disk_byte(
                            disk[page.file->0],
                            page.page_id * 4096 + pos % 4096,
                        ));
                    }
                } else {
                    assert(has_page(after, k, file, id));
                    lemma_contents_of_page(after, disk, file, pos, k);
                }
            } else {
                assert forall|l: PageKey| !#[trigger] has_page(after, l, file, id) by {
                    if has_page(after, l, file, id) {
                        assert(has_page(s.pool, l, file, id));
                    }
                }
                assert(!is_page(page, file, id)) by {
                    if is_page(page, file, id) {
                        assert(has_page(s.pool, key, file, id));
                    }
                }
            }
        }
    }
}

/// The lists of the pool have no part in what files hold.
proof fn lemma_lists_apart(s: PoolState, disk: Disk, live: Live, t: PoolState)
    requires
        faithful(s, disk, live),
        t.pool.pages == s.pool.pages,
        t.pool.io == s.pool.io,
        t.tables == s.tables,
    ensures
        faithful(t, disk, live),
        same_contents(s.pool, disk, t.pool, disk, live),
{
    let pool = s.pool;
    let other = t.pool;
    assert forall|file: FileId, pos: int| pos >= 0 implies #[trigger] contents(
        other,
        disk,
        file,
        pos,
    ) == contents(pool, disk, file, pos) by {
        let id = pos / 4096;
        if exists|k: PageKey| #[trigger] has_page(pool, k, file, id) {
            let k = choose|k: PageKey| #[trigger] has_page(pool, k, file, id);
            assert(has_page(other, k, file, id));
            lemma_contents_of_page(other, disk, file, pos, k);
            lemma_contents_of_page(pool, disk, file, pos, k);
        } else {
            assert forall|k: PageKey| !#[trigger] has_page(other, k, file, id) by {
                assert(has_page(other, k, file, id) == has_page(pool, k, file, id));
            }
        }
    }
}

/// To make room takes nothing from any file.
proof fn lemma_make_room_faithful(s: PoolState, disk: Disk, live: Live)
    requires
        sound(s, disk, live),
    ensures
        sound(make_room(s), disk, live),
        same_contents(s.pool, disk, make_room(s).pool, disk, live),
    decreases s.pool.clean.len() + s.pool.dirty.len(),
{
    if s.pool.io is None && s.pool.pages.len() > 0 && s.pool.pages.len() >= s.pool.max_size {
        lemma_auto_drop(s);
        let v = crate::api::file::page_pool::pick_victim(
            s.pool.pages,
            s.tables,
            s.pool.clean,
            s.pool.dirty,
        );
        let picked = PoolState {
            pool: PoolView { clean: v.clean, dirty: v.dirty, ..s.pool },
            ..s
        };
        lemma_lists_apart(s, disk, live, picked);
        lemma_drop_key(picked, disk, live, v.key);
        let next = auto_drop(s);
        assert(next == drop_key(picked, v.key));
        lemma_make_room_faithful(next, disk, live);
        assert forall|file: FileId, pos: int|
            pos >= 0 && live.contains((file, pos)) implies #[trigger] contents(
            make_room(s).pool,
            disk,
            file,
            pos,
        ) == contents(s.pool, disk, file, pos) by {
            assert(contents(next.pool, disk, file, pos) == contents(
                picked.pool,
                disk,
                file,
                pos,
            ));
        }
    }
}

/// A page that begins to be read in changes no file.
proof fn lemma_loading_faithful(
    s: PoolState,
    disk: Disk,
    live: Live,
    addr: usize,
    file: FileId,
    page_id: usize,
)
    requires
        sound(s, disk, live),
        s.pool.io is None,
        loading(s, addr, file, page_id).pool.wf(),
        forall|k: PageKey| #[trigger]
            s.pool.pages.contains_key(k) ==> !is_page(s.pool.pages[k], file, page_id as int),
    ensures
        sound(loading(s, addr, file, page_id), disk, live),
        same_contents(s.pool, disk, loading(s, addr, file, page_id).pool, disk, live),
{
    let after = loading(s, addr, file, page_id).pool;
    let key = s.pool.next_key;
    assert(!s.pool.pages.contains_key(key));
    assert(unique_pages(after));
    assert(apart_pages(after));
    assert forall|f: FileId, pos: int| pos >= 0 implies #[trigger] contents(after, disk, f, pos)
        == contents(s.pool, disk, f, pos) by {
        let id = pos / 4096;
        if exists|k: PageKey| #[trigger] has_page(s.pool, k, f, id) {
            let k = choose|k: PageKey| #[trigger] has_page(s.pool, k, f, id);
            assert(has_page(after, k, f, id));
            lemma_contents_of_page(after, disk, f, pos, k);
            lemma_contents_of_page(s.pool, disk, f, pos, k);
        } else {
            assert forall|k: PageKey| !#[trigger] has_page(after, k, f, id) by {
                if has_page(after, k, f, id) {
                    assert(k != key);
                    assert(has_page(s.pool, k, f, id));
                }
            }
        }
    }
}

/// What a write to a file on disk changes.
proof fn lemma_overwritten(file: DiskFile, offset: int, new: Seq<u8>, pos: int)
    requires
        0 <= offset,
        0 <= pos,
    ensures
        disk_byte(DiskFile { data: overwritten(file.data, offset, new), ..file }, pos) == if offset
            <= pos < offset + new.len() {
            new[pos - offset]
        } else {
            disk_byte(file, pos)
        },
{
}

/// Whether two disks differ in nothing but page `id` of a file.
spec fn differ_in_page(disk: Disk, after: Disk, file: FileId, id: int) -> bool {
    forall|f: FileId, pos: int|
        pos >= 0 && !(f == file && pos / 4096 == id) ==> #[trigger] disk_byte(after[f], pos)
            == disk_byte(disk[f], pos)
}

/// A page that is on disk stays there when another one is written.
proof fn lemma_other_page_on_disk(
    page: PageView,
    disk: Disk,
    live: Live,
    after: Disk,
    file: FileId,
    id: int,
)
    requires
        live_on_disk(page, disk, live),
        differ_in_page(disk, after, file, id),
        !is_page(page, file, id),
        page.file is Some,
    ensures
        live_on_disk(page, after, live),
{
    assert forall|j: int|
        0 <= j < 4096 && live.contains(
            (page.file->0, page.page_id * 4096 + j),
        ) implies #[trigger] page.bytes[j] == disk_byte(
        after[page.file->0],
        page.page_id * 4096 + j,
    ) by {
        let pos = page.page_id * 4096 + j;
        assert(pos / 4096 == page.page_id);
        assert(disk_byte(after[page.file->0], pos) == disk_byte(disk[page.file->0], pos));
    }
}

/// A write-back of part of a page changes nothing but that page, and what is
/// written is on disk.
proof fn lemma_flush_write(page: PageView, disk: Disk, after: Disk, n: int, m: int)
    requires
        page.file is Some,
        page.bytes.len() == 4096,
        0 <= n <= 4096,
        on_disk(page, disk, n),
        0 <= m <= 4096 - n,
        after == disk.insert(
            page.file->0,
            DiskFile {
                data: overwritten(
                    disk[page.file->0].data,
                    page.page_id * 4096 + n,
                    page.bytes.skip(n).take(m),
                ),
                ..disk[page.file->0]
            },
        ),
    ensures
        on_disk(page, after, n + m),
        differ_in_page(disk, after, page.file->0, page.page_id as int),
{
    let f = page.file->0;
    let start = page.page_id * 4096 + n;
    let new = page.bytes.skip(n).take(m);
    assert forall|g: FileId, pos: int| pos >= 0 && !(g == f && pos / 4096
        == page.page_id) implies #[trigger] disk_byte(after[g], pos) == disk_byte(disk[g], pos) by {
        if g == f {
            lemma_overwritten(disk[f], start, new, pos);
        }
    }
    assert forall|j: int| 0 <= j < n + m implies #[trigger] page.bytes[j] == disk_byte(
        after[f],
        page.page_id * 4096 + j,
    ) by {
        lemma_overwritten(disk[f], start, new, page.page_id * 4096 + j);
        if j >= n {
            assert(new[j - n] == page.bytes[j]);
        }
    }
}

/// A step of reading a page in changes no file.
proof fn lemma_complete_load(
    s: PoolState,
    disk: Disk,
    live: Live,
    reply: IoReplyView,
    after: Disk,
)
    requires
        sound(s, disk, live),
        s.pool.io matches Some(IoTaskView::Load { .. }),
        reply_fits(s.pool.io, reply),
        answers(disk, request_of(s.pool)->0, reply, after),
    ensures
        sound(complete(s, reply), after, live),
        same_contents(s.pool, disk, complete(s, reply).pool, after, live),
{
    lemma_complete(s, reply);
    let pool = s.pool;
    let then = complete(s, reply);
    let next = then.pool;
    let key = pool.io->0->Load_key;
    let at = pool.io->0->Load_at;
    let page = pool.pages[key];
    let f = page.file->0;
    let id = page.page_id as int;
    assert(pool.pages.contains_key(key));
    lemma_cleaned(page, s.tables);
    assert forall|k: PageKey| #[trigger] next.pages.contains_key(k) && k != key implies {
        &&& pool.pages.contains_key(k)
        &&& next.pages[k] == pool.pages[k]
        &&& next.pages[k].is_dirty(then.tables) == pool.pages[k].is_dirty(s.tables)
    } by {
        lemma_others_stay_dirty(s.tables, page.virt_pages, pool.pages[k]);
    }
    assert(unique_pages(next));
    assert(apart_pages(next));
    assert(forall|g: FileId, pos: int| #[trigger]
        disk_byte(after[g], pos) == disk_byte(disk[g], pos));
    assert forall|k: PageKey| #[trigger]
        next.pages.contains_key(k) && k != key implies live_on_disk(next.pages[k], disk, live)
        == live_on_disk(next.pages[k], after, live) by {}
    let n: int = match at {
        Transfer::Seeking => 0,
        Transfer::Moving(n) => n as int,
    };
    if next.io is Some {
        let new_page = next.pages[key];
        if at is Moving {
            let data = reply->Data_0;
            assert forall|j: int| 0 <= j < n + data.len() implies #[trigger] new_page.bytes[j]
                == disk_byte(after[f], id * 4096 + j) by {
                if j < n {
                    assert(page.bytes[j] == disk_byte(disk[f], id * 4096 + j));
                } else {
                    assert(data[j - n] == disk[f].data[disk[f].pos + (j - n)]);
                }
            }
            assert forall|j: int| n + data.len() <= j < 4096 implies #[trigger] new_page.bytes[j]
                == 0 by {
                assert(page.bytes[j] == 0);
            }
        }
        assert(faithful(then, after, live));
    } else {
        assert(on_disk(next.pages[key], after, 4096)) by {
            assert forall|j: int| 0 <= j < 4096 implies #[trigger] next.pages[key].bytes[j]
                == disk_byte(after[f], id * 4096 + j) by {
                if j < n {
                    assert(page.bytes[j] == disk_byte(disk[f], id * 4096 + j));
                } else {
                    assert(page.bytes[j] == 0);
                }
            }
        }
        assert(faithful(then, after, live));
    }
    assert forall|g: FileId, pos: int| pos >= 0 implies #[trigger] contents(next, after, g, pos)
        == contents(pool, disk, g, pos) by {
        let i = pos / 4096;
        if exists|k: PageKey| #[trigger] has_page(pool, k, g, i) {
            let k = choose|k: PageKey| #[trigger] has_page(pool, k, g, i);
            assert(has_page(next, k, g, i));
            lemma_contents_of_page(next, after, g, pos, k);
            lemma_contents_of_page(pool, disk, g, pos, k);
        } else {
            lemma_contents_of_disk(pool, disk, g, pos);
            if exists|k: PageKey| #[trigger] has_page(next, k, g, i) {
                let k = choose|k: PageKey| #[trigger] has_page(next, k, g, i);
                assert(k == key) by {
                    if k != key {
                        assert(has_page(pool, k, g, i));
                    }
                }
                lemma_contents_of_page(next, after, g, pos, key);
                assert(next.pages[key].bytes[pos % 4096] == disk_byte(
                    after[f],
                    id * 4096 + pos % 4096,
                ));
            } else {
                lemma_contents_of_disk(next, after, g, pos);
            }
        }
    }
}

/// A step of writing a page of the pool back changes no file.
proof fn lemma_complete_flush(
    s: PoolState,
    disk: Disk,
    live: Live,
    reply: IoReplyView,
    after: Disk,
)
    requires
        sound(s, disk, live),
        s.pool.io matches Some(IoTaskView::Flush { .. }),
        reply_fits(s.pool.io, reply),
        answers(disk, request_of(s.pool)->0, reply, after),
    ensures
        sound(complete(s, reply), after, live),
        same_contents(s.pool, disk, complete(s, reply).pool, after, live),
        complete(s, reply).pool.io is None ==> complete(s, reply).pool.outcome == Ok::<
            isize,
            LinuxError,
        >(4096) && on_disk(
            complete(s, reply).pool.pages[s.pool.io->0->Flush_key],
            after,
            4096,
        ),
{
    lemma_complete(s, reply);
    let pool = s.pool;
    let then = complete(s, reply);
    let next = then.pool;
    let key = pool.io->0->Flush_key;
    let at = pool.io->0->Flush_at;
    let page = pool.pages[key];
    let f = page.file->0;
    let id = page.page_id as int;
    assert(pool.pages.contains_key(key));
    lemma_cleaned(page, s.tables);
    assert forall|k: PageKey| #[trigger] next.pages.contains_key(k) && k != key implies {
        &&& pool.pages.contains_key(k)
        &&& next.pages[k] == pool.pages[k]
        &&& next.pages[k].is_dirty(then.tables) == pool.pages[k].is_dirty(s.tables)
    } by {
        assert(apart(page, pool.pages[k]));
        lemma_others_stay_dirty(s.tables, page.virt_pages, pool.pages[k]);
    }
    assert(unique_pages(next));
    assert(apart_pages(next)) by {
        assert forall|k: PageKey, l: PageKey|
            {
                &&& #[trigger] next.pages.contains_key(k)
                &&& #[trigger] next.pages.contains_key(l)
                &&& k != l
            } implies apart(next.pages[k], next.pages[l]) by {
            assert(pool.pages.contains_key(k) && pool.pages.contains_key(l));
            assert(apart(pool.pages[k], pool.pages[l]));
        }
    }
    if at is Moving {
        let n = at->Moving_0 as int;
        let m = reply->Wrote_0;
        lemma_flush_write(page, disk, after, n, m);
    }
    assert(differ_in_page(disk, after, f, id));
    assert forall|k: PageKey| #[trigger]
        next.pages.contains_key(k) && k != key && !next.pages[k].is_dirty(
            then.tables,
        ) implies live_on_disk(next.pages[k], after, live) by {
        assert(pool.pages.contains_key(k));
        assert(!is_page(pool.pages[k], f, id));
        lemma_other_page_on_disk(pool.pages[k], disk, live, after, f, id);
    }
    assert(!page.is_dirty(s.tables) ==> live_on_disk(page, after, live)) by {
        if !page.is_dirty(s.tables) {
            assert(live_on_disk(page, disk, live));
            if at is Moving {
                let n = at->Moving_0 as int;
                let m = reply->Wrote_0;
                let new = page.bytes.skip(n).take(m);
                assert forall|j: int|
                    0 <= j < 4096 && live.contains(
                        (f, id * 4096 + j),
                    ) implies #[trigger] page.bytes[j] == disk_byte(after[f], id * 4096 + j) by {
                    lemma_overwritten(disk[f], id * 4096 + n, new, id * 4096 + j);
                    assert(page.bytes[j] == disk_byte(disk[f], id * 4096 + j));
                    if n <= j < n + m {
                        assert(new[j - n] == page.bytes[j]);
                    }
                }
            }
        }
    }
    assert(next.pages[key].bytes == page.bytes);
    assert(faithful(then, after, live));
    assert forall|g: FileId, pos: int| pos >= 0 implies #[trigger] contents(next, after, g, pos)
        == contents(pool, disk, g, pos) by {
        let i = pos / 4096;
        if exists|k: PageKey| #[trigger] has_page(pool, k, g, i) {
            let k = choose|k: PageKey| #[trigger] has_page(pool, k, g, i);
            assert(has_page(next, k, g, i));
            lemma_contents_of_page(next, after, g, pos, k);
            lemma_contents_of_page(pool, disk, g, pos, k);
        } else {
            assert(!is_page(page, g, i)) by {
                if is_page(page, g, i) {
                    assert(has_page(pool, key, g, i));
                }
            }
            assert forall|k: PageKey| !#[trigger] has_page(next, k, g, i) by {
                if has_page(next, k, g, i) {
                    assert(has_page(pool, k, g, i));
                }
            }
            lemma_contents_of_disk(pool, disk, g, pos);
            lemma_contents_of_disk(next, after, g, pos);
        }
    }
}

/// A step of writing back a page that has left the pool changes no file.
proof fn lemma_complete_drop(
    s: PoolState,
    disk: Disk,
    live: Live,
    reply: IoReplyView,
    after: Disk,
)
    requires
        sound(s, disk, live),
        s.pool.io matches Some(IoTaskView::Drop { .. }),
        reply_fits(s.pool.io, reply),
        answers(disk, request_of(s.pool)->0, reply, after),
    ensures
        sound(complete(s, reply), after, live),
        same_contents(s.pool, disk, complete(s, reply).pool, after, live),
{
    lemma_complete(s, reply);
    let pool = s.pool;
    let then = complete(s, reply);
    let next = then.pool;
    let page = pool.io->0->page;
    let at = pool.io->0->Drop_at;
    let f = page.file->0;
    let id = page.page_id as int;
    if at is Moving {
        let n = at->Moving_0 as int;
        let m = reply->Wrote_0;
        lemma_flush_write(page, disk, after, n, m);
    }
    assert(differ_in_page(disk, after, f, id));
    assert forall|k: PageKey| #[trigger] next.pages.contains_key(k) implies {
        &&& pool.pages.contains_key(k)
        &&& next.pages[k].is_dirty(then.tables) == pool.pages[k].is_dirty(s.tables)
    } by {
        let cleaned = page.cleaned(s.tables);
        assert(apart(page, pool.pages[k]));
        lemma_cleaned(page, s.tables);
        lemma_others_stay_dirty(s.tables, page.virt_pages, pool.pages[k]);
        lemma_others_stay_dirty(
            s.tables.cleared(page.virt_pages),
            cleaned.virt_pages,
            pool.pages[k],
        );
    }
    assert forall|k: PageKey| #[trigger]
        next.pages.contains_key(k) && !next.pages[k].is_dirty(then.tables) implies live_on_disk(
        next.pages[k],
        after,
        live,
    ) by {
        assert(pool.pages.contains_key(k));
        assert(!is_page(pool.pages[k], f, id));
        lemma_other_page_on_disk(pool.pages[k], disk, live, after, f, id);
    }
    assert(faithful(then, after, live));
    assert forall|g: FileId, pos: int| pos >= 0 implies #[trigger] contents(next, after, g, pos)
        == contents(pool, disk, g, pos) by {
        let i = pos / 4096;
        if exists|k: PageKey| #[trigger] has_page(pool, k, g, i) {
            let k = choose|k: PageKey| #[trigger] has_page(pool, k, g, i);
            assert(has_page(next, k, g, i));
            lemma_contents_of_page(next, after, g, pos, k);
            lemma_contents_of_page(pool, disk, g, pos, k);
        } else {
            assert forall|k: PageKey| !#[trigger] has_page(next, k, g, i) by {
                if has_page(next, k, g, i) {
                    assert(has_page(pool, k, g, i));
                }
            }
            if is_page(page, g, i) {
                if next.io is None {
                    lemma_contents_of_disk(next, after, g, pos);
                    assert(on_disk(page, after, 4096));
                    assert(page.bytes[pos % 4096] == disk_byte(
                        after[f],
                        id * 4096 + pos % 4096,
                    ));
                }
            } else {
                lemma_contents_of_disk(pool, disk, g, pos);
                lemma_contents_of_disk(next, after, g, pos);
            }
        }
    }
}

/// A write-back that begins changes no file.
proof fn lemma_start_flush(s: PoolState, disk: Disk, live: Live, key: PageKey)
    requires
        sound(s, disk, live),
        s.pool.io is None,
        s.pool.pages.contains_key(key),
    ensures
        sound(start_flush(s, key), disk, live),
        same_contents(s.pool, disk, start_flush(s, key).pool, disk, live),
{
    lemma_flush_shows(s, disk, key);
}

/// A write-back that begins changes no byte at all.
proof fn lemma_flush_shows(s: PoolState, disk: Disk, key: PageKey)
    requires
        unique_pages(s.pool),
        s.pool.io is None,
    ensures
        forall|file: FileId, pos: int|
            pos >= 0 ==> #[trigger] contents(start_flush(s, key).pool, disk, file, pos)
                == contents(s.pool, disk, file, pos),
{
    let after = start_flush(s, key).pool;
    assert forall|file: FileId, pos: int| pos >= 0 implies #[trigger] contents(
        after,
        disk,
        file,
        pos,
    ) == contents(s.pool, disk, file, pos) by {
        let id = pos / 4096;
        if exists|k: PageKey| #[trigger] has_page(s.pool, k, file, id) {
            let k = choose|k: PageKey| #[trigger] has_page(s.pool, k, file, id);
            assert(has_page(after, k, file, id));
            lemma_contents_of_page(after, disk, file, pos, k);
            lemma_contents_of_page(s.pool, disk, file, pos, k);
        } else {
            assert forall|k: PageKey| !#[trigger] has_page(after, k, file, id) by {
                assert(has_page(after, k, file, id) == has_page(s.pool, k, file, id));
            }
        }
    }
}

/// What goes on in the background of reads and writes: the file system answers
/// a request, a page of a file is wished for, a page begins to be written back,
/// or a page is given up.
pub open spec fn background_step(s: PoolState, disk: Disk, after: PoolState, disk_after: Disk) -> bool {
    ||| exists|reply: IoReplyView|
        {
            &&& #[trigger] reply_fits(s.pool.io, reply)
            &&& answers(disk, request_of(s.pool)->0, reply, disk_after)
            &&& after == complete(s, reply)
        }
    ||| s.pool.io is None && disk_after == disk && exists|
        cache: CacheView,
        page_id: usize,
        cache_after: CacheView,
        r: CachePage,
    |
        {
            &&& cache.coherent(s.pool)
            &&& in_file_range(page_id)
            &&& s.pool.next_key < isize::MAX
            &&& #[trigger] cache_acquired(cache, s, page_id, cache_after, after, r)
        }
    ||| s.pool.io is None && disk_after == disk && exists|key: PageKey|
        #[trigger] s.pool.pages.contains_key(key) && after == start_flush(s, key)
    ||| s.pool.io is None && disk_after == disk && after.pool.wf() && exists|key: PageKey|
        after == #[trigger] drop_key(s, key)
}

/// Whatever goes on in the background of reads and writes, every file reads the
/// same before and after.
pub proof fn law_background_keeps_contents(
    s: PoolState,
    disk: Disk,
    live: Live,
    after: PoolState,
    disk_after: Disk,
)
    requires
        sound(s, disk, live),
        background_step(s, disk, after, disk_after),
    ensures
        sound(after, disk_after, live),
        same_contents(s.pool, disk, after.pool, disk_after, live),
{
    if exists|reply: IoReplyView|
        {
            &&& #[trigger] reply_fits(s.pool.io, reply)
            &&& answers(disk, request_of(s.pool)->0, reply, disk_after)
            &&& after == complete(s, reply)
        } {
        let reply = choose|reply: IoReplyView|
            {
                &&& #[trigger] reply_fits(s.pool.io, reply)
                &&& answers(disk, request_of(s.pool)->0, reply, disk_after)
                &&& after == complete(s, reply)
            };
        match s.pool.io {
            None => {},
            Some(IoTaskView::Load { .. }) => {
                lemma_complete_load(s, disk, live, reply, disk_after);
            },
            Some(IoTaskView::Flush { .. }) => {
                lemma_complete_flush(s, disk, live, reply, disk_after);
            },
            Some(IoTaskView::Drop { .. }) => {
                lemma_complete_drop(s, disk, live, reply, disk_after);
            },
        }
    } else if s.pool.io is None && disk_after == disk && exists|key: PageKey|
        #[trigger] s.pool.pages.contains_key(key) && after == start_flush(s, key) {
        let key = choose|key: PageKey| #[trigger]
            s.pool.pages.contains_key(key) && after == start_flush(s, key);
        lemma_start_flush(s, disk, live, key);
    } else if s.pool.io is None && disk_after == disk && after.pool.wf() && exists|key: PageKey|
        after == #[trigger] drop_key(s, key) {
        let key = choose|key: PageKey| after == #[trigger] drop_key(s, key);
        lemma_drop_key(s, disk, live, key);
    } else {
        let (cache, page_id, cache_after, r) = choose|
            cache: CacheView,
            page_id: usize,
            cache_after: CacheView,
            r: CachePage,
        |
            {
                &&& cache.coherent(s.pool)
                &&& in_file_range(page_id)
                &&& s.pool.next_key < isize::MAX
                &&& #[trigger] cache_acquired(cache, s, page_id, cache_after, after, r)
            };
        lemma_acquired_faithful(cache, s, disk, live, page_id, cache_after, after, r);
    }
}

/// The wish for a page changes no file.
proof fn lemma_acquired_faithful(
    cache: CacheView,
    s: PoolState,
    disk: Disk,
    live: Live,
    page_id: usize,
    cache_after: CacheView,
    after: PoolState,
    r: CachePage,
)
    requires
        sound(s, disk, live),
        s.pool.io is None,
        s.pool.next_key < isize::MAX,
        cache.coherent(s.pool),
        in_file_range(page_id),
        cache_acquired(cache, s, page_id, cache_after, after, r),
    ensures
        sound(after, disk, live),
        same_contents(s.pool, disk, after.pool, disk, live),
{
    if !(r is Ready) {
        let room = make_room(s);
        lemma_make_room(s);
        lemma_make_room_only_drops(s);
        lemma_make_room_faithful(s, disk, live);
        if r is Loading {
            let addr = after.pool.pages[r->Loading_0].addr;
            lemma_loading(room, addr, cache.file, page_id);
            assert forall|k: PageKey| #[trigger] room.pool.pages.contains_key(k) implies !is_page(
                room.pool.pages[k],
                cache.file,
                page_id as int,
            ) by {
                assert(s.pool.pages.contains_key(k));
            }
            lemma_loading_faithful(room, disk, live, addr, cache.file, page_id);
            assert forall|file: FileId, pos: int|
                pos >= 0 && live.contains((file, pos)) implies #[trigger] contents(
                after.pool,
                disk,
                file,
                pos,
            ) == contents(s.pool, disk, file, pos) by {
                assert(contents(room.pool, disk, file, pos) == contents(s.pool, disk, file, pos));
            }
        }
    }
}

/// Whether the pool holds every page that the bytes `from` to before `to` of a
/// write at `offset` reach into.
pub open spec fn holds_range(
    pool: PoolView,
    cache: CacheView,
    offset: int,
    from: int,
    to: int,
) -> bool {
    forall|i: int|
        from <= i < to ==> #[trigger] cache.holds(pool, ((offset + i) / 4096) as usize)
}

/// A write changes the bytes that it writes, to what it writes, and no others. What
/// was written counts.
pub proof fn law_write_changes_what_it_writes(
    s: PoolState,
    disk: Disk,
    live: Live,
    cache: CacheView,
    offset: int,
    data: Seq<u8>,
    from: int,
    to: int,
)
    requires
        sound(s, disk, live),
        s.pool.io is None,
        cache.coherent(s.pool),
        0 <= offset,
        0 <= from <= to <= data.len(),
        offset + to <= usize::MAX,
        holds_range(s.pool, cache, offset, from, to),
    ensures
        sound(
            PoolState { pool: store(s.pool, cache.file, offset, data, from, to), ..s },
            disk,
            with_range(live, cache.file, offset + from, offset + to),
        ),
        forall|file: FileId, pos: int|
            pos >= 0 ==> #[trigger] contents(
                store(s.pool, cache.file, offset, data, from, to),
                disk,
                file,
                pos,
            ) == if file == cache.file && from <= pos - offset < to {
                data[pos - offset]
            } else {
                contents(s.pool, disk, file, pos)
            },
{
    let pool = s.pool;
    let after = store(pool, cache.file, offset, data, from, to);
    let more = with_range(live, cache.file, offset + from, offset + to);
    lemma_store_wf(pool, cache, offset, data, from, to);
    assert(unique_pages(after));
    assert(apart_pages(after)) by {
        assert forall|k: PageKey, l: PageKey|
            {
                &&& #[trigger] after.pages.contains_key(k)
                &&& #[trigger] after.pages.contains_key(l)
                &&& k != l
            } implies apart(after.pages[k], after.pages[l]) by {
            assert(pool.pages.contains_key(k) && pool.pages.contains_key(l));
            assert(apart(pool.pages[k], pool.pages[l]));
        }
    }
    assert forall|k: PageKey| #[trigger]
        after.pages.contains_key(k) && !after.pages[k].is_dirty(s.tables) implies live_on_disk(
        after.pages[k],
        disk,
        more,
    ) by {
        let page = pool.pages[k];
        assert(live_on_disk(page, disk, live));
        assert(after.pages[k].bytes =~= page.bytes);
        assert forall|j: int|
            0 <= j < 4096 && more.contains(
                (page.file->0, page.page_id * 4096 + j),
            ) implies #[trigger] after.pages[k].bytes[j] == disk_byte(
            disk[page.file->0],
            page.page_id * 4096 + j,
        ) by {
            let i = page.page_id * 4096 + j - offset;
            assert(!(page.file == Some(cache.file) && from <= i < to));
            assert(page.bytes[j] == after.pages[k].bytes[j]);
        }
    }
    assert(faithful(PoolState { pool: after, ..s }, disk, more));
    assert forall|file: FileId, pos: int| pos >= 0 implies #[trigger] contents(
        after,
        disk,
        file,
        pos,
    ) == (if file == cache.file && from <= pos - offset < to {
        data[pos - offset]
    } else {
        contents(pool, disk, file, pos)
    }) by {
        let id = pos / 4096;
        if exists|k: PageKey| #[trigger] has_page(pool, k, file, id) {
            let k = choose|k: PageKey| #[trigger] has_page(pool, k, file, id);
            assert(has_page(after, k, file, id));
            lemma_contents_of_page(after, disk, file, pos, k);
            lemma_contents_of_page(pool, disk, file, pos, k);
        } else {
            assert forall|k: PageKey| !#[trigger] has_page(after, k, file, id) by {
                assert(has_page(after, k, file, id) == has_page(pool, k, file, id));
            }
            if file == cache.file && from <= pos - offset < to {
                let i = pos - offset;
                assert(cache.holds(pool, ((offset + i) / 4096) as usize));
                let k = cache.pages[id as usize];
                assert(has_page(pool, k, file, id));
            }
            lemma_contents_of_disk(pool, disk, file, pos);
            lemma_contents_of_disk(after, disk, file, pos);
        }
    }
}

/// What a read hands out is what the file holds.
pub proof fn law_read_shows_contents(
    s: PoolState,
    disk: Disk,
    live: Live,
    cache: CacheView,
    pos: int,
    byte: u8,
)
    requires
        sound(s, disk, live),
        s.pool.io is None,
        cache.coherent(s.pool),
        0 <= pos <= usize::MAX,
        cache.shows(s.pool, pos, byte),
    ensures
        byte == contents(s.pool, disk, cache.file, pos),
{
    let pool = s.pool;
    let key = cache.pages[(pos / 4096) as usize];
    assert(has_page(pool, key, cache.file, pos / 4096));
    lemma_contents_of_page(pool, disk, cache.file, pos, key);
}

/// To put zeros into a range of a page makes the file read zeros there, and changes
/// no other byte. The zeros count.
pub proof fn law_zeroed_range_reads_zero(
    s: PoolState,
    disk: Disk,
    live: Live,
    key: PageKey,
    from: int,
    to: int,
)
    requires
        sound(s, disk, live),
        s.pool.io is None,
        s.pool.pages.contains_key(key),
        0 <= from < to <= 4096,
    ensures
        sound(
            zero_range(s, key, from, to),
            disk,
            with_range(
                live,
                s.pool.pages[key].file->0,
                s.pool.pages[key].page_id * 4096 + from,
                s.pool.pages[key].page_id * 4096 + to,
            ),
        ),
        forall|file: FileId, pos: int|
            pos >= 0 ==> #[trigger] contents(zero_range(s, key, from, to).pool, disk, file, pos)
                == if is_page(s.pool.pages[key], file, pos / 4096) && from <= pos % 4096 < to {
                0
            } else {
                contents(s.pool, disk, file, pos)
            },
{
    let page = s.pool.pages[key].written(from, zeros_of(to - from));
    let written = PoolState { pool: s.pool.with_page(key, page), ..s };
    assert(unique_pages(written.pool));
    assert(apart_pages(written.pool)) by {
        assert forall|k: PageKey, l: PageKey|
            {
                &&& #[trigger] written.pool.pages.contains_key(k)
                &&& #[trigger] written.pool.pages.contains_key(l)
                &&& k != l
            } implies apart(written.pool.pages[k], written.pool.pages[l]) by {
            assert(s.pool.pages.contains_key(k) && s.pool.pages.contains_key(l));
            assert(apart(s.pool.pages[k], s.pool.pages[l]));
        }
    }
    let old_page = s.pool.pages[key];
    let more = with_range(
        live,
        old_page.file->0,
        old_page.page_id * 4096 + from,
        old_page.page_id * 4096 + to,
    );
    assert forall|k: PageKey| #[trigger]
        written.pool.pages.contains_key(k) && !written.pool.pages[k].is_dirty(
            s.tables,
        ) implies live_on_disk(written.pool.pages[k], disk, more) by {
        assert(k != key);
        assert(s.pool.pages.contains_key(k) && s.pool.pages.contains_key(key));
        let other = s.pool.pages[k];
        assert(live_on_disk(other, disk, live));
        assert forall|j: int|
            0 <= j < 4096 && more.contains(
                (other.file->0, other.page_id * 4096 + j),
            ) implies #[trigger] other.bytes[j] == disk_byte(
            disk[other.file->0],
            other.page_id * 4096 + j,
        ) by {
            assert(live.contains((other.file->0, other.page_id * 4096 + j)));
        }
    }
    assert(faithful(written, disk, more));
    assert(written.pool.wf());
    lemma_start_flush(written, disk, more, key);
    lemma_flush_shows(written, disk, key);
    let after = zero_range(s, key, from, to);
    assert(after == start_flush(written, key));
    assert forall|file: FileId, pos: int| pos >= 0 implies #[trigger] contents(
        after.pool,
        disk,
        file,
        pos,
    ) == (if is_page(s.pool.pages[key], file, pos / 4096) && from <= pos % 4096 < to {
        0
    } else {
        contents(s.pool, disk, file, pos)
    }) by {
        let id = pos / 4096;
        assert(contents(after.pool, disk, file, pos) == contents(written.pool, disk, file, pos));
        if exists|k: PageKey| #[trigger] has_page(s.pool, k, file, id) {
            let k = choose|k: PageKey| #[trigger] has_page(s.pool, k, file, id);
            assert(has_page(written.pool, k, file, id));
            lemma_contents_of_page(written.pool, disk, file, pos, k);
            lemma_contents_of_page(s.pool, disk, file, pos, k);
            if is_page(s.pool.pages[key], file, id) {
                assert(s.pool.pages.contains_key(k) && s.pool.pages.contains_key(key));
                assert(k == key);
            }
        } else {
            assert(!is_page(s.pool.pages[key], file, id)) by {
                if is_page(s.pool.pages[key], file, id) {
                    assert(has_page(s.pool, key, file, id));
                }
            }
            assert forall|k: PageKey| !#[trigger] has_page(written.pool, k, file, id) by {
                assert(has_page(written.pool, k, file, id) ==> has_page(s.pool, k, file, id));
            }
            lemma_contents_of_disk(s.pool, disk, file, pos);
            lemma_contents_of_disk(written.pool, disk, file, pos);
        }
    }
}

/// A moment while a file is being written: the state of things, and how many
/// bytes have been written.
pub struct Moment {
    pub state: PoolState,
    pub disk: Disk,
    pub done: int,
}

/// One moment after another while `data` is being written to a file at
/// `offset`: something goes on in the background, or more of the data is
/// written to pages that the pool holds.
pub open spec fn write_step(
    file: FileId,
    offset: int,
    data: Seq<u8>,
    a: Moment,
    b: Moment,
) -> bool {
    ||| b.done == a.done && background_step(a.state, a.disk, b.state, b.disk)
    ||| {
        &&& b.disk == a.disk
        &&& a.state.pool.io is None
        &&& a.done <= b.done <= data.len()
        &&& b.state.pool == store(a.state.pool, file, offset, data, a.done, b.done)
        &&& b.state.tables == a.state.tables
        &&& exists|cache: CacheView|
            {
                &&& cache.file == file
                &&& #[trigger] cache.coherent(a.state.pool)
                &&& holds_range(a.state.pool, cache, offset, a.done, b.done)
            }
    }
}

/// A file reads as it was written: once all of the data is written, whatever
/// was evicted, read in or written back on the way and since, every byte of it
/// is found where it was written, and every other byte of every file is as it
/// was before.
pub proof fn law_read_after_write(
    file: FileId,
    offset: int,
    data: Seq<u8>,
    live: Live,
    run: Seq<Moment>,
)
    requires
        run.len() > 0,
        0 <= offset,
        offset + data.len() <= usize::MAX,
        run[0].done == 0,
        sound(run[0].state, run[0].disk, live),
        forall|i: int, j: int|
            0 <= i && j == i + 1 && j < run.len() ==> #[trigger] write_step(
                file,
                offset,
                data,
                run[i],
                run[j],
            ),
    ensures
        sound(
            run.last().state,
            run.last().disk,
            with_range(live, file, offset, offset + run.last().done),
        ),
        0 <= run.last().done <= data.len(),
        forall|f: FileId, pos: int|
            pos >= 0 && with_range(live, file, offset, offset + run.last().done).contains((f, pos))
                ==> #[trigger] contents(run.last().state.pool, run.last().disk, f, pos) == if f
                == file && 0 <= pos - offset < run.last().done {
                data[pos - offset]
            } else {
                contents(run[0].state.pool, run[0].disk, f, pos)
            },
    decreases run.len(),
{
    if run.len() > 1 {
        let rest = run.drop_last();
        let a = rest.last();
        let b = run.last();
        assert forall|i: int, j: int|
            0 <= i && j == i + 1 && j < rest.len() implies #[trigger] write_step(
            file,
            offset,
            data,
            rest[i],
            rest[j],
        ) by {
            assert(write_step(file, offset, data, run[i], run[j]));
        }
        law_read_after_write(file, offset, data, live, rest);
        let before = with_range(live, file, offset, offset + a.done);
        let now = with_range(live, file, offset, offset + b.done);
        assert(rest[0] == run[0]);
        assert(a == run[run.len() - 2]);
        assert(write_step(file, offset, data, run[run.len() - 2], run[run.len() - 1]));
        if b.done == a.done && background_step(a.state, a.disk, b.state, b.disk) {
            law_background_keeps_contents(a.state, a.disk, before, b.state, b.disk);
        } else {
            let cache = choose|cache: CacheView|
                {
                    &&& cache.file == file
                    &&& #[trigger] cache.coherent(a.state.pool)
                    &&& holds_range(a.state.pool, cache, offset, a.done, b.done)
                };
            law_write_changes_what_it_writes(
                a.state,
                a.disk,
                before,
                cache,
                offset,
                data,
                a.done,
                b.done,
            );
            assert(with_range(before, file, offset + a.done, offset + b.done) =~= now);
        }
        assert forall|f: FileId, pos: int|
            pos >= 0 && now.contains((f, pos)) implies #[trigger] contents(
            b.state.pool,
            b.disk,
            f,
            pos,
        ) == (if f == file && 0 <= pos - offset < b.done {
            data[pos - offset]
        } else {
            contents(run[0].state.pool, run[0].disk, f, pos)
        }) by {
            assert(before.contains((f, pos)) ==> contents(a.state.pool, a.disk, f, pos) == (if f == file && 0 <= pos - offset
                < a.done {
                data[pos - offset]
            } else {
                contents(run[0].state.pool, run[0].disk, f, pos)
            }));
        }
    }
}

/// Once nothing of a file is left to be written back, the disk holds all of it.
pub proof fn law_synced_file_is_on_disk(
    s: PoolState,
    disk: Disk,
    live: Live,
    file: FileId,
    pos: int,
)
    requires
        sound(s, disk, live),
        s.pool.io is None,
        pos >= 0,
        live.contains((file, pos)),
        forall|k: PageKey| #[trigger]
            s.pool.pages.contains_key(k) && s.pool.pages[k].file == Some(file)
                ==> !s.pool.pages[k].is_dirty(s.tables),
    ensures
        contents(s.pool, disk, file, pos) == disk_byte(disk[file], pos),
{
    let pool = s.pool;
    let id = pos / 4096;
    if exists|k: PageKey| #[trigger] has_page(pool, k, file, id) {
        let k = choose|k: PageKey| #[trigger] has_page(pool, k, file, id);
        lemma_contents_of_page(pool, disk, file, pos, k);
        assert(live_on_disk(pool.pages[k], disk, live));
        assert(pool.pages[k].page_id * 4096 + pos % 4096 == pos);
        assert(pool.pages[k].bytes[pos % 4096] == disk_byte(
            disk[file],
            pool.pages[k].page_id * 4096 + pos % 4096,
        ));
    } else {
        lemma_contents_of_disk(pool, disk, file, pos);
    }
}

/// Whether every page of a file that is marked as written is noted in its cache.
pub open spec fn dirt_noted(cache: CacheView, pool: PoolView) -> bool {
    forall|k: PageKey| #[trigger]
        pool.pages.contains_key(k) && pool.pages[k].file == Some(cache.file)
            && pool.pages[k].dirty ==> cache.dirty_pages.contains(pool.pages[k].page_id)
}

/// Whether every page that is marked as written was so before.
pub open spec fn no_new_marks(before: PoolView, after: PoolView) -> bool {
    forall|k: PageKey| #[trigger]
        after.pages.contains_key(k) && after.pages[k].dirty ==> {
            &&& before.pages.contains_key(k)
            &&& before.pages[k].dirty
            &&& before.pages[k].file == after.pages[k].file
            &&& before.pages[k].page_id == after.pages[k].page_id
        }
}

/// A cache begins with all that is written noted: no page of its file is in the pool.
pub proof fn law_fresh_cache_notes_all(cache: CacheView, pool: PoolView)
    requires
        cache.coherent(pool),
        cache.pages == Map::<usize, PageKey>::empty(),
    ensures
        dirt_noted(cache, pool),
{
}

/// What goes on in the background marks no page as written, so what is written stays
/// noted.
pub proof fn law_background_marks_nothing(
    s: PoolState,
    disk: Disk,
    after: PoolState,
    disk_after: Disk,
)
    requires
        s.pool.wf(),
        background_step(s, disk, after, disk_after),
    ensures
        no_new_marks(s.pool, after.pool),
        forall|cache: CacheView| #[trigger]
            dirt_noted(cache, s.pool) ==> dirt_noted(cache, after.pool),
{
    if exists|
        cache: CacheView,
        page_id: usize,
        cache_after: CacheView,
        r: CachePage,
    |
        {
            &&& cache.coherent(s.pool)
            &&& in_file_range(page_id)
            &&& s.pool.next_key < isize::MAX
            &&& #[trigger] cache_acquired(cache, s, page_id, cache_after, after, r)
        } {
        lemma_make_room_only_drops(s);
        lemma_make_room(s);
    }
}

/// A page of the file that a write marks is noted.
pub proof fn law_written_pages_are_noted(
    pool: PoolView,
    cache: CacheView,
    offset: int,
    data: Seq<u8>,
    from: int,
    to: int,
)
    requires
        dirt_noted(cache, pool),
    ensures
        dirt_noted(
            store_noted(cache, offset, from, to),
            store(pool, cache.file, offset, data, from, to),
        ),
{
}

/// A page of the file that is filled up with zeros is noted.
pub proof fn law_filled_pages_are_noted(
    cache: CacheView,
    s: PoolState,
    op: GapOp,
    cache_after: CacheView,
    after: PoolState,
    op_after: GapOp,
    r: Progress,
)
    requires
        s.pool.wf(),
        s.pool.next_key < isize::MAX,
        cache.coherent(s.pool),
        dirt_noted(cache, s.pool),
        gap_stepped(cache, s, op, cache_after, after, op_after, r),
    ensures
        dirt_noted(cache_after, after.pool),
{
    lemma_make_room_only_drops(s);
    lemma_make_room(s);
}

/// A moment while a file is being written back: the pages `ids` are, of which the
/// first `next` have been dealt with.
pub struct SyncMoment {
    pub state: PoolState,
    pub disk: Disk,
    pub cache: CacheView,
    pub ids: Seq<usize>,
    pub next: int,
}

/// One moment after another while a file is being written back: something goes on
/// in the background, or the next page is dealt with. Nobody writes to the file.
pub open spec fn sync_step(a: SyncMoment, b: SyncMoment) -> bool {
    &&& b.ids == a.ids
    &&& b.cache.file == a.cache.file
    &&& {
        ||| b.next == a.next && background_step(a.state, a.disk, b.state, b.disk)
        ||| {
            &&& b.disk == a.disk
            &&& a.state.pool.io is None
            &&& a.next < a.ids.len()
            &&& a.cache.coherent(a.state.pool)
            &&& b.state.tables == a.state.tables
            &&& sync_stepped(a.cache, a.state, a.ids, a.next, b.cache, b.state.pool, b.next)
        }
    }
}

/// Whether a page is being written back.
spec fn being_flushed(pool: PoolView, key: PageKey) -> bool {
    pool.io matches Some(IoTaskView::Flush { key: k, .. }) && k == key
}

/// Whether a page is one of those that are left to be dealt with.
spec fn still_listed(m: SyncMoment, id: usize) -> bool {
    exists|i: int| m.next <= i < m.ids.len() && #[trigger] m.ids[i] == id
}

/// What holds at every moment while a file is being written back, where `first` is
/// the moment at which that began.
spec fn half_synced(first: SyncMoment, live: Live, m: SyncMoment) -> bool {
    &&& sound(m.state, m.disk, live)
    &&& same_contents(first.state.pool, first.disk, m.state.pool, m.disk, live)
    &&& m.ids == first.ids
    &&& 0 <= m.next <= m.ids.len()
    &&& m.cache.file == first.cache.file
    &&& forall|k: PageKey| #[trigger]
        m.state.pool.pages.contains_key(k) && m.state.pool.pages[k].file == Some(first.cache.file)
            && m.state.pool.pages[k].dirty ==> still_listed(m, m.state.pool.pages[k].page_id)
            || being_flushed(m.state.pool, k)
}

/// A step of writing a file back keeps what holds at every moment.
proof fn lemma_sync_step(first: SyncMoment, live: Live, a: SyncMoment, b: SyncMoment)
    requires
        half_synced(first, live, a),
        sync_step(a, b),
    ensures
        half_synced(first, live, b),
{
    let file = first.cache.file;
    if b.next == a.next && background_step(a.state, a.disk, b.state, b.disk) {
        law_background_keeps_contents(a.state, a.disk, live, b.state, b.disk);
        law_background_marks_nothing(a.state, a.disk, b.state, b.disk);
        assert forall|k: PageKey| #[trigger]
            b.state.pool.pages.contains_key(k) && b.state.pool.pages[k].file == Some(file)
                && b.state.pool.pages[k].dirty implies still_listed(
            b,
            b.state.pool.pages[k].page_id,
        ) || being_flushed(b.state.pool, k) by {
            assert(a.state.pool.pages.contains_key(k));
            let id = a.state.pool.pages[k].page_id;
            if still_listed(a, id) {
                let i = choose|i: int| a.next <= i < a.ids.len() && #[trigger] a.ids[i] == id;
                assert(b.ids[i] == id);
            }
        }
    } else {
        let id = a.ids[a.next];
        if a.cache.holds(a.state.pool, id) {
            lemma_start_flush(a.state, a.disk, live, a.cache.pages[id]);
            assert(b.state =~= start_flush(a.state, a.cache.pages[id]));
        } else {
            assert(b.state =~= a.state);
        }
        assert forall|k: PageKey| #[trigger]
            b.state.pool.pages.contains_key(k) && b.state.pool.pages[k].file == Some(file)
                && b.state.pool.pages[k].dirty implies still_listed(
            b,
            b.state.pool.pages[k].page_id,
        ) || being_flushed(b.state.pool, k) by {
            assert(a.state.pool.pages.contains_key(k));
            let own = a.state.pool.pages[k].page_id;
            if own == id {
                assert(a.cache.pages[id] == k);
            } else {
                let i = choose|i: int| a.next <= i < a.ids.len() && #[trigger] a.ids[i] == own;
                assert(b.ids[i] == own);
            }
        }
    }
    assert forall|f: FileId, pos: int| pos >= 0 && live.contains((f, pos)) implies #[trigger] contents(
        b.state.pool,
        b.disk,
        f,
        pos,
    ) == contents(first.state.pool, first.disk, f, pos) by {
        assert(contents(a.state.pool, a.disk, f, pos) == contents(
            first.state.pool,
            first.disk,
            f,
            pos,
        ));
    }
}

/// What holds at every moment holds at the last one.
proof fn lemma_sync_run(live: Live, run: Seq<SyncMoment>)
    requires
        run.len() > 0,
        half_synced(run[0], live, run[0]),
        forall|i: int, j: int|
            0 <= i && j == i + 1 && j < run.len() ==> #[trigger] sync_step(run[i], run[j]),
    ensures
        half_synced(run[0], live, run.last()),
    decreases run.len(),
{
    if run.len() > 1 {
        let rest = run.drop_last();
        assert forall|i: int, j: int|
            0 <= i && j == i + 1 && j < rest.len() implies #[trigger] sync_step(
            rest[i],
            rest[j],
        ) by {
            assert(sync_step(run[i], run[j]));
        }
        lemma_sync_run(live, rest);
        assert(rest.last() == run[run.len() - 2]);
        assert(sync_step(run[run.len() - 2], run[run.len() - 1]));
        lemma_sync_step(run[0], live, rest.last(), run.last());
    }
}

/// A `sync` brings the file to disk: once the pages that were noted have been dealt
/// with and nothing is under way any more, no page of the file is marked as written,
/// and the disk holds what the file held when the `sync` began. Left out are only
/// pages that user code has stored to through a mapping, which the cache does not
/// note.
pub proof fn law_sync_brings_the_file_to_disk(live: Live, run: Seq<SyncMoment>)
    requires
        run.len() > 0,
        sound(run[0].state, run[0].disk, live),
        dirt_noted(run[0].cache, run[0].state.pool),
        run[0].ids.to_set() == run[0].cache.dirty_pages,
        run[0].next == 0,
        forall|i: int, j: int|
            0 <= i && j == i + 1 && j < run.len() ==> #[trigger] sync_step(run[i], run[j]),
        run.last().next == run.last().ids.len(),
        run.last().state.pool.io is None,
    ensures
        ({
            let file = run[0].cache.file;
            let last = run.last();
            &&& sound(last.state, last.disk, live)
            &&& same_contents(
                run[0].state.pool,
                run[0].disk,
                last.state.pool,
                last.disk,
                live,
            )
            &&& forall|k: PageKey| #[trigger]
                last.state.pool.pages.contains_key(k) && last.state.pool.pages[k].file == Some(file)
                    ==> !last.state.pool.pages[k].dirty
            &&& dirt_noted(CacheView { dirty_pages: Set::empty(), ..last.cache }, last.state.pool)
            &&& forall|pos: int|
                pos >= 0 && live.contains((file, pos)) && (forall|k: PageKey| #[trigger]
                    last.state.pool.pages.contains_key(k) && is_page(
                        last.state.pool.pages[k],
                        file,
                        pos / 4096,
                    ) ==> !last.state.tables.any_dirty(last.state.pool.pages[k].virt_pages))
                    ==> #[trigger] disk_byte(last.disk[file], pos) == contents(
                    run[0].state.pool,
                    run[0].disk,
                    file,
                    pos,
                )
        }),
{
    let first = run[0];
    let file = first.cache.file;
    assert forall|k: PageKey| #[trigger]
        first.state.pool.pages.contains_key(k) && first.state.pool.pages[k].file == Some(file)
            && first.state.pool.pages[k].dirty implies still_listed(
        first,
        first.state.pool.pages[k].page_id,
    ) by {
        let id = first.state.pool.pages[k].page_id;
        assert(first.ids.to_set().contains(id));
        let i = choose|i: int| 0 <= i < first.ids.len() && first.ids[i] == id;
        assert(first.ids[i] == id);
    }
    lemma_sync_run(live, run);
    let last = run.last();
    let pool = last.state.pool;
    assert forall|pos: int|
        pos >= 0 && live.contains((file, pos)) && (forall|k: PageKey| #[trigger]
            pool.pages.contains_key(k) && is_page(pool.pages[k], file, pos / 4096)
                ==> !last.state.tables.any_dirty(pool.pages[k].virt_pages)) implies #[trigger] disk_byte(
        last.disk[file],
        pos,
    ) == contents(first.state.pool, first.disk, file, pos) by {
        let id = pos / 4096;
        assert(contents(pool, last.disk, file, pos) == contents(
            first.state.pool,
            first.disk,
            file,
            pos,
        ));
        if exists|k: PageKey| #[trigger] has_page(pool, k, file, id) {
            let k = choose|k: PageKey| #[trigger] has_page(pool, k, file, id);
            lemma_contents_of_page(pool, last.disk, file, pos, k);
            assert(live_on_disk(pool.pages[k], last.disk, live));
            assert(pool.pages[k].page_id * 4096 + pos % 4096 == pos);
            assert(pool.pages[k].bytes[pos % 4096] == disk_byte(
                last.disk[file],
                pool.pages[k].page_id * 4096 + pos % 4096,
            ));
        } else {
            lemma_contents_of_disk(pool, last.disk, file, pos);
        }
    }
}

/// A page that was written back without an error is dirty no more, neither by its
/// own mark nor in any page table, and holds what it held.
pub proof fn law_written_back_page_is_clean(s: PoolState, reply: IoReplyView, key: PageKey)
    requires
        s.pool.wf(),
        s.pool.io matches Some(IoTaskView::Flush { key: k, .. }) && k == key,
        reply_fits(s.pool.io, reply),
        complete(s, reply).pool.io is None,
        complete(s, reply).pool.outcome is Ok,
    ensures
        complete(s, reply).pool.pages.contains_key(key),
        !complete(s, reply).pool.pages[key].is_dirty(complete(s, reply).tables),
        complete(s, reply).pool.pages[key].bytes == s.pool.pages[key].bytes,
{
    lemma_cleaned(s.pool.pages[key], s.tables);
}

/// The file on disk can be cut to the size of the file: the disk may be longer,
/// because pages are written back whole, and because the file was cut. What the file
/// holds stays, and all that holds of the pool and the disk goes on to hold. What
/// lies behind the end does not count any more.
pub proof fn law_cut_keeps_the_file(
    s: PoolState,
    disk: Disk,
    live: Live,
    file: FileId,
    size: int,
)
    requires
        sound(s, disk, live),
        s.pool.io is None,
        0 <= size <= disk[file].data.len(),
    ensures
        sound(s, cut_disk(disk, file, size), without_tail(live, file, size)),
        forall|f: FileId, pos: int|
            pos >= 0 && (f == file ==> pos < size) ==> #[trigger] contents(
                s.pool,
                cut_disk(disk, file, size),
                f,
                pos,
            ) == contents(s.pool, disk, f, pos),
{
    let cut = cut_disk(disk, file, size);
    let less = without_tail(live, file, size);
    assert forall|f: FileId, pos: int| pos >= 0 && (f == file ==> pos < size) implies #[trigger] disk_byte(
        cut[f],
        pos,
    ) == disk_byte(disk[f], pos) by {}
    assert forall|k: PageKey| #[trigger]
        s.pool.pages.contains_key(k) && !s.pool.pages[k].is_dirty(s.tables) implies live_on_disk(
        s.pool.pages[k],
        cut,
        less,
    ) by {
        assert(live_on_disk(s.pool.pages[k], disk, live));
    }
}

/// The disk once a file is cut to `size` bytes.
pub open spec fn cut_disk(disk: Disk, file: FileId, size: int) -> Disk {
    disk.insert(file, DiskFile { data: disk[file].data.take(size), ..disk[file] })
}

/// A file that is made shorter loses nothing but its tail: to let bytes not count
/// any more breaks nothing.
pub proof fn law_shorter_file_is_sound(
    s: PoolState,
    disk: Disk,
    live: Live,
    file: FileId,
    size: int,
)
    requires
        sound(s, disk, live),
    ensures
        sound(s, disk, without_tail(live, file, size)),
{
    let less = without_tail(live, file, size);
    assert forall|k: PageKey| #[trigger]
        s.pool.pages.contains_key(k) && live_on_disk(
            s.pool.pages[k],
            disk,
            live,
        ) implies live_on_disk(s.pool.pages[k], disk, less) by {}
}

/// Everything begins sound: while the pool is empty every byte of every file counts.
pub proof fn law_empty_pool_is_sound(s: PoolState, disk: Disk)
    requires
        s.pool.wf(),
        s.pool.io is None,
        s.pool.pages == Map::<PageKey, PageView>::empty(),
    ensures
        sound(s, disk, Set::full()),
{
}

/// A page that is clean is dropped before any that is dirty.
pub proof fn law_clean_pages_go_first(
    pages: Map<PageKey, PageView>,
    tables: PageTablesView,
    clean: Seq<PageKey>,
    dirty: Seq<PageKey>,
    i: int,
)
    requires
        0 <= i < clean.len(),
        pages.contains_key(clean[i]),
        !pages[clean[i]].is_dirty(tables),
    ensures
        ({
            let v = pick_victim(pages, tables, clean, dirty);
            pages.contains_key(v.key) && !pages[v.key].is_dirty(tables)
        }),
    decreases clean.len(),
{
    let key = clean[0];
    let rest = clean.skip(1);
    if i > 0 {
        assert(rest[i - 1] == clean[i]);
        if !pages.contains_key(key) {
            law_clean_pages_go_first(pages, tables, rest, dirty, i - 1);
        } else if pages[key].is_dirty(tables) {
            law_clean_pages_go_first(pages, tables, rest, dirty.push(key), i - 1);
        }
    }
}

/// The pool never holds more pages than it may: one that joins finds room.
pub proof fn law_pool_keeps_its_size(
    before: PoolState,
    page_key: PageKey,
    file: FileId,
    page_id: usize,
    after: PoolState,
    r: PoolPage,
)
    requires
        before.pool.wf(),
        before.pool.max_size > 0,
        before.pool.next_key < isize::MAX,
        acquired(before, page_key, file, page_id, after, r),
        r is Loading,
    ensures
        after.pool.pages.len() <= after.pool.max_size,
{
    lemma_make_room(before);
}

/// What a wish for a page comes to: a page that is in the pool is found under its
/// key, and none has to go for it. Any other is given a key that the pool never gave
/// before, so not the one that was wished for, and begins as a page of zeros that is
/// clean. Whatever comes of it, the pool holds no more pages than it may.
pub proof fn law_acquire_finds_or_renews(
    before: PoolState,
    page_key: PageKey,
    file: FileId,
    page_id: usize,
    after: PoolState,
    r: PoolPage,
)
    requires
        before.pool.wf(),
        before.pool.io is None,
        before.pool.max_size > 0,
        before.pool.pages.len() <= before.pool.max_size,
        before.pool.next_key < isize::MAX,
        page_key < before.pool.next_key,
        acquired(before, page_key, file, page_id, after, r),
    ensures
        before.pool.pages.contains_key(page_key) <==> r is Hit,
        r is Hit ==> after == before,
        r matches PoolPage::Loading(key) ==> {
            &&& key >= before.pool.next_key
            &&& key < after.pool.next_key
            &&& key != page_key
            &&& after.pool.pages.contains_key(key)
            &&& after.pool.pages[key].bytes == zeros_of(4096)
            &&& !after.pool.pages[key].is_dirty(after.tables)
            &&& after.pool.pages[key].file == Some(file)
            &&& after.pool.pages[key].page_id == page_id
        },
        after.pool.pages.len() <= after.pool.max_size,
        after.pool.max_size == before.pool.max_size,
        before.pool.next_key <= after.pool.next_key,
{
    lemma_make_room(before);
    lemma_room_shrinks(before);
    if let PoolPage::Loading(key) = r {
        assert(after.pool.pages[key].bytes =~= zeros_of(4096));
    }
}

/// A miss takes a page into the pool: once there is room, a page on the frame that came
/// joins the pool under a key that the pool never gave before, as a page of zeros that is
/// clean, and is read in. The pages that were left stay as they are, and the pool holds no
/// more than it may. With a spare frame at hand no frame is lacking.
pub proof fn law_miss_takes_a_page_in(
    before: PoolState,
    page_key: PageKey,
    addr: usize,
    file: FileId,
    page_id: usize,
)
    requires
        before.pool.wf(),
        before.pool.io is None,
        before.pool.max_size > 0,
        before.pool.next_key < isize::MAX,
        !before.pool.pages.contains_key(page_key),
        make_room(before).pool.io is None,
    ensures
        ({
            let room = make_room(before);
            let key = room.pool.next_key;
            let after = joined(room.pool, addr, file, page_id);
            &&& key >= before.pool.next_key
            &&& !before.pool.pages.contains_key(key)
            &&& after.next_key == key + 1
            &&& after.pages.dom() == room.pool.pages.dom().insert(key)
            &&& after.pages.len() == room.pool.pages.len() + 1
            &&& after.pages.len() <= after.max_size
            &&& after.max_size == before.pool.max_size
            &&& after.pages[key].bytes == zeros_of(4096)
            &&& !after.pages[key].is_dirty(room.tables)
            &&& after.pages[key].file == Some(file)
            &&& after.pages[key].page_id == page_id
            &&& after.pages[key].addr == addr
            &&& after.io == Some(IoTaskView::Load { key, at: Transfer::Seeking })
            &&& after.clean.len() > 0 && after.clean.last() == key
            &&& after.clean.drop_last() == room.pool.clean
            &&& after.dirty == room.pool.dirty
            &&& after.frames == room.pool.frames
            &&& forall|k: PageKey| #[trigger]
                room.pool.pages.contains_key(k) ==> after.pages[k] == room.pool.pages[k]
                    && before.pool.pages.contains_key(k)
        }),
        forall|after: PoolState, r: PoolPage| #[trigger]
            acquired(before, page_key, file, page_id, after, r) && make_room(
                before,
            ).pool.frames.len() > 0 ==> r is Loading,
{
    lemma_make_room(before);
    lemma_make_room_only_drops(before);
    let room = make_room(before);
    let after = joined(room.pool, addr, file, page_id);
    let key = room.pool.next_key;
    assert(after.pages[key].bytes =~= zeros_of(4096));
    assert(after.pages.dom() =~= room.pool.pages.dom().insert(key));
    assert(after.clean.drop_last() =~= room.pool.clean);
}

/// To make room adds no page.
proof fn lemma_room_shrinks(s: PoolState)
    requires
        s.pool.wf(),
    ensures
        make_room(s).pool.pages.len() <= s.pool.pages.len(),
    decreases s.pool.clean.len() + s.pool.dirty.len(),
{
    if s.pool.io is None && s.pool.pages.len() > 0 && s.pool.pages.len() >= s.pool.max_size {
        lemma_auto_drop(s);
        lemma_room_shrinks(auto_drop(s));
    }
}

/// Whether no page of a file is new to the pool or has changed its place.
spec fn pages_kept(before: PoolView, after: PoolView, file: FileId) -> bool {
    &&& before.next_key <= after.next_key
    &&& forall|k: PageKey| #[trigger]
        after.pages.contains_key(k) ==> {
            &&& k < before.next_key ==> before.pages.contains_key(k) && after.pages[k].file
                == before.pages[k].file && after.pages[k].page_id == before.pages[k].page_id
            &&& k >= before.next_key ==> after.pages[k].file != Some(file)
        }
}

/// A cache stays coherent as long as no page of its file is new to the pool.
proof fn lemma_coherence_kept(other: CacheView, before: PoolView, after: PoolView)
    requires
        other.coherent(before),
        pages_kept(before, after, other.file),
    ensures
        other.coherent(after),
{
}

/// The files do not get into each other's way: what is done for one file, or in
/// the background, leaves the cache of every other file coherent with the pool.
pub proof fn law_files_are_independent(
    other: CacheView,
    cache: CacheView,
    s: PoolState,
    page_id: usize,
    cache_after: CacheView,
    after: PoolState,
    r: CachePage,
)
    requires
        s.pool.wf(),
        s.pool.next_key < isize::MAX,
        other.coherent(s.pool),
        other.file != cache.file,
        cache_acquired(cache, s, page_id, cache_after, after, r),
    ensures
        other.coherent(after.pool),
{
    lemma_make_room(s);
    lemma_make_room_only_drops(s);
    lemma_coherence_kept(other, s.pool, after.pool);
}

/// What is under way in the pool ends without confusing any cache.
pub proof fn law_io_keeps_caches_coherent(other: CacheView, s: PoolState, reply: IoReplyView)
    requires
        s.pool.wf(),
        other.coherent(s.pool),
        reply_fits(s.pool.io, reply),
    ensures
        other.coherent(complete(s, reply).pool),
{
    lemma_coherence_kept(other, s.pool, complete(s, reply).pool);
}

/// A write to a file confuses no cache.
pub proof fn law_writes_keep_caches_coherent(
    other: CacheView,
    pool: PoolView,
    file: FileId,
    offset: int,
    data: Seq<u8>,
    from: int,
    to: int,
)
    requires
        pool.wf(),
        other.coherent(pool),
    ensures
        other.coherent(store(pool, file, offset, data, from, to)),
{
    lemma_coherence_kept(other, pool, store(pool, file, offset, data, from, to));
}

/// A moment while a file is being read: the state of things, how many bytes have
/// been read, and what the buffer holds.
pub struct ReadMoment {
    pub state: PoolState,
    pub disk: Disk,
    pub done: int,
    pub buf: Seq<u8>,
}

/// One moment after another while a file is being read from `offset` on:
/// something goes on in the background, or more bytes are copied from pages that
/// the pool holds.
pub open spec fn read_step(file: FileId, offset: int, a: ReadMoment, b: ReadMoment) -> bool {
    ||| {
        &&& b.done == a.done
        &&& b.buf == a.buf
        &&& background_step(a.state, a.disk, b.state, b.disk)
    }
    ||| {
        &&& b.state == a.state
        &&& b.disk == a.disk
        &&& a.state.pool.io is None
        &&& a.done <= b.done <= b.buf.len()
        &&& b.buf.len() == a.buf.len()
        &&& forall|i: int| 0 <= i < a.done ==> b.buf[i] == a.buf[i]
        &&& exists|cache: CacheView|
            {
                &&& cache.file == file
                &&& #[trigger] cache.coherent(a.state.pool)
                &&& forall|i: int|
                    a.done <= i < b.done ==> cache.shows(
                        a.state.pool,
                        offset + i,
                        #[trigger] b.buf[i],
                    )
            }
    }
}

/// A read returns what the file holds: whatever was evicted, read in or written
/// back on the way, every byte that was read is the byte of the file.
pub proof fn law_read_returns_the_file(
    file: FileId,
    offset: int,
    live: Live,
    run: Seq<ReadMoment>,
)
    requires
        run.len() > 0,
        0 <= offset,
        offset + run[0].buf.len() <= usize::MAX,
        run[0].done == 0,
        sound(run[0].state, run[0].disk, live),
        forall|i: int| 0 <= i < run[0].buf.len() ==> #[trigger] live.contains((file, offset + i)),
        forall|i: int, j: int|
            0 <= i && j == i + 1 && j < run.len() ==> #[trigger] read_step(
                file,
                offset,
                run[i],
                run[j],
            ),
    ensures
        sound(run.last().state, run.last().disk, live),
        same_contents(
            run[0].state.pool,
            run[0].disk,
            run.last().state.pool,
            run.last().disk,
            live,
        ),
        run.last().buf.len() == run[0].buf.len(),
        0 <= run.last().done <= run[0].buf.len(),
        forall|i: int|
            0 <= i < run.last().done ==> #[trigger] run.last().buf[i] == contents(
                run[0].state.pool,
                run[0].disk,
                file,
                offset + i,
            ),
    decreases run.len(),
{
    if run.len() > 1 {
        let rest = run.drop_last();
        let a = rest.last();
        let b = run.last();
        assert forall|i: int, j: int|
            0 <= i && j == i + 1 && j < rest.len() implies #[trigger] read_step(
            file,
            offset,
            rest[i],
            rest[j],
        ) by {
            assert(read_step(file, offset, run[i], run[j]));
        }
        law_read_returns_the_file(file, offset, live, rest);
        assert(rest[0] == run[0]);
        assert(a == run[run.len() - 2]);
        assert(read_step(file, offset, run[run.len() - 2], run[run.len() - 1]));
        if b.done == a.done && b.buf == a.buf && background_step(
            a.state,
            a.disk,
            b.state,
            b.disk,
        ) {
            law_background_keeps_contents(a.state, a.disk, live, b.state, b.disk);
            assert forall|f: FileId, pos: int|
                pos >= 0 && live.contains((f, pos)) implies #[trigger] contents(
                b.state.pool,
                b.disk,
                f,
                pos,
            ) == contents(run[0].state.pool, run[0].disk, f, pos) by {
                assert(contents(a.state.pool, a.disk, f, pos) == contents(
                    run[0].state.pool,
                    run[0].disk,
                    f,
                    pos,
                ));
            }
        } else {
            let cache = choose|cache: CacheView|
                {
                    &&& cache.file == file
                    &&& #[trigger] cache.coherent(a.state.pool)
                    &&& forall|i: int|
                        a.done <= i < b.done ==> cache.shows(
                            a.state.pool,
                            offset + i,
                            #[trigger] b.buf[i],
                        )
                };
            assert forall|i: int| 0 <= i < b.done implies #[trigger] b.buf[i] == contents(
                run[0].state.pool,
                run[0].disk,
                file,
                offset + i,
            ) by {
                assert(live.contains((file, offset + i)));
                assert(contents(a.state.pool, a.disk, file, offset + i) == contents(
                    run[0].state.pool,
                    run[0].disk,
                    file,
                    offset + i,
                ));
                if i < a.done {
                    assert(a.buf[i] == b.buf[i]);
                } else {
                    law_read_shows_contents(
                        a.state,
                        a.disk,
                        live,
                        cache,
                        offset + i,
                        b.buf[i],
                    );
                }
            }
        }
    }
}

/// What was written can be read: once `len` bytes are written at an offset, the
/// file has as many to give there.
pub proof fn law_written_range_is_readable(cache: CacheView, offset: int, len: int)
    requires
        0 <= offset,
        0 < len,
        offset + len <= usize::MAX,
    ensures
        readable(
            store_noted(cache, offset, 0, len).size as int,
            offset,
            len,
        ) == len,
{
}

/// A moment while the gap before an offset is being filled.
pub struct GapMoment {
    pub state: PoolState,
    pub disk: Disk,
    pub cache: CacheView,
    pub op: GapOp,
}

/// One moment after another while the gap is being filled: something goes on in
/// the background, or the filling makes a step. Nobody else writes to the file.
pub open spec fn gap_step(a: GapMoment, b: GapMoment) -> bool {
    ||| {
        &&& b.op == a.op
        &&& b.cache.file == a.cache.file
        &&& b.cache.size == a.cache.size
        &&& background_step(a.state, a.disk, b.state, b.disk)
    }
    ||| {
        &&& b.disk == a.disk
        &&& a.state.pool.io is None
        &&& a.state.pool.next_key < isize::MAX
        &&& a.cache.coherent(a.state.pool)
        &&& exists|r: Progress| #[trigger]
            gap_stepped(a.cache, a.state, a.op, b.cache, b.state, b.op, r)
    }
}

/// Up to where the gap is known to hold zeros.
spec fn zeros_reach(op: GapOp) -> int {
    let pages = if op.flushing {
        op.next + 1
    } else {
        op.next as int
    };
    if pages * 4096 < op.offset {
        pages * 4096
    } else {
        op.offset as int
    }
}

/// Where the zeros of a gap begin: at the end of the file, which has `size` bytes or,
/// where only whole pages are filled, at the page boundary behind it.
pub open spec fn zeros_begin(op: GapOp, size: usize) -> int {
    if op.whole {
        page_ceil(size as int)
    } else {
        size as int
    }
}

/// The bytes that count while the gap of a file is being filled, where those of
/// `live` counted when that began, at the moment `first`.
spec fn gap_live(first: GapMoment, live: Live, op: GapOp) -> Live {
    with_range(live, first.cache.file, zeros_begin(first.op, first.cache.size), zeros_reach(op))
}

/// What holds at every moment while the gap of a file is being filled, where `first`
/// is the moment at which that began.
spec fn gap_half_full(first: GapMoment, live: Live, m: GapMoment) -> bool {
    let size = first.cache.size as int;
    &&& sound(m.state, m.disk, gap_live(first, live, m.op))
    &&& m.op.wf()
    &&& m.op.whole == first.op.whole
    &&& m.op.offset == first.op.offset
    &&& m.op.end == first.op.end
    &&& m.cache.file == first.cache.file
    &&& m.cache.size >= size
    &&& m.cache.size <= size || m.cache.size <= m.op.next * 4096
    &&& m.op.next >= first.op.next
    &&& m.op.whole ==> m.cache.size == if m.op.next > first.op.next {
        m.op.next * 4096
    } else {
        size
    }
    &&& forall|f: FileId, pos: int|
        pos >= 0 && gap_live(first, live, m.op).contains((f, pos)) ==> #[trigger] contents(
            m.state.pool,
            m.disk,
            f,
            pos,
        ) == if f == first.cache.file && zeros_begin(first.op, first.cache.size) <= pos
            < zeros_reach(m.op) {
            0
        } else {
            contents(first.state.pool, first.disk, f, pos)
        }
}

/// A step of filling a gap keeps what holds at every moment.
proof fn lemma_gap_step(first: GapMoment, live: Live, a: GapMoment, b: GapMoment)
    requires
        first.op.whole ==> first.op.next == first.cache.size / 4096 || first.op.is_done(),
        gap_half_full(first, live, a),
        gap_step(a, b),
    ensures
        gap_half_full(first, live, b),
{
    let begin = zeros_begin(first.op, first.cache.size);
    let file = first.cache.file;
    let before = gap_live(first, live, a.op);
    let now = gap_live(first, live, b.op);
    if b.op == a.op && b.cache.file == a.cache.file && b.cache.size == a.cache.size
        && background_step(a.state, a.disk, b.state, b.disk) {
        law_background_keeps_contents(a.state, a.disk, before, b.state, b.disk);
        assert forall|f: FileId, pos: int|
            pos >= 0 && now.contains((f, pos)) implies #[trigger] contents(
            b.state.pool,
            b.disk,
            f,
            pos,
        ) == contents(a.state.pool, a.disk, f, pos) by {}
    } else {
        let r = choose|r: Progress| #[trigger]
            gap_stepped(a.cache, a.state, a.op, b.cache, b.state, b.op, r);
        let next = a.op.next;
        if a.op.is_done() {
        } else if a.op.flushing {
            assert(now =~= before);
        } else if !a.cache.holds(a.state.pool, next) {
            let page = choose|page: CachePage|
                {
                    &&& !(page is Ready)
                    &&& r == Progress::of_page(page)
                    &&& #[trigger] cache_acquired(
                        noted(a.cache, next),
                        a.state,
                        next,
                        b.cache,
                        b.state,
                        page,
                    )
                };
            lemma_acquired_faithful(
                noted(a.cache, next),
                a.state,
                a.disk,
                before,
                next,
                b.cache,
                b.state,
                page,
            );
        } else if a.op.gap_start(a.cache.size) >= a.op.gap_end() {
            assert(now =~= before);
        } else {
            let key = a.cache.pages[next];
            let from = a.op.gap_start(a.cache.size);
            let to = a.op.gap_end();
            law_zeroed_range_reads_zero(a.state, a.disk, before, key, from, to);
            assert(is_page(a.state.pool.pages[key], file, next as int));
            assert(with_range(before, file, next * 4096 + from, next * 4096 + to) =~= now);
            assert forall|f: FileId, pos: int|
                pos >= 0 && now.contains((f, pos)) implies #[trigger] contents(
                b.state.pool,
                b.disk,
                f,
                pos,
            ) == (if f == file && begin <= pos < zeros_reach(b.op) {
                0
            } else {
                contents(first.state.pool, first.disk, f, pos)
            }) by {
                if before.contains((f, pos)) {
                    assert(contents(a.state.pool, a.disk, f, pos) == if f == file && begin <= pos
                        < zeros_reach(a.op) {
                        0
                    } else {
                        contents(first.state.pool, first.disk, f, pos)
                    });
                }
                if f == file && pos / 4096 == next {
                    assert(pos == next * 4096 + pos % 4096);
                }
            }
        }
    }
}

/// The gap before a write reads as zeros: once it is filled, whatever was evicted,
/// read in or written back on the way, every byte from the end of the file to the
/// offset is zero, also where the file was longer before it was cut. Every other
/// byte that counts is as it was.
pub proof fn law_gap_reads_zero(offset: usize, live: Live, run: Seq<GapMoment>)
    requires
        run.len() > 0,
        run[0].op == gap_before(run[0].cache.size, offset),
        run[0].op.wf(),
        sound(run[0].state, run[0].disk, live),
        forall|i: int, j: int|
            0 <= i && j == i + 1 && j < run.len() ==> #[trigger] gap_step(run[i], run[j]),
        run.last().op.is_done(),
    ensures
        ({
            let first = run[0];
            let more = with_range(
                live,
                first.cache.file,
                first.cache.size as int,
                offset as int,
            );
            &&& sound(run.last().state, run.last().disk, more)
            &&& run.last().cache.file == first.cache.file
            &&& forall|f: FileId, pos: int|
                pos >= 0 && more.contains((f, pos)) ==> #[trigger] contents(
                    run.last().state.pool,
                    run.last().disk,
                    f,
                    pos,
                ) == if f == first.cache.file && first.cache.size <= pos < offset {
                    0
                } else {
                    contents(first.state.pool, first.disk, f, pos)
                }
        }),
{
    lemma_gap_run(offset, live, run);
    let first = run[0];
    let more = with_range(live, first.cache.file, first.cache.size as int, offset as int);
    assert(gap_live(first, live, run.last().op) =~= more);
}

/// What holds at every moment holds at the last one.
proof fn lemma_gap_run(offset: usize, live: Live, run: Seq<GapMoment>)
    requires
        run.len() > 0,
        run[0].op == gap_before(run[0].cache.size, offset) || run[0].op == whole_gap_before(
            run[0].cache.size,
            offset,
        ),
        run[0].op.wf(),
        sound(run[0].state, run[0].disk, live),
        forall|i: int, j: int|
            0 <= i && j == i + 1 && j < run.len() ==> #[trigger] gap_step(run[i], run[j]),
    ensures
        gap_half_full(run[0], live, run.last()),
    decreases run.len(),
{
    if run.len() > 1 {
        let rest = run.drop_last();
        assert forall|i: int, j: int|
            0 <= i && j == i + 1 && j < rest.len() implies #[trigger] gap_step(
            rest[i],
            rest[j],
        ) by {
            assert(gap_step(run[i], run[j]));
        }
        lemma_gap_run(offset, live, rest);
        assert(rest.last() == run[run.len() - 2]);
        assert(gap_step(run[run.len() - 2], run[run.len() - 1]));
        lemma_gap_step(run[0], live, rest.last(), run.last());
    } else {
        assert(gap_live(run[0], live, run[0].op) =~= live);
    }
}

/// A file that is made longer by whole pages reads zeros in them: once that is done,
/// every byte from the page boundary behind the end of the file to the one before the
/// offset is zero, and the file reaches to there. Every other byte that counts is as it
/// was.
pub proof fn law_longer_file_reads_zero(offset: usize, live: Live, run: Seq<GapMoment>)
    requires
        run.len() > 0,
        run[0].op == whole_gap_before(run[0].cache.size, offset),
        run[0].op.wf(),
        sound(run[0].state, run[0].disk, live),
        forall|i: int, j: int|
            0 <= i && j == i + 1 && j < run.len() ==> #[trigger] gap_step(run[i], run[j]),
        run.last().op.is_done(),
    ensures
        ({
            let first = run[0];
            let from = page_ceil(first.cache.size as int);
            let to = page_floor(offset as int);
            let more = with_range(live, first.cache.file, from, to);
            &&& sound(run.last().state, run.last().disk, more)
            &&& run.last().cache.file == first.cache.file
            &&& run.last().cache.size == if first.cache.size < to {
                to
            } else {
                first.cache.size as int
            }
            &&& forall|f: FileId, pos: int|
                pos >= 0 && more.contains((f, pos)) ==> #[trigger] contents(
                    run.last().state.pool,
                    run.last().disk,
                    f,
                    pos,
                ) == if f == first.cache.file && from <= pos < to {
                    0
                } else {
                    contents(first.state.pool, first.disk, f, pos)
                }
        }),
{
    lemma_gap_run(offset, live, run);
    let first = run[0];
    let from = page_ceil(first.cache.size as int);
    let to = page_floor(offset as int);
    let more = with_range(live, first.cache.file, from, to);
    assert(gap_live(first, live, run.last().op) =~= more);
}

/// A write behind the end of a file: once its gap is filled and its data written,
/// the file reads zeros from its old end to the offset, and the data from there on.
/// Every other byte that counts is as it was.
pub proof fn law_write_behind_the_end(
    offset: usize,
    data: Seq<u8>,
    live: Live,
    filling: Seq<GapMoment>,
    writing: Seq<Moment>,
)
    requires
        filling.len() > 0,
        filling[0].op == gap_before(filling[0].cache.size, offset),
        filling[0].op.wf(),
        sound(filling[0].state, filling[0].disk, live),
        forall|i: int, j: int|
            0 <= i && j == i + 1 && j < filling.len() ==> #[trigger] gap_step(
                filling[i],
                filling[j],
            ),
        filling.last().op.is_done(),
        writing.len() > 0,
        writing[0].state == filling.last().state,
        writing[0].disk == filling.last().disk,
        writing[0].done == 0,
        offset + data.len() <= usize::MAX,
        forall|i: int, j: int|
            0 <= i && j == i + 1 && j < writing.len() ==> #[trigger] write_step(
                filling[0].cache.file,
                offset as int,
                data,
                writing[i],
                writing[j],
            ),
        writing.last().done == data.len(),
    ensures
        ({
            let first = filling[0];
            let file = first.cache.file;
            let size = first.cache.size as int;
            let last = writing.last();
            let gap = with_range(live, file, size, offset as int);
            let more = with_range(gap, file, offset as int, offset + data.len());
            &&& sound(last.state, last.disk, more)
            &&& forall|f: FileId, pos: int|
                pos >= 0 && more.contains((f, pos)) ==> #[trigger] contents(
                    last.state.pool,
                    last.disk,
                    f,
                    pos,
                ) == if f == file && 0 <= pos - offset < data.len() {
                    data[pos - offset]
                } else if f == file && size <= pos < offset {
                    0
                } else {
                    contents(first.state.pool, first.disk, f, pos)
                }
        }),
{
    let first = filling[0];
    let file = first.cache.file;
    let size = first.cache.size as int;
    let last = writing.last();
    let gap = with_range(live, file, size, offset as int);
    let more = with_range(gap, file, offset as int, offset + data.len());
    law_gap_reads_zero(offset, live, filling);
    law_read_after_write(file, offset as int, data, gap, writing);
    assert forall|f: FileId, pos: int|
        pos >= 0 && more.contains((f, pos)) implies #[trigger] contents(
        last.state.pool,
        last.disk,
        f,
        pos,
    ) == (if f == file && 0 <= pos - offset < data.len() {
        data[pos - offset]
    } else if f == file && size <= pos < offset {
        0
    } else {
        contents(first.state.pool, first.disk, f, pos)
    }) by {
        if gap.contains((f, pos)) {
            assert(contents(writing[0].state.pool, writing[0].disk, f, pos) == (if f == file
                && size <= pos < offset {
                0
            } else {
                contents(first.state.pool, first.disk, f, pos)
            }));
        }
    }
}

/// What user code does through mappings: mapped pages may hold something else, each
/// of those that do has a dirty entry, and no entry becomes clean.
pub open spec fn mapped_stores(s: PoolState, after: PoolState) -> bool {
    &&& observed(s.pool, after.pool)
    &&& forall|p: VirtPage|
        s.tables.state(p) is Dirty ==> #[trigger] after.tables.state(p) is Dirty
    &&& forall|k: PageKey| #[trigger]
        s.pool.pages.contains_key(k) && after.pool.pages[k].bytes != s.pool.pages[k].bytes
            ==> after.tables.any_dirty(s.pool.pages[k].virt_pages)
}

/// Stores through a mapping are stores to the file: the file reads what user code
/// has put into its mapped pages, and every other byte is as it was.
pub proof fn law_mapped_stores_change_the_file(
    s: PoolState,
    disk: Disk,
    live: Live,
    after: PoolState,
)
    requires
        sound(s, disk, live),
        s.pool.io is None,
        mapped_stores(s, after),
    ensures
        sound(after, disk, live),
        forall|k: PageKey, j: int|
            s.pool.pages.contains_key(k) && 0 <= j < 4096 ==> contents(
                after.pool,
                disk,
                s.pool.pages[k].file->0,
                s.pool.pages[k].page_id * 4096 + j,
            ) == #[trigger] after.pool.pages[k].bytes[j],
        forall|file: FileId, pos: int|
            pos >= 0 && (forall|k: PageKey| #[trigger]
                s.pool.pages.contains_key(k) && is_page(s.pool.pages[k], file, pos / 4096)
                    ==> s.pool.pages[k].virt_pages.len() == 0) ==> #[trigger] contents(
                after.pool,
                disk,
                file,
                pos,
            ) == contents(s.pool, disk, file, pos),
{
    assert forall|k: PageKey| #[trigger] after.pool.pages.contains_key(k) implies {
        &&& s.pool.pages.contains_key(k)
        &&& s.pool.pages[k].observed_as(after.pool.pages[k])
        &&& s.pool.pages[k].is_dirty(s.tables) ==> after.pool.pages[k].is_dirty(after.tables)
    } by {
        assert(s.pool.pages.dom().contains(k));
        let page = s.pool.pages[k];
        if s.tables.any_dirty(page.virt_pages) {
            let i = choose|i: int|
                0 <= i < page.virt_pages.len() && s.tables.state(
                    #[trigger] page.virt_pages[i],
                ) is Dirty;
            assert(after.tables.state(page.virt_pages[i]) is Dirty);
        }
    }
    assert forall|k: PageKey| #[trigger] s.pool.pages.contains_key(k) implies after.pool.pages.contains_key(
        k,
    ) by {
        assert(after.pool.pages.dom().contains(k));
    }
    assert(after.pool.wf());
    assert(unique_pages(after.pool));
    assert(apart_pages(after.pool)) by {
        assert forall|k: PageKey, l: PageKey|
            {
                &&& #[trigger] after.pool.pages.contains_key(k)
                &&& #[trigger] after.pool.pages.contains_key(l)
                &&& k != l
            } implies apart(after.pool.pages[k], after.pool.pages[l]) by {
            assert(apart(s.pool.pages[k], s.pool.pages[l]));
        }
    }
    assert(faithful(after, disk, live));
    assert forall|k: PageKey, j: int| s.pool.pages.contains_key(k) && 0 <= j < 4096 implies contents(
        after.pool,
        disk,
        s.pool.pages[k].file->0,
        s.pool.pages[k].page_id * 4096 + j,
    ) == #[trigger] after.pool.pages[k].bytes[j] by {
        let pos = s.pool.pages[k].page_id * 4096 + j;
        assert(pos / 4096 == s.pool.pages[k].page_id);
        assert(pos % 4096 == j);
        assert(after.pool.pages.contains_key(k));
        assert(has_page(after.pool, k, s.pool.pages[k].file->0, pos / 4096));
        lemma_contents_of_page(after.pool, disk, s.pool.pages[k].file->0, pos, k);
    }
    assert forall|file: FileId, pos: int|
        pos >= 0 && (forall|k: PageKey| #[trigger]
            s.pool.pages.contains_key(k) && is_page(s.pool.pages[k], file, pos / 4096)
                ==> s.pool.pages[k].virt_pages.len() == 0) implies #[trigger] contents(
        after.pool,
        disk,
        file,
        pos,
    ) == contents(s.pool, disk, file, pos) by {
        let id = pos / 4096;
        if exists|k: PageKey| #[trigger] has_page(s.pool, k, file, id) {
            let k = choose|k: PageKey| #[trigger] has_page(s.pool, k, file, id);
            assert(has_page(after.pool, k, file, id));
            lemma_contents_of_page(after.pool, disk, file, pos, k);
            lemma_contents_of_page(s.pool, disk, file, pos, k);
        } else {
            assert forall|k: PageKey| !#[trigger] has_page(after.pool, k, file, id) by {
                if has_page(after.pool, k, file, id) {
                    assert(has_page(s.pool, k, file, id));
                }
            }
            lemma_contents_of_disk(s.pool, disk, file, pos);
            lemma_contents_of_disk(after.pool, disk, file, pos);
        }
    }
}

/// What a process stores through a mapping is not lost: a page that is dirty in a
/// page table is written back when it is flushed, and before it is dropped.
pub proof fn law_mapped_stores_are_written_back(s: PoolState, key: PageKey)
    requires
        s.pool.wf(),
        s.pool.pages.contains_key(key),
        s.tables.any_dirty(s.pool.pages[key].virt_pages),
    ensures
        start_flush(s, key).pool.io == Some(IoTaskView::Flush { key, at: Transfer::Seeking }),
        drop_key(s, key).pool.io == Some(
            IoTaskView::Drop { page: s.pool.pages[key], at: Transfer::Seeking },
        ),
{
}

/// One moment after another while a page is being written back: the file system
/// answers.
pub open spec fn flush_step(a: Moment, b: Moment) -> bool {
    exists|reply: IoReplyView|
        {
            &&& #[trigger] reply_fits(a.state.pool.io, reply)
            &&& answers(a.disk, request_of(a.state.pool)->0, reply, b.disk)
            &&& b.state == complete(a.state, reply)
        }
}

/// Whether the file of a page reaches to the first `n` bytes of it on disk.
spec fn reaches(page: PageView, disk: Disk, n: int) -> bool {
    n > 0 ==> disk[page.file->0].data.len() >= page.page_id * 4096 + n
}

/// While a page is being written back it stays in the pool as it is. When nothing is
/// under way any more, it holds what it held, is clean and all of it is on disk.
proof fn lemma_flush_run(s: PoolState, live: Live, key: PageKey, run: Seq<Moment>)
    requires
        run.len() > 0,
        sound(s, run[0].disk, live),
        s.pool.io is None,
        s.pool.pages.contains_key(key),
        s.pool.pages[key].is_dirty(s.tables),
        run[0].state == start_flush(s, key),
        forall|i: int, j: int|
            0 <= i && j == i + 1 && j < run.len() ==> #[trigger] flush_step(run[i], run[j]),
    ensures
        sound(run.last().state, run.last().disk, live),
        run.last().state.pool.pages.contains_key(key),
        run.last().state.pool.pages[key].bytes == s.pool.pages[key].bytes,
        run.last().state.pool.pages[key].file == s.pool.pages[key].file,
        run.last().state.pool.pages[key].page_id == s.pool.pages[key].page_id,
        match run.last().state.pool.io {
            None => {
                &&& run.last().state.pool.outcome == Ok::<isize, LinuxError>(4096)
                &&& !run.last().state.pool.pages[key].is_dirty(run.last().state.tables)
                &&& on_disk(run.last().state.pool.pages[key], run.last().disk, 4096)
                &&& reaches(s.pool.pages[key], run.last().disk, 4096)
            },
            Some(task) => {
                &&& task matches IoTaskView::Flush { key: k, at } && k == key && (
                at matches Transfer::Moving(n) ==> reaches(
                    s.pool.pages[key],
                    run.last().disk,
                    n as int,
                ))
                &&& run.last().state.pool.pages == s.pool.pages
                &&& run.last().state.tables == s.tables
            },
        },
    decreases run.len(),
{
    if run.len() == 1 {
        lemma_start_flush(s, run[0].disk, live, key);
    } else {
        let rest = run.drop_last();
        assert forall|i: int, j: int|
            0 <= i && j == i + 1 && j < rest.len() implies #[trigger] flush_step(
            rest[i],
            rest[j],
        ) by {
            assert(flush_step(run[i], run[j]));
        }
        lemma_flush_run(s, live, key, rest);
        let a = rest.last();
        let b = run.last();
        assert(a == run[run.len() - 2]);
        assert(flush_step(run[run.len() - 2], run[run.len() - 1]));
        let reply = choose|reply: IoReplyView|
            {
                &&& #[trigger] reply_fits(a.state.pool.io, reply)
                &&& answers(a.disk, request_of(a.state.pool)->0, reply, b.disk)
                &&& b.state == complete(a.state, reply)
            };
        lemma_complete_flush(a.state, a.disk, live, reply, b.disk);
        if b.state.pool.io is None {
            law_written_back_page_is_clean(a.state, reply, key);
        }
    }
}

/// What a flush of a page comes to. A page that is clean, or belongs to no file, is not
/// written at all, and the flush comes to nothing written. Of any other page the file
/// takes every byte: the flush comes to a whole page, the file on disk then holds what the
/// page holds, the page is clean, and a second flush writes nothing. Where the file system
/// fails on the way the flush comes to its error, and the page stays as it is, dirty.
/// Whatever comes of it, the page holds what it held.
pub proof fn law_flush(s: PoolState, live: Live, key: PageKey, run: Seq<Moment>, kind: i32)
    requires
        s.pool.wf(),
        s.pool.io is None,
        s.pool.pages.contains_key(key),
        s.pool.pages[key].needs_flush(s.tables) ==> sound(s, run[0].disk, live),
        run.len() > 0,
        run[0].state == start_flush(s, key),
        forall|i: int, j: int|
            0 <= i && j == i + 1 && j < run.len() ==> #[trigger] flush_step(run[i], run[j]),
    ensures
        ({
            let page = s.pool.pages[key];
            let last = run.last();
            let now = last.state.pool.pages[key];
            &&& now.bytes == page.bytes
            &&& !page.needs_flush(s.tables) ==> {
                &&& run.len() == 1
                &&& request_of(last.state.pool) is None
                &&& last.state.pool.io is None
                &&& last.state.pool.outcome == Ok::<isize, LinuxError>(0)
                &&& last.state.pool.pages == s.pool.pages
                &&& last.state.tables == s.tables
            }
            &&& page.needs_flush(s.tables) && last.state.pool.io is None ==> {
                let again = start_flush(last.state, key);
                &&& last.state.pool.outcome == Ok::<isize, LinuxError>(4096)
                &&& last.disk[page.file->0].data.len() >= page.page_id * 4096 + 4096
                &&& last.disk[page.file->0].data.subrange(
                    page.page_id * 4096,
                    page.page_id * 4096 + 4096,
                ) == page.bytes
                &&& !now.is_dirty(last.state.tables)
                &&& request_of(again.pool) is None
                &&& again.pool.outcome == Ok::<isize, LinuxError>(0)
                &&& again.pool.pages == last.state.pool.pages
            }
            &&& page.needs_flush(s.tables) && last.state.pool.io is Some ==> {
                let failed = complete(last.state, IoReplyView::Failed(kind));
                &&& request_of(last.state.pool) is Some
                &&& reply_fits(last.state.pool.io, IoReplyView::Failed(kind))
                &&& failed.pool.io is None
                &&& failed.pool.outcome == Err::<isize, LinuxError>(error_of_ax_kind(kind))
                &&& failed.pool.pages == s.pool.pages
                &&& failed.tables == s.tables
                &&& failed.pool.pages[key].needs_flush(failed.tables)
            }
        }),
{
    let page = s.pool.pages[key];
    if page.needs_flush(s.tables) {
        lemma_flush_run(s, live, key, run);
        let last = run.last();
        if last.state.pool.io is None {
            let data = last.disk[page.file->0].data;
            let start = page.page_id * 4096;
            assert(data.subrange(start, start + 4096) =~= page.bytes) by {
                assert forall|j: int| 0 <= j < 4096 implies data[start + j]
                    == #[trigger] page.bytes[j] by {
                    assert(last.state.pool.pages[key].bytes[j] == disk_byte(
                        last.disk[page.file->0],
                        start + j,
                    ));
                }
            }
        }
    } else if run.len() > 1 {
        assert(flush_step(run[0], run[1]));
    }
}

/// Stores through a shared mapping reach the file: when the write-back of a page has
/// come to its end, the disk holds what user code has put into the page.
pub proof fn law_mapped_stores_reach_the_file(
    s: PoolState,
    stored: PoolState,
    live: Live,
    key: PageKey,
    run: Seq<Moment>,
    j: int,
)
    requires
        run.len() > 0,
        sound(s, run[0].disk, live),
        s.pool.io is None,
        mapped_stores(s, stored),
        s.pool.pages.contains_key(key),
        stored.tables.any_dirty(s.pool.pages[key].virt_pages),
        run[0].state == start_flush(stored, key),
        forall|i: int, j: int|
            0 <= i && j == i + 1 && j < run.len() ==> #[trigger] flush_step(run[i], run[j]),
        run.last().state.pool.io is None,
        0 <= j < 4096,
    ensures
        disk_byte(
            run.last().disk[s.pool.pages[key].file->0],
            s.pool.pages[key].page_id * 4096 + j,
        ) == stored.pool.pages[key].bytes[j],
{
    law_mapped_stores_change_the_file(s, run[0].disk, live, stored);
    assert(stored.pool.pages.dom().contains(key));
    lemma_flush_run(stored, live, key, run);
    let page = run.last().state.pool.pages[key];
    assert(page.bytes[j] == disk_byte(
        run.last().disk[page.file->0],
        page.page_id * 4096 + j,
    ));
}

/// To map a page that is not dirty changes no file.
pub proof fn law_mapping_keeps_contents(
    s: PoolState,
    disk: Disk,
    live: Live,
    key: PageKey,
    page: VirtPage,
)
    requires
        sound(s, disk, live),
        s.pool.io is None,
        s.pool.pages.contains_key(key),
        !s.pool.pages[key].is_dirty(s.tables),
        forall|k: PageKey| #[trigger]
            s.pool.pages.contains_key(k) && k != key ==> !s.pool.pages[k].virt_pages.contains(page),
    ensures
        sound(map_key(s, key, page), disk, live),
        same_contents(s.pool, disk, map_key(s, key, page).pool, disk, live),
{
    let then = map_key(s, key, page);
    let old_page = s.pool.pages[key];
    let mapped = old_page.mapped_by(page);
    lemma_mapped_by(old_page, page);
    lemma_cleaned(mapped, s.tables);
    crate::api::file::page_pool::lemma_cleaned_wf(mapped, s.tables, s.pool.phys_virt_offset);
    lemma_page_replaced(s, disk, live, key, then);
}

/// To take the address of a page that is not dirty changes no file: what was stored
/// through it has been written back.
pub proof fn law_unmapping_keeps_contents(
    s: PoolState,
    disk: Disk,
    live: Live,
    key: PageKey,
    page: VirtPage,
)
    requires
        sound(s, disk, live),
        s.pool.io is None,
        s.pool.pages.contains_key(key),
        !s.pool.pages[key].is_dirty(s.tables),
    ensures
        sound(unmap_key(s, key, page), disk, live),
        same_contents(s.pool, disk, unmap_key(s, key, page).pool, disk, live),
{
    let then = unmap_key(s, key, page);
    lemma_filter_keeps(s.pool.pages[key].virt_pages, other_than(page));
    lemma_page_replaced(s, disk, live, key, then);
}

/// A page that is not dirty and is mapped otherwise changes no file.
proof fn lemma_page_replaced(s: PoolState, disk: Disk, live: Live, key: PageKey, then: PoolState)
    requires
        sound(s, disk, live),
        s.pool.io is None,
        s.pool.pages.contains_key(key),
        !s.pool.pages[key].is_dirty(s.tables),
        then.pool == s.pool.with_page(key, then.pool.pages[key]),
        then.pool.pages[key] == (PageView {
            virt_pages: then.pool.pages[key].virt_pages,
            ..s.pool.pages[key]
        }),
        ascending(then.pool.pages[key].virt_pages),
        forall|k: PageKey| #[trigger]
            s.pool.pages.contains_key(k) && k != key ==> {
                &&& forall|p: VirtPage| #[trigger]
                    then.pool.pages[key].virt_pages.contains(p)
                        ==> !s.pool.pages[k].virt_pages.contains(p)
                &&& s.pool.pages[k].is_dirty(s.tables) ==> s.pool.pages[k].is_dirty(then.tables)
            },
    ensures
        sound(then, disk, live),
        same_contents(s.pool, disk, then.pool, disk, live),
{
    assert(then.pool.wf());
    assert(live_on_disk(s.pool.pages[key], disk, live));
    assert forall|j: int|
        0 <= j < 4096 && live.contains(
            (s.pool.pages[key].file->0, s.pool.pages[key].page_id * 4096 + j),
        ) implies #[trigger] then.pool.pages[key].bytes[j]
        == disk_byte(disk[then.pool.pages[key].file->0], then.pool.pages[key].page_id * 4096 + j) by {
        assert(s.pool.pages[key].bytes[j] == then.pool.pages[key].bytes[j]);
    }
    assert(unique_pages(then.pool));
    assert(apart_pages(then.pool)) by {
        assert forall|k: PageKey, l: PageKey|
            {
                &&& #[trigger] then.pool.pages.contains_key(k)
                &&& #[trigger] then.pool.pages.contains_key(l)
                &&& k != l
            } implies apart(then.pool.pages[k], then.pool.pages[l]) by {
            assert(s.pool.pages.contains_key(k) && s.pool.pages.contains_key(l));
            assert(apart(s.pool.pages[k], s.pool.pages[l]));
        }
    }
    assert(faithful(then, disk, live));
    assert forall|file: FileId, pos: int| pos >= 0 implies #[trigger] contents(
        then.pool,
        disk,
        file,
        pos,
    ) == contents(s.pool, disk, file, pos) by {
        let id = pos / 4096;
        if exists|k: PageKey| #[trigger] has_page(s.pool, k, file, id) {
            let k = choose|k: PageKey| #[trigger] has_page(s.pool, k, file, id);
            assert(has_page(then.pool, k, file, id));
            lemma_contents_of_page(then.pool, disk, file, pos, k);
            lemma_contents_of_page(s.pool, disk, file, pos, k);
        } else {
            assert forall|k: PageKey| !#[trigger] has_page(then.pool, k, file, id) by {
                if has_page(then.pool, k, file, id) {
                    assert(has_page(s.pool, k, file, id));
                }
            }
            lemma_contents_of_disk(s.pool, disk, file, pos);
            lemma_contents_of_disk(then.pool, disk, file, pos);
        }
    }
}

} // verus!
