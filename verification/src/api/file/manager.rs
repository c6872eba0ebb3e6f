//! The page caches of all open files.
use crate::addr::{page_ceil, PAGE_SIZE_4K};
use crate::api::file::io::FileId;
use crate::api::file::page::{in_file_range, lemma_filter_keeps, other_than};
use crate::api::file::page_cache::{
    cache_acquired, in_offset_range, unmap_key, CachePage, CacheView, PageCache, Progress,
};
use crate::api::file::page_pool::{start_flush, PageKey, PagePool, PoolState};
use crate::api::file::page_tables::{PageTables, Pid, VirtPage};
use crate::text::same_text;
use vstd::prelude::*;

verus! {

/// A page cache that is in use.
struct CacheEntry {
    path: String,
    cache: PageCache,
    /// How many times the file is open.
    count: i32,
}

/// The page caches of all open files, each with the number of times that its
/// file is open. A cache is there as long as its file is open.
pub struct PageCacheManager {
    entries: Vec<CacheEntry>,
}

/// The model of [`PageCacheManager`]: the cache under each path, and how many
/// times the file is open.
#[verifier::ext_equal]
pub struct ManagerView {
    pub caches: Map<Seq<char>, CacheView>,
    pub counts: Map<Seq<char>, int>,
}

/// Whether the entry at `i` is that of `path`.
spec fn entry_of(entries: Seq<CacheEntry>, path: Seq<char>, i: int) -> bool {
    0 <= i < entries.len() && entries[i].path@ == path
}

/// The entry of a path.
spec fn index_of(entries: Seq<CacheEntry>, path: Seq<char>) -> int {
    choose|i: int| entry_of(entries, path, i)
}

/// Whether a path has an entry.
spec fn has_entry(entries: Seq<CacheEntry>, path: Seq<char>) -> bool {
    exists|i: int| entry_of(entries, path, i)
}

/// What entries stand for.
spec fn manager_view(entries: Seq<CacheEntry>) -> ManagerView {
    ManagerView {
        caches: Map::new(
            |path: Seq<char>| has_entry(entries, path),
            |path: Seq<char>| entries[index_of(entries, path)].cache@,
        ),
        counts: Map::new(
            |path: Seq<char>| has_entry(entries, path),
            |path: Seq<char>| entries[index_of(entries, path)].count as int,
        ),
    }
}

impl View for PageCacheManager {
    type V = ManagerView;

    closed spec fn view(&self) -> ManagerView {
        manager_view(self.entries@)
    }
}

impl ManagerView {
    /// Whether the file is open.
    pub open spec fn contains(self, path: Seq<char>) -> bool {
        self.counts.contains_key(path)
    }

    /// One more user of the cache of `path`, which is `fresh` if it is not there
    /// yet.
    pub open spec fn opened(self, path: Seq<char>, fresh: CacheView) -> ManagerView {
        if self.contains(path) {
            ManagerView { counts: self.counts.insert(path, self.counts[path] + 1), ..self }
        } else {
            ManagerView {
                caches: self.caches.insert(path, fresh),
                counts: self.counts.insert(path, 1),
            }
        }
    }

    /// One user of the cache of `path` fewer. With the last user the cache goes.
    pub open spec fn closed_once(self, path: Seq<char>) -> ManagerView {
        if self.counts[path] == 1 {
            ManagerView { caches: self.caches.remove(path), counts: self.counts.remove(path) }
        } else {
            ManagerView { counts: self.counts.insert(path, self.counts[path] - 1), ..self }
        }
    }

    /// Changes the cache of `path`.
    pub open spec fn with_cache(self, path: Seq<char>, cache: CacheView) -> ManagerView {
        ManagerView { caches: self.caches.insert(path, cache), ..self }
    }
}

/// The cache that a file of `size` bytes begins with.
pub open spec fn fresh_cache(path: Seq<char>, file: FileId, size: u64) -> CacheView {
    let last = if size == 0 {
        -1
    } else {
        (size - 1) / 4096
    };
    CacheView {
        path,
        file,
        size: size as usize,
        max_page_id: last as isize,
        reserved_page_id: last as isize,
        pages: Map::empty(),
        dirty_pages: Set::empty(),
    }
}

/// Some pages of a file, one after the other: those from `next` to before `end`
/// are left.
#[derive(Debug, Clone, Copy)]
pub struct RangeOp {
    pub first: usize,
    pub next: usize,
    pub end: usize,
}

/// The pages that the range of `length` bytes at `offset` reaches into.
pub open spec fn range_op(offset: usize, length: usize) -> RangeOp {
    let first = (offset as int / 4096) as usize;
    RangeOp { first, next: first, end: (page_ceil(offset + length) / 4096) as usize }
}

/// Returns the pages that the range of `length` bytes at `offset` reaches into.
pub fn begin_range(offset: usize, length: usize) -> (r: RangeOp)
    requires
        offset + length <= usize::MAX,
    ensures
        r == range_op(offset, length),
{
    let first: usize = offset / PAGE_SIZE_4K;
    let reach: usize = offset + length;
    let end: usize = if reach % PAGE_SIZE_4K == 0 {
        reach / PAGE_SIZE_4K
    } else {
        reach / PAGE_SIZE_4K + 1
    };
    RangeOp { first, next: first, end }
}

/// The pages that are read in for the range of `length` bytes at `offset`: from the
/// page that it begins in to before the page that it ends in.
pub open spec fn populate_op(offset: usize, length: usize) -> RangeOp {
    let first = (offset as int / 4096) as usize;
    RangeOp { first, next: first, end: ((offset + length) / 4096) as usize }
}

/// Returns the pages that are read in for the range of `length` bytes at `offset`.
pub fn begin_populate(offset: usize, length: usize) -> (r: RangeOp)
    requires
        offset + length <= usize::MAX,
    ensures
        r == populate_op(offset, length),
        forall|id: usize| r.first <= id < r.end ==> in_file_range(id),
{
    let first: usize = offset / PAGE_SIZE_4K;
    let end: usize = (offset + length) / PAGE_SIZE_4K;
    RangeOp { first, next: first, end }
}

impl PageCacheManager {
    /// Whether no path has two entries, and every file with an entry is open.
    pub closed spec fn wf(&self) -> bool {
        &&& forall|i: int, j: int|
            0 <= i < j < self.entries@.len() ==> (#[trigger] self.entries@[i]).path@ != (
            #[trigger] self.entries@[j]).path@
        &&& forall|i: int| 0 <= i < self.entries@.len() ==> (#[trigger] self.entries@[i]).count > 0
    }

    /// What holds of every well-formed manager.
    pub proof fn lemma_wf(&self)
        requires
            self.wf(),
        ensures
            self@.caches.dom() == self@.counts.dom(),
            forall|path: Seq<char>| #[trigger]
                self@.contains(path) ==> 0 < self@.counts[path] <= i32::MAX,
    {
        assert(self@.caches.dom() =~= self@.counts.dom());
        assert forall|path: Seq<char>| #[trigger] self@.contains(path) implies 0
            < self@.counts[path] <= i32::MAX by {
            let i = index_of(self.entries@, path);
            assert(entry_of(self.entries@, path, i));
        }
    }

    /// Returns a manager with no open file.
    pub fn new() -> (r: PageCacheManager)
        ensures
            r.wf(),
            r@.caches == Map::<Seq<char>, CacheView>::empty(),
            r@.counts == Map::<Seq<char>, int>::empty(),
    {
        let r = PageCacheManager { entries: Vec::new() };
        assert(forall|path: Seq<char>| !has_entry(r.entries@, path));
        assert(r@.caches =~= Map::<Seq<char>, CacheView>::empty());
        assert(r@.counts =~= Map::<Seq<char>, int>::empty());
        r
    }

    /// Where the entry of a path is, if there is one.
    fn find(&self, path: &str) -> (r: Option<usize>)
        requires
            self.wf(),
        ensures
            match r {
                Some(i) => entry_of(self.entries@, path@, i as int) && self@.contains(path@)
                    && self@.counts[path@] == self.entries@[i as int].count && self@.caches[path@]
                    == self.entries@[i as int].cache@,
                None => !self@.contains(path@),
            },
    {
        let mut i: usize = 0;
        while i < self.entries.len()
            invariant
                self.wf(),
                i <= self.entries@.len(),
                forall|j: int| 0 <= j < i ==> (#[trigger] self.entries@[j]).path@ != path@,
            decreases self.entries@.len() - i,
        {
            if same_text(self.entries[i].path.as_str(), path) {
                proof {
                    assert(entry_of(self.entries@, path@, i as int));
                    lemma_index(self.entries@, path@, i as int);
                }
                return Some(i);
            }
            i = i + 1;
        }
        None
    }

    /// Whether the file under `path` is open.
    pub fn contains(&self, path: &String) -> (r: bool)
        requires
            self.wf(),
        ensures
            r == self@.contains(path@),
    {
        self.find(path.as_str()).is_some()
    }

    /// Returns how many times the file under `path` is open.
    pub fn open_count(&self, path: &String) -> (r: i32)
        requires
            self.wf(),
        ensures
            r == if self@.contains(path@) {
                self@.counts[path@]
            } else {
                0
            },
    {
        match self.find(path.as_str()) {
            Some(i) => self.entries[i].count,
            None => 0,
        }
    }

    /// Opens a file once more. Its cache is made of the open file `file`, which
    /// has `size` bytes, unless it is there already.
    pub fn open_page_cache(&mut self, path: String, file: FileId, size: u64)
        requires
            old(self).wf(),
            old(self)@.contains(path@) ==> old(self)@.counts[path@] < i32::MAX,
            !old(self)@.contains(path@) ==> in_offset_range(size as int) && size <= isize::MAX,
        ensures
            final(self).wf(),
            final(self)@ == old(self)@.opened(path@, fresh_cache(path@, file, size)),
    {
        let ghost p = path@;
        match self.find(path.as_str()) {
            Some(i) => {
                let count: i32 = self.entries[i].count;
                self.entries[i].count = count + 1;
                proof {
                    lemma_update(old(self).entries@, self.entries@);
                    assert(self@.caches =~= old(self)@.caches);
                    assert(self@.counts =~= old(self)@.counts.insert(p, count + 1));
                }
            },
            None => {
                let name = path.clone();
                let cache = PageCache::new(name, file, size);
                let ghost fresh = fresh_cache(p, file, size);
                assert(cache@ =~= fresh);
                let ghost before = self.entries@;
                self.entries.push(CacheEntry { path, cache, count: 1 });
                proof {
                    lemma_push(before, self.entries@.last());
                    assert(self.entries@ =~= before.push(self.entries@.last()));
                    assert(self@.caches =~= old(self)@.caches.insert(p, fresh));
                    assert(self@.counts =~= old(self)@.counts.insert(p, 1));
                }
            },
        }
    }

    /// Closes a file once. With the last time the cache is handed out, for its
    /// pages to be given up.
    pub fn close_page_cache(&mut self, path: &String) -> (r: Option<PageCache>)
        requires
            old(self).wf(),
            old(self)@.contains(path@),
        ensures
            final(self).wf(),
            final(self)@ == old(self)@.closed_once(path@),
            match r {
                Some(cache) => old(self)@.counts[path@] == 1 && cache@ == old(self)@.caches[path@],
                None => old(self)@.counts[path@] > 1,
            },
    {
        match self.find(path.as_str()) {
            Some(i) => {
                let count: i32 = self.entries[i].count;
                if count == 1 {
                    let ghost before = self.entries@;
                    let entry = self.entries.remove(i);
                    proof {
                        lemma_remove(before, i as int);
                        assert(self@.caches =~= old(self)@.caches.remove(path@));
                        assert(self@.counts =~= old(self)@.counts.remove(path@));
                    }
                    Some(entry.cache)
                } else {
                    self.entries[i].count = count - 1;
                    proof {
                        lemma_update(old(self).entries@, self.entries@);
                        assert(self@.caches =~= old(self)@.caches);
                        assert(self@.counts =~= old(self)@.counts.insert(path@, count - 1));
                    }
                    None
                }
            },
            None => None,
        }
    }
}

/// The state after the pages of `op` that are left lose their addresses: page
/// `first` was mapped at `vaddr` by the process `pid`, and the others behind it.
pub open spec fn range_unmapped(
    s: PoolState,
    cache: CacheView,
    op: RangeOp,
    pid: Pid,
    vaddr: usize,
) -> PoolState
    decreases op.end - op.next,
{
    if op.next >= op.end {
        s
    } else {
        let page = (pid, (vaddr + (op.next - op.first) * 4096) as usize);
        let step = if cache.holds(s.pool, op.next) {
            unmap_key(s, cache.pages[op.next], page)
        } else {
            s
        };
        range_unmapped(step, cache, RangeOp { next: (op.next + 1) as usize, ..op }, pid, vaddr)
    }
}

impl PageCacheManager {
    /// Returns the cache of an open file.
    pub fn cache_mut(&mut self, path: &String) -> (r: &mut PageCache)
        requires
            old(self).wf(),
            old(self)@.contains(path@),
        ensures
            r@ == old(self)@.caches[path@],
            final(self).wf(),
            final(self)@ == old(self)@.with_cache(path@, final(r)@),
    {
        let i: usize = match self.find(path.as_str()) {
            Some(i) => i,
            None => 0,
        };
        let ghost before = self.entries@;
        let r = &mut self.entries[i].cache;
        proof {
            let after = before.update(i as int, CacheEntry { cache: *final(r), ..before[i as int] });
            lemma_update(before, after);
            assert(manager_view(after) =~= old(self)@.with_cache(path@, final(r)@));
        }
        r
    }

    /// Carries on to read the pages of a range in (see [`begin_populate`]).
    pub fn populate(
        &mut self,
        path: &String,
        op: &mut RangeOp,
        pool: &mut PagePool,
        tables: &mut PageTables,
    ) -> (r: Progress)
        requires
            old(self).wf(),
            old(self)@.contains(path@),
            old(self)@.caches[path@].coherent(old(pool)@),
            old(pool).wf(),
            old(pool)@.io is None,
            old(pool)@.max_size > 0,
            old(pool)@.next_key < isize::MAX,
            old(op).next < old(op).end ==> in_file_range(old(op).next),
        ensures
            final(self).wf(),
            final(pool).wf(),
            final(self)@ == old(self)@.with_cache(path@, final(self)@.caches[path@]),
            final(self)@.caches[path@].coherent(final(pool)@),
            ({
                let before = PoolState { pool: old(pool)@, tables: old(tables)@ };
                let after = PoolState { pool: final(pool)@, tables: final(tables)@ };
                let cache = old(self)@.caches[path@];
                if old(op).next >= old(op).end {
                    &&& r == Progress::Done
                    &&& after == before
                    &&& final(self)@ == old(self)@
                    &&& *final(op) == *old(op)
                } else {
                    exists|page: CachePage| #[trigger]
                        cache_acquired(
                            cache,
                            before,
                            old(op).next,
                            final(self)@.caches[path@],
                            after,
                            page,
                        ) && r == Progress::of_page(page) && *final(op) == (RangeOp {
                            next: if page is Ready {
                                (old(op).next + 1) as usize
                            } else {
                                old(op).next
                            },
                            ..*old(op)
                        })
                }
            }),
    {
        if op.next >= op.end {
            assert(self@ =~= old(self)@.with_cache(path@, old(self)@.caches[path@])) by {
                self.lemma_wf();
            }
            return Progress::Done;
        }
        let cache = self.cache_mut(path);
        let page = cache.acquire_page(op.next, pool, tables);
        if let CachePage::Ready(_) = page {
            op.next = op.next + 1;
        }
        assert(cache_acquired(
            old(self)@.caches[path@],
            PoolState { pool: old(pool)@, tables: old(tables)@ },
            old(op).next,
            self@.caches[path@],
            PoolState { pool: pool@, tables: tables@ },
            page,
        ));
        Progress::from_page(page)
    }

    /// Takes the addresses of the pages of a range that are left: page `first`
    /// was mapped at `vaddr` by the process `pid`, and the others behind it.
    pub fn munmap(
        &mut self,
        path: &String,
        op: RangeOp,
        pid: Pid,
        vaddr: usize,
        pool: &mut PagePool,
        tables: &mut PageTables,
    )
        requires
            old(self).wf(),
            old(self)@.contains(path@),
            old(pool).wf(),
            op.first <= op.next,
            vaddr as int % 4096 == 0,
            op.first < op.end ==> vaddr + (op.end - op.first) * 4096 <= usize::MAX,
        ensures
            final(self).wf(),
            final(self)@ == old(self)@,
            final(pool).wf(),
            (PoolState { pool: final(pool)@, tables: final(tables)@ }) == range_unmapped(
                PoolState { pool: old(pool)@, tables: old(tables)@ },
                old(self)@.caches[path@],
                op,
                pid,
                vaddr,
            ),
    {
        let ghost before = self@;
        let cache = self.cache_mut(path);
        let ghost view = cache@;
        let ghost goal = range_unmapped(
            PoolState { pool: pool@, tables: tables@ },
            view,
            op,
            pid,
            vaddr,
        );
        let mut id: usize = op.next;
        while id < op.end
            invariant
                op.first <= id,
                pool.wf(),
                cache@ == view,
                vaddr as int % 4096 == 0,
                op.first < op.end ==> vaddr + (op.end - op.first) * 4096 <= usize::MAX,
                goal == range_unmapped(
                    PoolState { pool: pool@, tables: tables@ },
                    view,
                    RangeOp { next: id, ..op },
                    pid,
                    vaddr,
                ),
            decreases op.end - id,
        {
            let at: usize = vaddr + (id - op.first) * PAGE_SIZE_4K;
            cache.unmap_virt_page(id, (pid, at), pool, tables);
            id = id + 1;
        }
        proof {
            assert(before.with_cache(path@, view) =~= before) by {
                old(self).lemma_wf();
            }
        }
    }

    /// Carries on to write the pages of a range back, by one page. Returns
    /// whether all pages have been dealt with.
    pub fn msync(
        &mut self,
        path: &String,
        op: &mut RangeOp,
        pool: &mut PagePool,
        tables: &PageTables,
    ) -> (r: bool)
        requires
            old(self).wf(),
            old(self)@.contains(path@),
            old(pool).wf(),
            old(pool)@.io is None,
        ensures
            final(self).wf(),
            final(self)@ == old(self)@,
            final(pool).wf(),
            r == (old(op).next >= old(op).end),
            *final(op) == if r {
                *old(op)
            } else {
                RangeOp { next: (old(op).next + 1) as usize, ..*old(op) }
            },
            final(pool)@ == if !r && old(self)@.caches[path@].holds(old(pool)@, old(op).next) {
                start_flush(
                    PoolState { pool: old(pool)@, tables: tables@ },
                    old(self)@.caches[path@].pages[old(op).next],
                ).pool
            } else {
                old(pool)@
            },
    {
        if op.next >= op.end {
            return true;
        }
        let ghost before = self@;
        let cache = self.cache_mut(path);
        let ghost view = cache@;
        let _ = cache.flush_page(op.next, pool, tables);
        op.next = op.next + 1;
        proof {
            assert(before.with_cache(path@, view) =~= before) by {
                old(self).lemma_wf();
            }
        }
        false
    }
}

/// Whether no path has two entries.
spec fn unique(entries: Seq<CacheEntry>) -> bool {
    forall|i: int, j: int|
        0 <= i < j < entries.len() ==> (#[trigger] entries[i]).path@ != (
        #[trigger] entries[j]).path@
}

/// A path has one entry at most.
proof fn lemma_index(entries: Seq<CacheEntry>, path: Seq<char>, i: int)
    requires
        entry_of(entries, path, i),
        unique(entries),
    ensures
        has_entry(entries, path),
        index_of(entries, path) == i,
{
    let k = index_of(entries, path);
    assert(entry_of(entries, path, k));
}

/// To change what entries hold, but no path, changes no index.
proof fn lemma_update(before: Seq<CacheEntry>, after: Seq<CacheEntry>)
    requires
        unique(before),
        after.len() == before.len(),
        forall|i: int| 0 <= i < before.len() ==> (#[trigger] after[i]).path@ == before[i].path@,
    ensures
        unique(after),
        forall|path: Seq<char>| #[trigger] has_entry(after, path) == has_entry(before, path),
        forall|path: Seq<char>|
            has_entry(before, path) ==> #[trigger] index_of(after, path) == index_of(before, path)
                && entry_of(before, path, index_of(before, path)),
{
    assert forall|i: int, j: int| 0 <= i < j < after.len() implies (#[trigger] after[i]).path@ != (
    #[trigger] after[j]).path@ by {
        assert(before[i].path@ != before[j].path@);
    }
    assert forall|path: Seq<char>| #[trigger] has_entry(after, path) == has_entry(before, path) by {
        if has_entry(before, path) {
            assert(entry_of(after, path, index_of(before, path)));
        }
        if has_entry(after, path) {
            assert(entry_of(before, path, index_of(after, path)));
        }
    }
    assert forall|path: Seq<char>| has_entry(before, path) implies #[trigger] index_of(after, path)
        == index_of(before, path) && entry_of(before, path, index_of(before, path)) by {
        assert(entry_of(after, path, index_of(before, path)));
        lemma_index(after, path, index_of(before, path));
    }
}

/// To add an entry for a path that has none changes no other.
proof fn lemma_push(before: Seq<CacheEntry>, entry: CacheEntry)
    requires
        unique(before),
        !has_entry(before, entry.path@),
    ensures
        unique(before.push(entry)),
        forall|path: Seq<char>| #[trigger]
            has_entry(before.push(entry), path) == (has_entry(before, path) || path
                == entry.path@),
        forall|path: Seq<char>|
            has_entry(before, path) ==> #[trigger] index_of(before.push(entry), path) == index_of(
                before,
                path,
            ) && entry_of(before, path, index_of(before, path)),
        index_of(before.push(entry), entry.path@) == before.len(),
{
    let after = before.push(entry);
    assert forall|i: int, j: int| 0 <= i < j < after.len() implies (#[trigger] after[i]).path@ != (
    #[trigger] after[j]).path@ by {
        if j == before.len() {
            assert(!entry_of(before, entry.path@, i));
        }
    }
    assert(entry_of(after, entry.path@, before.len() as int));
    lemma_index(after, entry.path@, before.len() as int);
    assert forall|path: Seq<char>| #[trigger]
        has_entry(after, path) == (has_entry(before, path) || path == entry.path@) by {
        if has_entry(before, path) {
            assert(entry_of(after, path, index_of(before, path)));
        }
        if has_entry(after, path) && path != entry.path@ {
            assert(entry_of(before, path, index_of(after, path)));
        }
    }
    assert forall|path: Seq<char>| has_entry(before, path) implies #[trigger] index_of(after, path)
        == index_of(before, path) && entry_of(before, path, index_of(before, path)) by {
        assert(entry_of(before, path, index_of(before, path)));
        assert(entry_of(after, path, index_of(before, path)));
        lemma_index(after, path, index_of(before, path));
    }
}

/// To remove an entry changes no other.
proof fn lemma_remove(before: Seq<CacheEntry>, k: int)
    requires
        unique(before),
        0 <= k < before.len(),
    ensures
        unique(before.remove(k)),
        forall|path: Seq<char>| #[trigger]
            has_entry(before.remove(k), path) == (has_entry(before, path) && path
                != before[k].path@),
        forall|path: Seq<char>|
            has_entry(before, path) && path != before[k].path@ ==> before.remove(k)[
                #[trigger] index_of(before.remove(k), path)] == before[index_of(before, path)],
{
    let after = before.remove(k);
    assert forall|i: int, j: int| 0 <= i < j < after.len() implies (#[trigger] after[i]).path@ != (
    #[trigger] after[j]).path@ by {
        let a = if i < k {
            i
        } else {
            i + 1
        };
        let b = if j < k {
            j
        } else {
            j + 1
        };
        assert(before[a].path@ != before[b].path@);
    }
    assert forall|path: Seq<char>|
        has_entry(before, path) && path != before[k].path@ implies has_entry(after, path)
        && after[#[trigger] index_of(after, path)] == before[index_of(before, path)] by {
        let i = index_of(before, path);
        assert(entry_of(before, path, i));
        let j = if i < k {
            i
        } else {
            i - 1
        };
        assert(entry_of(after, path, j));
        lemma_index(after, path, j);
    }
    assert forall|path: Seq<char>| #[trigger]
        has_entry(after, path) == (has_entry(before, path) && path != before[k].path@) by {
        if has_entry(after, path) {
            let j = index_of(after, path);
            assert(entry_of(after, path, j));
            let i = if j < k {
                j
            } else {
                j + 1
            };
            assert(entry_of(before, path, i));
            assert(before[i].path@ != before[k].path@);
        }
        if has_entry(before, path) && path != before[k].path@ {
            let i = index_of(after, path);
            assert(after[i] == before[index_of(before, path)]);
        }
    }
}

/// To open a file and to close it again changes nothing.
pub proof fn law_open_then_close(m: ManagerView, path: Seq<char>, fresh: CacheView)
    requires
        m.caches.dom() == m.counts.dom(),
        m.contains(path) ==> m.counts[path] > 0,
    ensures
        m.opened(path, fresh).closed_once(path) == m,
{
    let after = m.opened(path, fresh).closed_once(path);
    assert(after.caches =~= m.caches);
    assert(after.counts =~= m.counts);
}

/// The cache of a file is there exactly as long as the file is open: opened `n`
/// times more it is closed after as many times.
pub open spec fn opened_times(
    m: ManagerView,
    path: Seq<char>,
    fresh: CacheView,
    n: nat,
) -> ManagerView
    decreases n,
{
    if n == 0 {
        m
    } else {
        opened_times(m, path, fresh, (n - 1) as nat).opened(path, fresh)
    }
}

/// The manager after a file was closed `n` times.
pub open spec fn closed_times(m: ManagerView, path: Seq<char>, n: nat) -> ManagerView
    decreases n,
{
    if n == 0 {
        m
    } else {
        closed_times(m.closed_once(path), path, (n - 1) as nat)
    }
}

/// A file that is opened any number of times and closed as many times leaves
/// everything as it was.
pub proof fn law_cache_lives_while_open(
    m: ManagerView,
    path: Seq<char>,
    fresh: CacheView,
    n: nat,
)
    requires
        m.caches.dom() == m.counts.dom(),
        m.contains(path) ==> m.counts[path] > 0,
    ensures
        closed_times(opened_times(m, path, fresh, n), path, n) == m,
        n > 0 ==> opened_times(m, path, fresh, n).contains(path),
    decreases n,
{
    if n > 0 {
        let less = (n - 1) as nat;
        lemma_opened_sound(m, path, fresh, less);
        law_open_then_close(opened_times(m, path, fresh, less), path, fresh);
        law_cache_lives_while_open(m, path, fresh, less);
    }
}

/// What holds of a manager holds after files were opened.
proof fn lemma_opened_sound(m: ManagerView, path: Seq<char>, fresh: CacheView, n: nat)
    requires
        m.caches.dom() == m.counts.dom(),
        m.contains(path) ==> m.counts[path] > 0,
    ensures
        opened_times(m, path, fresh, n).caches.dom() == opened_times(
            m,
            path,
            fresh,
            n,
        ).counts.dom(),
        opened_times(m, path, fresh, n).contains(path) ==> opened_times(
            m,
            path,
            fresh,
            n,
        ).counts[path] > 0,
    decreases n,
{
    if n > 0 {
        lemma_opened_sound(m, path, fresh, (n - 1) as nat);
        let after = opened_times(m, path, fresh, n);
        assert(after.caches.dom() =~= after.counts.dom());
    }
}

/// A file that is opened has one user more, and one that is closed one fewer. Its cache is
/// new with its first user and goes with its last, and stays as it is meanwhile. No other
/// file is touched.
pub proof fn law_users_are_counted(
    m: ManagerView,
    path: Seq<char>,
    fresh: CacheView,
    other: Seq<char>,
)
    requires
        m.caches.dom() == m.counts.dom(),
        m.contains(path) ==> m.counts[path] > 0,
    ensures
        m.opened(path, fresh).contains(path),
        m.contains(path) ==> m.opened(path, fresh).counts[path] == m.counts[path] + 1
            && m.opened(path, fresh).caches[path] == m.caches[path],
        !m.contains(path) ==> m.opened(path, fresh).counts[path] == 1 && m.opened(
            path,
            fresh,
        ).caches[path] == fresh,
        m.contains(path) ==> (m.closed_once(path).contains(path) <==> m.counts[path] > 1),
        m.contains(path) && m.counts[path] > 1 ==> m.closed_once(path).counts[path]
            == m.counts[path] - 1 && m.closed_once(path).caches[path] == m.caches[path],
        m.contains(path) && m.counts[path] == 1 ==> !m.closed_once(path).caches.contains_key(path),
        other != path ==> {
            &&& m.opened(path, fresh).contains(other) == m.contains(other)
            &&& m.opened(path, fresh).counts[other] == m.counts[other]
            &&& m.opened(path, fresh).caches[other] == m.caches[other]
            &&& m.closed_once(path).contains(other) == m.contains(other)
            &&& m.closed_once(path).counts[other] == m.counts[other]
            &&& m.closed_once(path).caches[other] == m.caches[other]
        },
{
}

/// The cache of a file that is opened knows the size of the file and the last page that it
/// has, and nothing of its pages yet.
pub proof fn law_fresh_cache_knows_the_size(path: Seq<char>, file: FileId, size: u64)
    requires
        size <= usize::MAX,
        size <= isize::MAX,
    ensures
        ({
            let cache = fresh_cache(path, file, size);
            &&& cache.path == path
            &&& cache.file == file
            &&& cache.size == size
            &&& cache.max_page_id * 4096 < size <= (cache.max_page_id + 1) * 4096
            &&& cache.reserved_page_id == cache.max_page_id
            &&& forall|id: usize| !#[trigger] cache.pages.contains_key(id)
            &&& forall|id: usize| !#[trigger] cache.dirty_pages.contains(id)
        }),
{
}

/// The pages of a range are those that a byte of it lies in, from the first on. Those that
/// are read in for it are the ones up to before the page that it ends in.
pub proof fn law_pages_of_a_range(offset: usize, length: usize, id: int)
    requires
        offset + length <= usize::MAX,
        0 <= id,
    ensures
        range_op(offset, length).next == range_op(offset, length).first,
        populate_op(offset, length).next == populate_op(offset, length).first,
        length > 0 ==> (range_op(offset, length).first <= id < range_op(offset, length).end
            <==> offset < (id + 1) * 4096 && id * 4096 < offset + length),
        populate_op(offset, length).first <= id < populate_op(offset, length).end <==> offset < (id
            + 1) * 4096 && (id + 1) * 4096 <= offset + length,
        length == 0 && offset as int % 4096 == 0 ==> range_op(offset, length).end == range_op(
            offset,
            length,
        ).first,
{
}

/// A range that a process maps no more: each page of the range that the pool holds has lost
/// the address that it was mapped at, the first one `vaddr` and each further one a page more.
/// No page has another address fewer, and no page holds anything else than before.
pub proof fn law_range_is_unmapped(
    s: PoolState,
    cache: CacheView,
    op: RangeOp,
    pid: Pid,
    vaddr: usize,
    k: PageKey,
    p: VirtPage,
)
    requires
        s.pool.wf(),
        cache.coherent(s.pool),
        op.first <= op.next,
        op.first < op.end ==> vaddr + (op.end - op.first) * 4096 <= usize::MAX,
        s.pool.pages.contains_key(k),
    ensures
        ({
            let after = range_unmapped(s, cache, op, pid, vaddr);
            let before = s.pool.pages[k];
            let now = after.pool.pages[k];
            let meant = before.file == Some(cache.file) && op.next <= before.page_id < op.end && p
                == (pid, (vaddr + (before.page_id - op.first) * 4096) as usize);
            &&& after.pool.pages.contains_key(k)
            &&& now.bytes == before.bytes
            &&& now.dirty == before.dirty
            &&& now.file == before.file
            &&& now.page_id == before.page_id
            &&& now.virt_pages.contains(p) <==> before.virt_pages.contains(p) && !meant
            &&& after.pool.next_key == s.pool.next_key
        }),
    decreases op.end - op.next,
{
    if op.next < op.end {
        let page = (pid, (vaddr + (op.next - op.first) * 4096) as usize);
        let rest = RangeOp { next: (op.next + 1) as usize, ..op };
        if cache.holds(s.pool, op.next) {
            let key = cache.pages[op.next];
            let step = unmap_key(s, key, page);
            lemma_filter_keeps(s.pool.pages[key].virt_pages, other_than(page));
            assert(step.pool.wf());
            assert(cache.coherent(step.pool));
            law_range_is_unmapped(step, cache, rest, pid, vaddr, k, p);
        } else {
            law_range_is_unmapped(s, cache, rest, pid, vaddr, k, p);
        }
    }
}

} // verus!
