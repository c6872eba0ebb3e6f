//! The page cache of a file: which pages of the pool hold which parts of it.
//!
//! An operation that may have to wait for the file system is a value of its
//! own. It is carried on by calling it again, with the same arguments, each
//! time that the pool has nothing under way any more, until it says that it is
//! done.
//!
//! What a mapped page holds is what [`PagePool::observe`] saw last: where user code
//! may have run, that call comes before an operation is begun or carried on.
use std::collections::{BTreeMap, BTreeSet};
use vstd::prelude::*;

use crate::addr::{page_ceil, PAGE_SIZE_4K};
use crate::api::file::io::{FileId, IoReply, IoReplyView, IoRequest, IoRequestView};
use crate::api::file::page::{in_file_range, PageView};
use crate::api::file::page_pool::{
    acquired, drop_key, lemma_make_room, make_room, start_flush, IoTaskView, PageKey, PagePool,
    PoolPage, PoolState, PoolView, Transfer,
};
use crate::api::file::page_tables::{PageTables, VirtPage};
use crate::api::file::stat::{file_mode, Kstat};
use crate::errno::{error_of_ax_kind, LinuxError};

use crate::ordered::{lemma_ordered_keys, lists_values, map_values, set_elements};

verus! {

/// The page cache of one file.
pub struct PageCache {
    path: String,
    file: FileId,
    size: usize,
    max_page_id: isize,
    reserved_page_id: isize,
    pages: BTreeMap<usize, PageKey>,
    dirty_pages: BTreeSet<usize>,
}

/// The model of [`PageCache`].
#[verifier::ext_equal]
pub struct CacheView {
    /// The path of the file.
    pub path: Seq<char>,
    /// The file.
    pub file: FileId,
    /// The size of the file.
    pub size: usize,
    /// The number of the last page that the file had when it was opened.
    pub max_page_id: isize,
    /// The number of the last page that was set aside then.
    pub reserved_page_id: isize,
    /// Under which key a page of the file was last put into the pool.
    pub pages: Map<usize, PageKey>,
    /// The pages that were written since the last `sync`.
    pub dirty_pages: Set<usize>,
}

impl View for PageCache {
    type V = CacheView;

    closed spec fn view(&self) -> CacheView {
        CacheView {
            path: self.path@,
            file: self.file,
            size: self.size,
            max_page_id: self.max_page_id,
            reserved_page_id: self.reserved_page_id,
            pages: self.pages@,
            dirty_pages: self.dirty_pages@,
        }
    }
}

/// Whether every page that starts below this offset ends at one that fits a
/// `usize`.
pub open spec fn in_offset_range(end: int) -> bool {
    end + PAGE_SIZE_4K <= usize::MAX
}

impl CacheView {
    /// The key under which the pool may hold a page of the file: the last one
    /// that it had, or one that no page has.
    pub open spec fn key_of(self, page_id: usize) -> PageKey {
        if self.pages.contains_key(page_id) {
            self.pages[page_id]
        } else {
            -1isize
        }
    }

    /// Whether the pool holds a page of the file.
    pub open spec fn holds(self, pool: PoolView, page_id: usize) -> bool {
        self.pages.contains_key(page_id) && pool.pages.contains_key(self.pages[page_id])
    }

    /// What the cache and the pool know of each other: a key that the pool
    /// still has leads to the page that it was given for, and a page of the
    /// file in the pool is found under its key.
    pub open spec fn coherent(self, pool: PoolView) -> bool {
        &&& self.pages.dom().finite()
        &&& self.dirty_pages.finite()
        &&& forall|id: usize| #[trigger]
            self.pages.contains_key(id) ==> 1 <= self.pages[id] < pool.next_key
        &&& forall|id: usize| #[trigger]
            self.pages.contains_key(id) && pool.pages.contains_key(self.pages[id]) ==> {
                &&& pool.pages[self.pages[id]].file == Some(self.file)
                &&& pool.pages[self.pages[id]].page_id == id
            }
        &&& forall|k: PageKey| #[trigger]
            pool.pages.contains_key(k) && pool.pages[k].file == Some(self.file) ==> {
                &&& self.pages.contains_key(pool.pages[k].page_id)
                &&& self.pages[pool.pages[k].page_id] == k
            }
    }

    /// Whether the pool holds the page of an offset, and this byte at it.
    pub open spec fn shows(self, pool: PoolView, pos: int, byte: u8) -> bool {
        self.holds(pool, (pos / 4096) as usize) && byte == self.byte(pool, pos)
    }

    /// The byte of the file at an offset, where the pool holds its page.
    pub open spec fn byte(self, pool: PoolView, pos: int) -> u8 {
        pool.pages[self.pages[(pos / 4096) as usize]].bytes[pos % 4096]
    }
}

/// What became of the wish for a page of a file.
#[derive(Debug, Clone, Copy, PartialEq, Eq, Structural)]
pub enum CachePage {
    /// The pool holds the page, under this key.
    Ready(PageKey),
    /// A page that has to make room is being written back.
    Evicting,
    /// The page is being read in, under this key.
    Loading(PageKey),
    /// There is no frame for the page.
    NoFrame,
}

/// How the wish for a page of a file may come out.
pub open spec fn cache_acquired(
    cache: CacheView,
    before: PoolState,
    page_id: usize,
    cache_after: CacheView,
    after: PoolState,
    r: CachePage,
) -> bool {
    let key = cache.key_of(page_id);
    &&& acquired(
        before,
        key,
        cache.file,
        page_id,
        after,
        match r {
            CachePage::Ready(_) => PoolPage::Hit,
            CachePage::Evicting => PoolPage::Evicting,
            CachePage::Loading(k) => PoolPage::Loading(k),
            CachePage::NoFrame => PoolPage::NoFrame,
        },
    )
    &&& r matches CachePage::Ready(k) ==> k == key
    &&& cache_after == match r {
        CachePage::Loading(k) => CacheView { pages: cache.pages.insert(page_id, k), ..cache },
        _ => cache,
    }
}

/// Making room takes pages from the pool and changes none.
pub proof fn lemma_make_room_only_drops(s: PoolState)
    requires
        s.pool.wf(),
    ensures
        forall|k: PageKey| #[trigger]
            make_room(s).pool.pages.contains_key(k) ==> {
                &&& s.pool.pages.contains_key(k)
                &&& make_room(s).pool.pages[k] == s.pool.pages[k]
            },
    decreases s.pool.clean.len() + s.pool.dirty.len(),
{
    if s.pool.io is None && s.pool.pages.len() > 0 && s.pool.pages.len() >= s.pool.max_size {
        crate::api::file::page_pool::lemma_auto_drop(s);
        lemma_make_room_only_drops(crate::api::file::page_pool::auto_drop(s));
    }
}

/// The wish for a page keeps the cache and the pool coherent.
pub proof fn lemma_acquired_coherent(
    cache: CacheView,
    before: PoolState,
    page_id: usize,
    cache_after: CacheView,
    after: PoolState,
    r: CachePage,
)
    requires
        before.pool.wf(),
        before.pool.next_key < isize::MAX,
        cache.coherent(before.pool),
        cache_acquired(cache, before, page_id, cache_after, after, r),
    ensures
        cache_after.coherent(after.pool),
{
    lemma_make_room(before);
    lemma_make_room_only_drops(before);
}

impl PageCache {
    /// Creates the cache of a file that has `size` bytes.
    pub fn new(path: String, file: FileId, size: u64) -> (r: PageCache)
        requires
            in_offset_range(size as int),
            size <= isize::MAX,
        ensures
            r@.path == path@,
            r@.file == file,
            r@.size == size,
            r@.max_page_id == if size == 0 { -1 } else { (size - 1) / 4096 },
            r@.reserved_page_id == r@.max_page_id,
            r@.pages == Map::<usize, PageKey>::empty(),
            r@.dirty_pages == Set::<usize>::empty(),
    {
        let max_page_id: isize = if size == 0 {
            -1
        } else {
            (size as isize - 1) / PAGE_SIZE_4K as isize
        };
        PageCache {
            path,
            file,
            size: size as usize,
            max_page_id,
            reserved_page_id: max_page_id,
            pages: BTreeMap::new(),
            dirty_pages: BTreeSet::new(),
        }
    }

    /// Returns the path of the file.
    pub fn path(&self) -> (r: &String)
        ensures
            r@ == self@.path,
    {
        &self.path
    }

    /// Returns the file.
    pub fn file(&self) -> (r: FileId)
        ensures
            r == self@.file,
    {
        self.file
    }

    /// Returns the size of the file.
    pub fn get_file_size(&self) -> (r: usize)
        ensures
            r == self@.size,
    {
        self.size
    }

    /// Wishes for a page of the file. If the pool holds it, nothing changes.
    /// If not, it is being read in from then on, or a page that has to make
    /// room for it is being written back.
    pub fn acquire_page(
        &mut self,
        page_id: usize,
        pool: &mut PagePool,
        tables: &mut PageTables,
    ) -> (r: CachePage)
        requires
            old(pool).wf(),
            old(pool)@.io is None,
            old(pool)@.max_size > 0,
            old(pool)@.next_key < isize::MAX,
            old(self)@.coherent(old(pool)@),
            in_file_range(page_id),
        ensures
            final(pool).wf(),
            final(self)@.coherent(final(pool)@),
            cache_acquired(
                old(self)@,
                PoolState { pool: old(pool)@, tables: old(tables)@ },
                page_id,
                final(self)@,
                PoolState { pool: final(pool)@, tables: final(tables)@ },
                r,
            ),
    {
        broadcast use vstd::std_specs::btree::group_btree_axioms;

        proof {
            lemma_ordered_keys();
            pool.lemma_wf();
        }
        let ghost before = PoolState { pool: pool@, tables: tables@ };
        let orig_key = match self.pages.get(&page_id) {
            Some(key) => *key,
            None => -1,
        };
        assert(orig_key == self@.key_of(page_id));
        let r = match pool.acquire_page(orig_key, self.file, page_id, tables) {
            PoolPage::Hit => CachePage::Ready(orig_key),
            PoolPage::Evicting => CachePage::Evicting,
            PoolPage::NoFrame => CachePage::NoFrame,
            PoolPage::Loading(new_key) => {
                self.pages.insert(page_id, new_key);
                CachePage::Loading(new_key)
            },
        };
        proof {
            lemma_acquired_coherent(
                old(self)@,
                before,
                page_id,
                self@,
                PoolState { pool: pool@, tables: tables@ },
                r,
            );
        }
        r
    }
}

/// How far an operation on a file has come.
#[derive(Debug, Clone, Copy, PartialEq, Eq, Structural)]
pub enum Progress {
    /// It is done.
    Done,
    /// It has made a step and waits for nothing.
    Stepped,
    /// It waits until a page that has to make room is written back.
    Evicting,
    /// It waits until a page is read in.
    Loading(PageKey),
    /// It waits until a page is written back.
    Flushing(PageKey),
    /// It cannot go on: there is no frame for a page.
    NoFrame,
}

impl Progress {
    /// What an operation says that needed a page which the pool did not hold.
    pub open spec fn of_page(page: CachePage) -> Progress {
        match page {
            CachePage::Ready(_) => Progress::Stepped,
            CachePage::Evicting => Progress::Evicting,
            CachePage::Loading(key) => Progress::Loading(key),
            CachePage::NoFrame => Progress::NoFrame,
        }
    }

    /// Returns what an operation says that wished for a page.
    pub fn from_page(page: CachePage) -> (r: Progress)
        ensures
            r == Progress::of_page(page),
    {
        match page {
            CachePage::Ready(_) => Progress::Stepped,
            CachePage::Evicting => Progress::Evicting,
            CachePage::Loading(key) => Progress::Loading(key),
            CachePage::NoFrame => Progress::NoFrame,
        }
    }
}

/// Reading from a file: `len` bytes from `offset` on, of which the first
/// `done` have been read.
#[derive(Debug, Clone, Copy)]
pub struct ReadOp {
    pub offset: usize,
    pub len: usize,
    pub done: usize,
}

/// How many bytes a file of `size` bytes has to give at an offset, when `want`
/// are asked for.
pub open spec fn readable(size: int, offset: int, want: int) -> int {
    if offset >= size {
        0
    } else if want < size - offset {
        want
    } else {
        size - offset
    }
}

/// A read is given as much as there is: the largest number of bytes that is asked for
/// and does not reach behind the end of the file. What is left of a file is all given to a
/// read that asks for as much or more.
pub proof fn law_read_is_given_all_there_is(size: int, offset: int, want: int)
    requires
        0 <= size,
        0 <= offset,
        0 <= want,
    ensures
        0 <= readable(size, offset, want) <= want,
        readable(size, offset, want) > 0 ==> offset + readable(size, offset, want) <= size,
        forall|n: int|
            0 <= n <= want && #[trigger] (offset + n) <= size ==> n <= readable(
                size,
                offset,
                want,
            ),
        offset <= size && want >= size - offset ==> readable(size, offset, want) == size - offset,
        offset >= size ==> readable(size, offset, want) == 0,
{
}

/// A file can be read piece by piece: two reads, the second from where the first would
/// end, are given as much as one read of both.
pub proof fn law_reads_add_up(size: int, offset: int, first: int, second: int)
    requires
        0 <= size,
        0 <= offset,
        0 <= first,
        0 <= second,
    ensures
        readable(size, offset, first) + readable(size, offset + first, second) == readable(
            size,
            offset,
            first + second,
        ),
{
}

/// The number of the page that an offset lies in is one that a page can have.
pub proof fn lemma_page_of(pos: int, end: int)
    requires
        0 <= pos < end,
        in_offset_range(end),
    ensures
        in_file_range((pos / 4096) as usize),
        (pos / 4096) as usize == pos / 4096,
{
}

impl PageCache {
    /// Starts to read from the file: no further than its end.
    pub fn begin_read(&self, offset: usize, want: usize) -> (r: ReadOp)
        ensures
            r.offset == offset,
            r.len == readable(self@.size as int, offset as int, want as int),
            r.done == 0,
    {
        let len = if offset >= self.size {
            0
        } else if want < self.size - offset {
            want
        } else {
            self.size - offset
        };
        ReadOp { offset, len, done: 0 }
    }

    /// Carries a read on: copies what the pool holds into `buf`, until all is
    /// read or a page is missing. A missing page is wished for.
    pub fn read_at(
        &mut self,
        op: &mut ReadOp,
        buf: &mut [u8],
        pool: &mut PagePool,
        tables: &mut PageTables,
    ) -> (r: Progress)
        requires
            old(pool).wf(),
            old(pool)@.io is None,
            old(pool)@.max_size > 0,
            old(pool)@.next_key < isize::MAX,
            old(self)@.coherent(old(pool)@),
            old(op).done <= old(op).len <= old(buf)@.len(),
            old(op).len > 0 ==> in_offset_range(old(op).offset + old(op).len),
        ensures
            final(pool).wf(),
            final(self)@.coherent(final(pool)@),
            final(op).offset == old(op).offset,
            final(op).len == old(op).len,
            old(op).done <= final(op).done <= final(op).len,
            final(buf)@.len() == old(buf)@.len(),
            forall|i: int|
                0 <= i < final(buf)@.len() && !(old(op).done <= i < final(op).done)
                    ==> #[trigger] final(buf)@[i] == old(buf)@[i],
            forall|i: int|
                old(op).done <= i < final(op).done ==> old(self)@.shows(
                    old(pool)@,
                    old(op).offset + i,
                    #[trigger] final(buf)@[i],
                ),
            r == Progress::Done <==> final(op).done == final(op).len,
            r == Progress::Done ==> {
                &&& final(self)@ == old(self)@
                &&& final(pool)@ == old(pool)@
                &&& final(tables)@ == old(tables)@
            },
            r != Progress::Done ==> exists|page: CachePage|
                {
                    &&& !(page is Ready)
                    &&& r == Progress::of_page(page)
                    &&& #[trigger] cache_acquired(
                        old(self)@,
                        PoolState { pool: old(pool)@, tables: old(tables)@ },
                        ((old(op).offset + final(op).done) / 4096) as usize,
                        final(self)@,
                        PoolState { pool: final(pool)@, tables: final(tables)@ },
                        page,
                    )
                },
    {
        let ghost cache0 = self@;
        let ghost pool0 = pool@;
        let ghost tables0 = tables@;
        let ghost buf0 = buf@;
        let ghost done0 = op.done;
        while op.done < op.len
            invariant
                pool.wf(),
                pool@ == pool0,
                tables@ == tables0,
                self@ == cache0,
                cache0 == old(self)@,
                pool0 == old(pool)@,
                tables0 == old(tables)@,
                buf0 == old(buf)@,
                done0 == old(op).done,
                pool0.io is None,
                pool0.max_size > 0,
                pool0.next_key < isize::MAX,
                cache0.coherent(pool0),
                op.offset == old(op).offset,
                op.len == old(op).len,
                done0 <= op.done <= op.len <= buf@.len(),
                op.len > 0 ==> in_offset_range(op.offset + op.len),
                buf@.len() == buf0.len(),
                forall|i: int|
                    0 <= i < buf@.len() && !(done0 <= i < op.done) ==> #[trigger] buf@[i]
                        == buf0[i],
                forall|i: int|
                    done0 <= i < op.done ==> cache0.shows(
                        pool0,
                        op.offset + i,
                        #[trigger] buf@[i],
                    ),
            decreases op.len - op.done,
        {
            let pos = op.offset + op.done;
            proof {
                lemma_page_of(pos as int, op.offset + op.len);
                pool.lemma_wf();
            }
            let page_id = pos / PAGE_SIZE_4K;
            let start = pos % PAGE_SIZE_4K;
            let left_in_page = PAGE_SIZE_4K - start;
            let cur_len = if left_in_page < op.len - op.done {
                left_in_page
            } else {
                op.len - op.done
            };
            let page = self.acquire_page(page_id, pool, tables);
            let key = match page {
                CachePage::Ready(key) => key,
                _ => {
                    return Progress::from_page(page);
                },
            };
            let ghost prev = buf@;
            let (_, rest) = buf.split_at_mut(op.done);
            let (chunk, _) = rest.split_at_mut(cur_len);
            let read = pool.read(key, start, chunk);
            proof {
                let now = buf@;
                assert(now.len() == prev.len());
                assert forall|i: int| 0 <= i < now.len() implies #[trigger] now[i] == (if op.done
                    <= i < op.done + cur_len {
                    pool0.pages[key].bytes[start + i - op.done]
                } else {
                    prev[i]
                }) by {}
                assert forall|i: int| done0 <= i < op.done + cur_len implies cache0.shows(
                    pool0,
                    op.offset + i,
                    #[trigger] now[i],
                ) by {
                    if i >= op.done {
                        let p = op.offset + i;
                        assert(p / 4096 == page_id);
                        assert(p % 4096 == start + i - op.done);
                    } else {
                        assert(now[i] == prev[i]);
                    }
                }
            }
            op.done = op.done + cur_len;
        }
        Progress::Done
    }
}

/// Filling the gap between the end of a file and an offset behind it with zeros:
/// the pages from `next` to before `end` are still to be dealt with. While
/// `flushing`, page `next` has its zeros and is being written back. With `whole`, only
/// whole pages are filled: one that the file already reaches into is left alone.
#[derive(Debug, Clone, Copy, PartialEq, Eq, Structural)]
pub struct GapOp {
    pub offset: usize,
    pub next: usize,
    pub end: usize,
    pub flushing: bool,
    pub whole: bool,
}

impl GapOp {
    /// The pages to be dealt with begin before the offset.
    pub open spec fn wf(self) -> bool {
        &&& self.next <= self.end
        &&& self.end * PAGE_SIZE_4K < self.offset + PAGE_SIZE_4K
        &&& self.whole ==> self.end * PAGE_SIZE_4K <= self.offset
        &&& self.flushing ==> self.next < self.end
        &&& in_offset_range(self.offset as int)
    }

    /// Whether nothing is left to be filled.
    pub open spec fn is_done(self) -> bool {
        self.next >= self.end && !self.flushing
    }

    /// The operation once page `next` is dealt with.
    pub open spec fn advanced(self) -> GapOp {
        GapOp { next: (self.next + 1) as usize, flushing: false, ..self }
    }

    /// Where in page `next` the gap begins, when the file has `size` bytes.
    pub open spec fn gap_start(self, size: usize) -> int {
        if size > self.next * 4096 {
            if self.whole {
                4096
            } else {
                size - self.next * 4096
            }
        } else {
            0
        }
    }

    /// Where in page `next` the gap ends.
    pub open spec fn gap_end(self) -> int {
        if self.offset - self.next * 4096 < 4096 {
            self.offset - self.next * 4096
        } else {
            4096
        }
    }
}

/// The gap of a file of `size` bytes before an offset. It begins in the page that
/// the file ends in, and ends in the page of the offset.
pub open spec fn gap_before(size: usize, offset: usize) -> GapOp {
    if offset <= size {
        GapOp { offset, next: 0, end: 0, flushing: false, whole: false }
    } else {
        GapOp {
            offset,
            next: (size / 4096) as usize,
            end: (page_ceil(offset as int) / 4096) as usize,
            flushing: false,
            whole: false,
        }
    }
}

/// The whole pages by which a file of `size` bytes is made longer to reach an offset.
/// The page of the offset itself is none of them.
pub open spec fn whole_gap_before(size: usize, offset: usize) -> GapOp {
    if offset <= size {
        GapOp { offset, next: 0, end: 0, flushing: false, whole: true }
    } else {
        GapOp {
            offset,
            next: (size / 4096) as usize,
            end: (offset / 4096) as usize,
            flushing: false,
            whole: true,
        }
    }
}

/// The larger of two sizes.
pub open spec fn max_size(a: usize, b: int) -> usize {
    if a < b {
        b as usize
    } else {
        a
    }
}

/// The cache once a page of a gap is filled: the file reaches to the end of the
/// page, unless the offset lies inside the page.
pub open spec fn gap_filled(cache: CacheView, op: GapOp) -> CacheView {
    let end = (op.next + 1) * 4096;
    if end <= op.offset {
        CacheView { size: max_size(cache.size, end), ..cache }
    } else {
        cache
    }
}

/// The cache once a page is noted as written.
pub open spec fn noted(cache: CacheView, page_id: usize) -> CacheView {
    CacheView { dirty_pages: cache.dirty_pages.insert(page_id), ..cache }
}

/// As many zeros.
pub open spec fn zeros_of(count: int) -> Seq<u8> {
    Seq::new(count as nat, |i: int| 0u8)
}

/// The pool once the bytes `from` to before `to` of a page are zero and its
/// write-back has begun.
pub open spec fn zero_range(s: PoolState, key: PageKey, from: int, to: int) -> PoolState {
    let page = s.pool.pages[key].written(from, zeros_of(to - from));
    start_flush(PoolState { pool: s.pool.with_page(key, page), ..s }, key)
}

/// Returns as many zeros.
fn zeros(count: usize) -> (r: Vec<u8>)
    ensures
        r@ == zeros_of(count as int),
{
    let mut out: Vec<u8> = Vec::new();
    while out.len() < count
        invariant
            out@.len() <= count,
            forall|i: int| 0 <= i < out@.len() ==> out@[i] == 0,
        decreases count - out@.len(),
    {
        out.push(0);
    }
    assert(out@ =~= zeros_of(count as int));
    out
}

/// What a step of filling a gap does: it takes note that a page is filled, or
/// puts zeros into the part of the next page that is in the gap and starts to
/// write it back. What the file reaches to meanwhile is left alone, and with it, where
/// only whole pages are filled, all of the page that it reaches into.
pub open spec fn gap_stepped(
    cache: CacheView,
    before: PoolState,
    op: GapOp,
    cache_after: CacheView,
    after: PoolState,
    op_after: GapOp,
    r: Progress,
) -> bool {
    let next = op.next;
    if op.is_done() {
        &&& r == Progress::Done
        &&& cache_after == cache
        &&& after == before
        &&& op_after == op
    } else if op.flushing {
        &&& r == Progress::Stepped
        &&& cache_after == gap_filled(cache, op)
        &&& after == before
        &&& op_after == op.advanced()
    } else if !cache.holds(before.pool, next) {
        &&& op_after == op
        &&& exists|page: CachePage|
            {
                &&& !(page is Ready)
                &&& r == Progress::of_page(page)
                &&& #[trigger] cache_acquired(
                    noted(cache, next),
                    before,
                    next,
                    cache_after,
                    after,
                    page,
                )
            }
    } else if op.gap_start(cache.size) >= op.gap_end() {
        &&& r == Progress::Stepped
        &&& cache_after == gap_filled(noted(cache, next), op)
        &&& after == before
        &&& op_after == op.advanced()
    } else {
        let key = cache.pages[next];
        &&& r == Progress::Flushing(key)
        &&& cache_after == noted(cache, next)
        &&& after == zero_range(before, key, op.gap_start(cache.size), op.gap_end())
        &&& after.pool.io is Some
        &&& op_after == (GapOp { flushing: true, ..op })
    }
}

impl PageCache {
    /// Starts to fill the gap between the end of the file and `offset`.
    pub fn begin_fill_gap(&self, offset: usize) -> (r: GapOp)
        requires
            in_offset_range(offset as int),
        ensures
            r == gap_before(self@.size, offset),
            r.wf(),
    {
        if offset <= self.size {
            return GapOp { offset, next: 0, end: 0, flushing: false, whole: false };
        }
        GapOp {
            offset,
            next: self.size / PAGE_SIZE_4K,
            end: memory_addr::align_up_4k(offset) / PAGE_SIZE_4K,
            flushing: false,
            whole: false,
        }
    }

    /// The size of the file becomes at least `size`.
    fn grow(&mut self, size: usize)
        ensures
            final(self)@ == (CacheView { size: max_size(old(self)@.size, size as int), ..old(self)@ }),
    {
        if self.size < size {
            self.size = size;
        }
    }

    /// Notes a page as written.
    fn note(&mut self, page_id: usize)
        ensures
            final(self)@ == noted(old(self)@, page_id),
    {
        broadcast use vstd::std_specs::btree::group_btree_axioms;

        proof {
            lemma_ordered_keys();
        }
        self.dirty_pages.insert(page_id);
    }

    /// Page `next` of a gap is filled.
    fn gap_page_filled(&mut self, op: &mut GapOp)
        requires
            old(op).wf(),
            old(op).next < old(op).end,
        ensures
            final(self)@ == gap_filled(old(self)@, *old(op)),
            *final(op) == old(op).advanced(),
            final(op).wf(),
    {
        let end = (op.next + 1) * PAGE_SIZE_4K;
        if end <= op.offset {
            self.grow(end);
        }
        op.next = op.next + 1;
        op.flushing = false;
    }

    /// Carries the filling of a gap on by one step: takes note that a page is
    /// filled, or puts zeros into the part of the next one that is in the gap and
    /// writes it back. What the file already reaches to is left alone, so that
    /// nothing that was written meanwhile is lost.
    pub fn fill_gap(&mut self, op: &mut GapOp, pool: &mut PagePool, tables: &mut PageTables) -> (r:
        Progress)
        requires
            old(pool).wf(),
            old(pool)@.io is None,
            old(pool)@.max_size > 0,
            old(pool)@.next_key < isize::MAX,
            old(self)@.coherent(old(pool)@),
            old(op).wf(),
            old(op).flushing ==> old(pool)@.outcome is Ok,
        ensures
            final(pool).wf(),
            final(self)@.coherent(final(pool)@),
            final(op).wf(),
            gap_stepped(
                old(self)@,
                PoolState { pool: old(pool)@, tables: old(tables)@ },
                *old(op),
                final(self)@,
                PoolState { pool: final(pool)@, tables: final(tables)@ },
                *final(op),
                r,
            ),
    {
        proof {
            pool.lemma_wf();
        }
        if op.flushing {
            self.gap_page_filled(op);
            return Progress::Stepped;
        }
        if op.next >= op.end {
            return Progress::Done;
        }
        let page_id = op.next;
        self.note(page_id);
        let page = self.acquire_page(page_id, pool, tables);
        let key = match page {
            CachePage::Ready(key) => key,
            _ => {
                return Progress::from_page(page);
            },
        };
        let page_start = page_id * PAGE_SIZE_4K;
        let from = if self.size > page_start {
            if op.whole {
                PAGE_SIZE_4K
            } else {
                self.size - page_start
            }
        } else {
            0
        };
        let to = if op.offset - page_start < PAGE_SIZE_4K {
            op.offset - page_start
        } else {
            PAGE_SIZE_4K
        };
        if from >= to {
            self.gap_page_filled(op);
            return Progress::Stepped;
        }
        let buf = zeros(to - from);
        let written = pool.write(key, from, buf.as_slice());
        pool.flush(key, tables);
        op.flushing = true;
        Progress::Flushing(key)
    }
}

/// Writing to a file: `len` bytes from `offset` on, of which the first `done`
/// have been written, once the gap before the offset is filled.
#[derive(Debug, Clone, Copy)]
pub struct WriteOp {
    pub gap: GapOp,
    pub offset: usize,
    pub len: usize,
    pub done: usize,
}

/// Whether the bytes `from` to before `to` of a write at `offset` reach into a
/// page.
pub open spec fn touches(page_id: int, offset: int, from: int, to: int) -> bool {
    &&& from < to
    &&& page_id * 4096 < offset + to
    &&& offset + from < (page_id + 1) * 4096
}

/// A page once the bytes `from` to before `to` of `data` are written to its
/// file at `offset`.
pub open spec fn store_page(
    page: PageView,
    offset: int,
    data: Seq<u8>,
    from: int,
    to: int,
) -> PageView {
    PageView {
        bytes: Seq::new(
            page.bytes.len(),
            |j: int|
                {
                    let i = page.page_id * 4096 + j - offset;
                    if from <= i < to {
                        data[i]
                    } else {
                        page.bytes[j]
                    }
                },
        ),
        dirty: page.dirty || touches(page.page_id as int, offset, from, to),
        ..page
    }
}

/// The pool once the bytes `from` to before `to` of `data` are written to a
/// file at `offset`: the pages of the file hold them, every other page is as
/// it was.
pub open spec fn store(
    pool: PoolView,
    file: FileId,
    offset: int,
    data: Seq<u8>,
    from: int,
    to: int,
) -> PoolView {
    PoolView {
        pages: Map::new(
            |k: PageKey| pool.pages.contains_key(k),
            |k: PageKey|
                if pool.pages[k].file == Some(file) {
                    store_page(pool.pages[k], offset, data, from, to)
                } else {
                    pool.pages[k]
                },
        ),
        ..pool
    }
}

/// The cache once the bytes `from` to before `to` of a write at `offset` are
/// written: the pages are noted and the file reaches to the last byte.
pub open spec fn store_noted(cache: CacheView, offset: int, from: int, to: int) -> CacheView {
    CacheView {
        dirty_pages: cache.dirty_pages.union(
            Set::new(|id: usize| touches(id as int, offset, from, to)),
        ),
        size: if from < to {
            max_size(cache.size, offset + to)
        } else {
            cache.size
        },
        ..cache
    }
}

/// To write the part of a range that lies in one page is to write to that page.
proof fn lemma_store_step(
    pool: PoolView,
    cache: CacheView,
    offset: int,
    data: Seq<u8>,
    from: int,
    done: int,
    cur: int,
    key: PageKey,
)
    requires
        pool.wf(),
        cache.coherent(pool),
        0 <= offset,
        0 <= from <= done < done + cur <= data.len(),
        pool.pages.contains_key(key),
        pool.pages[key].file == Some(cache.file),
        pool.pages[key].page_id == (offset + done) / 4096,
        (offset + done) % 4096 + cur <= 4096,
    ensures
        ({
            let mid = store(pool, cache.file, offset, data, from, done);
            store(pool, cache.file, offset, data, from, done + cur) == mid.with_page(
                key,
                mid.pages[key].written((offset + done) % 4096, data.subrange(done, done + cur)),
            )
        }),
{
    let mid = store(pool, cache.file, offset, data, from, done);
    let chunk = data.subrange(done, done + cur);
    let start = (offset + done) % 4096;
    let one = mid.with_page(key, mid.pages[key].written(start, chunk));
    let goal = store(pool, cache.file, offset, data, from, done + cur);
    let id = pool.pages[key].page_id;
    assert(id * 4096 + start == offset + done);
    assert forall|k: PageKey| #[trigger] goal.pages.contains_key(k) implies goal.pages[k]
        == one.pages[k] by {
        let page = pool.pages[k];
        if k == key {
            assert(goal.pages[k].bytes =~= one.pages[k].bytes);
        } else if page.file == Some(cache.file) {
            assert(page.page_id != id);
            assert(goal.pages[k].bytes =~= one.pages[k].bytes);
        }
    }
    assert(goal.pages =~= one.pages);
}

/// A range of a write that lies in one page notes that page.
proof fn lemma_noted_step(cache: CacheView, offset: int, from: int, done: int, cur: int)
    requires
        0 <= offset,
        0 <= from <= done < done + cur,
        offset + done + cur <= usize::MAX,
        (offset + done) % 4096 + cur <= 4096,
    ensures
        ({
            let id = ((offset + done) / 4096) as usize;
            let mid = noted(store_noted(cache, offset, from, done), id);
            store_noted(cache, offset, from, done + cur) == CacheView {
                size: max_size(mid.size, offset + done + cur),
                ..mid
            }
        }),
{
    let id = ((offset + done) / 4096) as usize;
    let mid = noted(store_noted(cache, offset, from, done), id);
    let goal = store_noted(cache, offset, from, done + cur);
    assert(id == (offset + done) / 4096);
    assert forall|i: usize| goal.dirty_pages.contains(i) <==> mid.dirty_pages.contains(i) by {
        if touches(i as int, offset, from, done + cur) && !touches(i as int, offset, from, done) {
            assert(i == id);
        }
    }
    assert(goal.dirty_pages =~= mid.dirty_pages);
}

/// Writing to a file keeps the pool well formed and coherent with the cache.
pub proof fn lemma_store_wf(
    pool: PoolView,
    cache: CacheView,
    offset: int,
    data: Seq<u8>,
    from: int,
    to: int,
)
    requires
        pool.wf(),
        cache.coherent(pool),
        0 <= offset,
        0 <= from,
        offset + to <= usize::MAX,
    ensures
        store(pool, cache.file, offset, data, from, to).wf(),
        store_noted(cache, offset, from, to).coherent(
            store(pool, cache.file, offset, data, from, to),
        ),
{
    let after = store(pool, cache.file, offset, data, from, to);
    assert(after.pages.dom() =~= pool.pages.dom());
    let ids = Set::new(|id: usize| touches(id as int, offset, from, to));
    lemma_touched_finite(offset, from, to);
}

/// A write reaches into finitely many pages.
proof fn lemma_touched_finite(offset: int, from: int, to: int)
    ensures
        Set::new(|id: usize| touches(id as int, offset, from, to)).finite(),
{
    let ids = Set::new(|id: usize| touches(id as int, offset, from, to));
    let all = vstd::set_lib::set_int_range(0, usize::MAX + 1).map(|i: int| i as usize);
    vstd::set_lib::lemma_int_range(0, usize::MAX + 1);
    vstd::set_lib::set_int_range(0, usize::MAX + 1).lemma_map_finite(|i: int| i as usize);
    assert forall|id: usize| #[trigger] ids.contains(id) implies all.contains(id) by {
        assert(vstd::set_lib::set_int_range(0, usize::MAX + 1).contains(id as int));
        assert((id as int) as usize == id);
    }
    vstd::set_lib::lemma_set_subset_finite(all, ids);
}

impl PageCache {
    /// Starts to write `len` bytes to the file.
    pub fn begin_write(&self, offset: usize, len: usize) -> (r: WriteOp)
        requires
            in_offset_range(offset + len),
        ensures
            r.gap == gap_before(self@.size, offset),
            r.gap.wf(),
            r.offset == offset,
            r.len == len,
            r.done == 0,
    {
        WriteOp { gap: self.begin_fill_gap(offset), offset, len, done: 0 }
    }

    /// Carries a write on, once the gap before it is filled (see
    /// [`PageCache::fill_gap`]): copies `buf` into the pages that the pool
    /// holds, until all is written or a page is missing. A missing page is
    /// wished for.
    pub fn write_at(
        &mut self,
        op: &mut WriteOp,
        buf: &[u8],
        pool: &mut PagePool,
        tables: &mut PageTables,
    ) -> (r: Progress)
        requires
            old(pool).wf(),
            old(pool)@.io is None,
            old(pool)@.max_size > 0,
            old(pool)@.next_key < isize::MAX,
            old(self)@.coherent(old(pool)@),
            old(op).gap.is_done(),
            old(op).done <= old(op).len,
            old(op).len == buf@.len(),
            in_offset_range(old(op).offset + old(op).len),
        ensures
            final(pool).wf(),
            final(self)@.coherent(final(pool)@),
            final(op).gap == old(op).gap,
            final(op).offset == old(op).offset,
            final(op).len == old(op).len,
            old(op).done <= final(op).done <= final(op).len,
            r == Progress::Done <==> final(op).done == final(op).len,
            forall|i: int|
                old(op).done <= i < final(op).done ==> #[trigger] old(self)@.holds(
                    old(pool)@,
                    ((old(op).offset + i) / 4096) as usize,
                ),
            ({
                let offset = old(op).offset as int;
                let from = old(op).done as int;
                let to = final(op).done as int;
                let cache = store_noted(old(self)@, offset, from, to);
                let mid = PoolState {
                    pool: store(old(pool)@, old(self)@.file, offset, buf@, from, to),
                    tables: old(tables)@,
                };
                let after = PoolState { pool: final(pool)@, tables: final(tables)@ };
                let missing = ((offset + to) / 4096) as usize;
                if r == Progress::Done {
                    final(self)@ == cache && after == mid
                } else {
                    exists|page: CachePage|
                        {
                            &&& !(page is Ready)
                            &&& r == Progress::of_page(page)
                            &&& #[trigger] cache_acquired(
                                noted(cache, missing),
                                mid,
                                missing,
                                final(self)@,
                                after,
                                page,
                            )
                        }
                }
            }),
    {
        let ghost cache0 = self@;
        let ghost pool0 = pool@;
        let ghost from = op.done as int;
        let ghost offset = op.offset as int;
        proof {
            pool.lemma_wf();
            assert(store(pool0, cache0.file, offset, buf@, from, from).pages =~= pool0.pages) by {
                assert forall|k: PageKey| #[trigger]
                    pool0.pages.contains_key(k) && pool0.pages[k].file == Some(
                        cache0.file,
                    ) implies store_page(pool0.pages[k], offset, buf@, from, from)
                    == pool0.pages[k] by {
                    assert(store_page(pool0.pages[k], offset, buf@, from, from).bytes
                        =~= pool0.pages[k].bytes);
                }
            }
            assert(store_noted(cache0, offset, from, from) =~= cache0);
        }
        while op.done < op.len
            invariant
                pool.wf(),
                pool0.wf(),
                cache0.coherent(pool0),
                self@.coherent(pool@),
                cache0 == old(self)@,
                pool0 == old(pool)@,
                tables@ == old(tables)@,
                from == old(op).done,
                offset == op.offset,
                op.gap == old(op).gap,
                op.offset == old(op).offset,
                op.len == old(op).len,
                op.len == buf@.len(),
                0 <= from <= op.done <= op.len,
                in_offset_range(op.offset + op.len),
                pool0.io is None,
                pool0.max_size > 0,
                pool0.next_key < isize::MAX,
                pool@ == store(pool0, cache0.file, offset, buf@, from, op.done as int),
                self@ == store_noted(cache0, offset, from, op.done as int),
                forall|i: int|
                    from <= i < op.done ==> #[trigger] cache0.holds(
                        pool0,
                        ((offset + i) / 4096) as usize,
                    ),
            decreases op.len - op.done,
        {
            let pos = op.offset + op.done;
            proof {
                lemma_page_of(pos as int, op.offset + op.len);
            }
            let page_id = pos / PAGE_SIZE_4K;
            let start = pos % PAGE_SIZE_4K;
            let left_in_page = PAGE_SIZE_4K - start;
            let cur_len = if left_in_page < op.len - op.done {
                left_in_page
            } else {
                op.len - op.done
            };
            self.note(page_id);
            let ghost noted_cache = self@;
            let page = self.acquire_page(page_id, pool, tables);
            let key = match page {
                CachePage::Ready(key) => key,
                _ => {
                    return Progress::from_page(page);
                },
            };
            proof {
                assert(cache0.holds(pool0, page_id));
                lemma_store_step(
                    pool0,
                    cache0,
                    offset,
                    buf@,
                    from,
                    op.done as int,
                    cur_len as int,
                    key,
                );
                lemma_noted_step(cache0, offset, from, op.done as int, cur_len as int);
                lemma_store_wf(pool0, cache0, offset, buf@, from, op.done + cur_len);
                assert forall|i: int| from <= i < op.done + cur_len implies #[trigger] cache0.holds(
                    pool0,
                    ((offset + i) / 4096) as usize,
                ) by {
                    if i >= op.done {
                        assert((offset + i) / 4096 == page_id);
                    }
                }
            }
            let chunk = vstd::slice::slice_subrange(buf, op.done, op.done + cur_len);
            let written = pool.write(key, start, chunk);
            op.done = op.done + cur_len;
            self.grow(op.offset + op.done);
        }
        Progress::Done
    }
}

/// Writing back what was written to a file: the pages in `ids`, of which the
/// first `next` have been dealt with.
#[derive(Debug)]
pub struct SyncOp {
    pub ids: Vec<usize>,
    pub next: usize,
}

/// Giving up the pages of a file: those with the keys in `keys`, of which the
/// first `next` have been dealt with.
#[derive(Debug)]
pub struct ClearOp {
    pub keys: Vec<PageKey>,
    pub next: usize,
}

/// Mapping a page of a file for a process.
#[derive(Debug, Clone, Copy, PartialEq, Eq, Structural)]
pub enum MapStage {
    /// The page is still to be had.
    Acquire,
    /// The page is being written back.
    Flushing(PageKey),
    /// The page table entry is being made.
    Mapping(PageKey),
    /// It is over.
    Over,
}

/// What is to be done to go on with a mapping.
#[derive(Debug, Clone, Copy, PartialEq, Eq, Structural)]
pub enum MapStep {
    /// Wait as the progress says, and go on.
    Wait(Progress),
    /// Make a page table entry that leads to this physical address, and say
    /// whether that was done.
    ForceMap(usize),
    /// The page cannot be mapped.
    Failed,
}

/// What the page of a file is when a virtual page maps it.
pub open spec fn map_key(s: PoolState, key: PageKey, page: VirtPage) -> PoolState {
    let mapped = s.pool.pages[key].mapped_by(page);
    PoolState {
        pool: s.pool.with_page(key, mapped.cleaned(s.tables)),
        tables: s.tables.cleared(mapped.virt_pages),
    }
}

/// What the page of a file is when a virtual page maps it no more.
pub open spec fn unmap_key(s: PoolState, key: PageKey, page: VirtPage) -> PoolState {
    PoolState {
        pool: s.pool.with_page(key, s.pool.pages[key].released_by(page)),
        tables: if s.pool.pages[key].virt_pages.contains(page) {
            s.tables.dropped(page)
        } else {
            s.tables
        },
    }
}

/// What a step of a `sync` does: it starts to write back the next of the pages `ids`,
/// if the pool holds it and it has to be. When all have been dealt with, it forgets
/// which pages were written.
pub open spec fn sync_stepped(
    cache: CacheView,
    s: PoolState,
    ids: Seq<usize>,
    next: int,
    cache_after: CacheView,
    pool_after: PoolView,
    next_after: int,
) -> bool {
    if next < ids.len() {
        &&& next_after == next + 1
        &&& cache_after == cache
        &&& pool_after == if cache.holds(s.pool, ids[next]) {
            start_flush(s, cache.pages[ids[next]]).pool
        } else {
            s.pool
        }
    } else {
        &&& next_after == next
        &&& cache_after == (CacheView { dirty_pages: Set::empty(), ..cache })
        &&& pool_after == s.pool
    }
}

/// The cache once its file is cut to `offset` bytes, where it is longer.
pub open spec fn truncated(cache: CacheView, offset: usize) -> CacheView {
    CacheView {
        size: if offset < cache.size {
            offset
        } else {
            cache.size
        },
        ..cache
    }
}

impl PageCache {
    /// Cuts the file to `offset` bytes, or starts to make it longer where it is
    /// shorter, by whole pages of zeros. The file is not made any longer than those
    /// reach, and a page that it reaches into already stays as it is.
    pub fn truncate(&mut self, offset: usize) -> (r: GapOp)
        requires
            in_offset_range(offset as int),
        ensures
            final(self)@ == truncated(old(self)@, offset),
            r == whole_gap_before(old(self)@.size, offset),
            r.wf(),
    {
        let before = self.size;
        if offset < before {
            self.size = offset;
        }
        if offset <= before {
            return GapOp { offset, next: 0, end: 0, flushing: false, whole: true };
        }
        GapOp {
            offset,
            next: before / PAGE_SIZE_4K,
            end: offset / PAGE_SIZE_4K,
            flushing: false,
            whole: true,
        }
    }

    /// Returns the key of a page of the file, if the pool holds the page.
    fn valid_page(&self, page_id: usize, pool: &PagePool) -> (r: Option<PageKey>)
        ensures
            match r {
                Some(key) => self@.holds(pool@, page_id) && key == self@.pages[page_id],
                None => !self@.holds(pool@, page_id),
            },
    {
        broadcast use vstd::std_specs::btree::group_btree_axioms;

        proof {
            lemma_ordered_keys();
        }
        match self.pages.get(&page_id) {
            Some(key) => if pool.check_page_exist(*key) {
                Some(*key)
            } else {
                None
            },
            None => None,
        }
    }

    /// Starts to write a page of the file back, if the pool holds it and it
    /// has to be. How that ends is not reported.
    pub fn flush_page(&self, page_id: usize, pool: &mut PagePool, tables: &PageTables) -> (r: Result<
        isize,
        LinuxError,
    >)
        requires
            old(pool).wf(),
            old(pool)@.io is None,
        ensures
            final(pool).wf(),
            r == Ok::<isize, LinuxError>(0),
            final(pool)@ == if self@.holds(old(pool)@, page_id) {
                start_flush(
                    PoolState { pool: old(pool)@, tables: tables@ },
                    self@.pages[page_id],
                ).pool
            } else {
                old(pool)@
            },
    {
        match self.valid_page(page_id, pool) {
            Some(key) => {
                pool.flush(key, tables);
            },
            None => {},
        }
        Ok(0)
    }

    /// Removes a virtual page of a process from those that map a page of the
    /// file, if the pool holds the page.
    pub fn unmap_virt_page(
        &self,
        page_id: usize,
        page: VirtPage,
        pool: &mut PagePool,
        tables: &mut PageTables,
    )
        requires
            old(pool).wf(),
            page.1 % PAGE_SIZE_4K == 0,
        ensures
            final(pool).wf(),
            (PoolState { pool: final(pool)@, tables: final(tables)@ }) == if self@.holds(
                old(pool)@,
                page_id,
            ) {
                unmap_key(
                    PoolState { pool: old(pool)@, tables: old(tables)@ },
                    self@.pages[page_id],
                    page,
                )
            } else {
                PoolState { pool: old(pool)@, tables: old(tables)@ }
            },
    {
        match self.valid_page(page_id, pool) {
            Some(key) => {
                pool.unmap_virt_page(key, page, tables);
            },
            None => {},
        }
    }

    /// What a step of mapping a page of the file comes to.
    pub open spec fn map_stepped(
        cache: CacheView,
        before: PoolState,
        page_id: usize,
        stage: MapStage,
        cache_after: CacheView,
        after: PoolState,
        stage_after: MapStage,
        r: MapStep,
    ) -> bool {
        match stage {
            MapStage::Acquire => if cache.holds(before.pool, page_id) {
                let key = cache.pages[page_id];
                &&& cache_after == cache
                &&& after == start_flush(before, key)
                &&& if before.pool.pages[key].needs_flush(before.tables) {
                    &&& stage_after == MapStage::Flushing(key)
                    &&& r == MapStep::Wait(Progress::Flushing(key))
                } else {
                    &&& stage_after == MapStage::Mapping(key)
                    &&& r == MapStep::ForceMap(
                        (before.pool.pages[key].addr - before.pool.phys_virt_offset) as usize,
                    )
                }
            } else {
                &&& stage_after == MapStage::Acquire
                &&& exists|page: CachePage|
                    {
                        &&& !(page is Ready)
                        &&& r == MapStep::Wait(Progress::of_page(page))
                        &&& #[trigger] cache_acquired(
                            cache,
                            before,
                            page_id,
                            cache_after,
                            after,
                            page,
                        )
                    }
            },
            MapStage::Flushing(key) => {
                &&& cache_after == cache
                &&& after == before
                &&& if before.pool.outcome is Ok {
                    &&& stage_after == MapStage::Mapping(key)
                    &&& r == MapStep::ForceMap(
                        (before.pool.pages[key].addr - before.pool.phys_virt_offset) as usize,
                    )
                } else {
                    &&& stage_after == MapStage::Over
                    &&& r == MapStep::Failed
                }
            },
            MapStage::Mapping(key) => {
                &&& cache_after == cache
                &&& after == before
                &&& stage_after == stage
                &&& r == MapStep::ForceMap(
                    (before.pool.pages[key].addr - before.pool.phys_virt_offset) as usize,
                )
            },
            MapStage::Over => {
                &&& cache_after == cache
                &&& after == before
                &&& stage_after == stage
                &&& r == MapStep::Failed
            },
        }
    }

    /// Carries on to map a page of the file: gets the page, writes it back if
    /// it was written, and then asks for the page table entry.
    pub fn map_virt_page(
        &mut self,
        page_id: usize,
        stage: &mut MapStage,
        pool: &mut PagePool,
        tables: &mut PageTables,
    ) -> (r: MapStep)
        requires
            old(pool).wf(),
            old(pool)@.io is None,
            old(pool)@.max_size > 0,
            old(pool)@.next_key < isize::MAX,
            old(self)@.coherent(old(pool)@),
            in_file_range(page_id),
            *old(stage) matches MapStage::Flushing(key) ==> old(pool)@.pages.contains_key(key),
            *old(stage) matches MapStage::Mapping(key) ==> old(pool)@.pages.contains_key(key),
        ensures
            final(pool).wf(),
            final(self)@.coherent(final(pool)@),
            Self::map_stepped(
                old(self)@,
                PoolState { pool: old(pool)@, tables: old(tables)@ },
                page_id,
                *old(stage),
                final(self)@,
                PoolState { pool: final(pool)@, tables: final(tables)@ },
                *final(stage),
                r,
            ),
    {
        proof {
            pool.lemma_wf();
        }
        match *stage {
            MapStage::Acquire => {
                let page = self.acquire_page(page_id, pool, tables);
                match page {
                    CachePage::Ready(key) => {
                        pool.flush(key, tables);
                        if pool.is_busy() {
                            *stage = MapStage::Flushing(key);
                            MapStep::Wait(Progress::Flushing(key))
                        } else {
                            *stage = MapStage::Mapping(key);
                            MapStep::ForceMap(pool.get_phys_addr(key))
                        }
                    },
                    _ => MapStep::Wait(Progress::from_page(page)),
                }
            },
            MapStage::Flushing(key) => match pool.outcome() {
                Ok(_) => {
                    *stage = MapStage::Mapping(key);
                    MapStep::ForceMap(pool.get_phys_addr(key))
                },
                Err(_) => {
                    *stage = MapStage::Over;
                    MapStep::Failed
                },
            },
            MapStage::Mapping(key) => MapStep::ForceMap(pool.get_phys_addr(key)),
            MapStage::Over => MapStep::Failed,
        }
    }

    /// Ends a mapping once it is known whether the page table entry was made,
    /// and returns whether the page is mapped.
    pub fn finish_map(
        &self,
        stage: MapStage,
        page: VirtPage,
        made: bool,
        pool: &mut PagePool,
        tables: &mut PageTables,
    ) -> (r: bool)
        requires
            old(pool).wf(),
            stage matches MapStage::Mapping(key) && old(pool)@.pages.contains_key(key),
            page.1 % PAGE_SIZE_4K == 0,
        ensures
            final(pool).wf(),
            r == made,
            (PoolState { pool: final(pool)@, tables: final(tables)@ }) == if made {
                map_key(PoolState { pool: old(pool)@, tables: old(tables)@ }, stage->Mapping_0, page)
            } else {
                PoolState { pool: old(pool)@, tables: old(tables)@ }
            },
    {
        if made {
            if let MapStage::Mapping(key) = stage {
                pool.map_virt_page(key, page, tables);
            }
        }
        made
    }

    /// Starts to write back the pages that were written since the last time,
    /// in ascending order.
    pub fn begin_sync(&self) -> (r: SyncOp)
        ensures
            r.next == 0,
            r.ids@.to_set() == self@.dirty_pages,
            forall|i: int, j: int| 0 <= i < j < r.ids@.len() ==> r.ids@[i] < r.ids@[j],
    {
        proof {
            lemma_ordered_keys();
        }
        SyncOp { ids: set_elements(&self.dirty_pages), next: 0 }
    }

    /// Carries a `sync` on by one page. Returns whether all pages have been
    /// dealt with; what is left then is to bring the size of the file up to
    /// date (see [`MetadataOp`]).
    pub fn sync(&mut self, op: &mut SyncOp, pool: &mut PagePool, tables: &PageTables) -> (r: bool)
        requires
            old(pool).wf(),
            old(pool)@.io is None,
            old(op).next <= old(op).ids@.len(),
        ensures
            final(pool).wf(),
            final(op).ids == old(op).ids,
            final(op).next <= final(op).ids@.len(),
            r == (old(op).next == old(op).ids@.len()),
            sync_stepped(
                old(self)@,
                PoolState { pool: old(pool)@, tables: tables@ },
                old(op).ids@,
                old(op).next as int,
                final(self)@,
                final(pool)@,
                final(op).next as int,
            ),
    {
        if op.next < op.ids.len() {
            let _ = self.flush_page(op.ids[op.next], pool, tables);
            op.next = op.next + 1;
            false
        } else {
            self.dirty_pages.clear();
            true
        }
    }

    /// Starts to give up all pages of the file.
    pub fn begin_clear(&self) -> (r: ClearOp)
        ensures
            r.next == 0,
            exists|ids: Seq<usize>| #[trigger] lists_values(self@.pages, ids, r.keys@),
    {
        let op = ClearOp { keys: map_values(&self.pages), next: 0 };
        proof {
            let ids = choose|ids: Seq<usize>| #[trigger] lists_values(self.pages@, ids, op.keys@);
            assert(lists_values(self@.pages, ids, op.keys@));
        }
        op
    }

    /// Carries on to give up the pages of the file by one page, which leaves
    /// the pool, written back if it has to be. Returns whether all pages have
    /// been dealt with; what is left then is to bring the size of the file up
    /// to date, and to [forget](PageCache::forget_pages) the pages.
    pub fn clear(&self, op: &mut ClearOp, pool: &mut PagePool, tables: &mut PageTables) -> (r: bool)
        requires
            old(pool).wf(),
            old(pool)@.io is None,
            old(op).next <= old(op).keys@.len(),
        ensures
            final(pool).wf(),
            final(op).keys == old(op).keys,
            r == (old(op).next == old(op).keys@.len()),
            ({
                let before = PoolState { pool: old(pool)@, tables: old(tables)@ };
                let after = PoolState { pool: final(pool)@, tables: final(tables)@ };
                if old(op).next < old(op).keys@.len() {
                    &&& final(op).next == old(op).next + 1
                    &&& after == drop_key(before, old(op).keys@[old(op).next as int])
                } else {
                    &&& final(op).next == old(op).next
                    &&& after == before
                }
            }),
    {
        if op.next < op.keys.len() {
            pool.drop_page(op.keys[op.next], tables);
            op.next = op.next + 1;
            false
        } else {
            true
        }
    }

    /// Forgets which pages of the file were put into the pool.
    pub fn forget_pages(&mut self)
        ensures
            final(self)@ == (CacheView { pages: Map::empty(), ..old(self)@ }),
    {
        self.pages.clear();
    }

    /// Returns what is known of the file. Only the size is the cache's own; the
    /// rest is what the file system said.
    pub fn stat(&self, file_type: u8, perm: u16, blocks: u64) -> (r: Kstat)
        ensures
            r.mode == file_mode(file_type, perm),
            r.size == self@.size,
            r.blocks == blocks,
            r.blksize == 512,
    {
        Kstat {
            mode: ((file_type as u32) << 12) | perm as u32,
            size: self.size as u64,
            blocks,
            blksize: 512,
        }
    }
}

/// Bringing the size of the file on disk up to date with the cache.
#[derive(Debug, Clone, Copy, PartialEq, Eq)]
pub enum MetadataOp {
    /// The size on disk is being asked for.
    AskSize,
    /// The file on disk is being cut.
    Cut,
    /// It is over.
    Over(Result<isize, LinuxError>),
}

/// What the file system is to do next to bring the size up to date.
pub open spec fn metadata_request(cache: CacheView, op: MetadataOp) -> Option<IoRequestView> {
    match op {
        MetadataOp::AskSize => Some(IoRequestView::GetSize { file: cache.file }),
        MetadataOp::Cut => Some(
            IoRequestView::Truncate { file: cache.file, size: cache.size as int },
        ),
        MetadataOp::Over(_) => None,
    }
}

/// What a reply makes of bringing the size up to date. The file on disk is
/// cut to the size that the cache has; whether that can be done is not
/// reported.
pub open spec fn metadata_step(
    cache: CacheView,
    op: MetadataOp,
    reply: IoReplyView,
) -> MetadataOp {
    match (op, reply) {
        (MetadataOp::AskSize, IoReplyView::Size(n)) => if n == cache.size {
            MetadataOp::Over(Ok(0))
        } else {
            MetadataOp::Cut
        },
        (MetadataOp::AskSize, IoReplyView::Failed(kind)) => MetadataOp::Over(
            Err(error_of_ax_kind(kind)),
        ),
        (MetadataOp::Cut, _) => MetadataOp::Over(Ok(0)),
        _ => op,
    }
}

impl PageCache {
    /// Returns what the file system is to do next to bring the size of the
    /// file up to date.
    pub fn metadata_request(&self, op: MetadataOp) -> (r: Option<IoRequest>)
        ensures
            match r {
                Some(request) => metadata_request(self@, op) == Some(request@),
                None => metadata_request(self@, op) is None,
            },
    {
        match op {
            MetadataOp::AskSize => Some(IoRequest::GetSize { file: self.file }),
            MetadataOp::Cut => Some(
                IoRequest::Truncate { file: self.file, size: self.size as u64 },
            ),
            MetadataOp::Over(_) => None,
        }
    }

    /// Takes the answer of the file system. The file on disk is never shorter
    /// than the cache says: a page is written back whole.
    pub fn update_metadata(&self, op: MetadataOp, reply: IoReply) -> (r: MetadataOp)
        requires
            op is AskSize ==> reply@ is Size || reply@ is Failed,
            op is AskSize ==> (reply@ matches IoReplyView::Size(n) ==> self@.size <= n),
        ensures
            r == metadata_step(self@, op, reply@),
    {
        match (op, reply) {
            (MetadataOp::AskSize, IoReply::Size(n)) => if n == self.size as u64 {
                MetadataOp::Over(Ok(0))
            } else {
                MetadataOp::Cut
            },
            (MetadataOp::AskSize, IoReply::Failed(kind)) => MetadataOp::Over(
                Err(LinuxError::from_ax(kind)),
            ),
            (MetadataOp::Cut, _) => MetadataOp::Over(Ok(0)),
            _ => op,
        }
    }
}

/// How far a file has come that is written back, or whose cache is given up: first
/// its pages are dealt with, and then the size of the file on disk.
#[derive(Debug, Clone, Copy, PartialEq, Eq)]
pub enum FinishStage {
    /// Pages are left to be dealt with.
    Pages,
    /// The size is being brought up to date.
    Size(MetadataOp),
}

/// What is to be done to go on.
#[derive(Debug)]
pub enum FinishStep {
    /// Wait until the pool has nothing under way, and go on.
    Settle,
    /// Have the file system carry the request out, hand its answer to
    /// [`PageCache::take_size`], and go on.
    Ask(IoRequest),
    /// It is over, with this result.
    Over(Result<isize, LinuxError>),
}

/// What is to be done to bring the size up to date.
pub open spec fn size_step(cache: CacheView, op: MetadataOp, r: FinishStep) -> bool {
    match op {
        MetadataOp::Over(result) => r matches FinishStep::Over(x) && x == result,
        _ => r matches FinishStep::Ask(request) && metadata_request(cache, op) == Some(request@),
    }
}

/// The stage after the pages, where `done` says whether all have been dealt with.
pub open spec fn stage_after_pages(done: bool) -> FinishStage {
    if done {
        FinishStage::Size(MetadataOp::AskSize)
    } else {
        FinishStage::Pages
    }
}

impl PageCache {
    /// Returns what is to be done to bring the size up to date.
    fn size_request(&self, op: MetadataOp) -> (r: FinishStep)
        ensures
            size_step(self@, op, r),
    {
        match op {
            MetadataOp::Over(result) => FinishStep::Over(result),
            _ => match self.metadata_request(op) {
                Some(request) => FinishStep::Ask(request),
                None => FinishStep::Settle,
            },
        }
    }

    /// Carries on to write the file back: page after page, and then its size. An error
    /// of the last is what comes of it.
    pub fn finish_sync(
        &mut self,
        op: &mut SyncOp,
        stage: &mut FinishStage,
        pool: &mut PagePool,
        tables: &PageTables,
    ) -> (r: FinishStep)
        requires
            old(pool).wf(),
            old(pool)@.io is None,
            old(op).next <= old(op).ids@.len(),
        ensures
            final(pool).wf(),
            final(op).ids == old(op).ids,
            final(op).next <= final(op).ids@.len(),
            match *old(stage) {
                FinishStage::Pages => {
                    &&& r is Settle
                    &&& *final(stage) == stage_after_pages(old(op).next == old(op).ids@.len())
                    &&& sync_stepped(
                        old(self)@,
                        PoolState { pool: old(pool)@, tables: tables@ },
                        old(op).ids@,
                        old(op).next as int,
                        final(self)@,
                        final(pool)@,
                        final(op).next as int,
                    )
                },
                FinishStage::Size(size) => {
                    &&& size_step(old(self)@, size, r)
                    &&& final(self)@ == old(self)@
                    &&& final(pool)@ == old(pool)@
                    &&& final(op).next == old(op).next
                    &&& *final(stage) == *old(stage)
                },
            },
    {
        match *stage {
            FinishStage::Pages => {
                if self.sync(op, pool, tables) {
                    *stage = FinishStage::Size(MetadataOp::AskSize);
                }
                FinishStep::Settle
            },
            FinishStage::Size(size) => self.size_request(size),
        }
    }

    /// Carries on to give up the cache: page after page, then the size of the file,
    /// and at last the cache forgets its pages. Where the size cannot be had the pages
    /// are not forgotten.
    pub fn finish_clear(
        &mut self,
        op: &mut ClearOp,
        stage: &mut FinishStage,
        pool: &mut PagePool,
        tables: &mut PageTables,
    ) -> (r: FinishStep)
        requires
            old(pool).wf(),
            old(pool)@.io is None,
            old(op).next <= old(op).keys@.len(),
        ensures
            final(pool).wf(),
            final(op).keys == old(op).keys,
            final(op).next <= final(op).keys@.len(),
            ({
                let before = PoolState { pool: old(pool)@, tables: old(tables)@ };
                let after = PoolState { pool: final(pool)@, tables: final(tables)@ };
                let next = old(op).next as int;
                match *old(stage) {
                    FinishStage::Pages => {
                        &&& r is Settle
                        &&& *final(stage) == stage_after_pages(next == old(op).keys@.len())
                        &&& final(self)@ == old(self)@
                        &&& if next < old(op).keys@.len() {
                            final(op).next == next + 1 && after == drop_key(
                                before,
                                old(op).keys@[next],
                            )
                        } else {
                            final(op).next == next && after == before
                        }
                    },
                    FinishStage::Size(size) => {
                        &&& size_step(old(self)@, size, r)
                        &&& after == before
                        &&& final(op).next == next
                        &&& *final(stage) == *old(stage)
                        &&& final(self)@ == if size matches MetadataOp::Over(Ok(_)) {
                            CacheView { pages: Map::empty(), ..old(self)@ }
                        } else {
                            old(self)@
                        }
                    },
                }
            }),
    {
        match *stage {
            FinishStage::Pages => {
                if self.clear(op, pool, tables) {
                    *stage = FinishStage::Size(MetadataOp::AskSize);
                }
                FinishStep::Settle
            },
            FinishStage::Size(size) => {
                let step = self.size_request(size);
                if let MetadataOp::Over(Ok(_)) = size {
                    self.forget_pages();
                }
                step
            },
        }
    }

    /// Takes the answer of the file system on the size of the file.
    pub fn take_size(&self, stage: &mut FinishStage, reply: IoReply)
        requires
            *old(stage) matches FinishStage::Size(size) && (size is AskSize ==> {
                &&& reply@ is Size || reply@ is Failed
                &&& reply@ matches IoReplyView::Size(n) ==> self@.size <= n
            }),
        ensures
            *final(stage) == FinishStage::Size(
                metadata_step(self@, old(stage)->Size_0, reply@),
            ),
    {
        if let FinishStage::Size(size) = *stage {
            *stage = FinishStage::Size(self.update_metadata(size, reply));
        }
    }
}

/// A cut makes a file no longer, and as short as it says: then it has no byte at or behind
/// the offset, and every byte that it had before. Nothing else is known otherwise.
pub proof fn law_cut_file_is_as_short_as_asked(cache: CacheView, offset: usize)
    ensures
        truncated(cache, offset).size <= cache.size,
        truncated(cache, offset).size <= offset || truncated(cache, offset).size == cache.size,
        offset <= cache.size ==> truncated(cache, offset).size == offset,
        offset >= cache.size ==> truncated(cache, offset).size == cache.size,
        truncated(cache, offset).file == cache.file,
        truncated(cache, offset).pages == cache.pages,
        truncated(cache, offset).dirty_pages == cache.dirty_pages,
{
}

/// What a cache knows after a write: the file reaches to the last byte that was written, if
/// it did not reach further, and the pages that were written to are noted, besides those that
/// were, and no others.
pub proof fn law_write_is_noted(cache: CacheView, offset: int, from: int, to: int, id: usize)
    requires
        0 <= offset,
        0 <= from < to,
        offset + to <= usize::MAX,
    ensures
        ({
            let after = store_noted(cache, offset, from, to);
            &&& after.size >= cache.size && after.size >= offset + to
            &&& after.size == cache.size || after.size == offset + to
            &&& after.dirty_pages.contains(id) <==> cache.dirty_pages.contains(id) || exists|
                pos: int,
            |
                #![trigger in_page_of(id, pos)]
                offset + from <= pos < offset + to && in_page_of(id, pos)
            &&& after.file == cache.file
            &&& after.pages == cache.pages
        }),
        store_noted(cache, offset, to, to) == cache,
{
    let after = store_noted(cache, offset, from, to);
    if touches(id as int, offset, from, to) {
        let pos = if offset + from < id * 4096 {
            id * 4096
        } else {
            offset + from
        };
        assert(in_page_of(id, pos));
    }
    assert(store_noted(cache, offset, to, to).dirty_pages =~= cache.dirty_pages);
}

/// Whether an offset in a file lies in the page with this number.
pub open spec fn in_page_of(id: usize, pos: int) -> bool {
    id * 4096 <= pos < (id + 1) * 4096
}

/// Where the pool holds a page of a file its cache finds it, and finds no other in its
/// place.
pub proof fn law_cache_finds_its_pages(cache: CacheView, pool: PoolView, id: usize)
    requires
        cache.coherent(pool),
    ensures
        cache.holds(pool, id) <==> exists|k: PageKey| #[trigger]
            pool.pages.contains_key(k) && pool.pages[k].file == Some(cache.file)
                && pool.pages[k].page_id == id,
        cache.holds(pool, id) ==> {
            let page = pool.pages[cache.pages[id]];
            page.file == Some(cache.file) && page.page_id == id
        },
{
    if cache.holds(pool, id) {
        assert(pool.pages.contains_key(cache.pages[id]));
    }
}

/// What a wish for a page of a file comes to for its cache: it is ready exactly where the
/// pool holds it, under the key that the cache has. A page that is read in is found under its
/// new key from then on, and every other page under the key that it had.
pub proof fn law_wish_for_a_page_of_a_file(
    cache: CacheView,
    before: PoolState,
    page_id: usize,
    cache_after: CacheView,
    after: PoolState,
    r: CachePage,
    id: usize,
)
    requires
        cache.coherent(before.pool),
        before.pool.wf(),
        cache_acquired(cache, before, page_id, cache_after, after, r),
    ensures
        r is Ready <==> cache.holds(before.pool, page_id),
        r matches CachePage::Ready(k) ==> k == cache.pages[page_id] && after == before,
        r matches CachePage::Loading(k) ==> {
            &&& cache_after.pages.contains_key(page_id) && cache_after.pages[page_id] == k
            &&& after.pool.pages.contains_key(k)
            &&& after.pool.pages[k].file == Some(cache.file)
            &&& after.pool.pages[k].page_id == page_id
        },
        id != page_id || !(r is Loading) ==> cache_after.pages.contains_key(id)
            == cache.pages.contains_key(id) && cache_after.pages[id] == cache.pages[id],
        cache_after.size == cache.size,
        cache_after.file == cache.file,
        cache_after.dirty_pages == cache.dirty_pages,
{
    assert(!before.pool.pages.contains_key(-1isize));
}

/// A page that a process is to map is the page of the file, with nothing of it left to be
/// written back: the entry that is asked for leads to the frame of the page, by its physical
/// address. It fails only where the page could not be written back.
pub proof fn law_mapping_leads_to_the_page(
    cache: CacheView,
    before: PoolState,
    page_id: usize,
    stage: MapStage,
    cache_after: CacheView,
    after: PoolState,
    stage_after: MapStage,
    r: MapStep,
)
    requires
        before.pool.wf(),
        cache.coherent(before.pool),
        stage matches MapStage::Flushing(key) ==> before.pool.pages.contains_key(key)
            && before.pool.pages[key].file == Some(cache.file) && before.pool.pages[key].page_id
            == page_id,
        stage matches MapStage::Mapping(key) ==> before.pool.pages.contains_key(key)
            && before.pool.pages[key].file == Some(cache.file) && before.pool.pages[key].page_id
            == page_id,
        PageCache::map_stepped(
            cache,
            before,
            page_id,
            stage,
            cache_after,
            after,
            stage_after,
            r,
        ),
    ensures
        r matches MapStep::ForceMap(addr) ==> {
            &&& stage_after matches MapStage::Mapping(key)
            &&& after.pool.pages.contains_key(key)
            &&& after.pool.pages[key].file == Some(cache.file)
            &&& after.pool.pages[key].page_id == page_id
            &&& addr + after.pool.phys_virt_offset == after.pool.pages[key].addr
            &&& stage is Acquire ==> !after.pool.pages[key].is_dirty(after.tables)
            &&& stage is Flushing ==> before.pool.outcome is Ok
        },
        r is Failed <==> stage is Over || stage is Flushing && before.pool.outcome is Err,
        r is Failed ==> stage_after is Over,
        !(stage is Acquire) || cache.holds(before.pool, page_id) ==> cache_after == cache,
        !(stage is Acquire) ==> after == before,
        stage is Acquire && !cache.holds(before.pool, page_id) ==> r is Wait && stage_after is Acquire,
        stage is Acquire && cache.holds(before.pool, page_id) && before.pool.pages[
            cache.pages[page_id]].is_dirty(before.tables) ==> stage_after is Flushing
            && after.pool.io is Some,
        stage is Acquire && cache.holds(before.pool, page_id) && !before.pool.pages[
            cache.pages[page_id]].is_dirty(before.tables) ==> r is ForceMap,
{
}

/// The size of the file on disk is brought to that of the cache: the disk is asked for it,
/// and where it differs the file is cut to the size that the cache has. What came of asking is
/// what comes of it all.
pub proof fn law_size_on_disk_is_brought_up_to_date(cache: CacheView, n: int, kind: i32, reply: IoReplyView)
    ensures
        metadata_request(cache, MetadataOp::AskSize) == Some(
            IoRequestView::GetSize { file: cache.file },
        ),
        metadata_request(cache, MetadataOp::Cut) == Some(
            IoRequestView::Truncate { file: cache.file, size: cache.size as int },
        ),
        metadata_request(cache, MetadataOp::Over(Ok(0))) is None,
        n == cache.size ==> metadata_step(cache, MetadataOp::AskSize, IoReplyView::Size(n))
            == MetadataOp::Over(Ok(0)),
        n != cache.size ==> metadata_step(cache, MetadataOp::AskSize, IoReplyView::Size(n))
            == MetadataOp::Cut,
        metadata_step(cache, MetadataOp::AskSize, IoReplyView::Failed(kind)) == MetadataOp::Over(
            Err(error_of_ax_kind(kind)),
        ),
        metadata_step(cache, MetadataOp::Cut, reply) == MetadataOp::Over(Ok(0)),
{
}

/// A file is written back page by page, and its size comes last: it is asked for as soon as
/// every page has been dealt with, and not before. It is over when the size is.
pub proof fn law_pages_come_before_the_size(
    cache: CacheView,
    done: bool,
    op: MetadataOp,
    r: FinishStep,
)
    requires
        size_step(cache, op, r),
    ensures
        done <==> stage_after_pages(done) == FinishStage::Size(MetadataOp::AskSize),
        !done <==> stage_after_pages(done) is Pages,
        op is Over <==> r is Over,
        op matches MetadataOp::Over(result) ==> r->Over_0 == result,
        op is AskSize ==> (r matches FinishStep::Ask(request) && request@ == (
        IoRequestView::GetSize { file: cache.file })),
        op is Cut ==> (r matches FinishStep::Ask(request) && request@ == (IoRequestView::Truncate {
            file: cache.file,
            size: cache.size as int,
        })),
{
}

/// A sync deals with the noted pages one after the other, none twice and none left out, and
/// forgets what was noted when all have been. The file stays as long as it is.
pub proof fn law_sync_goes_page_by_page(
    cache: CacheView,
    s: PoolState,
    ids: Seq<usize>,
    next: int,
    cache_after: CacheView,
    pool_after: PoolView,
    next_after: int,
)
    requires
        0 <= next <= ids.len(),
        sync_stepped(cache, s, ids, next, cache_after, pool_after, next_after),
    ensures
        next < ids.len() ==> next_after == next + 1 && cache_after.dirty_pages == cache.dirty_pages,
        next < ids.len() && cache.holds(s.pool, ids[next]) && s.pool.pages[
            cache.pages[ids[next]]].needs_flush(s.tables) ==> pool_after.io == Some(
            IoTaskView::Flush { key: cache.pages[ids[next]], at: Transfer::Seeking },
        ),
        next < ids.len() && !(cache.holds(s.pool, ids[next]) && s.pool.pages[
            cache.pages[ids[next]]].needs_flush(s.tables)) ==> pool_after.io == s.pool.io,
        pool_after.pages == s.pool.pages,
        next == ids.len() ==> next_after == next && pool_after == s.pool && forall|id: usize|
            !#[trigger] cache_after.dirty_pages.contains(id),
        cache_after.size == cache.size,
        cache_after.file == cache.file,
        cache_after.pages == cache.pages,
{
}

/// How the filling of a gap goes on: it is done exactly where no page is left, every other
/// step either deals with the next page, and with no more than that, or waits for something
/// that is under way, and a page that got its zeros is written back before the next one.
pub proof fn law_gap_is_filled_page_by_page(
    cache: CacheView,
    before: PoolState,
    op: GapOp,
    cache_after: CacheView,
    after: PoolState,
    op_after: GapOp,
    r: Progress,
)
    requires
        op.wf(),
        gap_stepped(cache, before, op, cache_after, after, op_after, r),
    ensures
        r == Progress::Done <==> op.next >= op.end,
        op_after.offset == op.offset && op_after.end == op.end && op_after.whole == op.whole,
        op_after.next == op.next || op_after.next == op.next + 1,
        op_after.next == op.next + 1 <==> r == Progress::Stepped,
        op_after.flushing <==> r is Flushing,
        r is Flushing ==> after.pool.io is Some && !op.flushing,
        r == Progress::Stepped ==> after == before,
        r == Progress::Done ==> after == before && cache_after == cache,
        op.next < op.end && !op.flushing ==> cache_after.dirty_pages.contains(op.next),
        cache_after.size >= cache.size,
        cache_after.size == cache.size || cache_after.size == (op.next + 1) * 4096 && r
            == Progress::Stepped,
        cache_after.file == cache.file,
{
}

} // verus!
