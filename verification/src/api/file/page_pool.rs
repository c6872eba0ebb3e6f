//! The bounded pool of cached pages that all files share.
//!
//! The pool never touches a file itself. Where a page has to be read in or
//! written back, it notes what is under way, [`PagePool::request`] says what
//! the file system is to do next, and [`PagePool::complete`] takes the answer.
//! While something is under way nothing else may be asked of the pool.
//!
//! User code stores to mapped pages behind the pool's back. Where it may have run
//! since the last call, [`PagePool::observe`] comes first.
use std::collections::{BTreeMap, VecDeque};
use vstd::prelude::*;

use crate::addr::PAGE_SIZE_4K;
use crate::api::file::io::{FileId, IoReply, IoReplyView, IoRequest, IoRequestView};
use crate::api::file::page::{
    in_file_range, lemma_filter_keeps, lemma_mapped_by, other_than, Page, PageView,
};
use crate::api::file::page_tables::{PageTables, PageTablesView, VirtPage};
use crate::errno::{error_of_ax_kind, LinuxError};
use crate::frame::{splice, FramePool};
use crate::ordered::lemma_ordered_keys;

verus! {

/// Names a page of the pool. A key is never used twice.
pub type PageKey = isize;

/// How far the transfer of a page has come.
#[derive(Debug, Clone, Copy, PartialEq, Eq, Structural)]
pub enum Transfer {
    /// The file's cursor is being moved to the page.
    Seeking,
    /// So many bytes of the page have been moved.
    Moving(usize),
}

/// What is under way between the pool and the file system.
pub enum IoTask {
    /// A page of the pool is being read in.
    Load { key: PageKey, at: Transfer },
    /// A page of the pool is being written back.
    Flush { key: PageKey, at: Transfer },
    /// A page that has left the pool is being written back.
    Drop { page: Page, at: Transfer },
}

/// The model of [`IoTask`].
pub ghost enum IoTaskView {
    Load { key: PageKey, at: Transfer },
    Flush { key: PageKey, at: Transfer },
    Drop { page: PageView, at: Transfer },
}

impl View for IoTask {
    type V = IoTaskView;

    open spec fn view(&self) -> IoTaskView {
        match *self {
            IoTask::Load { key, at } => IoTaskView::Load { key, at },
            IoTask::Flush { key, at } => IoTaskView::Flush { key, at },
            IoTask::Drop { page, at } => IoTaskView::Drop { page: page@, at },
        }
    }
}

/// How many pages a pool holds unless said otherwise.
pub const DEFAULT_PAGE_POOL_SIZE: usize = 10;

/// The pool of cached pages.
pub struct PagePool {
    pages: BTreeMap<PageKey, Page>,
    max_size: usize,
    page_key_cnt: isize,
    clean_list: VecDeque<PageKey>,
    dirty_list: VecDeque<PageKey>,
    frames: FramePool,
    io: Option<IoTask>,
    outcome: Result<isize, LinuxError>,
}

/// The model of [`PagePool`].
#[verifier::ext_equal]
pub struct PoolView {
    /// The pages of the pool.
    pub pages: Map<PageKey, PageView>,
    /// How many pages the pool may hold.
    pub max_size: usize,
    /// The key of the next page.
    pub next_key: isize,
    /// Keys of pages that were clean when last looked at, oldest first.
    pub clean: Seq<PageKey>,
    /// Keys of pages that were found dirty, oldest first.
    pub dirty: Seq<PageKey>,
    /// Where the spare frames are.
    pub frames: Seq<usize>,
    /// Where the linear mapping of physical memory starts.
    pub phys_virt_offset: usize,
    /// What is under way.
    pub io: Option<IoTaskView>,
    /// How the last write-back of a page ended.
    pub outcome: Result<isize, LinuxError>,
}

/// The pool and the page tables together.
#[verifier::ext_equal]
pub struct PoolState {
    pub pool: PoolView,
    pub tables: PageTablesView,
}

impl View for PagePool {
    type V = PoolView;

    closed spec fn view(&self) -> PoolView {
        PoolView {
            pages: self.pages@.map_values(|p: Page| p@),
            max_size: self.max_size,
            next_key: self.page_key_cnt,
            clean: self.clean_list@,
            dirty: self.dirty_list@,
            frames: self.frames@.free,
            phys_virt_offset: self.frames@.phys_virt_offset,
            io: match self.io {
                Some(task) => Some(task@),
                None => None,
            },
            outcome: self.outcome,
        }
    }
}

/// Whether a transfer is at a place that it can be at.
pub open spec fn transfer_wf(at: Transfer) -> bool {
    at matches Transfer::Moving(n) ==> n <= PAGE_SIZE_4K
}

impl PoolView {
    /// What every operation keeps: pages are whole and belong to a file, keys
    /// were handed out, every page is in one of the two lists, and what is
    /// under way concerns a page that there is.
    pub open spec fn wf(self) -> bool {
        &&& self.pages.dom().finite()
        &&& 1 <= self.next_key
        &&& forall|k: PageKey| #[trigger]
            self.pages.contains_key(k) ==> {
                &&& 1 <= k < self.next_key
                &&& self.pages[k].wf(self.phys_virt_offset)
                &&& self.pages[k].file is Some
            }
        &&& forall|k: PageKey| #[trigger]
            self.pages.contains_key(k) ==> self.clean.contains(k) || self.dirty.contains(k)
        &&& match self.io {
            None => true,
            Some(IoTaskView::Load { key, at }) => self.pages.contains_key(key) && transfer_wf(at),
            Some(IoTaskView::Flush { key, at }) => self.pages.contains_key(key) && transfer_wf(at),
            Some(IoTaskView::Drop { page, at }) => {
                &&& page.wf(self.phys_virt_offset)
                &&& page.file is Some
                &&& transfer_wf(at)
            },
        }
    }

    /// The pool with one page changed.
    pub open spec fn with_page(self, key: PageKey, page: PageView) -> PoolView {
        PoolView { pages: self.pages.insert(key, page), ..self }
    }
}

/// The page to drop, and the two lists once it is chosen.
pub struct Victim {
    pub key: PageKey,
    pub clean: Seq<PageKey>,
    pub dirty: Seq<PageKey>,
}

/// Chooses the page to drop: the oldest of the clean list that is still there
/// and still clean, else the oldest of the dirty list that is still there. Keys
/// that are passed over leave their list; those of the clean list that are found
/// dirty join the dirty list.
pub open spec fn pick_victim(
    pages: Map<PageKey, PageView>,
    tables: PageTablesView,
    clean: Seq<PageKey>,
    dirty: Seq<PageKey>,
) -> Victim
    decreases clean.len(), dirty.len(),
{
    if clean.len() == 0 {
        if dirty.len() == 0 || pages.contains_key(dirty[0]) {
            Victim { key: dirty[0], clean, dirty: dirty.skip(1) }
        } else {
            pick_victim(pages, tables, clean, dirty.skip(1))
        }
    } else {
        let key = clean[0];
        let rest = clean.skip(1);
        if !pages.contains_key(key) {
            pick_victim(pages, tables, rest, dirty)
        } else if pages[key].is_dirty(tables) {
            pick_victim(pages, tables, rest, dirty.push(key))
        } else {
            Victim { key, clean: rest, dirty }
        }
    }
}

/// The choice falls on a page of the pool. It shortens the lists and loses no
/// other page.
pub proof fn lemma_pick_victim(
    pages: Map<PageKey, PageView>,
    tables: PageTablesView,
    clean: Seq<PageKey>,
    dirty: Seq<PageKey>,
)
    requires
        clean.len() + dirty.len() > 0,
        forall|k: PageKey| #[trigger]
            pages.contains_key(k) ==> clean.contains(k) || dirty.contains(k),
    ensures
        ({
            let v = pick_victim(pages, tables, clean, dirty);
            pages.len() > 0 && pages.dom().finite() ==> {
                &&& pages.contains_key(v.key)
                &&& v.clean.len() + v.dirty.len() < clean.len() + dirty.len()
                &&& forall|k: PageKey| #[trigger]
                    pages.contains_key(k) && k != v.key ==> v.clean.contains(k)
                        || v.dirty.contains(k)
            }
        }),
    decreases clean.len(), dirty.len(),
{
    if clean.len() == 0 {
        if pages.len() > 0 && pages.dom().finite() {
            assert forall|k: PageKey| #[trigger]
                pages.contains_key(k) && k != dirty[0] implies dirty.skip(1).contains(k) by {
                let j = choose|j: int| 0 <= j < dirty.len() && dirty[j] == k;
                assert(dirty.skip(1)[j - 1] == k);
            }
            if !pages.contains_key(dirty[0]) {
                let k = pages.dom().choose();
                assert(pages.contains_key(k));
                lemma_pick_victim(pages, tables, clean, dirty.skip(1));
            }
        }
    } else {
        let key = clean[0];
        let rest = clean.skip(1);
        assert forall|k: PageKey| clean.contains(k) && k != key implies #[trigger] rest.contains(
            k,
        ) by {
            let j = choose|j: int| 0 <= j < clean.len() && clean[j] == k;
            assert(rest[j - 1] == k);
        }
        if !pages.contains_key(key) {
            if rest.len() + dirty.len() > 0 {
                lemma_pick_victim(pages, tables, rest, dirty);
            } else if pages.len() > 0 && pages.dom().finite() {
                let k = pages.dom().choose();
                assert(pages.contains_key(k));
            }
        } else if pages[key].is_dirty(tables) {
            let more = dirty.push(key);
            assert(more[dirty.len() as int] == key);
            assert forall|k: PageKey| dirty.contains(k) implies #[trigger] more.contains(k) by {
                let j = choose|j: int| 0 <= j < dirty.len() && dirty[j] == k;
                assert(more[j] == k);
            }
            lemma_pick_victim(pages, tables, rest, more);
        }
    }
}

/// A page that has left the pool loses its translations and its frame.
pub open spec fn retire(s: PoolState, page: PageView) -> PoolState {
    PoolState {
        pool: PoolView { frames: s.pool.frames.push(page.addr), io: None, ..s.pool },
        tables: s.tables.unmapped(page.virt_pages),
    }
}

/// A page leaves the pool: it is written back first if it has to be.
pub open spec fn start_drop(s: PoolState, page: PageView) -> PoolState {
    if page.needs_flush(s.tables) {
        PoolState {
            pool: PoolView {
                io: Some(IoTaskView::Drop { page, at: Transfer::Seeking }),
                ..s.pool
            },
            ..s
        }
    } else {
        retire(s, page)
    }
}

/// The page with this key, if there is one, leaves the pool.
pub open spec fn drop_key(s: PoolState, key: PageKey) -> PoolState {
    if s.pool.pages.contains_key(key) {
        start_drop(
            PoolState { pool: PoolView { pages: s.pool.pages.remove(key), ..s.pool }, ..s },
            s.pool.pages[key],
        )
    } else {
        s
    }
}

/// The pool drops a page of its own choice.
pub open spec fn auto_drop(s: PoolState) -> PoolState {
    let v = pick_victim(s.pool.pages, s.tables, s.pool.clean, s.pool.dirty);
    drop_key(PoolState { pool: PoolView { clean: v.clean, dirty: v.dirty, ..s.pool }, ..s }, v.key)
}

/// The key of the page that the pool drops of its own choice.
pub open spec fn victim_key(s: PoolState) -> PageKey {
    pick_victim(s.pool.pages, s.tables, s.pool.clean, s.pool.dirty).key
}

/// Dropping a page of the pool's choice takes exactly that page from the pool,
/// keeps the pool well formed and shortens its lists.
pub proof fn lemma_auto_drop(s: PoolState)
    requires
        s.pool.wf(),
        s.pool.io is None,
        s.pool.pages.len() > 0,
    ensures
        auto_drop(s).pool.wf(),
        s.pool.pages.contains_key(victim_key(s)),
        auto_drop(s).pool.pages == s.pool.pages.remove(victim_key(s)),
        auto_drop(s).pool.max_size == s.pool.max_size,
        auto_drop(s).pool.next_key == s.pool.next_key,
        auto_drop(s).pool.phys_virt_offset == s.pool.phys_virt_offset,
        auto_drop(s).pool.clean.len() + auto_drop(s).pool.dirty.len() < s.pool.clean.len()
            + s.pool.dirty.len(),
{
    let k = s.pool.pages.dom().choose();
    assert(s.pool.pages.contains_key(k));
    lemma_pick_victim(s.pool.pages, s.tables, s.pool.clean, s.pool.dirty);
}

/// The pool drops pages until there is room for one more, or until a page has
/// to be written back first.
pub open spec fn make_room(s: PoolState) -> PoolState
    decreases s.pool.clean.len() + s.pool.dirty.len(),
    when s.pool.wf()
{
    if s.pool.io is None && s.pool.pages.len() > 0 && s.pool.pages.len() >= s.pool.max_size {
        proof {
            lemma_auto_drop(s);
        }
        make_room(auto_drop(s))
    } else {
        s
    }
}

/// Making room keeps the pool well formed.
pub proof fn lemma_make_room(s: PoolState)
    requires
        s.pool.wf(),
    ensures
        make_room(s).pool.wf(),
        make_room(s).pool.max_size == s.pool.max_size,
        make_room(s).pool.next_key == s.pool.next_key,
        make_room(s).pool.phys_virt_offset == s.pool.phys_virt_offset,
        s.pool.max_size > 0 && make_room(s).pool.io is None ==> make_room(s).pool.pages.len()
            < s.pool.max_size,
    decreases s.pool.clean.len() + s.pool.dirty.len(),
{
    if s.pool.io is None && s.pool.pages.len() > 0 && s.pool.pages.len() >= s.pool.max_size {
        lemma_auto_drop(s);
        lemma_make_room(auto_drop(s));
    }
}

/// What the file system is to do next for the pool.
pub open spec fn request_of(pool: PoolView) -> Option<IoRequestView> {
    match pool.io {
        None => None,
        Some(IoTaskView::Load { key, at }) => Some(load_request(pool.pages[key], at)),
        Some(IoTaskView::Flush { key, at }) => Some(flush_request(pool.pages[key], at)),
        Some(IoTaskView::Drop { page, at }) => Some(flush_request(page, at)),
    }
}

/// The next step of reading a page in: move the cursor to the page, then read
/// until nothing comes any more.
pub open spec fn load_request(page: PageView, at: Transfer) -> IoRequestView {
    let file = page.file->0;
    match at {
        Transfer::Seeking => IoRequestView::Seek { file, offset: page.page_id * PAGE_SIZE_4K },
        Transfer::Moving(n) => IoRequestView::Read { file, len: PAGE_SIZE_4K - n },
    }
}

/// The next step of writing a page back: move the cursor to the page, then
/// write what is left of it until nothing is taken any more.
pub open spec fn flush_request(page: PageView, at: Transfer) -> IoRequestView {
    let file = page.file->0;
    match at {
        Transfer::Seeking => IoRequestView::Seek { file, offset: page.page_id * PAGE_SIZE_4K },
        Transfer::Moving(n) => IoRequestView::WriteAt {
            file,
            offset: page.page_id * PAGE_SIZE_4K + n,
            data: page.bytes.skip(n as int),
        },
    }
}

/// Whether a reply is one that the request can be answered with. The file
/// system never moves more bytes than it was asked to, and the cursor can
/// always be moved to a page that is to be read.
pub open spec fn reply_fits(io: Option<IoTaskView>, reply: IoReplyView) -> bool {
    match io {
        None => false,
        Some(IoTaskView::Load { at: Transfer::Seeking, .. }) => reply is Done,
        Some(IoTaskView::Load { at: Transfer::Moving(n), .. }) => match reply {
            IoReplyView::Data(data) => n + data.len() <= PAGE_SIZE_4K,
            IoReplyView::Failed(_) => true,
            _ => false,
        },
        Some(IoTaskView::Flush { at, .. }) => flush_reply_fits(at, reply),
        Some(IoTaskView::Drop { at, .. }) => flush_reply_fits(at, reply),
    }
}

/// Whether a reply fits a step of a write-back.
pub open spec fn flush_reply_fits(at: Transfer, reply: IoReplyView) -> bool {
    match at {
        Transfer::Seeking => reply is Done || reply is Failed,
        Transfer::Moving(n) => match reply {
            IoReplyView::Wrote(m) => 0 <= m && n + m <= PAGE_SIZE_4K,
            IoReplyView::Failed(_) => true,
            _ => false,
        },
    }
}

/// The state once a page of the pool is marked clean.
pub open spec fn clean_key(s: PoolState, key: PageKey) -> PoolState {
    PoolState {
        pool: s.pool.with_page(key, s.pool.pages[key].cleaned(s.tables)),
        tables: s.tables.cleared(s.pool.pages[key].virt_pages),
    }
}

/// The state once nothing is under way any more.
pub open spec fn finish(s: PoolState, outcome: Result<isize, LinuxError>) -> PoolState {
    PoolState { pool: PoolView { io: None, outcome, ..s.pool }, ..s }
}

/// Whether `after` is the pool once it is known what was stored through mappings:
/// nothing but the bytes of mapped pages may differ.
pub open spec fn observed(before: PoolView, after: PoolView) -> bool {
    &&& after == (PoolView { pages: after.pages, io: after.io, ..before })
    &&& after.pages.dom() == before.pages.dom()
    &&& forall|k: PageKey| #[trigger]
        before.pages.contains_key(k) ==> before.pages[k].observed_as(after.pages[k])
    &&& match before.io {
        Some(IoTaskView::Drop { page, at }) => {
            &&& after.io matches Some(IoTaskView::Drop { page: seen, at: now })
            &&& page.observed_as(seen)
            &&& now == at
        },
        io => after.io == io,
    }
}

/// The state with something else under way.
pub open spec fn under_way(s: PoolState, task: IoTaskView) -> PoolState {
    PoolState { pool: PoolView { io: Some(task), ..s.pool }, ..s }
}

/// What a reply of the file system makes of the pool.
pub open spec fn complete(s: PoolState, reply: IoReplyView) -> PoolState {
    match s.pool.io {
        None => s,
        Some(IoTaskView::Load { key, at }) => complete_load(s, key, at, reply),
        Some(IoTaskView::Flush { key, at }) => complete_flush(s, key, at, reply),
        Some(IoTaskView::Drop { page, at }) => complete_drop(s, page, at, reply),
    }
}

/// A step of reading a page in. The page is in when nothing comes any more,
/// also where that is because of an error.
pub open spec fn complete_load(
    s: PoolState,
    key: PageKey,
    at: Transfer,
    reply: IoReplyView,
) -> PoolState {
    match (at, reply) {
        (Transfer::Seeking, _) => under_way(s, IoTaskView::Load { key, at: Transfer::Moving(0) }),
        (Transfer::Moving(n), IoReplyView::Data(data)) => if data.len() > 0 {
            let page = s.pool.pages[key];
            let filled = PageView { bytes: splice(page.bytes, n as int, data), ..page };
            under_way(
                PoolState { pool: s.pool.with_page(key, filled), ..s },
                IoTaskView::Load { key, at: Transfer::Moving((n + data.len()) as usize) },
            )
        } else {
            finish(clean_key(s, key), Ok(0))
        },
        (Transfer::Moving(_), _) => finish(clean_key(s, key), Ok(0)),
    }
}

/// A step of writing a page of the pool back. The page is clean once nothing
/// is taken any more; an error leaves it dirty.
pub open spec fn complete_flush(
    s: PoolState,
    key: PageKey,
    at: Transfer,
    reply: IoReplyView,
) -> PoolState {
    match (at, reply) {
        (_, IoReplyView::Failed(kind)) => finish(s, Err(error_of_ax_kind(kind))),
        (Transfer::Moving(n), IoReplyView::Wrote(m)) => if m > 0 {
            under_way(s, IoTaskView::Flush { key, at: Transfer::Moving((n + m) as usize) })
        } else {
            finish(clean_key(s, key), Ok(n as isize))
        },
        _ => under_way(s, IoTaskView::Flush { key, at: Transfer::Moving(0) }),
    }
}

/// A step of writing back a page that has left the pool. The page is retired
/// at the end, also where the write-back failed.
pub open spec fn complete_drop(
    s: PoolState,
    page: PageView,
    at: Transfer,
    reply: IoReplyView,
) -> PoolState {
    match (at, reply) {
        (_, IoReplyView::Failed(_)) => retire(s, page),
        (Transfer::Moving(n), IoReplyView::Wrote(m)) => if m > 0 {
            under_way(s, IoTaskView::Drop { page, at: Transfer::Moving((n + m) as usize) })
        } else {
            retire(
                PoolState { tables: s.tables.cleared(page.virt_pages), ..s },
                page.cleaned(s.tables),
            )
        },
        _ => under_way(s, IoTaskView::Drop { page, at: Transfer::Moving(0) }),
    }
}

/// A reply of the file system keeps the pool well formed.
pub proof fn lemma_complete(s: PoolState, reply: IoReplyView)
    requires
        s.pool.wf(),
        reply_fits(s.pool.io, reply),
    ensures
        complete(s, reply).pool.wf(),
{
    match s.pool.io {
        Some(IoTaskView::Load { key, .. }) => {
            lemma_cleaned_wf(s.pool.pages[key], s.tables, s.pool.phys_virt_offset);
        },
        Some(IoTaskView::Flush { key, .. }) => {
            lemma_cleaned_wf(s.pool.pages[key], s.tables, s.pool.phys_virt_offset);
        },
        _ => {},
    }
}

/// A page that is marked clean is as whole as before.
pub proof fn lemma_cleaned_wf(page: PageView, tables: PageTablesView, phys_virt_offset: usize)
    requires
        page.wf(phys_virt_offset),
    ensures
        page.cleaned(tables).wf(phys_virt_offset),
{
    lemma_filter_keeps(page.virt_pages, |p: VirtPage| !(tables.state(p) is NotMapped));
}

/// What became of the wish for a page of the pool.
#[derive(Debug, Clone, Copy, PartialEq, Eq, Structural)]
pub enum PoolPage {
    /// The page is in the pool.
    Hit,
    /// The page is not in the pool, and a page that has to make room for it is
    /// being written back.
    Evicting,
    /// The page has joined the pool under this key and is being read in.
    Loading(PageKey),
    /// The page is not in the pool and there is no frame for it.
    NoFrame,
}

/// The pool once an empty page on a frame at `addr` has joined it as page `page_id` of
/// a file, and is being read in.
pub open spec fn joined(pool: PoolView, addr: usize, file: FileId, page_id: usize) -> PoolView {
    let key = pool.next_key;
    PoolView {
        pages: pool.pages.insert(
            key,
            PageView { file: Some(file), page_id, ..PageView::fresh(addr) },
        ),
        next_key: (key + 1) as isize,
        clean: pool.clean.push(key),
        io: Some(IoTaskView::Load { key, at: Transfer::Seeking }),
        ..pool
    }
}

/// The state once a frame at `addr`, the last spare one if there is any, was taken for
/// a page of a file, and the page has joined the pool and is being read in.
pub open spec fn loading(s: PoolState, addr: usize, file: FileId, page_id: usize) -> PoolState {
    let taken = PoolView {
        frames: if s.pool.frames.len() > 0 {
            s.pool.frames.drop_last()
        } else {
            s.pool.frames
        },
        ..s.pool
    };
    PoolState { pool: joined(taken, addr, file, page_id), ..s }
}

impl PagePool {
    /// The pool is well formed, and so are its spare frames.
    pub closed spec fn wf(&self) -> bool {
        self@.wf() && self.frames.wf()
    }

    /// Creates a pool that may hold `max_size` pages. Its keys begin at one. The
    /// linear mapping of physical memory starts at `phys_virt_offset`.
    pub fn new(max_size: usize, phys_virt_offset: usize) -> (r: PagePool)
        ensures
            r.wf(),
            r@ == (PoolView {
                pages: Map::empty(),
                max_size,
                next_key: 1,
                clean: Seq::empty(),
                dirty: Seq::empty(),
                frames: Seq::empty(),
                phys_virt_offset,
                io: None,
                outcome: Ok(0),
            }),
    {
        let r = PagePool {
            pages: BTreeMap::new(),
            max_size,
            page_key_cnt: 1,
            clean_list: VecDeque::new(),
            dirty_list: VecDeque::new(),
            frames: FramePool::new(phys_virt_offset),
            io: None,
            outcome: Ok(0),
        };
        assert(r@.pages =~= Map::<PageKey, PageView>::empty());
        r
    }

    /// A well-formed pool has a well-formed model.
    pub proof fn lemma_wf(&self)
        requires
            self.wf(),
        ensures
            self@.wf(),
    {
    }

    /// Returns how many pages the pool holds.
    pub fn len(&self) -> (r: usize)
        requires
            self.wf(),
        ensures
            r == self@.pages.len(),
    {
        broadcast use vstd::std_specs::btree::group_btree_axioms;

        proof {
            lemma_ordered_keys();
            assert(self@.pages.dom() =~= self.pages@.dom());
        }
        self.pages.len()
    }

    /// Returns whether there is a key left for another page.
    pub fn has_key(&self) -> (r: bool)
        ensures
            r == (self@.next_key < isize::MAX),
    {
        self.page_key_cnt < isize::MAX
    }

    /// Returns whether something is under way.
    pub fn is_busy(&self) -> (r: bool)
        ensures
            r == (self@.io is Some),
    {
        self.io.is_some()
    }

    /// Returns how the last write-back of a page of the pool ended: the number
    /// of bytes written, or the error.
    pub fn outcome(&self) -> (r: Result<isize, LinuxError>)
        ensures
            r == self@.outcome,
    {
        self.outcome
    }

    /// Returns whether the page with this key is still in the pool.
    pub fn check_page_exist(&self, page_key: PageKey) -> (r: bool)
        ensures
            r == self@.pages.contains_key(page_key),
    {
        broadcast use vstd::std_specs::btree::group_btree_axioms;

        proof {
            lemma_ordered_keys();
        }
        self.pages.contains_key(&page_key)
    }

    /// Chooses the page to drop and takes its key from the lists.
    fn pick(&mut self, tables: &PageTables) -> (r: PageKey)
        requires
            old(self).wf(),
            old(self)@.pages.len() > 0,
        ensures
            ({
                let v = pick_victim(
                    old(self)@.pages,
                    tables@,
                    old(self)@.clean,
                    old(self)@.dirty,
                );
                &&& r == v.key
                &&& final(self)@ == (PoolView { clean: v.clean, dirty: v.dirty, ..old(self)@ })
            }),
            final(self).frames == old(self).frames,
    {
        broadcast use vstd::std_specs::btree::group_btree_axioms;

        proof {
            lemma_ordered_keys();
            let k = self@.pages.dom().choose();
            assert(self@.pages.contains_key(k));
            lemma_pick_victim(self@.pages, tables@, self@.clean, self@.dirty);
        }
        let ghost before = self@;
        let ghost v = pick_victim(before.pages, tables@, before.clean, before.dirty);
        while self.clean_list.len() > 0
            invariant
                before == old(self)@,
                v == pick_victim(before.pages, tables@, before.clean, before.dirty),
                self@ == (PoolView {
                    clean: self.clean_list@,
                    dirty: self.dirty_list@,
                    ..before
                }),
                self.frames == old(self).frames,
                pick_victim(self@.pages, tables@, self@.clean, self@.dirty) == v,
                self.clean_list@.len() + self.dirty_list@.len() > 0 || before.pages.len() == 0,
                before.pages.len() > 0,
                before.pages.dom().finite(),
                forall|k: PageKey| #[trigger]
                    before.pages.contains_key(k) ==> self.clean_list@.contains(k)
                        || self.dirty_list@.contains(k),
            decreases self.clean_list@.len(),
        {
            broadcast use vstd::std_specs::btree::group_btree_axioms;

            proof {
                lemma_ordered_keys();
            }
            let ghost clean = self.clean_list@;
            let ghost dirty = self.dirty_list@;
            let key = self.clean_list.pop_front().unwrap();
            proof {
                assert(self.clean_list@ =~= clean.skip(1));
                assert forall|k: PageKey| clean.contains(k) && k
                    != key implies #[trigger] self.clean_list@.contains(k) by {
                    let j = choose|j: int| 0 <= j < clean.len() && clean[j] == k;
                    assert(self.clean_list@[j - 1] == k);
                }
            }
            match self.pages.get(&key) {
                None => {},
                Some(page) => {
                    assert(before.pages[key] == page@);
                    if page.is_dirty(tables) {
                        self.dirty_list.push_back(key);
                        proof {
                            assert(self.dirty_list@ =~= dirty.push(key));
                            assert(self.dirty_list@[dirty.len() as int] == key);
                            assert forall|k: PageKey|
                                dirty.contains(k) implies #[trigger] self.dirty_list@.contains(
                                k,
                            ) by {
                                let j = choose|j: int| 0 <= j < dirty.len() && dirty[j] == k;
                                assert(self.dirty_list@[j] == k);
                            }
                        }
                    } else {
                        return key;
                    }
                },
            }
            proof {
                let k = before.pages.dom().choose();
                assert(before.pages.contains_key(k));
            }
        }
        loop
            invariant
                before == old(self)@,
                v == pick_victim(before.pages, tables@, before.clean, before.dirty),
                self@ == (PoolView {
                    clean: self.clean_list@,
                    dirty: self.dirty_list@,
                    ..before
                }),
                self.frames == old(self).frames,
                self.clean_list@.len() == 0,
                pick_victim(self@.pages, tables@, self@.clean, self@.dirty) == v,
                self.dirty_list@.len() > 0,
                before.pages.len() > 0,
                before.pages.dom().finite(),
                forall|k: PageKey| #[trigger]
                    before.pages.contains_key(k) ==> self.dirty_list@.contains(k),
            decreases self.dirty_list@.len(),
        {
            let ghost dirty = self.dirty_list@;
            let key = self.dirty_list.pop_front().unwrap();
            proof {
                assert(self.dirty_list@ =~= dirty.skip(1));
                assert forall|k: PageKey| dirty.contains(k) && k
                    != key implies #[trigger] self.dirty_list@.contains(k) by {
                    let j = choose|j: int| 0 <= j < dirty.len() && dirty[j] == k;
                    assert(self.dirty_list@[j - 1] == k);
                }
            }
            if self.check_page_exist(key) {
                return key;
            }
            proof {
                let k = before.pages.dom().choose();
                assert(before.pages.contains_key(k));
            }
        }
    }

    /// Lets a page leave the pool: notes that it has to be written back, or
    /// retires it at once.
    fn let_go(&mut self, page: Page, tables: &mut PageTables)
        requires
            old(self).wf(),
            old(self)@.io is None,
            page@.wf(old(self)@.phys_virt_offset),
            page@.file is Some,
        ensures
            final(self).wf(),
            (PoolState { pool: final(self)@, tables: final(tables)@ }) == start_drop(
                PoolState { pool: old(self)@, tables: old(tables)@ },
                page@,
            ),
    {
        if page.needs_flush(tables) {
            self.io = Some(IoTask::Drop { page, at: Transfer::Seeking });
        } else {
            page.retire(tables, &mut self.frames);
        }
    }

    /// Drops the page with this key. A page that was written is written back
    /// first.
    pub fn drop_page(&mut self, page_key: PageKey, tables: &mut PageTables)
        requires
            old(self).wf(),
            old(self)@.io is None,
        ensures
            final(self).wf(),
            (PoolState { pool: final(self)@, tables: final(tables)@ }) == drop_key(
                PoolState { pool: old(self)@, tables: old(tables)@ },
                page_key,
            ),
    {
        broadcast use vstd::std_specs::btree::group_btree_axioms;

        proof {
            lemma_ordered_keys();
        }
        match self.pages.remove(&page_key) {
            None => {
                assert(self@.pages =~= old(self)@.pages);
            },
            Some(page) => {
                assert(self@.pages =~= old(self)@.pages.remove(page_key));
                assert(old(self)@.pages[page_key] == page@);
                self.let_go(page, tables);
            },
        }
    }

    /// Drops a page of the pool's choice: one that is clean if there is one,
    /// else the one that was found dirty first. Exactly one page leaves.
    pub fn auto_drop_page(&mut self, tables: &mut PageTables)
        requires
            old(self).wf(),
            old(self)@.io is None,
            old(self)@.pages.len() > 0,
        ensures
            final(self).wf(),
            (PoolState { pool: final(self)@, tables: final(tables)@ }) == auto_drop(
                PoolState { pool: old(self)@, tables: old(tables)@ },
            ),
            ({
                let key = victim_key(PoolState { pool: old(self)@, tables: old(tables)@ });
                &&& old(self)@.pages.contains_key(key)
                &&& final(self)@.pages == old(self)@.pages.remove(key)
            }),
    {
        broadcast use vstd::std_specs::btree::group_btree_axioms;

        proof {
            lemma_ordered_keys();
            lemma_auto_drop(PoolState { pool: self@, tables: tables@ });
        }
        let key = self.pick(tables);
        proof {
            lemma_pick_victim(old(self)@.pages, tables@, old(self)@.clean, old(self)@.dirty);
        }
        let page = self.take_out(key);
        self.let_go(page, tables);
    }

    /// Drops pages until there is room for one more, or until one has to be
    /// written back first.
    fn make_room(&mut self, tables: &mut PageTables)
        requires
            old(self).wf(),
        ensures
            final(self).wf(),
            (PoolState { pool: final(self)@, tables: final(tables)@ }) == make_room(
                PoolState { pool: old(self)@, tables: old(tables)@ },
            ),
    {
        let ghost goal = make_room(PoolState { pool: self@, tables: tables@ });
        while !self.is_busy() && self.len() > 0 && self.len() >= self.max_size
            invariant
                self.wf(),
                make_room(PoolState { pool: self@, tables: tables@ }) == goal,
            decreases self@.clean.len() + self@.dirty.len(),
        {
            proof {
                lemma_auto_drop(PoolState { pool: self@, tables: tables@ });
            }
            self.auto_drop_page(tables);
        }
    }

    /// Wishes for the page with this key. If the pool has it, nothing changes.
    /// If not, the pool makes room and starts to read page `page_id` of `file`
    /// in under a new key, which is never the one that was wished for; where a
    /// page has to be written back to make room, the wish has to be repeated once
    /// that is done. What becomes of the page that is made, or of none, [`PagePool::join`]
    /// says.
    pub fn acquire_page(
        &mut self,
        page_key: PageKey,
        file: FileId,
        page_id: usize,
        tables: &mut PageTables,
    ) -> (r: PoolPage)
        requires
            old(self).wf(),
            old(self)@.io is None,
            old(self)@.max_size > 0,
            old(self)@.next_key < isize::MAX,
            page_key < old(self)@.next_key,
            in_file_range(page_id),
        ensures
            final(self).wf(),
            r matches PoolPage::Loading(key) ==> key != page_key,
            ({
                let before = PoolState { pool: old(self)@, tables: old(tables)@ };
                let after = PoolState { pool: final(self)@, tables: final(tables)@ };
                acquired(before, page_key, file, page_id, after, r)
            }),
    {
        broadcast use vstd::std_specs::btree::group_btree_axioms;

        if self.check_page_exist(page_key) {
            return PoolPage::Hit;
        }
        proof {
            lemma_make_room(PoolState { pool: self@, tables: tables@ });
        }
        self.make_room(tables);
        if self.is_busy() {
            return PoolPage::Evicting;
        }
        let ghost room = PoolState { pool: self@, tables: tables@ };
        let page = Page::new(&mut self.frames);
        proof {
            assert(self@.pages =~= room.pool.pages);
        }
        self.join(page, file, page_id)
    }

    /// Takes an empty page in as page `page_id` of `file`, under a new key, and starts
    /// to read it in. Where no page came the pool is as it was.
    pub fn join(&mut self, page: Option<Page>, file: FileId, page_id: usize) -> (r: PoolPage)
        requires
            old(self).wf(),
            old(self)@.io is None,
            old(self)@.next_key < isize::MAX,
            in_file_range(page_id),
            page matches Some(p) ==> {
                &&& p@ == PageView::fresh(p@.addr)
                &&& p@.wf(old(self)@.phys_virt_offset)
            },
        ensures
            final(self).wf(),
            match page {
                None => r == PoolPage::NoFrame && final(self)@ == old(self)@,
                Some(p) => {
                    &&& r == PoolPage::Loading(old(self)@.next_key)
                    &&& final(self)@ == joined(old(self)@, p@.addr, file, page_id)
                },
            },
    {
        broadcast use vstd::std_specs::btree::group_btree_axioms;

        match page {
            None => PoolPage::NoFrame,
            Some(page) => {
                let mut page = page;
                let key = self.page_key_cnt;
                page.load(file, page_id);
                proof {
                    lemma_ordered_keys();
                }
                self.page_key_cnt = key + 1;
                self.pages.insert(key, page);
                self.clean_list.push_back(key);
                self.io = Some(IoTask::Load { key, at: Transfer::Seeking });
                proof {
                    assert(self@.pages =~= old(self)@.pages.insert(key, page@));
                    assert(self@.clean =~= old(self)@.clean.push(key));
                    assert(self@ =~= joined(old(self)@, page@.addr, file, page_id));
                    lemma_joined(old(self)@, page@.addr, file, page_id);
                }
                PoolPage::Loading(key)
            },
        }
    }
}

impl PagePool {
    /// Takes a page out of the pool, to be put back under the same key.
    fn take_out(&mut self, key: PageKey) -> (r: Page)
        requires
            old(self)@.pages.contains_key(key),
        ensures
            r@ == old(self)@.pages[key],
            final(self)@ == (PoolView { pages: old(self)@.pages.remove(key), ..old(self)@ }),
            final(self).frames == old(self).frames,
    {
        broadcast use vstd::std_specs::btree::group_btree_axioms;

        proof {
            lemma_ordered_keys();
        }
        let page = self.pages.remove(&key).unwrap();
        assert(self@.pages =~= old(self)@.pages.remove(key));
        page
    }

    /// Puts a page back under its key.
    fn put_back(&mut self, key: PageKey, page: Page)
        ensures
            final(self)@ == old(self)@.with_page(key, page@),
            final(self).frames == old(self).frames,
    {
        broadcast use vstd::std_specs::btree::group_btree_axioms;

        proof {
            lemma_ordered_keys();
        }
        self.pages.insert(key, page);
        assert(self@.pages =~= old(self)@.pages.insert(key, page@));
    }

    /// Takes in what was stored through the mapping of a page, if the pool has it.
    fn observe_page(&mut self, key: PageKey)
        requires
            old(self).wf(),
        ensures
            final(self).wf(),
            observed(old(self)@, final(self)@),
    {
        if self.check_page_exist(key) {
            let mut page = self.take_out(key);
            page.observe();
            self.put_back(key, page);
            proof {
                assert(self@.pages =~= old(self)@.pages.insert(key, page@));
                assert(self@.pages.dom() =~= old(self)@.pages.dom());
            }
        }
    }

    /// Takes in what user code has stored through the mappings of the pages.
    pub fn observe(&mut self)
        requires
            old(self).wf(),
        ensures
            final(self).wf(),
            observed(old(self)@, final(self)@),
    {
        let mut i: usize = 0;
        while i < self.clean_list.len()
            invariant
                self.wf(),
                observed(old(self)@, self@),
                i <= self.clean_list@.len(),
            decreases self.clean_list@.len() - i,
        {
            let key = self.clean_list[i];
            self.observe_page(key);
            i = i + 1;
        }
        let mut j: usize = 0;
        while j < self.dirty_list.len()
            invariant
                self.wf(),
                observed(old(self)@, self@),
                j <= self.dirty_list@.len(),
            decreases self.dirty_list@.len() - j,
        {
            let key = self.dirty_list[j];
            self.observe_page(key);
            j = j + 1;
        }
        let mut task: Option<IoTask> = None;
        std::mem::swap(&mut task, &mut self.io);
        self.io = match task {
            Some(IoTask::Drop { mut page, at }) => {
                page.observe();
                Some(IoTask::Drop { page, at })
            },
            task => task,
        };
    }

    /// Returns what the file system is to do next, if something is under way.
    pub fn request(&self) -> (r: Option<IoRequest>)
        requires
            self.wf(),
        ensures
            match r {
                Some(request) => request_of(self@) == Some(request@),
                None => request_of(self@) is None,
            },
    {
        broadcast use vstd::std_specs::btree::group_btree_axioms;

        proof {
            lemma_ordered_keys();
        }
        match &self.io {
            None => None,
            Some(IoTask::Load { key, at }) => {
                let page = self.pages.get(key).unwrap();
                assert(self@.pages[*key] == page@);
                let file = page.file().unwrap();
                Some(
                    match *at {
                        Transfer::Seeking => IoRequest::Seek { file, offset: page_start(page) },
                        Transfer::Moving(n) => IoRequest::Read { file, len: PAGE_SIZE_4K - n },
                    },
                )
            },
            Some(IoTask::Flush { key, at }) => {
                let page = self.pages.get(key).unwrap();
                assert(self@.pages[*key] == page@);
                Some(next_write(page, *at, Ghost(self@.phys_virt_offset)))
            },
            Some(IoTask::Drop { page, at }) => Some(
                next_write(page, *at, Ghost(self@.phys_virt_offset)),
            ),
        }
    }

    /// Returns whether a reply is one that what is under way can be answered with.
    pub fn accepts(&self, reply: &IoReply) -> (r: bool)
        ensures
            r == reply_fits(self@.io, reply@),
    {
        match &self.io {
            None => false,
            Some(IoTask::Load { at, .. }) => match at {
                Transfer::Seeking => matches!(reply, IoReply::Done),
                Transfer::Moving(n) => match reply {
                    IoReply::Data(data) => *n <= PAGE_SIZE_4K && data.len() <= PAGE_SIZE_4K - *n,
                    IoReply::Failed(_) => true,
                    _ => false,
                },
            },
            Some(IoTask::Flush { at, .. }) => accepts_flush(*at, reply),
            Some(IoTask::Drop { at, .. }) => accepts_flush(*at, reply),
        }
    }

    /// Takes the answer of the file system to the last request.
    pub fn complete(&mut self, reply: IoReply, tables: &mut PageTables)
        requires
            old(self).wf(),
            reply_fits(old(self)@.io, reply@),
        ensures
            final(self).wf(),
            (PoolState { pool: final(self)@, tables: final(tables)@ }) == complete(
                PoolState { pool: old(self)@, tables: old(tables)@ },
                reply@,
            ),
    {
        let ghost before = PoolState { pool: self@, tables: tables@ };
        proof {
            lemma_complete(before, reply@);
        }
        let mut task: Option<IoTask> = None;
        std::mem::swap(&mut task, &mut self.io);
        match task {
            None => {},
            Some(IoTask::Load { key, at: Transfer::Seeking }) => {
                self.io = Some(IoTask::Load { key, at: Transfer::Moving(0) });
            },
            Some(IoTask::Load { key, at: Transfer::Moving(n) }) => {
                let mut page = self.take_out(key);
                match reply {
                    IoReply::Data(data) if data.len() > 0 => {
                        page.fill(n, data.as_slice());
                        self.io = Some(IoTask::Load { key, at: Transfer::Moving(n + data.len()) });
                    },
                    _ => {
                        page.set_clean(tables);
                        self.outcome = Ok(0);
                    },
                }
                self.put_back(key, page);
                assert(self@.pages =~= complete(before, reply@).pool.pages);
            },
            Some(IoTask::Flush { key, at }) => match (at, reply) {
                (_, IoReply::Failed(kind)) => {
                    self.outcome = Err(LinuxError::from_ax(kind));
                },
                (Transfer::Moving(n), IoReply::Wrote(m)) => {
                    if m > 0 {
                        self.io = Some(IoTask::Flush { key, at: Transfer::Moving(n + m) });
                    } else {
                        let mut page = self.take_out(key);
                        page.set_clean(tables);
                        self.outcome = Ok(n as isize);
                        self.put_back(key, page);
                        assert(self@.pages =~= complete(before, reply@).pool.pages);
                    }
                },
                _ => {
                    self.io = Some(IoTask::Flush { key, at: Transfer::Moving(0) });
                },
            },
            Some(IoTask::Drop { mut page, at }) => match (at, reply) {
                (_, IoReply::Failed(_)) => {
                    page.retire(tables, &mut self.frames);
                },
                (Transfer::Moving(n), IoReply::Wrote(m)) => {
                    if m > 0 {
                        self.io = Some(IoTask::Drop { page, at: Transfer::Moving(n + m) });
                    } else {
                        proof {
                            lemma_cleaned_wf(page@, tables@, self@.phys_virt_offset);
                        }
                        page.set_clean(tables);
                        page.retire(tables, &mut self.frames);
                    }
                },
                _ => {
                    self.io = Some(IoTask::Drop { page, at: Transfer::Moving(0) });
                },
            },
        }
    }

    /// Copies bytes of a page of the pool into `buf`.
    pub fn read(&self, key: PageKey, start: usize, buf: &mut [u8]) -> (r: Result<isize, LinuxError>)
        requires
            self.wf(),
            self@.pages.contains_key(key),
            start + old(buf)@.len() <= usize::MAX,
        ensures
            final(buf)@.len() == old(buf)@.len(),
            start + old(buf)@.len() > PAGE_SIZE_4K ==> r == Err::<isize, LinuxError>(
                LinuxError::EINVAL,
            ) && final(buf)@ == old(buf)@,
            start + old(buf)@.len() <= PAGE_SIZE_4K ==> {
                &&& r matches Ok(n) && n == old(buf)@.len()
                &&& final(buf)@ == self@.pages[key].bytes.subrange(
                    start as int,
                    start + old(buf)@.len(),
                )
            },
    {
        broadcast use vstd::std_specs::btree::group_btree_axioms;

        proof {
            lemma_ordered_keys();
        }
        let page = self.pages.get(&key).unwrap();
        assert(self@.pages[key] == page@);
        page.read(start, buf)
    }

    /// Copies `buf` into a page of the pool and marks the page dirty.
    pub fn write(&mut self, key: PageKey, start: usize, buf: &[u8]) -> (r: Result<
        isize,
        LinuxError,
    >)
        requires
            old(self).wf(),
            old(self)@.pages.contains_key(key),
            start + buf@.len() <= usize::MAX,
            buf@.len() > 0,
        ensures
            final(self).wf(),
            start + buf@.len() > PAGE_SIZE_4K ==> r == Err::<isize, LinuxError>(LinuxError::EINVAL)
                && final(self)@ == old(self)@,
            start + buf@.len() <= PAGE_SIZE_4K ==> {
                &&& r matches Ok(n) && n == buf@.len()
                &&& final(self)@ == old(self)@.with_page(
                    key,
                    old(self)@.pages[key].written(start as int, buf@),
                )
            },
    {
        let mut page = self.take_out(key);
        let r = page.write(start, buf);
        self.put_back(key, page);
        assert(self@.pages =~= old(self)@.pages.insert(key, page@));
        proof {
            if start + buf@.len() > PAGE_SIZE_4K {
                assert(self@.pages =~= old(self)@.pages);
            }
        }
        r
    }

    /// Starts to write a page of the pool back, if it has to be.
    pub fn flush(&mut self, key: PageKey, tables: &PageTables)
        requires
            old(self).wf(),
            old(self)@.io is None,
            old(self)@.pages.contains_key(key),
        ensures
            final(self).wf(),
            final(self)@ == start_flush(PoolState { pool: old(self)@, tables: tables@ }, key).pool,
    {
        broadcast use vstd::std_specs::btree::group_btree_axioms;

        proof {
            lemma_ordered_keys();
        }
        let page = self.pages.get(&key).unwrap();
        assert(self@.pages[key] == page@);
        if page.needs_flush(tables) {
            self.io = Some(IoTask::Flush { key, at: Transfer::Seeking });
        } else {
            self.outcome = Ok(0);
        }
    }

    /// Returns the physical address of a page of the pool.
    pub fn get_phys_addr(&self, key: PageKey) -> (r: usize)
        requires
            self.wf(),
            self@.pages.contains_key(key),
        ensures
            r == self@.pages[key].addr - self@.phys_virt_offset,
    {
        broadcast use vstd::std_specs::btree::group_btree_axioms;

        proof {
            lemma_ordered_keys();
        }
        let page = self.pages.get(&key).unwrap();
        assert(self@.pages[key] == page@);
        page.get_phys_addr(self.frames.phys_virt_offset())
    }

    /// Records that a virtual page maps a page of the pool, and marks the page
    /// clean: to make the translation has set the dirty bit.
    pub fn map_virt_page(&mut self, key: PageKey, page: VirtPage, tables: &mut PageTables)
        requires
            old(self).wf(),
            old(self)@.pages.contains_key(key),
        ensures
            final(self).wf(),
            ({
                let mapped = old(self)@.pages[key].mapped_by(page);
                &&& final(self)@ == old(self)@.with_page(key, mapped.cleaned(old(tables)@))
                &&& final(tables)@ == old(tables)@.cleared(mapped.virt_pages)
            }),
    {
        let mut inner = self.take_out(key);
        proof {
            lemma_mapped_by(inner@, page);
        }
        inner.map_virt_page(page);
        proof {
            lemma_cleaned_wf(inner@, tables@, self@.phys_virt_offset);
        }
        inner.set_clean(tables);
        self.put_back(key, inner);
        assert(self@.pages =~= old(self)@.pages.insert(key, inner@));
    }

    /// Removes a virtual page from those that map a page of the pool.
    pub fn unmap_virt_page(&mut self, key: PageKey, page: VirtPage, tables: &mut PageTables)
        requires
            old(self).wf(),
            old(self)@.pages.contains_key(key),
        ensures
            final(self).wf(),
            final(self)@ == old(self)@.with_page(key, old(self)@.pages[key].released_by(page)),
            final(tables)@ == if old(self)@.pages[key].virt_pages.contains(page) {
                old(tables)@.dropped(page)
            } else {
                old(tables)@
            },
    {
        let mut inner = self.take_out(key);
        proof {
            lemma_filter_keeps(inner@.virt_pages, other_than(page));
        }
        inner.unmap_virt_page(page, tables);
        self.put_back(key, inner);
        assert(self@.pages =~= old(self)@.pages.insert(key, inner@));
    }

    /// Lets the pool hold `size` pages from now on, and drops pages until there
    /// is room for one more. Where a page has to be written back first the
    /// call has to be repeated once that is done. In the end spare frames are
    /// returned until no more than `size` frames are held in all.
    pub fn resize(&mut self, size: usize, tables: &mut PageTables)
        requires
            old(self).wf(),
            old(self)@.io is None,
            size > 0,
        ensures
            final(self).wf(),
            ({
                let before = PoolState {
                    pool: PoolView { max_size: size, ..old(self)@ },
                    tables: old(tables)@,
                };
                let room = make_room(before);
                &&& final(tables)@ == room.tables
                &&& final(self)@ == if room.pool.io is Some {
                    room.pool
                } else {
                    PoolView {
                        frames: room.pool.frames.take(
                            if size - room.pool.pages.len() < room.pool.frames.len() {
                                size - room.pool.pages.len()
                            } else {
                                room.pool.frames.len() as int
                            },
                        ),
                        ..room.pool
                    }
                }
            }),
    {
        self.max_size = size;
        proof {
            lemma_make_room(PoolState { pool: self@, tables: tables@ });
        }
        self.make_room(tables);
        if !self.is_busy() {
            let held = self.len();
            self.frames.trim(size - held);
        }
    }
}

/// The state once the write-back of a page of the pool has begun, if the page
/// has to be written back at all.
pub open spec fn start_flush(s: PoolState, key: PageKey) -> PoolState {
    if s.pool.pages[key].needs_flush(s.tables) {
        under_way(s, IoTaskView::Flush { key, at: Transfer::Seeking })
    } else {
        PoolState { pool: PoolView { outcome: Ok(0), ..s.pool }, ..s }
    }
}

/// Returns whether a reply fits a step of a write-back.
fn accepts_flush(at: Transfer, reply: &IoReply) -> (r: bool)
    ensures
        r == flush_reply_fits(at, reply@),
{
    match at {
        Transfer::Seeking => matches!(reply, IoReply::Done | IoReply::Failed(_)),
        Transfer::Moving(n) => match reply {
            IoReply::Wrote(m) => n <= PAGE_SIZE_4K && *m <= PAGE_SIZE_4K - n,
            IoReply::Failed(_) => true,
            _ => false,
        },
    }
}

/// Returns the offset of a page in its file.
fn page_start(page: &Page) -> (r: u64)
    requires
        in_file_range(page@.page_id),
    ensures
        r == page@.page_id * PAGE_SIZE_4K,
{
    (page.page_id() * PAGE_SIZE_4K) as u64
}

/// Returns the next step of writing a page back.
fn next_write(page: &Page, at: Transfer, phys_virt_offset: Ghost<usize>) -> (r: IoRequest)
    requires
        page@.wf(phys_virt_offset@),
        page@.file is Some,
        transfer_wf(at),
    ensures
        r@ == flush_request(page@, at),
{
    let file = page.file().unwrap();
    match at {
        Transfer::Seeking => IoRequest::Seek { file, offset: page_start(page) },
        Transfer::Moving(n) => IoRequest::WriteAt {
            file,
            offset: page_start(page) + n as u64,
            data: page.tail(n),
        },
    }
}

/// How the wish for a page may come out.
pub open spec fn acquired(
    before: PoolState,
    page_key: PageKey,
    file: FileId,
    page_id: usize,
    after: PoolState,
    r: PoolPage,
) -> bool {
    if before.pool.pages.contains_key(page_key) {
        r == PoolPage::Hit && after == before
    } else {
        let room = make_room(before);
        if room.pool.io is Some {
            r == PoolPage::Evicting && after == room
        } else {
            match r {
                PoolPage::NoFrame => room.pool.frames.len() == 0 && after == room,
                PoolPage::Loading(key) => {
                    let addr = after.pool.pages[key].addr;
                    &&& key == room.pool.next_key
                    &&& room.pool.frames.len() > 0 ==> addr == room.pool.frames.last()
                    &&& addr % PAGE_SIZE_4K == 0 && addr >= room.pool.phys_virt_offset
                    &&& after == loading(room, addr, file, page_id)
                },
                _ => false,
            }
        }
    }
}

/// A page that joins the pool keeps it well formed.
pub proof fn lemma_loading(s: PoolState, addr: usize, file: FileId, page_id: usize)
    requires
        s.pool.wf(),
        s.pool.io is None,
        s.pool.next_key < isize::MAX,
        addr % PAGE_SIZE_4K == 0,
        addr >= s.pool.phys_virt_offset,
        in_file_range(page_id),
    ensures
        loading(s, addr, file, page_id).pool.wf(),
{
    let taken = PoolView {
        frames: if s.pool.frames.len() > 0 {
            s.pool.frames.drop_last()
        } else {
            s.pool.frames
        },
        ..s.pool
    };
    lemma_joined(taken, addr, file, page_id);
}

/// A page that joins the pool keeps it well formed.
proof fn lemma_joined(pool: PoolView, addr: usize, file: FileId, page_id: usize)
    requires
        pool.wf(),
        pool.io is None,
        pool.next_key < isize::MAX,
        addr % PAGE_SIZE_4K == 0,
        addr >= pool.phys_virt_offset,
        in_file_range(page_id),
    ensures
        joined(pool, addr, file, page_id).wf(),
{
    let after = joined(pool, addr, file, page_id);
    let key = pool.next_key;
    assert(after.clean[pool.clean.len() as int] == key);
    assert forall|k: PageKey| #[trigger] after.pages.contains_key(k) implies after.clean.contains(k)
        || after.dirty.contains(k) by {
        if k != key {
            assert(pool.pages.contains_key(k));
            if pool.clean.contains(k) {
                let j = choose|j: int| 0 <= j < pool.clean.len() && pool.clean[j] == k;
                assert(after.clean[j] == k);
            }
        }
    }
}

/// The page that has to go is the oldest one that is clean: no page before it in the list of
/// clean pages is still there and clean.
pub proof fn law_oldest_clean_page_goes(
    pages: Map<PageKey, PageView>,
    tables: PageTablesView,
    clean: Seq<PageKey>,
    dirty: Seq<PageKey>,
    i: int,
)
    requires
        0 <= i < clean.len(),
        pages.contains_key(clean[i]),
        !pages[clean[i]].is_dirty(tables),
        forall|j: int|
            0 <= j < i ==> !pages.contains_key(#[trigger] clean[j]) || pages[clean[j]].is_dirty(
                tables,
            ),
    ensures
        pick_victim(pages, tables, clean, dirty).key == clean[i],
        pick_victim(pages, tables, clean, dirty).clean == clean.skip(i + 1),
    decreases clean.len(),
{
    let rest = clean.skip(1);
    if i > 0 {
        assert(rest[i - 1] == clean[i]);
        assert forall|j: int| 0 <= j < i - 1 implies !pages.contains_key(#[trigger] rest[j])
            || pages[rest[j]].is_dirty(tables) by {
            assert(rest[j] == clean[j + 1]);
        }
        assert(!pages.contains_key(clean[0]) || pages[clean[0]].is_dirty(tables));
        if pages.contains_key(clean[0]) {
            law_oldest_clean_page_goes(pages, tables, rest, dirty.push(clean[0]), i - 1);
        } else {
            law_oldest_clean_page_goes(pages, tables, rest, dirty, i - 1);
        }
        assert(rest.skip(i) =~= clean.skip(i + 1));
    }
}

/// Where no page is clean, the page that has to go is the oldest one that was found dirty:
/// no page before it in the list of dirty pages is still there.
pub proof fn law_oldest_dirty_page_goes(
    pages: Map<PageKey, PageView>,
    tables: PageTablesView,
    clean: Seq<PageKey>,
    dirty: Seq<PageKey>,
    i: int,
)
    requires
        forall|j: int|
            0 <= j < clean.len() ==> !pages.contains_key(#[trigger] clean[j])
                || pages[clean[j]].is_dirty(tables),
        0 <= i < dirty.len(),
        pages.contains_key(dirty[i]),
        forall|j: int| 0 <= j < i ==> !pages.contains_key(#[trigger] dirty[j]),
    ensures
        pick_victim(pages, tables, clean, dirty).key == dirty[i],
    decreases clean.len(), dirty.len(),
{
    if clean.len() > 0 {
        let rest = clean.skip(1);
        assert forall|j: int| 0 <= j < rest.len() implies !pages.contains_key(#[trigger] rest[j])
            || pages[rest[j]].is_dirty(tables) by {
            assert(rest[j] == clean[j + 1]);
        }
        assert(!pages.contains_key(clean[0]) || pages[clean[0]].is_dirty(tables));
        if pages.contains_key(clean[0]) {
            let more = dirty.push(clean[0]);
            assert(more[i] == dirty[i]);
            assert forall|j: int| 0 <= j < i implies !pages.contains_key(#[trigger] more[j]) by {
                assert(more[j] == dirty[j]);
            }
            law_oldest_dirty_page_goes(pages, tables, rest, more, i);
        } else {
            law_oldest_dirty_page_goes(pages, tables, rest, dirty, i);
        }
    } else if i > 0 {
        let less = dirty.skip(1);
        assert(less[i - 1] == dirty[i]);
        assert(!pages.contains_key(dirty[0]));
        assert forall|j: int| 0 <= j < i - 1 implies !pages.contains_key(#[trigger] less[j]) by {
            assert(less[j] == dirty[j + 1]);
        }
        law_oldest_dirty_page_goes(pages, tables, clean, less, i - 1);
    }
}

/// What becomes of a page that leaves the pool. One that was written is first written
/// back, from its beginning. Any other is gone at once: its translations are removed and
/// its frame is spare. No other page changes.
pub proof fn law_page_leaves_the_pool(s: PoolState, key: PageKey, k: PageKey)
    requires
        s.pool.pages.contains_key(key),
    ensures
        ({
            let page = s.pool.pages[key];
            let after = drop_key(s, key);
            &&& !after.pool.pages.contains_key(key)
            &&& k != key ==> after.pool.pages.contains_key(k) == s.pool.pages.contains_key(k)
                && after.pool.pages[k] == s.pool.pages[k]
            &&& page.file is Some && page.is_dirty(s.tables) ==> {
                &&& after.pool.io == Some(IoTaskView::Drop { page, at: Transfer::Seeking })
                &&& after.tables == s.tables
                &&& after.pool.frames == s.pool.frames
            }
            &&& !(page.file is Some && page.is_dirty(s.tables)) ==> {
                &&& after.pool.io is None
                &&& after.pool.frames == s.pool.frames.push(page.addr)
                &&& after.tables == s.tables.unmapped(page.virt_pages)
            }
        }),
        !s.pool.pages.contains_key(k) ==> drop_key(s, k) == s,
{
}

/// No page has to go that need not: where there is room none does, and where one too many
/// is there, one does, unless it has to be written back first.
pub proof fn law_no_more_pages_go_than_have_to(s: PoolState)
    requires
        s.pool.wf(),
        s.pool.io is None,
    ensures
        s.pool.pages.len() < s.pool.max_size ==> make_room(s) == s,
        s.pool.pages.len() == s.pool.max_size && s.pool.max_size > 0 ==> make_room(s) == auto_drop(
            s,
        ),
{
    if s.pool.pages.len() == s.pool.max_size && s.pool.max_size > 0 {
        lemma_auto_drop(s);
        reveal_with_fuel(make_room, 3);
    }
}

/// What a file system that fails makes of a transfer. A page that is read in is there with
/// what came until then. A page that is written back stays as it is and the error is kept.
/// A page that leaves the pool is gone, and its frame is spare.
pub proof fn law_failed_transfer_ends(s: PoolState, kind: i32)
    requires
        s.pool.wf(),
        s.pool.io is Some,
        reply_fits(s.pool.io, IoReplyView::Failed(kind)),
    ensures
        ({
            let after = complete(s, IoReplyView::Failed(kind));
            &&& after.pool.io is None
            &&& s.pool.io matches Some(IoTaskView::Load { key, .. }) ==> {
                &&& after.pool.pages.contains_key(key)
                &&& after.pool.pages[key].bytes == s.pool.pages[key].bytes
                &&& !after.pool.pages[key].dirty
            }
            &&& s.pool.io matches Some(IoTaskView::Flush { key, .. }) ==> {
                &&& after.pool.pages == s.pool.pages
                &&& after.tables == s.tables
                &&& after.pool.outcome == Err::<isize, LinuxError>(error_of_ax_kind(kind))
            }
            &&& s.pool.io matches Some(IoTaskView::Drop { page, .. }) ==> {
                &&& after.pool.pages == s.pool.pages
                &&& after.pool.frames == s.pool.frames.push(page.addr)
                &&& after.tables == s.tables.unmapped(page.virt_pages)
            }
        }),
{
}

/// What the file system is asked for: to go to where the page is in its file, which is as
/// many pages in as its number says; then, to read what is still missing of the page, or to
/// write what is left of it where it belongs.
pub proof fn law_what_the_file_system_is_asked(pool: PoolView)
    requires
        pool.wf(),
    ensures
        pool.io is None <==> request_of(pool) is None,
        pool.io matches Some(IoTaskView::Load { key, at }) ==> {
            let page = pool.pages[key];
            &&& at is Seeking ==> request_of(pool) == Some(
                IoRequestView::Seek { file: page.file->0, offset: page.page_id * 4096 },
            )
            &&& at matches Transfer::Moving(n) ==> request_of(pool) == Some(
                IoRequestView::Read { file: page.file->0, len: 4096 - n },
            )
        },
        pool.io matches Some(IoTaskView::Flush { key, at }) ==> {
            let page = pool.pages[key];
            &&& at is Seeking ==> request_of(pool) == Some(
                IoRequestView::Seek { file: page.file->0, offset: page.page_id * 4096 },
            )
            &&& at matches Transfer::Moving(n) ==> request_of(pool) == Some(
                IoRequestView::WriteAt {
                    file: page.file->0,
                    offset: page.page_id * 4096 + n,
                    data: page.bytes.subrange(n as int, 4096),
                },
            )
        },
        pool.io matches Some(IoTaskView::Drop { page, at }) ==> {
            &&& at is Seeking ==> request_of(pool) == Some(
                IoRequestView::Seek { file: page.file->0, offset: page.page_id * 4096 },
            )
            &&& at matches Transfer::Moving(n) ==> request_of(pool) == Some(
                IoRequestView::WriteAt {
                    file: page.file->0,
                    offset: page.page_id * 4096 + n,
                    data: page.bytes.subrange(n as int, 4096),
                },
            )
        },
{
    if let Some(IoTaskView::Flush { key, at: Transfer::Moving(n) }) = pool.io {
        assert(pool.pages[key].bytes.skip(n as int) =~= pool.pages[key].bytes.subrange(
            n as int,
            4096,
        ));
    }
    if let Some(IoTaskView::Drop { page, at: Transfer::Moving(n) }) = pool.io {
        assert(page.bytes.skip(n as int) =~= page.bytes.subrange(n as int, 4096));
    }
}

} // verus!
