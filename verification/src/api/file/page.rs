//! One cached page of a file.
//!
//! A page becomes dirty in two ways. A `write` system call goes through
//! [`Page::write`], which sets the page's own mark. A store through a mapping
//! does not come by here: it sets the dirty bit of a page table entry, so the
//! entries of every virtual page that maps the page have to be asked too. What
//! such a store has put into the page is taken in by [`Page::observe`].
use axalloc::GlobalPage;
use vstd::prelude::*;

use crate::addr::PAGE_SIZE_4K;
use crate::api::file::io::FileId;
use crate::api::file::page_tables::{
    ascending, page_before, PageTables, PageTablesView, PteOp, PteState, VirtPage,
};
use crate::errno::LinuxError;
use crate::frame::{
    frame_addr, frame_bytes, frame_lend, frame_vaddr, frame_write, prepared, splice, FramePool,
};

verus! {

/// A cached page: a frame, the place in a file that it caches, and the virtual
/// pages that map it.
pub struct Page {
    inner: GlobalPage,
    file: Option<FileId>,
    page_id: usize,
    dirty: bool,
    virt_pages: Vec<VirtPage>,
}

/// The model of [`Page`].
#[verifier::ext_equal]
pub struct PageView {
    /// What the frame holds.
    pub bytes: Seq<u8>,
    /// Where the frame is.
    pub addr: usize,
    /// The file that the page belongs to, once it has been loaded.
    pub file: Option<FileId>,
    /// The number of the page in its file.
    pub page_id: usize,
    /// Whether the page has been written since it was last clean.
    pub dirty: bool,
    /// The virtual pages that map the page, in ascending order.
    pub virt_pages: Seq<VirtPage>,
}

impl View for Page {
    type V = PageView;

    closed spec fn view(&self) -> PageView {
        PageView {
            bytes: frame_bytes(self.inner),
            addr: frame_addr(self.inner),
            file: self.file,
            page_id: self.page_id,
            dirty: self.dirty,
            virt_pages: self.virt_pages@,
        }
    }
}

impl PageView {
    /// A page is one frame of the linear mapping, the virtual pages stand in
    /// ascending order, and the end of the page in its file is a file offset.
    pub open spec fn wf(self, phys_virt_offset: usize) -> bool {
        &&& self.bytes.len() == PAGE_SIZE_4K
        &&& self.addr % PAGE_SIZE_4K == 0
        &&& self.addr >= phys_virt_offset
        &&& ascending(self.virt_pages)
        &&& in_file_range(self.page_id)
    }

    /// Whether the page has been written, by either way.
    pub open spec fn is_dirty(self, tables: PageTablesView) -> bool {
        self.dirty || tables.any_dirty(self.virt_pages)
    }

    /// Whether the page has to be written back.
    pub open spec fn needs_flush(self, tables: PageTablesView) -> bool {
        self.file is Some && self.is_dirty(tables)
    }

    /// The page once it is marked clean. Virtual pages that are mapped no
    /// more are forgotten.
    pub open spec fn cleaned(self, tables: PageTablesView) -> PageView {
        PageView {
            dirty: false,
            virt_pages: self.virt_pages.filter(
                |p: VirtPage| !(tables.state(p) is NotMapped),
            ),
            ..self
        }
    }

    /// The page once `data` is written to it from `start` on.
    pub open spec fn written(self, start: int, data: Seq<u8>) -> PageView {
        PageView { bytes: splice(self.bytes, start, data), dirty: true, ..self }
    }

    /// The page once it is mapped by one more virtual page.
    pub open spec fn mapped_by(self, page: VirtPage) -> PageView {
        PageView {
            virt_pages: if self.virt_pages.contains(page) {
                self.virt_pages
            } else {
                self.virt_pages.insert(place_of(self.virt_pages, page), page)
            },
            ..self
        }
    }

    /// The page once a virtual page maps it no more.
    pub open spec fn released_by(self, page: VirtPage) -> PageView {
        PageView { virt_pages: self.virt_pages.filter(other_than(page)), ..self }
    }

    /// Whether `after` is the page once it is known what was stored through its
    /// mappings: without a mapping nothing was.
    pub open spec fn observed_as(self, after: PageView) -> bool {
        &&& after == (PageView { bytes: after.bytes, ..self })
        &&& after.bytes.len() == self.bytes.len()
        &&& self.virt_pages.len() == 0 ==> after.bytes == self.bytes
    }

    /// A page that has not been loaded yet, on a frame at `addr`.
    pub open spec fn fresh(addr: usize) -> PageView {
        PageView {
            bytes: Seq::new(PAGE_SIZE_4K as nat, |i: int| 0u8),
            addr,
            file: None,
            page_id: 0,
            dirty: false,
            virt_pages: Seq::empty(),
        }
    }
}

/// How many of `pages`, from the first on, come before a virtual page.
pub open spec fn place_of(pages: Seq<VirtPage>, page: VirtPage) -> int
    decreases pages.len(),
{
    if pages.len() == 0 || !page_before(pages[0], page) {
        0
    } else {
        1 + place_of(pages.skip(1), page)
    }
}

/// The place of a virtual page is where it can be put in.
pub proof fn lemma_place(pages: Seq<VirtPage>, page: VirtPage)
    ensures
        0 <= place_of(pages, page) <= pages.len(),
        forall|i: int| 0 <= i < place_of(pages, page) ==> page_before(#[trigger] pages[i], page),
        place_of(pages, page) < pages.len() ==> !page_before(
            pages[place_of(pages, page)],
            page,
        ),
    decreases pages.len(),
{
    if pages.len() > 0 && page_before(pages[0], page) {
        let rest = pages.skip(1);
        lemma_place(rest, page);
        assert forall|i: int| 0 <= i < place_of(pages, page) implies page_before(
            #[trigger] pages[i],
            page,
        ) by {
            if i > 0 {
                assert(rest[i - 1] == pages[i]);
            }
        }
    }
}

/// A virtual page that is put in at its place keeps the order.
pub proof fn lemma_mapped_by(page: PageView, virt: VirtPage)
    requires
        ascending(page.virt_pages),
    ensures
        ascending(page.mapped_by(virt).virt_pages),
        forall|p: VirtPage| #[trigger]
            page.mapped_by(virt).virt_pages.contains(p) <==> page.virt_pages.contains(p) || p
                == virt,
{
    let pages = page.virt_pages;
    let after = page.mapped_by(virt).virt_pages;
    lemma_place(pages, virt);
    if !pages.contains(virt) {
        let k = place_of(pages, virt);
        assert(after[k] == virt);
        assert forall|p: VirtPage| #[trigger] after.contains(p) <==> pages.contains(p) || p
            == virt by {
            if pages.contains(p) {
                let i = choose|i: int| 0 <= i < pages.len() && pages[i] == p;
                if i < k {
                    assert(after[i] == p);
                } else {
                    assert(after[i + 1] == p);
                }
            }
            if after.contains(p) && p != virt {
                let i = choose|i: int| 0 <= i < after.len() && after[i] == p;
                if i < k {
                    assert(pages[i] == p);
                } else {
                    assert(pages[i - 1] == p);
                }
            }
        }
        assert forall|i: int, j: int| 0 <= i < j < after.len() implies page_before(
            #[trigger] after[i],
            #[trigger] after[j],
        ) by {
            let a = if i < k {
                i
            } else {
                i - 1
            };
            let b = if j < k {
                j
            } else {
                j - 1
            };
            if i == k {
                assert(pages[k] != virt) by {
                    assert(pages.contains(pages[k]));
                }
                assert(page_before(virt, pages[k]));
                if b > k {
                    assert(page_before(pages[k], pages[b]));
                }
            } else if j == k {
                assert(page_before(pages[a], virt));
            } else {
                assert(page_before(pages[a], pages[b]));
            }
        }
    }
}

/// The page tables are changed in ascending order: the entries of the virtual pages
/// that map a page are cleared and removed from the lowest to the highest.
pub proof fn law_tables_change_upwards(page: PageView, tables: PageTablesView, i: int, j: int)
    requires
        ascending(page.virt_pages),
        0 <= i < j,
    ensures
        ({
            let cleared = tables.cleared(page.virt_pages).ops.skip(tables.ops.len() as int);
            j < cleared.len() ==> exists|p: VirtPage, q: VirtPage| #[trigger]
                page_before(p, q) && cleared[i] == PteOp::ClearDirty(p) && cleared[j]
                    == PteOp::ClearDirty(q)
        }),
        ({
            let removed = tables.unmapped(page.virt_pages).ops.skip(tables.ops.len() as int);
            j < removed.len() ==> exists|p: VirtPage, q: VirtPage| #[trigger]
                page_before(p, q) && removed[i] == PteOp::Unmap(p) && removed[j]
                    == PteOp::Unmap(q)
        }),
{
    let keep = |p: VirtPage| tables.mapped(p);
    let mapped = page.virt_pages.filter(keep);
    lemma_filter_keeps(page.virt_pages, keep);
    if j < mapped.len() {
        assert(page_before(mapped[i], mapped[j]));
    }
}

/// A page is dirty if it was written by a call, or if one of the virtual pages that map it
/// is dirty, and only then; it has to be written back if besides it belongs to a file.
pub proof fn law_when_a_page_is_dirty(page: PageView, tables: PageTablesView)
    ensures
        page.is_dirty(tables) <==> page.dirty || exists|p: VirtPage| #[trigger]
            page.virt_pages.contains(p) && tables.state(p) is Dirty,
        page.needs_flush(tables) <==> page.is_dirty(tables) && page.file is Some,
{
    if tables.any_dirty(page.virt_pages) {
        let i = choose|i: int|
            0 <= i < page.virt_pages.len() && tables.state(
                #[trigger] page.virt_pages[i],
            ) is Dirty;
        assert(page.virt_pages.contains(page.virt_pages[i]));
    }
    if exists|p: VirtPage| #[trigger]
        page.virt_pages.contains(p) && tables.state(p) is Dirty {
        let p = choose|p: VirtPage| #[trigger]
            page.virt_pages.contains(p) && tables.state(p) is Dirty;
        let i = choose|i: int| 0 <= i < page.virt_pages.len() && page.virt_pages[i] == p;
        assert(tables.state(page.virt_pages[i]) is Dirty);
    }
}

/// What is written to a page is there, nothing else in it changes, and the page is dirty.
pub proof fn law_page_holds_what_is_written(page: PageView, start: int, data: Seq<u8>, i: int)
    requires
        0 <= start,
        start + data.len() <= page.bytes.len(),
        0 <= i < page.bytes.len(),
    ensures
        ({
            let after = page.written(start, data);
            &&& after.bytes.len() == page.bytes.len()
            &&& after.bytes.subrange(start, start + data.len()) == data
            &&& i < start || i >= start + data.len() ==> after.bytes[i] == page.bytes[i]
            &&& after.dirty
            &&& after.addr == page.addr
            &&& after.file == page.file
            &&& after.page_id == page.page_id
            &&& after.virt_pages == page.virt_pages
        }),
{
    assert(page.written(start, data).bytes.subrange(start, start + data.len()) =~= data);
}

/// Which virtual pages map a page: the one more that maps it and those that did; all that
/// did but the one that maps it no more; and, once the page is clean, those whose mapping
/// is still there. What the page holds and where it belongs stays.
pub proof fn law_who_maps_a_page(
    page: PageView,
    tables: PageTablesView,
    virt: VirtPage,
    p: VirtPage,
)
    requires
        ascending(page.virt_pages),
    ensures
        page.mapped_by(virt).virt_pages.contains(p) <==> page.virt_pages.contains(p) || p == virt,
        page.released_by(virt).virt_pages.contains(p) <==> page.virt_pages.contains(p) && p != virt,
        page.cleaned(tables).virt_pages.contains(p) <==> page.virt_pages.contains(p)
            && !(tables.state(p) is NotMapped),
        !page.cleaned(tables).dirty,
        page.mapped_by(virt).dirty == page.dirty,
        page.released_by(virt).dirty == page.dirty,
        page.mapped_by(virt).bytes == page.bytes,
        page.released_by(virt).bytes == page.bytes,
        page.cleaned(tables).bytes == page.bytes,
        page.mapped_by(virt).addr == page.addr && page.mapped_by(virt).file == page.file
            && page.mapped_by(virt).page_id == page.page_id,
        page.released_by(virt).addr == page.addr && page.released_by(virt).file == page.file
            && page.released_by(virt).page_id == page.page_id,
        page.cleaned(tables).addr == page.addr && page.cleaned(tables).file == page.file
            && page.cleaned(tables).page_id == page.page_id,
{
    lemma_mapped_by(page, virt);
    lemma_filter_keeps(page.virt_pages, other_than(virt));
    lemma_filter_keeps(page.virt_pages, |q: VirtPage| !(tables.state(q) is NotMapped));
}

/// Picks every virtual page but one.
pub open spec fn other_than(page: VirtPage) -> spec_fn(VirtPage) -> bool {
    |p: VirtPage| p != page
}

/// Whether a page with this number ends at an offset that fits a `usize`.
pub open spec fn in_file_range(page_id: usize) -> bool {
    (page_id + 1) * PAGE_SIZE_4K <= usize::MAX
}

/// Filtering a list leaves what the filter keeps, in order.
pub proof fn lemma_filter_keeps(pages: Seq<VirtPage>, keep: spec_fn(VirtPage) -> bool)
    requires
        ascending(pages),
    ensures
        ascending(pages.filter(keep)),
        pages.filter(keep).len() <= pages.len(),
        forall|p: VirtPage| #[trigger]
            pages.filter(keep).contains(p) <==> pages.contains(p) && keep(p),
    decreases pages.len(),
{
    reveal(Seq::filter);
    if pages.len() > 0 {
        let rest = pages.drop_last();
        assert forall|i: int, j: int| 0 <= i < j < rest.len() implies page_before(
            #[trigger] rest[i],
            #[trigger] rest[j],
        ) by {
            assert(page_before(pages[i], pages[j]));
        }
        lemma_filter_keeps(rest, keep);
        let last = pages.last();
        let sub = rest.filter(keep);
        assert forall|p: VirtPage| pages.contains(p) <==> rest.contains(p) || p == last by {
            if pages.contains(p) && p != last {
                let j = choose|j: int| 0 <= j < pages.len() && pages[j] == p;
                assert(rest[j] == p);
            }
            if rest.contains(p) {
                let j = choose|j: int| 0 <= j < rest.len() && rest[j] == p;
                assert(pages[j] == p);
            }
            assert(pages[pages.len() - 1] == last);
        }
        assert forall|i: int| 0 <= i < sub.len() implies page_before(#[trigger] sub[i], last) by {
            assert(sub.contains(sub[i]));
            let j = choose|j: int| 0 <= j < rest.len() && rest[j] == sub[i];
            assert(page_before(pages[j], pages[pages.len() - 1]));
        }
        if keep(last) {
            assert forall|p: VirtPage| sub.push(last).contains(p) <==> sub.contains(p) || p
                == last by {
                assert(sub.push(last)[sub.len() as int] == last);
                if sub.contains(p) {
                    let j = choose|j: int| 0 <= j < sub.len() && sub[j] == p;
                    assert(sub.push(last)[j] == p);
                }
            }
        }
        assert forall|p: VirtPage| #[trigger]
            pages.filter(keep).contains(p) <==> pages.contains(p) && keep(p) by {
            assert(pages.contains(p) <==> rest.contains(p) || p == last);
            assert(sub.contains(p) <==> rest.contains(p) && keep(p));
            if keep(last) {
                assert(pages.filter(keep) == sub.push(last));
            } else {
                assert(pages.filter(keep) == sub);
            }
        }
    }
}

/// Returns whether a virtual page comes before another.
fn comes_before(a: VirtPage, b: VirtPage) -> (r: bool)
    ensures
        r == page_before(a, b),
{
    a.0 < b.0 || a.0 == b.0 && a.1 < b.1
}

impl Page {
    /// Takes a frame and makes an empty page of it. When there is a page
    /// [`Page::from_frame`] says.
    pub fn new(frames: &mut FramePool) -> (r: Option<Page>)
        requires
            old(frames).wf(),
        ensures
            final(frames).wf(),
            final(frames)@.phys_virt_offset == old(frames)@.phys_virt_offset,
            old(frames)@.free.len() > 0 ==> {
                &&& r is Some
                &&& r->0@.addr == old(frames)@.free.last()
                &&& final(frames)@.free == old(frames)@.free.drop_last()
            },
            old(frames)@.free.len() == 0 ==> final(frames)@.free == old(frames)@.free,
            r matches Some(page) ==> {
                &&& page@ == PageView::fresh(page@.addr)
                &&& page@.wf(old(frames)@.phys_virt_offset)
            },
    {
        let frame = frames.take();
        Page::from_frame(frame, frames.phys_virt_offset())
    }

    /// Makes an empty page of a frame that came: there is a page exactly where a
    /// frame came that lies in the linear mapping.
    pub fn from_frame(frame: Option<GlobalPage>, phys_virt_offset: usize) -> (r: Option<Page>)
        requires
            frame matches Some(f) ==> {
                &&& frame_bytes(f).len() == PAGE_SIZE_4K
                &&& frame_addr(f) % PAGE_SIZE_4K == 0
            },
        ensures
            r is Some <==> frame is Some && frame_addr(frame->0) >= phys_virt_offset,
            r matches Some(page) ==> {
                &&& page@ == PageView::fresh(frame_addr(frame->0))
                &&& page@.wf(phys_virt_offset)
            },
    {
        match prepared(frame, phys_virt_offset) {
            Some(inner) => {
                let page = Page {
                    inner,
                    file: None,
                    page_id: 0,
                    dirty: false,
                    virt_pages: Vec::new(),
                };
                assert(page@ =~= PageView::fresh(page@.addr));
                assert(in_file_range(0)) by {
                    assert(usize::MAX >= 4096);
                }
                Some(page)
            },
            None => None,
        }
    }

    /// Starts to load the page: from now on it caches page `page_id` of `file`.
    pub fn load(&mut self, file: FileId, page_id: usize)
        ensures
            final(self)@ == (PageView { file: Some(file), page_id, ..old(self)@ }),
    {
        self.file = Some(file);
        self.page_id = page_id;
    }

    /// Takes over bytes that were read from the file.
    pub fn fill(&mut self, at: usize, data: &[u8])
        requires
            at + data@.len() <= old(self)@.bytes.len(),
        ensures
            final(self)@ == (PageView {
                bytes: splice(old(self)@.bytes, at as int, data@),
                ..old(self)@
            }),
    {
        frame_write(&mut self.inner, at, data);
    }

    /// Returns a copy of the bytes from `at` to the end of the page.
    pub fn tail(&self, at: usize) -> (r: Vec<u8>)
        requires
            at <= self@.bytes.len(),
        ensures
            r@ == self@.bytes.skip(at as int),
    {
        let bytes = self.inner.as_slice();
        let mut out: Vec<u8> = Vec::new();
        let mut i: usize = at;
        while i < bytes.len()
            invariant
                bytes@ == self@.bytes,
                at <= i <= bytes@.len(),
                out@ == self@.bytes.subrange(at as int, i as int),
            decreases bytes@.len() - i,
        {
            out.push(bytes[i]);
            i = i + 1;
            assert(out@ =~= self@.bytes.subrange(at as int, i as int));
        }
        assert(out@ =~= self@.bytes.skip(at as int));
        out
    }

    /// Returns the file that the page belongs to.
    pub fn file(&self) -> (r: Option<FileId>)
        ensures
            r == self@.file,
    {
        self.file
    }

    /// Returns the number of the page in its file.
    pub fn page_id(&self) -> (r: usize)
        ensures
            r == self@.page_id,
    {
        self.page_id
    }

    /// Copies the bytes from `offset` on into `buf` and returns how many. A
    /// range that leaves the page is refused.
    pub fn read(&self, offset: usize, buf: &mut [u8]) -> (r: Result<isize, LinuxError>)
        requires
            self@.bytes.len() == PAGE_SIZE_4K,
            offset + old(buf)@.len() <= usize::MAX,
        ensures
            final(buf)@.len() == old(buf)@.len(),
            offset + old(buf)@.len() > PAGE_SIZE_4K ==> r == Err::<isize, LinuxError>(
                LinuxError::EINVAL,
            ) && final(buf)@ == old(buf)@,
            offset + old(buf)@.len() <= PAGE_SIZE_4K ==> {
                &&& r matches Ok(n) && n == old(buf)@.len()
                &&& final(buf)@ == self@.bytes.subrange(
                    offset as int,
                    offset + old(buf)@.len(),
                )
            },
    {
        let end = offset + buf.len();
        if end > PAGE_SIZE_4K {
            return Err(LinuxError::EINVAL);
        }
        let bytes = self.inner.as_slice();
        let len = buf.len();
        let mut i: usize = 0;
        while i < len
            invariant
                i <= len,
                len == buf@.len(),
                bytes@ == self@.bytes,
                offset + len <= bytes@.len(),
                buf@.len() == old(buf)@.len(),
                bytes@.len() == PAGE_SIZE_4K,
                forall|j: int| 0 <= j < i ==> buf@[j] == bytes@[offset + j],
            decreases len - i,
        {
            buf[i] = bytes[offset + i];
            i = i + 1;
        }
        assert(buf@ =~= self@.bytes.subrange(offset as int, offset + len));
        Ok((end - offset) as isize)
    }

    /// Copies `buf` into the page from `offset` on, marks the page dirty and
    /// returns how many bytes were copied. A range that leaves the page is
    /// refused.
    pub fn write(&mut self, offset: usize, buf: &[u8]) -> (r: Result<isize, LinuxError>)
        requires
            old(self)@.bytes.len() == PAGE_SIZE_4K,
            offset + buf@.len() <= usize::MAX,
            buf@.len() > 0,
        ensures
            offset + buf@.len() > PAGE_SIZE_4K ==> r == Err::<isize, LinuxError>(
                LinuxError::EINVAL,
            ) && final(self)@ == old(self)@,
            offset + buf@.len() <= PAGE_SIZE_4K ==> {
                &&& r matches Ok(n) && n == buf@.len()
                &&& final(self)@ == old(self)@.written(offset as int, buf@)
            },
    {
        let end = offset + buf.len();
        if end > PAGE_SIZE_4K {
            return Err(LinuxError::EINVAL);
        }
        frame_write(&mut self.inner, offset, buf);
        self.dirty = true;
        Ok((end - offset) as isize)
    }

    /// Returns the physical address of the page.
    pub fn get_phys_addr(&self, phys_virt_offset: usize) -> (r: usize)
        requires
            self@.addr >= phys_virt_offset,
        ensures
            r == self@.addr - phys_virt_offset,
    {
        frame_vaddr(&self.inner) - phys_virt_offset
    }

    /// Returns whether the page has been written, by a system call or through
    /// a mapping.
    pub fn is_dirty(&self, tables: &PageTables) -> (r: bool)
        ensures
            r == self@.is_dirty(tables@),
    {
        if self.dirty {
            return true;
        }
        tables.any_dirty(&self.virt_pages)
    }

    /// Returns whether the page has to be written back. A page that was never
    /// loaded belongs to no file and is not written back.
    pub fn needs_flush(&self, tables: &PageTables) -> (r: bool)
        ensures
            r == self@.needs_flush(tables@),
    {
        self.file.is_some() && self.is_dirty(tables)
    }

    /// Marks the page clean, in its own mark and in every page table entry
    /// that maps it.
    pub fn set_clean(&mut self, tables: &mut PageTables)
        ensures
            final(self)@ == old(self)@.cleaned(old(tables)@),
            final(tables)@ == old(tables)@.cleared(old(self)@.virt_pages),
    {
        let ghost keep = |p: VirtPage| !(old(tables)@.state(p) is NotMapped);
        self.dirty = false;
        let mut kept: Vec<VirtPage> = Vec::new();
        let mut i: usize = 0;
        assert(self.virt_pages@.take(0).filter(keep) =~= Seq::<VirtPage>::empty()) by {
            reveal(Seq::filter);
        }
        while i < self.virt_pages.len()
            invariant
                i <= self.virt_pages@.len(),
                tables@ == old(tables)@,
                keep == (|p: VirtPage| !(old(tables)@.state(p) is NotMapped)),
                kept@ == self.virt_pages@.take(i as int).filter(keep),
            decreases self.virt_pages@.len() - i,
        {
            let page = self.virt_pages[i];
            proof {
                let pages = self.virt_pages@;
                assert(pages.take(i + 1).drop_last() =~= pages.take(i as int));
                reveal(Seq::filter);
            }
            if !matches!(tables.state(page), PteState::NotMapped) {
                kept.push(page);
            }
            i = i + 1;
        }
        assert(self.virt_pages@.take(i as int) =~= self.virt_pages@);
        tables.clear_dirty(&self.virt_pages);
        self.virt_pages = kept;
    }

    /// Takes in what was stored through the mappings of the page. Nothing is
    /// known of that but that a page which no virtual page maps is as it was.
    pub fn observe(&mut self)
        ensures
            old(self)@.observed_as(final(self)@),
    {
        if self.virt_pages.len() > 0 {
            frame_lend(&mut self.inner);
        }
    }

    /// Records that a virtual page maps the page, once its page table entry
    /// has been made.
    pub fn map_virt_page(&mut self, page: VirtPage)
        requires
            ascending(old(self)@.virt_pages),
        ensures
            final(self)@ == old(self)@.mapped_by(page),
    {
        let ghost pages = self.virt_pages@;
        let mut i: usize = 0;
        assert(pages.skip(0) =~= pages);
        while i < self.virt_pages.len() && comes_before(self.virt_pages[i], page)
            invariant
                i <= self.virt_pages@.len(),
                *self == *old(self),
                pages == self.virt_pages@,
                place_of(pages, page) == i + place_of(pages.skip(i as int), page),
            decreases self.virt_pages@.len() - i,
        {
            assert(pages.skip(i as int).skip(1) =~= pages.skip(i + 1));
            i = i + 1;
        }
        proof {
            lemma_place(pages, page);
            if pages.contains(page) {
                let j = choose|j: int| 0 <= j < pages.len() && pages[j] == page;
                if j < i {
                    assert(page_before(pages[j], page));
                } else if j > i {
                    assert(page_before(pages[i as int], pages[j]));
                }
            }
        }
        if i < self.virt_pages.len() {
            let (pid, vaddr) = self.virt_pages[i];
            if pid == page.0 && vaddr == page.1 {
                assert(pages[i as int] == page);
                return ;
            }
        }
        self.virt_pages.insert(i, page);
        assert(self@.virt_pages =~= old(self)@.mapped_by(page).virt_pages);
    }

    /// Removes a virtual page from those that map the page, and removes its
    /// translation. A virtual page that does not map the page is left alone.
    pub fn unmap_virt_page(&mut self, page: VirtPage, tables: &mut PageTables)
        ensures
            final(self)@ == old(self)@.released_by(page),
            final(tables)@ == if old(self)@.virt_pages.contains(page) {
                old(tables)@.dropped(page)
            } else {
                old(tables)@
            },
    {
        let ghost keep = other_than(page);
        let mut kept: Vec<VirtPage> = Vec::new();
        let mut found = false;
        let mut i: usize = 0;
        assert(self.virt_pages@.take(0).filter(keep) =~= Seq::<VirtPage>::empty()) by {
            reveal(Seq::filter);
        }
        while i < self.virt_pages.len()
            invariant
                i <= self.virt_pages@.len(),
                keep == other_than(page),
                kept@ == self.virt_pages@.take(i as int).filter(keep),
                found == exists|j: int| 0 <= j < i && #[trigger] self.virt_pages@[j] == page,
            decreases self.virt_pages@.len() - i,
        {
            let (pid, vaddr) = self.virt_pages[i];
            proof {
                let pages = self.virt_pages@;
                assert(pages.take(i + 1).drop_last() =~= pages.take(i as int));
                reveal(Seq::filter);
            }
            if pid == page.0 && vaddr == page.1 {
                assert(self.virt_pages@[i as int] == page);
                found = true;
            } else {
                kept.push((pid, vaddr));
            }
            i = i + 1;
        }
        assert(self.virt_pages@.take(i as int) =~= self.virt_pages@);
        self.virt_pages = kept;
        if found {
            tables.drop_translation(page);
        }
    }

    /// Retires the page: removes every translation to it and gives its frame
    /// back.
    pub fn retire(self, tables: &mut PageTables, frames: &mut FramePool)
        requires
            old(frames).wf(),
            self@.wf(old(frames)@.phys_virt_offset),
        ensures
            final(tables)@ == old(tables)@.unmapped(self@.virt_pages),
            final(frames).wf(),
            final(frames)@.free == old(frames)@.free.push(self@.addr),
            final(frames)@.phys_virt_offset == old(frames)@.phys_virt_offset,
    {
        let Page { inner, file: _, page_id: _, dirty: _, virt_pages } = self;
        tables.unmap(&virt_pages);
        frames.give(inner);
    }
}

} // verus!
