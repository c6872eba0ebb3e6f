//! Physical page frames, as the kernel's page allocator hands them out.
use axalloc::GlobalPage;
use vstd::prelude::*;

use crate::addr::PAGE_SIZE_4K;

verus! {

/// Declares `axalloc::GlobalPage`, an owned run of physical pages.
#[verifier::external_type_specification]
#[verifier::external_body]
pub struct ExGlobalPage(axalloc::GlobalPage);

/// The bytes that a frame holds. Where someone else has its address they are those
/// that it held when `frame_lend` was last called.
pub uninterp spec fn frame_bytes(frame: GlobalPage) -> Seq<u8>;

/// The kernel virtual address at which a frame starts.
pub uninterp spec fn frame_addr(frame: GlobalPage) -> usize;

/// Calls `axalloc::GlobalPage::alloc`. A frame that it hands out is one page
/// long and starts at a page boundary. Nothing is claimed of when the
/// allocator has a page to give, nor of what the page holds.
#[verifier::external_body]
pub(crate) fn frame_alloc() -> (r: Option<GlobalPage>)
    ensures
        r matches Some(frame) ==> {
            &&& frame_bytes(frame).len() == PAGE_SIZE_4K
            &&& frame_addr(frame) % PAGE_SIZE_4K == 0
        },
{
    GlobalPage::alloc().ok()
}

/// `axalloc::GlobalPage::zero` fills the frame with zeros and leaves it where
/// it is.
pub assume_specification[ axalloc::GlobalPage::zero ](frame: &mut GlobalPage)
    ensures
        frame_bytes(*final(frame)) == Seq::new(frame_bytes(*old(frame)).len(), |i: int| 0u8),
        frame_addr(*final(frame)) == frame_addr(*old(frame)),
;

/// `axalloc::GlobalPage::as_slice` lends the bytes of the frame. Stores through its
/// address from elsewhere since `frame_lend` was last called are not accounted for.
pub assume_specification[ axalloc::GlobalPage::as_slice ](frame: &GlobalPage) -> (r: &[u8])
    ensures
        r@ == frame_bytes(*frame),
;

/// `axalloc::GlobalPage::as_slice_mut` lends the bytes of the frame for
/// writing: what is written to the slice is what the frame then holds.
pub assume_specification[ axalloc::GlobalPage::as_slice_mut ](frame: &mut GlobalPage) -> (r:
    &mut [u8])
    ensures
        r@ == frame_bytes(*old(frame)),
        frame_bytes(*final(frame)) == final(r)@,
        frame_bytes(*final(frame)).len() == frame_bytes(*old(frame)).len(),
        frame_addr(*final(frame)) == frame_addr(*old(frame)),
;

/// Calls `axalloc::GlobalPage::start_vaddr`: the address of the frame's first
/// byte, as a number.
#[verifier::external_body]
pub(crate) fn frame_vaddr(frame: &GlobalPage) -> (r: usize)
    ensures
        r == frame_addr(*frame),
{
    frame.start_vaddr().as_usize()
}

/// Calls `axalloc::GlobalPage::as_mut_ptr`, which hands out the address of the
/// frame's first byte for writing and touches nothing. Whoever has the address may
/// have stored through it, so of the bytes that the frame holds from then on only
/// their number is claimed. The frame stays where it is.
#[verifier::external_body]
pub(crate) fn frame_lend(frame: &mut GlobalPage)
    ensures
        frame_bytes(*final(frame)).len() == frame_bytes(*old(frame)).len(),
        frame_addr(*final(frame)) == frame_addr(*old(frame)),
{
    let _ = frame.as_mut_ptr();
}

/// Copies `src` into the frame, from `start` on.
pub fn frame_write(frame: &mut GlobalPage, start: usize, src: &[u8])
    requires
        start + src@.len() <= frame_bytes(*old(frame)).len(),
    ensures
        frame_bytes(*final(frame)) == splice(frame_bytes(*old(frame)), start as int, src@),
        frame_addr(*final(frame)) == frame_addr(*old(frame)),
{
    let ghost before = frame_bytes(*frame);
    let bytes = frame.as_slice_mut();
    let len = bytes.len();
    let mut i: usize = 0;
    while i < src.len()
        invariant
            i <= src@.len(),
            start + src@.len() <= before.len(),
            before.len() == len,
            bytes@ == splice(before, start as int, src@.take(i as int)),
        decreases src@.len() - i,
    {
        bytes[start + i] = src[i];
        i = i + 1;
        assert(bytes@ =~= splice(before, start as int, src@.take(i as int)));
    }
    assert(src@.take(i as int) =~= src@);
}

/// `s` with the bytes from `at` on replaced by `t`.
pub open spec fn splice(s: Seq<u8>, at: int, t: Seq<u8>) -> Seq<u8> {
    Seq::new(s.len(), |i: int| if at <= i < at + t.len() { t[i - at] } else { s[i] })
}

/// Makes a frame ready for a page: fills it with zeros. There is none where none came,
/// or where the one that came lies outside the linear mapping.
pub fn prepared(frame: Option<GlobalPage>, phys_virt_offset: usize) -> (r: Option<GlobalPage>)
    requires
        frame matches Some(f) ==> {
            &&& frame_bytes(f).len() == PAGE_SIZE_4K
            &&& frame_addr(f) % PAGE_SIZE_4K == 0
        },
    ensures
        r is Some <==> frame is Some && frame_addr(frame->0) >= phys_virt_offset,
        r matches Some(g) ==> {
            &&& frame_addr(g) == frame_addr(frame->0)
            &&& frame_fits(g, phys_virt_offset)
            &&& frame_bytes(g) == Seq::new(PAGE_SIZE_4K as nat, |i: int| 0u8)
        },
{
    match frame {
        None => None,
        Some(frame) => {
            let mut frame = frame;
            if frame_vaddr(&frame) < phys_virt_offset {
                return None;
            }
            frame.zero();
            Some(frame)
        },
    }
}

/// The spare frames that cached pages are made of and return to.
///
/// A frame is asked of the allocator only when no spare one is left: a frame
/// that a page gave back is used again.
pub struct FramePool {
    free: Vec<GlobalPage>,
    phys_virt_offset: usize,
}

/// The model of [`FramePool`]: where the spare frames are, and where the
/// linear mapping of physical memory starts.
#[verifier::ext_equal]
pub struct FramePoolView {
    pub free: Seq<usize>,
    pub phys_virt_offset: usize,
}

impl View for FramePool {
    type V = FramePoolView;

    closed spec fn view(&self) -> FramePoolView {
        FramePoolView {
            free: self.free@.map_values(|f: GlobalPage| frame_addr(f)),
            phys_virt_offset: self.phys_virt_offset,
        }
    }
}

/// Whether a frame is one page long, starts at a page boundary and lies in the
/// linear mapping.
pub open spec fn frame_fits(frame: GlobalPage, phys_virt_offset: usize) -> bool {
    &&& frame_bytes(frame).len() == PAGE_SIZE_4K
    &&& frame_addr(frame) % PAGE_SIZE_4K == 0
    &&& frame_addr(frame) >= phys_virt_offset
}

impl FramePool {
    /// Every spare frame is one page of the linear mapping.
    pub closed spec fn wf(&self) -> bool {
        forall|i: int|
            0 <= i < self.free@.len() ==> frame_fits(#[trigger] self.free@[i], self.phys_virt_offset)
    }

    /// Creates a pool without spare frames. The linear mapping of physical
    /// memory starts at `phys_virt_offset`.
    pub fn new(phys_virt_offset: usize) -> (r: FramePool)
        ensures
            r.wf(),
            r@.free == Seq::<usize>::empty(),
            r@.phys_virt_offset == phys_virt_offset,
    {
        let r = FramePool { free: Vec::new(), phys_virt_offset };
        assert(r@.free =~= Seq::<usize>::empty());
        r
    }

    /// Returns the number of spare frames.
    pub fn len(&self) -> (r: usize)
        ensures
            r == self@.free.len(),
    {
        self.free.len()
    }

    /// Returns where the linear mapping of physical memory starts.
    pub fn phys_virt_offset(&self) -> (r: usize)
        ensures
            r == self@.phys_virt_offset,
    {
        self.phys_virt_offset
    }

    /// Takes a frame as it is: the frame given back last or, where none is spare, what
    /// the allocator gives. What becomes of it [`prepared`] says.
    pub fn take(&mut self) -> (r: Option<GlobalPage>)
        requires
            old(self).wf(),
        ensures
            final(self).wf(),
            final(self)@.phys_virt_offset == old(self)@.phys_virt_offset,
            old(self)@.free.len() > 0 ==> {
                &&& r is Some
                &&& frame_addr(r->0) == old(self)@.free.last()
                &&& frame_fits(r->0, old(self)@.phys_virt_offset)
                &&& final(self)@.free == old(self)@.free.drop_last()
            },
            old(self)@.free.len() == 0 ==> final(self)@.free == old(self)@.free,
            r matches Some(frame) ==> {
                &&& frame_bytes(frame).len() == PAGE_SIZE_4K
                &&& frame_addr(frame) % PAGE_SIZE_4K == 0
            },
    {
        let ghost before = self.free@;
        let spare = self.free.pop();
        match spare {
            Some(frame) => {
                assert(frame == before.last());
                assert(self.free@ == before.drop_last());
                assert(self@.free =~= old(self)@.free.drop_last());
                Some(frame)
            },
            None => {
                assert(self@.free =~= old(self)@.free);
                frame_alloc()
            },
        }
    }

    /// Takes back a frame.
    pub fn give(&mut self, frame: GlobalPage)
        requires
            old(self).wf(),
            frame_fits(frame, old(self)@.phys_virt_offset),
        ensures
            final(self).wf(),
            final(self)@.free == old(self)@.free.push(frame_addr(frame)),
            final(self)@.phys_virt_offset == old(self)@.phys_virt_offset,
    {
        self.free.push(frame);
        assert(self@.free =~= old(self)@.free.push(frame_addr(frame)));
    }

    /// Returns spare frames to the allocator until at most `keep` are left.
    pub fn trim(&mut self, keep: usize)
        requires
            old(self).wf(),
        ensures
            final(self).wf(),
            final(self)@.phys_virt_offset == old(self)@.phys_virt_offset,
            final(self)@.free == old(self)@.free.take(
                if keep < old(self)@.free.len() {
                    keep as int
                } else {
                    old(self)@.free.len() as int
                },
            ),
    {
        let ghost before = self.free@;
        assert(before.take(before.len() as int) =~= before);
        while self.free.len() > keep
            invariant
                before == old(self).free@,
                self.free@.len() <= before.len(),
                self.free@ == before.take(self.free@.len() as int),
                self.free@.len() >= keep || self.free@.len() == before.len(),
                self.phys_virt_offset == old(self).phys_virt_offset,
                old(self).wf(),
            decreases self.free@.len(),
        {
            let _ = self.free.pop();
            assert(self.free@ =~= before.take(self.free@.len() as int));
        }
        assert(self@.free =~= old(self)@.free.take(self.free@.len() as int));
    }
}

} // verus!
