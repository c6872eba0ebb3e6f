//! What the page cache needs to know of, and to do to, the page tables of the
//! processes that map its pages.
use std::collections::BTreeMap;
use vstd::prelude::*;

use crate::ordered::lemma_ordered_keys;

verus! {

/// A process identifier.
pub type Pid = u32;

/// A virtual page of a process: the process and the address of the page.
pub type VirtPage = (Pid, usize);

/// Whether a virtual page comes before another: by its process, and in one process
/// by its address.
pub open spec fn page_before(a: VirtPage, b: VirtPage) -> bool {
    a.0 < b.0 || a.0 == b.0 && a.1 < b.1
}

/// Whether virtual pages stand in ascending order, each once.
pub open spec fn ascending(pages: Seq<VirtPage>) -> bool {
    forall|i: int, j: int|
        0 <= i < j < pages.len() ==> page_before(#[trigger] pages[i], #[trigger] pages[j])
}

/// What is known of a virtual page.
#[derive(Debug, Clone, Copy, PartialEq, Eq, Structural)]
pub enum PteState {
    /// The process is gone.
    NoProcess,
    /// The process lives but no mapped area of it holds the page any more.
    NotMapped,
    /// The page is mapped and has not been written since it was last clean.
    Clean,
    /// The page is mapped and has been written.
    Dirty,
}

/// A change to be made to the page tables.
#[derive(Debug, Clone, Copy, PartialEq, Eq)]
pub enum PteOp {
    /// Clear the dirty bit of the page.
    ClearDirty(VirtPage),
    /// Remove the translation of the page.
    Unmap(VirtPage),
    /// Flush the translation of an address from the TLB.
    FlushTlb(usize),
}

/// The page table entries of the virtual pages that map cached pages, as they
/// were read before a call into the page cache, and the changes that the call
/// wants made to them, in order.
pub struct PageTables {
    states: BTreeMap<VirtPage, PteState>,
    ops: Vec<PteOp>,
}

/// The model of [`PageTables`].
#[verifier::ext_equal]
pub struct PageTablesView {
    pub states: Map<VirtPage, PteState>,
    pub ops: Seq<PteOp>,
}

impl View for PageTables {
    type V = PageTablesView;

    closed spec fn view(&self) -> PageTablesView {
        PageTablesView { states: self.states@, ops: self.ops@ }
    }
}

impl PageTablesView {
    /// What is known of a virtual page. A page that was never reported belongs
    /// to a process that is gone.
    pub open spec fn state(self, page: VirtPage) -> PteState {
        if self.states.contains_key(page) {
            self.states[page]
        } else {
            PteState::NoProcess
        }
    }

    /// Whether a virtual page is mapped.
    pub open spec fn mapped(self, page: VirtPage) -> bool {
        self.state(page) is Clean || self.state(page) is Dirty
    }

    /// Whether one of the virtual pages has been written.
    pub open spec fn any_dirty(self, pages: Seq<VirtPage>) -> bool {
        exists|i: int| 0 <= i < pages.len() && self.state(#[trigger] pages[i]) is Dirty
    }

    /// The states once the mapped ones among `pages` are clean.
    pub open spec fn clean_states(self, pages: Seq<VirtPage>) -> Map<VirtPage, PteState> {
        Map::new(
            |p: VirtPage| self.states.contains_key(p),
            |p: VirtPage|
                if pages.contains(p) && self.mapped(p) {
                    PteState::Clean
                } else {
                    self.states[p]
                },
        )
    }

    /// The tables once the dirty bit of each mapped one of `pages` is cleared.
    pub open spec fn cleared(self, pages: Seq<VirtPage>) -> PageTablesView {
        PageTablesView {
            states: self.clean_states(pages),
            ops: self.ops + pages.filter(|p: VirtPage| self.mapped(p)).map_values(
                |p: VirtPage| PteOp::ClearDirty(p),
            ),
        }
    }

    /// The tables once the translation of each mapped one of `pages` is removed.
    pub open spec fn unmapped(self, pages: Seq<VirtPage>) -> PageTablesView {
        PageTablesView {
            states: self.clean_states(pages),
            ops: self.ops + pages.filter(|p: VirtPage| self.mapped(p)).map_values(
                |p: VirtPage| PteOp::Unmap(p),
            ),
        }
    }

    /// The tables once the translation of one virtual page is removed and
    /// flushed, whatever was known of the page.
    pub open spec fn dropped(self, page: VirtPage) -> PageTablesView {
        PageTablesView {
            states: self.clean_states(seq![page]),
            ops: self.ops.push(PteOp::Unmap(page)).push(PteOp::FlushTlb(page.1)),
        }
    }
}

/// What the first pages of a list are, when one is added to them.
proof fn lemma_take_contains(pages: Seq<VirtPage>, i: int)
    requires
        0 <= i < pages.len(),
    ensures
        forall|p: VirtPage| #[trigger]
            pages.take(i + 1).contains(p) <==> pages.take(i).contains(p) || p == pages[i],
{
    assert forall|p: VirtPage|
        pages.take(i).contains(p) || p == pages[i] implies #[trigger] pages.take(i + 1).contains(
        p,
    ) by {
        if p == pages[i] {
            assert(pages.take(i + 1)[i] == p);
        } else {
            let j = choose|j: int| 0 <= j < i && pages.take(i)[j] == p;
            assert(pages.take(i + 1)[j] == p);
        }
    }
    assert forall|p: VirtPage| #[trigger] pages.take(i + 1).contains(p) implies pages.take(
        i,
    ).contains(p) || p == pages[i] by {
        let more = pages.take(i + 1);
        let j = choose|j: int| 0 <= j < more.len() && more[j] == p;
        if j < i {
            assert(pages.take(i)[j] == p);
        }
    }
}

/// One more page of a list, when the pages before it have been filtered.
proof fn lemma_filter_take(pages: Seq<VirtPage>, i: int, keep: spec_fn(VirtPage) -> bool)
    requires
        0 <= i < pages.len(),
    ensures
        pages.take(i + 1).filter(keep) == if keep(pages[i]) {
            pages.take(i).filter(keep).push(pages[i])
        } else {
            pages.take(i).filter(keep)
        },
{
    assert(pages.take(i + 1).drop_last() =~= pages.take(i));
    reveal(Seq::filter);
}

impl PageTables {
    /// Creates page tables of which nothing is known.
    pub fn new() -> (r: PageTables)
        ensures
            r@.states == Map::<VirtPage, PteState>::empty(),
            r@.ops == Seq::<PteOp>::empty(),
    {
        PageTables { states: BTreeMap::new(), ops: Vec::new() }
    }

    /// Records what is known of a virtual page.
    pub fn report(&mut self, page: VirtPage, state: PteState)
        ensures
            final(self)@.states == old(self)@.states.insert(page, state),
            final(self)@.ops == old(self)@.ops,
    {
        broadcast use vstd::std_specs::btree::group_btree_axioms;

        proof {
            lemma_ordered_keys();
        }
        self.states.insert(page, state);
    }

    /// Returns what is known of a virtual page.
    pub fn state(&self, page: VirtPage) -> (r: PteState)
        ensures
            r == self@.state(page),
    {
        broadcast use vstd::std_specs::btree::group_btree_axioms;

        proof {
            lemma_ordered_keys();
        }
        match self.states.get(&page) {
            Some(state) => *state,
            None => PteState::NoProcess,
        }
    }

    /// Hands out the changes that are to be made, in order, and forgets them.
    pub fn take_ops(&mut self) -> (r: Vec<PteOp>)
        ensures
            r@ == old(self)@.ops,
            final(self)@.ops == Seq::<PteOp>::empty(),
            final(self)@.states == old(self)@.states,
    {
        let mut out: Vec<PteOp> = Vec::new();
        std::mem::swap(&mut out, &mut self.ops);
        out
    }

    /// Returns whether a virtual page is mapped.
    pub fn mapped(&self, page: VirtPage) -> (r: bool)
        ensures
            r == self@.mapped(page),
    {
        matches!(self.state(page), PteState::Clean | PteState::Dirty)
    }

    /// Returns whether one of the virtual pages has been written.
    pub fn any_dirty(&self, pages: &Vec<VirtPage>) -> (r: bool)
        ensures
            r == self@.any_dirty(pages@),
    {
        let mut i: usize = 0;
        while i < pages.len()
            invariant
                i <= pages@.len(),
                forall|j: int| 0 <= j < i ==> !(self@.state(#[trigger] pages@[j]) is Dirty),
            decreases pages@.len() - i,
        {
            if matches!(self.state(pages[i]), PteState::Dirty) {
                return true;
            }
            i = i + 1;
        }
        false
    }

    /// Marks a virtual page as clean if it is mapped, and returns whether it is.
    fn set_clean(&mut self, page: VirtPage) -> (r: bool)
        ensures
            r == old(self)@.mapped(page),
            final(self)@.states == old(self)@.clean_states(seq![page]),
            final(self)@.ops == old(self)@.ops,
    {
        let mapped = self.mapped(page);
        if mapped {
            self.report(page, PteState::Clean);
        }
        proof {
            assert(seq![page][0] == page);
            assert(self@.states =~= old(self)@.clean_states(seq![page]));
        }
        mapped
    }

    /// Clears the dirty bit of each mapped one of `pages`.
    pub fn clear_dirty(&mut self, pages: &Vec<VirtPage>)
        ensures
            final(self)@ == old(self)@.cleared(pages@),
    {
        let ghost before = self@;
        let ghost keep = |p: VirtPage| before.mapped(p);
        let ghost op = |p: VirtPage| PteOp::ClearDirty(p);
        let mut i: usize = 0;
        assert(pages@.take(0).filter(keep) =~= Seq::<VirtPage>::empty()) by {
            reveal(Seq::filter);
        }
        assert(self@.ops =~= before.ops + pages@.take(0).filter(keep).map_values(op));
        assert(self@.states =~= before.clean_states(pages@.take(0)));
        while i < pages.len()
            invariant
                i <= pages@.len(),
                keep == (|p: VirtPage| before.mapped(p)),
                op == (|p: VirtPage| PteOp::ClearDirty(p)),
                self@.states == before.clean_states(pages@.take(i as int)),
                self@.ops == before.ops + pages@.take(i as int).filter(keep).map_values(op),
            decreases pages@.len() - i,
        {
            let page = pages[i];
            proof {
                lemma_filter_take(pages@, i as int, keep);
                lemma_take_contains(pages@, i as int);
            }
            if self.set_clean(page) {
                self.ops.push(PteOp::ClearDirty(page));
            }
            i = i + 1;
            proof {
                assert(seq![page].contains(page)) by {
                    assert(seq![page][0] == page);
                }
                assert(self@.states =~= before.clean_states(pages@.take(i as int)));
                assert(self@.ops =~= before.ops + pages@.take(i as int).filter(keep).map_values(
                    op,
                ));
            }
        }
        assert(pages@.take(i as int) =~= pages@);
    }

    /// Removes the translation of each mapped one of `pages`.
    pub fn unmap(&mut self, pages: &Vec<VirtPage>)
        ensures
            final(self)@ == old(self)@.unmapped(pages@),
    {
        let ghost before = self@;
        let ghost keep = |p: VirtPage| before.mapped(p);
        let ghost op = |p: VirtPage| PteOp::Unmap(p);
        let mut i: usize = 0;
        assert(pages@.take(0).filter(keep) =~= Seq::<VirtPage>::empty()) by {
            reveal(Seq::filter);
        }
        assert(self@.ops =~= before.ops + pages@.take(0).filter(keep).map_values(op));
        assert(self@.states =~= before.clean_states(pages@.take(0)));
        while i < pages.len()
            invariant
                i <= pages@.len(),
                keep == (|p: VirtPage| before.mapped(p)),
                op == (|p: VirtPage| PteOp::Unmap(p)),
                self@.states == before.clean_states(pages@.take(i as int)),
                self@.ops == before.ops + pages@.take(i as int).filter(keep).map_values(op),
            decreases pages@.len() - i,
        {
            let page = pages[i];
            proof {
                lemma_filter_take(pages@, i as int, keep);
                lemma_take_contains(pages@, i as int);
            }
            if self.set_clean(page) {
                self.ops.push(PteOp::Unmap(page));
            }
            i = i + 1;
            proof {
                assert(seq![page].contains(page)) by {
                    assert(seq![page][0] == page);
                }
                assert(self@.states =~= before.clean_states(pages@.take(i as int)));
                assert(self@.ops =~= before.ops + pages@.take(i as int).filter(keep).map_values(
                    op,
                ));
            }
        }
        assert(pages@.take(i as int) =~= pages@);
    }

    /// Removes the translation of one virtual page and flushes it.
    pub fn drop_translation(&mut self, page: VirtPage)
        ensures
            final(self)@ == old(self)@.dropped(page),
    {
        self.set_clean(page);
        self.ops.push(PteOp::Unmap(page));
        self.ops.push(PteOp::FlushTlb(page.1));
    }
}

/// Virtual pages stand in one order: those of a process with a lower number come first,
/// and in one process those at lower addresses. Of two different ones exactly one comes
/// before the other.
pub proof fn law_virtual_pages_are_ordered(a: VirtPage, b: VirtPage)
    ensures
        a.0 < b.0 ==> page_before(a, b),
        a.0 == b.0 ==> (page_before(a, b) <==> a.1 < b.1),
        a.0 > b.0 ==> !page_before(a, b),
        a != b ==> page_before(a, b) != page_before(b, a),
{
}

/// What is known after dirty bits were cleared or translations removed: a virtual page of
/// the list that is mapped is clean, and of every other one is known what was known. One
/// change is asked for, behind those that were asked for before, for each virtual page of the
/// list that is mapped, and none for any other.
pub proof fn law_tables_change_for_mapped_pages(
    tables: PageTablesView,
    pages: Seq<VirtPage>,
    p: VirtPage,
)
    requires
        ascending(pages),
    ensures
        ({
            let mapped = tables.state(p) is Clean || tables.state(p) is Dirty;
            let n = tables.ops.len() as int;
            let cleared = tables.cleared(pages);
            let removed = tables.unmapped(pages);
            &&& pages.contains(p) && mapped ==> cleared.state(p) is Clean && removed.state(
                p,
            ) is Clean
            &&& !(pages.contains(p) && mapped) ==> cleared.state(p) == tables.state(p)
                && removed.state(p) == tables.state(p)
            &&& cleared.ops.len() >= n && cleared.ops.take(n) == tables.ops
            &&& removed.ops.len() >= n && removed.ops.take(n) == tables.ops
            &&& cleared.ops.skip(n).contains(PteOp::ClearDirty(p)) <==> pages.contains(p) && mapped
            &&& removed.ops.skip(n).contains(PteOp::Unmap(p)) <==> pages.contains(p) && mapped
            &&& forall|op: PteOp| #[trigger] cleared.ops.skip(n).contains(op) ==> op is ClearDirty
            &&& forall|op: PteOp| #[trigger] removed.ops.skip(n).contains(op) ==> op is Unmap
        }),
{
    let keep = |q: VirtPage| tables.mapped(q);
    let some = pages.filter(keep);
    crate::api::file::page::lemma_filter_keeps(pages, keep);
    let n = tables.ops.len() as int;
    let clears = some.map_values(|q: VirtPage| PteOp::ClearDirty(q));
    let unmaps = some.map_values(|q: VirtPage| PteOp::Unmap(q));
    assert(tables.cleared(pages).ops.take(n) =~= tables.ops);
    assert(tables.unmapped(pages).ops.take(n) =~= tables.ops);
    assert(tables.cleared(pages).ops.skip(n) =~= clears);
    assert(tables.unmapped(pages).ops.skip(n) =~= unmaps);
    if some.contains(p) {
        let i = choose|i: int| 0 <= i < some.len() && some[i] == p;
        assert(clears[i] == PteOp::ClearDirty(p));
        assert(unmaps[i] == PteOp::Unmap(p));
    }
    if clears.contains(PteOp::ClearDirty(p)) {
        let i = choose|i: int| 0 <= i < clears.len() && clears[i] == PteOp::ClearDirty(p);
        assert(some[i] == p);
    }
    if unmaps.contains(PteOp::Unmap(p)) {
        let i = choose|i: int| 0 <= i < unmaps.len() && unmaps[i] == PteOp::Unmap(p);
        assert(some[i] == p);
    }
}

/// A virtual page whose translation is dropped is not dirty any more, whatever else is
/// known stays, and the translation is removed and then flushed.
pub proof fn law_translation_is_dropped_and_flushed(
    tables: PageTablesView,
    page: VirtPage,
    p: VirtPage,
)
    ensures
        ({
            let after = tables.dropped(page);
            let n = tables.ops.len() as int;
            &&& after.ops.len() == n + 2
            &&& after.ops.take(n) == tables.ops
            &&& after.ops[n] == PteOp::Unmap(page)
            &&& after.ops[n + 1] == PteOp::FlushTlb(page.1)
            &&& !(after.state(page) is Dirty)
            &&& p != page ==> after.state(p) == tables.state(p)
        }),
{
    assert(tables.dropped(page).ops.take(tables.ops.len() as int) =~= tables.ops);
    assert(seq![page][0] == page);
}

} // verus!
