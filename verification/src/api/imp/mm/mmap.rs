//! The mapping of memory and of files into memory.
use crate::addr::{page_ceil, page_floor, PAGE_SIZE_4K};
use crate::errno::LinuxError;
use vstd::prelude::*;

verus! {

/// Page can be read.
pub const PROT_READ: u32 = 1;

/// Page can be written.
pub const PROT_WRITE: u32 = 2;

/// Page can be executed.
pub const PROT_EXEC: u32 = 4;

/// Extend change to start of growsdown vma (mprotect only).
pub const PROT_GROWSDOWN: u32 = 0x100_0000;

/// Extend change to start of growsup vma (mprotect only).
pub const PROT_GROWSUP: u32 = 0x200_0000;

/// All the protections that are known.
pub const PROT_ALL: u32 = 0x300_0007;

/// Share changes
pub const MAP_SHARED: u32 = 1;

/// Changes private; copy pages on write.
pub const MAP_PRIVATE: u32 = 2;

/// Map address must be exactly as requested, no matter whether it is available.
pub const MAP_FIXED: u32 = 0x10;

/// Don't use a file.
pub const MAP_ANONYMOUS: u32 = 0x20;

/// Don't check for reservations.
pub const MAP_NORESERVE: u32 = 0x4000;

/// Make the pages present at once.
pub const MAP_POPULATE: u32 = 0x8000;

/// Allocation is for a stack.
pub const MAP_STACK: u32 = 0x2_0000;

/// Whether a bit is set.
pub open spec fn has_bit(bits: u32, bit: u32) -> bool {
    bits & bit == bit
}

/// `PROT_*` flags for use with [`sys_mmap`].
#[derive(Debug, Clone, Copy, PartialEq, Eq, Structural)]
pub struct MmapProt {
    pub bits: u32,
}

/// What may be done with the pages of a mapping.
#[derive(Debug, Clone, Copy, PartialEq, Eq, Structural)]
pub struct MappingFlags {
    pub read: bool,
    pub write: bool,
    pub execute: bool,
    /// Whether user mode may do it.
    pub user: bool,
}

/// What a caller may do with pages of the protection `prot`.
pub open spec fn mapping_flags(prot: u32) -> MappingFlags {
    MappingFlags {
        read: has_bit(prot, PROT_READ),
        write: has_bit(prot, PROT_WRITE),
        execute: has_bit(prot, PROT_EXEC),
        user: true,
    }
}

/// To keep the known bits changes none of them.
proof fn lemma_known_prot(bits: u32)
    by (bit_vector)
    ensures
        (bits & 0x300_0007u32) & 1 == 1u32 <==> bits & 1 == 1u32,
        (bits & 0x300_0007u32) & 2 == 2u32 <==> bits & 2 == 2u32,
        (bits & 0x300_0007u32) & 4 == 4u32 <==> bits & 4 == 4u32,
        bits & !0x300_0007u32 == 0u32 ==> bits & 0x300_0007u32 == bits,
{
}

impl MmapProt {
    /// Keeps the protections that are known.
    pub fn from_bits_truncate(bits: u32) -> (r: MmapProt)
        ensures
            r.bits == bits & PROT_ALL,
    {
        MmapProt { bits: bits & PROT_ALL }
    }

    /// Returns the protections, if all of them are known.
    pub fn from_bits(bits: u32) -> (r: Option<MmapProt>)
        ensures
            r == if bits & !PROT_ALL == 0 {
                Some(MmapProt { bits })
            } else {
                None
            },
    {
        if bits & !PROT_ALL == 0 {
            Some(MmapProt { bits })
        } else {
            None
        }
    }

    /// Whether all of `mask` is set.
    pub fn contains(&self, mask: u32) -> (r: bool)
        ensures
            r == has_bit(self.bits, mask),
    {
        self.bits & mask == mask
    }

    /// Returns what a caller may do with pages of this protection.
    pub fn mapping_flags(&self) -> (r: MappingFlags)
        ensures
            r == mapping_flags(self.bits),
    {
        MappingFlags {
            read: self.contains(PROT_READ),
            write: self.contains(PROT_WRITE),
            execute: self.contains(PROT_EXEC),
            user: true,
        }
    }
}

/// What a call of `sys_mmap` asks for.
#[derive(Debug, Clone, Copy, PartialEq, Eq, Structural)]
pub struct MmapPlan {
    /// Where the mapping is to begin.
    pub start: usize,
    /// The length of the mapping in whole pages, in bytes.
    pub aligned_length: usize,
    /// The length that was asked for.
    pub length: usize,
    /// Whether the mapping may begin nowhere else.
    pub fixed: bool,
    /// The file that is mapped, or -1.
    pub fd: i32,
    /// Where in the file a private copy begins. It is noted for a shared mapping too,
    /// whose pages are counted from the beginning of the file nevertheless.
    pub offset: usize,
    pub shared: bool,
    pub flags: MappingFlags,
    /// Whether the pages are made present at once.
    pub populate: bool,
}

impl MmapPlan {
    /// Whether the mapping is a private copy of a file.
    pub open spec fn copies_file(self) -> bool {
        self.fd != -1 && !self.shared
    }
}

/// What a call of `sys_mmap` asks for.
pub open spec fn mmap_plan(
    addr: usize,
    length: usize,
    prot: u32,
    flags: u32,
    fd: i32,
    offset: isize,
) -> MmapPlan {
    let anonymous = has_bit(flags, MAP_ANONYMOUS) || fd == -1;
    let start = page_floor(addr as int);
    MmapPlan {
        start: start as usize,
        aligned_length: (page_ceil(addr + length) - start) as usize,
        length,
        fixed: has_bit(flags, MAP_FIXED),
        fd: if anonymous {
            -1i32
        } else {
            fd
        },
        offset: offset as usize,
        shared: has_bit(flags, MAP_SHARED),
        flags: mapping_flags(prot),
        populate: anonymous && has_bit(flags, MAP_POPULATE),
    }
}

/// How far a call has come: what is done next.
#[derive(Debug, Clone, Copy)]
pub enum MmapAction {
    /// Remove the mappings in the range, at the address and of the length of
    /// the plan.
    Unmap,
    /// Find room for the mapping, from the address of the plan on.
    FindFree,
    /// Find room for the mapping anywhere.
    FindFreeAnywhere,
    /// Note what is mapped at the address.
    AddArea(usize),
    /// Map the pages at the address.
    MapAlloc(usize),
    /// Report the size of the file.
    FileSize(usize),
    /// Copy `len` bytes of the file, from the offset of the plan on, to the
    /// address. What the file does not have is zero.
    CopyFile { addr: usize, len: usize },
    /// The call returns this.
    Return(Result<isize, LinuxError>),
}

/// What came of an action.
#[derive(Debug, Clone, Copy)]
pub enum MmapEvent {
    /// It was done or failed.
    Done(Result<(), LinuxError>),
    /// Room was found at the address, or none.
    Found(Option<usize>),
    /// The size of the file.
    Size(Result<usize, LinuxError>),
}

/// Whether an event can come of an action.
pub open spec fn event_fits(action: MmapAction, event: MmapEvent) -> bool {
    match action {
        MmapAction::Unmap => event is Done,
        MmapAction::FindFree => event is Found,
        MmapAction::FindFreeAnywhere => event is Found,
        MmapAction::AddArea(_) => event is Done,
        MmapAction::MapAlloc(_) => event is Done,
        MmapAction::FileSize(_) => event is Size,
        MmapAction::CopyFile { .. } => event is Done,
        MmapAction::Return(_) => false,
    }
}

impl MmapPlan {
    /// What is done first.
    pub open spec fn first(self) -> MmapAction {
        if self.fixed {
            MmapAction::Unmap
        } else {
            MmapAction::FindFree
        }
    }

    /// What is done after `event` came of `action`.
    pub open spec fn after(self, action: MmapAction, event: MmapEvent) -> MmapAction {
        match (action, event) {
            (_, MmapEvent::Done(Err(e))) => MmapAction::Return(Err(e)),
            (_, MmapEvent::Size(Err(e))) => MmapAction::Return(Err(e)),
            (MmapAction::Unmap, _) => MmapAction::AddArea(self.start),
            (MmapAction::FindFree, MmapEvent::Found(Some(addr))) => MmapAction::AddArea(addr),
            (MmapAction::FindFree, _) => MmapAction::FindFreeAnywhere,
            (MmapAction::FindFreeAnywhere, MmapEvent::Found(Some(addr))) => MmapAction::AddArea(
                addr,
            ),
            (MmapAction::FindFreeAnywhere, _) => MmapAction::Return(Err(LinuxError::ENOMEM)),
            (MmapAction::AddArea(addr), _) => MmapAction::MapAlloc(addr),
            (MmapAction::MapAlloc(addr), _) => if self.copies_file() {
                MmapAction::FileSize(addr)
            } else {
                MmapAction::Return(Ok(addr as isize))
            },
            (MmapAction::FileSize(addr), MmapEvent::Size(Ok(size))) => if self.offset >= size {
                MmapAction::Return(Err(LinuxError::EINVAL))
            } else {
                MmapAction::CopyFile {
                    addr,
                    len: if self.length < size - self.offset {
                        self.length
                    } else {
                        (size - self.offset) as usize
                    },
                }
            },
            (MmapAction::CopyFile { addr, .. }, _) => MmapAction::Return(Ok(addr as isize)),
            _ => action,
        }
    }
}

/// A call of [`sys_mmap`] that is under way.
#[derive(Debug)]
pub struct MmapCall {
    plan: MmapPlan,
    action: MmapAction,
}

impl MmapCall {
    /// What is mapped, and how.
    pub closed spec fn spec_plan(&self) -> MmapPlan {
        self.plan
    }

    /// What is done next.
    pub closed spec fn spec_action(&self) -> MmapAction {
        self.action
    }

    /// Returns what is mapped, and how.
    pub fn plan(&self) -> (r: MmapPlan)
        ensures
            r == self.spec_plan(),
    {
        self.plan
    }

    /// Returns what is to be done next.
    pub fn action(&self) -> (r: MmapAction)
        ensures
            r == self.spec_action(),
    {
        self.action
    }

    /// Goes on with what came of the action.
    pub fn advance(&mut self, event: MmapEvent)
        requires
            event_fits(old(self).spec_action(), event),
        ensures
            final(self).spec_plan() == old(self).spec_plan(),
            final(self).spec_action() == old(self).spec_plan().after(
                old(self).spec_action(),
                event,
            ),
    {
        self.action = match (self.action, event) {
            (_, MmapEvent::Done(Err(e))) => MmapAction::Return(Err(e)),
            (_, MmapEvent::Size(Err(e))) => MmapAction::Return(Err(e)),
            (MmapAction::Unmap, _) => MmapAction::AddArea(self.plan.start),
            (MmapAction::FindFree, MmapEvent::Found(Some(addr))) => MmapAction::AddArea(addr),
            (MmapAction::FindFree, _) => MmapAction::FindFreeAnywhere,
            (MmapAction::FindFreeAnywhere, MmapEvent::Found(Some(addr))) => MmapAction::AddArea(
                addr,
            ),
            (MmapAction::FindFreeAnywhere, _) => MmapAction::Return(Err(LinuxError::ENOMEM)),
            (MmapAction::AddArea(addr), _) => MmapAction::MapAlloc(addr),
            (MmapAction::MapAlloc(addr), _) => {
                let anonymous = self.plan.fd == -1;
                if !anonymous && !self.plan.shared {
                    MmapAction::FileSize(addr)
                } else {
                    MmapAction::Return(Ok(addr as isize))
                }
            },
            (MmapAction::FileSize(addr), MmapEvent::Size(Ok(size))) => {
                if self.plan.offset >= size {
                    MmapAction::Return(Err(LinuxError::EINVAL))
                } else {
                    let left: usize = size - self.plan.offset;
                    let len: usize = if self.plan.length < left {
                        self.plan.length
                    } else {
                        left
                    };
                    MmapAction::CopyFile { addr, len }
                }
            },
            (MmapAction::CopyFile { addr, .. }, _) => MmapAction::Return(Ok(addr as isize)),
            (action, _) => action,
        };
    }
}

/// What a call of `sys_mmap` comes to before its first step.
pub open spec fn mmap_begun(
    addr: usize,
    length: usize,
    prot: u32,
    flags: u32,
    fd: i32,
    offset: isize,
    r: Result<MmapCall, LinuxError>,
) -> bool {
    match r {
        Err(e) => e == LinuxError::EINVAL && (offset as usize as int % 4096 != 0 || has_bit(
            flags,
            MAP_FIXED,
        ) && page_floor(addr as int) == 0),
        Ok(call) => {
            &&& offset as usize as int % 4096 == 0
            &&& has_bit(flags, MAP_FIXED) ==> page_floor(addr as int) != 0
            &&& call.spec_plan() == mmap_plan(addr, length, prot, flags, fd, offset)
            &&& call.spec_action() == call.spec_plan().first()
        },
    }
}

/// A call is refused exactly where the offset is not at a page boundary, or where the
/// mapping has to begin in the first page of memory.
pub proof fn law_what_mmap_refuses(
    addr: usize,
    length: usize,
    prot: u32,
    flags: u32,
    fd: i32,
    offset: isize,
    r: Result<MmapCall, LinuxError>,
)
    requires
        mmap_begun(addr, length, prot, flags, fd, offset, r),
        offset >= 0,
    ensures
        r is Err <==> offset % 4096 != 0 || flags & 0x10 == 0x10u32 && addr < 4096,
        r is Err ==> r->Err_0 == LinuxError::EINVAL,
        r matches Ok(call) ==> (call.spec_action() is Unmap <==> flags & 0x10 == 0x10u32) && (
        call.spec_action() is FindFree <==> flags & 0x10 != 0x10u32),
{
}

/// Begins to map memory, or a file into memory.
///
/// A private anonymous mapping is plain memory, and so far a shared anonymous one
/// is the same. A private mapping of a file is a copy that is made at once, and
/// changes to it stay in memory. A shared mapping of a file shows the pages of
/// the page cache, which are mapped when they are first used.
pub fn sys_mmap(
    addr: usize,
    length: usize,
    prot: u32,
    flags: u32,
    fd: i32,
    offset: isize,
) -> (r: Result<MmapCall, LinuxError>)
    requires
        offset as usize as int % 4096 == 0 ==> addr + length + 4096 <= usize::MAX,
    ensures
        mmap_begun(addr, length, prot, flags, fd, offset, r),
{
    let prot_flags = MmapProt::from_bits_truncate(prot);
    proof {
        lemma_known_prot(prot);
    }
    let offset: usize = offset as usize;
    if offset % PAGE_SIZE_4K != 0 {
        return Err(LinuxError::EINVAL);
    }
    let start: usize = memory_addr::align_down_4k(addr);
    let end: usize = memory_addr::align_up_4k(addr + length);
    let aligned_length: usize = end - start;
    let fixed = flags & MAP_FIXED == MAP_FIXED;
    if fixed && start == 0 {
        return Err(LinuxError::EINVAL);
    }
    let anonymous = flags & MAP_ANONYMOUS == MAP_ANONYMOUS || fd == -1;
    let shared = flags & MAP_SHARED == MAP_SHARED;
    let fd: i32 = if anonymous {
        -1
    } else {
        fd
    };
    let populate = anonymous && flags & MAP_POPULATE == MAP_POPULATE;
    let plan = MmapPlan {
        start,
        aligned_length,
        length,
        fixed,
        fd,
        offset,
        shared,
        flags: prot_flags.mapping_flags(),
        populate,
    };
    let action = if fixed {
        MmapAction::Unmap
    } else {
        MmapAction::FindFree
    };
    Ok(MmapCall { plan, action })
}

/// What the world answers to the actions of a call.
pub struct MmapAnswers {
    pub unmap: Result<(), LinuxError>,
    pub free: Option<usize>,
    pub free_anywhere: Option<usize>,
    pub area: Result<(), LinuxError>,
    pub map: Result<(), LinuxError>,
    pub size: Result<usize, LinuxError>,
    pub copy: Result<(), LinuxError>,
}

impl MmapAnswers {
    /// What comes of an action.
    pub open spec fn event(self, action: MmapAction) -> MmapEvent {
        match action {
            MmapAction::Unmap => MmapEvent::Done(self.unmap),
            MmapAction::FindFree => MmapEvent::Found(self.free),
            MmapAction::FindFreeAnywhere => MmapEvent::Found(self.free_anywhere),
            MmapAction::AddArea(_) => MmapEvent::Done(self.area),
            MmapAction::MapAlloc(_) => MmapEvent::Done(self.map),
            MmapAction::FileSize(_) => MmapEvent::Size(self.size),
            _ => MmapEvent::Done(self.copy),
        }
    }

    /// Where the mapping begins, if it can be.
    pub open spec fn start(self, plan: MmapPlan) -> Result<usize, LinuxError> {
        if plan.fixed {
            match self.unmap {
                Ok(_) => Ok(plan.start),
                Err(e) => Err(e),
            }
        } else if self.free is Some {
            Ok(self.free->0)
        } else if self.free_anywhere is Some {
            Ok(self.free_anywhere->0)
        } else {
            Err(LinuxError::ENOMEM)
        }
    }
}

/// What is done next after `n` actions have been answered.
pub open spec fn mmap_run(
    plan: MmapPlan,
    action: MmapAction,
    answers: MmapAnswers,
    n: nat,
) -> MmapAction
    decreases n,
{
    if n == 0 || action is Return {
        action
    } else {
        mmap_run(plan, plan.after(action, answers.event(action)), answers, (n - 1) as nat)
    }
}

/// What a call returns: the address of the mapping, or the first error.
pub open spec fn mmap_result(plan: MmapPlan, answers: MmapAnswers) -> Result<isize, LinuxError> {
    match answers.start(plan) {
        Err(e) => Err(e),
        Ok(addr) => if answers.area is Err {
            Err(answers.area->Err_0)
        } else if answers.map is Err {
            Err(answers.map->Err_0)
        } else if !plan.copies_file() {
            Ok(addr as isize)
        } else if answers.size is Err {
            Err(answers.size->Err_0)
        } else if plan.offset >= answers.size->Ok_0 {
            Err(LinuxError::EINVAL)
        } else if answers.copy is Err {
            Err(answers.copy->Err_0)
        } else {
            Ok(addr as isize)
        },
    }
}

/// Whatever the world answers, a call comes to its end, and returns the address
/// of the mapping or the first error.
pub proof fn law_mmap_ends(plan: MmapPlan, answers: MmapAnswers)
    ensures
        mmap_run(plan, plan.first(), answers, 6) == MmapAction::Return(mmap_result(plan, answers)),
{
    reveal_with_fuel(mmap_run, 7);
}

/// A mapping covers all that was asked for, in whole pages, and no page more.
pub proof fn law_mapping_covers_the_range(
    addr: usize,
    length: usize,
    prot: u32,
    flags: u32,
    fd: i32,
    offset: isize,
)
    requires
        addr + length + 4096 <= usize::MAX,
    ensures
        ({
            let plan = mmap_plan(addr, length, prot, flags, fd, offset);
            &&& plan.start as int % 4096 == 0
            &&& plan.aligned_length as int % 4096 == 0
            &&& plan.start <= addr < plan.start + 4096
            &&& addr + length <= plan.start + plan.aligned_length < addr + length + 4096
        }),
{
}

/// Each part of a mapping depends on its own argument, and on its own flag and no other:
/// whether the mapping is shared on `MAP_SHARED` alone, whether it has to begin where it is
/// asked for on `MAP_FIXED` alone, whether a file is mapped on `MAP_ANONYMOUS` and the
/// descriptor, and what may be done with the pages on the protection.
pub proof fn law_mapping_is_what_was_asked_for(
    addr: usize,
    length: usize,
    prot: u32,
    flags: u32,
    fd: i32,
    offset: isize,
)
    ensures
        ({
            let plan = mmap_plan(addr, length, prot, flags, fd, offset);
            &&& plan.shared <==> flags & 0x1 == 0x1u32
            &&& plan.fixed <==> flags & 0x10 == 0x10u32
            &&& plan.fd == -1 <==> flags & 0x20 == 0x20u32 || fd == -1
            &&& plan.fd != -1 ==> plan.fd == fd
            &&& plan.populate <==> flags & 0x8000 == 0x8000u32 && plan.fd == -1
            &&& plan.length == length
            &&& plan.offset == offset as usize
            &&& plan.flags.read <==> prot & 1 == 1u32
            &&& plan.flags.write <==> prot & 2 == 2u32
            &&& plan.flags.execute <==> prot & 4 == 4u32
            &&& plan.flags.user
        }),
{
}

/// A mapping is made step by step, and no step comes that is not asked for. With
/// `MAP_FIXED` whatever is in the way is unmapped, and the mapping begins there. Without,
/// room is looked for at the address and then anywhere. The area is noted, its pages are
/// mapped, and that is all for memory and for a shared mapping of a file, of which nothing is
/// copied. Of a private mapping the file is asked for its size and as much of it is
/// copied as there is, up to the length that was asked for. The first error ends the call.
pub proof fn law_mmap_steps(
    addr: usize,
    length: usize,
    prot: u32,
    flags: u32,
    fd: i32,
    offset: isize,
    answers: MmapAnswers,
)
    requires
        addr + length + 4096 <= usize::MAX,
    ensures
        ({
            let plan = mmap_plan(addr, length, prot, flags, fd, offset);
            let step = |n: nat| mmap_run(plan, plan.first(), answers, n);
            let fixed = flags & 0x10 == 0x10u32;
            let file = flags & 0x20 != 0x20u32 && fd != -1;
            let shared = flags & 0x1 == 0x1u32;
            let start = if fixed {
                (addr - addr % 4096) as usize
            } else if answers.free is Some {
                answers.free->0
            } else {
                answers.free_anywhere->0
            };
            // the step that notes the area
            let k: nat = if fixed || answers.free is Some {
                1
            } else {
                2
            };
            let found = if fixed {
                answers.unmap is Ok
            } else {
                answers.free is Some || answers.free_anywhere is Some
            };
            let noted = found && answers.area is Ok;
            let mapped = noted && answers.map is Ok;
            let copied = mapped && file && !shared;
            &&& step(0) is Unmap <==> fixed
            &&& step(0) is FindFree <==> !fixed
            &&& !fixed && answers.free is None ==> step(1) is FindFreeAnywhere
            &&& fixed && answers.unmap is Err ==> step(1) == MmapAction::Return(
                Err(answers.unmap->Err_0),
            )
            &&& !fixed && !found ==> step(2) == MmapAction::Return(Err(LinuxError::ENOMEM))
            &&& found ==> step(k) == MmapAction::AddArea(start)
            &&& found && answers.area is Err ==> step(k + 1) == MmapAction::Return(
                Err(answers.area->Err_0),
            )
            &&& noted ==> step(k + 1) == MmapAction::MapAlloc(start)
            &&& noted && answers.map is Err ==> step(k + 2) == MmapAction::Return(
                Err(answers.map->Err_0),
            )
            &&& mapped && (shared || !file) ==> step(k + 2) == MmapAction::Return(
                Ok(start as isize),
            )
            &&& copied ==> step(k + 2) == MmapAction::FileSize(start)
            &&& copied && answers.size is Err ==> step(k + 3) == MmapAction::Return(
                Err(answers.size->Err_0),
            )
            &&& copied && answers.size is Ok && answers.size->Ok_0 <= offset as usize ==> step(
                k + 3,
            ) == MmapAction::Return(Err(LinuxError::EINVAL))
            &&& copied && answers.size is Ok && answers.size->Ok_0 > offset as usize ==> {
                let left = answers.size->Ok_0 - offset as usize;
                &&& step(k + 3) matches MmapAction::CopyFile { addr: at, len }
                &&& at == start
                &&& len <= length && len <= left
                &&& len == length || len == left
                &&& step(k + 4) == MmapAction::Return(
                    match answers.copy {
                        Ok(_) => Ok(start as isize),
                        Err(e) => Err(e),
                    },
                )
            }
        }),
        flags & 0x1 == 0x1u32 || flags & 0x20 == 0x20u32 || fd == -1 ==> forall|n: nat|
            {
                let step = #[trigger] mmap_run(
                    mmap_plan(addr, length, prot, flags, fd, offset),
                    mmap_plan(addr, length, prot, flags, fd, offset).first(),
                    answers,
                    n,
                );
                !(step is FileSize) && !(step is CopyFile)
            },
{
    let plan = mmap_plan(addr, length, prot, flags, fd, offset);
    reveal_with_fuel(mmap_run, 7);
    if flags & 0x1 == 0x1u32 || flags & 0x20 == 0x20u32 || fd == -1 {
        assert forall|n: nat| {
            let step = #[trigger] mmap_run(plan, plan.first(), answers, n);
            !(step is FileSize) && !(step is CopyFile)
        } by {
            lemma_nothing_is_copied(plan, plan.first(), answers, n);
        }
    }
}

/// Where nothing is to be copied nothing is.
proof fn lemma_nothing_is_copied(
    plan: MmapPlan,
    action: MmapAction,
    answers: MmapAnswers,
    n: nat,
)
    requires
        !plan.copies_file(),
        !(action is FileSize),
        !(action is CopyFile),
    ensures
        !(mmap_run(plan, action, answers, n) is FileSize),
        !(mmap_run(plan, action, answers, n) is CopyFile),
    decreases n,
{
    if n > 0 && !(action is Return) {
        lemma_nothing_is_copied(
            plan,
            plan.after(action, answers.event(action)),
            answers,
            (n - 1) as nat,
        );
    }
}

/// What is mapped at an address.
#[derive(Debug, Clone, Copy, PartialEq, Eq, Structural)]
pub struct MmapArea {
    /// Where the mapping begins.
    pub start: usize,
    /// The file that is mapped, or -1.
    pub fd: i32,
    /// Whether changes reach the file.
    pub shared: bool,
}

/// Pages of a file.
#[derive(Debug, Clone, Copy, PartialEq, Eq, Structural)]
pub struct PageRange {
    pub fd: i32,
    /// The first page.
    pub first: usize,
    /// The page after the last.
    pub end: usize,
}

/// The pages of a mapped file that the range of `length` bytes at `addr` reaches
/// into, the last one too where the range ends inside it.
pub open spec fn page_range(area: MmapArea, addr: usize, length: usize) -> PageRange {
    PageRange {
        fd: area.fd,
        first: ((addr - area.start) / 4096) as usize,
        end: (page_ceil(addr - area.start + length) / 4096) as usize,
    }
}

/// What a call of `sys_msync` comes to.
pub open spec fn msync_result(addr: usize, length: usize, area: Option<MmapArea>) -> Result<
    Option<PageRange>,
    LinuxError,
> {
    if addr as int % 4096 != 0 || area is None {
        Err(LinuxError::EINVAL)
    } else if area->0.fd == -1 {
        Ok(None)
    } else {
        Ok(Some(page_range(area->0, addr, length)))
    }
}

/// What is written back are the pages of the mapped file that the range meets: a page is
/// among them if and only if a byte of the range lies in it. An address that is not at a
/// page boundary is refused, and so is one where nothing is mapped; where no file is
/// mapped nothing is written back.
pub proof fn law_msync_meets_the_range(
    addr: usize,
    length: usize,
    area: Option<MmapArea>,
    id: int,
)
    requires
        area matches Some(a) ==> a.fd != -1 ==> a.start as int % 4096 == 0 && a.start <= addr
            && addr + length <= usize::MAX,
        0 <= id,
    ensures
        match msync_result(addr, length, area) {
            Err(e) => e == LinuxError::EINVAL && (addr as int % 4096 != 0 || area is None),
            Ok(None) => addr as int % 4096 == 0 && area is Some && area->0.fd == -1,
            Ok(Some(range)) => {
                let page = area->0.start + id * 4096;
                &&& addr as int % 4096 == 0
                &&& area is Some && area->0.fd != -1
                &&& range.fd == area->0.fd
                &&& range.first <= id < range.end <==> exists|at: int|
                    #![trigger in_page(page, at)]
                    addr <= at < addr + length && in_page(page, at)
            },
        },
{
    if let Ok(Some(range)) = msync_result(addr, length, area) {
        let page = area->0.start + id * 4096;
        if range.first <= id < range.end {
            let at = if page < addr {
                addr as int
            } else {
                page
            };
            assert(in_page(page, at));
            assert(addr <= at < addr + length);
        }
    }
}

/// Whether an address lies in the page that begins at `page`.
pub open spec fn in_page(page: int, at: int) -> bool {
    page <= at < page + 4096
}

/// Returns how many pages `len` bytes take up from a page boundary on.
fn page_count(len: usize) -> (r: usize)
    ensures
        r == page_ceil(len as int) / 4096,
{
    if len % PAGE_SIZE_4K == 0 {
        len / PAGE_SIZE_4K
    } else {
        len / PAGE_SIZE_4K + 1
    }
}

/// Returns the pages of a mapped file that are to be written back for the range
/// of `length` bytes at `addr`, or `None` where no file is mapped there. `area`
/// is what is mapped at the address.
pub fn sys_msync(addr: usize, length: usize, area: Option<MmapArea>) -> (r: Result<
    Option<PageRange>,
    LinuxError,
>)
    requires
        area matches Some(a) ==> a.fd != -1 ==> a.start <= addr && addr - a.start + length
            <= usize::MAX,
    ensures
        r == msync_result(addr, length, area),
{
    if addr % PAGE_SIZE_4K != 0 {
        return Err(LinuxError::EINVAL);
    }
    match area {
        None => Err(LinuxError::EINVAL),
        Some(area) => {
            if area.fd == -1 {
                return Ok(None);
            }
            let first: usize = (addr - area.start) / PAGE_SIZE_4K;
            let end: usize = page_count(addr - area.start + length);
            Ok(Some(PageRange { fd: area.fd, first, end }))
        },
    }
}

/// What is removed.
#[derive(Debug)]
pub struct MunmapPlan {
    /// Where the range begins.
    pub addr: usize,
    /// The pages that are written back first.
    pub sync: Option<PageRange>,
    /// The pages of the file that are no longer mapped, each with the address
    /// that it was mapped at.
    pub pages: Vec<(usize, usize)>,
    /// The length of the range in whole pages, in bytes.
    pub aligned_length: usize,
}

/// The pages of a range, each with its address: page zero is where the area
/// begins.
pub open spec fn mapped_pages(range: PageRange, start: usize) -> Seq<(usize, usize)> {
    let count = if range.first <= range.end {
        range.end - range.first
    } else {
        0
    };
    Seq::new(
        count as nat,
        |i: int| ((range.first + i) as usize, (start + (range.first + i) * 4096) as usize),
    )
}

/// How far a call of [`sys_munmap`] has come: what is done next.
#[derive(Debug, Clone, Copy)]
pub enum MunmapAction {
    /// Write the pages back.
    WriteBack(PageRange),
    /// Forget what is mapped at the address of the plan.
    ForgetArea,
    /// Take the address of the page with this number in the list of the plan.
    UnmapPage(usize),
    /// Unmap the memory, at the address and of the length of the plan.
    UnmapMemory,
    /// Flush all translations.
    FlushTlb,
    /// The call returns this.
    Return(Result<isize, LinuxError>),
}

/// Whether a result can come of an action. To take the address of a page and to
/// flush translations cannot fail, and the memory of an area can be unmapped.
pub open spec fn munmap_result_fits(action: MunmapAction, done: Result<(), LinuxError>) -> bool {
    match action {
        MunmapAction::WriteBack(_) => true,
        MunmapAction::ForgetArea => true,
        MunmapAction::Return(_) => false,
        _ => done is Ok,
    }
}

impl MunmapPlan {
    /// What is done first.
    pub open spec fn first(self) -> MunmapAction {
        match self.sync {
            Some(range) => MunmapAction::WriteBack(range),
            None => MunmapAction::ForgetArea,
        }
    }

    /// What is done once the pages before the one with this number have lost their
    /// addresses.
    pub open spec fn unmapping(self, i: int) -> MunmapAction {
        if 0 <= i < self.pages@.len() {
            MunmapAction::UnmapPage(i as usize)
        } else {
            MunmapAction::UnmapMemory
        }
    }

    /// What is done after `done` came of `action`: an error ends the call.
    pub open spec fn after(self, action: MunmapAction, done: Result<(), LinuxError>) -> MunmapAction {
        match (action, done) {
            (_, Err(e)) => MunmapAction::Return(Err(e)),
            (MunmapAction::WriteBack(_), _) => MunmapAction::ForgetArea,
            (MunmapAction::ForgetArea, _) => self.unmapping(0),
            (MunmapAction::UnmapPage(i), _) => self.unmapping(i + 1),
            (MunmapAction::UnmapMemory, _) => MunmapAction::FlushTlb,
            (MunmapAction::FlushTlb, _) => MunmapAction::Return(Ok(0)),
            _ => action,
        }
    }
}

/// A call of [`sys_munmap`] that is under way.
#[derive(Debug)]
pub struct MunmapCall {
    plan: MunmapPlan,
    action: MunmapAction,
}

impl MunmapCall {
    /// What is removed.
    pub closed spec fn spec_plan(&self) -> MunmapPlan {
        self.plan
    }

    /// What is done next.
    pub closed spec fn spec_action(&self) -> MunmapAction {
        self.action
    }

    /// The page that is to lose its address is one of the plan.
    pub open spec fn wf(&self) -> bool {
        self.spec_action() matches MunmapAction::UnmapPage(i) ==> i < self.spec_plan().pages@.len()
    }

    /// Returns what is removed.
    pub fn plan(&self) -> (r: &MunmapPlan)
        ensures
            *r == self.spec_plan(),
    {
        &self.plan
    }

    /// Returns what is to be done next.
    pub fn action(&self) -> (r: MunmapAction)
        ensures
            r == self.spec_action(),
    {
        self.action
    }

    /// Returns what is done once the pages before the one with this number have
    /// lost their addresses.
    fn next_page(&self, i: usize) -> (r: MunmapAction)
        ensures
            r == self.spec_plan().unmapping(i as int),
    {
        if i < self.plan.pages.len() {
            MunmapAction::UnmapPage(i)
        } else {
            MunmapAction::UnmapMemory
        }
    }

    /// Goes on with what came of the action.
    pub fn advance(&mut self, done: Result<(), LinuxError>)
        requires
            old(self).wf(),
            munmap_result_fits(old(self).spec_action(), done),
        ensures
            final(self).wf(),
            final(self).spec_plan() == old(self).spec_plan(),
            final(self).spec_action() == old(self).spec_plan().after(
                old(self).spec_action(),
                done,
            ),
    {
        let next = match (self.action, done) {
            (_, Err(e)) => MunmapAction::Return(Err(e)),
            (MunmapAction::WriteBack(_), _) => MunmapAction::ForgetArea,
            (MunmapAction::ForgetArea, _) => self.next_page(0),
            (MunmapAction::UnmapPage(i), _) => {
                assert(i < self.plan.pages.len());
                self.next_page(i + 1)
            },
            (MunmapAction::UnmapMemory, _) => MunmapAction::FlushTlb,
            (MunmapAction::FlushTlb, _) => MunmapAction::Return(Ok(0)),
            (action, _) => action,
        };
        self.action = next;
    }
}

/// What a call of `sys_munmap` comes to before its first step.
pub open spec fn munmap_begun(
    addr: usize,
    length: usize,
    area: Option<MmapArea>,
    r: Result<MunmapCall, LinuxError>,
) -> bool {
    match r {
        Err(e) => e == LinuxError::EINVAL && (addr as int % 4096 != 0 || area is None),
        Ok(call) => {
            let plan = call.spec_plan();
            &&& addr as int % 4096 == 0
            &&& area is Some
            &&& call.wf()
            &&& call.spec_action() == plan.first()
            &&& plan.addr == addr
            &&& plan.aligned_length == page_ceil(length as int)
            &&& if area->0.fd == -1 {
                plan.sync is None && plan.pages@.len() == 0
            } else {
                let range = page_range(area->0, addr, length);
                plan.sync == Some(range) && plan.pages@ == mapped_pages(range, area->0.start)
            }
        },
    }
}

/// A mapping is removed exactly where something is mapped at the address and the address is
/// at a page boundary. What is unmapped are the whole pages that the range reaches into.
/// Nothing is written back of plain memory. Of a file all pages that the range reaches into
/// are, before anything else is done, and each of them then loses its address.
pub proof fn law_munmap_removes_the_range(
    addr: usize,
    length: usize,
    area: Option<MmapArea>,
    r: Result<MunmapCall, LinuxError>,
    id: int,
)
    requires
        munmap_begun(addr, length, area, r),
        area matches Some(a) ==> a.fd != -1 ==> a.start as int % 4096 == 0 && a.start <= addr
            && addr + length <= usize::MAX,
        0 <= id <= usize::MAX,
    ensures
        r is Ok <==> addr as int % 4096 == 0 && area is Some,
        r is Err ==> r->Err_0 == LinuxError::EINVAL,
        r matches Ok(call) ==> {
            let plan = call.spec_plan();
            &&& plan.addr == addr
            &&& plan.aligned_length as int % 4096 == 0
            &&& length <= plan.aligned_length < length + 4096
            &&& area->0.fd == -1 ==> plan.sync is None && plan.pages@.len() == 0
                && call.spec_action() is ForgetArea
            &&& area->0.fd != -1 ==> {
                &&& plan.sync is Some && plan.sync->0.fd == area->0.fd
                &&& call.spec_action() == MunmapAction::WriteBack(plan.sync->0)
                &&& length > 0 ==> (plan.sync->0.first <= id < plan.sync->0.end <==> area->0.start
                    + id * 4096 < addr + length && addr < area->0.start + (id + 1) * 4096)
                &&& forall|i: int|
                    0 <= i < plan.pages@.len() ==> (#[trigger] plan.pages@[i]).0
                        == plan.sync->0.first + i && plan.pages@[i].1 == area->0.start
                        + plan.pages@[i].0 * 4096
                &&& length > 0 ==> plan.pages@.len() == plan.sync->0.end - plan.sync->0.first
            }
        },
{
    if let Ok(call) = r {
        if area->0.fd != -1 {
            let plan = call.spec_plan();
            let range = page_range(area->0, addr, length);
            let pages = mapped_pages(range, area->0.start);
            assert forall|i: int| 0 <= i < pages.len() implies (#[trigger] pages[i]).0 == range.first
                + i && pages[i].1 == area->0.start + pages[i].0 * 4096 by {
                assert((range.first + i) * 4096 < addr - area->0.start + length);
            }
        }
    }
}

/// Begins to remove the mapping of `length` bytes at `addr`, where `area` is what is
/// mapped at the address. The pages of a file are written back, the area is
/// forgotten, each page of the file loses its address, and the memory is unmapped.
/// Where the pages cannot be written back or the area cannot be forgotten, the call
/// ends with that error and goes no further.
pub fn sys_munmap(addr: usize, length: usize, area: Option<MmapArea>) -> (r: Result<
    MunmapCall,
    LinuxError,
>)
    requires
        addr as int % 4096 == 0 && area is Some ==> length + 4096 <= usize::MAX,
        area matches Some(a) ==> a.fd != -1 ==> a.start <= addr && addr + length <= usize::MAX,
    ensures
        munmap_begun(addr, length, area, r),
{
    let sync = match sys_msync(addr, length, area) {
        Err(e) => {
            return Err(e);
        },
        Ok(sync) => sync,
    };
    let mut pages: Vec<(usize, usize)> = Vec::new();
    if let (Some(range), Some(area)) = (sync, area) {
        let start: usize = area.start;
        let mut id: usize = range.first;
        while id < range.end
            invariant
                range == page_range(area, addr, length),
                area.start <= addr,
                addr + length <= usize::MAX,
                area.start == start,
                range.first <= id <= range.end || range.first > range.end,
                range.first <= id,
                pages@.len() == id - range.first,
                forall|i: int|
                    0 <= i < pages@.len() ==> #[trigger] pages@[i] == (
                        (range.first + i) as usize,
                        (start + (range.first + i) * 4096) as usize,
                    ),
            decreases range.end - id,
        {
            let vaddr: usize = start + id * PAGE_SIZE_4K;
            pages.push((id, vaddr));
            id = id + 1;
        }
        assert(pages@ =~= mapped_pages(range, start));
    }
    let aligned_length: usize = memory_addr::align_up_4k(length);
    let action = match sync {
        Some(range) => MunmapAction::WriteBack(range),
        None => MunmapAction::ForgetArea,
    };
    Ok(MunmapCall { plan: MunmapPlan { addr, sync, pages, aligned_length }, action })
}

/// What the world answers to the actions of a call that removes a mapping.
pub struct MunmapAnswers {
    pub write_back: Result<(), LinuxError>,
    pub forget: Result<(), LinuxError>,
}

impl MunmapAnswers {
    /// What comes of an action.
    pub open spec fn result(self, action: MunmapAction) -> Result<(), LinuxError> {
        match action {
            MunmapAction::WriteBack(_) => self.write_back,
            MunmapAction::ForgetArea => self.forget,
            _ => Ok(()),
        }
    }
}

/// What is done after one another, from `action` on, in at most `n` steps.
pub open spec fn munmap_steps(
    plan: MunmapPlan,
    action: MunmapAction,
    answers: MunmapAnswers,
    n: nat,
) -> Seq<MunmapAction>
    decreases n,
{
    if n == 0 || action is Return {
        seq![action]
    } else {
        seq![action] + munmap_steps(
            plan,
            plan.after(action, answers.result(action)),
            answers,
            (n - 1) as nat,
        )
    }
}

/// The steps that take the addresses of the pages from the one with the number `i`
/// on, and what follows them.
pub open spec fn munmap_rest(plan: MunmapPlan, i: int) -> Seq<MunmapAction> {
    Seq::new(
        (plan.pages@.len() - i) as nat,
        |j: int| MunmapAction::UnmapPage((i + j) as usize),
    ) + seq![
        MunmapAction::UnmapMemory,
        MunmapAction::FlushTlb,
        MunmapAction::Return(Ok(0)),
    ]
}

/// All the steps of a call that removes a mapping, in order.
pub open spec fn munmap_all(plan: MunmapPlan, answers: MunmapAnswers) -> Seq<MunmapAction> {
    let written = match plan.sync {
        Some(range) => seq![MunmapAction::WriteBack(range)],
        None => Seq::empty(),
    };
    if plan.sync is Some && answers.write_back is Err {
        written.push(MunmapAction::Return(Err(answers.write_back->Err_0)))
    } else if answers.forget is Err {
        written.push(MunmapAction::ForgetArea).push(
            MunmapAction::Return(Err(answers.forget->Err_0)),
        )
    } else {
        written.push(MunmapAction::ForgetArea) + munmap_rest(plan, 0)
    }
}

/// A call that removes a mapping does things in order and comes to its end: the
/// pages are written back, the area is forgotten, each page loses its address, the
/// memory is unmapped and the translations are flushed. An error of the first two
/// ends the call before any page has lost its address.
pub proof fn law_munmap_order(plan: MunmapPlan, answers: MunmapAnswers, n: nat)
    requires
        n >= plan.pages@.len() + 4,
        plan.pages@.len() <= usize::MAX,
    ensures
        munmap_steps(plan, plan.first(), answers, n) == munmap_all(plan, answers),
{
    reveal_with_fuel(munmap_steps, 3);
    if !(plan.sync is Some && answers.write_back is Err) && answers.forget is Ok {
        let used: nat = if plan.sync is Some {
            2
        } else {
            1
        };
        lemma_munmap_rest(plan, answers, 0, (n - used) as nat);
    }
    assert(munmap_steps(plan, plan.first(), answers, n) =~= munmap_all(plan, answers));
}

/// What is done when a mapping is removed, step by step: first the pages of a file are
/// written back, then the area is forgotten, then the pages lose their addresses in the
/// order of the list, all of them, then the memory is unmapped, the translations are
/// flushed and the call returns zero. An error of one of the first two steps ends the call
/// there.
pub proof fn law_munmap_steps(plan: MunmapPlan, answers: MunmapAnswers, n: nat)
    requires
        n >= plan.pages@.len() + 4,
        plan.pages@.len() <= usize::MAX,
    ensures
        ({
            let steps = munmap_steps(plan, plan.first(), answers, n);
            let count = plan.pages@.len();
            // the step that forgets the area
            let k: int = if plan.sync is Some {
                1
            } else {
                0
            };
            &&& plan.sync is Some ==> steps[0] == MunmapAction::WriteBack(plan.sync->0)
            &&& plan.sync is Some && answers.write_back is Err ==> steps.len() == 2 && steps[1]
                == MunmapAction::Return(Err(answers.write_back->Err_0))
            &&& !(plan.sync is Some && answers.write_back is Err) ==> {
                &&& steps[k] is ForgetArea
                &&& answers.forget is Err ==> steps.len() == k + 2 && steps[k + 1]
                    == MunmapAction::Return(Err(answers.forget->Err_0))
                &&& answers.forget is Ok ==> {
                    &&& steps.len() == k + count + 4
                    &&& forall|i: int|
                        0 <= i < count ==> #[trigger] steps[k + 1 + i]
                            == MunmapAction::UnmapPage(i as usize)
                    &&& steps[k + count + 1] is UnmapMemory
                    &&& steps[k + count + 2] is FlushTlb
                    &&& steps[k + count + 3] == MunmapAction::Return(Ok(0))
                }
            }
        }),
{
    law_munmap_order(plan, answers, n);
}

/// The pages lose their addresses one after the other.
proof fn lemma_munmap_rest(plan: MunmapPlan, answers: MunmapAnswers, i: int, n: nat)
    requires
        0 <= i <= plan.pages@.len() <= usize::MAX,
        n >= plan.pages@.len() - i + 2,
    ensures
        munmap_steps(plan, plan.unmapping(i), answers, n) == munmap_rest(plan, i),
    decreases plan.pages@.len() - i,
{
    let steps = munmap_steps(plan, plan.unmapping(i), answers, n);
    if i < plan.pages@.len() {
        lemma_munmap_rest(plan, answers, i + 1, (n - 1) as nat);
    } else {
        reveal_with_fuel(munmap_steps, 4);
    }
    assert(steps =~= munmap_rest(plan, i));
}

/// A change of protection.
#[derive(Debug, Clone, Copy, PartialEq, Eq, Structural)]
pub struct ProtectPlan {
    pub addr: usize,
    /// The length of the range in whole pages, in bytes.
    pub aligned_length: usize,
    pub flags: MappingFlags,
}

/// The change of protection that a caller asks for.
pub open spec fn protect_plan(addr: usize, length: usize, prot: u32) -> Result<
    ProtectPlan,
    LinuxError,
> {
    if prot & !PROT_ALL != 0 || has_bit(prot, PROT_GROWSDOWN | PROT_GROWSUP) {
        Err(LinuxError::EINVAL)
    } else {
        Ok(
            ProtectPlan {
                addr,
                aligned_length: page_ceil(length as int) as usize,
                flags: mapping_flags(prot),
            },
        )
    }
}

/// A change of protection is refused exactly where a bit is set that is none of the
/// five protections, or where the range is to grow both ways. Otherwise the pages of the
/// range, whole pages and no page more, may be read, written and executed as the lowest three
/// bits say.
pub proof fn law_protection_is_what_was_asked_for(addr: usize, length: usize, prot: u32)
    requires
        length + 4096 <= usize::MAX,
    ensures
        match protect_plan(addr, length, prot) {
            Err(e) => e == LinuxError::EINVAL && (prot & 0xfcff_fff8 != 0 || prot & 0x300_0000
                == 0x300_0000u32),
            Ok(plan) => {
                &&& prot & 0xfcff_fff8 == 0
                &&& prot & 0x300_0000 != 0x300_0000u32
                &&& plan.addr == addr
                &&& plan.aligned_length as int % 4096 == 0
                &&& length <= plan.aligned_length < length + 4096
                &&& plan.flags.read <==> prot & 1 == 1u32
                &&& plan.flags.write <==> prot & 2 == 2u32
                &&& plan.flags.execute <==> prot & 4 == 4u32
                &&& plan.flags.user
            },
        },
{
    assert(prot & !0x300_0007u32 == prot & 0xfcff_fff8) by (bit_vector);
    assert(0x100_0000u32 | 0x200_0000u32 == 0x300_0000u32) by (bit_vector);
}

/// Returns the change of protection that a caller asks for.
pub fn sys_mprotect(addr: usize, length: usize, prot: u32) -> (r: Result<ProtectPlan, LinuxError>)
    requires
        prot & !PROT_ALL == 0 && !has_bit(prot, PROT_GROWSDOWN | PROT_GROWSUP) ==> length + 4096
            <= usize::MAX,
    ensures
        r == protect_plan(addr, length, prot),
{
    match MmapProt::from_bits(prot) {
        None => Err(LinuxError::EINVAL),
        Some(permission) => {
            if permission.contains(PROT_GROWSDOWN | PROT_GROWSUP) {
                return Err(LinuxError::EINVAL);
            }
            let aligned_length: usize = memory_addr::align_up_4k(length);
            Ok(ProtectPlan { addr, aligned_length, flags: permission.mapping_flags() })
        },
    }
}

/// A page of a file that is to be mapped.
#[derive(Debug, Clone, Copy, PartialEq, Eq, Structural)]
pub struct LazyMap {
    pub fd: i32,
    pub page_id: usize,
    /// The address of the page.
    pub vaddr: usize,
}

/// The page of a file that is to be mapped after a page fault.
pub open spec fn lazy_map(vaddr: usize, area: Option<MmapArea>) -> Option<LazyMap> {
    if area is None || area->0.fd == -1 || !area->0.shared {
        None
    } else {
        Some(
            LazyMap {
                fd: area->0.fd,
                page_id: ((vaddr - area->0.start) / 4096) as usize,
                vaddr: page_floor(vaddr as int) as usize,
            },
        )
    }
}

/// A fault in a mapping that was made with `MAP_SHARED` of a file maps the page of the
/// file that the address belongs to, at the page of the address: the first page of the
/// file is where the mapping begins, and each further page of the file one page further
/// on. A fault in any other mapping maps no page of a file.
pub proof fn law_fault_maps_the_page_of_the_address(
    addr: usize,
    length: usize,
    prot: u32,
    flags: u32,
    fd: i32,
    offset: isize,
    start: usize,
    vaddr: usize,
)
    requires
        start as int % 4096 == 0,
        start <= vaddr,
    ensures
        ({
            let plan = mmap_plan(addr, length, prot, flags, fd, offset);
            let area = MmapArea { start, fd: plan.fd, shared: plan.shared };
            match lazy_map(vaddr, Some(area)) {
                None => flags & 1 != 1u32 || flags & 0x20 == 0x20u32 || fd == -1,
                Some(map) => {
                    &&& flags & 1 == 1u32
                    &&& flags & 0x20 != 0x20u32 && fd != -1
                    &&& map.fd == fd
                    &&& map.vaddr as int % 4096 == 0
                    &&& map.vaddr <= vaddr < map.vaddr + 4096
                    &&& map.vaddr == start + map.page_id * 4096
                },
            }
        }),
        lazy_map(vaddr, None) is None,
{
}

/// Returns the page of a file that is to be mapped after a page fault at `vaddr`,
/// where `area` is what is mapped there. Without a file there is none: the fault
/// is not for the page cache. Nor is there one in a private mapping, which shows a
/// copy of the file: what is stored there never reaches the file.
pub fn lazy_map_file(vaddr: usize, area: Option<MmapArea>) -> (r: Option<LazyMap>)
    requires
        area matches Some(a) ==> a.fd != -1 && a.shared ==> a.start <= vaddr,
    ensures
        r == lazy_map(vaddr, area),
{
    match area {
        None => None,
        Some(area) => {
            if area.fd == -1 || !area.shared {
                return None;
            }
            let offset: usize = vaddr - area.start;
            let page_id: usize = offset / PAGE_SIZE_4K;
            let aligned: usize = memory_addr::align_down_4k(vaddr);
            Some(LazyMap { fd: area.fd, page_id, vaddr: aligned })
        },
    }
}

/// What faults map, an unmapping takes back: a page that a fault maps is in the
/// list of the unmapping, with the address that it was mapped at, if and only if
/// the range reaches into it.
pub proof fn law_munmap_takes_back_what_faults_map(
    area: MmapArea,
    addr: usize,
    length: usize,
    vaddr: usize,
)
    requires
        area.start as int % 4096 == 0,
        addr as int % 4096 == 0,
        area.start <= addr,
        addr + length <= usize::MAX,
        area.start <= vaddr,
    ensures
        ({
            let page = (
                ((vaddr - area.start) / 4096) as usize,
                page_floor(vaddr as int) as usize,
            );
            let pages = mapped_pages(page_range(area, addr, length), area.start);
            pages.contains(page) <==> page.1 < addr + length && addr < page.1 + 4096 && length > 0
        }),
{
    let page = (((vaddr - area.start) / 4096) as usize, page_floor(vaddr as int) as usize);
    let range = page_range(area, addr, length);
    let pages = mapped_pages(range, area.start);
    assert(area.start + page.0 * 4096 == page.1);
    if page.1 < addr + length && addr < page.1 + 4096 && length > 0 {
        assert(range.first <= page.0 < range.end);
        assert(pages[page.0 - range.first] == page);
    }
    if pages.contains(page) {
        let i = choose|i: int| 0 <= i < pages.len() && pages[i] == page;
        assert(page.0 == range.first + i);
    }
}

} // verus!
