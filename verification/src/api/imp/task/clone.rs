//! The creation of threads and processes.
use crate::api::imp::signal::Pid;
use crate::api::imp::task::exit::{ExitAction, ExitCall};
use crate::errno::LinuxError;
use crate::signal::ctypes::{is_signal, signo_from_repr, SignalAction, SIGCHLD};
use crate::signal::delivery::TrapFrame;
use vstd::prelude::*;

verus! {

/// The calling process and the child process run in the same memory space.
pub const CLONE_VM: u32 = 0x100;

/// The caller and the child process share the same filesystem information.
pub const CLONE_FS: u32 = 0x200;

/// The calling process and the child process share the same file descriptor
/// table.
pub const CLONE_FILES: u32 = 0x400;

/// The calling process and the child process share the same table of signal
/// handlers.
pub const CLONE_SIGHAND: u32 = 0x800;

/// If the calling process is being traced, then trace the child also.
pub const CLONE_PTRACE: u32 = 0x2000;

/// The execution of the calling process is suspended until the child releases
/// its virtual memory resources, by running another program or by its end.
pub const CLONE_VFORK: u32 = 0x4000;

/// The parent of the new child will be the same as that of the calling process.
pub const CLONE_PARENT: u32 = 0x8000;

/// The child is placed in the same thread group as the calling process.
pub const CLONE_THREAD: u32 = 0x1_0000;

/// The cloned child is started in a new mount namespace.
pub const CLONE_NEWNS: u32 = 0x2_0000;

/// The child and the calling process share a single list of System V semaphore
/// adjustment values.
pub const CLONE_SYSVSEM: u32 = 0x4_0000;

/// The TLS (Thread Local Storage) descriptor is set to tls.
pub const CLONE_SETTLS: u32 = 0x8_0000;

/// Store the child thread ID in the parent's memory.
pub const CLONE_PARENT_SETTID: u32 = 0x10_0000;

/// Clear (zero) the child thread ID in child memory when the child exits, and
/// wake those who wait on the futex at that address.
pub const CLONE_CHILD_CLEARTID: u32 = 0x20_0000;

/// A tracing process cannot force `CLONE_PTRACE` on this child process.
pub const CLONE_UNTRACED: u32 = 0x80_0000;

/// Store the child thread ID in the child's memory.
pub const CLONE_CHILD_SETTID: u32 = 0x100_0000;

/// Create the process in a new cgroup namespace.
pub const CLONE_NEWCGROUP: u32 = 0x200_0000;

/// Create the process in a new UTS namespace.
pub const CLONE_NEWUTS: u32 = 0x400_0000;

/// Create the process in a new IPC namespace.
pub const CLONE_NEWIPC: u32 = 0x800_0000;

/// Create the process in a new user namespace.
pub const CLONE_NEWUSER: u32 = 0x1000_0000;

/// Create the process in a new PID namespace.
pub const CLONE_NEWPID: u32 = 0x2000_0000;

/// Create the process in a new network namespace.
pub const CLONE_NEWNET: u32 = 0x4000_0000;

/// The new process shares an I/O context with the calling process.
pub const CLONE_IO: u32 = 0x8000_0000;

/// All the flags that are known.
pub const CLONE_ALL: u32 = 0xffbf_ef00;

/// Options for use with [`sys_clone`].
#[derive(Debug, Clone, Copy, PartialEq, Eq, Structural)]
pub struct CloneFlags {
    pub bits: u32,
}

/// Whether all the flags of `mask` are set in `bits`.
pub open spec fn has_flags(bits: u32, mask: u32) -> bool {
    bits & mask == mask
}

impl CloneFlags {
    /// Keeps the flags that are known.
    pub fn from_bits_truncate(bits: u32) -> (r: CloneFlags)
        ensures
            r.bits == bits & CLONE_ALL,
    {
        CloneFlags { bits: bits & CLONE_ALL }
    }

    /// Whether all the flags of `mask` are set.
    pub fn contains(&self, mask: u32) -> (r: bool)
        ensures
            r == has_flags(self.bits, mask),
    {
        self.bits & mask == mask
    }
}

/// To keep the known flags changes no known flag, and the known flags lie above
/// the signal.
proof fn lemma_known_flags(bits: u32, mask: u32)
    by (bit_vector)
    requires
        mask & 0xffbf_ef00u32 == mask,
    ensures
        ((bits & !0xffu32) & 0xffbf_ef00u32) & mask == mask <==> bits & mask == mask,
{
}

/// The masks that are asked for are made of known flags.
proof fn lemma_asked_flags()
    by (bit_vector)
    ensures
        0x100u32 & 0xffbf_ef00u32 == 0x100u32,
        0x200u32 & 0xffbf_ef00u32 == 0x200u32,
        0x400u32 & 0xffbf_ef00u32 == 0x400u32,
        0x800u32 & 0xffbf_ef00u32 == 0x800u32,
        0x4000u32 & 0xffbf_ef00u32 == 0x4000u32,
        0x8000u32 & 0xffbf_ef00u32 == 0x8000u32,
        0x1_0000u32 & 0xffbf_ef00u32 == 0x1_0000u32,
        0x8_0000u32 & 0xffbf_ef00u32 == 0x8_0000u32,
        0x10_0000u32 & 0xffbf_ef00u32 == 0x10_0000u32,
        0x20_0000u32 & 0xffbf_ef00u32 == 0x20_0000u32,
        0x100_0000u32 & 0xffbf_ef00u32 == 0x100_0000u32,
        (0x1_0000u32 | 0x8000u32) & 0xffbf_ef00u32 == 0x1_0000u32 | 0x8000u32,
        (0x100u32 | 0x800u32) & 0xffbf_ef00u32 == 0x100u32 | 0x800u32,
{
}

/// Where the thread pointer of a new task comes from.
#[derive(Debug, Clone, Copy, PartialEq, Eq, Structural)]
pub enum ThreadPointer {
    /// From the caller's arguments.
    Given(usize),
    /// From the calling task.
    Inherited,
}

/// What a new process has in common with the calling one.
#[derive(Debug, Clone, Copy, PartialEq, Eq, Structural)]
pub struct ProcessPlan {
    /// Whether its parent is the parent of the calling process, and not the
    /// calling process itself.
    pub sibling: bool,
    /// Whether it runs in the memory of the calling process, and not in a copy.
    pub share_memory: bool,
    /// Whether it has the table of signal actions of the calling process, and
    /// not a new one. That is so whoever its parent is.
    pub share_actions: bool,
    /// Whether it has the file table of the calling process, and not a copy.
    pub share_files: bool,
    /// Whether it has the current directory of the calling process, and not a
    /// copy.
    pub share_fs: bool,
    /// The signal that its parent is sent when it exits.
    pub exit_signal: Option<u32>,
}

/// What is to be created, and how.
#[derive(Debug, Clone, Copy, PartialEq, Eq, Structural)]
pub struct ClonePlan {
    /// The stack of the new task, where it is not that of the calling task.
    pub stack: Option<usize>,
    /// The pointer that is checked before anything is created.
    pub check: Option<usize>,
    /// Where the new task writes its number when it begins to run.
    pub child_tid: Option<usize>,
    pub thread_pointer: ThreadPointer,
    /// Where in the memory of the calling process the number of the new task is
    /// written before it runs.
    pub write_tid: Option<usize>,
    /// Where zero is written when the new task exits.
    pub clear_tid: Option<usize>,
    /// Whether the calling process waits until the new task has released its
    /// memory.
    pub suspend: bool,
    /// The process to create. Without one, the task is a thread of the calling
    /// process.
    pub process: Option<ProcessPlan>,
}

/// Whether the flags of a call contradict each other: a signal on exit is not
/// for a thread with the parent of the caller, and a thread shares memory and
/// signal actions.
pub open spec fn contradictory(flags: u32) -> bool {
    ||| flags & 0xff != 0 && has_flags(flags, CLONE_THREAD | CLONE_PARENT)
    ||| has_flags(flags, CLONE_THREAD) && !has_flags(flags, CLONE_VM | CLONE_SIGHAND)
}

/// What a call of `sys_clone` asks for.
pub open spec fn clone_plan(
    flags: u32,
    stack: usize,
    ptid: usize,
    ctid: usize,
    tls: usize,
) -> ClonePlan {
    let given = |mask: u32, value: usize|
        if has_flags(flags, mask) {
            Some(value)
        } else {
            None
        };
    ClonePlan {
        stack: if stack != 0 {
            Some(stack)
        } else {
            None
        },
        check: given(CLONE_CHILD_SETTID, ctid),
        child_tid: if ctid != 0 {
            given(CLONE_CHILD_SETTID, ctid)
        } else {
            None
        },
        thread_pointer: if has_flags(flags, CLONE_SETTLS) {
            ThreadPointer::Given(tls)
        } else {
            ThreadPointer::Inherited
        },
        write_tid: given(CLONE_PARENT_SETTID, ptid),
        clear_tid: given(CLONE_CHILD_CLEARTID, ctid),
        suspend: has_flags(flags, CLONE_VFORK),
        process: if has_flags(flags, CLONE_THREAD) {
            None
        } else {
            Some(
                ProcessPlan {
                    sibling: has_flags(flags, CLONE_PARENT),
                    share_memory: has_flags(flags, CLONE_VM),
                    share_actions: has_flags(flags, CLONE_SIGHAND),
                    share_files: has_flags(flags, CLONE_FILES),
                    share_fs: has_flags(flags, CLONE_FS),
                    exit_signal: if is_signal((flags & 0xff) as u8 as u32) {
                        Some((flags & 0xff) as u8 as u32)
                    } else {
                        None
                    },
                },
            )
        },
    }
}

/// How far a call has come: what is done next.
#[derive(Debug, Clone, Copy)]
pub enum CloneAction {
    /// Check that the number of a task can be written at the address.
    CheckPointer(usize),
    /// Create the task, with the registers of [`ClonePlan::child_registers`], and
    /// the thread pointer and the place for its number that the plan says.
    CreateTask,
    /// Write the number of the task at the address.
    WriteTid { tid: Pid, addr: usize },
    /// Find out whether the calling process has a parent.
    FindParent(Pid),
    /// Copy the memory of the calling process.
    CopyMemory(Pid),
    /// Put the task into a process as the plan says, and let it run.
    Spawn(Pid),
    /// Wait until the task has released its memory.
    AwaitRelease(Pid),
    /// The call returns this.
    Return(Result<isize, LinuxError>),
}

/// What came of an action.
#[derive(Debug, Clone, Copy)]
pub enum CloneEvent {
    /// The check, the write or the copy was done or failed.
    Checked(Result<(), LinuxError>),
    /// The task was created and has this number.
    Created(u64),
    /// Whether the calling process has a parent.
    Parent(bool),
    /// The task runs.
    Spawned,
    /// The task has released its memory.
    Released,
}

/// Whether an event can come of an action.
pub open spec fn event_fits(action: CloneAction, event: CloneEvent) -> bool {
    match action {
        CloneAction::CheckPointer(_) => event is Checked,
        CloneAction::CreateTask => event is Created,
        CloneAction::WriteTid { .. } => event is Checked,
        CloneAction::FindParent(_) => event is Parent,
        CloneAction::CopyMemory(_) => event is Checked,
        CloneAction::Spawn(_) => event is Spawned,
        CloneAction::AwaitRelease(_) => event is Released,
        CloneAction::Return(_) => false,
    }
}

/// A call of [`sys_clone`] that is under way.
#[derive(Debug)]
pub struct CloneCall {
    plan: ClonePlan,
    action: CloneAction,
}

impl ClonePlan {
    /// What is done first.
    pub open spec fn first(self) -> CloneAction {
        match self.check {
            Some(addr) => CloneAction::CheckPointer(addr),
            None => CloneAction::CreateTask,
        }
    }

    /// What is done once the task has a number.
    pub open spec fn numbered(self, tid: Pid) -> CloneAction {
        match self.write_tid {
            Some(addr) => CloneAction::WriteTid { tid, addr },
            None => self.announced(tid),
        }
    }

    /// What is done once the number was written.
    pub open spec fn announced(self, tid: Pid) -> CloneAction {
        match self.process {
            Some(process) => if process.sibling {
                CloneAction::FindParent(tid)
            } else {
                self.parented(tid)
            },
            None => CloneAction::Spawn(tid),
        }
    }

    /// What is done once the parent of the new process is known.
    pub open spec fn parented(self, tid: Pid) -> CloneAction {
        match self.process {
            Some(process) => if process.share_memory {
                CloneAction::Spawn(tid)
            } else {
                CloneAction::CopyMemory(tid)
            },
            None => CloneAction::Spawn(tid),
        }
    }

    /// What is done after `event` came of `action`.
    pub open spec fn after(self, action: CloneAction, event: CloneEvent) -> CloneAction {
        match (action, event) {
            (CloneAction::CreateTask, CloneEvent::Created(id)) => self.numbered(id as Pid),
            (CloneAction::FindParent(tid), CloneEvent::Parent(found)) => if found {
                self.parented(tid)
            } else {
                CloneAction::Return(Err(LinuxError::EINVAL))
            },
            (CloneAction::Spawn(tid), CloneEvent::Spawned) => if self.suspend {
                CloneAction::AwaitRelease(tid)
            } else {
                CloneAction::Return(Ok(tid as isize))
            },
            (CloneAction::AwaitRelease(tid), CloneEvent::Released) => CloneAction::Return(
                Ok(tid as isize),
            ),
            (_, CloneEvent::Checked(Err(e))) => CloneAction::Return(Err(e)),
            (CloneAction::CheckPointer(_), _) => CloneAction::CreateTask,
            (CloneAction::WriteTid { tid, .. }, _) => self.announced(tid),
            (CloneAction::CopyMemory(tid), _) => CloneAction::Spawn(tid),
            _ => action,
        }
    }
}

impl CloneCall {
    /// What is to be created.
    pub closed spec fn spec_plan(&self) -> ClonePlan {
        self.plan
    }

    /// What is done next.
    pub closed spec fn spec_action(&self) -> CloneAction {
        self.action
    }

    /// Returns what is to be created.
    pub fn plan(&self) -> (r: ClonePlan)
        ensures
            r == self.spec_plan(),
    {
        self.plan
    }

    /// Returns what is to be done next.
    pub fn action(&self) -> (r: CloneAction)
        ensures
            r == self.spec_action(),
    {
        self.action
    }

    /// Goes on with what came of the action.
    pub fn advance(&mut self, event: CloneEvent)
        requires
            event_fits(old(self).spec_action(), event),
        ensures
            final(self).spec_plan() == old(self).spec_plan(),
            final(self).spec_action() == old(self).spec_plan().after(
                old(self).spec_action(),
                event,
            ),
    {
        self.action = match (self.action, event) {
            (CloneAction::CreateTask, CloneEvent::Created(id)) => self.plan.next_numbered(
                id as Pid,
            ),
            (CloneAction::FindParent(tid), CloneEvent::Parent(found)) => if found {
                self.plan.next_parented(tid)
            } else {
                CloneAction::Return(Err(LinuxError::EINVAL))
            },
            (CloneAction::Spawn(tid), CloneEvent::Spawned) => if self.plan.suspend {
                CloneAction::AwaitRelease(tid)
            } else {
                CloneAction::Return(Ok(tid as isize))
            },
            (CloneAction::AwaitRelease(tid), CloneEvent::Released) => CloneAction::Return(
                Ok(tid as isize),
            ),
            (_, CloneEvent::Checked(Err(e))) => CloneAction::Return(Err(e)),
            (CloneAction::CheckPointer(_), _) => CloneAction::CreateTask,
            (CloneAction::WriteTid { tid, .. }, _) => self.plan.next_announced(tid),
            (CloneAction::CopyMemory(tid), _) => CloneAction::Spawn(tid),
            (action, _) => action,
        };
    }
}

impl ClonePlan {
    fn next_numbered(&self, tid: Pid) -> (r: CloneAction)
        ensures
            r == self.numbered(tid),
    {
        match self.write_tid {
            Some(addr) => CloneAction::WriteTid { tid, addr },
            None => self.next_announced(tid),
        }
    }

    fn next_announced(&self, tid: Pid) -> (r: CloneAction)
        ensures
            r == self.announced(tid),
    {
        match self.process {
            Some(process) => if process.sibling {
                CloneAction::FindParent(tid)
            } else {
                self.next_parented(tid)
            },
            None => CloneAction::Spawn(tid),
        }
    }

    fn next_parented(&self, tid: Pid) -> (r: CloneAction)
        ensures
            r == self.parented(tid),
    {
        match self.process {
            Some(process) => if process.share_memory {
                CloneAction::Spawn(tid)
            } else {
                CloneAction::CopyMemory(tid)
            },
            None => CloneAction::Spawn(tid),
        }
    }
}

/// Begins to create a thread or a process. The low byte of the flags is the
/// signal that the parent is sent when the new process exits.
///
/// The number of the new task is written at `ptid` for the parent, and at `ctid`
/// for the child.
pub fn sys_clone(flags: u32, stack: usize, ptid: usize, ctid: usize, tls: usize) -> (r: Result<
    CloneCall,
    LinuxError,
>)
    ensures
        match r {
            Err(e) => e == LinuxError::EINVAL && contradictory(flags),
            Ok(call) => {
                &&& !contradictory(flags)
                &&& call.spec_plan() == clone_plan(flags, stack, ptid, ctid, tls)
                &&& call.spec_action() == call.spec_plan().first()
            },
        },
{
    let exit_signal: u32 = flags & 0xff;
    let clone_flags = CloneFlags::from_bits_truncate(flags & !0xffu32);
    proof {
        lemma_asked_flags();
        lemma_known_flags(flags, CLONE_THREAD | CLONE_PARENT);
        lemma_known_flags(flags, CLONE_VM | CLONE_SIGHAND);
        lemma_known_flags(flags, CLONE_THREAD);
        lemma_known_flags(flags, CLONE_PARENT);
        lemma_known_flags(flags, CLONE_VM);
        lemma_known_flags(flags, CLONE_SIGHAND);
        lemma_known_flags(flags, CLONE_FILES);
        lemma_known_flags(flags, CLONE_FS);
        lemma_known_flags(flags, CLONE_SETTLS);
        lemma_known_flags(flags, CLONE_CHILD_SETTID);
        lemma_known_flags(flags, CLONE_PARENT_SETTID);
        lemma_known_flags(flags, CLONE_CHILD_CLEARTID);
        lemma_known_flags(flags, CLONE_VFORK);
    }
    if exit_signal != 0 && clone_flags.contains(CLONE_THREAD | CLONE_PARENT) {
        return Err(LinuxError::EINVAL);
    }
    if clone_flags.contains(CLONE_THREAD) && !clone_flags.contains(CLONE_VM | CLONE_SIGHAND) {
        return Err(LinuxError::EINVAL);
    }
    let exit_signal = signo_from_repr(exit_signal as u8);
    let stack: Option<usize> = if stack != 0 {
        Some(stack)
    } else {
        None
    };
    let check: Option<usize> = if clone_flags.contains(CLONE_CHILD_SETTID) {
        Some(ctid)
    } else {
        None
    };
    let child_tid: Option<usize> = if ctid != 0 {
        check
    } else {
        None
    };
    let thread_pointer = if clone_flags.contains(CLONE_SETTLS) {
        ThreadPointer::Given(tls)
    } else {
        ThreadPointer::Inherited
    };
    let write_tid: Option<usize> = if clone_flags.contains(CLONE_PARENT_SETTID) {
        Some(ptid)
    } else {
        None
    };
    let clear_tid: Option<usize> = if clone_flags.contains(CLONE_CHILD_CLEARTID) {
        Some(ctid)
    } else {
        None
    };
    let process: Option<ProcessPlan> = if clone_flags.contains(CLONE_THREAD) {
        None
    } else {
        Some(
            ProcessPlan {
                sibling: clone_flags.contains(CLONE_PARENT),
                share_memory: clone_flags.contains(CLONE_VM),
                share_actions: clone_flags.contains(CLONE_SIGHAND),
                share_files: clone_flags.contains(CLONE_FILES),
                share_fs: clone_flags.contains(CLONE_FS),
                exit_signal,
            },
        )
    };
    let plan = ClonePlan {
        stack,
        check,
        child_tid,
        thread_pointer,
        write_tid,
        clear_tid,
        suspend: clone_flags.contains(CLONE_VFORK),
        process,
    };
    let action = match plan.check {
        Some(addr) => CloneAction::CheckPointer(addr),
        None => CloneAction::CreateTask,
    };
    Ok(CloneCall { plan, action })
}

/// Begins to create a process that shares nothing with the calling one and
/// sends `SIGCHLD` when it exits.
pub fn sys_fork() -> (r: Result<CloneCall, LinuxError>)
    ensures
        r matches Ok(call) && call.spec_action() is CreateTask && call.spec_plan() == (ClonePlan {
            stack: None,
            check: None,
            child_tid: None,
            thread_pointer: ThreadPointer::Inherited,
            write_tid: None,
            clear_tid: None,
            suspend: false,
            process: Some(
                ProcessPlan {
                    sibling: false,
                    share_memory: false,
                    share_actions: false,
                    share_files: false,
                    share_fs: false,
                    exit_signal: Some(SIGCHLD),
                },
            ),
        }),
{
    proof {
        lemma_fork_flags();
    }
    sys_clone(SIGCHLD, 0, 0, 0, 0)
}

/// `SIGCHLD` alone sets no flag.
proof fn lemma_fork_flags()
    by (bit_vector)
    ensures
        17u32 & 0xff == 17u32,
        17u32 as u8 == 17u8,
        17u32 & 0x100u32 == 0,
        17u32 & 0x200u32 == 0,
        17u32 & 0x400u32 == 0,
        17u32 & 0x800u32 == 0,
        17u32 & 0x4000u32 == 0,
        17u32 & 0x8000u32 == 0,
        17u32 & 0x1_0000u32 == 0,
        17u32 & 0x8_0000u32 == 0,
        17u32 & 0x10_0000u32 == 0,
        17u32 & 0x20_0000u32 == 0,
        17u32 & 0x100_0000u32 == 0,
        17u32 & (0x1_0000u32 | 0x8000u32) == 0,
        0x1_0000u32 | 0x8000u32 != 0,
{
}

impl ClonePlan {
    /// The registers that the new task begins with, where `tf` are those of the
    /// calling task: it has its own stack if it is given one, and the call
    /// returns zero to it.
    pub open spec fn child_frame<R>(self, tf: TrapFrame<R>) -> TrapFrame<R> {
        TrapFrame {
            sp: match self.stack {
                Some(stack) => stack,
                None => tf.sp,
            },
            retval: 0,
            ..tf
        }
    }

    /// Returns the registers that the new task begins with, where `tf` are those
    /// of the calling task.
    pub fn child_registers<R>(&self, tf: TrapFrame<R>) -> (r: TrapFrame<R>)
        ensures
            r == self.child_frame(tf),
            r.retval == 0,
            r.sp == match self.stack {
                Some(stack) => stack,
                None => tf.sp,
            },
    {
        let mut r = tf;
        if let Some(stack) = self.stack {
            r.sp = stack;
        }
        r.retval = 0;
        r
    }
}

/// What a process works with, each by the number that names it: two processes
/// with the same number share the thing.
#[derive(Debug, Clone, Copy, PartialEq, Eq, Structural)]
pub struct ProcessTables {
    /// The memory.
    pub memory: u64,
    /// The table of signal actions.
    pub actions: u64,
    /// The file table.
    pub files: u64,
    /// The current directory.
    pub fs: u64,
}

impl ProcessPlan {
    /// What the new process works with, where `caller` is what the calling
    /// process works with, and `own` what is made for the new one.
    pub open spec fn tables_of(self, caller: ProcessTables, own: ProcessTables) -> ProcessTables {
        let pick = |shared: bool, theirs: u64, own: u64|
            if shared {
                theirs
            } else {
                own
            };
        ProcessTables {
            memory: pick(self.share_memory, caller.memory, own.memory),
            actions: pick(self.share_actions, caller.actions, own.actions),
            files: pick(self.share_files, caller.files, own.files),
            fs: pick(self.share_fs, caller.fs, own.fs),
        }
    }

    /// Returns what the new process works with, where `caller` is what the
    /// calling process works with, and `own` what is made for the new one.
    pub fn tables(&self, caller: ProcessTables, own: ProcessTables) -> (r: ProcessTables)
        ensures
            r == self.tables_of(caller, own),
    {
        let mut r = own;
        if self.share_memory {
            r.memory = caller.memory;
        }
        if self.share_actions {
            r.actions = caller.actions;
        }
        if self.share_files {
            r.files = caller.files;
        }
        if self.share_fs {
            r.fs = caller.fs;
        }
        r
    }
}

/// The tables of signal actions, each under its number.
pub type ActionTables = Map<u64, Map<u32, SignalAction>>;

/// The tables after a process with the table `table` has set the action of a
/// signal.
pub open spec fn action_set(
    all: ActionTables,
    table: u64,
    n: u32,
    action: SignalAction,
) -> ActionTables {
    all.insert(table, all[table].insert(n, action))
}

/// A process that is created with `CLONE_SIGHAND` shares the table of signal
/// handlers of the calling process: an action that is set in the one is the action
/// in the other.
pub proof fn law_sighand_shares_the_callers_actions(
    flags: u32,
    stack: usize,
    ptid: usize,
    ctid: usize,
    tls: usize,
    caller: ProcessTables,
    own: ProcessTables,
    all: ActionTables,
    n: u32,
    action: SignalAction,
)
    requires
        has_flags(flags, CLONE_SIGHAND),
        !has_flags(flags, CLONE_THREAD),
    ensures
        ({
            let child = clone_plan(flags, stack, ptid, ctid, tls).process->0.tables_of(caller, own);
            &&& action_set(all, caller.actions, n, action)[child.actions][n] == action
            &&& action_set(all, child.actions, n, action)[caller.actions][n] == action
            &&& action_set(all, caller.actions, n, action) == action_set(
                all,
                child.actions,
                n,
                action,
            )
        }),
{
}

/// What the world answers to the actions of a call.
pub struct CloneAnswers {
    pub pointer: Result<(), LinuxError>,
    pub id: u64,
    pub write: Result<(), LinuxError>,
    pub parent: bool,
    pub memory: Result<(), LinuxError>,
}

impl CloneAnswers {
    /// What comes of an action.
    pub open spec fn event(self, action: CloneAction) -> CloneEvent {
        match action {
            CloneAction::CheckPointer(_) => CloneEvent::Checked(self.pointer),
            CloneAction::CreateTask => CloneEvent::Created(self.id),
            CloneAction::WriteTid { .. } => CloneEvent::Checked(self.write),
            CloneAction::FindParent(_) => CloneEvent::Parent(self.parent),
            CloneAction::CopyMemory(_) => CloneEvent::Checked(self.memory),
            CloneAction::AwaitRelease(_) => CloneEvent::Released,
            _ => CloneEvent::Spawned,
        }
    }
}

/// What is done next after `n` actions have been answered.
pub open spec fn clone_run(
    plan: ClonePlan,
    action: CloneAction,
    answers: CloneAnswers,
    n: nat,
) -> CloneAction
    decreases n,
{
    if n == 0 || action is Return {
        action
    } else {
        clone_run(plan, plan.after(action, answers.event(action)), answers, (n - 1) as nat)
    }
}

/// What a call returns: the first error in the order in which things are done,
/// or the number of the new task.
pub open spec fn clone_result(plan: ClonePlan, answers: CloneAnswers) -> Result<isize, LinuxError> {
    if plan.check is Some && answers.pointer is Err {
        Err(answers.pointer->Err_0)
    } else if plan.write_tid is Some && answers.write is Err {
        Err(answers.write->Err_0)
    } else if plan.process is Some && plan.process->0.sibling && !answers.parent {
        Err(LinuxError::EINVAL)
    } else if plan.process is Some && !plan.process->0.share_memory && answers.memory is Err {
        Err(answers.memory->Err_0)
    } else {
        Ok(answers.id as Pid as isize)
    }
}

/// Whatever the world answers, a call comes to its end, and returns the first
/// error or the number of the new task.
pub proof fn law_clone_ends(plan: ClonePlan, answers: CloneAnswers)
    ensures
        clone_run(plan, plan.first(), answers, 7) == CloneAction::Return(
            clone_result(plan, answers),
        ),
{
    reveal_with_fuel(clone_run, 8);
}

/// A thread always shares the memory and the signal actions of its process: a
/// call that asks for a thread without them is refused.
pub proof fn law_threads_share(flags: u32, stack: usize, ptid: usize, ctid: usize, tls: usize)
    requires
        !contradictory(flags),
        clone_plan(flags, stack, ptid, ctid, tls).process is None,
    ensures
        has_flags(flags, CLONE_VM),
        has_flags(flags, CLONE_SIGHAND),
{
    assert(flags & (0x100u32 | 0x800u32) == 0x100u32 | 0x800u32 ==> flags & 0x100 == 0x100u32
        && flags & 0x800 == 0x800u32) by (bit_vector);
}

/// Each part of what is created depends on its own argument and its own flag, and on no
/// other flag: whether the number is written for the child and where, whether it is written
/// for the parent and where, whether it is cleared on exit and where, where the thread
/// pointer comes from, whether the caller waits, and, for a process, who its parent is and
/// what it shares. A call asks for a thread or for a process by `CLONE_THREAD` alone.
pub proof fn law_each_flag_has_its_part(
    flags: u32,
    stack: usize,
    ptid: usize,
    ctid: usize,
    tls: usize,
)
    ensures
        ({
            let plan = clone_plan(flags, stack, ptid, ctid, tls);
            let signal = flags & 0xff;
            &&& plan.stack is Some <==> stack != 0
            &&& plan.stack is Some ==> plan.stack->0 == stack
            &&& plan.check is Some <==> flags & 0x100_0000 == 0x100_0000u32
            &&& plan.check is Some ==> plan.check->0 == ctid
            &&& plan.child_tid is Some <==> flags & 0x100_0000 == 0x100_0000u32 && ctid != 0
            &&& plan.child_tid is Some ==> plan.child_tid->0 == ctid
            &&& plan.thread_pointer is Given <==> flags & 0x8_0000 == 0x8_0000u32
            &&& plan.thread_pointer is Given ==> plan.thread_pointer->Given_0 == tls
            &&& plan.write_tid is Some <==> flags & 0x10_0000 == 0x10_0000u32
            &&& plan.write_tid is Some ==> plan.write_tid->0 == ptid
            &&& plan.clear_tid is Some <==> flags & 0x20_0000 == 0x20_0000u32
            &&& plan.clear_tid is Some ==> plan.clear_tid->0 == ctid
            &&& plan.suspend <==> flags & 0x4000 == 0x4000u32
            &&& plan.process is None <==> flags & 0x1_0000 == 0x1_0000u32
            &&& plan.process matches Some(process) ==> {
                &&& process.sibling <==> flags & 0x8000 == 0x8000u32
                &&& process.share_memory <==> flags & 0x100 == 0x100u32
                &&& process.share_actions <==> flags & 0x800 == 0x800u32
                &&& process.share_files <==> flags & 0x400 == 0x400u32
                &&& process.share_fs <==> flags & 0x200 == 0x200u32
                &&& process.exit_signal is Some <==> 1 <= signal <= 64
                &&& process.exit_signal is Some ==> process.exit_signal->0 == signal
            }
        }),
{
    assert((flags & 0xff) as u8 as u32 == flags & 0xff) by (bit_vector);
}

/// A call is refused exactly where it asks for a thread that does not share both memory
/// and signal handlers, or for a thread with the parent of the caller and a signal on exit.
pub proof fn law_what_clone_refuses(flags: u32)
    ensures
        contradictory(flags) <==> flags & 0x1_0000 == 0x1_0000u32 && (flags & 0x100 != 0x100u32
            || flags & 0x800 != 0x800u32 || (flags & 0x8000 == 0x8000u32 && flags & 0xff != 0)),
{
    assert(flags & (0x1_0000u32 | 0x8000u32) == 0x1_0000u32 | 0x8000u32 <==> flags & 0x1_0000
        == 0x1_0000u32 && flags & 0x8000 == 0x8000u32) by (bit_vector);
    assert(flags & (0x100u32 | 0x800u32) == 0x100u32 | 0x800u32 <==> flags & 0x100 == 0x100u32
        && flags & 0x800 == 0x800u32) by (bit_vector);
}

/// A task that was created with `CLONE_CHILD_CLEARTID` clears its number where it was
/// asked to when it exits, and wakes those who wait there, before it leaves its process,
/// whatever the other flags are. Without that flag it does neither.
pub proof fn law_clear_tid_on_exit(
    flags: u32,
    stack: usize,
    ptid: usize,
    ctid: usize,
    tls: usize,
    exit_code: i32,
    group_exit: bool,
)
    ensures
        ({
            let plan = clone_plan(flags, stack, ptid, ctid, tls);
            let clear_child_tid = match plan.clear_tid {
                Some(addr) => addr,
                None => 0,
            };
            let done = (ExitCall { exit_code, group_exit, clear_child_tid }).leaving();
            if flags & 0x20_0000 == 0x20_0000u32 && ctid != 0 {
                &&& done.len() == 3
                &&& done[0] == ExitAction::ClearTid(ctid)
                &&& done[1] == ExitAction::WakeFutex(ctid)
                &&& done[2] == ExitAction::ExitThread(exit_code)
            } else {
                &&& done.len() == 1
                &&& done[0] == ExitAction::ExitThread(exit_code)
            }
        }),
{
}

/// A task is created step by step, and no step comes that no flag asks for: the pointer
/// for the child is checked, the task is created, its number is written for the parent,
/// the parent of the caller is looked up for a sibling, the memory is copied for a process
/// that does not share it, the task runs, and with `CLONE_VFORK` the caller waits for it.
/// Then the call returns the number of the task. The first error ends the call, and then
/// the task does not run.
pub proof fn law_clone_steps(
    flags: u32,
    stack: usize,
    ptid: usize,
    ctid: usize,
    tls: usize,
    answers: CloneAnswers,
)
    ensures
        ({
            let plan = clone_plan(flags, stack, ptid, ctid, tls);
            let step = |n: nat| clone_run(plan, plan.first(), answers, n);
            let tid = answers.id as u32;
            let thread = flags & 0x1_0000 == 0x1_0000u32;
            let checks = flags & 0x100_0000 == 0x100_0000u32;
            let writes = flags & 0x10_0000 == 0x10_0000u32;
            let looks = !thread && flags & 0x8000 == 0x8000u32;
            let copies = !thread && flags & 0x100 != 0x100u32;
            let waits = flags & 0x4000 == 0x4000u32;
            let one = |b: bool|
                if b {
                    1nat
                } else {
                    0nat
                };
            // the numbers of the steps
            let create = one(checks);
            let write = create + 1;
            let look = write + one(writes);
            let copy = look + one(looks);
            let spawn = copy + one(copies);
            let checked = checks ==> answers.pointer is Ok;
            let written = checked && (writes ==> answers.write is Ok);
            let parented = written && (looks ==> answers.parent);
            let copied = parented && (copies ==> answers.memory is Ok);
            &&& checks ==> step(0) == CloneAction::CheckPointer(ctid)
            &&& !checked ==> step(1) == CloneAction::Return(Err(answers.pointer->Err_0))
            &&& checked ==> step(create) is CreateTask
            &&& checked && writes ==> step(write) == (CloneAction::WriteTid { tid, addr: ptid })
            &&& checked && !written ==> step(write + 1) == CloneAction::Return(
                Err(answers.write->Err_0),
            )
            &&& written && looks ==> step(look) == CloneAction::FindParent(tid)
            &&& written && !parented ==> step(look + 1) == CloneAction::Return(
                Err(LinuxError::EINVAL),
            )
            &&& parented && copies ==> step(copy) == CloneAction::CopyMemory(tid)
            &&& parented && !copied ==> step(copy + 1) == CloneAction::Return(
                Err(answers.memory->Err_0),
            )
            &&& copied ==> step(spawn) == CloneAction::Spawn(tid)
            &&& copied && waits ==> step(spawn + 1) == CloneAction::AwaitRelease(tid)
            &&& copied ==> step(spawn + 1 + one(waits)) == CloneAction::Return(Ok(tid as isize))
        }),
{
    reveal_with_fuel(clone_run, 8);
}

/// The new task goes on where the caller does, with the same registers but for two: the
/// call returns zero to it, and where a stack is given it runs on that one.
pub proof fn law_child_goes_on_where_the_caller_does<R>(
    flags: u32,
    stack: usize,
    ptid: usize,
    ctid: usize,
    tls: usize,
    tf: TrapFrame<R>,
)
    ensures
        ({
            let child = clone_plan(flags, stack, ptid, ctid, tls).child_frame(tf);
            &&& child.retval == 0
            &&& stack != 0 ==> child.sp == stack
            &&& stack == 0 ==> child.sp == tf.sp
            &&& child.ip == tf.ip
            &&& child.arg0 == tf.arg0
            &&& child.arg1 == tf.arg1
            &&& child.arg2 == tf.arg2
            &&& child.rest == tf.rest
        }),
{
}

/// A new process shares with the caller what its flags say, each thing by its own flag,
/// and has its own of everything else.
pub proof fn law_process_shares_by_its_flags(
    flags: u32,
    stack: usize,
    ptid: usize,
    ctid: usize,
    tls: usize,
    caller: ProcessTables,
    own: ProcessTables,
)
    requires
        flags & 0x1_0000 != 0x1_0000u32,
    ensures
        ({
            let child = clone_plan(flags, stack, ptid, ctid, tls).process->0.tables_of(caller, own);
            &&& flags & 0x100 == 0x100u32 ==> child.memory == caller.memory
            &&& flags & 0x100 != 0x100u32 ==> child.memory == own.memory
            &&& flags & 0x800 == 0x800u32 ==> child.actions == caller.actions
            &&& flags & 0x800 != 0x800u32 ==> child.actions == own.actions
            &&& flags & 0x400 == 0x400u32 ==> child.files == caller.files
            &&& flags & 0x400 != 0x400u32 ==> child.files == own.files
            &&& flags & 0x200 == 0x200u32 ==> child.fs == caller.fs
            &&& flags & 0x200 != 0x200u32 ==> child.fs == own.fs
        }),
{
}

} // verus!
