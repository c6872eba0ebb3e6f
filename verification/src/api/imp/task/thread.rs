//! The system calls of a task that is its own process.
use crate::api::imp::task::exit::ExitAction;
use crate::errno::LinuxError;
use crate::user::{Outcome, UserRef};
use vstd::prelude::*;

verus! {

/// ARCH_PRCTL codes
#[derive(Debug, Clone, Copy, PartialEq, Eq, Structural)]
pub enum ArchPrctlCode {
    /// Set the GS segment base
    SetGs,
    /// Set the FS segment base
    SetFs,
    /// Get the FS segment base
    GetFs,
    /// Get the GS segment base
    GetGs,
    /// The setting of the flag manipulated by ARCH_SET_CPUID
    GetCpuid,
    /// Enable (addr != 0) or disable (addr == 0) the cpuid instruction for the
    /// calling thread.
    SetCpuid,
}

impl ArchPrctlCode {
    /// The number of a code.
    pub open spec fn number(self) -> i32 {
        match self {
            ArchPrctlCode::SetGs => 0x1001,
            ArchPrctlCode::SetFs => 0x1002,
            ArchPrctlCode::GetFs => 0x1003,
            ArchPrctlCode::GetGs => 0x1004,
            ArchPrctlCode::GetCpuid => 0x1011,
            ArchPrctlCode::SetCpuid => 0x1012,
        }
    }

    /// Returns the code that has the number `code`, if there is one.
    pub fn try_from_number(code: i32) -> (r: Option<ArchPrctlCode>)
        ensures
            match r {
                Some(c) => c.number() == code,
                None => forall|c: ArchPrctlCode| #[trigger] c.number() != code,
            },
    {
        match code {
            0x1001 => Some(ArchPrctlCode::SetGs),
            0x1002 => Some(ArchPrctlCode::SetFs),
            0x1003 => Some(ArchPrctlCode::GetFs),
            0x1004 => Some(ArchPrctlCode::GetGs),
            0x1011 => Some(ArchPrctlCode::GetCpuid),
            0x1012 => Some(ArchPrctlCode::SetCpuid),
            _ => None,
        }
    }
}

/// What a call of [`sys_arch_prctl`] does.
#[derive(Debug, Clone, Copy, PartialEq, Eq, Structural)]
pub enum ArchPrctl {
    /// Sets the thread pointer to the address.
    WriteFs(usize),
    /// Sets the GS segment base to the address.
    WriteGs(usize),
    /// Reports the thread pointer.
    ReadFs,
    /// Reports the GS segment base.
    ReadGs,
    /// Nothing: the call succeeds.
    Nothing,
}

/// What a code asks for.
pub open spec fn arch_prctl(code: ArchPrctlCode, addr: usize) -> Result<ArchPrctl, LinuxError> {
    match code {
        ArchPrctlCode::SetFs => Ok(ArchPrctl::WriteFs(addr)),
        ArchPrctlCode::SetGs => Ok(ArchPrctl::WriteGs(addr)),
        ArchPrctlCode::GetFs => Ok(ArchPrctl::ReadFs),
        ArchPrctlCode::GetGs => Ok(ArchPrctl::ReadGs),
        ArchPrctlCode::GetCpuid => Ok(ArchPrctl::Nothing),
        ArchPrctlCode::SetCpuid => Err(LinuxError::ENODEV),
    }
}

/// What a call of `sys_arch_prctl` comes to.
pub open spec fn arch_prctl_done(
    code: i32,
    addr: usize,
    r: Result<ArchPrctl, LinuxError>,
) -> bool {
    if exists|c: ArchPrctlCode| #[trigger] c.number() == code {
        forall|c: ArchPrctlCode| #[trigger] c.number() == code ==> r == arch_prctl(c, addr)
    } else {
        r == Err::<ArchPrctl, LinuxError>(LinuxError::EINVAL)
    }
}

/// Gets or sets what the architecture keeps for a thread. To set never fails.
pub fn sys_arch_prctl(code: i32, addr: usize) -> (r: Result<ArchPrctl, LinuxError>)
    ensures
        arch_prctl_done(code, addr, r),
{
    match ArchPrctlCode::try_from_number(code) {
        None => Err(LinuxError::EINVAL),
        Some(c) => match c {
            ArchPrctlCode::SetFs => Ok(ArchPrctl::WriteFs(addr)),
            ArchPrctlCode::SetGs => Ok(ArchPrctl::WriteGs(addr)),
            ArchPrctlCode::GetFs => Ok(ArchPrctl::ReadFs),
            ArchPrctlCode::GetGs => Ok(ArchPrctl::ReadGs),
            ArchPrctlCode::GetCpuid => Ok(ArchPrctl::Nothing),
            ArchPrctlCode::SetCpuid => Err(LinuxError::ENODEV),
        },
    }
}

/// Reports a value to the memory that a pointer names.
pub fn report_value(value: u64, ptr: Result<(), LinuxError>) -> (r: Outcome<u64>)
    ensures
        match ptr {
            Err(e) => r.written is None && r.result == Err::<isize, LinuxError>(e),
            Ok(_) => r.written == Some(value) && r.result == Ok::<isize, LinuxError>(0),
        },
{
    match ptr {
        Err(e) => Outcome { written: None, result: Err(e) },
        Ok(_) => Outcome { written: Some(value), result: Ok(0) },
    }
}

/// Returns the number of the calling process.
pub fn sys_getpid(proc_id: u64) -> (r: Result<isize, LinuxError>)
    ensures
        r == Ok::<isize, LinuxError>(proc_id as isize),
{
    Ok(proc_id as isize)
}

/// Returns the number of the parent of the calling process.
pub fn sys_getppid(parent: u64) -> (r: Result<isize, LinuxError>)
    ensures
        r == Ok::<isize, LinuxError>(parent as isize),
{
    Ok(parent as isize)
}

/// Ends the calling task with the code `status`: zero is written at the address
/// that it left for that, if any.
pub fn sys_exit(status: i32, clear_child_tid: usize) -> (r: Vec<ExitAction>)
    ensures
        r@ == if clear_child_tid != 0 {
            seq![ExitAction::ClearTid(clear_child_tid), ExitAction::ExitTask(status)]
        } else {
            seq![ExitAction::ExitTask(status)]
        },
{
    let mut actions: Vec<ExitAction> = Vec::new();
    if clear_child_tid != 0 {
        actions.push(ExitAction::ClearTid(clear_child_tid));
    }
    actions.push(ExitAction::ExitTask(status));
    assert(clear_child_tid == 0 ==> actions@ =~= seq![ExitAction::ExitTask(status)]);
    assert(clear_child_tid != 0 ==> actions@ =~= seq![
        ExitAction::ClearTid(clear_child_tid),
        ExitAction::ExitTask(status),
    ]);
    actions
}

/// Ends the calling task with the code `status`.
pub fn sys_exit_group(status: i32) -> (r: Vec<ExitAction>)
    ensures
        r@ == seq![ExitAction::ExitTask(status)],
{
    let mut actions: Vec<ExitAction> = Vec::new();
    actions.push(ExitAction::ExitTask(status));
    assert(actions@ =~= seq![ExitAction::ExitTask(status)]);
    actions
}

/// To set the clear_child_tid field in the task extended data.
///
/// The set_tid_address() always succeeds, and returns the number of the task.
pub fn sys_set_tid_address(clear_child_tid: &mut usize, tid_ptr: usize, id: u64) -> (r: Result<
    isize,
    LinuxError,
>)
    ensures
        *final(clear_child_tid) == tid_ptr,
        r == Ok::<isize, LinuxError>(id as isize),
{
    *clear_child_tid = tid_ptr;
    Ok(id as isize)
}

/// What is asked of a task that clones itself.
#[derive(Debug, Clone, Copy, PartialEq, Eq, Structural)]
pub struct CloneRequest {
    /// The flags, without those of the lowest six bits.
    pub flags: u32,
    /// The stack of the new task, where it is not that of the calling task.
    pub stack: Option<usize>,
    pub ptid: usize,
    pub tls: usize,
    pub ctid: usize,
}

/// What a call asks of the task.
pub open spec fn clone_asked(
    flags: usize,
    user_stack: usize,
    ptid: usize,
    arg3: usize,
    arg4: usize,
) -> CloneRequest {
    CloneRequest {
        flags: (flags & !0x3fusize) as u32,
        stack: if user_stack == 0 {
            None
        } else {
            Some(user_stack)
        },
        ptid,
        tls: arg3,
        ctid: arg4,
    }
}

/// Returns what a call asks of the task: the fourth argument is the thread
/// pointer, the fifth the address for the number of the child.
pub fn clone_request(
    flags: usize,
    user_stack: usize,
    ptid: usize,
    arg3: usize,
    arg4: usize,
) -> (r: CloneRequest)
    ensures
        r == clone_asked(flags, user_stack, ptid, arg3, arg4),
{
    let stack: Option<usize> = if user_stack == 0 {
        None
    } else {
        Some(user_stack)
    };
    CloneRequest { flags: (flags & !0x3fusize) as u32, stack, ptid, tls: arg3, ctid: arg4 }
}

/// Returns the number of the new task, if it could be created.
pub fn sys_clone(new_task_id: Option<u64>) -> (r: Result<isize, LinuxError>)
    ensures
        r == match new_task_id {
            Some(id) => Ok(id as isize),
            None => Err(LinuxError::ENOMEM),
        },
{
    match new_task_id {
        Some(id) => Ok(id as isize),
        None => Err(LinuxError::ENOMEM),
    }
}

/// Do not wait if no child has ended.
pub const WNOHANG: u32 = 1;

/// The options that a wait may have.
pub const WAIT_FLAGS: u32 = 0xc000_000b;

/// The options of a wait.
#[derive(Debug, Clone, Copy, PartialEq, Eq, Structural)]
pub struct WaitFlags {
    pub bits: u32,
}

impl WaitFlags {
    /// Returns the options, if all of them are known.
    pub fn from_bits(bits: u32) -> (r: Option<WaitFlags>)
        ensures
            r == if bits & !WAIT_FLAGS == 0 {
                Some(WaitFlags { bits })
            } else {
                None
            },
    {
        if bits & !WAIT_FLAGS == 0 {
            Some(WaitFlags { bits })
        } else {
            None
        }
    }

    /// Whether an option is given.
    pub fn contains(&self, flag: u32) -> (r: bool)
        ensures
            r == (self.bits & flag == flag),
    {
        self.bits & flag == flag
    }
}

/// Why no child is reported.
#[derive(Debug, Clone, Copy, PartialEq, Eq, Structural)]
pub enum WaitError {
    /// There is no such child.
    NotFound,
    /// The child has not ended.
    Running,
}

/// What a call that waits does next.
#[derive(Debug)]
pub enum Wait4Step {
    /// It lets others run and looks again.
    Yield,
    /// It returns, and reports an exit code where one is written.
    Return(Outcome<i32>),
}

/// What a look at the children comes to in `sys_wait4`.
pub open spec fn wait4_done(
    answer: Result<(u64, i32), WaitError>,
    exit_code: UserRef<()>,
    options: u32,
    r: Wait4Step,
) -> bool {
    match answer {
        Ok((pid, code)) => r matches Wait4Step::Return(out) && match exit_code {
            UserRef::Invalid(e) => out.written is None && out.result == Err::<isize, LinuxError>(e),
            UserRef::Null => out.written is None && out.result == Ok::<isize, LinuxError>(
                pid as isize,
            ),
            UserRef::Valid(_) => out.written == Some(code << 8) && out.result == Ok::<
                isize,
                LinuxError,
            >(pid as isize),
        },
        Err(WaitError::NotFound) => r matches Wait4Step::Return(out) && out.written is None
            && out.result == Err::<isize, LinuxError>(LinuxError::ECHILD),
        Err(WaitError::Running) => if options & WNOHANG == WNOHANG {
            r matches Wait4Step::Return(out) && out.written is None && out.result == Ok::<
                isize,
                LinuxError,
            >(0)
        } else {
            r is Yield
        },
    }
}

/// Looks at the children: `answer` is the number of a child that has ended and
/// the code that it ended with. The code is reported in the second byte of its
/// status.
pub fn sys_wait4(
    answer: Result<(u64, i32), WaitError>,
    exit_code: UserRef<()>,
    options: WaitFlags,
) -> (r: Wait4Step)
    ensures
        wait4_done(answer, exit_code, options.bits, r),
{
    match answer {
        Ok((pid, code)) => match exit_code {
            UserRef::Invalid(e) => Wait4Step::Return(Outcome { written: None, result: Err(e) }),
            UserRef::Null => Wait4Step::Return(Outcome { written: None, result: Ok(pid as isize) }),
            UserRef::Valid(_) => Wait4Step::Return(
                Outcome { written: Some(code << 8), result: Ok(pid as isize) },
            ),
        },
        Err(status) => match status {
            WaitError::NotFound => Wait4Step::Return(
                Outcome { written: None, result: Err(LinuxError::ECHILD) },
            ),
            WaitError::Running => if options.contains(WNOHANG) {
                Wait4Step::Return(Outcome { written: None, result: Ok(0) })
            } else {
                Wait4Step::Yield
            },
        },
    }
}

/// Strings that were read from user memory, each of them or the list as a whole
/// with an error.
pub type UserStrings = Result<Vec<Result<String, LinuxError>>, LinuxError>;

/// A program to be run.
#[derive(Debug)]
pub struct ExecRequest {
    pub path: String,
    pub args: Vec<String>,
    pub envs: Vec<String>,
}

/// The strings of a list that has no error.
pub open spec fn strings(list: Seq<Result<String, LinuxError>>) -> Seq<String> {
    list.map_values(|s: Result<String, LinuxError>| s->Ok_0)
}

/// Whether the item at `k` is the first with an error, and the error is `e`.
pub open spec fn first_failure(
    list: Seq<Result<String, LinuxError>>,
    k: int,
    e: LinuxError,
) -> bool {
    &&& 0 <= k < list.len()
    &&& list[k] == Err::<String, LinuxError>(e)
    &&& forall|j: int| 0 <= j < k ==> (#[trigger] list[j]) is Ok
}

/// Whether reading a list fails with `e`.
pub open spec fn list_fails(list: UserStrings, e: LinuxError) -> bool {
    match list {
        Err(f) => e == f,
        Ok(items) => exists|k: int| #[trigger] first_failure(items@, k, e),
    }
}

/// Whether reading a list gives `strs`.
pub open spec fn list_gives(list: UserStrings, strs: Seq<String>) -> bool {
    list matches Ok(items) && strs == strings(items@) && forall|k: int|
        0 <= k < items@.len() ==> (#[trigger] items@[k]) is Ok
}

/// Returns the strings of a list, or its first error.
fn collect_strings(list: UserStrings) -> (r: Result<Vec<String>, LinuxError>)
    ensures
        match r {
            Err(e) => list_fails(list, e),
            Ok(strs) => list_gives(list, strs@),
        },
{
    let items = match list {
        Err(e) => {
            return Err(e);
        },
        Ok(items) => items,
    };
    let ghost all = items@;
    let mut rest = items;
    let mut strs: Vec<String> = Vec::new();
    while rest.len() > 0
        invariant
            list matches Ok(items) && items@ == all,
            strs@.len() + rest@.len() == all.len(),
            rest@ == all.skip(strs@.len() as int),
            forall|j: int|
                0 <= j < strs@.len() ==> (#[trigger] all[j]) is Ok && strs@[j] == all[j]->Ok_0,
        decreases rest@.len(),
    {
        let ghost k = strs@.len() as int;
        match rest.remove(0) {
            Ok(s) => {
                strs.push(s);
                assert(rest@ =~= all.skip(k + 1));
            },
            Err(e) => {
                assert(first_failure(all, k, e));
                return Err(e);
            },
        }
    }
    assert(strs@ =~= strings(all));
    Ok(strs)
}

/// Returns the program that a caller asks for, or the first error in reading
/// its path, its arguments and its environment.
pub fn exec_request(
    path: Result<String, LinuxError>,
    argv: UserStrings,
    envp: UserStrings,
) -> (r: Result<ExecRequest, LinuxError>)
    ensures
        match r {
            Err(e) => {
                ||| path == Err::<String, LinuxError>(e)
                ||| path is Ok && list_fails(argv, e)
                ||| path is Ok && (exists|args: Seq<String>| #[trigger] list_gives(argv, args))
                    && list_fails(envp, e)
            },
            Ok(request) => {
                &&& path == Ok::<String, LinuxError>(request.path)
                &&& list_gives(argv, request.args@)
                &&& list_gives(envp, request.envs@)
            },
        },
{
    match path {
        Err(e) => Err(e),
        Ok(path) => match collect_strings(argv) {
            Err(e) => Err(e),
            Ok(args) => match collect_strings(envp) {
                Err(e) => {
                    assert(list_gives(argv, args@));
                    Err(e)
                },
                Ok(envs) => Ok(ExecRequest { path, args, envs }),
            },
        },
    }
}

/// Returns what a call returns that could not run its program. One that could
/// does not return.
pub fn sys_execve() -> (r: Result<isize, LinuxError>)
    ensures
        r == Err::<isize, LinuxError>(LinuxError::ENOSYS),
{
    Err(LinuxError::ENOSYS)
}

/// What each number asks of the architecture: 0x1001 sets the base of GS and 0x1002 that
/// of FS, to the address; 0x1003 and 0x1004 report that of FS and of GS; 0x1011 does
/// nothing, 0x1012 cannot be done, and any other number is none.
pub proof fn law_arch_prctl_numbers(code: i32, addr: usize, r: Result<ArchPrctl, LinuxError>)
    requires
        arch_prctl_done(code, addr, r),
    ensures
        code == 0x1001 ==> r == Ok::<ArchPrctl, LinuxError>(ArchPrctl::WriteGs(addr)),
        code == 0x1002 ==> r == Ok::<ArchPrctl, LinuxError>(ArchPrctl::WriteFs(addr)),
        code == 0x1003 ==> r == Ok::<ArchPrctl, LinuxError>(ArchPrctl::ReadFs),
        code == 0x1004 ==> r == Ok::<ArchPrctl, LinuxError>(ArchPrctl::ReadGs),
        code == 0x1011 ==> r == Ok::<ArchPrctl, LinuxError>(ArchPrctl::Nothing),
        code == 0x1012 ==> r == Err::<ArchPrctl, LinuxError>(LinuxError::ENODEV),
        !(0x1001 <= code <= 0x1004) && code != 0x1011 && code != 0x1012 ==> r == Err::<
            ArchPrctl,
            LinuxError,
        >(LinuxError::EINVAL),
{
    assert(ArchPrctlCode::SetGs.number() == 0x1001);
    assert(ArchPrctlCode::SetFs.number() == 0x1002);
    assert(ArchPrctlCode::GetFs.number() == 0x1003);
    assert(ArchPrctlCode::GetGs.number() == 0x1004);
    assert(ArchPrctlCode::GetCpuid.number() == 0x1011);
    assert(ArchPrctlCode::SetCpuid.number() == 0x1012);
}

/// What a task is asked for when it clones itself: each argument is passed on as it is, but
/// that of the flags the lowest six bits are taken off, and that a stack of zero is none.
pub proof fn law_clone_request_passes_on(
    flags: usize,
    user_stack: usize,
    ptid: usize,
    arg3: usize,
    arg4: usize,
)
    requires
        flags <= u32::MAX,
    ensures
        ({
            let request = clone_asked(flags, user_stack, ptid, arg3, arg4);
            &&& request.flags == flags - flags % 64
            &&& request.stack is Some <==> user_stack != 0
            &&& request.stack is Some ==> request.stack->0 == user_stack
            &&& request.ptid == ptid
            &&& request.tls == arg3
            &&& request.ctid == arg4
        }),
{
    let low = flags as u32;
    assert(low & !0x3fu32 == low - low % 64) by (bit_vector);
    assert((flags & !0x3fusize) as u32 == (flags as u32) & !0x3fu32) by (bit_vector);
}

/// A wait for a child returns the number of a child that has ended, and reports the code
/// that it ended with in the second byte. Without a child there is nothing to wait for.
/// While none has ended, the call returns zero with `WNOHANG` and goes on to wait without.
pub proof fn law_wait4_reports_the_child(
    answer: Result<(u64, i32), WaitError>,
    exit_code: UserRef<()>,
    options: u32,
    r: Wait4Step,
)
    requires
        wait4_done(answer, exit_code, options, r),
    ensures
        r is Yield <==> answer == Err::<(u64, i32), WaitError>(WaitError::Running) && options & 1
            != 1u32,
        r matches Wait4Step::Return(out) ==> {
            &&& answer is Ok && !(exit_code is Invalid) ==> out.result == Ok::<isize, LinuxError>(
                answer->Ok_0.0 as isize,
            )
            &&& answer is Ok && exit_code is Invalid ==> out.written is None && out.result
                == Err::<isize, LinuxError>(exit_code->Invalid_0)
            &&& out.written is Some <==> answer is Ok && exit_code is Valid
            &&& out.written is Some && 0 <= answer->Ok_0.1 < 256 ==> out.written->0
                == answer->Ok_0.1 * 256
            &&& answer == Err::<(u64, i32), WaitError>(WaitError::NotFound) ==> out.result
                == Err::<isize, LinuxError>(LinuxError::ECHILD)
            &&& answer == Err::<(u64, i32), WaitError>(WaitError::Running) ==> out.result == Ok::<
                isize,
                LinuxError,
            >(0)
        },
{
    if answer is Ok {
        let code = answer->Ok_0.1;
        assert(0 <= code && code < 256i32 ==> code << 8 == code * 256) by (bit_vector);
    }
}

/// A list that has an error has a first one.
proof fn lemma_first_failure(list: Seq<Result<String, LinuxError>>, k: int)
    requires
        0 <= k < list.len(),
        list[k] is Err,
    ensures
        exists|j: int, e: LinuxError| #[trigger] first_failure(list, j, e),
    decreases k,
{
    if exists|i: int| 0 <= i < k && (#[trigger] list[i]) is Err {
        let i = choose|i: int| 0 <= i < k && (#[trigger] list[i]) is Err;
        lemma_first_failure(list, i);
    } else {
        assert forall|i: int| 0 <= i < k implies (#[trigger] list[i]) is Ok by {}
        assert(first_failure(list, k, list[k]->Err_0));
    }
}

/// A program is run with the arguments that it is given, each of them and in their order;
/// a list that has an error gives none, and then its first error is told. A list either
/// gives its strings or fails.
pub proof fn law_strings_of_a_list(list: UserStrings, strs: Seq<String>, e: LinuxError)
    ensures
        list_gives(list, strs) ==> list is Ok && strs.len() == list->Ok_0@.len() && forall|i: int|
            0 <= i < strs.len() ==> list->Ok_0@[i] == Ok::<String, LinuxError>(#[trigger] strs[i]),
        list_gives(list, strs) ==> !list_fails(list, e),
        (exists|all: Seq<String>| #[trigger] list_gives(list, all)) || (exists|f: LinuxError|
            #[trigger] list_fails(list, f)),
        list is Err ==> (list_fails(list, e) <==> e == list->Err_0),
        list is Ok && list_fails(list, e) ==> exists|k: int|
            {
                &&& 0 <= k < list->Ok_0@.len()
                &&& (#[trigger] list->Ok_0@[k]) == Err::<String, LinuxError>(e)
                &&& forall|j: int| 0 <= j < k ==> (#[trigger] list->Ok_0@[j]) is Ok
            },
{
    match list {
        Err(f) => {
            assert(list_fails(list, f));
        },
        Ok(items) => {
            if forall|k: int| 0 <= k < items@.len() ==> (#[trigger] items@[k]) is Ok {
                assert(list_gives(list, strings(items@)));
            } else {
                let k = choose|k: int| 0 <= k < items@.len() && !((#[trigger] items@[k]) is Ok);
                lemma_first_failure(items@, k);
                let (j, f) = choose|j: int, f: LinuxError| #[trigger] first_failure(items@, j, f);
                assert(list_fails(list, f));
            }
        },
    }
    if list is Ok && list_fails(list, e) {
        let k = choose|k: int| #[trigger] first_failure(list->Ok_0@, k, e);
        assert(list->Ok_0@[k] == Err::<String, LinuxError>(e));
    }
}

} // verus!
