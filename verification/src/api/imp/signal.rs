//! The system calls on signals.
use crate::api::imp::time::Timespec;
use crate::errno::LinuxError;
use crate::signal::ctypes::{
    is_signal, signo_from_repr, SignalAction, SignalActions, SignalInfo, SignalSet, SIGKILL,
    SIGSET_SIZE, SIGSTOP, SI_TKILL, SI_USER,
};
use crate::user::{Outcome, UserRef};
use vstd::prelude::*;

verus! {

/// The number of a process or a thread.
pub type Pid = u32;

/// What the kernel does for a signal that was delivered.
#[derive(Debug, Clone, Copy, PartialEq, Eq, Structural)]
pub enum SignalOSAction {
    /// Terminate the process.
    Terminate,
    /// Generate a core dump and terminate the process.
    CoreDump,
    /// Stop the process.
    Stop,
    /// Continue the process if stopped.
    Continue,
    /// A handler runs: nothing is left to be done.
    Handler,
}

/// What is to be done after the signals of a thread were looked at.
#[derive(Debug, Clone, Copy, PartialEq, Eq, Structural)]
pub enum SignalCheck {
    /// There was no signal.
    Nothing,
    /// A signal was handled.
    Handled,
    /// The process exits with this code, and all of its threads with it.
    Exit(i32),
}

/// What a signal that was delivered asks for.
pub open spec fn signal_check(found: Option<(SignalInfo, SignalOSAction)>) -> SignalCheck {
    match found {
        None => SignalCheck::Nothing,
        Some((sig, SignalOSAction::Terminate)) => SignalCheck::Exit((128 + sig.signo) as i32),
        Some((sig, SignalOSAction::CoreDump)) => SignalCheck::Exit((128 + sig.signo) as i32),
        Some((sig, SignalOSAction::Stop)) => SignalCheck::Exit(1),
        Some((sig, SignalOSAction::Continue)) => SignalCheck::Handled,
        Some((sig, SignalOSAction::Handler)) => SignalCheck::Handled,
    }
}

/// Returns what is to be done for the signal that was delivered to the current
/// thread.
pub fn check_signals(found: Option<(SignalInfo, SignalOSAction)>) -> (r: SignalCheck)
    requires
        found matches Some(f) ==> is_signal(f.0.signo),
    ensures
        r == signal_check(found),
{
    match found {
        None => SignalCheck::Nothing,
        Some((sig, os_action)) => {
            let signo = sig.signo();
            match os_action {
                SignalOSAction::Terminate => SignalCheck::Exit(128 + signo as i32),
                SignalOSAction::CoreDump => SignalCheck::Exit(128 + signo as i32),
                SignalOSAction::Stop => SignalCheck::Exit(1),
                SignalOSAction::Continue => SignalCheck::Handled,
                SignalOSAction::Handler => SignalCheck::Handled,
            }
        },
    }
}

/// Checks the size that the caller gives for a set of signals.
pub fn check_sigset_size(size: usize) -> (r: Result<(), LinuxError>)
    ensures
        r == if size == SIGSET_SIZE {
            Ok::<(), LinuxError>(())
        } else {
            Err(LinuxError::EINVAL)
        },
{
    if size != SIGSET_SIZE {
        return Err(LinuxError::EINVAL);
    }
    Ok(())
}

/// The blocked signals after `how` was applied with `set`, where `how` is known.
pub open spec fn mask_changed(how: i32, blocked: Set<u32>, set: Set<u32>) -> Option<Set<u32>> {
    match how {
        0 => Some(blocked.union(set)),
        1 => Some(blocked.difference(set)),
        2 => Some(set),
        _ => None,
    }
}

/// Where a change of the signal mask stops: with an error, or with the blocked
/// signals after it.
pub open spec fn sigprocmask(
    how: i32,
    blocked: Set<u32>,
    set: UserRef<SignalSet>,
    oldset: UserRef<()>,
    sigsetsize: usize,
) -> Result<Set<u32>, LinuxError> {
    if sigsetsize != SIGSET_SIZE {
        Err(LinuxError::EINVAL)
    } else if let UserRef::Invalid(e) = oldset {
        Err(e)
    } else {
        match set {
            UserRef::Null => Ok(blocked),
            UserRef::Invalid(e) => Err(e),
            UserRef::Valid(set) => match mask_changed(how, blocked, set@) {
                Some(after) => Ok(after),
                None => Err(LinuxError::EINVAL),
            },
        }
    }
}

/// Examines and changes the blocked signals: `how` is 0 to block more signals, 1
/// to block fewer, 2 to set them.
///
/// The signals that were blocked before are reported wherever `oldset` asks
/// for them, even if the call fails later.
pub fn sys_rt_sigprocmask(
    blocked: &mut SignalSet,
    how: i32,
    set: UserRef<SignalSet>,
    oldset: UserRef<()>,
    sigsetsize: usize,
) -> (r: Outcome<SignalSet>)
    ensures
        match sigprocmask(how, old(blocked)@, set, oldset, sigsetsize) {
            Ok(after) => r.result == Ok::<isize, LinuxError>(0) && final(blocked)@ == after,
            Err(e) => r.result == Err::<isize, LinuxError>(e) && final(blocked)@ == old(blocked)@,
        },
        r.written == if sigsetsize == SIGSET_SIZE && oldset is Valid {
            Some(*old(blocked))
        } else {
            None
        },
{
    if let Err(e) = check_sigset_size(sigsetsize) {
        return Outcome { written: None, result: Err(e) };
    }
    let written: Option<SignalSet> = match oldset {
        UserRef::Null => None,
        UserRef::Invalid(e) => {
            return Outcome { written: None, result: Err(e) };
        },
        UserRef::Valid(_) => Some(*blocked),
    };
    match set {
        UserRef::Null => {},
        UserRef::Invalid(e) => {
            return Outcome { written, result: Err(e) };
        },
        UserRef::Valid(set) => match how {
            0 => blocked.add_from(&set),
            1 => blocked.remove_from(&set),
            2 => {
                *blocked = set;
            },
            _ => {
                return Outcome { written, result: Err(LinuxError::EINVAL) };
            },
        },
    }
    Outcome { written, result: Ok(0) }
}

/// The signal whose action may be changed under the number `signo`: its low byte
/// is taken, and neither killing nor stopping can be changed.
pub open spec fn changeable_signal(signo: i32) -> Option<u32> {
    let n = signo as u8 as u32;
    if is_signal(n) && n != SIGKILL && n != SIGSTOP {
        Some(n)
    } else {
        None
    }
}

/// What a call of `sys_rt_sigaction` comes to, where `before` are the actions before it.
pub open spec fn sigaction_done(
    before: Map<u32, SignalAction>,
    signo: i32,
    act: UserRef<SignalAction>,
    oldact: UserRef<()>,
    sigsetsize: usize,
    after: Map<u32, SignalAction>,
    r: Outcome<SignalAction>,
) -> bool {
    match (sigsetsize == SIGSET_SIZE, changeable_signal(signo)) {
        (true, Some(n)) => {
            &&& r.written == if oldact is Valid {
                Some(before[n])
            } else {
                None
            }
            &&& match (oldact, act) {
                (UserRef::Invalid(e), _) => r.result == Err::<isize, LinuxError>(e) && after
                    == before,
                (_, UserRef::Invalid(e)) => r.result == Err::<isize, LinuxError>(e) && after
                    == before,
                (_, UserRef::Null) => r.result == Ok::<isize, LinuxError>(0) && after == before,
                (_, UserRef::Valid(action)) => r.result == Ok::<isize, LinuxError>(0) && after
                    == before.insert(n, action),
            }
        },
        _ => {
            &&& r.written is None
            &&& r.result == Err::<isize, LinuxError>(LinuxError::EINVAL)
            &&& after == before
        },
    }
}

/// Examines and changes the action of a signal.
///
/// The action before is reported wherever `oldact` asks for it, even if the
/// call fails later.
pub fn sys_rt_sigaction(
    actions: &mut SignalActions,
    signo: i32,
    act: UserRef<SignalAction>,
    oldact: UserRef<()>,
    sigsetsize: usize,
) -> (r: Outcome<SignalAction>)
    requires
        old(actions).wf(),
    ensures
        final(actions).wf(),
        sigaction_done(old(actions)@, signo, act, oldact, sigsetsize, final(actions)@, r),
{
    if let Err(e) = check_sigset_size(sigsetsize) {
        return Outcome { written: None, result: Err(e) };
    }
    let n: u32 = match signo_from_repr(signo as u8) {
        Some(n) => n,
        None => {
            return Outcome { written: None, result: Err(LinuxError::EINVAL) };
        },
    };
    if n == SIGKILL || n == SIGSTOP {
        return Outcome { written: None, result: Err(LinuxError::EINVAL) };
    }
    let written: Option<SignalAction> = match oldact {
        UserRef::Null => None,
        UserRef::Invalid(e) => {
            return Outcome { written: None, result: Err(e) };
        },
        UserRef::Valid(_) => Some(actions.get(n)),
    };
    match act {
        UserRef::Null => {},
        UserRef::Invalid(e) => {
            return Outcome { written, result: Err(e) };
        },
        UserRef::Valid(action) => actions.set(n, action),
    }
    Outcome { written, result: Ok(0) }
}

/// Reports the pending signals to the memory that `set` names.
pub fn sys_rt_sigpending(pending: SignalSet, set: Result<(), LinuxError>, sigsetsize: usize) -> (r:
    Outcome<SignalSet>)
    ensures
        match (sigsetsize == SIGSET_SIZE, set) {
            (false, _) => r.written is None && r.result == Err::<isize, LinuxError>(
                LinuxError::EINVAL,
            ),
            (true, Err(e)) => r.written is None && r.result == Err::<isize, LinuxError>(e),
            (true, Ok(_)) => r.written == Some(pending) && r.result == Ok::<isize, LinuxError>(0),
        },
{
    if let Err(e) = check_sigset_size(sigsetsize) {
        return Outcome { written: None, result: Err(e) };
    }
    match set {
        Err(e) => Outcome { written: None, result: Err(e) },
        Ok(_) => Outcome { written: Some(pending), result: Ok(0) },
    }
}

/// What sending a signal asks of a process.
#[derive(Debug, Clone, Copy, PartialEq, Eq, Structural)]
pub struct ProcessRef {
    pub pid: Pid,
    /// Whether it is the first process of the system.
    pub is_init: bool,
    /// Whether it can take signals.
    pub has_data: bool,
}

/// What sending a signal asks of a thread.
#[derive(Debug, Clone, Copy, PartialEq, Eq, Structural)]
pub struct ThreadRef {
    pub tid: Pid,
    /// The process that the thread belongs to.
    pub pid: Pid,
    /// Whether it can take signals.
    pub has_data: bool,
}

/// Whether a signal can be sent to a thread.
pub fn send_signal_thread(thr: &ThreadRef) -> (r: Result<(), LinuxError>)
    ensures
        r == if thr.has_data {
            Ok::<(), LinuxError>(())
        } else {
            Err(LinuxError::EPERM)
        },
{
    if !thr.has_data {
        return Err(LinuxError::EPERM);
    }
    Ok(())
}

/// Sends a signal to a process: it is put in `sent`.
pub fn send_signal_process(proc: &ProcessRef, sent: &mut Vec<Pid>) -> (r: Result<(), LinuxError>)
    ensures
        r == if proc.has_data {
            Ok::<(), LinuxError>(())
        } else {
            Err(LinuxError::EPERM)
        },
        final(sent)@ == if proc.has_data {
            old(sent)@.push(proc.pid)
        } else {
            old(sent)@
        },
{
    if !proc.has_data {
        return Err(LinuxError::EPERM);
    }
    sent.push(proc.pid);
    Ok(())
}

/// The processes of a group that a signal reaches.
pub open spec fn reached(procs: Seq<ProcessRef>) -> Seq<Pid>
    decreases procs.len(),
{
    if procs.len() == 0 {
        Seq::empty()
    } else if procs.last().has_data {
        reached(procs.drop_last()).push(procs.last().pid)
    } else {
        reached(procs.drop_last())
    }
}

/// A signal reaches no more processes than there are.
proof fn lemma_reached_len(procs: Seq<ProcessRef>)
    ensures
        reached(procs).len() <= procs.len(),
    decreases procs.len(),
{
    if procs.len() > 0 {
        lemma_reached_len(procs.drop_last());
    }
}

/// Sends a signal to every process of a group that can take one. Returns to how
/// many it was sent.
pub fn send_signal_process_group(procs: &Vec<ProcessRef>, sent: &mut Vec<Pid>) -> (count: usize)
    ensures
        final(sent)@ == old(sent)@ + reached(procs@),
        count == reached(procs@).len(),
{
    let mut count: usize = 0;
    let mut i: usize = 0;
    assert(sent@ =~= old(sent)@ + reached(procs@.take(0)));
    while i < procs.len()
        invariant
            i <= procs@.len(),
            count == reached(procs@.take(i as int)).len(),
            count <= i,
            sent@ == old(sent)@ + reached(procs@.take(i as int)),
        decreases procs@.len() - i,
    {
        assert(procs@.take(i + 1).drop_last() =~= procs@.take(i as int));
        if send_signal_process(&procs[i], sent).is_ok() {
            count = count + 1;
        }
        i = i + 1;
        assert(sent@ =~= old(sent)@ + reached(procs@.take(i as int)));
    }
    assert(procs@.take(i as int) =~= procs@);
    count
}

/// Sends a signal to every process but the first of the system, up to the first
/// that cannot take one. Returns to how many it was sent.
fn send_signal_all(procs: &Vec<ProcessRef>, sent: &mut Vec<Pid>) -> (r: Result<usize, LinuxError>)
    requires
        old(sent)@.len() == 0,
    ensures
        sent_until_refused(others(procs@), final(sent)@),
        final(sent)@.len() <= procs@.len(),
        r == if all_reached(others(procs@)) {
            Ok(final(sent)@.len() as usize)
        } else {
            Err(LinuxError::EPERM)
        },
{
    let mut i: usize = 0;
    let ghost wanted = others(procs@);
    proof {
        reveal(Seq::filter);
        assert(others(procs@.take(0)) =~= Seq::<ProcessRef>::empty());
    }
    while i < procs.len()
        invariant
            i <= procs@.len(),
            wanted == others(procs@),
            sent@.len() <= i,
            sent@.len() == others(procs@.take(i as int)).len(),
            forall|j: int|
                0 <= j < sent@.len() ==> (#[trigger] others(procs@.take(i as int))[j]).has_data
                    && sent@[j] == others(procs@.take(i as int))[j].pid,
        decreases procs@.len() - i,
    {
        let proc = procs[i];
        let ghost before = others(procs@.take(i as int));
        let ghost after = others(procs@.take(i + 1));
        proof {
            lemma_others_step(procs@, i as int);
            lemma_others_prefix(procs@, i + 1);
        }
        if !proc.is_init {
            assert(after =~= before.push(proc));
            if let Err(e) = send_signal_process(&proc, sent) {
                assert(wanted[before.len() as int] == proc);
                assert forall|j: int| 0 <= j < sent@.len() implies (#[trigger] wanted[j]).has_data
                    && sent@[j] == wanted[j].pid by {
                    assert(before[j] == after[j]);
                    assert(before[j].has_data);
                }
                assert(!all_reached(wanted));
                return Err(e);
            }
            assert forall|j: int| 0 <= j < sent@.len() implies (#[trigger] after[j]).has_data
                && sent@[j] == after[j].pid by {
                if j < before.len() {
                    assert(before[j].has_data);
                }
            }
        } else {
            assert(after =~= before);
        }
        i = i + 1;
    }
    assert(procs@.take(i as int) =~= procs@);
    Ok(sent.len())
}

/// What a signal number given by a caller stands for: none, a signal, or an
/// error.
pub open spec fn siginfo_of(signo: u32, code: u32) -> Result<Option<SignalInfo>, LinuxError> {
    let n = signo as u8 as u32;
    if signo == 0 {
        Ok(None)
    } else if is_signal(n) {
        Ok(Some(SignalInfo { signo: n, code }))
    } else {
        Err(LinuxError::EINVAL)
    }
}

/// Makes the signal that the number `signo` asks for, if any: its low byte is
/// taken.
pub fn make_siginfo(signo: u32, code: u32) -> (r: Result<Option<SignalInfo>, LinuxError>)
    ensures
        r == siginfo_of(signo, code),
{
    if signo == 0 {
        return Ok(None);
    }
    match signo_from_repr(signo as u8) {
        Some(n) => Ok(Some(SignalInfo::new(n, code))),
        None => Err(LinuxError::EINVAL),
    }
}

/// Which processes `sys_kill` is about.
#[derive(Debug, Clone, Copy, PartialEq, Eq, Structural)]
pub enum KillTarget {
    /// The process with this number.
    Process(Pid),
    /// The process group of the caller.
    OwnGroup,
    /// All processes.
    All,
    /// The process group with this number.
    Group(Pid),
}

/// The processes that `pid` stands for.
pub open spec fn target_of(pid: i32) -> KillTarget {
    if pid > 0 {
        KillTarget::Process(pid as u32)
    } else if pid == 0 {
        KillTarget::OwnGroup
    } else if pid == -1 {
        KillTarget::All
    } else {
        KillTarget::Group((-(pid as int)) as u32)
    }
}

/// Returns the processes that `pid` stands for.
pub fn kill_target(pid: i32) -> (r: KillTarget)
    ensures
        r == target_of(pid),
{
    if pid > 0 {
        KillTarget::Process(pid as u32)
    } else if pid == 0 {
        KillTarget::OwnGroup
    } else if pid == -1 {
        KillTarget::All
    } else {
        KillTarget::Group((-(pid as i64)) as u32)
    }
}

/// The processes among `procs` that a signal for all is meant for.
pub open spec fn others(procs: Seq<ProcessRef>) -> Seq<ProcessRef> {
    procs.filter(|p: ProcessRef| !p.is_init)
}

/// Where a signal for all stops: before the first process that cannot take one.
pub open spec fn all_reached(procs: Seq<ProcessRef>) -> bool {
    forall|i: int| 0 <= i < procs.len() ==> (#[trigger] procs[i]).has_data
}

/// Whether `sent` are the processes before the first one that cannot take a
/// signal.
pub open spec fn sent_until_refused(procs: Seq<ProcessRef>, sent: Seq<Pid>) -> bool {
    &&& sent.len() <= procs.len()
    &&& forall|i: int|
        0 <= i < sent.len() ==> (#[trigger] procs[i]).has_data && sent[i] == procs[i].pid
    &&& sent.len() < procs.len() ==> !procs[sent.len() as int].has_data
}

/// What `sys_kill` does once the processes are found: `sent` are those that the
/// signal is sent to, in order.
pub open spec fn killed(
    target: KillTarget,
    procs: Seq<ProcessRef>,
    sent: Seq<Pid>,
    result: Result<isize, LinuxError>,
) -> bool {
    match target {
        KillTarget::Process(_) => if procs[0].has_data {
            sent == seq![procs[0].pid] && result == Ok::<isize, LinuxError>(1)
        } else {
            sent == Seq::<Pid>::empty() && result == Err::<isize, LinuxError>(LinuxError::EPERM)
        },
        KillTarget::All => {
            &&& sent_until_refused(others(procs), sent)
            &&& result == if all_reached(others(procs)) {
                Ok(sent.len() as isize)
            } else {
                Err(LinuxError::EPERM)
            }
        },
        _ => {
            &&& sent == reached(procs)
            &&& result == Ok::<isize, LinuxError>(sent.len() as isize)
        },
    }
}

/// What came of sending a signal.
#[derive(Debug)]
pub struct Killed {
    /// The signal that the call means: none where its number is none or zero.
    pub sig: Option<SignalInfo>,
    /// The processes or the thread that it is sent to, in order.
    pub sent: Vec<Pid>,
    pub result: Result<isize, LinuxError>,
}

/// What a call of `sys_kill` comes to.
pub open spec fn kill_done(
    pid: i32,
    sig: u32,
    found: Result<Vec<ProcessRef>, LinuxError>,
    r: Killed,
) -> bool {
    match siginfo_of(sig, SI_USER) {
        Err(e) => {
            &&& r.sig is None
            &&& r.sent@.len() == 0
            &&& r.result == Err::<isize, LinuxError>(e)
        },
        Ok(None) => {
            &&& r.sig is None
            &&& r.sent@.len() == 0
            &&& r.result == Ok::<isize, LinuxError>(0)
        },
        Ok(Some(info)) => {
            &&& r.sig == Some(info)
            &&& match found {
                Err(e) => r.sent@.len() == 0 && r.result == Err::<isize, LinuxError>(e),
                Ok(procs) => killed(target_of(pid), procs@, r.sent@, r.result),
            }
        },
    }
}

/// Sends a signal to the processes that `pid` stands for; `found` is what the
/// search for them gave.
///
/// Signal zero is sent to nobody and always succeeds.
pub fn sys_kill(pid: i32, sig: u32, found: Result<Vec<ProcessRef>, LinuxError>) -> (r: Killed)
    requires
        found matches Ok(procs) ==> procs@.len() <= isize::MAX && (pid > 0 ==> procs@.len() == 1),
    ensures
        kill_done(pid, sig, found, r),
{
    let mut sent: Vec<Pid> = Vec::new();
    let sig = match make_siginfo(sig, SI_USER) {
        Err(e) => {
            return Killed { sig: None, sent, result: Err(e) };
        },
        Ok(sig) => sig,
    };
    if sig.is_none() {
        return Killed { sig, sent, result: Ok(0) };
    }
    let procs = match found {
        Err(e) => {
            return Killed { sig, sent, result: Err(e) };
        },
        Ok(procs) => procs,
    };
    match kill_target(pid) {
        KillTarget::Process(_) => {
            let result: Result<isize, LinuxError> = match send_signal_process(
                &procs[0],
                &mut sent,
            ) {
                Err(e) => Err(e),
                Ok(_) => Ok(1),
            };
            Killed { sig, sent, result }
        },
        KillTarget::All => {
            let result: Result<isize, LinuxError> = match send_signal_all(&procs, &mut sent) {
                Err(e) => Err(e),
                Ok(count) => Ok(count as isize),
            };
            Killed { sig, sent, result }
        },
        _ => {
            proof {
                lemma_reached_len(procs@);
            }
            let count: usize = send_signal_process_group(&procs, &mut sent);
            assert(sent@ =~= reached(procs@));
            Killed { sig, sent, result: Ok(count as isize) }
        },
    }
}

/// One process more: it is meant unless it is the first of the system.
proof fn lemma_others_step(procs: Seq<ProcessRef>, i: int)
    requires
        0 <= i < procs.len(),
    ensures
        others(procs.take(i + 1)) == if procs[i].is_init {
            others(procs.take(i))
        } else {
            others(procs.take(i)).push(procs[i])
        },
{
    reveal(Seq::filter);
    assert(procs.take(i + 1).drop_last() =~= procs.take(i));
}

/// The processes meant among the first ones come first among all those meant.
proof fn lemma_others_prefix(procs: Seq<ProcessRef>, i: int)
    requires
        0 <= i <= procs.len(),
    ensures
        others(procs.take(i)).len() <= others(procs).len(),
        forall|j: int|
            0 <= j < others(procs.take(i)).len() ==> #[trigger] others(procs)[j] == others(
                procs.take(i),
            )[j],
    decreases procs.len() - i,
{
    if i < procs.len() {
        lemma_others_step(procs, i);
        lemma_others_prefix(procs, i + 1);
    } else {
        assert(procs.take(i) =~= procs);
    }
}

/// What a call of `sys_tkill` comes to, and one of `sys_tgkill` for the process `tgid`.
pub open spec fn tkill_done(
    tgid: Option<Pid>,
    sig: u32,
    found: Result<ThreadRef, LinuxError>,
    r: Killed,
) -> bool {
    match siginfo_of(sig, SI_TKILL) {
        Err(e) => {
            &&& r.sig is None
            &&& r.sent@.len() == 0
            &&& r.result == Err::<isize, LinuxError>(e)
        },
        Ok(None) => {
            &&& r.sig is None
            &&& r.sent@.len() == 0
            &&& r.result == Ok::<isize, LinuxError>(0)
        },
        Ok(Some(info)) => {
            &&& r.sig == Some(info)
            &&& match found {
                Err(e) => r.sent@.len() == 0 && r.result == Err::<isize, LinuxError>(e),
                Ok(thr) => if tgid is Some && thr.pid != tgid->0 {
                    r.sent@.len() == 0 && r.result == Err::<isize, LinuxError>(LinuxError::ESRCH)
                } else if thr.has_data {
                    r.sent@ == seq![thr.tid] && r.result == Ok::<isize, LinuxError>(0)
                } else {
                    r.sent@.len() == 0 && r.result == Err::<isize, LinuxError>(LinuxError::EPERM)
                },
            }
        },
    }
}

/// Sends a signal to a thread; `found` is what the search for it gave.
pub fn sys_tkill(sig: u32, found: Result<ThreadRef, LinuxError>) -> (r: Killed)
    ensures
        tkill_done(None, sig, found, r),
{
    let mut sent: Vec<Pid> = Vec::new();
    let sig = match make_siginfo(sig, SI_TKILL) {
        Err(e) => {
            return Killed { sig: None, sent, result: Err(e) };
        },
        Ok(sig) => sig,
    };
    if sig.is_none() {
        return Killed { sig, sent, result: Ok(0) };
    }
    match found {
        Err(e) => Killed { sig, sent, result: Err(e) },
        Ok(thr) => match send_signal_thread(&thr) {
            Err(e) => Killed { sig, sent, result: Err(e) },
            Ok(_) => {
                sent.push(thr.tid);
                assert(sent@ =~= seq![thr.tid]);
                Killed { sig, sent, result: Ok(0) }
            },
        },
    }
}

/// Sends a signal to a thread of the process `tgid`; `found` is what the search
/// for the thread gave.
pub fn sys_tgkill(tgid: Pid, sig: u32, found: Result<ThreadRef, LinuxError>) -> (r: Killed)
    ensures
        tkill_done(Some(tgid), sig, found, r),
{
    let found: Result<ThreadRef, LinuxError> = match found {
        Ok(thr) if thr.pid != tgid => Err(LinuxError::ESRCH),
        found => found,
    };
    sys_tkill(sig, found)
}

/// Returns what a system call returns that has restored the registers from
/// before a signal: what the restored registers say.
pub fn sys_rt_sigreturn(retval: usize) -> (r: Result<isize, LinuxError>)
    ensures
        r == Ok::<isize, LinuxError>(retval as isize),
{
    Ok(retval as isize)
}

/// What a thread waits for: one of the signals of `set`, at most for `timeout`.
#[derive(Debug, Clone, Copy)]
pub struct SignalWait {
    pub set: SignalSet,
    pub timeout: Option<Timespec>,
}

/// Returns what a thread that calls `sys_rt_sigtimedwait` waits for.
pub fn begin_sigtimedwait(
    set: Result<SignalSet, LinuxError>,
    timeout: UserRef<Timespec>,
    sigsetsize: usize,
) -> (r: Result<SignalWait, LinuxError>)
    ensures
        match (sigsetsize == SIGSET_SIZE, set, timeout) {
            (false, _, _) => r == Err::<SignalWait, LinuxError>(LinuxError::EINVAL),
            (true, Err(e), _) => r == Err::<SignalWait, LinuxError>(e),
            (true, Ok(_), UserRef::Invalid(e)) => r == Err::<SignalWait, LinuxError>(e),
            (true, Ok(set), UserRef::Null) => r == Ok::<SignalWait, LinuxError>(
                SignalWait { set, timeout: None },
            ),
            (true, Ok(set), UserRef::Valid(ts)) => r == Ok::<SignalWait, LinuxError>(
                SignalWait { set, timeout: Some(ts) },
            ),
        },
{
    if let Err(e) = check_sigset_size(sigsetsize) {
        return Err(e);
    }
    match set {
        Err(e) => Err(e),
        Ok(set) => match timeout {
            UserRef::Null => Ok(SignalWait { set, timeout: None }),
            UserRef::Invalid(e) => Err(e),
            UserRef::Valid(ts) => Ok(SignalWait { set, timeout: Some(ts) }),
        },
    }
}

/// Returns what came of the wait for a signal: `found` is the signal that
/// arrived in time, if one did. It is reported where `info` asks for it.
pub fn sys_rt_sigtimedwait(found: Option<SignalInfo>, info: UserRef<()>) -> (r: Outcome<SignalInfo>)
    ensures
        match (found, info) {
            (None, _) => r.written is None && r.result == Err::<isize, LinuxError>(
                LinuxError::EAGAIN,
            ),
            (Some(_), UserRef::Invalid(e)) => r.written is None && r.result == Err::<
                isize,
                LinuxError,
            >(e),
            (Some(_), UserRef::Null) => r.written is None && r.result == Ok::<isize, LinuxError>(0),
            (Some(sig), UserRef::Valid(_)) => r.written == Some(sig) && r.result == Ok::<
                isize,
                LinuxError,
            >(0),
        },
{
    match found {
        None => Outcome { written: None, result: Err(LinuxError::EAGAIN) },
        Some(sig) => match info {
            UserRef::Null => Outcome { written: None, result: Ok(0) },
            UserRef::Invalid(e) => Outcome { written: None, result: Err(e) },
            UserRef::Valid(_) => Outcome { written: Some(sig), result: Ok(0) },
        },
    }
}

/// Takes the signals out of `set` that cannot be blocked.
pub fn blockable(set: SignalSet) -> (r: SignalSet)
    ensures
        r@ == set@.remove(SIGKILL).remove(SIGSTOP),
{
    let mut r = set;
    r.remove(SIGKILL);
    r.remove(SIGSTOP);
    r
}

/// What the register of the return value holds for a call that a signal
/// interrupted: the error code, negated.
pub const EINTR_RETVAL: usize = usize::MAX - 3;

/// Begins to wait for a signal with the signals of `set` blocked, but for those
/// that cannot be. Returns the signals that were blocked before.
///
/// For the time that a handler runs, the register of the return value says that
/// the call was interrupted.
pub fn begin_sigsuspend(
    blocked: &mut SignalSet,
    retval: &mut usize,
    set: Result<SignalSet, LinuxError>,
    sigsetsize: usize,
) -> (r: Result<SignalSet, LinuxError>)
    ensures
        match (sigsetsize == SIGSET_SIZE, set) {
            (true, Ok(set)) => {
                &&& r == Ok::<SignalSet, LinuxError>(*old(blocked))
                &&& final(blocked)@ == set@.remove(SIGKILL).remove(SIGSTOP)
                &&& *final(retval) == EINTR_RETVAL
            },
            (true, Err(e)) => {
                &&& r == Err::<SignalSet, LinuxError>(e)
                &&& *final(blocked) == *old(blocked)
                &&& *final(retval) == *old(retval)
            },
            (false, _) => {
                &&& r == Err::<SignalSet, LinuxError>(LinuxError::EINVAL)
                &&& *final(blocked) == *old(blocked)
                &&& *final(retval) == *old(retval)
            },
        },
{
    if let Err(e) = check_sigset_size(sigsetsize) {
        return Err(e);
    }
    match set {
        Err(e) => Err(e),
        Ok(set) => {
            let old_blocked = *blocked;
            *blocked = blockable(set);
            *retval = EINTR_RETVAL;
            Ok(old_blocked)
        },
    }
}

/// What a thread does that waits in `sys_rt_sigsuspend`.
#[derive(Debug, Clone, Copy, PartialEq, Eq, Structural)]
pub enum SuspendStep {
    /// It waits on for a signal.
    Wait,
    /// It exits with this code, and all threads of its process with it.
    Exit(i32),
    /// It returns this.
    Return(isize),
}

/// Returns what a thread does that waits for a signal, after its signals were
/// looked at: it waits until there was one.
pub fn sys_rt_sigsuspend(found: Option<(SignalInfo, SignalOSAction)>) -> (r: SuspendStep)
    requires
        found matches Some(f) ==> is_signal(f.0.signo),
    ensures
        r == match signal_check(found) {
            SignalCheck::Nothing => SuspendStep::Wait,
            SignalCheck::Exit(code) => SuspendStep::Exit(code),
            SignalCheck::Handled => SuspendStep::Return(0),
        },
{
    match check_signals(found) {
        SignalCheck::Nothing => SuspendStep::Wait,
        SignalCheck::Exit(code) => SuspendStep::Exit(code),
        SignalCheck::Handled => SuspendStep::Return(0),
    }
}

/// What a signal that was delivered comes to: the process ends with 128 and the number of
/// the signal where the signal terminates it or dumps core, with one where it stops it,
/// and goes on where it is continued or a handler runs.
pub proof fn law_what_a_delivered_signal_does(sig: SignalInfo, action: SignalOSAction)
    requires
        1 <= sig.signo <= 64,
    ensures
        ({
            let check = signal_check(Some((sig, action)));
            &&& action is Terminate || action is CoreDump ==> check == SignalCheck::Exit(
                (128 + sig.signo) as i32,
            )
            &&& action is Stop ==> check == SignalCheck::Exit(1)
            &&& check matches SignalCheck::Exit(code) ==> 0 < code
            &&& action is Continue || action is Handler <==> check is Handled
        }),
        signal_check(None) is Nothing,
{
}

/// A change of the mask succeeds exactly where the size is that of a set, the memory that
/// is named can be used, and `how` is known where there is a set. Then a signal is blocked,
/// with zero, if it was or is in the set, with one, if it was and is not in the set, with
/// two, if it is in the set. Without a set nothing changes.
pub proof fn law_mask_changes(
    how: i32,
    blocked: Set<u32>,
    set: UserRef<SignalSet>,
    oldset: UserRef<()>,
    sigsetsize: usize,
    n: u32,
)
    ensures
        match sigprocmask(how, blocked, set, oldset, sigsetsize) {
            Ok(after) => {
                &&& sigsetsize == 8
                &&& !(oldset is Invalid)
                &&& !(set is Invalid)
                &&& set is Null ==> (after.contains(n) <==> blocked.contains(n))
                &&& set is Valid ==> {
                    let given = set->Valid_0@;
                    &&& 0 <= how <= 2
                    &&& how == 0 ==> (after.contains(n) <==> blocked.contains(n) || given.contains(n))
                    &&& how == 1 ==> (after.contains(n) <==> blocked.contains(n)
                        && !given.contains(n))
                    &&& how == 2 ==> (after.contains(n) <==> given.contains(n))
                }
            },
            Err(e) => {
                ||| sigsetsize != 8 && e == LinuxError::EINVAL
                ||| sigsetsize == 8 && oldset == UserRef::<()>::Invalid(e)
                ||| sigsetsize == 8 && !(oldset is Invalid) && set == UserRef::<
                    SignalSet,
                >::Invalid(e)
                ||| sigsetsize == 8 && !(oldset is Invalid) && set is Valid && !(0 <= how <= 2) && e
                    == LinuxError::EINVAL
            },
        },
{
}

/// The action of every signal can be changed but that of `SIGKILL` and `SIGSTOP`, and only
/// the action of the signal that is named changes, to what is given. What it was is
/// reported where it is asked for. A number that is none of a signal is refused, and a
/// call that fails changes nothing.
pub proof fn law_sigaction_changes_one_action(
    before: Map<u32, SignalAction>,
    signo: i32,
    act: UserRef<SignalAction>,
    oldact: UserRef<()>,
    sigsetsize: usize,
    after: Map<u32, SignalAction>,
    r: Outcome<SignalAction>,
    m: u32,
)
    requires
        0 <= signo < 256,
        sigaction_done(before, signo, act, oldact, sigsetsize, after, r),
    ensures
        r.result is Ok <==> {
            &&& sigsetsize == 8
            &&& 1 <= signo <= 64 && signo != 9 && signo != 19
            &&& !(oldact is Invalid)
            &&& !(act is Invalid)
        },
        r.result is Ok ==> r.result->Ok_0 == 0,
        r.result is Err && (sigsetsize != 8 || !(1 <= signo <= 64) || signo == 9 || signo == 19)
            ==> r.result->Err_0 == LinuxError::EINVAL && r.written is None,
        r.result is Ok && act is Valid ==> after[signo as u32] == act->Valid_0,
        m != signo || !(act is Valid) || r.result is Err ==> after.contains_key(m)
            == before.contains_key(m) && after[m] == before[m],
        r.result is Ok && oldact is Valid ==> r.written == Some(before[signo as u32]),
        oldact is Null ==> r.written is None,
{
    assert(0 <= signo && signo < 256 ==> signo as u8 as u32 == signo as u32) by (bit_vector);
}

/// What the number of a signal stands for: zero for no signal, one to 64 for the signal,
/// and any other number below 256 for none.
pub proof fn law_signal_of_a_number(signo: u32, code: u32)
    requires
        signo < 256,
    ensures
        match siginfo_of(signo, code) {
            Ok(None) => signo == 0,
            Ok(Some(info)) => 1 <= signo <= 64 && info.signo == signo && info.code == code,
            Err(e) => signo > 64 && e == LinuxError::EINVAL,
        },
{
    assert(signo < 256 ==> signo as u8 as u32 == signo) by (bit_vector);
}

/// Whom a number means: a positive one the process with that number, zero the group of
/// the caller, minus one all, and any other negative one the group with that number.
pub proof fn law_whom_kill_means(pid: i32)
    ensures
        pid > 0 ==> target_of(pid) == KillTarget::Process(pid as u32),
        pid == 0 ==> target_of(pid) is OwnGroup,
        pid == -1 ==> target_of(pid) is All,
        pid < -1 ==> target_of(pid) == KillTarget::Group((0 - pid) as u32),
{
}

/// What is sent by `sys_kill`, and to whom. A signal for one process reaches it, and the
/// call returns one; a signal for a group reaches each process of it that can take one,
/// once and in their order, and the call returns how many; a signal for all reaches every
/// process but the first of the system, in their order, up to one that cannot take it.
/// Nothing is sent for the number zero, which always succeeds, nor for a number that is
/// none.
pub proof fn law_kill_reaches_those_meant(
    pid: i32,
    sig: u32,
    found: Result<Vec<ProcessRef>, LinuxError>,
    r: Killed,
)
    requires
        sig < 256,
        found matches Ok(procs) ==> procs@.len() <= isize::MAX && (pid > 0 ==> procs@.len() == 1),
        kill_done(pid, sig, found, r),
    ensures
        sig == 0 ==> r.result == Ok::<isize, LinuxError>(0) && r.sent@.len() == 0 && r.sig is None,
        sig > 64 ==> r.result == Err::<isize, LinuxError>(LinuxError::EINVAL) && r.sent@.len() == 0
            && r.sig is None,
        1 <= sig <= 64 ==> r.sig == Some(SignalInfo { signo: sig, code: 0 }),
        1 <= sig <= 64 && found is Err ==> r.sent@.len() == 0 && r.result == Err::<
            isize,
            LinuxError,
        >(found->Err_0),
        1 <= sig <= 64 && found is Ok ==> {
            let procs = found->Ok_0@;
            &&& pid > 0 && procs[0].has_data ==> r.sent@.len() == 1 && r.sent@[0] == procs[0].pid
                && r.result == Ok::<isize, LinuxError>(1)
            &&& pid > 0 && !procs[0].has_data ==> r.sent@.len() == 0 && r.result == Err::<
                isize,
                LinuxError,
            >(LinuxError::EPERM)
            &&& pid == 0 || pid < -1 ==> r.result == Ok::<isize, LinuxError>(
                r.sent@.len() as isize,
            )
            &&& pid == 0 || pid < -1 ==> forall|p: ProcessRef| #[trigger]
                procs.contains(p) && p.has_data ==> r.sent@.contains(p.pid)
            &&& pid == 0 || pid < -1 ==> forall|n: Pid| #[trigger]
                r.sent@.contains(n) ==> exists|p: ProcessRef| #[trigger]
                    procs.contains(p) && p.has_data && p.pid == n
            &&& pid == -1 ==> forall|n: Pid| #[trigger]
                r.sent@.contains(n) ==> exists|p: ProcessRef| #[trigger]
                    procs.contains(p) && p.has_data && !p.is_init && p.pid == n
            &&& pid == -1 && r.result is Ok ==> r.result->Ok_0 == r.sent@.len() && forall|
                p: ProcessRef,
            | #[trigger]
                procs.contains(p) && !p.is_init ==> p.has_data && r.sent@.contains(p.pid)
            &&& pid == -1 && r.result is Err ==> r.result->Err_0 == LinuxError::EPERM && exists|
                p: ProcessRef,
            | #[trigger] procs.contains(p) && !p.is_init && !p.has_data
        },
{
    law_signal_of_a_number(sig, SI_USER);
    if 1 <= sig <= 64 && found is Ok {
        let procs = found->Ok_0@;
        if pid == 0 || pid < -1 {
            assert forall|p: ProcessRef| #[trigger]
                procs.contains(p) && p.has_data implies r.sent@.contains(p.pid) by {
                law_signal_for_all_spares_init(procs);
                let i = choose|i: int| 0 <= i < procs.len() && procs[i] == p;
                assert(procs[i].has_data);
            }
            assert forall|n: Pid| #[trigger] r.sent@.contains(n) implies exists|p: ProcessRef|
                #[trigger] procs.contains(p) && p.has_data && p.pid == n by {
                lemma_reached_from(procs, n);
            }
        }
        if pid == -1 {
            let wanted = others(procs);
            assert forall|p: ProcessRef| #[trigger] wanted.contains(p) <==> procs.contains(p)
                && !p.is_init by {
                lemma_others_contain(procs, p);
            }
            assert forall|n: Pid| #[trigger] r.sent@.contains(n) implies exists|p: ProcessRef|
                #[trigger] procs.contains(p) && p.has_data && !p.is_init && p.pid == n by {
                let i = choose|i: int| 0 <= i < r.sent@.len() && r.sent@[i] == n;
                assert(wanted[i].has_data);
                assert(wanted.contains(wanted[i]));
                assert(procs.contains(wanted[i]));
            }
            if all_reached(wanted) {
                assert forall|p: ProcessRef| #[trigger]
                    procs.contains(p) && !p.is_init implies p.has_data && r.sent@.contains(
                    p.pid,
                ) by {
                    assert(wanted.contains(p));
                    let i = choose|i: int| 0 <= i < wanted.len() && wanted[i] == p;
                    assert(wanted[i].has_data);
                    assert(r.sent@.len() == wanted.len());
                    assert(r.sent@[i] == p.pid);
                }
            } else {
                let i = choose|i: int| 0 <= i < wanted.len() && !(#[trigger] wanted[i]).has_data;
                assert(wanted.contains(wanted[i]));
                assert(procs.contains(wanted[i]));
            }
        }
    }
}

/// A process that a signal for a group reaches is one of the group that can take one.
proof fn lemma_reached_from(procs: Seq<ProcessRef>, n: Pid)
    requires
        reached(procs).contains(n),
    ensures
        exists|p: ProcessRef| #[trigger] procs.contains(p) && p.has_data && p.pid == n,
    decreases procs.len(),
{
    let rest = procs.drop_last();
    let k = choose|k: int| 0 <= k < reached(procs).len() && reached(procs)[k] == n;
    if k < reached(rest).len() {
        assert(reached(rest)[k] == n);
        lemma_reached_from(rest, n);
        let p = choose|p: ProcessRef| #[trigger] rest.contains(p) && p.has_data && p.pid == n;
        let i = choose|i: int| 0 <= i < rest.len() && rest[i] == p;
        assert(procs[i] == p);
        assert(procs.contains(p));
    } else {
        assert(procs[procs.len() - 1].pid == n);
        assert(procs.contains(procs.last()));
    }
}

/// A signal for all is meant for every process but the first of the system.
proof fn lemma_others_contain(procs: Seq<ProcessRef>, p: ProcessRef)
    ensures
        others(procs).contains(p) <==> procs.contains(p) && !p.is_init,
    decreases procs.len(),
{
    reveal(Seq::filter);
    if procs.len() > 0 {
        let rest = procs.drop_last();
        lemma_others_contain(rest, p);
        let before = others(rest);
        let now = others(procs);
        if before.contains(p) {
            let i = choose|i: int| 0 <= i < before.len() && before[i] == p;
            assert(now[i] == p);
        }
        if rest.contains(p) {
            let i = choose|i: int| 0 <= i < rest.len() && rest[i] == p;
            assert(procs[i] == p);
        }
        if procs.contains(p) && !p.is_init && !rest.contains(p) {
            let i = choose|i: int| 0 <= i < procs.len() && procs[i] == p;
            if i < rest.len() {
                assert(rest[i] == p);
            }
            assert(now[now.len() - 1] == p);
        }
        if now.contains(p) && !before.contains(p) {
            let i = choose|i: int| 0 <= i < now.len() && now[i] == p;
            if i < before.len() {
                assert(before[i] == p);
            }
            assert(procs[procs.len() - 1] == p);
        }
    }
}

/// One process more at the end of a group: the signal reaches one more, the last, if the
/// process can take it, and the same ones otherwise. The same of a signal for all and a
/// process that is not the first of the system.
pub proof fn law_one_process_more(procs: Seq<ProcessRef>, p: ProcessRef)
    ensures
        reached(Seq::empty()) == Seq::<Pid>::empty(),
        p.has_data ==> reached(procs.push(p)) == reached(procs).push(p.pid),
        !p.has_data ==> reached(procs.push(p)) == reached(procs),
        others(Seq::empty()) == Seq::<ProcessRef>::empty(),
        !p.is_init ==> others(procs.push(p)) == others(procs).push(p),
        p.is_init ==> others(procs.push(p)) == others(procs),
{
    reveal(Seq::filter);
    assert(procs.push(p).drop_last() =~= procs);
}

/// A signal for a thread reaches that thread and no other, where it can take one, and, with
/// the number of a process, only where the thread belongs to that process. Nothing is sent
/// for the number zero, which always succeeds, nor for a number that is none.
pub proof fn law_tkill_reaches_the_thread(
    tgid: Option<Pid>,
    sig: u32,
    found: Result<ThreadRef, LinuxError>,
    r: Killed,
)
    requires
        sig < 256,
        tkill_done(tgid, sig, found, r),
    ensures
        sig == 0 ==> r.result == Ok::<isize, LinuxError>(0) && r.sent@.len() == 0 && r.sig is None,
        sig > 64 ==> r.result == Err::<isize, LinuxError>(LinuxError::EINVAL) && r.sent@.len() == 0
            && r.sig is None,
        1 <= sig <= 64 ==> r.sig == Some(SignalInfo { signo: sig, code: 0xffff_fffa }),
        r.sent@.len() > 0 ==> 1 <= sig <= 64 && found is Ok && r.sent@.len() == 1 && r.sent@[0]
            == found->Ok_0.tid && found->Ok_0.has_data && r.result == Ok::<isize, LinuxError>(0)
            && (tgid is Some ==> found->Ok_0.pid == tgid->0),
        1 <= sig <= 64 && found is Err ==> r.result == Err::<isize, LinuxError>(found->Err_0),
        1 <= sig <= 64 && found is Ok ==> {
            let thr = found->Ok_0;
            &&& tgid is Some && thr.pid != tgid->0 ==> r.result == Err::<isize, LinuxError>(
                LinuxError::ESRCH,
            )
            &&& (tgid is None || thr.pid == tgid->0) && !thr.has_data ==> r.result == Err::<
                isize,
                LinuxError,
            >(LinuxError::EPERM)
            &&& (tgid is None || thr.pid == tgid->0) && thr.has_data ==> r.sent@.len() == 1
        },
{
    law_signal_of_a_number(sig, SI_TKILL);
}

/// The blocked signals that a change of the mask reports can be set again: that
/// undoes the change.
pub proof fn law_sigprocmask_can_be_undone(
    how: i32,
    blocked: Set<u32>,
    set: Set<u32>,
    after: Set<u32>,
)
    requires
        mask_changed(how, blocked, set) == Some(after),
    ensures
        mask_changed(2, after, blocked) == Some(blocked),
{
}

/// To block signals that were not blocked and to unblock them again changes
/// nothing.
pub proof fn law_block_then_unblock(blocked: Set<u32>, set: Set<u32>)
    requires
        blocked.disjoint(set),
    ensures
        mask_changed(0, blocked, set) matches Some(after) && mask_changed(1, after, set) == Some(
            blocked,
        ),
{
    assert(blocked.union(set).difference(set) =~= blocked);
}

/// Neither killing nor stopping has an action that can be changed.
pub proof fn law_kill_and_stop_keep_their_action(signo: i32)
    ensures
        changeable_signal(signo) != Some(SIGKILL),
        changeable_signal(signo) != Some(SIGSTOP),
{
}

/// A signal for all never reaches the first process of the system, and a signal
/// for a group reaches each process of it that can take one.
pub proof fn law_signal_for_all_spares_init(procs: Seq<ProcessRef>)
    ensures
        forall|i: int| 0 <= i < others(procs).len() ==> !(#[trigger] others(procs)[i]).is_init,
        forall|i: int|
            0 <= i < procs.len() && (#[trigger] procs[i]).has_data ==> reached(procs).contains(
                procs[i].pid,
            ),
    decreases procs.len(),
{
    reveal(Seq::filter);
    if procs.len() > 0 {
        let rest = procs.drop_last();
        law_signal_for_all_spares_init(rest);
        assert forall|i: int|
            0 <= i < procs.len() && (#[trigger] procs[i]).has_data implies reached(procs).contains(
            procs[i].pid,
        ) by {
            if i < rest.len() {
                assert(rest[i] == procs[i]);
                let k = choose|k: int|
                    0 <= k < reached(rest).len() && reached(rest)[k] == procs[i].pid;
                assert(reached(procs)[k] == procs[i].pid);
            } else {
                let k = reached(rest).len() as int;
                assert(reached(procs)[k] == procs[i].pid);
            }
        }
    }
}

} // verus!
