//! The system calls on the signals of a task.
use crate::api;
use crate::api::imp::signal::{blockable, check_sigset_size, sigprocmask, EINTR_RETVAL};
use crate::api::imp::time::{
    span_fits, span_of, timespec_to_timevalue, TimeValue, Timespec,
};
use crate::errno::LinuxError;
use crate::signal::ctypes;
use crate::signal::ctypes::{
    SignalAction, SignalInfo, SignalSet, SIGKILL, SIGSET_SIZE, SIGSTOP, SI_USER,
};
use crate::signal::delivery::{left, sigreturn, SignalFrame, TrapFrame};
use crate::signal::{SignalManager, SignalsView};
use crate::user::{Outcome, UserRef};
use vstd::prelude::*;

verus! {

/// Examines and changes the blocked signals of the task.
pub fn sys_rt_sigprocmask(
    sigman: &mut SignalManager,
    how: i32,
    set: UserRef<SignalSet>,
    oldset: UserRef<()>,
    sigsetsize: usize,
) -> (r: Outcome<SignalSet>)
    requires
        old(sigman).wf(),
    ensures
        final(sigman).wf(),
        match sigprocmask(how, old(sigman)@.blocked, set, oldset, sigsetsize) {
            Ok(after) => r.result == Ok::<isize, LinuxError>(0) && final(sigman)@ == (SignalsView {
                blocked: after,
                ..old(sigman)@
            }),
            Err(e) => r.result == Err::<isize, LinuxError>(e) && final(sigman)@ == old(sigman)@,
        },
        match r.written {
            Some(w) => sigsetsize == SIGSET_SIZE && oldset is Valid && w@ == old(sigman)@.blocked,
            None => sigsetsize != SIGSET_SIZE || !(oldset is Valid),
        },
{
    let mut blocked = sigman.blocked();
    let r = api::imp::signal::sys_rt_sigprocmask(&mut blocked, how, set, oldset, sigsetsize);
    sigman.set_blocked(blocked);
    r
}

/// Whether the action of signal `signum` can be changed.
pub open spec fn changeable(signum: i32) -> bool {
    1 <= signum < 32 && signum != SIGKILL && signum != SIGSTOP
}

/// What a call of `sys_rt_sigaction` comes to, where `before` are the signals before it.
pub open spec fn sigaction_done(
    before: SignalsView,
    signum: i32,
    act: UserRef<SignalAction>,
    oldact: UserRef<()>,
    sigsetsize: usize,
    after: SignalsView,
    r: Outcome<SignalAction>,
) -> bool {
    if sigsetsize == SIGSET_SIZE && changeable(signum) {
        &&& r.written == if oldact is Valid {
            Some(before.actions[signum as int])
        } else {
            None
        }
        &&& match (oldact, act) {
            (UserRef::Invalid(e), _) => r.result == Err::<isize, LinuxError>(e) && after == before,
            (_, UserRef::Invalid(e)) => r.result == Err::<isize, LinuxError>(e) && after == before,
            (_, UserRef::Null) => r.result == Ok::<isize, LinuxError>(0) && after == before,
            (_, UserRef::Valid(action)) => r.result == Ok::<isize, LinuxError>(0) && after == (
            SignalsView { actions: before.actions.update(signum as int, action), ..before }),
        }
    } else {
        &&& r.written is None
        &&& r.result == Err::<isize, LinuxError>(LinuxError::EINVAL)
        &&& after == before
    }
}

/// Examines and changes the action of a signal.
pub fn sys_rt_sigaction(
    sigman: &mut SignalManager,
    signum: i32,
    act: UserRef<SignalAction>,
    oldact: UserRef<()>,
    sigsetsize: usize,
) -> (r: Outcome<SignalAction>)
    requires
        old(sigman).wf(),
    ensures
        final(sigman).wf(),
        sigaction_done(old(sigman)@, signum, act, oldact, sigsetsize, final(sigman)@, r),
{
    if let Err(e) = check_sigset_size(sigsetsize) {
        return Outcome { written: None, result: Err(e) };
    }
    if signum < 1 || signum >= 32 {
        return Outcome { written: None, result: Err(LinuxError::EINVAL) };
    }
    let signum: u32 = signum as u32;
    if signum == SIGKILL || signum == SIGSTOP {
        return Outcome { written: None, result: Err(LinuxError::EINVAL) };
    }
    let written: Option<SignalAction> = match oldact {
        UserRef::Null => None,
        UserRef::Invalid(e) => {
            return Outcome { written: None, result: Err(e) };
        },
        UserRef::Valid(_) => Some(*sigman.action(signum)),
    };
    match act {
        UserRef::Null => {},
        UserRef::Invalid(e) => {
            return Outcome { written, result: Err(e) };
        },
        UserRef::Valid(action) => sigman.set_action(signum, action),
    }
    Outcome { written, result: Ok(0) }
}

/// Reports the pending signals of the task.
pub fn sys_rt_sigpending(
    sigman: &SignalManager,
    set: Result<(), LinuxError>,
    sigsetsize: usize,
) -> (r: Outcome<SignalSet>)
    requires
        sigman.wf(),
    ensures
        match (sigsetsize == SIGSET_SIZE, set) {
            (false, _) => r.written is None && r.result == Err::<isize, LinuxError>(
                LinuxError::EINVAL,
            ),
            (true, Err(e)) => r.written is None && r.result == Err::<isize, LinuxError>(e),
            (true, Ok(_)) => {
                &&& r.written matches Some(w)
                &&& w@ == sigman@.pending.dom()
                &&& r.result == Ok::<isize, LinuxError>(0)
            },
        },
{
    api::imp::signal::sys_rt_sigpending(sigman.pending(), set, sigsetsize)
}

/// Returns from a signal handler. The call returns what the registers hold that
/// it restores.
pub fn sys_rt_sigreturn<R: Copy>(
    sigman: &mut SignalManager,
    tf: &mut TrapFrame<R>,
    frame: &SignalFrame<R>,
    rewind: usize,
) -> (r: Result<isize, LinuxError>)
    requires
        old(sigman).wf(),
        rewind <= frame.tf.ip,
    ensures
        final(sigman).wf(),
        (final(sigman)@, *final(tf)) == left(old(sigman)@, frame@, rewind as int),
        r == Ok::<isize, LinuxError>(frame.tf.retval as isize),
{
    sigreturn(sigman, tf, frame, rewind);
    Ok(tf.retval as isize)
}

/// Takes the next pending signal of `set`, if there is one.
pub open spec fn taken(s: SignalsView, set: Set<u32>) -> (SignalsView, Option<SignalInfo>) {
    match ctypes::next_signal(s.pending.dom().intersect(set), Set::<u32>::empty()) {
        Some(n) => (s.without(n), Some(s.pending[n])),
        None => (s, None),
    }
}

/// How a signal that was waited for is reported.
pub open spec fn reported(sig: SignalInfo, info: UserRef<()>, r: Outcome<SignalInfo>) -> bool {
    match info {
        UserRef::Null => r.written is None && r.result == Ok::<isize, LinuxError>(0),
        UserRef::Invalid(e) => r.written is None && r.result == Err::<isize, LinuxError>(e),
        UserRef::Valid(_) => r.written == Some(sig) && r.result == Ok::<isize, LinuxError>(0),
    }
}

/// How the wait for a signal begins.
#[derive(Debug)]
pub enum TimedWait {
    /// There is nothing to wait for: the call returns.
    Done(Outcome<SignalInfo>),
    /// The task sleeps until one of the signals arrives, or until the time is
    /// over.
    Sleep { set: SignalSet, timeout: Option<TimeValue> },
}

/// Whether the time that a caller asks to wait for can be told.
pub open spec fn tellable(timeout: UserRef<Timespec>) -> bool {
    timeout matches UserRef::Valid(ts) ==> span_fits(ts)
}

/// Begins to wait for a signal of `set`. Only blocked signals can be waited
/// for: the others are delivered.
pub fn begin_sigtimedwait(
    sigman: &mut SignalManager,
    set: Result<SignalSet, LinuxError>,
    info: UserRef<()>,
    timeout: UserRef<Timespec>,
    sigsetsize: usize,
) -> (r: TimedWait)
    requires
        old(sigman).wf(),
        tellable(timeout),
    ensures
        final(sigman).wf(),
        match (sigsetsize == SIGSET_SIZE, set, timeout) {
            (false, _, _) => {
                &&& r matches TimedWait::Done(out)
                &&& out.written is None
                &&& out.result == Err::<isize, LinuxError>(LinuxError::EINVAL)
                &&& final(sigman)@ == old(sigman)@
            },
            (true, Err(e), _) => {
                &&& r matches TimedWait::Done(out)
                &&& out.written is None
                &&& out.result == Err::<isize, LinuxError>(e)
                &&& final(sigman)@ == old(sigman)@
            },
            (true, Ok(_), UserRef::Invalid(e)) => {
                &&& r matches TimedWait::Done(out)
                &&& out.written is None
                &&& out.result == Err::<isize, LinuxError>(e)
                &&& final(sigman)@ == old(sigman)@
            },
            (true, Ok(set), _) => {
                let wanted = set@.intersect(old(sigman)@.blocked);
                let (after, found) = taken(old(sigman)@, wanted);
                match found {
                    Some(sig) => {
                        &&& r matches TimedWait::Done(out)
                        &&& reported(sig, info, out)
                        &&& final(sigman)@ == after
                    },
                    None => {
                        &&& r matches TimedWait::Sleep { set: waiting, timeout: span }
                        &&& waiting@ == wanted
                        &&& match (timeout, span) {
                            (UserRef::Valid(ts), Some(span)) => {
                                &&& span.wf()
                                &&& span.total() == span_of(ts)
                            },
                            (UserRef::Null, None) => true,
                            _ => false,
                        }
                        &&& final(sigman)@ == (SignalsView { waiting: wanted, ..old(sigman)@ })
                    },
                }
            },
        },
{
    if let Err(e) = check_sigset_size(sigsetsize) {
        return TimedWait::Done(Outcome { written: None, result: Err(e) });
    }
    let mut set = match set {
        Ok(set) => set,
        Err(e) => {
            return TimedWait::Done(Outcome { written: None, result: Err(e) });
        },
    };
    let timeout: Option<TimeValue> = match timeout {
        UserRef::Null => None,
        UserRef::Invalid(e) => {
            return TimedWait::Done(Outcome { written: None, result: Err(e) });
        },
        UserRef::Valid(ts) => Some(timespec_to_timevalue(ts)),
    };
    let ghost asked = set@;
    let unblocked = sigman.blocked().complement();
    set.remove_from(&unblocked);
    assert(set@ =~= asked.intersect(old(sigman)@.blocked)) by {
        assert forall|n: u32| asked.contains(n) implies ctypes::is_signal(n) by {}
    }
    let found = sigman.dequeue_signal_in(&set);
    if found.is_some() {
        return TimedWait::Done(api::imp::signal::sys_rt_sigtimedwait(found, info));
    }
    sigman.set_waiting(set);
    TimedWait::Sleep { set, timeout }
}

/// Ends the wait for a signal of `set`, once the task is awake again.
pub fn sys_rt_sigtimedwait(sigman: &mut SignalManager, set: &SignalSet, info: UserRef<()>) -> (r:
    Outcome<SignalInfo>)
    requires
        old(sigman).wf(),
    ensures
        final(sigman).wf(),
        final(sigman)@ == taken(old(sigman)@, set@).0,
        match taken(old(sigman)@, set@).1 {
            Some(sig) => reported(sig, info, r),
            None => r.written is None && r.result == Err::<isize, LinuxError>(LinuxError::EAGAIN),
        },
{
    let found = sigman.dequeue_signal_in(set);
    api::imp::signal::sys_rt_sigtimedwait(found, info)
}

/// Begins to wait with the signals of `set` blocked, but for those that cannot
/// be. Returns the signals that were blocked before. `advance` is how far the
/// program counter moves on, for machines on which a system call moves it.
pub fn begin_sigsuspend<R: Copy>(
    sigman: &mut SignalManager,
    tf: &mut TrapFrame<R>,
    set: Result<SignalSet, LinuxError>,
    sigsetsize: usize,
    advance: usize,
) -> (r: Result<SignalSet, LinuxError>)
    requires
        old(sigman).wf(),
        old(tf).ip + advance <= usize::MAX,
    ensures
        final(sigman).wf(),
        match (sigsetsize == SIGSET_SIZE, set) {
            (true, Ok(set)) => {
                &&& r matches Ok(old_blocked)
                &&& old_blocked@ == old(sigman)@.blocked
                &&& final(sigman)@.blocked == set@.remove(SIGKILL).remove(SIGSTOP)
                &&& forall|n: u32| #[trigger]
                    final(sigman)@.waiting.contains(n) <==> ctypes::is_signal(n) && !final(sigman)@.blocked.contains(n)
                &&& final(sigman)@ == (SignalsView {
                    blocked: final(sigman)@.blocked,
                    waiting: final(sigman)@.waiting,
                    ..old(sigman)@
                })
                &&& *final(tf) == (TrapFrame {
                    ip: (old(tf).ip + advance) as usize,
                    retval: EINTR_RETVAL,
                    ..*old(tf)
                })
            },
            (true, Err(e)) => {
                &&& r == Err::<SignalSet, LinuxError>(e)
                &&& final(sigman)@ == old(sigman)@
                &&& *final(tf) == *old(tf)
            },
            (false, _) => {
                &&& r == Err::<SignalSet, LinuxError>(LinuxError::EINVAL)
                &&& final(sigman)@ == old(sigman)@
                &&& *final(tf) == *old(tf)
            },
        },
{
    if let Err(e) = check_sigset_size(sigsetsize) {
        return Err(e);
    }
    match set {
        Err(e) => Err(e),
        Ok(set) => {
            let set = blockable(set);
            let old_blocked = sigman.blocked();
            sigman.set_blocked(set);
            sigman.set_waiting(set.complement());
            tf.ip = tf.ip + advance;
            tf.retval = EINTR_RETVAL;
            Ok(old_blocked)
        },
    }
}

/// Goes on after a signal was acted on while the task waits: `ran` says whether
/// a handler was entered for it. If so, the signals are blocked again that were
/// before, it is noted that a handler was entered, and the call returns.
pub fn sys_rt_sigsuspend(sigman: &mut SignalManager, old_blocked: SignalSet, ran: bool) -> (r:
    Option<isize>)
    requires
        old(sigman).wf(),
    ensures
        final(sigman).wf(),
        if ran {
            &&& r == Some(0isize)
            &&& final(sigman)@ == (SignalsView {
                blocked: old_blocked@,
                prevent_signal_handling: true,
                ..old(sigman)@
            })
        } else {
            r is None && final(sigman)@ == old(sigman)@
        },
{
    if !ran {
        return None;
    }
    sigman.set_blocked(old_blocked);
    sigman.set_prevent_signal_handling(true);
    Some(0)
}

/// A task and its signals.
pub struct SignalTask {
    pub id: u64,
    pub signal: SignalManager,
}

/// Where the first of `tasks` is that has the number `id`.
pub open spec fn first_task(tasks: Seq<SignalTask>, id: u64, i: int) -> bool {
    &&& 0 <= i < tasks.len()
    &&& tasks[i].id == id
    &&& forall|j: int| 0 <= j < i ==> (#[trigger] tasks[j]).id != id
}

/// How many of `tasks` take the signal, because it is not pending there.
pub open spec fn takers(tasks: Seq<SignalTask>, signo: u32) -> int
    decreases tasks.len(),
{
    if tasks.len() == 0 {
        0
    } else {
        takers(tasks.drop_last(), signo) + takes(tasks.last().signal@, signo)
    }
}

/// One if the signal is taken, zero if it is pending already.
pub open spec fn takes(s: SignalsView, signo: u32) -> int {
    if s.pending.contains_key(signo) {
        0
    } else {
        1
    }
}

/// Whether `after` is `before` with the signal sent to every task.
pub open spec fn sent_to_all(
    before: Seq<SignalTask>,
    after: Seq<SignalTask>,
    sig: SignalInfo,
) -> bool {
    &&& after.len() == before.len()
    &&& forall|i: int|
        0 <= i < before.len() ==> (#[trigger] after[i]).id == before[i].id && after[i].signal@
            == before[i].signal@.sent(sig)
}

/// Whether `after` is `before` with the signal sent to the task at `k`, and to
/// no other.
pub open spec fn sent_to_one(
    before: Seq<SignalTask>,
    after: Seq<SignalTask>,
    k: int,
    sig: SignalInfo,
) -> bool {
    &&& after.len() == before.len()
    &&& forall|i: int|
        0 <= i < before.len() ==> (#[trigger] after[i]).id == before[i].id && after[i].signal@
            == if i == k {
            before[i].signal@.sent(sig)
        } else {
            before[i].signal@
        }
}

/// Whether all the managers of tasks are well-formed.
pub open spec fn tasks_wf(tasks: Seq<SignalTask>) -> bool {
    forall|i: int| 0 <= i < tasks.len() ==> (#[trigger] tasks[i]).signal.wf()
}

/// Sends a signal to all tasks. Returns how many took it.
fn send_to_all(tasks: &mut Vec<SignalTask>, sig: SignalInfo) -> (count: usize)
    requires
        tasks_wf(old(tasks)@),
        1 <= sig.signo < 32,
    ensures
        tasks_wf(final(tasks)@),
        sent_to_all(old(tasks)@, final(tasks)@, sig),
        count == takers(old(tasks)@, sig.signo),
        count <= old(tasks)@.len(),
{
    let mut count: usize = 0;
    let mut i: usize = 0;
    let ghost before = old(tasks)@;
    while i < tasks.len()
        invariant
            i <= tasks@.len(),
            tasks@.len() == before.len(),
            1 <= sig.signo < 32,
            tasks_wf(tasks@),
            before == old(tasks)@,
            count == takers(before.take(i as int), sig.signo),
            count <= i,
            forall|j: int|
                0 <= j < i ==> (#[trigger] tasks@[j]).id == before[j].id && tasks@[j].signal@
                    == before[j].signal@.sent(sig),
            forall|j: int| i <= j < before.len() ==> #[trigger] tasks@[j] == before[j],
        decreases tasks@.len() - i,
    {
        assert(before.take(i + 1).drop_last() =~= before.take(i as int));
        assert(tasks@[i as int].signal.wf());
        if tasks[i].signal.send_signal(sig) {
            count = count + 1;
        }
        i = i + 1;
    }
    assert(before.take(i as int) =~= before);
    count
}

/// What a call of `sys_kill` comes to.
pub open spec fn kill_done(
    own: SignalTask,
    children: Seq<SignalTask>,
    pid: i32,
    sig: i32,
    own_final: SignalTask,
    children_final: Seq<SignalTask>,
    r: Result<isize, LinuxError>,
) -> bool {
    let info = SignalInfo { signo: sig as u32, code: SI_USER };
    let own_before = own.signal@;
    let own_after = own_final.signal@;
    let unchanged = children_final == children;
    if !(1 <= sig < 32) {
        &&& r == Err::<isize, LinuxError>(LinuxError::EINVAL)
        &&& own_after == own_before
        &&& unchanged
    } else if pid < -1 {
        &&& r == Err::<isize, LinuxError>(LinuxError::ENOSYS)
        &&& own_after == own_before
        &&& unchanged
    } else if pid == -1 {
        &&& r == Ok::<isize, LinuxError>(
            (takers(children, info.signo) + takes(own_before, info.signo)) as isize,
        )
        &&& own_after == own_before.sent(info)
        &&& sent_to_all(children, children_final, info)
    } else if pid == 0 || own.id == pid {
        &&& r == Ok::<isize, LinuxError>(takes(own_before, info.signo) as isize)
        &&& own_after == own_before.sent(info)
        &&& unchanged
    } else {
        &&& own_after == own_before
        &&& match r {
            Ok(count) => exists|k: int| #[trigger]
                first_task(children, pid as u64, k) && count == takes(
                    children[k].signal@,
                    info.signo,
                ) && sent_to_one(children, children_final, k, info),
            Err(e) => e == LinuxError::ESRCH && unchanged && forall|k: int|
                0 <= k < children.len() ==> (#[trigger] children[k]).id != pid,
        }
    }
}

/// Sends a signal to the calling task, to one of its children, or to all of
/// them. Returns to how many it was sent to which it was not pending.
pub fn sys_kill(
    own: &mut SignalTask,
    children: &mut Vec<SignalTask>,
    pid: i32,
    sig: i32,
) -> (r: Result<isize, LinuxError>)
    requires
        old(own).signal.wf(),
        tasks_wf(old(children)@),
        old(children)@.len() < isize::MAX,
    ensures
        final(own).signal.wf(),
        tasks_wf(final(children)@),
        final(own).id == old(own).id,
        kill_done(*old(own), old(children)@, pid, sig, *final(own), final(children)@, r),
{
    if sig < 1 || sig >= 32 {
        return Err(LinuxError::EINVAL);
    }
    let info = SignalInfo::new(sig as u32, SI_USER);
    if pid < -1 {
        return Err(LinuxError::ENOSYS);
    }
    if pid == -1 {
        let count: usize = send_to_all(children, info);
        let took = own.signal.send_signal(info);
        let result: isize = if took {
            count as isize + 1
        } else {
            count as isize
        };
        return Ok(result);
    }
    if pid == 0 || own.id == pid as u64 {
        let took = own.signal.send_signal(info);
        let result: isize = if took {
            1
        } else {
            0
        };
        return Ok(result);
    }
    let mut i: usize = 0;
    while i < children.len()
        invariant
            i <= children@.len(),
            children@ == old(children)@,
            pid > 0,
            forall|j: int| 0 <= j < i ==> (#[trigger] children@[j]).id != pid as u64,
        ensures
            i < children@.len() ==> children@[i as int].id == pid as u64,
        decreases children@.len() - i,
    {
        if children[i].id == pid as u64 {
            break;
        }
        i = i + 1;
    }
    if i == children.len() {
        return Err(LinuxError::ESRCH);
    }
    assert(children@[i as int].signal.wf());
    let took = children[i].signal.send_signal(info);
    assert(first_task(old(children)@, pid as u64, i as int));
    let result: isize = if took {
        1
    } else {
        0
    };
    Ok(result)
}

/// A signal that is sent twice before it is delivered is delivered once.
pub proof fn law_signals_do_not_queue(s: SignalsView, sig: SignalInfo, again: SignalInfo)
    requires
        sig.signo == again.signo,
    ensures
        s.sent(sig).sent(again) == s.sent(sig),
{
}

/// Signals that cannot be blocked end every wait.
pub proof fn law_kill_and_stop_are_never_blocked(set: Set<u32>)
    ensures
        !set.remove(SIGKILL).remove(SIGSTOP).contains(SIGKILL),
        !set.remove(SIGKILL).remove(SIGSTOP).contains(SIGSTOP),
{
}

/// What is sent by `sys_kill`, and to whom: zero and the number of the task itself mean the
/// task, minus one the task and every child, any other positive number the first child with
/// it. Whoever is meant has the signal pending afterwards, with what was known of it if it was
/// pending before; nobody else changes, and no other signal of those who are meant. The
/// call returns how many of those who are meant did not have the signal pending.
pub proof fn law_kill_reaches_the_tasks_meant(
    own: SignalTask,
    children: Seq<SignalTask>,
    pid: i32,
    sig: i32,
    own_final: SignalTask,
    children_final: Seq<SignalTask>,
    r: Result<isize, LinuxError>,
    i: int,
    m: u32,
)
    requires
        children.len() < isize::MAX,
        0 <= i < children.len(),
        kill_done(own, children, pid, sig, own_final, children_final, r),
    ensures
        ({
            let n = sig as u32;
            let good = 1 <= sig && sig <= 31 && pid >= -1;
            let to_own = good && (pid == 0 || pid == -1 || own.id == pid);
            let to_all = good && pid == -1;
            let to_child = good && !to_own && children[i].id == pid && forall|j: int|
                0 <= j < i ==> (#[trigger] children[j]).id != pid;
            let before = children[i].signal@;
            let after = children_final[i].signal@;
            &&& !(1 <= sig && sig <= 31) ==> r == Err::<isize, LinuxError>(LinuxError::EINVAL)
            &&& 1 <= sig && sig <= 31 && pid < -1 ==> r == Err::<isize, LinuxError>(
                LinuxError::ENOSYS,
            )
            &&& children_final.len() == children.len()
            &&& to_own ==> own_final.signal@.pending.contains_key(n)
            &&& to_own && !own.signal@.pending.contains_key(n) ==> own_final.signal@.pending[n] == (
            SignalInfo { signo: n, code: 0 })
            &&& !to_own ==> own_final.signal@ == own.signal@
            &&& m != n || own.signal@.pending.contains_key(m) ==> (
            own_final.signal@.pending.contains_key(m) <==> own.signal@.pending.contains_key(m))
                && own_final.signal@.pending[m] == own.signal@.pending[m]
            &&& own_final.signal@.blocked == own.signal@.blocked
            &&& own_final.signal@.actions == own.signal@.actions
            &&& to_all || to_child ==> after.pending.contains_key(n)
            &&& (to_all || to_child) && !before.pending.contains_key(n) ==> after.pending[n] == (
            SignalInfo { signo: n, code: 0 })
            &&& !to_all && !to_child ==> after == before
            &&& m != n || before.pending.contains_key(m) ==> (after.pending.contains_key(m)
                <==> before.pending.contains_key(m)) && after.pending[m] == before.pending[m]
            &&& after.blocked == before.blocked
            &&& after.actions == before.actions
            &&& to_all ==> r is Ok && r->Ok_0 == takers(children, n) + (
            if own.signal@.pending.contains_key(n) {
                0int
            } else {
                1int
            })
            &&& good && to_own && !to_all ==> r is Ok && (r->Ok_0 == 1
                <==> !own.signal@.pending.contains_key(n)) && (r->Ok_0 == 0
                <==> own.signal@.pending.contains_key(n))
            &&& to_child ==> r is Ok && (r->Ok_0 == 1 <==> !before.pending.contains_key(n)) && (
            r->Ok_0 == 0 <==> before.pending.contains_key(n))
            &&& good && !to_own && (forall|j: int|
                0 <= j < children.len() ==> (#[trigger] children[j]).id != pid) ==> r == Err::<
                isize,
                LinuxError,
            >(LinuxError::ESRCH)
        }),
{
    let n = sig as u32;
    let info = SignalInfo { signo: n, code: SI_USER };
    if 1 <= sig && sig <= 31 && pid > 0 && own.id != pid {
        if let Ok(count) = r {
            let k = choose|k: int| #[trigger]
                first_task(children, pid as u64, k) && count == takes(
                    children[k].signal@,
                    info.signo,
                ) && sent_to_one(children, children_final, k, info);
            assert(children[k].id == pid);
            assert(children_final[i].id == children[i].id);
        }
    }
    if 1 <= sig && sig <= 31 && pid == -1 {
        lemma_takers_bound(children, n);
        assert(children_final[i].id == children[i].id);
    }
}

/// No more tasks take a signal than there are.
proof fn lemma_takers_bound(tasks: Seq<SignalTask>, signo: u32)
    ensures
        0 <= takers(tasks, signo) <= tasks.len(),
    decreases tasks.len(),
{
    if tasks.len() > 0 {
        lemma_takers_bound(tasks.drop_last(), signo);
    }
}

/// A signal for all is counted once for each task that did not have it pending.
pub proof fn law_each_taker_is_counted(tasks: Seq<SignalTask>, task: SignalTask, signo: u32)
    ensures
        takers(Seq::empty(), signo) == 0,
        takers(tasks.push(task), signo) == takers(tasks, signo) + (
        if task.signal@.pending.contains_key(signo) {
            0int
        } else {
            1int
        }),
{
    assert(tasks.push(task).drop_last() =~= tasks);
}

/// The action of every signal from one to 31 can be changed but that of `SIGKILL` and
/// `SIGSTOP`, and only the action of the signal that is named changes, to what is given. What
/// it was is reported where it is asked for. A call that fails changes nothing.
pub proof fn law_sigaction_changes_one_action(
    before: SignalsView,
    signum: i32,
    act: UserRef<SignalAction>,
    oldact: UserRef<()>,
    sigsetsize: usize,
    after: SignalsView,
    r: Outcome<SignalAction>,
    i: int,
)
    requires
        before.actions.len() == 32,
        0 <= i < 32,
        sigaction_done(before, signum, act, oldact, sigsetsize, after, r),
    ensures
        r.result is Ok <==> {
            &&& sigsetsize == 8
            &&& 1 <= signum && signum <= 31 && signum != 9 && signum != 19
            &&& !(oldact is Invalid)
            &&& !(act is Invalid)
        },
        r.result is Ok ==> r.result->Ok_0 == 0,
        sigsetsize != 8 || signum < 1 || signum > 31 || signum == 9 || signum == 19 ==> r.result
            == Err::<isize, LinuxError>(LinuxError::EINVAL) && r.written is None,
        r.result is Ok && act is Valid ==> after.actions[signum as int] == act->Valid_0,
        i != signum || !(act is Valid) || r.result is Err ==> after.actions[i] == before.actions[i],
        r.result is Ok && oldact is Valid ==> r.written == Some(before.actions[signum as int]),
        oldact is Null ==> r.written is None,
        after.pending == before.pending,
        after.blocked == before.blocked,
        after.waiting == before.waiting,
{
}

/// A wait for a signal takes the lowest signal of the set that is pending, and takes none
/// where none of the set is. What was known of the signal is handed out, and every other
/// signal stays.
pub proof fn law_lowest_of_the_set_is_taken(s: SignalsView, set: Set<u32>, m: u32)
    requires
        forall|n: u32| #[trigger] s.pending.contains_key(n) ==> s.pending[n].signo == n,
    ensures
        match taken(s, set).1 {
            Some(sig) => {
                let n = sig.signo;
                &&& s.pending.contains_key(n)
                &&& set.contains(n)
                &&& sig == s.pending[n]
                &&& s.pending.contains_key(m) && set.contains(m) ==> n <= m
                &&& taken(s, set).0.pending == s.pending.remove(n)
            },
            None => {
                &&& !(s.pending.contains_key(m) && set.contains(m))
                &&& taken(s, set).0 == s
            },
        },
        taken(s, set).0.blocked == s.blocked,
        taken(s, set).0.actions == s.actions,
{
    let wanted = s.pending.dom().intersect(set);
    let none = Set::<u32>::empty();
    match ctypes::next_signal(wanted, none) {
        Some(n) => {
            assert(ctypes::first_signal(wanted, none, n));
            if s.pending.contains_key(m) && set.contains(m) {
                assert(wanted.contains(m));
            }
        },
        None => {
            if s.pending.contains_key(m) && set.contains(m) {
                assert(wanted.contains(m));
                lemma_some_first(wanted, m);
            }
        },
    }
}

/// A set that is not empty has a lowest signal.
proof fn lemma_some_first(wanted: Set<u32>, n: u32)
    requires
        wanted.contains(n),
    ensures
        exists|m: u32| #[trigger] ctypes::first_signal(wanted, Set::<u32>::empty(), m),
    decreases n,
{
    if exists|m: u32| m < n && #[trigger] wanted.contains(m) {
        let m = choose|m: u32| m < n && #[trigger] wanted.contains(m);
        lemma_some_first(wanted, m);
    } else {
        assert(ctypes::first_signal(wanted, Set::<u32>::empty(), n));
    }
}

/// A signal that was waited for is reported where the caller asks for it, and the call
/// succeeds unless it cannot be.
pub proof fn law_waited_signal_is_reported(
    sig: SignalInfo,
    info: UserRef<()>,
    r: Outcome<SignalInfo>,
)
    requires
        reported(sig, info, r),
    ensures
        r.written is Some <==> info is Valid,
        r.written is Some ==> r.written->0 == sig,
        info is Invalid ==> r.result == Err::<isize, LinuxError>(info->Invalid_0),
        !(info is Invalid) ==> r.result == Ok::<isize, LinuxError>(0),
{
}

/// A call that a signal interrupted leaves the negative of the code of `EINTR` behind.
pub proof fn law_interrupted_call_returns_eintr()
    ensures
        EINTR_RETVAL + LinuxError::EINTR.spec_code() == usize::MAX + 1,
{
}

} // verus!
