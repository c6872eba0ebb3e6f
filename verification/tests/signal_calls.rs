use starry::api::imp::signal as api;
use starry::api::imp::signal::{
    KillTarget, ProcessRef, SignalCheck, SignalOSAction, SuspendStep, ThreadRef, EINTR_RETVAL,
};
use starry::api::imp::time::{TimeValue, Timespec};
use starry::errno::LinuxError;
use starry::signal::ctypes::{
    SignalAction, SignalActions, SignalDisposition, SignalInfo, SignalSet, SI_TKILL, SI_USER,
};
use starry::signal::delivery::{SignalFrame, TrapFrame};
use starry::signal::SignalManager;
use starry::syscall_imp::signal as task;
use starry::syscall_imp::signal::{SignalTask, TimedWait};
use starry::user::UserRef;

fn set_of(signals: &[u32]) -> SignalSet {
    let mut set = SignalSet::new();
    for n in signals {
        set.add(*n);
    }
    set
}

fn proc(pid: u32, is_init: bool, has_data: bool) -> ProcessRef {
    ProcessRef { pid, is_init, has_data }
}

#[test]
fn constants_are_those_of_linux() {
    assert_eq!(SI_USER, linux_raw_sys::general::SI_USER);
    assert_eq!(SI_TKILL, linux_raw_sys::general::SI_TKILL as u32);
    assert_eq!(linux_raw_sys::general::SIG_BLOCK, 0);
    assert_eq!(linux_raw_sys::general::SIG_UNBLOCK, 1);
    assert_eq!(linux_raw_sys::general::SIG_SETMASK, 2);
    assert_eq!(starry::signal::ctypes::SIGKILL, linux_raw_sys::general::SIGKILL);
    assert_eq!(starry::signal::ctypes::SIGSTOP, linux_raw_sys::general::SIGSTOP);
    assert_eq!(starry::signal::ctypes::SIGCHLD, linux_raw_sys::general::SIGCHLD);
    assert_eq!(starry::signal::ctypes::SIGSEGV, linux_raw_sys::general::SIGSEGV);
    assert_eq!(EINTR_RETVAL as isize, -4);
}

#[test]
fn sigprocmask() {
    let mut blocked = set_of(&[1, 2]);
    let r = api::sys_rt_sigprocmask(
        &mut blocked,
        0,
        UserRef::Valid(set_of(&[3])),
        UserRef::Valid(()),
        8,
    );
    assert_eq!((r.written, r.result), (Some(set_of(&[1, 2])), Ok(0)));
    assert_eq!(blocked, set_of(&[1, 2, 3]));
    let r = api::sys_rt_sigprocmask(
        &mut blocked,
        1,
        UserRef::Valid(set_of(&[1])),
        UserRef::Null,
        8,
    );
    assert_eq!((r.written, r.result), (None, Ok(0)));
    assert_eq!(blocked, set_of(&[2, 3]));
    let r = api::sys_rt_sigprocmask(
        &mut blocked,
        2,
        UserRef::Valid(set_of(&[9])),
        UserRef::Null,
        8,
    );
    assert_eq!(r.result, Ok(0));
    assert_eq!(blocked, set_of(&[9]));
    // reported although the call fails
    let r = api::sys_rt_sigprocmask(
        &mut blocked,
        3,
        UserRef::Valid(set_of(&[1])),
        UserRef::Valid(()),
        8,
    );
    assert_eq!((r.written, r.result), (Some(set_of(&[9])), Err(LinuxError::EINVAL)));
    let r = api::sys_rt_sigprocmask(
        &mut blocked,
        -1,
        UserRef::Null,
        UserRef::Null,
        8,
    );
    assert_eq!(r.result, Ok(0));
    let r = api::sys_rt_sigprocmask(
        &mut blocked,
        0,
        UserRef::Invalid(LinuxError::EFAULT),
        UserRef::Null,
        8,
    );
    assert_eq!(r.result, Err(LinuxError::EFAULT));
    let r = api::sys_rt_sigprocmask(&mut blocked, 0, UserRef::Null, UserRef::Valid(()), 4);
    assert_eq!((r.written, r.result), (None, Err(LinuxError::EINVAL)));
    assert_eq!(blocked, set_of(&[9]));
}

#[test]
fn sigaction() {
    let mut actions = SignalActions::new();
    let mut action = SignalAction::new();
    action.disposition = SignalDisposition::Ignore;
    let r = api::sys_rt_sigaction(&mut actions, 34, UserRef::Valid(action), UserRef::Valid(()), 8);
    assert_eq!(r.result, Ok(0));
    assert_eq!(r.written.unwrap().disposition, SignalDisposition::Default);
    assert_eq!(actions.get(34).disposition, SignalDisposition::Ignore);
    // the low byte counts
    let r = api::sys_rt_sigaction(&mut actions, 256 + 34, UserRef::Null, UserRef::Valid(()), 8);
    assert_eq!(r.written.unwrap().disposition, SignalDisposition::Ignore);
    for signo in [0, 9, 19, 65, -1] {
        let r =
            api::sys_rt_sigaction(&mut actions, signo, UserRef::Null, UserRef::Valid(()), 8);
        assert_eq!(r.result, Err(LinuxError::EINVAL));
        assert!(r.written.is_none());
    }
    let r = api::sys_rt_sigaction(
        &mut actions,
        1,
        UserRef::Invalid(LinuxError::EFAULT),
        UserRef::Valid(()),
        8,
    );
    assert!(r.written.is_some());
    assert_eq!(r.result, Err(LinuxError::EFAULT));
}

#[test]
fn sigpending() {
    let r = api::sys_rt_sigpending(set_of(&[5]), Ok(()), 8);
    assert_eq!((r.written, r.result), (Some(set_of(&[5])), Ok(0)));
    let r = api::sys_rt_sigpending(set_of(&[5]), Err(LinuxError::EFAULT), 8);
    assert_eq!((r.written, r.result), (None, Err(LinuxError::EFAULT)));
    let r = api::sys_rt_sigpending(set_of(&[5]), Ok(()), 7);
    assert_eq!((r.written, r.result), (None, Err(LinuxError::EINVAL)));
}

#[test]
fn checks_signals() {
    let sig = SignalInfo::new(2, SI_USER);
    assert_eq!(api::check_signals(None), SignalCheck::Nothing);
    assert_eq!(api::check_signals(Some((sig, SignalOSAction::Terminate))), SignalCheck::Exit(130));
    assert_eq!(api::check_signals(Some((sig, SignalOSAction::CoreDump))), SignalCheck::Exit(130));
    assert_eq!(api::check_signals(Some((sig, SignalOSAction::Stop))), SignalCheck::Exit(1));
    assert_eq!(api::check_signals(Some((sig, SignalOSAction::Continue))), SignalCheck::Handled);
    assert_eq!(api::check_signals(Some((sig, SignalOSAction::Handler))), SignalCheck::Handled);
    assert_eq!(api::sys_rt_sigsuspend(None), SuspendStep::Wait);
    assert_eq!(
        api::sys_rt_sigsuspend(Some((sig, SignalOSAction::Handler))),
        SuspendStep::Return(0)
    );
    assert_eq!(
        api::sys_rt_sigsuspend(Some((sig, SignalOSAction::Terminate))),
        SuspendStep::Exit(130)
    );
}

#[test]
fn kill_targets() {
    assert_eq!(api::kill_target(7), KillTarget::Process(7));
    assert_eq!(api::kill_target(0), KillTarget::OwnGroup);
    assert_eq!(api::kill_target(-1), KillTarget::All);
    assert_eq!(api::kill_target(-5), KillTarget::Group(5));
    assert_eq!(api::kill_target(i32::MIN), KillTarget::Group(0x8000_0000));
}

#[test]
fn kill_one_process() {
    let r = api::sys_kill(7, 9, Ok(vec![proc(7, false, true)]));
    assert_eq!((r.sig, r.sent, r.result), (Some(SignalInfo::new(9, SI_USER)), vec![7], Ok(1)));
    let r = api::sys_kill(7, 9, Ok(vec![proc(7, false, false)]));
    assert_eq!((r.sent, r.result), (vec![], Err(LinuxError::EPERM)));
    let r = api::sys_kill(7, 9, Err(LinuxError::ESRCH));
    assert_eq!((r.sent, r.result), (vec![], Err(LinuxError::ESRCH)));
    let r = api::sys_kill(7, 0, Err(LinuxError::ESRCH));
    assert_eq!((r.sent, r.result), (vec![], Ok(0)));
    let r = api::sys_kill(7, 65, Ok(vec![proc(7, false, true)]));
    assert_eq!((r.sent, r.result), (vec![], Err(LinuxError::EINVAL)));
}

#[test]
fn kill_groups_and_all() {
    let procs = || vec![proc(1, true, true), proc(2, false, true), proc(3, false, true)];
    let r = api::sys_kill(-1, 15, Ok(procs()));
    assert_eq!((r.sent, r.result), (vec![2, 3], Ok(2)));
    let r = api::sys_kill(0, 15, Ok(procs()));
    assert_eq!((r.sent, r.result), (vec![1, 2, 3], Ok(3)));
    let broken = || vec![proc(2, false, true), proc(3, false, false), proc(4, false, true)];
    let r = api::sys_kill(-1, 15, Ok(broken()));
    assert_eq!((r.sent, r.result), (vec![2], Err(LinuxError::EPERM)));
    let r = api::sys_kill(-9, 15, Ok(broken()));
    assert_eq!((r.sent, r.result), (vec![2, 4], Ok(2)));
}

#[test]
fn kill_threads() {
    let thr = ThreadRef { tid: 11, pid: 10, has_data: true };
    let r = api::sys_tkill(5, Ok(thr));
    assert_eq!((r.sig, r.sent, r.result), (Some(SignalInfo::new(5, SI_TKILL)), vec![11], Ok(0)));
    let r = api::sys_tgkill(10, 5, Ok(thr));
    assert_eq!((r.sent, r.result), (vec![11], Ok(0)));
    let r = api::sys_tgkill(12, 5, Ok(thr));
    assert_eq!((r.sent, r.result), (vec![], Err(LinuxError::ESRCH)));
    let r = api::sys_tgkill(12, 0, Ok(thr));
    assert_eq!((r.sent, r.result), (vec![], Ok(0)));
    let r = api::sys_tkill(5, Ok(ThreadRef { has_data: false, ..thr }));
    assert_eq!((r.sent, r.result), (vec![], Err(LinuxError::EPERM)));
}

#[test]
fn waits_for_signals() {
    let ts = Timespec { tv_sec: 1, tv_nsec: 5 };
    let wait = api::begin_sigtimedwait(Ok(set_of(&[3])), UserRef::Valid(ts), 8).unwrap();
    assert_eq!((wait.set, wait.timeout), (set_of(&[3]), Some(ts)));
    assert_eq!(
        api::begin_sigtimedwait(Ok(set_of(&[3])), UserRef::Invalid(LinuxError::EFAULT), 8)
            .unwrap_err(),
        LinuxError::EFAULT
    );
    let sig = SignalInfo::new(3, 1);
    let r = api::sys_rt_sigtimedwait(Some(sig), UserRef::Valid(()));
    assert_eq!((r.written, r.result), (Some(sig), Ok(0)));
    let r = api::sys_rt_sigtimedwait(None, UserRef::Valid(()));
    assert_eq!((r.written, r.result), (None, Err(LinuxError::EAGAIN)));

    let mut blocked = set_of(&[1]);
    let mut retval: usize = 0;
    let old = api::begin_sigsuspend(&mut blocked, &mut retval, Ok(set_of(&[2, 9, 19])), 8);
    assert_eq!(old, Ok(set_of(&[1])));
    assert_eq!(blocked, set_of(&[2]));
    assert_eq!(retval, EINTR_RETVAL);
    assert_eq!(api::sys_rt_sigreturn(usize::MAX), Ok(-1));
}

#[test]
fn task_masks_and_actions() {
    let mut sigman = SignalManager::new();
    let r = task::sys_rt_sigprocmask(
        &mut sigman,
        2,
        UserRef::Valid(set_of(&[4])),
        UserRef::Valid(()),
        8,
    );
    assert_eq!((r.written, r.result), (Some(SignalSet::new()), Ok(0)));
    assert_eq!(sigman.blocked(), set_of(&[4]));
    let mut action = SignalAction::new();
    action.disposition = SignalDisposition::Ignore;
    let r = task::sys_rt_sigaction(&mut sigman, 31, UserRef::Valid(action), UserRef::Null, 8);
    assert_eq!(r.result, Ok(0));
    assert_eq!(sigman.action(31).disposition, SignalDisposition::Ignore);
    for signo in [0, 32, 9, 19, -3] {
        let r = task::sys_rt_sigaction(&mut sigman, signo, UserRef::Null, UserRef::Null, 8);
        assert_eq!(r.result, Err(LinuxError::EINVAL));
    }
    sigman.send_signal(SignalInfo::new(4, 0));
    let r = task::sys_rt_sigpending(&sigman, Ok(()), 8);
    assert_eq!((r.written, r.result), (Some(set_of(&[4])), Ok(0)));
}

#[test]
fn task_returns_from_a_handler() {
    let mut sigman = SignalManager::new();
    let tf = TrapFrame { ip: 8, sp: 1, arg0: 0, arg1: 0, arg2: 0, retval: 42, rest: () };
    let saved = SignalFrame { tf, blocked: set_of(&[6]), siginfo: SignalInfo::new(6, 0) };
    let mut now = TrapFrame { ip: 0, retval: 0, ..tf };
    assert_eq!(task::sys_rt_sigreturn(&mut sigman, &mut now, &saved, 0), Ok(42));
    assert_eq!((now.ip, sigman.blocked()), (8, set_of(&[6])));
}

#[test]
fn task_waits_for_blocked_signals() {
    let mut sigman = SignalManager::new();
    sigman.set_blocked(set_of(&[5]));
    sigman.send_signal(SignalInfo::new(5, 1));
    sigman.send_signal(SignalInfo::new(6, 1));
    match task::begin_sigtimedwait(
        &mut sigman,
        Ok(set_of(&[5, 6])),
        UserRef::Valid(()),
        UserRef::Null,
        8,
    ) {
        TimedWait::Done(out) => {
            assert_eq!((out.written, out.result), (Some(SignalInfo::new(5, 1)), Ok(0)))
        }
        other => panic!("{:?}", other),
    }
    let ts = Timespec { tv_sec: 2, tv_nsec: 1_500_000_000 };
    match task::begin_sigtimedwait(
        &mut sigman,
        Ok(set_of(&[5, 6])),
        UserRef::Null,
        UserRef::Valid(ts),
        8,
    ) {
        TimedWait::Sleep { set, timeout } => {
            assert_eq!(set, set_of(&[5]));
            assert_eq!(timeout, Some(TimeValue { secs: 3, nanos: 500_000_000 }));
            assert_eq!(sigman.waiting(), set_of(&[5]));
            let r = task::sys_rt_sigtimedwait(&mut sigman, &set, UserRef::Null);
            assert_eq!(r.result, Err(LinuxError::EAGAIN));
            sigman.send_signal(SignalInfo::new(5, 2));
            let r = task::sys_rt_sigtimedwait(&mut sigman, &set, UserRef::Null);
            assert_eq!(r.result, Ok(0));
        }
        other => panic!("{:?}", other),
    }
}

#[test]
fn task_suspends() {
    let mut sigman = SignalManager::new();
    sigman.set_blocked(set_of(&[1]));
    let mut tf = TrapFrame { ip: 8, sp: 1, arg0: 0, arg1: 0, arg2: 0, retval: 42, rest: () };
    let old = task::begin_sigsuspend(&mut sigman, &mut tf, Ok(set_of(&[2, 9])), 8, 4).unwrap();
    assert_eq!(old, set_of(&[1]));
    assert_eq!(sigman.blocked(), set_of(&[2]));
    assert!(sigman.waiting().has(9) && !sigman.waiting().has(2));
    assert_eq!((tf.ip, tf.retval), (12, EINTR_RETVAL));
    assert_eq!(task::sys_rt_sigsuspend(&mut sigman, old, false), None);
    assert_eq!(task::sys_rt_sigsuspend(&mut sigman, old, true), Some(0));
    assert_eq!(sigman.blocked(), set_of(&[1]));
    assert!(sigman.prevent_signal_handling());
    assert_eq!(
        task::begin_sigsuspend(&mut sigman, &mut tf, Ok(old), 9, 0),
        Err(LinuxError::EINVAL)
    );
}

#[test]
fn task_kills() {
    let task_of = |id| SignalTask { id, signal: SignalManager::new() };
    let mut own = task_of(1);
    let mut children = vec![task_of(2), task_of(3)];
    assert_eq!(task::sys_kill(&mut own, &mut children, 1, 5), Ok(1));
    assert_eq!(task::sys_kill(&mut own, &mut children, 1, 5), Ok(0));
    assert_eq!(task::sys_kill(&mut own, &mut children, 3, 5), Ok(1));
    assert!(children[1].signal.pending().has(5) && !children[0].signal.pending().has(5));
    assert_eq!(task::sys_kill(&mut own, &mut children, 4, 5), Err(LinuxError::ESRCH));
    assert_eq!(task::sys_kill(&mut own, &mut children, -1, 5), Ok(1));
    assert_eq!(task::sys_kill(&mut own, &mut children, -1, 6), Ok(3));
    assert_eq!(task::sys_kill(&mut own, &mut children, 0, 7), Ok(1));
    assert_eq!(task::sys_kill(&mut own, &mut children, -2, 7), Err(LinuxError::ENOSYS));
    assert_eq!(task::sys_kill(&mut own, &mut children, 1, 0), Err(LinuxError::EINVAL));
    assert_eq!(task::sys_kill(&mut own, &mut children, 1, 32), Err(LinuxError::EINVAL));
}
