use linux_raw_sys::general as linux;
use starry::api::imp::task::clone::{
    sys_clone, sys_fork, CloneAction, CloneEvent, CloneFlags, ProcessPlan, ProcessTables,
    ThreadPointer,
    CLONE_ALL, CLONE_CHILD_CLEARTID, CLONE_CHILD_SETTID, CLONE_FILES, CLONE_FS, CLONE_IO,
    CLONE_NEWCGROUP, CLONE_NEWIPC, CLONE_NEWNET, CLONE_NEWNS, CLONE_NEWPID, CLONE_NEWUSER,
    CLONE_NEWUTS, CLONE_PARENT, CLONE_PARENT_SETTID, CLONE_PTRACE, CLONE_SETTLS, CLONE_SIGHAND,
    CLONE_SYSVSEM, CLONE_THREAD, CLONE_UNTRACED, CLONE_VFORK, CLONE_VM,
};
use starry::api::imp::task::exit::{do_exit, sys_exit, sys_exit_group, ExitAction};
use starry::api::imp::task::thread;
use starry::api::imp::task::thread::{ArchPrctl, CloneRequest, Wait4Step, WaitError, WaitFlags};
use starry::api::imp::task::wait::{begin_waitpid, sys_waitpid, ChildRef, WaitStep};
use starry::errno::LinuxError;
use starry::mm::{handle_page_fault, FaultEvent, FaultStep};
use starry::signal::delivery::TrapFrame;
use starry::user::UserRef;

#[test]
fn clone_flags_are_those_of_linux() {
    let flags = [
        (CLONE_VM, linux::CLONE_VM),
        (CLONE_FS, linux::CLONE_FS),
        (CLONE_FILES, linux::CLONE_FILES),
        (CLONE_SIGHAND, linux::CLONE_SIGHAND),
        (CLONE_PTRACE, linux::CLONE_PTRACE),
        (CLONE_VFORK, linux::CLONE_VFORK),
        (CLONE_PARENT, linux::CLONE_PARENT),
        (CLONE_THREAD, linux::CLONE_THREAD),
        (CLONE_NEWNS, linux::CLONE_NEWNS),
        (CLONE_SYSVSEM, linux::CLONE_SYSVSEM),
        (CLONE_SETTLS, linux::CLONE_SETTLS),
        (CLONE_PARENT_SETTID, linux::CLONE_PARENT_SETTID),
        (CLONE_CHILD_CLEARTID, linux::CLONE_CHILD_CLEARTID),
        (CLONE_UNTRACED, linux::CLONE_UNTRACED),
        (CLONE_CHILD_SETTID, linux::CLONE_CHILD_SETTID),
        (CLONE_NEWCGROUP, linux::CLONE_NEWCGROUP),
        (CLONE_NEWUTS, linux::CLONE_NEWUTS),
        (CLONE_NEWIPC, linux::CLONE_NEWIPC),
        (CLONE_NEWUSER, linux::CLONE_NEWUSER),
        (CLONE_NEWPID, linux::CLONE_NEWPID),
        (CLONE_NEWNET, linux::CLONE_NEWNET),
        (CLONE_IO, linux::CLONE_IO),
    ];
    let mut all = 0;
    for (ours, theirs) in flags {
        assert_eq!(ours, theirs);
        all |= ours;
    }
    assert_eq!(CLONE_ALL, all);
    assert_eq!(CloneFlags::from_bits_truncate(u32::MAX).bits, all);
}

#[test]
fn contradictory_clones_are_refused() {
    let vm_sig = CLONE_VM | CLONE_SIGHAND;
    assert_eq!(sys_clone(CLONE_THREAD, 0, 0, 0, 0).unwrap_err(), LinuxError::EINVAL);
    assert_eq!(sys_clone(CLONE_THREAD | CLONE_VM, 0, 0, 0, 0).unwrap_err(), LinuxError::EINVAL);
    assert!(sys_clone(CLONE_THREAD | vm_sig, 0, 0, 0, 0).is_ok());
    assert_eq!(
        sys_clone(CLONE_THREAD | CLONE_PARENT | vm_sig | 17, 0, 0, 0, 0).unwrap_err(),
        LinuxError::EINVAL
    );
    assert!(sys_clone(CLONE_THREAD | CLONE_PARENT | vm_sig, 0, 0, 0, 0).is_ok());
    assert!(sys_clone(CLONE_THREAD | vm_sig | 17, 0, 0, 0, 0).is_ok());
}

#[test]
fn clones_a_thread() {
    let flags = CLONE_THREAD
        | CLONE_VM
        | CLONE_SIGHAND
        | CLONE_SETTLS
        | CLONE_CHILD_SETTID
        | CLONE_PARENT_SETTID
        | CLONE_CHILD_CLEARTID;
    let mut call = sys_clone(flags, 0x9000, 0x400, 0x500, 0x700).unwrap();
    let plan = call.plan();
    assert_eq!(plan.stack, Some(0x9000));
    assert_eq!(plan.child_tid, Some(0x500));
    assert_eq!(plan.clear_tid, Some(0x500));
    assert_eq!(plan.thread_pointer, ThreadPointer::Given(0x700));
    assert_eq!(plan.process, None);
    assert!(matches!(call.action(), CloneAction::CheckPointer(0x500)));
    call.advance(CloneEvent::Checked(Ok(())));
    assert!(matches!(call.action(), CloneAction::CreateTask));
    call.advance(CloneEvent::Created(0x1_0000_0005));
    // the number goes to the place that is for the parent
    assert!(matches!(call.action(), CloneAction::WriteTid { tid: 5, addr: 0x400 }));
    call.advance(CloneEvent::Checked(Ok(())));
    assert!(matches!(call.action(), CloneAction::Spawn(5)));
    call.advance(CloneEvent::Spawned);
    assert!(matches!(call.action(), CloneAction::Return(Ok(5))));
}

#[test]
fn the_child_sees_zero() {
    let tf = TrapFrame { ip: 8, sp: 0x100, arg0: 1, arg1: 2, arg2: 3, retval: 42, rest: 7 };
    let own_stack = sys_clone(17, 0x9000, 0, 0, 0).unwrap().plan().child_registers(tf);
    assert_eq!((own_stack.retval, own_stack.sp, own_stack.ip), (0, 0x9000, 8));
    assert_eq!((own_stack.arg0, own_stack.arg1, own_stack.arg2, own_stack.rest), (1, 2, 3, 7));
    let same_stack = sys_fork().unwrap().plan().child_registers(tf);
    assert_eq!((same_stack.retval, same_stack.sp), (0, 0x100));
}

#[test]
fn vfork_waits_for_the_child() {
    let mut call = sys_clone(CLONE_VFORK | CLONE_VM | 17, 0, 0, 0, 0).unwrap();
    assert!(call.plan().suspend);
    call.advance(CloneEvent::Created(4));
    assert!(matches!(call.action(), CloneAction::Spawn(4)));
    call.advance(CloneEvent::Spawned);
    assert!(matches!(call.action(), CloneAction::AwaitRelease(4)));
    call.advance(CloneEvent::Released);
    assert!(matches!(call.action(), CloneAction::Return(Ok(4))));
}

#[test]
fn processes_share_what_the_flags_say() {
    let caller = ProcessTables { memory: 1, actions: 2, files: 3, fs: 4 };
    let own = ProcessTables { memory: 11, actions: 12, files: 13, fs: 14 };
    let tables = |flags: u32| {
        let plan = sys_clone(flags, 0, 0, 0, 0).unwrap().plan();
        plan.process.unwrap().tables(caller, own)
    };
    assert_eq!(tables(0), own);
    // also where the parent is another process
    assert_eq!(tables(CLONE_SIGHAND | CLONE_PARENT), ProcessTables { actions: 2, ..own });
    assert_eq!(tables(CLONE_VM | CLONE_FS), ProcessTables { memory: 1, fs: 4, ..own });
    assert_eq!(tables(CLONE_FILES), ProcessTables { files: 3, ..own });
}

#[test]
fn clones_a_process() {
    let mut call = sys_clone(CLONE_PARENT | CLONE_FILES | 17, 0, 0, 0, 0).unwrap();
    assert_eq!(
        call.plan().process,
        Some(ProcessPlan {
            sibling: true,
            share_memory: false,
            share_actions: false,
            share_files: true,
            share_fs: false,
            exit_signal: Some(17),
        })
    );
    call.advance(CloneEvent::Created(8));
    assert!(matches!(call.action(), CloneAction::FindParent(8)));
    call.advance(CloneEvent::Parent(true));
    assert!(matches!(call.action(), CloneAction::CopyMemory(8)));
    call.advance(CloneEvent::Checked(Err(LinuxError::ENOMEM)));
    assert!(matches!(call.action(), CloneAction::Return(Err(LinuxError::ENOMEM))));

    let mut call = sys_clone(CLONE_PARENT, 0, 0, 0, 0).unwrap();
    assert_eq!(call.plan().process.unwrap().exit_signal, None);
    call.advance(CloneEvent::Created(8));
    call.advance(CloneEvent::Parent(false));
    assert!(matches!(call.action(), CloneAction::Return(Err(LinuxError::EINVAL))));
}

#[test]
fn forks() {
    let mut call = sys_fork().unwrap();
    assert_eq!(call.plan().process.unwrap().exit_signal, Some(17));
    assert_eq!(call.plan().thread_pointer, ThreadPointer::Inherited);
    call.advance(CloneEvent::Created(3));
    assert!(matches!(call.action(), CloneAction::CopyMemory(3)));
    call.advance(CloneEvent::Checked(Ok(())));
    call.advance(CloneEvent::Spawned);
    assert!(matches!(call.action(), CloneAction::Return(Ok(3))));
}

#[test]
fn exits() {
    let call = sys_exit(3, 0x100);
    assert_eq!(
        call.leave(),
        vec![
            ExitAction::ClearTid(0x100),
            ExitAction::WakeFutex(0x100),
            ExitAction::ExitThread(0x300),
        ]
    );
    assert_eq!(call.end(true), vec![ExitAction::ExitProcess, ExitAction::ExitTask(0x300)]);
    assert_eq!(call.end(false), vec![ExitAction::ExitTask(0x300)]);
    let call = sys_exit_group(-1, 0);
    assert_eq!(call.leave(), vec![ExitAction::ExitThread(-256)]);
    assert_eq!(
        call.end(true),
        vec![ExitAction::ExitProcess, ExitAction::ExitGroup, ExitAction::ExitTask(-256)]
    );
    assert_eq!(do_exit(11, true, 0).exit_code, 11);
    assert_eq!(
        thread::sys_exit(4, 0x10),
        vec![ExitAction::ClearTid(0x10), ExitAction::ExitTask(4)]
    );
    assert_eq!(thread::sys_exit(4, 0), vec![ExitAction::ExitTask(4)]);
    assert_eq!(thread::sys_exit_group(4), vec![ExitAction::ExitTask(4)]);
}

fn children() -> Vec<ChildRef> {
    vec![
        ChildRef { pid: 10, pgid: 1 },
        ChildRef { pid: 11, pgid: 2 },
        ChildRef { pid: 12, pgid: 1 },
    ]
}

#[test]
fn waits_for_children() {
    let pids = |pid| {
        let call = begin_waitpid(pid, 2, &children(), UserRef::Null, 0);
        call.map(|call| call.children.iter().map(|c| c.pid).collect::<Vec<u32>>())
    };
    assert_eq!(pids(-1), Ok(vec![10, 11, 12]));
    assert_eq!(pids(0), Ok(vec![11]));
    assert_eq!(pids(12), Ok(vec![12]));
    assert_eq!(pids(-2), Ok(vec![11]));
    assert_eq!(pids(99), Err(LinuxError::ECHILD));
    assert_eq!(pids(i32::MIN), Err(LinuxError::ECHILD));
    assert_eq!(
        begin_waitpid(-1, 2, &children(), UserRef::Invalid(LinuxError::EFAULT), 0).unwrap_err(),
        LinuxError::EFAULT
    );
}

#[test]
fn reports_the_first_child_that_ended() {
    let call = begin_waitpid(-1, 2, &children(), UserRef::Valid(()), 0).unwrap();
    let step = sys_waitpid(&call, &vec![None, Some(256), Some(512)]);
    assert_eq!(step, WaitStep::Ended { pid: 11, free: true, written: Some(256) });
    assert_eq!(step.result(), Some(11));
    let step = sys_waitpid(&call, &vec![None, None, None]);
    assert_eq!((step, step.result()), (WaitStep::Yield, None));
    // WNOHANG and WNOWAIT
    let call =
        begin_waitpid(-1, 2, &children(), UserRef::Null, linux::WNOHANG | linux::WNOWAIT).unwrap();
    let step = sys_waitpid(&call, &vec![None, None, None]);
    assert_eq!((step, step.result()), (WaitStep::NotYet, Some(0)));
    let step = sys_waitpid(&call, &vec![Some(1), None, None]);
    assert_eq!(step, WaitStep::Ended { pid: 10, free: false, written: None });
}

#[test]
fn wait4() {
    let none = WaitFlags::from_bits(0).unwrap();
    match thread::sys_wait4(Ok((5, 3)), UserRef::Valid(()), none) {
        Wait4Step::Return(out) => assert_eq!((out.written, out.result), (Some(768), Ok(5))),
        other => panic!("{:?}", other),
    }
    assert!(matches!(
        thread::sys_wait4(Err(WaitError::Running), UserRef::Null, none),
        Wait4Step::Yield
    ));
    match thread::sys_wait4(Err(WaitError::NotFound), UserRef::Null, none) {
        Wait4Step::Return(out) => assert_eq!(out.result, Err(LinuxError::ECHILD)),
        other => panic!("{:?}", other),
    }
    let nohang = WaitFlags::from_bits(1).unwrap();
    match thread::sys_wait4(Err(WaitError::Running), UserRef::Null, nohang) {
        Wait4Step::Return(out) => assert_eq!(out.result, Ok(0)),
        other => panic!("{:?}", other),
    }
    assert!(WaitFlags::from_bits(4).is_none());
}

#[test]
fn arch_prctl() {
    assert_eq!(thread::sys_arch_prctl(0x1001, 7), Ok(ArchPrctl::WriteGs(7)));
    assert_eq!(thread::sys_arch_prctl(0x1002, 7), Ok(ArchPrctl::WriteFs(7)));
    assert_eq!(thread::sys_arch_prctl(0x1003, 7), Ok(ArchPrctl::ReadFs));
    assert_eq!(thread::sys_arch_prctl(0x1004, 7), Ok(ArchPrctl::ReadGs));
    assert_eq!(thread::sys_arch_prctl(0x1011, 7), Ok(ArchPrctl::Nothing));
    assert_eq!(thread::sys_arch_prctl(0x1012, 7), Err(LinuxError::ENODEV));
    assert_eq!(thread::sys_arch_prctl(0x1000, 7), Err(LinuxError::EINVAL));
    let out = thread::report_value(9, Ok(()));
    assert_eq!((out.written, out.result), (Some(9), Ok(0)));
    let out = thread::report_value(9, Err(LinuxError::EFAULT));
    assert_eq!((out.written, out.result), (None, Err(LinuxError::EFAULT)));
}

#[test]
fn small_calls() {
    let mut clear_child_tid = 0;
    assert_eq!(thread::sys_set_tid_address(&mut clear_child_tid, 0x40, 6), Ok(6));
    assert_eq!(clear_child_tid, 0x40);
    assert_eq!(thread::sys_getpid(4), Ok(4));
    assert_eq!(thread::sys_getppid(1), Ok(1));
    assert_eq!(
        thread::clone_request(0x1_3f | 0x100, 0, 1, 2, 3),
        CloneRequest { flags: 0x100, stack: None, ptid: 1, tls: 2, ctid: 3 }
    );
    assert_eq!(thread::sys_clone(Some(9)), Ok(9));
    assert_eq!(thread::sys_clone(None), Err(LinuxError::ENOMEM));
}

#[test]
fn execve_reads_its_arguments_in_order() {
    let s = |t: &str| -> Result<String, LinuxError> { Ok(String::from(t)) };
    let request =
        thread::exec_request(s("/bin/sh"), Ok(vec![s("sh"), s("-c")]), Ok(vec![s("A=1")])).unwrap();
    assert_eq!(request.path, "/bin/sh");
    assert_eq!(request.args, vec!["sh", "-c"]);
    assert_eq!(request.envs, vec!["A=1"]);
    let r = thread::exec_request(
        s("/bin/sh"),
        Ok(vec![s("sh"), Err(LinuxError::EFAULT), Err(LinuxError::EINVAL)]),
        Err(LinuxError::EPERM),
    );
    assert_eq!(r.unwrap_err(), LinuxError::EFAULT);
    let r = thread::exec_request(s("/bin/sh"), Ok(vec![]), Err(LinuxError::EPERM));
    assert_eq!(r.unwrap_err(), LinuxError::EPERM);
    assert_eq!(thread::sys_execve(), Err(LinuxError::ENOSYS));
}

#[test]
fn page_faults() {
    let raised = |is_user, accessing_user_memory| {
        handle_page_fault(FaultEvent::Raised { is_user, accessing_user_memory })
    };
    assert_eq!(raised(false, false), FaultStep::NotHandled);
    assert_eq!(raised(false, true), FaultStep::AskAddressSpace);
    assert_eq!(raised(true, false), FaultStep::MapFile);
    assert_eq!(handle_page_fault(FaultEvent::FileMapped(true)), FaultStep::Handled);
    assert_eq!(handle_page_fault(FaultEvent::FileMapped(false)), FaultStep::AskAddressSpace);
    assert_eq!(handle_page_fault(FaultEvent::SpaceHandled(true)), FaultStep::Handled);
    assert_eq!(handle_page_fault(FaultEvent::SpaceHandled(false)), FaultStep::Exit(11));
}
