use starry::signal::ctypes::{
    SignalAction, SignalDisposition, SignalInfo, SignalSet, SA_NODEFER, SI_USER,
};
use starry::signal::delivery::{handle_any_trap, sigreturn, FrameLayout, TrapFrame, TrapStep};
use starry::signal::{default_signal_action, DefaultSignalAction, SignalManager};

fn set_of(signals: &[u32]) -> SignalSet {
    let mut set = SignalSet::new();
    for n in signals {
        set.add(*n);
    }
    set
}

fn frame(sp: usize) -> TrapFrame<u64> {
    TrapFrame { ip: 0x1000, sp, arg0: 1, arg1: 2, arg2: 3, retval: 4, rest: 77 }
}

const LAYOUT: FrameLayout = FrameLayout { size: 100, align: 16, siginfo: 80 };

#[test]
fn signal_sets() {
    let mut set = SignalSet::new();
    assert!(set.add(1));
    assert!(!set.add(1));
    assert!(set.add(64));
    assert_eq!(set.bits, 0x8000_0000_0000_0001);
    assert!(set.has(64) && !set.has(2) && !set.has(0) && !set.has(65));
    set.add_from(&set_of(&[5, 6]));
    set.remove_from(&set_of(&[6, 1]));
    assert_eq!(set, set_of(&[5, 64]));
    assert!(set.complement().has(1) && !set.complement().has(5));
    assert_eq!(set.dequeue(&set_of(&[5])), Some(64));
    assert_eq!(set.dequeue(&set_of(&[5])), None);
    assert!(set.remove(5));
    assert!(!set.remove(5));
    assert_eq!(set, SignalSet::new());
}

#[test]
fn signals_come_lowest_first_and_once() {
    let mut sigman = SignalManager::new();
    assert!(sigman.send_signal(SignalInfo::new(15, SI_USER)));
    assert!(sigman.send_signal(SignalInfo::new(2, 7)));
    assert!(!sigman.send_signal(SignalInfo::new(2, 8)));
    assert_eq!(sigman.pending(), set_of(&[2, 15]));
    assert_eq!(sigman.dequeue_signal(), Some(SignalInfo::new(2, 7)));
    sigman.set_blocked(set_of(&[15]));
    assert_eq!(sigman.dequeue_signal(), None);
    assert_eq!(sigman.dequeue_signal_in(&set_of(&[15])), Some(SignalInfo::new(15, SI_USER)));
    assert_eq!(sigman.dequeue_signal_in(&set_of(&[15])), None);
}

#[test]
fn default_actions() {
    assert_eq!(default_signal_action(9), DefaultSignalAction::Terminate);
    assert_eq!(default_signal_action(11), DefaultSignalAction::CoreDump);
    assert_eq!(default_signal_action(17), DefaultSignalAction::Ignore);
    assert_eq!(default_signal_action(18), DefaultSignalAction::Continue);
    assert_eq!(default_signal_action(19), DefaultSignalAction::Stop);
    assert_eq!(default_signal_action(31), DefaultSignalAction::CoreDump);
    assert_eq!(default_signal_action(0), DefaultSignalAction::Ignore);
}

#[test]
fn signals_end_a_task() {
    let mut sigman = SignalManager::new();
    let mut tf = frame(0x8000);
    assert!(matches!(handle_any_trap(&mut sigman, &mut tf, false, LAYOUT), TrapStep::FromKernel));
    assert!(matches!(handle_any_trap(&mut sigman, &mut tf, true, LAYOUT), TrapStep::Finished));
    sigman.send_signal(SignalInfo::new(15, SI_USER));
    assert!(matches!(handle_any_trap(&mut sigman, &mut tf, true, LAYOUT), TrapStep::Exit(143)));
    sigman.send_signal(SignalInfo::new(11, SI_USER));
    assert!(matches!(handle_any_trap(&mut sigman, &mut tf, true, LAYOUT), TrapStep::Exit(139)));
    sigman.send_signal(SignalInfo::new(19, SI_USER));
    assert!(matches!(handle_any_trap(&mut sigman, &mut tf, true, LAYOUT), TrapStep::Exit(-1)));
    sigman.send_signal(SignalInfo::new(17, SI_USER));
    assert!(matches!(handle_any_trap(&mut sigman, &mut tf, true, LAYOUT), TrapStep::Next));
    sigman.send_signal(SignalInfo::new(18, SI_USER));
    assert!(matches!(handle_any_trap(&mut sigman, &mut tf, true, LAYOUT), TrapStep::Next));
    assert_eq!(tf.sp, 0x8000);
}

#[test]
fn a_handler_that_returns_leaves_no_trace() {
    let mut sigman = SignalManager::new();
    sigman.set_blocked(set_of(&[3]));
    let mut action = SignalAction::new();
    action.disposition = SignalDisposition::Handler(0x5000);
    action.mask = set_of(&[12]);
    action.restorer = Some(0x6000);
    sigman.set_action(10, action);
    assert_eq!(sigman.action(10).disposition, SignalDisposition::Handler(0x5000));
    sigman.send_signal(SignalInfo::new(10, 5));
    let mut tf = frame(0x8000);
    let (addr, saved) = match handle_any_trap(&mut sigman, &mut tf, true, LAYOUT) {
        TrapStep::Enter { addr, frame, restorer } => {
            assert_eq!(restorer, 0x6000);
            (addr, frame)
        }
        other => panic!("{:?}", other),
    };
    // 0x8000 - 100 = 0x7f9c, aligned to 16
    assert_eq!(addr, 0x7f90);
    assert_eq!((tf.ip, tf.sp, tf.arg0, tf.arg1, tf.arg2), (0x5000, 0x7f90, 10, 0x7f90 + 80, 0x7f90));
    assert_eq!((tf.retval, tf.rest), (4, 77));
    assert_eq!(saved.siginfo, SignalInfo::new(10, 5));
    assert_eq!(sigman.blocked(), set_of(&[3, 10, 12]));
    sigreturn(&mut sigman, &mut tf, &saved, 0);
    assert_eq!((tf.ip, tf.sp, tf.arg0, tf.arg1, tf.arg2), (0x1000, 0x8000, 1, 2, 3));
    assert_eq!(sigman.blocked(), set_of(&[3]));
    sigreturn(&mut sigman, &mut tf, &saved, 4);
    assert_eq!(tf.ip, 0xffc);
}

#[test]
fn nodefer_lets_a_signal_interrupt_its_handler() {
    let mut sigman = SignalManager::new();
    let mut action = SignalAction::new();
    action.disposition = SignalDisposition::Handler(0x5000);
    // every flag is kept, and the one for this stands in bit 30
    action.flags = SA_NODEFER | 4;
    assert_eq!(action.flags, 0x4000_0004);
    sigman.set_action(10, action);
    sigman.send_signal(SignalInfo::new(10, 0));
    let mut tf = frame(0x8000);
    assert!(matches!(
        handle_any_trap(&mut sigman, &mut tf, true, LAYOUT),
        TrapStep::Enter { restorer: 0, .. }
    ));
    assert_eq!(sigman.blocked(), SignalSet::new());
}
