//! The delivery of signals on the way back to user mode.
use crate::signal::ctypes;
use crate::signal::ctypes::{SignalDisposition, SignalInfo, SignalSet};
use crate::signal::{
    default_of, default_signal_action, DefaultSignalAction, SignalManager, SignalsView,
};
use vstd::prelude::*;

verus! {

/// The registers of a task in user mode. `R` stands for those that the
/// delivery of a signal neither reads nor sets.
#[derive(Debug, Clone, Copy)]
pub struct TrapFrame<R> {
    pub ip: usize,
    pub sp: usize,
    pub arg0: usize,
    pub arg1: usize,
    pub arg2: usize,
    pub retval: usize,
    pub rest: R,
}

/// What is put on the user stack below a signal handler.
#[derive(Debug, Clone, Copy)]
pub struct SignalFrame<R> {
    pub tf: TrapFrame<R>,
    pub blocked: SignalSet,
    pub siginfo: SignalInfo,
}

/// How a signal frame lies in memory.
#[derive(Debug, Clone, Copy)]
pub struct FrameLayout {
    pub size: usize,
    pub align: usize,
    /// Where the signal information begins in the frame.
    pub siginfo: usize,
}

/// What is to be done after a step of delivery.
#[derive(Debug)]
pub enum TrapStep<R> {
    /// The trap did not come from user mode: nothing is delivered.
    FromKernel,
    /// No signal is left to deliver.
    Finished,
    /// A signal was taken and nothing is to be done for it. Deliver the next.
    Next,
    /// The task exits with this code.
    Exit(i32),
    /// A handler is entered: the frame is to be written at the address, and the
    /// handler is to return to `restorer`. Then deliver the next.
    Enter { addr: usize, frame: SignalFrame<R>, restorer: usize },
}

/// The model of [`SignalFrame`].
pub ghost struct FrameView<R> {
    pub tf: TrapFrame<R>,
    pub blocked: Set<u32>,
    pub siginfo: SignalInfo,
}

impl<R> View for SignalFrame<R> {
    type V = FrameView<R>;

    open spec fn view(&self) -> FrameView<R> {
        FrameView { tf: self.tf, blocked: self.blocked@, siginfo: self.siginfo }
    }
}

/// Where a frame is put on a stack that ends at `sp`: as high as its size and
/// its alignment allow.
pub open spec fn frame_addr(sp: int, layout: FrameLayout) -> int {
    let room = sp - layout.size;
    room - room % layout.align as int
}

/// Whether a frame can be put on a stack that ends at `sp`.
pub open spec fn frame_fits(sp: int, layout: FrameLayout) -> bool {
    &&& layout.align > 0
    &&& layout.size <= sp
    &&& layout.siginfo <= layout.size
}

/// The frame that is put below the handler of the pending signal `n`.
pub open spec fn saved_frame<R>(s: SignalsView, tf: TrapFrame<R>, n: u32) -> FrameView<R> {
    FrameView { tf, blocked: s.blocked, siginfo: s.pending[n] }
}

/// The signals after the handler of `n` is entered: its mask is blocked, and
/// `n` with it unless the action says otherwise.
pub open spec fn entered(s: SignalsView, n: u32) -> SignalsView {
    let action = s.actions[n as int];
    let mask = if action.spec_nodefer() {
        action.mask@
    } else {
        action.mask@.insert(n)
    };
    SignalsView { blocked: s.blocked.union(mask), ..s.without(n) }
}

/// The registers when the handler of `n` is entered.
pub open spec fn handler_registers<R>(
    tf: TrapFrame<R>,
    n: u32,
    handler: usize,
    layout: FrameLayout,
) -> TrapFrame<R> {
    let addr = frame_addr(tf.sp as int, layout);
    TrapFrame {
        ip: handler,
        sp: addr as usize,
        arg0: n as usize,
        arg1: (addr + layout.siginfo) as usize,
        arg2: addr as usize,
        ..tf
    }
}

/// Whether the pending signal `n` enters a handler.
pub open spec fn handler_of(s: SignalsView, n: u32) -> Option<usize> {
    match s.actions[n as int].disposition {
        SignalDisposition::Handler(handler) => Some(handler),
        _ => None,
    }
}

/// The exit code of a task that the pending signal `n` ends.
pub open spec fn exit_of(s: SignalsView, n: u32) -> Option<int> {
    if s.actions[n as int].disposition == SignalDisposition::Default {
        match default_of(n) {
            DefaultSignalAction::Terminate => Some(128 + n as int),
            DefaultSignalAction::CoreDump => Some(128 + n as int),
            DefaultSignalAction::Stop => Some(-1int),
            DefaultSignalAction::Ignore => None,
            DefaultSignalAction::Continue => None,
        }
    } else {
        None
    }
}

/// What a step of delivery comes to, where the signals are `s` and the registers `tf`
/// before it.
pub open spec fn delivered<R>(
    s: SignalsView,
    tf: TrapFrame<R>,
    from_user: bool,
    layout: FrameLayout,
    after: SignalsView,
    tf_after: TrapFrame<R>,
    r: TrapStep<R>,
) -> bool {
    if !from_user {
        r is FromKernel && tf_after == tf && after == s
    } else {
        match ctypes::next_signal(s.pending.dom(), s.blocked) {
            None => r is Finished && tf_after == tf && after == s,
            Some(n) => match (handler_of(s, n), exit_of(s, n)) {
                (Some(handler), _) => {
                    &&& r matches TrapStep::Enter { addr, frame, restorer }
                    &&& addr == frame_addr(tf.sp as int, layout)
                    &&& frame@ == saved_frame(s, tf, n)
                    &&& restorer == match s.actions[n as int].restorer {
                        Some(f) => f,
                        None => 0,
                    }
                    &&& tf_after == handler_registers(tf, n, handler, layout)
                    &&& after == entered(s, n)
                },
                (None, Some(code)) => {
                    &&& r matches TrapStep::Exit(c)
                    &&& c == code
                    &&& tf_after == tf
                    &&& after == s.without(n)
                },
                (None, None) => {
                    &&& r is Next
                    &&& tf_after == tf
                    &&& after == s.without(n)
                },
            },
        }
    }
}

/// Whether the next pending signal that is not blocked enters a handler.
pub fn enters_handler(sigman: &SignalManager) -> (r: bool)
    requires
        sigman.wf(),
    ensures
        r == match ctypes::next_signal(sigman@.pending.dom(), sigman@.blocked) {
            Some(n) => handler_of(sigman@, n) is Some,
            None => false,
        },
{
    proof {
        sigman.lemma_wf();
    }
    let mut pending = sigman.pending();
    match pending.dequeue(&sigman.blocked()) {
        Some(n) => match sigman.action(n).disposition {
            SignalDisposition::Handler(_) => true,
            _ => false,
        },
        None => false,
    }
}

/// Delivers the next pending signal that is not blocked, if there is one.
///
/// The signal is taken from the pending ones. By default it may end the task;
/// where it has a handler, the registers and the blocked signals are saved in
/// a frame and set for the handler.
pub fn handle_any_trap<R: Copy>(
    sigman: &mut SignalManager,
    tf: &mut TrapFrame<R>,
    from_user: bool,
    layout: FrameLayout,
) -> (r: TrapStep<R>)
    requires
        old(sigman).wf(),
        from_user ==> match ctypes::next_signal(
            old(sigman)@.pending.dom(),
            old(sigman)@.blocked,
        ) {
            Some(n) => handler_of(old(sigman)@, n) is Some ==> frame_fits(
                old(tf).sp as int,
                layout,
            ),
            None => true,
        },
    ensures
        final(sigman).wf(),
        delivered(
            old(sigman)@,
            *old(tf),
            from_user,
            layout,
            final(sigman)@,
            *final(tf),
            r,
        ),
{
    if !from_user {
        return TrapStep::FromKernel;
    }
    proof {
        sigman.lemma_wf();
    }
    let sig = match sigman.dequeue_signal() {
        Some(sig) => sig,
        None => {
            return TrapStep::Finished;
        },
    };
    let signo = sig.signo();
    let action = *sigman.action(signo);
    match action.disposition {
        SignalDisposition::Default => match default_signal_action(signo) {
            DefaultSignalAction::Terminate => TrapStep::Exit(128 + signo as i32),
            DefaultSignalAction::CoreDump => TrapStep::Exit(128 + signo as i32),
            DefaultSignalAction::Stop => TrapStep::Exit(-1),
            DefaultSignalAction::Ignore => TrapStep::Next,
            DefaultSignalAction::Continue => TrapStep::Next,
        },
        SignalDisposition::Ignore => TrapStep::Next,
        SignalDisposition::Handler(handler) => {
            let room: usize = tf.sp - layout.size;
            proof {
                vstd::arithmetic::div_mod::lemma_mod_bound(room as int, layout.align as int);
                vstd::arithmetic::div_mod::lemma_mod_decreases(room as nat, layout.align as nat);
            }
            let aligned_sp: usize = room - room % layout.align;
            let mut blocked = sigman.blocked();
            let frame = SignalFrame { tf: *tf, blocked, siginfo: sig };
            tf.ip = handler;
            tf.sp = aligned_sp;
            tf.arg0 = signo as usize;
            tf.arg1 = aligned_sp + layout.siginfo;
            tf.arg2 = aligned_sp;
            let restorer: usize = match action.restorer {
                Some(f) => f,
                None => 0,
            };
            let mut mask = action.mask;
            if !action.nodefer() {
                mask.add(signo);
            }
            blocked.add_from(&mask);
            sigman.set_blocked(blocked);
            assert(sigman@ =~= entered(old(sigman)@, signo));
            TrapStep::Enter { addr: aligned_sp, frame, restorer }
        },
    }
}

/// The registers and the blocked signals after a handler has returned:
/// `rewind` is how far the program counter is set back, for machines on which
/// a system call moves it on.
pub open spec fn left<R>(s: SignalsView, frame: FrameView<R>, rewind: int) -> (
    SignalsView,
    TrapFrame<R>,
) {
    (
        SignalsView { blocked: frame.blocked, ..s },
        TrapFrame { ip: (frame.tf.ip - rewind) as usize, ..frame.tf },
    )
}

/// Returns from a signal handler: the registers and the blocked signals are
/// those of the frame.
pub fn sigreturn<R: Copy>(
    sigman: &mut SignalManager,
    tf: &mut TrapFrame<R>,
    frame: &SignalFrame<R>,
    rewind: usize,
)
    requires
        old(sigman).wf(),
        rewind <= frame.tf.ip,
    ensures
        final(sigman).wf(),
        (final(sigman)@, *final(tf)) == left(old(sigman)@, frame@, rewind as int),
{
    *tf = frame.tf;
    tf.ip = tf.ip - rewind;
    sigman.set_blocked(frame.blocked);
}

/// A return from a handler sets the registers and the blocked signals to those of the
/// frame, with the program counter set back as far as it is told, and changes nothing else.
pub proof fn law_sigreturn_restores_the_frame<R>(
    s: SignalsView,
    frame: FrameView<R>,
    rewind: usize,
)
    requires
        rewind <= frame.tf.ip,
    ensures
        ({
            let (after, tf) = left(s, frame, rewind as int);
            &&& tf.ip + rewind == frame.tf.ip
            &&& tf.sp == frame.tf.sp
            &&& tf.arg0 == frame.tf.arg0
            &&& tf.arg1 == frame.tf.arg1
            &&& tf.arg2 == frame.tf.arg2
            &&& tf.retval == frame.tf.retval
            &&& tf.rest == frame.tf.rest
            &&& after.blocked == frame.blocked
            &&& after.pending == s.pending
            &&& after.actions == s.actions
            &&& after.waiting == s.waiting
            &&& after.prevent_signal_handling == s.prevent_signal_handling
        }),
{
}

/// A handler that returns leaves no trace: the registers are what they were
/// before the signal, and so are the blocked signals. All that is left of the
/// signal is that it is no longer pending.
pub proof fn law_sigreturn_undoes_delivery<R>(s: SignalsView, tf: TrapFrame<R>, n: u32)
    ensures
        left(entered(s, n), saved_frame(s, tf, n), 0) == (s.without(n), tf),
{
    assert(left(entered(s, n), saved_frame(s, tf, n), 0).0 =~= s.without(n));
}

/// While a handler runs, the signals that were blocked stay blocked, and so is
/// its own signal unless its action says otherwise.
pub proof fn law_handler_blocks_its_signal(s: SignalsView, n: u32)
    ensures
        s.blocked.subset_of(entered(s, n).blocked),
        s.actions[n as int].mask@.subset_of(entered(s, n).blocked),
        !s.actions[n as int].spec_nodefer() ==> entered(s, n).blocked.contains(n),
{
}

/// A signal that nothing was said about ends the task, with 128 and its number, but for
/// eight: nothing is done for `SIGCHLD`, `SIGCONT`, `SIGURG` and `SIGWINCH`, and `SIGSTOP`,
/// `SIGTSTP`, `SIGTTIN` and `SIGTTOU` end it with minus one. The registers and the blocked
/// signals stay, and the signal is no longer pending.
pub proof fn law_default_delivery<R>(
    s: SignalsView,
    tf: TrapFrame<R>,
    layout: FrameLayout,
    n: u32,
    after: SignalsView,
    tf_after: TrapFrame<R>,
    r: TrapStep<R>,
)
    requires
        1 <= n < 32,
        s.pending.contains_key(n),
        !s.blocked.contains(n),
        forall|m: u32| m < n && #[trigger] s.pending.contains_key(m) ==> s.blocked.contains(m),
        s.actions[n as int].disposition is Default,
        delivered(s, tf, true, layout, after, tf_after, r),
    ensures
        if n == 17 || n == 18 || n == 23 || n == 28 {
            r is Next
        } else if n == 19 || n == 20 || n == 21 || n == 22 {
            r matches TrapStep::Exit(code) && code == -1
        } else {
            r matches TrapStep::Exit(code) && code == 128 + n
        },
        tf_after == tf,
        after.pending == s.pending.remove(n),
        after.blocked == s.blocked,
        after.actions == s.actions,
        after.waiting == s.waiting,
{
    lemma_lowest(s, n);
}

/// A signal that is to be ignored is taken and nothing is done for it.
pub proof fn law_ignored_delivery<R>(
    s: SignalsView,
    tf: TrapFrame<R>,
    layout: FrameLayout,
    n: u32,
    after: SignalsView,
    tf_after: TrapFrame<R>,
    r: TrapStep<R>,
)
    requires
        s.pending.contains_key(n),
        !s.blocked.contains(n),
        forall|m: u32| m < n && #[trigger] s.pending.contains_key(m) ==> s.blocked.contains(m),
        s.actions[n as int].disposition is Ignore,
        delivered(s, tf, true, layout, after, tf_after, r),
    ensures
        r is Next,
        tf_after == tf,
        after.pending == s.pending.remove(n),
        after.blocked == s.blocked,
        after.actions == s.actions,
        after.waiting == s.waiting,
{
    lemma_lowest(s, n);
}

/// A signal with a handler enters it: the program goes on at the handler with the number
/// of the signal, the address of what is known of it and the address of the frame as its
/// arguments, on the stack below the frame. The frame holds the registers, the blocked
/// signals and what is known of the signal as they were. While the handler runs, the
/// signals of its mask are blocked, and so is the signal itself unless the action has
/// `SA_NODEFER`; what was blocked stays so, and no other signal becomes it.
pub proof fn law_handler_delivery<R>(
    s: SignalsView,
    tf: TrapFrame<R>,
    layout: FrameLayout,
    n: u32,
    after: SignalsView,
    tf_after: TrapFrame<R>,
    r: TrapStep<R>,
)
    requires
        s.pending.contains_key(n),
        !s.blocked.contains(n),
        forall|m: u32| m < n && #[trigger] s.pending.contains_key(m) ==> s.blocked.contains(m),
        s.actions[n as int].disposition is Handler,
        frame_fits(tf.sp as int, layout),
        delivered(s, tf, true, layout, after, tf_after, r),
    ensures
        r matches TrapStep::Enter { addr, frame, restorer } ==> {
            &&& addr + layout.size <= tf.sp < addr + layout.size + layout.align
            &&& addr as int % layout.align as int == 0
            &&& frame.tf == tf
            &&& frame.blocked@ == s.blocked
            &&& frame.siginfo == s.pending[n]
            &&& s.actions[n as int].restorer is Some ==> restorer == s.actions[n as int].restorer->0
            &&& s.actions[n as int].restorer is None ==> restorer == 0
            &&& tf_after.ip == s.actions[n as int].disposition->Handler_0
            &&& tf_after.sp == addr
            &&& tf_after.arg0 == n
            &&& tf_after.arg1 == addr + layout.siginfo
            &&& tf_after.arg2 == addr
            &&& tf_after.retval == tf.retval
            &&& tf_after.rest == tf.rest
        },
        r is Enter,
        after.pending == s.pending.remove(n),
        after.actions == s.actions,
        after.waiting == s.waiting,
        forall|m: u32| #[trigger]
            after.blocked.contains(m) <==> s.blocked.contains(m)
                || s.actions[n as int].mask@.contains(m) || (m == n && s.actions[n as int].flags
                & 0x4000_0000 == 0),
{
    lemma_lowest(s, n);
    law_frame_lies_on_the_stack(tf.sp as int, layout);
}

/// Nothing is delivered on the way back to the kernel, or while every pending signal is
/// blocked: then nothing changes at all. As soon as one is not, one is delivered.
pub proof fn law_nothing_to_deliver<R>(
    s: SignalsView,
    tf: TrapFrame<R>,
    from_user: bool,
    layout: FrameLayout,
    after: SignalsView,
    tf_after: TrapFrame<R>,
    r: TrapStep<R>,
)
    requires
        delivered(s, tf, from_user, layout, after, tf_after, r),
        forall|n: u32| #[trigger] s.pending.contains_key(n) ==> n < 32,
    ensures
        !from_user <==> r is FromKernel,
        r is FromKernel || r is Finished ==> tf_after == tf && after == s,
        r is Finished <==> from_user && forall|n: u32| #[trigger]
            s.pending.contains_key(n) ==> s.blocked.contains(n),
{
    if exists|n: u32| #[trigger] s.pending.contains_key(n) && !s.blocked.contains(n) {
        let n = choose|n: u32| #[trigger] s.pending.contains_key(n) && !s.blocked.contains(n);
        let m = lemma_some_lowest(s, n);
        lemma_lowest(s, m);
    } else {
        assert forall|n: u32| !#[trigger] ctypes::first_signal(
            s.pending.dom(),
            s.blocked,
            n,
        ) by {
            assert(s.pending.dom().contains(n) ==> s.pending.contains_key(n));
        }
    }
}

/// The lowest signal that is pending and not blocked is the next.
proof fn lemma_lowest(s: SignalsView, n: u32)
    requires
        s.pending.contains_key(n),
        !s.blocked.contains(n),
        forall|m: u32| m < n && #[trigger] s.pending.contains_key(m) ==> s.blocked.contains(m),
    ensures
        ctypes::next_signal(s.pending.dom(), s.blocked) == Some(n),
{
    assert forall|m: u32| m < n && #[trigger] s.pending.dom().contains(m) implies s.blocked.contains(
        m,
    ) by {
        assert(s.pending.contains_key(m));
    }
    ctypes::lemma_next_signal(s.pending.dom(), s.blocked, n);
}

/// Where a signal is pending and not blocked, one is the lowest of these.
proof fn lemma_some_lowest(s: SignalsView, n: u32) -> (r: u32)
    requires
        s.pending.contains_key(n),
        !s.blocked.contains(n),
    ensures
        s.pending.contains_key(r),
        !s.blocked.contains(r),
        forall|m: u32| m < r && #[trigger] s.pending.contains_key(m) ==> s.blocked.contains(m),
    decreases n,
{
    if exists|m: u32| m < n && #[trigger] s.pending.contains_key(m) && !s.blocked.contains(m) {
        let m = choose|m: u32| m < n && #[trigger] s.pending.contains_key(m) && !s.blocked.contains(
            m,
        );
        lemma_some_lowest(s, m)
    } else {
        n
    }
}

/// A signal that is blocked is not delivered, and what is delivered was
/// pending.
pub proof fn law_blocked_signals_wait(s: SignalsView, n: u32)
    requires
        ctypes::next_signal(s.pending.dom(), s.blocked) == Some(n),
    ensures
        s.pending.contains_key(n),
        !s.blocked.contains(n),
        forall|m: u32| #[trigger] s.blocked.contains(m) && s.pending.contains_key(m) ==> s.without(
            n,
        ).pending.contains_key(m),
{
    assert(ctypes::first_signal(s.pending.dom(), s.blocked, n));
}

/// A signal that was sent is the next to be delivered, unless it is blocked or a
/// lower one is there.
pub proof fn law_sent_signal_is_delivered(s: SignalsView, sig: SignalInfo)
    requires
        !s.pending.contains_key(sig.signo),
        !s.blocked.contains(sig.signo),
        forall|m: u32| m < sig.signo && #[trigger] s.pending.contains_key(m) ==> s.blocked.contains(
            m,
        ),
    ensures
        ctypes::next_signal(s.sent(sig).pending.dom(), s.blocked) == Some(sig.signo),
        s.sent(sig).pending[sig.signo] == sig,
{
    let pending = s.sent(sig).pending.dom();
    assert forall|m: u32| m < sig.signo && #[trigger] pending.contains(m) implies s.blocked.contains(
        m,
    ) by {
        assert(s.pending.contains_key(m));
    }
    ctypes::lemma_next_signal(pending, s.blocked, sig.signo);
}

/// The frame of a handler lies below the stack pointer, aligned, with room for
/// all of it.
pub proof fn law_frame_lies_on_the_stack(sp: int, layout: FrameLayout)
    requires
        frame_fits(sp, layout),
    ensures
        frame_addr(sp, layout) % layout.align as int == 0,
        0 <= frame_addr(sp, layout),
        frame_addr(sp, layout) + layout.size <= sp,
        sp < frame_addr(sp, layout) + layout.size + layout.align,
{
    let room = sp - layout.size;
    let align = layout.align as int;
    vstd::arithmetic::div_mod::lemma_fundamental_div_mod(room, align);
    vstd::arithmetic::div_mod::lemma_mod_bound(room, align);
    vstd::arithmetic::div_mod::lemma_mod_decreases(room as nat, align as nat);
    vstd::arithmetic::div_mod::lemma_mod_multiples_basic(room / align, align);
    assert(frame_addr(sp, layout) == (room / align) * align) by (nonlinear_arith)
        requires
            frame_addr(sp, layout) == room - room % align,
            room == align * (room / align) + room % align,
    ;
}

} // verus!
