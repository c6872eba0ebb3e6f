//! Signals of a task, and how they are delivered.
pub mod ctypes;
pub mod delivery;

use crate::signal::ctypes::{SignalAction, SignalInfo, SignalSet};
use vstd::prelude::*;

verus! {

/// The number of signals that a task keeps an action for. Zero is none.
pub const NSIG: usize = 32;

/// What a signal does by default.
#[derive(Debug, Clone, Copy, PartialEq, Eq, Structural)]
pub enum DefaultSignalAction {
    /// Terminate the process.
    Terminate,
    /// Ignore the signal.
    Ignore,
    /// Terminate the process and generate a core dump.
    CoreDump,
    /// Stop the process.
    Stop,
    /// Continue the process if stopped.
    Continue,
}

/// What signal `n` does by default: the faults and traps dump core, the job
/// control signals stop or continue, the news is ignored, all else terminates.
pub open spec fn default_of(n: u32) -> DefaultSignalAction {
    if 3 <= n <= 8 || n == 11 || n == 24 || n == 25 || n == 31 {
        DefaultSignalAction::CoreDump
    } else if n == 0 || n == 17 || n == 23 || n == 28 {
        DefaultSignalAction::Ignore
    } else if 19 <= n <= 22 {
        DefaultSignalAction::Stop
    } else if n == 18 {
        DefaultSignalAction::Continue
    } else {
        DefaultSignalAction::Terminate
    }
}

/// What every signal does by default. `SIGCHLD`, `SIGURG` and `SIGWINCH` are ignored,
/// `SIGCONT` continues, `SIGSTOP`, `SIGTSTP`, `SIGTTIN` and `SIGTTOU` stop. `SIGQUIT`,
/// `SIGILL`, `SIGTRAP`, `SIGABRT`, `SIGBUS`, `SIGFPE`, `SIGSEGV`, `SIGXCPU`, `SIGXFSZ` and
/// `SIGSYS` dump core. Every other one terminates.
pub proof fn law_default_of_every_signal(n: u32)
    requires
        1 <= n < 32,
    ensures
        default_of(n) is Ignore <==> n == 17 || n == 23 || n == 28,
        default_of(n) is Continue <==> n == 18,
        default_of(n) is Stop <==> n == 19 || n == 20 || n == 21 || n == 22,
        default_of(n) is CoreDump <==> n == 3 || n == 4 || n == 5 || n == 6 || n == 7 || n == 8
            || n == 11 || n == 24 || n == 25 || n == 31,
        default_of(n) is Terminate <==> n == 1 || n == 2 || n == 9 || n == 10 || n == 12 || n == 13
            || n == 14 || n == 15 || n == 16 || n == 26 || n == 27 || n == 29 || n == 30,
        default_of(0) is Ignore,
{
}

/// Returns what signal `n` does by default.
pub fn default_signal_action(n: u32) -> (r: DefaultSignalAction)
    requires
        n < NSIG,
    ensures
        r == default_of(n),
{
    match n {
        // Unspecified
        0 => DefaultSignalAction::Ignore,
        // SIGHUP
        1 => DefaultSignalAction::Terminate,
        // SIGINT
        2 => DefaultSignalAction::Terminate,
        // SIGQUIT
        3 => DefaultSignalAction::CoreDump,
        // SIGILL
        4 => DefaultSignalAction::CoreDump,
        // SIGTRAP
        5 => DefaultSignalAction::CoreDump,
        // SIGABRT
        6 => DefaultSignalAction::CoreDump,
        // SIGBUS
        7 => DefaultSignalAction::CoreDump,
        // SIGFPE
        8 => DefaultSignalAction::CoreDump,
        // SIGKILL
        9 => DefaultSignalAction::Terminate,
        // SIGUSR1
        10 => DefaultSignalAction::Terminate,
        // SIGSEGV
        11 => DefaultSignalAction::CoreDump,
        // SIGUSR2
        12 => DefaultSignalAction::Terminate,
        // SIGPIPE
        13 => DefaultSignalAction::Terminate,
        // SIGALRM
        14 => DefaultSignalAction::Terminate,
        // SIGTERM
        15 => DefaultSignalAction::Terminate,
        // SIGSTKFLT
        16 => DefaultSignalAction::Terminate,
        // SIGCHLD
        17 => DefaultSignalAction::Ignore,
        // SIGCONT
        18 => DefaultSignalAction::Continue,
        // SIGSTOP
        19 => DefaultSignalAction::Stop,
        // SIGTSTP
        20 => DefaultSignalAction::Stop,
        // SIGTTIN
        21 => DefaultSignalAction::Stop,
        // SIGTTOU
        22 => DefaultSignalAction::Stop,
        // SIGURG
        23 => DefaultSignalAction::Ignore,
        // SIGXCPU
        24 => DefaultSignalAction::CoreDump,
        // SIGXFSZ
        25 => DefaultSignalAction::CoreDump,
        // SIGVTALRM
        26 => DefaultSignalAction::Terminate,
        // SIGPROF
        27 => DefaultSignalAction::Terminate,
        // SIGWINCH
        28 => DefaultSignalAction::Ignore,
        // SIGIO
        29 => DefaultSignalAction::Terminate,
        // SIGPWR
        30 => DefaultSignalAction::Terminate,
        // SIGSYS
        _ => DefaultSignalAction::CoreDump,
    }
}

/// The signals of a task.
pub struct SignalManager {
    /// The set of signals currently blocked from delivery.
    blocked: SignalSet,
    /// The signal actions.
    actions: Vec<SignalAction>,
    /// The pending signals.
    pending: SignalSet,
    pending_info: Vec<Option<SignalInfo>>,
    /// The signals that the task sleeps for.
    waiting: SignalSet,
    /// Whether a call that waited for a signal has just entered its handler. The
    /// delivery of signals does not look at it.
    prevent_signal_handling: bool,
}

/// The model of [`SignalManager`]: each pending signal with what is known of
/// it.
#[verifier::ext_equal]
pub struct SignalsView {
    pub blocked: Set<u32>,
    pub actions: Seq<SignalAction>,
    pub pending: Map<u32, SignalInfo>,
    pub waiting: Set<u32>,
    pub prevent_signal_handling: bool,
}

impl View for SignalManager {
    type V = SignalsView;

    closed spec fn view(&self) -> SignalsView {
        SignalsView {
            blocked: self.blocked@,
            actions: self.actions@,
            pending: Map::new(
                |n: u32| self.pending@.contains(n),
                |n: u32| self.pending_info@[n as int]->0,
            ),
            waiting: self.waiting@,
            prevent_signal_handling: self.prevent_signal_handling,
        }
    }
}

impl SignalsView {
    /// Makes a signal pending that is not yet.
    pub open spec fn sent(self, sig: SignalInfo) -> SignalsView {
        if self.pending.contains_key(sig.signo) {
            self
        } else {
            SignalsView { pending: self.pending.insert(sig.signo, sig), ..self }
        }
    }

    /// Takes the signal `n` out of the pending ones.
    pub open spec fn without(self, n: u32) -> SignalsView {
        SignalsView { pending: self.pending.remove(n), ..self }
    }
}

impl SignalManager {
    /// Whether exactly the pending signals have something known of them.
    pub closed spec fn wf(&self) -> bool {
        &&& self.actions@.len() == NSIG
        &&& self.pending_info@.len() == NSIG
        &&& forall|n: u32| #[trigger]
            self.pending@.contains(n) ==> 1 <= n < NSIG && self.pending_info@[n as int] is Some
                && self.pending_info@[n as int]->0.signo == n
    }

    /// What holds of every well-formed manager.
    pub proof fn lemma_wf(&self)
        requires
            self.wf(),
        ensures
            self@.actions.len() == NSIG,
            forall|n: u32| #[trigger]
                self@.pending.contains_key(n) ==> 1 <= n < NSIG && self@.pending[n].signo == n,
    {
    }

    /// Returns a manager with nothing pending and nothing blocked.
    pub fn new() -> (r: SignalManager)
        ensures
            r.wf(),
            r@.blocked == Set::<u32>::empty(),
            r@.pending == Map::<u32, SignalInfo>::empty(),
            r@.waiting == Set::<u32>::empty(),
            !r@.prevent_signal_handling,
            r@.actions.len() == NSIG,
            forall|i: int| 0 <= i < NSIG ==> ctypes::default_action(#[trigger] r@.actions[i]),
    {
        let mut actions: Vec<SignalAction> = Vec::new();
        let mut pending_info: Vec<Option<SignalInfo>> = Vec::new();
        let mut i: usize = 0;
        while i < NSIG
            invariant
                i <= NSIG,
                actions@.len() == i,
                pending_info@.len() == i,
                forall|j: int| 0 <= j < i ==> ctypes::default_action(#[trigger] actions@[j]),
            decreases NSIG - i,
        {
            actions.push(SignalAction::new());
            pending_info.push(None);
            i = i + 1;
        }
        SignalManager {
            blocked: SignalSet::new(),
            actions,
            pending: SignalSet::new(),
            pending_info,
            waiting: SignalSet::new(),
            prevent_signal_handling: false,
        }
    }

    /// Makes a signal pending. Returns whether it was not pending before; a
    /// signal that was stays as it is.
    pub fn send_signal(&mut self, sig: SignalInfo) -> (r: bool)
        requires
            old(self).wf(),
            1 <= sig.signo < NSIG,
        ensures
            final(self).wf(),
            r == !old(self)@.pending.contains_key(sig.signo),
            final(self)@ == old(self)@.sent(sig),
    {
        let signo = sig.signo();
        if !self.pending.add(signo) {
            assert(self.pending@ =~= old(self).pending@);
            assert(self@ =~= old(self)@);
            return false;
        }
        self.pending_info.set(signo as usize, Some(sig));
        assert(self@.pending =~= old(self)@.pending.insert(signo, sig));
        true
    }

    /// Sets the action of signal `signo`.
    pub fn set_action(&mut self, signo: u32, action: SignalAction)
        requires
            old(self).wf(),
            signo < NSIG,
        ensures
            final(self).wf(),
            final(self)@ == (SignalsView {
                actions: old(self)@.actions.update(signo as int, action),
                ..old(self)@
            }),
    {
        self.actions.set(signo as usize, action);
        assert(self@.pending =~= old(self)@.pending);
    }

    /// Returns the action of signal `signo`.
    pub fn action(&self, signo: u32) -> (r: &SignalAction)
        requires
            self.wf(),
            signo < NSIG,
        ensures
            *r == self@.actions[signo as int],
    {
        &self.actions[signo as usize]
    }

    /// Returns the set of the blocked signals.
    pub fn blocked(&self) -> (r: SignalSet)
        ensures
            r@ == self@.blocked,
    {
        self.blocked
    }

    /// Sets the set of the blocked signals.
    pub fn set_blocked(&mut self, blocked: SignalSet)
        requires
            old(self).wf(),
        ensures
            final(self).wf(),
            final(self)@ == (SignalsView { blocked: blocked@, ..old(self)@ }),
    {
        self.blocked = blocked;
        assert(self@.pending =~= old(self)@.pending);
    }

    /// Sets the signals that the task sleeps for.
    pub fn set_waiting(&mut self, waiting: SignalSet)
        requires
            old(self).wf(),
        ensures
            final(self).wf(),
            final(self)@ == (SignalsView { waiting: waiting@, ..old(self)@ }),
    {
        self.waiting = waiting;
        assert(self@.pending =~= old(self)@.pending);
    }

    /// Returns the signals that the task sleeps for.
    pub fn waiting(&self) -> (r: SignalSet)
        ensures
            r@ == self@.waiting,
    {
        self.waiting
    }

    /// Notes whether a call that waited for a signal has just entered its handler.
    pub fn set_prevent_signal_handling(&mut self, prevent: bool)
        requires
            old(self).wf(),
        ensures
            final(self).wf(),
            final(self)@ == (SignalsView { prevent_signal_handling: prevent, ..old(self)@ }),
    {
        self.prevent_signal_handling = prevent;
        assert(self@.pending =~= old(self)@.pending);
    }

    /// Whether a call that waited for a signal has just entered its handler. The
    /// delivery of signals does not look at it.
    pub fn prevent_signal_handling(&self) -> (r: bool)
        ensures
            r == self@.prevent_signal_handling,
    {
        self.prevent_signal_handling
    }

    /// Returns the set of the pending signals.
    pub fn pending(&self) -> (r: SignalSet)
        requires
            self.wf(),
        ensures
            r@ == self@.pending.dom(),
    {
        assert(self.pending@ =~= self@.pending.dom());
        self.pending
    }

    /// Dequeue the next pending signal.
    pub fn dequeue_signal(&mut self) -> (r: Option<SignalInfo>)
        requires
            old(self).wf(),
        ensures
            final(self).wf(),
            match ctypes::next_signal(old(self)@.pending.dom(), old(self)@.blocked) {
                Some(n) => {
                    &&& ctypes::first_signal(old(self)@.pending.dom(), old(self)@.blocked, n)
                    &&& r == Some(old(self)@.pending[n])
                    &&& final(self)@ == old(self)@.without(n)
                },
                None => r is None && final(self)@ == old(self)@,
            },
    {
        assert(self.pending@ =~= self@.pending.dom());
        let mask = self.blocked;
        match self.pending.dequeue(&mask) {
            Some(signo) => {
                let sig = self.pending_info[signo as usize];
                self.pending_info.set(signo as usize, None);
                assert(self@.pending =~= old(self)@.pending.remove(signo));
                sig
            },
            None => {
                assert(self@ =~= old(self)@);
                None
            },
        }
    }

    /// Dequeues the next pending signal of `set`, blocked or not.
    pub fn dequeue_signal_in(&mut self, set: &SignalSet) -> (r: Option<SignalInfo>)
        requires
            old(self).wf(),
        ensures
            final(self).wf(),
            match ctypes::next_signal(
                old(self)@.pending.dom().intersect(set@),
                Set::<u32>::empty(),
            ) {
                Some(n) => {
                    &&& ctypes::first_signal(
                        old(self)@.pending.dom().intersect(set@),
                        Set::<u32>::empty(),
                        n,
                    )
                    &&& r == Some(old(self)@.pending[n])
                    &&& final(self)@ == old(self)@.without(n)
                },
                None => r is None && final(self)@ == old(self)@,
            },
    {
        assert(self.pending@ =~= self@.pending.dom());
        let mask = set.complement();
        let ghost wanted = self@.pending.dom().intersect(set@);
        proof {
            assert forall|n: u32| #[trigger]
                ctypes::first_signal(self.pending@, mask@, n) == ctypes::first_signal(
                    wanted,
                    Set::<u32>::empty(),
                    n,
                ) by {
                assert forall|m: u32| #[trigger] wanted.contains(m) == (self.pending@.contains(m)
                    && !mask@.contains(m)) by {}
                if ctypes::first_signal(wanted, Set::<u32>::empty(), n) {
                    assert forall|m: u32| m < n && #[trigger] self.pending@.contains(
                        m,
                    ) implies mask@.contains(m) by {
                        assert(!wanted.contains(m));
                    }
                }
            }
        }
        let r = self.pending.dequeue(&mask);
        match r {
            Some(signo) => {
                proof {
                    assert(ctypes::first_signal(wanted, Set::<u32>::empty(), signo));
                    ctypes::lemma_next_signal(wanted, Set::<u32>::empty(), signo);
                }
                let sig = self.pending_info[signo as usize];
                self.pending_info.set(signo as usize, None);
                assert(self@.pending =~= old(self)@.pending.remove(signo));
                sig
            },
            None => {
                assert forall|n: u32| !#[trigger] ctypes::first_signal(
                    wanted,
                    Set::<u32>::empty(),
                    n,
                ) by {
                    assert(!ctypes::first_signal(self.pending@, mask@, n));
                }
                assert(self@ =~= old(self)@);
                None
            },
        }
    }
}

} // verus!
