//! The data that signals are made of.
use vstd::prelude::*;

verus! {

/// The number of the signal that kills a process.
pub const SIGKILL: u32 = 9;

/// The number of the signal that a page fault raises.
pub const SIGSEGV: u32 = 11;

/// The number of the signal that a child sends when it ends.
pub const SIGCHLD: u32 = 17;

/// The number of the signal that stops a process.
pub const SIGSTOP: u32 = 19;

/// The greatest signal number.
pub const SIGMAX: u32 = 64;

/// Whether `n` is the number of a signal.
pub open spec fn is_signal(n: u32) -> bool {
    1 <= n <= SIGMAX
}

/// Whether the bit of signal `n` is set.
pub open spec fn signal_bit(bits: u64, n: u32) -> bool {
    bits & (1u64 << ((n - 1) as u64)) != 0
}

/// What bits say after they were combined.
proof fn lemma_bits(a: u64, b: u64, i: u64, j: u64)
    by (bit_vector)
    requires
        i < 64,
        j < 64,
    ensures
        (a | (1u64 << i)) & (1u64 << j) != 0 <==> (a & (1u64 << j) != 0 || i == j),
        (a & !(1u64 << i)) & (1u64 << j) != 0 <==> (a & (1u64 << j) != 0 && i != j),
        (a | b) & (1u64 << j) != 0 <==> (a & (1u64 << j) != 0 || b & (1u64 << j) != 0),
        (a & !b) & (1u64 << j) != 0 <==> (a & (1u64 << j) != 0 && b & (1u64 << j) == 0),
        (!a) & (1u64 << j) != 0 <==> a & (1u64 << j) == 0,
        0u64 & (1u64 << j) == 0,
{
}

/// A set of signals.
#[derive(Debug, Clone, Copy, PartialEq, Eq, Structural)]
pub struct SignalSet {
    /// One bit for each signal, the first signal lowest.
    pub bits: u64,
}

impl View for SignalSet {
    type V = Set<u32>;

    open spec fn view(&self) -> Set<u32> {
        let bits = self.bits;
        Set::new(|n: u32| is_signal(n) && signal_bit(bits, n))
    }
}

/// The size of a set of signals in user memory, in bytes.
pub const SIGSET_SIZE: usize = 8;

/// Whether `n` comes out of `pending` first when the signals of `blocked` are
/// passed over: the lowest comes out first.
pub open spec fn first_signal(pending: Set<u32>, blocked: Set<u32>, n: u32) -> bool {
    &&& pending.contains(n)
    &&& !blocked.contains(n)
    &&& forall|m: u32| m < n && #[trigger] pending.contains(m) ==> blocked.contains(m)
}

/// The signal that comes out of `pending` first, if any does.
pub open spec fn next_signal(pending: Set<u32>, blocked: Set<u32>) -> Option<u32> {
    if exists|n: u32| #[trigger] first_signal(pending, blocked, n) {
        Some(choose|n: u32| #[trigger] first_signal(pending, blocked, n))
    } else {
        None
    }
}

/// There is one first signal at most.
pub proof fn lemma_next_signal(pending: Set<u32>, blocked: Set<u32>, n: u32)
    requires
        first_signal(pending, blocked, n),
    ensures
        next_signal(pending, blocked) == Some(n),
{
    let m = choose|m: u32| #[trigger] first_signal(pending, blocked, m);
    assert(first_signal(pending, blocked, m));
    assert(m == n);
}

impl SignalSet {
    /// Returns the empty set.
    pub fn new() -> (r: SignalSet)
        ensures
            r@ == Set::<u32>::empty(),
            r.bits == 0,
    {
        let r = SignalSet { bits: 0 };
        proof {
            assert forall|n: u32| !r@.contains(n) by {
                if is_signal(n) {
                    lemma_bits(0, 0, 0, (n - 1) as u64);
                }
            }
        }
        r
    }

    /// Whether signal `n` is in the set.
    pub fn has(&self, n: u32) -> (r: bool)
        ensures
            r == self@.contains(n),
    {
        1 <= n && n <= SIGMAX && self.bits & (1u64 << ((n - 1) as u64)) != 0
    }

    /// Adds signal `n`. Returns whether it was not there before.
    pub fn add(&mut self, n: u32) -> (r: bool)
        requires
            is_signal(n),
        ensures
            r == !old(self)@.contains(n),
            final(self)@ == old(self)@.insert(n),
    {
        if self.has(n) {
            assert(self@ =~= old(self)@.insert(n));
            return false;
        }
        self.bits = self.bits | (1u64 << ((n - 1) as u64));
        proof {
            assert forall|m: u32| self@.contains(m) == old(self)@.insert(n).contains(m) by {
                if is_signal(m) {
                    lemma_bits(old(self).bits, 0, (n - 1) as u64, (m - 1) as u64);
                }
            }
        }
        true
    }

    /// Removes signal `n`. Returns whether it was there.
    pub fn remove(&mut self, n: u32) -> (r: bool)
        requires
            is_signal(n),
        ensures
            r == old(self)@.contains(n),
            final(self)@ == old(self)@.remove(n),
    {
        if !self.has(n) {
            assert(self@ =~= old(self)@.remove(n));
            return false;
        }
        self.bits = self.bits & !(1u64 << ((n - 1) as u64));
        proof {
            assert forall|m: u32| self@.contains(m) == old(self)@.remove(n).contains(m) by {
                if is_signal(m) {
                    lemma_bits(old(self).bits, 0, (n - 1) as u64, (m - 1) as u64);
                }
            }
        }
        true
    }

    /// Adds the signals of `other`.
    pub fn add_from(&mut self, other: &SignalSet)
        ensures
            final(self)@ == old(self)@.union(other@),
    {
        self.bits = self.bits | other.bits;
        proof {
            assert forall|m: u32| self@.contains(m) == old(self)@.union(other@).contains(m) by {
                if is_signal(m) {
                    lemma_bits(old(self).bits, other.bits, 0, (m - 1) as u64);
                }
            }
        }
    }

    /// Removes the signals of `other`.
    pub fn remove_from(&mut self, other: &SignalSet)
        ensures
            final(self)@ == old(self)@.difference(other@),
    {
        self.bits = self.bits & !other.bits;
        proof {
            assert forall|m: u32| self@.contains(m) == old(self)@.difference(other@).contains(
                m,
            ) by {
                if is_signal(m) {
                    lemma_bits(old(self).bits, other.bits, 0, (m - 1) as u64);
                }
            }
        }
    }

    /// Returns the set of all the other signals.
    pub fn complement(&self) -> (r: SignalSet)
        ensures
            forall|n: u32| #[trigger] r@.contains(n) <==> is_signal(n) && !self@.contains(n),
    {
        let r = SignalSet { bits: !self.bits };
        proof {
            assert forall|n: u32| #[trigger]
                r@.contains(n) <==> is_signal(n) && !self@.contains(n) by {
                if is_signal(n) {
                    lemma_bits(self.bits, 0, 0, (n - 1) as u64);
                }
            }
        }
        r
    }

    /// Takes the lowest signal out of the set that is not in `mask`.
    pub fn dequeue(&mut self, mask: &SignalSet) -> (r: Option<u32>)
        ensures
            r == next_signal(old(self)@, mask@),
            match r {
                Some(n) => first_signal(old(self)@, mask@, n) && final(self)@ == old(self)@.remove(
                    n,
                ),
                None => *final(self) == *old(self),
            },
    {
        let mut n: u32 = 1;
        while n <= SIGMAX
            invariant
                1 <= n <= SIGMAX + 1,
                *self == *old(self),
                forall|m: u32| m < n && #[trigger] self@.contains(m) ==> mask@.contains(m),
            decreases SIGMAX + 1 - n,
        {
            if self.has(n) && !mask.has(n) {
                proof {
                    lemma_next_signal(self@, mask@, n);
                }
                self.remove(n);
                return Some(n);
            }
            n = n + 1;
        }
        assert forall|m: u32| !#[trigger] first_signal(self@, mask@, m) by {
            if self@.contains(m) {
                assert(m < n);
            }
        }
        None
    }
}

/// Returns the signal whose number is `n`, if there is one.
pub fn signo_from_repr(n: u8) -> (r: Option<u32>)
    ensures
        r == if is_signal(n as u32) {
            Some(n as u32)
        } else {
            None
        },
{
    if 1 <= n && n as u32 <= SIGMAX {
        Some(n as u32)
    } else {
        None
    }
}

/// What is known of a signal that was sent.
#[derive(Debug, Clone, Copy, PartialEq, Eq, Structural)]
pub struct SignalInfo {
    pub signo: u32,
    pub code: u32,
}

/// The code of a signal that a process sent.
pub const SI_USER: u32 = 0;

/// The code of a signal that was sent to one thread.
pub const SI_TKILL: u32 = 0xffff_fffa;

impl SignalInfo {
    pub fn new(signo: u32, code: u32) -> (r: SignalInfo)
        ensures
            r == (SignalInfo { signo, code }),
    {
        SignalInfo { signo, code }
    }

    /// The number of the signal.
    pub fn signo(&self) -> (r: u32)
        ensures
            r == self.signo,
    {
        self.signo
    }
}

/// What a signal does when it is delivered.
#[derive(Debug, Clone, Copy, PartialEq, Eq, Structural)]
pub enum SignalDisposition {
    /// What the signal does by default.
    Default,
    /// Nothing.
    Ignore,
    /// The handler at this address runs.
    Handler(usize),
}

/// How a signal is acted on.
#[derive(Debug, Clone, Copy)]
pub struct SignalAction {
    /// The flags of the action.
    pub flags: u32,
    /// The signals that are held back while the handler runs.
    pub mask: SignalSet,
    pub disposition: SignalDisposition,
    /// Where the handler returns to.
    pub restorer: Option<usize>,
}

/// The flag of an action that lets the signal arrive again while its handler runs.
pub const SA_NODEFER: u32 = 0x4000_0000;

impl SignalAction {
    /// Whether the signal may arrive again while its handler runs.
    pub open spec fn spec_nodefer(&self) -> bool {
        self.flags & SA_NODEFER != 0
    }

    /// Returns whether the signal may arrive again while its handler runs.
    pub fn nodefer(&self) -> (r: bool)
        ensures
            r == self.spec_nodefer(),
    {
        self.flags & SA_NODEFER != 0
    }
}

/// The action that every signal begins with.
pub open spec fn default_action(action: SignalAction) -> bool {
    &&& action.flags == 0
    &&& action.mask@ == Set::<u32>::empty()
    &&& action.disposition == SignalDisposition::Default
    &&& action.restorer is None
}

impl SignalAction {
    /// Returns the action that every signal begins with.
    pub fn new() -> (r: SignalAction)
        ensures
            default_action(r),
    {
        SignalAction {
            flags: 0,
            mask: SignalSet::new(),
            disposition: SignalDisposition::Default,
            restorer: None,
        }
    }
}

/// The actions of a process, one for each signal.
pub struct SignalActions {
    actions: Vec<SignalAction>,
}

impl View for SignalActions {
    type V = Map<u32, SignalAction>;

    closed spec fn view(&self) -> Map<u32, SignalAction> {
        Map::new(|n: u32| is_signal(n), |n: u32| self.actions@[n - 1])
    }
}

impl SignalActions {
    /// Whether every signal has an action.
    pub closed spec fn wf(&self) -> bool {
        self.actions@.len() == SIGMAX
    }

    /// Every signal has an action.
    pub proof fn lemma_wf(&self)
        requires
            self.wf(),
        ensures
            forall|n: u32| self@.contains_key(n) <==> is_signal(n),
    {
    }

    /// Returns the actions that a process begins with.
    pub fn new() -> (r: SignalActions)
        ensures
            r.wf(),
            forall|n: u32| is_signal(n) ==> default_action(#[trigger] r@[n]),
    {
        let mut actions: Vec<SignalAction> = Vec::new();
        let mut i: u32 = 0;
        while i < SIGMAX
            invariant
                i <= SIGMAX,
                actions@.len() == i,
                forall|j: int| 0 <= j < i ==> default_action(#[trigger] actions@[j]),
            decreases SIGMAX - i,
        {
            actions.push(SignalAction::new());
            i = i + 1;
        }
        SignalActions { actions }
    }

    /// Returns the action of signal `n`.
    pub fn get(&self, n: u32) -> (r: SignalAction)
        requires
            self.wf(),
            is_signal(n),
        ensures
            r == self@[n],
    {
        self.actions[(n - 1) as usize]
    }

    /// Sets the action of signal `n`.
    pub fn set(&mut self, n: u32, action: SignalAction)
        requires
            old(self).wf(),
            is_signal(n),
        ensures
            final(self).wf(),
            final(self)@ == old(self)@.insert(n, action),
    {
        self.actions.set((n - 1) as usize, action);
        assert(self@ =~= old(self)@.insert(n, action));
    }
}

/// How a set of signals lies in memory: each signal from one to 64 has one bit, the first
/// the lowest, and no other number is in a set.
pub proof fn law_bit_of_a_signal(set: SignalSet, n: u32)
    ensures
        1 <= n <= 64 ==> (set@.contains(n) <==> (set.bits >> ((n - 1) as u64)) & 1 == 1),
        n == 0 || n > 64 ==> !set@.contains(n),
{
    if 1 <= n <= 64 {
        let bits = set.bits;
        let i = (n - 1) as u64;
        assert(i < 64 ==> (bits & (1u64 << i) != 0 <==> (bits >> i) & 1 == 1)) by (bit_vector);
    }
}

/// The lowest signal that is pending and not blocked comes out first, and none does where
/// there is none.
pub proof fn law_lowest_signal_comes_first(pending: Set<u32>, blocked: Set<u32>, m: u32)
    ensures
        match next_signal(pending, blocked) {
            Some(n) => {
                &&& pending.contains(n)
                &&& !blocked.contains(n)
                &&& pending.contains(m) && !blocked.contains(m) ==> n <= m
            },
            None => !(pending.contains(m) && !blocked.contains(m)),
        },
{
    if let Some(n) = next_signal(pending, blocked) {
        assert(first_signal(pending, blocked, n));
    } else if pending.contains(m) && !blocked.contains(m) {
        lemma_first_exists(pending, blocked, m);
    }
}

/// Where a signal is pending and not blocked there is a lowest such signal.
proof fn lemma_first_exists(pending: Set<u32>, blocked: Set<u32>, n: u32)
    requires
        pending.contains(n),
        !blocked.contains(n),
    ensures
        exists|m: u32| #[trigger] first_signal(pending, blocked, m),
    decreases n,
{
    if exists|m: u32| m < n && #[trigger] pending.contains(m) && !blocked.contains(m) {
        let m = choose|m: u32| m < n && #[trigger] pending.contains(m) && !blocked.contains(m);
        lemma_first_exists(pending, blocked, m);
    } else {
        assert(first_signal(pending, blocked, n));
    }
}

/// What every signal begins with: what it does by default, with no flag, no signal held back
/// and nowhere to return to.
pub proof fn law_what_signals_begin_with(action: SignalAction, n: u32)
    requires
        default_action(action),
    ensures
        action.disposition is Default,
        action.flags == 0,
        !action.mask@.contains(n),
        action.restorer is None,
{
}

/// A signal may arrive again while its handler runs exactly where its action has the flag
/// 0x4000_0000.
pub proof fn law_flag_of_nodefer(action: SignalAction)
    ensures
        action.spec_nodefer() <==> action.flags & 0x4000_0000 != 0,
{
}

} // verus!
