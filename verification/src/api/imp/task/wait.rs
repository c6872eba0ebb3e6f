//! The wait for the end of a child.
use crate::api::imp::signal::Pid;
use crate::errno::LinuxError;
use crate::user::UserRef;
use vstd::prelude::*;

verus! {

/// Do not wait if no child has ended.
pub const WNOHANG: u32 = 1;

/// Report children that are stopped.
pub const WUNTRACED: u32 = 2;

/// Report children that have ended.
pub const WEXITED: u32 = 4;

/// Report children that go on.
pub const WCONTINUED: u32 = 8;

/// Leave the child as it is.
pub const WNOWAIT: u32 = 0x100_0000;

/// Do not wait for the children of other threads.
pub const WNOTHREAD: u32 = 0x2000_0000;

/// Wait for any child.
pub const WALL: u32 = 0x4000_0000;

/// Wait for cloned children.
pub const WCLONE: u32 = 0x8000_0000;

/// All the options that are known.
pub const WAIT_ALL: u32 = 0xe100_000f;

/// The options of a wait.
#[derive(Debug, Clone, Copy, PartialEq, Eq, Structural)]
pub struct WaitOptions {
    pub bits: u32,
}

/// Whether an option is given.
pub open spec fn wait_option(options: u32, option: u32) -> bool {
    options & option == option
}

impl WaitOptions {
    /// Keeps the options that are known.
    pub fn from_bits_truncate(bits: u32) -> (r: WaitOptions)
        ensures
            r.bits == bits & WAIT_ALL,
    {
        WaitOptions { bits: bits & WAIT_ALL }
    }

    /// Whether an option is given.
    pub fn contains(&self, option: u32) -> (r: bool)
        ensures
            r == wait_option(self.bits, option),
    {
        self.bits & option == option
    }
}

/// The options that matter are known.
proof fn lemma_known_options(bits: u32)
    by (bit_vector)
    ensures
        (bits & 0xe100_000fu32) & 1 == 1u32 <==> bits & 1 == 1u32,
        (bits & 0xe100_000fu32) & 0x100_0000u32 == 0x100_0000u32 <==> bits & 0x100_0000u32
            == 0x100_0000u32,
{
}

/// Which children are waited for.
#[derive(Debug, Clone, Copy, PartialEq, Eq, Structural)]
pub enum WaitPid {
    /// Wait for any child process
    Any,
    /// Wait for the child whose process ID is equal to the value.
    Pid(Pid),
    /// Wait for any child process whose process group ID is equal to the value.
    Pgid(Pid),
}

/// A child of the calling process.
#[derive(Debug, Clone, Copy, PartialEq, Eq, Structural)]
pub struct ChildRef {
    pub pid: Pid,
    pub pgid: Pid,
}

impl WaitPid {
    /// Whether a child is waited for.
    pub open spec fn applies(self, child: ChildRef) -> bool {
        match self {
            WaitPid::Any => true,
            WaitPid::Pid(pid) => child.pid == pid,
            WaitPid::Pgid(pgid) => child.pgid == pgid,
        }
    }

    /// Whether a child is waited for.
    pub fn apply(&self, child: &ChildRef) -> (r: bool)
        ensures
            r == self.applies(*child),
    {
        match self {
            WaitPid::Any => true,
            WaitPid::Pid(pid) => child.pid == *pid,
            WaitPid::Pgid(pgid) => child.pgid == *pgid,
        }
    }
}

/// The children that `pid` stands for, in a process of the group `own_pgid`.
pub open spec fn wait_target(pid: i32, own_pgid: Pid) -> WaitPid {
    if pid == -1 {
        WaitPid::Any
    } else if pid == 0 {
        WaitPid::Pgid(own_pgid)
    } else if pid > 0 {
        WaitPid::Pid(pid as Pid)
    } else {
        WaitPid::Pgid((-(pid as int)) as Pid)
    }
}

/// A call that waits.
#[derive(Debug)]
pub struct WaitCall {
    /// The children that are waited for, in the order of the process.
    pub children: Vec<ChildRef>,
    pub options: WaitOptions,
    /// Whether the exit code is reported.
    pub report: bool,
}

/// The children that `target` stands for.
pub open spec fn waited_for(target: WaitPid, children: Seq<ChildRef>) -> Seq<ChildRef> {
    children.filter(|child: ChildRef| target.applies(child))
}

/// What a call that begins to wait comes to.
pub open spec fn wait_begun(
    pid: i32,
    own_pgid: Pid,
    children: Seq<ChildRef>,
    exit_code: UserRef<()>,
    options: u32,
    r: Result<WaitCall, LinuxError>,
) -> bool {
    let meant = waited_for(wait_target(pid, own_pgid), children);
    match r {
        Err(e) => if meant.len() == 0 {
            e == LinuxError::ECHILD
        } else {
            exit_code == UserRef::<()>::Invalid(e)
        },
        Ok(call) => {
            &&& meant.len() > 0
            &&& !(exit_code is Invalid)
            &&& call.children@ == meant
            &&& call.report == (exit_code is Valid)
            &&& call.options.bits == options & WAIT_ALL
        },
    }
}

/// Begins to wait for a child. It fails if no child is meant, and then if the
/// exit code cannot be reported where the caller asks.
pub fn begin_waitpid(
    pid: i32,
    own_pgid: Pid,
    children: &Vec<ChildRef>,
    exit_code: UserRef<()>,
    options: u32,
) -> (r: Result<WaitCall, LinuxError>)
    ensures
        wait_begun(pid, own_pgid, children@, exit_code, options, r),
{
    let options = WaitOptions::from_bits_truncate(options);
    let target = if pid == -1 {
        WaitPid::Any
    } else if pid == 0 {
        WaitPid::Pgid(own_pgid)
    } else if pid > 0 {
        WaitPid::Pid(pid as Pid)
    } else {
        WaitPid::Pgid((-(pid as i64)) as Pid)
    };
    let ghost wanted = |child: ChildRef| target.applies(child);
    let mut meant: Vec<ChildRef> = Vec::new();
    let mut i: usize = 0;
    proof {
        reveal(Seq::filter);
        assert(children@.take(0).filter(wanted) =~= Seq::<ChildRef>::empty());
    }
    while i < children.len()
        invariant
            i <= children@.len(),
            wanted == (|child: ChildRef| target.applies(child)),
            meant@ == children@.take(i as int).filter(wanted),
        decreases children@.len() - i,
    {
        proof {
            reveal(Seq::filter);
            assert(children@.take(i + 1).drop_last() =~= children@.take(i as int));
        }
        if target.apply(&children[i]) {
            meant.push(children[i]);
        }
        i = i + 1;
    }
    assert(children@.take(i as int) =~= children@);
    if meant.len() == 0 {
        return Err(LinuxError::ECHILD);
    }
    match exit_code {
        UserRef::Invalid(e) => Err(e),
        UserRef::Null => Ok(WaitCall { children: meant, options, report: false }),
        UserRef::Valid(_) => Ok(WaitCall { children: meant, options, report: true }),
    }
}

/// What a call that waits does next.
#[derive(Debug, Clone, Copy, PartialEq, Eq, Structural)]
pub enum WaitStep {
    /// It lets others run and looks again.
    Yield,
    /// It returns: no child has ended.
    NotYet,
    /// It returns the number of the child. `free` says whether the child is
    /// removed, `written` is reported as its exit code.
    Ended { pid: Pid, free: bool, written: Option<i32> },
}

impl WaitStep {
    /// What the call returns, where it does.
    pub open spec fn spec_result(self) -> Option<isize> {
        match self {
            WaitStep::Yield => None,
            WaitStep::NotYet => Some(0isize),
            WaitStep::Ended { pid, .. } => Some(pid as isize),
        }
    }

    /// Returns what the call returns, where it does.
    pub fn result(&self) -> (r: Option<isize>)
        ensures
            r == self.spec_result(),
    {
        match self {
            WaitStep::Yield => None,
            WaitStep::NotYet => Some(0),
            WaitStep::Ended { pid, .. } => Some(*pid as isize),
        }
    }
}

/// Whether the child at `k` is the first that has ended.
pub open spec fn first_ended(ended: Seq<Option<i32>>, k: int) -> bool {
    &&& 0 <= k < ended.len()
    &&& ended[k] is Some
    &&& forall|j: int| 0 <= j < k ==> (#[trigger] ended[j]) is None
}

/// What a look at the children that are waited for comes to.
pub open spec fn wait_looked(
    children: Seq<ChildRef>,
    options: u32,
    report: bool,
    ended: Seq<Option<i32>>,
    r: WaitStep,
) -> bool {
    match r {
        WaitStep::Ended { pid, free, written } => exists|k: int| #[trigger]
            first_ended(ended, k) && pid == children[k].pid && free == !wait_option(
                options,
                WNOWAIT,
            ) && written == if report {
                ended[k]
            } else {
                None
            },
        WaitStep::NotYet => wait_option(options, WNOHANG) && forall|j: int|
            0 <= j < ended.len() ==> (#[trigger] ended[j]) is None,
        WaitStep::Yield => !wait_option(options, WNOHANG) && forall|j: int|
            0 <= j < ended.len() ==> (#[trigger] ended[j]) is None,
    }
}

/// Looks at the children that are waited for: `ended` tells for each its exit
/// code, if it has ended. The first that has is reported.
pub fn sys_waitpid(call: &WaitCall, ended: &Vec<Option<i32>>) -> (r: WaitStep)
    requires
        ended@.len() == call.children@.len(),
    ensures
        wait_looked(call.children@, call.options.bits, call.report, ended@, r),
{
    let mut i: usize = 0;
    while i < ended.len()
        invariant
            i <= ended@.len(),
            ended@.len() == call.children@.len(),
            forall|j: int| 0 <= j < i ==> (#[trigger] ended@[j]) is None,
        decreases ended@.len() - i,
    {
        if let Some(code) = ended[i] {
            assert(first_ended(ended@, i as int));
            let written: Option<i32> = if call.report {
                Some(code)
            } else {
                None
            };
            return WaitStep::Ended {
                pid: call.children[i].pid,
                free: !call.options.contains(WNOWAIT),
                written,
            };
        }
        i = i + 1;
    }
    if call.options.contains(WNOHANG) {
        WaitStep::NotYet
    } else {
        WaitStep::Yield
    }
}

/// The options that are not known change nothing in how a call waits.
pub proof fn law_unknown_wait_options_are_ignored(options: u32)
    ensures
        wait_option(options & WAIT_ALL, WNOHANG) == wait_option(options, WNOHANG),
        wait_option(options & WAIT_ALL, WNOWAIT) == wait_option(options, WNOWAIT),
{
    lemma_known_options(options);
}

/// A wait is for the children that the number means, each of them and no other, in the
/// order of the process: with one child more in the process, the wait is for one more, the
/// last, if the number means it, and for the same ones otherwise.
pub proof fn law_wait_is_for_the_children_meant(
    pid: i32,
    own_pgid: Pid,
    children: Seq<ChildRef>,
    child: ChildRef,
)
    ensures
        ({
            let target = wait_target(pid, own_pgid);
            &&& waited_for(target, Seq::empty()) == Seq::<ChildRef>::empty()
            &&& waited_for(target, children.push(child)) == if {
                &&& pid > 0 ==> child.pid == pid
                &&& pid == 0 ==> child.pgid == own_pgid
                &&& pid < -1 ==> child.pgid == -pid
            } {
                waited_for(target, children).push(child)
            } else {
                waited_for(target, children)
            }
        }),
        forall|c: ChildRef| #[trigger]
            waited_for(wait_target(pid, own_pgid), children).contains(c) <==> children.contains(c)
                && (pid > 0 ==> c.pid == pid) && (pid == 0 ==> c.pgid == own_pgid) && (pid < -1
                ==> c.pgid == -pid),
    decreases children.len(),
{
    reveal(Seq::filter);
    let target = wait_target(pid, own_pgid);
    assert(children.push(child).drop_last() =~= children);
    if children.len() > 0 {
        let rest = children.drop_last();
        law_wait_is_for_the_children_meant(pid, own_pgid, rest, children.last());
        assert(rest.push(children.last()) =~= children);
        let before = waited_for(target, rest);
        let now = waited_for(target, children);
        assert forall|c: ChildRef| #[trigger] now.contains(c) <==> children.contains(c) && (pid > 0
            ==> c.pid == pid) && (pid == 0 ==> c.pgid == own_pgid) && (pid < -1 ==> c.pgid
            == -pid) by {
            assert(before.contains(c) <==> rest.contains(c) && (pid > 0 ==> c.pid == pid) && (pid
                == 0 ==> c.pgid == own_pgid) && (pid < -1 ==> c.pgid == -pid));
            if rest.contains(c) {
                let i = choose|i: int| 0 <= i < rest.len() && rest[i] == c;
                assert(children[i] == c);
            }
            if before.contains(c) {
                let i = choose|i: int| 0 <= i < before.len() && before[i] == c;
                assert(now[i] == c);
            }
            if now.contains(c) {
                let i = choose|i: int| 0 <= i < now.len() && now[i] == c;
                if i < before.len() {
                    assert(before[i] == c);
                }
            }
            if children.contains(c) {
                let i = choose|i: int| 0 <= i < children.len() && children[i] == c;
                if i < rest.len() {
                    assert(rest[i] == c);
                } else if now.len() > before.len() {
                    assert(now[now.len() - 1] == c);
                }
            }
        }
    }
}

/// A wait begins exactly where the number means a child and the memory for the exit code,
/// if any is named, can be used. It is for the children that are meant, with the options
/// that were given, and reports the exit code where memory is named. Without a child that is
/// meant there is none.
pub proof fn law_wait_begins_where_a_child_is_meant(
    pid: i32,
    own_pgid: Pid,
    children: Seq<ChildRef>,
    exit_code: UserRef<()>,
    options: u32,
    r: Result<WaitCall, LinuxError>,
)
    requires
        wait_begun(pid, own_pgid, children, exit_code, options, r),
    ensures
        ({
            let some = exists|c: ChildRef| #[trigger]
                children.contains(c) && (pid > 0 ==> c.pid == pid) && (pid == 0 ==> c.pgid
                    == own_pgid) && (pid < -1 ==> c.pgid == -pid);
            &&& r is Ok <==> some && !(exit_code is Invalid)
            &&& !some ==> r == Err::<WaitCall, LinuxError>(LinuxError::ECHILD)
            &&& some && exit_code is Invalid ==> r == Err::<WaitCall, LinuxError>(
                exit_code->Invalid_0,
            )
        }),
        r matches Ok(call) ==> {
            &&& forall|c: ChildRef| #[trigger]
                call.children@.contains(c) <==> children.contains(c) && (pid > 0 ==> c.pid == pid)
                    && (pid == 0 ==> c.pgid == own_pgid) && (pid < -1 ==> c.pgid == -pid)
            &&& call.report <==> exit_code is Valid
            &&& call.options.bits & 1 == 1u32 <==> options & 1 == 1u32
            &&& call.options.bits & 0x100_0000 == 0x100_0000u32 <==> options & 0x100_0000
                == 0x100_0000u32
        },
{
    lemma_known_options(options);
    let meant = waited_for(wait_target(pid, own_pgid), children);
    law_wait_is_for_the_children_meant(pid, own_pgid, children, (ChildRef { pid: 0, pgid: 0 }));
    if meant.len() > 0 {
        assert(meant.contains(meant[0]));
        assert(children.contains(meant[0]));
    } else {
        assert forall|c: ChildRef| #[trigger] children.contains(c) implies !((pid > 0 ==> c.pid
            == pid) && (pid == 0 ==> c.pgid == own_pgid) && (pid < -1 ==> c.pgid == -pid)) by {
            assert(!meant.contains(c));
        }
    }
}

/// What a wait reports: a child that the number means and that has ended, and none before
/// it in the order of the process has. Its code is reported where one is asked for, and
/// the child stays where `WNOWAIT` is given. Where none has ended, the call returns zero
/// with `WNOHANG` and goes on to wait without. One of these is always so: while a child
/// that is meant has ended, the call returns its number or that of another one.
pub proof fn law_wait_reports_the_first_that_ended(
    pid: i32,
    own_pgid: Pid,
    children: Seq<ChildRef>,
    options: u32,
    report: bool,
    ended: Seq<Option<i32>>,
    r: WaitStep,
)
    requires
        ended.len() == waited_for(wait_target(pid, own_pgid), children).len(),
        wait_looked(
            waited_for(wait_target(pid, own_pgid), children),
            options & WAIT_ALL,
            report,
            ended,
            r,
        ),
    ensures
        r is Ended <==> exists|k: int| 0 <= k < ended.len() && (#[trigger] ended[k]) is Some,
        r is NotYet ==> options & 1 == 1u32,
        r is Yield ==> options & 1 != 1u32,
        r is NotYet ==> r.spec_result() == Some(0isize),
        r is Yield ==> r.spec_result() is None,
        r matches WaitStep::Ended { pid: number, free, written } ==> {
            let meant = waited_for(wait_target(pid, own_pgid), children);
            &&& r.spec_result() == Some(number as isize)
            &&& pid > 0 ==> number == pid
            &&& free <==> options & 0x100_0000 != 0x100_0000u32
            &&& !report ==> written is None
            &&& exists|k: int|
                {
                    &&& 0 <= k < ended.len()
                    &&& (#[trigger] ended[k]) is Some
                    &&& number == meant[k].pid
                    &&& children.contains(meant[k])
                    &&& pid == 0 ==> meant[k].pgid == own_pgid
                    &&& pid < -1 ==> meant[k].pgid == -pid
                    &&& report ==> written == ended[k]
                    &&& forall|j: int| 0 <= j < k ==> (#[trigger] ended[j]) is None
                }
        },
{
    lemma_known_options(options);
    let meant = waited_for(wait_target(pid, own_pgid), children);
    if let WaitStep::Ended { pid: number, free, written } = r {
        let k = choose|k: int| #[trigger]
            first_ended(ended, k) && number == meant[k].pid && free == !wait_option(
                options & WAIT_ALL,
                WNOWAIT,
            ) && written == if report {
                ended[k]
            } else {
                None
            };
        law_wait_is_for_the_children_meant(pid, own_pgid, children, meant[k]);
        assert(meant.contains(meant[k]));
        assert(ended[k] is Some);
    }
}

/// Whatever child a wait reports is one that was asked for.
pub proof fn law_wait_reports_what_was_asked(target: WaitPid, children: Seq<ChildRef>, k: int)
    requires
        0 <= k < waited_for(target, children).len(),
    ensures
        target.applies(waited_for(target, children)[k]),
        children.contains(waited_for(target, children)[k]),
    decreases children.len(),
{
    reveal(Seq::filter);
    let rest = children.drop_last();
    let meant = waited_for(target, rest);
    if k < meant.len() {
        law_wait_reports_what_was_asked(target, rest, k);
        let i = choose|i: int| 0 <= i < rest.len() && rest[i] == meant[k];
        assert(children[i] == meant[k]);
    } else {
        assert(children[children.len() - 1] == waited_for(target, children)[k]);
    }
}

} // verus!
