//! The end of threads and processes.
use vstd::prelude::*;

verus! {

/// One of the things that are done when a thread ends.
#[derive(Debug, Clone, Copy, PartialEq, Eq, Structural)]
pub enum ExitAction {
    /// Zero is written at the address.
    ClearTid(usize),
    /// Those who wait on the futex at the address are woken.
    WakeFutex(usize),
    /// The thread leaves its process with this code.
    ExitThread(i32),
    /// The process ends.
    ExitProcess,
    /// The process is marked to end as a whole.
    ExitGroup,
    /// The task ends with this code and does not go on.
    ExitTask(i32),
}

/// A thread that is about to end.
#[derive(Debug, Clone, Copy, PartialEq, Eq, Structural)]
pub struct ExitCall {
    pub exit_code: i32,
    /// Whether the other threads of the process end too.
    pub group_exit: bool,
    /// Where zero is to be written, if anywhere. Those who wait there are woken.
    pub clear_child_tid: usize,
}

impl ExitCall {
    /// What is done first.
    pub open spec fn leaving(self) -> Seq<ExitAction> {
        let exit = seq![ExitAction::ExitThread(self.exit_code)];
        if self.clear_child_tid != 0 {
            seq![
                ExitAction::ClearTid(self.clear_child_tid),
                ExitAction::WakeFutex(self.clear_child_tid),
            ] + exit
        } else {
            exit
        }
    }

    /// What is done when the thread has left its process, where `last` says
    /// whether it was the last one.
    pub open spec fn ending(self, last: bool) -> Seq<ExitAction> {
        let process = if last {
            seq![ExitAction::ExitProcess]
        } else {
            Seq::empty()
        };
        let group = if self.group_exit {
            seq![ExitAction::ExitGroup]
        } else {
            Seq::empty()
        };
        process + group + seq![ExitAction::ExitTask(self.exit_code)]
    }

    /// Returns what is done first, in order.
    pub fn leave(&self) -> (r: Vec<ExitAction>)
        ensures
            r@ == self.leaving(),
    {
        let mut actions: Vec<ExitAction> = Vec::new();
        if self.clear_child_tid != 0 {
            actions.push(ExitAction::ClearTid(self.clear_child_tid));
            actions.push(ExitAction::WakeFutex(self.clear_child_tid));
        }
        actions.push(ExitAction::ExitThread(self.exit_code));
        assert(actions@ =~= self.leaving());
        actions
    }

    /// Returns what is done when the thread has left its process, in order;
    /// `last` says whether it was the last thread.
    pub fn end(&self, last: bool) -> (r: Vec<ExitAction>)
        ensures
            r@ == self.ending(last),
    {
        let mut actions: Vec<ExitAction> = Vec::new();
        if last {
            actions.push(ExitAction::ExitProcess);
        }
        if self.group_exit {
            actions.push(ExitAction::ExitGroup);
        }
        actions.push(ExitAction::ExitTask(self.exit_code));
        assert(actions@ =~= self.ending(last));
        actions
    }
}

/// Ends the calling thread with the code `exit_code`, and with `group_exit` all
/// threads of its process.
pub fn do_exit(exit_code: i32, group_exit: bool, clear_child_tid: usize) -> (r: ExitCall)
    ensures
        r == (ExitCall { exit_code, group_exit, clear_child_tid }),
{
    ExitCall { exit_code, group_exit, clear_child_tid }
}

/// The status of a program that exits with `exit_code`.
pub open spec fn exit_status(exit_code: i32) -> i32 {
    exit_code << 8
}

/// Ends the calling thread. The code is kept where a parent looks for it: in the
/// second byte.
pub fn sys_exit(exit_code: i32, clear_child_tid: usize) -> (r: ExitCall)
    ensures
        r == (ExitCall { exit_code: exit_status(exit_code), group_exit: false, clear_child_tid }),
{
    do_exit(exit_code << 8, false, clear_child_tid)
}

/// Ends the calling process. The code is kept where a parent looks for it: in
/// the second byte.
pub fn sys_exit_group(exit_code: i32, clear_child_tid: usize) -> (r: ExitCall)
    ensures
        r == (ExitCall { exit_code: exit_status(exit_code), group_exit: true, clear_child_tid }),
{
    do_exit(exit_code << 8, true, clear_child_tid)
}

/// The code that a program exits with is what a parent reads in the second byte
/// of its status.
pub proof fn law_exit_status(exit_code: i32)
    ensures
        (exit_status(exit_code) >> 8) & 0xff == exit_code & 0xff,
        exit_status(exit_code) & 0xff == 0,
        -0x80_0000 <= exit_code < 0x80_0000 ==> exit_status(exit_code) == exit_code * 256,
{
    assert(-0x80_0000i32 <= exit_code && exit_code < 0x80_0000i32 ==> (exit_code << 8) as i64
        == exit_code as i64 * 256) by (bit_vector);
    assert(((exit_code << 8) >> 8) & 0xff == exit_code & 0xff) by (bit_vector);
    assert((exit_code << 8) & 0xff == 0) by (bit_vector);
}

/// A thread that ends clears the number that it was asked to clear and wakes those who
/// wait there, in this order and before it leaves its process, and clears nothing else.
pub proof fn law_exit_clears_the_number(call: ExitCall)
    ensures
        forall|addr: usize| #[trigger]
            call.leaving().contains(ExitAction::ClearTid(addr)) <==> addr != 0 && addr
                == call.clear_child_tid,
        forall|addr: usize| #[trigger]
            call.leaving().contains(ExitAction::WakeFutex(addr)) <==> addr != 0 && addr
                == call.clear_child_tid,
        call.clear_child_tid != 0 ==> call.leaving()[0] is ClearTid && call.leaving()[1] is WakeFutex,
        call.leaving().len() <= 3,
        call.leaving().last() == ExitAction::ExitThread(call.exit_code),
{
    let leaving = call.leaving();
    if call.clear_child_tid != 0 {
        assert(leaving[0] == ExitAction::ClearTid(call.clear_child_tid));
        assert(leaving[1] == ExitAction::WakeFutex(call.clear_child_tid));
    }
}

/// Whatever else is done, the end of a thread ends with the end of its task, and
/// with the code that it was given.
pub proof fn law_exit_ends_the_task(call: ExitCall, last: bool)
    ensures
        call.leaving().last() == ExitAction::ExitThread(call.exit_code),
        call.ending(last).last() == ExitAction::ExitTask(call.exit_code),
        call.ending(last).contains(ExitAction::ExitProcess) <==> last,
        call.ending(last).contains(ExitAction::ExitGroup) <==> call.group_exit,
        last ==> call.ending(last)[0] is ExitProcess,
        call.ending(last).len() == 1 + (if last {
            1int
        } else {
            0
        }) + (if call.group_exit {
            1int
        } else {
            0
        }),
{
    let ending = call.ending(last);
    if last {
        assert(ending[0] == ExitAction::ExitProcess);
    }
    if call.group_exit {
        let k = if last {
            1int
        } else {
            0int
        };
        assert(ending[k] == ExitAction::ExitGroup);
    }
}

} // verus!
