//! The system calls that read and write.
use crate::errno::LinuxError;
use vstd::prelude::*;

verus! {

/// Returns what a call returns that has read from a file: how many bytes.
pub fn sys_read(read: Result<usize, LinuxError>) -> (r: Result<isize, LinuxError>)
    ensures
        r == match read {
            Ok(n) => Ok(n as isize),
            Err(e) => Err(e),
        },
{
    match read {
        Ok(n) => Ok(n as isize),
        Err(e) => Err(e),
    }
}

/// Returns what a call returns that has written to a file: how many bytes.
pub fn sys_write(written: Result<usize, LinuxError>) -> (r: Result<isize, LinuxError>)
    ensures
        r == match written {
            Ok(n) => Ok(n as isize),
            Err(e) => Err(e),
        },
{
    match written {
        Ok(n) => Ok(n as isize),
        Err(e) => Err(e),
    }
}

/// The greatest number of buffers that can be written at once.
pub const IOV_MAX: usize = 1024;

/// A call that writes several buffers, one after the other.
#[derive(Debug)]
pub struct WritevCall {
    /// How many buffers are left.
    left: usize,
    /// How many bytes were written.
    total: isize,
}

/// The model of [`WritevCall`].
#[verifier::ext_equal]
pub struct WritevView {
    pub left: int,
    pub total: int,
}

impl View for WritevCall {
    type V = WritevView;

    closed spec fn view(&self) -> WritevView {
        WritevView { left: self.left as int, total: self.total as int }
    }
}

/// A call that begins to write `iocnt` buffers.
pub open spec fn writev_begun(iocnt: usize) -> Result<WritevView, LinuxError> {
    if iocnt <= IOV_MAX {
        Ok(WritevView { left: iocnt as int, total: 0 })
    } else {
        Err(LinuxError::EINVAL)
    }
}

/// Begins to write `iocnt` buffers.
pub fn sys_writev(iocnt: usize) -> (r: Result<WritevCall, LinuxError>)
    ensures
        match writev_begun(iocnt) {
            Ok(view) => r matches Ok(call) && call@ == view,
            Err(e) => r == Err::<WritevCall, LinuxError>(e),
        },
{
    if iocnt > IOV_MAX {
        return Err(LinuxError::EINVAL);
    }
    Ok(WritevCall { left: iocnt, total: 0 })
}

/// What came of the write of a buffer: how long it is, and how much of it was
/// written.
pub type BufferWrite = (usize, Result<usize, LinuxError>);

impl WritevView {
    /// What the call returns, if it does not go on: when no buffer is left.
    pub open spec fn result(self) -> Option<Result<isize, LinuxError>> {
        if self.left == 0 {
            Some(Ok(self.total as isize))
        } else {
            None
        }
    }

    /// What the call returns after all writes up to the one that ends it: an
    /// error, one that wrote less than its buffer, or the last.
    pub open spec fn after_writes(self, writes: Seq<BufferWrite>) -> Option<
        Result<isize, LinuxError>,
    >
        decreases writes.len(),
    {
        if self.left == 0 || writes.len() == 0 {
            self.result()
        } else {
            let (len, written) = writes[0];
            let (after, r) = self.advanced(len, written);
            if written is Err || written->Ok_0 < len {
                r
            } else {
                after.after_writes(writes.skip(1))
            }
        }
    }

    /// The call after the write of a buffer of `len` bytes, and what it returns if it does
    /// not go on.
    pub open spec fn advanced(self, len: usize, written: Result<usize, LinuxError>) -> (
        WritevView,
        Option<Result<isize, LinuxError>>,
    ) {
        match written {
            Err(e) => (self, Some(Err(e))),
            Ok(n) => {
                let after = WritevView { left: self.left - 1, total: self.total + n };
                (
                    after,
                    if n < len {
                        Some(Ok((self.total + n) as isize))
                    } else {
                        after.result()
                    },
                )
            },
        }
    }
}

impl WritevCall {
    /// Returns what the call returns if no buffer is left.
    pub fn result(&self) -> (r: Option<Result<isize, LinuxError>>)
        ensures
            r == self@.result(),
    {
        if self.left == 0 {
            Some(Ok(self.total))
        } else {
            None
        }
    }

    /// Goes on after the write of a buffer of `len` bytes. Returns what the call
    /// returns if it does not go on.
    pub fn advance(&mut self, len: usize, written: Result<usize, LinuxError>) -> (r: Option<
        Result<isize, LinuxError>,
    >)
        requires
            old(self)@.left > 0,
            old(self)@.total >= 0,
            written matches Ok(n) ==> old(self)@.total + n <= isize::MAX,
        ensures
            (final(self)@, r) == old(self)@.advanced(len, written),
    {
        match written {
            Err(e) => Some(Err(e)),
            Ok(n) => {
                self.total = self.total + n as isize;
                self.left = self.left - 1;
                if n < len {
                    return Some(Ok(self.total));
                }
                self.result()
            },
        }
    }
}

/// The sum of what was written.
pub open spec fn total_written(writes: Seq<BufferWrite>) -> int
    decreases writes.len(),
{
    if writes.len() == 0 {
        0
    } else {
        (writes[0].1->Ok_0 as int) + total_written(writes.skip(1))
    }
}

/// Whether all buffers were written whole.
pub open spec fn all_whole(writes: Seq<BufferWrite>) -> bool {
    forall|i: int| 0 <= i < writes.len() ==> whole(#[trigger] writes[i])
}

/// Whether a buffer was written whole.
pub open spec fn whole(write: BufferWrite) -> bool {
    write.1 is Ok && write.1->Ok_0 >= write.0
}

/// When every buffer is written whole, the call returns how much was written in
/// all.
pub proof fn law_writev_counts_all(call: WritevView, writes: Seq<BufferWrite>)
    requires
        call.left == writes.len(),
        all_whole(writes),
    ensures
        call.after_writes(writes) == Some(
            Ok::<isize, LinuxError>((call.total + total_written(writes)) as isize),
        ),
    decreases writes.len(),
{
    if writes.len() > 0 {
        assert(whole(writes[0]));
        let n = writes[0].1->Ok_0;
        assert forall|i: int| 0 <= i < writes.skip(1).len() implies whole(
            #[trigger] writes.skip(1)[i],
        ) by {
            assert(whole(writes[i + 1]));
        }
        law_writev_counts_all(
            WritevView { left: call.left - 1, total: call.total + n },
            writes.skip(1),
        );
    }
}

/// A call stops at the first buffer that is not written whole, and returns what
/// was written up to there, or the error.
pub proof fn law_writev_stops_early(call: WritevView, writes: Seq<BufferWrite>, k: int)
    requires
        0 <= k < writes.len(),
        writes.len() <= call.left,
        forall|i: int| 0 <= i < k ==> whole(#[trigger] writes[i]),
        !whole(writes[k]),
    ensures
        call.after_writes(writes) == match writes[k].1 {
            Ok(n) => Some(
                Ok::<isize, LinuxError>((call.total + total_written(writes.take(k + 1))) as isize),
            ),
            Err(e) => Some(Err::<isize, LinuxError>(e)),
        },
    decreases k,
{
    let first = writes.take(k + 1);
    if k > 0 {
        assert(whole(writes[0]));
        let n = writes[0].1->Ok_0;
        let rest = writes.skip(1);
        assert(first.skip(1) =~= rest.take(k));
        assert forall|i: int| 0 <= i < k - 1 implies whole(#[trigger] rest[i]) by {
            assert(whole(writes[i + 1]));
        }
        law_writev_stops_early(
            WritevView { left: call.left - 1, total: call.total + n },
            rest,
            k - 1,
        );
    } else {
        assert(first.skip(1) =~= Seq::<BufferWrite>::empty());
        assert(total_written(first.skip(1)) == 0);
    }
}

/// Up to 1024 buffers are written at once, from none written on. The write of a buffer is
/// counted and takes one off those that are left; the call returns at once after an error,
/// after one that wrote less than its buffer, and after the last, with all that was written.
pub proof fn law_writev_goes_on(
    iocnt: usize,
    call: WritevView,
    len: usize,
    written: Result<usize, LinuxError>,
)
    requires
        call.left > 0,
        call.total >= 0,
        written matches Ok(n) ==> call.total + n <= isize::MAX,
    ensures
        iocnt <= 1024 <==> writev_begun(iocnt) is Ok,
        writev_begun(iocnt) matches Ok(view) ==> view.left == iocnt && view.total == 0,
        writev_begun(iocnt) matches Err(e) ==> e == LinuxError::EINVAL,
        written matches Err(e) ==> call.advanced(len, written).1 == Some(
            Err::<isize, LinuxError>(e),
        ),
        written matches Ok(n) ==> {
            let (after, r) = call.advanced(len, written);
            &&& after.left + 1 == call.left
            &&& after.total == call.total + n
            &&& r is Some <==> n < len || call.left == 1
            &&& r is Some ==> r->0 is Ok && r->0->Ok_0 == call.total + n
        },
{
}

} // verus!
