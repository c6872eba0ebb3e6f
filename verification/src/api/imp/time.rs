//! The system calls on time.
use crate::errno::LinuxError;
use crate::user::Outcome;
use vstd::prelude::*;

verus! {

/// A span of time, or a point in time as the span since an origin.
#[derive(Debug, Clone, Copy, PartialEq, Eq, Structural)]
pub struct TimeValue {
    pub secs: u64,
    /// Less than a second.
    pub nanos: u32,
}

/// The number of nanoseconds in a second.
pub const NANOS_PER_SEC: u32 = 1_000_000_000;

impl TimeValue {
    /// Whether the part below a second is less than a second.
    pub open spec fn wf(self) -> bool {
        self.nanos < NANOS_PER_SEC
    }

    /// The span in nanoseconds.
    pub open spec fn total(self) -> int {
        self.secs * 1_000_000_000 + self.nanos
    }
}

/// Seconds and nanoseconds, as a caller sees them.
#[derive(Debug, Clone, Copy, PartialEq, Eq, Structural)]
pub struct Timespec {
    pub tv_sec: i64,
    pub tv_nsec: i64,
}

/// Seconds and microseconds, as a caller sees them.
#[derive(Debug, Clone, Copy, PartialEq, Eq, Structural)]
pub struct Timeval {
    pub tv_sec: i64,
    pub tv_usec: i64,
}

/// A time as seconds and nanoseconds.
pub open spec fn timespec_of(tv: TimeValue) -> Timespec {
    Timespec { tv_sec: tv.secs as i64, tv_nsec: tv.nanos as i64 }
}

/// A time as seconds and whole microseconds.
pub open spec fn timeval_of(tv: TimeValue) -> Timeval {
    Timeval { tv_sec: tv.secs as i64, tv_usec: (tv.nanos / 1000) as i64 }
}

/// Returns the time as seconds and nanoseconds.
pub fn timevalue_to_timespec(tv: TimeValue) -> (r: Timespec)
    ensures
        r == timespec_of(tv),
{
    Timespec { tv_sec: tv.secs as i64, tv_nsec: tv.nanos as i64 }
}

/// Returns the time as seconds and whole microseconds.
pub fn timevalue_to_timeval(tv: TimeValue) -> (r: Timeval)
    ensures
        r == timeval_of(tv),
{
    Timeval { tv_sec: tv.secs as i64, tv_usec: (tv.nanos / 1000) as i64 }
}

/// The span that a caller asks to wait for, in nanoseconds.
pub open spec fn span_of(ts: Timespec) -> int {
    (ts.tv_sec as u64) * 1_000_000_000 + ts.tv_nsec as u32
}

/// Whether a span can be told in whole seconds and a rest.
pub open spec fn span_fits(ts: Timespec) -> bool {
    span_of(ts) / 1_000_000_000 <= u64::MAX
}

/// Returns the span that a caller asks to wait for. Whole seconds in the
/// nanoseconds are carried over.
pub fn timespec_to_timevalue(ts: Timespec) -> (r: TimeValue)
    requires
        span_fits(ts),
    ensures
        r.wf(),
        r.total() == span_of(ts),
{
    let secs: u64 = ts.tv_sec as u64;
    let nanos: u32 = ts.tv_nsec as u32;
    TimeValue { secs: secs + (nanos / NANOS_PER_SEC) as u64, nanos: nanos % NANOS_PER_SEC }
}

/// A time comes back from the form that a caller sees.
pub proof fn law_timespec_round_trip(tv: TimeValue)
    requires
        tv.wf(),
        tv.secs <= i64::MAX,
    ensures
        span_fits(timespec_of(tv)),
        span_of(timespec_of(tv)) == tv.total(),
{
}

/// A span has one form only.
pub proof fn law_span_is_unique(a: TimeValue, b: TimeValue)
    requires
        a.wf(),
        b.wf(),
        a.total() == b.total(),
    ensures
        a == b,
{
}

/// A clock that can be read.
#[derive(Debug, Clone, Copy, PartialEq, Eq, Structural)]
pub enum Clock {
    Realtime,
    Monotonic,
}

/// The clock that a caller means.
pub open spec fn clock_of(clock_id: i32) -> Option<Clock> {
    match clock_id {
        0 => Some(Clock::Realtime),
        1 => Some(Clock::Monotonic),
        _ => None,
    }
}

/// What a call of `sys_clock_gettime` comes to.
pub open spec fn clock_read(
    clock_id: i32,
    wall: TimeValue,
    monotonic: TimeValue,
    ts: Result<(), LinuxError>,
    r: Outcome<Timespec>,
) -> bool {
    match (clock_of(clock_id), ts) {
        (None, _) => r.written is None && r.result == Err::<isize, LinuxError>(LinuxError::EINVAL),
        (Some(_), Err(e)) => r.written is None && r.result == Err::<isize, LinuxError>(e),
        (Some(clock), Ok(_)) => {
            let now = match clock {
                Clock::Realtime => wall,
                Clock::Monotonic => monotonic,
            };
            &&& r.result == Ok::<isize, LinuxError>(0)
            &&& r.written == Some(timespec_of(now))
        },
    }
}

/// Reports the time of a clock; `wall` and `monotonic` are what the two clocks
/// show.
pub fn sys_clock_gettime(
    clock_id: i32,
    wall: TimeValue,
    monotonic: TimeValue,
    ts: Result<(), LinuxError>,
) -> (r: Outcome<Timespec>)
    ensures
        clock_read(clock_id, wall, monotonic, ts, r),
{
    let now = match clock_id {
        0 => wall,
        1 => monotonic,
        _ => {
            return Outcome { written: None, result: Err(LinuxError::EINVAL) };
        },
    };
    match ts {
        Err(e) => Outcome { written: None, result: Err(e) },
        Ok(_) => Outcome { written: Some(timevalue_to_timespec(now)), result: Ok(0) },
    }
}

/// Reports the time since the system started.
pub fn sys_get_time_of_day(monotonic: TimeValue, ts: Result<(), LinuxError>) -> (r: Outcome<
    Timeval,
>)
    ensures
        match ts {
            Err(e) => r.written is None && r.result == Err::<isize, LinuxError>(e),
            Ok(_) => r.result == Ok::<isize, LinuxError>(0) && r.written == Some(
                timeval_of(monotonic),
            ),
        },
{
    match ts {
        Err(e) => Outcome { written: None, result: Err(e) },
        Ok(_) => Outcome { written: Some(timevalue_to_timeval(monotonic)), result: Ok(0) },
    }
}

/// The times that a process has used.
#[derive(Debug, Clone, Copy, PartialEq, Eq, Structural)]
pub struct Tms {
    /// User time of the process, in microseconds.
    pub tms_utime: usize,
    /// System time of the process, in microseconds.
    pub tms_stime: usize,
    /// User time of its children, in microseconds.
    pub tms_cutime: usize,
    /// System time of its children, in microseconds.
    pub tms_cstime: usize,
}

/// Reports the times that the process and its children have used, and returns
/// the time since the system started, in clock ticks.
pub fn sys_times(
    utime_us: usize,
    stime_us: usize,
    cutime_us: usize,
    cstime_us: usize,
    ticks: u64,
    tms: Result<(), LinuxError>,
) -> (r: Outcome<Tms>)
    ensures
        match tms {
            Err(e) => r.written is None && r.result == Err::<isize, LinuxError>(e),
            Ok(_) => {
                &&& r.result == Ok::<isize, LinuxError>(ticks as isize)
                &&& r.written == Some(
                    Tms {
                        tms_utime: utime_us,
                        tms_stime: stime_us,
                        tms_cutime: cutime_us,
                        tms_cstime: cstime_us,
                    },
                )
            },
        },
{
    match tms {
        Err(e) => Outcome { written: None, result: Err(e) },
        Ok(_) => {
            let times = Tms {
                tms_utime: utime_us,
                tms_stime: stime_us,
                tms_cutime: cutime_us,
                tms_cstime: cstime_us,
            };
            Outcome { written: Some(times), result: Ok(ticks as isize) }
        },
    }
}

/// A caller sees the time that there is: the seconds and the nanoseconds, or the whole
/// microseconds, are those of the span, and what is below a second is less than one.
pub proof fn law_caller_sees_the_time(tv: TimeValue)
    requires
        tv.wf(),
        tv.secs <= i64::MAX,
    ensures
        timespec_of(tv).tv_sec * 1_000_000_000 + timespec_of(tv).tv_nsec == tv.secs * 1_000_000_000
            + tv.nanos,
        0 <= timespec_of(tv).tv_nsec < 1_000_000_000,
        timeval_of(tv).tv_sec * 1_000_000 + timeval_of(tv).tv_usec == (tv.secs * 1_000_000_000
            + tv.nanos) / 1000,
        0 <= timeval_of(tv).tv_usec < 1_000_000,
{
}

/// A caller waits for the span that it names: as many seconds and nanoseconds.
pub proof fn law_wait_is_as_long_as_asked(ts: Timespec)
    requires
        0 <= ts.tv_sec,
        0 <= ts.tv_nsec <= u32::MAX,
    ensures
        span_of(ts) == ts.tv_sec * 1_000_000_000 + ts.tv_nsec,
{
}

/// What a caller is told of a clock: zero means the time of day, one the time since the
/// start, and no other number means a clock.
pub proof fn law_clocks(
    clock_id: i32,
    wall: TimeValue,
    monotonic: TimeValue,
    ts: Result<(), LinuxError>,
    r: Outcome<Timespec>,
)
    requires
        clock_read(clock_id, wall, monotonic, ts, r),
    ensures
        clock_id != 0 && clock_id != 1 ==> r.written is None && r.result == Err::<
            isize,
            LinuxError,
        >(LinuxError::EINVAL),
        clock_id == 0 && ts is Ok ==> r.result == Ok::<isize, LinuxError>(0) && r.written == Some(
            timespec_of(wall),
        ),
        clock_id == 1 && ts is Ok ==> r.result == Ok::<isize, LinuxError>(0) && r.written == Some(
            timespec_of(monotonic),
        ),
        (clock_id == 0 || clock_id == 1) && ts is Err ==> r.written is None && r.result == Err::<
            isize,
            LinuxError,
        >(ts->Err_0),
{
}

} // verus!
