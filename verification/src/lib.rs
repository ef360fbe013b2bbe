//! A thin, single-threaded event-loop scheduling core.
//!
//! Application code registers deferred (`Asap`), timed (`After`), repeating
//! (`Interval`) and I/O-readiness (`IO`) callbacks and drains them
//! cooperatively from one call site.  This crate holds the portable
//! scheduling engine: the callback representation and its two-phase firing
//! protocol, the software timer queue, the loop state machine with its
//! reentrancy guard and deferred-panic slot, the one-loop-per-thread
//! registry, and the bookkeeping of the asynchronous executor.
//!
//! The engine works on plain values: the monotonic clock is handed in as a
//! millisecond count, and the user callables themselves are invoked by the
//! embedding driver, which reports each callable's "keep registered" answer
//! back to the engine.  Everything the engine decides is stated in contracts
//! and verified.

use vstd::prelude::*;

pub mod ruststd;
pub mod mainloop;
pub mod future;

pub use mainloop::MainLoop;
pub use mainloop::{call_asap, call_after, call_interval, call_io, call_thread, terminate};
pub use mainloop::ThreadRegistry;

verus! {

/// Error codes returned from the main loop API.
#[derive(Clone, Copy, Debug, PartialEq, Eq, Structural)]
pub enum MainLoopError {
    /// A second loop was constructed on a thread that already owns one.
    TooManyMainLoops,
    /// A registration or cross-thread call was made with no loop on the
    /// relevant thread.
    NoMainLoop,
    /// The backend cannot represent the requested callback shape.
    Unsupported,
    /// A timer duration exceeds the backend's representable range.
    DurationTooLong,
    /// An opaque platform error.
    Other,
}

/// Callback id: loop-scoped, unique among currently pending callbacks, and
/// never reused while the original registration is pending.  Used only for
/// cancellation lookups.
#[derive(Clone, Copy, Debug, PartialEq, Eq, PartialOrd, Ord, Hash, Structural)]
pub struct CbId(pub u64);

/// Abstraction around the native I/O handles (unix fds, windows sockets).
#[derive(Clone, Copy, Debug, PartialEq, Eq, PartialOrd, Ord, Hash, Structural)]
pub struct CbHandle(pub i32);

/// Selects whether to wait for a CbHandle to be available for reading,
/// writing, or both.
#[derive(Clone, Copy, Debug, PartialEq, Eq, PartialOrd, Ord, Hash, Structural)]
pub enum IODirection {
    Neither,
    Read,
    Write,
    Both,
}

/// A span of time: whole seconds plus a sub-second millisecond part.
///
/// Well-formed when the sub-second part is below one second.
#[derive(Clone, Copy, Debug, PartialEq, Eq, Structural)]
pub struct TimeSpan {
    pub secs: u64,
    pub subsec_millis: u32,
}

impl TimeSpan {
    /// Well-formedness: the sub-second part never reaches a full second.
    pub open spec fn wf(self) -> bool {
        self.subsec_millis < 1000
    }

    /// The whole span in milliseconds.
    pub open spec fn as_millis_spec(self) -> int {
        self.secs * 1000 + self.subsec_millis
    }

    /// Builds a span from a millisecond count.
    pub fn from_millis(ms: u64) -> (r: TimeSpan)
        ensures
            r.wf(),
            r.as_millis_spec() == ms,
    {
        proof {
            vstd::arithmetic::div_mod::lemma_fundamental_div_mod(ms as int, 1000);
        }
        TimeSpan { secs: ms / 1000, subsec_millis: (ms % 1000) as u32 }
    }

    /// Builds a span from a whole number of seconds.
    pub fn from_secs(s: u64) -> (r: TimeSpan)
        ensures
            r.wf(),
            r.as_millis_spec() == s * 1000,
    {
        TimeSpan { secs: s, subsec_millis: 0 }
    }
}

/// The tagged-variant representation of a pending unit of work.
///
/// Exactly one shape is active per registration; the shape decides both how
/// the backend schedules the callback and how the two-phase firing protocol
/// treats it.  The user callable itself lives with the embedding driver: the
/// engine carries the scheduling data of the shape.
#[derive(Clone, Copy, Debug, PartialEq, Eq, Structural)]
pub enum CbKind {
    /// A one-shot callable with no timing.
    Asap,
    /// A one-shot callable fired once after the given span.
    After(TimeSpan),
    /// A repeatable callable fired at the given fixed period.
    Interval(TimeSpan),
    /// A handle watched for the requested readiness direction.
    IO(CbHandle, IODirection),
}

/// The largest whole-second count a timer may carry: one below
/// `u32::MAX / 1000`, so that the millisecond total fits the native 32-bit
/// timer representation.
pub const MAX_TIMER_SECS: u64 = 4294966;

impl CbKind {
    /// Constructs the as-soon-as-possible shape.
    pub fn asap() -> (r: CbKind)
        ensures
            r == CbKind::Asap,
    {
        CbKind::Asap
    }

    /// Constructs the run-once-after-a-delay shape.
    pub fn after(d: TimeSpan) -> (r: CbKind)
        ensures
            r == CbKind::After(d),
    {
        CbKind::After(d)
    }

    /// Constructs the repeat-at-a-fixed-period shape.
    pub fn interval(d: TimeSpan) -> (r: CbKind)
        ensures
            r == CbKind::Interval(d),
    {
        CbKind::Interval(d)
    }

    /// Constructs the I/O-readiness shape for a handle and direction.
    pub fn io(handle: CbHandle, dir: IODirection) -> (r: CbKind)
        ensures
            r == CbKind::IO(handle, dir),
    {
        CbKind::IO(handle, dir)
    }

    /// Well-formedness: a carried span is well-formed.
    pub open spec fn wf(self) -> bool {
        match self {
            CbKind::After(d) => d.wf(),
            CbKind::Interval(d) => d.wf(),
            _ => true,
        }
    }

    /// The carried span, if the shape has one.
    pub open spec fn duration_spec(self) -> Option<TimeSpan> {
        match self {
            CbKind::After(d) => Some(d),
            CbKind::Interval(d) => Some(d),
            CbKind::Asap => None,
            CbKind::IO(_, _) => None,
        }
    }

    /// Whether the carried span, if any, fits the native timer range.
    pub open spec fn duration_ok(self) -> bool {
        match self.duration_spec() {
            Some(d) => d.secs < MAX_TIMER_SECS,
            None => true,
        }
    }

    /// The carried span in milliseconds; zero for shapes without one.
    pub open spec fn dur_millis_spec(self) -> int {
        match self.duration_spec() {
            Some(d) => d.as_millis_spec(),
            None => 0,
        }
    }

    /// Which duration the shape carries: the one handed in at registration.
    pub fn duration(&self) -> (r: Option<TimeSpan>)
        ensures
            r == self.duration_spec(),
    {
        match self {
            CbKind::After(d) => Some(*d),
            CbKind::Interval(d) => Some(*d),
            CbKind::Asap => None,
            CbKind::IO(_, _) => None,
        }
    }

    /// The carried span as a 32-bit millisecond count, as a native timer
    /// wants it; rejects spans beyond the representable range.
    pub fn duration_millis(&self) -> (r: Result<Option<u32>, MainLoopError>)
        requires
            self.wf(),
        ensures
            match r {
                Ok(o) => self.duration_ok() && (match o {
                    Some(m) => self.duration_spec() is Some && m == self.dur_millis_spec(),
                    None => self.duration_spec() is None,
                }),
                Err(e) => e == MainLoopError::DurationTooLong && !self.duration_ok(),
            },
    {
        if let Some(d) = self.duration() {
            let m: u32 = u32::MAX / 1000 - 1;
            let s: u64 = d.secs;
            if s >= m as u64 {
                Err(MainLoopError::DurationTooLong)
            } else {
                Ok(Some((s as u32) * 1000 + d.subsec_millis))
            }
        } else {
            Ok(None)
        }
    }

    /// The watched handle and requested direction, for the I/O shape.
    pub fn handle(&self) -> (r: Option<(CbHandle, IODirection)>)
        ensures
            match self {
                CbKind::IO(h, d) => r == Some((*h, *d)),
                _ => r is None,
            },
    {
        match self {
            CbKind::IO(h, d) => Some((*h, *d)),
            _ => None,
        }
    }

    /// First phase of the firing protocol: given the answer of the user
    /// callable (or of the readiness handler, for I/O), decides whether the
    /// registration stays.  One-shot shapes never stay: their callable is
    /// only invoked by the terminal `finish` phase.
    pub fn repeat_after_call(&self, callable_said: bool) -> (r: bool)
        ensures
            r == match *self {
                CbKind::Interval(_) => callable_said,
                CbKind::IO(_, _) => callable_said,
                _ => false,
            },
    {
        match self {
            CbKind::Interval(_) => callable_said,
            CbKind::IO(_, _) => callable_said,
            CbKind::After(_) => false,
            CbKind::Asap => false,
        }
    }

    /// Second, terminal phase: whether `finish` consumes and invokes a
    /// one-shot callable.  Repeatable shapes were already invoked in the
    /// first phase and are only dropped here.
    pub fn finish_invokes(&self) -> (r: bool)
        ensures
            r == match *self {
                CbKind::Asap => true,
                CbKind::After(_) => true,
                _ => false,
            },
    {
        match self {
            CbKind::Asap => true,
            CbKind::After(_) => true,
            CbKind::Interval(_) => false,
            CbKind::IO(_, _) => false,
        }
    }
}

/// An object that can be watched for I/O readiness: it exposes a native
/// handle, a requested direction, and a readiness handler whose boolean
/// answer is the keep-registered signal of the firing protocol.
pub trait IOAble {
    fn handle(&self) -> CbHandle;

    fn direction(&self) -> IODirection;

    fn on_rw(&mut self, r: Result<IODirection, MainLoopError>) -> bool;
}

/// The most common I/O object is one that is read asynchronously; this is
/// the convenience wrapper for that kind.  The embedding driver pairs it
/// with the user's read handler; the scheduling answer here is always to
/// keep watching.
pub struct IOReader {
    pub handle: CbHandle,
}

impl IOAble for IOReader {
    fn handle(&self) -> CbHandle {
        self.handle
    }

    fn direction(&self) -> IODirection {
        IODirection::Read
    }

    fn on_rw(&mut self, _r: Result<IODirection, MainLoopError>) -> bool {
        true
    }
}

} // verus!
