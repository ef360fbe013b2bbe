//! Async primitives and the executor's bookkeeping.
//!
//! `Delay` and `Io` bridge loop registrations into the poll-based
//! computation model; the `Executor` multiplexes suspended computations
//! onto one loop through a task table and a run queue of woken task ids.
//! The computations themselves are polled by the embedding driver; the
//! engine decides everything else.

use vstd::prelude::*;
use crate::{CbHandle, IODirection, MainLoopError};
use crate::mainloop::{loop_view_wf, MainLoop, MainLoopView, ThreadRegistry, reg_contains};
use crate::ruststd::Entry;

verus! {

/// Waits until a specific instant of the driver's monotonic millisecond
/// clock.
#[derive(Clone, Copy, Debug, PartialEq, Eq, Structural)]
pub struct Delay(pub u64);

/// Waits until a specific instant.
pub fn delay(i: u64) -> (r: Delay)
    ensures
        r == Delay(i),
{
    Delay(i)
}

/// What one poll of a `Delay` reports.
#[derive(Clone, Copy, Debug, PartialEq, Eq, Structural)]
pub enum DelayPoll {
    /// The instant has been reached: the computation completes.
    Ready,
    /// Not yet: the driver must register a run-once callback after the
    /// carried remaining span, whose body invokes the stored wake handle.
    Pending(u64),
}

impl Delay {
    /// One poll at the given instant: ready exactly when the clock has
    /// reached the target, and otherwise the exact remaining span to
    /// re-register for.
    pub fn poll_at(&self, now: u64) -> (r: DelayPoll)
        ensures
            r is Ready <==> self.0 <= now,
            match r {
                DelayPoll::Ready => true,
                DelayPoll::Pending(rem) => rem == self.0 - now && rem > 0,
            },
    {
        if self.0 <= now {
            DelayPoll::Ready
        } else {
            DelayPoll::Pending(self.0 - now)
        }
    }
}

/// The readiness-stream state the contracts speak of.
pub struct IoView {
    /// The watched handle.
    pub handle: CbHandle,
    /// The requested readiness direction.
    pub direction: IODirection,
    /// Readiness results observed by the backend and not yet consumed.
    pub queue: Seq<Result<IODirection, MainLoopError>>,
    /// Cleared when the last stream handle is released: the next delivery
    /// then tells the backend to stop.
    pub alive: bool,
    /// Whether the stream registered itself with the loop.
    pub started: bool,
    /// Whether a wake handle is stored for the next delivery.
    pub has_waker: bool,
}

/// What one poll of an `Io` stream reports.
#[derive(Clone, Copy, Debug, PartialEq, Eq)]
pub enum IoPoll {
    /// The stream is closed: it yields nothing further.
    Closed,
    /// First poll: the driver must register the stream's handle and
    /// direction with the loop, then report failure or poll again.
    MustRegister,
    /// A readiness result was pending and is consumed.
    Item(Result<IODirection, MainLoopError>),
    /// Nothing pending: the wake handle is stored for the next delivery.
    Pending,
}

/// A stream of readiness results for one handle: backed by a pending
/// results queue, a liveness flag, a started flag and a stored wake
/// handle.
pub struct Io {
    handle: CbHandle,
    direction: IODirection,
    queue: Vec<Result<IODirection, MainLoopError>>,
    alive: bool,
    started: bool,
    has_waker: bool,
}

impl View for Io {
    type V = IoView;

    closed spec fn view(&self) -> IoView {
        IoView {
            handle: self.handle,
            direction: self.direction,
            queue: self.queue@,
            alive: self.alive,
            started: self.started,
            has_waker: self.has_waker,
        }
    }
}

/// Creates a new readiness stream for the handle: alive, not yet
/// registered, with nothing pending.
pub fn io(handle: CbHandle, dir: IODirection) -> (r: Io)
    ensures
        r@.handle == handle,
        r@.direction == dir,
        r@.queue =~= Seq::<Result<IODirection, MainLoopError>>::empty(),
        r@.alive,
        !r@.started,
        !r@.has_waker,
{
    Io { handle, direction: dir, queue: Vec::new(), alive: true, started: false, has_waker: false }
}

impl Io {
    /// The watched handle.
    pub fn watch_handle(&self) -> (r: CbHandle)
        ensures
            r == self@.handle,
    {
        self.handle
    }

    /// The requested direction.
    pub fn watch_direction(&self) -> (r: IODirection)
        ensures
            r == self@.direction,
    {
        self.direction
    }

    /// Delivery of one observed readiness result from the backend: it is
    /// appended to the pending queue (the driver then invokes the stored
    /// wake handle), and the liveness flag is the keep-registered answer —
    /// a dead stream tells the backend to stop.
    pub fn on_readiness(&mut self, r: Result<IODirection, MainLoopError>) -> (keep: bool)
        ensures
            final(self)@ == (IoView { queue: old(self)@.queue.push(r), ..old(self)@ }),
            keep == old(self)@.alive,
    {
        self.queue.push(r);
        self.alive
    }

    /// One poll of the stream.  A dead stream is closed; the first poll
    /// asks the driver to register with the loop; then a pending result is
    /// consumed if there is one, else the wake handle is stored.
    pub fn poll_next(&mut self) -> (r: IoPoll)
        ensures
            match r {
                IoPoll::Closed => !old(self)@.alive && final(self)@ == old(self)@,
                IoPoll::MustRegister => {
                    &&& old(self)@.alive
                    &&& !old(self)@.started
                    &&& final(self)@ == (IoView { started: true, ..old(self)@ })
                },
                IoPoll::Item(item) => {
                    &&& old(self)@.alive
                    &&& old(self)@.started
                    &&& old(self)@.queue.len() > 0
                    &&& item == old(self)@.queue[0]
                    &&& final(self)@ == (IoView {
                        queue: old(self)@.queue.drop_first(),
                        ..old(self)@
                    })
                },
                IoPoll::Pending => {
                    &&& old(self)@.alive
                    &&& old(self)@.started
                    &&& old(self)@.queue.len() == 0
                    &&& final(self)@ == (IoView { has_waker: true, ..old(self)@ })
                },
            },
    {
        if !self.alive {
            return IoPoll::Closed;
        }
        if !self.started {
            self.started = true;
            return IoPoll::MustRegister;
        }
        if self.queue.len() > 0 {
            let ghost q = self.queue@;
            let item = self.queue.remove(0);
            proof {
                assert(q.remove(0) =~= q.drop_first());
            }
            IoPoll::Item(item)
        } else {
            self.has_waker = true;
            IoPoll::Pending
        }
    }

    /// The driver reports that registering with the loop failed: the
    /// stream dies and yields the error once.
    pub fn registration_failed(&mut self)
        ensures
            final(self)@ == (IoView { alive: false, ..old(self)@ }),
    {
        self.alive = false;
    }

    /// Releasing the last stream handle: clears the liveness flag, so the
    /// next readiness delivery tells the backend to stop.
    pub fn close(&mut self)
        ensures
            final(self)@ == (IoView { alive: false, ..old(self)@ }),
    {
        self.alive = false;
    }
}

/// The executor state the contracts speak of.
pub struct ExecutorView {
    /// The loop the executor multiplexes onto.
    pub ml: MainLoopView,
    /// The ids of live (not yet completed) tasks.
    pub tasks: Seq<u64>,
    /// The task id allocator: every id handed out so far lies below it.
    pub next_task: u64,
    /// The run queue: task ids woken since the last drain.
    pub run_queue: Seq<u64>,
}

/// A second scheduler multiplexed onto one loop: a task table of suspended
/// computations (held by the driver, keyed by id) and a run queue of woken
/// task ids.
pub struct Executor {
    ml: MainLoop,
    tasks: Vec<u64>,
    next_task: u64,
    run_queue: Vec<u64>,
}

impl View for Executor {
    type V = ExecutorView;

    closed spec fn view(&self) -> ExecutorView {
        ExecutorView {
            ml: self.ml@,
            tasks: self.tasks@,
            next_task: self.next_task,
            run_queue: self.run_queue@,
        }
    }
}

impl Executor {
    /// The executor invariant: the loop is well-formed, live task ids are
    /// unique, and every task id was allocated below `next_task`.
    pub open spec fn wf(self) -> bool {
        &&& loop_view_wf(self@.ml)
        &&& forall|i: int, j: int|
            0 <= i < j < self@.tasks.len() ==> self@.tasks[i] != self@.tasks[j]
        &&& forall|i: int| 0 <= i < self@.tasks.len() ==> #[trigger] self@.tasks[i] < self@.next_task
    }

    /// Creates an executor owning a fresh loop for the given thread
    /// identity; fails with `TooManyMainLoops` exactly when that thread
    /// already owns a loop.
    pub fn new(reg: &mut ThreadRegistry, thread: u64) -> (r: Result<Executor, MainLoopError>)
        requires
            old(reg).wf(),
        ensures
            final(reg).wf(),
            match r {
                Ok(ex) => {
                    &&& !reg_contains(old(reg)@, thread)
                    &&& reg_contains(final(reg)@, thread)
                    &&& forall|x: u64|
                        x != thread ==> reg_contains(final(reg)@, x) == reg_contains(old(reg)@, x)
                    &&& ex.wf()
                    &&& ex@.tasks =~= Seq::<u64>::empty()
                    &&& ex@.run_queue =~= Seq::<u64>::empty()
                    &&& ex@.next_task == 1
                    &&& ex@.ml.queue =~= Seq::<Entry>::empty()
                    &&& !ex@.ml.terminated
                    &&& !ex@.ml.running
                    &&& ex@.ml.thread == thread
                },
                Err(e) => {
                    &&& e == MainLoopError::TooManyMainLoops
                    &&& reg_contains(old(reg)@, thread)
                    &&& final(reg)@ == old(reg)@
                },
            },
    {
        let ml = match MainLoop::new(reg, thread) {
            Ok(ml) => ml,
            Err(e) => { return Err(e) },
        };
        Ok(Executor { ml, tasks: Vec::new(), next_task: 1, run_queue: Vec::new() })
    }

    /// Tears the executor down, releasing its loop's registry seat.
    pub fn release(self, reg: &mut ThreadRegistry)
        requires
            old(reg).wf(),
        ensures
            final(reg).wf(),
            !reg_contains(final(reg)@, self@.ml.thread),
            forall|x: u64|
                x != self@.ml.thread ==> reg_contains(final(reg)@, x) == reg_contains(
                    old(reg)@,
                    x,
                ),
    {
        let Executor { ml, tasks: _, next_task: _, run_queue: _ } = self;
        ml.release(reg);
    }

    /// Borrows the underlying loop, e.g. to register callbacks or to
    /// delegate a turn when the run queue is empty.
    pub fn mainloop(&mut self) -> (r: &mut MainLoop)
        ensures
            *r == old(self).ml_field(),
            final(self)@ == (ExecutorView { ml: final(r)@, ..old(self)@ }),
    {
        &mut self.ml
    }

    /// The loop instance held inside; spec-level companion of `mainloop`.
    pub closed spec fn ml_field(self) -> MainLoop {
        self.ml
    }

    /// The view of the held loop agrees with the executor's view.
    pub proof fn lemma_ml_field_view(self)
        ensures
            self.ml_field()@ == self@.ml,
    {
    }

    /// Spawns a suspended computation: allocates a fresh task id, records
    /// it live, and enqueues it in the run queue so it is polled at least
    /// once.  The driver stores the computation under the returned id.
    pub fn spawn(&mut self) -> (id: u64)
        requires
            old(self).wf(),
            old(self)@.next_task < u64::MAX,
        ensures
            final(self).wf(),
            id == old(self)@.next_task,
            final(self)@ == (ExecutorView {
                tasks: old(self)@.tasks.push(id),
                next_task: (old(self)@.next_task + 1) as u64,
                run_queue: old(self)@.run_queue.push(id),
                ..old(self)@
            }),
            final(self)@.tasks.contains(id),
            final(self)@.run_queue.contains(id),
    {
        let id = self.next_task;
        self.tasks.push(id);
        self.run_queue.push(id);
        self.next_task = self.next_task + 1;
        proof {
            let t = self.tasks@;
            let ot = old(self)@.tasks;
            assert(t[ot.len() as int] == id);
            assert(self.run_queue@[old(self)@.run_queue.len() as int] == id);
            assert forall|i: int, j: int| 0 <= i < j < t.len() implies t[i] != t[j] by {
                if j < ot.len() {
                } else {
                    assert(t[j] == id && t[i] == ot[i]);
                }
            }
            assert forall|i: int| 0 <= i < t.len() implies #[trigger] t[i] < self.next_task by {
                if i < ot.len() {
                    assert(t[i] == ot[i]);
                }
            }
        }
        id
    }

    /// A wake handle fired: re-enqueues the task id.  Wake handles may
    /// outlive their task; a stale id is skipped at drain time.
    pub fn wake(&mut self, id: u64)
        ensures
            final(self)@ == (ExecutorView {
                run_queue: old(self)@.run_queue.push(id),
                ..old(self)@
            }),
            old(self).wf() ==> final(self).wf(),
    {
        self.run_queue.push(id);
    }

    /// Atomically takes and clears the run queue.  When the returned batch
    /// is empty the driver delegates the whole turn to the loop; otherwise
    /// it polls each returned id that is still live.
    pub fn take_run_queue(&mut self) -> (r: Vec<u64>)
        ensures
            r@ == old(self)@.run_queue,
            final(self)@ == (ExecutorView { run_queue: Seq::<u64>::empty(), ..old(self)@ }),
            old(self).wf() ==> final(self).wf(),
    {
        let mut taken: Vec<u64> = Vec::new();
        core::mem::swap(&mut taken, &mut self.run_queue);
        proof {
            assert(self.run_queue@ =~= Seq::<u64>::empty());
        }
        taken
    }

    /// Whether the task is still live: it may have been removed already by
    /// a prior completion.
    pub fn task_alive(&self, id: u64) -> (r: bool)
        ensures
            r == self@.tasks.contains(id),
    {
        let ghost t = self.tasks@;
        let mut i: usize = 0;
        while i < self.tasks.len()
            invariant
                0 <= i <= self.tasks.len(),
                self.tasks@ == t,
                forall|k: int| 0 <= k < i ==> t[k] != id,
            decreases self.tasks.len() - i,
        {
            if self.tasks[i] == id {
                assert(t[i as int] == id);
                return true;
            }
            i = i + 1;
        }
        assert(!t.contains(id));
        false
    }

    /// The poll reported completion: the task leaves the table the moment
    /// it completes, and no other task is affected.
    pub fn remove_task(&mut self, id: u64)
        requires
            old(self).wf(),
        ensures
            final(self).wf(),
            !final(self)@.tasks.contains(id),
            forall|x: u64|
                x != id ==> final(self)@.tasks.contains(x) == old(self)@.tasks.contains(x),
            final(self)@.ml == old(self)@.ml,
            final(self)@.next_task == old(self)@.next_task,
            final(self)@.run_queue == old(self)@.run_queue,
    {
        let ghost t = self.tasks@;
        let mut i: usize = 0;
        while i < self.tasks.len()
            invariant
                0 <= i <= self.tasks.len(),
                self.tasks@ == t,
                old(self)@.tasks == t,
                old(self).wf(),
                self@.ml == old(self)@.ml,
                self@.next_task == old(self)@.next_task,
                self@.run_queue == old(self)@.run_queue,
                forall|k: int, l: int| 0 <= k < l < t.len() ==> t[k] != t[l],
                forall|k: int| 0 <= k < i ==> t[k] != id,
            decreases self.tasks.len() - i,
        {
            if self.tasks[i] == id {
                self.tasks.remove(i);
                proof {
                    let r = self.tasks@;
                    assert(r =~= t.remove(i as int));
                    assert forall|a: int| 0 <= a < r.len() implies #[trigger] r[a]
                        < self@.next_task by {
                        let a0 = if a < i { a } else { a + 1 };
                        assert(r[a] == t[a0]);
                        assert(old(self)@.tasks[a0] < old(self)@.next_task);
                    }
                    assert forall|a: int, b: int| 0 <= a < b < r.len() implies r[a] != r[b] by {
                        let a0 = if a < i { a } else { a + 1 };
                        let b0 = if b < i { b } else { b + 1 };
                        assert(r[a] == t[a0] && r[b] == t[b0]);
                    }
                    assert forall|a: int| 0 <= a < r.len() implies r[a] != id by {
                        let a0 = if a < i { a } else { a + 1 };
                        assert(r[a] == t[a0]);
                    }
                    assert(!r.contains(id));
                    assert forall|x: u64| x != id implies r.contains(x) == t.contains(x) by {
                        if r.contains(x) {
                            let a = choose|a: int| 0 <= a < r.len() && r[a] == x;
                            let a0 = if a < i { a } else { a + 1 };
                            assert(t[a0] == x);
                        }
                        if t.contains(x) {
                            let a0 = choose|a0: int| 0 <= a0 < t.len() && t[a0] == x;
                            let a = if a0 < i { a0 } else { a0 - 1 };
                            assert(r[a] == x);
                        }
                    }
                }
                return ;
            }
            i = i + 1;
        }
        proof {
            assert(!t.contains(id));
        }
    }
}

/// Law (polled at least once): whatever the run queue held, a newly
/// spawned task id stands in it, so the next drain polls the task at least
/// once — an immediately-ready computation thus completes on the first
/// turn after spawning, without any wait.
pub proof fn lemma_spawned_is_polled(rq: Seq<u64>, id: u64)
    ensures
        rq.push(id).contains(id),
{
    assert(rq.push(id)[rq.len() as int] == id);
}

} // verus!
