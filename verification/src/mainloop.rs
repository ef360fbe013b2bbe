//! The loop core: registration and cancellation, the one-loop-per-thread
//! registry, the non-reentrancy guard, and the deferred-panic slot.
//!
//! A loop instance owns one software timer queue.  The embedding driver
//! advances it turn by turn: `run_one_step` decides what the turn does
//! (fire a due callback, wait, or stop), the driver invokes the user
//! callable, reports its keep-registered answer to `finish_fire`, and ends
//! the turn with `end_turn`, which hands back any panic recorded while the
//! callable ran so that the driver can re-raise it from a safe frame.

use vstd::prelude::*;
use crate::{CbId, CbKind, IOAble, IODirection, CbHandle, MainLoopError, TimeSpan};
use crate::ruststd::{
    Backend, Entry, entries_wf, entry_wf, has_id, ids_unique, insert_stable, find_id, remove_id,
    sorted_by_next, lemma_insert_stable_ids, lemma_has_id_index,
};

verus! {

/// All ids in the queue were allocated below the given counter.
pub open spec fn ids_below(s: Seq<Entry>, n: u64) -> bool {
    forall|i: int| 0 <= i < s.len() ==> (#[trigger] s[i]).id.0 < n
}

/// Stable insertion of an entry allocated below the counter keeps every id
/// below the counter.
pub proof fn lemma_insert_stable_below(s: Seq<Entry>, e: Entry, n: u64)
    requires
        ids_below(s, n),
        e.id.0 < n,
    ensures
        ids_below(insert_stable(s, e), n),
    decreases s.len(),
{
    let r = insert_stable(s, e);
    if s.len() == 0 {
    } else if e.next < s[0].next {
        assert forall|i: int| 0 <= i < r.len() implies (#[trigger] r[i]).id.0 < n by {
            if i > 0 {
                assert(r[i] == s[i - 1]);
            }
        }
    } else {
        let t = s.drop_first();
        assert forall|i: int| 0 <= i < t.len() implies (#[trigger] t[i]).id.0 < n by {
            assert(t[i] == s[i + 1]);
        }
        lemma_insert_stable_below(t, e, n);
        let q = insert_stable(t, e);
        assert forall|i: int| 0 <= i < r.len() implies (#[trigger] r[i]).id.0 < n by {
            if i > 0 {
                assert(r[i] == q[i - 1]);
            }
        }
    }
}

/// Removing an id keeps every id below the counter.
pub proof fn lemma_remove_id_below(s: Seq<Entry>, id: CbId, n: u64)
    requires
        ids_below(s, n),
    ensures
        ids_below(remove_id(s, id), n),
    decreases s.len(),
{
    let r = remove_id(s, id);
    if s.len() == 0 {
    } else if s[0].id == id {
        assert forall|i: int| 0 <= i < r.len() implies (#[trigger] r[i]).id.0 < n by {
            assert(r[i] == s[i + 1]);
        }
    } else {
        let t = s.drop_first();
        assert forall|i: int| 0 <= i < t.len() implies (#[trigger] t[i]).id.0 < n by {
            assert(t[i] == s[i + 1]);
        }
        lemma_remove_id_below(t, id, n);
        let q = remove_id(t, id);
        assert forall|i: int| 0 <= i < r.len() implies (#[trigger] r[i]).id.0 < n by {
            if i > 0 {
                assert(r[i] == q[i - 1]);
            }
        }
    }
}

/// Dropping the front keeps every id below the counter.
pub proof fn lemma_drop_first_below(s: Seq<Entry>, n: u64)
    requires
        ids_below(s, n),
        s.len() > 0,
    ensures
        ids_below(s.drop_first(), n),
{
    let t = s.drop_first();
    assert forall|i: int| 0 <= i < t.len() implies (#[trigger] t[i]).id.0 < n by {
        assert(t[i] == s[i + 1]);
    }
}

/// Law (exactly once, step case): an absent id stays absent across a
/// registration under a different id.  Registration only ever hands out
/// ids equal to the allocation counter, and a cancelled id lies below it,
/// so a cancelled callback can never re-enter the queue.
pub proof fn lemma_stays_out_insert(s: Seq<Entry>, e: Entry, id: CbId)
    requires
        !has_id(s, id),
        e.id != id,
    ensures
        !has_id(insert_stable(s, e), id),
{
    lemma_insert_stable_ids(s, e, id);
}

/// Law (exactly once, step case): an absent id stays absent when the front
/// entry is popped for firing.
pub proof fn lemma_stays_out_pop(s: Seq<Entry>, id: CbId)
    requires
        !has_id(s, id),
        s.len() > 0,
    ensures
        !has_id(s.drop_first(), id),
{
}

/// Law (exactly once, step case): an absent id stays absent across any
/// cancellation.
pub proof fn lemma_stays_out_cancel(s: Seq<Entry>, x: CbId, id: CbId)
    requires
        !has_id(s, id),
    ensures
        !has_id(remove_id(s, x), id),
    decreases s.len(),
{
    let r = remove_id(s, x);
    if s.len() == 0 {
    } else if s[0].id == x {
    } else {
        lemma_stays_out_cancel(s.drop_first(), x, id);
        assert(r[0] == s[0]);
        assert(r.drop_first() =~= remove_id(s.drop_first(), x));
    }
}

/// One queue operation the engine can perform: a registration (which
/// takes its id from the allocation counter), a pop of the due front
/// entry for firing, or a cancellation.
pub enum QueueOp {
    Register(u64, CbKind),
    PopFront,
    Cancel(CbId),
}

/// The effect of one operation on the queue and the allocation counter,
/// as the engine's contracts state it.
pub open spec fn apply_op(q: Seq<Entry>, n: u64, op: QueueOp) -> (Seq<Entry>, u64) {
    match op {
        QueueOp::Register(at, kind) => (
            insert_stable(q, Entry { id: CbId(n), next: at, kind }),
            (n + 1) as u64,
        ),
        QueueOp::PopFront => (
            if q.len() > 0 {
                q.drop_first()
            } else {
                q
            },
            n,
        ),
        QueueOp::Cancel(x) => (remove_id(q, x), n),
    }
}

/// The effect of a whole sequence of operations, applied front to back.
pub open spec fn apply_ops(q: Seq<Entry>, n: u64, ops: Seq<QueueOp>) -> (Seq<Entry>, u64)
    decreases ops.len(),
{
    if ops.len() == 0 {
        (q, n)
    } else {
        apply_ops(apply_op(q, n, ops[0]).0, apply_op(q, n, ops[0]).1, ops.drop_first())
    }
}

/// How many registrations a sequence of operations performs.
pub open spec fn n_registers(ops: Seq<QueueOp>) -> nat
    decreases ops.len(),
{
    if ops.len() == 0 {
        0
    } else {
        (if ops[0] is Register {
            1nat
        } else {
            0nat
        }) + n_registers(ops.drop_first())
    }
}

/// Law (exactly once): an id that has left the queue while lying below
/// the allocation counter — as a cancelled or fired callback's id does —
/// never re-enters it across any later sequence of registrations, fires
/// and cancellations, as long as the counter cannot wrap.  Since only
/// queued entries can be popped for firing, such a callback never fires
/// again.
pub proof fn lemma_cancelled_never_fires(q: Seq<Entry>, n: u64, id: CbId, ops: Seq<QueueOp>)
    requires
        !has_id(q, id),
        id.0 < n,
        n + n_registers(ops) <= u64::MAX,
    ensures
        !has_id(apply_ops(q, n, ops).0, id),
        id.0 < apply_ops(q, n, ops).1,
    decreases ops.len(),
{
    if ops.len() > 0 {
        let op = ops[0];
        let q2 = apply_op(q, n, op).0;
        let n2 = apply_op(q, n, op).1;
        match op {
            QueueOp::Register(at, kind) => {
                let e = Entry { id: CbId(n), next: at, kind };
                assert(e.id != id);
                lemma_stays_out_insert(q, e, id);
            },
            QueueOp::PopFront => {
                if q.len() > 0 {
                    lemma_stays_out_pop(q, id);
                }
            },
            QueueOp::Cancel(x) => {
                lemma_stays_out_cancel(q, x, id);
            },
        }
        lemma_cancelled_never_fires(q2, n2, id, ops.drop_first());
    }
}

/// The deadline an on-time repeating callback has after a number of fires,
/// each re-inserted at the previous deadline plus the period.
pub open spec fn deadline_after_fires(start: int, period: int, fires: nat) -> int
    decreases fires,
{
    if fires == 0 {
        start
    } else {
        deadline_after_fires(start, period, (fires - 1) as nat) + period
    }
}

/// Law (no drift): re-inserting at the previous deadline plus the period
/// puts the k-th fire at exactly `start + k * period`, independent of how
/// late each fire was actually observed.
pub proof fn lemma_interval_no_drift(start: int, period: int, fires: nat)
    ensures
        deadline_after_fires(start, period, fires) == start + fires * period,
    decreases fires,
{
    if fires > 0 {
        let f1 = (fires - 1) as nat;
        lemma_interval_no_drift(start, period, f1);
        assert(deadline_after_fires(start, period, fires) == deadline_after_fires(
            start,
            period,
            f1,
        ) + period);
        assert(f1 * period + period == fires * period) by (nonlinear_arith)
            requires
                fires >= 1,
                f1 == fires - 1,
        ;
    } else {
        assert(fires * period == 0) by (nonlinear_arith)
            requires
                fires == 0,
        ;
    }
}

/// One more on-time fire advances the deadline by exactly one period —
/// the step `finish_fire` promises of a kept repeating entry.
pub proof fn lemma_reinsert_advances_deadline(start: int, period: int, fires: nat)
    ensures
        deadline_after_fires(start, period, fires) + period == deadline_after_fires(
            start,
            period,
            fires + 1,
        ),
{
}

/// Whether a thread identity owns a loop.
pub open spec fn reg_contains(s: Seq<u64>, t: u64) -> bool {
    exists|i: int| 0 <= i < s.len() && s[i] == t
}

/// No thread identity occurs twice.
pub open spec fn threads_unique(s: Seq<u64>) -> bool {
    forall|i: int, j: int| 0 <= i < j < s.len() ==> s[i] != s[j]
}

/// The process-wide registry of thread identities that own a loop, the
/// seat of the one-loop-per-thread rule and of cross-thread dispatch
/// lookups.
pub struct ThreadRegistry {
    threads: Vec<u64>,
}

impl View for ThreadRegistry {
    type V = Seq<u64>;

    closed spec fn view(&self) -> Seq<u64> {
        self.threads@
    }
}

impl ThreadRegistry {
    /// No thread identity occurs twice.
    pub open spec fn wf(self) -> bool {
        threads_unique(self@)
    }

    /// An empty registry: no thread owns a loop.
    pub fn new() -> (r: ThreadRegistry)
        ensures
            r@ =~= Seq::<u64>::empty(),
            r.wf(),
    {
        ThreadRegistry { threads: Vec::new() }
    }

    /// Whether the thread currently owns a loop.
    pub fn contains(&self, t: u64) -> (r: bool)
        ensures
            r == reg_contains(self@, t),
    {
        let ghost s = self.threads@;
        let mut i: usize = 0;
        while i < self.threads.len()
            invariant
                0 <= i <= self.threads.len(),
                self.threads@ == s,
                forall|k: int| 0 <= k < i ==> s[k] != t,
            decreases self.threads.len() - i,
        {
            if self.threads[i] == t {
                return true;
            }
            i = i + 1;
        }
        assert(!reg_contains(s, t));
        false
    }

    /// Records that the thread now owns a loop.
    fn add(&mut self, t: u64)
        requires
            old(self).wf(),
            !reg_contains(old(self)@, t),
        ensures
            final(self)@ == old(self)@.push(t),
            final(self).wf(),
            reg_contains(final(self)@, t),
            forall|x: u64| x != t ==> reg_contains(final(self)@, x) == reg_contains(old(self)@, x),
    {
        let ghost s = self.threads@;
        self.threads.push(t);
        proof {
            let r = self.threads@;
            assert(r[s.len() as int] == t);
            assert forall|i: int, j: int| 0 <= i < j < r.len() implies r[i] != r[j] by {
                if j < s.len() {
                } else {
                    assert(r[j] == t);
                }
            }
            assert forall|x: u64| x != t implies reg_contains(r, x) == reg_contains(s, x) by {
                if reg_contains(r, x) {
                    let i = choose|i: int| 0 <= i < r.len() && r[i] == x;
                    assert(s[i] == x);
                }
                if reg_contains(s, x) {
                    let i = choose|i: int| 0 <= i < s.len() && s[i] == x;
                    assert(r[i] == x);
                }
            }
        }
    }

    /// Removes the thread's entry, if any: the thread no longer owns a
    /// loop, and no other thread is affected.
    fn drop_thread(&mut self, t: u64)
        requires
            old(self).wf(),
        ensures
            final(self).wf(),
            !reg_contains(final(self)@, t),
            forall|x: u64| x != t ==> reg_contains(final(self)@, x) == reg_contains(old(self)@, x),
    {
        let ghost s = self.threads@;
        let mut i: usize = 0;
        while i < self.threads.len()
            invariant
                0 <= i <= self.threads.len(),
                self.threads@ == s,
                old(self)@ == s,
                threads_unique(s),
                forall|k: int| 0 <= k < i ==> s[k] != t,
            decreases self.threads.len() - i,
        {
            if self.threads[i] == t {
                self.threads.remove(i);
                proof {
                    let r = self.threads@;
                    assert(r =~= s.remove(i as int));
                    assert forall|a: int, b: int| 0 <= a < b < r.len() implies r[a] != r[b] by {
                        let a0 = if a < i { a } else { a + 1 };
                        let b0 = if b < i { b } else { b + 1 };
                        assert(r[a] == s[a0] && r[b] == s[b0]);
                    }
                    assert forall|a: int| 0 <= a < r.len() implies r[a] != t by {
                        let a0 = if a < i { a } else { a + 1 };
                        assert(r[a] == s[a0]);
                    }
                    assert forall|x: u64| x != t implies reg_contains(r, x) == reg_contains(s, x) by {
                        if reg_contains(r, x) {
                            let a = choose|a: int| 0 <= a < r.len() && r[a] == x;
                            let a0 = if a < i { a } else { a + 1 };
                            assert(s[a0] == x);
                        }
                        if reg_contains(s, x) {
                            let a0 = choose|a0: int| 0 <= a0 < s.len() && s[a0] == x;
                            let a = if a0 < i { a0 } else { a0 - 1 };
                            assert(r[a] == x);
                        }
                    }
                }
                return ;
            }
            i = i + 1;
        }
        assert(!reg_contains(s, t));
    }
}

/// Runs a callable on another thread: looks the target thread up in the
/// registry and, when it owns a loop, hands the callable to that loop's
/// wake primitive (the driver's side).  Fails with `NoMainLoop` exactly
/// when the target thread owns no loop.
pub fn call_thread(reg: &ThreadRegistry, thread: u64) -> (r: Result<(), MainLoopError>)
    ensures
        r is Ok <==> reg_contains(reg@, thread),
        r is Err ==> r == Err::<(), MainLoopError>(MainLoopError::NoMainLoop),
{
    if reg.contains(thread) {
        Ok(())
    } else {
        Err(MainLoopError::NoMainLoop)
    }
}

/// The loop state the contracts speak of.
pub struct MainLoopView {
    /// The termination flag: once set, the next turn stops the loop.
    pub terminated: bool,
    /// The reentrancy guard: set while a turn is in progress.
    pub running: bool,
    /// The pending callbacks, in ascending deadline order.
    pub queue: Seq<Entry>,
    /// The id allocator: every id handed out so far lies below it.
    pub next_id: u64,
    /// A panic recorded while a callable ran, to re-raise at a safe frame.
    pub pending_panic: Option<u64>,
    /// The identity of the owning thread.
    pub thread: u64,
}

/// What one turn of the loop does.
#[derive(Clone, Copy, Debug, PartialEq, Eq, Structural)]
pub enum Step {
    /// The termination flag was set: the loop stops.
    Terminated,
    /// This entry is due: the driver must invoke its callable and report
    /// the keep-registered answer to `finish_fire`.
    Fire(Entry),
    /// Nothing is due.  The driver may block until the given deadline (or
    /// indefinitely if there is none), or until an external wake.
    Wait(Option<u64>),
}

/// One loop instance: a termination flag, a reentrancy guard, a software
/// timer queue, an id allocator and the deferred-panic slot.
pub struct MainLoop {
    terminated: bool,
    running: bool,
    backend: Backend,
    next_id: u64,
    pending_panic: Option<u64>,
    thread: u64,
}

impl View for MainLoop {
    type V = MainLoopView;

    closed spec fn view(&self) -> MainLoopView {
        MainLoopView {
            terminated: self.terminated,
            running: self.running,
            queue: self.backend@,
            next_id: self.next_id,
            pending_panic: self.pending_panic,
            thread: self.thread,
        }
    }
}

/// The loop invariant: the queue is sorted with unique, holdable entries,
/// and every queued id was allocated below `next_id`.
pub open spec fn loop_view_wf(v: MainLoopView) -> bool {
    &&& sorted_by_next(v.queue)
    &&& ids_unique(v.queue)
    &&& entries_wf(v.queue)
    &&& ids_below(v.queue, v.next_id)
}

impl MainLoop {
    /// The loop invariant, stated of this instance.
    pub open spec fn wf(self) -> bool {
        loop_view_wf(self@)
    }

    /// Creates a new loop for the given thread identity.  Fails with
    /// `TooManyMainLoops` exactly when that thread already owns one;
    /// otherwise the thread is recorded as owning the new, empty loop.
    pub fn new(reg: &mut ThreadRegistry, thread: u64) -> (r: Result<MainLoop, MainLoopError>)
        requires
            old(reg).wf(),
        ensures
            final(reg).wf(),
            match r {
                Ok(ml) => {
                    &&& !reg_contains(old(reg)@, thread)
                    &&& reg_contains(final(reg)@, thread)
                    &&& forall|x: u64|
                        x != thread ==> reg_contains(final(reg)@, x) == reg_contains(old(reg)@, x)
                    &&& ml.wf()
                    &&& ml@.queue =~= Seq::<Entry>::empty()
                    &&& !ml@.terminated
                    &&& !ml@.running
                    &&& ml@.pending_panic is None
                    &&& ml@.next_id == 1
                    &&& ml@.thread == thread
                },
                Err(e) => {
                    &&& e == MainLoopError::TooManyMainLoops
                    &&& reg_contains(old(reg)@, thread)
                    &&& final(reg)@ == old(reg)@
                },
            },
    {
        if reg.contains(thread) {
            return Err(MainLoopError::TooManyMainLoops);
        }
        reg.add(thread);
        Ok(
            MainLoop {
                terminated: false,
                running: false,
                backend: Backend::new(),
                next_id: 1,
                pending_panic: None,
                thread,
            },
        )
    }

    /// Tears the loop down, releasing its thread's registry seat so that a
    /// new loop may be constructed there.
    pub fn release(self, reg: &mut ThreadRegistry)
        requires
            old(reg).wf(),
        ensures
            final(reg).wf(),
            !reg_contains(final(reg)@, self@.thread),
            forall|x: u64|
                x != self@.thread ==> reg_contains(final(reg)@, x) == reg_contains(old(reg)@, x),
    {
        reg.drop_thread(self.thread);
    }

    /// The identity of the owning thread.
    pub fn thread_id(&self) -> (r: u64)
        ensures
            r == self@.thread,
    {
        self.thread
    }

    /// Whether the termination flag is set.
    pub fn is_terminated(&self) -> (r: bool)
        ensures
            r == self@.terminated,
    {
        self.terminated
    }

    /// Whether a turn is in progress (the reentrancy guard).
    pub fn is_running(&self) -> (r: bool)
        ensures
            r == self@.running,
    {
        self.running
    }

    /// How many callbacks are pending.
    pub fn pending(&self) -> (r: usize)
        ensures
            r == self@.queue.len(),
    {
        self.backend.len()
    }

    /// Sets the termination flag: the next turn stops the loop.
    pub fn terminate(&mut self)
        ensures
            final(self)@ == (MainLoopView { terminated: true, ..old(self)@ }),
            old(self).wf() ==> final(self).wf(),
    {
        self.terminated = true;
    }

    /// Registers a callback of the given shape: allocates the next id and
    /// inserts the callback with deadline `now` plus its span.
    fn push_kind(&mut self, cb: CbKind, now: u64) -> (r: Result<CbId, MainLoopError>)
        requires
            old(self).wf(),
            cb.wf(),
            old(self)@.next_id < u64::MAX,
            now + 0xffff_ffffu64 <= u64::MAX,
        ensures
            final(self).wf(),
            match r {
                Ok(id) => {
                    &&& !(cb is IO)
                    &&& cb.duration_ok()
                    &&& id.0 == old(self)@.next_id
                    &&& final(self)@ == (MainLoopView {
                        queue: insert_stable(
                            old(self)@.queue,
                            Entry { id, next: (now + cb.dur_millis_spec()) as u64, kind: cb },
                        ),
                        next_id: (old(self)@.next_id + 1) as u64,
                        ..old(self)@
                    })
                },
                Err(e) => {
                    &&& final(self)@ == old(self)@
                    &&& (e == MainLoopError::Unsupported && cb is IO) || (e
                        == MainLoopError::DurationTooLong && !(cb is IO) && !cb.duration_ok())
                },
            },
    {
        let id = CbId(self.next_id);
        proof {
            lemma_has_id_index(self.backend@, id);
        }
        match self.backend.push(id, cb, now) {
            Ok(()) => {
                proof {
                    let e = Entry {
                        id,
                        next: (now + cb.dur_millis_spec()) as u64,
                        kind: cb,
                    };
                    assert(ids_below(old(self)@.queue, (self.next_id + 1) as u64));
                    lemma_insert_stable_below(old(self)@.queue, e, (self.next_id + 1) as u64);
                }
                self.next_id = self.next_id + 1;
                Ok(id)
            },
            Err(e) => Err(e),
        }
    }

    /// Registers a run-as-soon-as-possible callback; its deadline is the
    /// current instant, so it fires on the next turn, in arrival order.
    pub fn call_asap(&mut self, now: u64) -> (r: Result<CbId, MainLoopError>)
        requires
            old(self).wf(),
            old(self)@.next_id < u64::MAX,
            now + 0xffff_ffffu64 <= u64::MAX,
        ensures
            final(self).wf(),
            r is Ok,
            match r {
                Ok(id) => {
                    &&& id.0 == old(self)@.next_id
                    &&& final(self)@ == (MainLoopView {
                        queue: insert_stable(
                            old(self)@.queue,
                            Entry { id, next: now, kind: CbKind::Asap },
                        ),
                        next_id: (old(self)@.next_id + 1) as u64,
                        ..old(self)@
                    })
                },
                Err(_) => false,
            },
    {
        self.push_kind(CbKind::asap(), now)
    }

    /// Registers a run-once-after-a-delay callback with deadline `now`
    /// plus the span.  Rejects spans beyond the native timer range with
    /// `DurationTooLong`, and succeeds on every other well-formed span.
    pub fn call_after(&mut self, d: TimeSpan, now: u64) -> (r: Result<CbId, MainLoopError>)
        requires
            old(self).wf(),
            d.wf(),
            old(self)@.next_id < u64::MAX,
            now + 0xffff_ffffu64 <= u64::MAX,
        ensures
            final(self).wf(),
            r is Ok <==> d.secs < crate::MAX_TIMER_SECS,
            match r {
                Ok(id) => {
                    &&& id.0 == old(self)@.next_id
                    &&& final(self)@ == (MainLoopView {
                        queue: insert_stable(
                            old(self)@.queue,
                            Entry {
                                id,
                                next: (now + d.as_millis_spec()) as u64,
                                kind: CbKind::After(d),
                            },
                        ),
                        next_id: (old(self)@.next_id + 1) as u64,
                        ..old(self)@
                    })
                },
                Err(e) => e == MainLoopError::DurationTooLong && final(self)@ == old(self)@,
            },
    {
        self.push_kind(CbKind::after(d), now)
    }

    /// Registers a repeating callback with period `d`; the first fire is
    /// due at `now` plus one period.  Rejects spans beyond the native
    /// timer range with `DurationTooLong`.
    pub fn call_interval(&mut self, d: TimeSpan, now: u64) -> (r: Result<CbId, MainLoopError>)
        requires
            old(self).wf(),
            d.wf(),
            old(self)@.next_id < u64::MAX,
            now + 0xffff_ffffu64 <= u64::MAX,
        ensures
            final(self).wf(),
            r is Ok <==> d.secs < crate::MAX_TIMER_SECS,
            match r {
                Ok(id) => {
                    &&& id.0 == old(self)@.next_id
                    &&& final(self)@ == (MainLoopView {
                        queue: insert_stable(
                            old(self)@.queue,
                            Entry {
                                id,
                                next: (now + d.as_millis_spec()) as u64,
                                kind: CbKind::Interval(d),
                            },
                        ),
                        next_id: (old(self)@.next_id + 1) as u64,
                        ..old(self)@
                    })
                },
                Err(e) => e == MainLoopError::DurationTooLong && final(self)@ == old(self)@,
            },
    {
        self.push_kind(CbKind::interval(d), now)
    }

    /// Registers an I/O-readiness callback.  The software timer queue
    /// cannot represent I/O shapes, so this always fails with
    /// `Unsupported`; a native reactor backend is needed for I/O.
    pub fn call_io(&mut self, handle: CbHandle, dir: IODirection, now: u64) -> (r: Result<
        CbId,
        MainLoopError,
    >)
        requires
            old(self).wf(),
            old(self)@.next_id < u64::MAX,
            now + 0xffff_ffffu64 <= u64::MAX,
        ensures
            final(self).wf(),
            r == Err::<CbId, MainLoopError>(MainLoopError::Unsupported),
            final(self)@ == old(self)@,
    {
        match self.push_kind(CbKind::io(handle, dir), now) {
            Ok(id) => Ok(id),
            Err(e) => Err(e),
        }
    }

    /// Cancels by id.  Returns the callback's shape exactly when it was
    /// still pending; afterwards the id is no longer in the queue, and —
    /// because ids are never reused — it can never fire.
    pub fn cancel(&mut self, id: CbId) -> (r: Option<CbKind>)
        requires
            old(self).wf(),
        ensures
            final(self).wf(),
            final(self)@ == (MainLoopView {
                queue: remove_id(old(self)@.queue, id),
                ..old(self)@
            }),
            r == match find_id(old(self)@.queue, id) {
                Some(e) => Some(e.kind),
                None => None::<CbKind>,
            },
            r is Some <==> has_id(old(self)@.queue, id),
            !has_id(final(self)@.queue, id),
    {
        let r = self.backend.cancel(id);
        proof {
            lemma_remove_id_below(old(self)@.queue, id, self.next_id);
        }
        r
    }

    /// One turn of the loop.  With the termination flag set the loop
    /// stops.  Otherwise the turn begins — the reentrancy guard is set
    /// until `end_turn` — and either the front entry is due and popped for
    /// firing, or nothing is due and the driver may wait until the front
    /// deadline (if any) or an external wake.
    pub fn run_one_step(&mut self, now: u64) -> (r: Step)
        requires
            old(self).wf(),
            !old(self)@.running,
        ensures
            final(self).wf(),
            match r {
                Step::Terminated => old(self)@.terminated && final(self)@ == old(self)@,
                Step::Fire(e) => {
                    &&& !old(self)@.terminated
                    &&& old(self)@.queue.len() > 0
                    &&& e == old(self)@.queue[0]
                    &&& e.next <= now
                    &&& !has_id(final(self)@.queue, e.id)
                    &&& final(self)@ == (MainLoopView {
                        running: true,
                        queue: old(self)@.queue.drop_first(),
                        ..old(self)@
                    })
                },
                Step::Wait(d) => {
                    &&& !old(self)@.terminated
                    &&& (old(self)@.queue.len() > 0 ==> old(self)@.queue[0].next > now)
                    &&& d == (if old(self)@.queue.len() > 0 {
                        Some(old(self)@.queue[0].next)
                    } else {
                        None::<u64>
                    })
                    &&& final(self)@ == (MainLoopView { running: true, ..old(self)@ })
                },
            },
    {
        if self.terminated {
            return Step::Terminated;
        }
        self.running = true;
        match self.backend.pop_due(now) {
            Some(e) => {
                proof {
                    lemma_drop_first_below(old(self)@.queue, self.next_id);
                    crate::ruststd::lemma_popped_id_out(old(self)@.queue);
                }
                Step::Fire(e)
            },
            None => Step::Wait(self.backend.next_deadline()),
        }
    }

    /// Terminal report for a fired entry.  A repeating entry whose
    /// callable asked to stay is re-inserted at its previous deadline plus
    /// its period — never at `now` plus the period — so on-time intervals
    /// accumulate no drift.  Every other entry is gone; the driver then
    /// runs the `finish` phase, which consumes a one-shot callable.
    pub fn finish_fire(&mut self, e: Entry, keep: bool)
        requires
            old(self).wf(),
            old(self)@.running,
            entry_wf(e),
            !has_id(old(self)@.queue, e.id),
            e.id.0 < old(self)@.next_id,
            keep ==> e.kind is Interval,
            keep ==> e.next + e.kind.dur_millis_spec() <= u64::MAX,
        ensures
            final(self).wf(),
            keep ==> final(self)@ == (MainLoopView {
                queue: insert_stable(
                    old(self)@.queue,
                    Entry {
                        id: e.id,
                        next: (e.next + e.kind.dur_millis_spec()) as u64,
                        kind: e.kind,
                    },
                ),
                ..old(self)@
            }),
            !keep ==> final(self)@ == old(self)@,
    {
        if keep {
            let ms: u32 = match self.dur_of(e) {
                Some(ms) => ms,
                None => 0,
            };
            let e2 = Entry { id: e.id, next: e.next + ms as u64, kind: e.kind };
            self.backend.requeue(e2);
            proof {
                lemma_insert_stable_below(old(self)@.queue, e2, self.next_id);
            }
        }
    }

    /// The entry's span in native milliseconds; a helper for re-insertion.
    fn dur_of(&self, e: Entry) -> (r: Option<u32>)
        requires
            entry_wf(e),
        ensures
            match r {
                Some(m) => e.kind.duration_spec() is Some && m == e.kind.dur_millis_spec(),
                None => e.kind.duration_spec() is None,
            },
    {
        match e.kind.duration_millis() {
            Ok(d) => d,
            Err(_) => None,
        }
    }

    /// Records a panic caught at the foreign-call boundary while a
    /// callable ran; it is re-raised only when the turn ends in a safe
    /// frame.
    pub fn note_panic(&mut self, token: u64)
        ensures
            final(self)@ == (MainLoopView { pending_panic: Some(token), ..old(self)@ }),
            old(self).wf() ==> final(self).wf(),
    {
        self.pending_panic = Some(token);
    }

    /// Ends the turn: clears the reentrancy guard and drains the
    /// deferred-panic slot.  The driver must re-raise a returned panic —
    /// exactly once, with its original payload — now that control is back
    /// in a safe frame.
    pub fn end_turn(&mut self) -> (r: Option<u64>)
        requires
            old(self)@.running,
        ensures
            final(self)@ == (MainLoopView {
                running: false,
                pending_panic: None,
                ..old(self)@
            }),
            r == old(self)@.pending_panic,
            old(self).wf() ==> final(self).wf(),
    {
        self.running = false;
        let r = self.pending_panic;
        self.pending_panic = None;
        r
    }
}

/// Runs a callable as soon as possible on the given loop.
pub fn call_asap(ml: &mut MainLoop, now: u64) -> (r: Result<(), MainLoopError>)
    requires
        old(ml).wf(),
        old(ml)@.next_id < u64::MAX,
        now + 0xffff_ffffu64 <= u64::MAX,
    ensures
        final(ml).wf(),
        r is Ok,
        final(ml)@ == (MainLoopView {
            queue: insert_stable(
                old(ml)@.queue,
                Entry { id: CbId(old(ml)@.next_id), next: now, kind: CbKind::Asap },
            ),
            next_id: (old(ml)@.next_id + 1) as u64,
            ..old(ml)@
        }),
{
    match ml.call_asap(now) {
        Ok(_) => Ok(()),
        Err(e) => Err(e),
    }
}

/// Runs a callable once, after the given span, on the given loop.
pub fn call_after(ml: &mut MainLoop, d: TimeSpan, now: u64) -> (r: Result<(), MainLoopError>)
    requires
        old(ml).wf(),
        d.wf(),
        old(ml)@.next_id < u64::MAX,
        now + 0xffff_ffffu64 <= u64::MAX,
    ensures
        final(ml).wf(),
        r is Ok <==> d.secs < crate::MAX_TIMER_SECS,
        match r {
            Ok(()) => final(ml)@ == (MainLoopView {
                queue: insert_stable(
                    old(ml)@.queue,
                    Entry {
                        id: CbId(old(ml)@.next_id),
                        next: (now + d.as_millis_spec()) as u64,
                        kind: CbKind::After(d),
                    },
                ),
                next_id: (old(ml)@.next_id + 1) as u64,
                ..old(ml)@
            }),
            Err(e) => e == MainLoopError::DurationTooLong && final(ml)@ == old(ml)@,
        },
{
    match ml.call_after(d, now) {
        Ok(_) => Ok(()),
        Err(e) => Err(e),
    }
}

/// Runs a callable at a fixed period on the given loop; the callable's
/// answer on each fire decides whether it stays registered.
pub fn call_interval(ml: &mut MainLoop, d: TimeSpan, now: u64) -> (r: Result<(), MainLoopError>)
    requires
        old(ml).wf(),
        d.wf(),
        old(ml)@.next_id < u64::MAX,
        now + 0xffff_ffffu64 <= u64::MAX,
    ensures
        final(ml).wf(),
        r is Ok <==> d.secs < crate::MAX_TIMER_SECS,
        match r {
            Ok(()) => final(ml)@ == (MainLoopView {
                queue: insert_stable(
                    old(ml)@.queue,
                    Entry {
                        id: CbId(old(ml)@.next_id),
                        next: (now + d.as_millis_spec()) as u64,
                        kind: CbKind::Interval(d),
                    },
                ),
                next_id: (old(ml)@.next_id + 1) as u64,
                ..old(ml)@
            }),
            Err(e) => e == MainLoopError::DurationTooLong && final(ml)@ == old(ml)@,
        },
{
    match ml.call_interval(d, now) {
        Ok(_) => Ok(()),
        Err(e) => Err(e),
    }
}

/// Watches an I/O-capable object on the given loop.  The software backend
/// cannot represent I/O shapes, so this fails with `Unsupported`.
pub fn call_io<IO: IOAble>(ml: &mut MainLoop, io: IO, now: u64) -> (r: Result<(), MainLoopError>)
    requires
        old(ml).wf(),
        old(ml)@.next_id < u64::MAX,
        now + 0xffff_ffffu64 <= u64::MAX,
    ensures
        final(ml).wf(),
        r == Err::<(), MainLoopError>(MainLoopError::Unsupported),
        final(ml)@ == old(ml)@,
{
    let mut io = io;
    let h = io.handle();
    let dir = io.direction();
    match ml.call_io(h, dir, now) {
        Ok(_) => Ok(()),
        Err(e) => Err(e),
    }
}

/// Terminates the given main loop: the next turn stops it.  Does nothing
/// beyond setting the flag if the loop is not running.
pub fn terminate(ml: &mut MainLoop)
    ensures
        final(ml)@ == (MainLoopView { terminated: true, ..old(ml)@ }),
        old(ml).wf() ==> final(ml).wf(),
{
    ml.terminate()
}

} // verus!

