//! The software timer queue: the reference backend.
//!
//! Pending callbacks are kept in ascending deadline order and driven off a
//! monotonic millisecond clock that the caller supplies.  This backend is
//! the portable semantic contract that every native backend must reproduce
//! for timer-shaped callbacks; it does not multiplex I/O-shaped callbacks.

use vstd::prelude::*;
use crate::{CbId, CbKind, MainLoopError};

verus! {

/// One pending registration: its id, its next-fire instant in milliseconds
/// on the driver's monotonic clock, and its shape.
#[derive(Clone, Copy, Debug, PartialEq, Eq, Structural)]
pub struct Entry {
    pub id: CbId,
    pub next: u64,
    pub kind: CbKind,
}

/// The queue is kept in ascending next-fire order at all times.
pub open spec fn sorted_by_next(s: Seq<Entry>) -> bool {
    forall|i: int, j: int| 0 <= i < j < s.len() ==> #[trigger] s[i].next <= #[trigger] s[j].next
}

/// No two pending registrations share an id.
pub open spec fn ids_unique(s: Seq<Entry>) -> bool {
    forall|i: int, j: int| 0 <= i < j < s.len() ==> #[trigger] s[i].id != #[trigger] s[j].id
}

/// Whether some pending registration carries the id.
pub open spec fn has_id(s: Seq<Entry>, id: CbId) -> bool
    decreases s.len(),
{
    s.len() > 0 && (s[0].id == id || has_id(s.drop_first(), id))
}

/// The first pending registration carrying the id, if any.
pub open spec fn find_id(s: Seq<Entry>, id: CbId) -> Option<Entry>
    decreases s.len(),
{
    if s.len() == 0 {
        None
    } else if s[0].id == id {
        Some(s[0])
    } else {
        find_id(s.drop_first(), id)
    }
}

/// An entry this backend can hold: a well-formed non-I/O shape whose span
/// fits the native timer range.
pub open spec fn entry_wf(e: Entry) -> bool {
    e.kind.wf() && e.kind.duration_ok() && !(e.kind is IO)
}

/// Every entry of the queue is one the backend can hold.
pub open spec fn entries_wf(s: Seq<Entry>) -> bool {
    forall|i: int| 0 <= i < s.len() ==> entry_wf(#[trigger] s[i])
}

/// Stable insertion in ascending deadline order: the new entry goes after
/// every entry whose deadline is not later, so arrival order is kept among
/// equal deadlines.
pub open spec fn insert_stable(s: Seq<Entry>, e: Entry) -> Seq<Entry>
    decreases s.len(),
{
    if s.len() == 0 {
        seq![e]
    } else if e.next < s[0].next {
        seq![e] + s
    } else {
        seq![s[0]] + insert_stable(s.drop_first(), e)
    }
}

/// Removal of the first entry carrying the id, if any.
pub open spec fn remove_id(s: Seq<Entry>, id: CbId) -> Seq<Entry>
    decreases s.len(),
{
    if s.len() == 0 {
        s
    } else if s[0].id == id {
        s.drop_first()
    } else {
        seq![s[0]] + remove_id(s.drop_first(), id)
    }
}

/// `has_id` agrees with the indexed view of the queue.
pub proof fn lemma_has_id_index(s: Seq<Entry>, id: CbId)
    ensures
        has_id(s, id) <==> exists|i: int| 0 <= i < s.len() && (#[trigger] s[i]).id == id,
    decreases s.len(),
{
    if s.len() > 0 {
        lemma_has_id_index(s.drop_first(), id);
        if s[0].id == id {
            assert(s[0].id == id);
        } else if has_id(s.drop_first(), id) {
            let i = choose|i: int|
                0 <= i < s.drop_first().len() && (#[trigger] s.drop_first()[i]).id == id;
            assert(s[i + 1].id == id);
        } else {
            assert forall|i: int| 0 <= i < s.len() implies (#[trigger] s[i]).id != id by {
                if i > 0 {
                    assert(s.drop_first()[i - 1] == s[i]);
                }
            }
        }
    }
}

/// Inserting keeps every deadline at or above a common lower bound.
proof fn lemma_insert_stable_bound(s: Seq<Entry>, e: Entry, b: u64)
    requires
        forall|i: int| 0 <= i < s.len() ==> b <= (#[trigger] s[i]).next,
        b <= e.next,
    ensures
        forall|i: int|
            0 <= i < insert_stable(s, e).len() ==> b <= (#[trigger] insert_stable(s, e)[i]).next,
    decreases s.len(),
{
    if s.len() == 0 {
    } else if e.next < s[0].next {
    } else {
        let t = s.drop_first();
        assert forall|i: int| 0 <= i < t.len() implies b <= (#[trigger] t[i]).next by {
            assert(t[i] == s[i + 1]);
        }
        lemma_insert_stable_bound(t, e, b);
    }
}

/// Stable insertion preserves the ascending deadline order.
pub proof fn lemma_insert_stable_sorted(s: Seq<Entry>, e: Entry)
    requires
        sorted_by_next(s),
    ensures
        sorted_by_next(insert_stable(s, e)),
    decreases s.len(),
{
    let r = insert_stable(s, e);
    if s.len() == 0 {
    } else if e.next < s[0].next {
        assert forall|i: int, j: int| 0 <= i < j < r.len() implies (#[trigger] r[i]).next <= (
        #[trigger] r[j]).next by {
            if i > 0 {
                assert(r[i] == s[i - 1] && r[j] == s[j - 1]);
            } else {
                assert(r[j] == s[j - 1]);
                assert(s[0].next <= s[j - 1].next);
            }
        }
    } else {
        let t = s.drop_first();
        assert forall|i: int, j: int| 0 <= i < j < t.len() implies (#[trigger] t[i]).next <= (
        #[trigger] t[j]).next by {
            assert(t[i] == s[i + 1] && t[j] == s[j + 1]);
        }
        lemma_insert_stable_sorted(t, e);
        assert forall|i: int| 0 <= i < t.len() implies s[0].next <= (#[trigger] t[i]).next by {
            assert(t[i] == s[i + 1]);
        }
        lemma_insert_stable_bound(t, e, s[0].next);
        let q = insert_stable(t, e);
        assert forall|i: int, j: int| 0 <= i < j < r.len() implies (#[trigger] r[i]).next <= (
        #[trigger] r[j]).next by {
            if i > 0 {
                assert(r[i] == q[i - 1] && r[j] == q[j - 1]);
            } else {
                assert(r[j] == q[j - 1]);
            }
        }
    }
}

/// Which ids the queue holds after a stable insertion: the old ids plus the
/// new entry's id.
pub proof fn lemma_insert_stable_ids(s: Seq<Entry>, e: Entry, x: CbId)
    ensures
        has_id(insert_stable(s, e), x) <==> (has_id(s, x) || e.id == x),
    decreases s.len(),
{
    let r = insert_stable(s, e);
    if s.len() == 0 {
        assert(r.drop_first() =~= Seq::<Entry>::empty());
        assert(!has_id(Seq::<Entry>::empty(), x));
    } else if e.next < s[0].next {
        assert(r[0] == e);
        assert(r.drop_first() =~= s);
        assert(has_id(r, x) == (r[0].id == x || has_id(r.drop_first(), x)));
    } else {
        assert(r[0] == s[0]);
        assert(r.drop_first() =~= insert_stable(s.drop_first(), e));
        lemma_insert_stable_ids(s.drop_first(), e, x);
    }
}

/// Stable insertion of a fresh id keeps the ids unique.
pub proof fn lemma_insert_stable_unique(s: Seq<Entry>, e: Entry)
    requires
        ids_unique(s),
        !has_id(s, e.id),
    ensures
        ids_unique(insert_stable(s, e)),
    decreases s.len(),
{
    let r = insert_stable(s, e);
    lemma_has_id_index(s, e.id);
    if s.len() == 0 {
    } else if e.next < s[0].next {
        assert forall|i: int, j: int| 0 <= i < j < r.len() implies (#[trigger] r[i]).id != (
        #[trigger] r[j]).id by {
            if i > 0 {
                assert(r[i] == s[i - 1] && r[j] == s[j - 1]);
            } else {
                assert(r[j] == s[j - 1]);
            }
        }
    } else {
        let t = s.drop_first();
        assert forall|i: int, j: int| 0 <= i < j < t.len() implies (#[trigger] t[i]).id != (
        #[trigger] t[j]).id by {
            assert(t[i] == s[i + 1] && t[j] == s[j + 1]);
        }
        assert(!has_id(t, e.id));
        lemma_insert_stable_unique(t, e);
        let q = insert_stable(t, e);
        assert forall|i: int| 0 <= i < q.len() implies (#[trigger] q[i]).id != s[0].id by {
            lemma_has_id_index(t, s[0].id);
            lemma_has_id_index(q, s[0].id);
            assert forall|k: int| 0 <= k < t.len() implies (#[trigger] t[k]).id != s[0].id by {
                assert(t[k] == s[k + 1]);
            }
            lemma_insert_stable_ids(t, e, s[0].id);
        }
        assert forall|i: int, j: int| 0 <= i < j < r.len() implies (#[trigger] r[i]).id != (
        #[trigger] r[j]).id by {
            if i > 0 {
                assert(r[i] == q[i - 1] && r[j] == q[j - 1]);
            } else {
                assert(r[j] == q[j - 1]);
            }
        }
    }
}

/// Stable insertion of a holdable entry keeps every entry holdable.
pub proof fn lemma_insert_stable_wf(s: Seq<Entry>, e: Entry)
    requires
        entries_wf(s),
        entry_wf(e),
    ensures
        entries_wf(insert_stable(s, e)),
    decreases s.len(),
{
    let r = insert_stable(s, e);
    if s.len() == 0 {
    } else if e.next < s[0].next {
        assert forall|i: int| 0 <= i < r.len() implies entry_wf(#[trigger] r[i]) by {
            if i > 0 {
                assert(r[i] == s[i - 1]);
            }
        }
    } else {
        let t = s.drop_first();
        assert forall|i: int| 0 <= i < t.len() implies entry_wf(#[trigger] t[i]) by {
            assert(t[i] == s[i + 1]);
        }
        lemma_insert_stable_wf(t, e);
        let q = insert_stable(t, e);
        assert forall|i: int| 0 <= i < r.len() implies entry_wf(#[trigger] r[i]) by {
            if i > 0 {
                assert(r[i] == q[i - 1]);
            }
        }
    }
}

/// A stable insertion is one element longer.
pub proof fn lemma_insert_stable_len(s: Seq<Entry>, e: Entry)
    ensures
        insert_stable(s, e).len() == s.len() + 1,
    decreases s.len(),
{
    if s.len() == 0 {
    } else if e.next < s[0].next {
    } else {
        lemma_insert_stable_len(s.drop_first(), e);
    }
}

/// Stable insertion placed by index: inserting before the first strictly
/// later deadline is exactly `insert_stable`.
proof fn lemma_insert_stable_at(s: Seq<Entry>, e: Entry, i: int)
    requires
        0 <= i <= s.len(),
        forall|k: int| 0 <= k < i ==> (#[trigger] s[k]).next <= e.next,
        i < s.len() ==> e.next < s[i].next,
    ensures
        insert_stable(s, e) == s.insert(i, e),
    decreases s.len(),
{
    if s.len() == 0 {
        assert(insert_stable(s, e) =~= s.insert(0, e));
    } else if i == 0 {
        assert(e.next < s[0].next);
        assert(insert_stable(s, e) =~= s.insert(0, e));
    } else {
        assert(s[0].next <= e.next);
        let t = s.drop_first();
        assert forall|k: int| 0 <= k < i - 1 implies (#[trigger] t[k]).next <= e.next by {
            assert(t[k] == s[k + 1]);
        }
        assert(i - 1 < t.len() ==> e.next < t[i - 1].next);
        lemma_insert_stable_at(t, e, i - 1);
        assert(seq![s[0]] + t.insert(i - 1, e) =~= s.insert(i, e));
    }
}

/// Removal by index: removing the first position carrying the id is exactly
/// `remove_id`.
proof fn lemma_remove_id_at(s: Seq<Entry>, id: CbId, i: int)
    requires
        0 <= i < s.len(),
        s[i].id == id,
        forall|k: int| 0 <= k < i ==> (#[trigger] s[k]).id != id,
    ensures
        remove_id(s, id) == s.remove(i),
    decreases s.len(),
{
    if i == 0 {
        assert(remove_id(s, id) =~= s.remove(0));
    } else {
        let t = s.drop_first();
        assert(t[i - 1] == s[i]);
        assert forall|k: int| 0 <= k < i - 1 implies (#[trigger] t[k]).id != id by {
            assert(t[k] == s[k + 1]);
        }
        lemma_remove_id_at(t, id, i - 1);
        assert(seq![s[0]] + t.remove(i - 1) =~= s.remove(i));
    }
}

/// When no entry carries the id, removal changes nothing.
proof fn lemma_remove_id_absent(s: Seq<Entry>, id: CbId)
    requires
        !has_id(s, id),
    ensures
        remove_id(s, id) == s,
    decreases s.len(),
{
    if s.len() > 0 {
        lemma_remove_id_absent(s.drop_first(), id);
        assert(seq![s[0]] + s.drop_first() =~= s);
    }
}

/// With unique ids, a cancelled id is gone for good.
pub proof fn lemma_remove_id_gone(s: Seq<Entry>, id: CbId)
    requires
        ids_unique(s),
    ensures
        !has_id(remove_id(s, id), id),
    decreases s.len(),
{
    let r = remove_id(s, id);
    if s.len() == 0 {
    } else if s[0].id == id {
        let t = s.drop_first();
        lemma_has_id_index(s, id);
        lemma_has_id_index(t, id);
        assert forall|i: int| 0 <= i < t.len() implies (#[trigger] t[i]).id != id by {
            assert(t[i] == s[i + 1]);
        }
    } else {
        let t = s.drop_first();
        assert forall|i: int, j: int| 0 <= i < j < t.len() implies (#[trigger] t[i]).id != (
        #[trigger] t[j]).id by {
            assert(t[i] == s[i + 1] && t[j] == s[j + 1]);
        }
        lemma_remove_id_gone(t, id);
        assert(r[0] == s[0]);
        assert(r.drop_first() =~= remove_id(t, id));
    }
}

/// The software timer queue, ordered by next-fire instant.
pub struct Backend {
    data: Vec<Entry>,
}

impl View for Backend {
    type V = Seq<Entry>;

    closed spec fn view(&self) -> Seq<Entry> {
        self.data@
    }
}

impl Backend {
    /// The queue invariant: ascending deadlines, unique ids, and only
    /// entries this backend can hold.
    pub open spec fn wf(self) -> bool {
        sorted_by_next(self@) && ids_unique(self@) && entries_wf(self@)
    }

    /// An empty queue.
    pub fn new() -> (r: Backend)
        ensures
            r@ =~= Seq::<Entry>::empty(),
            r.wf(),
    {
        Backend { data: Vec::new() }
    }

    /// How many callbacks are pending.
    pub fn len(&self) -> (r: usize)
        ensures
            r == self@.len(),
    {
        self.data.len()
    }

    /// The deadline of the earliest pending callback, if any.
    pub fn next_deadline(&self) -> (r: Option<u64>)
        ensures
            match r {
                Some(d) => self@.len() > 0 && d == self@[0].next,
                None => self@.len() == 0,
            },
    {
        if self.data.len() > 0 {
            Some(self.data[0].next)
        } else {
            None
        }
    }

    /// Inserts an entry at the position preserving ascending deadline
    /// order, after all entries with deadlines not later than its own.
    fn push_internal(&mut self, e: Entry)
        requires
            old(self).wf(),
            entry_wf(e),
            !has_id(old(self)@, e.id),
        ensures
            final(self)@ == insert_stable(old(self)@, e),
            final(self).wf(),
    {
        let ghost s = self.data@;
        let mut i: usize = 0;
        while i < self.data.len() && self.data[i].next <= e.next
            invariant
                0 <= i <= self.data.len(),
                self.data@ == s,
                forall|k: int| 0 <= k < i ==> (#[trigger] s[k]).next <= e.next,
            decreases self.data.len() - i,
        {
            i = i + 1;
        }
        self.data.insert(i, e);
        proof {
            lemma_insert_stable_at(s, e, i as int);
            lemma_insert_stable_sorted(s, e);
            lemma_insert_stable_unique(s, e);
            lemma_insert_stable_wf(s, e);
        }
    }

    /// Registers a callback: computes its deadline as `now` plus its span
    /// (zero for `Asap`) and inserts it in deadline order.  I/O shapes are
    /// not representable here; over-long spans are rejected at
    /// registration.
    pub fn push(&mut self, id: CbId, cb: CbKind, now: u64) -> (r: Result<(), MainLoopError>)
        requires
            old(self).wf(),
            cb.wf(),
            !has_id(old(self)@, id),
            now + 0xffff_ffffu64 <= u64::MAX,
        ensures
            match r {
                Ok(()) => {
                    &&& !(cb is IO)
                    &&& cb.duration_ok()
                    &&& final(self)@ == insert_stable(
                        old(self)@,
                        Entry { id, next: (now + cb.dur_millis_spec()) as u64, kind: cb },
                    )
                },
                Err(e) => {
                    &&& final(self)@ == old(self)@
                    &&& (e == MainLoopError::Unsupported && cb is IO) || (e
                        == MainLoopError::DurationTooLong && !(cb is IO) && !cb.duration_ok())
                },
            },
            final(self).wf(),
    {
        if let CbKind::IO(_, _) = cb {
            return Err(MainLoopError::Unsupported);
        }
        let d: Option<u32> = match cb.duration_millis() {
            Ok(d) => d,
            Err(e) => { return Err(e) },
        };
        let next: u64 = match d {
            Some(ms) => now + ms as u64,
            None => now,
        };
        self.push_internal(Entry { id, next, kind: cb });
        Ok(())
    }

    /// Re-inserts a repeating entry for its next period; the caller has
    /// already moved its deadline forward.
    pub fn requeue(&mut self, e: Entry)
        requires
            old(self).wf(),
            entry_wf(e),
            !has_id(old(self)@, e.id),
        ensures
            final(self)@ == insert_stable(old(self)@, e),
            final(self).wf(),
    {
        self.push_internal(e);
    }

    /// Cancels by id: linear removal, returning the removed callback shape
    /// if it was still pending.
    pub fn cancel(&mut self, id: CbId) -> (r: Option<CbKind>)
        requires
            old(self).wf(),
        ensures
            final(self)@ == remove_id(old(self)@, id),
            r == match find_id(old(self)@, id) {
                Some(e) => Some(e.kind),
                None => None::<CbKind>,
            },
            r is Some <==> has_id(old(self)@, id),
            !has_id(final(self)@, id),
            final(self).wf(),
    {
        let ghost s = self.data@;
        proof {
            lemma_has_id_index(s, id);
            lemma_cancel_helper(s, id);
        }
        let mut i: usize = 0;
        while i < self.data.len()
            invariant
                0 <= i <= self.data.len(),
                self.data@ == s,
                old(self)@ == s,
                sorted_by_next(s),
                ids_unique(s),
                entries_wf(s),
                forall|k: int| 0 <= k < i ==> (#[trigger] s[k]).id != id,
            decreases self.data.len() - i,
        {
            if self.data[i].id == id {
                let e = self.data.remove(i);
                proof {
                    lemma_has_id_index(s, id);
                    lemma_remove_id_at(s, id, i as int);
                    lemma_find_id_at(s, id, i as int);
                    lemma_remove_id_gone(s, id);
                    lemma_remove_sorted(s, i as int);
                    lemma_remove_unique(s, i as int);
                    lemma_remove_wf(s, i as int);
                }
                return Some(e.kind);
            }
            i = i + 1;
        }
        proof {
            lemma_remove_id_absent(s, id);
            lemma_find_id_absent(s, id);
        }
        None
    }

    /// Pops the front entry when its deadline has been reached; otherwise
    /// reports the queue untouched.
    pub fn pop_due(&mut self, now: u64) -> (r: Option<Entry>)
        requires
            old(self).wf(),
        ensures
            match r {
                Some(e) => {
                    &&& old(self)@.len() > 0
                    &&& e == old(self)@[0]
                    &&& e.next <= now
                    &&& final(self)@ == old(self)@.drop_first()
                },
                None => {
                    &&& final(self)@ == old(self)@
                    &&& (old(self)@.len() == 0 || old(self)@[0].next > now)
                },
            },
            final(self).wf(),
    {
        if self.data.len() > 0 {
            if self.data[0].next <= now {
                let ghost s = self.data@;
                let e = self.data.remove(0);
                proof {
                    assert(s.remove(0) =~= s.drop_first());
                    lemma_remove_sorted(s, 0);
                    lemma_remove_unique(s, 0);
                    lemma_remove_wf(s, 0);
                }
                return Some(e);
            }
        }
        None
    }
}

/// `find_id` returns the entry at the first position carrying the id.
proof fn lemma_find_id_at(s: Seq<Entry>, id: CbId, i: int)
    requires
        0 <= i < s.len(),
        s[i].id == id,
        forall|k: int| 0 <= k < i ==> (#[trigger] s[k]).id != id,
    ensures
        find_id(s, id) == Some(s[i]),
    decreases s.len(),
{
    if i > 0 {
        let t = s.drop_first();
        assert(t[i - 1] == s[i]);
        assert forall|k: int| 0 <= k < i - 1 implies (#[trigger] t[k]).id != id by {
            assert(t[k] == s[k + 1]);
        }
        lemma_find_id_at(t, id, i - 1);
    }
}

/// `find_id` finds nothing when no entry carries the id.
proof fn lemma_find_id_absent(s: Seq<Entry>, id: CbId)
    requires
        !has_id(s, id),
    ensures
        find_id(s, id) is None,
    decreases s.len(),
{
    if s.len() > 0 {
        lemma_find_id_absent(s.drop_first(), id);
    }
}

/// Helper relating `has_id` to the scan in `cancel`.
proof fn lemma_cancel_helper(s: Seq<Entry>, id: CbId)
    ensures
        !has_id(s, id) ==> forall|k: int| 0 <= k < s.len() ==> (#[trigger] s[k]).id != id,
{
    lemma_has_id_index(s, id);
}

/// Removing one position keeps the ascending deadline order.
proof fn lemma_remove_sorted(s: Seq<Entry>, i: int)
    requires
        sorted_by_next(s),
        0 <= i < s.len(),
    ensures
        sorted_by_next(s.remove(i)),
{
    let r = s.remove(i);
    assert forall|a: int, b: int| 0 <= a < b < r.len() implies (#[trigger] r[a]).next <= (
    #[trigger] r[b]).next by {
        let a0 = if a < i { a } else { a + 1 };
        let b0 = if b < i { b } else { b + 1 };
        assert(r[a] == s[a0] && r[b] == s[b0]);
    }
}

/// Removing one position keeps the ids unique.
proof fn lemma_remove_unique(s: Seq<Entry>, i: int)
    requires
        ids_unique(s),
        0 <= i < s.len(),
    ensures
        ids_unique(s.remove(i)),
{
    let r = s.remove(i);
    assert forall|a: int, b: int| 0 <= a < b < r.len() implies (#[trigger] r[a]).id != (
    #[trigger] r[b]).id by {
        let a0 = if a < i { a } else { a + 1 };
        let b0 = if b < i { b } else { b + 1 };
        assert(r[a] == s[a0] && r[b] == s[b0]);
    }
}

/// Law (ordering): in the queue, a strictly earlier deadline stands
/// strictly earlier — deadline order is firing order.
pub proof fn lemma_deadline_order_is_queue_order(s: Seq<Entry>, i: int, j: int)
    requires
        sorted_by_next(s),
        0 <= i < s.len(),
        0 <= j < s.len(),
        s[i].next < s[j].next,
    ensures
        i < j,
{
    if j < i {
        assert(s[j].next <= s[i].next);
    }
}

/// Popping the front of a queue with unique ids takes its id out.
pub proof fn lemma_popped_id_out(s: Seq<Entry>)
    requires
        ids_unique(s),
        s.len() > 0,
    ensures
        !has_id(s.drop_first(), s[0].id),
{
    let t = s.drop_first();
    lemma_has_id_index(t, s[0].id);
    assert forall|i: int| 0 <= i < t.len() implies (#[trigger] t[i]).id != s[0].id by {
        assert(t[i] == s[i + 1]);
    }
}

/// Helper for the ordering law, under the assumption `a.next < b.next`.
proof fn lemma_insert_commutes_lt(s: Seq<Entry>, a: Entry, b: Entry)
    requires
        a.next < b.next,
    ensures
        insert_stable(insert_stable(s, a), b) == insert_stable(insert_stable(s, b), a),
    decreases s.len(),
{
    if s.len() == 0 {
        assert(insert_stable(s, a) =~= seq![a]);
        assert(insert_stable(seq![a], b) =~= seq![a] + insert_stable(Seq::<Entry>::empty(), b));
        assert(insert_stable(insert_stable(s, a), b) =~= seq![a, b]);
        assert(insert_stable(s, b) =~= seq![b]);
        assert(insert_stable(insert_stable(s, b), a) =~= seq![a, b]);
    } else {
        let h = s[0];
        let t = s.drop_first();
        if b.next < h.next {
            assert(insert_stable(s, a) =~= seq![a] + s);
            assert((seq![a] + s)[0] == a);
            assert((seq![a] + s).drop_first() =~= s);
            assert(insert_stable(insert_stable(s, a), b) =~= seq![a] + insert_stable(s, b));
            assert(insert_stable(s, b) =~= seq![b] + s);
            assert((seq![b] + s)[0] == b);
            assert(insert_stable(insert_stable(s, b), a) =~= seq![a] + (seq![b] + s));
            assert(seq![a] + (seq![b] + s) =~= seq![a] + insert_stable(s, b));
        } else if a.next < h.next {
            assert(insert_stable(s, a) =~= seq![a] + s);
            assert((seq![a] + s)[0] == a);
            assert((seq![a] + s).drop_first() =~= s);
            assert(insert_stable(insert_stable(s, a), b) =~= seq![a] + insert_stable(s, b));
            assert(insert_stable(s, b) =~= seq![h] + insert_stable(t, b));
            assert((seq![h] + insert_stable(t, b))[0] == h);
            assert(insert_stable(insert_stable(s, b), a) =~= seq![a] + (seq![h] + insert_stable(
                t,
                b,
            )));
            assert(seq![a] + (seq![h] + insert_stable(t, b)) =~= seq![a] + insert_stable(s, b));
        } else {
            assert(insert_stable(s, a) =~= seq![h] + insert_stable(t, a));
            assert((seq![h] + insert_stable(t, a))[0] == h);
            assert((seq![h] + insert_stable(t, a)).drop_first() =~= insert_stable(t, a));
            lemma_insert_stable_len(t, a);
            assert(insert_stable(insert_stable(s, a), b) =~= seq![h] + insert_stable(
                insert_stable(t, a),
                b,
            ));
            assert(insert_stable(s, b) =~= seq![h] + insert_stable(t, b));
            assert((seq![h] + insert_stable(t, b))[0] == h);
            assert((seq![h] + insert_stable(t, b)).drop_first() =~= insert_stable(t, b));
            lemma_insert_stable_len(t, b);
            assert(insert_stable(insert_stable(s, b), a) =~= seq![h] + insert_stable(
                insert_stable(t, b),
                a,
            ));
            lemma_insert_commutes_lt(t, a, b);
        }
    }
}

/// Law (ordering): registrations with distinct deadlines commute — the
/// queue reaches the same state whichever of the two is registered first.
/// So a set of `After` callbacks with distinct durations registered at one
/// instant yields one queue whatever the registration order, and, the
/// queue being in ascending deadline order, they fire in non-decreasing
/// duration order.
pub proof fn lemma_register_order_irrelevant(s: Seq<Entry>, a: Entry, b: Entry)
    requires
        a.next != b.next,
    ensures
        insert_stable(insert_stable(s, a), b) == insert_stable(insert_stable(s, b), a),
{
    if a.next < b.next {
        lemma_insert_commutes_lt(s, a, b);
    } else {
        lemma_insert_commutes_lt(s, b, a);
    }
}

/// Law (ordering): the fired entry is one with the earliest deadline, and
/// it is due — firing happens at the queue's front, never before the
/// entry's own deadline (registration instant plus duration) has passed.
pub proof fn lemma_fired_entry_earliest_and_due(s: Seq<Entry>, now: u64, e: Entry)
    requires
        sorted_by_next(s),
        s.len() > 0,
        e == s[0],
        e.next <= now,
    ensures
        forall|k: int| 0 <= k < s.len() ==> e.next <= (#[trigger] s[k]).next,
        e.next <= now,
{
    assert forall|k: int| 0 <= k < s.len() implies e.next <= (#[trigger] s[k]).next by {
        if k > 0 {
            assert(s[0].next <= s[k].next);
        }
    }
}

/// Removing one position keeps every entry holdable.
proof fn lemma_remove_wf(s: Seq<Entry>, i: int)
    requires
        entries_wf(s),
        0 <= i < s.len(),
    ensures
        entries_wf(s.remove(i)),
{
    let r = s.remove(i);
    assert forall|a: int| 0 <= a < r.len() implies entry_wf(#[trigger] r[a]) by {
        let a0 = if a < i { a } else { a + 1 };
        assert(r[a] == s[a0]);
    }
}

} // verus!
