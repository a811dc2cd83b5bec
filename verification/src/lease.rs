//! The lease dispatcher: the atomic `next` operation.
//!
//! `next` selects one eligible task row — FIFO by scheduled time, never-tried
//! rows first, key as tie-breaker — marks it processing, decrements its
//! remaining tries, clears its error and back-off, refreshes its lease
//! timestamp, and returns it. The single statement it stands for makes the
//! whole step atomic against concurrent callers.

use vstd::prelude::*;

use crate::model::{PaymentTask, LEASE_TTL_MS};
use crate::store::{Model, Store};

verus! {

/// Whether a task row may be leased at `now`: tries remain, any back-off has
/// expired, and no one is processing it — or a processing mark has outlived
/// the lease TTL, so the holder is presumed dead and the row is reclaimed.
pub open spec fn eligible(t: PaymentTask, now: i64) -> bool {
    &&& t.tries_left > 0
    &&& match t.next_try_at {
        Some(n) => n < now,
        None => true,
    }
    &&& (!t.processing || t.updated_at < now - LEASE_TTL_MS)
}

/// Dispatch order: scheduled time ascending with never-deferred rows first,
/// then key ascending.
pub open spec fn dispatched_before(a: PaymentTask, b: PaymentTask) -> bool {
    match (a.next_try_at, b.next_try_at) {
        (None, None) => a.id < b.id,
        (None, Some(_)) => true,
        (Some(_), None) => false,
        (Some(x), Some(y)) => x < y || (x == y && a.id < b.id),
    }
}

/// Dispatch order is transitive.
pub proof fn lemma_dispatched_before_trans(a: PaymentTask, b: PaymentTask, c: PaymentTask)
    requires
        dispatched_before(a, b),
        dispatched_before(b, c),
    ensures
        dispatched_before(a, c),
{
}

/// The row the dispatcher picks: the dispatch-least eligible one, at the
/// earliest index where two rows tie in the order.
pub open spec fn selected(tasks: Seq<PaymentTask>, now: i64) -> Option<int>
    decreases tasks.len(),
{
    if tasks.len() == 0 {
        None
    } else {
        let last = tasks.last();
        match selected(tasks.drop_last(), now) {
            None => if eligible(last, now) {
                Some(tasks.len() - 1)
            } else {
                None
            },
            Some(i) => if eligible(last, now) && dispatched_before(last, tasks[i]) {
                Some(tasks.len() - 1)
            } else {
                Some(i)
            },
        }
    }
}

/// What the dispatcher's choice means: the chosen row is eligible and no
/// eligible row is dispatched before it; when nothing is chosen, no row is
/// eligible. This is the queue's FIFO-by-scheduled-time guarantee.
pub proof fn lemma_selected(tasks: Seq<PaymentTask>, now: i64)
    ensures
        match selected(tasks, now) {
            Some(i) => {
                &&& 0 <= i < tasks.len()
                &&& eligible(tasks[i], now)
                &&& forall|j: int|
                    0 <= j < tasks.len() && eligible(#[trigger] tasks[j], now)
                        ==> !dispatched_before(tasks[j], tasks[i])
            },
            None => forall|j: int| 0 <= j < tasks.len() ==> !eligible(#[trigger] tasks[j], now),
        },
    decreases tasks.len(),
{
    if tasks.len() > 0 {
        let prefix = tasks.drop_last();
        lemma_selected(prefix, now);
        assert(forall|j: int| 0 <= j < tasks.len() - 1 ==> prefix[j] == tasks[j]);
        let last = tasks.last();
        match selected(prefix, now) {
            None => {},
            Some(i) => {
                if eligible(last, now) && dispatched_before(last, tasks[i]) {
                    assert forall|j: int|
                        0 <= j < tasks.len() && eligible(#[trigger] tasks[j], now) implies
                        !dispatched_before(tasks[j], last) by {
                        if j < tasks.len() - 1 && dispatched_before(tasks[j], last) {
                            lemma_dispatched_before_trans(tasks[j], last, tasks[i]);
                        }
                    }
                }
            },
        }
    }
}

/// What acquiring the lease does to the chosen row.
pub open spec fn leased(t: PaymentTask, now: i64) -> PaymentTask {
    PaymentTask {
        processing: true,
        tries_left: (t.tries_left - 1) as i32,
        error: None,
        next_try_at: None,
        updated_at: now,
        ..t
    }
}

/// What `next` does to the store: nothing when no row is eligible, else the
/// chosen row leased in place.
pub open spec fn next_tr(m: Model, now: i64) -> Model {
    match selected(m.tasks, now) {
        None => m,
        Some(i) => Model { tasks: m.tasks.update(i, leased(m.tasks[i], now)), ..m },
    }
}

/// What `next` returns: the leased row, or nothing when the queue is empty
/// of eligible rows.
pub open spec fn next_ret(m: Model, now: i64) -> Option<PaymentTask> {
    match selected(m.tasks, now) {
        None => None,
        Some(i) => Some(leased(m.tasks[i], now)),
    }
}

/// Whether a task row may be leased at `now`.
pub fn eligible_now(t: &PaymentTask, now: i64) -> (r: bool)
    requires
        now >= 0,
    ensures
        r == eligible(*t, now),
{
    t.tries_left > 0 && (match t.next_try_at {
        Some(n) => n < now,
        None => true,
    }) && (!t.processing || t.updated_at < now - LEASE_TTL_MS)
}

/// Whether `a` is dispatched before `b`.
pub fn dispatches_before(a: &PaymentTask, b: &PaymentTask) -> (r: bool)
    ensures
        r == dispatched_before(*a, *b),
{
    match (a.next_try_at, b.next_try_at) {
        (None, None) => a.id < b.id,
        (None, Some(_)) => true,
        (Some(_), None) => false,
        (Some(x), Some(y)) => x < y || (x == y && a.id < b.id),
    }
}

impl Store {
    /// Lease one task: atomically select the dispatch-least eligible row,
    /// mark it processing with one try spent, clear its error and back-off,
    /// stamp the lease time, and return the updated row. Returns nothing —
    /// and changes nothing — exactly when no row is eligible at `now`.
    pub fn next(&mut self, now: i64) -> (r: Option<PaymentTask>)
        requires
            now >= 0,
        ensures
            final(self)@ == next_tr(old(self)@, now),
            r == next_ret(old(self)@, now),
    {
        let tasks_len = self.tasks.len();
        let mut best: Option<usize> = None;
        let mut i: usize = 0;
        while i < tasks_len
            invariant
                now >= 0,
                tasks_len == self.tasks@.len(),
                i <= tasks_len,
                match best {
                    Some(b) => b < i && selected(self.tasks@.take(i as int), now) == Some(
                        b as int,
                    ),
                    None => selected(self.tasks@.take(i as int), now) is None,
                },
            decreases tasks_len - i,
        {
            let ghost prefix = self.tasks@.take(i as int);
            let ghost extended = self.tasks@.take(i as int + 1);
            proof {
                assert(extended.drop_last() =~= prefix);
                assert(extended.last() == self.tasks@[i as int]);
            }
            if eligible_now(&self.tasks[i], now) {
                match best {
                    None => {
                        best = Some(i);
                    },
                    Some(b) => {
                        if dispatches_before(&self.tasks[i], &self.tasks[b]) {
                            best = Some(i);
                        }
                    },
                }
            }
            proof {
                assert(forall|j: int| 0 <= j <= i ==> extended[j] == self.tasks@[j]);
                assert(forall|j: int| 0 <= j < i ==> prefix[j] == self.tasks@[j]);
            }
            i = i + 1;
        }
        proof {
            assert(self.tasks@.take(tasks_len as int) =~= self.tasks@);
        }
        match best {
            None => None,
            Some(b) => {
                proof {
                    lemma_selected(self.tasks@, now);
                }
                let t = self.tasks[b];
                let updated = PaymentTask {
                    processing: true,
                    tries_left: t.tries_left - 1,
                    error: None,
                    next_try_at: None,
                    updated_at: now,
                    ..t
                };
                self.tasks[b] = updated;
                Some(updated)
            },
        }
    }
}

} // verus!
