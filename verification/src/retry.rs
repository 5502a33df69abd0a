//! The retry coordinator: marking passed pending hours as missed, picking
//! the retrying rows that are due again, and the backoff policy of the daily
//! price-publication check.

use vstd::prelude::*;
use crate::clock::{valid_ts, spec_hour_start};
use crate::schedule::{ScheduledExecution, ExecStatus, ExecutionStore};

verus! {

/// A pending row whose hour lies strictly before the hour containing `now`:
/// its chance has passed.
pub open spec fn missed_pred(cutoff: int) -> spec_fn(ScheduledExecution) -> bool {
    |r: ScheduledExecution| r.status == ExecStatus::Pending && r.scheduled_hour < cutoff
}

/// Marks every pending row of a passed hour as Missed. A row of the current
/// or a future hour, or one not Pending, is left exactly as it was. Returns
/// how many rows were marked.
pub fn mark_missed(store: &mut ExecutionStore, now: i64) -> (count: usize)
    requires
        old(store).wf(),
        valid_ts(now as int),
    ensures
        final(store).wf(),
        final(store)@.len() == old(store)@.len(),
        forall|i: int|
            0 <= i < old(store)@.len() ==> if missed_pred(spec_hour_start(now as int))(
                #[trigger] old(store)@[i],
            ) {
                final(store)@[i] == ScheduledExecution {
                    status: ExecStatus::Missed,
                    ..old(store)@[i]
                }
            } else {
                final(store)@[i] == old(store)@[i]
            },
        count as int == old(store)@.filter(missed_pred(spec_hour_start(now as int))).len(),
{
    let ghost pre = store@;
    let ghost pred = missed_pred(spec_hour_start(now as int));
    let cutoff = now - (now % 3600);
    let n = store.len();
    let mut count: usize = 0;
    let mut i: usize = 0;
    proof {
        reveal(Seq::filter);
        assert(pre.subrange(0, 0).filter(pred) =~= Seq::<ScheduledExecution>::empty());
    }
    while i < n
        invariant
            0 <= i <= n == pre.len(),
            store.wf(),
            store@.len() == pre.len(),
            cutoff == spec_hour_start(now as int),
            pred == missed_pred(spec_hour_start(now as int)),
            forall|j: int|
                0 <= j < i ==> if missed_pred(spec_hour_start(now as int))(#[trigger] pre[j]) {
                    store@[j] == ScheduledExecution { status: ExecStatus::Missed, ..pre[j] }
                } else {
                    store@[j] == pre[j]
                },
            forall|j: int| i <= j < pre.len() ==> #[trigger] store@[j] == pre[j],
            count as int == pre.subrange(0, i as int).filter(pred).len(),
        decreases n - i,
    {
        let row = *store.row(i);
        proof {
            crate::seq_facts::lemma_filter_step(pre, pred, i as int);
        }
        if matches!(row.status, ExecStatus::Pending) && row.scheduled_hour < cutoff {
            let updated = ScheduledExecution { status: ExecStatus::Missed, ..row };
            store.replace_row(i, updated);
            count += 1;
        }
        i += 1;
    }
    proof {
        assert(pre.subrange(0, pre.len() as int) =~= pre);
    }
    count
}

/// A retrying row whose next retry is due at `now`.
pub open spec fn due_retry(r: ScheduledExecution, now: i64) -> bool {
    r.status == ExecStatus::Retrying && match r.next_retry_at {
        Some(t) => t <= now,
        None => false,
    }
}

/// Picks the work of one retry sweep: every retrying row due at `now` whose
/// hour still stands is returned (by index, in store order) for
/// re-execution; one whose hour has passed is marked Missed instead, with
/// the sweep time recorded, and is never retried again. All other rows stay
/// exactly as they were.
pub fn retry_due(store: &mut ExecutionStore, now: i64) -> (due: Vec<usize>)
    requires
        old(store).wf(),
        valid_ts(now as int),
    ensures
        final(store).wf(),
        final(store)@.len() == old(store)@.len(),
        forall|i: int|
            0 <= i < old(store)@.len() ==> if due_retry(#[trigger] old(store)@[i], now) && old(
                store,
            )@[i].scheduled_hour < spec_hour_start(now as int) {
                final(store)@[i] == ScheduledExecution {
                    status: ExecStatus::Missed,
                    last_retry_at: Some(now),
                    next_retry_at: None,
                    ..old(store)@[i]
                }
            } else {
                final(store)@[i] == old(store)@[i]
            },
        forall|k: int|
            0 <= k < due@.len() ==> (#[trigger] due@[k]) < old(store)@.len() && due_retry(
                old(store)@[due@[k] as int],
                now,
            ) && old(store)@[due@[k] as int].scheduled_hour >= spec_hour_start(now as int),
        forall|i: int|
            0 <= i < old(store)@.len() && due_retry(#[trigger] old(store)@[i], now) && old(
                store,
            )@[i].scheduled_hour >= spec_hour_start(now as int) ==> due@.contains(i as usize),
        forall|a: int, b: int| 0 <= a < b < due@.len() ==> due@[a] < due@[b],
{
    let ghost pre = store@;
    let cutoff = now - (now % 3600);
    let n = store.len();
    let mut due: Vec<usize> = Vec::new();
    let mut i: usize = 0;
    while i < n
        invariant
            0 <= i <= n == pre.len(),
            store.wf(),
            store@.len() == pre.len(),
            valid_ts(now as int),
            cutoff == spec_hour_start(now as int),
            forall|j: int|
                0 <= j < i ==> if due_retry(#[trigger] pre[j], now) && pre[j].scheduled_hour
                    < spec_hour_start(now as int) {
                    store@[j] == ScheduledExecution {
                        status: ExecStatus::Missed,
                        last_retry_at: Some(now),
                        next_retry_at: None,
                        ..pre[j]
                    }
                } else {
                    store@[j] == pre[j]
                },
            forall|j: int| i <= j < pre.len() ==> #[trigger] store@[j] == pre[j],
            forall|k: int|
                0 <= k < due@.len() ==> (#[trigger] due@[k]) < i && due_retry(
                    pre[due@[k] as int],
                    now,
                ) && pre[due@[k] as int].scheduled_hour >= spec_hour_start(now as int),
            forall|j: int|
                0 <= j < i && due_retry(#[trigger] pre[j], now) && pre[j].scheduled_hour
                    >= spec_hour_start(now as int) ==> due@.contains(j as usize),
            forall|a: int, b: int| 0 <= a < b < due@.len() ==> due@[a] < due@[b],
        decreases n - i,
    {
        let row = *store.row(i);
        let is_due = matches!(row.status, ExecStatus::Retrying) && match row.next_retry_at {
            Some(t) => t <= now,
            None => false,
        };
        let ghost old_due = due@;
        if is_due {
            if row.scheduled_hour < cutoff {
                let updated = ScheduledExecution {
                    status: ExecStatus::Missed,
                    last_retry_at: Some(now),
                    next_retry_at: None,
                    ..row
                };
                store.replace_row(i, updated);
            } else {
                due.push(i);
            }
        }
        proof {
            assert forall|j: int|
                0 <= j < i + 1 && due_retry(#[trigger] pre[j], now) && pre[j].scheduled_hour
                    >= spec_hour_start(now as int) implies due@.contains(j as usize) by {
                if j < i {
                    assert(old_due.contains(j as usize));
                    let k = choose|k: int| 0 <= k < old_due.len() && old_due[k] == j as usize;
                    assert(due@[k] == j as usize);
                } else {
                    assert(due@[due@.len() - 1] == i);
                }
            }
        }
        i += 1;
    }
    due
}

/// Delay before retry number `attempt` of the daily price-publication
/// check: two minutes, doubled at each further attempt.
pub fn publication_backoff(attempt: u32) -> (r: u64)
    requires
        1 <= attempt <= 5,
    ensures
        r == 120u64 << ((attempt - 1) as u32),
        attempt == 1 ==> r == 120,
        attempt == 5 ==> r == 1920,
{
    let r = 120u64 << (attempt - 1);
    proof {
        assert(1 <= attempt <= 5 ==> (attempt == 1 ==> 120u64 << ((attempt - 1) as u32) == 120) && (
        attempt == 5 ==> 120u64 << ((attempt - 1) as u32) == 1920)) by (bit_vector);
    }
    r
}

/// What the daily price-publication check does next after one fetch that
/// stored `stored_points` hourly prices: done at a full day of prices,
/// another attempt after the doubled delay while attempts remain, given up
/// after the fifth retry.
#[derive(Clone, Copy, PartialEq, Eq, Structural, Debug)]
pub enum SyncDecision {
    /// A full day of prices arrived; recompute the schedules.
    Done,
    /// Try again after this many seconds.
    RetryAfter(u64),
    /// The fifth retry has failed; stop until the next daily check.
    GiveUp,
}

/// Decides the next step of the daily publication loop. `attempt` counts the
/// sync calls already made after the first (0 on the first call).
pub fn next_sync_step(attempt: u32, stored_points: usize) -> (r: SyncDecision)
    requires
        attempt <= 5,
    ensures
        stored_points >= 24 ==> r == SyncDecision::Done,
        stored_points < 24 && attempt == 5 ==> r == SyncDecision::GiveUp,
        stored_points < 24 && attempt < 5 ==> r == SyncDecision::RetryAfter(
            120u64 << (((attempt + 1) - 1) as u32),
        ),
{
    if stored_points >= 24 {
        SyncDecision::Done
    } else if attempt >= 5 {
        SyncDecision::GiveUp
    } else {
        SyncDecision::RetryAfter(publication_backoff(attempt + 1))
    }
}

/// The five publication retries together wait 3720 seconds: two minutes
/// doubled each time, sixty-two minutes in all.
pub proof fn lemma_publication_backoff_total()
    ensures
        (120u64 << 0) + (120u64 << 1) + (120u64 << 2) + (120u64 << 3) + (120u64 << 4) == 3720,
{
    assert((120u64 << 0) + (120u64 << 1) + (120u64 << 2) + (120u64 << 3) + (120u64 << 4)
        == 3720) by (bit_vector);
}

} // verus!
