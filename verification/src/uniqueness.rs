//! The uniqueness guarantee, stated and proved over the allocation model.
//!
//! `alloc_step` is the exact ghost mirror of the allocation operation, so the
//! lemmas here speak about every sequence of allocations: on a single thread,
//! and across any number of threads interleaved in any order.

use vstd::prelude::*;

use crate::allocator::{alloc_step, consistent, issuable, reserves, ReservationModel, BATCH_SIZE};

verus! {

/// The values issued by `k` successive allocations on one reservation.
pub open spec fn run_ids(m: ReservationModel, n: int, k: nat) -> Seq<int>
    decreases k,
{
    if k == 0 {
        Seq::empty()
    } else {
        let (m2, n2, v) = alloc_step(m, n);
        seq![v] + run_ids(m2, n2, (k - 1) as nat)
    }
}

/// Reservation and counter after `k` successive allocations on one
/// reservation.
pub open spec fn run_state(m: ReservationModel, n: int, k: nat) -> (ReservationModel, int)
    decreases k,
{
    if k == 0 {
        (m, n)
    } else {
        let (m2, n2, v) = alloc_step(m, n);
        run_state(m2, n2, (k - 1) as nat)
    }
}

/// A run of `k` allocations issues exactly `k` values.
pub proof fn lemma_run_ids_len(m: ReservationModel, n: int, k: nat)
    ensures
        run_ids(m, n, k).len() == k,
    decreases k,
{
    if k > 0 {
        let (m2, n2, v) = alloc_step(m, n);
        lemma_run_ids_len(m2, n2, (k - 1) as nat);
    }
}

/// One allocation step keeps the reservation consistent, issues a value that
/// was issuable, withdraws that value from the issuable set for good, and
/// makes nothing else issuable.
pub proof fn lemma_step_properties(m: ReservationModel, n: int)
    requires
        consistent(m, n),
    ensures
        ({
            let (m2, n2, v) = alloc_step(m, n);
            &&& consistent(m2, n2)
            &&& issuable(m, n, v)
            &&& !issuable(m2, n2, v)
            &&& forall|x: int| issuable(m2, n2, x) ==> issuable(m, n, x)
        }),
{
}

/// Every value a run issues was issuable in the state the run started from.
proof fn lemma_run_ids_issuable(m: ReservationModel, n: int, k: nat)
    requires
        consistent(m, n),
    ensures
        forall|i: int| 0 <= i < k ==> issuable(m, n, #[trigger] run_ids(m, n, k)[i]),
    decreases k,
{
    if k > 0 {
        let (m2, n2, v) = alloc_step(m, n);
        lemma_step_properties(m, n);
        lemma_run_ids_len(m2, n2, (k - 1) as nat);
        lemma_run_ids_issuable(m2, n2, (k - 1) as nat);
        assert forall|i: int| 0 <= i < k implies issuable(m, n, #[trigger] run_ids(m, n, k)[i]) by {
            if i > 0 {
                assert(run_ids(m, n, k)[i] == run_ids(m2, n2, (k - 1) as nat)[i - 1]);
            }
        }
    }
}

/// Uniqueness on a single thread: for any consistent starting state, the
/// values issued by `k` successive allocations are pairwise distinct.
pub proof fn lemma_single_thread_unique(m: ReservationModel, n: int, k: nat)
    requires
        consistent(m, n),
    ensures
        forall|i: int, j: int|
            0 <= i < j < k ==> #[trigger] run_ids(m, n, k)[i] != #[trigger] run_ids(m, n, k)[j],
    decreases k,
{
    if k > 0 {
        let (m2, n2, v) = alloc_step(m, n);
        lemma_step_properties(m, n);
        lemma_run_ids_len(m2, n2, (k - 1) as nat);
        lemma_run_ids_issuable(m2, n2, (k - 1) as nat);
        lemma_single_thread_unique(m2, n2, (k - 1) as nat);
        assert forall|i: int, j: int| 0 <= i < j < k implies #[trigger] run_ids(m, n, k)[i]
            != #[trigger] run_ids(m, n, k)[j] by {
            let tail = run_ids(m2, n2, (k - 1) as nat);
            assert(run_ids(m, n, k)[j] == tail[j - 1]);
            if i == 0 {
                assert(issuable(m2, n2, tail[j - 1]));
                assert(!issuable(m2, n2, v));
            } else {
                assert(run_ids(m, n, k)[i] == tail[i - 1]);
            }
        }
    }
}

/// Allocations served from an unexhausted reservation do not touch the
/// counter: they consume the reservation one value at a time, and every value
/// issued lies within the reservation's range.
proof fn lemma_within_batch(m: ReservationModel, n: int, k: nat)
    requires
        consistent(m, n),
        k <= m.remaining,
    ensures
        run_state(m, n, k).1 == n,
        run_state(m, n, k).0.base == m.base,
        run_state(m, n, k).0.remaining == m.remaining - k,
        forall|i: int|
            0 <= i < k ==> m.base <= #[trigger] run_ids(m, n, k)[i] < m.base + m.remaining,
    decreases k,
{
    if k > 0 {
        let (m2, n2, v) = alloc_step(m, n);
        lemma_run_ids_len(m2, n2, (k - 1) as nat);
        lemma_within_batch(m2, n2, (k - 1) as nat);
        assert forall|i: int| 0 <= i < k implies m.base <= #[trigger] run_ids(m, n, k)[i] < m.base
            + m.remaining by {
            if i > 0 {
                assert(run_ids(m, n, k)[i] == run_ids(m2, n2, (k - 1) as nat)[i - 1]);
            }
        }
    }
}

/// Batch boundary: starting from an exhausted reservation, the first
/// allocation claims one batch — the counter jumps by exactly `BATCH_SIZE` —
/// and the following `BATCH_SIZE - 1` allocations are served from that batch
/// without touching the counter, every value lying within the claimed range
/// `[n, n + BATCH_SIZE)`. Once the whole batch is used up, the next
/// allocation claims exactly one further batch.
pub proof fn lemma_batch_boundary(m: ReservationModel, n: int, k: nat)
    requires
        consistent(m, n),
        m.remaining == 0,
        1 <= k <= BATCH_SIZE,
    ensures
        run_state(m, n, k).1 == n + BATCH_SIZE,
        forall|i: int| 0 <= i < k ==> n <= #[trigger] run_ids(m, n, k)[i] < n + BATCH_SIZE,
        ({
            let (mk, nk) = run_state(m, n, BATCH_SIZE as nat);
            &&& mk.remaining == 0
            &&& nk == n + BATCH_SIZE
            &&& alloc_step(mk, nk).1 == n + 2 * BATCH_SIZE
        }),
{
    let (m1, n1, v0) = alloc_step(m, n);
    lemma_step_properties(m, n);
    lemma_run_ids_len(m1, n1, (k - 1) as nat);
    lemma_within_batch(m1, n1, (k - 1) as nat);
    lemma_within_batch(m1, n1, (BATCH_SIZE - 1) as nat);
    assert forall|i: int| 0 <= i < k implies n <= #[trigger] run_ids(m, n, k)[i] < n
        + BATCH_SIZE by {
        if i > 0 {
            assert(run_ids(m, n, k)[i] == run_ids(m1, n1, (k - 1) as nat)[i - 1]);
        }
    }
    assert(run_state(m, n, BATCH_SIZE as nat) == run_state(m1, n1, (BATCH_SIZE - 1) as nat));
}

/// Reservations of different threads never hold a common value.
pub open spec fn pairwise_disjoint(ms: Seq<ReservationModel>) -> bool {
    forall|i: int, j: int, x: int|
        0 <= i < ms.len() && 0 <= j < ms.len() && i != j && #[trigger] reserves(ms[i], x)
            ==> !(#[trigger] reserves(ms[j], x))
}

/// Every thread's reservation is consistent with the shared counter, and no
/// two reservations overlap.
pub open spec fn sys_consistent(ms: Seq<ReservationModel>, n: int) -> bool {
    &&& forall|i: int| 0 <= i < ms.len() ==> consistent(#[trigger] ms[i], n)
    &&& pairwise_disjoint(ms)
}

/// Some thread may still issue `x` in the future: one of the reservations
/// holds it, or the shared counter has not reached it.
pub open spec fn sys_issuable(ms: Seq<ReservationModel>, n: int, x: int) -> bool {
    (exists|i: int| 0 <= i < ms.len() && #[trigger] reserves(ms[i], x)) || x >= n
}

/// A schedule names, for each step, the thread that allocates at that step.
pub open spec fn valid_schedule(sched: Seq<int>, threads: int) -> bool {
    forall|t: int| 0 <= t < sched.len() ==> 0 <= #[trigger] sched[t] < threads
}

/// The values issued when the threads owning the reservations `ms` allocate
/// against one shared counter, interleaved in the order `sched` gives.
pub open spec fn sys_run_ids(ms: Seq<ReservationModel>, n: int, sched: Seq<int>) -> Seq<int>
    decreases sched.len(),
{
    if sched.len() == 0 {
        Seq::empty()
    } else {
        let (m2, n2, v) = alloc_step(ms[sched[0]], n);
        seq![v] + sys_run_ids(ms.update(sched[0], m2), n2, sched.drop_first())
    }
}

/// An allocation step by any one thread keeps the whole system consistent,
/// issues a value some thread could issue, withdraws that value for good, and
/// makes nothing else issuable — whichever thread moves.
pub proof fn lemma_sys_step_properties(ms: Seq<ReservationModel>, n: int, t: int)
    requires
        sys_consistent(ms, n),
        0 <= t < ms.len(),
    ensures
        ({
            let (m2, n2, v) = alloc_step(ms[t], n);
            &&& sys_consistent(ms.update(t, m2), n2)
            &&& sys_issuable(ms, n, v)
            &&& !sys_issuable(ms.update(t, m2), n2, v)
            &&& forall|x: int| sys_issuable(ms.update(t, m2), n2, x) ==> sys_issuable(ms, n, x)
        }),
{
    let (m2, n2, v) = alloc_step(ms[t], n);
    let ms2 = ms.update(t, m2);
    lemma_step_properties(ms[t], n);
    assert(consistent(ms[t], n));
    assert forall|i: int| 0 <= i < ms2.len() implies consistent(#[trigger] ms2[i], n2) by {
        if i != t {
            assert(consistent(ms[i], n));
        }
    }
    assert forall|i: int, j: int, x: int|
        0 <= i < ms2.len() && 0 <= j < ms2.len() && i != j && #[trigger] reserves(ms2[i], x)
        implies !(#[trigger] reserves(ms2[j], x)) by {
        if i == t || j == t {
            let o = if i == t { j } else { i };
            assert(consistent(ms[o], n));
            if ms[t].remaining > 0 {
                assert(forall|y: int| reserves(m2, y) ==> reserves(ms[t], y));
                assert(reserves(ms[t], x) ==> !reserves(ms[o], x));
            }
        }
    }
    assert(sys_issuable(ms, n, v)) by {
        if ms[t].remaining > 0 {
            assert(reserves(ms[t], v));
        }
    }
    assert(!sys_issuable(ms2, n2, v)) by {
        assert forall|i: int| 0 <= i < ms2.len() implies !(#[trigger] reserves(ms2[i], v)) by {
            if i == t {
                assert(!issuable(m2, n2, v));
            } else {
                assert(consistent(ms[i], n));
                if ms[t].remaining > 0 {
                    assert(reserves(ms[t], v));
                }
            }
        }
    }
    assert forall|x: int| sys_issuable(ms2, n2, x) implies sys_issuable(ms, n, x) by {
        if x < n {
            let i = choose|i: int| 0 <= i < ms2.len() && #[trigger] reserves(ms2[i], x);
            if i == t {
                assert(issuable(ms[t], n, x));
                if reserves(ms[t], x) {
                    assert(0 <= t < ms.len() && reserves(ms[t], x));
                }
            } else {
                assert(reserves(ms[i], x));
            }
        }
    }
}

/// An interleaved run issues one value per scheduled step.
pub proof fn lemma_sys_run_ids_len(ms: Seq<ReservationModel>, n: int, sched: Seq<int>)
    requires
        valid_schedule(sched, ms.len() as int),
    ensures
        sys_run_ids(ms, n, sched).len() == sched.len(),
    decreases sched.len(),
{
    if sched.len() > 0 {
        let (m2, n2, v) = alloc_step(ms[sched[0]], n);
        lemma_sys_run_ids_len(ms.update(sched[0], m2), n2, sched.drop_first());
    }
}

/// Every value an interleaved run issues was issuable by some thread in the
/// state the run started from.
proof fn lemma_sys_run_ids_issuable(ms: Seq<ReservationModel>, n: int, sched: Seq<int>)
    requires
        sys_consistent(ms, n),
        valid_schedule(sched, ms.len() as int),
    ensures
        forall|i: int|
            0 <= i < sched.len() ==> sys_issuable(ms, n, #[trigger] sys_run_ids(ms, n, sched)[i]),
    decreases sched.len(),
{
    if sched.len() > 0 {
        let (m2, n2, v) = alloc_step(ms[sched[0]], n);
        let ms2 = ms.update(sched[0], m2);
        lemma_sys_step_properties(ms, n, sched[0]);
        lemma_sys_run_ids_len(ms2, n2, sched.drop_first());
        lemma_sys_run_ids_issuable(ms2, n2, sched.drop_first());
        assert forall|i: int| 0 <= i < sched.len() implies sys_issuable(
            ms,
            n,
            #[trigger] sys_run_ids(ms, n, sched)[i],
        ) by {
            if i > 0 {
                assert(sys_run_ids(ms, n, sched)[i] == sys_run_ids(ms2, n2, sched.drop_first())[i
                    - 1]);
            }
        }
    }
}

/// Uniqueness across threads: for any number of threads whose reservations
/// are consistent and pairwise disjoint, and any interleaving of their
/// allocations, the values issued are pairwise distinct.
pub proof fn lemma_multi_thread_unique(ms: Seq<ReservationModel>, n: int, sched: Seq<int>)
    requires
        sys_consistent(ms, n),
        valid_schedule(sched, ms.len() as int),
    ensures
        forall|i: int, j: int|
            0 <= i < j < sched.len() ==> #[trigger] sys_run_ids(ms, n, sched)[i]
                != #[trigger] sys_run_ids(ms, n, sched)[j],
    decreases sched.len(),
{
    if sched.len() > 0 {
        let (m2, n2, v) = alloc_step(ms[sched[0]], n);
        let ms2 = ms.update(sched[0], m2);
        lemma_sys_step_properties(ms, n, sched[0]);
        lemma_sys_run_ids_len(ms2, n2, sched.drop_first());
        lemma_sys_run_ids_issuable(ms2, n2, sched.drop_first());
        lemma_multi_thread_unique(ms2, n2, sched.drop_first());
        assert forall|i: int, j: int| 0 <= i < j < sched.len() implies #[trigger] sys_run_ids(
            ms,
            n,
            sched,
        )[i] != #[trigger] sys_run_ids(ms, n, sched)[j] by {
            let tail = sys_run_ids(ms2, n2, sched.drop_first());
            assert(sys_run_ids(ms, n, sched)[j] == tail[j - 1]);
            if i == 0 {
                assert(sys_issuable(ms2, n2, tail[j - 1]));
                assert(!sys_issuable(ms2, n2, v));
            } else {
                assert(sys_run_ids(ms, n, sched)[i] == tail[i - 1]);
            }
        }
    }
}

} // verus!
