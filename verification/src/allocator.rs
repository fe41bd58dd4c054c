use vstd::prelude::*;

use crate::id::UID;

verus! {

/// Number of identifiers a thread reserves from the shared counter at a time.
/// Larger batches mean fewer touches of the shared counter, at the cost of a
/// larger forfeited remainder when a thread stops allocating.
pub const BATCH_SIZE: u64 = 512;

/// Ghost model of a thread's private reservation: the values
/// `[base, base + remaining)` are set aside for this thread and not yet
/// issued.
pub struct ReservationModel {
    pub base: int,
    pub remaining: int,
}

/// `x` is one of the values the reservation still holds.
pub open spec fn reserves(m: ReservationModel, x: int) -> bool {
    m.base <= x < m.base + m.remaining
}

/// The reservation is well formed against counter value `n`: it holds at most
/// one batch, and every value it holds was already carved from the counter.
pub open spec fn consistent(m: ReservationModel, n: int) -> bool {
    &&& 0 <= m.remaining <= BATCH_SIZE
    &&& 0 <= m.base
    &&& m.base + m.remaining <= n
}

/// `x` may still come out of this reservation and counter in the future:
/// either the reservation holds it now, or the counter has not reached it yet.
/// An allocation step removes exactly the issued value from this set, which is
/// why no value is ever issued twice.
pub open spec fn issuable(m: ReservationModel, n: int, x: int) -> bool {
    reserves(m, x) || x >= n
}

/// One allocation step on reservation `m` and counter `n`: the new
/// reservation, the new counter value, and the value issued. An exhausted
/// reservation claims a fresh batch and issues its top value; otherwise the
/// batch is consumed from its top end downward.
pub open spec fn alloc_step(m: ReservationModel, n: int) -> (ReservationModel, int, int) {
    if m.remaining == 0 {
        (
            ReservationModel { base: n, remaining: BATCH_SIZE - 1 },
            n + BATCH_SIZE,
            n + BATCH_SIZE - 1,
        )
    } else {
        (
            ReservationModel { base: m.base, remaining: m.remaining - 1 },
            n,
            m.base + m.remaining - 1,
        )
    }
}

/// The source of truth all batches are carved from: a counter that only moves
/// forward, so no two claims ever return overlapping ranges.
pub struct GlobalCounter {
    next: u64,
}

impl View for GlobalCounter {
    type V = int;

    closed spec fn view(&self) -> int {
        self.next as int
    }
}

impl GlobalCounter {
    /// A fresh counter: no value has been carved yet.
    pub fn new() -> (c: GlobalCounter)
        ensures
            c@ == 0,
    {
        GlobalCounter { next: 0 }
    }

    /// The current counter value. Every value issued so far lies below it.
    pub fn current(&self) -> (v: u64)
        ensures
            v == self@,
    {
        self.next
    }

    /// Claim a batch: return the lower bound of the fresh range
    /// `[base, base + size)` and advance the counter past it. Since the
    /// counter only grows, ranges returned by any two claims are disjoint.
    pub fn claim_batch(&mut self, size: u64) -> (base: u64)
        requires
            old(self)@ + size <= u64::MAX,
        ensures
            base == old(self)@,
            final(self)@ == old(self)@ + size,
    {
        let base = self.next;
        self.next = self.next + size;
        base
    }
}

/// A thread's private reservation of a contiguous range of values, replenished
/// from the shared counter only when exhausted.
pub struct ThreadAllocator {
    base: u64,
    remaining: u64,
}

impl View for ThreadAllocator {
    type V = ReservationModel;

    closed spec fn view(&self) -> ReservationModel {
        ReservationModel { base: self.base as int, remaining: self.remaining as int }
    }
}

impl ThreadAllocator {
    /// An empty reservation: the first request will claim a batch.
    pub fn new() -> (a: ThreadAllocator)
        ensures
            a@.base == 0,
            a@.remaining == 0,
    {
        ThreadAllocator { base: 0, remaining: 0 }
    }

    /// True when the reservation is exhausted, so the next request must claim
    /// a fresh batch from the shared counter.
    pub fn needs_batch(&self) -> (b: bool)
        ensures
            b == (self@.remaining == 0),
    {
        self.remaining == 0
    }

    /// Install a freshly claimed batch `[base, base + BATCH_SIZE)` and issue
    /// its top value.
    pub fn install_batch(&mut self, base: u64) -> (id: UID)
        requires
            old(self)@.remaining == 0,
            base + BATCH_SIZE - 1 <= u64::MAX,
        ensures
            final(self)@.base == base,
            final(self)@.remaining == BATCH_SIZE - 1,
            id@ == base + BATCH_SIZE - 1,
    {
        self.base = base;
        self.remaining = BATCH_SIZE - 1;
        UID::from_raw(base + (BATCH_SIZE - 1))
    }

    /// Issue the next value of the current batch, top end first.
    pub fn take_from_batch(&mut self) -> (id: UID)
        requires
            old(self)@.remaining > 0,
            old(self)@.base + old(self)@.remaining - 1 <= u64::MAX,
        ensures
            final(self)@.base == old(self)@.base,
            final(self)@.remaining == old(self)@.remaining - 1,
            id@ == old(self)@.base + old(self)@.remaining - 1,
    {
        let val = self.remaining - 1;
        self.remaining = val;
        UID::from_raw(self.base + val)
    }
}

impl UID {
    /// Allocate a fresh identifier for the thread owning `alloc`, claiming a
    /// new batch from `counter` only when the reservation is exhausted.
    ///
    /// The views evolve exactly by `alloc_step`, the issued value was issuable
    /// beforehand and is issuable never again, and nothing becomes issuable
    /// that was not before — the heart of the uniqueness guarantee.
    pub fn new(alloc: &mut ThreadAllocator, counter: &mut GlobalCounter) -> (id: UID)
        requires
            consistent(old(alloc)@, old(counter)@),
            old(alloc)@.remaining == 0 ==> old(counter)@ + BATCH_SIZE <= u64::MAX,
        ensures
            (final(alloc)@, final(counter)@, id@ as int) == alloc_step(old(alloc)@, old(counter)@),
            consistent(final(alloc)@, final(counter)@),
            issuable(old(alloc)@, old(counter)@, id@ as int),
            !issuable(final(alloc)@, final(counter)@, id@ as int),
            forall|x: int|
                issuable(final(alloc)@, final(counter)@, x) ==> issuable(
                    old(alloc)@,
                    old(counter)@,
                    x,
                ),
    {
        if alloc.needs_batch() {
            let base = counter.claim_batch(BATCH_SIZE);
            alloc.install_batch(base)
        } else {
            alloc.take_from_batch()
        }
    }
}

} // verus!
