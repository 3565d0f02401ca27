//! The execution slot: the single point of truth for "is a request
//! currently running", and the mechanism to cancel it.
//!
//! The slot holds at most one active cancellation handle.  Handles are
//! identified by numbers that are never reused, so a stale handle (one
//! that a later execution has superseded) can never be mistaken for the
//! current occupant.  The surrounding application owns one real
//! cancellation token per handle; whenever an operation here tells it to
//! cancel a handle, it signals that token.

use vstd::prelude::*;

verus! {

/// Error raised by cancellation when the slot is empty.
#[derive(Clone, Copy, PartialEq, Eq, Structural, Debug)]
pub enum SlotError {
    NoActiveRequest,
}

/// Holds at most one active cancellation handle, plus the counter from
/// which fresh handles are drawn.
pub struct ExecutionSlot {
    current: Option<u64>,
    next_id: u64,
}

impl ExecutionSlot {
    /// The handle currently occupying the slot, if any.
    pub closed spec fn occupant(self) -> Option<u64> {
        self.current
    }

    /// How many handles this slot has issued so far.  Every issued handle
    /// is strictly below this counter, so handle numbers are never reused.
    pub closed spec fn issued(self) -> u64 {
        self.next_id
    }

    /// A handle is valid exactly when it is the current occupant.
    pub open spec fn valid_handle(self, h: u64) -> bool {
        self.occupant() == Some(h)
    }

    /// Well-formedness: the occupant, if any, was issued by this slot.
    pub open spec fn wf(self) -> bool {
        self.occupant() matches Some(h) ==> h < self.issued()
    }

    /// A fresh, empty slot.
    pub fn new() -> (s: Self)
        ensures
            s.occupant() is None,
            s.issued() == 0,
            s.wf(),
    {
        ExecutionSlot { current: None, next_id: 0 }
    }

    /// How many handles this slot has issued so far, executably.
    pub fn handles_issued(&self) -> (n: u64)
        ensures
            n == self.issued(),
    {
        self.next_id
    }

    /// Install a fresh handle as the sole occupant.  If a previous handle
    /// occupied the slot it is returned in `r.1`: the caller must signal
    /// its cancellation token.  The hand-off itself never waits on the
    /// superseded execution.
    pub fn acquire(&mut self) -> (r: (u64, Option<u64>))
        requires
            old(self).wf(),
            old(self).issued() < u64::MAX,
        ensures
            r.0 == old(self).issued(),
            r.1 == old(self).occupant(),
            final(self).occupant() == Some(r.0),
            final(self).issued() == old(self).issued() + 1,
            final(self).wf(),
            old(self).occupant() matches Some(p) ==> p != r.0,
    {
        let prior = self.current;
        let handle = self.next_id;
        self.next_id = self.next_id + 1;
        self.current = Some(handle);
        (handle, prior)
    }

    /// Clear the slot, but only if `handle` is still its occupant.  A
    /// stale handle — one already superseded or already released — leaves
    /// the slot untouched, so a discarded execution can never clear a
    /// newer occupant.
    pub fn release(&mut self, handle: u64)
        ensures
            final(self).issued() == old(self).issued(),
            old(self).occupant() == Some(handle) ==> final(self).occupant() is None,
            old(self).occupant() != Some(handle) ==> final(self).occupant() == old(self).occupant(),
            old(self).wf() ==> final(self).wf(),
    {
        match self.current {
            Some(cur) => {
                if cur == handle {
                    self.current = None;
                }
            },
            None => {},
        }
    }

    /// Cancel whatever is running: return the occupying handle (whose
    /// token the caller must signal) and clear the slot, or fail with
    /// `NoActiveRequest` when the slot is empty.
    pub fn cancel_current(&mut self) -> (r: Result<u64, SlotError>)
        ensures
            final(self).issued() == old(self).issued(),
            r is Ok <==> old(self).occupant() is Some,
            r matches Ok(h) ==> old(self).occupant() == Some(h),
            r matches Err(e) ==> e == SlotError::NoActiveRequest
                && final(self).occupant() == old(self).occupant(),
            r is Ok ==> final(self).occupant() is None,
            old(self).wf() ==> final(self).wf(),
    {
        match self.current {
            Some(cur) => {
                self.current = None;
                Ok(cur)
            },
            None => Err(SlotError::NoActiveRequest),
        }
    }
}

/// The slot never holds more than one valid handle: any two valid
/// handles are the same handle.
pub proof fn lemma_at_most_one_valid_handle(s: ExecutionSlot, h1: u64, h2: u64)
    requires
        s.valid_handle(h1),
        s.valid_handle(h2),
    ensures
        h1 == h2,
{
}

/// If a request B begins while request A still occupies the slot, B's
/// acquire step names A's handle as the one to cancel, installs a
/// fresh handle in its place, and A's handle stops being valid.  The
/// executor classifies a race that observes the cancellation signal as
/// `Cancelled` (see `finish_request`), so the superseded request's
/// result is `Cancelled` while B proceeds with the slot to itself.
pub proof fn lemma_preemption(
    s0: ExecutionSlot,
    s1: ExecutionSlot,
    ha: u64,
    hb: u64,
    to_cancel: Option<u64>,
)
    requires
        s0.wf(),
        s0.occupant() == Some(ha),
        // B's acquire step, as `acquire` ensures it
        hb == s0.issued(),
        to_cancel == s0.occupant(),
        s1.occupant() == Some(hb),
        s1.issued() == s0.issued() + 1,
    ensures
        to_cancel == Some(ha),
        hb != ha,
        s1.valid_handle(hb),
        !s1.valid_handle(ha),
{
}

/// A superseded handle is not valid, and its release is a no-op: after
/// an acquire that supersedes `h`, releasing `h` leaves the new occupant
/// in place.  Stated over one acquire step followed by one release step.
pub proof fn lemma_stale_release_is_noop(
    s0: ExecutionSlot,
    s1: ExecutionSlot,
    s2: ExecutionSlot,
    stale: u64,
    fresh: u64,
)
    requires
        s0.wf(),
        s0.valid_handle(stale),
        // the acquire step: `fresh` was installed, superseding `stale`
        fresh == s0.issued(),
        s1.occupant() == Some(fresh),
        s1.issued() == s0.issued() + 1,
        // the release step performed with the stale handle
        s1.occupant() == Some(stale) ==> s2.occupant() is None,
        s1.occupant() != Some(stale) ==> s2.occupant() == s1.occupant(),
    ensures
        !s1.valid_handle(stale),
        s2.occupant() == Some(fresh),
        s2.valid_handle(fresh),
{
}

} // verus!
