//! Admission control for concurrent chunk transfers.
//!
//! One explicit counting limiter bounds how many chunk transfers of a single
//! operation are in flight at once. A transfer asks for admission before its
//! remote call and hands its slot back when the call ends; a transfer that is
//! refused waits and asks again. The limiter's invariant is the rate-limit
//! guarantee: the number of admitted transfers never exceeds the configured
//! bound.

use vstd::prelude::*;

verus! {

/// One thing a transfer task does to the limiter: ask for admission, or give
/// its slot back.
pub enum LimiterEvent {
    TaskStart,
    TaskFinish,
}

/// A counting limiter: at most `limit` concurrent admissions.
pub struct RateLimiter {
    in_flight: usize,
    limit: usize,
}

/// How one event changes the number of admitted tasks: a start is admitted
/// only below the bound, a finish frees a slot when one is held.
pub open spec fn limiter_step(limit: nat, cur: nat, event: LimiterEvent) -> nat {
    match event {
        LimiterEvent::TaskStart => if cur < limit {
            cur + 1
        } else {
            cur
        },
        LimiterEvent::TaskFinish => if cur > 0 {
            (cur - 1) as nat
        } else {
            cur
        },
    }
}

/// The number of admitted tasks after a sequence of events, starting from
/// `cur`.
pub open spec fn limiter_run(limit: nat, cur: nat, events: Seq<LimiterEvent>) -> nat
    decreases events.len(),
{
    if events.len() == 0 {
        cur
    } else {
        limiter_run(limit, limiter_step(limit, cur, events[0]), events.drop_first())
    }
}

impl RateLimiter {
    /// The limiter never admits more than its bound.
    pub open spec fn wf(&self) -> bool {
        self.in_flight() <= self.limit()
    }

    pub closed spec fn in_flight(&self) -> usize {
        self.in_flight
    }

    pub closed spec fn limit(&self) -> usize {
        self.limit
    }

    pub fn new(limit: usize) -> (l: Self)
        ensures
            l.wf(),
            l.limit() == limit,
            l.in_flight() == 0,
    {
        Self { in_flight: 0, limit }
    }

    /// The configured bound. A runner that enforces admission through some
    /// other mechanism (a semaphore's permit count) takes the number from
    /// here, so the enforced bound is the proved one.
    pub fn bound(&self) -> (r: usize)
        ensures
            r == self.limit(),
    {
        self.limit
    }

    /// Asks for one admission. Admits exactly when a slot is free, so the
    /// count of admitted tasks never passes the bound.
    pub fn try_acquire(&mut self) -> (admitted: bool)
        requires
            old(self).wf(),
        ensures
            final(self).wf(),
            final(self).limit() == old(self).limit(),
            admitted <==> old(self).in_flight() < old(self).limit(),
            final(self).in_flight() == limiter_step(
                old(self).limit() as nat,
                old(self).in_flight() as nat,
                LimiterEvent::TaskStart,
            ),
    {
        if self.in_flight < self.limit {
            self.in_flight = self.in_flight + 1;
            true
        } else {
            false
        }
    }

    /// Hands one admission back.
    pub fn release(&mut self)
        requires
            old(self).wf(),
        ensures
            final(self).wf(),
            final(self).limit() == old(self).limit(),
            final(self).in_flight() == limiter_step(
                old(self).limit() as nat,
                old(self).in_flight() as nat,
                LimiterEvent::TaskFinish,
            ),
    {
        if self.in_flight > 0 {
            self.in_flight = self.in_flight - 1;
        }
    }
}

/// Concurrent chunk transfers never exceed the configured rate limit: however
/// the start and finish events of the tasks interleave, the number of
/// admitted tasks stays within the bound after every prefix of the event
/// sequence.
pub proof fn lemma_rate_limit_never_exceeded(limit: nat, events: Seq<LimiterEvent>)
    ensures
        forall|k: int|
            0 <= k <= events.len() ==> limiter_run(limit, 0, events.take(k)) <= limit,
{
    assert forall|k: int| 0 <= k <= events.len() implies limiter_run(limit, 0, events.take(k))
        <= limit by {
        lemma_limiter_run_bounded(limit, 0, events.take(k));
    }
}

/// A run that starts within the bound stays within it.
proof fn lemma_limiter_run_bounded(limit: nat, cur: nat, events: Seq<LimiterEvent>)
    requires
        cur <= limit,
    ensures
        limiter_run(limit, cur, events) <= limit,
    decreases events.len(),
{
    if events.len() > 0 {
        lemma_limiter_run_bounded(limit, limiter_step(limit, cur, events[0]), events.drop_first());
    }
}

} // verus!
