//! Decisions of the worker-credential scheduler.
//!
//! A credential ("token") is handed out for exactly one remote call. The
//! scheduler polls a backing store for a credential of the given storage
//! whose concurrent-use count is below the configured rate; while none is
//! free it waits a fixed interval, and it gives up once a fixed budget of
//! waiting has elapsed. The polling and sleeping happen outside; this module
//! decides, from the elapsed time and the poll's answer, whether to grant,
//! wait, or give up.

use vstd::prelude::*;

use crate::errors::{PentaractError, PentaractResult};

verus! {

/// Seconds of waiting after which token acquisition gives up.
pub const MAX_WAIT_SECS: u64 = 60;

/// Seconds slept between two polls of the worker store.
pub const POLL_INTERVAL_SECS: u64 = 1;

/// What the scheduler does after one poll of the worker store.
pub enum TokenDecision {
    /// A credential is free: hand it out for one remote call.
    Granted(String),
    /// No credential is free and the deadline has not passed: sleep this many
    /// seconds and poll again.
    Wait { delay_secs: u64 },
    /// The wait budget is exhausted: fail with a resource-exhaustion error.
    TimedOut,
}

/// Manages storage workers by limiting their usage: it grants each credential
/// to at most `rate` concurrent uses, a bound the backing store's lookup
/// enforces, and bounds how long a caller waits for one to become free.
pub struct StorageWorkersScheduler {
    rate: u8,
}

/// The index of the first poll that found a credential, or -1 if none of the
/// `bound` first polls did.
pub open spec fn first_grant(responses: Seq<Option<String>>, bound: int) -> int
    decreases bound,
{
    if bound <= 0 {
        -1
    } else if responses[0] is Some {
        0
    } else {
        let rest = first_grant(responses.drop_first(), bound - 1);
        if rest < 0 {
            -1
        } else {
            rest + 1
        }
    }
}

/// Seconds waited by an acquisition run over the given poll answers: the
/// index of the first successful poll (one second of waiting precedes each
/// poll after the first), or the whole budget if every poll failed.
pub open spec fn acquisition_wait_secs(responses: Seq<Option<String>>) -> int {
    let g = first_grant(responses, MAX_WAIT_SECS as int);
    if g >= 0 {
        g
    } else {
        MAX_WAIT_SECS as int
    }
}

/// The result of an acquisition run over the given poll answers: the first
/// credential found within the budget, else the distinct resource-exhaustion
/// error.
pub open spec fn acquisition_result(responses: Seq<Option<String>>) -> PentaractResult<String> {
    let g = first_grant(responses, MAX_WAIT_SECS as int);
    if g >= 0 {
        Ok(responses[g]->0)
    } else {
        Err(PentaractError::WorkerUnavailable)
    }
}

impl StorageWorkersScheduler {
    pub fn new(rate: u8) -> (s: Self)
        ensures
            s.rate() == rate,
    {
        Self { rate }
    }

    /// The per-credential concurrent-use bound the backing store is asked to
    /// respect when it looks a credential up.
    pub closed spec fn rate(&self) -> u8 {
        self.rate
    }

    /// The bound handed to the worker store's lookup: a credential qualifies
    /// only while its concurrent-use count is below this.
    pub fn usage_bound(&self) -> (r: u8)
        ensures
            r == self.rate(),
    {
        self.rate
    }

    /// Decides one round of token acquisition. `elapsed_secs` is how long
    /// this acquisition has waited so far; `found` is the store's answer,
    /// polled only while the deadline has not passed.
    ///
    /// Grants exactly when a credential was found before the deadline; waits
    /// one interval when none was found and time remains; times out exactly
    /// when the wait budget is spent.
    pub fn decide_poll(&self, elapsed_secs: u64, found: Option<String>) -> (d: TokenDecision)
        ensures
            elapsed_secs >= MAX_WAIT_SECS <==> d is TimedOut,
            elapsed_secs < MAX_WAIT_SECS && found is Some ==> d == TokenDecision::Granted(
                found->0,
            ),
            elapsed_secs < MAX_WAIT_SECS && found is None ==> d == (TokenDecision::Wait {
                delay_secs: POLL_INTERVAL_SECS,
            }),
    {
        if elapsed_secs >= MAX_WAIT_SECS {
            TokenDecision::TimedOut
        } else {
            match found {
                Some(token) => TokenDecision::Granted(token),
                None => TokenDecision::Wait { delay_secs: POLL_INTERVAL_SECS },
            }
        }
    }

    /// Runs a whole acquisition against a prescribed sequence of poll
    /// answers, one per second of the budget, and returns the seconds waited
    /// together with the outcome. This is the acquisition loop under a
    /// controllable clock: the caller that talks to the real store replays
    /// the same decisions one poll at a time.
    pub fn run_token_acquisition(&self, responses: &Vec<Option<String>>) -> (r: (
        u64,
        PentaractResult<String>,
    ))
        requires
            responses@.len() >= MAX_WAIT_SECS,
        ensures
            r.0 == acquisition_wait_secs(responses@),
            r.1 == acquisition_result(responses@),
    {
        let mut elapsed: u64 = 0;
        while elapsed < MAX_WAIT_SECS
            invariant
                0 <= elapsed <= MAX_WAIT_SECS,
                responses@.len() >= MAX_WAIT_SECS,
                first_grant(responses@, elapsed as int) < 0,
            decreases MAX_WAIT_SECS - elapsed,
        {
            match &responses[elapsed as usize] {
                Some(token) => {
                    proof {
                        lemma_first_grant_found(responses@, MAX_WAIT_SECS as int, elapsed as int);
                    }
                    return (elapsed, Ok(token.clone()));
                },
                None => {
                    proof {
                        lemma_first_grant_extend(responses@, elapsed as int);
                    }
                    elapsed = elapsed + 1;
                },
            }
        }
        (MAX_WAIT_SECS, Err(PentaractError::WorkerUnavailable))
    }
}

/// If the first `at` polls all failed and poll `at` succeeds, then poll `at`
/// is the first success within any larger budget.
proof fn lemma_first_grant_found(responses: Seq<Option<String>>, bound: int, at: int)
    requires
        0 <= at < bound,
        at < responses.len(),
        first_grant(responses, at) < 0,
        responses[at] is Some,
    ensures
        first_grant(responses, bound) == at,
    decreases at,
{
    if at == 0 {
    } else {
        assert(responses[0] is None);
        assert(responses.drop_first()[at - 1] == responses[at]);
        lemma_first_grant_found(responses.drop_first(), bound - 1, at - 1);
    }
}

/// A failing poll right after `k` failing polls extends the failing prefix.
proof fn lemma_first_grant_extend(responses: Seq<Option<String>>, k: int)
    requires
        0 <= k < responses.len(),
        first_grant(responses, k) < 0,
        responses[k] is None,
    ensures
        first_grant(responses, k + 1) < 0,
    decreases k,
{
    if k == 0 {
        assert(responses[0] is None);
        assert(first_grant(responses.drop_first(), 0) < 0);
    } else {
        assert(responses[0] is None);
        assert(responses.drop_first()[k - 1] == responses[k]);
        lemma_first_grant_extend(responses.drop_first(), k - 1);
    }
}

/// If no credential ever becomes available, acquisition fails with the
/// distinct resource-exhaustion error after the whole wait budget — neither
/// earlier nor later; and a failure can only happen after the whole budget,
/// while a success always comes earlier.
pub proof fn lemma_no_worker_times_out(responses: Seq<Option<String>>)
    requires
        responses.len() >= MAX_WAIT_SECS,
    ensures
        (forall|i: int| 0 <= i < MAX_WAIT_SECS ==> responses[i] is None) ==> (
        acquisition_result(responses) == Err::<String, PentaractError>(
            PentaractError::WorkerUnavailable,
        ) && acquisition_wait_secs(responses) == MAX_WAIT_SECS),
        acquisition_result(responses) is Err ==> acquisition_wait_secs(responses) == MAX_WAIT_SECS,
        acquisition_result(responses) is Ok ==> acquisition_wait_secs(responses) < MAX_WAIT_SECS,
{
    if forall|i: int| 0 <= i < MAX_WAIT_SECS ==> responses[i] is None {
        lemma_first_grant_all_none(responses, MAX_WAIT_SECS as int);
    }
    lemma_first_grant_range(responses, MAX_WAIT_SECS as int);
}

/// When every poll within the budget fails, no first success exists.
proof fn lemma_first_grant_all_none(responses: Seq<Option<String>>, bound: int)
    requires
        bound <= responses.len(),
        forall|i: int| 0 <= i < bound ==> responses[i] is None,
    ensures
        first_grant(responses, bound) == -1,
    decreases bound,
{
    if bound > 0 {
        assert(responses[0] is None);
        assert(forall|i: int|
            0 <= i < bound - 1 ==> responses.drop_first()[i] == responses[i + 1]);
        lemma_first_grant_all_none(responses.drop_first(), bound - 1);
    }
}

/// A first success, where one exists, lies within the budget and really is a
/// successful poll.
proof fn lemma_first_grant_range(responses: Seq<Option<String>>, bound: int)
    requires
        bound <= responses.len(),
    ensures
        first_grant(responses, bound) >= 0 ==> (first_grant(responses, bound) < bound && responses[first_grant(
            responses,
            bound,
        )] is Some),
    decreases bound,
{
    if bound > 0 && responses[0] is None {
        lemma_first_grant_range(responses.drop_first(), bound - 1);
        let rest = first_grant(responses.drop_first(), bound - 1);
        if rest >= 0 {
            assert(responses.drop_first()[rest] == responses[rest + 1]);
        }
    }
}

} // verus!
