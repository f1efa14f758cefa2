//! Decisions of the retrying remote-transfer client.
//!
//! One logical remote operation makes up to four attempts. A throttling
//! response triggers an exponential backoff and a retry with a freshly
//! acquired credential; any other error is terminal. The functions here are
//! the decision core of that loop: the surrounding code performs the network
//! calls and sleeps, and feeds each attempt's outcome back in.

use vstd::arithmetic::power2::{lemma2_to64, pow2};
use vstd::prelude::*;

use crate::errors::{PentaractError, PentaractResult};

verus! {

/// How many retries one logical remote operation makes beyond its first
/// attempt.
pub const MAX_RETRIES: u32 = 3;

/// How a response status is acted on: `Throttled` is retried with backoff,
/// `Fatal` is returned immediately, `Success` ends the operation.
pub enum ResponseClass {
    Success,
    Throttled,
    Fatal,
}

/// A response signals throttling exactly when its status is 429.
pub open spec fn spec_is_throttle(status: u16) -> bool {
    status == 429
}

/// A response is an error (other than throttling) exactly when its status is
/// in the client-error or server-error range.
pub open spec fn spec_is_fatal(status: u16) -> bool {
    400 <= status && !spec_is_throttle(status)
}

/// Classifies one HTTP status: 429 is throttling, any other error status is
/// fatal, everything else is success.
pub fn classify_response(status: u16) -> (r: ResponseClass)
    ensures
        r is Throttled <==> spec_is_throttle(status),
        r is Fatal <==> spec_is_fatal(status),
        r is Success <==> (status < 400),
{
    if status == 429 {
        ResponseClass::Throttled
    } else if status >= 400 {
        ResponseClass::Fatal
    } else {
        ResponseClass::Success
    }
}

/// What one attempt of a remote operation came to. `Throttled` carries a
/// description of the throttling condition; `Fatal` carries the terminal
/// error.
pub enum AttemptOutcome<T> {
    Success(T),
    Throttled(String),
    Fatal(PentaractError),
}

/// What the retry loop does after one attempt: sleep and try again, or stop
/// with the operation's result.
pub enum RetryDecision<T> {
    Backoff { delay_secs: u64 },
    Finished(PentaractResult<T>),
}

/// The exponential backoff before retry `attempt`: `2^(attempt - 1)` seconds,
/// so 1s, 2s, 4s.
pub open spec fn spec_backoff_delay(attempt: int) -> u64
    recommends
        1 <= attempt <= MAX_RETRIES,
{
    pow2((attempt - 1) as nat) as u64
}

/// The seconds slept before retry `attempt`: `2^(attempt - 1)`.
pub fn backoff_delay_secs(attempt: u32) -> (d: u64)
    requires
        1 <= attempt <= MAX_RETRIES,
    ensures
        d == spec_backoff_delay(attempt as int),
{
    proof {
        lemma2_to64();
    }
    if attempt == 1 {
        1
    } else if attempt == 2 {
        2
    } else {
        4
    }
}

/// Decides the retry loop's next move after attempt `attempt` (0-based, so
/// attempt 0 is the first try) came to `outcome`. A success or a fatal error
/// ends the operation at once; a throttling response backs off and retries
/// until the retry budget is spent, and then surfaces as a terminal remote
/// API error carrying the last observed condition.
pub fn retry_step<T>(attempt: u32, outcome: AttemptOutcome<T>) -> (d: RetryDecision<T>)
    requires
        attempt <= MAX_RETRIES,
    ensures
        outcome matches AttemptOutcome::Success(v) ==> d == RetryDecision::Finished(
            Ok::<T, PentaractError>(v),
        ),
        outcome matches AttemptOutcome::Fatal(e) ==> d == RetryDecision::Finished(
            Err::<T, PentaractError>(e),
        ),
        outcome matches AttemptOutcome::Throttled(m) ==> d == (if attempt < MAX_RETRIES {
            (RetryDecision::Backoff { delay_secs: spec_backoff_delay(attempt + 1) })
        } else {
            RetryDecision::Finished(Err::<T, PentaractError>(PentaractError::TelegramAPIError(m)))
        }),
{
    match outcome {
        AttemptOutcome::Success(v) => RetryDecision::Finished(Ok(v)),
        AttemptOutcome::Fatal(e) => RetryDecision::Finished(Err(e)),
        AttemptOutcome::Throttled(m) => {
            if attempt < MAX_RETRIES {
                RetryDecision::Backoff { delay_secs: backoff_delay_secs(attempt + 1) }
            } else {
                RetryDecision::Finished(Err(PentaractError::TelegramAPIError(m)))
            }
        },
    }
}

/// The backoff delays a retry loop sleeps, given what each attempt would come
/// to, from attempt `attempt` on.
pub open spec fn spec_retry_delays<T>(outcomes: Seq<AttemptOutcome<T>>, attempt: int) -> Seq<u64>
    recommends
        0 <= attempt <= MAX_RETRIES,
        outcomes.len() > MAX_RETRIES,
    decreases MAX_RETRIES + 1 - attempt,
{
    if !(0 <= attempt <= MAX_RETRIES) {
        Seq::empty()
    } else {
        match outcomes[attempt] {
            AttemptOutcome::Throttled(m) => if attempt < MAX_RETRIES {
                seq![spec_backoff_delay(attempt + 1)] + spec_retry_delays(outcomes, attempt + 1)
            } else {
                Seq::empty()
            },
            _ => Seq::empty(),
        }
    }
}

/// The result a retry loop ends with, given what each attempt would come to,
/// from attempt `attempt` on.
pub open spec fn spec_retry_result<T>(outcomes: Seq<AttemptOutcome<T>>, attempt: int) -> PentaractResult<T>
    recommends
        0 <= attempt <= MAX_RETRIES,
        outcomes.len() > MAX_RETRIES,
    decreases MAX_RETRIES + 1 - attempt,
{
    if !(0 <= attempt <= MAX_RETRIES) {
        arbitrary()
    } else {
        match outcomes[attempt] {
            AttemptOutcome::Success(v) => Ok(v),
            AttemptOutcome::Fatal(e) => Err(e),
            AttemptOutcome::Throttled(m) => if attempt < MAX_RETRIES {
                spec_retry_result(outcomes, attempt + 1)
            } else {
                Err(PentaractError::TelegramAPIError(m))
            },
        }
    }
}

/// Runs a whole retry loop against a prescribed sequence of attempt outcomes
/// and returns the backoff delays it slept and the result it ended with. This
/// is the retry loop under a controllable clock: the caller that talks to the
/// real remote service replays the same decisions one attempt at a time.
pub fn run_retry_transcript<T>(outcomes: Vec<AttemptOutcome<T>>) -> (r: (
    Vec<u64>,
    PentaractResult<T>,
))
    requires
        outcomes@.len() > MAX_RETRIES,
    ensures
        r.0@ == spec_retry_delays(outcomes@, 0),
        r.1 == spec_retry_result(outcomes@, 0),
{
    let ghost all = outcomes@;
    let mut rest = outcomes;
    let mut delays: Vec<u64> = Vec::new();
    let mut attempt: u32 = 0;
    proof {
        assert(delays@ + spec_retry_delays(all, 0) =~= spec_retry_delays(all, 0));
    }
    while attempt <= MAX_RETRIES
        invariant
            all == outcomes@,
            0 <= attempt <= MAX_RETRIES,
            all.len() > MAX_RETRIES,
            rest@ == all.skip(attempt as int),
            spec_retry_delays(all, 0) == delays@ + spec_retry_delays(all, attempt as int),
            spec_retry_result(all, 0) == spec_retry_result(all, attempt as int),
        decreases MAX_RETRIES - attempt,
    {
        let ghost j = attempt as int;
        let oc = rest.remove(0);
        assert(oc == all[j]);
        proof {
            assert(rest@ =~= all.skip(j + 1));
        }
        match retry_step(attempt, oc) {
            RetryDecision::Finished(res) => {
                proof {
                    assert(spec_retry_delays(all, j) =~= Seq::<u64>::empty());
                    assert(delays@ + Seq::<u64>::empty() =~= delays@);
                }
                return (delays, res);
            },
            RetryDecision::Backoff { delay_secs } => {
                proof {
                    if attempt == MAX_RETRIES {
                        assert(false);
                    }
                    assert(spec_retry_delays(all, j) == seq![spec_backoff_delay(j + 1)]
                        + spec_retry_delays(all, j + 1));
                    assert(delays@ + spec_retry_delays(all, j) =~= delays@.push(
                        spec_backoff_delay(j + 1),
                    ) + spec_retry_delays(all, j + 1));
                }
                delays.push(delay_secs);
                attempt = attempt + 1;
            },
        }
    }
    proof {
        assert(false);
    }
    vstd::pervasive::unreached()
}

/// A throttling response on every attempt causes exactly the full retry
/// budget of retries, with backoff delays of 1s, 2s and 4s, and then surfaces
/// as a terminal remote API error carrying the last observed condition.
pub proof fn lemma_throttle_exhausts_retries<T>(outcomes: Seq<AttemptOutcome<T>>)
    requires
        outcomes.len() > MAX_RETRIES,
        forall|i: int| 0 <= i <= MAX_RETRIES ==> outcomes[i] is Throttled,
    ensures
        spec_retry_delays(outcomes, 0) == seq![1u64, 2u64, 4u64],
        spec_retry_result(outcomes, 0) == Err::<T, PentaractError>(
            PentaractError::TelegramAPIError(outcomes[MAX_RETRIES as int]->Throttled_0),
        ),
{
    lemma2_to64();
    assert(outcomes[0] is Throttled);
    assert(outcomes[1] is Throttled);
    assert(outcomes[2] is Throttled);
    assert(outcomes[3] is Throttled);
    assert(spec_backoff_delay(1) == 1 && spec_backoff_delay(2) == 2 && spec_backoff_delay(3) == 4);
    assert(spec_retry_delays(outcomes, 3) =~= Seq::<u64>::empty());
    assert(spec_retry_delays(outcomes, 2) =~= seq![4u64]);
    assert(spec_retry_delays(outcomes, 1) =~= seq![2u64, 4u64]);
    assert(spec_retry_delays(outcomes, 0) =~= seq![1u64, 2u64, 4u64]);
    assert(spec_retry_result(outcomes, 3) == Err::<T, PentaractError>(
        PentaractError::TelegramAPIError(outcomes[3]->Throttled_0),
    ));
    assert(spec_retry_result(outcomes, 2) == spec_retry_result(outcomes, 3));
    assert(spec_retry_result(outcomes, 1) == spec_retry_result(outcomes, 2));
    assert(spec_retry_result(outcomes, 0) == spec_retry_result(outcomes, 1));
}

/// The numeric identifier of a destination channel.
pub type ChatId = i64;

/// The largest magnitude of a channel id the transform accepts; beyond it the
/// rewritten id would leave the id type's range.
pub const CHAT_ID_BOUND: i64 = 9_999_999_999_999_999;

/// Ten to the `k`.
pub open spec fn spec_pow10(k: nat) -> nat
    decreases k,
{
    if k == 0 {
        1
    } else {
        10 * spec_pow10((k - 1) as nat)
    }
}

/// How many decimal digits `n` has; 0 counts as one digit.
pub open spec fn spec_digits(n: int) -> nat
    recommends
        n >= 0,
    decreases n,
{
    if n < 10 {
        1
    } else {
        1 + spec_digits(n / 10)
    }
}

proof fn lemma_pow10_mono(a: nat, b: nat)
    requires
        a <= b,
    ensures
        spec_pow10(a) <= spec_pow10(b),
    decreases b,
{
    if a < b {
        lemma_pow10_mono(a, (b - 1) as nat);
    }
}

proof fn lemma_pow10_16()
    ensures
        spec_pow10(16) == 10_000_000_000_000_000,
{
    reveal_with_fuel(spec_pow10, 17);
}

/// A number below `10^k` has at most `k` digits.
proof fn lemma_digits_below_pow10(n: int, k: nat)
    requires
        0 <= n < spec_pow10(k),
        k >= 1,
    ensures
        spec_digits(n) <= k,
    decreases k,
{
    if n >= 10 {
        assert(spec_pow10(k) == 10 * spec_pow10((k - 1) as nat));
        if k == 1 {
            assert(spec_pow10(0nat) == 1);
            assert(false);
        }
        assert(n / 10 < spec_pow10((k - 1) as nat)) by (nonlinear_arith)
            requires
                n >= 10,
                n < 10 * spec_pow10((k - 1) as nat);
        lemma_digits_below_pow10(n / 10, (k - 1) as nat);
    }
}

/// Rewrites a destination channel id as the remote protocol's internal form:
/// the marker digits `100` are inserted between the id's sign and its decimal
/// digits. The magnitude grows by `100 * 10^d`, where `d` is the digit count
/// of the magnitude, and the sign is kept: a negative id shrinks by that
/// amount, a non-negative id grows by it.
pub fn transform_chat_id(chat_id: ChatId) -> (r: ChatId)
    requires
        -CHAT_ID_BOUND <= chat_id <= CHAT_ID_BOUND,
    ensures
        chat_id < 0 ==> r == chat_id - 100 * spec_pow10(spec_digits(-(chat_id as int))),
        chat_id >= 0 ==> r == chat_id + 100 * spec_pow10(spec_digits(chat_id as int)),
{
    let a: i64 = if chat_id < 0 {
        -chat_id
    } else {
        chat_id
    };
    proof {
        lemma_pow10_16();
        lemma_digits_below_pow10(a as int, 16);
    }
    let mut m: i64 = a;
    let mut d: u32 = 1;
    while m >= 10
        invariant
            0 <= m <= a,
            a <= CHAT_ID_BOUND,
            d >= 1,
            spec_digits(a as int) == d - 1 + spec_digits(m as int),
            spec_digits(a as int) <= 16,
        decreases m,
    {
        m = m / 10;
        d = d + 1;
    }
    assert(spec_digits(m as int) == 1);
    assert(spec_digits(a as int) == d);
    let mut p: i64 = 1;
    let mut k: u32 = 0;
    while k < d
        invariant
            0 <= k <= d,
            d == spec_digits(a as int),
            d <= 16,
            p == spec_pow10(k as nat),
            p >= 1,
        decreases d - k,
    {
        proof {
            lemma_pow10_mono(k as nat, 15);
            reveal_with_fuel(spec_pow10, 17);
        }
        p = p * 10;
        k = k + 1;
    }
    proof {
        lemma_pow10_mono(d as nat, 16);
        lemma_pow10_16();
    }
    if chat_id < 0 {
        chat_id - 100 * p
    } else {
        chat_id + 100 * p
    }
}

} // verus!
