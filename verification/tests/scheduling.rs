use pentaract::errors::PentaractError;
use pentaract::limiter::RateLimiter;
use pentaract::scheduler::{StorageWorkersScheduler, TokenDecision};

#[test]
fn no_worker_fails_after_whole_budget() {
    let scheduler = StorageWorkersScheduler::new(4);
    let responses: Vec<Option<String>> = vec![None; 60];
    let (waited, result) = scheduler.run_token_acquisition(&responses);
    assert_eq!(waited, 60);
    assert!(matches!(result, Err(PentaractError::WorkerUnavailable)));
}

#[test]
fn token_granted_as_soon_as_one_is_free() {
    let scheduler = StorageWorkersScheduler::new(4);
    let mut responses: Vec<Option<String>> = vec![None; 60];
    responses[5] = Some("tok-5".to_string());
    responses[9] = Some("tok-9".to_string());
    let (waited, result) = scheduler.run_token_acquisition(&responses);
    assert_eq!(waited, 5);
    assert!(matches!(result, Ok(ref t) if t == "tok-5"));
}

#[test]
fn poll_decisions() {
    let scheduler = StorageWorkersScheduler::new(2);
    assert!(matches!(
        scheduler.decide_poll(0, Some("tok".to_string())),
        TokenDecision::Granted(ref t) if t == "tok"
    ));
    assert!(matches!(
        scheduler.decide_poll(59, None),
        TokenDecision::Wait { delay_secs: 1 }
    ));
    assert!(matches!(scheduler.decide_poll(60, None), TokenDecision::TimedOut));
    assert!(matches!(
        scheduler.decide_poll(61, Some("tok".to_string())),
        TokenDecision::TimedOut
    ));
}

#[test]
fn scheduler_keeps_its_rate() {
    let scheduler = StorageWorkersScheduler::new(7);
    assert_eq!(scheduler.usage_bound(), 7);
}

#[test]
fn limiter_never_admits_past_the_bound() {
    let mut limiter = RateLimiter::new(2);
    assert!(limiter.try_acquire());
    assert!(limiter.try_acquire());
    assert!(!limiter.try_acquire());
    limiter.release();
    assert!(limiter.try_acquire());
    assert!(!limiter.try_acquire());
}

#[test]
fn limiter_with_zero_bound_admits_nothing() {
    let mut limiter = RateLimiter::new(0);
    assert!(!limiter.try_acquire());
    limiter.release();
    assert!(!limiter.try_acquire());
}
