use pentaract::errors::PentaractError;
use pentaract::telegram::{
    backoff_delay_secs, classify_response, run_retry_transcript, transform_chat_id, AttemptOutcome,
    ResponseClass,
};

#[test]
fn throttled_every_attempt_retries_three_times() {
    let outcomes: Vec<AttemptOutcome<u32>> = vec![
        AttemptOutcome::Throttled("429 on attempt 0".to_string()),
        AttemptOutcome::Throttled("429 on attempt 1".to_string()),
        AttemptOutcome::Throttled("429 on attempt 2".to_string()),
        AttemptOutcome::Throttled("429 on attempt 3".to_string()),
    ];
    let (delays, result) = run_retry_transcript(outcomes);
    assert_eq!(delays, vec![1, 2, 4]);
    assert!(matches!(
        result,
        Err(PentaractError::TelegramAPIError(ref m)) if m == "429 on attempt 3"
    ));
}

#[test]
fn success_on_first_attempt_never_waits() {
    let outcomes: Vec<AttemptOutcome<u32>> = vec![
        AttemptOutcome::Success(7),
        AttemptOutcome::Throttled("unused".to_string()),
        AttemptOutcome::Throttled("unused".to_string()),
        AttemptOutcome::Throttled("unused".to_string()),
    ];
    let (delays, result) = run_retry_transcript(outcomes);
    assert!(delays.is_empty());
    assert!(matches!(result, Ok(7)));
}

#[test]
fn fatal_error_is_not_retried() {
    let outcomes: Vec<AttemptOutcome<u32>> = vec![
        AttemptOutcome::Fatal(PentaractError::RemoteProtocolError("500".to_string())),
        AttemptOutcome::Success(1),
        AttemptOutcome::Success(1),
        AttemptOutcome::Success(1),
    ];
    let (delays, result) = run_retry_transcript(outcomes);
    assert!(delays.is_empty());
    assert!(matches!(
        result,
        Err(PentaractError::RemoteProtocolError(ref m)) if m == "500"
    ));
}

#[test]
fn success_after_one_throttle_waits_once() {
    let outcomes: Vec<AttemptOutcome<Vec<u8>>> = vec![
        AttemptOutcome::Throttled("429".to_string()),
        AttemptOutcome::Success(b"bytes".to_vec()),
        AttemptOutcome::Throttled("unused".to_string()),
        AttemptOutcome::Throttled("unused".to_string()),
    ];
    let (delays, result) = run_retry_transcript(outcomes);
    assert_eq!(delays, vec![1]);
    assert!(matches!(result, Ok(ref b) if b == &b"bytes".to_vec()));
}

#[test]
fn backoff_doubles_each_retry() {
    assert_eq!(backoff_delay_secs(1), 1);
    assert_eq!(backoff_delay_secs(2), 2);
    assert_eq!(backoff_delay_secs(3), 4);
}

#[test]
fn status_classification() {
    assert!(matches!(classify_response(429), ResponseClass::Throttled));
    assert!(matches!(classify_response(500), ResponseClass::Fatal));
    assert!(matches!(classify_response(404), ResponseClass::Fatal));
    assert!(matches!(classify_response(200), ResponseClass::Success));
    assert!(matches!(classify_response(301), ResponseClass::Success));
}

#[test]
fn chat_id_transform_inserts_marker_digits() {
    // The rewritten id reads: the sign, then "100", then the id's digits.
    assert_eq!(transform_chat_id(-1001234567890), -1001001234567890);
    assert_eq!(transform_chat_id(-42), -10042);
    assert_eq!(transform_chat_id(1234567890), 1001234567890);
    assert_eq!(transform_chat_id(42), 10042);
    assert_eq!(transform_chat_id(7), 1007);
    assert_eq!(transform_chat_id(0), 1000);
}
