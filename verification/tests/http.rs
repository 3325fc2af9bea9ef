use memo_node::api::http::{
    is_success, AttemptOutcome, PostFailure, RetryDecision, RetryPolicy, MAX_RETRIES,
    REQUEST_TIMEOUT_SECS,
};

#[test]
fn success_ends_the_post() {
    let mut policy = RetryPolicy::new();
    assert_eq!(policy.on_outcome(AttemptOutcome::Status(200)), RetryDecision::Done);
    assert_eq!(policy.retry_count(), 0);
    assert_eq!(policy.on_outcome(AttemptOutcome::Status(204)), RetryDecision::Done);
}

#[test]
fn failures_are_retried_after_one_two_and_four_seconds() {
    let mut policy = RetryPolicy::new();
    assert_eq!(
        policy.on_outcome(AttemptOutcome::Status(500)),
        RetryDecision::RetryAfter { delay_secs: 1, retry: 1 }
    );
    assert_eq!(
        policy.on_outcome(AttemptOutcome::TransportError),
        RetryDecision::RetryAfter { delay_secs: 2, retry: 2 }
    );
    assert_eq!(
        policy.on_outcome(AttemptOutcome::Status(404)),
        RetryDecision::RetryAfter { delay_secs: 4, retry: 3 }
    );
    assert_eq!(policy.retry_count(), MAX_RETRIES);
    assert_eq!(
        policy.on_outcome(AttemptOutcome::Status(503)),
        RetryDecision::GiveUp(PostFailure::Status(503))
    );
    assert_eq!(policy.retry_count(), 3);
    assert_eq!(
        policy.on_outcome(AttemptOutcome::TransportError),
        RetryDecision::GiveUp(PostFailure::Transport)
    );
}

#[test]
fn success_after_retries_ends_the_post() {
    let mut policy = RetryPolicy::new();
    let _ = policy.on_outcome(AttemptOutcome::TransportError);
    let _ = policy.on_outcome(AttemptOutcome::TransportError);
    assert_eq!(policy.on_outcome(AttemptOutcome::Status(201)), RetryDecision::Done);
    assert_eq!(policy.retry_count(), 2);
}

#[test]
fn only_the_two_hundreds_are_success() {
    assert!(is_success(200));
    assert!(is_success(299));
    assert!(!is_success(199));
    assert!(!is_success(300));
    assert!(!is_success(0));
    assert!(!is_success(500));
}

#[test]
fn three_retries_and_thirty_seconds() {
    assert_eq!(MAX_RETRIES, 3);
    assert_eq!(REQUEST_TIMEOUT_SECS, 30);
}
