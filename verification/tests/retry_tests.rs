use ddns_core::retry::{backoff_wait, run_retry, RetryDecision, RetryState};

#[test]
fn backoff_doubles_from_ten_seconds() {
    assert_eq!(backoff_wait(1), 10);
    assert_eq!(backoff_wait(2), 20);
    assert_eq!(backoff_wait(3), 40);
    assert_eq!(backoff_wait(4), 80);
    assert_eq!(backoff_wait(5), 160);
}

#[test]
fn an_always_failing_provider_is_attempted_six_times() {
    let results = vec![false; 6];
    let out = run_retry(&results);
    assert!(!out.success);
    assert_eq!(out.attempts, 6);
    assert_eq!(out.waits, vec![10, 20, 40, 80, 160]);
    for w in out.waits.windows(2) {
        assert!(w[0] < w[1]);
        assert_eq!(w[1], 2 * w[0]);
    }
}

#[test]
fn two_failures_then_success_makes_three_attempts() {
    let results = vec![false, false, true, false, false, false];
    let out = run_retry(&results);
    assert!(out.success);
    assert_eq!(out.attempts, 3);
    assert_eq!(out.waits, vec![10, 20]);
}

#[test]
fn immediate_success_makes_one_attempt_and_no_wait() {
    let results = vec![true, false, false, false, false, false];
    let out = run_retry(&results);
    assert!(out.success);
    assert_eq!(out.attempts, 1);
    assert!(out.waits.is_empty());
}

#[test]
fn a_success_on_the_last_allowed_attempt_still_counts() {
    let results = vec![false, false, false, false, false, true];
    let out = run_retry(&results);
    assert!(out.success);
    assert_eq!(out.attempts, 6);
    assert_eq!(out.waits, vec![10, 20, 40, 80, 160]);
}

#[test]
fn the_step_machine_walks_the_backoff_sequence() {
    let mut st = RetryState::new();
    assert!(matches!(st.on_result(false), RetryDecision::Backoff(10)));
    assert!(matches!(st.on_result(false), RetryDecision::Backoff(20)));
    assert!(matches!(st.on_result(false), RetryDecision::Backoff(40)));
    assert!(matches!(st.on_result(false), RetryDecision::Backoff(80)));
    assert!(matches!(st.on_result(false), RetryDecision::Backoff(160)));
    assert!(matches!(st.on_result(false), RetryDecision::GiveUp));
}

#[test]
fn the_step_machine_stops_on_success() {
    let mut st = RetryState::new();
    assert!(matches!(st.on_result(false), RetryDecision::Backoff(10)));
    assert!(matches!(st.on_result(true), RetryDecision::Done));
}
