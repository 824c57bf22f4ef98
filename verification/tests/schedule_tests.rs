use ddns_core::schedule::{compute_next_tick, CronSchedule};

#[test]
fn a_valid_cron_expression_parses() {
    assert!(CronSchedule::new(&"0 30 9 * * *".to_string()).is_ok());
    assert!(CronSchedule::new(&"*/5 * * * * *".to_string()).is_ok());
}

#[test]
fn an_invalid_cron_expression_is_fatal() {
    let err = match CronSchedule::new(&"not a cron line".to_string()) {
        Ok(_) => panic!("a malformed expression must be rejected"),
        Err(e) => e,
    };
    assert_eq!(err.message(), "invalid cron expression");
}

#[test]
fn next_after_finds_the_next_hourly_tick() {
    // Seconds 1_000_000 into the epoch is 277h 46m 40s; the next
    // occurrence of "at minute 0, second 0 of every hour" is the
    // 278th hour boundary.
    let c = CronSchedule::new(&"0 0 * * * *".to_string()).unwrap();
    assert_eq!(c.next_after(1_000_000), Some(278 * 3600));
}

#[test]
fn next_after_is_strictly_after_an_exact_hit() {
    // From exactly an hour boundary, the next tick is the next hour.
    let c = CronSchedule::new(&"0 0 * * * *".to_string()).unwrap();
    assert_eq!(c.next_after(278 * 3600), Some(279 * 3600));
}

#[test]
fn one_shot_mode_has_no_next_tick() {
    assert_eq!(compute_next_tick(None, 1_000_000), None);
    let c = CronSchedule::new(&"0 0 * * * *".to_string()).unwrap();
    let next = compute_next_tick(Some(&c), 1_000_000);
    assert_eq!(next, Some(278 * 3600));
}
