use ddns_core::limiter::Limiter;

#[test]
fn the_limit_is_never_exceeded() {
    // Concurrency limit 2, five providers wanting a slot: an
    // instrumented walk through an arbitrary interleaving never sees
    // more than 2 slots held.
    let mut l = Limiter::new(2);
    let mut max_seen: usize = 0;
    let mut held: usize = 0;
    let mut waiting: usize = 5;
    let mut done: usize = 0;
    while done < 5 {
        if waiting > 0 && l.try_acquire() {
            waiting -= 1;
            held += 1;
        } else {
            assert!(held > 0);
            l.release();
            held -= 1;
            done += 1;
        }
        if l.in_flight > max_seen {
            max_seen = l.in_flight;
        }
        assert!(l.in_flight <= 2);
        assert_eq!(l.in_flight, held);
    }
    assert_eq!(max_seen, 2);
}

#[test]
fn acquire_fails_exactly_at_the_limit() {
    let mut l = Limiter::new(3);
    assert!(l.try_acquire());
    assert!(l.try_acquire());
    assert!(l.try_acquire());
    assert!(!l.try_acquire());
    assert_eq!(l.in_flight, 3);
    l.release();
    assert!(l.try_acquire());
    assert_eq!(l.in_flight, 3);
}
