use datagram_bench::ConnectionLimiter;

#[test]
fn slots_run_out_at_the_target() {
    let mut limiter = ConnectionLimiter::new(2);
    assert!(limiter.try_reserve());
    assert!(limiter.try_reserve());
    assert!(!limiter.try_reserve());
    assert!(!limiter.try_reserve());
}

#[test]
fn a_released_slot_can_be_taken_again() {
    let mut limiter = ConnectionLimiter::new(1);
    assert!(limiter.try_reserve());
    assert!(!limiter.try_reserve());
    limiter.release();
    assert!(limiter.try_reserve());
    assert!(!limiter.try_reserve());
}

#[test]
fn a_target_of_zero_is_no_limit() {
    let mut limiter = ConnectionLimiter::new(0);
    for _ in 0..10_000 {
        assert!(limiter.try_reserve());
    }
}

#[test]
fn releasing_a_free_slot_leaves_none_until_it_is_taken_back() {
    let mut limiter = ConnectionLimiter::new(3);
    limiter.release();
    assert!(!limiter.try_reserve());
}
