use datagram_bench::handshake::{admission, handshake_limit, take_up, Admission, MAX_PERMITS};
use tokio::sync::{Semaphore, TryAcquireError};

#[test]
fn a_limit_has_as_many_permits() {
    assert!(handshake_limit(None).is_none());
    assert_eq!(handshake_limit(Some(3)).unwrap().available_permits(), 3);
    assert_eq!(
        handshake_limit(Some(MAX_PERMITS)).unwrap().available_permits(),
        MAX_PERMITS
    );
    assert_eq!(MAX_PERMITS, Semaphore::MAX_PERMITS);
}

#[test]
fn handshakes_stay_within_the_limit() {
    let limit = handshake_limit(Some(2));
    let first = take_up(&limit);
    let second = take_up(&limit);
    assert!(matches!(first, Admission::Handshake(Some(_))));
    assert!(matches!(second, Admission::Handshake(Some(_))));
    assert!(matches!(take_up(&limit), Admission::Ignore));
    assert!(matches!(take_up(&limit), Admission::Ignore));
    drop(first);
    let third = take_up(&limit);
    assert!(matches!(third, Admission::Handshake(Some(_))));
    assert!(matches!(take_up(&limit), Admission::Ignore));
    drop(second);
    drop(third);
    assert_eq!(limit.unwrap().available_permits(), 2);
}

#[test]
fn every_attempt_is_taken_up_without_a_limit() {
    for _ in 0..1000 {
        assert!(matches!(take_up(&None), Admission::Handshake(None)));
    }
}

#[test]
fn only_a_missing_permit_turns_an_attempt_away() {
    assert!(matches!(admission(None), Admission::Handshake(None)));
    assert!(matches!(
        admission(Some(Err(TryAcquireError::NoPermits))),
        Admission::Ignore
    ));
    assert!(matches!(
        admission(Some(Err(TryAcquireError::Closed))),
        Admission::Ignore
    ));
    let limit = handshake_limit(Some(1)).unwrap();
    let permit = limit.clone().try_acquire_owned();
    let decision = admission(Some(permit));
    assert!(matches!(decision, Admission::Handshake(Some(_))));
    assert_eq!(limit.available_permits(), 0);
    drop(decision);
    assert_eq!(limit.available_permits(), 1);
}
