//! A limit on how many handshakes the server carries out at a time.

use std::sync::Arc;
use tokio::sync::{OwnedSemaphorePermit, Semaphore, TryAcquireError};
use vstd::prelude::*;

verus! {

/// The largest limit that a [`Semaphore`] takes.
pub const MAX_PERMITS: usize = usize::MAX / 8;

/// The milliseconds that no attempt is taken up for after one was ignored.
pub const IGNORE_PAUSE_MILLIS: u64 = 1;

/// [`tokio::sync::Semaphore`].
#[verifier::external_type_specification]
#[verifier::external_body]
pub struct ExSemaphore(tokio::sync::Semaphore);

/// [`tokio::sync::OwnedSemaphorePermit`].
#[verifier::external_type_specification]
#[verifier::external_body]
pub struct ExOwnedSemaphorePermit(tokio::sync::OwnedSemaphorePermit);

/// [`tokio::sync::TryAcquireError`].
#[verifier::external_type_specification]
#[verifier::external_body]
pub struct ExTryAcquireError(tokio::sync::TryAcquireError);

/// The permits that a [`Semaphore`] was made with.
pub uninterp spec fn made_with(semaphore: Semaphore) -> nat;

/// The [`Semaphore`] that a permit goes back to once it is dropped.
pub uninterp spec fn permit_source(permit: OwnedSemaphorePermit) -> Semaphore;

/// `Semaphore::new` makes a semaphore with the given number of permits. It panics
/// on more than [`MAX_PERMITS`].
#[verifier::external_body]
fn semaphore(permits: usize) -> (semaphore: Semaphore)
    requires
        permits <= MAX_PERMITS,
    ensures
        made_with(semaphore) == permits,
{
    Semaphore::new(permits)
}

/// `Semaphore::try_acquire_owned` hands out a permit of the semaphore if one is left,
/// without waiting for one. Whether one is left depends on what other tasks hold at
/// that moment, so nothing is said of when the call succeeds.
#[verifier::external_body]
fn try_permit(semaphore: &Arc<Semaphore>) -> (r: Result<OwnedSemaphorePermit, TryAcquireError>)
    ensures
        r matches Ok(permit) ==> permit_source(permit) == **semaphore,
{
    Arc::clone(semaphore).try_acquire_owned()
}

/// The permits for handshakes, as many as may go on at a time; none without a limit.
pub fn handshake_limit(max_concurrent_handshakes: Option<usize>) -> (limit: Option<Arc<Semaphore>>)
    requires
        max_concurrent_handshakes matches Some(n) ==> n <= MAX_PERMITS,
    ensures
        match max_concurrent_handshakes {
            Some(n) => limit matches Some(permits) && made_with(*permits) == n,
            None => limit is None,
        },
{
    match max_concurrent_handshakes {
        Some(n) => Some(Arc::new(semaphore(n))),
        None => None,
    }
}

/// What becomes of an incoming connection attempt.
pub enum Admission {
    /// Start a task for the handshake, which holds the permit until its end where
    /// handshakes are limited.
    Handshake(Option<OwnedSemaphorePermit>),
    /// Ignore the attempt and sleep for [`IGNORE_PAUSE_MILLIS`].
    Ignore,
}

/// Whether an attempt is taken up. `permit` says whether a permit for one more
/// handshake was to be had, and is none where handshakes are not limited.
pub open spec fn admitted(permit: Option<bool>) -> bool {
    permit != Some(false)
}

/// Decides on an incoming connection attempt by what came of asking for a permit;
/// none was asked for where handshakes are not limited.
pub fn admission(
    asked: Option<Result<OwnedSemaphorePermit, TryAcquireError>>,
) -> (decision: Admission)
    ensures
        decision == match asked {
            None => Admission::Handshake(None),
            Some(Ok(permit)) => Admission::Handshake(Some(permit)),
            Some(Err(_)) => Admission::Ignore,
        },
        decision is Handshake <==> admitted(
            match asked {
                None => None,
                Some(r) => Some(r is Ok),
            },
        ),
{
    match asked {
        None => Admission::Handshake(None),
        Some(Ok(permit)) => Admission::Handshake(Some(permit)),
        Some(Err(_)) => Admission::Ignore,
    }
}

/// A request for a permit was answered in this way.
pub closed spec fn answered(
    permits: Arc<Semaphore>,
    answer: Result<OwnedSemaphorePermit, TryAcquireError>,
) -> bool {
    call_ensures(try_permit, (&permits,), answer)
}

/// Asks for a permit, once, and decides by the answer.
fn decide<F: FnOnce(&Arc<Semaphore>) -> Result<OwnedSemaphorePermit, TryAcquireError>>(
    ask: F,
    permits: &Arc<Semaphore>,
) -> (decision: Admission)
    requires
        call_requires(ask, (permits,)),
    ensures
        exists|answer: Result<OwnedSemaphorePermit, TryAcquireError>| #[trigger]
            call_ensures(ask, (permits,), answer) && decision == match answer {
                Ok(permit) => Admission::Handshake(Some(permit)),
                Err(_) => Admission::Ignore,
            },
{
    admission(Some(ask(permits)))
}

/// Decides on an incoming connection attempt: without a limit it is taken up, and
/// with one it is taken up with a permit of that limit or ignored. It is ignored only
/// where a request for a permit was refused, and taken up with the very permit that was
/// granted.
pub fn take_up(limit: &Option<Arc<Semaphore>>) -> (decision: Admission)
    ensures
        match *limit {
            None => decision == Admission::Handshake(None),
            Some(permits) => decision is Ignore || (decision matches Admission::Handshake(
                Some(permit),
            ) && permit_source(permit) == *permits),
        },
        *limit matches Some(permits) ==> exists|
            answer: Result<OwnedSemaphorePermit, TryAcquireError>,
        | #[trigger]
            answered(permits, answer) && decision == match answer {
                Ok(permit) => Admission::Handshake(Some(permit)),
                Err(_) => Admission::Ignore,
            },
{
    match limit {
        None => admission(None),
        Some(permits) => {
            let decision = decide(try_permit, permits);
            assert(exists|answer: Result<OwnedSemaphorePermit, TryAcquireError>| #[trigger]
                answered(*permits, answer) && decision == match answer {
                    Ok(permit) => Admission::Handshake(Some(permit)),
                    Err(_) => Admission::Ignore,
                }) by {
                let answer = choose|answer: Result<OwnedSemaphorePermit, TryAcquireError>| #[trigger]
                    call_ensures(try_permit, (permits,), answer) && decision == match answer {
                        Ok(permit) => Admission::Handshake(Some(permit)),
                        Err(_) => Admission::Ignore,
                    };
                assert(answered(*permits, answer));
            }
            decision
        },
    }
}

/// A permit that was granted on a request is one of the limit that was asked.
pub proof fn law_granted_permits_belong_to_the_limit(
    permits: Arc<Semaphore>,
    permit: OwnedSemaphorePermit,
)
    requires
        answered(permits, Ok(permit)),
    ensures
        permit_source(permit) == *permits,
{
}

} // verus!
