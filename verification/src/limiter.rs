//! A limit on how many connections are attempted or open at a time.

use vstd::prelude::*;

verus! {

/// How many slots there are and how many of them are taken.
pub struct LimiterState {
    /// The number of slots, zero for no limit.
    pub target: usize,
    /// The slots that are taken.
    pub active: usize,
}

impl LimiterState {
    /// The state with one more slot taken; without a limit the count starts over
    /// behind its largest value.
    pub open spec fn reserved(self) -> LimiterState {
        LimiterState { active: self.active.wrapping_add(1), ..self }
    }

    /// The state with one slot fewer taken; the count goes on at its largest value
    /// below zero.
    pub open spec fn released(self) -> LimiterState {
        LimiterState { active: self.active.wrapping_sub(1), ..self }
    }

    /// Whether a slot is free.
    pub open spec fn has_room(self) -> bool {
        self.target == 0 || self.active < self.target
    }

    /// No more slots are taken than there are.
    pub open spec fn within_target(self) -> bool {
        self.target == 0 || self.active <= self.target
    }
}

/// Hands out slots for connections.
pub struct ConnectionLimiter {
    target_connections: usize,
    active_connections: usize,
}

impl View for ConnectionLimiter {
    type V = LimiterState;

    closed spec fn view(&self) -> LimiterState {
        LimiterState { target: self.target_connections, active: self.active_connections }
    }
}

impl ConnectionLimiter {
    /// A limiter with all its slots free; a target of zero sets no limit.
    pub fn new(target_connections: usize) -> (limiter: ConnectionLimiter)
        ensures
            limiter@ == (LimiterState { target: target_connections, active: 0 }),
    {
        ConnectionLimiter { target_connections, active_connections: 0 }
    }

    /// Takes a slot if one is free.
    pub fn try_reserve(&mut self) -> (reserved: bool)
        ensures
            reserved == old(self)@.has_room(),
            final(self)@ == if reserved {
                old(self)@.reserved()
            } else {
                old(self)@
            },
    {
        if self.target_connections == 0 {
            self.active_connections = self.active_connections.wrapping_add(1);
            return true;
        }
        if self.active_connections < self.target_connections {
            self.active_connections = self.active_connections + 1;
            true
        } else {
            false
        }
    }

    /// Gives a slot back.
    pub fn release(&mut self)
        ensures
            final(self)@ == old(self)@.released(),
    {
        self.active_connections = self.active_connections.wrapping_sub(1);
    }
}

/// A slot that was taken and given back leaves the limiter as it was.
pub proof fn law_release_undoes_reserve(limiter: LimiterState)
    ensures
        limiter.reserved().released() == limiter,
{
}

/// Taking a free slot never takes more slots than there are.
pub proof fn law_reserve_stays_within_target(limiter: LimiterState)
    requires
        limiter.within_target(),
        limiter.has_room(),
    ensures
        limiter.reserved().within_target(),
        limiter.target != 0 ==> limiter.reserved().active == limiter.active + 1,
{
}

/// Giving back a slot that was taken frees exactly that one.
pub proof fn law_release_makes_room(limiter: LimiterState)
    requires
        limiter.within_target(),
        limiter.active > 0,
    ensures
        limiter.released().within_target(),
        limiter.released().has_room(),
        limiter.released().active == limiter.active - 1,
{
}

/// Without a limit there is always room, and with one there is while fewer slots are
/// taken than there are.
pub proof fn law_room(limiter: LimiterState)
    ensures
        limiter.target == 0 ==> limiter.has_room(),
        limiter.target > 0 ==> (limiter.has_room() <==> limiter.active < limiter.target),
        limiter.reserved().target == limiter.target,
        limiter.released().target == limiter.target,
{
}

} // verus!
