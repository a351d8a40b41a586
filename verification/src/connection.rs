//! What the task of one client connection does, step by step.

use crate::client::Client;
#[allow(unused_imports)]
use crate::client::ClientState;
use crate::duration::NANOS_PER_SEC;
use vstd::prelude::*;

verus! {

/// The datagrams that a task sends without a pause before it lets others run.
pub const SENDS_PER_YIELD: usize = 1024;

/// The milliseconds after which a task that holds a connection looks whether the client
/// shuts down.
pub const HOLD_MILLIS: u64 = 1000;

/// The milliseconds after which a task asks again how large a datagram may be.
pub const LIMIT_WAIT_MILLIS: u64 = 10;

/// What a connection is used for.
#[derive(Clone, Copy, Debug, PartialEq, Eq, Structural)]
pub enum SendMode {
    /// Send datagrams, each once there is room for it.
    Wait,
    /// Send datagrams, dropping old ones where there is no room.
    Drop,
    /// Send nothing.
    Idle,
}

/// How a datagram is sent where there is no room for it.
#[derive(Clone, Copy, Debug, PartialEq, Eq, Structural)]
pub enum SendKind {
    /// Once there is room.
    WaitForRoom,
    /// At once, in place of the oldest ones that are still to be sent.
    DropOldest,
}

/// How the next datagram is sent.
#[derive(Clone, Copy, Debug, PartialEq, Eq, Structural)]
pub struct SendCall {
    /// The nanoseconds between the ticks of a clock whose next tick is waited for
    /// first; none to send without waiting for a tick.
    pub interval_nanos: Option<u64>,
    /// What happens where there is no room.
    pub kind: SendKind,
}

/// What the task does next.
#[derive(Clone, Copy, Debug, PartialEq, Eq, Structural)]
pub enum ConnectionAction {
    /// Wait until the connection is closed or [`HOLD_MILLIS`] are over.
    HoldSecond,
    /// Find out how large a datagram may be.
    ProbeLimit,
    /// Wait until the connection is closed or [`LIMIT_WAIT_MILLIS`] are over.
    WaitForLimit,
    /// Send a datagram.
    Send(SendCall),
    /// Let other tasks run.
    Yield,
    /// End.
    Finish,
}

/// What came of an action.
#[derive(Clone, Copy, Debug, PartialEq, Eq, Structural)]
pub enum ConnectionEvent {
    /// The connection is there.
    Started,
    /// The connection was closed during a wait.
    Closed,
    /// The wait is over.
    Elapsed,
    /// How large a datagram may be, where that is known.
    Limit(Option<usize>),
    /// Whether the datagram was sent.
    Sent(bool),
    /// Other tasks have run.
    Yielded,
}

/// What the task is waiting for.
#[derive(Clone, Copy, Debug, PartialEq, Eq, Structural)]
pub enum Phase {
    /// To be started.
    New,
    /// The end of a wait with nothing to send.
    Holding,
    /// The largest size of a datagram.
    Probing,
    /// The end of a wait for that size to be known.
    Waiting,
    /// The result of sending a datagram.
    Sending,
    /// Other tasks to have run.
    Yielding,
    /// Nothing more.
    Finished,
}

/// The task of one connection.
#[derive(Clone, Copy, Debug, PartialEq, Eq, Structural)]
pub struct ConnectionTask {
    /// What the connection is used for.
    pub mode: SendMode,
    /// The bytes in each datagram.
    pub payload_len: usize,
    /// The datagrams to send per second, zero for no given rate.
    pub pps: u64,
    /// What the task is waiting for.
    pub phase: Phase,
    /// The datagrams sent since other tasks last ran.
    pub since_yield: usize,
}

/// A step of a task: the task and the shared state after it, and what to do next.
pub struct Step {
    pub task: ConnectionTask,
    pub client: ClientState,
    pub action: ConnectionAction,
}

impl ConnectionTask {
    /// The task lets others run before it has sent more than its share, an idle task
    /// has nothing to do with sending, and a task that sends has a rate that a clock
    /// can tick at.
    pub open spec fn wf(self) -> bool {
        &&& self.since_yield < SENDS_PER_YIELD
        &&& match self.phase {
            Phase::New | Phase::Finished => true,
            Phase::Holding => self.mode == SendMode::Idle,
            Phase::Probing | Phase::Waiting => self.mode != SendMode::Idle,
            Phase::Sending | Phase::Yielding => self.mode != SendMode::Idle && self.pps
                <= NANOS_PER_SEC,
        }
    }

    /// How the task sends a datagram.
    pub open spec fn call(self) -> SendCall {
        SendCall {
            interval_nanos: send_interval(self.pps),
            kind: if self.mode == SendMode::Wait {
                SendKind::WaitForRoom
            } else {
                SendKind::DropOldest
            },
        }
    }

    /// Whether the task may be told of an event now. No task may begin to send at a
    /// rate of more than one datagram per nanosecond: no clock ticks that fast.
    pub open spec fn awaits(self, event: ConnectionEvent) -> bool {
        match event {
            ConnectionEvent::Started => self.phase == Phase::New,
            ConnectionEvent::Closed => self.phase == Phase::Holding || self.phase == Phase::Waiting,
            ConnectionEvent::Elapsed => self.phase == Phase::Holding || self.phase
                == Phase::Waiting,
            ConnectionEvent::Limit(None) => self.phase == Phase::Probing,
            ConnectionEvent::Limit(Some(limit)) => self.phase == Phase::Probing && (
            self.payload_len <= limit ==> self.pps <= NANOS_PER_SEC),
            ConnectionEvent::Sent(_) => self.phase == Phase::Sending,
            ConnectionEvent::Yielded => self.phase == Phase::Yielding,
        }
    }

    /// Only a task that drops what does not fit and has no given rate can keep
    /// others from running.
    pub open spec fn counts_sends(self) -> bool {
        self.mode == SendMode::Drop && self.pps == 0
    }

    /// The task goes on to another phase.
    pub open spec fn moved(self, phase: Phase) -> ConnectionTask {
        ConnectionTask { phase, ..self }
    }

    /// The task comes to its end.
    pub open spec fn finished(self, client: ClientState) -> Step {
        Step {
            task: self.moved(Phase::Finished),
            client: client.closed(),
            action: ConnectionAction::Finish,
        }
    }

    /// The task comes to its end unable to send.
    pub open spec fn given_up(self, client: ClientState) -> Step {
        self.finished(client.send_failed())
    }

    /// The task holds the connection open until the client shuts down.
    pub open spec fn held(self, client: ClientState) -> Step {
        if client.shutdown {
            self.finished(client)
        } else {
            Step { task: self.moved(Phase::Holding), client, action: ConnectionAction::HoldSecond }
        }
    }

    /// The task sends its next datagram unless the client shuts down.
    pub open spec fn sending(self, client: ClientState) -> Step {
        if client.shutdown {
            self.finished(client)
        } else {
            Step {
                task: self.moved(Phase::Sending),
                client,
                action: ConnectionAction::Send(self.call()),
            }
        }
    }

    /// The task asks how large a datagram may be.
    pub open spec fn probing(self, client: ClientState) -> Step {
        Step { task: self.moved(Phase::Probing), client, action: ConnectionAction::ProbeLimit }
    }

    /// The task has sent a datagram.
    pub open spec fn after_sent(self, client: ClientState) -> Step {
        if !self.counts_sends() {
            self.sending(client)
        } else if self.since_yield + 1 == SENDS_PER_YIELD {
            Step {
                task: ConnectionTask { since_yield: 0, ..self }.moved(Phase::Yielding),
                client,
                action: ConnectionAction::Yield,
            }
        } else {
            ConnectionTask { since_yield: (self.since_yield + 1) as usize, ..self }.sending(client)
        }
    }

    /// What the task makes of an event.
    pub open spec fn step(self, client: ClientState, event: ConnectionEvent) -> Step {
        match event {
            ConnectionEvent::Started => if self.mode == SendMode::Idle {
                self.held(client)
            } else {
                self.probing(client)
            },
            ConnectionEvent::Closed => if self.phase == Phase::Holding {
                self.finished(client)
            } else {
                self.given_up(client)
            },
            ConnectionEvent::Elapsed => if self.phase == Phase::Holding {
                self.held(client)
            } else {
                self.probing(client)
            },
            ConnectionEvent::Limit(None) => Step {
                task: self.moved(Phase::Waiting),
                client,
                action: ConnectionAction::WaitForLimit,
            },
            ConnectionEvent::Limit(Some(limit)) => if self.payload_len <= limit {
                self.sending(client)
            } else {
                self.given_up(client)
            },
            ConnectionEvent::Sent(true) => self.after_sent(client.sent(self.payload_len)),
            ConnectionEvent::Sent(false) => if client.shutdown {
                self.finished(client)
            } else {
                self.given_up(client)
            },
            ConnectionEvent::Yielded => self.sending(client),
        }
    }

    /// The task of a new connection. A rate of zero datagrams per second means no
    /// given rate.
    pub fn new(mode: SendMode, payload_len: usize, pps: u64) -> (task: ConnectionTask)
        ensures
            task == (ConnectionTask {
                mode,
                payload_len,
                pps,
                phase: Phase::New,
                since_yield: 0,
            }),
            task.wf(),
    {
        ConnectionTask { mode, payload_len, pps, phase: Phase::New, since_yield: 0 }
    }

    /// Whether the task may be told of an event now.
    pub fn can_take(&self, event: ConnectionEvent) -> (r: bool)
        ensures
            r == self.awaits(event),
    {
        match event {
            ConnectionEvent::Started => self.phase == Phase::New,
            ConnectionEvent::Closed => self.phase == Phase::Holding || self.phase == Phase::Waiting,
            ConnectionEvent::Elapsed => self.phase == Phase::Holding || self.phase
                == Phase::Waiting,
            ConnectionEvent::Limit(None) => self.phase == Phase::Probing,
            ConnectionEvent::Limit(Some(limit)) => self.phase == Phase::Probing && (
            self.payload_len > limit || self.pps <= NANOS_PER_SEC as u64),
            ConnectionEvent::Sent(_) => self.phase == Phase::Sending,
            ConnectionEvent::Yielded => self.phase == Phase::Yielding,
        }
    }

    /// Ends the task.
    fn finish(&mut self, client: &mut Client) -> (action: ConnectionAction)
        ensures
            (Step { task: *final(self), client: final(client)@, action }) == old(self).finished(
                old(client)@,
            ),
    {
        client.count_closed();
        self.phase = Phase::Finished;
        ConnectionAction::Finish
    }

    /// Ends the task for a datagram that could not be sent.
    fn give_up(&mut self, client: &mut Client) -> (action: ConnectionAction)
        ensures
            (Step { task: *final(self), client: final(client)@, action }) == old(self).given_up(
                old(client)@,
            ),
    {
        client.count_send_error();
        self.finish(client)
    }

    /// Goes on with an idle connection.
    fn hold(&mut self, client: &mut Client) -> (action: ConnectionAction)
        ensures
            (Step { task: *final(self), client: final(client)@, action }) == old(self).held(
                old(client)@,
            ),
    {
        if client.is_shut_down() {
            self.finish(client)
        } else {
            self.phase = Phase::Holding;
            ConnectionAction::HoldSecond
        }
    }

    /// Goes on with the next datagram.
    fn send_next(&mut self, client: &mut Client) -> (action: ConnectionAction)
        requires
            old(self).pps <= NANOS_PER_SEC,
        ensures
            (Step { task: *final(self), client: final(client)@, action }) == old(self).sending(
                old(client)@,
            ),
    {
        if client.is_shut_down() {
            self.finish(client)
        } else {
            self.phase = Phase::Sending;
            let kind = if self.mode == SendMode::Wait {
                SendKind::WaitForRoom
            } else {
                SendKind::DropOldest
            };
            ConnectionAction::Send(SendCall { interval_nanos: send_interval_nanos(self.pps), kind })
        }
    }

    /// Takes note of an event and says what to do next.
    pub fn advance(&mut self, event: ConnectionEvent, client: &mut Client) -> (action:
        ConnectionAction)
        requires
            old(self).wf(),
            old(self).awaits(event),
        ensures
            (Step { task: *final(self), client: final(client)@, action }) == old(self).step(
                old(client)@,
                event,
            ),
            final(self).wf(),
    {
        match event {
            ConnectionEvent::Started => if self.mode == SendMode::Idle {
                self.hold(client)
            } else {
                self.phase = Phase::Probing;
                ConnectionAction::ProbeLimit
            },
            ConnectionEvent::Closed => if self.phase == Phase::Holding {
                self.finish(client)
            } else {
                self.give_up(client)
            },
            ConnectionEvent::Elapsed => if self.phase == Phase::Holding {
                self.hold(client)
            } else {
                self.phase = Phase::Probing;
                ConnectionAction::ProbeLimit
            },
            ConnectionEvent::Limit(None) => {
                self.phase = Phase::Waiting;
                ConnectionAction::WaitForLimit
            },
            ConnectionEvent::Limit(Some(limit)) => if self.payload_len <= limit {
                self.send_next(client)
            } else {
                self.give_up(client)
            },
            ConnectionEvent::Sent(true) => {
                client.count_sent(self.payload_len);
                if self.mode == SendMode::Drop && self.pps == 0 {
                    self.since_yield = self.since_yield + 1;
                    if self.since_yield == SENDS_PER_YIELD {
                        self.since_yield = 0;
                        self.phase = Phase::Yielding;
                        return ConnectionAction::Yield;
                    }
                }
                self.send_next(client)
            },
            ConnectionEvent::Sent(false) => if client.is_shut_down() {
                self.finish(client)
            } else {
                self.give_up(client)
            },
            ConnectionEvent::Yielded => self.send_next(client),
        }
    }
}

/// The nanoseconds between two datagrams at a given rate, none without a rate.
pub open spec fn send_interval(pps: u64) -> Option<u64> {
    if pps > 0 {
        Some(NANOS_PER_SEC as u64 / pps)
    } else {
        None
    }
}

/// Returns the nanoseconds between two datagrams at a given rate, none without a rate.
pub fn send_interval_nanos(pps: u64) -> (nanos: Option<u64>)
    requires
        pps <= NANOS_PER_SEC,
    ensures
        nanos == send_interval(pps),
        nanos matches Some(n) ==> 0 < n <= NANOS_PER_SEC,
{
    assert(pps > 0 ==> 0 < NANOS_PER_SEC as u64 / pps <= NANOS_PER_SEC) by (nonlinear_arith)
        requires
            pps <= NANOS_PER_SEC,
    ;
    if pps > 0 {
        Some(NANOS_PER_SEC as u64 / pps)
    } else {
        None
    }
}

/// At a given rate, the interval is the longest whole number of nanoseconds with which
/// that many datagrams take no more than a second; without a rate there is none.
pub proof fn law_interval_keeps_the_rate(pps: u64)
    requires
        pps <= 1_000_000_000,
    ensures
        pps == 0 <==> send_interval(pps) is None,
        send_interval(pps) matches Some(nanos) ==> 0 < nanos && nanos * pps <= 1_000_000_000 && (
        nanos + 1) * pps > 1_000_000_000,
{
    if pps > 0 {
        let nanos = NANOS_PER_SEC as u64 / pps;
        assert(0 < nanos && nanos * pps <= 1_000_000_000 && (nanos + 1) * pps > 1_000_000_000)
            by (nonlinear_arith)
            requires
                0 < pps <= 1_000_000_000,
                nanos == 1_000_000_000u64 / pps,
        ;
    }
}

} // verus!
