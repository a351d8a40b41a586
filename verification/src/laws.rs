//! What holds of a whole run of the client or the server, whatever happens in it.

#[allow(unused_imports)]
use crate::client::{
    AttemptAction, ClientMetrics, ClientState, after_attempt, after_attempt_action, attempt_action,
};
#[allow(unused_imports)]
use crate::connection::{
    ConnectionAction, ConnectionEvent, ConnectionTask, Phase, SENDS_PER_YIELD, SendKind, SendMode,
    law_interval_keeps_the_rate,
};
#[allow(unused_imports)]
use crate::handshake::admitted;
#[allow(unused_imports)]
use crate::server::ServerMetrics;
#[allow(unused_imports)]
use crate::client::client_report;
#[allow(unused_imports)]
use crate::duration::{duration_nanos, duration_secs, NANOS_PER_SEC};
#[allow(unused_imports)]
use crate::readback::{
    count_in, law_client_report_reads_back, law_server_report_reads_back, says,
};
#[allow(unused_imports)]
use crate::server::{server_report, total_bytes};
use std::time::Duration;
use vstd::prelude::*;

verus! {

/// What can happen to the shared state of a client.
pub enum ClientEvent {
    /// A connecting task asks what to do next.
    Asked,
    /// An attempt comes to its end, and whether it led to a connection.
    AttemptEnded(bool),
    /// The task of a connection is told of an event.
    Stepped(ConnectionTask, ConnectionEvent),
    /// The counts of the given time are reported.
    Reported(Duration),
    /// The client shuts down.
    ShutDown,
}

/// A client with the attempts that are under way and the connections that have a task.
pub struct ClientRun {
    pub client: ClientState,
    pub attempts: nat,
    pub connections: nat,
}

impl ClientRun {
    /// A client at the start.
    pub open spec fn initial(target_connections: usize) -> ClientRun {
        ClientRun {
            client: ClientState::initial(target_connections),
            attempts: 0,
            connections: 0,
        }
    }

    /// Whether an event can happen: only what was begun comes to an end, and without
    /// a limit there are never more connections than can be counted.
    pub open spec fn possible(self, event: ClientEvent) -> bool {
        match event {
            ClientEvent::Asked => self.client.limiter.target == 0 ==> self.client.limiter.active
                < usize::MAX,
            ClientEvent::AttemptEnded(_) => self.attempts > 0,
            ClientEvent::Stepped(task, told) => self.connections > 0 && task.awaits(told),
            ClientEvent::Reported(_) => true,
            ClientEvent::ShutDown => true,
        }
    }

    /// The run after an event.
    pub open spec fn after(self, event: ClientEvent) -> ClientRun {
        match event {
            ClientEvent::Asked => ClientRun {
                client: after_attempt_action(self.client),
                attempts: if attempt_action(self.client) == AttemptAction::Connect {
                    self.attempts + 1
                } else {
                    self.attempts
                },
                ..self
            },
            ClientEvent::AttemptEnded(connected) => ClientRun {
                client: after_attempt(self.client, connected),
                attempts: (self.attempts - 1) as nat,
                connections: if connected {
                    self.connections + 1
                } else {
                    self.connections
                },
            },
            ClientEvent::Stepped(task, told) => ClientRun {
                client: task.step(self.client, told).client,
                connections: if task.step(self.client, told).action == ConnectionAction::Finish {
                    (self.connections - 1) as nat
                } else {
                    self.connections
                },
                ..self
            },
            ClientEvent::Reported(_) => ClientRun {
                client: ClientState { metrics: self.client.metrics.reset(), ..self.client },
                ..self
            },
            ClientEvent::ShutDown => ClientRun {
                client: ClientState { shutdown: true, ..self.client },
                ..self
            },
        }
    }

    /// Every attempt under way and every connection holds one slot, nothing else
    /// holds one, no more slots are taken than there are, and the connections that
    /// have a task are the ones counted as open.
    pub open spec fn accounted(self) -> bool {
        &&& self.client.limiter.active == self.attempts + self.connections
        &&& self.client.limiter.within_target()
        &&& self.client.metrics.open_connections == self.connections
    }

    /// Whether events can happen one after the other.
    pub open spec fn all_possible(self, events: Seq<ClientEvent>) -> bool
        decreases events.len(),
    {
        events.len() == 0 || (self.all_possible(events.drop_last()) && self.after_all(
            events.drop_last(),
        ).possible(events.last()))
    }

    /// The run after events that happen one after the other.
    pub open spec fn after_all(self, events: Seq<ClientEvent>) -> ClientRun
        decreases events.len(),
    {
        if events.len() == 0 {
            self
        } else {
            self.after_all(events.drop_last()).after(events.last())
        }
    }
}

/// A step of a task ends it or leaves the slots and the open connections alone. A
/// step that ends it gives back one slot and counts one connection as closed.
pub proof fn law_end_is_counted_once(
    task: ConnectionTask,
    client: ClientState,
    event: ConnectionEvent,
)
    requires
        task.awaits(event),
    ensures
        ({
            let step = task.step(client, event);
            let before = client.metrics;
            let after = step.client.metrics;
            &&& step.action == ConnectionAction::Finish <==> step.task.phase == Phase::Finished
            &&& if step.action == ConnectionAction::Finish {
                &&& step.client.limiter == client.limiter.released()
                &&& after.open_connections == before.open_connections.wrapping_sub(1)
                &&& after.closed == before.closed.wrapping_add(1)
            } else {
                &&& step.client.limiter == client.limiter
                &&& after.open_connections == before.open_connections
                &&& after.closed == before.closed
            }
            &&& step.client.shutdown == client.shutdown
        }),
{
}

/// Slots are accounted for after every event if they were before it.
pub proof fn law_event_keeps_account(run: ClientRun, event: ClientEvent)
    requires
        run.accounted(),
        run.possible(event),
    ensures
        run.after(event).accounted(),
{
    if let ClientEvent::Stepped(task, told) = event {
        law_end_is_counted_once(task, run.client, told);
    }
}

/// Whatever happens, every attempt and every connection holds exactly one slot: none
/// is lost, none is given back twice, and with a limit there are never more
/// attempts and connections together than the limit.
pub proof fn law_slots_are_accounted(target_connections: usize, events: Seq<ClientEvent>)
    requires
        ClientRun::initial(target_connections).all_possible(events),
    ensures
        ClientRun::initial(target_connections).after_all(events).accounted(),
        target_connections != 0 ==> {
            let run = ClientRun::initial(target_connections).after_all(events);
            run.attempts + run.connections <= target_connections
        },
    decreases events.len(),
{
    let start = ClientRun::initial(target_connections);
    if events.len() > 0 {
        law_slots_are_accounted(target_connections, events.drop_last());
        law_event_keeps_account(start.after_all(events.drop_last()), events.last());
    }
    lemma_target_is_kept(start, events);
}

/// No event changes the limit.
proof fn lemma_target_is_kept(run: ClientRun, events: Seq<ClientEvent>)
    requires
        run.all_possible(events),
    ensures
        run.after_all(events).client.limiter.target == run.client.limiter.target,
    decreases events.len(),
{
    if events.len() > 0 {
        lemma_target_is_kept(run, events.drop_last());
        if let ClientEvent::Stepped(task, told) = events.last() {
            law_end_is_counted_once(task, run.after_all(events.drop_last()).client, told);
        }
    }
}

/// Once the client shuts down no task begins an attempt, waits or sends a datagram:
/// a connection ends at its next event, unless it only lets other tasks run first or
/// still waits to know how large a datagram may be.
pub proof fn law_shutdown_ends_tasks(
    task: ConnectionTask,
    client: ClientState,
    event: ConnectionEvent,
)
    requires
        client.shutdown,
        task.awaits(event),
    ensures
        attempt_action(client) == AttemptAction::Stop,
        ({
            let action = task.step(client, event).action;
            ||| action == ConnectionAction::Finish
            ||| action == ConnectionAction::Yield
            ||| action == ConnectionAction::ProbeLimit
            ||| action == ConnectionAction::WaitForLimit
        }),
        event is Yielded ==> task.step(client, event).action == ConnectionAction::Finish,
{
}

/// An idle connection is held until it ends and sends nothing, and any other is never
/// held without a datagram to send.
pub proof fn law_only_idle_connections_are_held(
    task: ConnectionTask,
    client: ClientState,
    event: ConnectionEvent,
)
    requires
        task.wf(),
        task.awaits(event),
    ensures
        ({
            let action = task.step(client, event).action;
            if task.mode == SendMode::Idle {
                action == ConnectionAction::HoldSecond || action == ConnectionAction::Finish
            } else {
                action != ConnectionAction::HoldSecond
            }
        }),
{
}

/// What a task is told to do next fits what it then waits for, so that no answer to
/// what it does finds it unprepared; a task that has come to its end waits for nothing.
pub proof fn law_task_awaits_what_it_does(
    task: ConnectionTask,
    client: ClientState,
    event: ConnectionEvent,
    answer: ConnectionEvent,
)
    requires
        task.wf(),
        task.awaits(event),
    ensures
        ({
            let next = task.step(client, event).task;
            &&& next.wf()
            &&& next.mode == task.mode
            &&& next.payload_len == task.payload_len
            &&& next.pps == task.pps
            &&& next.awaits(answer) <==> match task.step(client, event).action {
                ConnectionAction::HoldSecond => answer is Closed || answer is Elapsed,
                ConnectionAction::WaitForLimit => answer is Closed || answer is Elapsed,
                ConnectionAction::ProbeLimit => answer is Limit && (answer matches
                    ConnectionEvent::Limit(Some(limit)) ==> task.payload_len > limit || task.pps
                    <= 1_000_000_000),
                ConnectionAction::Send(_) => answer is Sent,
                ConnectionAction::Yield => answer is Yielded,
                ConnectionAction::Finish => false,
            }
        }),
{
}

/// A new task waits to be started, and for nothing else.
pub proof fn law_new_task_awaits_its_start(task: ConnectionTask, event: ConnectionEvent)
    requires
        task.phase == Phase::New,
    ensures
        task.awaits(event) <==> event is Started,
{
}

/// A task comes to its end where its connection is closed, where its payload does not
/// fit, where a datagram cannot be sent, and at shutdown. It does so at no other time,
/// and at shutdown not before it knows how large a datagram may be, nor in place of
/// letting other tasks run when that is due.
pub proof fn law_what_ends_a_task(
    task: ConnectionTask,
    client: ClientState,
    event: ConnectionEvent,
)
    requires
        task.wf(),
        task.awaits(event),
    ensures
        task.step(client, event).action == ConnectionAction::Finish <==> match event {
            ConnectionEvent::Closed => true,
            ConnectionEvent::Sent(false) => true,
            ConnectionEvent::Limit(Some(limit)) => task.payload_len > limit || client.shutdown,
            ConnectionEvent::Limit(None) => false,
            ConnectionEvent::Started => task.mode == SendMode::Idle && client.shutdown,
            ConnectionEvent::Elapsed => task.mode == SendMode::Idle && client.shutdown,
            ConnectionEvent::Sent(true) => client.shutdown && !(task.mode == SendMode::Drop
                && task.pps == 0 && task.since_yield == 1023),
            ConnectionEvent::Yielded => client.shutdown,
        },
{
}

/// A task that goes on holds its connection where it is idle; otherwise it asks how
/// large a datagram may be, again after a wait where that is not known yet, and sends
/// from then on, letting other tasks run after every 1024th datagram where nothing else
/// holds it up.
pub proof fn law_how_a_task_goes_on(
    task: ConnectionTask,
    client: ClientState,
    event: ConnectionEvent,
)
    requires
        task.wf(),
        task.awaits(event),
        task.step(client, event).action != ConnectionAction::Finish,
    ensures
        ({
            let action = task.step(client, event).action;
            match event {
                ConnectionEvent::Started | ConnectionEvent::Elapsed => if task.mode
                    == SendMode::Idle {
                    action == ConnectionAction::HoldSecond
                } else {
                    action == ConnectionAction::ProbeLimit
                },
                ConnectionEvent::Limit(None) => action == ConnectionAction::WaitForLimit,
                ConnectionEvent::Sent(_) => if task.mode == SendMode::Drop && task.pps == 0
                    && task.since_yield == 1023 {
                    action == ConnectionAction::Yield
                } else {
                    action is Send
                },
                _ => action is Send,
            }
        }),
{
}

/// Every datagram is sent as the mode says, once there is room or in place of the
/// oldest, and at the given rate: behind the tick of a clock whose interval is the
/// longest with which that many datagrams take no more than a second.
pub proof fn law_datagrams_are_sent_as_asked(
    task: ConnectionTask,
    client: ClientState,
    event: ConnectionEvent,
)
    requires
        task.wf(),
        task.awaits(event),
    ensures
        task.step(client, event).action matches ConnectionAction::Send(call) ==> {
            &&& task.mode == SendMode::Wait <==> call.kind == SendKind::WaitForRoom
            &&& task.mode == SendMode::Drop <==> call.kind == SendKind::DropOldest
            &&& task.pps == 0 <==> call.interval_nanos is None
            &&& call.interval_nanos matches Some(nanos) ==> 0 < nanos && nanos * task.pps
                <= 1_000_000_000 && (nanos + 1) * task.pps > 1_000_000_000
        },
{
    if task.step(client, event).action is Send {
        law_interval_keeps_the_rate(task.pps);
    }
}

/// While the client goes on, a connecting task begins an attempt exactly while there are
/// fewer attempts and connections than the target, or no target; otherwise it pauses.
pub proof fn law_attempts_fill_the_target(run: ClientRun)
    requires
        run.accounted(),
    ensures
        ({
            let target = run.client.limiter.target;
            &&& attempt_action(run.client) == AttemptAction::Stop <==> run.client.shutdown
            &&& attempt_action(run.client) == AttemptAction::Connect <==> !run.client.shutdown && (
            target == 0 || run.attempts + run.connections < target)
        }),
{
}

/// Nothing but a shutdown shuts the client down, and nothing undoes it.
pub proof fn law_only_a_shutdown_shuts_down(run: ClientRun, event: ClientEvent)
    requires
        run.possible(event),
    ensures
        run.after(event).client.shutdown <==> run.client.shutdown || event is ShutDown,
        run.after(event).client.limiter.target == run.client.limiter.target,
{
    if let ClientEvent::Stepped(task, told) = event {
        law_end_is_counted_once(task, run.client, told);
    }
}

/// A send that fails while the client shuts down is not counted as an error.
pub proof fn law_shutdown_hides_send_errors(task: ConnectionTask, client: ClientState)
    requires
        client.shutdown,
    ensures
        task.step(client, ConnectionEvent::Sent(false)).client.metrics.send_errors
            == client.metrics.send_errors,
{
}

/// A task in the middle of sending that has sent `n` more datagrams, and how often it
/// let other tasks run meanwhile.
pub open spec fn sends(task: ConnectionTask, client: ClientState, n: nat) -> (ConnectionTask, nat)
    decreases n,
{
    if n == 0 {
        (task, 0)
    } else {
        let (before, yields) = sends(task, client, (n - 1) as nat);
        let step = before.step(client, ConnectionEvent::Sent(true));
        if step.action == ConnectionAction::Yield {
            (step.task.step(client, ConnectionEvent::Yielded).task, yields + 1)
        } else {
            (step.task, yields)
        }
    }
}

/// A task that drops what does not fit and has no given rate lets others run once
/// per 1024 datagrams; any other task never has to.
pub proof fn law_yields(task: ConnectionTask, client: ClientState, n: nat)
    requires
        task.wf(),
        task.phase == Phase::Sending,
        !client.shutdown,
    ensures
        sends(task, client, n).0.phase == Phase::Sending,
        sends(task, client, n).1 == if task.counts_sends() {
            (task.since_yield as nat + n) / (SENDS_PER_YIELD as nat)
        } else {
            0
        },
        sends(task, client, n).0 == if task.counts_sends() {
            ConnectionTask {
                since_yield: ((task.since_yield as nat + n) % (SENDS_PER_YIELD as nat)) as usize,
                ..task
            }
        } else {
            task
        },
    decreases n,
{
    if n > 0 {
        law_yields(task, client, (n - 1) as nat);
    }
}

/// What can happen to a server.
pub enum ServerEvent {
    /// A connection attempt comes in, and whether there is a permit for its
    /// handshake; none where handshakes are not limited.
    Arrived(Option<bool>),
    /// A handshake comes to its end, and whether it led to a connection.
    HandshakeEnded(bool),
    /// A batch of datagrams comes in, with its bytes.
    Received(u64, u64),
    /// A connection comes to its end.
    ConnectionEnded,
    /// The counts of the given time are reported.
    Reported(Duration),
}

/// The counts of a server with its limit on handshakes, the handshakes that are under
/// way and the connections that have a task.
pub struct ServerRun {
    pub metrics: ServerMetrics,
    pub limit: Option<nat>,
    pub handshakes: nat,
    pub connections: nat,
}

impl ServerRun {
    /// Whether an event can happen. There is a permit exactly while fewer handshakes
    /// are under way than the limit allows. Only a handshake or a connection that is
    /// there ends, and there are never more connections than can be counted.
    pub open spec fn possible(self, event: ServerEvent) -> bool {
        match event {
            ServerEvent::Arrived(permit) => permit == match self.limit {
                Some(limit) => Some(self.handshakes < limit),
                None => None,
            },
            ServerEvent::HandshakeEnded(_) => self.handshakes > 0 && self.connections < usize::MAX,
            ServerEvent::Received(_, _) => true,
            ServerEvent::ConnectionEnded => self.connections > 0,
            ServerEvent::Reported(_) => true,
        }
    }

    /// The run after an event.
    pub open spec fn after(self, event: ServerEvent) -> ServerRun {
        match event {
            ServerEvent::Arrived(permit) => ServerRun {
                handshakes: if admitted(permit) {
                    self.handshakes + 1
                } else {
                    self.handshakes
                },
                ..self
            },
            ServerEvent::HandshakeEnded(true) => ServerRun {
                metrics: self.metrics.opened(),
                handshakes: (self.handshakes - 1) as nat,
                connections: self.connections + 1,
                ..self
            },
            ServerEvent::HandshakeEnded(false) => ServerRun {
                metrics: self.metrics.failed(),
                handshakes: (self.handshakes - 1) as nat,
                ..self
            },
            ServerEvent::Received(datagrams, bytes) => ServerRun {
                metrics: self.metrics.received(datagrams, bytes),
                ..self
            },
            ServerEvent::ConnectionEnded => ServerRun {
                metrics: self.metrics.closed(),
                connections: (self.connections - 1) as nat,
                ..self
            },
            ServerEvent::Reported(_) => ServerRun { metrics: self.metrics.reset(), ..self },
        }
    }

    /// No more handshakes are under way than the limit allows.
    pub open spec fn within_limit(self) -> bool {
        self.limit matches Some(limit) ==> self.handshakes <= limit
    }

    /// Whether events can happen one after the other.
    pub open spec fn all_possible(self, events: Seq<ServerEvent>) -> bool
        decreases events.len(),
    {
        events.len() == 0 || (self.all_possible(events.drop_last()) && self.after_all(
            events.drop_last(),
        ).possible(events.last()))
    }

    /// The run after events that happen one after the other.
    pub open spec fn after_all(self, events: Seq<ServerEvent>) -> ServerRun
        decreases events.len(),
    {
        if events.len() == 0 {
            self
        } else {
            self.after_all(events.drop_last()).after(events.last())
        }
    }

    /// Whether no event takes a count beyond its upper end; every report starts the
    /// counts over.
    pub open spec fn counts_fit(self, events: Seq<ServerEvent>) -> bool
        decreases events.len(),
    {
        events.len() == 0 || (self.counts_fit(events.drop_last()) && ServerTally::of(
            self.after_all(events.drop_last()).metrics,
        ).plus(ServerTally::of_event(events.last())).fits())
    }

    /// What the reports among the events say, added up.
    pub open spec fn reported(self, events: Seq<ServerEvent>) -> ServerTally
        decreases events.len(),
    {
        if events.len() == 0 {
            ServerTally::none()
        } else {
            let before = self.reported(events.drop_last());
            if events.last() is Reported {
                before.plus(ServerTally::of(self.after_all(events.drop_last()).metrics))
            } else {
                before
            }
        }
    }
}

/// Whatever happens, the connections that the server counts as open are those that
/// have a task.
pub proof fn law_open_connections_are_counted(start: ServerRun, events: Seq<ServerEvent>)
    requires
        start.metrics.open_connections == start.connections,
        start.all_possible(events),
    ensures
        start.after_all(events).metrics.open_connections == start.after_all(events).connections,
    decreases events.len(),
{
    if events.len() > 0 {
        law_open_connections_are_counted(start, events.drop_last());
    }
}

/// Whatever happens, no more handshakes are under way than the limit allows, and an
/// attempt is turned away only while there are that many.
pub proof fn law_handshakes_stay_within_limit(start: ServerRun, events: Seq<ServerEvent>)
    requires
        start.within_limit(),
        start.all_possible(events),
    ensures
        start.after_all(events).within_limit(),
        start.after_all(events).limit == start.limit,
        forall|permit: Option<bool>| #[trigger]
            start.after_all(events).possible(ServerEvent::Arrived(permit)) && !admitted(permit)
                ==> start.limit == Some(start.after_all(events).handshakes),
    decreases events.len(),
{
    if events.len() > 0 {
        law_handshakes_stay_within_limit(start, events.drop_last());
    }
}

/// What a server counts between reports, without an upper end.
pub struct ServerTally {
    pub accepted: nat,
    pub accept_errors: nat,
    pub datagrams: nat,
    pub datagram_bytes: nat,
}

impl ServerTally {
    /// Nothing.
    pub open spec fn none() -> ServerTally {
        ServerTally { accepted: 0, accept_errors: 0, datagrams: 0, datagram_bytes: 0 }
    }

    /// Both together.
    pub open spec fn plus(self, other: ServerTally) -> ServerTally {
        ServerTally {
            accepted: self.accepted + other.accepted,
            accept_errors: self.accept_errors + other.accept_errors,
            datagrams: self.datagrams + other.datagrams,
            datagram_bytes: self.datagram_bytes + other.datagram_bytes,
        }
    }

    /// What the counts of a server say.
    pub open spec fn of(metrics: ServerMetrics) -> ServerTally {
        ServerTally {
            accepted: metrics.accepted as nat,
            accept_errors: metrics.accept_errors as nat,
            datagrams: metrics.datagrams as nat,
            datagram_bytes: metrics.datagram_bytes as nat,
        }
    }

    /// What an event adds.
    pub open spec fn of_event(event: ServerEvent) -> ServerTally {
        match event {
            ServerEvent::HandshakeEnded(true) => ServerTally {
                accepted: 1,
                ..ServerTally::none()
            },
            ServerEvent::HandshakeEnded(false) => ServerTally {
                accept_errors: 1,
                ..ServerTally::none()
            },
            ServerEvent::Received(datagrams, bytes) => ServerTally {
                datagrams: datagrams as nat,
                datagram_bytes: bytes as nat,
                ..ServerTally::none()
            },
            _ => ServerTally::none(),
        }
    }

    /// What events add together.
    pub open spec fn of_events(events: Seq<ServerEvent>) -> ServerTally
        decreases events.len(),
    {
        if events.len() == 0 {
            ServerTally::none()
        } else {
            ServerTally::of_events(events.drop_last()).plus(ServerTally::of_event(events.last()))
        }
    }

    /// No number is too large for a count.
    pub open spec fn fits(self) -> bool {
        &&& self.accepted <= u64::MAX
        &&& self.accept_errors <= u64::MAX
        &&& self.datagrams <= u64::MAX
        &&& self.datagram_bytes <= u64::MAX
    }
}

/// As long as no count goes beyond its upper end between two reports, the reports of
/// a server and the counts since the last of them add up to what happened: nothing is
/// left out, and nothing is reported twice.
pub proof fn law_server_reports_add_up(start: ServerRun, events: Seq<ServerEvent>)
    requires
        start.counts_fit(events),
    ensures
        start.reported(events).plus(ServerTally::of(start.after_all(events).metrics))
            == ServerTally::of(start.metrics).plus(ServerTally::of_events(events)),
    decreases events.len(),
{
    if events.len() > 0 {
        law_server_reports_add_up(start, events.drop_last());
    }
}

/// What a client counts between reports, without an upper end.
pub struct ClientTally {
    pub connect_attempts: nat,
    pub connected: nat,
    pub connect_errors: nat,
    pub closed: nat,
    pub datagrams_sent: nat,
    pub datagram_bytes_sent: nat,
    pub send_errors: nat,
}

impl ClientTally {
    /// Nothing.
    pub open spec fn none() -> ClientTally {
        ClientTally {
            connect_attempts: 0,
            connected: 0,
            connect_errors: 0,
            closed: 0,
            datagrams_sent: 0,
            datagram_bytes_sent: 0,
            send_errors: 0,
        }
    }

    /// Both together.
    pub open spec fn plus(self, other: ClientTally) -> ClientTally {
        ClientTally {
            connect_attempts: self.connect_attempts + other.connect_attempts,
            connected: self.connected + other.connected,
            connect_errors: self.connect_errors + other.connect_errors,
            closed: self.closed + other.closed,
            datagrams_sent: self.datagrams_sent + other.datagrams_sent,
            datagram_bytes_sent: self.datagram_bytes_sent + other.datagram_bytes_sent,
            send_errors: self.send_errors + other.send_errors,
        }
    }

    /// What the counts of a client say.
    pub open spec fn of(metrics: ClientMetrics) -> ClientTally {
        ClientTally {
            connect_attempts: metrics.connect_attempts as nat,
            connected: metrics.connected as nat,
            connect_errors: metrics.connect_errors as nat,
            closed: metrics.closed as nat,
            datagrams_sent: metrics.datagrams_sent as nat,
            datagram_bytes_sent: metrics.datagram_bytes_sent as nat,
            send_errors: metrics.send_errors as nat,
        }
    }

    /// What an event adds that happens to the given client. A connection counts an
    /// error where its payload does not fit, where it is closed before that is known,
    /// and where a datagram cannot be sent while the client goes on.
    pub open spec fn of_event(client: ClientState, event: ClientEvent) -> ClientTally {
        match event {
            ClientEvent::Asked => ClientTally {
                connect_attempts: if !client.shutdown && client.limiter.has_room() {
                    1
                } else {
                    0
                },
                ..ClientTally::none()
            },
            ClientEvent::AttemptEnded(true) => ClientTally {
                connected: 1,
                ..ClientTally::none()
            },
            ClientEvent::AttemptEnded(false) => ClientTally {
                connect_errors: 1,
                ..ClientTally::none()
            },
            ClientEvent::Stepped(task, told) => ClientTally {
                closed: if task.step(client, told).action == ConnectionAction::Finish {
                    1
                } else {
                    0
                },
                datagrams_sent: if told == ConnectionEvent::Sent(true) {
                    1
                } else {
                    0
                },
                datagram_bytes_sent: if told == ConnectionEvent::Sent(true) {
                    task.payload_len as nat
                } else {
                    0
                },
                send_errors: if match told {
                    ConnectionEvent::Limit(Some(limit)) => task.payload_len > limit,
                    ConnectionEvent::Closed => task.phase != Phase::Holding,
                    ConnectionEvent::Sent(sent) => !sent && !client.shutdown,
                    _ => false,
                } {
                    1
                } else {
                    0
                },
                ..ClientTally::none()
            },
            ClientEvent::Reported(_) => ClientTally::none(),
            ClientEvent::ShutDown => ClientTally::none(),
        }
    }

    /// What events add together.
    pub open spec fn of_events(start: ClientRun, events: Seq<ClientEvent>) -> ClientTally
        decreases events.len(),
    {
        if events.len() == 0 {
            ClientTally::none()
        } else {
            ClientTally::of_events(start, events.drop_last()).plus(
                ClientTally::of_event(start.after_all(events.drop_last()).client, events.last()),
            )
        }
    }

    /// No number is too large for a count.
    pub open spec fn fits(self) -> bool {
        &&& self.connect_attempts <= u64::MAX
        &&& self.connected <= u64::MAX
        &&& self.connect_errors <= u64::MAX
        &&& self.closed <= u64::MAX
        &&& self.datagrams_sent <= u64::MAX
        &&& self.datagram_bytes_sent <= u64::MAX
        &&& self.send_errors <= u64::MAX
    }
}

impl ClientRun {
    /// Whether no event takes a count beyond its upper end; every report starts the
    /// counts over.
    pub open spec fn counts_fit(self, events: Seq<ClientEvent>) -> bool
        decreases events.len(),
    {
        events.len() == 0 || (self.counts_fit(events.drop_last()) && ClientTally::of(
            self.after_all(events.drop_last()).client.metrics,
        ).plus(
            ClientTally::of_event(self.after_all(events.drop_last()).client, events.last()),
        ).fits())
    }

    /// What the reports among the events say, added up.
    pub open spec fn reported(self, events: Seq<ClientEvent>) -> ClientTally
        decreases events.len(),
    {
        if events.len() == 0 {
            ClientTally::none()
        } else {
            let before = self.reported(events.drop_last());
            if events.last() is Reported {
                before.plus(ClientTally::of(self.after_all(events.drop_last()).client.metrics))
            } else {
                before
            }
        }
    }
}

/// As long as no count goes beyond its upper end between two reports, the reports of
/// a client and the counts since the last of them add up to what happened: nothing is
/// left out, and nothing is reported twice.
pub proof fn law_client_reports_add_up(start: ClientRun, events: Seq<ClientEvent>)
    requires
        start.counts_fit(events),
    ensures
        start.reported(events).plus(ClientTally::of(start.after_all(events).client.metrics))
            == ClientTally::of(start.client.metrics).plus(ClientTally::of_events(start, events)),
    decreases events.len(),
{
    if events.len() > 0 {
        law_client_reports_add_up(start, events.drop_last());
    }
}

impl ClientTally {
    /// Without the bytes, of which a report tells the rate only.
    pub open spec fn counts(self) -> ClientTally {
        ClientTally { datagram_bytes_sent: 0, ..self }
    }

    /// What a reader finds in a line that reports.
    pub open spec fn in_line(line: Seq<char>) -> ClientTally {
        ClientTally {
            connect_attempts: count_in(line, "connect_attempts/s"@),
            connected: count_in(line, "connected/s"@),
            connect_errors: count_in(line, "connect_errors/s"@),
            closed: count_in(line, "closed/s"@),
            datagrams_sent: count_in(line, "datagrams_sent/s"@),
            datagram_bytes_sent: 0,
            send_errors: count_in(line, "send_errors/s"@),
        }
    }

    /// What a reader finds in the line that reports the given counts.
    #[verifier::opaque]
    pub open spec fn in_report(metrics: ClientMetrics, elapsed: Duration) -> ClientTally {
        ClientTally::in_line(
            client_report(metrics, duration_secs(elapsed) as nat, duration_nanos(elapsed) as nat),
        )
    }
}

impl ClientRun {
    /// What a reader finds in the lines that the events print, added up.
    pub open spec fn printed(self, events: Seq<ClientEvent>) -> ClientTally
        decreases events.len(),
    {
        if events.len() == 0 {
            ClientTally::none()
        } else {
            let before = self.printed(events.drop_last());
            match events.last() {
                ClientEvent::Reported(elapsed) => before.plus(
                    ClientTally::in_report(
                        self.after_all(events.drop_last()).client.metrics,
                        elapsed,
                    ),
                ),
                _ => before,
            }
        }
    }
}

/// A reader finds in a line what was counted.
proof fn lemma_client_line_tally(m: ClientMetrics, elapsed: Duration)
    requires
        duration_nanos(elapsed) < NANOS_PER_SEC,
    ensures
        ClientTally::in_report(m, elapsed) == ClientTally::of(m).counts(),
{
    reveal(ClientTally::in_report);
    law_client_report_reads_back(
        m,
        duration_secs(elapsed) as nat,
        duration_nanos(elapsed) as nat,
    );
}

/// As long as no count goes beyond its upper end between two reports, the numbers that
/// a reader finds behind the labels of the client's lines add up, with the counts since
/// the last line, to what happened: attempts as attempts, connections as connections,
/// errors as errors.
pub proof fn law_client_lines_add_up(start: ClientRun, events: Seq<ClientEvent>)
    requires
        start.counts_fit(events),
        forall|i: int|
            0 <= i < events.len() ==> (#[trigger] events[i] matches ClientEvent::Reported(elapsed)
                ==> duration_nanos(elapsed) < NANOS_PER_SEC),
    ensures
        start.printed(events).plus(
            ClientTally::of(start.after_all(events).client.metrics).counts(),
        ) == ClientTally::of(start.client.metrics).plus(
            ClientTally::of_events(start, events),
        ).counts(),
    decreases events.len(),
{
    if events.len() > 0 {
        let before = events.drop_last();
        assert forall|i: int| 0 <= i < before.len() implies (#[trigger] before[i] matches
            ClientEvent::Reported(elapsed) ==> duration_nanos(elapsed) < NANOS_PER_SEC) by {
            assert(before[i] == events[i]);
        }
        law_client_lines_add_up(start, before);
        if let ClientEvent::Reported(elapsed) = events.last() {
            assert(events[events.len() - 1] == events.last());
            lemma_client_line_tally(start.after_all(before).client.metrics, elapsed);
        }
    }
}

/// The client's lines say how many connections there are.
pub proof fn law_client_line_says_open_connections(run: ClientRun, secs: nat, nanos: nat)
    requires
        run.accounted(),
        nanos < NANOS_PER_SEC,
    ensures
        says(
            client_report(run.client.metrics, secs, nanos),
            "open_connections"@,
            run.connections,
        ),
{
    law_client_report_reads_back(run.client.metrics, secs, nanos);
}

impl ServerTally {
    /// Without the bytes, of which a report tells the rate only.
    pub open spec fn counts(self) -> ServerTally {
        ServerTally { datagram_bytes: 0, ..self }
    }

    /// What a reader finds in a line that reports.
    pub open spec fn in_line(line: Seq<char>) -> ServerTally {
        ServerTally {
            accepted: count_in(line, "accepted/s"@),
            accept_errors: count_in(line, "accept_errors/s"@),
            datagrams: count_in(line, "datagrams/s"@),
            datagram_bytes: 0,
        }
    }

    /// What a reader finds in the line that reports the given counts.
    #[verifier::opaque]
    pub open spec fn in_report(metrics: ServerMetrics, elapsed: Duration) -> ServerTally {
        ServerTally::in_line(
            server_report(metrics, duration_secs(elapsed) as nat, duration_nanos(elapsed) as nat),
        )
    }
}

impl ServerRun {
    /// What a reader finds in the lines that the events print, added up.
    pub open spec fn printed(self, events: Seq<ServerEvent>) -> ServerTally
        decreases events.len(),
    {
        if events.len() == 0 {
            ServerTally::none()
        } else {
            let before = self.printed(events.drop_last());
            match events.last() {
                ServerEvent::Reported(elapsed) => before.plus(
                    ServerTally::in_report(self.after_all(events.drop_last()).metrics, elapsed),
                ),
                _ => before,
            }
        }
    }
}

/// A reader finds in a line what was counted.
proof fn lemma_server_line_tally(m: ServerMetrics, elapsed: Duration)
    requires
        duration_nanos(elapsed) < NANOS_PER_SEC,
    ensures
        ServerTally::in_report(m, elapsed) == ServerTally::of(m).counts(),
{
    reveal(ServerTally::in_report);
    law_server_report_reads_back(
        m,
        duration_secs(elapsed) as nat,
        duration_nanos(elapsed) as nat,
    );
}

/// As long as no count goes beyond its upper end between two reports, the numbers that
/// a reader finds behind the labels of the server's lines add up, with the counts since
/// the last line, to what happened.
pub proof fn law_server_lines_add_up(start: ServerRun, events: Seq<ServerEvent>)
    requires
        start.counts_fit(events),
        forall|i: int|
            0 <= i < events.len() ==> (#[trigger] events[i] matches ServerEvent::Reported(elapsed)
                ==> duration_nanos(elapsed) < NANOS_PER_SEC),
    ensures
        start.printed(events).plus(ServerTally::of(start.after_all(events).metrics).counts())
            == ServerTally::of(start.metrics).plus(ServerTally::of_events(events)).counts(),
    decreases events.len(),
{
    if events.len() > 0 {
        let before = events.drop_last();
        assert forall|i: int| 0 <= i < before.len() implies (#[trigger] before[i] matches
            ServerEvent::Reported(elapsed) ==> duration_nanos(elapsed) < NANOS_PER_SEC) by {
            assert(before[i] == events[i]);
        }
        law_server_lines_add_up(start, before);
        if let ServerEvent::Reported(elapsed) = events.last() {
            assert(events[events.len() - 1] == events.last());
            lemma_server_line_tally(start.after_all(before).metrics, elapsed);
        }
    }
}

/// The server's lines say how many connections there are.
pub proof fn law_server_line_says_open_connections(run: ServerRun, secs: nat, nanos: nat)
    requires
        run.metrics.open_connections == run.connections,
        nanos < NANOS_PER_SEC,
    ensures
        says(server_report(run.metrics, secs, nanos), "open_connections"@, run.connections),
{
    law_server_report_reads_back(run.metrics, secs, nanos);
}

/// Two numbers are the same to a count of 64 bits.
pub open spec fn same_count(a: nat, b: nat) -> bool {
    a % 0x1_0000_0000_0000_0000 == b % 0x1_0000_0000_0000_0000
}

/// A count that starts over behind its largest value goes on as if it did not.
proof fn lemma_count_goes_on(reported: nat, count: u64, happened: nat, more: u64)
    requires
        same_count(reported + count as nat, happened),
    ensures
        same_count(reported + count.wrapping_add(more) as nat, happened + more as nat),
{
    let m: int = 0x1_0000_0000_0000_0000;
    let sum = reported + count as nat + more as nat;
    vstd::arithmetic::div_mod::lemma_add_mod_noop((reported + count) as int, more as int, m);
    vstd::arithmetic::div_mod::lemma_add_mod_noop(happened as int, more as int, m);
    if count + more > u64::MAX {
        vstd::arithmetic::div_mod::lemma_mod_add_multiples_vanish(sum - m, m);
    }
}

impl ServerTally {
    /// The same to counts of 64 bits.
    pub open spec fn same(self, other: ServerTally) -> bool {
        &&& same_count(self.accepted, other.accepted)
        &&& same_count(self.accept_errors, other.accept_errors)
        &&& same_count(self.datagrams, other.datagrams)
        &&& same_count(self.datagram_bytes, other.datagram_bytes)
    }
}

/// Whatever happens, the reports of a server and the counts since the last of them add up
/// to what happened, as far as counts of 64 bits tell: a count that reaches its upper end
/// starts over at zero.
pub proof fn law_server_counts_start_over(start: ServerRun, events: Seq<ServerEvent>)
    ensures
        start.reported(events).plus(ServerTally::of(start.after_all(events).metrics)).same(
            ServerTally::of(start.metrics).plus(ServerTally::of_events(events)),
        ),
    decreases events.len(),
{
    if events.len() > 0 {
        let before = events.drop_last();
        law_server_counts_start_over(start, before);
        let r = start.reported(before);
        let m = start.after_all(before).metrics;
        let h = ServerTally::of(start.metrics).plus(ServerTally::of_events(before));
        match events.last() {
            ServerEvent::HandshakeEnded(true) => {
                lemma_count_goes_on(r.accepted, m.accepted, h.accepted, 1);
            },
            ServerEvent::HandshakeEnded(false) => {
                lemma_count_goes_on(r.accept_errors, m.accept_errors, h.accept_errors, 1);
            },
            ServerEvent::Received(datagrams, bytes) => {
                lemma_count_goes_on(r.datagrams, m.datagrams, h.datagrams, datagrams);
                lemma_count_goes_on(r.datagram_bytes, m.datagram_bytes, h.datagram_bytes, bytes);
            },
            _ => {},
        }
    }
}

impl ClientTally {
    /// The same to counts of 64 bits.
    pub open spec fn same(self, other: ClientTally) -> bool {
        &&& same_count(self.connect_attempts, other.connect_attempts)
        &&& same_count(self.connected, other.connected)
        &&& same_count(self.connect_errors, other.connect_errors)
        &&& same_count(self.closed, other.closed)
        &&& same_count(self.datagrams_sent, other.datagrams_sent)
        &&& same_count(self.datagram_bytes_sent, other.datagram_bytes_sent)
        &&& same_count(self.send_errors, other.send_errors)
    }
}

/// Whatever happens, the reports of a client and the counts since the last of them add up
/// to what happened, as far as counts of 64 bits tell: a count that reaches its upper end
/// starts over at zero.
pub proof fn law_client_counts_start_over(start: ClientRun, events: Seq<ClientEvent>)
    ensures
        start.reported(events).plus(ClientTally::of(start.after_all(events).client.metrics)).same(
            ClientTally::of(start.client.metrics).plus(ClientTally::of_events(start, events)),
        ),
    decreases events.len(),
{
    if events.len() > 0 {
        let before = events.drop_last();
        law_client_counts_start_over(start, before);
        let r = start.reported(before);
        let client = start.after_all(before).client;
        let m = client.metrics;
        let h = ClientTally::of(start.client.metrics).plus(ClientTally::of_events(start, before));
        match events.last() {
            ClientEvent::Asked => {
                lemma_count_goes_on(r.connect_attempts, m.connect_attempts, h.connect_attempts, 1);
            },
            ClientEvent::AttemptEnded(_) => {
                lemma_count_goes_on(r.connected, m.connected, h.connected, 1);
                lemma_count_goes_on(r.connect_errors, m.connect_errors, h.connect_errors, 1);
            },
            ClientEvent::Stepped(task, told) => {
                lemma_count_goes_on(r.closed, m.closed, h.closed, 1);
                lemma_count_goes_on(r.datagrams_sent, m.datagrams_sent, h.datagrams_sent, 1);
                lemma_count_goes_on(
                    r.datagram_bytes_sent,
                    m.datagram_bytes_sent,
                    h.datagram_bytes_sent,
                    task.payload_len as u64,
                );
                lemma_count_goes_on(r.send_errors, m.send_errors, h.send_errors, 1);
            },
            _ => {},
        }
    }
}

} // verus!
