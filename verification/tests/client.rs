use datagram_bench::client::{
    AttemptAction, AttemptOutcome, Client, ClientMetrics, ATTEMPT_PAUSE_MILLIS,
};
use datagram_bench::connection::{
    send_interval_nanos, ConnectionAction, ConnectionEvent, ConnectionTask, Phase, SendCall,
    SendKind, SendMode, HOLD_MILLIS, LIMIT_WAIT_MILLIS,
};
use std::time::Duration;

const NOTHING: ClientMetrics = ClientMetrics {
    open_connections: 0,
    connect_attempts: 0,
    connected: 0,
    connect_errors: 0,
    closed: 0,
    datagrams_sent: 0,
    datagram_bytes_sent: 0,
    send_errors: 0,
};

const WAIT: ConnectionAction = ConnectionAction::Send(SendCall {
    interval_nanos: None,
    kind: SendKind::WaitForRoom,
});

const DROP: ConnectionAction = ConnectionAction::Send(SendCall {
    interval_nanos: None,
    kind: SendKind::DropOldest,
});

/// A client with one connection and its task.
fn connected(target: usize, mode: SendMode, pps: u64) -> (Client, ConnectionTask) {
    let mut client = Client::new(target);
    assert_eq!(client.next_attempt(), AttemptAction::Connect);
    assert_eq!(client.end_attempt(true), AttemptOutcome::StartConnection);
    (client, ConnectionTask::new(mode, 1200, pps))
}

#[test]
fn attempts_stop_at_the_target() {
    let mut client = Client::new(2);
    assert_eq!(client.next_attempt(), AttemptAction::Connect);
    assert_eq!(client.next_attempt(), AttemptAction::Connect);
    assert_eq!(client.next_attempt(), AttemptAction::Pause);
    assert_eq!(client.metrics(), ClientMetrics { connect_attempts: 2, ..NOTHING });
    assert_eq!(client.end_attempt(true), AttemptOutcome::StartConnection);
    assert_eq!(client.next_attempt(), AttemptAction::Pause);
    assert_eq!(client.end_attempt(false), AttemptOutcome::Yield);
    assert_eq!(client.next_attempt(), AttemptAction::Connect);
    assert_eq!(
        client.metrics(),
        ClientMetrics {
            open_connections: 1,
            connect_attempts: 3,
            connected: 1,
            connect_errors: 1,
            ..NOTHING
        }
    );
}

#[test]
fn attempts_stop_at_shutdown() {
    let mut client = Client::new(0);
    assert!(!client.is_shut_down());
    client.shut_down();
    assert!(client.is_shut_down());
    assert_eq!(client.next_attempt(), AttemptAction::Stop);
    assert_eq!(client.metrics(), NOTHING);
}

#[test]
fn an_idle_connection_is_held_until_it_closes() {
    let (mut client, mut task) = connected(1, SendMode::Idle, 0);
    assert_eq!(
        task.advance(ConnectionEvent::Started, &mut client),
        ConnectionAction::HoldSecond
    );
    assert_eq!(
        task.advance(ConnectionEvent::Elapsed, &mut client),
        ConnectionAction::HoldSecond
    );
    assert_eq!(
        task.advance(ConnectionEvent::Closed, &mut client),
        ConnectionAction::Finish
    );
    assert_eq!(
        client.metrics(),
        ClientMetrics { connect_attempts: 1, connected: 1, closed: 1, ..NOTHING }
    );
    assert_eq!(client.next_attempt(), AttemptAction::Connect);
}

#[test]
fn an_idle_connection_is_held_until_shutdown() {
    let (mut client, mut task) = connected(1, SendMode::Idle, 0);
    task.advance(ConnectionEvent::Started, &mut client);
    client.shut_down();
    assert_eq!(
        task.advance(ConnectionEvent::Elapsed, &mut client),
        ConnectionAction::Finish
    );
    let (mut client, mut task) = connected(1, SendMode::Idle, 0);
    client.shut_down();
    assert_eq!(
        task.advance(ConnectionEvent::Started, &mut client),
        ConnectionAction::Finish
    );
}

#[test]
fn a_payload_that_does_not_fit_ends_the_connection() {
    let (mut client, mut task) = connected(1, SendMode::Wait, 0);
    assert_eq!(
        task.advance(ConnectionEvent::Started, &mut client),
        ConnectionAction::ProbeLimit
    );
    assert_eq!(
        task.advance(ConnectionEvent::Limit(None), &mut client),
        ConnectionAction::WaitForLimit
    );
    assert_eq!(
        task.advance(ConnectionEvent::Elapsed, &mut client),
        ConnectionAction::ProbeLimit
    );
    assert_eq!(
        task.advance(ConnectionEvent::Limit(Some(1199)), &mut client),
        ConnectionAction::Finish
    );
    assert_eq!(
        client.metrics(),
        ClientMetrics {
            connect_attempts: 1,
            connected: 1,
            closed: 1,
            send_errors: 1,
            ..NOTHING
        }
    );
}

#[test]
fn a_connection_that_closes_before_its_limit_is_known_is_an_error() {
    let (mut client, mut task) = connected(1, SendMode::Drop, 0);
    task.advance(ConnectionEvent::Started, &mut client);
    task.advance(ConnectionEvent::Limit(None), &mut client);
    assert_eq!(
        task.advance(ConnectionEvent::Closed, &mut client),
        ConnectionAction::Finish
    );
    assert_eq!(client.metrics().send_errors, 1);
    assert_eq!(client.metrics().closed, 1);
    assert_eq!(client.metrics().open_connections, 0);
}

#[test]
fn sends_are_counted() {
    let (mut client, mut task) = connected(1, SendMode::Wait, 0);
    task.advance(ConnectionEvent::Started, &mut client);
    assert_eq!(
        task.advance(ConnectionEvent::Limit(Some(1200)), &mut client),
        WAIT
    );
    for _ in 0..3_000 {
        assert_eq!(
            task.advance(ConnectionEvent::Sent(true), &mut client),
            WAIT
        );
    }
    assert_eq!(client.metrics().datagrams_sent, 3_000);
    assert_eq!(client.metrics().datagram_bytes_sent, 3_600_000);
    assert_eq!(
        task.advance(ConnectionEvent::Sent(false), &mut client),
        ConnectionAction::Finish
    );
    assert_eq!(client.metrics().send_errors, 1);
    assert_eq!(client.metrics().datagrams_sent, 3_000);
}

#[test]
fn a_send_that_fails_at_shutdown_is_no_error() {
    let (mut client, mut task) = connected(1, SendMode::Wait, 0);
    task.advance(ConnectionEvent::Started, &mut client);
    task.advance(ConnectionEvent::Limit(Some(65_535)), &mut client);
    client.shut_down();
    assert_eq!(
        task.advance(ConnectionEvent::Sent(false), &mut client),
        ConnectionAction::Finish
    );
    assert_eq!(client.metrics().send_errors, 0);
    assert_eq!(client.metrics().closed, 1);
}

#[test]
fn sending_ends_at_shutdown() {
    let (mut client, mut task) = connected(1, SendMode::Drop, 0);
    task.advance(ConnectionEvent::Started, &mut client);
    task.advance(ConnectionEvent::Limit(Some(1200)), &mut client);
    client.shut_down();
    assert_eq!(
        task.advance(ConnectionEvent::Sent(true), &mut client),
        ConnectionAction::Finish
    );
    assert_eq!(client.metrics().datagrams_sent, 1);
}

#[test]
fn an_unpaced_dropping_task_yields_every_1024_sends() {
    let (mut client, mut task) = connected(1, SendMode::Drop, 0);
    task.advance(ConnectionEvent::Started, &mut client);
    task.advance(ConnectionEvent::Limit(Some(1200)), &mut client);
    let mut yields = 0;
    for n in 1..=5_000 {
        match task.advance(ConnectionEvent::Sent(true), &mut client) {
            ConnectionAction::Yield => {
                yields += 1;
                assert_eq!(n % 1024, 0);
                assert_eq!(
                    task.advance(ConnectionEvent::Yielded, &mut client),
                    DROP
                );
            }
            action => assert_eq!(action, DROP),
        }
    }
    assert_eq!(yields, 5_000 / 1024);
    assert_eq!(task.since_yield, 5_000 % 1024);
}

#[test]
fn a_paced_dropping_task_never_yields() {
    let (mut client, mut task) = connected(1, SendMode::Drop, 10);
    task.advance(ConnectionEvent::Started, &mut client);
    task.advance(ConnectionEvent::Limit(Some(1200)), &mut client);
    for _ in 0..2_048 {
        assert_eq!(
            task.advance(ConnectionEvent::Sent(true), &mut client),
            ConnectionAction::Send(SendCall {
                interval_nanos: Some(100_000_000),
                kind: SendKind::DropOldest,
            })
        );
    }
}

#[test]
fn a_task_takes_only_what_it_waits_for() {
    let (mut client, mut task) = connected(1, SendMode::Wait, 0);
    assert_eq!(task.phase, Phase::New);
    assert!(task.can_take(ConnectionEvent::Started));
    assert!(!task.can_take(ConnectionEvent::Sent(true)));
    task.advance(ConnectionEvent::Started, &mut client);
    assert!(!task.can_take(ConnectionEvent::Started));
    assert!(task.can_take(ConnectionEvent::Limit(None)));
}

#[test]
fn no_task_begins_to_send_faster_than_a_clock_ticks() {
    let (mut client, mut task) = connected(1, SendMode::Wait, 1_000_000_001);
    task.advance(ConnectionEvent::Started, &mut client);
    assert!(!task.can_take(ConnectionEvent::Limit(Some(1200))));
    assert!(task.can_take(ConnectionEvent::Limit(None)));
    assert!(task.can_take(ConnectionEvent::Limit(Some(1199))));
    assert_eq!(
        task.advance(ConnectionEvent::Limit(Some(1199)), &mut client),
        ConnectionAction::Finish
    );
    let (mut client, mut task) = connected(1, SendMode::Idle, u64::MAX);
    assert_eq!(
        task.advance(ConnectionEvent::Started, &mut client),
        ConnectionAction::HoldSecond
    );
    let (mut client, mut task) = connected(1, SendMode::Wait, 1_000_000_000);
    task.advance(ConnectionEvent::Started, &mut client);
    assert_eq!(
        task.advance(ConnectionEvent::Limit(Some(1200)), &mut client),
        ConnectionAction::Send(SendCall {
            interval_nanos: Some(1),
            kind: SendKind::WaitForRoom,
        })
    );
}

#[test]
fn slots_and_open_connections_stay_in_step() {
    let mut client = Client::new(3);
    let mut tasks = Vec::new();
    for round in 0..50 {
        while client.next_attempt() == AttemptAction::Connect {
            if client.end_attempt(round % 3 != 0) == AttemptOutcome::StartConnection {
                tasks.push(ConnectionTask::new(SendMode::Idle, 1, 0));
            } else {
                break;
            }
        }
        assert!(tasks.len() <= 3);
        assert_eq!(client.metrics().open_connections, tasks.len());
        if let Some(mut task) = tasks.pop() {
            task.advance(ConnectionEvent::Started, &mut client);
            assert_eq!(
                task.advance(ConnectionEvent::Closed, &mut client),
                ConnectionAction::Finish
            );
        }
        assert_eq!(client.metrics().open_connections, tasks.len());
    }
}

#[test]
fn rates_become_intervals() {
    assert_eq!(send_interval_nanos(0), None);
    assert_eq!(send_interval_nanos(1), Some(1_000_000_000));
    assert_eq!(send_interval_nanos(3), Some(333_333_333));
    assert_eq!(send_interval_nanos(1_000_000_000), Some(1));
}

#[test]
fn a_report_starts_the_counts_over() {
    let (mut client, mut task) = connected(5, SendMode::Wait, 0);
    client.next_attempt();
    client.end_attempt(false);
    task.advance(ConnectionEvent::Started, &mut client);
    task.advance(ConnectionEvent::Limit(Some(1200)), &mut client);
    task.advance(ConnectionEvent::Sent(true), &mut client);
    assert_eq!(
        client.report(Duration::from_secs(1)),
        "open_connections=1 connect_attempts/s=2 connected/s=1 connect_errors/s=1 closed/s=0 \
         datagrams_sent/s=1 send_throughput=9.60Kbps send_errors/s=0"
    );
    assert_eq!(client.metrics(), ClientMetrics { open_connections: 1, ..NOTHING });
    assert_eq!(
        client.report(Duration::from_secs(1)),
        "open_connections=1 connect_attempts/s=0 connected/s=0 connect_errors/s=0 closed/s=0 \
         datagrams_sent/s=0 send_throughput=0bps send_errors/s=0"
    );
}

#[test]
fn client_reports_add_up() {
    let (mut client, mut task) = connected(1, SendMode::Drop, 0);
    task.advance(ConnectionEvent::Started, &mut client);
    let mut action = task.advance(ConnectionEvent::Limit(Some(1200)), &mut client);
    let mut reported = 0;
    let mut sent = 0;
    while sent < 3000 {
        action = match action {
            ConnectionAction::Send(_) => {
                sent += 1;
                task.advance(ConnectionEvent::Sent(true), &mut client)
            }
            ConnectionAction::Yield => {
                reported += client.metrics().datagrams_sent;
                client.report(Duration::from_secs(1));
                task.advance(ConnectionEvent::Yielded, &mut client)
            }
            _ => unreachable!(),
        };
    }
    assert_eq!(reported, 2048);
    assert_eq!(client.metrics().datagrams_sent, 952);
}

#[test]
fn waits_are_as_long_as_stated() {
    assert_eq!(ATTEMPT_PAUSE_MILLIS, 1);
    assert_eq!(HOLD_MILLIS, 1_000);
    assert_eq!(LIMIT_WAIT_MILLIS, 10);
    assert_eq!(datagram_bench::handshake::IGNORE_PAUSE_MILLIS, 1);
    assert_eq!(datagram_bench::duration::REPORT_INTERVAL_MILLIS, 1_000);
}
