use exchange_loop::{
    Action, Client, ExchangeError, Failure, Input, InterestSet, Readiness, Source, Step,
};
use std::io::{Error, ErrorKind};

const TOKEN: usize = 2;
const PAYLOAD: usize = 15;
const CAPACITY: usize = 4096;

fn go_on(step: Step<Client>) -> Client {
    match step {
        Step::Continue(client) => client,
        Step::Done(result) => panic!("the loop returned {:?}", result),
    }
}

fn done(step: Step<Client>) -> Result<(), ExchangeError> {
    match step {
        Step::Done(result) => result,
        Step::Continue(client) => panic!("the loop goes on with {:?}", client.action()),
    }
}

fn failure(kind: ErrorKind) -> Failure {
    Failure::classify(Error::from(kind))
}

fn event(token: usize, readable: bool, writable: bool) -> Readiness {
    Readiness { token, readable, writable }
}

const WRITE: Action = Action::Write { token: TOKEN };

fn read(offset: usize) -> Action {
    Action::Read { token: TOKEN, offset }
}

/// A client whose connection is registered and that waits for the poller.
fn registered() -> Client {
    go_on(Client::new(TOKEN, PAYLOAD, CAPACITY).step(Input::Completed(Ok(()))))
}

/// A client that has written its payload and waits for a read at offset 0.
fn reading() -> Client {
    let client = go_on(registered().step(Input::Polled(Ok(vec![event(TOKEN, true, true)]))));
    let client = go_on(client.step(Input::Written(Ok(15))));
    let client = go_on(client.step(Input::Completed(Ok(()))));
    assert_eq!(client.action(), read(0));
    client
}

#[test]
fn client_registers_its_connection_for_both_conditions() {
    let client = Client::new(TOKEN, PAYLOAD, CAPACITY);
    assert_eq!(
        client.action(),
        Action::Register { source: Source::Connection, token: 2, interest: InterestSet::Both }
    );
    assert!(!client.has_written());
    assert_eq!(client.bytes_read(), 0);
}

#[test]
fn client_fails_where_the_connection_cannot_be_registered() {
    let step = Client::new(TOKEN, PAYLOAD, CAPACITY)
        .step(Input::Completed(Err(failure(ErrorKind::PermissionDenied))));
    match done(step) {
        Err(ExchangeError::Io(error)) => assert_eq!(error.kind(), ErrorKind::PermissionDenied),
        other => panic!("{:?}", other),
    }
}

#[test]
fn client_polls_until_the_connection_is_writable() {
    let client = registered();
    assert_eq!(client.action(), Action::Poll);
    let client = go_on(client.step(Input::Polled(Err(failure(ErrorKind::Interrupted)))));
    assert_eq!(client.action(), Action::Poll);
    let client = go_on(client.step(Input::Polled(Ok(vec![event(TOKEN, true, false)]))));
    assert_eq!(client.action(), Action::Poll);
    let client = go_on(client.step(Input::Polled(Ok(vec![event(7, true, true)]))));
    assert_eq!(client.action(), Action::Poll);
    let client = go_on(client.step(Input::Polled(Ok(vec![event(TOKEN, false, true)]))));
    assert_eq!(client.action(), WRITE);
}

#[test]
fn client_fails_on_a_poll_error() {
    match done(registered().step(Input::Polled(Err(failure(ErrorKind::Other))))) {
        Err(ExchangeError::Io(error)) => assert_eq!(error.kind(), ErrorKind::Other),
        other => panic!("{:?}", other),
    }
}

#[test]
fn client_writes_reregisters_reads_and_returns() {
    let client = go_on(registered().step(Input::Polled(Ok(vec![event(TOKEN, false, true)]))));
    assert_eq!(client.action(), WRITE);
    let client = go_on(client.step(Input::Written(Ok(15))));
    assert_eq!(
        client.action(),
        Action::Reregister { token: 2, interest: InterestSet::Readable }
    );
    assert!(client.has_written());
    let client = go_on(client.step(Input::Completed(Ok(()))));
    assert_eq!(client.action(), Action::Poll);
    let client = go_on(client.step(Input::Polled(Ok(vec![event(TOKEN, true, false)]))));
    assert_eq!(client.action(), read(0));
    assert!(matches!(done(client.step(Input::Read(Ok(15)))), Ok(())));
}

#[test]
fn client_reads_on_the_event_it_wrote_on() {
    let client = go_on(registered().step(Input::Polled(Ok(vec![event(TOKEN, true, true)]))));
    let client = go_on(client.step(Input::Written(Ok(15))));
    let client = go_on(client.step(Input::Completed(Ok(()))));
    assert_eq!(client.action(), read(0));
}

#[test]
fn client_fails_on_a_short_write() {
    let client = go_on(registered().step(Input::Polled(Ok(vec![event(TOKEN, false, true)]))));
    assert!(matches!(done(client.step(Input::Written(Ok(14)))), Err(ExchangeError::ShortWrite)));
    let client = go_on(registered().step(Input::Polled(Ok(vec![event(TOKEN, false, true)]))));
    assert!(matches!(done(client.step(Input::Written(Ok(0)))), Err(ExchangeError::ShortWrite)));
}

#[test]
fn client_waits_when_the_write_would_block() {
    let batch = vec![event(TOKEN, true, true), event(TOKEN, false, true)];
    let client = go_on(registered().step(Input::Polled(Ok(batch))));
    let client = go_on(client.step(Input::Written(Err(failure(ErrorKind::WouldBlock)))));
    assert_eq!(client.action(), WRITE);
    assert!(!client.has_written());
    let client = go_on(client.step(Input::Written(Err(failure(ErrorKind::WouldBlock)))));
    assert_eq!(client.action(), Action::Poll);
}

#[test]
fn client_retries_an_interrupted_write() {
    let client = go_on(registered().step(Input::Polled(Ok(vec![event(TOKEN, false, true)]))));
    let client = go_on(client.step(Input::Written(Err(failure(ErrorKind::Interrupted)))));
    assert_eq!(client.action(), WRITE);
    assert!(!client.has_written());
}

#[test]
fn client_fails_on_any_other_write_error() {
    let client = go_on(registered().step(Input::Polled(Ok(vec![event(TOKEN, false, true)]))));
    match done(client.step(Input::Written(Err(failure(ErrorKind::ConnectionRefused))))) {
        Err(ExchangeError::Io(error)) => assert_eq!(error.kind(), ErrorKind::ConnectionRefused),
        other => panic!("{:?}", other),
    }
}

#[test]
fn client_fails_where_the_connection_cannot_be_reregistered() {
    let client = go_on(registered().step(Input::Polled(Ok(vec![event(TOKEN, false, true)]))));
    let client = go_on(client.step(Input::Written(Ok(15))));
    match done(client.step(Input::Completed(Err(failure(ErrorKind::NotFound))))) {
        Err(ExchangeError::Io(error)) => assert_eq!(error.kind(), ErrorKind::NotFound),
        other => panic!("{:?}", other),
    }
}

#[test]
fn client_accumulates_partial_reads() {
    let client = go_on(reading().step(Input::Read(Ok(5))));
    assert_eq!(client.action(), read(5));
    assert_eq!(client.bytes_read(), 5);
    let client = go_on(client.step(Input::Read(Ok(9))));
    assert_eq!(client.action(), read(14));
    assert!(matches!(done(client.step(Input::Read(Ok(1)))), Ok(())));
}

#[test]
fn client_returns_when_more_than_expected_arrives() {
    let client = go_on(reading().step(Input::Read(Ok(5))));
    assert!(matches!(done(client.step(Input::Read(Ok(4000)))), Ok(())));
}

#[test]
fn client_keeps_the_count_when_a_read_would_block() {
    let client = go_on(reading().step(Input::Read(Ok(5))));
    let client = go_on(client.step(Input::Read(Err(failure(ErrorKind::WouldBlock)))));
    assert_eq!(client.action(), Action::Poll);
    assert_eq!(client.bytes_read(), 5);
    let client = go_on(client.step(Input::Polled(Ok(vec![event(TOKEN, true, true)]))));
    assert_eq!(client.action(), read(5));
    assert!(matches!(done(client.step(Input::Read(Ok(10)))), Ok(())));
}

#[test]
fn client_retries_an_interrupted_read() {
    let client = go_on(reading().step(Input::Read(Ok(5))));
    let client = go_on(client.step(Input::Read(Err(failure(ErrorKind::Interrupted)))));
    assert_eq!(client.action(), read(5));
}

#[test]
fn client_fails_on_any_other_read_error() {
    match done(reading().step(Input::Read(Err(failure(ErrorKind::ConnectionReset))))) {
        Err(ExchangeError::Io(error)) => assert_eq!(error.kind(), ErrorKind::ConnectionReset),
        other => panic!("{:?}", other),
    }
}

#[test]
fn client_stops_reading_when_the_peer_closes_and_never_writes_again() {
    let client = go_on(reading().step(Input::Read(Ok(5))));
    let client = go_on(client.step(Input::Read(Ok(0))));
    assert_eq!(client.action(), Action::Poll);
    assert_eq!(client.bytes_read(), 5);
    assert!(client.has_written());
    let client = go_on(client.step(Input::Polled(Ok(vec![event(TOKEN, false, true)]))));
    assert_eq!(client.action(), Action::Poll);
    let client = go_on(client.step(Input::Polled(Ok(vec![event(TOKEN, true, true)]))));
    assert_eq!(client.action(), read(5));
}

#[test]
fn client_rejects_a_read_beyond_the_buffer() {
    let client = go_on(Client::new(TOKEN, 100, 10).step(Input::Completed(Ok(()))));
    let client = go_on(client.step(Input::Polled(Ok(vec![event(TOKEN, true, true)]))));
    let client = go_on(client.step(Input::Written(Ok(100))));
    let client = go_on(client.step(Input::Completed(Ok(()))));
    let client = go_on(client.step(Input::Read(Ok(10))));
    assert_eq!(client.action(), read(10));
    assert!(matches!(done(client.step(Input::Read(Ok(1)))), Err(ExchangeError::Overrun)));
}

#[test]
fn client_ignores_an_input_that_answers_nothing() {
    let client = registered();
    let client = go_on(client.step(Input::Read(Ok(15))));
    let client = go_on(client.step(Input::Written(Ok(15))));
    let client = go_on(client.step(Input::Accepted(Ok(()))));
    let client = go_on(client.step(Input::Completed(Ok(()))));
    assert_eq!(client.action(), Action::Poll);
    assert!(!client.has_written());
    assert_eq!(client.bytes_read(), 0);
}
