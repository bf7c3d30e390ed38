use exchange_loop::{
    collect_events, remaining_span, Action, Client, ExchangeError, Failure, Input, Readiness,
    Registry, Server, Source, Step,
};
use mio::net::{UnixListener, UnixStream};
use mio::{Events, Poll, Token};
use std::io::{Read, Write};
use std::time::{Duration, SystemTime, UNIX_EPOCH};

/// An address in the abstract namespace, so that no file is left behind.
fn socket_path(name: &str) -> String {
    let nanos = SystemTime::now().duration_since(UNIX_EPOCH).unwrap().as_nanos();
    format!("\0exchange_loop_{}_{}", name, nanos)
}

fn poll_once(poll: &mut Poll, events: &mut Events) -> Input {
    match poll.poll(events, Some(Duration::from_millis(1))) {
        Ok(()) => Input::Polled(Ok(collect_events(events))),
        Err(error) => Input::Polled(Err(Failure::classify(error))),
    }
}

struct ServerSide {
    poll: Poll,
    events: Events,
    listener: UnixListener,
    accepted: Option<UnixStream>,
    connections: Registry<UnixStream>,
    receive: [u8; 4096],
    send: &'static [u8],
}

impl ServerSide {
    fn new(path: &str, event_buffer_capacity: usize, send: &'static [u8]) -> ServerSide {
        ServerSide {
            poll: Poll::new().unwrap(),
            events: Events::with_capacity(event_buffer_capacity),
            listener: UnixListener::bind(path).unwrap(),
            accepted: None,
            connections: Registry::new(),
            receive: [0; 4096],
            send,
        }
    }

    fn perform(&mut self, action: Action) -> Input {
        match action {
            Action::Register { source: Source::Listener, token, interest } => Input::Completed(
                self.poll
                    .registry()
                    .register(&mut self.listener, Token(token), interest.to_mio())
                    .map_err(Failure::classify),
            ),
            Action::Register { source: Source::Connection, token, interest } => {
                let mut connection = self.accepted.take().unwrap();
                let result =
                    self.poll.registry().register(&mut connection, Token(token), interest.to_mio());
                if result.is_ok() {
                    self.connections.insert(token, connection);
                }
                Input::Completed(result.map_err(Failure::classify))
            }
            Action::Poll => poll_once(&mut self.poll, &mut self.events),
            Action::Accept => match self.listener.accept() {
                Ok((connection, _address)) => {
                    self.accepted = Some(connection);
                    Input::Accepted(Ok(()))
                }
                Err(error) => Input::Accepted(Err(Failure::classify(error))),
            },
            Action::Read { token, offset } => {
                let connection = self.connections.get_mut(token).unwrap();
                let span = remaining_span(&mut self.receive, offset);
                Input::Read(connection.read(span).map_err(Failure::classify))
            }
            Action::Write { token } => {
                let connection = self.connections.get_mut(token).unwrap();
                Input::Written(connection.write(self.send).map_err(Failure::classify))
            }
            Action::Deregister { token } => {
                let mut connection = self.connections.remove(token).unwrap();
                Input::Completed(
                    self.poll.registry().deregister(&mut connection).map_err(Failure::classify),
                )
            }
            Action::Reregister { .. } => unreachable!(),
        }
    }
}

struct ClientSide {
    poll: Poll,
    events: Events,
    connection: UnixStream,
    receive: [u8; 4096],
    send: &'static [u8],
}

impl ClientSide {
    fn new(connection: UnixStream, event_buffer_capacity: usize, send: &'static [u8]) -> Self {
        ClientSide {
            poll: Poll::new().unwrap(),
            events: Events::with_capacity(event_buffer_capacity),
            connection,
            receive: [0; 4096],
            send,
        }
    }

    fn perform(&mut self, action: Action) -> Input {
        match action {
            Action::Register { token, interest, .. } => Input::Completed(
                self.poll
                    .registry()
                    .register(&mut self.connection, Token(token), interest.to_mio())
                    .map_err(Failure::classify),
            ),
            Action::Reregister { token, interest } => Input::Completed(
                self.poll
                    .registry()
                    .reregister(&mut self.connection, Token(token), interest.to_mio())
                    .map_err(Failure::classify),
            ),
            Action::Poll => poll_once(&mut self.poll, &mut self.events),
            Action::Read { offset, .. } => {
                let span = remaining_span(&mut self.receive, offset);
                Input::Read(self.connection.read(span).map_err(Failure::classify))
            }
            Action::Write { .. } => {
                Input::Written(self.connection.write(self.send).map_err(Failure::classify))
            }
            Action::Accept | Action::Deregister { .. } => unreachable!(),
        }
    }
}

/// Runs the two loops in turn, one action each, until both have returned.
fn run(
    server_side: &mut ServerSide,
    client_side: &mut ClientSide,
    server: Server,
    client: Client,
) -> (Result<(), ExchangeError>, Result<(), ExchangeError>) {
    let mut server = Step::Continue(server);
    let mut client = Step::Continue(client);
    for _ in 0..10_000 {
        server = match server {
            Step::Continue(machine) => {
                let input = server_side.perform(machine.action());
                machine.step(input)
            }
            done => done,
        };
        client = match client {
            Step::Continue(machine) => {
                let input = client_side.perform(machine.action());
                machine.step(input)
            }
            done => done,
        };
        if let (Step::Done(_), Step::Done(_)) = (&server, &client) {
            break;
        }
    }
    match (server, client) {
        (Step::Done(server), Step::Done(client)) => (server, client),
        _ => panic!("the loops did not return"),
    }
}

#[test]
fn it_works() {
    static SEND_TO_CLIENT: &'static [u8] = b"send to client\n";
    static SEND_TO_SERVER: &'static [u8] = b"send to server\n";

    let path = socket_path("it_works");
    let mut server_side = ServerSide::new(&path, 128, SEND_TO_CLIENT);
    let mut client_side = ClientSide::new(UnixStream::connect(&path).unwrap(), 128, SEND_TO_SERVER);

    let (server, client) = run(
        &mut server_side,
        &mut client_side,
        Server::new(1, SEND_TO_CLIENT.len(), 4096),
        Client::new(2, SEND_TO_SERVER.len(), 4096),
    );
    assert!(server.is_ok());
    assert!(client.is_ok());

    let receive_from_server = client_side.receive;
    let receive_from_client = server_side.receive;
    assert_eq!(&receive_from_server[..SEND_TO_CLIENT.len()], SEND_TO_CLIENT);
    assert_eq!(&receive_from_client[..SEND_TO_SERVER.len()], SEND_TO_SERVER)
}

#[test]
fn payloads_as_long_as_the_buffer_arrive_whole() {
    static TO_CLIENT: [u8; 4096] = [0x5a; 4096];
    static TO_SERVER: [u8; 4096] = [0xa5; 4096];

    let path = socket_path("whole_buffer");
    let mut server_side = ServerSide::new(&path, 128, &TO_CLIENT);
    let mut client_side = ClientSide::new(UnixStream::connect(&path).unwrap(), 128, &TO_SERVER);

    let (server, client) = run(
        &mut server_side,
        &mut client_side,
        Server::new(1, 4096, 4096),
        Client::new(2, 4096, 4096),
    );
    assert!(server.is_ok());
    assert!(client.is_ok());
    assert_eq!(client_side.receive, TO_CLIENT);
    assert_eq!(server_side.receive, TO_SERVER);
}

#[test]
fn server_returns_when_the_client_hangs_up_early() {
    let path = socket_path("hang_up");
    let mut server_side = ServerSide::new(&path, 128, b"send to client\n");
    let mut connection = UnixStream::connect(&path).unwrap();
    assert_eq!(connection.write(b"send").unwrap(), 4);
    drop(connection);

    let mut server = Step::Continue(Server::new(1, 15, 4096));
    let mut actions = Vec::new();
    for _ in 0..10_000 {
        server = match server {
            Step::Continue(machine) => {
                actions.push(machine.action());
                let input = server_side.perform(machine.action());
                machine.step(input)
            }
            done => done,
        };
    }
    assert!(matches!(server, Step::Done(Ok(()))));
    assert!(!actions.iter().any(|action| matches!(action, Action::Write { .. })));
    assert_eq!(actions.last(), Some(&Action::Deregister { token: 2 }));
    assert_eq!(&server_side.receive[..4], b"send");
    assert!(server_side.connections.is_empty());
}

#[test]
fn a_poller_delivers_the_events_it_collected() {
    let mut poll = Poll::new().unwrap();
    let mut events = Events::with_capacity(8);
    assert!(collect_events(&events).is_empty());

    let (mut near, mut far) = UnixStream::pair().unwrap();
    poll.registry().register(&mut near, Token(7), mio::Interest::WRITABLE).unwrap();
    poll.registry().register(&mut far, Token(8), mio::Interest::READABLE).unwrap();
    poll.poll(&mut events, Some(Duration::from_millis(100))).unwrap();
    assert_eq!(
        collect_events(&events),
        vec![Readiness { token: 7, readable: false, writable: true }]
    );

    assert_eq!(near.write(b"x").unwrap(), 1);
    poll.poll(&mut events, Some(Duration::from_millis(100))).unwrap();
    let batch = collect_events(&events);
    assert!(batch.contains(&Readiness { token: 8, readable: true, writable: false }));
    let expected: Vec<Readiness> = events
        .iter()
        .map(|event| Readiness {
            token: event.token().0,
            readable: event.is_readable(),
            writable: event.is_writable(),
        })
        .collect();
    assert_eq!(batch, expected);
}
