//! The server's side of the exchange.
//!
//! The listener is registered once for readable readiness under its reserved
//! token. On each wakeup the events are handled in the order in which they
//! came. An event for the reserved token has the pending connections
//! accepted until the listener would block; each gets a fresh token and is
//! registered for both conditions. An event for a connection's token has the
//! connection read from while it still awaits data and the event says it is
//! readable, and written to once as many bytes as the payload holds have
//! arrived and the event says it is writable. The loop returns as soon as
//! one connection's exchange is over.

use crate::failure::{ErrorClass, ExchangeError, Failure};
use crate::interest::InterestSet;
use crate::protocol::{Action, Exchange, Input, Phase, Source, Step};
use crate::readiness::Readiness;
use crate::registry::Registry;
use crate::token::{lemma_minted_tokens_increase, nth_token, token_after, TokenMint};
use vstd::prelude::*;

verus! {

/// The server's state as a mathematical value.
pub struct ServerModel {
    /// The listener's token.
    pub reserved: usize,
    /// The length of the payload: how many bytes a connection has to deliver
    /// before it is replied to, and how many bytes the reply holds.
    pub expected: usize,
    /// The size of the receive buffer.
    pub capacity: usize,
    /// The token minted last, or `reserved` before the first mint.
    pub last_token: usize,
    /// The exchanges of the registered connections, by token.
    pub exchanges: Map<usize, Exchange>,
    /// The events of the current wakeup.
    pub batch: Seq<Readiness>,
    /// The index in `batch` of the event that is being handled.
    pub cursor: nat,
    /// The action whose outcome the server is waiting for.
    pub pending: Action,
}

impl ServerModel {
    /// The state before anything has happened: the listener is to be
    /// registered.
    pub open spec fn initial(reserved: usize, expected: usize, capacity: usize) -> ServerModel {
        ServerModel {
            reserved,
            expected,
            capacity,
            last_token: reserved,
            exchanges: Map::empty(),
            batch: Seq::empty(),
            cursor: 0,
            pending: Action::Register {
                source: Source::Listener,
                token: reserved,
                interest: InterestSet::Readable,
            },
        }
    }

    /// Every connection's exchange is well-formed, so that no connection has
    /// accumulated more than the receive buffer holds and none is replied to
    /// before it has delivered as many bytes as the payload holds; and the
    /// server works on a source only while it handles an event for it.
    pub open spec fn wf(self) -> bool {
        &&& self.exchanges.dom().finite()
        &&& self.cursor <= self.batch.len()
        &&& forall|token: usize| #[trigger]
            self.exchanges.contains_key(token) ==> self.exchanges[token].wf(
                self.expected,
                self.capacity,
            )
        &&& match self.pending {
            Action::Read { token, offset } => {
                &&& self.cursor < self.batch.len()
                &&& self.batch[self.cursor as int].token == token
                &&& self.exchanges.contains_key(token)
                &&& self.exchanges[token].phase.awaits_data()
                &&& self.exchanges[token].bytes_read == offset
            },
            Action::Write { token } => {
                &&& self.cursor < self.batch.len()
                &&& self.batch[self.cursor as int].token == token
                &&& self.exchanges.contains_key(token)
                &&& !self.exchanges[token].phase.awaits_data()
            },
            Action::Accept | Action::Register { source: Source::Connection, .. } => {
                &&& self.cursor < self.batch.len()
                &&& self.batch[self.cursor as int].token == self.reserved
            },
            Action::Poll | Action::Register { source: Source::Listener, .. } => self.batch.len()
                == 0,
            Action::Deregister { .. } => true,
            Action::Reregister { .. } => false,
        }
    }

    /// What `event` calls for, if anything.
    pub open spec fn demand(self, event: Readiness) -> Option<Action> {
        if event.token == self.reserved {
            Some(Action::Accept)
        } else if self.exchanges.contains_key(event.token) {
            let exchange = self.exchanges[event.token];
            if exchange.phase.awaits_data() {
                if event.readable {
                    Some(Action::Read { token: event.token, offset: exchange.bytes_read })
                } else {
                    None
                }
            } else if event.writable {
                Some(Action::Write { token: event.token })
            } else {
                None
            }
        } else {
            None
        }
    }

    /// The state in which the server waits next, looking through the events
    /// of the batch from index `from` on: for what the first event that
    /// calls for anything calls for, and for the poller where none does.
    pub open spec fn dispatch(self, from: nat) -> ServerModel
        decreases self.batch.len() - from,
    {
        if from >= self.batch.len() {
            ServerModel { batch: Seq::empty(), cursor: 0, pending: Action::Poll, ..self }
        } else {
            match self.demand(self.batch[from as int]) {
                Some(action) => ServerModel { cursor: from, pending: action, ..self },
                None => self.dispatch(from + 1),
            }
        }
    }

    /// The state in which the connection under `token` has left the
    /// registry and is to be deregistered from the poller.
    pub open spec fn teardown(self, token: usize) -> ServerModel {
        ServerModel {
            exchanges: self.exchanges.remove(token),
            pending: Action::Deregister { token },
            ..self
        }
    }

    /// The outcome of a read from the connection under `token`.
    pub open spec fn on_read(self, token: usize, result: Result<usize, Failure>) -> Step<
        ServerModel,
    > {
        if !self.exchanges.contains_key(token) {
            Step::Continue(self.dispatch(self.cursor + 1))
        } else {
            let exchange = self.exchanges[token];
            match result {
                Ok(n) => {
                    if n == 0 {
                        Step::Continue(self.teardown(token))
                    } else if exchange.bytes_read > self.capacity || n > self.capacity
                        - exchange.bytes_read {
                        Step::Done(Err(ExchangeError::Overrun))
                    } else {
                        let total = (exchange.bytes_read + n) as usize;
                        if total >= self.expected {
                            let complete = Exchange {
                                phase: Phase::ReadComplete,
                                bytes_read: total,
                            };
                            Step::Continue(
                                ServerModel {
                                    exchanges: self.exchanges.insert(token, complete),
                                    ..self
                                }.dispatch(self.cursor),
                            )
                        } else {
                            let partial = Exchange { phase: Phase::Reading, bytes_read: total };
                            Step::Continue(
                                ServerModel {
                                    exchanges: self.exchanges.insert(token, partial),
                                    pending: Action::Read { token, offset: total },
                                    ..self
                                },
                            )
                        }
                    }
                },
                Err(failure) => match failure.class {
                    ErrorClass::Interrupted => Step::Continue(self),
                    ErrorClass::WouldBlock => Step::Continue(self.dispatch(self.cursor + 1)),
                    ErrorClass::Other => Step::Done(Err(ExchangeError::Io(failure.source))),
                },
            }
        }
    }

    /// The outcome of writing the payload to the connection under `token`.
    pub open spec fn on_written(self, token: usize, result: Result<usize, Failure>) -> Step<
        ServerModel,
    > {
        match result {
            Ok(n) => {
                if n < self.expected {
                    Step::Done(Err(ExchangeError::ShortWrite))
                } else {
                    Step::Continue(self.teardown(token))
                }
            },
            Err(failure) => match failure.class {
                ErrorClass::Interrupted => Step::Continue(self),
                ErrorClass::WouldBlock => {
                    if self.exchanges.contains_key(token) {
                        let deferred = Exchange {
                            phase: Phase::Writing,
                            bytes_read: self.exchanges[token].bytes_read,
                        };
                        Step::Continue(
                            ServerModel {
                                exchanges: self.exchanges.insert(token, deferred),
                                ..self
                            }.dispatch(self.cursor + 1),
                        )
                    } else {
                        Step::Continue(self.dispatch(self.cursor + 1))
                    }
                },
                ErrorClass::Other => Step::Done(Err(ExchangeError::Io(failure.source))),
            },
        }
    }

    /// The outcome of an accept.
    pub open spec fn on_accepted(self, result: Result<(), Failure>) -> Step<ServerModel> {
        match result {
            Ok(_) => {
                let token = token_after(self.last_token, self.reserved);
                Step::Continue(
                    ServerModel {
                        last_token: token,
                        pending: Action::Register {
                            source: Source::Connection,
                            token,
                            interest: InterestSet::Both,
                        },
                        ..self
                    },
                )
            },
            Err(failure) => match failure.class {
                ErrorClass::Interrupted => Step::Continue(self),
                ErrorClass::WouldBlock => Step::Continue(self.dispatch(self.cursor + 1)),
                ErrorClass::Other => Step::Done(Err(ExchangeError::Io(failure.source))),
            },
        }
    }

    /// The outcome of a poll.
    pub open spec fn on_polled(self, result: Result<Vec<Readiness>, Failure>) -> Step<
        ServerModel,
    > {
        match result {
            Ok(batch) => Step::Continue(
                ServerModel { batch: batch@, cursor: 0, ..self }.dispatch(0),
            ),
            Err(failure) => {
                if failure.class == ErrorClass::Interrupted {
                    Step::Continue(self)
                } else {
                    Step::Done(Err(ExchangeError::Io(failure.source)))
                }
            },
        }
    }

    /// The outcome of a registration or deregistration.
    pub open spec fn on_completed(self, result: Result<(), Failure>) -> Step<ServerModel> {
        match result {
            Err(failure) => Step::Done(Err(ExchangeError::Io(failure.source))),
            Ok(_) => match self.pending {
                Action::Register { source: Source::Listener, .. } => Step::Continue(
                    ServerModel { pending: Action::Poll, ..self },
                ),
                Action::Register { source: Source::Connection, token, .. } => Step::Continue(
                    ServerModel {
                        exchanges: self.exchanges.insert(
                            token,
                            Exchange { phase: Phase::Accepted, bytes_read: 0 },
                        ),
                        pending: Action::Accept,
                        ..self
                    },
                ),
                Action::Deregister { .. } => Step::Done(Ok(())),
                _ => Step::Continue(self),
            },
        }
    }

    /// The state once the listener has handed out one more connection and
    /// the connection has been registered; `self` where the server does not
    /// get that far.
    pub open spec fn accept_one(self) -> ServerModel {
        match self.step(Input::Accepted(Ok(()))) {
            Step::Continue(registering) => match registering.step(Input::Completed(Ok(()))) {
                Step::Continue(accepting) => accepting,
                Step::Done(_) => self,
            },
            Step::Done(_) => self,
        }
    }

    /// The state once `n` connections in a row have been accepted and
    /// registered.
    pub open spec fn accept_many(self, n: nat) -> ServerModel
        decreases n,
    {
        if n == 0 {
            self
        } else {
            self.accept_many((n - 1) as nat).accept_one()
        }
    }

    /// The server's transition: where it stands once `input` has come in.
    /// An input that does not report on the pending action changes nothing.
    pub open spec fn step(self, input: Input) -> Step<ServerModel> {
        if !self.pending.answered_by(input) {
            Step::Continue(self)
        } else {
            match input {
                Input::Completed(result) => self.on_completed(result),
                Input::Polled(result) => self.on_polled(result),
                Input::Accepted(result) => self.on_accepted(result),
                Input::Read(result) => match self.pending {
                    Action::Read { token, .. } => self.on_read(token, result),
                    _ => Step::Continue(self),
                },
                Input::Written(result) => match self.pending {
                    Action::Write { token } => self.on_written(token, result),
                    _ => Step::Continue(self),
                },
            }
        }
    }
}

/// The server's side of the exchange, as a machine that is told what
/// happened and says what to do next.
pub struct Server {
    expected: usize,
    capacity: usize,
    mint: TokenMint,
    connections: Registry<Exchange>,
    batch: Vec<Readiness>,
    cursor: usize,
    pending: Action,
}

impl View for Server {
    type V = ServerModel;

    closed spec fn view(&self) -> ServerModel {
        ServerModel {
            reserved: self.mint.reserved(),
            expected: self.expected,
            capacity: self.capacity,
            last_token: self.mint.last(),
            exchanges: self.connections@,
            batch: self.batch@,
            cursor: self.cursor as nat,
            pending: self.pending,
        }
    }
}

impl View for Step<Server> {
    type V = Step<ServerModel>;

    open spec fn view(&self) -> Step<ServerModel> {
        match *self {
            Step::Continue(server) => Step::Continue(server@),
            Step::Done(result) => Step::Done(result),
        }
    }
}

impl Server {
    /// A server whose listener has the token `reserved`, whose payload is
    /// `payload_len` bytes long and whose receive buffer holds `capacity`
    /// bytes. Its first action is to register the listener.
    pub fn new(reserved: usize, payload_len: usize, capacity: usize) -> (server: Server)
        ensures
            server@ == ServerModel::initial(reserved, payload_len, capacity),
            server@.wf(),
    {
        let server = Server {
            expected: payload_len,
            capacity,
            mint: TokenMint::new(reserved),
            connections: Registry::new(),
            batch: Vec::new(),
            cursor: 0,
            pending: Action::Register {
                source: Source::Listener,
                token: reserved,
                interest: InterestSet::Readable,
            },
        };
        assert(server@.exchanges =~= Map::empty());
        assert(server@.batch =~= Seq::empty());
        server
    }

    /// The action whose outcome the server is waiting for.
    pub fn action(&self) -> (action: Action)
        ensures
            action == self@.pending,
    {
        self.pending
    }

    /// The exchange of the connection under `token`.
    pub fn exchange(&self, token: usize) -> (exchange: Option<Exchange>)
        ensures
            exchange == (if self@.exchanges.contains_key(token) {
                Some(self@.exchanges[token])
            } else {
                None
            }),
    {
        match self.connections.get(token) {
            Some(exchange) => Some(*exchange),
            None => None,
        }
    }

    /// How many connections are registered.
    pub fn connections(&self) -> (count: usize)
        ensures
            count == self@.exchanges.len(),
    {
        self.connections.len()
    }

    fn demand(&self, event: Readiness) -> (action: Option<Action>)
        ensures
            action == self@.demand(event),
    {
        if event.token == self.mint.reserved_token() {
            return Some(Action::Accept);
        }
        match self.connections.get(event.token) {
            Some(exchange) => {
                let awaits_data = match exchange.phase {
                    Phase::Accepted | Phase::Reading => true,
                    _ => false,
                };
                if awaits_data {
                    if event.readable {
                        Some(Action::Read { token: event.token, offset: exchange.bytes_read })
                    } else {
                        None
                    }
                } else if event.writable {
                    Some(Action::Write { token: event.token })
                } else {
                    None
                }
            },
            None => None,
        }
    }

    fn dispatch(self, from: usize) -> (next: Server)
        ensures
            next@ == self@.dispatch(from as nat),
    {
        let mut server = self;
        let mut index = from;
        while index < server.batch.len()
            invariant
                server@ == self@,
                self@.dispatch(index as nat) == self@.dispatch(from as nat),
            decreases server.batch.len() - index,
        {
            let event = server.batch[index];
            match server.demand(event) {
                Some(action) => {
                    server.cursor = index;
                    server.pending = action;
                    return server;
                },
                None => {},
            }
            index = index + 1;
        }
        server.batch = Vec::new();
        server.cursor = 0;
        server.pending = Action::Poll;
        assert(server@.batch =~= Seq::empty());
        server
    }

    /// Goes on with the event after the one that is being handled.
    fn dispatch_next(self) -> (next: Server)
        ensures
            next@ == self@.dispatch(self@.cursor + 1),
    {
        if self.cursor < self.batch.len() {
            let from = self.cursor + 1;
            self.dispatch(from)
        } else {
            let from = self.cursor;
            self.dispatch(from)
        }
    }

    fn teardown(self, token: usize) -> (next: Server)
        ensures
            next@ == self@.teardown(token),
    {
        let mut server = self;
        server.connections.remove(token);
        server.pending = Action::Deregister { token };
        server
    }

    fn on_read(self, token: usize, result: Result<usize, Failure>) -> (next: Step<Server>)
        ensures
            next@ == self@.on_read(token, result),
    {
        let exchange = match self.connections.get(token) {
            Some(exchange) => *exchange,
            None => {
                return Step::Continue(self.dispatch_next());
            },
        };
        match result {
            Ok(n) => {
                if n == 0 {
                    Step::Continue(self.teardown(token))
                } else if exchange.bytes_read > self.capacity || n > self.capacity
                    - exchange.bytes_read {
                    Step::Done(Err(ExchangeError::Overrun))
                } else {
                    let total = exchange.bytes_read + n;
                    let mut server = self;
                    if total >= server.expected {
                        server.connections.insert(
                            token,
                            Exchange { phase: Phase::ReadComplete, bytes_read: total },
                        );
                        let from = server.cursor;
                        Step::Continue(server.dispatch(from))
                    } else {
                        server.connections.insert(
                            token,
                            Exchange { phase: Phase::Reading, bytes_read: total },
                        );
                        server.pending = Action::Read { token, offset: total };
                        Step::Continue(server)
                    }
                }
            },
            Err(failure) => match failure.class {
                ErrorClass::Interrupted => Step::Continue(self),
                ErrorClass::WouldBlock => Step::Continue(self.dispatch_next()),
                ErrorClass::Other => Step::Done(Err(ExchangeError::Io(failure.source))),
            },
        }
    }

    fn on_written(self, token: usize, result: Result<usize, Failure>) -> (next: Step<Server>)
        ensures
            next@ == self@.on_written(token, result),
    {
        match result {
            Ok(n) => {
                if n < self.expected {
                    Step::Done(Err(ExchangeError::ShortWrite))
                } else {
                    Step::Continue(self.teardown(token))
                }
            },
            Err(failure) => match failure.class {
                ErrorClass::Interrupted => Step::Continue(self),
                ErrorClass::WouldBlock => {
                    let mut server = self;
                    let bytes_read = match server.connections.get(token) {
                        Some(exchange) => Some(exchange.bytes_read),
                        None => None,
                    };
                    match bytes_read {
                        Some(bytes_read) => {
                            server.connections.insert(
                                token,
                                Exchange { phase: Phase::Writing, bytes_read },
                            );
                        },
                        None => {},
                    }
                    Step::Continue(server.dispatch_next())
                },
                ErrorClass::Other => Step::Done(Err(ExchangeError::Io(failure.source))),
            },
        }
    }

    fn on_accepted(self, result: Result<(), Failure>) -> (next: Step<Server>)
        ensures
            next@ == self@.on_accepted(result),
    {
        match result {
            Ok(_) => {
                let mut server = self;
                let token = server.mint.mint();
                server.pending = Action::Register {
                    source: Source::Connection,
                    token,
                    interest: InterestSet::Both,
                };
                Step::Continue(server)
            },
            Err(failure) => match failure.class {
                ErrorClass::Interrupted => Step::Continue(self),
                ErrorClass::WouldBlock => Step::Continue(self.dispatch_next()),
                ErrorClass::Other => Step::Done(Err(ExchangeError::Io(failure.source))),
            },
        }
    }

    fn on_polled(self, result: Result<Vec<Readiness>, Failure>) -> (next: Step<Server>)
        ensures
            next@ == self@.on_polled(result),
    {
        match result {
            Ok(batch) => {
                let mut server = self;
                server.batch = batch;
                server.cursor = 0;
                Step::Continue(server.dispatch(0))
            },
            Err(failure) => match failure.class {
                ErrorClass::Interrupted => Step::Continue(self),
                _ => Step::Done(Err(ExchangeError::Io(failure.source))),
            },
        }
    }

    fn on_completed(self, result: Result<(), Failure>) -> (next: Step<Server>)
        ensures
            next@ == self@.on_completed(result),
    {
        match result {
            Err(failure) => Step::Done(Err(ExchangeError::Io(failure.source))),
            Ok(_) => match self.pending {
                Action::Register { source: Source::Listener, .. } => {
                    let mut server = self;
                    server.pending = Action::Poll;
                    Step::Continue(server)
                },
                Action::Register { source: Source::Connection, token, .. } => {
                    let mut server = self;
                    server.connections.insert(
                        token,
                        Exchange { phase: Phase::Accepted, bytes_read: 0 },
                    );
                    server.pending = Action::Accept;
                    Step::Continue(server)
                },
                Action::Deregister { .. } => Step::Done(Ok(())),
                _ => Step::Continue(self),
            },
        }
    }

    /// Takes in what came of the pending action and says where the loop
    /// stands: it goes on, with the action to perform next, or it has
    /// returned.
    pub fn step(self, input: Input) -> (next: Step<Server>)
        ensures
            next@ == self@.step(input),
            self@.wf() ==> (next matches Step::Continue(server) ==> server@.wf()),
    {
        proof {
            if self@.wf() {
                lemma_step_keeps_well_formed(self@, input);
            }
        }
        match input {
            Input::Completed(result) => match self.pending {
                Action::Register { .. } | Action::Reregister { .. } | Action::Deregister { .. } => {
                    self.on_completed(result)
                },
                _ => Step::Continue(self),
            },
            Input::Polled(result) => match self.pending {
                Action::Poll => self.on_polled(result),
                _ => Step::Continue(self),
            },
            Input::Accepted(result) => match self.pending {
                Action::Accept => self.on_accepted(result),
                _ => Step::Continue(self),
            },
            Input::Read(result) => match self.pending {
                Action::Read { token, .. } => self.on_read(token, result),
                _ => Step::Continue(self),
            },
            Input::Written(result) => match self.pending {
                Action::Write { token } => self.on_written(token, result),
                _ => Step::Continue(self),
            },
        }
    }
}

/// Looking through the events changes no exchange and mints no token, and
/// leaves the server well-formed.
pub proof fn lemma_dispatch_keeps_well_formed(model: ServerModel, from: nat)
    requires
        model.exchanges.dom().finite(),
        forall|token: usize| #[trigger]
            model.exchanges.contains_key(token) ==> model.exchanges[token].wf(
                model.expected,
                model.capacity,
            ),
    ensures
        model.dispatch(from).wf(),
        model.dispatch(from).exchanges == model.exchanges,
        model.dispatch(from).last_token == model.last_token,
        model.dispatch(from).reserved == model.reserved,
        model.dispatch(from).expected == model.expected,
        model.dispatch(from).capacity == model.capacity,
    decreases model.batch.len() - from,
{
    if from < model.batch.len() {
        if model.demand(model.batch[from as int]) is None {
            lemma_dispatch_keeps_well_formed(model, from + 1);
        }
    }
}

/// Every transition leaves a well-formed server well-formed: the bytes
/// accumulated for a connection never exceed what the receive buffer holds,
/// and a connection is replied to only after it has delivered as many bytes
/// as the payload holds.
pub proof fn lemma_step_keeps_well_formed(model: ServerModel, input: Input)
    requires
        model.wf(),
    ensures
        model.step(input) matches Step::Continue(next) ==> next.wf(),
{
    if model.pending.answered_by(input) {
        match input {
            Input::Polled(Ok(batch)) => {
                lemma_dispatch_keeps_well_formed(
                    ServerModel { batch: batch@, cursor: 0, ..model },
                    0,
                );
            },
            Input::Accepted(Err(failure)) => {
                lemma_dispatch_keeps_well_formed(model, model.cursor + 1);
            },
            Input::Read(result) => {
                if let Action::Read { token, .. } = model.pending {
                    lemma_dispatch_keeps_well_formed(model, model.cursor + 1);
                    if let Ok(n) = result {
                        let exchange = model.exchanges[token];
                        if n != 0 && n <= model.capacity - exchange.bytes_read
                            && exchange.bytes_read + n >= model.expected {
                            let total = (exchange.bytes_read + n) as usize;
                            let complete = Exchange {
                                phase: Phase::ReadComplete,
                                bytes_read: total,
                            };
                            lemma_dispatch_keeps_well_formed(
                                ServerModel {
                                    exchanges: model.exchanges.insert(token, complete),
                                    ..model
                                },
                                model.cursor,
                            );
                        }
                    }
                }
            },
            Input::Written(result) => {
                if let Action::Write { token } = model.pending {
                    lemma_dispatch_keeps_well_formed(model, model.cursor + 1);
                    let deferred = Exchange {
                        phase: Phase::Writing,
                        bytes_read: model.exchanges[token].bytes_read,
                    };
                    lemma_dispatch_keeps_well_formed(
                        ServerModel {
                            exchanges: model.exchanges.insert(token, deferred),
                            ..model
                        },
                        model.cursor + 1,
                    );
                }
            },
            _ => {},
        }
    }
}

/// A read that would block right after a read that brought part of the
/// expected bytes leaves what was accumulated as it was: the connection's
/// count still includes the bytes of the partial read, and no other
/// connection's exchange has changed.
pub proof fn lemma_would_block_keeps_accumulated(
    model: ServerModel,
    token: usize,
    offset: usize,
    n: usize,
    failure: Failure,
)
    requires
        model.wf(),
        model.pending == (Action::Read { token, offset }),
        0 < n,
        offset + n <= model.capacity,
        offset + n < model.expected,
        failure.class == ErrorClass::WouldBlock,
    ensures
        model.step(Input::Read(Ok(n))) matches Step::Continue(partial) && ({
            &&& partial.pending == (Action::Read { token, offset: (offset + n) as usize })
            &&& partial.exchanges[token].bytes_read == offset + n
            &&& partial.step(Input::Read(Err(failure))) matches Step::Continue(next)
                && next.exchanges == partial.exchanges
        }),
{
    let partial = model.step(Input::Read(Ok(n)))->Continue_0;
    lemma_dispatch_keeps_well_formed(partial, partial.cursor + 1);
}

/// A zero-length read ends the connection's exchange: the connection leaves
/// the registry and is deregistered, no write is attempted, and the loop
/// returns with success once the deregistration has succeeded. Until then
/// no other input moves the server.
pub proof fn lemma_early_close_ends_exchange(
    model: ServerModel,
    token: usize,
    offset: usize,
    input: Input,
)
    requires
        model.pending == (Action::Read { token, offset }),
        model.exchanges.contains_key(token),
    ensures
        model.step(Input::Read(Ok(0))) matches Step::Continue(closed) && ({
            &&& closed.pending == (Action::Deregister { token })
            &&& closed.exchanges == model.exchanges.remove(token)
            &&& closed.step(Input::Completed(Ok(()))) == Step::<ServerModel>::Done(Ok(()))
            &&& (closed.step(input) matches Step::Continue(next) ==> next == closed)
        }),
{
}

/// A write that takes fewer bytes than the payload holds and reports no
/// error ends the loop with `ShortWrite`.
pub proof fn lemma_short_write_is_fatal(model: ServerModel, token: usize, n: usize)
    requires
        model.pending == (Action::Write { token }),
        n < model.expected,
    ensures
        model.step(Input::Written(Ok(n))) == Step::<ServerModel>::Done(
            Err(ExchangeError::ShortWrite),
        ),
{
}

/// Accepting `n` connections in a row, as one drain of the listener does,
/// registers them under the tokens that count up by one from the larger of
/// the reserved token and the token minted last, as long as the counter does
/// not wrap: the tokens are strictly increasing, pairwise distinct, and none
/// is the reserved token.
pub proof fn lemma_drain_assigns_increasing_tokens(model: ServerModel, n: nat)
    requires
        model.pending == Action::Accept,
        model.last_token + n <= usize::MAX,
        model.reserved + n <= usize::MAX,
    ensures
        model.accept_many(n).pending == Action::Accept,
        model.accept_many(n).reserved == model.reserved,
        n > 0 ==> model.accept_many(n).last_token == nth_token(
            model.last_token,
            model.reserved,
            (n - 1) as nat,
        ),
        n == 0 ==> model.accept_many(n).last_token == model.last_token,
        forall|k: nat|
            k < n ==> ((#[trigger] model.accept_many(k)).step(Input::Accepted(Ok(())))
                matches Step::Continue(registering) && registering.pending == (Action::Register {
                source: Source::Connection,
                token: nth_token(model.last_token, model.reserved, k),
                interest: InterestSet::Both,
            })),
        forall|k: nat|
            k < n ==> model.accept_many(n).exchanges.contains_key(
                #[trigger] nth_token(model.last_token, model.reserved, k),
            ),
        forall|j: nat, k: nat|
            j < k < n ==> #[trigger] nth_token(model.last_token, model.reserved, j)
                < #[trigger] nth_token(model.last_token, model.reserved, k),
        forall|k: nat|
            k < n ==> #[trigger] nth_token(model.last_token, model.reserved, k) != model.reserved,
    decreases n,
{
    lemma_minted_tokens_increase(model.last_token, model.reserved, n);
    if n > 0 {
        let before = (n - 1) as nat;
        lemma_drain_assigns_increasing_tokens(model, before);
        let last = model.accept_many(before);
        assert(model.accept_many(n) == last.accept_one());
        assert(last.step(Input::Accepted(Ok(()))) matches Step::Continue(registering)
            && registering.pending == (Action::Register {
            source: Source::Connection,
            token: nth_token(model.last_token, model.reserved, before),
            interest: InterestSet::Both,
        }));
    }
}

/// The loop returns with success on one occasion only: the connection whose
/// exchange is over has been deregistered.
pub proof fn lemma_success_follows_the_teardown(model: ServerModel, input: Input)
    requires
        model.step(input) == Step::<ServerModel>::Done(Ok(())),
    ensures
        model.pending is Deregister,
        input matches Input::Completed(Ok(_)),
{
}

/// The server takes a connection out of its registry, to have it
/// deregistered, on two occasions only: a read from it has stored nothing,
/// or a write to it has taken the whole payload after the connection had
/// delivered as many bytes as the payload holds.
pub proof fn lemma_teardown_follows_the_exchange(model: ServerModel, input: Input)
    requires
        model.wf(),
        !(model.pending is Deregister),
        model.step(input) matches Step::Continue(next) && next.pending is Deregister,
    ensures
        ({
            ||| {
                &&& model.pending is Read
                &&& input matches Input::Read(Ok(n))
                &&& n == 0
            }
            ||| {
                &&& model.pending matches Action::Write { token }
                &&& model.exchanges[token].bytes_read >= model.expected
                &&& input matches Input::Written(Ok(n))
                &&& n >= model.expected
            }
        }),
{
    if model.pending.answered_by(input) {
        match input {
            Input::Polled(Ok(batch)) => {
                lemma_dispatch_keeps_well_formed(
                    ServerModel { batch: batch@, cursor: 0, ..model },
                    0,
                );
                lemma_dispatch_never_deregisters(
                    ServerModel { batch: batch@, cursor: 0, ..model },
                    0,
                );
            },
            Input::Accepted(_) => {
                lemma_dispatch_never_deregisters(model, model.cursor + 1);
            },
            Input::Read(result) => {
                if let Action::Read { token, .. } = model.pending {
                    lemma_dispatch_never_deregisters(model, model.cursor + 1);
                    if let Ok(n) = result {
                        let exchange = model.exchanges[token];
                        let total = (exchange.bytes_read + n) as usize;
                        let complete = Exchange { phase: Phase::ReadComplete, bytes_read: total };
                        lemma_dispatch_never_deregisters(
                            ServerModel {
                                exchanges: model.exchanges.insert(token, complete),
                                ..model
                            },
                            model.cursor,
                        );
                    }
                }
            },
            Input::Written(result) => {
                if let Action::Write { token } = model.pending {
                    lemma_dispatch_never_deregisters(model, model.cursor + 1);
                    let deferred = Exchange {
                        phase: Phase::Writing,
                        bytes_read: model.exchanges[token].bytes_read,
                    };
                    lemma_dispatch_never_deregisters(
                        ServerModel {
                            exchanges: model.exchanges.insert(token, deferred),
                            ..model
                        },
                        model.cursor + 1,
                    );
                }
            },
            _ => {},
        }
    }
}

/// Looking through the events never calls for a deregistration.
proof fn lemma_dispatch_never_deregisters(model: ServerModel, from: nat)
    ensures
        !(model.dispatch(from).pending is Deregister),
    decreases model.batch.len() - from,
{
    if from < model.batch.len() {
        if model.demand(model.batch[from as int]) is None {
            lemma_dispatch_never_deregisters(model, from + 1);
        }
    }
}

} // verus!
