//! The client's side of the exchange.
//!
//! The connection is registered once for both conditions under the client's
//! token. On each wakeup the events for that token are handled in the order
//! in which they came. Until the payload has been written, an event that says
//! the connection is writable has the whole payload written once; after the
//! write the connection is reregistered for readable readiness alone. From
//! then on an event that says the connection is readable has it read from
//! until as many bytes as the payload holds have arrived, which ends the
//! loop, or until the transport has no more for now.

use crate::failure::{ErrorClass, ExchangeError, Failure};
use crate::interest::InterestSet;
use crate::protocol::{Action, Input, Source, Step};
use crate::readiness::Readiness;
use vstd::prelude::*;

verus! {

/// The client's state as a mathematical value.
pub struct ClientModel {
    /// The connection's token.
    pub token: usize,
    /// The length of the payload: how many bytes are written, and how many
    /// bytes of reply end the loop.
    pub expected: usize,
    /// The size of the receive buffer.
    pub capacity: usize,
    /// Whether the payload has been written.
    pub written: bool,
    /// The bytes accumulated in the receive buffer so far.
    pub bytes_read: usize,
    /// The events of the current wakeup.
    pub batch: Seq<Readiness>,
    /// The index in `batch` of the event that is being handled.
    pub cursor: nat,
    /// The action whose outcome the client is waiting for.
    pub pending: Action,
}

impl ClientModel {
    /// The state before anything has happened: the connection is to be
    /// registered.
    pub open spec fn initial(token: usize, expected: usize, capacity: usize) -> ClientModel {
        ClientModel {
            token,
            expected,
            capacity,
            written: false,
            bytes_read: 0,
            batch: Seq::empty(),
            cursor: 0,
            pending: Action::Register {
                source: Source::Connection,
                token,
                interest: InterestSet::Both,
            },
        }
    }

    /// The accumulated bytes fit the receive buffer and are fewer than
    /// expected, the client writes only before it has written and reads only
    /// after, and it works on the connection only while it handles an event
    /// for it.
    pub open spec fn wf(self) -> bool {
        &&& self.cursor <= self.batch.len()
        &&& self.bytes_read <= self.capacity
        &&& self.bytes_read == 0 || (self.written && self.bytes_read < self.expected)
        &&& match self.pending {
            Action::Register { source, token, interest } => {
                &&& source == Source::Connection
                &&& token == self.token
                &&& interest == InterestSet::Both
                &&& !self.written
                &&& self.batch.len() == 0
            },
            Action::Poll => self.batch.len() == 0,
            Action::Write { token } => {
                &&& token == self.token
                &&& !self.written
                &&& self.cursor < self.batch.len()
            },
            Action::Reregister { token, interest } => {
                &&& token == self.token
                &&& interest == InterestSet::Readable
                &&& self.written
                &&& self.cursor < self.batch.len()
            },
            Action::Read { token, offset } => {
                &&& token == self.token
                &&& offset == self.bytes_read
                &&& self.written
                &&& self.cursor < self.batch.len()
            },
            Action::Accept | Action::Deregister { .. } => false,
        }
    }

    /// What `event` calls for, if anything.
    pub open spec fn demand(self, event: Readiness) -> Option<Action> {
        if event.token != self.token {
            None
        } else if !self.written {
            if event.writable {
                Some(Action::Write { token: self.token })
            } else {
                None
            }
        } else if event.readable {
            Some(Action::Read { token: self.token, offset: self.bytes_read })
        } else {
            None
        }
    }

    /// The state in which the client waits next, looking through the events
    /// of the batch from index `from` on: for what the first event that
    /// calls for anything calls for, and for the poller where none does.
    pub open spec fn dispatch(self, from: nat) -> ClientModel
        decreases self.batch.len() - from,
    {
        if from >= self.batch.len() {
            ClientModel { batch: Seq::empty(), cursor: 0, pending: Action::Poll, ..self }
        } else {
            match self.demand(self.batch[from as int]) {
                Some(action) => ClientModel { cursor: from, pending: action, ..self },
                None => self.dispatch(from + 1),
            }
        }
    }

    /// The outcome of a read.
    pub open spec fn on_read(self, result: Result<usize, Failure>) -> Step<ClientModel> {
        match result {
            Ok(n) => {
                if n == 0 {
                    Step::Continue(self.dispatch(self.cursor + 1))
                } else if self.bytes_read > self.capacity || n > self.capacity - self.bytes_read {
                    Step::Done(Err(ExchangeError::Overrun))
                } else {
                    let total = (self.bytes_read + n) as usize;
                    if total >= self.expected {
                        Step::Done(Ok(()))
                    } else {
                        Step::Continue(
                            ClientModel {
                                bytes_read: total,
                                pending: Action::Read { token: self.token, offset: total },
                                ..self
                            },
                        )
                    }
                }
            },
            Err(failure) => match failure.class {
                ErrorClass::Interrupted => Step::Continue(self),
                ErrorClass::WouldBlock => Step::Continue(self.dispatch(self.cursor + 1)),
                ErrorClass::Other => Step::Done(Err(ExchangeError::Io(failure.source))),
            },
        }
    }

    /// The outcome of writing the payload.
    pub open spec fn on_written(self, result: Result<usize, Failure>) -> Step<ClientModel> {
        match result {
            Ok(n) => {
                if n < self.expected {
                    Step::Done(Err(ExchangeError::ShortWrite))
                } else {
                    Step::Continue(
                        ClientModel {
                            written: true,
                            pending: Action::Reregister {
                                token: self.token,
                                interest: InterestSet::Readable,
                            },
                            ..self
                        },
                    )
                }
            },
            Err(failure) => match failure.class {
                ErrorClass::Interrupted => Step::Continue(self),
                ErrorClass::WouldBlock => Step::Continue(self.dispatch(self.cursor + 1)),
                ErrorClass::Other => Step::Done(Err(ExchangeError::Io(failure.source))),
            },
        }
    }

    /// The outcome of a poll.
    pub open spec fn on_polled(self, result: Result<Vec<Readiness>, Failure>) -> Step<
        ClientModel,
    > {
        match result {
            Ok(batch) => Step::Continue(
                ClientModel { batch: batch@, cursor: 0, ..self }.dispatch(0),
            ),
            Err(failure) => {
                if failure.class == ErrorClass::Interrupted {
                    Step::Continue(self)
                } else {
                    Step::Done(Err(ExchangeError::Io(failure.source)))
                }
            },
        }
    }

    /// The outcome of a registration or reregistration.
    pub open spec fn on_completed(self, result: Result<(), Failure>) -> Step<ClientModel> {
        match result {
            Err(failure) => Step::Done(Err(ExchangeError::Io(failure.source))),
            Ok(_) => match self.pending {
                Action::Register { .. } => Step::Continue(
                    ClientModel { pending: Action::Poll, ..self },
                ),
                Action::Reregister { .. } => Step::Continue(self.dispatch(self.cursor)),
                _ => Step::Continue(self),
            },
        }
    }

    /// The client's transition: where it stands once `input` has come in.
    /// An input that does not report on the pending action changes nothing.
    pub open spec fn step(self, input: Input) -> Step<ClientModel> {
        if !self.pending.answered_by(input) {
            Step::Continue(self)
        } else {
            match input {
                Input::Completed(result) => self.on_completed(result),
                Input::Polled(result) => self.on_polled(result),
                Input::Read(result) => self.on_read(result),
                Input::Written(result) => self.on_written(result),
                Input::Accepted(_) => Step::Continue(self),
            }
        }
    }
}

/// The client's side of the exchange, as a machine that is told what
/// happened and says what to do next.
pub struct Client {
    token: usize,
    expected: usize,
    capacity: usize,
    written: bool,
    bytes_read: usize,
    batch: Vec<Readiness>,
    cursor: usize,
    pending: Action,
}

impl View for Client {
    type V = ClientModel;

    closed spec fn view(&self) -> ClientModel {
        ClientModel {
            token: self.token,
            expected: self.expected,
            capacity: self.capacity,
            written: self.written,
            bytes_read: self.bytes_read,
            batch: self.batch@,
            cursor: self.cursor as nat,
            pending: self.pending,
        }
    }
}

impl View for Step<Client> {
    type V = Step<ClientModel>;

    open spec fn view(&self) -> Step<ClientModel> {
        match *self {
            Step::Continue(client) => Step::Continue(client@),
            Step::Done(result) => Step::Done(result),
        }
    }
}

impl Client {
    /// A client whose connection has the token `token`, whose payload is
    /// `payload_len` bytes long and whose receive buffer holds `capacity`
    /// bytes. Its first action is to register the connection.
    pub fn new(token: usize, payload_len: usize, capacity: usize) -> (client: Client)
        ensures
            client@ == ClientModel::initial(token, payload_len, capacity),
            client@.wf(),
    {
        let client = Client {
            token,
            expected: payload_len,
            capacity,
            written: false,
            bytes_read: 0,
            batch: Vec::new(),
            cursor: 0,
            pending: Action::Register {
                source: Source::Connection,
                token,
                interest: InterestSet::Both,
            },
        };
        assert(client@.batch =~= Seq::empty());
        client
    }

    /// The action whose outcome the client is waiting for.
    pub fn action(&self) -> (action: Action)
        ensures
            action == self@.pending,
    {
        self.pending
    }

    /// Whether the payload has been written.
    pub fn has_written(&self) -> (written: bool)
        ensures
            written == self@.written,
    {
        self.written
    }

    /// The bytes accumulated in the receive buffer so far.
    pub fn bytes_read(&self) -> (count: usize)
        ensures
            count == self@.bytes_read,
    {
        self.bytes_read
    }

    fn demand(&self, event: Readiness) -> (action: Option<Action>)
        ensures
            action == self@.demand(event),
    {
        if event.token != self.token {
            None
        } else if !self.written {
            if event.writable {
                Some(Action::Write { token: self.token })
            } else {
                None
            }
        } else if event.readable {
            Some(Action::Read { token: self.token, offset: self.bytes_read })
        } else {
            None
        }
    }

    fn dispatch(self, from: usize) -> (next: Client)
        ensures
            next@ == self@.dispatch(from as nat),
    {
        let mut client = self;
        let mut index = from;
        while index < client.batch.len()
            invariant
                client@ == self@,
                self@.dispatch(index as nat) == self@.dispatch(from as nat),
            decreases client.batch.len() - index,
        {
            let event = client.batch[index];
            match client.demand(event) {
                Some(action) => {
                    client.cursor = index;
                    client.pending = action;
                    return client;
                },
                None => {},
            }
            index = index + 1;
        }
        client.batch = Vec::new();
        client.cursor = 0;
        client.pending = Action::Poll;
        assert(client@.batch =~= Seq::empty());
        client
    }

    /// Goes on with the event after the one that is being handled.
    fn dispatch_next(self) -> (next: Client)
        ensures
            next@ == self@.dispatch(self@.cursor + 1),
    {
        if self.cursor < self.batch.len() {
            let from = self.cursor + 1;
            self.dispatch(from)
        } else {
            let from = self.cursor;
            self.dispatch(from)
        }
    }

    fn on_read(self, result: Result<usize, Failure>) -> (next: Step<Client>)
        ensures
            next@ == self@.on_read(result),
    {
        match result {
            Ok(n) => {
                if n == 0 {
                    Step::Continue(self.dispatch_next())
                } else if self.bytes_read > self.capacity || n > self.capacity - self.bytes_read {
                    Step::Done(Err(ExchangeError::Overrun))
                } else {
                    let total = self.bytes_read + n;
                    if total >= self.expected {
                        Step::Done(Ok(()))
                    } else {
                        let mut client = self;
                        client.bytes_read = total;
                        client.pending = Action::Read { token: client.token, offset: total };
                        Step::Continue(client)
                    }
                }
            },
            Err(failure) => match failure.class {
                ErrorClass::Interrupted => Step::Continue(self),
                ErrorClass::WouldBlock => Step::Continue(self.dispatch_next()),
                ErrorClass::Other => Step::Done(Err(ExchangeError::Io(failure.source))),
            },
        }
    }

    fn on_written(self, result: Result<usize, Failure>) -> (next: Step<Client>)
        ensures
            next@ == self@.on_written(result),
    {
        match result {
            Ok(n) => {
                if n < self.expected {
                    Step::Done(Err(ExchangeError::ShortWrite))
                } else {
                    let mut client = self;
                    client.written = true;
                    client.pending = Action::Reregister {
                        token: client.token,
                        interest: InterestSet::Readable,
                    };
                    Step::Continue(client)
                }
            },
            Err(failure) => match failure.class {
                ErrorClass::Interrupted => Step::Continue(self),
                ErrorClass::WouldBlock => Step::Continue(self.dispatch_next()),
                ErrorClass::Other => Step::Done(Err(ExchangeError::Io(failure.source))),
            },
        }
    }

    fn on_polled(self, result: Result<Vec<Readiness>, Failure>) -> (next: Step<Client>)
        ensures
            next@ == self@.on_polled(result),
    {
        match result {
            Ok(batch) => {
                let mut client = self;
                client.batch = batch;
                client.cursor = 0;
                Step::Continue(client.dispatch(0))
            },
            Err(failure) => match failure.class {
                ErrorClass::Interrupted => Step::Continue(self),
                _ => Step::Done(Err(ExchangeError::Io(failure.source))),
            },
        }
    }

    fn on_completed(self, result: Result<(), Failure>) -> (next: Step<Client>)
        ensures
            next@ == self@.on_completed(result),
    {
        match result {
            Err(failure) => Step::Done(Err(ExchangeError::Io(failure.source))),
            Ok(_) => match self.pending {
                Action::Register { .. } => {
                    let mut client = self;
                    client.pending = Action::Poll;
                    Step::Continue(client)
                },
                Action::Reregister { .. } => {
                    let from = self.cursor;
                    Step::Continue(self.dispatch(from))
                },
                _ => Step::Continue(self),
            },
        }
    }

    /// Takes in what came of the pending action and says where the loop
    /// stands: it goes on, with the action to perform next, or it has
    /// returned.
    pub fn step(self, input: Input) -> (next: Step<Client>)
        ensures
            next@ == self@.step(input),
            self@.wf() ==> (next matches Step::Continue(client) ==> client@.wf()),
    {
        proof {
            if self@.wf() {
                lemma_step_keeps_well_formed(self@, input);
            }
        }
        match input {
            Input::Completed(result) => match self.pending {
                Action::Register { .. } | Action::Reregister { .. } | Action::Deregister { .. } => {
                    self.on_completed(result)
                },
                _ => Step::Continue(self),
            },
            Input::Polled(result) => match self.pending {
                Action::Poll => self.on_polled(result),
                _ => Step::Continue(self),
            },
            Input::Read(result) => match self.pending {
                Action::Read { .. } => self.on_read(result),
                _ => Step::Continue(self),
            },
            Input::Written(result) => match self.pending {
                Action::Write { .. } => self.on_written(result),
                _ => Step::Continue(self),
            },
            Input::Accepted(_) => Step::Continue(self),
        }
    }
}

/// Looking through the events changes neither what was written nor what
/// was accumulated, and leaves the client well-formed.
pub proof fn lemma_dispatch_keeps_well_formed(model: ClientModel, from: nat)
    requires
        model.bytes_read <= model.capacity,
        model.bytes_read == 0 || (model.written && model.bytes_read < model.expected),
    ensures
        model.dispatch(from).wf(),
        model.dispatch(from).written == model.written,
        model.dispatch(from).bytes_read == model.bytes_read,
        model.dispatch(from).token == model.token,
        model.dispatch(from).expected == model.expected,
        model.dispatch(from).capacity == model.capacity,
    decreases model.batch.len() - from,
{
    if from < model.batch.len() {
        if model.demand(model.batch[from as int]) is None {
            lemma_dispatch_keeps_well_formed(model, from + 1);
        }
    }
}

/// Every transition leaves a well-formed client well-formed: the bytes
/// accumulated never exceed what the receive buffer holds.
pub proof fn lemma_step_keeps_well_formed(model: ClientModel, input: Input)
    requires
        model.wf(),
    ensures
        model.step(input) matches Step::Continue(next) ==> next.wf(),
{
    if model.pending.answered_by(input) {
        lemma_dispatch_keeps_well_formed(model, model.cursor);
        lemma_dispatch_keeps_well_formed(model, model.cursor + 1);
        if let Input::Polled(Ok(batch)) = input {
            lemma_dispatch_keeps_well_formed(
                ClientModel { batch: batch@, cursor: 0, ..model },
                0,
            );
        }
    }
}

/// A read that would block right after a read that brought part of the
/// expected bytes leaves what was accumulated as it was: the count still
/// includes the bytes of the partial read.
pub proof fn lemma_would_block_keeps_accumulated(model: ClientModel, n: usize, failure: Failure)
    requires
        model.wf(),
        model.pending is Read,
        0 < n,
        model.bytes_read + n <= model.capacity,
        model.bytes_read + n < model.expected,
        failure.class == ErrorClass::WouldBlock,
    ensures
        model.step(Input::Read(Ok(n))) matches Step::Continue(partial) && ({
            &&& partial.pending == (Action::Read {
                token: model.token,
                offset: (model.bytes_read + n) as usize,
            })
            &&& partial.bytes_read == model.bytes_read + n
            &&& partial.step(Input::Read(Err(failure))) matches Step::Continue(next)
                && next.bytes_read == partial.bytes_read
        }),
{
    let partial = model.step(Input::Read(Ok(n)))->Continue_0;
    lemma_dispatch_keeps_well_formed(partial, partial.cursor + 1);
}

/// Once the payload has been written it is never written again, whatever
/// comes in: a zero-length read among it only ends the reading for this
/// wakeup and leaves what was accumulated as it was.
pub proof fn lemma_writes_once(model: ClientModel, input: Input)
    requires
        model.wf(),
        model.written,
    ensures
        model.step(input) matches Step::Continue(next) ==> next.written && !(next.pending is Write),
        model.pending is Read ==> (model.step(Input::Read(Ok(0))) matches Step::Continue(next)
            && next.bytes_read == model.bytes_read),
{
    lemma_step_keeps_well_formed(model, input);
    lemma_dispatch_keeps_well_formed(model, model.cursor);
    lemma_dispatch_keeps_well_formed(model, model.cursor + 1);
    if let Input::Polled(Ok(batch)) = input {
        lemma_dispatch_keeps_well_formed(ClientModel { batch: batch@, cursor: 0, ..model }, 0);
    }
}

/// A write that takes fewer bytes than the payload holds and reports no
/// error ends the loop with `ShortWrite`.
pub proof fn lemma_short_write_is_fatal(model: ClientModel, n: usize)
    requires
        model.pending is Write,
        n < model.expected,
    ensures
        model.step(Input::Written(Ok(n))) == Step::<ClientModel>::Done(
            Err(ExchangeError::ShortWrite),
        ),
{
}

/// The loop returns with success on one occasion only: a read has brought
/// the accumulated bytes up to the expected length or beyond, within what
/// the receive buffer holds.
pub proof fn lemma_success_follows_the_reply(model: ClientModel, input: Input)
    requires
        model.step(input) == Step::<ClientModel>::Done(Ok(())),
    ensures
        model.pending is Read,
        input matches Input::Read(Ok(n)) && n > 0 && model.expected <= model.bytes_read + n
            <= model.capacity,
{
}

} // verus!
